pub mod engine;
pub mod export;
pub mod laws;
pub mod model;
pub mod priority;
pub mod sampling;

pub use engine::Ballot;
pub use engine::ConfigurationInconsistency;
pub use model::DegenerateGroup;
pub use model::Group;
pub use model::Household;
pub use model::Person;

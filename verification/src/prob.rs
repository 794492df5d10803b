pub mod probability;

pub use probability::Probability;

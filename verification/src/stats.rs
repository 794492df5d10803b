pub mod distr;
pub mod generic;

pub use generic::Generic;

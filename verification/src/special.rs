pub mod beta;
pub mod digamma;
pub mod error;
pub mod functions;
pub mod gamma;
pub mod hypergeometric;
pub mod num;
pub mod polygamma;
pub mod probability;

pub use beta::Beta;
pub use digamma::Digamma;
pub use error::Error;
pub use functions::Functions;
pub use gamma::Gamma;
pub use hypergeometric::Hypergeometric;
pub use num::Num;
pub use polygamma::Polygamma;
pub use probability::Probability;

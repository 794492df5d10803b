pub mod functions;
pub mod integration;

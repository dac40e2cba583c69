pub mod errors;
pub mod parser;
pub mod topology;

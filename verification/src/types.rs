pub mod channel;
pub mod parsed_nodes;

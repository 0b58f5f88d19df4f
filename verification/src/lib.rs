pub mod laws;
pub mod parser;
pub mod queue;
pub mod render;

pub mod err;
pub mod kind;
pub mod node;
pub mod parser;

pub mod kind;
pub mod position;
pub mod token;
pub mod tokenizer;

pub mod dispatch;
pub mod laws;
pub mod messages;
pub mod text;
pub mod tokenizer;

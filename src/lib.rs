pub mod catalog;
pub mod message;
pub mod poll;
pub mod resolve;
pub mod table;

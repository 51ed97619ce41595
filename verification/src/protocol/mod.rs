pub mod messages;
pub mod milestone;
pub mod worker;

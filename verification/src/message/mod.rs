pub mod error;
pub mod essence;
pub mod input;
pub mod output;
pub mod packable;
pub mod payload;

pub mod solidifier;
pub mod transaction;

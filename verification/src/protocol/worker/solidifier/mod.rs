pub mod milestone;

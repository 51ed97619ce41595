pub mod confirmation;

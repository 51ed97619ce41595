pub mod wots;

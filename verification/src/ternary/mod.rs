pub mod bigint;
pub mod compare;
pub mod trit;
pub mod value;

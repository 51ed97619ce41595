pub mod transaction_broadcast;

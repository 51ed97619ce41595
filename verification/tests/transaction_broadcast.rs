use bee::protocol::messages::transaction_broadcast::{
    TransactionBroadcast, TRANSACTION_BROADCAST_VARIABLE_MAX_SIZE,
    TRANSACTION_BROADCAST_VARIABLE_MIN_SIZE,
};

#[test]
fn empty() {}

#[test]
fn transaction_broadcast_size_range() {
    let range = TransactionBroadcast::size_range();
    assert_eq!(range, 292..1605);
    assert_eq!(range.start, TRANSACTION_BROADCAST_VARIABLE_MIN_SIZE);
    assert_eq!(range.end, TRANSACTION_BROADCAST_VARIABLE_MAX_SIZE + 1);
}

#[test]
fn transaction_broadcast_keeps_bytes() {
    let message = TransactionBroadcast::new(vec![4, 5, 6]);
    assert_eq!(message.into_transaction(), vec![4, 5, 6]);
}

#[test]
fn transaction_broadcast_codec_is_empty() {
    assert_eq!(TransactionBroadcast::new(vec![1, 2]).to_bytes(), Vec::<u8>::new());
    assert_eq!(TransactionBroadcast::from_bytes(&[1, 2, 3]).into_transaction(), Vec::<u8>::new());
}

use std::ops::Range;
use vstd::prelude::*;

verus! {

/// The type identifier of a transaction broadcast message.
pub const TRANSACTION_BROADCAST_TYPE_ID: u8 = 4;

/// The smallest size in bytes of a transaction broadcast message.
pub const TRANSACTION_BROADCAST_VARIABLE_MIN_SIZE: usize = 292;

/// The largest size in bytes of a transaction broadcast message.
pub const TRANSACTION_BROADCAST_VARIABLE_MAX_SIZE: usize = 1604;

/// A message that carries the bytes of one transaction.
pub struct TransactionBroadcast {
    transaction: Vec<u8>,
}

impl View for TransactionBroadcast {
    /// The transaction's bytes.
    type V = Seq<u8>;

    closed spec fn view(&self) -> Seq<u8> {
        self.transaction@
    }
}

impl TransactionBroadcast {
    /// Wraps the bytes of a transaction.
    pub fn new(transaction: Vec<u8>) -> (message: Self)
        ensures
            message@ == transaction@,
    {
        Self { transaction: transaction }
    }

    /// Gives back the transaction's bytes.
    pub fn into_transaction(self) -> (transaction: Vec<u8>)
        ensures
            transaction@ == self@,
    {
        self.transaction
    }

    /// The accepted sizes of the message in bytes:
    /// `TRANSACTION_BROADCAST_VARIABLE_MIN_SIZE` up to and including
    /// `TRANSACTION_BROADCAST_VARIABLE_MAX_SIZE`.
    pub fn size_range() -> (range: Range<usize>)
        ensures
            range.start == TRANSACTION_BROADCAST_VARIABLE_MIN_SIZE,
            range.end == TRANSACTION_BROADCAST_VARIABLE_MAX_SIZE + 1,
    {
        TRANSACTION_BROADCAST_VARIABLE_MIN_SIZE..(TRANSACTION_BROADCAST_VARIABLE_MAX_SIZE + 1)
    }

    /// Decodes a message; the decoding is not implemented yet and yields a
    /// message with no transaction bytes, whatever the input.
    pub fn from_bytes(_bytes: &[u8]) -> (message: Self)
        ensures
            message@ == Seq::<u8>::empty(),
    {
        Self { transaction: Vec::new() }
    }

    /// Encodes the message; the encoding is not implemented yet and yields no
    /// bytes.
    pub fn to_bytes(self) -> (bytes: Vec<u8>)
        ensures
            bytes@ == Seq::<u8>::empty(),
    {
        Vec::new()
    }
}

} // verus!

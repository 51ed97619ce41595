//! Transaction inputs: references to outputs of earlier transactions.
use crate::message::packable::{
    bytes_eq, lemma_le_roundtrip, parse_bytes, parse_u16, parse_u8, read_bytes, read_u16, read_u8, write_bytes,
    write_u16, write_u8, PackableError, SpecParse,
};
use vstd::bytes::*;
use vstd::prelude::*;

verus! {

/// The length in bytes of a transaction identifier.
pub const TRANSACTION_ID_LENGTH: usize = 32;

/// The tag of an input that spends an unspent transaction output.
pub const UTXO_INPUT_KIND: u8 = 0;

/// The abstract value of an input: the identifier of the transaction whose
/// output it spends, and the index of that output.
pub struct UtxoInputModel {
    pub id: Seq<u8>,
    pub index: u16,
}

/// An input that spends the output at `index` of transaction `id`.
#[derive(Debug)]
pub struct UTXOInput {
    id: Vec<u8>,
    index: u16,
}

impl View for UTXOInput {
    type V = UtxoInputModel;

    closed spec fn view(&self) -> UtxoInputModel {
        UtxoInputModel { id: self.id@, index: self.index }
    }
}

impl Clone for UTXOInput {
    /// A copy of the input.
    fn clone(&self) -> (copy: Self)
        ensures
            copy@ == self@,
    {
        proof {
            use_type_invariant(self);
        }
        let id = self.id.clone();
        assert(id@ =~= self.id@);
        UTXOInput { id, index: self.index }
    }
}

impl Clone for Input {
    /// A copy of the input.
    fn clone(&self) -> (copy: Self)
        ensures
            copy@ == self@,
    {
        match self {
            Input::UTXO(u) => Input::UTXO(u.clone()),
        }
    }
}

impl UTXOInput {
    #[verifier::type_invariant]
    closed spec fn inv(self) -> bool {
        self.id@.len() == TRANSACTION_ID_LENGTH
    }

    /// Creates the input that spends output `index` of transaction `id`.
    pub fn new(id: Vec<u8>, index: u16) -> (input: Self)
        requires
            id@.len() == TRANSACTION_ID_LENGTH,
        ensures
            input@ == (UtxoInputModel { id: id@, index }),
    {
        UTXOInput { id, index }
    }

    /// The identifier of the transaction whose output is spent.
    pub fn id(&self) -> (id: &[u8])
        ensures
            id@ == self@.id,
            id@.len() == TRANSACTION_ID_LENGTH,
    {
        proof {
            use_type_invariant(self);
        }
        self.id.as_slice()
    }

    /// The index of the spent output.
    pub fn index(&self) -> (index: u16)
        ensures
            index == self@.index,
    {
        self.index
    }
}

/// An input of a transaction; spending an unspent output is the only kind.
#[derive(Debug)]
pub enum Input {
    UTXO(UTXOInput),
}

impl View for Input {
    type V = UtxoInputModel;

    open spec fn view(&self) -> UtxoInputModel {
        match self {
            Input::UTXO(u) => u@,
        }
    }
}

/// The packed form of an input: its tag, the transaction identifier and the
/// output index.
pub open spec fn serialize_input(i: UtxoInputModel) -> Seq<u8> {
    seq![UTXO_INPUT_KIND] + i.id + spec_u16_to_le_bytes(i.index)
}

/// Reads an input from the front of `s`.
pub open spec fn parse_input(s: Seq<u8>) -> SpecParse<UtxoInputModel> {
    match parse_u8(s) {
        Err(e) => Err(e),
        Ok((kind, a)) => if kind != UTXO_INPUT_KIND {
            Err(PackableError::InvalidType)
        } else {
            match parse_bytes(s.skip(a as int), TRANSACTION_ID_LENGTH as nat) {
                Err(e) => Err(e),
                Ok((id, b)) => match parse_u16(s.skip((a + b) as int)) {
                    Err(e) => Err(e),
                    Ok((index, c)) => Ok((UtxoInputModel { id, index }, a + b + c)),
                },
            }
        },
    }
}

/// What every input value satisfies: a transaction identifier of the right
/// length.
pub open spec fn input_packable(i: UtxoInputModel) -> bool {
    i.id.len() == TRANSACTION_ID_LENGTH
}

/// Reading back a packed input gives the input and consumes exactly its
/// packed form, whatever follows it.
pub proof fn lemma_input_roundtrip(i: UtxoInputModel, rest: Seq<u8>)
    requires
        input_packable(i),
    ensures
        serialize_input(i).len() == 3 + TRANSACTION_ID_LENGTH,
        parse_input(serialize_input(i) + rest) == Ok::<(UtxoInputModel, nat), PackableError>(
            (i, serialize_input(i).len()),
        ),
{
    lemma_le_roundtrip();
    let s = serialize_input(i) + rest;
    assert(s.skip(1).take(32) =~= i.id);
    assert(s.skip(33).take(2) =~= spec_u16_to_le_bytes(i.index));
}

/// An input that was read is what its bytes encode.
pub proof fn lemma_input_parse_serialize(s: Seq<u8>)
    ensures
        parse_input(s) matches Ok((i, n)) ==> {
            &&& input_packable(i)
            &&& n <= s.len()
            &&& serialize_input(i) == s.take(n as int)
        },
{
    lemma_le_roundtrip();
    if let Ok((i, n)) = parse_input(s) {
        assert(s.skip(33).take(2) =~= s.subrange(33, 35));
        assert(serialize_input(i) =~= s.take(n as int));
    }
}

impl Input {
    /// The index of the spent output.
    pub fn index(&self) -> (index: u16)
        ensures
            index == self@.index,
    {
        match self {
            Input::UTXO(u) => u.index(),
        }
    }

    /// Whether two inputs spend the same output of the same transaction.
    pub fn equals(&self, other: &Input) -> (eq: bool)
        ensures
            eq == (self@ == other@),
    {
        match (self, other) {
            (Input::UTXO(a), Input::UTXO(b)) => a.index() == b.index() && bytes_eq(a.id(), b.id()),
        }
    }

    /// The input's tag, identifier and index, appended to `buf`.
    pub fn pack(&self, buf: &mut Vec<u8>)
        ensures
            final(buf)@ == old(buf)@ + serialize_input(self@),
    {
        match self {
            Input::UTXO(u) => {
                write_u8(buf, UTXO_INPUT_KIND);
                write_bytes(buf, u.id());
                write_u16(buf, u.index());
            },
        }
        assert(buf@ =~= old(buf)@ + serialize_input(self@));
    }

    /// The length of the packed form.
    pub fn packed_len(&self) -> (len: usize)
        ensures
            len == serialize_input(self@).len(),
    {
        proof {
            lemma_le_roundtrip();
        }
        match self {
            Input::UTXO(u) => {
                proof {
                    use_type_invariant(u);
                }
                1 + TRANSACTION_ID_LENGTH + 2
            },
        }
    }

    /// Reads an input at `pos` of `buf`; returns it with the position after
    /// it.
    pub fn unpack(buf: &[u8], pos: usize) -> (res: Result<(Input, usize), PackableError>)
        requires
            pos <= buf@.len(),
        ensures
            match parse_input(buf@.skip(pos as int)) {
                Ok((v, n)) => res matches Ok((i, p)) && i@ == v && p == pos + n,
                Err(e) => res matches Err(f) && f == e,
            },
    {
        let ghost s = buf@.skip(pos as int);
        let (kind, p1) = match read_u8(buf, pos) {
            Ok(r) => r,
            Err(e) => return Err(e),
        };
        if kind != UTXO_INPUT_KIND {
            return Err(PackableError::InvalidType);
        }
        assert(buf@.skip(p1 as int) =~= s.skip(1));
        let (id, p2) = match read_bytes(buf, p1, TRANSACTION_ID_LENGTH) {
            Ok(r) => r,
            Err(e) => return Err(e),
        };
        assert(buf@.skip(p2 as int) =~= s.skip(33));
        let (index, p3) = match read_u16(buf, p2) {
            Ok(r) => r,
            Err(e) => return Err(e),
        };
        Ok((Input::UTXO(UTXOInput::new(id, index)), p3))
    }
}

} // verus!

//! Payloads that a transaction essence may carry.
use crate::message::packable::{
    lemma_le_roundtrip, parse_bytes, parse_u16, parse_u32, read_bytes, read_u16, read_u32,
    write_bytes, write_u16, write_u32, PackableError, SpecParse,
};
use vstd::bytes::*;
use vstd::prelude::*;

verus! {

/// The tag of an indexation payload.
pub const INDEXATION_PAYLOAD_KIND: u32 = 2;

/// The abstract value of an indexation payload.
pub struct IndexationModel {
    pub index: Seq<u8>,
    pub data: Seq<u8>,
}

/// The abstract value of a payload; an indexation is the only kind.
pub enum PayloadModel {
    Indexation(IndexationModel),
}

/// A payload that attaches `data` under the key `index`.
#[derive(Debug)]
pub struct Indexation {
    index: Vec<u8>,
    data: Vec<u8>,
}

impl View for Indexation {
    type V = IndexationModel;

    closed spec fn view(&self) -> IndexationModel {
        IndexationModel { index: self.index@, data: self.data@ }
    }
}

impl Clone for Indexation {
    /// A copy of the payload.
    fn clone(&self) -> (copy: Self)
        ensures
            copy@ == self@,
    {
        let index = self.index.clone();
        let data = self.data.clone();
        assert(index@ =~= self.index@);
        assert(data@ =~= self.data@);
        Indexation { index, data }
    }
}

impl Clone for Payload {
    /// A copy of the payload.
    fn clone(&self) -> (copy: Self)
        ensures
            copy@ == self@,
    {
        match self {
            Payload::Indexation(i) => Payload::Indexation(i.clone()),
        }
    }
}

impl Indexation {
    /// Creates the payload that attaches `data` under `index`.
    pub fn new(index: Vec<u8>, data: Vec<u8>) -> (indexation: Self)
        ensures
            indexation@ == (IndexationModel { index: index@, data: data@ }),
    {
        Indexation { index, data }
    }

    /// The key.
    pub fn index(&self) -> (index: &[u8])
        ensures
            index@ == self@.index,
    {
        self.index.as_slice()
    }

    /// The attached data.
    pub fn data(&self) -> (data: &[u8])
        ensures
            data@ == self@.data,
    {
        self.data.as_slice()
    }
}

/// A payload of a transaction essence.
#[derive(Debug)]
pub enum Payload {
    Indexation(Indexation),
}

impl View for Payload {
    type V = PayloadModel;

    open spec fn view(&self) -> PayloadModel {
        match self {
            Payload::Indexation(i) => PayloadModel::Indexation(i@),
        }
    }
}

/// The packed form of an indexation: the length of the index as a `u16`,
/// the index, the length of the data as a `u32`, the data.
pub open spec fn serialize_indexation(i: IndexationModel) -> Seq<u8> {
    spec_u16_to_le_bytes(i.index.len() as u16) + i.index + spec_u32_to_le_bytes(
        i.data.len() as u32,
    ) + i.data
}

/// The packed form of a payload: its tag as a `u32`, then its body.
pub open spec fn serialize_payload(p: PayloadModel) -> Seq<u8> {
    match p {
        PayloadModel::Indexation(i) => spec_u32_to_le_bytes(INDEXATION_PAYLOAD_KIND)
            + serialize_indexation(i),
    }
}

/// Reads an indexation from the front of `s`.
pub open spec fn parse_indexation(s: Seq<u8>) -> SpecParse<IndexationModel> {
    match parse_u16(s) {
        Err(e) => Err(e),
        Ok((index_len, a)) => match parse_bytes(s.skip(a as int), index_len as nat) {
            Err(e) => Err(e),
            Ok((index, b)) => match parse_u32(s.skip((a + b) as int)) {
                Err(e) => Err(e),
                Ok((data_len, c)) => match parse_bytes(s.skip((a + b + c) as int), data_len as nat) {
                    Err(e) => Err(e),
                    Ok((data, d)) => Ok((IndexationModel { index, data }, a + b + c + d)),
                },
            },
        },
    }
}

/// Reads a payload from the front of `s`.
pub open spec fn parse_payload(s: Seq<u8>) -> SpecParse<PayloadModel> {
    match parse_u32(s) {
        Err(e) => Err(e),
        Ok((kind, a)) => if kind != INDEXATION_PAYLOAD_KIND {
            Err(PackableError::InvalidType)
        } else {
            match parse_indexation(s.skip(a as int)) {
                Err(e) => Err(e),
                Ok((i, b)) => Ok((PayloadModel::Indexation(i), a + b)),
            }
        },
    }
}

/// The lengths of a payload's parts fit the integers that announce them.
pub open spec fn payload_packable(p: PayloadModel) -> bool {
    match p {
        PayloadModel::Indexation(i) => i.index.len() <= u16::MAX && i.data.len() <= u32::MAX,
    }
}

proof fn lemma_indexation_roundtrip(i: IndexationModel, rest: Seq<u8>)
    requires
        i.index.len() <= u16::MAX,
        i.data.len() <= u32::MAX,
    ensures
        parse_indexation(serialize_indexation(i) + rest) == Ok::<(IndexationModel, nat), PackableError>(
            (i, serialize_indexation(i).len()),
        ),
{
    lemma_le_roundtrip();
    let s = serialize_indexation(i) + rest;
    let li = i.index.len() as int;
    let ld = i.data.len() as int;
    assert(s.take(2) =~= spec_u16_to_le_bytes(i.index.len() as u16));
    assert(s.skip(2).take(li) =~= i.index);
    assert(s.skip(2 + li).take(4) =~= spec_u32_to_le_bytes(i.data.len() as u32));
    assert(s.skip(2 + li + 4).take(ld) =~= i.data);
}

proof fn lemma_indexation_parse_serialize(s: Seq<u8>)
    ensures
        parse_indexation(s) matches Ok((i, n)) ==> {
            &&& i.index.len() <= u16::MAX
            &&& i.data.len() <= u32::MAX
            &&& n <= s.len()
            &&& serialize_indexation(i) == s.take(n as int)
        },
{
    lemma_le_roundtrip();
    if let Ok((i, n)) = parse_indexation(s) {
        let li = i.index.len() as int;
        let ld = i.data.len() as int;
        assert(s.take(2) =~= s.subrange(0, 2));
        assert(s.skip(2).take(li) =~= s.subrange(2, 2 + li));
        assert(s.skip(2 + li).take(4) =~= s.subrange(2 + li, 6 + li));
        assert(s.skip(6 + li).take(ld) =~= s.subrange(6 + li, 6 + li + ld));
        assert(serialize_indexation(i) =~= s.take(n as int));
    }
}

/// Reading back a packed payload gives the payload and consumes exactly its
/// packed form, whatever follows it.
pub proof fn lemma_payload_roundtrip(p: PayloadModel, rest: Seq<u8>)
    requires
        payload_packable(p),
    ensures
        parse_payload(serialize_payload(p) + rest) == Ok::<(PayloadModel, nat), PackableError>(
            (p, serialize_payload(p).len()),
        ),
{
    lemma_le_roundtrip();
    match p {
        PayloadModel::Indexation(i) => {
            let s = serialize_payload(p) + rest;
            assert(s.take(4) =~= spec_u32_to_le_bytes(INDEXATION_PAYLOAD_KIND));
            assert(s.skip(4) =~= serialize_indexation(i) + rest);
            lemma_indexation_roundtrip(i, rest);
        },
    }
}

/// A payload that was read is what its bytes encode.
pub proof fn lemma_payload_parse_serialize(s: Seq<u8>)
    ensures
        parse_payload(s) matches Ok((p, n)) ==> {
            &&& payload_packable(p)
            &&& n <= s.len()
            &&& serialize_payload(p) == s.take(n as int)
        },
{
    lemma_le_roundtrip();
    lemma_indexation_parse_serialize(s.skip(4));
    if let Ok((p, n)) = parse_payload(s) {
        assert(s.take(4) =~= spec_u32_to_le_bytes(INDEXATION_PAYLOAD_KIND));
        assert(serialize_payload(p) =~= s.take(n as int));
    }
}

impl Payload {
    /// The payload's tag and body, appended to `buf`.
    pub fn pack(&self, buf: &mut Vec<u8>)
        ensures
            final(buf)@ == old(buf)@ + serialize_payload(self@),
    {
        match self {
            Payload::Indexation(i) => {
                write_u32(buf, INDEXATION_PAYLOAD_KIND);
                write_u16(buf, i.index().len() as u16);
                write_bytes(buf, i.index());
                write_u32(buf, i.data().len() as u32);
                write_bytes(buf, i.data());
            },
        }
        assert(buf@ =~= old(buf)@ + serialize_payload(self@));
    }

    /// The length of the packed form.
    pub fn packed_len(&self) -> (len: usize)
        requires
            serialize_payload(self@).len() <= usize::MAX,
        ensures
            len == serialize_payload(self@).len(),
    {
        proof {
            lemma_le_roundtrip();
        }
        match self {
            Payload::Indexation(i) => 4 + 2 + i.index().len() + 4 + i.data().len(),
        }
    }

    /// Reads a payload at `pos` of `buf`; returns it with the position after
    /// it.
    pub fn unpack(buf: &[u8], pos: usize) -> (res: Result<(Payload, usize), PackableError>)
        requires
            pos <= buf@.len(),
        ensures
            match parse_payload(buf@.skip(pos as int)) {
                Ok((v, n)) => res matches Ok((p, q)) && p@ == v && q == pos + n,
                Err(e) => res matches Err(f) && f == e,
            },
    {
        let ghost s = buf@.skip(pos as int);
        let (kind, p1) = match read_u32(buf, pos) {
            Ok(r) => r,
            Err(e) => return Err(e),
        };
        if kind != INDEXATION_PAYLOAD_KIND {
            return Err(PackableError::InvalidType);
        }
        let ghost t = s.skip(4);
        assert(buf@.skip(p1 as int) =~= t);
        let (index_len, p2) = match read_u16(buf, p1) {
            Ok(r) => r,
            Err(e) => return Err(e),
        };
        assert(buf@.skip(p2 as int) =~= t.skip(2));
        let (index, p3) = match read_bytes(buf, p2, index_len as usize) {
            Ok(r) => r,
            Err(e) => return Err(e),
        };
        assert(buf@.skip(p3 as int) =~= t.skip(2 + index_len));
        let (data_len, p4) = match read_u32(buf, p3) {
            Ok(r) => r,
            Err(e) => return Err(e),
        };
        assert(buf@.skip(p4 as int) =~= t.skip(2 + index_len + 4));
        let (data, p5) = match read_bytes(buf, p4, data_len as usize) {
            Ok(r) => r,
            Err(e) => return Err(e),
        };
        Ok((Payload::Indexation(Indexation::new(index, data)), p5))
    }
}

} // verus!

//! Little-endian encoding of the integers and byte strings that make up the
//! packed form of messages, and the errors of unpacking.
use vstd::bytes::*;
use vstd::prelude::*;

verus! {

/// Why a byte string could not be unpacked.
#[derive(Debug, PartialEq, Eq, Structural, Clone, Copy)]
pub enum PackableError {
    /// The bytes ended before the value did.
    UnexpectedEnd,
    /// A type or variant tag that no known value has.
    InvalidType,
    /// An announced length that differs from the length of what follows.
    InvalidAnnouncedLen,
}

/// The result of reading a value of type `T` from the front of a byte
/// string: the value and the number of bytes it took, or the error.
pub type SpecParse<T> = Result<(T, nat), PackableError>;

/// Reads one byte.
pub open spec fn parse_u8(s: Seq<u8>) -> SpecParse<u8> {
    if s.len() < 1 {
        Err(PackableError::UnexpectedEnd)
    } else {
        Ok((s[0], 1))
    }
}

/// Reads a little-endian `u16`.
pub open spec fn parse_u16(s: Seq<u8>) -> SpecParse<u16> {
    if s.len() < 2 {
        Err(PackableError::UnexpectedEnd)
    } else {
        Ok((spec_u16_from_le_bytes(s.take(2)), 2))
    }
}

/// Reads a little-endian `u32`.
pub open spec fn parse_u32(s: Seq<u8>) -> SpecParse<u32> {
    if s.len() < 4 {
        Err(PackableError::UnexpectedEnd)
    } else {
        Ok((spec_u32_from_le_bytes(s.take(4)), 4))
    }
}

/// Reads a little-endian `u64`.
pub open spec fn parse_u64(s: Seq<u8>) -> SpecParse<u64> {
    if s.len() < 8 {
        Err(PackableError::UnexpectedEnd)
    } else {
        Ok((spec_u64_from_le_bytes(s.take(8)), 8))
    }
}

/// Reads `n` bytes.
pub open spec fn parse_bytes(s: Seq<u8>, n: nat) -> SpecParse<Seq<u8>> {
    if s.len() < n {
        Err(PackableError::UnexpectedEnd)
    } else {
        Ok((s.take(n as int), n))
    }
}

/// The little-endian encodings round-trip.
pub proof fn lemma_le_roundtrip()
    ensures
        forall|x: u16| #![trigger spec_u16_to_le_bytes(x)]
            spec_u16_to_le_bytes(x).len() == 2 && spec_u16_from_le_bytes(spec_u16_to_le_bytes(x)) == x,
        forall|x: u32| #![trigger spec_u32_to_le_bytes(x)]
            spec_u32_to_le_bytes(x).len() == 4 && spec_u32_from_le_bytes(spec_u32_to_le_bytes(x)) == x,
        forall|x: u64| #![trigger spec_u64_to_le_bytes(x)]
            spec_u64_to_le_bytes(x).len() == 8 && spec_u64_from_le_bytes(spec_u64_to_le_bytes(x)) == x,
        forall|s: Seq<u8>| #![trigger spec_u16_to_le_bytes(spec_u16_from_le_bytes(s))]
            s.len() == 2 ==> spec_u16_to_le_bytes(spec_u16_from_le_bytes(s)) == s,
        forall|s: Seq<u8>| #![trigger spec_u32_to_le_bytes(spec_u32_from_le_bytes(s))]
            s.len() == 4 ==> spec_u32_to_le_bytes(spec_u32_from_le_bytes(s)) == s,
        forall|s: Seq<u8>| #![trigger spec_u64_to_le_bytes(spec_u64_from_le_bytes(s))]
            s.len() == 8 ==> spec_u64_to_le_bytes(spec_u64_from_le_bytes(s)) == s,
{
    lemma_auto_spec_u16_to_from_le_bytes();
    lemma_auto_spec_u32_to_from_le_bytes();
    lemma_auto_spec_u64_to_from_le_bytes();
}

/// Reads one byte at `pos`; on success also returns the position after it.
pub fn read_u8(buf: &[u8], pos: usize) -> (res: Result<(u8, usize), PackableError>)
    requires
        pos <= buf@.len(),
    ensures
        match parse_u8(buf@.skip(pos as int)) {
            Ok((v, n)) => res matches Ok((w, p)) && w == v && p == pos + n,
            Err(e) => res matches Err(f) && f == e,
        },
{
    if buf.len() - pos < 1 {
        return Err(PackableError::UnexpectedEnd);
    }
    Ok((buf[pos], pos + 1))
}

/// Reads a little-endian `u16` at `pos`.
pub fn read_u16(buf: &[u8], pos: usize) -> (res: Result<(u16, usize), PackableError>)
    requires
        pos <= buf@.len(),
    ensures
        match parse_u16(buf@.skip(pos as int)) {
            Ok((v, n)) => res matches Ok((w, p)) && w == v && p == pos + n,
            Err(e) => res matches Err(f) && f == e,
        },
{
    if buf.len() - pos < 2 {
        return Err(PackableError::UnexpectedEnd);
    }
    let v = u16_from_le_bytes(&buf[pos..pos + 2]);
    assert(buf@.subrange(pos as int, pos + 2) == buf@.skip(pos as int).take(2));
    Ok((v, pos + 2))
}

/// Reads a little-endian `u32` at `pos`.
pub fn read_u32(buf: &[u8], pos: usize) -> (res: Result<(u32, usize), PackableError>)
    requires
        pos <= buf@.len(),
    ensures
        match parse_u32(buf@.skip(pos as int)) {
            Ok((v, n)) => res matches Ok((w, p)) && w == v && p == pos + n,
            Err(e) => res matches Err(f) && f == e,
        },
{
    if buf.len() - pos < 4 {
        return Err(PackableError::UnexpectedEnd);
    }
    let v = u32_from_le_bytes(&buf[pos..pos + 4]);
    assert(buf@.subrange(pos as int, pos + 4) == buf@.skip(pos as int).take(4));
    Ok((v, pos + 4))
}

/// Reads a little-endian `u64` at `pos`.
pub fn read_u64(buf: &[u8], pos: usize) -> (res: Result<(u64, usize), PackableError>)
    requires
        pos <= buf@.len(),
    ensures
        match parse_u64(buf@.skip(pos as int)) {
            Ok((v, n)) => res matches Ok((w, p)) && w == v && p == pos + n,
            Err(e) => res matches Err(f) && f == e,
        },
{
    if buf.len() - pos < 8 {
        return Err(PackableError::UnexpectedEnd);
    }
    let v = u64_from_le_bytes(&buf[pos..pos + 8]);
    assert(buf@.subrange(pos as int, pos + 8) == buf@.skip(pos as int).take(8));
    Ok((v, pos + 8))
}

/// Reads `n` bytes at `pos`.
pub fn read_bytes(buf: &[u8], pos: usize, n: usize) -> (res: Result<(Vec<u8>, usize), PackableError>)
    requires
        pos <= buf@.len(),
    ensures
        match parse_bytes(buf@.skip(pos as int), n as nat) {
            Ok((v, k)) => res matches Ok((w, p)) && w@ == v && p == pos + k,
            Err(e) => res matches Err(f) && f == e,
        },
{
    if buf.len() - pos < n {
        return Err(PackableError::UnexpectedEnd);
    }
    let v = vstd::slice::slice_to_vec(&buf[pos..pos + n]);
    assert(buf@.subrange(pos as int, pos + n) == buf@.skip(pos as int).take(n as int));
    Ok((v, pos + n))
}

/// Appends one byte.
pub fn write_u8(buf: &mut Vec<u8>, x: u8)
    ensures
        final(buf)@ == old(buf)@ + seq![x],
{
    buf.push(x);
}

/// Appends the little-endian encoding of a `u16`.
pub fn write_u16(buf: &mut Vec<u8>, x: u16)
    ensures
        final(buf)@ == old(buf)@ + spec_u16_to_le_bytes(x),
{
    let mut bytes = u16_to_le_bytes(x);
    buf.append(&mut bytes);
}

/// Appends the little-endian encoding of a `u32`.
pub fn write_u32(buf: &mut Vec<u8>, x: u32)
    ensures
        final(buf)@ == old(buf)@ + spec_u32_to_le_bytes(x),
{
    let mut bytes = u32_to_le_bytes(x);
    buf.append(&mut bytes);
}

/// Appends the little-endian encoding of a `u64`.
pub fn write_u64(buf: &mut Vec<u8>, x: u64)
    ensures
        final(buf)@ == old(buf)@ + spec_u64_to_le_bytes(x),
{
    let mut bytes = u64_to_le_bytes(x);
    buf.append(&mut bytes);
}

/// Appends a byte string.
pub fn write_bytes(buf: &mut Vec<u8>, bytes: &[u8])
    ensures
        final(buf)@ == old(buf)@ + bytes@,
{
    let mut copy = vstd::slice::slice_to_vec(bytes);
    buf.append(&mut copy);
}

} // verus!

verus! {

/// Whether two byte strings are equal.
pub fn bytes_eq(a: &[u8], b: &[u8]) -> (eq: bool)
    ensures
        eq == (a@ == b@),
{
    if a.len() != b.len() {
        return false;
    }
    let mut i: usize = 0;
    while i < a.len()
        invariant
            a@.len() == b@.len(),
            i <= a@.len(),
            forall|j: int| 0 <= j < i ==> a@[j] == b@[j],
        decreases a@.len() - i,
    {
        if a[i] != b[i] {
            return false;
        }
        i = i + 1;
    }
    assert(a@ =~= b@);
    true
}

} // verus!

verus! {

/// The packed forms of `vs`, one after the other, by `ser`.
pub open spec fn serialize_many<T>(vs: Seq<T>, ser: spec_fn(T) -> Seq<u8>) -> Seq<u8>
    decreases vs.len(),
{
    if vs.len() == 0 {
        Seq::empty()
    } else {
        serialize_many(vs.drop_last(), ser) + ser(vs.last())
    }
}

/// Reads `n` values one after the other from the front of `s` with `parse`.
pub open spec fn parse_many<T>(s: Seq<u8>, n: nat, parse: spec_fn(Seq<u8>) -> SpecParse<T>) -> SpecParse<
    Seq<T>,
>
    decreases n,
{
    if n == 0 {
        Ok((Seq::empty(), 0))
    } else {
        match parse_many(s, (n - 1) as nat, parse) {
            Err(e) => Err(e),
            Ok((vs, m)) => match parse(s.skip(m as int)) {
                Err(e) => Err(e),
                Ok((v, k)) => Ok((vs.push(v), m + k)),
            },
        }
    }
}

/// Reading back values packed one after the other gives the values, when
/// reading back each value gives it.
pub proof fn lemma_many_roundtrip<T>(
    vs: Seq<T>,
    rest: Seq<u8>,
    ser: spec_fn(T) -> Seq<u8>,
    parse: spec_fn(Seq<u8>) -> SpecParse<T>,
    ok: spec_fn(T) -> bool,
)
    requires
        forall|i: int| 0 <= i < vs.len() ==> #[trigger] ok(vs[i]),
        forall|v: T, r: Seq<u8>| #![trigger parse(ser(v) + r)] ok(v) ==> parse(ser(v) + r) == Ok::<
            (T, nat),
            PackableError,
        >((v, ser(v).len())),
    ensures
        parse_many(serialize_many(vs, ser) + rest, vs.len(), parse) == Ok::<(Seq<T>, nat), PackableError>(
            (vs, serialize_many(vs, ser).len()),
        ),
    decreases vs.len(),
{
    if vs.len() == 0 {
        assert(vs =~= Seq::<T>::empty());
    } else {
        let init = vs.drop_last();
        let last = vs.last();
        let s = serialize_many(vs, ser) + rest;
        assert(s =~= serialize_many(init, ser) + (ser(last) + rest));
        assert forall|i: int| 0 <= i < init.len() implies #[trigger] ok(init[i]) by {
            assert(init[i] == vs[i]);
        }
        lemma_many_roundtrip(init, ser(last) + rest, ser, parse, ok);
        assert(ok(vs[vs.len() - 1]));
        let m = serialize_many(init, ser).len();
        assert(s.skip(m as int) =~= ser(last) + rest);
        assert(init.push(last) =~= vs);
    }
}

/// Values read one after the other are what their bytes encode, when that
/// holds of each value read.
pub proof fn lemma_many_parse_serialize<T>(
    s: Seq<u8>,
    n: nat,
    ser: spec_fn(T) -> Seq<u8>,
    parse: spec_fn(Seq<u8>) -> SpecParse<T>,
    ok: spec_fn(T) -> bool,
)
    requires
        forall|t: Seq<u8>| #[trigger] parse(t) matches Ok((v, k)) ==> {
            &&& ok(v)
            &&& k <= t.len()
            &&& ser(v) == t.take(k as int)
        },
    ensures
        parse_many(s, n, parse) matches Ok((vs, m)) ==> {
            &&& vs.len() == n
            &&& forall|i: int| 0 <= i < vs.len() ==> #[trigger] ok(vs[i])
            &&& m <= s.len()
            &&& serialize_many(vs, ser) == s.take(m as int)
        },
    decreases n,
{
    if n > 0 {
        lemma_many_parse_serialize(s, (n - 1) as nat, ser, parse, ok);
        if let Ok((vs0, m0)) = parse_many(s, (n - 1) as nat, parse) {
            let t = s.skip(m0 as int);
            if let Ok((v, k)) = parse(t) {
                let vs = vs0.push(v);
                assert(vs.drop_last() =~= vs0);
                assert forall|i: int| 0 <= i < vs.len() implies #[trigger] ok(vs[i]) by {
                    if i < vs0.len() {
                        assert(vs[i] == vs0[i]);
                    }
                }
                assert(s.take((m0 + k) as int) =~= s.take(m0 as int) + t.take(k as int));
            }
        }
    }
}

} // verus!

verus! {

/// Once reading the first `i` values fails, reading more fails the same way.
pub proof fn lemma_many_err<T>(s: Seq<u8>, i: nat, n: nat, parse: spec_fn(Seq<u8>) -> SpecParse<T>)
    requires
        i <= n,
        parse_many(s, i, parse) is Err,
    ensures
        parse_many(s, n, parse) == parse_many(s, i, parse),
    decreases n,
{
    if n > i {
        lemma_many_err(s, i, (n - 1) as nat, parse);
    }
}

} // verus!

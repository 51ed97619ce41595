//! The essence of a transaction: its inputs, its outputs and an optional
//! payload; how a builder validates it, and its packed form.
use crate::message::input::{
    input_packable, lemma_input_parse_serialize, lemma_input_roundtrip, parse_input, serialize_input,
    Input, UtxoInputModel, TRANSACTION_ID_LENGTH,
};
use crate::message::output::{
    lemma_output_parse_serialize, lemma_output_roundtrip, output_packable, parse_output,
    serialize_output, AddressModel, Output, OutputModel,
};
use crate::message::packable::{
    lemma_le_roundtrip, lemma_many_err, lemma_many_parse_serialize, lemma_many_roundtrip, parse_many, parse_u16,
    parse_u32, parse_u8, read_u16, read_u32, read_u8, serialize_many, write_u16, write_u32, write_u8,
    PackableError, SpecParse,
};
use crate::message::payload::{
    lemma_payload_parse_serialize, lemma_payload_roundtrip, parse_payload, payload_packable,
    serialize_payload, Payload, PayloadModel,
};
use crate::message::error::Error;
use vstd::bytes::*;
use vstd::prelude::*;

verus! {

/// The tag that opens the packed form of an essence.
pub const TRANSACTION_ESSENCE_KIND: u8 = 0;

/// The abstract value of an essence (and of an essence builder): the
/// inputs and outputs in order, and the payload if there is one.
pub struct EssenceModel {
    pub inputs: Seq<UtxoInputModel>,
    pub outputs: Seq<OutputModel>,
    pub payload: Option<PayloadModel>,
}

/// The abstract value of an optional payload.
pub open spec fn payload_view(p: Option<Payload>) -> Option<PayloadModel> {
    match p {
        Some(p) => Some(p@),
        None => None,
    }
}

/// The packed inputs, one after the other.
pub open spec fn serialize_inputs(inputs: Seq<UtxoInputModel>) -> Seq<u8> {
    serialize_many(inputs, |i: UtxoInputModel| serialize_input(i))
}

/// The packed outputs, one after the other.
pub open spec fn serialize_outputs(outputs: Seq<OutputModel>) -> Seq<u8> {
    serialize_many(outputs, |o: OutputModel| serialize_output(o))
}

/// The packed payload field: the length of the packed payload as a `u32`
/// and the packed payload, or a zero length when there is none.
pub open spec fn serialize_payload_field(payload: Option<PayloadModel>) -> Seq<u8> {
    match payload {
        None => spec_u32_to_le_bytes(0),
        Some(p) => spec_u32_to_le_bytes(serialize_payload(p).len() as u32) + serialize_payload(p),
    }
}

/// The packed form of an essence: its tag, the number of inputs as a
/// `u16`, the inputs, the number of outputs as a `u16`, the outputs, and the
/// payload field.
pub open spec fn serialize_essence(e: EssenceModel) -> Seq<u8> {
    seq![TRANSACTION_ESSENCE_KIND] + spec_u16_to_le_bytes(e.inputs.len() as u16) + serialize_inputs(
        e.inputs,
    ) + spec_u16_to_le_bytes(e.outputs.len() as u16) + serialize_outputs(e.outputs)
        + serialize_payload_field(e.payload)
}

/// Reads the payload field from the front of `s`: no payload for a zero
/// length, else a payload whose packed length must be the announced one.
pub open spec fn parse_payload_field(s: Seq<u8>) -> SpecParse<Option<PayloadModel>> {
    match parse_u32(s) {
        Err(e) => Err(e),
        Ok((len, a)) => if len == 0 {
            Ok((None, a))
        } else {
            match parse_payload(s.skip(a as int)) {
                Err(e) => Err(e),
                Ok((p, b)) => if len != b {
                    Err(PackableError::InvalidAnnouncedLen)
                } else {
                    Ok((Some(p), a + b))
                },
            }
        },
    }
}

/// Reads an essence from the front of `s`.
pub open spec fn parse_essence(s: Seq<u8>) -> SpecParse<EssenceModel> {
    match parse_u8(s) {
        Err(e) => Err(e),
        Ok((kind, a)) => if kind != TRANSACTION_ESSENCE_KIND {
            Err(PackableError::InvalidType)
        } else {
            match parse_u16(s.skip(a as int)) {
                Err(e) => Err(e),
                Ok((ni, b)) => match parse_many(
                    s.skip((a + b) as int),
                    ni as nat,
                    |t: Seq<u8>| parse_input(t),
                ) {
                    Err(e) => Err(e),
                    Ok((inputs, c)) => match parse_u16(s.skip((a + b + c) as int)) {
                        Err(e) => Err(e),
                        Ok((no, d)) => match parse_many(
                            s.skip((a + b + c + d) as int),
                            no as nat,
                            |t: Seq<u8>| parse_output(t),
                        ) {
                            Err(e) => Err(e),
                            Ok((outputs, f)) => match parse_payload_field(
                                s.skip((a + b + c + d + f) as int),
                            ) {
                                Err(e) => Err(e),
                                Ok((payload, g)) => Ok(
                                    (
                                        EssenceModel { inputs, outputs, payload },
                                        a + b + c + d + f + g,
                                    ),
                                ),
                            },
                        },
                    },
                },
            }
        },
    }
}

/// An essence whose packed form can be read back: at most `u16::MAX`
/// inputs and outputs, each of them well formed, and a payload whose
/// lengths fit the integers that announce them.
pub open spec fn essence_packable(e: EssenceModel) -> bool {
    &&& e.inputs.len() <= u16::MAX
    &&& e.outputs.len() <= u16::MAX
    &&& forall|i: int| 0 <= i < e.inputs.len() ==> #[trigger] input_packable(e.inputs[i])
    &&& forall|i: int| 0 <= i < e.outputs.len() ==> #[trigger] output_packable(e.outputs[i])
    &&& match e.payload {
        None => true,
        Some(p) => payload_packable(p) && serialize_payload(p).len() <= u32::MAX,
    }
}

proof fn lemma_inputs_roundtrip(inputs: Seq<UtxoInputModel>, rest: Seq<u8>)
    requires
        forall|i: int| 0 <= i < inputs.len() ==> #[trigger] input_packable(inputs[i]),
    ensures
        parse_many(serialize_inputs(inputs) + rest, inputs.len(), |t: Seq<u8>| parse_input(t))
            == Ok::<(Seq<UtxoInputModel>, nat), PackableError>(
            (inputs, serialize_inputs(inputs).len()),
        ),
{
    let ser = |i: UtxoInputModel| serialize_input(i);
    let parse = |t: Seq<u8>| parse_input(t);
    let ok = |i: UtxoInputModel| input_packable(i);
    assert forall|v: UtxoInputModel, r: Seq<u8>| #![trigger parse(ser(v) + r)] ok(v) implies parse(
        ser(v) + r,
    ) == Ok::<(UtxoInputModel, nat), PackableError>((v, ser(v).len())) by {
        lemma_input_roundtrip(v, r);
    }
    lemma_many_roundtrip(inputs, rest, ser, parse, ok);
}

proof fn lemma_outputs_roundtrip(outputs: Seq<OutputModel>, rest: Seq<u8>)
    requires
        forall|i: int| 0 <= i < outputs.len() ==> #[trigger] output_packable(outputs[i]),
    ensures
        parse_many(serialize_outputs(outputs) + rest, outputs.len(), |t: Seq<u8>| parse_output(t))
            == Ok::<(Seq<OutputModel>, nat), PackableError>(
            (outputs, serialize_outputs(outputs).len()),
        ),
{
    let ser = |o: OutputModel| serialize_output(o);
    let parse = |t: Seq<u8>| parse_output(t);
    let ok = |o: OutputModel| output_packable(o);
    assert forall|v: OutputModel, r: Seq<u8>| #![trigger parse(ser(v) + r)] ok(v) implies parse(
        ser(v) + r,
    ) == Ok::<(OutputModel, nat), PackableError>((v, ser(v).len())) by {
        lemma_output_roundtrip(v, r);
    }
    lemma_many_roundtrip(outputs, rest, ser, parse, ok);
}

proof fn lemma_inputs_parse_serialize(s: Seq<u8>, n: nat)
    ensures
        parse_many(s, n, |t: Seq<u8>| parse_input(t)) matches Ok((vs, m)) ==> {
            &&& vs.len() == n
            &&& forall|i: int| 0 <= i < vs.len() ==> #[trigger] input_packable(vs[i])
            &&& m <= s.len()
            &&& serialize_inputs(vs) == s.take(m as int)
        },
{
    let ser = |i: UtxoInputModel| serialize_input(i);
    let parse = |t: Seq<u8>| parse_input(t);
    let ok = |i: UtxoInputModel| input_packable(i);
    assert forall|t: Seq<u8>|
        #[trigger] parse(t) matches Ok((v, k)) ==> {
            &&& ok(v)
            &&& k <= t.len()
            &&& ser(v) == t.take(k as int)
        } by {
        lemma_input_parse_serialize(t);
    }
    lemma_many_parse_serialize(s, n, ser, parse, ok);
    if let Ok((vs, m)) = parse_many(s, n, parse) {
        assert forall|i: int| 0 <= i < vs.len() implies #[trigger] input_packable(vs[i]) by {
            assert(ok(vs[i]));
        }
    }
}

proof fn lemma_outputs_parse_serialize(s: Seq<u8>, n: nat)
    ensures
        parse_many(s, n, |t: Seq<u8>| parse_output(t)) matches Ok((vs, m)) ==> {
            &&& vs.len() == n
            &&& forall|i: int| 0 <= i < vs.len() ==> #[trigger] output_packable(vs[i])
            &&& m <= s.len()
            &&& serialize_outputs(vs) == s.take(m as int)
        },
{
    let ser = |o: OutputModel| serialize_output(o);
    let parse = |t: Seq<u8>| parse_output(t);
    let ok = |o: OutputModel| output_packable(o);
    assert forall|t: Seq<u8>|
        #[trigger] parse(t) matches Ok((v, k)) ==> {
            &&& ok(v)
            &&& k <= t.len()
            &&& ser(v) == t.take(k as int)
        } by {
        lemma_output_parse_serialize(t);
    }
    lemma_many_parse_serialize(s, n, ser, parse, ok);
    if let Ok((vs, m)) = parse_many(s, n, parse) {
        assert forall|i: int| 0 <= i < vs.len() implies #[trigger] output_packable(vs[i]) by {
            assert(ok(vs[i]));
        }
    }
}

} // verus!

verus! {

proof fn lemma_payload_field_roundtrip(payload: Option<PayloadModel>, rest: Seq<u8>)
    requires
        match payload {
            None => true,
            Some(p) => payload_packable(p) && serialize_payload(p).len() <= u32::MAX,
        },
    ensures
        parse_payload_field(serialize_payload_field(payload) + rest) == Ok::<
            (Option<PayloadModel>, nat),
            PackableError,
        >((payload, serialize_payload_field(payload).len())),
{
    lemma_le_roundtrip();
    let s = serialize_payload_field(payload) + rest;
    match payload {
        None => {
            assert(s.take(4) =~= spec_u32_to_le_bytes(0));
        },
        Some(p) => {
            let sp = serialize_payload(p);
            lemma_payload_roundtrip(p, rest);
            assert(s.take(4) =~= spec_u32_to_le_bytes(sp.len() as u32));
            assert(s.skip(4) =~= sp + rest);
            assert(sp.len() >= 4);
        },
    }
}

proof fn lemma_payload_field_parse_serialize(s: Seq<u8>)
    ensures
        parse_payload_field(s) matches Ok((payload, n)) ==> {
            &&& match payload {
                None => true,
                Some(p) => payload_packable(p) && serialize_payload(p).len() <= u32::MAX,
            }
            &&& n <= s.len()
            &&& serialize_payload_field(payload) == s.take(n as int)
        },
{
    lemma_le_roundtrip();
    lemma_payload_parse_serialize(s.skip(4));
    if let Ok((payload, n)) = parse_payload_field(s) {
        assert(s.take(4) =~= s.subrange(0, 4));
        assert(serialize_payload_field(payload) =~= s.take(n as int));
    }
}

/// Reading back a packed essence gives the essence and consumes exactly its
/// packed form, whatever follows it.
#[verifier::rlimit(40)]
pub proof fn lemma_essence_roundtrip(e: EssenceModel, rest: Seq<u8>)
    requires
        essence_packable(e),
    ensures
        parse_essence(serialize_essence(e) + rest) == Ok::<(EssenceModel, nat), PackableError>(
            (e, serialize_essence(e).len()),
        ),
{
    lemma_le_roundtrip();
    let si = serialize_inputs(e.inputs);
    let so = serialize_outputs(e.outputs);
    let pf = serialize_payload_field(e.payload);
    let ui = spec_u16_to_le_bytes(e.inputs.len() as u16);
    let uo = spec_u16_to_le_bytes(e.outputs.len() as u16);
    let s = serialize_essence(e) + rest;
    assert(s =~= seq![TRANSACTION_ESSENCE_KIND] + ui + si + uo + so + pf + rest);
    assert(s.skip(1).take(2) =~= ui);
    assert(s.skip(3) =~= si + (uo + so + pf + rest));
    lemma_inputs_roundtrip(e.inputs, uo + so + pf + rest);
    let c = si.len() as int;
    assert(s.skip(3 + c).take(2) =~= uo);
    assert(s.skip(5 + c) =~= so + (pf + rest));
    lemma_outputs_roundtrip(e.outputs, pf + rest);
    let f = so.len() as int;
    assert(s.skip(5 + c + f) =~= pf + rest);
    lemma_payload_field_roundtrip(e.payload, rest);
}

/// An essence that was read is what its bytes encode, and its packed form
/// can be read back.
#[verifier::rlimit(40)]
pub proof fn lemma_essence_parse_serialize(s: Seq<u8>)
    ensures
        parse_essence(s) matches Ok((e, n)) ==> {
            &&& essence_packable(e)
            &&& n <= s.len()
            &&& serialize_essence(e) == s.take(n as int)
        },
{
    lemma_le_roundtrip();
    if let Ok((e, n)) = parse_essence(s) {
        let ni = spec_u16_from_le_bytes(s.skip(1).take(2));
        let t1 = s.skip(3);
        lemma_inputs_parse_serialize(t1, ni as nat);
        let (inputs, c0) = parse_many(t1, ni as nat, |t: Seq<u8>| parse_input(t))->Ok_0;
        let c = c0 as int;
        let t2 = s.skip(3 + c);
        let no = spec_u16_from_le_bytes(t2.take(2));
        let t3 = s.skip(5 + c);
        lemma_outputs_parse_serialize(t3, no as nat);
        let (outputs, f0) = parse_many(t3, no as nat, |t: Seq<u8>| parse_output(t))->Ok_0;
        let f = f0 as int;
        let t4 = s.skip(5 + c + f);
        lemma_payload_field_parse_serialize(t4);
        assert(inputs == e.inputs && outputs == e.outputs);
        assert(s.skip(1).take(2) =~= s.subrange(1, 3));
        assert(t2.take(2) =~= s.subrange(3 + c, 5 + c));
        assert(t1.take(c) =~= s.subrange(3, 3 + c));
        assert(t3.take(f) =~= s.subrange(5 + c, 5 + c + f));
        assert(serialize_essence(e) =~= s.take(n as int));
    }
}

} // verus!

verus! {

/// The packed values before position `i` are a prefix of all of them.
proof fn lemma_serialize_many_prefix<T>(vs: Seq<T>, i: int, ser: spec_fn(T) -> Seq<u8>)
    requires
        0 <= i <= vs.len(),
    ensures
        serialize_many(vs.take(i), ser).len() <= serialize_many(vs, ser).len(),
    decreases vs.len(),
{
    if i < vs.len() {
        assert(vs.drop_last().take(i) =~= vs.take(i));
        lemma_serialize_many_prefix(vs.drop_last(), i, ser);
    } else {
        assert(vs.take(i) =~= vs);
    }
}

/// Packing one more value appends its packed form.
proof fn lemma_serialize_many_step<T>(vs: Seq<T>, i: int, ser: spec_fn(T) -> Seq<u8>)
    requires
        0 <= i < vs.len(),
    ensures
        serialize_many(vs.take(i + 1), ser) == serialize_many(vs.take(i), ser) + ser(vs[i]),
{
    assert(vs.take(i + 1).drop_last() =~= vs.take(i));
}

/// The packed value at position `k` stands in the packed sequence right
/// after the packed values before it.
proof fn lemma_serialize_many_at<T>(vs: Seq<T>, k: int, ser: spec_fn(T) -> Seq<u8>)
    requires
        0 <= k < vs.len(),
    ensures
        serialize_many(vs.take(k), ser).len() + ser(vs[k]).len() <= serialize_many(vs, ser).len(),
        serialize_many(vs, ser).subrange(
            serialize_many(vs.take(k), ser).len() as int,
            serialize_many(vs.take(k), ser).len() + ser(vs[k]).len() as int,
        ) == ser(vs[k]),
    decreases vs.len(),
{
    let init = vs.drop_last();
    if k == vs.len() - 1 {
        assert(vs.take(k) =~= init);
    } else {
        assert(init.take(k) =~= vs.take(k));
        assert(init[k] == vs[k]);
        lemma_serialize_many_at(init, k, ser);
    }
    let a = serialize_many(vs.take(k), ser).len() as int;
    let b = a + ser(vs[k]).len();
    assert(serialize_many(vs, ser).subrange(a, b) =~= ser(vs[k]));
}

/// The packed length of `outputs`: per output its tag, the address's tag
/// and bytes, and the eight bytes of the amount.
pub open spec fn outputs_packed_len(outputs: Seq<OutputModel>) -> nat
    decreases outputs.len(),
{
    if outputs.len() == 0 {
        0
    } else {
        outputs_packed_len(outputs.drop_last()) + 10 + match outputs.last().address {
            AddressModel::Wots(b) => b.len(),
            AddressModel::Ed25519(b) => b.len(),
        }
    }
}

proof fn lemma_inputs_prefix_len(inputs: Seq<UtxoInputModel>, k: int)
    requires
        0 <= k <= inputs.len(),
        forall|i: int| 0 <= i < inputs.len() ==> #[trigger] inputs[i].id.len() == TRANSACTION_ID_LENGTH,
    ensures
        serialize_inputs(inputs.take(k)).len() == 35 * k,
    decreases k,
{
    lemma_le_roundtrip();
    if k > 0 {
        lemma_inputs_prefix_len(inputs, k - 1);
        lemma_serialize_many_step(inputs, k - 1, |i: UtxoInputModel| serialize_input(i));
        assert(inputs[k - 1].id.len() == TRANSACTION_ID_LENGTH);
    } else {
        assert(inputs.take(0) =~= Seq::<UtxoInputModel>::empty());
    }
}

proof fn lemma_outputs_len(outputs: Seq<OutputModel>)
    ensures
        serialize_outputs(outputs).len() == outputs_packed_len(outputs),
    decreases outputs.len(),
{
    lemma_le_roundtrip();
    if outputs.len() > 0 {
        lemma_outputs_len(outputs.drop_last());
    }
}

/// The byte layout of a packed essence: the tag `0`; the number of inputs
/// as a little-endian `u16`; input `k`, for each `k` in increasing order, at
/// offset `3 + 35 * k` as the tag `0`, the 32-byte transaction identifier
/// and the output index as a little-endian `u16`; the number of outputs as
/// a little-endian `u16`; each output in order as the tag `0`, the address
/// tag (`0` for WOTS, `1` for Ed25519), the address bytes and the amount as
/// a little-endian `u64`; and last the payload field: a zero `u32` when
/// there is no payload, else the payload's packed length as a `u32`, the
/// payload tag `2` as a `u32`, the index length as a `u16`, the index, the
/// data length as a `u32` and the data.
pub proof fn lemma_essence_layout(e: EssenceModel)
    requires
        e.inputs.len() <= u16::MAX,
        e.outputs.len() <= u16::MAX,
        forall|i: int| 0 <= i < e.inputs.len() ==> #[trigger] e.inputs[i].id.len() == TRANSACTION_ID_LENGTH,
    ensures
        serialize_essence(e)[0] == 0u8,
        serialize_essence(e).subrange(1, 3) == spec_u16_to_le_bytes(e.inputs.len() as u16),
        forall|k: int| #![trigger e.inputs[k]]
            0 <= k < e.inputs.len() ==> serialize_essence(e).subrange(3 + 35 * k, 3 + 35 * k + 35) == seq![0u8]
                + e.inputs[k].id + spec_u16_to_le_bytes(e.inputs[k].index),
        serialize_essence(e).subrange(3 + 35 * e.inputs.len() as int, 5 + 35 * e.inputs.len() as int)
            == spec_u16_to_le_bytes(e.outputs.len() as u16),
        forall|k: int| #![trigger e.outputs[k]]
            0 <= k < e.outputs.len() ==> {
                let off = 5 + 35 * e.inputs.len() as int + outputs_packed_len(e.outputs.take(k)) as int;
                match e.outputs[k].address {
                    AddressModel::Wots(b) => serialize_essence(e).subrange(off, off + 10 + b.len())
                        == seq![0u8, 0u8] + b + spec_u64_to_le_bytes(e.outputs[k].amount),
                    AddressModel::Ed25519(b) => serialize_essence(e).subrange(off, off + 10 + b.len())
                        == seq![0u8, 1u8] + b + spec_u64_to_le_bytes(e.outputs[k].amount),
                }
            },
        ({
            let end = 5 + 35 * e.inputs.len() as int + outputs_packed_len(e.outputs) as int;
            match e.payload {
                None => serialize_essence(e).skip(end) == spec_u32_to_le_bytes(0),
                Some(PayloadModel::Indexation(i)) => serialize_essence(e).skip(end) == spec_u32_to_le_bytes(
                    (10 + i.index.len() + i.data.len()) as u32,
                ) + spec_u32_to_le_bytes(2) + spec_u16_to_le_bytes(i.index.len() as u16) + i.index
                    + spec_u32_to_le_bytes(i.data.len() as u32) + i.data,
            }
        }),
{
    lemma_le_roundtrip();
    let n = e.inputs.len() as int;
    let seri = |i: UtxoInputModel| serialize_input(i);
    let sero = |o: OutputModel| serialize_output(o);
    let ui = spec_u16_to_le_bytes(n as u16);
    let si = serialize_inputs(e.inputs);
    let uo = spec_u16_to_le_bytes(e.outputs.len() as u16);
    let so = serialize_outputs(e.outputs);
    let pf = serialize_payload_field(e.payload);
    let s = serialize_essence(e);
    assert(s == seq![0u8] + ui + si + uo + so + pf);
    lemma_inputs_prefix_len(e.inputs, n);
    assert(e.inputs.take(n) =~= e.inputs);
    lemma_outputs_len(e.outputs);
    assert(s.subrange(1, 3) =~= ui);
    assert forall|k: int| #![trigger e.inputs[k]] 0 <= k < n implies s.subrange(3 + 35 * k, 3 + 35 * k + 35)
        == seq![0u8] + e.inputs[k].id + spec_u16_to_le_bytes(e.inputs[k].index) by {
        lemma_inputs_prefix_len(e.inputs, k);
        lemma_serialize_many_at(e.inputs, k, seri);
        assert(e.inputs[k].id.len() == TRANSACTION_ID_LENGTH);
        assert(s.subrange(3 + 35 * k, 3 + 35 * k + 35) =~= si.subrange(35 * k, 35 * k + 35));
    }
    assert(s.subrange(3 + 35 * n, 5 + 35 * n) =~= uo);
    let base = 5 + 35 * n;
    assert forall|k: int| #![trigger e.outputs[k]] 0 <= k < e.outputs.len() implies {
        let off = base + outputs_packed_len(e.outputs.take(k));
        match e.outputs[k].address {
            AddressModel::Wots(b) => s.subrange(off, off + 10 + b.len()) == seq![0u8, 0u8] + b
                + spec_u64_to_le_bytes(e.outputs[k].amount),
            AddressModel::Ed25519(b) => s.subrange(off, off + 10 + b.len()) == seq![0u8, 1u8] + b
                + spec_u64_to_le_bytes(e.outputs[k].amount),
        }
    } by {
        lemma_outputs_len(e.outputs.take(k));
        lemma_serialize_many_at(e.outputs, k, sero);
        let a = outputs_packed_len(e.outputs.take(k)) as int;
        let o = e.outputs[k];
        let w = serialize_output(o).len() as int;
        assert(s.subrange(base + a, base + a + w) =~= so.subrange(a, a + w));
        match o.address {
            AddressModel::Wots(b) => {
                assert(serialize_output(o) =~= seq![0u8, 0u8] + b + spec_u64_to_le_bytes(o.amount));
            },
            AddressModel::Ed25519(b) => {
                assert(serialize_output(o) =~= seq![0u8, 1u8] + b + spec_u64_to_le_bytes(o.amount));
            },
        }
    }
    let end = base + outputs_packed_len(e.outputs);
    assert(s.skip(end) =~= pf);
    match e.payload {
        None => {},
        Some(PayloadModel::Indexation(i)) => {
            let p = PayloadModel::Indexation(i);
            assert(serialize_payload(p) =~= spec_u32_to_le_bytes(2) + spec_u16_to_le_bytes(i.index.len() as u16)
                + i.index + spec_u32_to_le_bytes(i.data.len() as u32) + i.data);
            assert(pf =~= spec_u32_to_le_bytes((10 + i.index.len() + i.data.len()) as u32) + spec_u32_to_le_bytes(2)
                + spec_u16_to_le_bytes(i.index.len() as u16) + i.index + spec_u32_to_le_bytes(i.data.len() as u32)
                + i.data);
        },
    }
}

/// A transaction essence: the inputs it spends, the outputs it creates and
/// an optional payload.
#[derive(Debug)]
pub struct TransactionEssence {
    inputs: Vec<Input>,
    outputs: Vec<Output>,
    payload: Option<Payload>,
}

impl View for TransactionEssence {
    type V = EssenceModel;

    closed spec fn view(&self) -> EssenceModel {
        EssenceModel {
            inputs: self.inputs@.map_values(|i: Input| i@),
            outputs: self.outputs@.map_values(|o: Output| o@),
            payload: payload_view(self.payload),
        }
    }
}

impl Clone for TransactionEssence {
    /// A copy of the essence.
    fn clone(&self) -> (copy: Self)
        ensures
            copy@ == self@,
    {
        let inputs = self.inputs.clone();
        let outputs = self.outputs.clone();
        let payload = match &self.payload {
            Some(p) => Some(p.clone()),
            None => None,
        };
        assert(inputs@.map_values(|i: Input| i@) =~= self.inputs@.map_values(|i: Input| i@));
        assert(outputs@.map_values(|o: Output| o@) =~= self.outputs@.map_values(|o: Output| o@));
        TransactionEssence { inputs, outputs, payload }
    }
}

impl TransactionEssence {
    /// A builder with no inputs, no outputs and no payload.
    pub fn builder() -> (builder: TransactionEssenceBuilder)
        ensures
            builder@ == (EssenceModel {
                inputs: Seq::empty(),
                outputs: Seq::empty(),
                payload: None,
            }),
    {
        TransactionEssenceBuilder::new()
    }

    /// The inputs, in order.
    pub fn inputs(&self) -> (inputs: &[Input])
        ensures
            inputs@.map_values(|i: Input| i@) == self@.inputs,
    {
        self.inputs.as_slice()
    }

    /// The outputs, in order.
    pub fn outputs(&self) -> (outputs: &[Output])
        ensures
            outputs@.map_values(|o: Output| o@) == self@.outputs,
    {
        self.outputs.as_slice()
    }

    /// The payload, if there is one.
    pub fn payload(&self) -> (payload: &Option<Payload>)
        ensures
            payload_view(*payload) == self@.payload,
    {
        &self.payload
    }

    /// The length of the packed form.
    #[verifier::loop_isolation(false)]
    pub fn packed_len(&self) -> (len: usize)
        requires
            serialize_essence(self@).len() <= usize::MAX,
        ensures
            len == serialize_essence(self@).len(),
    {
        proof {
            lemma_le_roundtrip();
        }
        let ghost ins = self@.inputs;
        let ghost outs = self@.outputs;
        let ghost seri = |i: UtxoInputModel| serialize_input(i);
        let ghost sero = |o: OutputModel| serialize_output(o);
        let ghost total = serialize_essence(self@).len();
        let mut len: usize = 3;
        let mut i: usize = 0;
        while i < self.inputs.len()
            invariant
                ins == self@.inputs,
                total == serialize_essence(self@).len(),
                total <= usize::MAX,
                i <= ins.len(),
                len == 3 + serialize_many(ins.take(i as int), seri).len(),
            decreases ins.len() - i,
        {
            proof {
                lemma_serialize_many_step(ins, i as int, seri);
                lemma_serialize_many_prefix(ins, i + 1, seri);
                assert(ins[i as int] == self.inputs@[i as int]@);
            }
            len = len + self.inputs[i].packed_len();
            i = i + 1;
        }
        assert(ins.take(ins.len() as int) =~= ins);
        len = len + 2;
        let mut j: usize = 0;
        while j < self.outputs.len()
            invariant
                ins == self@.inputs,
                outs == self@.outputs,
                total == serialize_essence(self@).len(),
                total <= usize::MAX,
                j <= outs.len(),
                len == 5 + serialize_inputs(ins).len() + serialize_many(outs.take(j as int), sero).len(),
            decreases outs.len() - j,
        {
            proof {
                lemma_serialize_many_step(outs, j as int, sero);
                lemma_serialize_many_prefix(outs, j + 1, sero);
                assert(outs[j as int] == self.outputs@[j as int]@);
            }
            len = len + self.outputs[j].packed_len();
            j = j + 1;
        }
        assert(outs.take(outs.len() as int) =~= outs);
        len = len + 4;
        match &self.payload {
            Some(p) => len + p.packed_len(),
            None => len,
        }
    }

    /// The packed form of the essence, appended to `buf`.
    #[verifier::loop_isolation(false)]
    pub fn pack(&self, buf: &mut Vec<u8>)
        ensures
            final(buf)@ == old(buf)@ + serialize_essence(self@),
    {
        proof {
            lemma_le_roundtrip();
        }
        let ghost ins = self@.inputs;
        let ghost outs = self@.outputs;
        let ghost seri = |i: UtxoInputModel| serialize_input(i);
        let ghost sero = |o: OutputModel| serialize_output(o);
        write_u8(buf, TRANSACTION_ESSENCE_KIND);
        write_u16(buf, self.inputs.len() as u16);
        let ghost head = buf@;
        let mut i: usize = 0;
        while i < self.inputs.len()
            invariant
                ins == self@.inputs,
                i <= ins.len(),
                buf@ == head + serialize_many(ins.take(i as int), seri),
            decreases ins.len() - i,
        {
            proof {
                lemma_serialize_many_step(ins, i as int, seri);
                assert(ins[i as int] == self.inputs@[i as int]@);
            }
            self.inputs[i].pack(buf);
            i = i + 1;
        }
        assert(ins.take(ins.len() as int) =~= ins);
        write_u16(buf, self.outputs.len() as u16);
        let ghost mid = buf@;
        let mut j: usize = 0;
        while j < self.outputs.len()
            invariant
                outs == self@.outputs,
                j <= outs.len(),
                buf@ == mid + serialize_many(outs.take(j as int), sero),
            decreases outs.len() - j,
        {
            proof {
                lemma_serialize_many_step(outs, j as int, sero);
                assert(outs[j as int] == self.outputs@[j as int]@);
            }
            self.outputs[j].pack(buf);
            j = j + 1;
        }
        assert(outs.take(outs.len() as int) =~= outs);
        match &self.payload {
            Some(p) => {
                let mut body: Vec<u8> = Vec::new();
                p.pack(&mut body);
                write_u32(buf, body.len() as u32);
                buf.append(&mut body);
            },
            None => {
                write_u32(buf, 0);
            },
        }
        assert(buf@ =~= old(buf)@ + serialize_essence(self@));
    }
}

} // verus!

verus! {

/// Collects the inputs, outputs and payload of an essence before it is
/// validated.
#[derive(Debug)]
pub struct TransactionEssenceBuilder {
    inputs: Vec<Input>,
    outputs: Vec<Output>,
    payload: Option<Payload>,
}

impl View for TransactionEssenceBuilder {
    type V = EssenceModel;

    closed spec fn view(&self) -> EssenceModel {
        EssenceModel {
            inputs: self.inputs@.map_values(|i: Input| i@),
            outputs: self.outputs@.map_values(|o: Output| o@),
            payload: payload_view(self.payload),
        }
    }
}

impl Default for TransactionEssenceBuilder {
    /// A builder with no inputs, no outputs and no payload.
    fn default() -> (builder: Self)
        ensures
            builder@ == (EssenceModel {
                inputs: Seq::empty(),
                outputs: Seq::empty(),
                payload: None,
            }),
    {
        TransactionEssenceBuilder::new()
    }
}

impl TransactionEssenceBuilder {
    /// A builder with no inputs, no outputs and no payload.
    pub fn new() -> (builder: Self)
        ensures
            builder@ == (EssenceModel {
                inputs: Seq::empty(),
                outputs: Seq::empty(),
                payload: None,
            }),
    {
        let builder = TransactionEssenceBuilder {
            inputs: Vec::new(),
            outputs: Vec::new(),
            payload: None,
        };
        assert(builder@.inputs =~= Seq::<UtxoInputModel>::empty());
        assert(builder@.outputs =~= Seq::<OutputModel>::empty());
        builder
    }

    /// Appends an input.
    pub fn add_input(self, input: Input) -> (builder: Self)
        ensures
            builder@ == (EssenceModel { inputs: self@.inputs.push(input@), ..self@ }),
    {
        let mut builder = self;
        builder.inputs.push(input);
        assert(builder@.inputs =~= self@.inputs.push(input@));
        builder
    }

    /// Appends an output.
    pub fn add_output(self, output: Output) -> (builder: Self)
        ensures
            builder@ == (EssenceModel { outputs: self@.outputs.push(output@), ..self@ }),
    {
        let mut builder = self;
        builder.outputs.push(output);
        assert(builder@.outputs =~= self@.outputs.push(output@));
        builder
    }

    /// Sets the payload, replacing any earlier one.
    pub fn with_payload(self, payload: Payload) -> (builder: Self)
        ensures
            builder@ == (EssenceModel { payload: Some(payload@), ..self@ }),
    {
        let mut builder = self;
        builder.payload = Some(payload);
        builder
    }
}

} // verus!

verus! {

/// Reads `n` inputs at `pos` of `buf`; returns them with the position after
/// them.
#[verifier::loop_isolation(false)]
fn unpack_inputs(buf: &[u8], pos: usize, n: u16) -> (res: Result<(Vec<Input>, usize), PackableError>)
    requires
        pos <= buf@.len(),
    ensures
        match parse_many(buf@.skip(pos as int), n as nat, |t: Seq<u8>| parse_input(t)) {
            Ok((vs, m)) => res matches Ok((v, p)) && v@.map_values(|x: Input| x@) == vs && p == pos + m,
            Err(e) => res matches Err(f) && f == e,
        },
{
    let ghost si = buf@.skip(pos as int);
    let ghost parse = |t: Seq<u8>| parse_input(t);
    let mut inputs: Vec<Input> = Vec::new();
    let mut p = pos;
    let mut i: u16 = 0;
    assert(inputs@.map_values(|x: Input| x@) =~= Seq::<UtxoInputModel>::empty());
    while i < n
        invariant
            pos <= p <= buf@.len(),
            i <= n,
            parse_many(si, i as nat, parse) == Ok::<(Seq<UtxoInputModel>, nat), PackableError>(
                (inputs@.map_values(|x: Input| x@), (p - pos) as nat),
            ),
        decreases n - i,
    {
        assert(buf@.skip(p as int) =~= si.skip(p - pos));
        proof {
            lemma_input_parse_serialize(buf@.skip(p as int));
        }
        let ghost before = inputs@.map_values(|x: Input| x@);
        let (input, q) = match Input::unpack(buf, p) {
            Ok(r) => r,
            Err(e) => {
                proof {
                    lemma_many_err(si, (i + 1) as nat, n as nat, parse);
                }
                return Err(e);
            },
        };
        inputs.push(input);
        assert(inputs@.map_values(|x: Input| x@) =~= before.push(input@));
        p = q;
        i = i + 1;
    }
    Ok((inputs, p))
}

/// Reads `n` outputs at `pos` of `buf`; returns them with the position after
/// them.
#[verifier::loop_isolation(false)]
fn unpack_outputs(buf: &[u8], pos: usize, n: u16) -> (res: Result<(Vec<Output>, usize), PackableError>)
    requires
        pos <= buf@.len(),
    ensures
        match parse_many(buf@.skip(pos as int), n as nat, |t: Seq<u8>| parse_output(t)) {
            Ok((vs, m)) => res matches Ok((v, p)) && v@.map_values(|x: Output| x@) == vs && p == pos + m,
            Err(e) => res matches Err(f) && f == e,
        },
{
    let ghost so = buf@.skip(pos as int);
    let ghost parse = |t: Seq<u8>| parse_output(t);
    let mut outputs: Vec<Output> = Vec::new();
    let mut p = pos;
    let mut j: u16 = 0;
    assert(outputs@.map_values(|x: Output| x@) =~= Seq::<OutputModel>::empty());
    while j < n
        invariant
            pos <= p <= buf@.len(),
            j <= n,
            parse_many(so, j as nat, parse) == Ok::<(Seq<OutputModel>, nat), PackableError>(
                (outputs@.map_values(|x: Output| x@), (p - pos) as nat),
            ),
        decreases n - j,
    {
        assert(buf@.skip(p as int) =~= so.skip(p - pos));
        proof {
            lemma_output_parse_serialize(buf@.skip(p as int));
        }
        let ghost before = outputs@.map_values(|x: Output| x@);
        let (output, q) = match Output::unpack(buf, p) {
            Ok(r) => r,
            Err(e) => {
                proof {
                    lemma_many_err(so, (j + 1) as nat, n as nat, parse);
                }
                return Err(e);
            },
        };
        outputs.push(output);
        assert(outputs@.map_values(|x: Output| x@) =~= before.push(output@));
        p = q;
        j = j + 1;
    }
    Ok((outputs, p))
}

/// Reads the payload field at `pos` of `buf`; returns the payload, if any,
/// with the position after the field.
fn unpack_payload_field(buf: &[u8], pos: usize) -> (res: Result<(Option<Payload>, usize), PackableError>)
    requires
        pos <= buf@.len(),
    ensures
        match parse_payload_field(buf@.skip(pos as int)) {
            Ok((v, n)) => res matches Ok((p, q)) && payload_view(p) == v && q == pos + n,
            Err(e) => res matches Err(f) && f == e,
        },
{
    let ghost s = buf@.skip(pos as int);
    let (payload_len, p1) = match read_u32(buf, pos) {
        Ok(r) => r,
        Err(e) => return Err(e),
    };
    if payload_len > 0 {
        assert(buf@.skip(p1 as int) =~= s.skip(4));
        proof {
            lemma_payload_parse_serialize(buf@.skip(p1 as int));
        }
        let (payload, p2) = match Payload::unpack(buf, p1) {
            Ok(r) => r,
            Err(e) => return Err(e),
        };
        if payload_len as usize != p2 - p1 {
            return Err(PackableError::InvalidAnnouncedLen);
        }
        Ok((Some(payload), p2))
    } else {
        Ok((None, p1))
    }
}

impl TransactionEssence {
    /// Reads an essence at `pos` of `buf`; returns it with the position
    /// after it.
    #[verifier::rlimit(40)]
    pub fn unpack(buf: &[u8], pos: usize) -> (res: Result<(TransactionEssence, usize), PackableError>)
        requires
            pos <= buf@.len(),
        ensures
            match parse_essence(buf@.skip(pos as int)) {
                Ok((v, n)) => res matches Ok((e, p)) && e@ == v && p == pos + n,
                Err(err) => res matches Err(f) && f == err,
            },
    {
        let ghost s = buf@.skip(pos as int);
        let (kind, p1) = match read_u8(buf, pos) {
            Ok(r) => r,
            Err(e) => return Err(e),
        };
        if kind != TRANSACTION_ESSENCE_KIND {
            return Err(PackableError::InvalidType);
        }
        assert(buf@.skip(p1 as int) =~= s.skip(1));
        let (ni, p2) = match read_u16(buf, p1) {
            Ok(r) => r,
            Err(e) => return Err(e),
        };
        assert(buf@.skip(p2 as int) =~= s.skip(3));
        proof {
            lemma_inputs_parse_serialize(buf@.skip(p2 as int), ni as nat);
        }
        let (inputs, p3) = match unpack_inputs(buf, p2, ni) {
            Ok(r) => r,
            Err(e) => return Err(e),
        };
        assert(buf@.skip(p3 as int) =~= s.skip(p3 - pos));
        let (no, p4) = match read_u16(buf, p3) {
            Ok(r) => r,
            Err(e) => return Err(e),
        };
        assert(buf@.skip(p4 as int) =~= s.skip(p4 - pos));
        proof {
            lemma_outputs_parse_serialize(buf@.skip(p4 as int), no as nat);
        }
        let (outputs, p5) = match unpack_outputs(buf, p4, no) {
            Ok(r) => r,
            Err(e) => return Err(e),
        };
        assert(buf@.skip(p5 as int) =~= s.skip(p5 - pos));
        let (payload, p6) = match unpack_payload_field(buf, p5) {
            Ok(r) => r,
            Err(e) => return Err(e),
        };
        Ok((TransactionEssence { inputs, outputs, payload }, p6))
    }
}

} // verus!

verus! {

/// The fewest inputs, and the fewest outputs, an essence may have.
pub const INPUT_OUTPUT_COUNT_MIN: usize = 1;

/// The most inputs, and the most outputs, an essence may have.
pub const INPUT_OUTPUT_COUNT_MAX: usize = 127;

/// The bound on the index of a spent output: valid indices are below it.
pub const INPUT_OUTPUT_INDEX_BOUND: u16 = 127;

/// The total supply of tokens, which the outputs of an essence may not
/// exceed together.
pub const IOTA_SUPPLY: u64 = 2779530283277761;

/// Whether `n` is an allowed number of inputs or outputs.
pub open spec fn count_valid(n: nat) -> bool {
    INPUT_OUTPUT_COUNT_MIN <= n <= INPUT_OUTPUT_COUNT_MAX
}

/// What is wrong with input `i`, if anything: an index out of range, or
/// another input equal to it.
pub open spec fn input_fault(inputs: Seq<UtxoInputModel>, i: int) -> Option<Error> {
    if inputs[i].index >= INPUT_OUTPUT_INDEX_BOUND {
        Some(Error::CountError)
    } else if exists|j: int| 0 <= j < inputs.len() && j != i && inputs[j] == inputs[i] {
        Some(Error::DuplicateError)
    } else {
        None
    }
}

/// The fault of the first faulty input among the first `k`.
pub open spec fn first_input_fault(inputs: Seq<UtxoInputModel>, k: nat) -> Option<Error>
    decreases k,
{
    if k == 0 {
        None
    } else {
        match first_input_fault(inputs, (k - 1) as nat) {
            Some(e) => Some(e),
            None => input_fault(inputs, k - 1),
        }
    }
}

/// What is wrong with output `i`, if anything: another output to the same
/// address, or a zero amount.
pub open spec fn output_fault(outputs: Seq<OutputModel>, i: int) -> Option<Error> {
    if exists|j: int| 0 <= j < outputs.len() && j != i && outputs[j].address == outputs[i].address {
        Some(Error::DuplicateError)
    } else if outputs[i].amount == 0 {
        Some(Error::AmountError)
    } else {
        None
    }
}

/// The fault of the first faulty output among the first `k`.
pub open spec fn first_output_fault(outputs: Seq<OutputModel>, k: nat) -> Option<Error>
    decreases k,
{
    if k == 0 {
        None
    } else {
        match first_output_fault(outputs, (k - 1) as nat) {
            Some(e) => Some(e),
            None => output_fault(outputs, k - 1),
        }
    }
}

/// The sum of the amounts of the outputs.
pub open spec fn total_amount(outputs: Seq<OutputModel>) -> int
    decreases outputs.len(),
{
    if outputs.len() == 0 {
        0
    } else {
        total_amount(outputs.drop_last()) + outputs.last().amount
    }
}

/// The error with which a builder holding `e` refuses to finish, checked in
/// this order: the number of inputs, each input in turn, the number of
/// outputs, each output in turn, the total amount; `None` when it finishes.
pub open spec fn finish_error(e: EssenceModel) -> Option<Error> {
    if !count_valid(e.inputs.len()) {
        Some(Error::CountError)
    } else if first_input_fault(e.inputs, e.inputs.len()) is Some {
        first_input_fault(e.inputs, e.inputs.len())
    } else if !count_valid(e.outputs.len()) {
        Some(Error::CountError)
    } else if first_output_fault(e.outputs, e.outputs.len()) is Some {
        first_output_fault(e.outputs, e.outputs.len())
    } else if total_amount(e.outputs) > IOTA_SUPPLY {
        Some(Error::AmountError)
    } else {
        None
    }
}

/// A valid essence: an allowed number of inputs, each spending an output
/// with an index in range and no two the same; an allowed number of
/// outputs, no two to the same address, each with a positive amount, and
/// all together no more than the supply.
pub open spec fn essence_valid(e: EssenceModel) -> bool {
    &&& count_valid(e.inputs.len())
    &&& forall|i: int| 0 <= i < e.inputs.len() ==> #[trigger] e.inputs[i].index < INPUT_OUTPUT_INDEX_BOUND
    &&& e.inputs.no_duplicates()
    &&& count_valid(e.outputs.len())
    &&& forall|i: int, j: int|
        0 <= i < e.outputs.len() && 0 <= j < e.outputs.len() && i != j
            ==> #[trigger] e.outputs[i].address != #[trigger] e.outputs[j].address
    &&& forall|i: int| 0 <= i < e.outputs.len() ==> #[trigger] e.outputs[i].amount > 0
    &&& total_amount(e.outputs) <= IOTA_SUPPLY
}

proof fn lemma_first_input_fault(inputs: Seq<UtxoInputModel>, k: nat)
    requires
        k <= inputs.len(),
    ensures
        first_input_fault(inputs, k) is None <==> forall|i: int| 0 <= i < k ==> #[trigger] input_fault(
            inputs,
            i,
        ) is None,
    decreases k,
{
    if k > 0 {
        lemma_first_input_fault(inputs, (k - 1) as nat);
    }
}

proof fn lemma_first_output_fault(outputs: Seq<OutputModel>, k: nat)
    requires
        k <= outputs.len(),
    ensures
        first_output_fault(outputs, k) is None <==> forall|i: int|
            0 <= i < k ==> #[trigger] output_fault(outputs, i) is None,
    decreases k,
{
    if k > 0 {
        lemma_first_output_fault(outputs, (k - 1) as nat);
    }
}

proof fn lemma_first_input_fault_stable(inputs: Seq<UtxoInputModel>, i: nat, n: nat)
    requires
        i <= n,
        first_input_fault(inputs, i) is Some,
    ensures
        first_input_fault(inputs, n) == first_input_fault(inputs, i),
    decreases n,
{
    if n > i {
        lemma_first_input_fault_stable(inputs, i, (n - 1) as nat);
    }
}

proof fn lemma_first_output_fault_stable(outputs: Seq<OutputModel>, i: nat, n: nat)
    requires
        i <= n,
        first_output_fault(outputs, i) is Some,
    ensures
        first_output_fault(outputs, n) == first_output_fault(outputs, i),
    decreases n,
{
    if n > i {
        lemma_first_output_fault_stable(outputs, i, (n - 1) as nat);
    }
}

/// A builder finishes exactly when its contents form a valid essence.
pub proof fn lemma_finish_accepts_exactly_valid(e: EssenceModel)
    ensures
        finish_error(e) is None <==> essence_valid(e),
{
    lemma_first_input_fault(e.inputs, e.inputs.len());
    lemma_first_output_fault(e.outputs, e.outputs.len());
    if finish_error(e) is None {
        assert forall|i: int| 0 <= i < e.inputs.len() implies #[trigger] e.inputs[i].index
            < INPUT_OUTPUT_INDEX_BOUND by {
            assert(input_fault(e.inputs, i) is None);
        }
        assert forall|i: int, j: int| 0 <= i < e.inputs.len() && 0 <= j < e.inputs.len() && i != j
            implies e.inputs[i] != e.inputs[j] by {
            assert(input_fault(e.inputs, i) is None);
        }
        assert forall|i: int, j: int|
            0 <= i < e.outputs.len() && 0 <= j < e.outputs.len() && i != j
            implies #[trigger] e.outputs[i].address != #[trigger] e.outputs[j].address by {
            assert(output_fault(e.outputs, i) is None);
        }
        assert forall|i: int| 0 <= i < e.outputs.len() implies #[trigger] e.outputs[i].amount > 0 by {
            assert(output_fault(e.outputs, i) is None);
        }
    }
    if essence_valid(e) {
        assert forall|i: int| 0 <= i < e.inputs.len() implies #[trigger] input_fault(e.inputs, i)
            is None by {
            assert(e.inputs[i].index < INPUT_OUTPUT_INDEX_BOUND);
            if exists|j: int| 0 <= j < e.inputs.len() && j != i && e.inputs[j] == e.inputs[i] {
                let j = choose|j: int| 0 <= j < e.inputs.len() && j != i && e.inputs[j] == e.inputs[i];
                assert(e.inputs.no_duplicates());
            }
        }
        assert forall|i: int| 0 <= i < e.outputs.len() implies #[trigger] output_fault(e.outputs, i)
            is None by {
            assert(e.outputs[i].amount > 0);
            if exists|j: int|
                0 <= j < e.outputs.len() && j != i && e.outputs[j].address == e.outputs[i].address {
                let j = choose|j: int|
                    0 <= j < e.outputs.len() && j != i && e.outputs[j].address == e.outputs[i].address;
                assert(e.outputs[i].address != e.outputs[j].address);
            }
        }
    }
}

/// A builder with fewer than 1 or more than 127 inputs is refused with
/// `CountError`.
pub proof fn lemma_finish_input_count_error(e: EssenceModel)
    requires
        e.inputs.len() < 1 || e.inputs.len() > 127,
    ensures
        finish_error(e) == Some(Error::CountError),
{
}

/// With an allowed number of inputs, the first input in order that is at
/// fault decides the error: `CountError` for an output index of 127 or
/// more, else `DuplicateError` when another input equals it.
pub proof fn lemma_finish_first_bad_input(e: EssenceModel, k: int)
    requires
        1 <= e.inputs.len() <= 127,
        0 <= k < e.inputs.len(),
        forall|j: int| 0 <= j < k ==> #[trigger] e.inputs[j].index < 127,
        forall|j: int, l: int|
            0 <= j < k && 0 <= l < e.inputs.len() && l != j ==> #[trigger] e.inputs[l] != #[trigger] e.inputs[j],
    ensures
        e.inputs[k].index >= 127 ==> finish_error(e) == Some(Error::CountError),
        e.inputs[k].index < 127 && (exists|l: int| 0 <= l < e.inputs.len() && l != k && e.inputs[l] == e.inputs[k])
            ==> finish_error(e) == Some(Error::DuplicateError),
{
    let n = e.inputs.len();
    assert forall|j: int| 0 <= j < k implies #[trigger] input_fault(e.inputs, j) is None by {
        assert(e.inputs[j].index < 127);
        if exists|l: int| 0 <= l < n && l != j && e.inputs[l] == e.inputs[j] {
            let l = choose|l: int| 0 <= l < n && l != j && e.inputs[l] == e.inputs[j];
            assert(e.inputs[l] != e.inputs[j]);
        }
    }
    lemma_first_input_fault(e.inputs, k as nat);
    if input_fault(e.inputs, k) is Some {
        assert(first_input_fault(e.inputs, (k + 1) as nat) == input_fault(e.inputs, k));
        lemma_first_input_fault_stable(e.inputs, (k + 1) as nat, n);
    }
}

/// With valid inputs (1 to 127 of them, each index below 127, no two
/// equal), a builder with fewer than 1 or more than 127 outputs is refused
/// with `CountError`.
pub proof fn lemma_finish_output_count_error(e: EssenceModel)
    requires
        1 <= e.inputs.len() <= 127,
        forall|j: int| 0 <= j < e.inputs.len() ==> #[trigger] e.inputs[j].index < 127,
        e.inputs.no_duplicates(),
        e.outputs.len() < 1 || e.outputs.len() > 127,
    ensures
        finish_error(e) == Some(Error::CountError),
{
    lemma_finish_valid_inputs_pass(e);
}

/// Valid inputs are not at fault.
proof fn lemma_finish_valid_inputs_pass(e: EssenceModel)
    requires
        forall|j: int| 0 <= j < e.inputs.len() ==> #[trigger] e.inputs[j].index < 127,
        e.inputs.no_duplicates(),
    ensures
        first_input_fault(e.inputs, e.inputs.len()) is None,
{
    let n = e.inputs.len();
    assert forall|j: int| 0 <= j < n implies #[trigger] input_fault(e.inputs, j) is None by {
        assert(e.inputs[j].index < 127);
        if exists|l: int| 0 <= l < n && l != j && e.inputs[l] == e.inputs[j] {
            let l = choose|l: int| 0 <= l < n && l != j && e.inputs[l] == e.inputs[j];
        }
    }
    lemma_first_input_fault(e.inputs, n);
}

/// With valid inputs and an allowed number of outputs, the first output in
/// order that is at fault decides the error: `DuplicateError` when another
/// output goes to its address, else `AmountError` for a zero amount.
pub proof fn lemma_finish_first_bad_output(e: EssenceModel, k: int)
    requires
        1 <= e.inputs.len() <= 127,
        forall|j: int| 0 <= j < e.inputs.len() ==> #[trigger] e.inputs[j].index < 127,
        e.inputs.no_duplicates(),
        1 <= e.outputs.len() <= 127,
        0 <= k < e.outputs.len(),
        forall|j: int| 0 <= j < k ==> #[trigger] e.outputs[j].amount > 0,
        forall|j: int, l: int|
            0 <= j < k && 0 <= l < e.outputs.len() && l != j ==> #[trigger] e.outputs[l].address
                != #[trigger] e.outputs[j].address,
    ensures
        (exists|l: int| 0 <= l < e.outputs.len() && l != k && e.outputs[l].address == e.outputs[k].address)
            ==> finish_error(e) == Some(Error::DuplicateError),
        !(exists|l: int| 0 <= l < e.outputs.len() && l != k && e.outputs[l].address == e.outputs[k].address)
            && e.outputs[k].amount == 0 ==> finish_error(e) == Some(Error::AmountError),
{
    lemma_finish_valid_inputs_pass(e);
    let m = e.outputs.len();
    assert forall|j: int| 0 <= j < k implies #[trigger] output_fault(e.outputs, j) is None by {
        assert(e.outputs[j].amount > 0);
        if exists|l: int| 0 <= l < m && l != j && e.outputs[l].address == e.outputs[j].address {
            let l = choose|l: int| 0 <= l < m && l != j && e.outputs[l].address == e.outputs[j].address;
            assert(e.outputs[l].address != e.outputs[j].address);
        }
    }
    lemma_first_output_fault(e.outputs, k as nat);
    if output_fault(e.outputs, k) is Some {
        assert(first_output_fault(e.outputs, (k + 1) as nat) == output_fault(e.outputs, k));
        lemma_first_output_fault_stable(e.outputs, (k + 1) as nat, m);
    }
}

/// With valid inputs and outputs each valid on its own (1 to 127 of them,
/// no two to the same address, every amount positive), a builder whose
/// amounts add up to more than the supply is refused with `AmountError`.
pub proof fn lemma_finish_supply_error(e: EssenceModel)
    requires
        1 <= e.inputs.len() <= 127,
        forall|j: int| 0 <= j < e.inputs.len() ==> #[trigger] e.inputs[j].index < 127,
        e.inputs.no_duplicates(),
        1 <= e.outputs.len() <= 127,
        forall|j: int| 0 <= j < e.outputs.len() ==> #[trigger] e.outputs[j].amount > 0,
        forall|j: int, l: int|
            0 <= j < e.outputs.len() && 0 <= l < e.outputs.len() && l != j ==> #[trigger] e.outputs[l].address
                != #[trigger] e.outputs[j].address,
        total_amount(e.outputs) > 2779530283277761,
    ensures
        finish_error(e) == Some(Error::AmountError),
{
    lemma_finish_valid_inputs_pass(e);
    let m = e.outputs.len();
    assert forall|j: int| 0 <= j < m implies #[trigger] output_fault(e.outputs, j) is None by {
        assert(e.outputs[j].amount > 0);
        if exists|l: int| 0 <= l < m && l != j && e.outputs[l].address == e.outputs[j].address {
            let l = choose|l: int| 0 <= l < m && l != j && e.outputs[l].address == e.outputs[j].address;
            assert(e.outputs[l].address != e.outputs[j].address);
        }
    }
    lemma_first_output_fault(e.outputs, m);
}

} // verus!

verus! {

/// Whether another input equals input `i`.
fn has_duplicate_input(inputs: &Vec<Input>, i: usize) -> (dup: bool)
    requires
        i < inputs@.len(),
    ensures
        dup == exists|j: int| 0 <= j < inputs@.len() && j != i && inputs@[j]@ == inputs@[i as int]@,
{
    let mut j: usize = 0;
    while j < inputs.len()
        invariant
            i < inputs@.len(),
            j <= inputs@.len(),
            forall|k: int| 0 <= k < j && k != i ==> inputs@[k]@ != inputs@[i as int]@,
        decreases inputs@.len() - j,
    {
        if j != i && inputs[j].equals(&inputs[i]) {
            return true;
        }
        j = j + 1;
    }
    false
}

/// Whether another output goes to the address of output `i`.
fn has_duplicate_address(outputs: &Vec<Output>, i: usize) -> (dup: bool)
    requires
        i < outputs@.len(),
    ensures
        dup == exists|j: int|
            0 <= j < outputs@.len() && j != i && outputs@[j]@.address == outputs@[i as int]@.address,
{
    let mut j: usize = 0;
    while j < outputs.len()
        invariant
            i < outputs@.len(),
            j <= outputs@.len(),
            forall|k: int| 0 <= k < j && k != i ==> outputs@[k]@.address != outputs@[i as int]@.address,
        decreases outputs@.len() - j,
    {
        if j != i && outputs[j].address().equals(outputs[i].address()) {
            return true;
        }
        j = j + 1;
    }
    false
}

impl TransactionEssenceBuilder {
    /// Validates the contents and turns them into an essence; fails with
    /// the error that `finish_error` names.
    pub fn finish(self) -> (res: Result<TransactionEssence, Error>)
        ensures
            match finish_error(self@) {
                Some(err) => res matches Err(f) && f == err,
                None => res matches Ok(e) && e@ == self@,
            },
    {
        let ghost ins = self@.inputs;
        let ghost outs = self@.outputs;
        let n = self.inputs.len();
        if n < INPUT_OUTPUT_COUNT_MIN || n > INPUT_OUTPUT_COUNT_MAX {
            return Err(Error::CountError);
        }
        let mut i: usize = 0;
        while i < n
            invariant
                ins == self@.inputs,
                n == ins.len(),
                count_valid(n as nat),
                i <= n,
                first_input_fault(ins, i as nat) is None,
            decreases n - i,
        {
            assert(ins[i as int] == self.inputs@[i as int]@);
            if self.inputs[i].index() >= INPUT_OUTPUT_INDEX_BOUND {
                proof {
                    lemma_first_input_fault_stable(ins, (i + 1) as nat, n as nat);
                }
                return Err(Error::CountError);
            }
            if has_duplicate_input(&self.inputs, i) {
                let ghost j = choose|j: int|
                    0 <= j < self.inputs@.len() && j != i && self.inputs@[j]@ == self.inputs@[i as int]@;
                assert(ins[j] == self.inputs@[j]@);
                assert(ins[j] == ins[i as int]);
                assert(input_fault(ins, i as int) == Some(Error::DuplicateError));
                assert(first_input_fault(ins, (i + 1) as nat) == Some(Error::DuplicateError));
                proof {
                    lemma_first_input_fault_stable(ins, (i + 1) as nat, n as nat);
                }
                return Err(Error::DuplicateError);
            }
            assert forall|j: int| 0 <= j < ins.len() && j != i implies ins[j] != ins[i as int] by {
                assert(ins[j] == self.inputs@[j]@);
            }
            i = i + 1;
        }
        let m = self.outputs.len();
        if m < INPUT_OUTPUT_COUNT_MIN || m > INPUT_OUTPUT_COUNT_MAX {
            return Err(Error::CountError);
        }
        let mut total: u64 = 0;
        let mut j: usize = 0;
        while j < m
            invariant
                ins == self@.inputs,
                outs == self@.outputs,
                m == outs.len(),
                count_valid(ins.len()),
                first_input_fault(ins, ins.len()) is None,
                count_valid(m as nat),
                j <= m,
                first_output_fault(outs, j as nat) is None,
                total == (if total_amount(outs.take(j as int)) > u64::MAX {
                    u64::MAX as int
                } else {
                    total_amount(outs.take(j as int))
                }),
            decreases m - j,
        {
            assert(outs[j as int] == self.outputs@[j as int]@);
            if has_duplicate_address(&self.outputs, j) {
                let ghost k = choose|k: int|
                    0 <= k < self.outputs@.len() && k != j && self.outputs@[k]@.address
                        == self.outputs@[j as int]@.address;
                assert(outs[k] == self.outputs@[k]@);
                assert(outs[k].address == outs[j as int].address);
                assert(output_fault(outs, j as int) == Some(Error::DuplicateError));
                assert(first_output_fault(outs, (j + 1) as nat) == Some(Error::DuplicateError));
                proof {
                    lemma_first_output_fault_stable(outs, (j + 1) as nat, m as nat);
                }
                return Err(Error::DuplicateError);
            }
            assert forall|k: int| 0 <= k < outs.len() && k != j implies outs[k].address
                != outs[j as int].address by {
                assert(outs[k] == self.outputs@[k]@);
            }
            let amount = self.outputs[j].amount();
            if amount == 0 {
                assert(output_fault(outs, j as int) == Some(Error::AmountError));
                assert(first_output_fault(outs, (j + 1) as nat) == Some(Error::AmountError));
                proof {
                    lemma_first_output_fault_stable(outs, (j + 1) as nat, m as nat);
                }
                return Err(Error::AmountError);
            }
            assert(outs.take(j + 1).drop_last() =~= outs.take(j as int));
            total = total.saturating_add(amount);
            j = j + 1;
        }
        assert(outs.take(m as int) =~= outs);
        if total > IOTA_SUPPLY {
            return Err(Error::AmountError);
        }
        Ok(TransactionEssence { inputs: self.inputs, outputs: self.outputs, payload: self.payload })
    }
}

} // verus!

use bee::message::error::Error;
use bee::message::essence::{TransactionEssence, TransactionEssenceBuilder, IOTA_SUPPLY};
use bee::message::input::{Input, UTXOInput};
use bee::message::output::{Address, Ed25519Address, Output, SignatureLockedSingleOutput, WotsAddress};
use bee::message::packable::PackableError;
use bee::message::payload::{Indexation, Payload};

fn input(id_byte: u8, index: u16) -> Input {
    Input::UTXO(UTXOInput::new(vec![id_byte; 32], index))
}

fn output(addr_byte: u8, amount: u64) -> Output {
    Output::SignatureLockedSingle(SignatureLockedSingleOutput::new(
        Address::Ed25519(Ed25519Address::new(vec![addr_byte; 32])),
        amount,
    ))
}

fn wots_output(addr_byte: u8, amount: u64) -> Output {
    Output::SignatureLockedSingle(SignatureLockedSingleOutput::new(
        Address::Wots(WotsAddress::new(vec![addr_byte; 49])),
        amount,
    ))
}

fn valid_builder() -> TransactionEssenceBuilder {
    TransactionEssence::builder()
        .add_input(input(1, 0))
        .add_input(input(1, 1))
        .add_output(output(7, 100))
        .add_output(wots_output(7, 50))
}

#[test]
fn finish_accepts_valid_essence() {
    let essence = valid_builder().finish().unwrap();
    assert_eq!(essence.inputs().len(), 2);
    assert_eq!(essence.inputs()[1].index(), 1);
    assert_eq!(essence.outputs().len(), 2);
    assert_eq!(essence.outputs()[0].amount(), 100);
    assert!(essence.payload().is_none());
}

#[test]
fn finish_rejects_no_inputs() {
    let r = TransactionEssenceBuilder::new().add_output(output(1, 1)).finish();
    assert_eq!(r.unwrap_err(), Error::CountError);
}

#[test]
fn finish_rejects_too_many_inputs() {
    let mut b = TransactionEssenceBuilder::new();
    for i in 0..128u16 {
        b = b.add_input(input((i % 256) as u8, i % 100));
    }
    let r = b.add_output(output(1, 1)).finish();
    assert_eq!(r.unwrap_err(), Error::CountError);
}

#[test]
fn finish_accepts_most_inputs() {
    let mut b = TransactionEssenceBuilder::new();
    for i in 0..127u16 {
        b = b.add_input(input(i as u8, 0));
    }
    assert!(b.add_output(output(1, 1)).finish().is_ok());
}

#[test]
fn finish_rejects_index_out_of_range() {
    let r = TransactionEssenceBuilder::new()
        .add_input(input(1, 127))
        .add_output(output(1, 1))
        .finish();
    assert_eq!(r.unwrap_err(), Error::CountError);
    let ok = TransactionEssenceBuilder::new()
        .add_input(input(1, 126))
        .add_output(output(1, 1))
        .finish();
    assert!(ok.is_ok());
}

#[test]
fn finish_rejects_duplicate_inputs() {
    let r = TransactionEssenceBuilder::new()
        .add_input(input(3, 5))
        .add_input(input(3, 5))
        .add_output(output(1, 1))
        .finish();
    assert_eq!(r.unwrap_err(), Error::DuplicateError);
}

#[test]
fn finish_checks_inputs_in_order() {
    // The first input is a duplicate, the second out of range: the first
    // faulty input decides.
    let r = TransactionEssenceBuilder::new()
        .add_input(input(3, 5))
        .add_input(input(4, 200))
        .add_input(input(3, 5))
        .add_output(output(1, 1))
        .finish();
    assert_eq!(r.unwrap_err(), Error::DuplicateError);
}

#[test]
fn finish_rejects_no_outputs() {
    let r = TransactionEssenceBuilder::new().add_input(input(1, 1)).finish();
    assert_eq!(r.unwrap_err(), Error::CountError);
}

#[test]
fn finish_rejects_duplicate_addresses() {
    let r = TransactionEssenceBuilder::new()
        .add_input(input(1, 1))
        .add_output(output(9, 1))
        .add_output(output(9, 2))
        .finish();
    assert_eq!(r.unwrap_err(), Error::DuplicateError);
}

#[test]
fn finish_rejects_zero_amount() {
    let r = TransactionEssenceBuilder::new()
        .add_input(input(1, 1))
        .add_output(output(9, 0))
        .finish();
    assert_eq!(r.unwrap_err(), Error::AmountError);
}

#[test]
fn finish_rejects_more_than_supply() {
    let over = TransactionEssenceBuilder::new()
        .add_input(input(1, 1))
        .add_output(output(1, IOTA_SUPPLY))
        .add_output(output(2, 1))
        .finish();
    assert_eq!(over.unwrap_err(), Error::AmountError);
    let exact = TransactionEssenceBuilder::new()
        .add_input(input(1, 1))
        .add_output(output(1, IOTA_SUPPLY - 1))
        .add_output(output(2, 1))
        .finish();
    assert!(exact.is_ok());
    let huge = TransactionEssenceBuilder::new()
        .add_input(input(1, 1))
        .add_output(output(1, u64::MAX))
        .add_output(output(2, u64::MAX))
        .finish();
    assert_eq!(huge.unwrap_err(), Error::AmountError);
}

#[test]
fn essence_packs_to_expected_bytes() {
    let essence = TransactionEssence::builder()
        .add_input(input(0xaa, 0x0010))
        .add_output(output(0xbb, 0x0403_0201))
        .with_payload(Payload::Indexation(Indexation::new(vec![0x11, 0x22], vec![0x33])))
        .finish()
        .unwrap();
    let mut buf = Vec::new();
    essence.pack(&mut buf);
    let mut expected = vec![0u8, 1, 0, 0];
    expected.extend_from_slice(&[0xaa; 32]);
    expected.extend_from_slice(&[0x10, 0x00, 1, 0, 0, 1]);
    expected.extend_from_slice(&[0xbb; 32]);
    expected.extend_from_slice(&[1, 2, 3, 4, 0, 0, 0, 0]);
    // payload field: length 13, then kind 2, index length 2, index, data length 1, data
    expected.extend_from_slice(&[13, 0, 0, 0, 2, 0, 0, 0, 2, 0, 0x11, 0x22, 1, 0, 0, 0, 0x33]);
    assert_eq!(buf, expected);
    assert_eq!(essence.packed_len(), expected.len());
}

#[test]
fn essence_roundtrips() {
    let essence = valid_builder()
        .with_payload(Payload::Indexation(Indexation::new(b"index".to_vec(), b"data".to_vec())))
        .finish()
        .unwrap();
    let mut buf = vec![0xff];
    essence.pack(&mut buf);
    buf.push(0xee);
    let (read, end) = TransactionEssence::unpack(&buf, 1).unwrap();
    assert_eq!(end, buf.len() - 1);
    assert_eq!(end - 1, essence.packed_len());
    let mut again = Vec::new();
    read.pack(&mut again);
    assert_eq!(&again[..], &buf[1..end]);
    assert_eq!(read.inputs().len(), 2);
    match read.payload() {
        Some(Payload::Indexation(i)) => {
            assert_eq!(i.index(), b"index");
            assert_eq!(i.data(), b"data");
        }
        None => panic!("payload lost"),
    }
}

#[test]
fn unpack_rejects_unknown_tags() {
    let essence = valid_builder().finish().unwrap();
    let mut buf = Vec::new();
    essence.pack(&mut buf);
    let mut bad = buf.clone();
    bad[0] = 1;
    assert_eq!(TransactionEssence::unpack(&bad, 0).unwrap_err(), PackableError::InvalidType);
    let mut bad_input = buf.clone();
    bad_input[3] = 1;
    assert_eq!(TransactionEssence::unpack(&bad_input, 0).unwrap_err(), PackableError::InvalidType);
}

#[test]
fn unpack_rejects_truncated_bytes() {
    let essence = valid_builder().finish().unwrap();
    let mut buf = Vec::new();
    essence.pack(&mut buf);
    for cut in 0..buf.len() {
        assert_eq!(
            TransactionEssence::unpack(&buf[..cut], 0).unwrap_err(),
            PackableError::UnexpectedEnd
        );
    }
    assert!(TransactionEssence::unpack(&buf, 0).is_ok());
}

#[test]
fn unpack_rejects_wrong_announced_length() {
    let essence = TransactionEssence::builder()
        .add_input(input(1, 1))
        .add_output(output(2, 3))
        .with_payload(Payload::Indexation(Indexation::new(vec![1], vec![2, 3])))
        .finish()
        .unwrap();
    let mut buf = Vec::new();
    essence.pack(&mut buf);
    let field = 1 + 2 + 35 + 2 + 42;
    assert_eq!(buf[field], 13);
    buf[field] = 12;
    assert_eq!(TransactionEssence::unpack(&buf, 0).unwrap_err(), PackableError::InvalidAnnouncedLen);
}

#[test]
fn inputs_compare_by_transaction_and_index() {
    assert!(input(1, 2).equals(&input(1, 2)));
    assert!(!input(1, 2).equals(&input(1, 3)));
    assert!(!input(1, 2).equals(&input(2, 2)));
    let a = Address::Ed25519(Ed25519Address::new(vec![5; 32]));
    let b = Address::Wots(WotsAddress::new(vec![5; 49]));
    assert!(!a.equals(&b));
    assert!(a.equals(&Address::Ed25519(Ed25519Address::new(vec![5; 32]))));
}

#[test]
fn builder_default_is_empty() {
    let r = TransactionEssenceBuilder::default().finish();
    assert_eq!(r.unwrap_err(), Error::CountError);
    let ok = TransactionEssenceBuilder::default()
        .add_input(input(1, 1))
        .add_output(output(1, 1))
        .finish();
    assert!(ok.is_ok());
}

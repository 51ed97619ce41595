//! Transaction outputs: amounts of tokens deposited to addresses.
use crate::message::packable::{
    bytes_eq, lemma_le_roundtrip, parse_bytes, parse_u64, parse_u8, read_bytes, read_u64, read_u8,
    write_bytes, write_u64, write_u8, PackableError, SpecParse,
};
use vstd::bytes::*;
use vstd::prelude::*;

verus! {

/// The length in bytes of a WOTS address (243 trits, five to a byte).
pub const WOTS_ADDRESS_LENGTH: usize = 49;

/// The length in bytes of an Ed25519 address.
pub const ED25519_ADDRESS_LENGTH: usize = 32;

/// The tag of a WOTS address.
pub const WOTS_ADDRESS_KIND: u8 = 0;

/// The tag of an Ed25519 address.
pub const ED25519_ADDRESS_KIND: u8 = 1;

/// The tag of an output that deposits an amount to a single address.
pub const SIGNATURE_LOCKED_SINGLE_OUTPUT_KIND: u8 = 0;

/// The abstract value of an address: its kind and its bytes.
pub enum AddressModel {
    Wots(Seq<u8>),
    Ed25519(Seq<u8>),
}

/// The abstract value of an output: the address and the deposited amount.
pub struct OutputModel {
    pub address: AddressModel,
    pub amount: u64,
}

/// A WOTS address, 49 bytes long.
#[derive(Debug)]
pub struct WotsAddress {
    bytes: Vec<u8>,
}

impl View for WotsAddress {
    type V = Seq<u8>;

    closed spec fn view(&self) -> Seq<u8> {
        self.bytes@
    }
}

impl Clone for WotsAddress {
    /// A copy of the address.
    fn clone(&self) -> (copy: Self)
        ensures
            copy@ == self@,
    {
        proof {
            use_type_invariant(self);
        }
        let bytes = self.bytes.clone();
        assert(bytes@ =~= self.bytes@);
        WotsAddress { bytes }
    }
}

impl WotsAddress {
    #[verifier::type_invariant]
    closed spec fn inv(self) -> bool {
        self.bytes@.len() == WOTS_ADDRESS_LENGTH
    }

    /// Wraps the bytes of a WOTS address.
    pub fn new(bytes: Vec<u8>) -> (address: Self)
        requires
            bytes@.len() == WOTS_ADDRESS_LENGTH,
        ensures
            address@ == bytes@,
    {
        WotsAddress { bytes }
    }

    /// The address's bytes.
    pub fn as_bytes(&self) -> (bytes: &[u8])
        ensures
            bytes@ == self@,
            bytes@.len() == WOTS_ADDRESS_LENGTH,
    {
        proof {
            use_type_invariant(self);
        }
        self.bytes.as_slice()
    }
}

/// An Ed25519 address, 32 bytes long.
#[derive(Debug)]
pub struct Ed25519Address {
    bytes: Vec<u8>,
}

impl View for Ed25519Address {
    type V = Seq<u8>;

    closed spec fn view(&self) -> Seq<u8> {
        self.bytes@
    }
}

impl Clone for Ed25519Address {
    /// A copy of the address.
    fn clone(&self) -> (copy: Self)
        ensures
            copy@ == self@,
    {
        proof {
            use_type_invariant(self);
        }
        let bytes = self.bytes.clone();
        assert(bytes@ =~= self.bytes@);
        Ed25519Address { bytes }
    }
}

impl Ed25519Address {
    #[verifier::type_invariant]
    closed spec fn inv(self) -> bool {
        self.bytes@.len() == ED25519_ADDRESS_LENGTH
    }

    /// Wraps the bytes of an Ed25519 address.
    pub fn new(bytes: Vec<u8>) -> (address: Self)
        requires
            bytes@.len() == ED25519_ADDRESS_LENGTH,
        ensures
            address@ == bytes@,
    {
        Ed25519Address { bytes }
    }

    /// The address's bytes.
    pub fn as_bytes(&self) -> (bytes: &[u8])
        ensures
            bytes@ == self@,
            bytes@.len() == ED25519_ADDRESS_LENGTH,
    {
        proof {
            use_type_invariant(self);
        }
        self.bytes.as_slice()
    }
}

/// An address to which an output deposits tokens.
#[derive(Debug)]
pub enum Address {
    Wots(WotsAddress),
    Ed25519(Ed25519Address),
}

impl View for Address {
    type V = AddressModel;

    open spec fn view(&self) -> AddressModel {
        match self {
            Address::Wots(a) => AddressModel::Wots(a@),
            Address::Ed25519(a) => AddressModel::Ed25519(a@),
        }
    }
}

impl Clone for Address {
    /// A copy of the address.
    fn clone(&self) -> (copy: Self)
        ensures
            copy@ == self@,
    {
        match self {
            Address::Wots(a) => Address::Wots(a.clone()),
            Address::Ed25519(a) => Address::Ed25519(a.clone()),
        }
    }
}

impl Clone for SignatureLockedSingleOutput {
    /// A copy of the output.
    fn clone(&self) -> (copy: Self)
        ensures
            copy@ == self@,
    {
        SignatureLockedSingleOutput { address: self.address.clone(), amount: self.amount }
    }
}

impl Clone for Output {
    /// A copy of the output.
    fn clone(&self) -> (copy: Self)
        ensures
            copy@ == self@,
    {
        match self {
            Output::SignatureLockedSingle(o) => Output::SignatureLockedSingle(o.clone()),
        }
    }
}

impl Address {
    /// Whether two addresses are of the same kind and have the same bytes.
    pub fn equals(&self, other: &Address) -> (eq: bool)
        ensures
            eq == (self@ == other@),
    {
        match (self, other) {
            (Address::Wots(a), Address::Wots(b)) => bytes_eq(a.as_bytes(), b.as_bytes()),
            (Address::Ed25519(a), Address::Ed25519(b)) => bytes_eq(a.as_bytes(), b.as_bytes()),
            _ => false,
        }
    }
}

/// An output that deposits `amount` tokens to a single address.
#[derive(Debug)]
pub struct SignatureLockedSingleOutput {
    address: Address,
    amount: u64,
}

impl View for SignatureLockedSingleOutput {
    type V = OutputModel;

    closed spec fn view(&self) -> OutputModel {
        OutputModel { address: self.address@, amount: self.amount }
    }
}

impl SignatureLockedSingleOutput {
    /// Creates the output that deposits `amount` to `address`.
    pub fn new(address: Address, amount: u64) -> (output: Self)
        ensures
            output@ == (OutputModel { address: address@, amount }),
    {
        SignatureLockedSingleOutput { address, amount }
    }

    /// The address the tokens go to.
    pub fn address(&self) -> (address: &Address)
        ensures
            address@ == self@.address,
    {
        &self.address
    }

    /// The deposited amount.
    pub fn amount(&self) -> (amount: u64)
        ensures
            amount == self@.amount,
    {
        self.amount
    }
}

/// An output of a transaction; depositing to a single address is the only
/// kind.
#[derive(Debug)]
pub enum Output {
    SignatureLockedSingle(SignatureLockedSingleOutput),
}

impl View for Output {
    type V = OutputModel;

    open spec fn view(&self) -> OutputModel {
        match self {
            Output::SignatureLockedSingle(o) => o@,
        }
    }
}

/// The packed form of an address: its tag, then its bytes.
pub open spec fn serialize_address(a: AddressModel) -> Seq<u8> {
    match a {
        AddressModel::Wots(b) => seq![WOTS_ADDRESS_KIND] + b,
        AddressModel::Ed25519(b) => seq![ED25519_ADDRESS_KIND] + b,
    }
}

/// Reads an address from the front of `s`.
pub open spec fn parse_address(s: Seq<u8>) -> SpecParse<AddressModel> {
    match parse_u8(s) {
        Err(e) => Err(e),
        Ok((kind, a)) => if kind == WOTS_ADDRESS_KIND {
            match parse_bytes(s.skip(a as int), WOTS_ADDRESS_LENGTH as nat) {
                Err(e) => Err(e),
                Ok((b, n)) => Ok((AddressModel::Wots(b), a + n)),
            }
        } else if kind == ED25519_ADDRESS_KIND {
            match parse_bytes(s.skip(a as int), ED25519_ADDRESS_LENGTH as nat) {
                Err(e) => Err(e),
                Ok((b, n)) => Ok((AddressModel::Ed25519(b), a + n)),
            }
        } else {
            Err(PackableError::InvalidType)
        },
    }
}

/// The packed form of an output: its tag, the address, the amount.
pub open spec fn serialize_output(o: OutputModel) -> Seq<u8> {
    seq![SIGNATURE_LOCKED_SINGLE_OUTPUT_KIND] + serialize_address(o.address) + spec_u64_to_le_bytes(
        o.amount,
    )
}

/// Reads an output from the front of `s`.
pub open spec fn parse_output(s: Seq<u8>) -> SpecParse<OutputModel> {
    match parse_u8(s) {
        Err(e) => Err(e),
        Ok((kind, a)) => if kind != SIGNATURE_LOCKED_SINGLE_OUTPUT_KIND {
            Err(PackableError::InvalidType)
        } else {
            match parse_address(s.skip(a as int)) {
                Err(e) => Err(e),
                Ok((address, b)) => match parse_u64(s.skip((a + b) as int)) {
                    Err(e) => Err(e),
                    Ok((amount, c)) => Ok((OutputModel { address, amount }, a + b + c)),
                },
            }
        },
    }
}

/// What every address value satisfies: the right length for its kind.
pub open spec fn address_packable(a: AddressModel) -> bool {
    match a {
        AddressModel::Wots(b) => b.len() == WOTS_ADDRESS_LENGTH,
        AddressModel::Ed25519(b) => b.len() == ED25519_ADDRESS_LENGTH,
    }
}

/// What every output value satisfies.
pub open spec fn output_packable(o: OutputModel) -> bool {
    address_packable(o.address)
}

proof fn lemma_address_roundtrip(a: AddressModel, rest: Seq<u8>)
    requires
        address_packable(a),
    ensures
        parse_address(serialize_address(a) + rest) == Ok::<(AddressModel, nat), PackableError>(
            (a, serialize_address(a).len()),
        ),
{
    let s = serialize_address(a) + rest;
    match a {
        AddressModel::Wots(b) => {
            assert(s.skip(1).take(WOTS_ADDRESS_LENGTH as int) =~= b);
        },
        AddressModel::Ed25519(b) => {
            assert(s.skip(1).take(ED25519_ADDRESS_LENGTH as int) =~= b);
        },
    }
}

proof fn lemma_address_parse_serialize(s: Seq<u8>)
    ensures
        parse_address(s) matches Ok((a, n)) ==> {
            &&& address_packable(a)
            &&& n <= s.len()
            &&& serialize_address(a) == s.take(n as int)
        },
{
    if let Ok((a, n)) = parse_address(s) {
        assert(serialize_address(a) =~= s.take(n as int));
    }
}

/// Reading back a packed output gives the output and consumes exactly its
/// packed form, whatever follows it.
pub proof fn lemma_output_roundtrip(o: OutputModel, rest: Seq<u8>)
    requires
        output_packable(o),
    ensures
        parse_output(serialize_output(o) + rest) == Ok::<(OutputModel, nat), PackableError>(
            (o, serialize_output(o).len()),
        ),
{
    lemma_le_roundtrip();
    let sa = serialize_address(o.address);
    let s = serialize_output(o) + rest;
    assert(s.skip(1) =~= sa + (spec_u64_to_le_bytes(o.amount) + rest));
    lemma_address_roundtrip(o.address, spec_u64_to_le_bytes(o.amount) + rest);
    assert(s.skip(1 + sa.len() as int).take(8) =~= spec_u64_to_le_bytes(o.amount));
}

/// An output that was read is what its bytes encode.
pub proof fn lemma_output_parse_serialize(s: Seq<u8>)
    ensures
        parse_output(s) matches Ok((o, n)) ==> {
            &&& output_packable(o)
            &&& n <= s.len()
            &&& serialize_output(o) == s.take(n as int)
        },
{
    lemma_le_roundtrip();
    lemma_address_parse_serialize(s.skip(1));
    if let Ok((o, n)) = parse_output(s) {
        let b = serialize_address(o.address).len() as int;
        assert(s.skip(1).take(b as int) =~= s.subrange(1, 1 + b));
        assert(s.skip(1 + b).take(8) =~= s.subrange(1 + b, 1 + b + 8));
        assert(serialize_output(o) =~= s.take(n as int));
    }
}

impl Address {
    /// The address's tag and bytes, appended to `buf`.
    pub fn pack(&self, buf: &mut Vec<u8>)
        ensures
            final(buf)@ == old(buf)@ + serialize_address(self@),
    {
        match self {
            Address::Wots(a) => {
                write_u8(buf, WOTS_ADDRESS_KIND);
                write_bytes(buf, a.as_bytes());
            },
            Address::Ed25519(a) => {
                write_u8(buf, ED25519_ADDRESS_KIND);
                write_bytes(buf, a.as_bytes());
            },
        }
        assert(buf@ =~= old(buf)@ + serialize_address(self@));
    }

    /// The length of the packed form.
    pub fn packed_len(&self) -> (len: usize)
        ensures
            len == serialize_address(self@).len(),
            address_packable(self@),
    {
        match self {
            Address::Wots(a) => {
                proof {
                    use_type_invariant(a);
                }
                1 + WOTS_ADDRESS_LENGTH
            },
            Address::Ed25519(a) => {
                proof {
                    use_type_invariant(a);
                }
                1 + ED25519_ADDRESS_LENGTH
            },
        }
    }

    /// Reads an address at `pos` of `buf`; returns it with the position
    /// after it.
    pub fn unpack(buf: &[u8], pos: usize) -> (res: Result<(Address, usize), PackableError>)
        requires
            pos <= buf@.len(),
        ensures
            match parse_address(buf@.skip(pos as int)) {
                Ok((v, n)) => res matches Ok((a, p)) && a@ == v && p == pos + n,
                Err(e) => res matches Err(f) && f == e,
            },
    {
        let ghost s = buf@.skip(pos as int);
        let (kind, p1) = match read_u8(buf, pos) {
            Ok(r) => r,
            Err(e) => return Err(e),
        };
        assert(buf@.skip(p1 as int) =~= s.skip(1));
        if kind == WOTS_ADDRESS_KIND {
            let (bytes, p2) = match read_bytes(buf, p1, WOTS_ADDRESS_LENGTH) {
                Ok(r) => r,
                Err(e) => return Err(e),
            };
            Ok((Address::Wots(WotsAddress::new(bytes)), p2))
        } else if kind == ED25519_ADDRESS_KIND {
            let (bytes, p2) = match read_bytes(buf, p1, ED25519_ADDRESS_LENGTH) {
                Ok(r) => r,
                Err(e) => return Err(e),
            };
            Ok((Address::Ed25519(Ed25519Address::new(bytes)), p2))
        } else {
            Err(PackableError::InvalidType)
        }
    }
}

impl Output {
    /// The address of the output.
    pub fn address(&self) -> (address: &Address)
        ensures
            address@ == self@.address,
    {
        match self {
            Output::SignatureLockedSingle(o) => o.address(),
        }
    }

    /// The amount of the output.
    pub fn amount(&self) -> (amount: u64)
        ensures
            amount == self@.amount,
    {
        match self {
            Output::SignatureLockedSingle(o) => o.amount(),
        }
    }

    /// The output's tag, address and amount, appended to `buf`.
    pub fn pack(&self, buf: &mut Vec<u8>)
        ensures
            final(buf)@ == old(buf)@ + serialize_output(self@),
    {
        write_u8(buf, SIGNATURE_LOCKED_SINGLE_OUTPUT_KIND);
        self.address().pack(buf);
        write_u64(buf, self.amount());
        assert(buf@ =~= old(buf)@ + serialize_output(self@));
    }

    /// The length of the packed form.
    pub fn packed_len(&self) -> (len: usize)
        ensures
            len == serialize_output(self@).len(),
            output_packable(self@),
    {
        proof {
            lemma_le_roundtrip();
        }
        1 + self.address().packed_len() + 8
    }

    /// Reads an output at `pos` of `buf`; returns it with the position after
    /// it.
    pub fn unpack(buf: &[u8], pos: usize) -> (res: Result<(Output, usize), PackableError>)
        requires
            pos <= buf@.len(),
        ensures
            match parse_output(buf@.skip(pos as int)) {
                Ok((v, n)) => res matches Ok((o, p)) && o@ == v && p == pos + n,
                Err(e) => res matches Err(f) && f == e,
            },
    {
        let ghost s = buf@.skip(pos as int);
        let (kind, p1) = match read_u8(buf, pos) {
            Ok(r) => r,
            Err(e) => return Err(e),
        };
        if kind != SIGNATURE_LOCKED_SINGLE_OUTPUT_KIND {
            return Err(PackableError::InvalidType);
        }
        assert(buf@.skip(p1 as int) =~= s.skip(1));
        let (address, p2) = match Address::unpack(buf, p1) {
            Ok(r) => r,
            Err(e) => return Err(e),
        };
        assert(buf@.skip(p2 as int) =~= s.skip(p2 - pos));
        let (amount, p3) = match read_u64(buf, p2) {
            Ok(r) => r,
            Err(e) => return Err(e),
        };
        Ok((Output::SignatureLockedSingle(SignatureLockedSingleOutput::new(address, amount)), p3))
    }
}

} // verus!

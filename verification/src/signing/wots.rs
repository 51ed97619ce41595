//! The builder of the sponge-based Winternitz one-time signature private
//! key generator, and the generation of private keys from entropy.
use std::marker::PhantomData;
use vstd::prelude::*;

verus! {

/// The number of trits of a hash, and of the entropy a key is made from.
pub const HASH_LENGTH: usize = 243;

/// The number of trits of a signature fragment; a private key has one
/// fragment per security level.
pub const SIGNATURE_FRAGMENT_LENGTH: usize = 27 * HASH_LENGTH;

/// The security level of a WOTS key: the number of signature fragments.
#[derive(Clone, Copy, Debug, PartialEq, Eq, Structural)]
pub enum WotsSecurityLevel {
    Low,
    Medium,
    High,
}

/// The number of fragments of a security level.
pub open spec fn security_level_value(level: WotsSecurityLevel) -> nat {
    match level {
        WotsSecurityLevel::Low => 1,
        WotsSecurityLevel::Medium => 2,
        WotsSecurityLevel::High => 3,
    }
}

impl WotsSecurityLevel {
    /// The number of fragments: 1, 2 or 3.
    pub fn value(&self) -> (value: usize)
        ensures
            value == security_level_value(*self),
    {
        match self {
            WotsSecurityLevel::Low => 1,
            WotsSecurityLevel::Medium => 2,
            WotsSecurityLevel::High => 3,
        }
    }
}

/// Why a WOTS generator could not be built or could not generate a key.
#[derive(Clone, Copy, Debug, PartialEq, Eq, Structural)]
pub enum WotsError {
    /// The builder was given no security level.
    MissingSecurityLevel,
    /// The sponge failed to digest the entropy.
    FailedSpongeOperation,
    /// The entropy does not have `HASH_LENGTH` trits; the length it has.
    InvalidEntropyLength(usize),
}

/// A sponge: a hash function over trits (each an `i8` of -1, 0 or 1) that
/// absorbs an input and squeezes out as many trits as its output buffer
/// holds.
pub trait Sponge {
    /// Whether this sponge, in its present state, digests `input` into
    /// `len` trits without failing.
    spec fn spec_digest_ok(&self, input: Seq<i8>, len: nat) -> bool;

    /// The `len` trits this sponge, in its present state, digests `input`
    /// into.
    spec fn spec_digest(&self, input: Seq<i8>, len: nat) -> Seq<i8>;

    /// Absorbs `input` and fills `buf` with the digest; `buf` keeps its
    /// length, as every slice does.
    fn digest_into(&mut self, input: &[i8], buf: &mut [i8]) -> (res: Result<(), ()>)
        ensures
            final(buf)@.len() == old(buf)@.len(),
            res is Ok <==> old(self).spec_digest_ok(input@, old(buf)@.len()),
            res is Ok ==> final(buf)@ == old(self).spec_digest(input@, old(buf)@.len()),
    ;
}

/// Builds a `WotsSpongePrivateKeyGenerator`.
pub struct WotsSpongePrivateKeyGeneratorBuilder<S> {
    security_level: Option<WotsSecurityLevel>,
    _sponge: PhantomData<S>,
}

impl<S> View for WotsSpongePrivateKeyGeneratorBuilder<S> {
    /// The security level set so far, if any.
    type V = Option<WotsSecurityLevel>;

    closed spec fn view(&self) -> Option<WotsSecurityLevel> {
        self.security_level
    }
}

impl<S> Default for WotsSpongePrivateKeyGeneratorBuilder<S> {
    /// A builder with no security level.
    fn default() -> (builder: Self)
        ensures
            builder@ == None::<WotsSecurityLevel>,
    {
        Self { security_level: None, _sponge: PhantomData }
    }
}

impl<S: Sponge + Default> WotsSpongePrivateKeyGeneratorBuilder<S> {
    /// Sets the security level of the keys to generate.
    pub fn security_level(self, security_level: WotsSecurityLevel) -> (builder: Self)
        ensures
            builder@ == Some(security_level),
    {
        let mut builder = self;
        builder.security_level = Some(security_level);
        builder
    }

    /// Builds the generator; fails when no security level was set.
    pub fn build(self) -> (res: Result<WotsSpongePrivateKeyGenerator<S>, WotsError>)
        ensures
            match self@ {
                Some(level) => res matches Ok(generator) && generator@ == level,
                None => res matches Err(e) && e == WotsError::MissingSecurityLevel,
            },
    {
        match self.security_level {
            Some(security_level) => Ok(WotsSpongePrivateKeyGenerator { security_level, _sponge: PhantomData }),
            None => Err(WotsError::MissingSecurityLevel),
        }
    }
}

/// Generates WOTS private keys of a security level with the sponge `S`.
pub struct WotsSpongePrivateKeyGenerator<S> {
    security_level: WotsSecurityLevel,
    _sponge: PhantomData<S>,
}

impl<S> View for WotsSpongePrivateKeyGenerator<S> {
    /// The security level of the keys it generates.
    type V = WotsSecurityLevel;

    closed spec fn view(&self) -> WotsSecurityLevel {
        self.security_level
    }
}

/// A WOTS private key: the trits of its state.
pub struct WotsPrivateKey<S> {
    state: Vec<i8>,
    _sponge: PhantomData<S>,
}

impl<S> View for WotsPrivateKey<S> {
    /// The trits of the key.
    type V = Seq<i8>;

    closed spec fn view(&self) -> Seq<i8> {
        self.state@
    }
}

impl<S> WotsPrivateKey<S> {
    /// The trits of the key.
    pub fn as_trits(&self) -> (trits: &[i8])
        ensures
            trits@ == self@,
    {
        self.state.as_slice()
    }
}

/// The number of trits of a key of a security level: one signature
/// fragment per level.
pub open spec fn key_length(level: WotsSecurityLevel) -> nat {
    (security_level_value(level) * SIGNATURE_FRAGMENT_LENGTH) as nat
}

/// The state a key is digested into: one zeroed signature fragment per
/// security level.
fn zeroed_state(security_level: WotsSecurityLevel) -> (state: Vec<i8>)
    ensures
        state@.len() == security_level_value(security_level) * SIGNATURE_FRAGMENT_LENGTH,
        forall|i: int| 0 <= i < state@.len() ==> state@[i] == 0i8,
{
    let len = security_level.value() * SIGNATURE_FRAGMENT_LENGTH;
    let mut state: Vec<i8> = Vec::new();
    let mut i: usize = 0;
    while i < len
        invariant
            i <= len,
            state@.len() == i,
            forall|k: int| 0 <= k < i ==> state@[k] == 0i8,
        decreases len - i,
    {
        state.push(0i8);
        i = i + 1;
    }
    state
}

impl<S: Sponge + Default> WotsSpongePrivateKeyGenerator<S> {
    /// Generates a private key from `entropy`: a fresh sponge digests the
    /// entropy into a zeroed state of one signature fragment per security
    /// level, and the key is what the sponge wrote. Entropy of another length
    /// than `HASH_LENGTH` is refused with its length; a failing sponge gives
    /// `FailedSpongeOperation`.
    pub fn generate_from_entropy(&self, entropy: &[i8]) -> (res: Result<WotsPrivateKey<S>, WotsError>)
        ensures
            entropy@.len() != HASH_LENGTH <==> res matches Err(WotsError::InvalidEntropyLength(_)),
            res matches Err(WotsError::InvalidEntropyLength(n)) ==> n == entropy@.len(),
            res matches Err(e) ==> e != WotsError::MissingSecurityLevel,
            res matches Ok(key) ==> key@.len() == security_level_value(self@) * SIGNATURE_FRAGMENT_LENGTH,
            res matches Ok(key) ==> exists|s: S|
                {
                    &&& call_ensures(S::default, (), s)
                    &&& #[trigger] s.spec_digest_ok(
                        entropy@,
                        key_length(self@),
                    )
                    &&& key@ == s.spec_digest(
                        entropy@,
                        key_length(self@),
                    )
                },
            res matches Err(WotsError::FailedSpongeOperation) ==> exists|s: S|
                call_ensures(S::default, (), s) && !#[trigger] s.spec_digest_ok(
                    entropy@,
                    key_length(self@),
                ),
    {
        if entropy.len() != HASH_LENGTH {
            return Err(WotsError::InvalidEntropyLength(entropy.len()));
        }
        let mut sponge = S::default();
        let ghost fresh = sponge;
        let mut state = zeroed_state(self.security_level);
        match sponge.digest_into(entropy, state.as_mut_slice()) {
            Ok(()) => {
                assert(fresh.spec_digest_ok(
                    entropy@,
                    key_length(self@),
                ));
            },
            Err(()) => {
                assert(!fresh.spec_digest_ok(
                    entropy@,
                    key_length(self@),
                ));
                return Err(WotsError::FailedSpongeOperation);
            },
        }
        Ok(WotsPrivateKey { state, _sponge: PhantomData })
    }
}

} // verus!

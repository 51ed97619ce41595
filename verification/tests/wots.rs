use vstd::prelude::{nat, Seq};
use bee::signing::wots::{
    Sponge, WotsError, WotsSecurityLevel, WotsSpongePrivateKeyGeneratorBuilder, HASH_LENGTH,
    SIGNATURE_FRAGMENT_LENGTH,
};

#[derive(Default)]
struct EchoSponge;

impl Sponge for EchoSponge {
    // The two specification functions exist for the verifier only; compiled
    // code never calls them.
    fn spec_digest_ok(&self, _input: Seq<i8>, _len: nat) -> bool {
        unreachable!()
    }

    fn spec_digest(&self, _input: Seq<i8>, _len: nat) -> Seq<i8> {
        unreachable!()
    }

    fn digest_into(&mut self, input: &[i8], buf: &mut [i8]) -> Result<(), ()> {
        for (i, t) in buf.iter_mut().enumerate() {
            *t = input[i % input.len()];
        }
        Ok(())
    }
}

#[derive(Default)]
struct FailingSponge;

impl Sponge for FailingSponge {
    fn spec_digest_ok(&self, _input: Seq<i8>, _len: nat) -> bool {
        unreachable!()
    }

    fn spec_digest(&self, _input: Seq<i8>, _len: nat) -> Seq<i8> {
        unreachable!()
    }

    fn digest_into(&mut self, _input: &[i8], _buf: &mut [i8]) -> Result<(), ()> {
        Err(())
    }
}

#[test]
fn build_requires_security_level() {
    let builder = WotsSpongePrivateKeyGeneratorBuilder::<EchoSponge>::default();
    assert_eq!(builder.build().err(), Some(WotsError::MissingSecurityLevel));
}

#[test]
fn generate_from_entropy_checks_length() {
    let generator = WotsSpongePrivateKeyGeneratorBuilder::<EchoSponge>::default()
        .security_level(WotsSecurityLevel::Medium)
        .build()
        .unwrap();
    let short = vec![1i8; 10];
    assert_eq!(generator.generate_from_entropy(&short).err(), Some(WotsError::InvalidEntropyLength(10)));
    let entropy: Vec<i8> = (0..HASH_LENGTH).map(|i| (i % 3) as i8 - 1).collect();
    let key = generator.generate_from_entropy(&entropy).unwrap();
    assert_eq!(key.as_trits().len(), 2 * SIGNATURE_FRAGMENT_LENGTH);
    assert_eq!(&key.as_trits()[..HASH_LENGTH], &entropy[..]);
}

#[test]
fn generate_from_entropy_reports_sponge_failure() {
    let generator = WotsSpongePrivateKeyGeneratorBuilder::<FailingSponge>::default()
        .security_level(WotsSecurityLevel::Low)
        .build()
        .unwrap();
    let entropy = vec![0i8; HASH_LENGTH];
    assert_eq!(generator.generate_from_entropy(&entropy).err(), Some(WotsError::FailedSpongeOperation));
}

#[test]
fn security_level_values() {
    assert_eq!(WotsSecurityLevel::Low.value(), 1);
    assert_eq!(WotsSecurityLevel::Medium.value(), 2);
    assert_eq!(WotsSecurityLevel::High.value(), 3);
    assert_eq!(SIGNATURE_FRAGMENT_LENGTH, 6561);
}

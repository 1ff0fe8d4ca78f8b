//! The two secrets derived from a master passphrase, and their salts.
//!
//! The verification hash is stored and compared at login; the vault key is
//! never stored and encrypts the credential fields. They are derived with
//! two salts that always differ, so that the stored hash opens nothing.

use crate::encryption_algorithms::{hash_master, master_hash, MAX_HASH_INPUT_LEN};
use crate::error::VaultError;
use crate::text::same_bytes;
use rand::Rng;
use vstd::prelude::*;
use vstd::utf8::encode_utf8;

verus! {

/// How often `generate_salts` draws a second salt before it gives up.
pub const MAX_SALT_DRAWS: u32 = 16;

/// What follows from one draw of the second salt.
pub enum SaltStep {
    /// The draw differs from the first salt: the pair is made.
    Done(SaltPair),
    /// The draw equals the first salt and another draw is allowed.
    DrawAgain,
    /// The draw equals the first salt and it was the last one allowed.
    GiveUp,
}

/// The salt of the verification hash and the salt of the vault key of one
/// user. The two always differ.
pub struct SaltPair {
    verification_salt: [u8; 32],
    kdf_salt: [u8; 32],
}

impl SaltPair {
    #[verifier::type_invariant]
    spec fn salts_differ(&self) -> bool {
        self.verification_salt@ != self.kdf_salt@
    }

    /// The salt of the verification hash.
    pub closed spec fn verification(&self) -> Seq<u8> {
        self.verification_salt@
    }

    /// The salt of the vault key.
    pub closed spec fn kdf(&self) -> Seq<u8> {
        self.kdf_salt@
    }

    /// Makes a pair of two salts, unless they are the same.
    pub fn from_candidates(verification_salt: [u8; 32], kdf_salt: [u8; 32]) -> (pair: Option<
        SaltPair,
    >)
        ensures
            pair is Some <==> verification_salt@ != kdf_salt@,
            pair is Some ==> pair->0.verification() == verification_salt@ && pair->0.kdf()
                == kdf_salt@,
    {
        if same_bytes(verification_salt.as_slice(), kdf_salt.as_slice()) {
            None
        } else {
            Some(SaltPair { verification_salt, kdf_salt })
        }
    }

    /// The salt of the verification hash, which differs from the other.
    pub fn verification_salt(&self) -> (salt: [u8; 32])
        ensures
            salt@ == self.verification(),
            self.verification() != self.kdf(),
    {
        proof {
            use_type_invariant(self);
        }
        self.verification_salt
    }

    /// The salt of the vault key, which differs from the other.
    pub fn kdf_salt(&self) -> (salt: [u8; 32])
        ensures
            salt@ == self.kdf(),
            self.verification() != self.kdf(),
    {
        proof {
            use_type_invariant(self);
        }
        self.kdf_salt
    }
}

/// Draws a salt from `rand::thread_rng`. Nothing is promised of the bytes.
#[verifier::external_body]
fn random_salt() -> [u8; 32] {
    rand::thread_rng().gen()
}

/// Decides what follows from a draw of the second salt, `candidate`, after
/// `earlier_draws` draws that all equalled the first salt.
///
/// A candidate that differs from the first salt makes the pair. One that
/// equals it is drawn again, unless it was draw number `MAX_SALT_DRAWS`.
pub fn salt_step(verification_salt: [u8; 32], candidate: [u8; 32], earlier_draws: u32) -> (step:
    SaltStep)
    ensures
        verification_salt@ != candidate@ ==> step is Done && step->Done_0.verification()
            == verification_salt@ && step->Done_0.kdf() == candidate@,
        verification_salt@ == candidate@ && earlier_draws + 1 < MAX_SALT_DRAWS ==> step
            is DrawAgain,
        verification_salt@ == candidate@ && earlier_draws + 1 >= MAX_SALT_DRAWS ==> step
            is GiveUp,
{
    match SaltPair::from_candidates(verification_salt, candidate) {
        Some(pair) => SaltStep::Done(pair),
        None => if earlier_draws < MAX_SALT_DRAWS - 1 {
            SaltStep::DrawAgain
        } else {
            SaltStep::GiveUp
        },
    }
}

/// Draws a verification salt and then a salt for the vault key, and follows
/// `salt_step` from draw to draw: the first draw that differs from the
/// verification salt makes the pair, and after `MAX_SALT_DRAWS` draws that
/// all equal it there is none.
pub fn generate_salts() -> (pair: Option<SaltPair>)
    ensures
        pair is Some ==> pair->0.verification() != pair->0.kdf(),
{
    let verification_salt = random_salt();
    let mut draws: u32 = 0;
    loop
        invariant
            draws < MAX_SALT_DRAWS,
        decreases MAX_SALT_DRAWS - draws,
    {
        match salt_step(verification_salt, random_salt(), draws) {
            SaltStep::Done(pair) => {
                return Some(pair);
            },
            SaltStep::DrawAgain => {
                draws += 1;
            },
            SaltStep::GiveUp => {
                return None;
            },
        }
    }
}

/// The verification hash and the vault key of one passphrase.
pub struct DerivedSecrets {
    /// The digest that is stored and compared at login.
    pub verification_hash: [u8; 32],
    /// The key that encrypts the credential fields.
    pub vault_key: [u8; 32],
}

/// Derives the verification hash and the vault key of `passphrase` with the
/// two salts of `salts`.
pub fn derive_secrets(passphrase: &str, salts: &SaltPair) -> (result: Result<
    DerivedSecrets,
    VaultError,
>)
    ensures
        encode_utf8(passphrase@).len() > MAX_HASH_INPUT_LEN ==> result is Err && result->Err_0
            == VaultError::InputTooLarge,
        encode_utf8(passphrase@).len() <= MAX_HASH_INPUT_LEN ==> result is Ok
            && result->Ok_0.verification_hash@ == master_hash(passphrase@, salts.verification())
            && result->Ok_0.vault_key@ == master_hash(passphrase@, salts.kdf()),
{
    let verification_hash = match hash_master(passphrase, salts.verification_salt()) {
        Ok(hash) => hash,
        Err(e) => {
            return Err(e);
        },
    };
    let vault_key = match hash_master(passphrase, salts.kdf_salt()) {
        Ok(key) => key,
        Err(e) => {
            return Err(e);
        },
    };
    Ok(DerivedSecrets { verification_hash, vault_key })
}

} // verus!

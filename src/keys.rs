use rand::RngCore;
use vstd::prelude::*;
use vstd::string::StringSliceAdditionalSpecFns;

verus! {

/// Bytes in a symmetric key.
pub const KEY_LEN: usize = 32;

/// Bytes of salt mixed into a password-derived key.
pub const SALT_LEN: usize = 16;

/// A 256-bit symmetric key.
#[derive(Clone, Copy, Debug, PartialEq, Eq)]
pub struct Key {
    pub bytes: [u8; 32],
}

/// Why no key could be had.
#[derive(Clone, Copy, Debug, PartialEq, Eq, Structural)]
pub enum KeyError {
    /// There is no key file: one has to be generated first.
    Missing,
    /// The key file does not hold exactly one key.
    InvalidLength,
    /// The password-hashing function refused its inputs.
    Derivation,
}

#[verifier::external_type_specification]
#[verifier::external_body]
pub struct ExArgon2Error(argon2::Error);

/// What Argon2id with the crate's default parameters derives from a
/// password and a salt: a 32-byte key, or nothing when it refuses them.
pub uninterp spec fn argon2id_key(password: Seq<char>, salt: Seq<u8>) -> Option<Seq<u8>>;

/// Relies on argon2's `Argon2::default().hash_password_into` (Argon2id,
/// default parameters) over the password's UTF-8 bytes, into 32 bytes. The
/// output depends on the inputs alone. Its source refuses only a password
/// or salt longer than `u32::MAX` bytes or a salt shorter than 8 bytes.
#[verifier::external_body]
fn argon2id(password: &str, salt: &Vec<u8>) -> (r: Result<[u8; 32], argon2::Error>)
    ensures
        r is Ok <==> argon2id_key(password@, salt@) is Some,
        r is Ok ==> argon2id_key(password@, salt@) == Some(r->Ok_0@),
        password.spec_bytes().len() <= 0xFFFF_FFFF && 8 <= salt@.len() <= 0xFFFF_FFFF ==> r is Ok,
{
    let mut out = [0u8; 32];
    match argon2::Argon2::default().hash_password_into(password.as_bytes(), salt, &mut out) {
        Ok(()) => Ok(out),
        Err(e) => Err(e),
    }
}

/// Relies on rand's `thread_rng().fill_bytes`: `n` bytes from a
/// cryptographically secure generator. Nothing is stated of their values.
#[verifier::external_body]
pub(crate) fn random_bytes(n: usize) -> (r: Vec<u8>)
    ensures
        r@.len() == n,
{
    let mut buf = vec![0u8; n];
    rand::thread_rng().fill_bytes(&mut buf);
    buf
}

impl Key {
    /// The key's bytes.
    pub open spec fn view(&self) -> Seq<u8> {
        self.bytes@
    }
}

/// The key made of `bytes`.
pub fn key_of_bytes(bytes: &Vec<u8>) -> (r: Key)
    requires
        bytes@.len() == KEY_LEN,
    ensures
        r.view() == bytes@,
{
    let mut out = [0u8; 32];
    let mut i: usize = 0;
    while i < KEY_LEN
        invariant
            bytes@.len() == KEY_LEN,
            i <= KEY_LEN,
            forall|j: int| 0 <= j < i ==> out@[j] == bytes@[j],
        decreases KEY_LEN - i,
    {
        out[i] = bytes[i];
        i += 1;
    }
    let key = Key { bytes: out };
    assert(key.view() =~= bytes@);
    key
}

/// A fresh key from a cryptographically secure generator.
pub fn generate_key() -> (r: Key)
    ensures
        r.view().len() == KEY_LEN,
{
    let bytes = random_bytes(KEY_LEN);
    key_of_bytes(&bytes)
}

/// The key held by a key file, given the file's contents (`None` when
/// there is no file). Never falls back to some other key.
pub fn load_key(contents: Option<Vec<u8>>) -> (r: Result<Key, KeyError>)
    ensures
        match contents {
            None => r == Err::<Key, KeyError>(KeyError::Missing),
            Some(b) => if b@.len() == KEY_LEN {
                r is Ok && r->Ok_0.view() == b@
            } else {
                r == Err::<Key, KeyError>(KeyError::InvalidLength)
            },
        },
{
    match contents {
        None => Err(KeyError::Missing),
        Some(b) => if b.len() == KEY_LEN {
            Ok(key_of_bytes(&b))
        } else {
            Err(KeyError::InvalidLength)
        },
    }
}

/// The key Argon2id derives from `password` and `salt`. It fails closed:
/// when derivation is refused there is no key.
pub fn derive_key(password: &str, salt: &Vec<u8>) -> (r: Result<Key, KeyError>)
    ensures
        match argon2id_key(password@, salt@) {
            Some(k) => r is Ok && r->Ok_0.view() == k,
            None => r == Err::<Key, KeyError>(KeyError::Derivation),
        },
        password.spec_bytes().len() <= 0xFFFF_FFFF && 8 <= salt@.len() <= 0xFFFF_FFFF ==> r is Ok,
{
    match argon2id(password, salt) {
        Ok(bytes) => Ok(Key { bytes }),
        Err(_) => Err(KeyError::Derivation),
    }
}

} // verus!

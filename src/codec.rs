use aes_gcm::aead::generic_array::GenericArray;
use aes_gcm::aead::{Aead, KeyInit};
use vstd::prelude::*;
use vstd::utf8::encode_utf8;

use crate::keys::{argon2id_key, derive_key, random_bytes, Key, KeyError, SALT_LEN};

verus! {

/// Bytes in an AES-GCM nonce.
pub const NONCE_LEN: usize = 12;

/// Bytes of the authentication tag that AES-GCM appends.
pub const TAG_LEN: usize = 16;

/// The longest plaintext AES-GCM takes, in bytes.
pub open spec fn max_plaintext() -> int {
    0x10_0000_0000
}

/// Where the key of a store comes from: a key kept in a local file, or a
/// password from which a key is derived with a fresh salt on every save.
pub enum KeyMaterial {
    LocalKey(Key),
    Password(String),
}

/// Why a store could not be sealed or opened.
#[derive(Clone, Copy, Debug, PartialEq, Eq, Structural)]
pub enum CipherError {
    /// The stored bytes are too short to hold their header.
    Truncated,
    /// No key could be derived from the password.
    KeyDerivation,
    /// Authentication failed: a wrong key or password, or tampered or
    /// corrupted data.
    Authentication,
    /// The plaintext is longer than the cipher takes.
    TooLong,
}

#[verifier::external_type_specification]
#[verifier::external_body]
pub struct ExAeadError(aes_gcm::Error);

/// What AES-256-GCM with an empty associated data yields for a key, a
/// nonce and a plaintext: the ciphertext followed by its tag.
pub uninterp spec fn aes_gcm_seal(key: Seq<u8>, nonce: Seq<u8>, plaintext: Seq<u8>) -> Seq<u8>;

/// What AES-256-GCM decryption yields for a key, a nonce and a ciphertext
/// with its tag: the plaintext, or nothing when authentication fails.
pub uninterp spec fn aes_gcm_open(key: Seq<u8>, nonce: Seq<u8>, sealed: Seq<u8>) -> Option<Seq<u8>>;

/// Relies on aes-gcm's `Aes256Gcm::encrypt` (through aead's `Aead`): the
/// ciphertext with a 16-byte tag appended; its source refuses only a
/// plaintext longer than `1 << 36` bytes.
#[verifier::external_body]
fn aes_encrypt(key: &Key, nonce: &Vec<u8>, plaintext: &Vec<u8>) -> (r: Result<Vec<u8>, aes_gcm::Error>)
    requires
        nonce@.len() == NONCE_LEN,
    ensures
        r is Ok <==> plaintext@.len() <= max_plaintext(),
        r is Ok ==> r->Ok_0@ == aes_gcm_seal(key.view(), nonce@, plaintext@),
        r is Ok ==> r->Ok_0@.len() == plaintext@.len() + TAG_LEN,
{
    let cipher = aes_gcm::Aes256Gcm::new(&GenericArray::from(key.bytes));
    cipher.encrypt(aes_gcm::Nonce::from_slice(nonce), plaintext.as_slice())
}

/// Relies on aes-gcm's `Aes256Gcm::decrypt` (through aead's `Aead`): it
/// returns the plaintext only when the tag authenticates, refuses input
/// too short to hold a tag, and what `encrypt` sealed under the same key and nonce opens to what was sealed.
#[verifier::external_body]
fn aes_decrypt(key: &Key, nonce: &Vec<u8>, sealed: &Vec<u8>) -> (r: Result<Vec<u8>, aes_gcm::Error>)
    requires
        nonce@.len() == NONCE_LEN,
    ensures
        r is Ok <==> aes_gcm_open(key.view(), nonce@, sealed@) is Some,
        r is Ok ==> aes_gcm_open(key.view(), nonce@, sealed@) == Some(r->Ok_0@),
        sealed@.len() < TAG_LEN ==> r is Err,
        forall|p: Seq<u8>|
            p.len() <= max_plaintext() && sealed@ == #[trigger] aes_gcm_seal(key.view(), nonce@, p)
                ==> r is Ok && r->Ok_0@ == p,
{
    let cipher = aes_gcm::Aes256Gcm::new(&GenericArray::from(key.bytes));
    cipher.decrypt(aes_gcm::Nonce::from_slice(nonce), sealed.as_slice())
}

/// The stored bytes for `plaintext` sealed with `km`, given the salt and
/// nonce drawn for it: `nonce ‖ ciphertext` under a local key, and
/// `salt ‖ nonce ‖ ciphertext` under a password, the key then derived
/// from the password and the salt. The ciphertext carries its tag.
pub open spec fn sealed_store(km: KeyMaterial, salt: Seq<u8>, nonce: Seq<u8>, plaintext: Seq<u8>) -> Result<Seq<u8>, CipherError> {
    match km {
        KeyMaterial::LocalKey(k) => if plaintext.len() <= max_plaintext() {
            Ok(nonce + aes_gcm_seal(k.view(), nonce, plaintext))
        } else {
            Err(CipherError::TooLong)
        },
        KeyMaterial::Password(p) => match argon2id_key(p@, salt) {
            None => Err(CipherError::KeyDerivation),
            Some(k) => if plaintext.len() <= max_plaintext() {
                Ok(salt + nonce + aes_gcm_seal(k, nonce, plaintext))
            } else {
                Err(CipherError::TooLong)
            },
        },
    }
}

/// What the stored bytes `data` open to under `km`: the header is split
/// off (a salt and a nonce, or a nonce alone), the key obtained, and the
/// rest authenticated and decrypted. Bytes too short for their header are
/// truncated; a rest too short to hold a tag fails authentication.
pub open spec fn opened_store(km: KeyMaterial, data: Seq<u8>) -> Result<Seq<u8>, CipherError> {
    match km {
        KeyMaterial::LocalKey(k) => if data.len() < NONCE_LEN {
            Err(CipherError::Truncated)
        } else if data.len() < NONCE_LEN + TAG_LEN {
            Err(CipherError::Authentication)
        } else {
            match aes_gcm_open(k.view(), data.take(NONCE_LEN as int), data.skip(NONCE_LEN as int)) {
                None => Err(CipherError::Authentication),
                Some(p) => Ok(p),
            }
        },
        KeyMaterial::Password(pw) => if data.len() < SALT_LEN + NONCE_LEN {
            Err(CipherError::Truncated)
        } else {
            match argon2id_key(pw@, data.take(SALT_LEN as int)) {
                None => Err(CipherError::KeyDerivation),
                Some(k) => if data.len() < SALT_LEN + NONCE_LEN + TAG_LEN {
                    Err(CipherError::Authentication)
                } else {
                    match aes_gcm_open(
                        k,
                        data.subrange(SALT_LEN as int, (SALT_LEN + NONCE_LEN) as int),
                        data.skip((SALT_LEN + NONCE_LEN) as int),
                    ) {
                        None => Err(CipherError::Authentication),
                        Some(p) => Ok(p),
                    }
                },
            }
        },
    }
}

/// Bytes of header in front of the ciphertext: a nonce under a local key,
/// a salt and a nonce under a password.
pub open spec fn header_len(km: KeyMaterial) -> nat {
    match km {
        KeyMaterial::LocalKey(_) => NONCE_LEN as nat,
        KeyMaterial::Password(_) => (SALT_LEN + NONCE_LEN) as nat,
    }
}

/// A key can be had from `km`: always from a local key, and from a
/// password whose UTF-8 form Argon2 accepts.
pub open spec fn key_obtainable(km: KeyMaterial) -> bool {
    match km {
        KeyMaterial::LocalKey(_) => true,
        KeyMaterial::Password(p) => encode_utf8(p@).len() <= 0xFFFF_FFFF,
    }
}

/// `r` is the executable form of the spec result `s`.
pub open spec fn same_outcome(r: Result<Vec<u8>, CipherError>, s: Result<Seq<u8>, CipherError>) -> bool {
    match r {
        Ok(v) => s == Ok::<Seq<u8>, CipherError>(v@),
        Err(e) => s == Err::<Seq<u8>, CipherError>(e),
    }
}

/// An exact copy of `v`.
fn copy_bytes(v: &Vec<u8>) -> (r: Vec<u8>)
    ensures
        r@ == v@,
{
    let r = v.clone();
    assert(r@ =~= v@);
    r
}

/// Seals `plaintext` with `km` under the given salt and nonce, as
/// `sealed_store` lays it out. The salt is used under a password only.
pub fn seal_store(km: &KeyMaterial, salt: &Vec<u8>, nonce: &Vec<u8>, plaintext: &Vec<u8>) -> (r: Result<Vec<u8>, CipherError>)
    requires
        salt@.len() == SALT_LEN,
        nonce@.len() == NONCE_LEN,
    ensures
        same_outcome(r, sealed_store(*km, salt@, nonce@, plaintext@)),
        r is Ok ==> r->Ok_0@.len() == header_len(*km) + plaintext@.len() + TAG_LEN,
        plaintext@.len() <= max_plaintext() && key_obtainable(*km) ==> r is Ok,
{
    match km {
        KeyMaterial::LocalKey(k) => match aes_encrypt(k, nonce, plaintext) {
            Ok(ct) => {
                let mut out = copy_bytes(nonce);
                let mut tail = ct;
                out.append(&mut tail);
                Ok(out)
            },
            Err(_) => Err(CipherError::TooLong),
        },
        KeyMaterial::Password(pw) => match derive_key(pw.as_str(), salt) {
            Err(_) => Err(CipherError::KeyDerivation),
            Ok(k) => match aes_encrypt(&k, nonce, plaintext) {
                Ok(ct) => {
                    let mut out = copy_bytes(salt);
                    let mut mid = copy_bytes(nonce);
                    let mut tail = ct;
                    out.append(&mut mid);
                    out.append(&mut tail);
                    Ok(out)
                },
                Err(_) => Err(CipherError::TooLong),
            },
        },
    }
}

/// Encrypts the serialized task collection `plaintext` with `km`, drawing
/// a fresh nonce (and, under a password, a fresh salt) from a secure
/// generator. The result is `sealed_store` for the salt and nonce drawn.
pub fn encrypt_tasks(km: &KeyMaterial, plaintext: &Vec<u8>) -> (r: Result<Vec<u8>, CipherError>)
    ensures
        exists|salt: Seq<u8>, nonce: Seq<u8>|
            salt.len() == SALT_LEN && nonce.len() == NONCE_LEN && same_outcome(
                r,
                #[trigger] sealed_store(*km, salt, nonce, plaintext@),
            ),
        r is Ok ==> r->Ok_0@.len() == header_len(*km) + plaintext@.len() + TAG_LEN,
        plaintext@.len() <= max_plaintext() && key_obtainable(*km) ==> r is Ok,
{
    let salt = random_bytes(SALT_LEN);
    let nonce = random_bytes(NONCE_LEN);
    let r = seal_store(km, &salt, &nonce, plaintext);
    assert(same_outcome(r, sealed_store(*km, salt@, nonce@, plaintext@)));
    r
}

/// Opens stored bytes with `km`: splits off the header, obtains the key
/// and authenticates and decrypts the rest, as `opened_store` says.
/// Whatever `encrypt_tasks` sealed with the same key material opens to the
/// plaintext it was given.
pub fn decrypt_tasks(km: &KeyMaterial, data: &Vec<u8>) -> (r: Result<Vec<u8>, CipherError>)
    ensures
        same_outcome(r, opened_store(*km, data@)),
        forall|salt: Seq<u8>, nonce: Seq<u8>, p: Seq<u8>|
            salt.len() == SALT_LEN && nonce.len() == NONCE_LEN && #[trigger] sealed_store(
                *km,
                salt,
                nonce,
                p,
            ) == Ok::<Seq<u8>, CipherError>(data@) ==> r is Ok && r->Ok_0@ == p,
{
    match km {
        KeyMaterial::LocalKey(k) => {
            if data.len() < NONCE_LEN {
                return Err(CipherError::Truncated);
            }
            let mut nonce = copy_bytes(data);
            let sealed = nonce.split_off(NONCE_LEN);
            let r = aes_decrypt(k, &nonce, &sealed);
            assert forall|salt: Seq<u8>, n: Seq<u8>, p: Seq<u8>|
                salt.len() == SALT_LEN && n.len() == NONCE_LEN && #[trigger] sealed_store(
                    *km,
                    salt,
                    n,
                    p,
                ) == Ok::<Seq<u8>, CipherError>(data@) implies r is Ok && r->Ok_0@ == p by {
                let c = aes_gcm_seal(k.view(), n, p);
                assert(data@ == n + c);
                assert(nonce@ =~= n);
                assert(sealed@ =~= c);
            }
            match r {
                Ok(p) => Ok(p),
                Err(_) => Err(CipherError::Authentication),
            }
        },
        KeyMaterial::Password(pw) => {
            if data.len() < SALT_LEN + NONCE_LEN {
                return Err(CipherError::Truncated);
            }
            let mut salt = copy_bytes(data);
            let mut nonce = salt.split_off(SALT_LEN);
            let sealed = nonce.split_off(NONCE_LEN);
            assert(salt@ =~= data@.take(SALT_LEN as int));
            assert(nonce@ =~= data@.subrange(SALT_LEN as int, (SALT_LEN + NONCE_LEN) as int));
            assert(sealed@ =~= data@.skip((SALT_LEN + NONCE_LEN) as int));
            match derive_key(pw.as_str(), &salt) {
                Err(_) => {
                    assert forall|s: Seq<u8>, n: Seq<u8>, p: Seq<u8>|
                        s.len() == SALT_LEN && n.len() == NONCE_LEN && #[trigger] sealed_store(
                            *km,
                            s,
                            n,
                            p,
                        ) == Ok::<Seq<u8>, CipherError>(data@) implies false by {
                        let c = aes_gcm_seal(argon2id_key(pw@, s)->Some_0, n, p);
                        assert(data@ == s + n + c);
                        assert(salt@ =~= s);
                    }
                    Err(CipherError::KeyDerivation)
                },
                Ok(k) => {
                    let r = aes_decrypt(&k, &nonce, &sealed);
                    assert forall|s: Seq<u8>, n: Seq<u8>, p: Seq<u8>|
                        s.len() == SALT_LEN && n.len() == NONCE_LEN && #[trigger] sealed_store(
                            *km,
                            s,
                            n,
                            p,
                        ) == Ok::<Seq<u8>, CipherError>(data@) implies r is Ok && r->Ok_0@ == p by {
                        let c = aes_gcm_seal(argon2id_key(pw@, s)->Some_0, n, p);
                        assert(data@ == s + n + c);
                        assert(salt@ =~= s);
                        assert(nonce@ =~= n);
                        assert(sealed@ =~= c);
                    }
                    match r {
                        Ok(p) => Ok(p),
                        Err(_) => Err(CipherError::Authentication),
                    }
                },
            }
        },
    }
}

/// Re-keys stored bytes: opens them with `from` and seals what they hold
/// with `to`, under a fresh nonce (and salt). Fails as opening fails, and
/// then seals nothing.
pub fn change_key(from: &KeyMaterial, to: &KeyMaterial, data: &Vec<u8>) -> (r: Result<Vec<u8>, CipherError>)
    ensures
        match opened_store(*from, data@) {
            Err(e) => r == Err::<Vec<u8>, CipherError>(e),
            Ok(p) => exists|salt: Seq<u8>, nonce: Seq<u8>|
                salt.len() == SALT_LEN && nonce.len() == NONCE_LEN && same_outcome(
                    r,
                    #[trigger] sealed_store(*to, salt, nonce, p),
                ),
        },
{
    match decrypt_tasks(from, data) {
        Err(e) => {
            assert(opened_store(*from, data@) == Err::<Seq<u8>, CipherError>(e));
            Err(e)
        },
        Ok(plain) => {
            let r = encrypt_tasks(to, &plain);
            proof {
                let (salt, nonce) = choose|salt: Seq<u8>, nonce: Seq<u8>|
                    salt.len() == SALT_LEN && nonce.len() == NONCE_LEN && same_outcome(
                        r,
                        #[trigger] sealed_store(*to, salt, nonce, plain@),
                    );
                let p = opened_store(*from, data@)->Ok_0;
                assert(p == plain@);
                assert(exists|salt: Seq<u8>, nonce: Seq<u8>|
                    salt.len() == SALT_LEN && nonce.len() == NONCE_LEN && same_outcome(
                        r,
                        #[trigger] sealed_store(*to, salt, nonce, p),
                    ));
            }
            r
        },
    }
}

/// What loading an encrypted store finds, given the store file's contents
/// (`None` when there is no file): `None` on a first run, which holds no
/// tasks, else the plaintext the store opens to.
pub fn open_store(stored: Option<Vec<u8>>, km: &KeyMaterial) -> (r: Result<Option<Vec<u8>>, CipherError>)
    ensures
        match stored {
            None => r == Ok::<Option<Vec<u8>>, CipherError>(None),
            Some(d) => match opened_store(*km, d@) {
                Ok(p) => r is Ok && r->Ok_0 is Some && r->Ok_0->Some_0@ == p,
                Err(e) => r == Err::<Option<Vec<u8>>, CipherError>(e),
            },
        },
{
    match stored {
        None => Ok(None),
        Some(d) => match decrypt_tasks(km, &d) {
            Ok(p) => Ok(Some(p)),
            Err(e) => Err(e),
        },
    }
}

} // verus!

//! Authenticated encryption of payloads: AES-256-GCM under a 32-byte key,
//! with a fresh 96-bit nonce per seal, carried as `nonce || ciphertext`.

use vstd::prelude::*;

use aes_gcm::aead::Aead;
use aes_gcm::KeyInit;

use crate::error::PackError;

verus! {

/// A 32-byte symmetric key. Its view is the key bytes.
#[derive(Clone)]
pub struct EncryptionKey {
    key: [u8; 32],
}

impl View for EncryptionKey {
    type V = Seq<u8>;

    closed spec fn view(&self) -> Seq<u8> {
        self.key@
    }
}

/// What AES-256-GCM decryption returns for `nonce || ciphertext` bytes and
/// a key: the sealed plaintext when the tag verifies, nothing otherwise. A
/// function of the bytes and key alone.
pub uninterp spec fn aes_open_of(data: Seq<u8>, key: Seq<u8>) -> Option<Seq<u8>>;

/// Relies on `crypto_common::Generate` for `[u8; 32]`: 32 bytes from the
/// system's cryptographic generator. Nothing can be promised of them.
#[verifier::external_body]
fn random_key_bytes() -> [u8; 32] {
    <[u8; 32] as aes_gcm::aead::Generate>::generate()
}

/// Relies on aes_gcm's `Aes256Gcm`: seals `data` under `key` with a fresh
/// 12-byte nonce, returning the nonce and `ciphertext || tag`; the sealed
/// output opens back to `data` under the same key.
#[verifier::external_body]
fn aes256_seal(key: &[u8; 32], data: &[u8]) -> (r: Result<([u8; 12], Vec<u8>), PackError>)
    ensures
        r matches Ok(p) ==> p.1@.len() == data@.len() + 16 && aes_open_of(p.0@ + p.1@, key@)
            == Some(data@),
        r matches Err(e) ==> e is Encryption,
{
    let cipher = match aes_gcm::Aes256Gcm::new_from_slice(key) {
        Ok(c) => c,
        Err(e) => return Err(PackError::Encryption(e.to_string())),
    };
    let nonce_bytes: [u8; 12] = <[u8; 12] as aes_gcm::aead::Generate>::generate();
    let nonce = aes_gcm::Nonce::from(nonce_bytes);
    match cipher.encrypt(&nonce, data) {
        Ok(ct) => Ok((nonce_bytes, ct)),
        Err(e) => Err(PackError::Encryption(e.to_string())),
    }
}

/// Relies on aes_gcm's `Aes256Gcm`: opens `ciphertext || tag` under `key`
/// and the given nonce; it succeeds exactly when the tag verifies, and the
/// outcome is a function of nonce, ciphertext and key alone.
#[verifier::external_body]
fn aes256_open(key: &[u8; 32], nonce: &[u8], ct: &[u8]) -> (r: Result<Vec<u8>, PackError>)
    requires
        nonce@.len() == 12,
    ensures
        r matches Ok(v) ==> aes_open_of(nonce@ + ct@, key@) == Some(v@),
        r is Err ==> aes_open_of(nonce@ + ct@, key@) is None,
        r matches Err(e) ==> e is Decryption,
{
    let cipher = match aes_gcm::Aes256Gcm::new_from_slice(key) {
        Ok(c) => c,
        Err(e) => return Err(PackError::Decryption(e.to_string())),
    };
    let nonce = match aes_gcm::Nonce::try_from(nonce) {
        Ok(n) => n,
        Err(_) => return Err(PackError::Decryption("bad nonce length".to_string())),
    };
    match cipher.decrypt(&nonce, ct) {
        Ok(v) => Ok(v),
        Err(e) => Err(PackError::Decryption(e.to_string())),
    }
}

impl EncryptionKey {
    /// Wraps exactly these 32 key bytes.
    pub fn new(key: [u8; 32]) -> (k: Self)
        ensures
            k@ == key@,
    {
        EncryptionKey { key }
    }

    /// A fresh random key.
    pub fn generate() -> Self {
        EncryptionKey { key: random_key_bytes() }
    }

    /// Wraps a byte slice as a key; anything but exactly 32 bytes is
    /// rejected with `Encryption`.
    pub fn from_bytes(bytes: &[u8]) -> (r: Result<Self, PackError>)
        ensures
            r is Ok <==> bytes@.len() == 32,
            r matches Ok(k) ==> k@ == bytes@,
            r matches Err(e) ==> e is Encryption,
    {
        if bytes.len() != 32 {
            return Err(PackError::Encryption("key must be exactly 32 bytes".to_owned()));
        }
        let key: [u8; 32] = [
            bytes[0],
            bytes[1],
            bytes[2],
            bytes[3],
            bytes[4],
            bytes[5],
            bytes[6],
            bytes[7],
            bytes[8],
            bytes[9],
            bytes[10],
            bytes[11],
            bytes[12],
            bytes[13],
            bytes[14],
            bytes[15],
            bytes[16],
            bytes[17],
            bytes[18],
            bytes[19],
            bytes[20],
            bytes[21],
            bytes[22],
            bytes[23],
            bytes[24],
            bytes[25],
            bytes[26],
            bytes[27],
            bytes[28],
            bytes[29],
            bytes[30],
            bytes[31],
        ];
        proof {
            broadcast use vstd::array::group_array_axioms;

            assert(key@ =~= bytes@);
        }
        Ok(EncryptionKey { key })
    }

    /// The raw key bytes.
    pub fn as_bytes(&self) -> (b: &[u8; 32])
        ensures
            b@ == self@,
    {
        &self.key
    }
}

/// Encrypts a payload under `key`: a fresh nonce, then AES-256-GCM;
/// the result is `nonce || ciphertext || tag` and opens back to `data`
/// under the same key.
pub fn encrypt_snapshot(data: &[u8], key: &EncryptionKey) -> (r: Result<Vec<u8>, PackError>)
    ensures
        r matches Ok(v) ==> v@.len() == data@.len() + 28 && aes_open_of(v@, key@) == Some(data@),
        r matches Err(e) ==> e is Encryption,
{
    match aes256_seal(key.as_bytes(), data) {
        Ok((nonce, ct)) => {
            let mut v: Vec<u8> = Vec::new();
            v.extend_from_slice(nonce.as_slice());
            v.extend_from_slice(ct.as_slice());
            proof {
                broadcast use vstd::array::group_array_axioms;

                assert(v@ =~= nonce@ + ct@);
            }
            Ok(v)
        },
        Err(e) => Err(e),
    }
}

/// Decrypts `nonce || ciphertext || tag` under `key`. Inputs shorter than
/// a nonce, and any tag failure, surface as `Decryption`; success returns
/// exactly the sealed plaintext.
pub fn decrypt_snapshot(data: &[u8], key: &EncryptionKey) -> (r: Result<Vec<u8>, PackError>)
    ensures
        data@.len() < 12 ==> r is Err,
        data@.len() >= 12 ==> ((r is Ok) <==> aes_open_of(data@, key@) is Some),
        r matches Ok(v) ==> aes_open_of(data@, key@) == Some(v@),
        r matches Err(e) ==> e is Decryption,
{
    let n = data.len();
    if n < 12 {
        return Err(PackError::Decryption("encrypted data too short".to_owned()));
    }
    let nonce = &data[0..12];
    let ct = &data[12..n];
    proof {
        assert(nonce@ + ct@ =~= data@);
    }
    aes256_open(key.as_bytes(), nonce, ct)
}

} // verus!

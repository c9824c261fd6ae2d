//! Authenticated encryption for credentials at rest: AES-256-GCM with a fresh
//! random 96-bit nonce per encryption, wrapped in a base64 envelope of
//! `nonce || ciphertext-with-tag`. The 32-byte key is derived from a key
//! string by cycling its bytes (kept for on-disk format compatibility).

use vstd::prelude::*;
use vstd::string::*;
use vstd::utf8::decode_utf8;
use vstd::utf8::encode_scalar;
use vstd::utf8::encode_utf8;
use vstd::utf8::valid_utf8;
use vstd::slice::slice_subrange;

use aes_gcm::aead::Aead;
use aes_gcm::KeyInit;
use base64::Engine;
use rand::Rng;

use crate::errors::GatewayError;

verus! {

/// Length in bytes of the AES-256-GCM nonce.
pub const NONCE_SIZE: usize = 12;

/// Length in bytes of the derived AES-256 key.
pub const KEY_SIZE: usize = 32;

/// The largest plaintext AES-GCM can seal: 2^36 bytes.
pub const MAX_PLAINTEXT_LEN: u64 = 0x10_0000_0000;

/// The AES-256-GCM ciphertext (with its 16-byte tag appended) for a given
/// 32-byte key, 12-byte nonce and plaintext. Named, not spelled out: the
/// cipher is the aes_gcm crate's.
pub uninterp spec fn spec_aead_seal(key: Seq<u8>, nonce: Seq<u8>, plaintext: Seq<u8>) -> Seq<u8>;

/// The canonical padded base64 text for a byte string, as base64's
/// STANDARD engine produces it.
pub uninterp spec fn spec_base64(bytes: Seq<u8>) -> Seq<char>;

/// The 32-byte key derived from a key string's bytes: the bytes, cycled,
/// fill the key; an empty key string yields the all-zero key.
pub open spec fn spec_derive_key(password: Seq<u8>) -> Seq<u8> {
    Seq::new(32, |i: int|
        if password.len() == 0 {
            0u8
        } else {
            password[i % password.len() as int]
        })
}

/// Holds exactly when `env` is a well-formed envelope for `plaintext` under
/// `key`: base64 of a 12-byte nonce followed by the AES-256-GCM sealing of
/// the plaintext's UTF-8 bytes under the derived key and that nonce.
pub open spec fn spec_encrypts(env: Seq<char>, plaintext: Seq<char>, key: Seq<char>) -> bool {
    exists |nonce: Seq<u8>| #![auto]
        nonce.len() == NONCE_SIZE
            && env == spec_base64(
            nonce + spec_aead_seal(spec_derive_key(encode_utf8(key)), nonce, encode_utf8(plaintext)),
        )
}

/// Relies on aes_gcm::Aes256Gcm::new_from_slice and aead::Aead::encrypt:
/// sealing is a deterministic function of key, nonce and plaintext, appends
/// the 16-byte tag, fails exactly when the plaintext exceeds 2^36 bytes, and
/// is injective in the plaintext (the keystream is a bijection between
/// plaintext and ciphertext body).
#[verifier::external_body]
fn aead_seal(key: &[u8], nonce: &[u8], plaintext: &[u8]) -> (r: Option<Vec<u8>>)
    requires
        key@.len() == KEY_SIZE,
        nonce@.len() == NONCE_SIZE,
    ensures
        r is Some <==> plaintext@.len() <= MAX_PLAINTEXT_LEN,
        r matches Some(c) ==> c@ == spec_aead_seal(key@, nonce@, plaintext@) && c@.len()
            == plaintext@.len() + 16,
        r matches Some(c) ==> forall |q: Seq<u8>| #![auto]
            c@ == spec_aead_seal(key@, nonce@, q) ==> q == plaintext@,
{
    let cipher = match aes_gcm::Aes256Gcm::new_from_slice(key) {
        Ok(c) => c,
        Err(_) => return None,
    };
    cipher.encrypt(aes_gcm::Nonce::from_slice(nonce), plaintext).ok()
}

/// Relies on aes_gcm::Aes256Gcm::new_from_slice and aead::Aead::decrypt:
/// opening succeeds exactly on sealings under the same key and nonce (GCM
/// recomputes the tag over the ciphertext, and the keystream is a bijection
/// between plaintext and ciphertext body), and returns the sealed plaintext.
#[verifier::external_body]
fn aead_open(key: &[u8], nonce: &[u8], ciphertext: &[u8]) -> (r: Option<Vec<u8>>)
    requires
        key@.len() == KEY_SIZE,
        nonce@.len() == NONCE_SIZE,
    ensures
        r matches Some(p) ==> ciphertext@ == spec_aead_seal(key@, nonce@, p@),
        r matches Some(p) ==> forall |q: Seq<u8>| #![auto]
            ciphertext@ == spec_aead_seal(key@, nonce@, q) ==> q == p@,
        r is None ==> forall |q: Seq<u8>| #![auto]
            q.len() <= MAX_PLAINTEXT_LEN ==> ciphertext@ != spec_aead_seal(key@, nonce@, q),
{
    let cipher = match aes_gcm::Aes256Gcm::new_from_slice(key) {
        Ok(c) => c,
        Err(_) => return None,
    };
    cipher.decrypt(aes_gcm::Nonce::from_slice(nonce), ciphertext).ok()
}

/// Relies on base64's STANDARD engine encode: canonical padded base64 text,
/// a deterministic function of the input bytes, four characters per started
/// three-byte group, and injective (the canonical encoding determines its
/// bytes: decode inverts it).
#[verifier::external_body]
fn base64_encode(bytes: &[u8]) -> (r: String)
    ensures
        r@ == spec_base64(bytes@),
        r@.len() == 4 * ((bytes@.len() + 2) / 3),
        forall |b: Seq<u8>| #![auto] r@ == spec_base64(b) ==> b == bytes@,
{
    base64::engine::general_purpose::STANDARD.encode(bytes)
}

/// Relies on base64's STANDARD engine decode: accepts exactly the canonical
/// padded encodings (its default config requires canonical padding and
/// rejects trailing bits), inverting encode.
#[verifier::external_body]
fn base64_decode(s: &str) -> (r: Option<Vec<u8>>)
    ensures
        r matches Some(v) ==> s@ == spec_base64(v@),
        r matches Some(v) ==> forall |b: Seq<u8>| #![auto] s@ == spec_base64(b) ==> b == v@,
        r is None ==> forall |b: Seq<u8>| #![auto] s@ != spec_base64(b),
{
    base64::engine::general_purpose::STANDARD.decode(s).ok()
}

/// Relies on rand::thread_rng and Rng::fill: fills all twelve bytes with
/// random data. Nothing is promised of the values.
#[verifier::external_body]
fn random_nonce() -> (r: Vec<u8>)
    ensures
        r@.len() == NONCE_SIZE,
{
    let mut bytes = [0u8; 12];
    rand::thread_rng().fill(&mut bytes);
    bytes.to_vec()
}

/// Relies on String::from_utf8: succeeds exactly on valid UTF-8 and returns
/// the string those bytes encode.
#[verifier::external_body]
fn bytes_to_string(bytes: Vec<u8>) -> (r: Option<String>)
    ensures
        r matches Some(s) ==> bytes@ == encode_utf8(s@),
        r is Some <==> valid_utf8(bytes@),
{
    String::from_utf8(bytes).ok()
}

/// Derive a 32-byte AES key from a key string by cycling its bytes.
pub fn derive_key(password: &str) -> (key: Vec<u8>)
    ensures
        key@ == spec_derive_key(password.spec_bytes()),
{
    let bytes = password.as_bytes();
    let mut key: Vec<u8> = Vec::new();
    if bytes.len() == 0 {
        let mut i: usize = 0;
        while i < 32
            invariant
                i <= 32,
                bytes@.len() == 0,
                key@.len() == i,
                forall |j: int| 0 <= j < i ==> key@[j] == 0u8,
            decreases 32 - i,
        {
            key.push(0u8);
            i = i + 1;
        }
    } else {
        let mut i: usize = 0;
        while i < 32
            invariant
                i <= 32,
                bytes@.len() > 0,
                key@.len() == i,
                forall |j: int| 0 <= j < i ==> key@[j] == bytes@[j % bytes@.len() as int],
            decreases 32 - i,
        {
            key.push(bytes[i % bytes.len()]);
            i = i + 1;
        }
    }
    proof {
        assert(key@ =~= spec_derive_key(password.spec_bytes()));
    }
    key
}

/// A character sequence is no longer than its UTF-8 encoding: every scalar
/// encodes to at least one byte.
pub proof fn lemma_encode_utf8_len(chars: Seq<char>)
    ensures
        encode_utf8(chars).len() >= chars.len(),
    decreases chars.len(),
{
    if chars.len() > 0 {
        lemma_encode_utf8_len(chars.drop_first());
        assert(encode_scalar(chars[0] as u32).len() >= 1);
    }
}

/// Encrypt a plaintext under a key string: seal its UTF-8 bytes with
/// AES-256-GCM under a fresh random nonce and return the base64 envelope.
/// Fails (with `Internal`) exactly when the plaintext exceeds the cipher's
/// size bound. The envelope names its plaintext uniquely, encodes exactly
/// the nonce, ciphertext and tag (four characters per started three-byte
/// group), and is never the plaintext itself.
pub fn encrypt(plaintext: &str, key: &str) -> (r: Result<String, GatewayError>)
    ensures
        r matches Ok(env) ==> spec_encrypts(env@, plaintext@, key@),
        r is Ok <==> plaintext.spec_bytes().len() <= MAX_PLAINTEXT_LEN,
        r matches Err(e) ==> e is Internal,
        r matches Ok(env) ==> forall |p2: Seq<char>| #![trigger spec_encrypts(env@, p2, key@)]
            spec_encrypts(env@, p2, key@) ==> p2 == plaintext@,
        r matches Ok(env) ==> env@.len() == 4 * ((encode_utf8(plaintext@).len() + 30) / 3),
        r matches Ok(env) ==> env@ != plaintext@,
{
    broadcast use vstd::utf8::encode_utf8_decode_utf8;

    let ghost kb = spec_derive_key(encode_utf8(key@));
    let key_bytes = derive_key(key);
    let mut data = random_nonce();
    let ghost nonce_ghost: Seq<u8> = data@;
    let sealed = match aead_seal(key_bytes.as_slice(), data.as_slice(), plaintext.as_bytes()) {
        Some(c) => c,
        None => {
            return Err(GatewayError::Internal(String::from_str("Encryption failed")));
        },
    };
    let ghost sealed_ghost: Seq<u8> = sealed@;
    let mut sealed = sealed;
    data.append(&mut sealed);
    let env = base64_encode(data.as_slice());
    proof {
        let pt_bytes = encode_utf8(plaintext@);
        assert(spec_encrypts(env@, plaintext@, key@)) by {
            assert(nonce_ghost.len() == NONCE_SIZE && env@ == spec_base64(
                nonce_ghost + spec_aead_seal(kb, nonce_ghost, pt_bytes),
            ));
        }
        // The envelope names this plaintext uniquely: base64 pins the bytes,
        // the nonce prefix splits off, sealing is injective in the
        // plaintext, and UTF-8 encoding is injective in the characters.
        assert forall |p2: Seq<char>| #![trigger spec_encrypts(env@, p2, key@)]
            spec_encrypts(env@, p2, key@) implies p2 == plaintext@ by {
            lemma_envelope_split(env@, p2, key@, data@);
            assert(data@.subrange(0, NONCE_SIZE as int) =~= nonce_ghost);
            assert(data@.subrange(NONCE_SIZE as int, data@.len() as int) =~= sealed_ghost);
            assert(sealed_ghost == spec_aead_seal(kb, nonce_ghost, encode_utf8(p2)));
            assert(encode_utf8(p2) == pt_bytes);
            assert(decode_utf8(encode_utf8(p2)) == decode_utf8(encode_utf8(plaintext@)));
        }
        // The envelope is longer than the plaintext, so never equal to it.
        let n = pt_bytes.len() as int;
        assert(data@.len() == n + 28);
        assert(3 * ((n + 30) / 3) >= n + 28);
        lemma_encode_utf8_len(plaintext@);
        assert(env@.len() > plaintext@.len());
    }
    Ok(env)
}

/// Splits the bytes behind a well-formed envelope into its nonce prefix and
/// its sealed remainder, given that base64 names those bytes uniquely.
proof fn lemma_envelope_split(env: Seq<char>, pt: Seq<char>, key: Seq<char>, data: Seq<u8>)
    requires
        spec_encrypts(env, pt, key),
        forall |b: Seq<u8>| #![auto] env == spec_base64(b) ==> b == data,
    ensures
        data.len() >= NONCE_SIZE,
        data.subrange(NONCE_SIZE as int, data.len() as int) == spec_aead_seal(
            spec_derive_key(encode_utf8(key)),
            data.subrange(0, NONCE_SIZE as int),
            encode_utf8(pt),
        ),
{
    let kb = spec_derive_key(encode_utf8(key));
    let n = choose |n: Seq<u8>| #![auto]
        n.len() == NONCE_SIZE && env == spec_base64(n + spec_aead_seal(kb, n, encode_utf8(pt)));
    let sealed = spec_aead_seal(kb, n, encode_utf8(pt));
    assert(env == spec_base64(n + sealed));
    assert(n + sealed == data);
    assert(n =~= data.subrange(0, NONCE_SIZE as int));
    assert(sealed =~= data.subrange(NONCE_SIZE as int, data.len() as int));
}

/// Decrypt a base64 envelope under a key string. Anything `encrypt`
/// produced under the same key decrypts back to the original plaintext;
/// whatever is returned is a plaintext whose envelope under this key the
/// input is. Envelopes shorter than the nonce size are rejected. All
/// failures are `Internal`.
pub fn decrypt(encrypted: &str, key: &str) -> (r: Result<String, GatewayError>)
    ensures
        r matches Ok(s) ==> spec_encrypts(encrypted@, s@, key@),
        forall |pt: Seq<char>| #![trigger spec_encrypts(encrypted@, pt, key@)]
            spec_encrypts(encrypted@, pt, key@) && encode_utf8(pt).len() <= MAX_PLAINTEXT_LEN
                ==> (r matches Ok(s) && s@ == pt),
        forall |b: Seq<u8>| #![auto] encrypted@ == spec_base64(b) && b.len() < NONCE_SIZE ==> r
            is Err,
        r matches Err(e) ==> e is Internal,
{
    broadcast use vstd::utf8::encode_utf8_valid_utf8, vstd::utf8::encode_utf8_decode_utf8;

    let ghost kb = spec_derive_key(encode_utf8(key@));
    let key_bytes = derive_key(key);
    let data = match base64_decode(encrypted) {
        Some(d) => d,
        None => {
            return Err(GatewayError::Internal(String::from_str("Base64 decode failed")));
        },
    };
    if data.len() < 12 {
        proof {
            assert forall |pt: Seq<char>| #![trigger spec_encrypts(encrypted@, pt, key@)]
                !(spec_encrypts(encrypted@, pt, key@) && encode_utf8(pt).len()
                    <= MAX_PLAINTEXT_LEN) by {
                if spec_encrypts(encrypted@, pt, key@) {
                    lemma_envelope_split(encrypted@, pt, key@, data@);
                }
            }
        }
        return Err(GatewayError::Internal(String::from_str("Invalid encrypted data")));
    }
    let nonce = slice_subrange(data.as_slice(), 0, 12);
    let ciphertext = slice_subrange(data.as_slice(), 12, data.len());
    proof {
        assert(data@ =~= nonce@ + ciphertext@);
    }
    let plain_bytes = match aead_open(key_bytes.as_slice(), nonce, ciphertext) {
        Some(p) => p,
        None => {
            proof {
                assert forall |pt: Seq<char>| #![trigger spec_encrypts(encrypted@, pt, key@)]
                    !(spec_encrypts(encrypted@, pt, key@) && encode_utf8(pt).len()
                        <= MAX_PLAINTEXT_LEN) by {
                    if spec_encrypts(encrypted@, pt, key@) && encode_utf8(pt).len()
                        <= MAX_PLAINTEXT_LEN {
                        lemma_envelope_split(encrypted@, pt, key@, data@);
                        assert(ciphertext@ == spec_aead_seal(kb, nonce@, encode_utf8(pt)));
                    }
                }
            }
            return Err(GatewayError::Internal(String::from_str("Decryption failed")));
        },
    };
    let ghost plain_ghost: Seq<u8> = plain_bytes@;
    match bytes_to_string(plain_bytes) {
        Some(s) => {
            proof {
                assert(spec_encrypts(encrypted@, s@, key@)) by {
                    assert(nonce@.len() == NONCE_SIZE && encrypted@ == spec_base64(
                        nonce@ + spec_aead_seal(kb, nonce@, encode_utf8(s@)),
                    ));
                }
                assert forall |pt: Seq<char>| #![trigger spec_encrypts(encrypted@, pt, key@)]
                    spec_encrypts(encrypted@, pt, key@) && encode_utf8(pt).len()
                        <= MAX_PLAINTEXT_LEN implies s@ == pt by {
                    lemma_envelope_split(encrypted@, pt, key@, data@);
                    assert(ciphertext@ == spec_aead_seal(kb, nonce@, encode_utf8(pt)));
                    assert(encode_utf8(pt) == plain_ghost);
                    assert(decode_utf8(encode_utf8(pt)) == decode_utf8(encode_utf8(s@)));
                }
            }
            Ok(s)
        },
        None => {
            proof {
                assert forall |pt: Seq<char>| #![trigger spec_encrypts(encrypted@, pt, key@)]
                    !(spec_encrypts(encrypted@, pt, key@) && encode_utf8(pt).len()
                        <= MAX_PLAINTEXT_LEN) by {
                    if spec_encrypts(encrypted@, pt, key@) && encode_utf8(pt).len()
                        <= MAX_PLAINTEXT_LEN {
                        lemma_envelope_split(encrypted@, pt, key@, data@);
                        assert(ciphertext@ == spec_aead_seal(kb, nonce@, encode_utf8(pt)));
                        assert(encode_utf8(pt) == plain_ghost);
                        assert(valid_utf8(plain_ghost));
                    }
                }
            }
            Err(GatewayError::Internal(String::from_str("UTF-8 decode failed")))
        },
    }
}

} // verus!

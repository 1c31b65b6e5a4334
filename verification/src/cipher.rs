//! Cipher adapter: AES-256-GCM with a 96-bit nonce and a 128-bit tag, and the
//! text form in which a key travels inside a manifest. Nothing here knows
//! about chunks.

use vstd::prelude::*;
use aes_gcm::aead::{Aead, KeyInit};
use aes_gcm::{Aes256Gcm, Key, Nonce};
use base64::engine::general_purpose::STANDARD;
use base64::Engine;
use crate::error::{plain_error, same_outcome, EngineError, ErrorKind};

verus! {

/// Length of a key in bytes.
pub const KEY_LEN: usize = 32;

/// Length of a nonce in bytes.
pub const NONCE_LEN: usize = 12;

/// Length of the authentication tag that follows the ciphertext.
pub const TAG_LEN: usize = 16;

/// The longest message that one call may seal, in bytes.
pub const MAX_MESSAGE_LEN: u64 = 0x10_0000_0000;

/// The error of the `aes-gcm` crate; it carries no detail.
#[verifier::external_type_specification]
#[verifier::external_body]
pub struct ExAeadError(aes_gcm::Error);

/// The error of the `base64` decoder.
#[verifier::external_type_specification]
#[verifier::external_body]
pub struct ExDecodeError(base64::DecodeError);

/// Ciphertext and tag that AES-256-GCM yields for a message.
pub uninterp spec fn aes256_gcm_seal(key: Seq<u8>, nonce: Seq<u8>, message: Seq<u8>) -> Seq<u8>;

/// The message that AES-256-GCM recovers from ciphertext and tag, or `None`
/// where the tag does not verify.
pub uninterp spec fn aes256_gcm_open(key: Seq<u8>, nonce: Seq<u8>, sealed: Seq<u8>) -> Option<
    Seq<u8>,
>;

/// Standard padded base64 text of a byte string.
pub uninterp spec fn base64_standard_encode(bytes: Seq<u8>) -> Seq<char>;

/// The byte string that standard padded base64 text stands for, or `None`
/// where the text is not valid.
pub uninterp spec fn base64_standard_decode(text: Seq<char>) -> Option<Seq<u8>>;

/// Calls `Aes256Gcm::encrypt` with no associated data. Trusted: the call
/// fails exactly on a message longer than 2^36 bytes; otherwise the result is
/// a function of key, nonce and message, it is the message's length plus a
/// 16-byte tag, and `Aes256Gcm::decrypt` under the same key and nonce gives
/// the message back.
#[verifier::external_body]
fn aead_seal(key: &[u8], nonce: &[u8], message: &[u8]) -> (res: Result<Vec<u8>, aes_gcm::Error>)
    requires
        key@.len() == 32,
        nonce@.len() == 12,
    ensures
        res is Ok <==> message@.len() <= 0x10_0000_0000,
        res matches Ok(sealed) ==> sealed@ == aes256_gcm_seal(key@, nonce@, message@),
        res matches Ok(sealed) ==> sealed@.len() == message@.len() + 16,
        res matches Ok(sealed) ==> aes256_gcm_open(key@, nonce@, sealed@) == Some(message@),
{
    let cipher = Aes256Gcm::new(Key::<Aes256Gcm>::from_slice(key));
    cipher.encrypt(Nonce::from_slice(nonce), message)
}

/// Calls `Aes256Gcm::decrypt` with no associated data. Trusted: the outcome
/// is a function of key, nonce and input; on success the message is 16 bytes
/// shorter than the input.
#[verifier::external_body]
fn aead_open(key: &[u8], nonce: &[u8], sealed: &[u8]) -> (res: Result<Vec<u8>, aes_gcm::Error>)
    requires
        key@.len() == 32,
        nonce@.len() == 12,
    ensures
        res matches Ok(message) ==> aes256_gcm_open(key@, nonce@, sealed@) == Some(message@),
        res matches Ok(message) ==> message@.len() + 16 == sealed@.len(),
        res is Err ==> aes256_gcm_open(key@, nonce@, sealed@) is None,
{
    let cipher = Aes256Gcm::new(Key::<Aes256Gcm>::from_slice(key));
    cipher.decrypt(Nonce::from_slice(nonce), sealed)
}

/// Calls `Engine::encode` of `base64`'s `STANDARD` engine. Trusted: the text
/// is a function of the bytes, and `STANDARD.decode` gives the bytes back.
#[verifier::external_body]
fn base64_encode(bytes: &[u8]) -> (text: String)
    requires
        bytes@.len() <= 0x4000_0000,
    ensures
        text@ == base64_standard_encode(bytes@),
        base64_standard_decode(text@) == Some(bytes@),
{
    STANDARD.encode(bytes)
}

/// Calls `Engine::decode` of `base64`'s `STANDARD` engine. Trusted: the
/// outcome is a function of the text.
#[verifier::external_body]
fn base64_decode(text: &str) -> (res: Result<Vec<u8>, base64::DecodeError>)
    ensures
        res matches Ok(bytes) ==> base64_standard_decode(text@) == Some(bytes@),
        res is Err ==> base64_standard_decode(text@) is None,
{
    STANDARD.decode(text)
}

/// What `encrypt` returns: the sealed message, or `CipherError` where the key
/// is not 32 bytes, the nonce is not 12 bytes or the message is too long.
pub open spec fn spec_encrypt(key: Seq<u8>, nonce: Seq<u8>, message: Seq<u8>) -> Result<
    Seq<u8>,
    EngineError,
> {
    if key.len() != KEY_LEN || nonce.len() != NONCE_LEN || message.len() > MAX_MESSAGE_LEN {
        Err(plain_error(ErrorKind::CipherError))
    } else {
        Ok(aes256_gcm_seal(key, nonce, message))
    }
}

/// What `decrypt` returns: the message, `CipherError` where the key is not
/// 32 bytes or the nonce is not 12 bytes, or `AuthenticationFailed` where the
/// tag does not verify.
pub open spec fn spec_decrypt(key: Seq<u8>, nonce: Seq<u8>, sealed: Seq<u8>) -> Result<
    Seq<u8>,
    EngineError,
> {
    if key.len() != KEY_LEN || nonce.len() != NONCE_LEN {
        Err(plain_error(ErrorKind::CipherError))
    } else {
        match aes256_gcm_open(key, nonce, sealed) {
            Some(message) => Ok(message),
            None => Err(plain_error(ErrorKind::AuthenticationFailed)),
        }
    }
}

/// Seals `message` under `key` and `nonce`; the result is the ciphertext
/// followed by the tag.
pub fn encrypt(key: &[u8], nonce: &[u8], message: &[u8]) -> (res: Result<Vec<u8>, EngineError>)
    ensures
        same_outcome(res, spec_encrypt(key@, nonce@, message@)),
        res matches Ok(sealed) ==> sealed@.len() == message@.len() + TAG_LEN
            && spec_decrypt(key@, nonce@, sealed@) == Ok::<Seq<u8>, EngineError>(message@),
{
    if key.len() != KEY_LEN || nonce.len() != NONCE_LEN {
        return Err(EngineError::new(ErrorKind::CipherError));
    }
    match aead_seal(key, nonce, message) {
        Ok(sealed) => Ok(sealed),
        Err(_) => Err(EngineError::new(ErrorKind::CipherError)),
    }
}

/// Verifies the tag of `sealed` and recovers the message.
pub fn decrypt(key: &[u8], nonce: &[u8], sealed: &[u8]) -> (res: Result<Vec<u8>, EngineError>)
    ensures
        same_outcome(res, spec_decrypt(key@, nonce@, sealed@)),
        res matches Ok(message) ==> message@.len() + TAG_LEN == sealed@.len(),
{
    if key.len() != KEY_LEN || nonce.len() != NONCE_LEN {
        return Err(EngineError::new(ErrorKind::CipherError));
    }
    match aead_open(key, nonce, sealed) {
        Ok(message) => Ok(message),
        Err(_) => Err(EngineError::new(ErrorKind::AuthenticationFailed)),
    }
}

/// The key that a manifest's key text stands for: `CipherError` where the
/// text is not base64 or does not hold 32 bytes.
pub open spec fn spec_decode_key(text: Seq<char>) -> Result<Seq<u8>, EngineError> {
    match base64_standard_decode(text) {
        Some(key) => if key.len() == KEY_LEN {
            Ok(key)
        } else {
            Err(plain_error(ErrorKind::CipherError))
        },
        None => Err(plain_error(ErrorKind::CipherError)),
    }
}

/// Writes a key as text for a manifest; a key that is not 32 bytes long is
/// refused with `CipherError`.
pub fn encode_key(key: &[u8]) -> (res: Result<String, EngineError>)
    ensures
        res is Ok <==> key@.len() == KEY_LEN,
        res matches Err(e) ==> e == plain_error(ErrorKind::CipherError),
        res matches Ok(text) ==> text@ == base64_standard_encode(key@) && spec_decode_key(text@)
            == Ok::<Seq<u8>, EngineError>(key@),
{
    if key.len() != KEY_LEN {
        return Err(EngineError::new(ErrorKind::CipherError));
    }
    Ok(base64_encode(key))
}

/// Reads a key back from a manifest's key text.
pub fn decode_key(text: &str) -> (res: Result<Vec<u8>, EngineError>)
    ensures
        same_outcome(res, spec_decode_key(text@)),
{
    match base64_decode(text) {
        Ok(key) => {
            if key.len() == KEY_LEN {
                Ok(key)
            } else {
                Err(EngineError::new(ErrorKind::CipherError))
            }
        },
        Err(_) => Err(EngineError::new(ErrorKind::CipherError)),
    }
}

} // verus!

//! Sealing and opening of payloads: PKCS#7 padding, AES-256-CBC with a key
//! derived from a shared secret by SHA-512, and Base64 text.

use crypto::buffer::{ReadBuffer, WriteBuffer};
use crypto::{aes, blockmodes, buffer};
use sha2::{Digest, Sha512};
use vstd::prelude::*;
use vstd::utf8::{decode_utf8, encode_utf8, valid_utf8};

verus! {

/// PKCS#7 padding of `data` to a multiple of the block size: `n` copies of the
/// byte `n` are appended, where `n` is between 1 and 16.
pub open spec fn pkcs_pad(data: Seq<u8>) -> Seq<u8> {
    let n = 16 - data.len() % 16;
    data + Seq::new(n as nat, |_i: int| n as u8)
}

/// The bytes that the cipher crate's PKCS#7 mode actually encrypts: nothing
/// for empty input (its block engine finishes before any padding step), the
/// padded data otherwise.
pub open spec fn padded_input(data: Seq<u8>) -> Seq<u8> {
    if data.len() == 0 {
        data
    } else {
        pkcs_pad(data)
    }
}

/// Length of the standard Base64 text (with `=` padding) of `n` bytes.
pub open spec fn base64_len(n: int) -> int {
    4 * ((n + 2) / 3)
}

/// Number of trailing bytes that the padding check compares with the last
/// byte: the value of the last byte, but at most one block.
pub open spec fn checked_pad_len(plain: Seq<u8>) -> int {
    if plain.last() < 16 { plain.last() as int } else { 16 }
}

/// The trailing bytes that the padding check looks at all equal the last byte.
pub open spec fn padding_consistent(plain: Seq<u8>) -> bool {
    forall|i: int| plain.len() - checked_pad_len(plain) <= i < plain.len() ==> plain[i] == plain.last()
}

/// The padding check passes but the padding length exceeds a block, so that
/// removing it would run past the start of the last block.
pub open spec fn unpad_overruns(plain: Seq<u8>) -> bool {
    padding_consistent(plain) && plain.last() > 16
}

/// Removal of PKCS#7 padding from a decrypted, block-aligned, non-empty text,
/// as the padding processor of the cipher crate performs it: the last byte
/// gives the padding length; a length of 0 removes nothing.
///
/// Decryption asks the cipher crate for the unpadded blocks and removes the
/// padding with this function: the crate's own removal underflows (and so
/// panics) when the padding length exceeds a block, and that input can only be
/// told apart, and ruled out, on the decrypted blocks.
pub open spec fn pkcs_unpad(plain: Seq<u8>) -> Option<Seq<u8>> {
    if padding_consistent(plain) {
        Some(plain.take(plain.len() - plain.last()))
    } else {
        None
    }
}

/// Outcome of removing the padding of a decrypted text.
enum Unpadded {
    Plain(Vec<u8>),
    BadPadding,
    Overrun,
}

fn strip_padding(mut plain: Vec<u8>) -> (r: Unpadded)
    requires
        plain@.len() >= 16,
    ensures
        match r {
            Unpadded::Plain(p) => !unpad_overruns(plain@) && pkcs_unpad(plain@) == Some(p@),
            Unpadded::BadPadding => pkcs_unpad(plain@) is None,
            Unpadded::Overrun => unpad_overruns(plain@),
        },
{
    let ghost orig = plain@;
    let len = plain.len();
    let last = plain[len - 1];
    let check: usize = if last < 16 { last as usize } else { 16 };
    let mut i: usize = 0;
    while i < check
        invariant
            i <= check,
            check as int == checked_pad_len(orig),
            len == orig.len(),
            len >= 16,
            plain@ == orig,
            last == orig.last(),
            forall|j: int| len - i <= j < len ==> orig[j] == last,
        decreases check - i,
    {
        if plain[len - 1 - i] != last {
            return Unpadded::BadPadding;
        }
        i = i + 1;
    }
    if last > 16 {
        return Unpadded::Overrun;
    }
    plain.truncate(len - last as usize);
    Unpadded::Plain(plain)
}

/// Removing the padding that `pkcs_pad` appends gives the data back, and the
/// padding never overruns a block.
pub broadcast proof fn lemma_unpad_pad(data: Seq<u8>)
    ensures
        pkcs_unpad(#[trigger] pkcs_pad(data)) == Some(data),
        !unpad_overruns(pkcs_pad(data)),
        pkcs_pad(data).len() % 16 == 0,
        pkcs_pad(data).len() >= 16,
{
}

/// Why a sealed text could not be opened.
#[derive(Clone, Copy, Debug, PartialEq, Eq, Structural)]
pub enum CipherError {
    /// The text is not Base64, or the ciphertext is not a whole number of blocks.
    InvalidLength,
    /// The decrypted text does not end in a valid padding.
    InvalidPadding,
}

/// The SHA-512 digest of `data`, as the `sha2` crate computes it.
pub uninterp spec fn sha512_digest(data: Seq<u8>) -> Seq<u8>;

/// AES-256 encryption in CBC mode with PKCS#7 padding of `data`, as the
/// `rust-crypto` crate computes it.
pub uninterp spec fn aes256_cbc_pkcs_encrypt(key: Seq<u8>, iv: Seq<u8>, data: Seq<u8>) -> Seq<u8>;

/// AES-256 decryption in CBC mode, without padding, of block-aligned `data`, as
/// the `rust-crypto` crate computes it.
pub uninterp spec fn aes256_cbc_decrypt(key: Seq<u8>, iv: Seq<u8>, data: Seq<u8>) -> Seq<u8>;

/// The standard Base64 encoding (with `=` padding) of `data`, as the `base64`
/// crate computes it.
pub uninterp spec fn base64_text(data: Seq<u8>) -> Seq<char>;

/// The bytes that the standard Base64 text `text` decodes to, or `None` where
/// `text` is not valid Base64, as the `base64` crate computes it.
pub uninterp spec fn base64_bytes(text: Seq<char>) -> Option<Seq<u8>>;

/// Calls `Sha512::new`, `Digest::input` and `Digest::result` of the `sha2`
/// crate. Trusted: the digest is `sha512_digest` of the input and has 64 bytes.
#[verifier::external_body]
fn sha512(data: &[u8]) -> (digest: Vec<u8>)
    ensures
        digest@ == sha512_digest(data@),
        digest@.len() == 64,
{
    let mut hasher = Sha512::new();
    hasher.input(data);
    hasher.result().to_vec()
}

/// Calls `aes::cbc_encryptor` (AES-256, `PkcsPadding`) and
/// `Encryptor::encrypt` of the `rust-crypto` crate on the whole input at once,
/// writing into `buffer`, and returns the bytes written. Trusted: the result is
/// `aes256_cbc_pkcs_encrypt` of the key, IV and input; it is empty for empty
/// input and otherwise as long as the padded input; and CBC decryption under
/// the same key and IV gives back the padded input.
#[verifier::external_body]
fn cbc_encrypt_padded(key: &[u8], iv: &[u8], data: &[u8], buffer: Vec<u8>) -> (ciphertext: Vec<u8>)
    requires
        key@.len() == 32,
        iv@.len() == 16,
        buffer@.len() >= data@.len() + 16,
    ensures
        ciphertext@ == aes256_cbc_pkcs_encrypt(key@, iv@, data@),
        ciphertext@.len() == padded_input(data@).len(),
        aes256_cbc_decrypt(key@, iv@, ciphertext@) == padded_input(data@),
{
    let mut encryptor = aes::cbc_encryptor(aes::KeySize::KeySize256, key, iv, blockmodes::PkcsPadding);
    let mut output = buffer;
    let mut read_buffer = buffer::RefReadBuffer::new(data);
    let mut write_buffer = buffer::RefWriteBuffer::new(&mut output);
    let _ = encryptor.encrypt(&mut read_buffer, &mut write_buffer, true);
    let ciphertext = write_buffer.take_read_buffer().take_remaining().to_vec();
    ciphertext
}

/// Calls `aes::cbc_decryptor` (AES-256, no padding) and `Decryptor::decrypt`
/// of the `rust-crypto` crate on the whole input at once, into an output buffer
/// as long as the input. Trusted: the call fails (`InvalidLength`) exactly when
/// the input is not a whole number of blocks; otherwise the result is
/// `aes256_cbc_decrypt` of the arguments and as long as the input; and
/// decrypting what `aes256_cbc_pkcs_encrypt` produced under the same key and IV
/// gives back the bytes it encrypted, padding included.
#[verifier::external_body]
fn cbc_decrypt_blocks(key: &[u8], iv: &[u8], data: &[u8]) -> (plain: Option<Vec<u8>>)
    requires
        key@.len() == 32,
        iv@.len() == 16,
    ensures
        plain is None <==> data@.len() % 16 != 0,
        plain matches Some(p) ==> p@ == aes256_cbc_decrypt(key@, iv@, data@) && p@.len() == data@.len(),
        forall|m: Seq<u8>|
            data@ == #[trigger] aes256_cbc_pkcs_encrypt(key@, iv@, m) ==> plain.is_some() && plain.unwrap()@
                == padded_input(m),
{
    let mut decryptor = aes::cbc_decryptor(aes::KeySize::KeySize256, key, iv, blockmodes::NoPadding);
    let mut plain = vec![0u8; data.len()];
    let outcome = {
        let mut read_buffer = buffer::RefReadBuffer::new(data);
        let mut write_buffer = buffer::RefWriteBuffer::new(&mut plain);
        decryptor.decrypt(&mut read_buffer, &mut write_buffer, true)
    };
    match outcome {
        Ok(_) => Some(plain),
        Err(_) => None,
    }
}

/// Calls `base64::encode`. Trusted: the text is `base64_text` of the input,
/// four characters for every three bytes or part of three, and it decodes back
/// to the input.
#[verifier::external_body]
fn base64_encode(data: &[u8]) -> (text: String)
    ensures
        text@ == base64_text(data@),
        text@.len() == base64_len(data@.len() as int),
        base64_bytes(text@) == Some(data@),
{
    base64::encode(data)
}

/// Calls `base64::decode`. Trusted: the result is `base64_bytes` of the text,
/// and decoding inverts `base64_text`.
#[verifier::external_body]
fn base64_decode(text: &str) -> (data: Option<Vec<u8>>)
    ensures
        match data {
            Some(d) => base64_bytes(text@) == Some(d@),
            None => base64_bytes(text@) is None,
        },
        forall|b: Seq<u8>| text@ == #[trigger] base64_text(b) ==> data.is_some() && data.unwrap()@ == b,
{
    base64::decode(text).ok()
}

/// Calls `String::from_utf8`. Trusted, as std documents it: the conversion
/// succeeds exactly on valid UTF-8, and the string holds the decoded characters.
#[verifier::external_body]
fn utf8_string(bytes: Vec<u8>) -> (text: Option<String>)
    ensures
        text is Some <==> valid_utf8(bytes@),
        text matches Some(s) ==> s@ == decode_utf8(bytes@),
{
    String::from_utf8(bytes).ok()
}

/// The AES-256 key derived from a secret: the first 32 bytes of the SHA-512
/// digest of its UTF-8 bytes (the bytes that an AES-256 key schedule reads).
pub open spec fn cipher_key(secret: Seq<char>) -> Seq<u8> {
    sha512_digest(encode_utf8(secret)).take(32)
}

/// The key is taken from the digest of the whole secret: it is the first 32
/// bytes of the SHA-512 digest of every UTF-8 byte of the secret, so two
/// secrets whose full encodings have the same digest have the same key, and
/// a key never depends on part of a secret alone.
pub proof fn lemma_key_from_whole_secret(secret1: Seq<char>, secret2: Seq<char>)
    ensures
        cipher_key(secret1) == sha512_digest(encode_utf8(secret1)).take(32),
        sha512_digest(encode_utf8(secret1)) == sha512_digest(encode_utf8(secret2)) ==> cipher_key(
            secret1,
        ) == cipher_key(secret2),
{
}

/// The all-zero initialisation vector.
pub open spec fn zero_iv() -> Seq<u8> {
    Seq::new(16, |_i: int| 0u8)
}

/// The ciphertext of `data` under `secret`: the AES-256-CBC encryption, with
/// PKCS#7 padding, of its UTF-8 bytes.
pub open spec fn sealed_ciphertext(data: Seq<char>, secret: Seq<char>) -> Seq<u8> {
    aes256_cbc_pkcs_encrypt(cipher_key(secret), zero_iv(), encode_utf8(data))
}

/// The sealed form of `data` under `secret`: the Base64 text of its ciphertext.
pub open spec fn sealed(data: Seq<char>, secret: Seq<char>) -> Seq<char> {
    base64_text(sealed_ciphertext(data, secret))
}

/// The ciphertext carried by a sealed text, when its length is acceptable.
pub open spec fn sealed_blocks(text: Seq<char>) -> Result<Seq<u8>, CipherError> {
    match base64_bytes(text) {
        None => Err(CipherError::InvalidLength),
        Some(ct) => if ct.len() % 16 != 0 {
            Err(CipherError::InvalidLength)
        } else {
            Ok(ct)
        },
    }
}

/// The decrypted, still padded, bytes of a sealed text.
pub open spec fn raw_plain(text: Seq<char>, secret: Seq<char>) -> Seq<u8> {
    aes256_cbc_decrypt(cipher_key(secret), zero_iv(), sealed_blocks(text)->Ok_0)
}

/// The bytes that a sealed text opens to under `secret`.
pub open spec fn opened_bytes(text: Seq<char>, secret: Seq<char>) -> Result<Seq<u8>, CipherError> {
    match sealed_blocks(text) {
        Err(e) => Err(e),
        Ok(ct) => if ct.len() == 0 {
            Ok(Seq::empty())
        } else {
            match pkcs_unpad(raw_plain(text, secret)) {
                Some(p) => Ok(p),
                None => Err(CipherError::InvalidPadding),
            }
        },
    }
}

/// Opening the sealed text cannot complete: the padding length runs past the
/// last block, or the opened bytes are not UTF-8.
pub open spec fn open_fails_hard(text: Seq<char>, secret: Seq<char>) -> bool {
    ||| sealed_blocks(text) matches Ok(ct) && ct.len() > 0 && unpad_overruns(raw_plain(text, secret))
    ||| opened_bytes(text, secret) matches Ok(p) && !valid_utf8(p)
}

/// The text that a sealed text opens to under `secret`.
pub open spec fn opened(text: Seq<char>, secret: Seq<char>) -> Result<Seq<char>, CipherError> {
    match opened_bytes(text, secret) {
        Ok(p) => Ok(decode_utf8(p)),
        Err(e) => Err(e),
    }
}

/// The AES-256 key for `secret`.
fn derive_key(secret: &str) -> (key: Vec<u8>)
    ensures
        key@ == cipher_key(secret@),
        key@ == sha512_digest(encode_utf8(secret@)).take(32),
        key@.len() == 32,
{
    let digest = sha512(secret.as_bytes());
    let mut key: Vec<u8> = Vec::new();
    let mut i: usize = 0;
    while i < 32
        invariant
            i <= 32,
            digest@.len() == 64,
            key@ == digest@.take(i as int),
        decreases 32 - i,
    {
        key.push(digest[i]);
        i = i + 1;
    }
    key
}

/// Encrypts `data` with AES-256-CBC under the key derived from `secret`, with a
/// zero IV and PKCS#7 padding, and returns the ciphertext as Base64 text. The
/// ciphertext is empty for empty data and otherwise one block longer than the
/// whole blocks of the data; so the text's length depends on the data's length
/// alone. The text opens under the same secret to `data`.
pub fn aes_encrypt(data: &str, secret: &str) -> (result: Result<String, CipherError>)
    ensures
        result is Ok,
        result matches Ok(text) ==> text@ == sealed(data@, secret@),
        sealed_ciphertext(data@, secret@).len() == padded_input(encode_utf8(data@)).len(),
        result matches Ok(text) ==> text@.len() == base64_len(
            padded_input(encode_utf8(data@)).len() as int,
        ),
        result matches Ok(text) ==> !open_fails_hard(text@, secret@) && opened(text@, secret@)
            == Ok::<Seq<char>, CipherError>(data@),
{
    broadcast use vstd::utf8::encode_utf8_valid_utf8, vstd::utf8::encode_utf8_decode_utf8, lemma_unpad_pad;

    let key = derive_key(secret);
    let iv: Vec<u8> = vec![0u8; 16];
    assert(iv@ == zero_iv());
    let bytes = data.as_bytes();
    // Room for the data and one padding block.
    let mut buffer: Vec<u8> = vec![0u8; bytes.len()];
    let mut k: usize = 0;
    while k < 16
        invariant
            k <= 16,
            buffer@.len() == bytes@.len() + k,
        decreases 16 - k,
    {
        buffer.push(0u8);
        k = k + 1;
    }
    let ciphertext = cbc_encrypt_padded(key.as_slice(), iv.as_slice(), bytes, buffer);
    let text = base64_encode(ciphertext.as_slice());
    proof {
        if bytes@.len() == 0 {
            assert(decode_utf8(bytes@) == data@);
            assert(bytes@ =~= Seq::<u8>::empty());
        }
    }
    Ok(text)
}

/// Sealing is a function of its inputs: equal data under equal secrets seals
/// to equal texts (the IV is fixed and nothing random enters).
pub proof fn lemma_sealing_is_deterministic(
    data1: Seq<char>,
    secret1: Seq<char>,
    data2: Seq<char>,
    secret2: Seq<char>,
)
    requires
        data1 == data2,
        secret1 == secret2,
    ensures
        sealed(data1, secret1) == sealed(data2, secret2),
{
}

/// The text view of an opening result.
pub open spec fn opened_view(r: Result<String, CipherError>) -> Result<Seq<char>, CipherError> {
    match r {
        Ok(t) => Ok(t@),
        Err(e) => Err(e),
    }
}

/// Opens a sealed text; `None` exactly where the opening cannot complete.
fn open_sealed(encrypted_data: &str, secret: &str) -> (r: Option<Result<String, CipherError>>)
    ensures
        r is None <==> open_fails_hard(encrypted_data@, secret@),
        r matches Some(res) ==> opened_view(res) == opened(encrypted_data@, secret@),
        forall|d: Seq<char>|
            encrypted_data@ == sealed(d, secret@) ==> r.is_some() && opened_view(r.unwrap()) == Ok::<Seq<char>, CipherError>(d),
{
    broadcast use vstd::utf8::encode_utf8_valid_utf8, vstd::utf8::encode_utf8_decode_utf8, lemma_unpad_pad;

    let ct = match base64_decode(encrypted_data) {
        Some(c) => c,
        None => {
            return Some(Err(CipherError::InvalidLength));
        },
    };
    let key = derive_key(secret);
    let iv: Vec<u8> = vec![0u8; 16];
    assert(iv@ == zero_iv());
    let decrypted = cbc_decrypt_blocks(key.as_slice(), iv.as_slice(), ct.as_slice());
    // Text that `aes_encrypt` sealed decrypts to its padded UTF-8 bytes.
    assert forall|d: Seq<char>| encrypted_data@ == sealed(d, secret@) implies decrypted.is_some()
        && decrypted.unwrap()@ == padded_input(#[trigger] encode_utf8(d)) by {
        assert(ct@ == sealed_ciphertext(d, secret@));
    }
    let raw = match decrypted {
        Some(p) => p,
        None => {
            return Some(Err(CipherError::InvalidLength));
        },
    };
    let plain = if raw.len() == 0 {
        assert(raw@ =~= Seq::<u8>::empty());
        raw
    } else {
        match strip_padding(raw) {
            Unpadded::Plain(p) => p,
            Unpadded::BadPadding => {
                return Some(Err(CipherError::InvalidPadding));
            },
            Unpadded::Overrun => {
                return None;
            },
        }
    };
    match utf8_string(plain) {
        Some(text) => Some(Ok(text)),
        None => None,
    }
}

/// Decodes the Base64 text `encrypted_data`, decrypts it with AES-256-CBC
/// under the key derived from `secret` and a zero IV, removes the PKCS#7
/// padding and returns the text. Text that `aes_encrypt` sealed under the same
/// secret opens to the text that was sealed.
pub fn aes_decrypt(encrypted_data: &str, secret: &str) -> (result: Result<String, CipherError>)
    requires
        !open_fails_hard(encrypted_data@, secret@),
    ensures
        opened_view(result) == opened(encrypted_data@, secret@),
        forall|d: Seq<char>|
            encrypted_data@ == sealed(d, secret@) ==> opened_view(result) == Ok::<
                Seq<char>,
                CipherError,
            >(d),
{
    match open_sealed(encrypted_data, secret) {
        Some(result) => result,
        // Unreachable: the precondition rules this outcome out.
        None => Err(CipherError::InvalidLength),
    }
}

/// `aes_decrypt` where it completes, and `None` where the padding length runs
/// past the last block or the opened bytes are not UTF-8. The payload is opened
/// once to test for those cases and once more by `aes_decrypt`.
pub fn try_aes_decrypt(encrypted_data: &str, secret: &str) -> (result: Option<
    Result<String, CipherError>,
>)
    ensures
        result is None <==> open_fails_hard(encrypted_data@, secret@),
        result matches Some(r) ==> opened_view(r) == opened(encrypted_data@, secret@),
        forall|d: Seq<char>|
            encrypted_data@ == sealed(d, secret@) ==> result.is_some() && opened_view(
                result.unwrap(),
            ) == Ok::<Seq<char>, CipherError>(d),
{
    if open_sealed(encrypted_data, secret).is_none() {
        None
    } else {
        Some(aes_decrypt(encrypted_data, secret))
    }
}

} // verus!

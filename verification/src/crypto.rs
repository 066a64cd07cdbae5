//! Secret handling: encryption of upstream credentials at rest, hashing of
//! virtual keys, and redaction of texts that are logged.

use crate::text::{
    begins_with, byte_count, byte_len, chars_of, is_space, is_whitespace, law_parts_occur,
    starts_with, text_range,
};
use aes_gcm::aead::{Aead, KeyInit};
use aes_gcm::AeadCore;
use base64::Engine;
use rand::RngCore;
use sha2::Digest;
use subtle::ConstantTimeEq;
use vstd::prelude::*;
use vstd::utf8::{
    decode_utf8, encode_utf8, encode_utf8_decode_utf8, encode_utf8_valid_utf8, valid_utf8,
};

verus! {

/// What AES-256-GCM makes of a message: the ciphertext with its tag.
pub uninterp spec fn gcm_sealed(key: Seq<u8>, nonce: Seq<u8>, plain: Seq<u8>) -> Seq<u8>;

/// What AES-256-GCM reads back from a sealed message; `None` where the tag does
/// not match.
pub uninterp spec fn gcm_opened(key: Seq<u8>, nonce: Seq<u8>, sealed: Seq<u8>) -> Option<Seq<u8>>;

/// The standard base64 text of some bytes, padded.
pub uninterp spec fn base64_text(bytes: Seq<u8>) -> Seq<char>;

/// The bytes of a standard base64 text, or what is wrong with the text.
pub uninterp spec fn base64_bytes(text: Seq<char>) -> Result<Seq<u8>, Seq<char>>;

/// The SHA-256 digest of some bytes.
pub uninterp spec fn sha256_of(bytes: Seq<u8>) -> Seq<u8>;

/// What `String::from_utf8` says of bytes that are not UTF-8.
pub uninterp spec fn utf8_fault(bytes: Seq<u8>) -> Seq<char>;

/// `Aes256Gcm::encrypt` under a 32-byte key and a 12-byte nonce: it seals every
/// message of at most 2^36 bytes and refuses longer ones. What it seals,
/// `Aes256Gcm::decrypt` opens again.
#[verifier::external_body]
fn gcm_seal(key: &[u8; 32], nonce: &[u8; 12], plain: &[u8]) -> (r: Option<Vec<u8>>)
    requires
        plain@.len() + 16 <= isize::MAX,
    ensures
        r is Some == (plain@.len() <= 0x10_0000_0000),
        r matches Some(s) ==> s@ == gcm_sealed(key@, nonce@, plain@) && s@.len() == plain@.len() + 16
            && gcm_opened(key@, nonce@, s@) == Some(plain@),
{
    let cipher = aes_gcm::Aes256Gcm::new(aes_gcm::Key::<aes_gcm::Aes256Gcm>::from_slice(key));
    cipher.encrypt(aes_gcm::Nonce::from_slice(nonce), plain).ok()
}

/// `Aes256Gcm::decrypt` under a 32-byte key and a 12-byte nonce.
#[verifier::external_body]
fn gcm_open(key: &[u8; 32], nonce: &[u8], sealed: &[u8]) -> (r: Option<Vec<u8>>)
    requires
        nonce@.len() == 12,
    ensures
        match r {
            Some(p) => gcm_opened(key@, nonce@, sealed@) == Some(p@),
            None => gcm_opened(key@, nonce@, sealed@) is None,
        },
{
    let cipher = aes_gcm::Aes256Gcm::new(aes_gcm::Key::<aes_gcm::Aes256Gcm>::from_slice(key));
    cipher.decrypt(aes_gcm::Nonce::from_slice(nonce), sealed).ok()
}

/// `Aes256Gcm::generate_nonce` from the system's random source: nothing is
/// promised of the bytes but their number.
#[verifier::external_body]
fn fresh_nonce() -> (r: [u8; 12])
{
    aes_gcm::Aes256Gcm::generate_nonce(&mut aes_gcm::aead::OsRng).into()
}

/// `base64::engine::general_purpose::STANDARD.encode`; `decode` reads its
/// result back. The result has four characters for three bytes, padded.
#[verifier::external_body]
pub(crate) fn base64_encode(bytes: &[u8]) -> (r: String)
    requires
        bytes@.len() <= isize::MAX / 2,
    ensures
        r@ == base64_text(bytes@),
        r@.len() == (bytes@.len() + 2) / 3 * 4,
        base64_bytes(r@) is Ok && base64_bytes(r@)->Ok_0 == bytes@,
{
    base64::engine::general_purpose::STANDARD.encode(bytes)
}

/// `base64::engine::general_purpose::STANDARD.decode`, with the error's text.
#[verifier::external_body]
pub(crate) fn base64_decode(text: &str) -> (r: Result<Vec<u8>, String>)
    ensures
        match r {
            Ok(b) => base64_bytes(text@) == Ok::<Seq<u8>, Seq<char>>(b@),
            Err(e) => base64_bytes(text@) == Err::<Seq<u8>, Seq<char>>(e@),
        },
{
    base64::engine::general_purpose::STANDARD.decode(text).map_err(|e| e.to_string())
}

/// `Sha256::digest`: 32 bytes that depend on the input alone.
#[verifier::external_body]
pub(crate) fn sha256(bytes: &[u8]) -> (r: Vec<u8>)
    ensures
        r@ == sha256_of(bytes@),
        r@.len() == 32,
{
    sha2::Sha256::digest(bytes).to_vec()
}

/// `RngCore::fill_bytes` of the thread's generator: nothing is promised of the
/// bytes but their number.
#[verifier::external_body]
fn random_24() -> (r: [u8; 24])
{
    let mut bytes = [0u8; 24];
    rand::thread_rng().fill_bytes(&mut bytes);
    bytes
}

/// `String::from_utf8`, with the error's text: it takes exactly the bytes that
/// are UTF-8 and decodes them.
#[verifier::external_body]
pub(crate) fn text_from_utf8(bytes: Vec<u8>) -> (r: Result<String, String>)
    ensures
        match r {
            Ok(s) => valid_utf8(bytes@) && s@ == decode_utf8(bytes@),
            Err(e) => !valid_utf8(bytes@) && e@ == utf8_fault(bytes@),
        },
{
    String::from_utf8(bytes).map_err(|e| e.to_string())
}

/// The lower-case hexadecimal digit of a number below sixteen.
pub open spec fn hex_digit(d: int) -> char {
    "0123456789abcdef"@[d]
}

/// Some bytes written in hexadecimal: two lower-case digits each, the high one
/// first.
pub open spec fn hex_of(bytes: Seq<u8>) -> Seq<char> {
    Seq::new(
        2 * bytes.len(),
        |i: int|
            if i % 2 == 0 {
                hex_digit(bytes[i / 2] as int / 16)
            } else {
                hex_digit(bytes[i / 2] as int % 16)
            },
    )
}

/// `hex::encode`: two lower-case hexadecimal digits for each byte.
#[verifier::external_body]
pub(crate) fn hex_encode(bytes: &[u8]) -> (r: String)
    ensures
        r@ == hex_of(bytes@),
{
    hex::encode(bytes)
}

/// `ConstantTimeEq::ct_eq` on byte slices: whether they hold the same bytes.
#[verifier::external_body]
fn bytes_ct_eq(a: &[u8], b: &[u8]) -> (r: bool)
    ensures
        r == (a@ == b@),
{
    a.ct_eq(b).into()
}

/// Why a secret could not be encrypted or decrypted.
#[derive(Debug)]
pub enum CryptoError {
    EncryptionFailed,
    InvalidEncoding(String),
    TooShort,
    DecryptionFailed,
    NotUtf8(String),
}

/// What a `CryptoError` says.
pub enum CryptoFault {
    EncryptionFailed,
    InvalidEncoding(Seq<char>),
    TooShort,
    DecryptionFailed,
    NotUtf8(Seq<char>),
}

impl View for CryptoError {
    type V = CryptoFault;

    open spec fn view(&self) -> CryptoFault {
        match *self {
            CryptoError::EncryptionFailed => CryptoFault::EncryptionFailed,
            CryptoError::InvalidEncoding(e) => CryptoFault::InvalidEncoding(e@),
            CryptoError::TooShort => CryptoFault::TooShort,
            CryptoError::DecryptionFailed => CryptoFault::DecryptionFailed,
            CryptoError::NotUtf8(e) => CryptoFault::NotUtf8(e@),
        }
    }
}

/// A fault in words.
pub open spec fn crypto_text(f: CryptoFault) -> Seq<char> {
    match f {
        CryptoFault::EncryptionFailed => "encryption failed"@,
        CryptoFault::InvalidEncoding(e) => "invalid ciphertext encoding: "@ + e,
        CryptoFault::TooShort => "ciphertext too short"@,
        CryptoFault::DecryptionFailed => "decryption failed (wrong master key?)"@,
        CryptoFault::NotUtf8(e) => "decrypted secret not utf-8: "@ + e,
    }
}

impl CryptoError {
    /// The error in words.
    pub fn message(&self) -> (r: String)
        ensures
            r@ == crypto_text(self@),
    {
        match self {
            CryptoError::EncryptionFailed => "encryption failed".to_owned(),
            CryptoError::InvalidEncoding(e) => {
                let mut s = "invalid ciphertext encoding: ".to_owned();
                s.append(e.as_str());
                s
            },
            CryptoError::TooShort => "ciphertext too short".to_owned(),
            CryptoError::DecryptionFailed => "decryption failed (wrong master key?)".to_owned(),
            CryptoError::NotUtf8(e) => {
                let mut s = "decrypted secret not utf-8: ".to_owned();
                s.append(e.as_str());
                s
            },
        }
    }
}

/// The secret in a stored text: base64 of a 12-byte nonce and the sealed bytes.
pub open spec fn secret_in(key: Seq<u8>, encoded: Seq<char>) -> Result<Seq<char>, CryptoFault> {
    match base64_bytes(encoded) {
        Err(e) => Err(CryptoFault::InvalidEncoding(e)),
        Ok(raw) => opened_secret(
            raw,
            if raw.len() < 12 {
                None
            } else {
                gcm_opened(key, raw.take(12), raw.skip(12))
            },
        ),
    }
}

/// The secret in decoded bytes, from what the cipher makes of them.
pub open spec fn opened_secret(raw: Seq<u8>, opened: Option<Seq<u8>>) -> Result<
    Seq<char>,
    CryptoFault,
> {
    if raw.len() < 12 {
        Err(CryptoFault::TooShort)
    } else {
        match opened {
            None => Err(CryptoFault::DecryptionFailed),
            Some(p) => if valid_utf8(p) {
                Ok(decode_utf8(p))
            } else {
                Err(CryptoFault::NotUtf8(utf8_fault(p)))
            },
        }
    }
}

/// A text has at least as many bytes as characters.
proof fn lemma_no_fewer_bytes(s: Seq<char>)
    ensures
        encode_utf8(s).len() >= s.len(),
    decreases s.len(),
{
    if s.len() > 0 {
        vstd::utf8::char_is_scalar(s[0]);
        lemma_no_fewer_bytes(s.drop_first());
    }
}

/// Encrypts and decrypts with one master key.
pub struct Crypto {
    key: [u8; 32],
}

impl View for Crypto {
    type V = Seq<u8>;

    closed spec fn view(&self) -> Seq<u8> {
        self.key@
    }
}

impl Crypto {
    pub fn new(master_key: &[u8; 32]) -> (r: Self)
        ensures
            r@ == master_key@,
    {
        Crypto { key: *master_key }
    }

    /// Encrypts a secret under a fresh nonce: base64 of the nonce and the sealed
    /// bytes. It fails on more than 2^36 bytes only. What it gives, `decrypt`
    /// reads back, and it is never the secret itself.
    pub fn encrypt(&self, plaintext: &str) -> (r: Result<String, CryptoError>)
        requires
            byte_len(plaintext@) + 28 <= isize::MAX / 2,
        ensures
            r is Ok == (byte_len(plaintext@) <= 0x10_0000_0000),
            r matches Ok(text) ==> exists|nonce: Seq<u8>|
                nonce.len() == 12 && text@ == base64_text(
                    nonce + #[trigger] gcm_sealed(self@, nonce, encode_utf8(plaintext@)),
                ),
            r matches Ok(text) ==> secret_in(self@, text@) == Ok::<Seq<char>, CryptoFault>(
                plaintext@,
            ),
            r matches Ok(text) ==> text@ != plaintext@ && text@.len() > plaintext@.len(),
            r matches Err(e) ==> e@ == CryptoFault::EncryptionFailed,
    {
        let nonce = fresh_nonce();
        match gcm_seal(&self.key, &nonce, plaintext.as_bytes()) {
            None => Err(CryptoError::EncryptionFailed),
            Some(sealed) => {
                let mut out: Vec<u8> = Vec::new();
                out.extend_from_slice(&nonce);
                out.extend_from_slice(sealed.as_slice());
                proof {
                    assert(out@ =~= nonce@ + sealed@);
                    assert(out@.take(12) =~= nonce@);
                    assert(out@.skip(12) =~= sealed@);
                    lemma_no_fewer_bytes(plaintext@);
                    encode_utf8_decode_utf8(plaintext@);
                    encode_utf8_valid_utf8(plaintext@);
                }
                Ok(base64_encode(out.as_slice()))
            },
        }
    }

    /// Decrypts what `encrypt` made.
    pub fn decrypt(&self, encoded: &str) -> (r: Result<String, CryptoError>)
        ensures
            match r {
                Ok(s) => secret_in(self@, encoded@) == Ok::<Seq<char>, CryptoFault>(s@),
                Err(e) => secret_in(self@, encoded@) == Err::<Seq<char>, CryptoFault>(e@),
            },
    {
        match base64_decode(encoded) {
            Err(e) => Err(CryptoError::InvalidEncoding(e)),
            Ok(raw) => {
                let opened = if raw.len() < 12 {
                    None
                } else {
                    let nonce = vstd::slice::slice_subrange(raw.as_slice(), 0, 12);
                    let sealed = vstd::slice::slice_subrange(raw.as_slice(), 12, raw.len());
                    proof {
                        assert(nonce@ =~= raw@.take(12));
                        assert(sealed@ =~= raw@.skip(12));
                    }
                    gcm_open(&self.key, nonce, sealed)
                };
                read_opened(raw, opened)
            },
        }
    }
}

/// The secret in decoded bytes, from what the cipher makes of them.
pub fn read_opened(raw: Vec<u8>, opened: Option<Vec<u8>>) -> (r: Result<String, CryptoError>)
    ensures
        ({
            let plain = match opened {
                Some(p) => Some(p@),
                None => None,
            };
            match r {
                Ok(s) => opened_secret(raw@, plain) == Ok::<Seq<char>, CryptoFault>(s@),
                Err(e) => opened_secret(raw@, plain) == Err::<Seq<char>, CryptoFault>(e@),
            }
        }),
{
    if raw.len() < 12 {
        return Err(CryptoError::TooShort);
    }
    match opened {
        None => Err(CryptoError::DecryptionFailed),
        Some(p) => match text_from_utf8(p) {
            Ok(s) => Ok(s),
            Err(e) => Err(CryptoError::NotUtf8(e)),
        },
    }
}

/// A new virtual key: the prefix and 24 random bytes in hexadecimal.
pub fn generate_virtual_key() -> (r: String)
    ensures
        exists|bytes: Seq<u8>| bytes.len() == 24 && r@ == "sk-kinetix-"@ + #[trigger] hex_of(bytes),
{
    let bytes = random_24();
    let mut s = "sk-kinetix-".to_owned();
    s.append(hex_encode(&bytes).as_str());
    s
}

/// The SHA-256 hash of a virtual key, in hexadecimal.
pub open spec fn key_hash_of(key: Seq<char>) -> Seq<char> {
    hex_of(sha256_of(encode_utf8(key)))
}

/// The SHA-256 hash of a virtual key, in hexadecimal.
pub fn hash_virtual_key(key: &str) -> (r: String)
    ensures
        r@ == key_hash_of(key@),
{
    hex_encode(sha256(key.as_bytes()).as_slice())
}

/// Compares two hashes in constant time.
pub fn constant_time_eq(a: &str, b: &str) -> (r: bool)
    ensures
        r == (a@ == b@),
{
    proof {
        encode_utf8_decode_utf8(a@);
        encode_utf8_decode_utf8(b@);
    }
    if byte_count(a) != byte_count(b) {
        return false;
    }
    bytes_ct_eq(a.as_bytes(), b.as_bytes())
}

/// A secret as it is displayed: its first and last four characters, or nothing
/// of it where it has at most ten.
pub open spec fn masked(secret: Seq<char>) -> Seq<char> {
    if secret.len() <= 10 {
        "****"@
    } else {
        secret.take(4) + "..."@ + secret.skip(secret.len() - 4)
    }
}

/// Masks a secret for display.
pub fn mask_secret(secret: &str) -> (r: String)
    ensures
        r@ == masked(secret@),
{
    let chars = chars_of(secret);
    if chars.len() <= 10 {
        return "****".to_owned();
    }
    let n: usize = chars.len();
    let mut s = text_range(&chars, 0, 4);
    s.append("...");
    s.append(text_range(&chars, n - 4, n).as_str());
    proof {
        assert(secret@.subrange(0, 4) =~= secret@.take(4));
        assert(secret@.subrange(n - 4, n as int) =~= secret@.skip(n - 4));
    }
    s
}

/// The characters that end a token.
pub open spec fn is_break(c: char) -> bool {
    is_space(c) || c == '"' || c == '\'' || c == '='
}

/// The characters that do not count at either end of a token.
pub open spec fn is_edge(c: char) -> bool {
    is_break(c) || c == ',' || c == '{' || c == '}'
}

/// The position of the first token end at or after `from`, or the length.
pub open spec fn next_break(s: Seq<char>, from: int) -> int
    decreases s.len() - from,
{
    if from < 0 || from >= s.len() {
        s.len() as int
    } else if is_break(s[from]) {
        from
    } else {
        next_break(s, from + 1)
    }
}

/// A token without the edge characters at its start.
pub open spec fn core_start(s: Seq<char>) -> Seq<char>
    decreases s.len(),
{
    if s.len() > 0 && is_edge(s[0]) {
        core_start(s.skip(1))
    } else {
        s
    }
}

/// A token without the edge characters at its end.
pub open spec fn core_end(s: Seq<char>) -> Seq<char>
    decreases s.len(),
{
    if s.len() > 0 && is_edge(s.last()) {
        core_end(s.drop_last())
    } else {
        s
    }
}

/// A token without the edge characters at either end.
pub open spec fn core_of(s: Seq<char>) -> Seq<char> {
    core_end(core_start(s))
}

/// Whether a character is an ASCII letter or digit.
pub open spec fn is_alphanumeric(c: char) -> bool {
    'a' <= c <= 'z' || 'A' <= c <= 'Z' || '0' <= c <= '9'
}

/// How many ASCII letters and digits a text has.
pub open spec fn alphanumerics(s: Seq<char>) -> nat {
    s.filter(|c: char| is_alphanumeric(c)).len()
}

/// Whether a text begins as an API key does.
pub open spec fn has_key_prefix(s: Seq<char>) -> bool {
    begins_with(s, "sk-"@) || begins_with(s, "AIza"@) || begins_with(s, "AQ."@) || begins_with(
        s,
        "gsk_"@,
    ) || begins_with(s, "sk-ant"@) || begins_with(s, "ya29."@)
}

/// Whether a text looks like a secret: a known prefix on more than twelve
/// bytes, or forty bytes with at least 36 letters and digits.
pub open spec fn is_secret(s: Seq<char>) -> bool {
    (has_key_prefix(s) && byte_len(s) > 12) || (byte_len(s) >= 40 && alphanumerics(s) >= 36)
}

/// A token as it is logged: a secret is replaced, its ending kept.
pub open spec fn redacted_token(token: Seq<char>) -> Seq<char> {
    if is_secret(core_of(token)) {
        if token.len() > 0 && is_break(token.last()) {
            "[REDACTED]"@.push(token.last())
        } else {
            "[REDACTED]"@
        }
    } else {
        token
    }
}

/// A text as it is logged: token by token, each with the character that ends
/// it.
pub open spec fn redacted(s: Seq<char>) -> Seq<char>
    decreases s.len(),
    via redacted_decreases
{
    if s.len() == 0 {
        s
    } else {
        let i = next_break(s, 0);
        if i < s.len() {
            redacted_token(s.take(i + 1)) + redacted(s.skip(i + 1))
        } else {
            redacted_token(s)
        }
    }
}

#[via_fn]
proof fn redacted_decreases(s: Seq<char>) {
    if s.len() > 0 {
        lemma_next_break(s, 0);
    }
}

proof fn lemma_next_break(s: Seq<char>, from: int)
    requires
        0 <= from <= s.len(),
    ensures
        from <= next_break(s, from) <= s.len(),
        next_break(s, from) < s.len() ==> is_break(s[next_break(s, from)]),
        forall|k: int| from <= k < next_break(s, from) ==> !is_break(#[trigger] s[k]),
    decreases s.len() - from,
{
    if from < s.len() && !is_break(s[from]) {
        lemma_next_break(s, from + 1);
    }
}

proof fn lemma_next_break_is(s: Seq<char>, from: int, at: int)
    requires
        0 <= from <= at <= s.len(),
        at < s.len() ==> is_break(s[at]),
        forall|k: int| from <= k < at ==> !is_break(#[trigger] s[k]),
    ensures
        next_break(s, from) == at,
    decreases at - from,
{
    if from < at {
        lemma_next_break_is(s, from + 1, at);
    }
}

fn ends_token(c: char) -> (r: bool)
    ensures
        r == is_break(c),
{
    is_whitespace(c) || c == '"' || c == '\'' || c == '='
}

fn at_edge(c: char) -> (r: bool)
    ensures
        r == is_edge(c),
{
    ends_token(c) || c == ',' || c == '{' || c == '}'
}

fn count_alphanumerics(chars: &Vec<char>, from: usize, to: usize) -> (r: usize)
    requires
        from <= to <= chars@.len(),
    ensures
        r == alphanumerics(chars@.subrange(from as int, to as int)),
{
    let mut n: usize = 0;
    let mut i: usize = from;
    proof {
        reveal(Seq::filter);
        assert(chars@.subrange(from as int, from as int).len() == 0);
    }
    while i < to
        invariant
            from <= i <= to <= chars@.len(),
            n == alphanumerics(chars@.subrange(from as int, i as int)),
            n <= i,
        decreases to - i,
    {
        proof {
            reveal(Seq::filter);
            let longer = chars@.subrange(from as int, i + 1);
            assert(longer.drop_last() =~= chars@.subrange(from as int, i as int));
            assert(longer.last() == chars@[i as int]);
        }
        let c: char = chars[i];
        if ('a' <= c && c <= 'z') || ('A' <= c && c <= 'Z') || ('0' <= c && c <= '9') {
            n = n + 1;
        }
        i = i + 1;
    }
    n
}

/// Whether the characters from `from` up to `to` look like a secret.
fn looks_like_secret(chars: &Vec<char>, from: usize, to: usize) -> (r: bool)
    requires
        from <= to <= chars@.len(),
    ensures
        r == is_secret(chars@.subrange(from as int, to as int)),
{
    let s = text_range(chars, from, to);
    let size = byte_count(s.as_str());
    let prefixed = starts_with(s.as_str(), "sk-") || starts_with(s.as_str(), "AIza") || starts_with(
        s.as_str(),
        "AQ.",
    ) || starts_with(s.as_str(), "gsk_") || starts_with(s.as_str(), "sk-ant") || starts_with(
        s.as_str(),
        "ya29.",
    );
    if prefixed && size > 12 {
        return true;
    }
    size >= 40 && count_alphanumerics(chars, from, to) >= 36
}

/// Appends the characters from `from` up to `to`, which are one token.
fn push_token(out: &mut String, chars: &Vec<char>, from: usize, to: usize)
    requires
        from < to <= chars@.len(),
    ensures
        final(out)@ == old(out)@ + redacted_token(chars@.subrange(from as int, to as int)),
{
    let ghost token = chars@.subrange(from as int, to as int);
    let mut a: usize = from;
    assert(chars@.subrange(a as int, to as int) == token);
    while a < to && at_edge(chars[a])
        invariant
            from <= a <= to <= chars@.len(),
            core_start(chars@.subrange(a as int, to as int)) == core_start(token),
        decreases to - a,
    {
        assert(chars@.subrange(a as int, to as int).skip(1) =~= chars@.subrange(a + 1, to as int));
        a = a + 1;
    }
    let ghost mid = chars@.subrange(a as int, to as int);
    assert(core_start(token) == mid);
    let mut b: usize = to;
    while a < b && at_edge(chars[b - 1])
        invariant
            a <= b <= to <= chars@.len(),
            core_end(chars@.subrange(a as int, b as int)) == core_end(mid),
        decreases b,
    {
        assert(chars@.subrange(a as int, b as int).drop_last() =~= chars@.subrange(
            a as int,
            b - 1,
        ));
        b = b - 1;
    }
    assert(core_of(token) == chars@.subrange(a as int, b as int));
    if looks_like_secret(chars, a, b) {
        out.append("[REDACTED]");
        if ends_token(chars[to - 1]) {
            out.push(chars[to - 1]);
            assert(out@ =~= old(out)@ + "[REDACTED]"@.push(token.last()));
        }
    } else {
        out.append(text_range(chars, from, to).as_str());
    }
}

/// Replaces whatever looks like a secret in a text that is logged.
pub fn redact(text: &str) -> (r: String)
    ensures
        r@ == redacted(text@),
{
    let chars = chars_of(text);
    let mut out: String = String::new();
    let mut i: usize = 0;
    assert(chars@.skip(0) == chars@);
    assert(Seq::<char>::empty() + redacted(text@) == redacted(text@));
    while i < chars.len()
        invariant
            i <= chars@.len(),
            redacted(text@) == out@ + redacted(chars@.skip(i as int)),
        decreases chars@.len() - i,
    {
        let ghost rest = chars@.skip(i as int);
        let ghost before = out@;
        let mut j: usize = i;
        while j < chars.len() && !ends_token(chars[j])
            invariant
                i <= j <= chars@.len(),
                rest == chars@.skip(i as int),
                forall|k: int| 0 <= k < j - i ==> !is_break(#[trigger] rest[k]),
            decreases chars@.len() - j,
        {
            assert(rest[j - i] == chars@[j as int]);
            j = j + 1;
        }
        proof {
            if j < chars@.len() {
                assert(rest[j - i] == chars@[j as int]);
            }
            lemma_next_break_is(rest, 0, j - i);
        }
        if j < chars.len() {
            push_token(&mut out, &chars, i, j + 1);
            proof {
                assert(rest.take(j - i + 1) =~= chars@.subrange(i as int, j + 1));
                assert(rest.skip(j - i + 1) =~= chars@.skip(j + 1));
                assert(before + (redacted_token(rest.take(j - i + 1)) + redacted(
                    chars@.skip(j + 1),
                )) =~= before + redacted_token(rest.take(j - i + 1)) + redacted(chars@.skip(j + 1)));
            }
            i = j + 1;
        } else {
            push_token(&mut out, &chars, i, j);
            proof {
                assert(chars@.subrange(i as int, j as int) =~= rest);
                assert(chars@.skip(j as int).len() == 0);
                assert(redacted(chars@.skip(j as int)) == Seq::<char>::empty());
                assert(out@ + Seq::<char>::empty() =~= out@);
            }
            i = j;
        }
    }
    assert(chars@.skip(i as int).len() == 0);
    assert(redacted(chars@.skip(i as int)) == Seq::<char>::empty());
    assert(out@ + Seq::<char>::empty() =~= out@);
    out
}

proof fn lemma_marker(tail: Seq<char>)
    requires
        tail.len() == 0 || (tail.len() == 1 && is_break(tail[0])),
    ensures
        !is_secret(core_of("[REDACTED]"@ + tail)),
        forall|k: int| 0 <= k < "[REDACTED]"@.len() ==> !is_break(#[trigger] "[REDACTED]"@[k]),
{
    let m = "[REDACTED]"@;
    reveal_strlit("[REDACTED]");
    let t = m + tail;
    assert(t[0] == '[');
    assert(core_start(t) == t);
    if tail.len() == 1 {
        assert(t.last() == tail[0]);
        assert(t.drop_last() =~= m);
    } else {
        assert(t =~= m);
    }
    assert(core_end(m) == m);
    assert(core_of(t) == m);
    vstd::utf8::is_ascii_chars_encode_utf8(m);
    assert(byte_len(m) == 10);
}

/// Whether some token of a text looks like a secret.
pub open spec fn has_secret(s: Seq<char>) -> bool
    decreases s.len(),
    via has_secret_decreases
{
    if s.len() == 0 {
        false
    } else {
        let i = next_break(s, 0);
        if i < s.len() {
            is_secret(core_of(s.take(i + 1))) || has_secret(s.skip(i + 1))
        } else {
            is_secret(core_of(s))
        }
    }
}

#[via_fn]
proof fn has_secret_decreases(s: Seq<char>) {
    if s.len() > 0 {
        lemma_next_break(s, 0);
    }
}

/// Redaction leaves no token that looks like a secret, so that redacting a
/// redacted text changes nothing.
pub proof fn law_redaction_is_final(s: Seq<char>)
    ensures
        !has_secret(redacted(s)),
        redacted(redacted(s)) == redacted(s),
    decreases s.len(),
{
    if s.len() > 0 {
        lemma_next_break(s, 0);
        let i = next_break(s, 0);
        if i < s.len() {
            let token = s.take(i + 1);
            let shown = redacted_token(token);
            let rest = redacted(s.skip(i + 1));
            law_redaction_is_final(s.skip(i + 1));
            lemma_marker(seq![token.last()]);
            assert("[REDACTED]"@ + seq![token.last()] =~= "[REDACTED]"@.push(token.last()));
            assert(redacted_token(shown) == shown);
            let whole = shown + rest;
            assert(is_break(shown.last()));
            assert forall|k: int| 0 <= k < shown.len() - 1 implies !is_break(#[trigger] whole[k]) by {
                if is_secret(core_of(token)) {
                    assert(whole[k] == "[REDACTED]"@[k]);
                } else {
                    assert(whole[k] == s[k]);
                }
            }
            lemma_next_break_is(whole, 0, shown.len() - 1);
            assert(whole.take(shown.len() as int) =~= shown);
            assert(whole.skip(shown.len() as int) =~= rest);
        } else {
            let shown = redacted_token(s);
            lemma_marker(Seq::<char>::empty());
            assert("[REDACTED]"@ + Seq::<char>::empty() =~= "[REDACTED]"@);
            assert forall|k: int| 0 <= k < shown.len() implies !is_break(#[trigger] shown[k]) by {
            }
            assert(!is_break(s.last()));
            lemma_next_break_is(shown, 0, shown.len() as int);
            if shown.len() > 0 {
                assert(redacted_token(shown) == shown);
            }
        }
    }
}

/// A masked secret shows its first and last four characters and no others, and a
/// short one shows nothing: secrets that agree there look the same.
pub proof fn law_masks_hide_the_middle(a: Seq<char>, middle: Seq<char>, other: Seq<char>, b: Seq<char>)
    requires
        a.len() == 4,
        b.len() == 4,
        middle.len() > 2,
        other.len() > 2,
    ensures
        masked(a + middle + b) == a + "..."@ + b,
        masked(a + middle + b) == masked(a + other + b),
        middle.len() <= 10 ==> masked(middle) == "****"@,
{
    let s = a + middle + b;
    let t = a + other + b;
    assert(s.take(4) =~= a);
    assert(s.skip(s.len() - 4) =~= b);
    assert(t.take(4) =~= a);
    assert(t.skip(t.len() - 4) =~= b);
}

/// Bytes are written in two hexadecimal digits each, the high one first, so that
/// different bytes are written differently.
pub proof fn law_hex_tells_bytes_apart(a: Seq<u8>, b: Seq<u8>)
    ensures
        hex_of(a).len() == 2 * a.len(),
        hex_of(a) == hex_of(b) ==> a == b,
        hex_of(a + b) == hex_of(a) + hex_of(b),
{
    assert(hex_of(a + b) =~= hex_of(a) + hex_of(b));
    if hex_of(a) == hex_of(b) {
        assert(a.len() == b.len());
        assert forall|i: int| 0 <= i < a.len() implies a[i] == b[i] by {
            assert(hex_of(a)[2 * i] == hex_digit(a[i] as int / 16));
            assert(hex_of(b)[2 * i] == hex_digit(b[i] as int / 16));
            assert(hex_of(a)[2 * i + 1] == hex_digit(a[i] as int % 16));
            assert(hex_of(b)[2 * i + 1] == hex_digit(b[i] as int % 16));
            lemma_hex_digits(a[i] as int / 16, b[i] as int / 16);
            lemma_hex_digits(a[i] as int % 16, b[i] as int % 16);
        }
        assert(a =~= b);
    }
}

proof fn lemma_hex_digits(x: int, y: int)
    requires
        0 <= x < 16,
        0 <= y < 16,
        hex_digit(x) == hex_digit(y),
    ensures
        x == y,
        hex_digit(x) as u32 == (if x < 10 {
            '0' as u32 + x
        } else {
            'a' as u32 + (x - 10)
        }),
{
    reveal_strlit("0123456789abcdef");
}

/// A hexadecimal digit is the usual one: the figures first, then small letters.
pub proof fn law_hex_digits(x: int)
    requires
        0 <= x < 16,
    ensures
        x < 10 ==> hex_digit(x) as u32 == '0' as u32 + x,
        x >= 10 ==> hex_digit(x) as u32 == 'a' as u32 + (x - 10),
{
    lemma_hex_digits(x, x);
}

/// What was sealed comes back where the parts are whole: the first twelve bytes
/// are the nonce, the rest is opened with it, and anything shorter is refused
/// before it is opened.
pub proof fn law_sealed_secrets_open(
    key: Seq<u8>,
    encoded: Seq<char>,
    nonce: Seq<u8>,
    sealed: Seq<u8>,
    plain: Seq<u8>,
    raw: Seq<u8>,
)
    requires
        nonce.len() == 12,
    ensures
        base64_bytes(encoded) == Ok::<Seq<u8>, Seq<char>>(nonce + sealed) && gcm_opened(
            key,
            nonce,
            sealed,
        ) == Some(plain) && valid_utf8(plain) ==> secret_in(key, encoded) == Ok::<
            Seq<char>,
            CryptoFault,
        >(decode_utf8(plain)),
        base64_bytes(encoded) == Ok::<Seq<u8>, Seq<char>>(nonce + sealed) && gcm_opened(
            key,
            nonce,
            sealed,
        ) is None ==> secret_in(key, encoded) == Err::<Seq<char>, CryptoFault>(
            CryptoFault::DecryptionFailed,
        ),
        base64_bytes(encoded) == Ok::<Seq<u8>, Seq<char>>(raw) && raw.len() < 12 ==> secret_in(
            key,
            encoded,
        ) == Err::<Seq<char>, CryptoFault>(CryptoFault::TooShort),
        base64_bytes(encoded) is Err ==> secret_in(key, encoded) matches Err(
            CryptoFault::InvalidEncoding(_),
        ),
{
    assert((nonce + sealed).take(12) =~= nonce);
    assert((nonce + sealed).skip(12) =~= sealed);
}

/// Space, quotes and the equals sign end a token; commas and braces besides are
/// stripped from its ends. Nothing else of what can be typed does either.
pub proof fn law_tokens_end_at_breaks(c: char)
    requires
        (c as u32) < 128,
    ensures
        is_break(c) <==> is_space(c) || c == '"' || c == '\'' || c == '=',
        is_edge(c) <==> is_break(c) || c == ',' || c == '{' || c == '}',
        'a' <= c <= 'z' || 'A' <= c <= 'Z' || '0' <= c <= '9' || c == '-' || c == '_' || c == '.'
            ==> !is_edge(c),
        is_alphanumeric(c) <==> 'a' <= c <= 'z' || 'A' <= c <= 'Z' || '0' <= c <= '9',
{
}

/// A key of a known kind that is longer than twelve bytes is a secret, and so is
/// whatever has forty bytes and thirty-six letters and figures; shorter texts are
/// not.
pub proof fn law_keys_are_secrets(rest: Seq<char>, s: Seq<char>)
    ensures
        byte_len("sk-"@ + rest) > 12 ==> is_secret("sk-"@ + rest),
        byte_len("AIza"@ + rest) > 12 ==> is_secret("AIza"@ + rest),
        byte_len("AQ."@ + rest) > 12 ==> is_secret("AQ."@ + rest),
        byte_len("gsk_"@ + rest) > 12 ==> is_secret("gsk_"@ + rest),
        byte_len("sk-ant"@ + rest) > 12 ==> is_secret("sk-ant"@ + rest),
        byte_len("ya29."@ + rest) > 12 ==> is_secret("ya29."@ + rest),
        byte_len(s) >= 40 && alphanumerics(s) >= 36 ==> is_secret(s),
        byte_len(s) <= 12 ==> !is_secret(s),
        is_secret(s) && byte_len(s) < 40 ==> has_key_prefix(s),
        has_key_prefix(s) ==> s.len() > 0 && (s[0] == 's' || s[0] == 'A' || s[0] == 'g' || s[0]
            == 'y'),
{
    law_parts_occur(Seq::empty(), "sk-"@, rest);
    law_parts_occur(Seq::empty(), "AIza"@, rest);
    law_parts_occur(Seq::empty(), "AQ."@, rest);
    law_parts_occur(Seq::empty(), "gsk_"@, rest);
    law_parts_occur(Seq::empty(), "sk-ant"@, rest);
    law_parts_occur(Seq::empty(), "ya29."@, rest);
    reveal_strlit("sk-");
    reveal_strlit("AIza");
    reveal_strlit("AQ.");
    reveal_strlit("gsk_");
    reveal_strlit("sk-ant");
    reveal_strlit("ya29.");
    assert("sk-"@[0] == 's' && "AIza"@[0] == 'A' && "AQ."@[0] == 'A' && "gsk_"@[0] == 'g'
        && "sk-ant"@[0] == 's' && "ya29."@[0] == 'y');
    if has_key_prefix(s) {
        assert(s.take(3)[0] == s[0]);
        if begins_with(s, "AIza"@) || begins_with(s, "gsk_"@) {
            assert(s.take(4)[0] == s[0]);
        } else if begins_with(s, "ya29."@) {
            assert(s.take(5)[0] == s[0]);
        } else if begins_with(s, "sk-ant"@) {
            assert(s.take(6)[0] == s[0]);
        }
    }
}

/// Every token is judged on its own: a text is redacted up to a break and from
/// there on, a secret gives way to the marker, and anything else stays as it is.
pub proof fn law_tokens_are_redacted_one_by_one(token: Seq<char>, c: char, rest: Seq<char>)
    requires
        forall|k: int| 0 <= k < token.len() ==> !is_break(#[trigger] token[k]),
        is_break(c),
    ensures
        is_secret(core_of(token.push(c))) ==> redacted(token.push(c) + rest)
            == "[REDACTED]"@.push(c) + redacted(rest),
        !is_secret(core_of(token.push(c))) ==> redacted(token.push(c) + rest) == token.push(c)
            + redacted(rest),
        token.len() > 0 && is_secret(core_of(token)) ==> redacted(token) == "[REDACTED]"@,
        !is_secret(core_of(token)) ==> redacted(token) == token,
{
    let s = token.push(c) + rest;
    let n = token.len() as int;
    assert forall|k: int| 0 <= k < n implies !is_break(#[trigger] s[k]) by {
        assert(s[k] == token[k]);
    }
    assert(s[n] == c);
    lemma_next_break_is(s, 0, n);
    assert(s.take(n + 1) =~= token.push(c));
    assert(s.skip(n + 1) =~= rest);
    lemma_next_break_is(token, 0, n);
    if n > 0 {
        assert(!is_break(token[n - 1]));
    }
}

/// The core of a token is the token without what surrounds it: nothing is taken
/// from within, and nothing that belongs to it.
pub proof fn law_cores_lose_only_their_edges(before: Seq<char>, s: Seq<char>, behind: Seq<char>)
    requires
        s.len() > 0,
        !is_edge(s[0]),
        !is_edge(s.last()),
        forall|k: int| 0 <= k < before.len() ==> is_edge(#[trigger] before[k]),
        forall|k: int| 0 <= k < behind.len() ==> is_edge(#[trigger] behind[k]),
    ensures
        core_of(before + s + behind) == s,
{
    lemma_core_start(before, s + behind);
    assert(before + s + behind =~= before + (s + behind));
    lemma_core_end(s, behind);
}

proof fn lemma_core_start(before: Seq<char>, s: Seq<char>)
    requires
        s.len() > 0,
        !is_edge(s[0]),
        forall|k: int| 0 <= k < before.len() ==> is_edge(#[trigger] before[k]),
    ensures
        core_start(before + s) == s,
    decreases before.len(),
{
    if before.len() == 0 {
        assert(before + s =~= s);
    } else {
        assert((before + s)[0] == before[0]);
        assert((before + s).skip(1) =~= before.skip(1) + s);
        lemma_core_start(before.skip(1), s);
    }
}

proof fn lemma_core_end(s: Seq<char>, behind: Seq<char>)
    requires
        s.len() > 0,
        !is_edge(s.last()),
        forall|k: int| 0 <= k < behind.len() ==> is_edge(#[trigger] behind[k]),
    ensures
        core_end(s + behind) == s,
    decreases behind.len(),
{
    if behind.len() == 0 {
        assert(s + behind =~= s);
    } else {
        assert((s + behind).last() == behind.last());
        assert((s + behind).drop_last() =~= s + behind.drop_last());
        lemma_core_end(s, behind.drop_last());
    }
}

/// A text holds a secret where any token of it is one: up to a break, or behind
/// it.
pub proof fn law_one_secret_token_is_enough(token: Seq<char>, c: char, rest: Seq<char>)
    requires
        forall|k: int| 0 <= k < token.len() ==> !is_break(#[trigger] token[k]),
        is_break(c),
    ensures
        has_secret(token.push(c) + rest) <==> is_secret(core_of(token.push(c))) || has_secret(rest),
        token.len() > 0 ==> (has_secret(token) <==> is_secret(core_of(token))),
        !has_secret(Seq::empty()),
{
    let s = token.push(c) + rest;
    let n = token.len() as int;
    assert forall|k: int| 0 <= k < n implies !is_break(#[trigger] s[k]) by {
        assert(s[k] == token[k]);
    }
    assert(s[n] == c);
    lemma_next_break_is(s, 0, n);
    assert(s.take(n + 1) =~= token.push(c));
    assert(s.skip(n + 1) =~= rest);
    lemma_next_break_is(token, 0, n);
}

} // verus!

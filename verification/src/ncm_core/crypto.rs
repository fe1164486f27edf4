//! The two ways in which requests are sealed.

use base64::Engine;
use cipher::{BlockDecryptMut, BlockEncryptMut, KeyInit, KeyIvInit};
use md5::Digest;
use vstd::arithmetic::power::{lemma_pow0, lemma_pow1, lemma_pow_adds, pow};
use vstd::prelude::*;
use vstd::utf8::encode_utf8;

use crate::text::{chars_of, string_of, take_chars, skip_chars};

verus! {

/// The first key of the web seal: `0CoJUm6Qyw8W8jud`.
pub const WEAPI_AES_KEY: [u8; 16] = [
    0x30, 0x43, 0x6f, 0x4a, 0x55, 0x6d, 0x36, 0x51, 0x79, 0x77, 0x38, 0x57, 0x38, 0x6a, 0x75, 0x64,
];

/// The start value of the web seal: `0102030405060708`.
pub const WEAPI_AES_IV: [u8; 16] = [
    0x30, 0x31, 0x30, 0x32, 0x30, 0x33, 0x30, 0x34, 0x30, 0x35, 0x30, 0x36, 0x30, 0x37, 0x30, 0x38,
];

/// The key of the desktop seal: `e82ckenh8dichen8`.
pub const EAPI_AES_KEY: [u8; 16] = [
    0x65, 0x38, 0x32, 0x63, 0x6b, 0x65, 0x6e, 0x68, 0x38, 0x64, 0x69, 0x63, 0x68, 0x65, 0x6e, 0x38,
];

/// What stands between the parts of a message with the desktop seal.
pub const EAPI_DELIMITER: &'static str = "-36cd479b6b5-";

/// The modulus to which the secret of the web seal is encrypted, in four parts.
pub const WEAPI_RSA_MODULUS_1: &'static str = "00e0b509f6259df8642dbc35662901477df22677ec152b5ff68ace615bb7b725152";

pub const WEAPI_RSA_MODULUS_2: &'static str = "b3ab17a876aea8a5aa76d2e417629ec4ee341f56135fccf695280104e0312ecbda";

pub const WEAPI_RSA_MODULUS_3: &'static str = "92557c93870114af6c9d05c4f7f0c3685b7a46bee255932575cce10b424d813cfe";

pub const WEAPI_RSA_MODULUS_4: &'static str = "4875d3e82047b97ddef52741d546b8e289dc6935b3ece0462db0a22b8e7";

/// The exponent to which the secret of the web seal is encrypted.
pub const WEAPI_RSA_EXPONENT: &'static str = "10001";

#[derive(Clone, Copy, Debug, PartialEq, Eq, Structural)]
pub enum CryptoError {
    /// A key must be exactly sixteen bytes long.
    InvalidKeyLength,
    /// The length or the padding of a sealed message is wrong.
    InvalidPadding,
    /// A built-in number is not one; no function of the library reports this.
    InvalidRsaParameter,
}

impl CryptoError {
    /// The error in words.
    pub fn message(&self) -> (r: &'static str)
        ensures
            r@ == match *self {
                CryptoError::InvalidKeyLength => "AES key must be exactly 16 bytes"@,
                CryptoError::InvalidPadding => "AES padding or block length is invalid"@,
                CryptoError::InvalidRsaParameter => "invalid built-in RSA parameter"@,
            },
    {
        match self {
            CryptoError::InvalidKeyLength => "AES key must be exactly 16 bytes",
            CryptoError::InvalidPadding => "AES padding or block length is invalid",
            CryptoError::InvalidRsaParameter => "invalid built-in RSA parameter",
        }
    }
}

#[derive(Clone, Debug, PartialEq, Eq)]
pub struct WeapiForm {
    pub params: String,
    pub enc_sec_key: String,
}

// What is done outside.

/// What AES-128 in CBC mode with PKCS#7 padding makes of a message, a key and a start value.
pub uninterp spec fn aes_cbc(message: Seq<u8>, key: Seq<u8>, iv: Seq<u8>) -> Seq<u8>;

/// What AES-128 in ECB mode with PKCS#7 padding makes of a message and a key.
pub uninterp spec fn aes_ecb(message: Seq<u8>, key: Seq<u8>) -> Seq<u8>;

/// What AES-128 in ECB mode with PKCS#7 padding makes of a sealed message and a
/// key: nothing where the length or the padding is wrong.
pub uninterp spec fn aes_ecb_opened(sealed: Seq<u8>, key: Seq<u8>) -> Option<Seq<u8>>;

/// What MD5 makes of bytes.
pub uninterp spec fn md5_digest(bytes: Seq<u8>) -> Seq<u8>;

/// `BlockEncryptMut::encrypt_padded_vec_mut` of `cbc::Encryptor<aes::Aes128>`
/// with PKCS#7 padding: the sealed message, which depends on the message, the
/// key and the start value alone, and which fills the next whole block.
#[verifier::external_body]
fn encrypt_cbc(message: &[u8], key: &[u8], iv: &[u8]) -> (r: Vec<u8>)
    requires
        key@.len() == 16,
        iv@.len() == 16,
    ensures
        r@ == aes_cbc(message@, key@, iv@),
        r@.len() == (message@.len() / 16 + 1) * 16,
{
    let cipher = cbc::Encryptor::<aes::Aes128>::new_from_slices(key, iv).unwrap();
    cipher.encrypt_padded_vec_mut::<cipher::block_padding::Pkcs7>(message)
}

/// `BlockEncryptMut::encrypt_padded_vec_mut` of `ecb::Encryptor<aes::Aes128>`
/// with PKCS#7 padding: the sealed message, which depends on the message and
/// the key alone, which fills the next whole block, and which opens to the
/// message again.
#[verifier::external_body]
fn encrypt_ecb(message: &[u8], key: &[u8]) -> (r: Vec<u8>)
    requires
        key@.len() == 16,
    ensures
        r@ == aes_ecb(message@, key@),
        r@.len() == (message@.len() / 16 + 1) * 16,
        aes_ecb_opened(r@, key@) == Some(message@),
{
    let cipher = ecb::Encryptor::<aes::Aes128>::new_from_slice(key).unwrap();
    cipher.encrypt_padded_vec_mut::<cipher::block_padding::Pkcs7>(message)
}

/// `BlockDecryptMut::decrypt_padded_vec_mut` of `ecb::Decryptor<aes::Aes128>`
/// with PKCS#7 padding: the message, or nothing where the length or the padding
/// is wrong, which depends on the sealed message and the key alone.
#[verifier::external_body]
fn decrypt_ecb(sealed: &[u8], key: &[u8]) -> (r: Option<Vec<u8>>)
    requires
        key@.len() == 16,
    ensures
        match r {
            Some(message) => aes_ecb_opened(sealed@, key@) == Some(message@),
            None => aes_ecb_opened(sealed@, key@) is None,
        },
{
    let cipher = ecb::Decryptor::<aes::Aes128>::new_from_slice(key).unwrap();
    cipher.decrypt_padded_vec_mut::<cipher::block_padding::Pkcs7>(sealed).ok()
}

/// The digits of base64, by their values.
pub const BASE64_ALPHABET: &'static str = "ABCDEFGHIJKLMNOPQRSTUVWXYZabcdefghijklmnopqrstuvwxyz0123456789+/";

/// The digit of base64 with a value.
pub open spec fn base64_digit(n: int) -> char {
    BASE64_ALPHABET@[n]
}

/// Bytes in base64: four digits for three bytes, of six bits each, and `=` in
/// place of the digits that would hold no bit of the last one or two bytes.
pub open spec fn base64_text(bytes: Seq<u8>) -> Seq<char>
    decreases bytes.len(),
{
    if bytes.len() == 0 {
        seq![]
    } else if bytes.len() == 1 {
        seq![base64_digit(bytes[0] as int / 4), base64_digit(bytes[0] as int % 4 * 16), '=', '=']
    } else if bytes.len() == 2 {
        seq![
            base64_digit(bytes[0] as int / 4),
            base64_digit(bytes[0] as int % 4 * 16 + bytes[1] as int / 16),
            base64_digit(bytes[1] as int % 16 * 4),
            '=',
        ]
    } else {
        seq![
            base64_digit(bytes[0] as int / 4),
            base64_digit(bytes[0] as int % 4 * 16 + bytes[1] as int / 16),
            base64_digit(bytes[1] as int % 16 * 4 + bytes[2] as int / 64),
            base64_digit(bytes[2] as int % 64),
        ] + base64_text(bytes.skip(3))
    }
}

/// `Engine::encode` of `base64::engine::general_purpose::STANDARD`: the bytes in
/// base64, in the standard alphabet and with padding.
#[verifier::external_body]
fn encode_base64(bytes: &[u8]) -> (r: String)
    ensures
        r@ == base64_text(bytes@),
{
    base64::engine::general_purpose::STANDARD.encode(bytes)
}

/// `md5::Md5::digest`: sixteen bytes, which depend on the message alone.
#[verifier::external_body]
fn digest_md5(message: &[u8]) -> (r: Vec<u8>)
    ensures
        r@ == md5_digest(message@),
        r@.len() == 16,
{
    md5::Md5::digest(message).to_vec()
}

pub open spec fn hex_digit(n: nat) -> char {
    if n == 0 { '0' } else if n == 1 { '1' } else if n == 2 { '2' } else if n == 3 { '3' }
    else if n == 4 { '4' } else if n == 5 { '5' } else if n == 6 { '6' } else if n == 7 { '7' }
    else if n == 8 { '8' } else if n == 9 { '9' } else if n == 10 { 'a' } else if n == 11 { 'b' }
    else if n == 12 { 'c' } else if n == 13 { 'd' } else if n == 14 { 'e' } else { 'f' }
}

/// Bytes in hexadecimal: two lower-case digits for each.
pub open spec fn hex_text(bytes: Seq<u8>) -> Seq<char> {
    Seq::new(
        2 * bytes.len(),
        |i: int| hex_digit(if i % 2 == 0 { (bytes[i / 2] / 16) as nat } else { (bytes[i / 2] % 16) as nat }),
    )
}

/// `hex::encode`: two lower-case hexadecimal digits for each byte.
#[verifier::external_body]
fn encode_hex(bytes: &[u8]) -> (r: String)
    ensures
        r@ == hex_text(bytes@),
{
    hex::encode(bytes)
}

pub open spec fn is_hex_digit(c: char) -> bool {
    ('0' <= c <= '9') || ('a' <= c <= 'f')
}

pub open spec fn hex_digit_value(c: char) -> nat {
    if '0' <= c <= '9' {
        (c as int - '0' as int) as nat
    } else {
        (c as int - 'a' as int + 10) as nat
    }
}

pub open spec fn is_hex(s: Seq<char>) -> bool {
    s.len() > 0 && forall|i: int| 0 <= i < s.len() ==> is_hex_digit(#[trigger] s[i])
}

/// The number that hexadecimal digits stand for.
pub open spec fn hex_value(s: Seq<char>) -> nat
    decreases s.len(),
{
    if s.len() == 0 {
        0
    } else {
        hex_value(s.drop_last()) * 16 + hex_digit_value(s.last())
    }
}

/// The number that bytes stand for, the most significant first.
pub open spec fn bytes_value(s: Seq<u8>) -> nat
    decreases s.len(),
{
    if s.len() == 0 {
        0
    } else {
        bytes_value(s.drop_last()) * 256 + s.last() as nat
    }
}

/// A number's hexadecimal digits, without leading zeros.
pub open spec fn hex_of(n: nat) -> Seq<char>
    decreases n,
{
    if n < 16 {
        seq![hex_digit(n)]
    } else {
        hex_of(n / 16).push(hex_digit(n % 16))
    }
}

/// `num_bigint::BigUint::modpow`: the power of a number modulo another, with the
/// base as bytes, the most significant first, and the other numbers and the
/// result in hexadecimal digits.
#[verifier::external_body]
fn modpow(base: &[u8], exponent: &str, modulus: &str) -> (r: String)
    requires
        is_hex(exponent@),
        is_hex(modulus@),
        hex_value(modulus@) > 1,
    ensures
        r@ == hex_of((pow(bytes_value(base@) as int, hex_value(exponent@)) % (hex_value(modulus@) as int)) as nat),
{
    let message = num_bigint::BigUint::from_bytes_be(base);
    let exponent = num_bigint::BigUint::parse_bytes(exponent.as_bytes(), 16).unwrap();
    let modulus = num_bigint::BigUint::parse_bytes(modulus.as_bytes(), 16).unwrap();
    message.modpow(&exponent, &modulus).to_str_radix(16)
}

// The web seal.

/// A text in lines of 76 characters, each ended.
pub open spec fn wrapped(s: Seq<char>) -> Seq<char>
    decreases s.len(),
{
    if s.len() == 0 {
        s
    } else if s.len() <= 76 {
        s.push('\n')
    } else {
        s.take(76).push('\n') + wrapped(s.skip(76))
    }
}

/// Breaks a text into lines of 76 characters, and ends each.
pub fn wrap_lines(text: &str) -> (r: String)
    ensures
        r@ == wrapped(text@),
{
    let chars = chars_of(text);
    let mut out: String = String::new();
    let mut rest: &[char] = chars.as_slice();
    proof {
        assert(out@ + wrapped(rest@) =~= wrapped(text@));
    }
    while rest.len() > 76
        invariant
            out@ + wrapped(rest@) == wrapped(text@),
        decreases rest@.len(),
    {
        let line = take_chars(rest, 76);
        let next = skip_chars(rest, 76);
        let ghost held = out@;
        out.append(string_of(line).as_str());
        out.push('\n');
        proof {
            assert(held + (line@.push('\n') + wrapped(next@)) =~= out@ + wrapped(next@));
        }
        rest = next;
    }
    if rest.len() > 0 {
        let ghost held = out@;
        out.append(string_of(rest).as_str());
        out.push('\n');
        proof {
            assert(held + rest@.push('\n') =~= out@);
        }
    } else {
        proof {
            assert(out@ + rest@ =~= out@);
        }
    }
    out
}

/// Bytes in base64, in lines of 76 characters, each ended.
pub fn python_base64_encodebytes(input: &[u8]) -> (r: String)
    ensures
        r@ == wrapped(base64_text(input@)),
{
    wrap_lines(encode_base64(input).as_str())
}

/// A text with zeros before it up to a length of 256.
pub open spec fn padded_key(s: Seq<char>) -> Seq<char> {
    crate::text::zero_padded(s, 256)
}

/// Puts zeros before a key up to a length of 256.
pub fn pad_key(key: &str) -> (r: String)
    ensures
        r@ == padded_key(key@),
{
    let length: usize = key.unicode_len();
    let mut out: String = String::new();
    let mut i: usize = length;
    while i < 256
        invariant
            length <= i,
            i <= 256 || i == length,
            out@ == Seq::new((i - length) as nat, |k: int| '0'),
        decreases 256 - i,
    {
        out.push('0');
        proof {
            assert(out@ =~= Seq::new((i + 1 - length) as nat, |k: int| '0'));
        }
        i += 1;
    }
    out.append(key);
    proof {
        if length >= 256 {
            assert(out@ =~= key@);
        }
    }
    out
}

/// The modulus to which the secret of the web seal is encrypted.
pub open spec fn rsa_modulus_of() -> Seq<char> {
    WEAPI_RSA_MODULUS_1@ + WEAPI_RSA_MODULUS_2@ + WEAPI_RSA_MODULUS_3@ + WEAPI_RSA_MODULUS_4@
}

fn rsa_modulus() -> (r: String)
    ensures
        r@ == rsa_modulus_of(),
{
    let mut out: String = WEAPI_RSA_MODULUS_1.to_owned();
    out.append(WEAPI_RSA_MODULUS_2);
    out.append(WEAPI_RSA_MODULUS_3);
    out.append(WEAPI_RSA_MODULUS_4);
    out
}

/// The secret of the web seal as it is sent: its characters in reverse, as a
/// number, to the exponent and modulo the modulus.
pub open spec fn sealed_secret(secret: Seq<char>) -> Seq<char> {
    padded_key(
        hex_of(
            (pow(bytes_value(encode_utf8(secret.reverse())) as int, hex_value(WEAPI_RSA_EXPONENT@)) % (hex_value(
                rsa_modulus_of(),
            ) as int)) as nat,
        ),
    )
}

fn reversed(s: &str) -> (r: String)
    ensures
        r@ == s@.reverse(),
{
    let chars = chars_of(s);
    let mut out: String = String::new();
    let mut n: usize = chars.len();
    proof {
        assert(out@ =~= chars@.skip(n as int).reverse());
    }
    while n > 0
        invariant
            n <= chars@.len(),
            out@ == chars@.skip(n as int).reverse(),
        decreases n,
    {
        out.push(chars[n - 1]);
        proof {
            assert(chars@.skip(n - 1).reverse() =~= chars@.skip(n as int).reverse().push(chars@[n - 1]));
        }
        n -= 1;
    }
    proof {
        assert(chars@.skip(0) =~= chars@);
    }
    out
}

/// Whether the built-in numbers of the web seal are numbers.
pub open spec fn rsa_parameters_valid() -> bool {
    is_hex(WEAPI_RSA_EXPONENT@) && hex_value(WEAPI_RSA_EXPONENT@) > 1 && is_hex(rsa_modulus_of()) && hex_value(
        rsa_modulus_of(),
    ) > 1
}

fn weapi_rsa_encrypt(secret_key: &str) -> (r: String)
    ensures
        r@ == sealed_secret(secret_key@),
{
    let modulus = rsa_modulus();
    proof {
        lemma_rsa_parameters_valid();
    }
    let backwards = reversed(secret_key);
    let power = modpow(backwards.as_str().as_bytes(), WEAPI_RSA_EXPONENT, modulus.as_str());
    pad_key(power.as_str())
}

/// The message of the web seal: sealed twice, with the built-in key and with the secret.
pub open spec fn sealed_params(plaintext: Seq<char>, secret: Seq<char>) -> Seq<char> {
    let first = wrapped(base64_text(aes_cbc(encode_utf8(plaintext), WEAPI_AES_KEY@, WEAPI_AES_IV@)));
    wrapped(base64_text(aes_cbc(encode_utf8(first), encode_utf8(secret), WEAPI_AES_IV@)))
}

/// Seals a message for the web interface with a secret of sixteen bytes.
pub fn weapi_encrypt(plaintext_json: &str, secret_key: &str) -> (r: Result<WeapiForm, CryptoError>)
    ensures
        match r {
            Ok(form) => encode_utf8(secret_key@).len() == 16 && form.params@ == sealed_params(
                plaintext_json@,
                secret_key@,
            ) && form.enc_sec_key@ == sealed_secret(secret_key@) && form.params@.len() > 0
                && form.enc_sec_key@.len() == 256 && is_hex(form.enc_sec_key@),
            Err(error) => encode_utf8(secret_key@).len() != 16 && error == CryptoError::InvalidKeyLength,
        },
{
    let secret = secret_key.as_bytes();
    if secret.len() != 16 {
        return Err(CryptoError::InvalidKeyLength);
    }
    let first_key = WEAPI_AES_KEY;
    let iv = WEAPI_AES_IV;
    let first_cipher = encrypt_cbc(plaintext_json.as_bytes(), first_key.as_slice(), iv.as_slice());
    let first_base64 = python_base64_encodebytes(first_cipher.as_slice());
    let second_cipher = encrypt_cbc(first_base64.as_str().as_bytes(), secret, iv.as_slice());
    let params = python_base64_encodebytes(second_cipher.as_slice());
    proof {
        lemma_base64_text(second_cipher@);
        lemma_wrapped(base64_text(second_cipher@));
        lemma_sealed_secret(secret_key@);
    }
    Ok(WeapiForm { params, enc_sec_key: weapi_rsa_encrypt(secret_key) })
}

// The desktop seal.

/// What the digest of a message is taken of.
pub open spec fn eapi_signed(path: Seq<char>, payload: Seq<char>) -> Seq<char> {
    "nobody"@ + path + "use"@ + payload + "md5forencrypt"@
}

/// A message with its path and its digest.
pub open spec fn eapi_framed(path: Seq<char>, payload: Seq<char>, digest: Seq<char>) -> Seq<char> {
    path + EAPI_DELIMITER@ + payload + EAPI_DELIMITER@ + digest
}

/// The text that the desktop seal closes: path, message and digest.
pub open spec fn eapi_plaintext(path: Seq<char>, payload: Seq<char>) -> Seq<char> {
    eapi_framed(path, payload, hex_text(md5_digest(encode_utf8(eapi_signed(path, payload)))))
}

/// A message with its path and its digest.
pub fn eapi_frame(api_path: &str, payload_json: &str, digest: &str) -> (r: String)
    ensures
        r@ == eapi_framed(api_path@, payload_json@, digest@),
{
    let mut out: String = api_path.to_owned();
    out.append(EAPI_DELIMITER);
    out.append(payload_json);
    out.append(EAPI_DELIMITER);
    out.append(digest);
    out
}

/// Seals a message for the desktop interface, in hexadecimal digits, of which
/// there are 32 for each block. What is sealed opens again to the path, the
/// message and their digest.
pub fn eapi_encrypt(api_path: &str, payload_json: &str) -> (r: Result<String, CryptoError>)
    ensures
        r is Ok,
        r->Ok_0@ == hex_text(aes_ecb(encode_utf8(eapi_plaintext(api_path@, payload_json@)), EAPI_AES_KEY@)),
        aes_ecb_opened(
            aes_ecb(encode_utf8(eapi_plaintext(api_path@, payload_json@)), EAPI_AES_KEY@),
            EAPI_AES_KEY@,
        ) == Some(encode_utf8(eapi_plaintext(api_path@, payload_json@))),
        is_hex(r->Ok_0@),
        r->Ok_0@.len() == (encode_utf8(eapi_plaintext(api_path@, payload_json@)).len() / 16 + 1) * 32,
        r->Ok_0@.len() > 0 && r->Ok_0@.len() % 32 == 0,
{
    let mut signed: String = "nobody".to_owned();
    signed.append(api_path);
    signed.append("use");
    signed.append(payload_json);
    signed.append("md5forencrypt");
    let digest = encode_hex(digest_md5(signed.as_str().as_bytes()).as_slice());
    let plaintext = eapi_frame(api_path, payload_json, digest.as_str());
    let key = EAPI_AES_KEY;
    let sealed = encrypt_ecb(plaintext.as_str().as_bytes(), key.as_slice());
    proof {
        lemma_hex_text(sealed@);
    }
    Ok(encode_hex(sealed.as_slice()))
}

/// Opens a message with the desktop seal.
pub fn eapi_decrypt(ciphertext: &[u8]) -> (r: Result<Vec<u8>, CryptoError>)
    ensures
        match r {
            Ok(message) => aes_ecb_opened(ciphertext@, EAPI_AES_KEY@) == Some(message@),
            Err(error) => aes_ecb_opened(ciphertext@, EAPI_AES_KEY@) is None && error == CryptoError::InvalidPadding,
        },
{
    let key = EAPI_AES_KEY;
    match decrypt_ecb(ciphertext, key.as_slice()) {
        Some(message) => Ok(message),
        None => Err(CryptoError::InvalidPadding),
    }
}

// Laws.

proof fn lemma_hex_text(bytes: Seq<u8>)
    requires
        bytes.len() > 0,
    ensures
        is_hex(hex_text(bytes)),
        hex_text(bytes).len() == 2 * bytes.len(),
{
    let s = hex_text(bytes);
    assert forall|i: int| 0 <= i < s.len() implies is_hex_digit(#[trigger] s[i]) by {
        let byte = bytes[i / 2];
        assert(byte / 16 < 16 && byte % 16 < 16);
    }
}

/// Bytes can be told from their hexadecimal digits.
pub proof fn lemma_hex_text_injective(a: Seq<u8>, b: Seq<u8>)
    requires
        hex_text(a) == hex_text(b),
    ensures
        a == b,
{
    assert(hex_text(a).len() == hex_text(b).len());
    assert(hex_text(a).len() == 2 * a.len() && hex_text(b).len() == 2 * b.len());
    assert forall|i: int| 0 <= i < a.len() implies a[i] == b[i] by {
        let high = hex_text(a)[2 * i];
        let low = hex_text(a)[2 * i + 1];
        assert(high == hex_digit((a[i] / 16) as nat) && high == hex_text(b)[2 * i]);
        assert(low == hex_digit((a[i] % 16) as nat) && low == hex_text(b)[2 * i + 1]);
        assert(hex_text(b)[2 * i] == hex_digit((b[i] / 16) as nat));
        assert(hex_text(b)[2 * i + 1] == hex_digit((b[i] % 16) as nat));
        lemma_hex_digit((a[i] / 16) as nat, (b[i] / 16) as nat);
        lemma_hex_digit((a[i] % 16) as nat, (b[i] % 16) as nat);
    }
    assert(a =~= b);
}

proof fn lemma_hex_digit(a: nat, b: nat)
    requires
        a < 16,
        b < 16,
        hex_digit(a) == hex_digit(b),
    ensures
        a == b,
{
}

/// A text is broken into lines of 76 characters, of which only the last may be
/// shorter, each of them is ended, and nothing else is added or lost.
pub proof fn lemma_wrapped(s: Seq<char>)
    requires
        !s.contains('\n'),
        s.len() > 0,
    ensures
        wrapped(s).len() == s.len() + (s.len() + 75) / 76,
        forall|i: int|
            0 <= i < wrapped(s).len() ==> ((#[trigger] wrapped(s)[i]) == '\n' <==> i % 77 == 76 || i == wrapped(s).len()
                - 1),
        forall|i: int|
            0 <= i < wrapped(s).len() && (#[trigger] wrapped(s)[i]) != '\n' ==> wrapped(s)[i] == s[i - i / 77],
    decreases s.len(),
{
    let w = wrapped(s);
    if s.len() > 76 {
        let t = s.skip(76);
        let rest = wrapped(t);
        assert(!t.contains('\n')) by {
            if t.contains('\n') {
                let k = choose|k: int| 0 <= k < t.len() && t[k] == '\n';
                assert(s[k + 76] == '\n');
            }
        }
        lemma_wrapped(t);
        assert forall|i: int| 0 <= i < w.len() implies {
            &&& (#[trigger] w[i]) == '\n' <==> i % 77 == 76 || i == w.len() - 1
            &&& w[i] != '\n' ==> w[i] == s[i - i / 77]
        } by {
            if i < 76 {
                assert(w[i] == s[i]);
            } else if i > 76 {
                assert(w[i] == rest[i - 77]);
                assert((i - 77) % 77 == i % 77);
                assert((i - 77) / 77 == i / 77 - 1);
                if w[i] != '\n' {
                    let k = i - 77 - (i - 77) / 77;
                    assert(rest[i - 77] == t[k]);
                }
            }
        }
    } else {
        assert forall|i: int| 0 <= i < w.len() implies {
            &&& (#[trigger] w[i]) == '\n' <==> i % 77 == 76 || i == w.len() - 1
            &&& w[i] != '\n' ==> w[i] == s[i - i / 77]
        } by {
            if i < s.len() {
                assert(w[i] == s[i]);
            }
        }
    }
}

/// A character that base64 is written with.
pub open spec fn is_base64_char(c: char) -> bool {
    ('A' <= c <= 'Z') || ('a' <= c <= 'z') || ('0' <= c <= '9') || c == '+' || c == '/' || c == '='
}

spec fn base64_from(s: Seq<char>, i: int) -> bool
    decreases s.len() - i,
{
    i < 0 || i >= s.len() || (is_base64_char(s[i]) && base64_from(s, i + 1))
}

proof fn lemma_base64_from(s: Seq<char>, i: int)
    requires
        0 <= i,
        base64_from(s, i),
    ensures
        forall|j: int| i <= j < s.len() ==> is_base64_char(#[trigger] s[j]),
    decreases s.len() - i,
{
    if i < s.len() {
        lemma_base64_from(s, i + 1);
    }
}

proof fn lemma_base64_digit()
    ensures
        forall|n: int| 0 <= n < 64 ==> is_base64_char(#[trigger] base64_digit(n)),
{
    reveal_strlit("ABCDEFGHIJKLMNOPQRSTUVWXYZabcdefghijklmnopqrstuvwxyz0123456789+/");
    let s = BASE64_ALPHABET@;
    assert(base64_from(s, 0)) by {
        reveal_with_fuel(base64_from, 66);
    }
    lemma_base64_from(s, 0);
}

/// Base64 has four characters for each three bytes or part of them, all out of
/// its alphabet.
pub proof fn lemma_base64_text(bytes: Seq<u8>)
    ensures
        base64_text(bytes).len() == (bytes.len() + 2) / 3 * 4,
        forall|i: int| 0 <= i < base64_text(bytes).len() ==> is_base64_char(#[trigger] base64_text(bytes)[i]),
        !base64_text(bytes).contains('\n'),
    decreases bytes.len(),
{
    lemma_base64_digit();
    let text = base64_text(bytes);
    if bytes.len() >= 3 {
        let rest = base64_text(bytes.skip(3));
        lemma_base64_text(bytes.skip(3));
        assert forall|i: int| 0 <= i < text.len() implies is_base64_char(#[trigger] text[i]) by {
            if i >= 4 {
                assert(text[i] == rest[i - 4]);
            }
        }
    }
}

/// The message of the web seal is sent in base64, in lines of 76 characters, of
/// which only the last may be shorter, each of them ended.
pub proof fn lemma_sealed_params(plaintext: Seq<char>, secret: Seq<char>)
    ensures
        forall|i: int|
            0 <= i < sealed_params(plaintext, secret).len() ==> {
                let c = #[trigger] sealed_params(plaintext, secret)[i];
                if i % 77 == 76 || i == sealed_params(plaintext, secret).len() - 1 {
                    c == '\n'
                } else {
                    is_base64_char(c)
                }
            },
{
    let first = wrapped(base64_text(aes_cbc(encode_utf8(plaintext), WEAPI_AES_KEY@, WEAPI_AES_IV@)));
    let sealed = aes_cbc(encode_utf8(first), encode_utf8(secret), WEAPI_AES_IV@);
    let text = base64_text(sealed);
    let params = wrapped(text);
    lemma_base64_text(sealed);
    if text.len() > 0 {
        lemma_wrapped(text);
        assert forall|i: int| 0 <= i < params.len() implies {
            let c = #[trigger] params[i];
            if i % 77 == 76 || i == params.len() - 1 {
                c == '\n'
            } else {
                is_base64_char(c)
            }
        } by {
            let k = i - i / 77;
            if params[i] != '\n' {
                assert(params[i] == text[k]);
                assert(0 <= k < text.len());
            }
        }
    }
}

proof fn lemma_hex_of(n: nat, digits: nat)
    requires
        digits > 0,
        n < pow(16, digits),
    ensures
        0 < hex_of(n).len() <= digits,
        forall|i: int| 0 <= i < hex_of(n).len() ==> is_hex_digit(#[trigger] hex_of(n)[i]),
    decreases digits,
{
    if n >= 16 {
        let fewer = (digits - 1) as nat;
        lemma_pow1(16);
        lemma_pow_adds(16, 1, fewer);
        lemma_pow0(16);
        lemma_hex_of(n / 16, fewer);
        let s = hex_of(n);
        assert forall|i: int| 0 <= i < s.len() implies is_hex_digit(#[trigger] s[i]) by {
            if i < s.len() - 1 {
                assert(s[i] == hex_of(n / 16)[i]);
            }
        }
    }
}

proof fn lemma_hex_value_bound(s: Seq<char>)
    requires
        forall|i: int| 0 <= i < s.len() ==> is_hex_digit(#[trigger] s[i]),
    ensures
        hex_value(s) < pow(16, s.len()),
    decreases s.len(),
{
    lemma_pow0(16);
    if s.len() > 0 {
        lemma_hex_value_bound(s.drop_last());
        lemma_pow1(16);
        lemma_pow_adds(16, 1, (s.len() - 1) as nat);
    }
}

proof fn lemma_hex_value_leading_zero(s: Seq<char>)
    requires
        s.len() > 0,
        s[0] == '0',
    ensures
        hex_value(s) == hex_value(s.skip(1)),
    decreases s.len(),
{
    if s.len() == 1 {
        assert(s.skip(1) =~= seq![]);
        assert(s.drop_last() =~= seq![]);
        assert(hex_value(seq![]) == 0);
    } else {
        lemma_hex_value_leading_zero(s.drop_last());
        assert(s.drop_last().skip(1) =~= s.skip(1).drop_last());
    }
}

/// The secret is sent as exactly 256 lower-case hexadecimal digits.
pub proof fn lemma_sealed_secret(secret: Seq<char>)
    ensures
        sealed_secret(secret).len() == 256,
        forall|i: int| 0 <= i < 256 ==> is_hex_digit(#[trigger] sealed_secret(secret)[i]),
{
    let modulus = rsa_modulus_of();
    lemma_rsa_parameters_valid();
    lemma_modulus_starts();
    assert(modulus[0] == modulus.take(3)[0] && modulus[1] == modulus.take(3)[1]);
    lemma_hex_value_leading_zero(modulus);
    lemma_hex_value_leading_zero(modulus.skip(1));
    let rest = modulus.skip(1).skip(1);
    assert forall|i: int| 0 <= i < rest.len() implies is_hex_digit(#[trigger] rest[i]) by {
        assert(rest[i] == modulus[i + 2]);
    }
    lemma_hex_value_bound(rest);
    let n = pow(bytes_value(encode_utf8(secret.reverse())) as int, hex_value(WEAPI_RSA_EXPONENT@)) % (hex_value(
        modulus,
    ) as int);
    lemma_hex_of(n as nat, 256);
    let digits = hex_of(n as nat);
    let padded = padded_key(digits);
    assert forall|i: int| 0 <= i < 256 implies is_hex_digit(#[trigger] padded[i]) by {
        if i >= 256 - digits.len() {
            assert(padded[i] == digits[i - (256 - digits.len())]);
        }
    }
}

/// Whether every character from a position on is a hexadecimal digit.
spec fn hex_from(s: Seq<char>, i: int) -> bool
    decreases s.len() - i,
{
    i < 0 || i >= s.len() || (is_hex_digit(s[i]) && hex_from(s, i + 1))
}

proof fn lemma_hex_from(s: Seq<char>, i: int)
    requires
        0 <= i,
        hex_from(s, i),
    ensures
        forall|j: int| i <= j < s.len() ==> is_hex_digit(#[trigger] s[j]),
    decreases s.len() - i,
{
    if i < s.len() {
        lemma_hex_from(s, i + 1);
        assert forall|j: int| i <= j < s.len() implies is_hex_digit(#[trigger] s[j]) by {
            if j > i {
                assert(hex_from(s, i + 1));
            }
        }
    }
}

/// The built-in numbers of the web seal are numbers.
pub proof fn lemma_rsa_parameters_valid()
    ensures
        rsa_parameters_valid(),
{
    lemma_exponent_is_hex();
    lemma_modulus_1_is_hex();
    lemma_modulus_2_is_hex();
    lemma_modulus_3_is_hex();
    lemma_modulus_4_is_hex();
    let a = WEAPI_RSA_MODULUS_1@;
    let b = WEAPI_RSA_MODULUS_2@;
    let c = WEAPI_RSA_MODULUS_3@;
    let d = WEAPI_RSA_MODULUS_4@;
    let s = rsa_modulus_of();
    assert forall|i: int| 0 <= i < s.len() implies is_hex_digit(#[trigger] s[i]) by {
        if i < a.len() {
            assert(s[i] == a[i]);
        } else if i < a.len() + b.len() {
            assert(s[i] == b[i - a.len()]);
        } else if i < a.len() + b.len() + c.len() {
            assert(s[i] == c[i - a.len() - b.len()]);
        } else {
            assert(s[i] == d[i - a.len() - b.len() - c.len()]);
        }
    }
    lemma_modulus_starts();
    lemma_hex_value_prefix(s, 3);
    reveal_strlit("10001");
    lemma_hex_value_prefix("10001"@, 2);
    assert(hex_value("10001"@.take(2)) == 16) by {
        assert("10001"@.take(2) =~= seq!['1', '0']);
        lemma_hex_value_two('1', '0');
    }
}

proof fn lemma_modulus_starts()
    ensures
        rsa_modulus_of().len() == 258,
        rsa_modulus_of().take(3) == seq!['0', '0', 'e'],
        hex_value(rsa_modulus_of().take(3)) == 14,
{
    reveal_strlit("00e0b509f6259df8642dbc35662901477df22677ec152b5ff68ace615bb7b725152");
    reveal_strlit("b3ab17a876aea8a5aa76d2e417629ec4ee341f56135fccf695280104e0312ecbda");
    reveal_strlit("92557c93870114af6c9d05c4f7f0c3685b7a46bee255932575cce10b424d813cfe");
    reveal_strlit("4875d3e82047b97ddef52741d546b8e289dc6935b3ece0462db0a22b8e7");
    assert(rsa_modulus_of().take(3) =~= seq!['0', '0', 'e']);
    assert(seq!['0', '0', 'e'].drop_last() =~= seq!['0', '0']);
    lemma_hex_value_two('0', '0');
}

proof fn lemma_hex_value_two(a: char, b: char)
    ensures
        hex_value(seq![a, b]) == hex_digit_value(a) * 16 + hex_digit_value(b),
{
    assert(seq![a, b].drop_last() =~= seq![a]);
    assert(seq![a].drop_last() =~= seq![]);
    assert(hex_value(seq![]) == 0);
    assert(hex_value(seq![a]) == hex_digit_value(a));
}

proof fn lemma_hex_value_prefix(s: Seq<char>, n: int)
    requires
        0 <= n <= s.len(),
    ensures
        hex_value(s.take(n)) <= hex_value(s),
    decreases s.len(),
{
    if n < s.len() {
        lemma_hex_value_prefix(s.drop_last(), n);
        assert(s.drop_last().take(n) =~= s.take(n));
    } else {
        assert(s.take(n) =~= s);
    }
}

proof fn lemma_exponent_is_hex()
    ensures
        is_hex(WEAPI_RSA_EXPONENT@),
{
    reveal_strlit("10001");
    assert(hex_from("10001"@, 0)) by {
        reveal_with_fuel(hex_from, 7);
    }
    lemma_hex_from("10001"@, 0);
}

proof fn lemma_modulus_1_is_hex()
    ensures
        is_hex(WEAPI_RSA_MODULUS_1@),
{
    reveal_strlit("00e0b509f6259df8642dbc35662901477df22677ec152b5ff68ace615bb7b725152");
    assert(hex_from("00e0b509f6259df8642dbc35662901477df22677ec152b5ff68ace615bb7b725152"@, 0)) by {
        reveal_with_fuel(hex_from, 70);
    }
    lemma_hex_from("00e0b509f6259df8642dbc35662901477df22677ec152b5ff68ace615bb7b725152"@, 0);
}

proof fn lemma_modulus_2_is_hex()
    ensures
        is_hex(WEAPI_RSA_MODULUS_2@),
{
    reveal_strlit("b3ab17a876aea8a5aa76d2e417629ec4ee341f56135fccf695280104e0312ecbda");
    assert(hex_from("b3ab17a876aea8a5aa76d2e417629ec4ee341f56135fccf695280104e0312ecbda"@, 0)) by {
        reveal_with_fuel(hex_from, 70);
    }
    lemma_hex_from("b3ab17a876aea8a5aa76d2e417629ec4ee341f56135fccf695280104e0312ecbda"@, 0);
}

proof fn lemma_modulus_3_is_hex()
    ensures
        is_hex(WEAPI_RSA_MODULUS_3@),
{
    reveal_strlit("92557c93870114af6c9d05c4f7f0c3685b7a46bee255932575cce10b424d813cfe");
    assert(hex_from("92557c93870114af6c9d05c4f7f0c3685b7a46bee255932575cce10b424d813cfe"@, 0)) by {
        reveal_with_fuel(hex_from, 70);
    }
    lemma_hex_from("92557c93870114af6c9d05c4f7f0c3685b7a46bee255932575cce10b424d813cfe"@, 0);
}

proof fn lemma_modulus_4_is_hex()
    ensures
        is_hex(WEAPI_RSA_MODULUS_4@),
{
    reveal_strlit("4875d3e82047b97ddef52741d546b8e289dc6935b3ece0462db0a22b8e7");
    assert(hex_from("4875d3e82047b97ddef52741d546b8e289dc6935b3ece0462db0a22b8e7"@, 0)) by {
        reveal_with_fuel(hex_from, 70);
    }
    lemma_hex_from("4875d3e82047b97ddef52741d546b8e289dc6935b3ece0462db0a22b8e7"@, 0);
}

} // verus!

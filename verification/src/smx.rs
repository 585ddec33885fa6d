//! The SM3 digest and the SM4 block cipher, by the names of their modes.
//!
//! The digest and the cipher themselves are the work of the `gmsm` crate:
//! this module checks the keys, chooses the mode, and makes the calls.

use vstd::prelude::*;

verus! {

/// What can go wrong before a cipher is called.
#[derive(Debug)]
pub enum SMXError {
    InvalidMode,
}

impl SMXError {
    /// The error in words.
    pub fn message(&self) -> (r: String)
        ensures
            r@ == "Invalid encryption/decryption mode"@,
    {
        match self {
            SMXError::InvalidMode => "Invalid encryption/decryption mode".to_owned(),
        }
    }
}

/// A pair of keys, each in hexadecimal digits.
pub struct Key {
    pub sk: String,
    pub pk: String,
}

/// A mode of the block cipher.
#[derive(Clone, Copy, Debug, PartialEq, Eq, Structural)]
pub enum Mode {
    Ecb,
    Cbc,
}

/// Whether `c` is a hexadecimal digit.
pub open spec fn is_hex_digit(c: char) -> bool {
    ('0' <= c && c <= '9') || ('a' <= c && c <= 'f') || ('A' <= c && c <= 'F')
}

/// Whether `key` is a block of sixteen bytes in hexadecimal digits: the
/// form of a key of the cipher, and of its starting block.
pub open spec fn is_block(key: Seq<char>) -> bool {
    key.len() == 32 && forall|i: int| 0 <= i < key.len() ==> is_hex_digit(#[trigger] key[i])
}

/// The mode that a name stands for.
pub open spec fn mode_of(name: Seq<char>) -> Option<Mode> {
    if name == "ecb"@ {
        Some(Mode::Ecb)
    } else if name == "cbc"@ {
        Some(Mode::Cbc)
    } else {
        None
    }
}

/// The SM3 digest of a text, in uppercase hexadecimal digits.
pub uninterp spec fn sm3_digest(data: Seq<char>) -> Seq<char>;

/// What SM4 in the mode ECB makes of a text under a key: the padded text,
/// block by block, in uppercase hexadecimal digits.
pub uninterp spec fn sm4_ecb_encrypted(data: Seq<char>, key: Seq<char>) -> Seq<char>;

/// What SM4 in the mode CBC makes of a text under a key and a starting
/// block.
pub uninterp spec fn sm4_cbc_encrypted(data: Seq<char>, key: Seq<char>, iv: Seq<char>) -> Seq<
    char,
>;

/// `gmsm::sm3::sm3_hex`: the digest of the bytes of the text, written with
/// `hex::encode_upper`. It takes any text.
#[verifier::external_body]
fn digest(data: &str) -> (r: String)
    ensures
        r@ == sm3_digest(data@),
{
    gmsm::sm3::sm3_hex(data)
}

/// `gmsm::sm4::sm4_ecb_encrypt_hex`. It decodes the key with `hex::decode`
/// and stops the program unless the key is sixteen bytes of hexadecimal
/// digits; the text can be any.
#[verifier::external_body]
fn ecb_encrypt(data: &str, key: &str) -> (r: String)
    requires
        is_block(key@),
    ensures
        r@ == sm4_ecb_encrypted(data@, key@),
{
    gmsm::sm4::sm4_ecb_encrypt_hex(data, key)
}

/// `gmsm::sm4::sm4_cbc_encrypt_hex`. It decodes the key and the starting
/// block with `hex::decode` and stops the program unless each is sixteen
/// bytes of hexadecimal digits; the text can be any.
#[verifier::external_body]
fn cbc_encrypt(data: &str, key: &str, iv: &str) -> (r: String)
    requires
        is_block(key@),
        is_block(iv@),
    ensures
        r@ == sm4_cbc_encrypted(data@, key@, iv@),
{
    gmsm::sm4::sm4_cbc_encrypt_hex(data, key, iv)
}

/// The mode that the name `name` stands for: `ecb` or `cbc`.
pub fn parse_mode(name: &str) -> (r: Result<Mode, SMXError>)
    ensures
        match r {
            Ok(mode) => mode_of(name@) == Some(mode),
            Err(_) => mode_of(name@) is None,
        },
{
    let name = name.to_owned();
    if name == "ecb".to_owned() {
        Ok(Mode::Ecb)
    } else if name == "cbc".to_owned() {
        Ok(Mode::Cbc)
    } else {
        Err(SMXError::InvalidMode)
    }
}

/// Whether `key` is a block of sixteen bytes in hexadecimal digits.
pub fn is_valid_block(key: &str) -> (r: bool)
    ensures
        r == is_block(key@),
{
    let n = key.unicode_len();
    if n != 32 {
        return false;
    }
    let mut i: usize = 0;
    while i < n
        invariant
            i <= n,
            n == key@.len(),
            forall|j: int| 0 <= j < i ==> is_hex_digit(#[trigger] key@[j]),
        decreases n - i,
    {
        let c = key.get_char(i);
        if !(('0' <= c && c <= '9') || ('a' <= c && c <= 'f') || ('A' <= c && c <= 'F')) {
            return false;
        }
        i = i + 1;
    }
    true
}

/// What `sm4_encrypt` gives for a mode, a text, a key and a starting block.
pub open spec fn encrypted(mode: Seq<char>, data: Seq<char>, key: Seq<char>, iv: Seq<char>)
    -> Option<Seq<char>> {
    match mode_of(mode) {
        Some(Mode::Ecb) => Some(sm4_ecb_encrypted(data, key)),
        Some(Mode::Cbc) => Some(sm4_cbc_encrypted(data, key, iv)),
        None => None,
    }
}

/// The digest and the cipher.
pub struct SMX {}

impl SMX {
    /// The SM3 digest of `data`, in uppercase hexadecimal digits.
    pub fn sm3_hex(data: String) -> (r: String)
        ensures
            r@ == sm3_digest(data@),
    {
        digest(data.as_str())
    }

    /// Encrypts `data` with SM4 in the mode `mode` under `key`. The mode
    /// `cbc` begins with the block `iv`; the mode `ecb` ignores it.
    pub fn sm4_encrypt(mode: String, data: String, key: String, iv: String) -> (r: Result<
        String,
        SMXError,
    >)
        requires
            mode_of(mode@) is Some ==> is_block(key@),
            mode_of(mode@) == Some(Mode::Cbc) ==> is_block(iv@),
        ensures
            match r {
                Ok(text) => encrypted(mode@, data@, key@, iv@) == Some(text@),
                Err(_) => encrypted(mode@, data@, key@, iv@) is None,
            },
    {
        match parse_mode(mode.as_str()) {
            Ok(Mode::Ecb) => Ok(ecb_encrypt(data.as_str(), key.as_str())),
            Ok(Mode::Cbc) => Ok(cbc_encrypt(data.as_str(), key.as_str(), iv.as_str())),
            Err(e) => Err(e),
        }
    }

    /// Encrypts like `sm4_encrypt`, after checking the key and the
    /// starting block: `None` where one that the mode needs is no block of
    /// sixteen bytes in hexadecimal digits.
    pub fn checked_sm4_encrypt(mode: String, data: String, key: String, iv: String) -> (r: Option<
        Result<String, SMXError>,
    >)
        ensures
            r is Some <==> (mode_of(mode@) is Some ==> is_block(key@)) && (mode_of(mode@) == Some(
                Mode::Cbc,
            ) ==> is_block(iv@)),
            r is Some ==> match r->0 {
                Ok(text) => encrypted(mode@, data@, key@, iv@) == Some(text@),
                Err(_) => encrypted(mode@, data@, key@, iv@) is None,
            },
    {
        let parsed = parse_mode(mode.as_str());
        let ready = match parsed {
            Ok(Mode::Ecb) => is_valid_block(key.as_str()),
            Ok(Mode::Cbc) => is_valid_block(key.as_str()) && is_valid_block(iv.as_str()),
            Err(_) => true,
        };
        if ready {
            Some(SMX::sm4_encrypt(mode, data, key, iv))
        } else {
            None
        }
    }
}

} // verus!

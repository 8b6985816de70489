//! Content hashes: SHA-256 digests and their hex form.

use crate::text::bytes_of;
use sha2::Digest;
use vstd::prelude::*;

verus! {

/// The SHA-256 digest of a byte sequence.
pub uninterp spec fn sha256(input: Seq<u8>) -> Seq<u8>;

/// `Digest::digest` of sha2 for `Sha256`: the 32 bytes of the SHA-256
/// digest of `input`. The digest is not spelled out here; it has the name
/// `sha256`.
#[verifier::external_body]
fn sha256_digest(input: &[u8]) -> (r: [u8; 32])
    ensures
        r@ == sha256(input@),
{
    sha2::Sha256::digest(input).into()
}

/// The outside error of `hex::decode`.
#[verifier::external_type_specification]
#[verifier::external_body]
pub struct ExFromHexError(hex::FromHexError);

/// The lower-case hex digit of a value below 16.
pub open spec fn hex_digit(nibble: int) -> u8 {
    if nibble < 10 {
        (48 + nibble) as u8
    } else {
        (87 + nibble) as u8
    }
}

/// The lower-case hex form of the bytes: two digits for each.
pub open spec fn hex_lower(bytes: Seq<u8>) -> Seq<u8> {
    Seq::new(
        2 * bytes.len(),
        |i: int|
            if i % 2 == 0 {
                hex_digit(bytes[i / 2] as int / 16)
            } else {
                hex_digit(bytes[i / 2] as int % 16)
            },
    )
}

/// The value of a hex digit of either case, or nothing for another byte.
pub open spec fn hex_value(digit: u8) -> Option<int> {
    if 48 <= digit <= 57 {
        Some(digit - 48)
    } else if 97 <= digit <= 102 {
        Some(digit - 87)
    } else if 65 <= digit <= 70 {
        Some(digit - 55)
    } else {
        None
    }
}

/// Whether the text is an even number of hex digits.
pub open spec fn is_hex(text: Seq<u8>) -> bool {
    &&& text.len() % 2 == 0
    &&& forall|i: int| 0 <= i < text.len() ==> hex_value(#[trigger] text[i]) is Some
}

/// The bytes that a hex text stands for.
pub open spec fn hex_bytes(text: Seq<u8>) -> Seq<u8> {
    Seq::new(
        text.len() / 2,
        |i: int| (hex_value(text[2 * i])->0 * 16 + hex_value(text[2 * i + 1])->0) as u8,
    )
}

/// `hex::encode`: two lower-case hex digits for each byte, high half first.
#[verifier::external_body]
fn hex_encode(bytes: &[u8]) -> (r: String)
    ensures
        bytes_of(r@) == hex_lower(bytes@),
{
    hex::encode(bytes)
}

/// `hex::decode`: the bytes of a text of hex digits of either case, and an
/// error where the length is odd or a byte is no hex digit.
#[verifier::external_body]
fn hex_decode(text: &str) -> (r: Result<Vec<u8>, hex::FromHexError>)
    ensures
        r is Ok <==> is_hex(bytes_of(text@)),
        r is Ok ==> r->Ok_0@ == hex_bytes(bytes_of(text@)),
{
    hex::decode(text)
}

/// A SHA-256 content hash.
#[derive(Debug, Clone, Copy, PartialEq)]
pub struct Hash(pub [u8; 32]);

impl View for Hash {
    type V = Seq<u8>;

    open spec fn view(&self) -> Seq<u8> {
        self.0@
    }
}

/// What is wrong with a text that is no hash.
pub enum HashFault {
    InvalidHex,
    InvalidLength(u32),
}

/// Why a text is no hash.
#[derive(Debug)]
pub enum HashError {
    /// The text is not an even number of hex digits; it is handed back.
    InvalidHex(String),
    /// The text stands for this many bytes, not 32. A count past `u32` is
    /// given as `u32::MAX`.
    InvalidLength(u32),
}

impl Hash {
    /// The hash that a hex text stands for, or what is wrong with the
    /// text.
    pub open spec fn try_from_spec(value: Seq<char>) -> Result<Seq<u8>, HashFault> {
        let text = bytes_of(value);
        if !is_hex(text) {
            Err(HashFault::InvalidHex)
        } else if text.len() != 64 {
            Err(HashFault::InvalidLength(clamp_u32(text.len() as int / 2)))
        } else {
            Ok(hex_bytes(text))
        }
    }

    /// The hash of a text: the SHA-256 digest of its bytes.
    pub fn digest(input: String) -> (r: Hash)
        ensures
            r@ == sha256(bytes_of(input@)),
    {
        Hash(sha256_digest(input.as_str().as_bytes()))
    }

    /// The hash as 64 lower-case hex digits.
    pub fn to_hex(&self) -> (r: String)
        ensures
            bytes_of(r@) == hex_lower(self@),
            bytes_of(r@).len() == 64,
    {
        hex_encode(self.0.as_slice())
    }

    /// The hash that a hex text stands for.
    pub fn try_from(value: String) -> (r: Result<Hash, HashError>)
        ensures
            match Hash::try_from_spec(value@) {
                Ok(hash) => r is Ok && r->Ok_0@ == hash,
                Err(HashFault::InvalidHex) => r matches Err(HashError::InvalidHex(text)) && text@
                    == value@,
                Err(HashFault::InvalidLength(count)) => r == Err::<Hash, HashError>(
                    HashError::InvalidLength(count),
                ),
            },
    {
        match hex_decode(value.as_str()) {
            Err(_) => Err(HashError::InvalidHex(value)),
            Ok(bytes) => {
                if bytes.len() != 32 {
                    let count: u32 = if bytes.len() > u32::MAX as usize {
                        u32::MAX
                    } else {
                        bytes.len() as u32
                    };
                    return Err(HashError::InvalidLength(count));
                }
                let mut array: [u8; 32] = [0u8; 32];
                let mut i: usize = 0;
                while i < 32
                    invariant
                        0 <= i <= 32,
                        bytes@.len() == 32,
                        forall|j: int| 0 <= j < i ==> array@[j] == bytes@[j],
                    decreases 32 - i,
                {
                    array[i] = bytes[i];
                    i += 1;
                }
                assert(array@ =~= bytes@);
                Ok(Hash(array))
            },
        }
    }

    /// Whether two hashes are the same.
    pub fn same_as(&self, other: &Hash) -> (r: bool)
        ensures
            r == (self@ == other@),
    {
        crate::text::bytes_eq(self.0.as_slice(), other.0.as_slice())
    }
}

/// A count as a `u32`, or `u32::MAX` where it does not fit.
pub open spec fn clamp_u32(count: int) -> u32 {
    if count > u32::MAX {
        u32::MAX
    } else {
        count as u32
    }
}

} // verus!

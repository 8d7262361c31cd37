//! SHA-256 content hashes in lowercase hexadecimal.
use vstd::prelude::*;
use sha2::{Digest, Sha256};
use crate::text::{chars_of, push_char};

verus! {

/// The SHA-256 digest of a byte string, as `sha2::Sha256` computes it.
pub uninterp spec fn sha256_of(bytes: Seq<u8>) -> Seq<u8>;

/// Computes the SHA-256 digest of `bytes` (`sha2::Sha256::digest`); the
/// digest of SHA-256 is 32 bytes long.
#[verifier::external_body]
fn sha256(bytes: &[u8]) -> (d: Vec<u8>)
    ensures
        d@ == sha256_of(bytes@),
        d@.len() == 32,
{
    Sha256::digest(bytes).to_vec()
}

/// The lowercase hexadecimal digit of a value below sixteen.
pub open spec fn hex_digit(n: int) -> char {
    if n < 10 {
        (48 + n) as char
    } else {
        (87 + n) as char
    }
}

/// Whether `c` is a lowercase hexadecimal digit.
pub open spec fn is_lower_hex(c: char) -> bool {
    ('0' <= c && c <= '9') || ('a' <= c && c <= 'f')
}

/// The lowercase hexadecimal spelling of `bytes`: two digits per byte, high
/// nibble first.
pub open spec fn hex_of(bytes: Seq<u8>) -> Seq<char> {
    Seq::new(
        2 * bytes.len(),
        |i: int|
            if i % 2 == 0 {
                hex_digit((bytes[i / 2] / 16) as int)
            } else {
                hex_digit((bytes[i / 2] % 16) as int)
            },
    )
}

/// The lowercase hexadecimal digit of `n`.
fn hex_char(n: u8) -> (c: char)
    requires
        n < 16,
    ensures
        c == hex_digit(n as int),
        is_lower_hex(c),
{
    if n < 10 {
        (48u8 + n) as char
    } else {
        (87u8 + n) as char
    }
}

/// A hash spelling is lowercase hexadecimal: two digits per byte.
pub proof fn lemma_hex_shape(bytes: Seq<u8>)
    ensures
        hex_of(bytes).len() == 2 * bytes.len(),
        forall|i: int| 0 <= i < hex_of(bytes).len() ==> is_lower_hex(#[trigger] hex_of(bytes)[i]),
{
    assert forall|i: int| 0 <= i < hex_of(bytes).len() implies is_lower_hex(
        #[trigger] hex_of(bytes)[i],
    ) by {
        let b = bytes[i / 2];
        assert(b / 16 < 16 && b % 16 < 16);
    }
}

/// Describes why a hexadecimal content hash is invalid.
#[derive(Clone, Copy, Debug, PartialEq, Eq, Structural)]
pub enum ContentHashError {
    /// The text is not 64 lowercase hexadecimal digits.
    InvalidHex,
}

impl ContentHashError {
    /// The human-readable description of the error.
    pub fn message(&self) -> (m: &'static str)
        ensures
            m@ == "content hash must be 64 lowercase hexadecimal digits"@,
    {
        "content hash must be 64 lowercase hexadecimal digits"
    }
}

/// A SHA-256 content hash represented as lowercase hexadecimal.
#[derive(Clone, Debug, PartialEq, Eq)]
pub struct ContentHash(String);

impl View for ContentHash {
    type V = Seq<char>;

    closed spec fn view(&self) -> Seq<char> {
        self.0@
    }
}

/// Whether `s` spells a SHA-256 hash: 64 lowercase hexadecimal digits.
pub open spec fn is_hash_text(s: Seq<char>) -> bool {
    s.len() == 64 && forall|i: int| 0 <= i < s.len() ==> is_lower_hex(#[trigger] s[i])
}

impl ContentHash {
    /// Computes the SHA-256 hash of `content`.
    pub fn from_content(content: &[u8]) -> (h: ContentHash)
        ensures
            h@ == hex_of(sha256_of(content@)),
            is_hash_text(h@),
    {
        let digest = sha256(content);
        let mut out = String::new();
        let mut i: usize = 0;
        while i < digest.len()
            invariant
                0 <= i <= digest@.len(),
                digest@ == sha256_of(content@),
                out@ == hex_of(digest@.take(i as int)),
            decreases digest@.len() - i,
        {
            let b = digest[i];
            let ghost before = out@;
            push_char(&mut out, hex_char(b / 16));
            push_char(&mut out, hex_char(b % 16));
            proof {
                let t = digest@.take(i + 1);
                assert(t.take(i as int) == digest@.take(i as int));
                assert(out@ =~= hex_of(t));
            }
            i = i + 1;
        }
        proof {
            assert(digest@.take(digest@.len() as int) =~= digest@);
            lemma_hex_shape(digest@);
        }
        ContentHash(out)
    }

    /// Parses a hash from its 64-digit lowercase hexadecimal spelling.
    pub fn try_from_hex(text: &str) -> (r: Result<ContentHash, ContentHashError>)
        ensures
            is_hash_text(text@) ==> (r matches Ok(h) && h@ == text@),
            !is_hash_text(text@) ==> r == Err::<ContentHash, ContentHashError>(
                ContentHashError::InvalidHex,
            ),
    {
        let cs = chars_of(text);
        if cs.len() != 64 {
            return Err(ContentHashError::InvalidHex);
        }
        let mut i: usize = 0;
        while i < cs.len()
            invariant
                0 <= i <= cs@.len(),
                cs@ == text@,
                forall|k: int| 0 <= k < i ==> is_lower_hex(#[trigger] cs@[k]),
            decreases cs@.len() - i,
        {
            let c = cs[i];
            if !(('0' <= c && c <= '9') || ('a' <= c && c <= 'f')) {
                assert(!is_lower_hex(text@[i as int]));
                return Err(ContentHashError::InvalidHex);
            }
            i = i + 1;
        }
        Ok(ContentHash(text.to_string()))
    }

    /// Returns the hash as a lowercase hexadecimal string.
    pub fn as_str(&self) -> (s: &str)
        ensures
            s@ == self@,
    {
        self.0.as_str()
    }

    /// A copy of this hash.
    pub fn duplicate(&self) -> (h: ContentHash)
        ensures
            h@ == self@,
    {
        ContentHash(self.0.clone())
    }
}

/// Hashing is a function of the content: equal content gives equal hashes.
pub proof fn lemma_hash_deterministic(a: Seq<u8>, b: Seq<u8>)
    requires
        a == b,
    ensures
        hex_of(sha256_of(a)) == hex_of(sha256_of(b)),
{
}

} // verus!

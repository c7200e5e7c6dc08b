use sha2::Digest;
use vstd::prelude::*;

verus! {

/// The SHA-256 digest of a byte string, as the `sha2` crate computes it.
pub uninterp spec fn sha256_digest(data: Seq<u8>) -> Seq<u8>;

/// Calls `sha2::Sha256::digest` (through the `Digest` trait). Trusted: the
/// result is the digest of `data`, and it is 32 bytes long (`Sha256` has a
/// 32-byte output size).
#[verifier::external_body]
fn sha256(data: &[u8]) -> (r: Vec<u8>)
    ensures
        r@ == sha256_digest(data@),
        r@.len() == 32,
{
    sha2::Sha256::digest(data).to_vec()
}

/// The lowercase hexadecimal digit for `n < 16`.
pub open spec fn hex_digit(n: u8) -> char {
    if n < 10 {
        ((n as u32) + 48) as char
    } else {
        ((n as u32) + 87) as char
    }
}

/// Two lowercase hexadecimal digits per byte, high nibble first.
pub open spec fn hex_lower(b: Seq<u8>) -> Seq<char>
    decreases b.len(),
{
    if b.len() == 0 {
        seq![]
    } else {
        hex_lower(b.drop_last()) + seq![hex_digit(b.last() / 16), hex_digit(b.last() % 16)]
    }
}

fn digit(n: u8) -> (c: char)
    requires
        n < 16,
    ensures
        c == hex_digit(n),
{
    if n < 10 {
        ((n as u32) + 48) as u8 as char
    } else {
        ((n as u32) + 87) as u8 as char
    }
}

/// Lowercase hexadecimal text of `b` (see [`hex_lower`]).
pub fn to_hex(b: &[u8]) -> (s: Vec<char>)
    ensures
        s@ == hex_lower(b@),
        s@.len() == 2 * b@.len(),
{
    let mut s: Vec<char> = Vec::new();
    let mut i: usize = 0;
    while i < b.len()
        invariant
            i <= b@.len(),
            s@ == hex_lower(b@.take(i as int)),
            s@.len() == 2 * i,
        decreases b@.len() - i,
    {
        let x = b[i];
        s.push(digit(x / 16));
        s.push(digit(x % 16));
        i = i + 1;
        assert(b@.take(i as int).drop_last() =~= b@.take((i - 1) as int));
        assert(s@ =~= hex_lower(b@.take(i as int)));
    }
    assert(b@.take(i as int) =~= b@);
    s
}

/// The content hash stored for a file: the SHA-256 digest of its UTF-8 bytes,
/// in lowercase hexadecimal.
pub open spec fn content_hash_of(text: Seq<char>) -> Seq<char> {
    hex_lower(sha256_digest(vstd::utf8::encode_utf8(text)))
}

/// The content hash of a text (see [`content_hash_of`]); always 64 characters.
pub fn content_hash(text: &str) -> (h: String)
    ensures
        h@ == content_hash_of(text@),
        h@.len() == 64,
{
    let d = sha256(text.as_bytes());
    let hex = to_hex(d.as_slice());
    crate::text::string_of(hex.as_slice())
}

/// A file must be summarised and embedded again unless the stored hash
/// equals the new one.
pub open spec fn refresh_needed(old_hash: Option<Seq<char>>, new_hash: Seq<char>) -> bool {
    old_hash != Some(new_hash)
}

/// Whether a file must be summarised and embedded again (see
/// [`refresh_needed`]).
pub fn needs_refresh(old_hash: Option<&str>, new_hash: &str) -> (b: bool)
    ensures
        b == refresh_needed(
            match old_hash {
                Some(o) => Some(o@),
                None => None,
            },
            new_hash@,
        ),
{
    match old_hash {
        None => true,
        Some(o) => {
            let a = crate::text::chars_of(o);
            let c = crate::text::chars_of(new_hash);
            !crate::text::chars_eq(a.as_slice(), c.as_slice())
        },
    }
}

/// Indexing a file again whose content has not changed since its hash was
/// stored regenerates neither its summary nor its embedding.
pub proof fn lemma_unchanged_content_kept(content: Seq<char>)
    ensures
        !refresh_needed(Some(content_hash_of(content)), content_hash_of(content)),
{
}

} // verus!

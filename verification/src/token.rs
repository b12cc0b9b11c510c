use vstd::prelude::*;
use crate::text::{chars_of, spec_trim, trim};

verus! {

/// The fewest bytes a well-formed token has.
pub const MIN_TOKEN_BYTES: usize = 20;

/// The number of bytes that `c` takes in UTF-8.
pub open spec fn utf8_width(c: char) -> nat {
    if (c as int) < 0x80 {
        1
    } else if (c as int) < 0x800 {
        2
    } else if (c as int) < 0x10000 {
        3
    } else {
        4
    }
}

/// The number of bytes that `c` takes in UTF-8, as `char::len_utf8` gives it.
fn char_width(c: char) -> (r: usize)
    ensures
        r == utf8_width(c),
        1 <= r <= 4,
{
    let v = c as u32;
    if v < 0x80 {
        1
    } else if v < 0x800 {
        2
    } else if v < 0x10000 {
        3
    } else {
        4
    }
}

/// The number of bytes of `s` in UTF-8, which `str::len` gives.
pub open spec fn byte_len(s: Seq<char>) -> nat
    decreases s.len(),
{
    if s.len() == 0 {
        0
    } else {
        byte_len(s.drop_last()) + utf8_width(s.last())
    }
}

/// Whether `s` takes at least `n` bytes in UTF-8.
fn has_bytes(s: &str, n: usize) -> (r: bool)
    requires
        n <= 1024,
    ensures
        r == (byte_len(s@) >= n),
{
    let v = chars_of(s);
    let len = v.len();
    let mut k: usize = 0;
    let mut acc: usize = 0;
    assert(v@.take(0) =~= Seq::<char>::empty());
    while k < len && acc < n
        invariant
            len == v@.len(),
            v@ == s@,
            k <= len,
            acc == byte_len(v@.take(k as int)),
            acc < n || k == 0 || byte_len(v@.take(k - 1)) < n,
            acc <= n + 4,
            n <= 1024,
        decreases len - k,
    {
        let w = char_width(v[k]);
        assert(v@.take(k + 1).drop_last() =~= v@.take(k as int));
        assert(v@.take(k + 1).last() == v@[k as int]);
        acc = acc + w;
        k = k + 1;
    }
    if acc >= n {
        proof {
            lemma_byte_len_prefix(s@, k as int);
        }
        assert(v@.take(k as int) =~= s@.take(k as int));
    } else {
        assert(v@.take(len as int) =~= s@);
    }
    acc >= n
}

/// A prefix takes at most the bytes of the whole.
proof fn lemma_byte_len_prefix(s: Seq<char>, k: int)
    requires
        0 <= k <= s.len(),
    ensures
        byte_len(s.take(k)) <= byte_len(s),
    decreases s.len(),
{
    if k < s.len() {
        assert(s.drop_last().take(k) =~= s.take(k));
        lemma_byte_len_prefix(s.drop_last(), k);
    } else {
        assert(s.take(k) =~= s);
    }
}

/// Why a token was refused.
#[derive(Debug, Clone, Copy, PartialEq, Eq)]
pub enum TokenError {
    /// Shorter than [`MIN_TOKEN_BYTES`] bytes.
    Malformed,
}

impl TokenError {
    /// The message shown for this error.
    pub fn message(&self) -> (r: String)
        ensures
            r@ == "Token 格式不正确"@,
    {
        String::from_str("Token 格式不正确")
    }
}

/// The token that a saved token file holds: its content without surrounding
/// whitespace, when that is at least [`MIN_TOKEN_BYTES`] bytes long.
pub open spec fn spec_token_from_file(content: Seq<char>) -> Option<Seq<char>> {
    let t = spec_trim(content);
    if byte_len(t) >= MIN_TOKEN_BYTES {
        Some(t)
    } else {
        None
    }
}

/// Reads the token out of the content of a token file.
pub fn token_from_file(content: &str) -> (r: Option<String>)
    ensures
        match r {
            Some(t) => spec_token_from_file(content@) == Some(t@),
            None => spec_token_from_file(content@) is None,
        },
{
    let t = trim(content);
    if has_bytes(t.as_str(), MIN_TOKEN_BYTES) {
        Some(t)
    } else {
        None
    }
}

/// Accepts a token to save when it is at least [`MIN_TOKEN_BYTES`] bytes long.
pub fn check_token(token: &str) -> (r: Result<(), TokenError>)
    ensures
        r is Ok <==> byte_len(token@) >= MIN_TOKEN_BYTES,
        r is Err ==> r == Err::<(), TokenError>(TokenError::Malformed),
{
    if !has_bytes(token, MIN_TOKEN_BYTES) {
        Err(TokenError::Malformed)
    } else {
        Ok(())
    }
}

/// A token that is accepted for saving and has no whitespace around it is
/// what the saved file gives back.
pub proof fn lemma_saved_token_loads(token: Seq<char>)
    requires
        byte_len(token) >= MIN_TOKEN_BYTES,
        spec_trim(token) == token,
    ensures
        spec_token_from_file(token) == Some(token),
{
}

} // verus!

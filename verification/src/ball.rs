use vstd::prelude::*;
use crate::numeric::{
    format_i32, lemma_decimal_digits, parse_i32, spec_parse_i32, spec_signed_decimal,
    spec_decimal,
};
use crate::text::{
    is_white_space, lemma_word_len_at, spec_trim, spec_trim_end, spec_trim_start, spec_words,
    split_words, trim, word_len,
};

verus! {

/// Why a saved ball position could not be read.
#[derive(Debug, Clone, Copy, PartialEq, Eq)]
pub enum BallPosError {
    /// One of the two coordinates is not an `i32`.
    BadCoordinate,
}

impl BallPosError {
    /// The message shown for this error.
    pub fn message(&self) -> (r: String)
        ensures
            r@ == "解析坐标失败"@,
    {
        String::from_str("解析坐标失败")
    }
}

/// The text that saves the position `(x, y)`: both numbers in decimal, with
/// a space between them.
pub open spec fn spec_ball_pos_text(x: i32, y: i32) -> Seq<char> {
    spec_signed_decimal(x as int) + seq![' '] + spec_signed_decimal(y as int)
}

/// The position that a saved text holds: its first two whitespace-separated
/// words as `i32`s; none when it has fewer than two words; an error when
/// either of them is no `i32`.
pub open spec fn spec_parse_ball_pos(content: Seq<char>) -> Result<Option<(i32, i32)>, BallPosError> {
    let parts = spec_words(spec_trim(content));
    if parts.len() < 2 {
        Ok(None)
    } else {
        match (spec_parse_i32(parts[0]), spec_parse_i32(parts[1])) {
            (Some(x), Some(y)) => Ok(Some((x, y))),
            _ => Err(BallPosError::BadCoordinate),
        }
    }
}

/// The text that saves the position `(x, y)`.
pub fn format_ball_pos(x: i32, y: i32) -> (r: String)
    ensures
        r@ == spec_ball_pos_text(x, y),
{
    let mut out = format_i32(x);
    out.push(' ');
    let ys = format_i32(y);
    out.append(ys.as_str());
    out
}

/// Reads a saved position.
pub fn parse_ball_pos(content: &str) -> (r: Result<Option<(i32, i32)>, BallPosError>)
    ensures
        r == spec_parse_ball_pos(content@),
{
    let t = trim(content);
    let parts = split_words(t.as_str());
    if parts.len() < 2 {
        return Ok(None);
    }
    let x = match parse_i32(parts[0].as_str()) {
        Some(v) => v,
        None => {
            return Err(BallPosError::BadCoordinate);
        },
    };
    let y = match parse_i32(parts[1].as_str()) {
        Some(v) => v,
        None => {
            return Err(BallPosError::BadCoordinate);
        },
    };
    Ok(Some((x, y)))
}

/// A numeral is not empty and holds no whitespace.
proof fn lemma_numeral_words(v: i32)
    ensures
        spec_signed_decimal(v as int).len() > 0,
        forall|i: int|
            0 <= i < spec_signed_decimal(v as int).len() ==> !is_white_space(
                #[trigger] spec_signed_decimal(v as int)[i],
            ),
{
    let s = spec_signed_decimal(v as int);
    if v < 0 {
        let d = spec_decimal((-v) as nat);
        lemma_decimal_digits((-v) as nat);
        assert forall|i: int| 0 <= i < s.len() implies !is_white_space(#[trigger] s[i]) by {
            if i > 0 {
                assert(s[i] == d[i - 1]);
            }
        }
    } else {
        lemma_decimal_digits(v as nat);
    }
}

/// The words of `a`, a space, and `b`, where neither `a` nor `b` is empty or
/// holds whitespace, are `a` and `b`.
proof fn lemma_two_words(a: Seq<char>, b: Seq<char>)
    requires
        a.len() > 0,
        b.len() > 0,
        forall|i: int| 0 <= i < a.len() ==> !is_white_space(#[trigger] a[i]),
        forall|i: int| 0 <= i < b.len() ==> !is_white_space(#[trigger] b[i]),
    ensures
        spec_trim(a + seq![' '] + b) == a + seq![' '] + b,
        spec_words(a + seq![' '] + b) == seq![a, b],
{
    let s = a + seq![' '] + b;
    assert(s[0] == a[0]);
    assert(s.last() == b.last());
    assert(!is_white_space(b[b.len() - 1]));
    assert(spec_trim_start(s) == s);
    assert(spec_trim_end(s) == s);
    assert forall|k: int| 0 <= k < a.len() implies !is_white_space(#[trigger] s[k]) by {
        assert(s[k] == a[k]);
    }
    assert(is_white_space(s[a.len() as int]));
    lemma_word_len_at(s, 0, a.len() as int);
    assert(s.skip(0) =~= s);
    assert(s.take(a.len() as int) =~= a);
    let rest = s.skip(a.len() as int);
    assert(rest[0] == ' ');
    assert(rest.skip(1) =~= b);
    assert(spec_words(rest) == spec_words(b));
    assert forall|k: int| 0 <= k < b.len() implies !is_white_space(#[trigger] b[k]) by {}
    lemma_word_len_at(b, 0, b.len() as int);
    assert(b.skip(0) =~= b);
    assert(b.take(b.len() as int) =~= b);
    assert(b.skip(b.len() as int) =~= Seq::<char>::empty());
    assert(word_len(b) == b.len());
    assert(!is_white_space(b[0]));
    assert(spec_words(b.skip(b.len() as int)) =~= Seq::<Seq<char>>::empty());
    assert(spec_words(b) =~= seq![b.take(b.len() as int)] + spec_words(b.skip(b.len() as int)));
    assert(spec_words(b) =~= seq![b]);
    assert(spec_words(s) =~= seq![a] + spec_words(rest));
    assert(spec_words(s) =~= seq![a, b]);
}

/// Reading the text that saves a position gives that position back.
pub proof fn lemma_ball_pos_round_trip(x: i32, y: i32)
    ensures
        spec_parse_ball_pos(spec_ball_pos_text(x, y)) == Ok::<Option<(i32, i32)>, BallPosError>(
            Some((x, y)),
        ),
{
    lemma_numeral_words(x);
    lemma_numeral_words(y);
    lemma_two_words(spec_signed_decimal(x as int), spec_signed_decimal(y as int));
    crate::numeric::lemma_parse_format_i32(x);
    crate::numeric::lemma_parse_format_i32(y);
}

} // verus!

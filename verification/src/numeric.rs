use vstd::prelude::*;
use crate::text::chars_of;

verus! {

/// Whether `c` is an ASCII decimal digit.
pub open spec fn is_digit(c: char) -> bool {
    '0' <= c <= '9'
}

/// The value of the decimal digit `c`.
pub open spec fn digit_value(c: char) -> int {
    c as int - '0' as int
}

/// Whether every character of `s` is a decimal digit.
pub open spec fn all_digits(s: Seq<char>) -> bool {
    forall|i: int| 0 <= i < s.len() ==> is_digit(#[trigger] s[i])
}

/// The number that the digits `s` write in base ten.
pub open spec fn digits_value(s: Seq<char>) -> nat
    decreases s.len(),
{
    if s.len() == 0 {
        0
    } else {
        (digits_value(s.drop_last()) * 10 + digit_value(s.last())) as nat
    }
}

/// What `str::parse::<u64>` gives: an optional `+`, then one or more digits
/// whose value fits in a `u64`.
pub open spec fn spec_parse_u64(s: Seq<char>) -> Option<u64> {
    let d = if s.len() > 0 && s[0] == '+' { s.skip(1) } else { s };
    if d.len() > 0 && all_digits(d) && digits_value(d) <= u64::MAX {
        Some(digits_value(d) as u64)
    } else {
        None
    }
}

/// What `str::parse::<i32>` gives: an optional `+` or `-`, then one or more
/// digits, whose signed value fits in an `i32`.
pub open spec fn spec_parse_i32(s: Seq<char>) -> Option<i32> {
    let signed = s.len() > 0 && (s[0] == '+' || s[0] == '-');
    let d = if signed { s.skip(1) } else { s };
    let v: int = if s.len() > 0 && s[0] == '-' { -digits_value(d) } else { digits_value(d) as int };
    if d.len() > 0 && all_digits(d) && i32::MIN <= v <= i32::MAX {
        Some(v as i32)
    } else {
        None
    }
}

/// The value of a prefix of digits is at most the value of the whole.
pub proof fn lemma_digits_value_prefix(s: Seq<char>, k: int)
    requires
        0 <= k <= s.len(),
        all_digits(s),
    ensures
        digits_value(s.take(k)) <= digits_value(s),
    decreases s.len(),
{
    if k < s.len() {
        assert(s.drop_last().take(k) =~= s.take(k));
        assert(is_digit(s[s.len() - 1]));
        lemma_digits_value_prefix(s.drop_last(), k);
    } else {
        assert(s.take(k) =~= s);
    }
}

/// The value of the digits `d[..k]`, when at most `limit`; `None` past it.
fn digits_up_to(d: &Vec<char>, start: usize, limit: u64) -> (r: Option<u64>)
    requires
        start <= d@.len(),
        all_digits(d@.skip(start as int)),
    ensures
        match r {
            Some(v) => v == digits_value(d@.skip(start as int)) && v <= limit,
            None => digits_value(d@.skip(start as int)) > limit,
        },
{
    let ghost t = d@.skip(start as int);
    let n = d.len();
    let mut acc: u64 = 0;
    let mut k = start;
    assert(t.take(0) =~= Seq::<char>::empty());
    while k < n
        invariant
            n == d@.len(),
            start <= k <= n,
            t == d@.skip(start as int),
            all_digits(t),
            acc == digits_value(t.take(k - start)),
            acc <= limit,
        decreases n - k,
    {
        let c = d[k];
        assert(t[k - start] == c);
        assert(t.take(k - start + 1).drop_last() =~= t.take(k - start));
        let dv = (c as u32 - '0' as u32) as u64;
        if (acc as u128) * 10 + (dv as u128) > limit as u128 {
            proof {
                lemma_digits_value_prefix(t, k - start + 1);
            }
            return None;
        }
        acc = acc * 10 + dv;
        k = k + 1;
    }
    assert(t.take(n - start) =~= t);
    Some(acc)
}

/// Whether every character of `d` from `start` on is a digit.
fn digits_from(d: &Vec<char>, start: usize) -> (r: bool)
    requires
        start <= d@.len(),
    ensures
        r == (d@.len() > start && all_digits(d@.skip(start as int))),
{
    let n = d.len();
    if start >= n {
        return false;
    }
    let mut k = start;
    while k < n
        invariant
            n == d@.len(),
            start <= k <= n,
            forall|j: int| start <= j < k ==> is_digit(#[trigger] d@[j]),
        decreases n - k,
    {
        if !(d[k] >= '0' && d[k] <= '9') {
            assert(!is_digit(d@.skip(start as int)[k - start]));
            return false;
        }
        k = k + 1;
    }
    assert forall|i: int| 0 <= i < d@.skip(start as int).len() implies is_digit(
        #[trigger] d@.skip(start as int)[i],
    ) by {
        assert(d@.skip(start as int)[i] == d@[start + i]);
    }
    true
}

/// Parses `s` as `str::parse::<u64>` does.
pub fn parse_u64(s: &str) -> (r: Option<u64>)
    ensures
        r == spec_parse_u64(s@),
{
    let v = chars_of(s);
    let start: usize = if v.len() > 0 && v[0] == '+' { 1 } else { 0 };
    assert(start == 0 ==> v@.skip(0) =~= v@);
    if !digits_from(&v, start) {
        return None;
    }
    digits_up_to(&v, start, u64::MAX)
}

/// Parses `s` as `str::parse::<i32>` does.
pub fn parse_i32(s: &str) -> (r: Option<i32>)
    ensures
        r == spec_parse_i32(s@),
{
    let v = chars_of(s);
    let negative = v.len() > 0 && v[0] == '-';
    let start: usize = if v.len() > 0 && (v[0] == '+' || v[0] == '-') { 1 } else { 0 };
    assert(start == 0 ==> v@.skip(0) =~= v@);
    if !digits_from(&v, start) {
        return None;
    }
    let limit: u64 = if negative { 0x8000_0000 } else { 0x7fff_ffff };
    match digits_up_to(&v, start, limit) {
        Some(m) => {
            if negative {
                Some((0 - (m as i64)) as i32)
            } else {
                Some(m as i32)
            }
        },
        None => None,
    }
}

/// The decimal digit character for `d`.
pub open spec fn digit_char(d: int) -> char {
    (d + '0' as int) as char
}

/// The decimal numeral of `n`, without leading zeros.
pub open spec fn spec_decimal(n: nat) -> Seq<char>
    decreases n,
{
    if n < 10 {
        seq![digit_char(n as int)]
    } else {
        spec_decimal(n / 10) + seq![digit_char((n % 10) as int)]
    }
}

/// The decimal numeral of `v`, with `-` in front when it is negative, as
/// `Display` writes an integer.
pub open spec fn spec_signed_decimal(v: int) -> Seq<char> {
    if v < 0 {
        seq!['-'] + spec_decimal((-v) as nat)
    } else {
        spec_decimal(v as nat)
    }
}

/// Appends the decimal numeral of `n` to `out`.
fn push_decimal(out: &mut String, n: u64)
    ensures
        final(out)@ == old(out)@ + spec_decimal(n as nat),
    decreases n,
{
    if n >= 10 {
        push_decimal(out, n / 10);
    }
    let c = ((n % 10) as u8 + 48u8) as char;
    out.push(c);
    assert(old(out)@ + spec_decimal(n as nat) =~= final(out)@);
}

/// The decimal numeral of `v`, as `v.to_string()` writes it.
pub fn format_i32(v: i32) -> (r: String)
    ensures
        r@ == spec_signed_decimal(v as int),
{
    let mut out = String::new();
    if v < 0 {
        out.push('-');
        let m = (0 - (v as i64)) as u64;
        push_decimal(&mut out, m);
    } else {
        push_decimal(&mut out, v as u64);
    }
    out
}

/// A numeral is a non-empty run of digits whose value is the number written.
pub proof fn lemma_decimal_digits(n: nat)
    ensures
        spec_decimal(n).len() > 0,
        all_digits(spec_decimal(n)),
        digits_value(spec_decimal(n)) == n,
    decreases n,
{
    let s = spec_decimal(n);
    let d = (n % 10) as int;
    assert(digit_value(digit_char(d)) == d);
    assert(n == (n / 10) * 10 + n % 10);
    assert(s.last() == digit_char(d));
    if n < 10 {
        assert(s.drop_last() =~= Seq::<char>::empty());
        assert(digits_value(s.drop_last()) == 0);
    } else {
        lemma_decimal_digits(n / 10);
        assert(s.drop_last() =~= spec_decimal(n / 10));
        assert forall|i: int| 0 <= i < s.len() implies is_digit(#[trigger] s[i]) by {
            if i < s.len() - 1 {
                assert(s[i] == spec_decimal(n / 10)[i]);
            }
        }
    }
}

/// Parsing the numeral that `format_i32` writes gives the number back.
pub proof fn lemma_parse_format_i32(v: i32)
    ensures
        spec_parse_i32(spec_signed_decimal(v as int)) == Some(v),
{
    let s = spec_signed_decimal(v as int);
    if v < 0 {
        let d = spec_decimal((-v) as nat);
        lemma_decimal_digits((-v) as nat);
        assert(s.skip(1) =~= d);
    } else {
        lemma_decimal_digits(v as nat);
        assert(s[0] != '+' && s[0] != '-');
    }
}


/// `c` with ASCII upper case letters turned into lower case.
pub open spec fn lower_ascii(c: char) -> char {
    if 'A' <= c <= 'Z' {
        (c as int + 32) as char
    } else {
        c
    }
}

/// Whether `s` is `t` up to ASCII case, where `t` is in lower case.
pub open spec fn eq_ignore_case(s: Seq<char>, t: Seq<char>) -> bool {
    s.len() == t.len() && forall|i: int| 0 <= i < s.len() ==> lower_ascii(#[trigger] s[i]) == t[i]
}

/// Whether `c` starts an exponent.
pub open spec fn is_exp_mark(c: char) -> bool {
    c == 'e' || c == 'E'
}

/// Digits with at most one `.` among them, and at least one digit.
pub open spec fn is_mantissa(m: Seq<char>) -> bool {
    &&& forall|i: int| 0 <= i < m.len() ==> is_digit(#[trigger] m[i]) || m[i] == '.'
    &&& forall|i: int, j: int|
        0 <= i < m.len() && 0 <= j < m.len() && #[trigger] m[i] == '.' && #[trigger] m[j] == '.'
            ==> i == j
    &&& exists|i: int| 0 <= i < m.len() && is_digit(#[trigger] m[i])
}

/// An optional sign, then one or more digits.
pub open spec fn is_exponent(x: Seq<char>) -> bool {
    let d = if x.len() > 0 && (x[0] == '+' || x[0] == '-') { x.skip(1) } else { x };
    d.len() > 0 && all_digits(d)
}

/// A mantissa, optionally followed by `e` or `E` and an exponent.
pub open spec fn is_number(b: Seq<char>) -> bool {
    ||| is_mantissa(b)
    ||| exists|k: int|
        0 <= k < b.len() && is_exp_mark(#[trigger] b[k]) && is_mantissa(b.take(k)) && is_exponent(
            b.skip(k + 1),
        )
}

/// Whether `str::parse::<f64>` accepts `s`: an optional sign, then `inf`,
/// `infinity` or `nan` in any case, or a decimal number with an optional
/// exponent.
pub open spec fn is_float_literal(s: Seq<char>) -> bool {
    let b = if s.len() > 0 && (s[0] == '+' || s[0] == '-') { s.skip(1) } else { s };
    ||| eq_ignore_case(b, seq!['i', 'n', 'f'])
    ||| eq_ignore_case(b, seq!['i', 'n', 'f', 'i', 'n', 'i', 't', 'y'])
    ||| eq_ignore_case(b, seq!['n', 'a', 'n'])
    ||| is_number(b)
}

fn lower_char(c: char) -> (r: char)
    ensures
        r == lower_ascii(c),
{
    if c >= 'A' && c <= 'Z' {
        ((c as u8) + 32) as char
    } else {
        c
    }
}

/// Whether `v[from..]` is `t` up to ASCII case.
fn ignore_case_from(v: &Vec<char>, from: usize, t: &Vec<char>) -> (r: bool)
    requires
        from <= v@.len(),
    ensures
        r == eq_ignore_case(v@.skip(from as int), t@),
{
    let n = v.len();
    if n - from != t.len() {
        return false;
    }
    let mut k: usize = 0;
    while k < t.len()
        invariant
            n == v@.len(),
            from <= n,
            n - from == t@.len(),
            k <= t@.len(),
            forall|j: int| 0 <= j < k ==> lower_ascii(#[trigger] v@.skip(from as int)[j]) == t@[j],
        decreases t@.len() - k,
    {
        assert(v@.skip(from as int)[k as int] == v@[from + k]);
        if lower_char(v[from + k]) != t[k] {
            return false;
        }
        k = k + 1;
    }
    true
}

/// Whether `v[from..to]` is a mantissa.
fn mantissa_in(v: &Vec<char>, from: usize, to: usize) -> (r: bool)
    requires
        from <= to <= v@.len(),
    ensures
        r == is_mantissa(v@.subrange(from as int, to as int)),
{
    let ghost m = v@.subrange(from as int, to as int);
    let mut k = from;
    let mut dot: Option<usize> = None;
    let mut digit = false;
    while k < to
        invariant
            from <= k <= to <= v@.len(),
            m == v@.subrange(from as int, to as int),
            forall|i: int| 0 <= i < k - from ==> is_digit(#[trigger] m[i]) || m[i] == '.',
            match dot {
                Some(p) => from <= p < k && m[p - from] == '.' && forall|i: int|
                    0 <= i < k - from && #[trigger] m[i] == '.' ==> i == p - from,
                None => forall|i: int| 0 <= i < k - from ==> #[trigger] m[i] != '.',
            },
            digit == exists|i: int| 0 <= i < k - from && is_digit(#[trigger] m[i]),
        decreases to - k,
    {
        let c = v[k];
        assert(m[k - from] == c);
        if c == '.' {
            if dot.is_some() {
                let p = dot.unwrap();
                assert(m[p - from] == '.' && m[k - from] == '.');
                return false;
            }
            dot = Some(k);
        } else if c >= '0' && c <= '9' {
            digit = true;
        } else {
            return false;
        }
        k = k + 1;
    }
    digit
}

/// Whether `v[from..]` is an exponent.
fn exponent_from(v: &Vec<char>, from: usize) -> (r: bool)
    requires
        from <= v@.len(),
    ensures
        r == is_exponent(v@.skip(from as int)),
{
    let ghost x = v@.skip(from as int);
    let signed = from < v.len() && (v[from] == '+' || v[from] == '-');
    if signed {
        assert(x.skip(1) =~= v@.skip(from + 1));
        digits_from(v, from + 1)
    } else {
        digits_from(v, from)
    }
}

/// A sequence with an exponent mark in it is no mantissa.
proof fn lemma_mark_not_mantissa(m: Seq<char>, k: int)
    requires
        0 <= k < m.len(),
        is_exp_mark(m[k]),
    ensures
        !is_mantissa(m),
{
    assert(!is_digit(m[k]) && m[k] != '.');
}

/// Whether `v[from..]` is a number.
fn number_from(v: &Vec<char>, from: usize) -> (r: bool)
    requires
        from <= v@.len(),
    ensures
        r == is_number(v@.skip(from as int)),
{
    let ghost b = v@.skip(from as int);
    let n = v.len();
    let mut k = from;
    while k < n && !(v[k] == 'e' || v[k] == 'E')
        invariant
            from <= k <= n,
            n == v@.len(),
            b == v@.skip(from as int),
            forall|j: int| 0 <= j < k - from ==> !is_exp_mark(#[trigger] b[j]),
        decreases n - k,
    {
        assert(b[k - from] == v@[k as int]);
        k = k + 1;
    }
    if k == n {
        assert(v@.subrange(from as int, n as int) =~= b);
        return mantissa_in(v, from, n);
    }
    let e = k - from;
    assert(b[e as int] == v@[k as int]);
    assert(b.take(e as int) =~= v@.subrange(from as int, k as int));
    assert(b.skip(e + 1) =~= v@.skip(k + 1));
    proof {
        lemma_mark_not_mantissa(b, e as int);
    }
    let ok = mantissa_in(v, from, k) && exponent_from(v, k + 1);
    if !ok {
        assert forall|j: int|
            0 <= j < b.len() && is_exp_mark(#[trigger] b[j]) && is_mantissa(b.take(j)) implies !is_exponent(
            b.skip(j + 1),
        ) by {
            if j > e {
                assert(b.take(j)[e as int] == b[e as int]);
                lemma_mark_not_mantissa(b.take(j), e as int);
            }
        }
    }
    ok
}

/// Whether `str::parse::<f64>` accepts `s`.
pub fn float_literal(s: &str) -> (r: bool)
    ensures
        r == is_float_literal(s@),
{
    let v = chars_of(s);
    let start: usize = if v.len() > 0 && (v[0] == '+' || v[0] == '-') { 1 } else { 0 };
    assert(start == 0 ==> v@.skip(0) =~= v@);
    let inf = vec!['i', 'n', 'f'];
    let infinity = vec!['i', 'n', 'f', 'i', 'n', 'i', 't', 'y'];
    let nan = vec!['n', 'a', 'n'];
    assert(inf@ =~= seq!['i', 'n', 'f']);
    assert(infinity@ =~= seq!['i', 'n', 'f', 'i', 'n', 'i', 't', 'y']);
    assert(nan@ =~= seq!['n', 'a', 'n']);
    ignore_case_from(&v, start, &inf) || ignore_case_from(&v, start, &infinity) || ignore_case_from(
        &v,
        start,
        &nan,
    ) || number_from(&v, start)
}

} // verus!

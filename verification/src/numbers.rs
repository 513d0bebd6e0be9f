//! Numeric text: parsing unsigned integers and recognising float literals.
//!
//! Record ids and child ids are unsigned integers in the shape `str::parse`
//! accepts for `u32`: an optional leading `+`, then one or more ASCII digits,
//! with a value that fits. Coordinates are never computed with here, so they
//! are only checked against the float-literal shape `str::parse` documents
//! (an optional sign, then `inf`, `infinity` or `nan` case-insensitively, or
//! digits with at most one dot and an optional exponent); the text itself is
//! handed through to the consumer.

use vstd::prelude::*;

use crate::text::find_char_at;

verus! {

/// An ASCII decimal digit.
pub open spec fn is_ascii_digit(c: char) -> bool {
    '0' <= c && c <= '9'
}

/// The numeric value of one digit.
pub open spec fn digit_value(c: char) -> nat {
    ((c as int) - ('0' as int)) as nat
}

/// Every character is a digit.
pub open spec fn all_digits(s: Seq<char>) -> bool {
    forall|i: int| 0 <= i < s.len() ==> is_ascii_digit(#[trigger] s[i])
}

/// The value of a digit string read most-significant first.
pub open spec fn digits_value(s: Seq<char>) -> nat
    decreases s.len(),
{
    if s.len() == 0 {
        0
    } else {
        digits_value(s.drop_last()) * 10 + digit_value(s.last())
    }
}

/// The digits of an unsigned-integer string: everything after one optional
/// leading `+`.
pub open spec fn u32_digits(s: Seq<char>) -> Seq<char> {
    if s.len() > 0 && s[0] == '+' {
        s.drop_first()
    } else {
        s
    }
}

/// Whether `s` is what `u32` parsing accepts: an optional `+`, then one or
/// more digits, with a value of at most `u32::MAX`.
pub open spec fn is_u32_string(s: Seq<char>) -> bool {
    let d = u32_digits(s);
    d.len() > 0 && all_digits(d) && digits_value(d) <= u32::MAX
}

/// What parsing `s` as a `u32` returns.
pub open spec fn parse_u32(s: Seq<char>) -> Option<u32> {
    if is_u32_string(s) {
        Some(digits_value(u32_digits(s)) as u32)
    } else {
        None
    }
}

/// A digit string is worth at least as much as any of its prefixes.
proof fn lemma_digits_value_prefix(s: Seq<char>, j: int)
    requires
        0 <= j <= s.len(),
    ensures
        digits_value(s.subrange(0, j)) <= digits_value(s),
    decreases s.len() - j,
{
    if j == s.len() {
        assert(s.subrange(0, j) =~= s);
    } else {
        assert(s.subrange(0, j + 1).drop_last() =~= s.subrange(0, j));
        assert(s.subrange(0, j + 1).last() == s[j]);
        lemma_digits_value_prefix(s, j + 1);
    }
}

/// Parse the characters of `s` as a `u32`, as `str::parse` would.
#[verifier::loop_isolation(false)]
pub fn parse_u32_exec(s: &Vec<char>) -> (r: Option<u32>)
    ensures
        r == parse_u32(s@),
{
    let start: usize = if s.len() > 0 && s[0] == '+' {
        1
    } else {
        0
    };
    let ghost d = u32_digits(s@);
    assert(d =~= s@.subrange(start as int, s@.len() as int));
    if start == s.len() {
        return None;
    }
    let mut acc: u64 = 0;
    let mut i: usize = start;
    while i < s.len()
        invariant
            start <= i <= s@.len(),
            start < s@.len(),
            d == s@.subrange(start as int, s@.len() as int),
            acc == digits_value(d.subrange(0, i - start)),
            acc <= u32::MAX,
            forall|j: int| start <= j < i ==> is_ascii_digit(#[trigger] s@[j]),
        decreases s@.len() - i,
    {
        let c = s[i];
        if !('0' <= c && c <= '9') {
            assert(d[i - start] == s@[i as int]);
            assert(!all_digits(d));
            return None;
        }
        let dv: u64 = (c as u32 as u64) - 48;
        let next: u64 = acc * 10 + dv;
        let ghost k = i - start;
        assert(d.subrange(0, k + 1).drop_last() =~= d.subrange(0, k));
        assert(d.subrange(0, k + 1).last() == s@[i as int]);
        assert(digits_value(d.subrange(0, k + 1)) == acc * 10 + dv);
        if next > 0xffff_ffff {
            proof {
                lemma_digits_value_prefix(d, k + 1);
            }
            assert(digits_value(d) > u32::MAX);
            return None;
        }
        acc = next;
        i = i + 1;
    }
    assert(d.subrange(0, d.len() as int) =~= d);
    assert forall|k: int| 0 <= k < d.len() implies is_ascii_digit(#[trigger] d[k]) by {
        assert(d[k] == s@[start + k]);
    }
    assert(is_u32_string(s@));
    Some(acc as u32)
}

/// Everything after one optional leading `+` or `-`.
pub open spec fn strip_sign(s: Seq<char>) -> Seq<char> {
    if s.len() > 0 && (s[0] == '+' || s[0] == '-') {
        s.drop_first()
    } else {
        s
    }
}

/// `s` equals the keyword whose lower-case and upper-case spellings are
/// given, matching each character case-insensitively.
pub open spec fn matches_keyword(s: Seq<char>, low: Seq<char>, up: Seq<char>) -> bool {
    s.len() == low.len() && (forall|i: int|
        0 <= i < s.len() ==> (#[trigger] s[i]) == low[i] || s[i] == up[i])
}

/// A mantissa: digits with at most one dot and at least one digit.
pub open spec fn is_mantissa(s: Seq<char>) -> bool {
    match find_char_at(s, 0, '.') {
        None => s.len() > 0 && all_digits(s),
        Some(d) => {
            let before = s.subrange(0, d);
            let after = s.subrange(d + 1, s.len() as int);
            all_digits(before) && all_digits(after) && (before.len() > 0 || after.len() > 0)
        },
    }
}

/// An exponent tail: an optional sign, then one or more digits.
pub open spec fn is_exponent(s: Seq<char>) -> bool {
    let d = strip_sign(s);
    d.len() > 0 && all_digits(d)
}

/// Index of the first `e` or `E` at or after `from`, if any.
pub open spec fn find_exp_at(s: Seq<char>, from: int) -> Option<int>
    decreases s.len() - from,
{
    if from < 0 || from >= s.len() {
        None
    } else if s[from] == 'e' || s[from] == 'E' {
        Some(from)
    } else {
        find_exp_at(s, from + 1)
    }
}

proof fn lemma_find_exp_at(s: Seq<char>, from: int)
    requires
        0 <= from,
    ensures
        match find_exp_at(s, from) {
            Some(i) => from <= i < s.len() && (s[i] == 'e' || s[i] == 'E'),
            None => true,
        },
    decreases s.len() - from,
{
    if from < s.len() && !(s[from] == 'e' || s[from] == 'E') {
        lemma_find_exp_at(s, from + 1);
    }
}

/// A number body: a mantissa, optionally followed by `e` or `E` and an
/// exponent.
pub open spec fn is_number_body(s: Seq<char>) -> bool {
    match find_exp_at(s, 0) {
        None => is_mantissa(s),
        Some(i) => is_mantissa(s.subrange(0, i)) && is_exponent(
            s.subrange(i + 1, s.len() as int),
        ),
    }
}

/// Whether `s` is what `f32` parsing accepts: an optional sign, then `inf`,
/// `infinity` or `nan` in any letter case, or a number body.
pub open spec fn is_float_literal(s: Seq<char>) -> bool {
    let body = strip_sign(s);
    ||| matches_keyword(body, seq!['i', 'n', 'f'], seq!['I', 'N', 'F'])
    ||| matches_keyword(
        body,
        seq!['i', 'n', 'f', 'i', 'n', 'i', 't', 'y'],
        seq!['I', 'N', 'F', 'I', 'N', 'I', 'T', 'Y'],
    )
    ||| matches_keyword(body, seq!['n', 'a', 'n'], seq!['N', 'A', 'N'])
    ||| is_number_body(body)
}

/// Whether the characters of `s` at positions `from..to` are all digits.
fn all_digits_exec(s: &Vec<char>, from: usize, to: usize) -> (r: bool)
    requires
        from <= to <= s@.len(),
    ensures
        r == all_digits(s@.subrange(from as int, to as int)),
{
    let ghost part = s@.subrange(from as int, to as int);
    let mut i: usize = from;
    while i < to
        invariant
            from <= i <= to <= s@.len(),
            part == s@.subrange(from as int, to as int),
            forall|j: int| from <= j < i ==> is_ascii_digit(#[trigger] s@[j]),
        decreases to - i,
    {
        let c = s[i];
        if !('0' <= c && c <= '9') {
            assert(part[i - from] == s@[i as int]);
            return false;
        }
        i = i + 1;
    }
    assert forall|j: int| 0 <= j < part.len() implies is_ascii_digit(#[trigger] part[j]) by {
        assert(part[j] == s@[from + j]);
    }
    true
}

/// Whether the characters of `s` at positions `from..to` match the keyword.
fn matches_keyword_exec(s: &Vec<char>, from: usize, to: usize, low: &Vec<char>, up: &Vec<
    char,
>) -> (r: bool)
    requires
        from <= to <= s@.len(),
        low@.len() == up@.len(),
    ensures
        r == matches_keyword(s@.subrange(from as int, to as int), low@, up@),
{
    let ghost part = s@.subrange(from as int, to as int);
    if to - from != low.len() {
        return false;
    }
    let mut i: usize = 0;
    while i < low.len()
        invariant
            i <= low@.len(),
            from + low@.len() == to,
            to <= s@.len(),
            low@.len() == up@.len(),
            part == s@.subrange(from as int, to as int),
            forall|j: int| 0 <= j < i ==> (#[trigger] part[j]) == low@[j] || part[j] == up@[j],
        decreases low@.len() - i,
    {
        let c = s[from + i];
        assert(part[i as int] == s@[from + i]);
        if c != low[i] && c != up[i] {
            return false;
        }
        i = i + 1;
    }
    true
}

/// Index of the first `e` or `E` at or after `from`, if any.
fn find_exp_exec(s: &Vec<char>, from: usize) -> (r: Option<usize>)
    ensures
        match r {
            Some(i) => from <= i < s@.len() && find_exp_at(s@, from as int) == Some(i as int),
            None => find_exp_at(s@, from as int) is None,
        },
{
    let mut i: usize = from;
    while i < s.len()
        invariant
            from <= i,
            find_exp_at(s@, from as int) == find_exp_at(s@, i as int),
        decreases s@.len() - i,
    {
        if s[i] == 'e' || s[i] == 'E' {
            return Some(i);
        }
        i = i + 1;
    }
    None
}

/// Whether the characters of `s` at positions `from..to` form a mantissa.
fn is_mantissa_exec(s: &Vec<char>, from: usize, to: usize) -> (r: bool)
    requires
        from <= to <= s@.len(),
    ensures
        r == is_mantissa(s@.subrange(from as int, to as int)),
{
    let ghost part = s@.subrange(from as int, to as int);
    let dot = crate::text::find_char_exec(s, from, '.');
    proof {
        crate::text::lemma_find_char_within(s@, from as int, to as int, '.');
    }
    match dot {
        Some(p) if p < to => {
            assert(part.subrange(0, p - from) =~= s@.subrange(from as int, p as int));
            assert(part.subrange(p - from + 1, part.len() as int) =~= s@.subrange(
                p + 1 as int,
                to as int,
            ));
            let before = all_digits_exec(s, from, p);
            let after = all_digits_exec(s, p + 1, to);
            before && after && (p > from || p + 1 < to)
        },
        _ => {
            assert(find_char_at(part, 0, '.') is None);
            if from == to {
                false
            } else {
                all_digits_exec(s, from, to)
            }
        },
    }
}

/// Whether the characters of `s` at positions `from..to` form a float
/// literal.
pub fn is_float_literal_exec(s: &Vec<char>, from: usize, to: usize) -> (r: bool)
    requires
        from <= to <= s@.len(),
    ensures
        r == is_float_literal(s@.subrange(from as int, to as int)),
{
    let ghost part = s@.subrange(from as int, to as int);
    let body_from: usize = if from < to && (s[from] == '+' || s[from] == '-') {
        1 + from
    } else {
        from
    };
    let ghost body = strip_sign(part);
    assert(body =~= s@.subrange(body_from as int, to as int));
    if body_from < to {
        assert(part[body_from - from] == s@[body_from as int]);
    }
    let inf_low: Vec<char> = vec!['i', 'n', 'f'];
    let inf_up: Vec<char> = vec!['I', 'N', 'F'];
    if matches_keyword_exec(s, body_from, to, &inf_low, &inf_up) {
        assert(inf_low@ =~= seq!['i', 'n', 'f']);
        assert(inf_up@ =~= seq!['I', 'N', 'F']);
        return true;
    }
    let infinity_low: Vec<char> = vec!['i', 'n', 'f', 'i', 'n', 'i', 't', 'y'];
    let infinity_up: Vec<char> = vec!['I', 'N', 'F', 'I', 'N', 'I', 'T', 'Y'];
    if matches_keyword_exec(s, body_from, to, &infinity_low, &infinity_up) {
        assert(infinity_low@ =~= seq!['i', 'n', 'f', 'i', 'n', 'i', 't', 'y']);
        assert(infinity_up@ =~= seq!['I', 'N', 'F', 'I', 'N', 'I', 'T', 'Y']);
        return true;
    }
    let nan_low: Vec<char> = vec!['n', 'a', 'n'];
    let nan_up: Vec<char> = vec!['N', 'A', 'N'];
    if matches_keyword_exec(s, body_from, to, &nan_low, &nan_up) {
        assert(nan_low@ =~= seq!['n', 'a', 'n']);
        assert(nan_up@ =~= seq!['N', 'A', 'N']);
        return true;
    }
    proof {
        assert(inf_low@ =~= seq!['i', 'n', 'f']);
        assert(inf_up@ =~= seq!['I', 'N', 'F']);
        assert(infinity_low@ =~= seq!['i', 'n', 'f', 'i', 'n', 'i', 't', 'y']);
        assert(infinity_up@ =~= seq!['I', 'N', 'F', 'I', 'N', 'I', 'T', 'Y']);
        assert(nan_low@ =~= seq!['n', 'a', 'n']);
        assert(nan_up@ =~= seq!['N', 'A', 'N']);
    }
    // A number body: mantissa, optionally e/E and an exponent.
    let exp_pos = find_exp_exec(s, body_from);
    proof {
        lemma_find_exp_within(s@, body_from as int, to as int);
    }
    match exp_pos {
        Some(i) if i < to => {
            assert(find_exp_at(body, 0) == Some(i - body_from));
            assert(body.subrange(0, i - body_from) =~= s@.subrange(body_from as int, i as int));
            assert(body.subrange(i - body_from + 1, body.len() as int) =~= s@.subrange(
                i + 1 as int,
                to as int,
            ));
            let mant = is_mantissa_exec(s, body_from, i);
            if !mant {
                return false;
            }
            // Exponent: optional sign, then one or more digits.
            let ghost etail = s@.subrange(i + 1 as int, to as int);
            let exp_from: usize = if i + 1 < to && (s[i + 1] == '+' || s[i + 1] == '-') {
                i + 2
            } else {
                i + 1
            };
            if i + 1 < to {
                assert(etail[0] == s@[i + 1 as int]);
            }
            assert(strip_sign(etail) =~= s@.subrange(exp_from as int, to as int));
            if exp_from == to {
                return false;
            }
            all_digits_exec(s, exp_from, to)
        },
        _ => {
            assert(find_exp_at(body, 0) is None);
            is_mantissa_exec(s, body_from, to)
        },
    }
}

/// An `e`/`E` search inside a subrange agrees with one on the whole text.
proof fn lemma_find_exp_within(s: Seq<char>, from: int, to: int)
    requires
        0 <= from <= to <= s.len(),
    ensures
        ({
            let part = s.subrange(from, to);
            match find_exp_at(s, from) {
                Some(i) => if i < to {
                    find_exp_at(part, 0) == Some(i - from)
                } else {
                    find_exp_at(part, 0) is None
                },
                None => find_exp_at(part, 0) is None,
            }
        }),
{
    let part = s.subrange(from, to);
    lemma_find_exp_at(s, from);
    lemma_find_exp_within_rec(s, from, to, from);
}

proof fn lemma_find_exp_within_rec(s: Seq<char>, from: int, to: int, at: int)
    requires
        0 <= from <= at <= to <= s.len(),
    ensures
        ({
            let part = s.subrange(from, to);
            match find_exp_at(s, at) {
                Some(i) => if i < to {
                    find_exp_at(part, at - from) == Some(i - from)
                } else {
                    find_exp_at(part, at - from) is None
                },
                None => find_exp_at(part, at - from) is None,
            }
        }),
    decreases to - at,
{
    let part = s.subrange(from, to);
    if at < to {
        assert(part[at - from] == s[at]);
        if !(s[at] == 'e' || s[at] == 'E') {
            lemma_find_exp_within_rec(s, from, to, at + 1);
        }
    } else {
        lemma_find_exp_at(s, at);
    }
}

} // verus!

//! Version strings as the control plane and the nodes report them
//! (`v1.20.7-eks-123456`, `1.22`): their minor number, their `major.minor`
//! form, and the version an upgrade moves to.
use vstd::prelude::*;

use crate::error::CheckError;
use crate::text::{
    all_digits, char_is_digit, chars_of, decimal, digits_value, find_char, find_from, is_digit,
    lemma_digits_value_prefix, lemma_find_from_bounds, lemma_find_from_stops, push_char,
    push_decimal, push_range,
};

verus! {

/// Position of the dot that ends the major segment, or the length when there is none.
pub open spec fn first_dot(s: Seq<char>) -> int {
    find_from(s, '.', 0)
}

/// Position where the minor segment ends: the next dot, or the end.
pub open spec fn second_dot(s: Seq<char>) -> int {
    find_from(s, '.', first_dot(s) + 1)
}

/// The string has at least two dot-separated segments.
pub open spec fn has_minor(s: Seq<char>) -> bool {
    first_dot(s) < s.len()
}

/// The first dot-separated segment.
pub open spec fn major_segment(s: Seq<char>) -> Seq<char> {
    s.subrange(0, first_dot(s))
}

/// The second dot-separated segment (meaningful where `has_minor`).
pub open spec fn minor_segment(s: Seq<char>) -> Seq<char> {
    s.subrange(first_dot(s) + 1, second_dot(s))
}

/// A non-empty run of decimal digits.
pub open spec fn is_digit_run(t: Seq<char>) -> bool {
    t.len() > 0 && all_digits(t)
}

/// A non-empty run of decimal digits whose value fits in a `u32`.
pub open spec fn is_u32_digits(t: Seq<char>) -> bool {
    is_digit_run(t) && digits_value(t) <= u32::MAX
}

/// The digits of a numeral: the numeral without its leading `+`, if any.
pub open spec fn unsigned_digits(t: Seq<char>) -> Seq<char> {
    if t.len() > 0 && t[0] == '+' {
        t.drop_first()
    } else {
        t
    }
}

/// A `u32` numeral as unsigned integers are written: an optional `+`, then
/// digits whose value fits in a `u32`.
pub open spec fn is_u32_numeral(t: Seq<char>) -> bool {
    is_u32_digits(unsigned_digits(t))
}

/// The minor version of `s`, where its second segment is a `u32` numeral.
pub open spec fn minor_version(s: Seq<char>) -> Option<nat> {
    if has_minor(s) && is_u32_numeral(minor_segment(s)) {
        Some(digits_value(unsigned_digits(minor_segment(s))))
    } else {
        None
    }
}

/// `s` without the non-digit characters that lead it (a `v` marker).
pub open spec fn strip_leading_non_digits(s: Seq<char>) -> Seq<char>
    decreases s.len(),
{
    if s.len() > 0 && !is_digit(s[0]) {
        strip_leading_non_digits(s.drop_first())
    } else {
        s
    }
}

/// `s` has a `major.minor` form: once its non-digit prefix is dropped, the
/// major segment is a run of digits, and so is the minor segment.
pub open spec fn has_normal_form(s: Seq<char>) -> bool {
    &&& has_minor(s)
    &&& is_digit_run(strip_leading_non_digits(major_segment(s)))
    &&& is_digit_run(minor_segment(s))
}

/// The `major.minor` form of `s`: the major segment without its prefix,
/// a dot, and the minor segment; patch and build parts are left out.
pub open spec fn normalized(s: Seq<char>) -> Seq<char> {
    strip_leading_non_digits(major_segment(s)) + seq!['.'] + minor_segment(s)
}

/// The version one minor step above minor version `minor`: `1.{minor + 1}`.
pub open spec fn target_version(minor: nat) -> Seq<char> {
    seq!['1', '.'] + decimal(minor + 1)
}

/// The value of the digits `s[from..to]`, where they fit in a `u32`.
fn parse_digits(s: &Vec<char>, from: usize, to: usize) -> (r: Option<u32>)
    requires
        from <= to <= s.len(),
    ensures
        ({
            let t = s@.subrange(from as int, to as int);
            match r {
                Some(v) => is_u32_digits(t) && v == digits_value(t),
                None => !is_u32_digits(t),
            }
        }),
{
    if from == to {
        return None;
    }
    let ghost t = s@.subrange(from as int, to as int);
    let mut acc: u64 = 0;
    let mut i = from;
    while i < to
        invariant
            from <= i <= to <= s.len(),
            t == s@.subrange(from as int, to as int),
            all_digits(s@.subrange(from as int, i as int)),
            acc == digits_value(s@.subrange(from as int, i as int)),
            acc <= u32::MAX,
        decreases to - i,
    {
        let c = s[i];
        if !char_is_digit(c) {
            assert(t[i - from] == c);
            return None;
        }
        let d = ((c as u32) - ('0' as u32)) as u64;
        let ghost prev = s@.subrange(from as int, i as int);
        assert(s@.subrange(from as int, i + 1).drop_last() =~= prev);
        acc = acc * 10 + d;
        i = i + 1;
        let ghost cur = s@.subrange(from as int, i as int);
        assert(all_digits(cur)) by {
            assert forall|j: int| 0 <= j < cur.len() implies is_digit(#[trigger] cur[j]) by {
                if j < cur.len() - 1 {
                    assert(cur[j] == prev[j]);
                }
            }
        }
        if acc > u32::MAX as u64 {
            proof {
                if all_digits(t) {
                    assert(t.take(i - from) =~= cur);
                    lemma_digits_value_prefix(t, i - from);
                }
            }
            return None;
        }
    }
    assert(s@.subrange(from as int, i as int) =~= t);
    Some(acc as u32)
}

/// The value of the numeral `s[from..to]`, where it is a `u32` numeral.
fn parse_u32(s: &Vec<char>, from: usize, to: usize) -> (r: Option<u32>)
    requires
        from <= to <= s.len(),
    ensures
        ({
            let t = s@.subrange(from as int, to as int);
            match r {
                Some(v) => is_u32_numeral(t) && v == digits_value(unsigned_digits(t)),
                None => !is_u32_numeral(t),
            }
        }),
{
    let ghost t = s@.subrange(from as int, to as int);
    if from < to && s[from] == '+' {
        assert(s@.subrange(from + 1, to as int) =~= t.drop_first());
        parse_digits(s, from + 1, to)
    } else {
        parse_digits(s, from, to)
    }
}

/// Whether `s[from..to]` is a non-empty run of digits.
fn is_digit_run_at(s: &Vec<char>, from: usize, to: usize) -> (r: bool)
    requires
        from <= to <= s.len(),
    ensures
        r == is_digit_run(s@.subrange(from as int, to as int)),
{
    if from == to {
        return false;
    }
    let mut i = from;
    while i < to
        invariant
            from <= i <= to <= s.len(),
            forall|j: int| from <= j < i ==> is_digit(#[trigger] s@[j]),
        decreases to - i,
    {
        if !char_is_digit(s[i]) {
            assert(s@.subrange(from as int, to as int)[i - from] == s@[i as int]);
            return false;
        }
        i = i + 1;
    }
    assert forall|j: int| 0 <= j < to - from implies is_digit(
        #[trigger] s@.subrange(from as int, to as int)[j],
    ) by {
        assert(s@.subrange(from as int, to as int)[j] == s@[from + j]);
    }
    true
}

/// The minor version of `version`: its second dot-separated segment as a
/// number (`v1.20.7-eks-123456` gives 20). Whatever follows the second
/// segment is not read.
pub fn parse_minor_version(version: &str) -> (r: Result<u32, CheckError>)
    ensures
        match r {
            Ok(v) => minor_version(version@) == Some(v as nat),
            Err(e) => minor_version(version@) is None && e == CheckError::MalformedVersion,
        },
{
    let cs = chars_of(version);
    let d1 = find_char(&cs, '.', 0);
    if d1 >= cs.len() {
        return Err(CheckError::MalformedVersion);
    }
    let d2 = find_char(&cs, '.', d1 + 1);
    proof {
        lemma_find_from_bounds(cs@, '.', d1 + 1);
    }
    match parse_u32(&cs, d1 + 1, d2) {
        Some(v) => Ok(v),
        None => Err(CheckError::MalformedVersion),
    }
}

/// The `major.minor` form of `version` (`v1.20.7-eks-123456` gives `1.20`):
/// the non-digit prefix of the major segment is dropped, and so is all that
/// follows the minor segment. A string without a dot, or whose major or
/// minor part is not a run of digits, has no such form.
pub fn normalize_version(version: &str) -> (r: Result<String, CheckError>)
    ensures
        match r {
            Ok(v) => has_normal_form(version@) && v@ == normalized(version@),
            Err(e) => !has_normal_form(version@) && e == CheckError::MalformedVersion,
        },
{
    let cs = chars_of(version);
    let d1 = find_char(&cs, '.', 0);
    if d1 >= cs.len() {
        return Err(CheckError::MalformedVersion);
    }
    let d2 = find_char(&cs, '.', d1 + 1);
    proof {
        lemma_find_from_bounds(cs@, '.', 0);
        lemma_find_from_bounds(cs@, '.', d1 + 1);
    }
    let mut j: usize = 0;
    while j < d1 && !char_is_digit(cs[j])
        invariant
            j <= d1 < cs.len(),
            strip_leading_non_digits(cs@.subrange(0, d1 as int)) == strip_leading_non_digits(
                cs@.subrange(j as int, d1 as int),
            ),
        decreases d1 - j,
    {
        assert(cs@.subrange(j as int, d1 as int).drop_first() =~= cs@.subrange(
            j + 1,
            d1 as int,
        ));
        j = j + 1;
    }
    assert(cs@.subrange(j as int, d1 as int) =~= cs@.subrange(0, d1 as int).subrange(
        j as int,
        d1 as int,
    ));
    assert(major_segment(version@) =~= cs@.subrange(0, d1 as int));
    if j == d1 || !is_digit_run_at(&cs, j, d1) || !is_digit_run_at(&cs, d1 + 1, d2) {
        return Err(CheckError::MalformedVersion);
    }
    let mut out = String::new();
    push_range(&mut out, &cs, j, d1);
    push_char(&mut out, '.');
    push_range(&mut out, &cs, d1 + 1, d2);
    assert(out@ =~= normalized(version@));
    Ok(out)
}

/// The version that an upgrade from `current` moves to: `1.{minor + 1}`.
pub fn get_target_version(current: &str) -> (r: Result<String, CheckError>)
    ensures
        match r {
            Ok(v) => minor_version(current@) is Some && v@ == target_version(
                minor_version(current@)->0,
            ),
            Err(e) => minor_version(current@) is None && e == CheckError::MalformedVersion,
        },
{
    let minor = parse_minor_version(current)?;
    let mut out = String::new();
    push_char(&mut out, '1');
    push_char(&mut out, '.');
    push_decimal(&mut out, minor as u64 + 1);
    assert(out@ =~= target_version(minor as nat));
    Ok(out)
}

/// Stripping keeps a suffix of the input, one that starts with a digit
/// unless it is empty, and stripping again keeps all of it.
pub proof fn lemma_strip(t: Seq<char>)
    ensures
        strip_leading_non_digits(t).len() <= t.len(),
        strip_leading_non_digits(t) == t.subrange(
            t.len() - strip_leading_non_digits(t).len(),
            t.len() as int,
        ),
        strip_leading_non_digits(t).len() > 0 ==> is_digit(strip_leading_non_digits(t)[0]),
        strip_leading_non_digits(strip_leading_non_digits(t)) == strip_leading_non_digits(t),
    decreases t.len(),
{
    if t.len() > 0 && !is_digit(t[0]) {
        lemma_strip(t.drop_first());
        let r = strip_leading_non_digits(t.drop_first());
        assert(t.drop_first().subrange(t.drop_first().len() - r.len(), t.drop_first().len() as int)
            =~= t.subrange(t.len() - r.len(), t.len() as int));
    } else {
        assert(t.subrange(0, t.len() as int) =~= t);
    }
}

/// Normalizing a normalized version gives it back unchanged.
pub proof fn lemma_normalize_idempotent(s: Seq<char>)
    requires
        has_normal_form(s),
    ensures
        has_normal_form(normalized(s)),
        normalized(normalized(s)) == normalized(s),
{
    let t = major_segment(s);
    let m = minor_segment(s);
    let big_m = strip_leading_non_digits(t);
    let n = normalized(s);
    lemma_find_from_bounds(s, '.', 0);
    lemma_find_from_bounds(s, '.', first_dot(s) + 1);
    lemma_strip(t);
    let off = t.len() - big_m.len();
    assert forall|j: int| 0 <= j < big_m.len() implies n[j] != '.' by {
        assert(n[j] == big_m[j]);
        assert(big_m[j] == t[off + j]);
        assert(t[off + j] == s[off + j]);
    }
    assert(n[big_m.len() as int] == '.');
    lemma_find_from_stops(n, '.', 0, big_m.len() as int);
    assert forall|j: int| big_m.len() + 1 <= j < n.len() implies n[j] != '.' by {
        assert(n[j] == m[j - big_m.len() - 1]);
        assert(m[j - big_m.len() - 1] == s[first_dot(s) + 1 + j - big_m.len() - 1]);
    }
    lemma_find_from_stops(n, '.', big_m.len() as int + 1, n.len() as int);
    assert(major_segment(n) =~= big_m);
    assert(minor_segment(n) =~= m);
}

/// A version written `v<major>.<minor>.<rest>`, with decimal major and minor
/// numbers, normalizes to `<major>.<minor>`, whatever `rest` holds.
pub proof fn lemma_normalize_tagged(major: Seq<char>, minor: Seq<char>, rest: Seq<char>)
    requires
        major.len() > 0,
        all_digits(major),
        minor.len() > 0,
        all_digits(minor),
    ensures
        has_normal_form(seq!['v'] + major + seq!['.'] + minor + seq!['.'] + rest),
        normalized(seq!['v'] + major + seq!['.'] + minor + seq!['.'] + rest) == major + seq!['.']
            + minor,
{
    let s = seq!['v'] + major + seq!['.'] + minor + seq!['.'] + rest;
    let d1 = major.len() as int + 1;
    let d2 = major.len() as int + minor.len() as int + 2;
    assert forall|j: int| 0 <= j < d1 implies s[j] != '.' by {
        if j > 0 {
            assert(s[j] == major[j - 1]);
            assert(is_digit(major[j - 1]));
        }
    }
    assert(s[d1] == '.');
    lemma_find_from_stops(s, '.', 0, d1);
    assert forall|j: int| d1 + 1 <= j < d2 implies s[j] != '.' by {
        assert(s[j] == minor[j - d1 - 1]);
        assert(is_digit(minor[j - d1 - 1]));
    }
    assert(s[d2] == '.');
    lemma_find_from_stops(s, '.', d1 + 1, d2);
    let t = major_segment(s);
    assert(t =~= seq!['v'] + major);
    assert(t.drop_first() =~= major);
    assert(is_digit(major[0]));
    assert(strip_leading_non_digits(major) == major);
    assert(t[0] == 'v' && !is_digit(t[0]));
    assert(strip_leading_non_digits(t) == strip_leading_non_digits(t.drop_first()));
    assert(minor_segment(s) =~= minor);
    assert(normalized(s) =~= major + seq!['.'] + minor);
}

} // verus!

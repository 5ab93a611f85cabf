//! Character-level helpers on strings, each proved against a spec function.
use vstd::prelude::*;

verus! {

/// The characters of `s`, in order.
pub fn chars_of(s: &str) -> (r: Vec<char>)
    ensures
        r@ == s@,
{
    let mut out: Vec<char> = Vec::new();
    for c in it: s.chars()
        invariant
            it.seq() == s@,
            out@ == it.seq().take(it.index() as int),
    {
        out.push(c);
    }
    out
}

/// Relies on `String::push`: appends one character at the end.
#[verifier::external_body]
pub(crate) fn push_char(s: &mut String, c: char)
    ensures
        final(s)@ == old(s)@.push(c),
{
    s.push(c)
}

/// A string holding exactly the characters of `v`.
pub fn string_of(v: &Vec<char>) -> (r: String)
    ensures
        r@ == v@,
{
    let mut out = String::new();
    let mut i: usize = 0;
    while i < v.len()
        invariant
            i <= v.len(),
            out@ == v@.take(i as int),
        decreases v.len() - i,
    {
        push_char(&mut out, v[i]);
        i = i + 1;
        assert(out@ =~= v@.take(i as int));
    }
    assert(v@.take(v.len() as int) =~= v@);
    out
}

/// Whether `c` is one of the ASCII digits `0` to `9`.
pub open spec fn is_digit(c: char) -> bool {
    '0' <= c <= '9'
}

/// The numeric value of an ASCII digit.
pub open spec fn digit_value(c: char) -> nat {
    ((c as u32) - ('0' as u32)) as nat
}

/// The ASCII digit whose value is `d`.
pub open spec fn digit_char(d: nat) -> char {
    seq!['0', '1', '2', '3', '4', '5', '6', '7', '8', '9'][d as int]
}

/// Every character of `s` is a digit.
pub open spec fn all_digits(s: Seq<char>) -> bool {
    forall|i: int| 0 <= i < s.len() ==> is_digit(#[trigger] s[i])
}

/// The number that the digits `s` spell in base ten (0 for no digits).
pub open spec fn digits_value(s: Seq<char>) -> nat
    decreases s.len(),
{
    if s.len() == 0 {
        0
    } else {
        digits_value(s.drop_last()) * 10 + digit_value(s.last())
    }
}

/// The base-ten spelling of `n`, without leading zeros.
pub open spec fn decimal(n: nat) -> Seq<char>
    decreases n,
{
    if n < 10 {
        seq![digit_char(n)]
    } else {
        decimal(n / 10).push(digit_char(n % 10))
    }
}

/// The first position at or after `i` where `s` holds `c`, or `s.len()`.
pub open spec fn find_from(s: Seq<char>, c: char, i: int) -> int
    decreases s.len() - i,
{
    if 0 <= i < s.len() {
        if s[i] == c {
            i
        } else {
            find_from(s, c, i + 1)
        }
    } else {
        s.len() as int
    }
}

/// Where no `c` stands in `s[i..k]` and `k` is the end of `s` or holds `c`,
/// the search from `i` stops at `k`.
pub proof fn lemma_find_from_stops(s: Seq<char>, c: char, i: int, k: int)
    requires
        0 <= i <= k <= s.len(),
        forall|j: int| i <= j < k ==> s[j] != c,
        k == s.len() || s[k] == c,
    ensures
        find_from(s, c, i) == k,
    decreases k - i,
{
    if i < k {
        lemma_find_from_stops(s, c, i + 1, k);
    }
}

/// The search from `i` stops at the end or on a `c`, and passes no `c` on its way.
pub proof fn lemma_find_from_bounds(s: Seq<char>, c: char, i: int)
    requires
        0 <= i <= s.len(),
    ensures
        i <= find_from(s, c, i) <= s.len(),
        find_from(s, c, i) == s.len() || s[find_from(s, c, i)] == c,
        forall|j: int| i <= j < find_from(s, c, i) ==> s[j] != c,
    decreases s.len() - i,
{
    if i < s.len() && s[i] != c {
        lemma_find_from_bounds(s, c, i + 1);
    }
}

/// The first position at or after `from` where `s` holds `c`, or `s.len()`.
pub fn find_char(s: &Vec<char>, c: char, from: usize) -> (r: usize)
    requires
        from <= s.len(),
    ensures
        r == find_from(s@, c, from as int),
{
    let mut i = from;
    while i < s.len() && s[i] != c
        invariant
            from <= i <= s.len(),
            find_from(s@, c, from as int) == find_from(s@, c, i as int),
        decreases s.len() - i,
    {
        i = i + 1;
    }
    i
}

/// Whether `c` is one of the ASCII digits `0` to `9`.
pub fn char_is_digit(c: char) -> (r: bool)
    ensures
        r == is_digit(c),
{
    '0' <= c && c <= '9'
}

/// The ASCII digit whose value is `d`.
pub fn digit_to_char(d: u64) -> (c: char)
    requires
        d < 10,
    ensures
        c == digit_char(d as nat),
{
    match d {
        0 => '0',
        1 => '1',
        2 => '2',
        3 => '3',
        4 => '4',
        5 => '5',
        6 => '6',
        7 => '7',
        8 => '8',
        _ => '9',
    }
}

/// Appends the base-ten spelling of `n` to `out`.
pub fn push_decimal(out: &mut String, n: u64)
    ensures
        final(out)@ == old(out)@ + decimal(n as nat),
    decreases n,
{
    if n >= 10 {
        push_decimal(out, n / 10);
    }
    push_char(out, digit_to_char(n % 10));
    proof {
        if n >= 10 {
            assert(decimal(n as nat) == decimal((n / 10) as nat).push(digit_char((n % 10) as nat)));
        }
    }
    assert(final(out)@ =~= old(out)@ + decimal(n as nat));
}

/// Appends the characters `s[from..to]` to `out`.
pub fn push_range(out: &mut String, s: &Vec<char>, from: usize, to: usize)
    requires
        from <= to <= s.len(),
    ensures
        final(out)@ == old(out)@ + s@.subrange(from as int, to as int),
{
    let mut i = from;
    while i < to
        invariant
            from <= i <= to <= s.len(),
            out@ == old(out)@ + s@.subrange(from as int, i as int),
        decreases to - i,
    {
        push_char(out, s[i]);
        i = i + 1;
        assert(out@ =~= old(out)@ + s@.subrange(from as int, i as int));
    }
}

/// The digits of a prefix never spell more than the whole.
pub proof fn lemma_digits_value_prefix(s: Seq<char>, k: int)
    requires
        0 <= k <= s.len(),
    ensures
        digits_value(s.take(k)) <= digits_value(s),
    decreases s.len(),
{
    if k < s.len() {
        lemma_digits_value_prefix(s.drop_last(), k);
        assert(s.drop_last().take(k) =~= s.take(k));
    } else {
        assert(s.take(k) =~= s);
    }
}

/// The views of a list of strings.
pub open spec fn views(v: Seq<String>) -> Seq<Seq<char>> {
    v.map_values(|s: String| s@)
}

/// The pieces of `s` between the occurrences of `c`; as many pieces as
/// there are occurrences plus one (the empty string gives one empty piece).
pub open spec fn split_on(s: Seq<char>, c: char) -> Seq<Seq<char>>
    decreases s.len(),
{
    if s.len() == 0 {
        seq![Seq::empty()]
    } else {
        let p = split_on(s.drop_last(), c);
        if s.last() == c {
            p.push(Seq::empty())
        } else {
            p.update(p.len() - 1, p.last().push(s.last()))
        }
    }
}

/// Splitting always gives at least one piece.
pub proof fn lemma_split_on_nonempty(s: Seq<char>, c: char)
    ensures
        split_on(s, c).len() >= 1,
    decreases s.len(),
{
    if s.len() > 0 {
        lemma_split_on_nonempty(s.drop_last(), c);
    }
}

/// The pieces of `s` between the occurrences of `c`.
pub fn split_pieces(s: &str, c: char) -> (r: Vec<String>)
    ensures
        views(r@) == split_on(s@, c),
{
    let cs = chars_of(s);
    let mut pieces: Vec<String> = Vec::new();
    let mut cur = String::new();
    let mut i: usize = 0;
    assert(cs@.take(0) =~= Seq::<char>::empty());
    assert(views(pieces@).push(cur@) =~= split_on(cs@.take(0), c));
    while i < cs.len()
        invariant
            i <= cs.len(),
            views(pieces@).push(cur@) == split_on(cs@.take(i as int), c),
        decreases cs.len() - i,
    {
        let x = cs[i];
        let ghost before = cs@.take(i as int);
        let ghost after = cs@.take(i + 1);
        assert(after.drop_last() =~= before);
        proof {
            lemma_split_on_nonempty(before, c);
        }
        if x == c {
            pieces.push(cur);
            cur = String::new();
            assert(views(pieces@).push(cur@) =~= split_on(after, c));
        } else {
            push_char(&mut cur, x);
            assert(views(pieces@).push(cur@) =~= split_on(after, c));
        }
        i = i + 1;
    }
    pieces.push(cur);
    assert(cs@.take(i as int) =~= cs@);
    assert(views(pieces@) =~= split_on(s@, c));
    pieces
}

/// `d` with `x` added at the end, unless `d` already holds it.
pub open spec fn insert_new(d: Seq<Seq<char>>, x: Seq<char>) -> Seq<Seq<char>> {
    if d.contains(x) {
        d
    } else {
        d.push(x)
    }
}

/// `acc` with each string of `xs` added in turn, unless already there.
pub open spec fn insert_all(acc: Seq<Seq<char>>, xs: Seq<Seq<char>>) -> Seq<Seq<char>>
    decreases xs.len(),
{
    if xs.len() == 0 {
        acc
    } else {
        insert_new(insert_all(acc, xs.drop_last()), xs.last())
    }
}

/// The strings of `s` with repeats left out, each where it first occurs.
pub open spec fn dedup(s: Seq<Seq<char>>) -> Seq<Seq<char>> {
    insert_all(Seq::empty(), s)
}

/// No string occurs twice in `s`.
pub open spec fn no_repeats(s: Seq<Seq<char>>) -> bool {
    forall|i: int, j: int| 0 <= i < j < s.len() ==> s[i] != s[j]
}

/// Adding `a` and then `b` is adding `a + b`.
pub proof fn lemma_insert_all_append(acc: Seq<Seq<char>>, a: Seq<Seq<char>>, b: Seq<Seq<char>>)
    ensures
        insert_all(acc, a + b) == insert_all(insert_all(acc, a), b),
    decreases b.len(),
{
    if b.len() == 0 {
        assert(a + b =~= a);
    } else {
        lemma_insert_all_append(acc, a, b.drop_last());
        assert((a + b).drop_last() =~= a + b.drop_last());
        assert((a + b).last() == b.last());
    }
}

/// Adding strings to a list without repeats keeps it without repeats, and
/// the result holds exactly what either held.
pub proof fn lemma_insert_all(acc: Seq<Seq<char>>, xs: Seq<Seq<char>>)
    requires
        no_repeats(acc),
    ensures
        no_repeats(insert_all(acc, xs)),
        forall|x: Seq<char>| #[trigger]
            insert_all(acc, xs).contains(x) <==> acc.contains(x) || xs.contains(x),
    decreases xs.len(),
{
    if xs.len() > 0 {
        let xs0 = xs.drop_last();
        lemma_insert_all(acc, xs0);
        let d = insert_all(acc, xs0);
        assert forall|x: Seq<char>| #[trigger]
            insert_all(acc, xs).contains(x) <==> acc.contains(x) || xs.contains(x) by {
            if xs.contains(x) && x != xs.last() {
                let k = choose|k: int| 0 <= k < xs.len() && xs[k] == x;
                assert(xs0[k] == x);
            }
            if xs0.contains(x) {
                let k = choose|k: int| 0 <= k < xs0.len() && xs0[k] == x;
                assert(xs[k] == x);
            }
            if !d.contains(xs.last()) {
                if d.push(xs.last()).contains(x) && x != xs.last() {
                    let k = choose|k: int| 0 <= k < d.len() + 1 && d.push(xs.last())[k] == x;
                    assert(d[k] == x);
                }
                if d.contains(x) {
                    let k = choose|k: int| 0 <= k < d.len() && d[k] == x;
                    assert(d.push(xs.last())[k] == x);
                }
                assert(d.push(xs.last())[d.len() as int] == xs.last());
            }
            assert(xs[xs.len() - 1] == xs.last());
        }
    }
}

/// Repeats left out: no string occurs twice, and the result holds exactly
/// the strings of `s`.
pub proof fn lemma_dedup(s: Seq<Seq<char>>)
    ensures
        no_repeats(dedup(s)),
        forall|x: Seq<char>| #[trigger] dedup(s).contains(x) <==> s.contains(x),
{
    lemma_insert_all(Seq::empty(), s);
}

/// Adds `id` at the end of `ids`, unless a string equal to it is there.
pub fn insert_unique(ids: &mut Vec<String>, id: String)
    ensures
        views(final(ids)@) == insert_new(views(old(ids)@), id@),
{
    let mut i: usize = 0;
    while i < ids.len()
        invariant
            i <= ids.len(),
            forall|j: int| 0 <= j < i ==> ids@[j]@ != id@,
        decreases ids.len() - i,
    {
        if ids[i] == id {
            assert(views(ids@)[i as int] == id@);
            return;
        }
        i = i + 1;
    }
    assert(!views(ids@).contains(id@));
    let ghost pre = ids@;
    ids.push(id);
    assert(views(ids@) =~= views(pre).push(id@));
}

/// Adds each string of `new` to `ids` in turn, unless one equal to it is there.
pub fn insert_each(ids: &mut Vec<String>, new: &Vec<String>)
    ensures
        views(final(ids)@) == insert_all(views(old(ids)@), views(new@)),
{
    let mut i: usize = 0;
    while i < new.len()
        invariant
            i <= new.len(),
            views(ids@) == insert_all(views(old(ids)@), views(new@.take(i as int))),
        decreases new.len() - i,
    {
        insert_unique(ids, new[i].clone());
        assert(views(new@.take(i + 1)).drop_last() =~= views(new@.take(i as int)));
        i = i + 1;
    }
    assert(new@.take(i as int) =~= new@);
}

/// `s` with each occurrence of `pat` replaced by `rep`, scanning from the
/// left; a replacement is not scanned again.
pub open spec fn replace_all(s: Seq<char>, pat: Seq<char>, rep: Seq<char>) -> Seq<char>
    decreases s.len(),
{
    if pat.len() == 0 || s.len() < pat.len() {
        s
    } else if s.take(pat.len() as int) == pat {
        rep + replace_all(s.skip(pat.len() as int), pat, rep)
    } else {
        seq![s[0]] + replace_all(s.drop_first(), pat, rep)
    }
}

/// Whether `pat` occurs in `s` at position `i`.
fn occurs_at(s: &Vec<char>, i: usize, pat: &Vec<char>) -> (r: bool)
    requires
        i <= s.len(),
    ensures
        r == (i + pat.len() <= s.len() && s@.subrange(i as int, i + pat.len()) == pat@),
{
    if pat.len() > s.len() - i {
        return false;
    }
    let mut k: usize = 0;
    while k < pat.len()
        invariant
            k <= pat.len(),
            i + pat.len() <= s.len(),
            forall|j: int| 0 <= j < k ==> s@[i + j] == pat@[j],
        decreases pat.len() - k,
    {
        if s[i + k] != pat[k] {
            assert(s@.subrange(i as int, i + pat.len())[k as int] != pat@[k as int]);
            return false;
        }
        k = k + 1;
    }
    assert(s@.subrange(i as int, i + pat.len()) =~= pat@);
    true
}

/// `s` with each occurrence of `pat` replaced by `rep`, from the left.
pub fn replace_str(s: &str, pat: &str, rep: &str) -> (r: String)
    requires
        pat@.len() > 0,
    ensures
        r@ == replace_all(s@, pat@, rep@),
{
    let cs = chars_of(s);
    let pc = chars_of(pat);
    let rc = chars_of(rep);
    let n = cs.len();
    let p = pc.len();
    let mut out = String::new();
    let mut i: usize = 0;
    assert(cs@.skip(0) =~= s@);
    assert(out@ + replace_all(cs@.skip(0), pat@, rep@) =~= replace_all(s@, pat@, rep@));
    while i < n
        invariant
            n == cs.len(),
            p == pc.len(),
            p > 0,
            pc@ == pat@,
            rc@ == rep@,
            cs@ == s@,
            i <= n,
            out@ + replace_all(cs@.skip(i as int), pat@, rep@) == replace_all(s@, pat@, rep@),
        decreases n - i,
    {
        let ghost rest = cs@.skip(i as int);
        if occurs_at(&cs, i, &pc) {
            assert(rest.take(p as int) =~= cs@.subrange(i as int, i + p));
            assert(rest.skip(p as int) =~= cs@.skip(i + p));
            push_range(&mut out, &rc, 0, rc.len());
            assert(rc@.subrange(0, rc.len() as int) =~= rc@);
            i = i + p;
        } else {
            let ghost old_out = out@;
            push_char(&mut out, cs[i]);
            if p <= n - i {
                assert(rest.take(p as int) =~= cs@.subrange(i as int, i + p));
                assert(rest.drop_first() =~= cs@.skip(i + 1));
                assert(out@ + replace_all(cs@.skip(i + 1), pat@, rep@) =~= old_out + (seq![rest[0]]
                    + replace_all(rest.drop_first(), pat@, rep@)));
            } else {
                assert(rest =~= seq![cs@[i as int]] + cs@.skip(i + 1));
                assert(out@ + replace_all(cs@.skip(i + 1), pat@, rep@) =~= old_out + rest);
            }
            i = i + 1;
        }
    }
    assert(out@ + replace_all(cs@.skip(i as int), pat@, rep@) =~= out@);
    out
}

} // verus!

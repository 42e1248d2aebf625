//! Character-level helpers shared by every emitter: string equality,
//! character pushes, decimal rendering and indentation.

use vstd::prelude::*;

verus! {

/// The ASCII upper-case image of a character; other characters are kept.
pub open spec fn spec_ascii_upper(c: char) -> char {
    if 'a' <= c && c <= 'z' {
        ((c as u32) - 32) as char
    } else {
        c
    }
}

/// ASCII letters and digits.
pub open spec fn spec_is_ascii_alnum(c: char) -> bool {
    ('a' <= c && c <= 'z') || ('A' <= c && c <= 'Z') || ('0' <= c && c <= '9')
}

/// The character of a decimal digit.
pub open spec fn digit_char(d: nat) -> char {
    ((d + 48) as u8) as char
}

/// Decimal rendering of a natural number, most significant digit first,
/// without leading zeros.
pub open spec fn spec_decimal(n: nat) -> Seq<char>
    decreases n,
{
    if n < 10 {
        seq![digit_char(n)]
    } else {
        spec_decimal(n / 10).push(digit_char(n % 10))
    }
}

/// `n` blank characters.
pub open spec fn spec_spaces(n: nat) -> Seq<char> {
    Seq::new(n, |_i: int| ' ')
}

pub fn ascii_upper(c: char) -> (r: char)
    ensures
        r == spec_ascii_upper(c),
{
    if 'a' <= c && c <= 'z' {
        let u: u32 = c as u32;
        let v: u8 = (u - 32) as u8;
        v as char
    } else {
        c
    }
}

pub fn is_ascii_alnum(c: char) -> (r: bool)
    ensures
        r == spec_is_ascii_alnum(c),
{
    ('a' <= c && c <= 'z') || ('A' <= c && c <= 'Z') || ('0' <= c && c <= '9')
}

/// Trusted: std's `String::push`. The contract claims that the text
/// grows by exactly `c` at its end.
#[verifier::external_body]
pub(crate) fn push_char(s: &mut String, c: char)
    ensures
        final(s)@ == old(s)@.push(c),
{
    s.push(c);
}

/// Appends the text of `t` to `s`.
pub fn push_string(s: &mut String, t: &String)
    ensures
        final(s)@ == old(s)@ + t@,
{
    s.append(t.as_str());
}

/// Character-wise equality of two string slices.
pub fn str_eq(a: &str, b: &str) -> (r: bool)
    ensures
        r == (a@ == b@),
{
    let n = a.unicode_len();
    let m = b.unicode_len();
    if n != m {
        return false;
    }
    let mut i: usize = 0;
    while i < n
        invariant
            n == a@.len(),
            m == b@.len(),
            n == m,
            i <= n,
            forall|j: int| 0 <= j < i ==> a@[j] == b@[j],
        decreases n - i,
    {
        if a.get_char(i) != b.get_char(i) {
            return false;
        }
        i += 1;
    }
    assert(a@ =~= b@);
    true
}

pub fn digit(d: u64) -> (r: char)
    requires
        d < 10,
    ensures
        r == digit_char(d as nat),
{
    let b: u8 = (d as u8) + 48;
    b as char
}

/// Appends the decimal rendering of `n`.
pub fn push_decimal(s: &mut String, n: u64)
    ensures
        final(s)@ == old(s)@ + spec_decimal(n as nat),
    decreases n,
{
    if n >= 10 {
        push_decimal(s, n / 10);
    }
    push_char(s, digit(n % 10));
    proof {
        if n >= 10 {
            assert(spec_decimal(n as nat) == spec_decimal((n / 10) as nat).push(digit_char((n % 10) as nat)));
        }
    }
    assert(final(s)@ =~= old(s)@ + spec_decimal(n as nat));
}

/// The decimal rendering of `n` as a fresh string.
pub fn decimal(n: u64) -> (r: String)
    ensures
        r@ == spec_decimal(n as nat),
{
    let mut s = String::new();
    push_decimal(&mut s, n);
    assert(s@ =~= spec_decimal(n as nat));
    s
}

/// Appends `n` blanks.
pub fn push_spaces(s: &mut String, n: usize)
    ensures
        final(s)@ == old(s)@ + spec_spaces(n as nat),
{
    let ghost start = s@;
    let mut i: usize = 0;
    while i < n
        invariant
            i <= n,
            s@ == start + spec_spaces(i as nat),
        decreases n - i,
    {
        push_char(s, ' ');
        i += 1;
        assert(s@ =~= start + spec_spaces(i as nat));
    }
}

/// A string of `n` blanks.
pub fn spaces(n: usize) -> (r: String)
    ensures
        r@ == spec_spaces(n as nat),
{
    let mut s = String::new();
    push_spaces(&mut s, n);
    assert(s@ =~= spec_spaces(n as nat));
    s
}


/// Decimal rendering of an integer, with a leading `-` when negative.
pub open spec fn spec_int_decimal(i: int) -> Seq<char> {
    if i < 0 {
        seq!['-'] + spec_decimal((-i) as nat)
    } else {
        spec_decimal(i as nat)
    }
}

/// Appends the decimal rendering of `i`.
pub fn push_int(s: &mut String, i: i64)
    ensures
        final(s)@ == old(s)@ + spec_int_decimal(i as int),
{
    if i < 0 {
        let ghost s0 = s@;
        push_char(s, '-');
        let u: u64 = if i == i64::MIN {
            9223372036854775808u64
        } else {
            (-i) as u64
        };
        push_decimal(s, u);
        assert(s@ =~= s0 + (seq!['-'] + spec_decimal((-(i as int)) as nat)));
    } else {
        push_decimal(s, i as u64);
    }
}


/// Strict lexicographic order on character sequences (the order of `str`).
pub open spec fn spec_str_lt(a: Seq<char>, b: Seq<char>) -> bool
    decreases a.len(),
{
    if a.len() == 0 {
        b.len() > 0
    } else if b.len() == 0 {
        false
    } else if a[0] != b[0] {
        (a[0] as u32) < (b[0] as u32)
    } else {
        spec_str_lt(a.drop_first(), b.drop_first())
    }
}

/// Whether `a` sorts strictly before `b`.
pub fn str_lt(a: &str, b: &str) -> (r: bool)
    ensures
        r == spec_str_lt(a@, b@),
{
    let n = a.unicode_len();
    let m = b.unicode_len();
    let mut i: usize = 0;
    assert(a@.skip(0) =~= a@);
    assert(b@.skip(0) =~= b@);
    while i < n && i < m
        invariant
            n == a@.len(),
            m == b@.len(),
            i <= n,
            i <= m,
            spec_str_lt(a@, b@) == spec_str_lt(a@.skip(i as int), b@.skip(i as int)),
        decreases n - i,
    {
        let ca = a.get_char(i);
        let cb = b.get_char(i);
        assert(a@.skip(i as int)[0] == ca);
        assert(b@.skip(i as int)[0] == cb);
        if ca != cb {
            return (ca as u32) < (cb as u32);
        }
        assert(a@.skip(i as int).drop_first() =~= a@.skip(i + 1));
        assert(b@.skip(i as int).drop_first() =~= b@.skip(i + 1));
        i += 1;
    }
    n - i == 0 && m - i > 0
}

/// `t` with `x` inserted after every element that does not sort after it.
pub open spec fn spec_insert_sorted(x: String, t: Seq<String>) -> Seq<String>
    decreases t.len(),
{
    if t.len() == 0 {
        seq![x]
    } else if !spec_str_lt(x@, t.last()@) {
        t.push(x)
    } else {
        spec_insert_sorted(x, t.drop_last()).push(t.last())
    }
}

/// Insertion sort of `s` by the string order.
pub open spec fn spec_sorted_strings(s: Seq<String>) -> Seq<String>
    decreases s.len(),
{
    if s.len() == 0 {
        Seq::empty()
    } else {
        spec_insert_sorted(s.last(), spec_sorted_strings(s.drop_last()))
    }
}

/// The strings of `s` joined by commas.
pub open spec fn spec_join_commas(s: Seq<String>) -> Seq<char>
    decreases s.len(),
{
    if s.len() == 0 {
        Seq::empty()
    } else if s.len() == 1 {
        s[0]@
    } else {
        spec_join_commas(s.drop_last()) + seq![','] + s.last()@
    }
}

fn insert_sorted(t: &mut Vec<String>, x: String)
    ensures
        final(t)@ == spec_insert_sorted(x, old(t)@),
{
    let ghost t0 = t@;
    let mut j: usize = t.len();
    assert(t0.take(j as int) =~= t0);
    assert(spec_insert_sorted(x, t0) =~= spec_insert_sorted(x, t0.take(j as int)) + t0.skip(j as int));
    while j > 0 && str_lt(x.as_str(), t[j - 1].as_str())
        invariant
            t@ == t0,
            j <= t.len(),
            spec_insert_sorted(x, t0) == spec_insert_sorted(x, t0.take(j as int)) + t0.skip(j as int),
        decreases j,
    {
        assert(t0.take(j as int).drop_last() =~= t0.take(j - 1));
        assert(t0.take(j as int).last() == t0[j - 1]);
        assert(spec_insert_sorted(x, t0.take(j as int)) == spec_insert_sorted(x, t0.take(j - 1)).push(t0[j - 1]));
        assert(spec_insert_sorted(x, t0.take(j - 1)).push(t0[j - 1]) + t0.skip(j as int)
            =~= spec_insert_sorted(x, t0.take(j - 1)) + t0.skip(j - 1));
        j -= 1;
    }
    if j > 0 {
        assert(t0.take(j as int).last() == t0[j - 1]);
    }
    assert(spec_insert_sorted(x, t0.take(j as int)) =~= t0.take(j as int).push(x));
    t.insert(j, x);
    assert(t@ =~= t0.take(j as int).push(x) + t0.skip(j as int));
}

/// The strings of `items`, sorted, joined by commas.
pub fn sorted_comma_join(items: &[String]) -> (r: String)
    ensures
        r@ == spec_join_commas(spec_sorted_strings(items@)),
{
    let mut sorted: Vec<String> = Vec::new();
    let mut i: usize = 0;
    while i < items.len()
        invariant
            i <= items.len(),
            sorted@ == spec_sorted_strings(items@.take(i as int)),
        decreases items.len() - i,
    {
        assert(items@.take(i + 1).drop_last() =~= items@.take(i as int));
        insert_sorted(&mut sorted, items[i].clone());
        i += 1;
    }
    assert(items@.take(i as int) =~= items@);
    let ghost all = sorted@;
    let mut s = String::new();
    let mut k: usize = 0;
    while k < sorted.len()
        invariant
            sorted@ == all,
            k <= sorted.len(),
            s@ == spec_join_commas(all.take(k as int)),
        decreases sorted.len() - k,
    {
        assert(all.take(k + 1).drop_last() =~= all.take(k as int));
        if k > 0 {
            push_char(&mut s, ',');
        }
        s.append(sorted[k].as_str());
        proof {
            if k == 0 {
                assert(s@ =~= all.take(1)[0]@);
            } else {
                assert(s@ =~= spec_join_commas(all.take(k as int)) + seq![','] + all[k as int]@);
            }
        }
        k += 1;
    }
    assert(all.take(k as int) =~= all);
    s
}


/// `a` begins with `b`.
pub open spec fn spec_starts_with(a: Seq<char>, b: Seq<char>) -> bool {
    b.len() <= a.len() && a.subrange(0, b.len() as int) == b
}

/// Whether `a` begins with `b`.
pub fn starts_with(a: &str, b: &str) -> (r: bool)
    ensures
        r == spec_starts_with(a@, b@),
{
    let n = a.unicode_len();
    let m = b.unicode_len();
    if m > n {
        return false;
    }
    let mut i: usize = 0;
    while i < m
        invariant
            n == a@.len(),
            m == b@.len(),
            m <= n,
            i <= m,
            forall|j: int| 0 <= j < i ==> a@[j] == b@[j],
        decreases m - i,
    {
        if a.get_char(i) != b.get_char(i) {
            assert(a@.subrange(0, m as int)[i as int] != b@[i as int]);
            return false;
        }
        i += 1;
    }
    assert(a@.subrange(0, m as int) =~= b@);
    true
}


/// `pat` occurs in `s`.
pub open spec fn spec_contains_str(s: Seq<char>, pat: Seq<char>) -> bool {
    exists|i: int| 0 <= i && i + pat.len() <= s.len() && #[trigger] s.subrange(i, i + pat.len()) == pat
}

/// A text contains itself.
pub proof fn lemma_contains_self(s: Seq<char>)
    ensures
        spec_contains_str(s, s),
{
    let z: int = 0;
    assert(s.subrange(z, z + s.len()) =~= s);
}

/// What a piece contains, a text built around that piece contains.
pub proof fn lemma_contains_within(a: Seq<char>, b: Seq<char>, c: Seq<char>, pat: Seq<char>)
    requires
        spec_contains_str(b, pat),
    ensures
        spec_contains_str(a + b + c, pat),
{
    let i = choose|i: int| 0 <= i && i + pat.len() <= b.len() && #[trigger] b.subrange(i, i + pat.len()) == pat;
    let j = a.len() + i;
    assert((a + b + c).subrange(j, j + pat.len()) =~= b.subrange(i, i + pat.len()));
}

/// Containment is transitive.
pub proof fn lemma_contains_trans(s: Seq<char>, x: Seq<char>, pat: Seq<char>)
    requires
        spec_contains_str(s, x),
        spec_contains_str(x, pat),
    ensures
        spec_contains_str(s, pat),
{
    let i = choose|i: int| 0 <= i && i + x.len() <= s.len() && #[trigger] s.subrange(i, i + x.len()) == x;
    let j = choose|j: int| 0 <= j && j + pat.len() <= x.len() && #[trigger] x.subrange(j, j + pat.len()) == pat;
    assert(s.subrange(i + j, i + j + pat.len()) =~= x.subrange(j, j + pat.len()));
}

fn matches_at(s: &str, pat: &str, i: usize) -> (r: bool)
    requires
        i + pat@.len() <= s@.len(),
        s@.len() <= usize::MAX,
    ensures
        r == (s@.subrange(i as int, i + pat@.len()) == pat@),
{
    let m = pat.unicode_len();
    let mut j: usize = 0;
    while j < m
        invariant
            m == pat@.len(),
            i + m <= s@.len(),
            s@.len() <= usize::MAX,
            j <= m,
            forall|q: int| 0 <= q < j ==> s@[i + q] == pat@[q],
        decreases m - j,
    {
        if s.get_char(i + j) != pat.get_char(j) {
            assert(s@.subrange(i as int, i + m)[j as int] != pat@[j as int]);
            return false;
        }
        j += 1;
    }
    assert(s@.subrange(i as int, i + m) =~= pat@);
    true
}

/// Whether `pat` occurs in `s`.
pub fn contains_str(s: &str, pat: &str) -> (r: bool)
    ensures
        r == spec_contains_str(s@, pat@),
{
    let n = s.unicode_len();
    let m = pat.unicode_len();
    if m > n {
        assert forall|i: int| 0 <= i && i + pat@.len() <= s@.len() implies #[trigger] s@.subrange(i, i + pat@.len()) != pat@ by {}
        return false;
    }
    let last = n - m;
    let mut i: usize = 0;
    while i < last
        invariant
            n == s@.len(),
            m == pat@.len(),
            last == n - m,
            i <= last,
            forall|k: int| 0 <= k < i ==> #[trigger] s@.subrange(k, k + m) != pat@,
        decreases last - i,
    {
        if matches_at(s, pat, i) {
            return true;
        }
        i += 1;
    }
    let hit = matches_at(s, pat, last);
    if !hit {
        assert forall|k: int| 0 <= k && k + pat@.len() <= s@.len() implies #[trigger] s@.subrange(k, k + pat@.len()) != pat@ by {
            if k < last {
            } else {
                assert(k == last);
            }
        }
    }
    hit
}

} // verus!

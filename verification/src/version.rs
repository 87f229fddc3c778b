//! Version numbers: parsing `u32` components and comparing dotted versions.
use vstd::prelude::*;
use crate::text::{chars_of, range_views, split_on, split_ranges, trim_char, trim_char_range};

verus! {

// ---------------------------------------------------------------------------
// u32 parsing
// ---------------------------------------------------------------------------

pub open spec fn is_digit(c: char) -> bool {
    48 <= (c as u32) && (c as u32) <= 57
}

pub open spec fn all_digits(s: Seq<char>) -> bool {
    forall|i: int| 0 <= i < s.len() ==> is_digit(s[i])
}

/// The number that a string of decimal digits denotes.
pub open spec fn digits_value(s: Seq<char>) -> nat
    decreases s.len(),
{
    if s.len() == 0 {
        0
    } else {
        digits_value(s.drop_last()) * 10 + ((s.last() as u32) - 48) as nat
    }
}

/// What `str::parse::<u32>` gives: an optional `+`, then one or more decimal
/// digits whose value fits in a `u32`.
pub open spec fn parse_u32_spec(s: Seq<char>) -> Option<u32> {
    let d = if s.len() > 0 && s[0] == '+' {
        s.drop_first()
    } else {
        s
    };
    if d.len() > 0 && all_digits(d) && digits_value(d) <= u32::MAX {
        Some(digits_value(d) as u32)
    } else {
        None
    }
}

proof fn lemma_digits_value_grows(s: Seq<char>, k: int)
    requires
        0 <= k <= s.len(),
        all_digits(s),
    ensures
        digits_value(s.take(k)) <= digits_value(s),
    decreases s.len() - k,
{
    if k < s.len() {
        lemma_digits_value_grows(s, k + 1);
        assert(s.take(k + 1).drop_last() =~= s.take(k));
    } else {
        assert(s.take(k) =~= s);
    }
}

/// `str::parse::<u32>` on `v[lo..hi]`.
pub fn parse_u32_range(v: &Vec<char>, lo: usize, hi: usize) -> (r: Option<u32>)
    requires
        lo <= hi <= v@.len(),
    ensures
        r == parse_u32_spec(v@.subrange(lo as int, hi as int)),
{
    let ghost s = v@.subrange(lo as int, hi as int);
    let mut a = lo;
    if lo < hi && v[lo] == '+' {
        a = lo + 1;
    }
    let ghost d = v@.subrange(a as int, hi as int);
    assert(d == (if s.len() > 0 && s[0] == '+' {
        s.drop_first()
    } else {
        s
    }));
    if a == hi {
        return None;
    }
    let mut acc: u64 = 0;
    let mut i = a;
    while i < hi
        invariant
            lo <= a <= i <= hi <= v@.len(),
            d == v@.subrange(a as int, hi as int),
            s == v@.subrange(lo as int, hi as int),
            d == (if s.len() > 0 && s[0] == '+' {
                s.drop_first()
            } else {
                s
            }),
            acc == digits_value(d.take(i - a)),
            acc <= u32::MAX,
            forall|j: int| 0 <= j < i - a ==> is_digit(d[j]),
        decreases hi - i,
    {
        let c = v[i];
        let n = c as u32;
        if n < 48 || n > 57 {
            assert(d[i - a] == c);
            assert(!is_digit(d[i - a]));
            assert(!all_digits(d));
            return None;
        }
        assert(d[i - a] == c);
        assert(d.take(i - a + 1).drop_last() =~= d.take(i - a));
        let next: u64 = acc * 10 + (n - 48) as u64;
        assert(d.take(i - a + 1).last() == c);
        assert(digits_value(d.take(i - a + 1)) == next);
        if next > 0xffff_ffff {
            proof {
                if all_digits(d) {
                    lemma_digits_value_grows(d, i - a + 1);
                    assert(digits_value(d) > u32::MAX);
                }
            }
            return None;
        }
        acc = next;
        i = i + 1;
    }
    assert(d.take(i - a) =~= d);
    Some(acc as u32)
}

// ---------------------------------------------------------------------------
// Dotted versions
// ---------------------------------------------------------------------------

/// The pieces that parse as `u32`, in order, parsed.
pub open spec fn parsed_numbers(ps: Seq<Seq<char>>) -> Seq<u32>
    decreases ps.len(),
{
    if ps.len() == 0 {
        seq![]
    } else {
        let r = parsed_numbers(ps.drop_last());
        match parse_u32_spec(ps.last()) {
            Some(n) => r.push(n),
            None => r,
        }
    }
}

/// The numeric components of a dotted version; pieces that are not numbers
/// are skipped.
pub open spec fn version_numbers(s: Seq<char>) -> Seq<u32> {
    parsed_numbers(split_on(s, '.'))
}

/// `latest` is ahead of `current`: the first differing component is larger,
/// or all shared components agree and `latest` has more of them.
pub open spec fn numbers_newer(current: Seq<u32>, latest: Seq<u32>) -> bool
    decreases current.len(),
{
    if current.len() == 0 || latest.len() == 0 {
        latest.len() > current.len()
    } else if latest[0] > current[0] {
        true
    } else if current[0] > latest[0] {
        false
    } else {
        numbers_newer(current.drop_first(), latest.drop_first())
    }
}

/// Whether `latest` is a newer version than `current`.
pub open spec fn is_newer_spec(current: Seq<char>, latest: Seq<char>) -> bool {
    numbers_newer(version_numbers(current), version_numbers(latest))
}

/// The numeric components of the dotted version in `v`.
#[verifier::rlimit(40)]
pub fn version_numbers_of(v: &Vec<char>) -> (r: Vec<u32>)
    ensures
        r@ == version_numbers(v@),
{
    let rs = split_ranges(v, 0, v.len(), '.');
    assert(v@.subrange(0, v@.len() as int) =~= v@);
    let ghost ps = split_on(v@, '.');
    let mut out: Vec<u32> = Vec::new();
    let mut i: usize = 0;
    assert(ps.take(0) =~= Seq::<Seq<char>>::empty());
    while i < rs.len()
        invariant
            0 <= i <= rs@.len(),
            range_views(v@, rs@) == ps,
            forall|j: int| 0 <= j < rs@.len() ==> 0 <= #[trigger] rs@[j].0 <= rs@[j].1 <= v@.len(),
            out@ == parsed_numbers(ps.take(i as int)),
        decreases rs@.len() - i,
    {
        let (a, b) = rs[i];
        assert(rs@[i as int].0 <= rs@[i as int].1);
        let ghost pre = ps.take(i as int);
        let ghost cur = ps.take(i + 1);
        assert(cur.drop_last() =~= pre);
        assert(ps[i as int] == v@.subrange(a as int, b as int));
        assert(cur.last() == ps[i as int]);
        assert(parsed_numbers(cur) == match parse_u32_spec(cur.last()) {
            Some(n) => parsed_numbers(pre).push(n),
            None => parsed_numbers(pre),
        });
        match parse_u32_range(v, a, b) {
            Some(n) => out.push(n),
            None => {},
        }
        i = i + 1;
    }
    assert(ps.take(rs@.len() as int) =~= ps);
    out
}

/// Whether `latest` is a newer version than `current`, comparing the
/// numeric components of the dotted versions.
pub fn is_newer_version(current: &str, latest: &str) -> (r: bool)
    ensures
        r == is_newer_spec(current@, latest@),
{
    let c = version_numbers_of(&chars_of(current));
    let l = version_numbers_of(&chars_of(latest));
    let mut i: usize = 0;
    assert(c@.skip(0) =~= c@);
    assert(l@.skip(0) =~= l@);
    while i < c.len() && i < l.len()
        invariant
            0 <= i <= c@.len(),
            i <= l@.len(),
            c@ == version_numbers(current@),
            l@ == version_numbers(latest@),
            numbers_newer(c@, l@) == numbers_newer(c@.skip(i as int), l@.skip(i as int)),
        decreases c@.len() - i,
    {
        let ghost cs = c@.skip(i as int);
        let ghost ls = l@.skip(i as int);
        assert(cs[0] == c@[i as int]);
        assert(ls[0] == l@[i as int]);
        if l[i] > c[i] {
            return true;
        }
        if c[i] > l[i] {
            return false;
        }
        assert(cs.drop_first() =~= c@.skip(i + 1));
        assert(ls.drop_first() =~= l@.skip(i + 1));
        i = i + 1;
    }
    l.len() > c.len()
}

/// No version is newer than itself.
pub proof fn law_newer_irreflexive(v: Seq<char>)
    ensures
        !is_newer_spec(v, v),
{
    lemma_numbers_newer_irreflexive(version_numbers(v));
}

/// Of two versions, at most one is newer than the other.
pub proof fn law_newer_asymmetric(a: Seq<char>, b: Seq<char>)
    ensures
        is_newer_spec(a, b) ==> !is_newer_spec(b, a),
{
    lemma_numbers_newer_asymmetric(version_numbers(a), version_numbers(b));
}

/// Being newer is transitive.
pub proof fn law_newer_transitive(a: Seq<char>, b: Seq<char>, c: Seq<char>)
    ensures
        is_newer_spec(a, b) && is_newer_spec(b, c) ==> is_newer_spec(a, c),
{
    lemma_numbers_newer_transitive(version_numbers(a), version_numbers(b), version_numbers(c));
}

proof fn lemma_numbers_newer_irreflexive(a: Seq<u32>)
    ensures
        !numbers_newer(a, a),
    decreases a.len(),
{
    if a.len() > 0 {
        lemma_numbers_newer_irreflexive(a.drop_first());
    }
}

proof fn lemma_numbers_newer_asymmetric(a: Seq<u32>, b: Seq<u32>)
    ensures
        numbers_newer(a, b) ==> !numbers_newer(b, a),
    decreases a.len(),
{
    if a.len() > 0 && b.len() > 0 && a[0] == b[0] {
        lemma_numbers_newer_asymmetric(a.drop_first(), b.drop_first());
    }
}

proof fn lemma_numbers_newer_transitive(a: Seq<u32>, b: Seq<u32>, c: Seq<u32>)
    ensures
        numbers_newer(a, b) && numbers_newer(b, c) ==> numbers_newer(a, c),
    decreases a.len(),
{
    if a.len() > 0 && b.len() > 0 && c.len() > 0 {
        lemma_numbers_newer_transitive(a.drop_first(), b.drop_first(), c.drop_first());
    }
}

// ---------------------------------------------------------------------------
// major.minor.patch
// ---------------------------------------------------------------------------

/// A `major.minor.patch` version.
pub type VersionTriple = (u32, u32, u32);

/// The `idx`-th piece parsed as a number, or 0.
pub open spec fn component(ps: Seq<Seq<char>>, idx: int) -> u32 {
    if idx < ps.len() {
        match parse_u32_spec(ps[idx]) {
            Some(n) => n,
            None => 0,
        }
    } else {
        0
    }
}

/// A version as `(major, minor, patch)`: quotes around it are ignored, and a
/// missing or non-numeric component counts as 0.
pub open spec fn version_triple_spec(v: Seq<char>) -> VersionTriple {
    let ps = split_on(trim_char(v, '"'), '.');
    (component(ps, 0), component(ps, 1), component(ps, 2))
}

fn component_of(v: &Vec<char>, rs: &Vec<(usize, usize)>, idx: usize) -> (r: u32)
    requires
        forall|j: int| 0 <= j < rs@.len() ==> 0 <= #[trigger] rs@[j].0 <= rs@[j].1 <= v@.len(),
    ensures
        r == component(range_views(v@, rs@), idx as int),
{
    if idx < rs.len() {
        let (a, b) = rs[idx];
        assert(rs@[idx as int].0 <= rs@[idx as int].1);
        match parse_u32_range(v, a, b) {
            Some(n) => n,
            None => 0,
        }
    } else {
        0
    }
}

/// Parses a version such as `0.4.1` into `(0, 4, 1)`.
pub fn parse_version(v: &str) -> (r: VersionTriple)
    ensures
        r == version_triple_spec(v@),
{
    let cs = chars_of(v);
    let (a, b) = trim_char_range(&cs, 0, cs.len(), '"');
    assert(cs@.subrange(0, cs@.len() as int) =~= cs@);
    let rs = split_ranges(&cs, a, b, '.');
    (component_of(&cs, &rs, 0), component_of(&cs, &rs, 1), component_of(&cs, &rs, 2))
}

/// `a` comes before `b` (component by component).
pub open spec fn version_before(a: VersionTriple, b: VersionTriple) -> bool {
    a.0 < b.0 || (a.0 == b.0 && (a.1 < b.1 || (a.1 == b.1 && a.2 < b.2)))
}

/// Whether version `a` comes before version `b`.
pub fn is_before(a: VersionTriple, b: VersionTriple) -> (r: bool)
    ensures
        r == version_before(a, b),
{
    a.0 < b.0 || (a.0 == b.0 && (a.1 < b.1 || (a.1 == b.1 && a.2 < b.2)))
}

} // verus!

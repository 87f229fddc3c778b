//! Character-level text model: whitespace, trimming, line splitting, and the
//! small string-building operations the rest of the library is written in.
use vstd::prelude::*;
use vstd::string::StringExecFns;

verus! {

// ---------------------------------------------------------------------------
// Specification model
// ---------------------------------------------------------------------------

/// Unicode `White_Space`: the characters `char::is_whitespace` accepts.
pub open spec fn is_ws(c: char) -> bool {
    let n = c as u32;
    (9 <= n && n <= 13) || n == 32 || n == 0x85 || n == 0xa0 || n == 0x1680 || (0x2000 <= n
        && n <= 0x200a) || n == 0x2028 || n == 0x2029 || n == 0x202f || n == 0x205f || n == 0x3000
}

/// `s` with its leading whitespace removed.
pub open spec fn trim_start(s: Seq<char>) -> Seq<char>
    decreases s.len(),
{
    if s.len() > 0 && is_ws(s[0]) {
        trim_start(s.drop_first())
    } else {
        s
    }
}

/// `s` with its trailing whitespace removed.
pub open spec fn trim_end(s: Seq<char>) -> Seq<char>
    decreases s.len(),
{
    if s.len() > 0 && is_ws(s.last()) {
        trim_end(s.drop_last())
    } else {
        s
    }
}

/// `s` with leading and trailing whitespace removed (`str::trim`).
pub open spec fn trim(s: Seq<char>) -> Seq<char> {
    trim_end(trim_start(s))
}

/// The whitespace that `trim_start` removes from the front of `s`.
pub open spec fn leading_ws(s: Seq<char>) -> Seq<char> {
    s.take(s.len() - trim_start(s).len())
}

/// Index of the first occurrence of `c` in `s`, or -1 when `c` does not occur.
pub open spec fn first_index(s: Seq<char>, c: char) -> int
    decreases s.len(),
{
    if s.len() == 0 {
        -1
    } else if s[0] == c {
        0
    } else {
        let r = first_index(s.drop_first(), c);
        if r < 0 {
            -1
        } else {
            r + 1
        }
    }
}

/// One trailing carriage return removed, if present.
pub open spec fn strip_cr(s: Seq<char>) -> Seq<char> {
    if s.len() > 0 && s.last() == '\r' {
        s.drop_last()
    } else {
        s
    }
}

/// The lines of `s` as `str::lines` yields them: split after each `\n`, a
/// `\r` right before a `\n` dropped, and no empty line after a final `\n`.
pub open spec fn lines_of(s: Seq<char>) -> Seq<Seq<char>>
    decreases s.len(),
{
    if s.len() == 0 {
        seq![]
    } else {
        let i = first_index(s, '\n');
        proof {
            lemma_first_index_props(s, '\n');
        }
        if i < 0 {
            seq![s]
        } else {
            seq![strip_cr(s.take(i))] + lines_of(s.skip(i + 1))
        }
    }
}

/// Each line followed by `\n`, concatenated.
pub open spec fn unlines(ls: Seq<Seq<char>>) -> Seq<char>
    decreases ls.len(),
{
    if ls.len() == 0 {
        seq![]
    } else {
        ls[0] + seq!['\n'] + unlines(ls.drop_first())
    }
}

/// The pieces of `s` between the separators `c` (`str::split`): always at
/// least one piece.
pub open spec fn split_on(s: Seq<char>, c: char) -> Seq<Seq<char>>
    decreases s.len(),
{
    let i = first_index(s, c);
    proof {
        lemma_first_index_props(s, c);
    }
    if i < 0 {
        seq![s]
    } else {
        seq![s.take(i)] + split_on(s.skip(i + 1), c)
    }
}

/// The pieces trimmed, with the empty ones dropped.
pub open spec fn nonempty_trimmed(ps: Seq<Seq<char>>) -> Seq<Seq<char>>
    decreases ps.len(),
{
    if ps.len() == 0 {
        seq![]
    } else {
        let r = nonempty_trimmed(ps.drop_last());
        let t = trim(ps.last());
        if t.len() > 0 {
            r.push(t)
        } else {
            r
        }
    }
}

/// The items of a comma separated list: the pieces between commas, trimmed,
/// with empty pieces dropped.
pub open spec fn comma_list(s: Seq<char>) -> Seq<Seq<char>> {
    nonempty_trimmed(split_on(s, ','))
}

/// ASCII lower-casing of one character.
pub open spec fn ascii_lower_char(c: char) -> char {
    if 'A' <= c && c <= 'Z' {
        ((c as u32) + 32) as char
    } else {
        c
    }
}

/// ASCII lower-casing of a text.
pub open spec fn ascii_lower(s: Seq<char>) -> Seq<char> {
    s.map_values(|c: char| ascii_lower_char(c))
}

/// Every character is ASCII.
pub open spec fn all_ascii(s: Seq<char>) -> bool {
    forall|i: int| 0 <= i < s.len() ==> (s[i] as u32) < 128
}

/// Case-insensitive ASCII equality (`eq_ignore_ascii_case`).
pub open spec fn eq_ignore_ascii_case(a: Seq<char>, b: Seq<char>) -> bool {
    ascii_lower(a) == ascii_lower(b)
}

/// What `str::to_lowercase` returns for a text.
pub uninterp spec fn lowercase_of(s: Seq<char>) -> Seq<char>;

/// The lower-case form of a text as `str::to_lowercase` gives it: ASCII
/// lower-casing for ASCII text, else what `lowercase_of` names.
pub open spec fn lower_text(s: Seq<char>) -> Seq<char> {
    if all_ascii(s) {
        ascii_lower(s)
    } else {
        lowercase_of(s)
    }
}

/// `s` with every occurrence of `pat` removed, scanning left to right
/// (`str::replace(pat, "")`).
pub open spec fn remove_all(s: Seq<char>, pat: Seq<char>) -> Seq<char>
    decreases s.len(),
{
    if s.len() == 0 {
        s
    } else if pat.len() > 0 && pat.is_prefix_of(s) {
        remove_all(s.skip(pat.len() as int), pat)
    } else {
        seq![s[0]] + remove_all(s.drop_first(), pat)
    }
}

/// `needle` occurs somewhere in `s`.
pub open spec fn contains_text(s: Seq<char>, needle: Seq<char>) -> bool {
    exists|i: int| 0 <= i <= s.len() - needle.len() && #[trigger] s.subrange(i, i + needle.len()) == needle
}

/// `s` with every leading and trailing `c` removed (`str::trim_matches`).
pub open spec fn trim_char(s: Seq<char>, c: char) -> Seq<char> {
    trim_char_end(trim_char_start(s, c), c)
}

pub open spec fn trim_char_start(s: Seq<char>, c: char) -> Seq<char>
    decreases s.len(),
{
    if s.len() > 0 && s[0] == c {
        trim_char_start(s.drop_first(), c)
    } else {
        s
    }
}

pub open spec fn trim_char_end(s: Seq<char>, c: char) -> Seq<char>
    decreases s.len(),
{
    if s.len() > 0 && s.last() == c {
        trim_char_end(s.drop_last(), c)
    } else {
        s
    }
}

/// `s` with `pat` removed from its end as many times as it occurs there
/// (`str::trim_end_matches`).
pub open spec fn trim_end_matches(s: Seq<char>, pat: Seq<char>) -> Seq<char>
    decreases s.len(),
{
    if pat.len() > 0 && pat.is_suffix_of(s) {
        trim_end_matches(s.take(s.len() - pat.len()), pat)
    } else {
        s
    }
}

/// `s` with `pat` removed from its start as many times as it occurs there
/// (`str::trim_start_matches`).
pub open spec fn trim_start_matches(s: Seq<char>, pat: Seq<char>) -> Seq<char>
    decreases s.len(),
{
    if pat.len() > 0 && pat.is_prefix_of(s) {
        trim_start_matches(s.skip(pat.len() as int), pat)
    } else {
        s
    }
}

/// The decimal digit for `d < 10`.
pub open spec fn digit_char(d: nat) -> char {
    (48 + d) as char
}

/// The decimal notation of `n`.
pub open spec fn decimal(n: nat) -> Seq<char>
    decreases n,
{
    if n < 10 {
        seq![digit_char(n)]
    } else {
        decimal(n / 10) + seq![digit_char(n % 10)]
    }
}

/// The text after the last `c` in `s` (all of `s` when `c` does not occur):
/// the last piece of `str::split`.
pub open spec fn after_last(s: Seq<char>, c: char) -> Seq<char> {
    split_on(s, c).last()
}

/// The texts joined with `sep` between them (`[..].join(sep)`).
pub open spec fn join_with(ls: Seq<Seq<char>>, sep: Seq<char>) -> Seq<char>
    decreases ls.len(),
{
    if ls.len() == 0 {
        seq![]
    } else if ls.len() == 1 {
        ls[0]
    } else {
        join_with(ls.drop_last(), sep) + sep + ls.last()
    }
}

// ---------------------------------------------------------------------------
// Lemmas
// ---------------------------------------------------------------------------

pub proof fn lemma_first_index_at(s: Seq<char>, c: char, i: int)
    requires
        0 <= i <= s.len(),
        forall|j: int| 0 <= j < i ==> s[j] != c,
        i < s.len() ==> s[i] == c,
    ensures
        first_index(s, c) == (if i < s.len() {
            i
        } else {
            -1
        }),
    decreases s.len(),
{
    if s.len() > 0 && s[0] != c {
        lemma_first_index_at(s.drop_first(), c, i - 1);
    }
}

pub proof fn lemma_first_index_props(s: Seq<char>, c: char)
    ensures
        -1 <= first_index(s, c) < s.len(),
        first_index(s, c) >= 0 ==> s[first_index(s, c)] == c,
        forall|j: int|
            0 <= j < s.len() && (first_index(s, c) < 0 || j < first_index(s, c)) ==> s[j] != c,
    decreases s.len(),
{
    if s.len() > 0 && s[0] != c {
        lemma_first_index_props(s.drop_first(), c);
        assert forall|j: int|
            0 <= j < s.len() && (first_index(s, c) < 0 || j < first_index(s, c)) implies s[j]
            != c by {
            if j > 0 {
                assert(s.drop_first()[j - 1] == s[j]);
            }
        }
    }
}

pub proof fn lemma_trim_start_ws_prefix(w: Seq<char>, z: Seq<char>)
    requires
        forall|i: int| 0 <= i < w.len() ==> is_ws(w[i]),
    ensures
        trim_start(w + z) == trim_start(z),
    decreases w.len(),
{
    if w.len() > 0 {
        assert((w + z).drop_first() =~= w.drop_first() + z);
        lemma_trim_start_ws_prefix(w.drop_first(), z);
    } else {
        assert(w + z =~= z);
    }
}

pub proof fn lemma_trim_start_is_suffix(s: Seq<char>)
    ensures
        trim_start(s).len() <= s.len(),
        trim_start(s) =~= s.skip(s.len() - trim_start(s).len()),
        forall|i: int| 0 <= i < s.len() - trim_start(s).len() ==> is_ws(s[i]),
        trim_start(s).len() > 0 ==> !is_ws(trim_start(s)[0]),
    decreases s.len(),
{
    if s.len() > 0 && is_ws(s[0]) {
        lemma_trim_start_is_suffix(s.drop_first());
        assert forall|i: int| 0 <= i < s.len() - trim_start(s).len() implies is_ws(s[i]) by {
            if i > 0 {
                assert(s.drop_first()[i - 1] == s[i]);
            }
        }
    }
}

pub proof fn lemma_trim_end_is_prefix(s: Seq<char>)
    ensures
        trim_end(s).len() <= s.len(),
        trim_end(s) =~= s.take(trim_end(s).len() as int),
        forall|i: int| trim_end(s).len() <= i < s.len() ==> is_ws(s[i]),
        trim_end(s).len() > 0 ==> !is_ws(trim_end(s).last()),
    decreases s.len(),
{
    if s.len() > 0 && is_ws(s.last()) {
        lemma_trim_end_is_prefix(s.drop_last());
        assert forall|i: int| trim_end(s).len() <= i < s.len() implies is_ws(s[i]) by {
            if i < s.len() - 1 {
                assert(s.drop_last()[i] == s[i]);
            }
        }
    }
}

pub proof fn lemma_trim_start_nonws(s: Seq<char>)
    requires
        s.len() > 0,
        !is_ws(s[0]),
    ensures
        trim_start(s) == s,
{
}

/// Trailing whitespace after a non-whitespace character is all that
/// `trim_end` removes.
pub proof fn lemma_trim_end_concat(a: Seq<char>, b: Seq<char>)
    requires
        a.len() > 0,
        !is_ws(a.last()),
    ensures
        trim_end(a + b) == a + trim_end(b),
    decreases b.len(),
{
    if b.len() == 0 {
        assert(a + b =~= a);
        assert(a + trim_end(b) =~= a);
    } else if is_ws(b.last()) {
        assert((a + b).drop_last() =~= a + b.drop_last());
        lemma_trim_end_concat(a, b.drop_last());
    } else {
        assert((a + b).last() == b.last());
    }
}

pub proof fn lemma_trim_end_all_ws(b: Seq<char>)
    requires
        forall|i: int| 0 <= i < b.len() ==> is_ws(b[i]),
    ensures
        trim_end(b) == Seq::<char>::empty(),
    decreases b.len(),
{
    if b.len() > 0 {
        lemma_trim_end_all_ws(b.drop_last());
    }
}

/// A trailing `\r` does not survive trimming.
pub proof fn lemma_trim_strip_cr(s: Seq<char>)
    ensures
        trim(strip_cr(s)) == trim(s),
{
    if s.len() > 0 && s.last() == '\r' {
        let t = s.drop_last();
        lemma_trim_start_is_suffix(s);
        lemma_trim_start_is_suffix(t);
        let k = s.len() - trim_start(s).len();
        if k == s.len() {
            // s is all whitespace
            assert forall|i: int| 0 <= i < t.len() implies is_ws(t[i]) by {
                assert(t[i] == s[i]);
            }
            lemma_ws_trim_start_empty(t);
            lemma_ws_trim_start_empty(s);
        } else {
            // the first non-whitespace character lies inside t
            let w = s.take(k);
            assert(s =~= w + s.skip(k));
            assert(t =~= w + t.skip(k));
            lemma_trim_start_ws_prefix(w, s.skip(k));
            lemma_trim_start_ws_prefix(w, t.skip(k));
            lemma_trim_start_nonws(s.skip(k));
            lemma_trim_start_nonws(t.skip(k));
            assert(t.skip(k) =~= s.skip(k).drop_last());
            assert(s.skip(k).last() == '\r');
        }
    }
}

pub proof fn lemma_ws_trim_start_empty(s: Seq<char>)
    requires
        forall|i: int| 0 <= i < s.len() ==> is_ws(s[i]),
    ensures
        trim_start(s) == Seq::<char>::empty(),
    decreases s.len(),
{
    if s.len() > 0 {
        lemma_ws_trim_start_empty(s.drop_first());
    }
}

/// Re-splitting lines that hold no `\n` gives them back, each without one
/// trailing `\r`.
pub proof fn lemma_lines_of_unlines(ls: Seq<Seq<char>>)
    requires
        forall|i: int, j: int| 0 <= i < ls.len() && 0 <= j < ls[i].len() ==> ls[i][j] != '\n',
    ensures
        lines_of(unlines(ls)) == ls.map_values(|l: Seq<char>| strip_cr(l)),
    decreases ls.len(),
{
    if ls.len() == 0 {
        assert(ls.map_values(|l: Seq<char>| strip_cr(l)) =~= Seq::<Seq<char>>::empty());
    } else {
        let rest = ls.drop_first();
        let s = unlines(ls);
        let l0 = ls[0];
        assert(s =~= l0 + seq!['\n'] + unlines(rest));
        assert forall|j: int| 0 <= j < l0.len() implies s[j] != '\n' by {
            assert(s[j] == l0[j]);
        }
        assert(s[l0.len() as int] == '\n');
        lemma_first_index_at(s, '\n', l0.len() as int);
        assert(s.take(l0.len() as int) =~= l0);
        assert(s.skip(l0.len() as int + 1) =~= unlines(rest));
        assert forall|i: int, j: int|
            0 <= i < rest.len() && 0 <= j < rest[i].len() implies rest[i][j] != '\n' by {
            assert(rest[i] == ls[i + 1]);
        }
        lemma_lines_of_unlines(rest);
        assert(ls.map_values(|l: Seq<char>| strip_cr(l)) =~= seq![strip_cr(l0)] + rest.map_values(
            |l: Seq<char>| strip_cr(l),
        ));
    }
}

pub proof fn lemma_unlines_concat(a: Seq<Seq<char>>, b: Seq<Seq<char>>)
    ensures
        unlines(a + b) == unlines(a) + unlines(b),
    decreases a.len(),
{
    if a.len() == 0 {
        assert(a + b =~= b);
        assert(unlines(a) + unlines(b) =~= unlines(b));
    } else {
        assert((a + b).drop_first() =~= a.drop_first() + b);
        lemma_unlines_concat(a.drop_first(), b);
        assert((a + b)[0] == a[0]);
        assert(unlines(a + b) =~= unlines(a) + unlines(b));
    }
}

pub proof fn lemma_unlines_single(l: Seq<char>)
    ensures
        unlines(seq![l]) == l + seq!['\n'],
{
    let ls = seq![l];
    assert(ls.drop_first() =~= Seq::<Seq<char>>::empty());
    assert(unlines(ls.drop_first()) == Seq::<char>::empty());
    assert(ls[0] == l);
    assert(unlines(ls) == ls[0] + seq!['\n'] + unlines(ls.drop_first()));
    assert(unlines(ls) =~= l + seq!['\n']);
}

/// No line of a text holds a `\n`.
pub proof fn lemma_lines_no_newline(s: Seq<char>)
    ensures
        forall|i: int, j: int|
            0 <= i < lines_of(s).len() && 0 <= j < lines_of(s)[i].len() ==> lines_of(s)[i][j]
                != '\n',
    decreases s.len(),
{
    if s.len() > 0 {
        let k = first_index(s, '\n');
        lemma_first_index_props(s, '\n');
        if k >= 0 {
            lemma_lines_no_newline(s.skip(k + 1));
            let head = strip_cr(s.take(k));
            assert forall|j: int| 0 <= j < head.len() implies head[j] != '\n' by {
                assert(head[j] == s[j]);
            }
            let ls = lines_of(s);
            assert forall|i: int, j: int|
                0 <= i < ls.len() && 0 <= j < ls[i].len() implies ls[i][j] != '\n' by {
                if i > 0 {
                    assert(ls[i] == lines_of(s.skip(k + 1))[i - 1]);
                }
            }
        }
    }
}

/// `trim_end` keeps exactly the first `m` characters when the rest is
/// whitespace and the `m`-th is not.
pub proof fn lemma_trim_end_at(s: Seq<char>, m: int)
    requires
        0 <= m <= s.len(),
        forall|i: int| m <= i < s.len() ==> is_ws(s[i]),
        m > 0 ==> !is_ws(s[m - 1]),
    ensures
        trim_end(s) == s.take(m),
    decreases s.len(),
{
    if s.len() > m {
        assert(s.drop_last().take(m) =~= s.take(m));
        lemma_trim_end_at(s.drop_last(), m);
    } else {
        assert(s.take(m) =~= s);
    }
}

/// `trim_start` drops exactly the first `p` characters when they are
/// whitespace and the next is not.
pub proof fn lemma_trim_start_at(s: Seq<char>, p: int)
    requires
        0 <= p <= s.len(),
        forall|i: int| 0 <= i < p ==> is_ws(s[i]),
        p < s.len() ==> !is_ws(s[p]),
    ensures
        trim_start(s) == s.skip(p),
    decreases s.len(),
{
    if p > 0 {
        assert(s.drop_first().skip(p - 1) =~= s.skip(p));
        lemma_trim_start_at(s.drop_first(), p - 1);
    } else {
        assert(s.skip(0) =~= s);
    }
}

/// Trimming the two ends can be done in either order.
pub proof fn lemma_trim_commute(s: Seq<char>)
    ensures
        trim_start(trim_end(s)) == trim_end(trim_start(s)),
{
    if exists|i: int| 0 <= i < s.len() && !is_ws(s[i]) {
        lemma_trim_start_is_suffix(s);
        lemma_trim_end_is_prefix(s);
        let p = s.len() - trim_start(s).len();
        let m = trim_end(s).len() as int;
        let w = choose|i: int| 0 <= i < s.len() && !is_ws(s[i]);
        assert(p <= w < m);
        assert(s.skip(p)[0] == s[p]);
        assert(s.take(m)[m - 1] == s[m - 1]);
        let ts = s.skip(p);
        assert forall|i: int| m - p <= i < ts.len() implies is_ws(ts[i]) by {
            assert(ts[i] == s[i + p]);
        }
        assert(ts[m - p - 1] == s[m - 1]);
        lemma_trim_end_at(ts, m - p);
        let te = s.take(m);
        assert forall|i: int| 0 <= i < p implies is_ws(te[i]) by {
            assert(te[i] == s[i]);
        }
        assert(te[p] == s[p]);
        lemma_trim_start_at(te, p);
        assert(ts.take(m - p) =~= te.skip(p));
    } else {
        lemma_ws_trim_start_empty(s);
        lemma_trim_end_all_ws(s);
        lemma_trim_end_all_ws(Seq::<char>::empty());
        lemma_ws_trim_start_empty(Seq::<char>::empty());
    }
}

/// `trim_end` leaves its own result unchanged.
pub proof fn lemma_trim_end_idem(s: Seq<char>)
    ensures
        trim_end(trim_end(s)) == trim_end(s),
{
    lemma_trim_end_is_prefix(s);
}

/// Trimming the end first does not change the trimmed text.
pub proof fn lemma_trim_after_trim_end(s: Seq<char>)
    ensures
        trim(trim_end(s)) == trim(s),
{
    lemma_trim_commute(s);
    lemma_trim_end_idem(trim_start(s));
}

/// Of two prefixes of one text, one is a prefix of the other.
pub proof fn lemma_prefixes_comparable(a: Seq<char>, b: Seq<char>, t: Seq<char>)
    requires
        a.is_prefix_of(t),
        b.is_prefix_of(t),
    ensures
        a.is_prefix_of(b) || b.is_prefix_of(a),
{
    if a.len() <= b.len() {
        assert forall|i: int| 0 <= i < a.len() implies a[i] == b[i] by {
            assert(a[i] == t[i]);
            assert(b[i] == t[i]);
        }
        assert(b.take(a.len() as int) =~= a);
    } else {
        assert forall|i: int| 0 <= i < b.len() implies a[i] == b[i] by {
            assert(a[i] == t[i]);
            assert(b[i] == t[i]);
        }
        assert(a.take(b.len() as int) =~= b);
    }
}

// ---------------------------------------------------------------------------
// Executable helpers
// ---------------------------------------------------------------------------

/// Whether `c` is Unicode whitespace (`char::is_whitespace`).
pub fn is_whitespace(c: char) -> (r: bool)
    ensures
        r == is_ws(c),
{
    let n = c as u32;
    (9 <= n && n <= 13) || n == 32 || n == 0x85 || n == 0xa0 || n == 0x1680 || (0x2000 <= n && n
        <= 0x200a) || n == 0x2028 || n == 0x2029 || n == 0x202f || n == 0x205f || n == 0x3000
}

/// Collects the characters of `s` in order.
pub fn chars_of(s: &str) -> (out: Vec<char>)
    ensures
        out@ == s@,
{
    let mut out: Vec<char> = Vec::new();
    for c in it: s.chars()
        invariant
            out@ == it.seq().take(it.index() as int),
            it.seq() == s@,
    {
        out.push(c);
    }
    out
}

/// `String::push`: appends one character.
#[verifier::external_body]
pub(crate) fn push_char(s: &mut String, c: char)
    ensures
        final(s)@ == old(s)@.push(c),
{
    s.push(c);
}

/// `str::to_lowercase`: the lower-case form of a text. For ASCII text this
/// is ASCII lower-casing; beyond ASCII the Unicode tables decide, and the
/// result is only known under the name `lowercase_of`.
#[verifier::external_body]
pub(crate) fn to_lowercase(s: &str) -> (r: String)
    ensures
        r@ == lowercase_of(s@),
        all_ascii(s@) ==> r@ == ascii_lower(s@),
{
    s.to_lowercase()
}

/// Appends the characters `v[lo..hi]` to `out`.
pub fn push_range(out: &mut String, v: &Vec<char>, lo: usize, hi: usize)
    requires
        lo <= hi <= v@.len(),
    ensures
        final(out)@ == old(out)@ + v@.subrange(lo as int, hi as int),
{
    let mut i = lo;
    while i < hi
        invariant
            lo <= i <= hi <= v@.len(),
            out@ == old(out)@ + v@.subrange(lo as int, i as int),
        decreases hi - i,
    {
        push_char(out, v[i]);
        assert(v@.subrange(lo as int, i + 1) =~= v@.subrange(lo as int, i as int).push(v@[i as int]));
        i = i + 1;
    }
}

/// Appends every character of `v` to `out`.
pub fn push_all(out: &mut String, v: &Vec<char>)
    ensures
        final(out)@ == old(out)@ + v@,
{
    push_range(out, v, 0, v.len());
    assert(v@.subrange(0, v@.len() as int) =~= v@);
}

/// A new `String` holding `v[lo..hi]`.
pub fn string_from_range(v: &Vec<char>, lo: usize, hi: usize) -> (s: String)
    requires
        lo <= hi <= v@.len(),
    ensures
        s@ == v@.subrange(lo as int, hi as int),
{
    let mut s = String::new();
    push_range(&mut s, v, lo, hi);
    assert(Seq::<char>::empty() + v@.subrange(lo as int, hi as int) =~= v@.subrange(
        lo as int,
        hi as int,
    ));
    s
}

/// A new `String` holding the characters of `v`.
pub fn string_from_chars(v: &Vec<char>) -> (s: String)
    ensures
        s@ == v@,
{
    let s = string_from_range(v, 0, v.len());
    assert(v@.subrange(0, v@.len() as int) =~= v@);
    s
}

/// A copy of `s` as an owned `String`.
pub fn owned(s: &str) -> (r: String)
    ensures
        r@ == s@,
{
    String::from_str(s)
}

/// Text equality.
pub fn str_eq(a: &str, b: &str) -> (r: bool)
    ensures
        r == (a@ == b@),
{
    let x = chars_of(a);
    let y = chars_of(b);
    chars_eq(&x, &y)
}

/// Equality of two character vectors.
pub fn chars_eq(x: &Vec<char>, y: &Vec<char>) -> (r: bool)
    ensures
        r == (x@ == y@),
{
    if x.len() != y.len() {
        return false;
    }
    let mut i: usize = 0;
    while i < x.len()
        invariant
            x@.len() == y@.len(),
            0 <= i <= x@.len(),
            forall|j: int| 0 <= j < i ==> x@[j] == y@[j],
        decreases x@.len() - i,
    {
        if x[i] != y[i] {
            return false;
        }
        i = i + 1;
    }
    assert(x@ =~= y@);
    true
}

/// Whether `p` is a prefix of `v[lo..hi]`.
pub fn has_prefix_at(v: &Vec<char>, lo: usize, hi: usize, p: &Vec<char>) -> (r: bool)
    requires
        lo <= hi <= v@.len(),
    ensures
        r == p@.is_prefix_of(v@.subrange(lo as int, hi as int)),
{
    if p.len() > hi - lo {
        return false;
    }
    let mut i: usize = 0;
    while i < p.len()
        invariant
            lo <= hi <= v@.len(),
            p@.len() <= hi - lo,
            0 <= i <= p@.len(),
            forall|j: int| 0 <= j < i ==> p@[j] == v@[lo + j],
        decreases p@.len() - i,
    {
        if p[i] != v[lo + i] {
            assert(v@.subrange(lo as int, hi as int)[i as int] == v@[lo + i]);
            return false;
        }
        i = i + 1;
    }
    assert(v@.subrange(lo as int, hi as int).take(p@.len() as int) =~= p@);
    true
}

/// Whether `p` is a prefix of `v`.
pub fn has_prefix(v: &Vec<char>, p: &Vec<char>) -> (r: bool)
    ensures
        r == p@.is_prefix_of(v@),
{
    let r = has_prefix_at(v, 0, v.len(), p);
    assert(v@.subrange(0, v@.len() as int) =~= v@);
    r
}

/// Whether `p` is a suffix of `v`.
pub fn has_suffix(v: &Vec<char>, p: &Vec<char>) -> (r: bool)
    ensures
        r == p@.is_suffix_of(v@),
{
    if p.len() > v.len() {
        return false;
    }
    let vl = v.len();
    let off = vl - p.len();
    let mut i: usize = 0;
    while i < p.len()
        invariant
            vl == v@.len(),
            off + p@.len() == v@.len(),
            0 <= i <= p@.len(),
            forall|j: int| 0 <= j < i ==> p@[j] == v@[off + j],
        decreases p@.len() - i,
    {
        let idx: usize = off + i;
        if p[i] != v[idx] {
            assert(v@.subrange(off as int, v@.len() as int)[i as int] == v@[off + i]);
            return false;
        }
        i = i + 1;
    }
    assert(v@.subrange(off as int, v@.len() as int) =~= p@);
    true
}

/// Index of the first `c` in `v[lo..hi]`, or `hi` when there is none.
pub fn find_char(v: &Vec<char>, lo: usize, hi: usize, c: char) -> (r: usize)
    requires
        lo <= hi <= v@.len(),
    ensures
        lo <= r <= hi,
        forall|j: int| lo <= j < r ==> v@[j] != c,
        r < hi ==> v@[r as int] == c,
        first_index(v@.subrange(lo as int, hi as int), c) == (if r < hi {
            r - lo
        } else {
            -1
        }),
{
    let mut i = lo;
    while i < hi && v[i] != c
        invariant
            lo <= i <= hi <= v@.len(),
            forall|j: int| lo <= j < i ==> v@[j] != c,
        decreases hi - i,
    {
        i = i + 1;
    }
    proof {
        let s = v@.subrange(lo as int, hi as int);
        assert forall|j: int| 0 <= j < i - lo implies s[j] != c by {
            assert(s[j] == v@[lo + j]);
        }
        if i < hi {
            assert(s[i - lo] == v@[i as int]);
        }
        lemma_first_index_at(s, c, i - lo);
    }
    i
}

/// The bounds of `trim(v[lo..hi])` inside `v`.
pub fn trim_range(v: &Vec<char>, lo: usize, hi: usize) -> (r: (usize, usize))
    requires
        lo <= hi <= v@.len(),
    ensures
        lo <= r.0 <= r.1 <= hi,
        v@.subrange(r.0 as int, hi as int) == trim_start(v@.subrange(lo as int, hi as int)),
        v@.subrange(r.0 as int, r.1 as int) == trim(v@.subrange(lo as int, hi as int)),
{
    let mut a = lo;
    while a < hi && is_whitespace(v[a])
        invariant
            lo <= a <= hi <= v@.len(),
            trim_start(v@.subrange(a as int, hi as int)) == trim_start(
                v@.subrange(lo as int, hi as int),
            ),
        decreases hi - a,
    {
        assert(v@.subrange(a as int, hi as int).drop_first() =~= v@.subrange(a + 1, hi as int));
        a = a + 1;
    }
    let ghost ts = v@.subrange(a as int, hi as int);
    assert(trim_start(ts) == ts);
    let mut b = hi;
    while b > a && is_whitespace(v[b - 1])
        invariant
            a <= b <= hi <= v@.len(),
            trim_end(v@.subrange(a as int, b as int)) == trim_end(ts),
        decreases b - a,
    {
        assert(v@.subrange(a as int, b as int).drop_last() =~= v@.subrange(a as int, b - 1));
        b = b - 1;
    }
    (a, b)
}

/// `str::trim` as an owned `String`.
pub fn trimmed(s: &str) -> (r: String)
    ensures
        r@ == trim(s@),
{
    let v = chars_of(s);
    let (a, b) = trim_range(&v, 0, v.len());
    assert(v@.subrange(0, v@.len() as int) =~= v@);
    string_from_range(&v, a, b)
}

/// The end of the line that starts at `start`: the index of the next `\n`,
/// or the length of `v`.
pub fn line_end(v: &Vec<char>, start: usize) -> (e: usize)
    requires
        start <= v@.len(),
    ensures
        start <= e <= v@.len(),
        first_index(v@.skip(start as int), '\n') == (if e < v@.len() {
            e - start
        } else {
            -1
        }),
{
    let e = find_char(v, start, v.len(), '\n');
    assert(v@.subrange(start as int, v@.len() as int) =~= v@.skip(start as int));
    e
}

/// The bounds of the line that starts at `start` (the line `lines_of`
/// yields), and the start of the next line.
pub fn next_line(v: &Vec<char>, start: usize) -> (r: (usize, usize, usize))
    requires
        start < v@.len(),
    ensures
        start == r.0 <= r.1 <= v@.len(),
        start < r.2 <= v@.len(),
        lines_of(v@.skip(start as int)) == seq![v@.subrange(r.0 as int, r.1 as int)] + lines_of(
            v@.skip(r.2 as int),
        ),
{
    let e = line_end(v, start);
    let ghost s = v@.skip(start as int);
    if e < v.len() {
        let mut le = e;
        if e > start && v[e - 1] == '\r' {
            le = e - 1;
        }
        proof {
            assert(s.take(e - start) =~= v@.subrange(start as int, e as int));
            assert(s.skip(e - start + 1) =~= v@.skip(e + 1));
            assert(strip_cr(s.take(e - start)) =~= v@.subrange(start as int, le as int));
        }
        (start, le, e + 1)
    } else {
        proof {
            assert(s =~= v@.subrange(start as int, v@.len() as int));
            assert(v@.skip(v@.len() as int) =~= Seq::<char>::empty());
            assert(lines_of(v@.skip(v@.len() as int)) =~= Seq::<Seq<char>>::empty());
            assert(seq![s] + Seq::<Seq<char>>::empty() =~= seq![s]);
        }
        (start, v.len(), v.len())
    }
}

/// `s` with every occurrence of `pat` removed, left to right.
pub fn remove_all_of(s: &Vec<char>, pat: &Vec<char>) -> (r: Vec<char>)
    requires
        pat@.len() > 0,
    ensures
        r@ == remove_all(s@, pat@),
{
    let mut out: Vec<char> = Vec::new();
    let mut i: usize = 0;
    let n = s.len();
    assert(s@.skip(0) =~= s@);
    while i < n
        invariant
            n == s@.len(),
            pat@.len() > 0,
            0 <= i <= n,
            remove_all(s@, pat@) == out@ + remove_all(s@.skip(i as int), pat@),
        decreases n - i,
    {
        let ghost rest = s@.skip(i as int);
        if has_prefix_at(s, i, n, pat) {
            assert(s@.subrange(i as int, n as int) =~= rest);
            assert(rest.skip(pat@.len() as int) =~= s@.skip(i + pat@.len()));
            i = i + pat.len();
        } else {
            assert(s@.subrange(i as int, n as int) =~= rest);
            out.push(s[i]);
            assert(rest.drop_first() =~= s@.skip(i + 1));
            assert(rest[0] == s@[i as int]);
            i = i + 1;
        }
    }
    assert(s@.skip(i as int) =~= Seq::<char>::empty());
    assert(out@ + Seq::<char>::empty() =~= out@);
    out
}

/// Whether `needle` occurs in `s`.
pub fn contains_chars(s: &Vec<char>, needle: &Vec<char>) -> (r: bool)
    ensures
        r == contains_text(s@, needle@),
{
    if needle.len() > s.len() {
        return false;
    }
    let n = s.len();
    let last = n - needle.len();
    let mut i: usize = 0;
    while i <= last
        invariant
            n == s@.len(),
            last + needle@.len() == n,
            0 <= i <= last + 1,
            forall|j: int| 0 <= j < i ==> #[trigger] s@.subrange(j, j + needle@.len()) != needle@,
        decreases last + 1 - i,
    {
        if has_prefix_at(s, i, n, needle) {
            assert(s@.subrange(i as int, n as int).take(needle@.len() as int) =~= s@.subrange(
                i as int,
                i + needle@.len(),
            ));
            return true;
        }
        assert(s@.subrange(i as int, n as int).take(needle@.len() as int) =~= s@.subrange(
            i as int,
            i + needle@.len(),
        ));
        i = i + 1;
    }
    false
}

/// Whether the text `needle` occurs in the text `s`.
pub fn str_contains(s: &str, needle: &str) -> (r: bool)
    ensures
        r == contains_text(s@, needle@),
{
    let a = chars_of(s);
    let b = chars_of(needle);
    contains_chars(&a, &b)
}

/// `str::trim_matches(c)` on `v[lo..hi]`: the bounds of what remains.
pub fn trim_char_range(v: &Vec<char>, lo: usize, hi: usize, c: char) -> (r: (usize, usize))
    requires
        lo <= hi <= v@.len(),
    ensures
        lo <= r.0 <= r.1 <= hi,
        v@.subrange(r.0 as int, r.1 as int) == trim_char(v@.subrange(lo as int, hi as int), c),
{
    let mut a = lo;
    while a < hi && v[a] == c
        invariant
            lo <= a <= hi <= v@.len(),
            trim_char_start(v@.subrange(a as int, hi as int), c) == trim_char_start(
                v@.subrange(lo as int, hi as int),
                c,
            ),
        decreases hi - a,
    {
        assert(v@.subrange(a as int, hi as int).drop_first() =~= v@.subrange(a + 1, hi as int));
        a = a + 1;
    }
    let ghost ts = v@.subrange(a as int, hi as int);
    assert(trim_char_start(ts, c) == ts);
    let mut b = hi;
    while b > a && v[b - 1] == c
        invariant
            a <= b <= hi <= v@.len(),
            trim_char_end(v@.subrange(a as int, b as int), c) == trim_char_end(ts, c),
        decreases b - a,
    {
        assert(v@.subrange(a as int, b as int).drop_last() =~= v@.subrange(a as int, b - 1));
        b = b - 1;
    }
    (a, b)
}

/// Whether the text `s` starts with the text `p`.
pub fn str_starts_with(s: &str, p: &str) -> (r: bool)
    ensures
        r == p@.is_prefix_of(s@),
{
    has_prefix(&chars_of(s), &chars_of(p))
}

/// Whether the text `s` ends with the text `p`.
pub fn str_ends_with(s: &str, p: &str) -> (r: bool)
    ensures
        r == p@.is_suffix_of(s@),
{
    has_suffix(&chars_of(s), &chars_of(p))
}

/// The bounds of `trim_end_matches(v[lo..hi], pat)`.
pub fn trim_end_matches_range(v: &Vec<char>, lo: usize, hi: usize, pat: &Vec<char>) -> (r: usize)
    requires
        lo <= hi <= v@.len(),
    ensures
        lo <= r <= hi,
        v@.subrange(lo as int, r as int) == trim_end_matches(v@.subrange(lo as int, hi as int), pat@),
{
    let mut b = hi;
    if pat.len() == 0 {
        return hi;
    }
    loop
        invariant
            lo <= b <= hi <= v@.len(),
            pat@.len() > 0,
            trim_end_matches(v@.subrange(lo as int, b as int), pat@) == trim_end_matches(
                v@.subrange(lo as int, hi as int),
                pat@,
            ),
        decreases b - lo,
    {
        let ghost cur = v@.subrange(lo as int, b as int);
        if b - lo < pat.len() {
            assert(!pat@.is_suffix_of(cur));
            return b;
        }
        let start = b - pat.len();
        let is_suffix = has_prefix_at(v, start, b, pat);
        assert(v@.subrange(start as int, b as int) =~= cur.subrange(
            cur.len() - pat@.len(),
            cur.len() as int,
        ));
        assert(is_suffix ==> v@.subrange(start as int, b as int).take(pat@.len() as int) =~= v@.subrange(start as int, b as int));
        if !is_suffix {
            assert(!pat@.is_suffix_of(cur)) by {
                if pat@.is_suffix_of(cur) {
                    assert(v@.subrange(start as int, b as int).take(pat@.len() as int) =~= pat@);
                }
            }
            return b;
        }
        assert(cur.take(cur.len() - pat@.len()) =~= v@.subrange(lo as int, start as int));
        b = start;
    }
}

/// The start of `trim_start_matches(v[lo..hi], pat)`.
pub fn trim_start_matches_range(v: &Vec<char>, lo: usize, hi: usize, pat: &Vec<char>) -> (r: usize)
    requires
        lo <= hi <= v@.len(),
    ensures
        lo <= r <= hi,
        v@.subrange(r as int, hi as int) == trim_start_matches(
            v@.subrange(lo as int, hi as int),
            pat@,
        ),
{
    let mut a = lo;
    if pat.len() == 0 {
        return lo;
    }
    loop
        invariant
            lo <= a <= hi <= v@.len(),
            pat@.len() > 0,
            trim_start_matches(v@.subrange(a as int, hi as int), pat@) == trim_start_matches(
                v@.subrange(lo as int, hi as int),
                pat@,
            ),
        decreases hi - a,
    {
        let ghost cur = v@.subrange(a as int, hi as int);
        if !has_prefix_at(v, a, hi, pat) {
            return a;
        }
        assert(cur.skip(pat@.len() as int) =~= v@.subrange(a + pat@.len(), hi as int));
        a = a + pat.len();
    }
}

/// Appends the decimal notation of `n`.
pub fn push_decimal(out: &mut String, n: u64)
    ensures
        final(out)@ == old(out)@ + decimal(n as nat),
    decreases n,
{
    if n >= 10 {
        push_decimal(out, n / 10);
    }
    let d = (n % 10) as u8;
    let c = (48u8 + d) as char;
    push_char(out, c);
    assert(c == digit_char((n % 10) as nat));
}

/// The decimal notation of `n`.
pub fn decimal_string(n: u64) -> (r: String)
    ensures
        r@ == decimal(n as nat),
{
    let mut s = String::new();
    push_decimal(&mut s, n);
    assert(Seq::<char>::empty() + decimal(n as nat) =~= decimal(n as nat));
    s
}

/// ASCII lower-casing of one character.
pub fn ascii_lower_of(c: char) -> (r: char)
    ensures
        r == ascii_lower_char(c),
{
    if 'A' <= c && c <= 'Z' {
        let n = (c as u8) + 32;
        n as char
    } else {
        c
    }
}

/// Case-insensitive ASCII equality of two texts.
pub fn str_eq_ignore_ascii_case(a: &str, b: &str) -> (r: bool)
    ensures
        r == eq_ignore_ascii_case(a@, b@),
{
    let x = chars_of(a);
    let y = chars_of(b);
    if x.len() != y.len() {
        assert(ascii_lower(x@).len() != ascii_lower(y@).len());
        return false;
    }
    let mut i: usize = 0;
    while i < x.len()
        invariant
            x@ == a@,
            y@ == b@,
            x@.len() == y@.len(),
            0 <= i <= x@.len(),
            forall|j: int| 0 <= j < i ==> ascii_lower_char(x@[j]) == ascii_lower_char(y@[j]),
        decreases x@.len() - i,
    {
        if ascii_lower_of(x[i]) != ascii_lower_of(y[i]) {
            assert(ascii_lower(x@)[i as int] != ascii_lower(y@)[i as int]);
            return false;
        }
        i = i + 1;
    }
    assert(ascii_lower(x@) =~= ascii_lower(y@));
    true
}

/// The answer, trimmed, is `word` regardless of ASCII case.
pub open spec fn answer_is_spec(input: Seq<char>, word: Seq<char>) -> bool {
    eq_ignore_ascii_case(trim(input), word)
}

/// Whether a typed answer, trimmed, is `word` regardless of ASCII case.
pub fn answer_is(input: &str, word: &str) -> (r: bool)
    ensures
        r == answer_is_spec(input@, word@),
{
    let t = trimmed(input);
    str_eq_ignore_ascii_case(t.as_str(), word)
}

/// The answer, trimmed and lower-cased.
pub open spec fn lowered_answer(input: Seq<char>) -> Seq<char> {
    lower_text(trim(input))
}

/// A typed answer trimmed and lower-cased.
pub fn lower_answer(input: &str) -> (r: String)
    ensures
        r@ == lowered_answer(input@),
{
    let t = trimmed(input);
    to_lowercase(t.as_str())
}

// ---------------------------------------------------------------------------
// Splitting into pieces (executable)
// ---------------------------------------------------------------------------

/// The texts that index ranges cut out of `v`.
pub open spec fn range_views(v: Seq<char>, rs: Seq<(usize, usize)>) -> Seq<Seq<char>> {
    rs.map_values(|r: (usize, usize)| v.subrange(r.0 as int, r.1 as int))
}

/// The ranges of the pieces of `v[lo..hi]` between separators `c`
/// (`str::split`).
pub fn split_ranges(v: &Vec<char>, lo: usize, hi: usize, c: char) -> (rs: Vec<(usize, usize)>)
    requires
        lo <= hi <= v@.len(),
    ensures
        range_views(v@, rs@) == split_on(v@.subrange(lo as int, hi as int), c),
        forall|i: int| 0 <= i < rs@.len() ==> lo <= #[trigger] rs@[i].0 <= rs@[i].1 <= hi,
        rs@.len() > 0,
        rs@[rs@.len() - 1].1 == hi,
{
    let mut rs: Vec<(usize, usize)> = Vec::new();
    let mut start = lo;
    let mut done = false;
    while !done
        invariant
            lo <= start <= hi <= v@.len(),
            !done ==> split_on(v@.subrange(lo as int, hi as int), c) == range_views(v@, rs@)
                + split_on(v@.subrange(start as int, hi as int), c),
            done ==> split_on(v@.subrange(lo as int, hi as int), c) == range_views(v@, rs@),
            done ==> rs@.len() > 0 && rs@[rs@.len() - 1].1 == hi,
            forall|i: int| 0 <= i < rs@.len() ==> lo <= #[trigger] rs@[i].0 <= rs@[i].1 <= hi,
        decreases hi - start + (if done {
            0int
        } else {
            1int
        }),
    {
        let e = find_char(v, start, hi, c);
        let ghost s = v@.subrange(start as int, hi as int);
        let ghost before = range_views(v@, rs@);
        let ghost old_rs = rs@;
        rs.push((start, e));
        assert(rs@ =~= old_rs.push((start, e)));
        assert forall|i: int| 0 <= i < rs@.len() implies lo <= #[trigger] rs@[i].0 <= rs@[i].1
            <= hi by {
            if i < old_rs.len() {
                assert(rs@[i] == old_rs[i]);
            }
        }
        assert(range_views(v@, rs@) =~= before.push(v@.subrange(start as int, e as int)));
        if e == hi {
            assert(s =~= v@.subrange(start as int, e as int));
            assert(split_on(s, c) == seq![s]);
            assert(before + seq![s] =~= before.push(s));
            done = true;
        } else {
            assert(s.take(e - start) =~= v@.subrange(start as int, e as int));
            assert(s.skip(e - start + 1) =~= v@.subrange(e + 1, hi as int));
            assert(split_on(s, c) == seq![s.take(e - start)] + split_on(s.skip(e - start + 1), c));
            assert(before + split_on(s, c) =~= before.push(v@.subrange(start as int, e as int))
                + split_on(v@.subrange(e + 1, hi as int), c));
            start = e + 1;
        }
    }
    rs
}

/// The views of a list of strings.
pub open spec fn string_views(v: Seq<String>) -> Seq<Seq<char>> {
    v.map_values(|s: String| s@)
}

/// The items of the comma separated list `s`, trimmed, empty ones dropped.
pub fn comma_list_of(s: &str) -> (r: Vec<String>)
    ensures
        string_views(r@) == comma_list(s@),
{
    let v = chars_of(s);
    let rs = split_ranges(&v, 0, v.len(), ',');
    assert(v@.subrange(0, v@.len() as int) =~= v@);
    let ghost ps = split_on(v@, ',');
    let mut out: Vec<String> = Vec::new();
    let mut i: usize = 0;
    assert(ps.take(0) =~= Seq::<Seq<char>>::empty());
    while i < rs.len()
        invariant
            v@ == s@,
            0 <= i <= rs@.len(),
            range_views(v@, rs@) == ps,
            forall|j: int| 0 <= j < rs@.len() ==> 0 <= #[trigger] rs@[j].0 <= rs@[j].1 <= v@.len(),
            string_views(out@) == nonempty_trimmed(ps.take(i as int)),
        decreases rs@.len() - i,
    {
        let (a, b) = rs[i];
        assert(rs@[i as int].0 <= rs@[i as int].1);
        let ghost pre = ps.take(i as int);
        let ghost cur = ps.take(i + 1);
        assert(cur.drop_last() =~= pre);
        assert(ps[i as int] == v@.subrange(a as int, b as int));
        assert(cur.last() == ps[i as int]);
        let (x, y) = trim_range(&v, a, b);
        if y > x {
            let piece = string_from_range(&v, x, y);
            let ghost old_out = out@;
            out.push(piece);
            assert(string_views(out@) =~= string_views(old_out).push(piece@));
        }
        i = i + 1;
    }
    assert(ps.take(rs@.len() as int) =~= ps);
    out
}

/// The lines of `content` as `str::lines` yields them.
pub fn lines_vec(content: &str) -> (r: Vec<String>)
    ensures
        string_views(r@) == lines_of(content@),
{
    let v = chars_of(content);
    let mut out: Vec<String> = Vec::new();
    let mut start: usize = 0;
    assert(v@.skip(0) =~= v@);
    assert(string_views(out@) + lines_of(v@.skip(0)) =~= lines_of(v@));
    while start < v.len()
        invariant
            start <= v@.len(),
            v@ == content@,
            lines_of(v@) == string_views(out@) + lines_of(v@.skip(start as int)),
        decreases v@.len() - start,
    {
        let (ls, le, next) = next_line(&v, start);
        let line = string_from_range(&v, ls, le);
        let ghost before = out@;
        out.push(line);
        assert(string_views(out@) =~= string_views(before).push(line@));
        assert(lines_of(v@) =~= string_views(out@) + lines_of(v@.skip(next as int)));
        start = next;
    }
    assert(v@.skip(start as int) =~= Seq::<char>::empty());
    assert(string_views(out@) + Seq::<Seq<char>>::empty() =~= string_views(out@));
    out
}

/// Whether `items` holds a string equal to `s`.
pub fn contains_string(items: &Vec<String>, s: &str) -> (r: bool)
    ensures
        r == string_views(items@).contains(s@),
{
    let mut i: usize = 0;
    while i < items.len()
        invariant
            0 <= i <= items@.len(),
            forall|j: int| 0 <= j < i ==> items@[j]@ != s@,
        decreases items@.len() - i,
    {
        if str_eq(items[i].as_str(), s) {
            assert(string_views(items@)[i as int] == s@);
            return true;
        }
        i = i + 1;
    }
    assert(!string_views(items@).contains(s@)) by {
        if string_views(items@).contains(s@) {
            let k = choose|k: int| 0 <= k < items@.len() && string_views(items@)[k] == s@;
            assert(string_views(items@)[k] == items@[k]@);
        }
    }
    false
}

/// The strings joined with `sep` between them.
pub fn join_strings(items: &Vec<String>, sep: &str) -> (r: String)
    ensures
        r@ == join_with(string_views(items@), sep@),
{
    let ghost vs = string_views(items@);
    let mut s = String::new();
    let mut i: usize = 0;
    assert(vs.take(0) =~= Seq::<Seq<char>>::empty());
    while i < items.len()
        invariant
            vs == string_views(items@),
            0 <= i <= items@.len(),
            s@ == join_with(vs.take(i as int), sep@),
        decreases items@.len() - i,
    {
        let ghost cur = vs.take(i + 1);
        assert(cur.drop_last() =~= vs.take(i as int));
        assert(cur.last() == items@[i as int]@);
        if i > 0 {
            s.append(sep);
        } else {
            assert(cur =~= seq![items@[0]@]);
            assert(s@ =~= Seq::<char>::empty());
        }
        s.append(items[i].as_str());
        assert(i == 0 ==> s@ =~= cur[0]);
        i = i + 1;
    }
    assert(vs.take(items@.len() as int) =~= vs);
    s
}

} // verus!

//! Reading and writing `key = value` settings in the reservoir's
//! `config.toml`, line by line, as the settings command does.
use vstd::prelude::*;
use crate::text::{
    chars_of, find_char, first_index, has_prefix_at, is_ws, leading_ws, lemma_first_index_at,
    lemma_lines_no_newline, lemma_lines_of_unlines, lemma_prefixes_comparable,
    lemma_trim_after_trim_end, lemma_trim_end_concat, lemma_trim_start_is_suffix,
    lemma_trim_start_ws_prefix, lemma_trim_strip_cr, lemma_unlines_concat, lemma_unlines_single,
    lines_of, next_line, push_all, push_char, push_range, string_from_range, strip_cr, trim,
    trim_end, trim_range, trim_start, unlines, remove_all, remove_all_of, lower_text,
    to_lowercase, trimmed, str_eq, owned,
};

verus! {

// ---------------------------------------------------------------------------
// Specification
// ---------------------------------------------------------------------------

/// A line sets `key` when its trimmed text starts with `key` and holds `=`.
pub open spec fn line_sets(line: Seq<char>, key: Seq<char>) -> bool {
    key.is_prefix_of(trim(line)) && first_index(trim(line), '=') >= 0
}

/// The trimmed text after the first `=` of the trimmed line.
pub open spec fn value_part(line: Seq<char>) -> Seq<char> {
    let t = trim(line);
    trim(t.skip(first_index(t, '=') + 1))
}

/// Starts and ends with a double quote.
pub open spec fn is_quoted(v: Seq<char>) -> bool {
    v.len() > 0 && v[0] == '"' && v.last() == '"'
}

/// `v` without its surrounding double quotes, when it has them.
pub open spec fn unquote(v: Seq<char>) -> Seq<char> {
    if is_quoted(v) {
        v.subrange(1, v.len() - 1)
    } else {
        v
    }
}

/// A value that is a single double quote: it both starts and ends with one,
/// and stripping both is impossible.
pub open spec fn lone_quote(v: Seq<char>) -> bool {
    v.len() == 1 && v[0] == '"'
}

/// The value of the first line that sets `key`.
pub open spec fn setting_in(lines: Seq<Seq<char>>, key: Seq<char>) -> Option<Seq<char>>
    decreases lines.len(),
{
    if lines.len() == 0 {
        None
    } else if line_sets(lines[0], key) {
        Some(unquote(value_part(lines[0])))
    } else {
        setting_in(lines.drop_first(), key)
    }
}

/// The first line that sets `key` has a lone quote for its value.
pub open spec fn setting_unreadable(lines: Seq<Seq<char>>, key: Seq<char>) -> bool
    decreases lines.len(),
{
    if lines.len() == 0 {
        false
    } else if line_sets(lines[0], key) {
        lone_quote(value_part(lines[0]))
    } else {
        setting_unreadable(lines.drop_first(), key)
    }
}

/// The value that `content` gives `key`.
pub open spec fn setting_value(content: Seq<char>, key: Seq<char>) -> Option<Seq<char>> {
    setting_in(lines_of(content), key)
}

/// Reading `key` from `content` would hit a lone quote.
pub open spec fn setting_value_unreadable(content: Seq<char>, key: Seq<char>) -> bool {
    setting_unreadable(lines_of(content), key)
}

/// The value as written: in double quotes for a string setting.
pub open spec fn formatted_value(value: Seq<char>, is_string: bool) -> Seq<char> {
    if is_string {
        seq!['"'] + value + seq!['"']
    } else {
        value
    }
}

/// `key = value`.
pub open spec fn setting_line(key: Seq<char>, f: Seq<char>) -> Seq<char> {
    key + seq![' ', '=', ' '] + f
}

/// A line that sets `key` replaced by `key = f` at the same indentation.
pub open spec fn rewrite_line(line: Seq<char>, key: Seq<char>, f: Seq<char>) -> Seq<char> {
    if line_sets(line, key) {
        leading_ws(line) + setting_line(key, f)
    } else {
        line
    }
}

/// Some line sets `key`.
pub open spec fn any_sets(lines: Seq<Seq<char>>, key: Seq<char>) -> bool {
    exists|i: int| 0 <= i < lines.len() && line_sets(lines[i], key)
}

pub open spec fn rewrite_all(lines: Seq<Seq<char>>, key: Seq<char>, f: Seq<char>) -> Seq<
    Seq<char>,
> {
    lines.map_values(|l: Seq<char>| rewrite_line(l, key, f))
}

/// `content` with `key` set to `value`: every line that sets `key` rewritten,
/// or `key = value` appended when none does; each line ends in `\n`.
pub open spec fn with_setting(content: Seq<char>, key: Seq<char>, value: Seq<char>, is_string: bool)
    -> Seq<char> {
    let ls = lines_of(content);
    let f = formatted_value(value, is_string);
    if any_sets(ls, key) {
        unlines(rewrite_all(ls, key, f))
    } else {
        unlines(ls.push(setting_line(key, f)))
    }
}

// ---------------------------------------------------------------------------
// Reading and writing
// ---------------------------------------------------------------------------

/// The value of the first line of `content` whose trimmed text starts with
/// `key` and holds `=`: the trimmed text after the `=`, without surrounding
/// double quotes.
pub fn get_toml_val(content: &str, key: &str) -> (r: Option<String>)
    requires
        !setting_value_unreadable(content@, key@),
    ensures
        match r {
            Some(s) => setting_value(content@, key@) == Some(s@),
            None => setting_value(content@, key@) is None,
        },
{
    let v = chars_of(content);
    let k = chars_of(key);
    let mut start: usize = 0;
    assert(v@.skip(0) =~= v@);
    while start < v.len()
        invariant
            start <= v@.len(),
            v@ == content@,
            k@ == key@,
            setting_in(lines_of(v@), k@) == setting_in(lines_of(v@.skip(start as int)), k@),
            setting_unreadable(lines_of(v@), k@) == setting_unreadable(
                lines_of(v@.skip(start as int)),
                k@,
            ),
            !setting_unreadable(lines_of(v@), k@),
        decreases v@.len() - start,
    {
        let (ls, le, next) = next_line(&v, start);
        let ghost line = v@.subrange(ls as int, le as int);
        let ghost rest = lines_of(v@.skip(start as int));
        assert(rest[0] == line);
        assert(rest.drop_first() =~= lines_of(v@.skip(next as int)));
        let (a, b) = trim_range(&v, ls, le);
        if has_prefix_at(&v, a, b, &k) {
            let q = find_char(&v, a, b, '=');
            if q < b {
                let (x, y) = trim_range(&v, q + 1, b);
                proof {
                    assert(v@.subrange(a as int, b as int).skip(q - a + 1) =~= v@.subrange(
                        q + 1,
                        b as int,
                    ));
                    assert(value_part(line) == v@.subrange(x as int, y as int));
                }
                if y > x && v[x] == '"' && v[y - 1] == '"' {
                    proof {
                        assert(y - x >= 2);
                        assert(unquote(value_part(line)) =~= v@.subrange(x + 1, y - 1));
                    }
                    return Some(string_from_range(&v, x + 1, y - 1));
                }
                return Some(string_from_range(&v, x, y));
            }
        }
        start = next;
    }
    proof {
        assert(v@.skip(start as int) =~= Seq::<char>::empty());
    }
    None
}

/// `content` with `key` set: each line whose trimmed text starts with `key`
/// and holds `=` becomes `key = value` at the line's indentation, or the
/// line `key = value` is appended when there is none; a string value is
/// written in double quotes. Every line of the result ends in `\n`.
pub fn set_toml_val(content: &str, key: &str, new_value: &str, is_string: bool) -> (r: String)
    ensures
        r@ == with_setting(content@, key@, new_value@, is_string),
{
    let v = chars_of(content);
    let k = chars_of(key);
    let nv = chars_of(new_value);
    let mut f: Vec<char> = Vec::new();
    if is_string {
        f.push('"');
        let mut i: usize = 0;
        while i < nv.len()
            invariant
                0 <= i <= nv@.len(),
                f@ == seq!['"'] + nv@.take(i as int),
            decreases nv@.len() - i,
        {
            f.push(nv[i]);
            assert(nv@.take(i + 1) =~= nv@.take(i as int).push(nv@[i as int]));
            i = i + 1;
        }
        f.push('"');
        assert(nv@.take(nv@.len() as int) =~= nv@);
    } else {
        f = nv;
    }
    let ghost fs = formatted_value(new_value@, is_string);
    assert(f@ =~= fs);
    let mut out = String::new();
    let mut found = false;
    let mut start: usize = 0;
    let ghost mut done: Seq<Seq<char>> = seq![];
    assert(v@.skip(0) =~= v@);
    assert(lines_of(v@) =~= done + lines_of(v@.skip(0)));
    while start < v.len()
        invariant
            start <= v@.len(),
            v@ == content@,
            k@ == key@,
            f@ == fs,
            lines_of(v@) == done + lines_of(v@.skip(start as int)),
            out@ == unlines(rewrite_all(done, k@, fs)),
            found == any_sets(done, k@),
        decreases v@.len() - start,
    {
        let (ls, le, next) = next_line(&v, start);
        let ghost line = v@.subrange(ls as int, le as int);
        let ghost rest = lines_of(v@.skip(start as int));
        assert(rest[0] == line);
        assert(rest.drop_first() =~= lines_of(v@.skip(next as int)));
        let ghost old_out = out@;
        let (a, b) = trim_range(&v, ls, le);
        let mut sets = false;
        if has_prefix_at(&v, a, b, &k) {
            let q = find_char(&v, a, b, '=');
            sets = q < b;
        }
        assert(sets == line_sets(line, k@));
        if sets {
            push_range(&mut out, &v, ls, a);
            push_all(&mut out, &k);
            push_char(&mut out, ' ');
            push_char(&mut out, '=');
            push_char(&mut out, ' ');
            push_all(&mut out, &f);
            found = true;
            proof {
                assert(leading_ws(line) =~= v@.subrange(ls as int, a as int));
                assert(out@ =~= old_out + rewrite_line(line, k@, fs));
            }
        } else {
            push_range(&mut out, &v, ls, le);
            assert(out@ =~= old_out + rewrite_line(line, k@, fs));
        }
        push_char(&mut out, '\n');
        proof {
            let nd = done.push(line);
            assert(rewrite_all(nd, k@, fs) =~= rewrite_all(done, k@, fs).push(
                rewrite_line(line, k@, fs),
            ));
            lemma_unlines_concat(rewrite_all(done, k@, fs), seq![rewrite_line(line, k@, fs)]);
            lemma_unlines_single(rewrite_line(line, k@, fs));
            assert(rewrite_all(done, k@, fs) + seq![rewrite_line(line, k@, fs)] =~= rewrite_all(
                nd,
                k@,
                fs,
            ));
            assert(lines_of(v@) =~= nd + lines_of(v@.skip(next as int)));
            if sets {
                assert(nd[nd.len() - 1] == line);
            } else {
                assert forall|i: int| 0 <= i < nd.len() && line_sets(nd[i], k@) implies 0 <= i
                    < done.len() && line_sets(done[i], k@) by {
                    if i < done.len() {
                        assert(nd[i] == done[i]);
                    }
                }
                assert forall|i: int| 0 <= i < done.len() && line_sets(done[i], k@) implies 0
                    <= i < nd.len() && line_sets(nd[i], k@) by {
                    assert(nd[i] == done[i]);
                }
            }
            done = nd;
        }
        start = next;
    }
    proof {
        assert(v@.skip(start as int) =~= Seq::<char>::empty());
        assert(lines_of(v@) =~= done);
    }
    if !found {
        let ghost before = out@;
        let ghost nl = setting_line(k@, fs);
        push_all(&mut out, &k);
        push_char(&mut out, ' ');
        push_char(&mut out, '=');
        push_char(&mut out, ' ');
        push_all(&mut out, &f);
        push_char(&mut out, '\n');
        proof {
            assert(rewrite_all(done, k@, fs) =~= done) by {
                assert forall|i: int| 0 <= i < done.len() implies rewrite_all(done, k@, fs)[i]
                    == done[i] by {
                    assert(!line_sets(done[i], k@));
                }
            }
            lemma_unlines_concat(done, seq![nl]);
            lemma_unlines_single(nl);
            assert(done + seq![nl] =~= done.push(nl));
            assert(out@ =~= before + nl + seq!['\n']);
        }
    }
    out
}

// ---------------------------------------------------------------------------
// Laws
// ---------------------------------------------------------------------------

/// A key that starts with a visible character and holds no line break.
pub open spec fn plain_key(key: Seq<char>) -> bool {
    key.len() > 0 && !is_ws(key[0]) && forall|i: int| 0 <= i < key.len() ==> key[i] != '\n'
}

/// No line break in `s`.
pub open spec fn one_line(s: Seq<char>) -> bool {
    forall|i: int| 0 <= i < s.len() ==> s[i] != '\n'
}

proof fn lemma_written_line_trim(w: Seq<char>, key: Seq<char>, f: Seq<char>)
    requires
        forall|i: int| 0 <= i < w.len() ==> is_ws(w[i]),
        key.len() > 0,
        !is_ws(key[0]),
    ensures
        trim(w + setting_line(key, f)) == key + seq![' ', '='] + trim_end(seq![' '] + f),
        key.is_prefix_of(trim(w + setting_line(key, f))),
{
    let z = setting_line(key, f);
    let a = key + seq![' ', '='];
    let b = seq![' '] + f;
    assert(z =~= a + b);
    lemma_trim_start_ws_prefix(w, z);
    assert(z[0] == key[0]);
    assert(trim_start(z) == z);
    assert(a.last() == '=');
    lemma_trim_end_concat(a, b);
    let t = trim(w + z);
    assert(t =~= a + trim_end(b));
    assert(t.take(key.len() as int) =~= key);
}

proof fn lemma_written_line_sets(w: Seq<char>, key: Seq<char>, f: Seq<char>)
    requires
        forall|i: int| 0 <= i < w.len() ==> is_ws(w[i]),
        key.len() > 0,
        !is_ws(key[0]),
        forall|i: int| 0 <= i < key.len() ==> key[i] != '=',
    ensures
        line_sets(w + setting_line(key, f), key),
        value_part(w + setting_line(key, f)) == trim(f),
{
    let line = w + setting_line(key, f);
    lemma_written_line_trim(w, key, f);
    let b = seq![' '] + f;
    let t = trim(line);
    assert forall|j: int| 0 <= j < key.len() + 1 implies t[j] != '=' by {
        if j < key.len() {
            assert(t[j] == key[j]);
        }
    }
    assert(t[key.len() as int + 1] == '=');
    lemma_first_index_at(t, '=', key.len() as int + 1);
    assert(t.skip(key.len() as int + 2) =~= trim_end(b));
    lemma_trim_after_trim_end(b);
    assert(seq![' '] + f =~= b);
    lemma_trim_start_ws_prefix(seq![' '], f);
}

proof fn lemma_leading_ws_is_ws(l: Seq<char>)
    ensures
        leading_ws(l).len() <= l.len(),
        forall|i: int| 0 <= i < leading_ws(l).len() ==> is_ws(leading_ws(l)[i]),
        forall|i: int| 0 <= i < leading_ws(l).len() ==> leading_ws(l)[i] == l[i],
{
    lemma_trim_start_is_suffix(l);
}

proof fn lemma_setting_in_strip_cr(ls: Seq<Seq<char>>, key: Seq<char>)
    ensures
        setting_in(ls.map_values(|l: Seq<char>| strip_cr(l)), key) == setting_in(ls, key),
        setting_unreadable(ls.map_values(|l: Seq<char>| strip_cr(l)), key) == setting_unreadable(
            ls,
            key,
        ),
    decreases ls.len(),
{
    if ls.len() > 0 {
        let ms = ls.map_values(|l: Seq<char>| strip_cr(l));
        lemma_trim_strip_cr(ls[0]);
        assert(ms[0] == strip_cr(ls[0]));
        assert(ms.drop_first() =~= ls.drop_first().map_values(|l: Seq<char>| strip_cr(l)));
        lemma_setting_in_strip_cr(ls.drop_first(), key);
    }
}

proof fn lemma_setting_in_rewrite_hit(ls: Seq<Seq<char>>, key: Seq<char>, f: Seq<char>)
    requires
        key.len() > 0,
        !is_ws(key[0]),
        forall|i: int| 0 <= i < key.len() ==> key[i] != '=',
        any_sets(ls, key),
    ensures
        setting_in(rewrite_all(ls, key, f), key) == Some(unquote(trim(f))),
        setting_unreadable(rewrite_all(ls, key, f), key) == lone_quote(trim(f)),
    decreases ls.len(),
{
    let rs = rewrite_all(ls, key, f);
    let i = choose|i: int| 0 <= i < ls.len() && line_sets(ls[i], key);
    assert(rs[0] == rewrite_line(ls[0], key, f));
    if line_sets(ls[0], key) {
        lemma_leading_ws_is_ws(ls[0]);
        lemma_written_line_sets(leading_ws(ls[0]), key, f);
    } else {
        assert(i > 0);
        assert(ls.drop_first()[i - 1] == ls[i]);
        assert(rs.drop_first() =~= rewrite_all(ls.drop_first(), key, f));
        lemma_setting_in_rewrite_hit(ls.drop_first(), key, f);
    }
}

proof fn lemma_setting_in_push_miss(ls: Seq<Seq<char>>, x: Seq<char>, key: Seq<char>)
    requires
        !any_sets(ls, key),
    ensures
        setting_in(ls.push(x), key) == setting_in(seq![x], key),
        setting_unreadable(ls.push(x), key) == setting_unreadable(seq![x], key),
    decreases ls.len(),
{
    if ls.len() > 0 {
        assert(ls.push(x)[0] == ls[0]);
        assert(!line_sets(ls[0], key));
        assert(ls.push(x).drop_first() =~= ls.drop_first().push(x));
        assert forall|i: int|
            0 <= i < ls.drop_first().len() implies !line_sets(ls.drop_first()[i], key) by {
            assert(ls.drop_first()[i] == ls[i + 1]);
        }
        lemma_setting_in_push_miss(ls.drop_first(), x, key);
    } else {
        assert(ls.push(x) =~= seq![x]);
    }
}

proof fn lemma_setting_in_push_other(ls: Seq<Seq<char>>, x: Seq<char>, key: Seq<char>)
    requires
        !line_sets(x, key),
    ensures
        setting_in(ls.push(x), key) == setting_in(ls, key),
        setting_unreadable(ls.push(x), key) == setting_unreadable(ls, key),
    decreases ls.len(),
{
    if ls.len() > 0 {
        assert(ls.push(x)[0] == ls[0]);
        assert(ls.push(x).drop_first() =~= ls.drop_first().push(x));
        lemma_setting_in_push_other(ls.drop_first(), x, key);
    } else {
        let s = ls.push(x);
        assert(s[0] == x);
        assert(s.len() == 1);
        assert(s.drop_first() =~= ls);
        assert(setting_in(s, key) == setting_in(s.drop_first(), key));
        assert(setting_unreadable(s, key) == setting_unreadable(s.drop_first(), key));
    }
}

proof fn lemma_setting_in_rewrite_other(
    ls: Seq<Seq<char>>,
    key: Seq<char>,
    other: Seq<char>,
    f: Seq<char>,
)
    requires
        key.len() > 0,
        !is_ws(key[0]),
        !key.is_prefix_of(other),
        !other.is_prefix_of(key),
    ensures
        setting_in(rewrite_all(ls, key, f), other) == setting_in(ls, other),
        setting_unreadable(rewrite_all(ls, key, f), other) == setting_unreadable(ls, other),
    decreases ls.len(),
{
    if ls.len() > 0 {
        let rs = rewrite_all(ls, key, f);
        let l = ls[0];
        assert(rs[0] == rewrite_line(l, key, f));
        if line_sets(l, key) {
            if line_sets(l, other) {
                lemma_prefixes_comparable(key, other, trim(l));
            }
            lemma_leading_ws_is_ws(l);
            lemma_written_line_trim(leading_ws(l), key, f);
            if line_sets(rs[0], other) {
                lemma_prefixes_comparable(key, other, trim(rs[0]));
            }
        }
        assert(rs.drop_first() =~= rewrite_all(ls.drop_first(), key, f));
        lemma_setting_in_rewrite_other(ls.drop_first(), key, other, f);
    }
}

/// The lines that `with_setting` writes, before they are joined.
pub open spec fn written_lines(content: Seq<char>, key: Seq<char>, value: Seq<char>, is_string: bool)
    -> Seq<Seq<char>> {
    let ls = lines_of(content);
    let f = formatted_value(value, is_string);
    if any_sets(ls, key) {
        rewrite_all(ls, key, f)
    } else {
        ls.push(setting_line(key, f))
    }
}

proof fn lemma_rewritten_lines(content: Seq<char>, key: Seq<char>, value: Seq<char>, is_string: bool)
    requires
        one_line(key),
        one_line(value),
    ensures
        with_setting(content, key, value, is_string) == unlines(
            written_lines(content, key, value, is_string),
        ),
        lines_of(with_setting(content, key, value, is_string)) == written_lines(
            content,
            key,
            value,
            is_string,
        ).map_values(|l: Seq<char>| strip_cr(l)),
{
    let ls = lines_of(content);
    let f = formatted_value(value, is_string);
    let ws = written_lines(content, key, value, is_string);
    lemma_lines_no_newline(content);
    assert(one_line(f)) by {
        if is_string {
            assert forall|i: int| 0 <= i < f.len() implies f[i] != '\n' by {
                if 0 < i < f.len() - 1 {
                    assert(f[i] == value[i - 1]);
                }
            }
        }
    }
    assert(one_line(setting_line(key, f))) by {
        let sl = setting_line(key, f);
        assert forall|i: int| 0 <= i < sl.len() implies sl[i] != '\n' by {
            if i < key.len() {
                assert(sl[i] == key[i]);
            } else if i >= key.len() + 3 {
                assert(sl[i] == f[i - key.len() - 3]);
            }
        }
    }
    assert forall|i: int, j: int| 0 <= i < ws.len() && 0 <= j < ws[i].len() implies ws[i][j]
        != '\n' by {
        if any_sets(ls, key) {
            let l = ls[i];
            if line_sets(l, key) {
                lemma_leading_ws_is_ws(l);
                let lw = leading_ws(l);
                let sl = setting_line(key, f);
                assert(ws[i] == lw + sl);
                if j < lw.len() {
                    assert(ws[i][j] == l[j]);
                } else {
                    assert(ws[i][j] == sl[j - lw.len()]);
                }
            }
        } else if i == ls.len() {
            assert(ws[i] == setting_line(key, f));
        } else {
            assert(ws[i] == ls[i]);
        }
    }
    lemma_lines_of_unlines(ws);
}

/// Reading a key right after writing it gives back what was written: the
/// written value itself for a string setting, and the trimmed value without
/// surrounding quotes otherwise. The key starts with a visible character and
/// holds neither `=` nor a line break, and the value holds no line break.
pub proof fn law_read_after_write(content: Seq<char>, key: Seq<char>, value: Seq<char>, is_string: bool)
    requires
        plain_key(key),
        forall|i: int| 0 <= i < key.len() ==> key[i] != '=',
        one_line(value),
    ensures
        setting_value(with_setting(content, key, value, is_string), key) == Some(
            unquote(trim(formatted_value(value, is_string))),
        ),
        setting_value_unreadable(with_setting(content, key, value, is_string), key) == lone_quote(
            trim(formatted_value(value, is_string)),
        ),
        is_string ==> setting_value(with_setting(content, key, value, is_string), key) == Some(
            value,
        ),
{
    let ls = lines_of(content);
    let f = formatted_value(value, is_string);
    let ws = written_lines(content, key, value, is_string);
    lemma_rewritten_lines(content, key, value, is_string);
    lemma_setting_in_strip_cr(ws, key);
    if any_sets(ls, key) {
        lemma_setting_in_rewrite_hit(ls, key, f);
    } else {
        let sl = setting_line(key, f);
        lemma_setting_in_push_miss(ls, sl, key);
        let w: Seq<char> = seq![];
        assert(w + sl =~= sl);
        lemma_written_line_sets(w, key, f);
        assert(seq![sl].drop_first() =~= Seq::<Seq<char>>::empty());
    }
    if is_string {
        assert(f[0] == '"');
        assert(f.last() == '"');
        assert(trim_start(f) == f);
        assert(trim_end(f) == f);
        assert(f.subrange(1, f.len() - 1) =~= value);
    }
}

/// Writing one key leaves the value of every other key as it was, provided
/// neither key is a prefix of the other (a line that starts with the longer
/// key starts with the shorter one too).
pub proof fn law_write_keeps_other_settings(
    content: Seq<char>,
    key: Seq<char>,
    other: Seq<char>,
    value: Seq<char>,
    is_string: bool,
)
    requires
        plain_key(key),
        one_line(value),
        !key.is_prefix_of(other),
        !other.is_prefix_of(key),
    ensures
        setting_value(with_setting(content, key, value, is_string), other) == setting_value(
            content,
            other,
        ),
        setting_value_unreadable(with_setting(content, key, value, is_string), other)
            == setting_value_unreadable(content, other),
{
    let ls = lines_of(content);
    let f = formatted_value(value, is_string);
    let ws = written_lines(content, key, value, is_string);
    lemma_rewritten_lines(content, key, value, is_string);
    lemma_setting_in_strip_cr(ws, other);
    if any_sets(ls, key) {
        lemma_setting_in_rewrite_other(ls, key, other, f);
    } else {
        let sl = setting_line(key, f);
        let w: Seq<char> = seq![];
        assert(w + sl =~= sl);
        lemma_written_line_trim(w, key, f);
        if line_sets(sl, other) {
            lemma_prefixes_comparable(key, other, trim(sl));
        }
        lemma_setting_in_push_other(ls, sl, other);
    }
}

// ---------------------------------------------------------------------------
// The settings the command knows
// ---------------------------------------------------------------------------

/// A reservoir setting that `dam settings` reads and writes.
#[derive(Clone, Copy, Debug, PartialEq, Eq, Structural)]
pub enum SettingKey {
    Name,
    PuritiesOverridesImpurities,
    ImpuritiesOverridesPurities,
    SuppressNestedWarning,
    EnforcePasswordOnProjectImport,
    GithubRepo,
    GithubCredAlias,
    DisableOverwriteCheck,
    OverwriteCheckExclude,
}

/// Why a settings request was refused.
#[derive(Clone, Copy, Debug, PartialEq, Eq, Structural)]
pub enum SettingError {
    /// The key names no known setting.
    UnsupportedKey,
    /// A flag setting was given something other than `true` or `false`.
    NotBoolean,
}

impl SettingKey {
    /// The key as written in `config.toml`.
    pub open spec fn key_spec(self) -> Seq<char> {
        match self {
            SettingKey::Name => "name"@,
            SettingKey::PuritiesOverridesImpurities => "purities_overrides_impurities"@,
            SettingKey::ImpuritiesOverridesPurities => "impurities_overrides_purities"@,
            SettingKey::SuppressNestedWarning => "suppress_nested_warning"@,
            SettingKey::EnforcePasswordOnProjectImport => "enforce_password_on_project_import"@,
            SettingKey::GithubRepo => "github_repo"@,
            SettingKey::GithubCredAlias => "github_cred_alias"@,
            SettingKey::DisableOverwriteCheck => "disable_overwrite_check"@,
            SettingKey::OverwriteCheckExclude => "overwrite_check_exclude"@,
        }
    }

    /// Whether the value is written as a quoted string (else it is a flag).
    pub open spec fn is_string_spec(self) -> bool {
        match self {
            SettingKey::Name | SettingKey::GithubRepo | SettingKey::GithubCredAlias
            | SettingKey::OverwriteCheckExclude => true,
            _ => false,
        }
    }

    /// The key as written in `config.toml`.
    pub fn key_name(&self) -> (r: &'static str)
        ensures
            r@ == self.key_spec(),
    {
        match self {
            SettingKey::Name => "name",
            SettingKey::PuritiesOverridesImpurities => "purities_overrides_impurities",
            SettingKey::ImpuritiesOverridesPurities => "impurities_overrides_purities",
            SettingKey::SuppressNestedWarning => "suppress_nested_warning",
            SettingKey::EnforcePasswordOnProjectImport => "enforce_password_on_project_import",
            SettingKey::GithubRepo => "github_repo",
            SettingKey::GithubCredAlias => "github_cred_alias",
            SettingKey::DisableOverwriteCheck => "disable_overwrite_check",
            SettingKey::OverwriteCheckExclude => "overwrite_check_exclude",
        }
    }

    /// Whether the value is written as a quoted string.
    pub fn is_string(&self) -> (r: bool)
        ensures
            r == self.is_string_spec(),
    {
        match self {
            SettingKey::Name | SettingKey::GithubRepo | SettingKey::GithubCredAlias
            | SettingKey::OverwriteCheckExclude => true,
            _ => false,
        }
    }
}

/// The setting a normalized key names, aliases included.
pub open spec fn setting_key_spec(n: Seq<char>) -> Option<SettingKey> {
    if n == "name"@ {
        Some(SettingKey::Name)
    } else if n == "purities_overrides_impurities"@ {
        Some(SettingKey::PuritiesOverridesImpurities)
    } else if n == "impurities_overrides_purities"@ {
        Some(SettingKey::ImpuritiesOverridesPurities)
    } else if n == "suppress_nested_warning"@ || n == "suppress"@ {
        Some(SettingKey::SuppressNestedWarning)
    } else if n == "enforce_password_on_project_import"@ || n == "enforce_password"@ {
        Some(SettingKey::EnforcePasswordOnProjectImport)
    } else if n == "github_repo"@ || n == "repo"@ {
        Some(SettingKey::GithubRepo)
    } else if n == "github_cred_alias"@ || n == "cred_alias"@ {
        Some(SettingKey::GithubCredAlias)
    } else if n == "disable_overwrite_check"@ {
        Some(SettingKey::DisableOverwriteCheck)
    } else if n == "overwrite_check_exclude"@ {
        Some(SettingKey::OverwriteCheckExclude)
    } else {
        None
    }
}

/// The setting that the normalized key `n` names.
pub fn setting_key_for(n: &str) -> (r: Option<SettingKey>)
    ensures
        r == setting_key_spec(n@),
{
    if str_eq(n, "name") {
        Some(SettingKey::Name)
    } else if str_eq(n, "purities_overrides_impurities") {
        Some(SettingKey::PuritiesOverridesImpurities)
    } else if str_eq(n, "impurities_overrides_purities") {
        Some(SettingKey::ImpuritiesOverridesPurities)
    } else if str_eq(n, "suppress_nested_warning") || str_eq(n, "suppress") {
        Some(SettingKey::SuppressNestedWarning)
    } else if str_eq(n, "enforce_password_on_project_import") || str_eq(n, "enforce_password") {
        Some(SettingKey::EnforcePasswordOnProjectImport)
    } else if str_eq(n, "github_repo") || str_eq(n, "repo") {
        Some(SettingKey::GithubRepo)
    } else if str_eq(n, "github_cred_alias") || str_eq(n, "cred_alias") {
        Some(SettingKey::GithubCredAlias)
    } else if str_eq(n, "disable_overwrite_check") {
        Some(SettingKey::DisableOverwriteCheck)
    } else if str_eq(n, "overwrite_check_exclude") {
        Some(SettingKey::OverwriteCheckExclude)
    } else {
        None
    }
}

/// A user-typed key: trimmed, lower-cased, with every `reservoir.` removed.
pub open spec fn normalized_key_spec(key: Seq<char>) -> Seq<char> {
    remove_all(lower_text(trim(key)), "reservoir."@)
}

/// Normalizes a user-typed setting key.
pub fn normalize_setting_key(key: &str) -> (r: String)
    ensures
        r@ == normalized_key_spec(key@),
{
    let t = trimmed(key);
    let lower = to_lowercase(t.as_str());
    let lv = crate::text::chars_of(lower.as_str());
    let pat = crate::text::chars_of("reservoir.");
    proof {
        reveal_strlit("reservoir.");
    }
    let out = remove_all_of(&lv, &pat);
    crate::text::string_from_chars(&out)
}

/// The setting a user-typed key names, after normalization.
pub fn resolve_setting_key(key: &str) -> (r: Option<SettingKey>)
    ensures
        r == setting_key_spec(normalized_key_spec(key@)),
{
    let n = normalize_setting_key(key);
    setting_key_for(n.as_str())
}

/// What writing `value` to setting `k` makes of `content`: a flag only takes
/// `true` or `false`, and turning one conflict rule on turns the other off.
pub open spec fn apply_setting_spec(content: Seq<char>, k: SettingKey, value: Seq<char>) -> Result<
    Seq<char>,
    SettingError,
> {
    if !k.is_string_spec() && value != "true"@ && value != "false"@ {
        Err(SettingError::NotBoolean)
    } else {
        let c1 = with_setting(content, k.key_spec(), value, k.is_string_spec());
        if value == "true"@ && k == SettingKey::PuritiesOverridesImpurities {
            Ok(with_setting(c1, "impurities_overrides_purities"@, "false"@, false))
        } else if value == "true"@ && k == SettingKey::ImpuritiesOverridesPurities {
            Ok(with_setting(c1, "purities_overrides_impurities"@, "false"@, false))
        } else {
            Ok(c1)
        }
    }
}

/// Writes `value` to setting `k` in `content`.
pub fn apply_setting(content: &str, k: SettingKey, value: &str) -> (r: Result<String, SettingError>)
    ensures
        match r {
            Ok(s) => apply_setting_spec(content@, k, value@) == Ok::<Seq<char>, SettingError>(s@),
            Err(e) => apply_setting_spec(content@, k, value@) == Err::<Seq<char>, SettingError>(e),
        },
{
    let is_true = str_eq(value, "true");
    let is_false = str_eq(value, "false");
    if !k.is_string() && !is_true && !is_false {
        return Err(SettingError::NotBoolean);
    }
    let c1 = set_toml_val(content, k.key_name(), value, k.is_string());
    if is_true {
        match k {
            SettingKey::PuritiesOverridesImpurities => {
                return Ok(
                    set_toml_val(c1.as_str(), "impurities_overrides_purities", "false", false),
                );
            },
            SettingKey::ImpuritiesOverridesPurities => {
                return Ok(
                    set_toml_val(c1.as_str(), "purities_overrides_impurities", "false", false),
                );
            },
            _ => {},
        }
    }
    Ok(c1)
}

/// `dam settings <key> <value>`: the new `config.toml` content, or why the
/// request was refused.
pub fn update_setting(content: &str, key: &str, value: &str) -> (r: Result<String, SettingError>)
    ensures
        match setting_key_spec(normalized_key_spec(key@)) {
            None => r == Err::<String, SettingError>(SettingError::UnsupportedKey),
            Some(k) => match r {
                Ok(s) => apply_setting_spec(content@, k, value@) == Ok::<Seq<char>, SettingError>(
                    s@,
                ),
                Err(e) => apply_setting_spec(content@, k, value@) == Err::<Seq<char>, SettingError>(
                    e,
                ),
            },
        },
{
    match resolve_setting_key(key) {
        None => Err(SettingError::UnsupportedKey),
        Some(k) => apply_setting(content, k, value),
    }
}

/// Whether reading `key` from `content` is possible (the first line that
/// sets it does not hold a lone quote).
pub fn toml_val_readable(content: &str, key: &str) -> (r: bool)
    ensures
        r == !setting_value_unreadable(content@, key@),
{
    let v = chars_of(content);
    let k = chars_of(key);
    let mut start: usize = 0;
    assert(v@.skip(0) =~= v@);
    while start < v.len()
        invariant
            start <= v@.len(),
            v@ == content@,
            k@ == key@,
            setting_unreadable(lines_of(v@), k@) == setting_unreadable(
                lines_of(v@.skip(start as int)),
                k@,
            ),
        decreases v@.len() - start,
    {
        let (ls, le, next) = next_line(&v, start);
        let ghost line = v@.subrange(ls as int, le as int);
        let ghost rest = lines_of(v@.skip(start as int));
        assert(rest[0] == line);
        assert(rest.drop_first() =~= lines_of(v@.skip(next as int)));
        let (a, b) = trim_range(&v, ls, le);
        if has_prefix_at(&v, a, b, &k) {
            let q = find_char(&v, a, b, '=');
            if q < b {
                let (x, y) = trim_range(&v, q + 1, b);
                proof {
                    assert(v@.subrange(a as int, b as int).skip(q - a + 1) =~= v@.subrange(
                        q + 1,
                        b as int,
                    ));
                    assert(value_part(line) == v@.subrange(x as int, y as int));
                }
                return !(y > x && y - x == 1 && v[x] == '"');
            }
        }
        start = next;
    }
    proof {
        assert(v@.skip(start as int) =~= Seq::<char>::empty());
    }
    true
}

/// The value of `key`, or `default` when no line sets it.
pub fn setting_or(content: &str, key: &str, default: &str) -> (r: String)
    requires
        !setting_value_unreadable(content@, key@),
    ensures
        r@ == match setting_value(content@, key@) {
            Some(v) => v,
            None => default@,
        },
{
    match get_toml_val(content, key) {
        Some(v) => v,
        None => owned(default),
    }
}

/// `dam settings <key>`: the configured value of the setting, `None` when it
/// is not configured, or why the key was refused.
pub fn read_setting(content: &str, k: SettingKey) -> (r: Option<String>)
    requires
        !setting_value_unreadable(content@, k.key_spec()),
    ensures
        match r {
            Some(s) => setting_value(content@, k.key_spec()) == Some(s@),
            None => setting_value(content@, k.key_spec()) is None,
        },
{
    get_toml_val(content, k.key_name())
}

// ---------------------------------------------------------------------------
// The interactive dashboard
// ---------------------------------------------------------------------------

/// An entry of the settings dashboard.
#[derive(Clone, Copy, Debug, PartialEq, Eq, Structural)]
pub enum MenuAction {
    Rename,
    TogglePurities,
    ToggleImpurities,
    ToggleNested,
    TogglePassword,
    SetRepo,
    SetCredAlias,
    ToggleOverwriteCheck,
    SetOverwriteExclude,
    SaveAndExit,
    Invalid,
}

/// The dashboard entry that a typed choice selects (after trimming).
pub open spec fn menu_action_spec(choice: Seq<char>) -> MenuAction {
    let c = trim(choice);
    if c == "1"@ {
        MenuAction::Rename
    } else if c == "2"@ {
        MenuAction::TogglePurities
    } else if c == "3"@ {
        MenuAction::ToggleImpurities
    } else if c == "4"@ {
        MenuAction::ToggleNested
    } else if c == "5"@ {
        MenuAction::TogglePassword
    } else if c == "6"@ {
        MenuAction::SetRepo
    } else if c == "7"@ {
        MenuAction::SetCredAlias
    } else if c == "8"@ {
        MenuAction::ToggleOverwriteCheck
    } else if c == "9"@ {
        MenuAction::SetOverwriteExclude
    } else if c == "10"@ || c.len() == 0 {
        MenuAction::SaveAndExit
    } else {
        MenuAction::Invalid
    }
}

/// The dashboard entry that a typed choice selects.
pub fn parse_menu_choice(choice: &str) -> (r: MenuAction)
    ensures
        r == menu_action_spec(choice@),
{
    let c = trimmed(choice);
    let c = c.as_str();
    if str_eq(c, "1") {
        MenuAction::Rename
    } else if str_eq(c, "2") {
        MenuAction::TogglePurities
    } else if str_eq(c, "3") {
        MenuAction::ToggleImpurities
    } else if str_eq(c, "4") {
        MenuAction::ToggleNested
    } else if str_eq(c, "5") {
        MenuAction::TogglePassword
    } else if str_eq(c, "6") {
        MenuAction::SetRepo
    } else if str_eq(c, "7") {
        MenuAction::SetCredAlias
    } else if str_eq(c, "8") {
        MenuAction::ToggleOverwriteCheck
    } else if str_eq(c, "9") {
        MenuAction::SetOverwriteExclude
    } else if str_eq(c, "10") || c.is_empty() {
        MenuAction::SaveAndExit
    } else {
        MenuAction::Invalid
    }
}

/// The flag a toggle entry flips, if it is one.
pub open spec fn toggle_key(a: MenuAction) -> Option<Seq<char>> {
    match a {
        MenuAction::TogglePurities => Some("purities_overrides_impurities"@),
        MenuAction::ToggleImpurities => Some("impurities_overrides_purities"@),
        MenuAction::ToggleNested => Some("suppress_nested_warning"@),
        MenuAction::TogglePassword => Some("enforce_password_on_project_import"@),
        MenuAction::ToggleOverwriteCheck => Some("disable_overwrite_check"@),
        _ => None,
    }
}

/// The new value of a flag that is toggled: `true` unless it is `true` now
/// (an unset flag counts as `false`).
pub open spec fn toggled(current: Option<Seq<char>>) -> Seq<char> {
    if current == Some("true"@) {
        "false"@
    } else {
        "true"@
    }
}

/// The content after writing `value` to flag `key`, turning the opposite
/// conflict rule off when one is turned on.
pub open spec fn with_flag(content: Seq<char>, key: Seq<char>, value: Seq<char>) -> Seq<char> {
    let c1 = with_setting(content, key, value, false);
    if value == "true"@ && key == "purities_overrides_impurities"@ {
        with_setting(c1, "impurities_overrides_purities"@, "false"@, false)
    } else if value == "true"@ && key == "impurities_overrides_purities"@ {
        with_setting(c1, "purities_overrides_impurities"@, "false"@, false)
    } else {
        c1
    }
}

/// What a dashboard entry does to the content; `entered` is the line typed
/// for the entries that ask for one.
pub open spec fn menu_effect(content: Seq<char>, a: MenuAction, entered: Seq<char>) -> Seq<char> {
    let e = trim(entered);
    match a {
        MenuAction::Rename => if e.len() > 0 {
            with_setting(content, "name"@, e, true)
        } else {
            content
        },
        MenuAction::SetRepo => if e.len() > 0 {
            with_setting(content, "github_repo"@, e, true)
        } else {
            content
        },
        MenuAction::SetCredAlias => with_setting(content, "github_cred_alias"@, e, true),
        MenuAction::SetOverwriteExclude => with_setting(content, "overwrite_check_exclude"@, e, true),
        MenuAction::SaveAndExit | MenuAction::Invalid => content,
        _ => {
            let k = toggle_key(a).unwrap();
            with_flag(content, k, toggled(setting_value(content, k)))
        },
    }
}

/// The flag of a toggle entry can be read.
pub open spec fn menu_readable(content: Seq<char>, a: MenuAction) -> bool {
    match toggle_key(a) {
        Some(k) => !setting_value_unreadable(content, k),
        None => true,
    }
}

fn flip_flag(content: &str, key: &str) -> (r: String)
    requires
        !setting_value_unreadable(content@, key@),
    ensures
        r@ == with_flag(content@, key@, toggled(setting_value(content@, key@))),
{
    let cur = setting_or(content, key, "false");
    let is_true = str_eq(cur.as_str(), "true");
    proof {
        reveal_strlit("true");
        reveal_strlit("false");
    }
    let next = if is_true {
        "false"
    } else {
        "true"
    };
    assert(next@ == toggled(setting_value(content@, key@)));
    let c1 = set_toml_val(content, key, next, false);
    if !is_true {
        if str_eq(key, "purities_overrides_impurities") {
            return set_toml_val(c1.as_str(), "impurities_overrides_purities", "false", false);
        }
        if str_eq(key, "impurities_overrides_purities") {
            return set_toml_val(c1.as_str(), "purities_overrides_impurities", "false", false);
        }
    }
    c1
}

/// Carries out a dashboard entry on the content.
pub fn apply_menu_action(content: &str, a: MenuAction, entered: &str) -> (r: String)
    requires
        menu_readable(content@, a),
    ensures
        r@ == menu_effect(content@, a, entered@),
{
    let e = trimmed(entered);
    match a {
        MenuAction::Rename => if e.as_str().is_empty() {
            owned(content)
        } else {
            set_toml_val(content, "name", e.as_str(), true)
        },
        MenuAction::SetRepo => if e.as_str().is_empty() {
            owned(content)
        } else {
            set_toml_val(content, "github_repo", e.as_str(), true)
        },
        MenuAction::SetCredAlias => set_toml_val(content, "github_cred_alias", e.as_str(), true),
        MenuAction::SetOverwriteExclude => set_toml_val(
            content,
            "overwrite_check_exclude",
            e.as_str(),
            true,
        ),
        MenuAction::SaveAndExit | MenuAction::Invalid => owned(content),
        MenuAction::TogglePurities => flip_flag(content, "purities_overrides_impurities"),
        MenuAction::ToggleImpurities => flip_flag(content, "impurities_overrides_purities"),
        MenuAction::ToggleNested => flip_flag(content, "suppress_nested_warning"),
        MenuAction::TogglePassword => flip_flag(content, "enforce_password_on_project_import"),
        MenuAction::ToggleOverwriteCheck => flip_flag(content, "disable_overwrite_check"),
    }
}

/// Turning one conflict rule on through `dam settings` leaves it reading
/// `true` and the opposite rule reading `false`, whatever the content was.
pub proof fn law_conflict_rules_exclusive(content: Seq<char>, k: SettingKey)
    requires
        k == SettingKey::PuritiesOverridesImpurities || k == SettingKey::ImpuritiesOverridesPurities,
    ensures
        apply_setting_spec(content, k, "true"@) is Ok,
        setting_value(apply_setting_spec(content, k, "true"@)->Ok_0, k.key_spec()) == Some("true"@),
        setting_value(
            apply_setting_spec(content, k, "true"@)->Ok_0,
            if k == SettingKey::PuritiesOverridesImpurities {
                "impurities_overrides_purities"@
            } else {
                "purities_overrides_impurities"@
            },
        ) == Some("false"@),
{
    reveal_strlit("true");
    reveal_strlit("false");
    reveal_strlit("purities_overrides_impurities");
    reveal_strlit("impurities_overrides_purities");
    let p = "purities_overrides_impurities"@;
    let i = "impurities_overrides_purities"@;
    let (own, opp) = if k == SettingKey::PuritiesOverridesImpurities {
        (p, i)
    } else {
        (i, p)
    };
    assert(k.key_spec() == own);
    assert(!own.is_prefix_of(opp)) by {
        assert(own[0] != opp[0]);
    }
    assert(!opp.is_prefix_of(own)) by {
        assert(own[0] != opp[0]);
    }
    assert(plain_key(own));
    assert(plain_key(opp));
    assert(forall|j: int| 0 <= j < opp.len() ==> opp[j] != '=');
    assert(forall|j: int| 0 <= j < own.len() ==> own[j] != '=');
    let t = "true"@;
    let f = "false"@;
    assert(one_line(t));
    assert(one_line(f));
    let c1 = with_setting(content, own, t, false);
    law_read_after_write(content, own, t, false);
    assert(trim_start(t) == t);
    assert(trim_end(t) == t);
    assert(trim_start(f) == f);
    assert(trim_end(f) == f);
    assert(!is_quoted(t));
    assert(!is_quoted(f));
    law_read_after_write(c1, opp, f, false);
    law_write_keeps_other_settings(c1, opp, own, f, false);
}

} // verus!

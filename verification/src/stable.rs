//! Stable versions: stream-scoped version markers kept under
//! `.dam/stable_versions`.
use vstd::prelude::*;
use vstd::string::StringExecFns;
use crate::order::{
    is_text_less, lemma_text_less_irreflexive, lemma_text_less_total, lemma_text_less_transitive,
    text_less,
};
use crate::text::{
    answer_is, answer_is_spec, chars_of, owned, push_char, str_eq, string_views, trim, trimmed,
};

verus! {

/// A stable version assigned to a stream.
pub struct StableVersion {
    pub version: String,
    pub stream: String,
    pub description: Option<String>,
    pub created_at: String,
    pub seal_id: String,
}

/// The directory stable versions are kept in.
pub fn stable_dir() -> (r: &'static str)
    ensures
        r@ == ".dam/stable_versions"@,
{
    ".dam/stable_versions"
}

/// A name made safe for a file name: `/`, space and line feed become `_`.
pub open spec fn sanitized(name: Seq<char>) -> Seq<char> {
    name.map_values(|c: char| if c == '/' || c == ' ' || c == '\n' { '_' } else { c })
}

/// Replaces `/`, spaces and line feeds in `name` by `_`.
pub fn sanitize_name(name: &str) -> (r: String)
    ensures
        r@ == sanitized(name@),
{
    let v = chars_of(name);
    let mut s = String::new();
    let mut i: usize = 0;
    while i < v.len()
        invariant
            v@ == name@,
            0 <= i <= v@.len(),
            s@ == sanitized(v@.take(i as int)),
        decreases v@.len() - i,
    {
        let c = v[i];
        let d = if c == '/' || c == ' ' || c == '\n' {
            '_'
        } else {
            c
        };
        push_char(&mut s, d);
        assert(sanitized(v@.take(i + 1)) =~= sanitized(v@.take(i as int)).push(d));
        i = i + 1;
    }
    assert(v@.take(v@.len() as int) =~= v@);
    s
}

/// The file a stable version is stored in.
pub open spec fn stable_path_spec(version: Seq<char>) -> Seq<char> {
    ".dam/stable_versions/"@ + sanitized(version) + ".json"@
}

/// The file a stable version is stored in.
pub fn stable_path(version: &str) -> (r: String)
    ensures
        r@ == stable_path_spec(version@),
{
    let mut s = String::from_str(".dam/stable_versions/");
    let n = sanitize_name(version);
    s.append(n.as_str());
    s.append(".json");
    s
}

/// The file that names a stream's latest stable version.
pub open spec fn stable_latest_pointer_path_spec(stream: Seq<char>) -> Seq<char> {
    ".dam/stable_versions/latest-"@ + sanitized(stream) + ".txt"@
}

/// The file that names a stream's latest stable version.
pub fn stable_latest_pointer_path(stream: &str) -> (r: String)
    ensures
        r@ == stable_latest_pointer_path_spec(stream@),
{
    let mut s = String::from_str(".dam/stable_versions/latest-");
    let n = sanitize_name(stream);
    s.append(n.as_str());
    s.append(".txt");
    s
}

/// `latest` (in any ASCII case, trimmed) is reserved for the pointer.
pub fn is_reserved_version_name(version: &str) -> (r: bool)
    ensures
        r == answer_is_spec(version@, "latest"@),
{
    answer_is(version, "latest")
}

/// The version named by a pointer file's content.
pub open spec fn pointer_target_spec(content: Seq<char>) -> Option<Seq<char>> {
    if trim(content).len() > 0 {
        Some(trim(content))
    } else {
        None
    }
}

/// The version a pointer file names: its trimmed content, when not empty.
pub fn pointer_target(content: &str) -> (r: Option<String>)
    ensures
        match r {
            Some(s) => pointer_target_spec(content@) == Some(s@),
            None => pointer_target_spec(content@) is None,
        },
{
    let t = trimmed(content);
    if t.as_str().is_empty() {
        None
    } else {
        Some(t)
    }
}

/// The name a clashing version gets: what the user typed (trimmed), or the
/// base name with a timestamp when nothing was typed.
pub open spec fn unique_name_spec(input: Seq<char>, base: Seq<char>, stamp: Seq<char>) -> Seq<
    char,
> {
    if trim(input).len() > 0 {
        trim(input)
    } else {
        base + seq!['-'] + stamp
    }
}

/// Picks the name for a version whose name is taken.
pub fn unique_name(input: &str, base: &str, stamp: &str) -> (r: String)
    ensures
        r@ == unique_name_spec(input@, base@, stamp@),
{
    let t = trimmed(input);
    if !t.as_str().is_empty() {
        t
    } else {
        let mut s = owned(base);
        push_char(&mut s, '-');
        s.append(stamp);
        s
    }
}

/// The entries assigned to `stream`, in order.
pub open spec fn entries_for(ss: Seq<StableVersion>, stream: Seq<char>) -> Seq<StableVersion>
    decreases ss.len(),
{
    if ss.len() == 0 {
        seq![]
    } else {
        let r = entries_for(ss.drop_last(), stream);
        if ss.last().stream@ == stream {
            r.push(ss.last())
        } else {
            r
        }
    }
}

/// The position of the first entry with the latest `created_at`.
pub open spec fn newest_index(keys: Seq<Seq<char>>) -> int
    decreases keys.len(),
{
    if keys.len() <= 1 {
        0
    } else {
        let r = newest_index(keys.drop_last());
        if text_less(keys[r], keys.last()) {
            keys.len() - 1
        } else {
            r
        }
    }
}

pub open spec fn created_keys(ss: Seq<StableVersion>) -> Seq<Seq<char>> {
    ss.map_values(|s: StableVersion| s.created_at@)
}

pub open spec fn versions_of(ss: Seq<StableVersion>) -> Seq<Seq<char>> {
    ss.map_values(|s: StableVersion| s.version@)
}

/// The stable version `dam stable inspect --latest` shows for `stream`: the
/// one the pointer names when it belongs to the stream, else the newest;
/// none when the stream has no stable version.
pub open spec fn latest_stable_spec(
    ss: Seq<StableVersion>,
    stream: Seq<char>,
    pointer: Option<Seq<char>>,
) -> Option<Seq<char>> {
    let es = entries_for(ss, stream);
    if es.len() == 0 {
        None
    } else if pointer is Some && versions_of(es).contains(pointer->0) {
        pointer
    } else {
        Some(es[newest_index(created_keys(es))].version@)
    }
}

/// The view of an optional text.
pub open spec fn opt_str_view(o: Option<&str>) -> Option<Seq<char>> {
    match o {
        Some(p) => Some(p@),
        None => None,
    }
}

/// The position `newest_index` picks is in range and holds a creation time
/// no other entry is later than.
pub proof fn lemma_newest_index_is_newest(keys: Seq<Seq<char>>)
    requires
        keys.len() > 0,
    ensures
        0 <= newest_index(keys) < keys.len(),
        forall|j: int| 0 <= j < keys.len() ==> !text_less(keys[newest_index(keys)], #[trigger] keys[j]),
    decreases keys.len(),
{
    let b = newest_index(keys);
    if keys.len() == 1 {
        lemma_text_less_irreflexive(keys[0]);
    } else {
        let pre = keys.drop_last();
        let n = keys.len() - 1;
        lemma_newest_index_is_newest(pre);
        let r = newest_index(pre);
        assert forall|j: int| 0 <= j < keys.len() implies !text_less(keys[b], #[trigger] keys[j]) by {
            if text_less(keys[r], keys.last()) {
                // keys[b] is the last key, later than the newest of the rest
                if j < n {
                    assert(pre[j] == keys[j]);
                    if text_less(keys[n], keys[j]) {
                        lemma_text_less_transitive(keys[r], keys[n], keys[j]);
                    }
                } else {
                    lemma_text_less_irreflexive(keys[n]);
                }
            } else {
                assert(b == r);
                assert(pre[r] == keys[r]);
                if j < n {
                    assert(pre[j] == keys[j]);
                } else {
                    lemma_text_less_total(keys[r], keys[n]);
                }
            }
        }
    }
}

proof fn lemma_entries_for(ss: Seq<StableVersion>, stream: Seq<char>)
    ensures
        forall|m: int|
            0 <= m < entries_for(ss, stream).len() ==> exists|k: int|
                0 <= k < ss.len() && ss[k] == #[trigger] entries_for(ss, stream)[m]
                    && ss[k].stream@ == stream,
        forall|j: int|
            0 <= j < ss.len() && (#[trigger] ss[j]).stream@ == stream ==> exists|m: int|
                0 <= m < entries_for(ss, stream).len() && entries_for(ss, stream)[m] == ss[j],
    decreases ss.len(),
{
    if ss.len() > 0 {
        let pre = ss.drop_last();
        let n = ss.len() - 1;
        lemma_entries_for(pre, stream);
        let r = entries_for(pre, stream);
        let es = entries_for(ss, stream);
        assert forall|m: int| 0 <= m < es.len() implies exists|k: int|
            0 <= k < ss.len() && ss[k] == #[trigger] es[m] && ss[k].stream@ == stream by {
            if m < r.len() {
                assert(es[m] == r[m]);
                let k = choose|k: int| 0 <= k < pre.len() && pre[k] == r[m] && pre[k].stream@ == stream;
                assert(ss[k] == pre[k]);
            } else {
                assert(es[m] == ss[n]);
            }
        }
        assert forall|j: int| 0 <= j < ss.len() && (#[trigger] ss[j]).stream@ == stream implies exists|
            m: int,
        | 0 <= m < es.len() && es[m] == ss[j] by {
            if j < n {
                assert(pre[j] == ss[j]);
                let m = choose|m: int| 0 <= m < r.len() && r[m] == pre[j];
                assert(es[m] == r[m]);
            } else {
                assert(es[r.len() as int] == ss[n]);
            }
        }
    }
}

/// What `dam stable inspect --latest` shows for a stream: nothing when the
/// stream has no stable version; the version the pointer names when it is
/// one of the stream's; otherwise a stable version of the stream that no
/// other stable version of the stream was created after.
pub proof fn law_latest_stable_is_newest(
    ss: Seq<StableVersion>,
    stream: Seq<char>,
    pointer: Option<Seq<char>>,
)
    ensures
        (forall|j: int| 0 <= j < ss.len() ==> (#[trigger] ss[j]).stream@ != stream)
            ==> latest_stable_spec(ss, stream, pointer) is None,
        (pointer matches Some(p) && exists|j: int|
            0 <= j < ss.len() && (#[trigger] ss[j]).stream@ == stream && ss[j].version@ == p)
            ==> latest_stable_spec(ss, stream, pointer) == pointer,
        (exists|j: int| 0 <= j < ss.len() && (#[trigger] ss[j]).stream@ == stream) && !(
        pointer matches Some(p) && exists|j: int|
            0 <= j < ss.len() && (#[trigger] ss[j]).stream@ == stream && ss[j].version@ == p)
            ==> exists|k: int|
            0 <= k < ss.len() && ss[k].stream@ == stream && latest_stable_spec(ss, stream, pointer)
                == Some(ss[k].version@) && forall|j: int|
                0 <= j < ss.len() && (#[trigger] ss[j]).stream@ == stream ==> !text_less(
                    ss[k].created_at@,
                    ss[j].created_at@,
                ),
{
    lemma_entries_for(ss, stream);
    let es = entries_for(ss, stream);
    if forall|j: int| 0 <= j < ss.len() ==> (#[trigger] ss[j]).stream@ != stream {
        if es.len() > 0 {
            let k = choose|k: int| 0 <= k < ss.len() && ss[k] == es[0] && ss[k].stream@ == stream;
            assert(ss[k].stream@ != stream);
        }
    }
    if pointer matches Some(p) && exists|j: int|
        0 <= j < ss.len() && (#[trigger] ss[j]).stream@ == stream && ss[j].version@ == p {
        let p = pointer->0;
        let j = choose|j: int| 0 <= j < ss.len() && (#[trigger] ss[j]).stream@ == stream && ss[j].version@ == p;
        let m = choose|m: int| 0 <= m < es.len() && es[m] == ss[j];
        assert(versions_of(es)[m] == p);
    }
    if (exists|j: int| 0 <= j < ss.len() && (#[trigger] ss[j]).stream@ == stream) && !(
    pointer matches Some(p) && exists|j: int|
        0 <= j < ss.len() && (#[trigger] ss[j]).stream@ == stream && ss[j].version@ == p) {
        let j0 = choose|j: int| 0 <= j < ss.len() && (#[trigger] ss[j]).stream@ == stream;
        let m0 = choose|m: int| 0 <= m < es.len() && es[m] == ss[j0];
        assert(es.len() > 0);
        if pointer is Some && versions_of(es).contains(pointer->0) {
            let p = pointer->0;
            let m = choose|m: int| 0 <= m < versions_of(es).len() && versions_of(es)[m] == p;
            let k = choose|k: int| 0 <= k < ss.len() && ss[k] == es[m] && ss[k].stream@ == stream;
            assert(ss[k].version@ == p);
        }
        let ks = created_keys(es);
        lemma_newest_index_is_newest(ks);
        let b = newest_index(ks);
        let k = choose|k: int| 0 <= k < ss.len() && ss[k] == es[b] && ss[k].stream@ == stream;
        assert forall|j: int| 0 <= j < ss.len() && (#[trigger] ss[j]).stream@ == stream implies !text_less(
            ss[k].created_at@,
            ss[j].created_at@,
        ) by {
            let m = choose|m: int| 0 <= m < es.len() && es[m] == ss[j];
            assert(ks[m] == ss[j].created_at@);
            assert(ks[b] == ss[k].created_at@);
        }
    }
}

/// Chooses the stable version to inspect as the latest of `stream`.
pub fn latest_stable(ss: &Vec<StableVersion>, stream: &str, pointer: Option<&str>) -> (r: Option<
    String,
>)
    ensures
        match r {
            Some(s) => latest_stable_spec(ss@, stream@, opt_str_view(pointer)) == Some(s@),
            None => latest_stable_spec(ss@, stream@, opt_str_view(pointer)) is None,
        },
{
    // entries of the stream: their versions and creation times
    let mut versions: Vec<String> = Vec::new();
    let mut keys: Vec<String> = Vec::new();
    let mut i: usize = 0;
    while i < ss.len()
        invariant
            0 <= i <= ss@.len(),
            string_views(versions@) == versions_of(entries_for(ss@.take(i as int), stream@)),
            string_views(keys@) == created_keys(entries_for(ss@.take(i as int), stream@)),
        decreases ss@.len() - i,
    {
        let ghost pre = ss@.take(i as int);
        let ghost cur = ss@.take(i + 1);
        assert(cur.drop_last() =~= pre);
        assert(cur.last() == ss@[i as int]);
        if str_eq(ss[i].stream.as_str(), stream) {
            let ghost ov = versions@;
            let ghost ok = keys@;
            versions.push(ss[i].version.clone());
            keys.push(ss[i].created_at.clone());
            assert(string_views(versions@) =~= string_views(ov).push(ss@[i as int].version@));
            assert(string_views(keys@) =~= string_views(ok).push(ss@[i as int].created_at@));
            assert(versions_of(entries_for(cur, stream@)) =~= versions_of(
                entries_for(pre, stream@),
            ).push(ss@[i as int].version@));
            assert(created_keys(entries_for(cur, stream@)) =~= created_keys(
                entries_for(pre, stream@),
            ).push(ss@[i as int].created_at@));
        }
        i = i + 1;
    }
    assert(ss@.take(ss@.len() as int) =~= ss@);
    let ghost es = entries_for(ss@, stream@);
    assert(versions_of(es).len() == es.len());
    if versions.len() == 0 {
        return None;
    }
    match pointer {
        Some(p) => {
            let mut j: usize = 0;
            while j < versions.len()
                invariant
                    0 <= j <= versions@.len(),
                    string_views(versions@) == versions_of(es),
                    es == entries_for(ss@, stream@),
                    es.len() > 0,
                    pointer == Some(p),
                    forall|k: int| 0 <= k < j ==> versions@[k]@ != p@,
                decreases versions@.len() - j,
            {
                assert(string_views(versions@)[j as int] == versions@[j as int]@);
                if str_eq(versions[j].as_str(), p) {
                    assert(versions_of(es)[j as int] == p@);
                    return Some(owned(p));
                }
                j = j + 1;
            }
            assert(!versions_of(es).contains(p@)) by {
                if versions_of(es).contains(p@) {
                    let k = choose|k: int| 0 <= k < versions_of(es).len() && versions_of(es)[k] == p@;
                    assert(string_views(versions@)[k] == versions@[k]@);
                }
            }
        },
        None => {},
    }
    // the first entry with the latest creation time
    let mut best: usize = 0;
    let mut k: usize = 1;
    let ghost ks = created_keys(es);
    assert(ks.take(1).drop_last() =~= Seq::<Seq<char>>::empty());
    while k < keys.len()
        invariant
            1 <= k <= keys@.len(),
            string_views(keys@) == ks,
            ks.len() == es.len(),
            best == newest_index(ks.take(k as int)),
            0 <= best < k,
        decreases keys@.len() - k,
    {
        assert(string_views(keys@)[best as int] == keys@[best as int]@);
        assert(string_views(keys@)[k as int] == keys@[k as int]@);
        let ghost cur = ks.take(k + 1);
        assert(cur.drop_last() =~= ks.take(k as int));
        assert(cur[best as int] == ks[best as int]);
        assert(cur.last() == ks[k as int]);
        if is_text_less(keys[best].as_str(), keys[k].as_str()) {
            best = k;
        }
        k = k + 1;
    }
    assert(ks.take(keys@.len() as int) =~= ks);
    assert(string_views(versions@)[best as int] == versions@[best as int]@);
    Some(versions[best].clone())
}

} // verus!

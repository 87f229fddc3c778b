//! Regenerating `dam.toml` from the reservoir: the project entry, the
//! provider, stream, release and profile tables, and the choices the
//! interactive menus make.
use vstd::prelude::*;
use crate::dam_toml::{
    child_keys, child_map, edits_child, flag_at, is_text, is_text_list, kept, lemma_edits_child_kept,
    lemma_insert_kept, opt_view,
    table_or_absent, text_at, text_list, text_or_kept, texts_at, TomlTable, TomlValue,
};
use crate::order::{is_sorted_texts, sort_texts};
use crate::text::{
    comma_list, comma_list_of, contains_string, eq_ignore_ascii_case, join_strings, join_with,
    lower_answer, lowered_answer, owned, str_eq, str_eq_ignore_ascii_case, string_views, trim,
    trimmed,
};

verus! {

// ---------------------------------------------------------------------------
// The fixed blocks
// ---------------------------------------------------------------------------

/// What `ensure_project_entry` leaves in the `project` table: the project's
/// name, a description and the password flag (those two kept when set).
pub open spec fn project_entry_ok(
    before: Map<Seq<char>, TomlValue>,
    after: Map<Seq<char>, TomlValue>,
    name: Seq<char>,
) -> bool {
    &&& after.contains_key("name"@) && is_text(after["name"@], name)
    &&& text_or_kept(before, after, "description"@, "Project managed by DAM"@)
    &&& after.contains_key("enforce_password_on_project_import"@)
    &&& if before.contains_key("enforce_password_on_project_import"@) {
        after["enforce_password_on_project_import"@]
            == before["enforce_password_on_project_import"@]
    } else {
        after["enforce_password_on_project_import"@] == TomlValue::Flag(false)
    }
    &&& forall|k: Seq<char>|
        k != "name"@ && k != "description"@ && k != "enforce_password_on_project_import"@
            ==> kept(before, after, k)
}

/// Makes the `project` table name the project, with a description and the
/// password flag unless they are set already.
pub fn ensure_project_entry(table: &mut TomlTable, project_name: &str)
    requires
        table_or_absent(old(table)@, "project"@),
    ensures
        edits_child(old(table)@, final(table)@, "project"@),
        project_entry_ok(
            child_map(old(table)@, "project"@),
            child_map(final(table)@, "project"@),
            project_name@,
        ),
{
    proof {
        reveal_strlit("name");
        reveal_strlit("description");
        reveal_strlit("enforce_password_on_project_import");
    }
    let mut project = table.take_table("project");
    let ghost before = project@;
    project.insert(owned("name"), TomlValue::Text(owned(project_name)));
    project.or_insert("description", TomlValue::Text(owned("Project managed by DAM")));
    project.or_insert("enforce_password_on_project_import", TomlValue::Flag(false));
    let ghost after = project@;
    assert(project_entry_ok(before, after, project_name@)) by {
        assert("description"@[0] != "name"@[0]);
        assert("enforce_password_on_project_import"@[0] != "name"@[0]);
        assert("enforce_password_on_project_import"@[0] != "description"@[0]);
    }
    table.insert(owned("project"), TomlValue::Table(project));
    assert(child_map(final(table)@, "project"@) == after);
    assert(final(table)@.remove("project"@) =~= old(table)@.remove("project"@));
}

/// In the provider table `p1`, `custom` is the table it is in `p0` with
/// `any` set, to `true` unless it has a value.
pub open spec fn custom_ok(p0: Map<Seq<char>, TomlValue>, p1: Map<Seq<char>, TomlValue>) -> bool {
    let c0 = child_map(p0, "custom"@);
    &&& p1.contains_key("custom"@) && p1["custom"@] is Table
    &&& child_map(p1, "custom"@) == (if c0.contains_key("any"@) {
        c0
    } else {
        c0.insert("any"@, TomlValue::Flag(true))
    })
}

/// Makes sure `provider.custom.any` is set, to `true` unless it has a value.
pub fn ensure_provider_block(table: &mut TomlTable)
    requires
        table_or_absent(old(table)@, "provider"@),
        table_or_absent(child_map(old(table)@, "provider"@), "custom"@),
    ensures
        edits_child(old(table)@, final(table)@, "provider"@),
        edits_child(
            child_map(old(table)@, "provider"@),
            child_map(final(table)@, "provider"@),
            "custom"@,
        ),
        custom_ok(child_map(old(table)@, "provider"@), child_map(final(table)@, "provider"@)),
{
    let mut provider = table.take_table("provider");
    let mut custom = provider.take_table("custom");
    custom.or_insert("any", TomlValue::Flag(true));
    provider.insert(owned("custom"), TomlValue::Table(custom));
    table.insert(owned("provider"), TomlValue::Table(provider));
    assert(final(table)@.remove("provider"@) =~= old(table)@.remove("provider"@));
    assert(child_map(final(table)@, "provider"@).remove("custom"@) =~= child_map(
        old(table)@,
        "provider"@,
    ).remove("custom"@));
}

/// Makes sure there is a `streams` entry, an empty table unless it has a
/// value.
pub fn ensure_streams_block(table: &mut TomlTable)
    ensures
        final(table)@.contains_key("streams"@),
        final(table)@.remove("streams"@) == old(table)@.remove("streams"@),
        old(table)@.contains_key("streams"@) ==> final(table)@["streams"@]
            == old(table)@["streams"@],
        !old(table)@.contains_key("streams"@) ==> final(table)@["streams"@] is Table
            && child_map(final(table)@, "streams"@) == Map::<Seq<char>, TomlValue>::empty(),
{
    table.or_insert("streams", TomlValue::Table(TomlTable::new()));
    assert(final(table)@.remove("streams"@) =~= old(table)@.remove("streams"@));
}

/// Makes sure there is a `releases` entry, an empty table unless it has a
/// value.
pub fn ensure_releases_block(table: &mut TomlTable)
    ensures
        final(table)@.contains_key("releases"@),
        final(table)@.remove("releases"@) == old(table)@.remove("releases"@),
        old(table)@.contains_key("releases"@) ==> final(table)@["releases"@]
            == old(table)@["releases"@],
        !old(table)@.contains_key("releases"@) ==> final(table)@["releases"@] is Table
            && child_map(final(table)@, "releases"@) == Map::<Seq<char>, TomlValue>::empty(),
{
    table.or_insert("releases", TomlValue::Table(TomlTable::new()));
    assert(final(table)@.remove("releases"@) =~= old(table)@.remove("releases"@));
}

// ---------------------------------------------------------------------------
// Streams
// ---------------------------------------------------------------------------

/// What a stream's metadata file says, as far as `dam.toml` uses it: each
/// field when it holds text, and `goals` when it is a list (each item when
/// it is text).
pub struct StreamFields {
    pub target: Option<String>,
    pub status: Option<String>,
    pub description: Option<String>,
    pub goals: Option<Vec<Option<String>>>,
}

/// A stream of the reservoir.
pub struct StreamSource {
    pub name: String,
    /// What its metadata file says; none when the file cannot be read.
    pub fields: Option<StreamFields>,
    /// Its stable versions, sorted.
    pub stable: Vec<String>,
}

/// The texts among `items`, in order.
pub open spec fn present_texts(items: Seq<Option<String>>) -> Seq<Seq<char>>
    decreases items.len(),
{
    if items.len() == 0 {
        Seq::empty()
    } else {
        let rest = present_texts(items.drop_last());
        match items.last() {
            Some(x) => rest.push(x@),
            None => rest,
        }
    }
}

/// The texts among `items`, in order.
pub fn present_text_list(items: &Vec<Option<String>>) -> (r: Vec<String>)
    ensures
        string_views(r@) == present_texts(items@),
{
    let mut out: Vec<String> = Vec::new();
    let mut i: usize = 0;
    while i < items.len()
        invariant
            0 <= i <= items@.len(),
            string_views(out@) == present_texts(items@.take(i as int)),
        decreases items@.len() - i,
    {
        let ghost before = out@;
        match &items[i] {
            Some(x) => {
                out.push(x.clone());
            },
            None => {},
        }
        proof {
            assert(items@.take(i + 1).drop_last() =~= items@.take(i as int));
            assert(string_views(out@) =~= present_texts(items@.take(i + 1)));
        }
        i = i + 1;
    }
    assert(items@.take(i as int) =~= items@);
    out
}

pub open spec fn meta_target(src: StreamSource) -> Option<String> {
    match src.fields {
        Some(f) => f.target,
        None => None,
    }
}

pub open spec fn meta_status(src: StreamSource) -> Option<String> {
    match src.fields {
        Some(f) => f.status,
        None => None,
    }
}

pub open spec fn meta_description(src: StreamSource) -> Option<String> {
    match src.fields {
        Some(f) => f.description,
        None => None,
    }
}

/// The goals a stream's metadata lists as texts.
pub open spec fn meta_goals(src: StreamSource) -> Seq<Seq<char>> {
    match src.fields {
        Some(f) => match f.goals {
            Some(items) => present_texts(items@),
            None => Seq::empty(),
        },
        None => Seq::empty(),
    }
}

/// `key` is the text `value`, or keeps its value when there is no text.
pub open spec fn text_set_or_kept(
    before: Map<Seq<char>, TomlValue>,
    after: Map<Seq<char>, TomlValue>,
    key: Seq<char>,
    value: Option<String>,
) -> bool {
    match value {
        Some(t) => after.contains_key(key) && is_text(after[key], t@),
        None => kept(before, after, key),
    }
}

/// `key` lists the texts `items`, or keeps its value when they are none.
pub open spec fn list_set_or_kept(
    before: Map<Seq<char>, TomlValue>,
    after: Map<Seq<char>, TomlValue>,
    key: Seq<char>,
    items: Seq<Seq<char>>,
) -> bool {
    if items.len() > 0 {
        after.contains_key(key) && is_text_list(after[key], items)
    } else {
        kept(before, after, key)
    }
}

/// What `populate_streams` leaves in a stream's table: its target and
/// status (the stream's name and `active` unless set, the metadata's when
/// it has them), its description, goals and stable versions when there are
/// any; everything else as it was.
pub open spec fn stream_entry_ok(
    before: Map<Seq<char>, TomlValue>,
    after: Map<Seq<char>, TomlValue>,
    src: StreamSource,
) -> bool {
    &&& match meta_target(src) {
        Some(t) => after.contains_key("target"@) && is_text(after["target"@], t@),
        None => text_or_kept(before, after, "target"@, src.name@),
    }
    &&& match meta_status(src) {
        Some(t) => after.contains_key("status"@) && is_text(after["status"@], t@),
        None => text_or_kept(before, after, "status"@, "active"@),
    }
    &&& text_set_or_kept(before, after, "description"@, meta_description(src))
    &&& list_set_or_kept(before, after, "goals"@, meta_goals(src))
    &&& list_set_or_kept(before, after, "stable"@, string_views(src.stable@))
    &&& forall|k: Seq<char>|
        k != "target"@ && k != "status"@ && k != "description"@ && k != "goals"@ && k
            != "stable"@ ==> kept(before, after, k)
}

proof fn lemma_stream_keys_differ()
    ensures
        "target"@ != "status"@,
        "target"@ != "description"@,
        "target"@ != "goals"@,
        "target"@ != "stable"@,
        "status"@ != "description"@,
        "status"@ != "goals"@,
        "status"@ != "stable"@,
        "description"@ != "goals"@,
        "description"@ != "stable"@,
        "goals"@ != "stable"@,
{
    reveal_strlit("target");
    reveal_strlit("status");
    reveal_strlit("description");
    reveal_strlit("goals");
    reveal_strlit("stable");
    assert("target"@[0] != "status"@[0]);
    assert("target"@[0] != "description"@[0]);
    assert("target"@[0] != "goals"@[0]);
    assert("target"@[0] != "stable"@[0]);
    assert("status"@[0] != "description"@[0]);
    assert("status"@[0] != "goals"@[0]);
    assert("status"@[3] != "stable"@[3]);
    assert("description"@[0] != "goals"@[0]);
    assert("description"@[0] != "stable"@[0]);
    assert("goals"@[0] != "stable"@[0]);
}

/// Fills in a stream's table from what the reservoir says of the stream.
pub fn fill_stream_entry(entry: &mut TomlTable, src: &StreamSource)
    ensures
        stream_entry_ok(old(entry)@, final(entry)@, *src),
{
    proof {
        lemma_stream_keys_differ();
    }
    let ghost before = entry@;
    entry.or_insert("target", TomlValue::Text(src.name.clone()));
    entry.or_insert("status", TomlValue::Text(owned("active")));
    match &src.fields {
        Some(f) => {
            match &f.target {
                Some(t) => {
                    entry.insert(owned("target"), TomlValue::Text(t.clone()));
                },
                None => {},
            }
            match &f.status {
                Some(t) => {
                    entry.insert(owned("status"), TomlValue::Text(t.clone()));
                },
                None => {},
            }
            match &f.description {
                Some(t) => {
                    entry.insert(owned("description"), TomlValue::Text(t.clone()));
                },
                None => {},
            }
            match &f.goals {
                Some(items) => {
                    let goals = present_text_list(items);
                    if goals.len() > 0 {
                        entry.insert(owned("goals"), text_list(&goals));
                    }
                },
                None => {},
            }
        },
        None => {},
    }
    if src.stable.len() > 0 {
        entry.insert(owned("stable"), text_list(&src.stable));
    }
}

/// Whether `populate_streams` with `target` fills in the stream `name`.
pub open spec fn picked(target: Option<&str>, name: Seq<char>) -> bool {
    match target {
        Some(t) => t@ == name,
        None => true,
    }
}

/// One of the first `n` streams is filled in under `key`.
pub open spec fn filled(
    streams: Seq<StreamSource>,
    target: Option<&str>,
    n: int,
    key: Seq<char>,
) -> bool {
    exists|j: int| 0 <= j < n && picked(target, streams[j].name@) && #[trigger] streams[j].name@ == key
}

/// No two streams share a name.
pub open spec fn stream_names_distinct(streams: Seq<StreamSource>) -> bool {
    forall|i: int, j: int| 0 <= i < j < streams.len() ==> streams[i].name@ != streams[j].name@
}

/// Each stream `populate_streams` fills in holds a table, or nothing.
pub open spec fn streams_fillable(
    s0: Map<Seq<char>, TomlValue>,
    streams: Seq<StreamSource>,
    target: Option<&str>,
) -> bool {
    forall|i: int|
        0 <= i < streams.len() && picked(target, streams[i].name@) ==> table_or_absent(
            s0,
            #[trigger] streams[i].name@,
        )
}

/// The `streams` table `s1` is `s0` with the picked streams filled in.
pub open spec fn streams_filled(
    s0: Map<Seq<char>, TomlValue>,
    s1: Map<Seq<char>, TomlValue>,
    streams: Seq<StreamSource>,
    target: Option<&str>,
) -> bool {
    &&& forall|k: Seq<char>| !filled(streams, target, streams.len() as int, k) ==> kept(s0, s1, k)
    &&& forall|i: int|
        0 <= i < streams.len() && picked(target, streams[i].name@) ==> {
            &&& s1.contains_key(#[trigger] streams[i].name@)
            &&& s1[streams[i].name@] is Table
            &&& stream_entry_ok(child_map(s0, streams[i].name@), child_map(s1, streams[i].name@), streams[i])
        }
}

/// Fills in the `streams` table from the reservoir's streams (only the one
/// named `target`, when there is a target).
pub fn populate_streams(table: &mut TomlTable, target: Option<&str>, streams: &Vec<StreamSource>)
    requires
        table_or_absent(old(table)@, "streams"@),
        streams_fillable(child_map(old(table)@, "streams"@), streams@, target),
        stream_names_distinct(streams@),
    ensures
        edits_child(old(table)@, final(table)@, "streams"@),
        streams_filled(
            child_map(old(table)@, "streams"@),
            child_map(final(table)@, "streams"@),
            streams@,
            target,
        ),
{
    let mut block = table.take_table("streams");
    let ghost s0 = block@;
    let mut i: usize = 0;
    while i < streams.len()
        invariant
            0 <= i <= streams@.len(),
            s0 == child_map(old(table)@, "streams"@),
            forall|j: int|
                0 <= j < streams@.len() && picked(target, streams@[j].name@) ==> table_or_absent(
                    s0,
                    #[trigger] streams@[j].name@,
                ),
            stream_names_distinct(streams@),
            forall|k: Seq<char>| !filled(streams@, target, i as int, k) ==> kept(s0, block@, k),
            forall|j: int|
                0 <= j < i && picked(target, streams@[j].name@) ==> {
                    &&& block@.contains_key(#[trigger] streams@[j].name@)
                    &&& block@[streams@[j].name@] is Table
                    &&& stream_entry_ok(
                        child_map(s0, streams@[j].name@),
                        child_map(block@, streams@[j].name@),
                        streams@[j],
                    )
                },
        decreases streams@.len() - i,
    {
        let src = &streams[i];
        let go = match target {
            Some(t) => crate::text::str_eq(src.name.as_str(), t),
            None => true,
        };
        let ghost cur = block@;
        let ghost n = src.name@;
        if go {
            assert(!filled(streams@, target, i as int, n)) by {
                if filled(streams@, target, i as int, n) {
                    let j = choose|j: int|
                        0 <= j < i && picked(target, streams@[j].name@) && #[trigger] streams@[j].name@
                            == n;
                    assert(streams@[j].name@ != streams@[i as int].name@);
                }
            }
            assert(picked(target, n));
            assert(table_or_absent(s0, streams@[i as int].name@));
            assert(kept(s0, cur, n));
            let mut entry = block.take_table(src.name.as_str());
            let ghost mid = block@;
            fill_stream_entry(&mut entry, src);
            let ghost filled_entry = entry@;
            block.insert(src.name.clone(), TomlValue::Table(entry));
            proof {
                assert(child_map(block@, n) == filled_entry);
                assert(forall|k: Seq<char>| k != n ==> #[trigger] kept(cur, block@, k)) by {
                    assert forall|k: Seq<char>| k != n implies #[trigger] kept(cur, block@, k) by {
                        assert(mid.remove(n).contains_key(k) == cur.remove(n).contains_key(k));
                        if cur.contains_key(k) {
                            assert(mid.remove(n)[k] == cur.remove(n)[k]);
                        }
                    }
                }
                assert forall|k: Seq<char>| !filled(streams@, target, i + 1, k) implies kept(
                    s0,
                    block@,
                    k,
                ) by {
                    if k == n {
                        assert(filled(streams@, target, i + 1, k));
                    }
                    assert(!filled(streams@, target, i as int, k)) by {
                        if filled(streams@, target, i as int, k) {
                            let j = choose|j: int|
                                0 <= j < i && picked(target, streams@[j].name@)
                                    && #[trigger] streams@[j].name@ == k;
                            assert(filled(streams@, target, i + 1, k));
                        }
                    }
                    assert(kept(s0, cur, k));
                    assert(kept(cur, block@, k));
                }
                assert forall|j: int|
                    0 <= j < i + 1 && picked(target, streams@[j].name@) implies {
                    &&& block@.contains_key(#[trigger] streams@[j].name@)
                    &&& block@[streams@[j].name@] is Table
                    &&& stream_entry_ok(
                        child_map(s0, streams@[j].name@),
                        child_map(block@, streams@[j].name@),
                        streams@[j],
                    )
                } by {
                    if j < i {
                        assert(streams@[j].name@ != n);
                        assert(kept(cur, block@, streams@[j].name@));
                        assert(child_map(block@, streams@[j].name@) == child_map(
                            cur,
                            streams@[j].name@,
                        ));
                    } else {
                        assert(streams@[j] == *src);
                        assert(child_map(s0, n) == child_map(cur, n));
                    }
                }
            }
        } else {
            proof {
                assert forall|k: Seq<char>| !filled(streams@, target, i + 1, k) implies kept(
                    s0,
                    block@,
                    k,
                ) by {
                    assert(!filled(streams@, target, i as int, k)) by {
                        if filled(streams@, target, i as int, k) {
                            let j = choose|j: int|
                                0 <= j < i && picked(target, streams@[j].name@)
                                    && #[trigger] streams@[j].name@ == k;
                            assert(filled(streams@, target, i + 1, k));
                        }
                    }
                }
            }
        }
        i = i + 1;
    }
    let ghost done = block@;
    table.insert(owned("streams"), TomlValue::Table(block));
    assert(child_map(final(table)@, "streams"@) == done);
    assert(final(table)@.remove("streams"@) =~= old(table)@.remove("streams"@));
}

// ---------------------------------------------------------------------------
// Releases
// ---------------------------------------------------------------------------

/// What a release file says, as far as `dam.toml` uses it: each field when
/// it holds text, and `tags` when it is a list (each item when it is text).
pub struct ReleaseFields {
    pub seal_id: Option<String>,
    pub stream: Option<String>,
    pub description: Option<String>,
    pub tags: Option<Vec<Option<String>>>,
}

/// A release of the reservoir.
pub struct ReleaseSource {
    pub name: String,
    /// What its file says; none when the file cannot be read.
    pub fields: Option<ReleaseFields>,
}

/// `key` is the text `value`, or absent when there is none.
pub open spec fn text_or_absent(
    after: Map<Seq<char>, TomlValue>,
    key: Seq<char>,
    value: Option<String>,
) -> bool {
    match value {
        Some(t) => after.contains_key(key) && is_text(after[key], t@),
        None => !after.contains_key(key),
    }
}

/// The tags a release file lists as texts.
pub open spec fn release_tags(f: ReleaseFields) -> Seq<Seq<char>> {
    match f.tags {
        Some(items) => present_texts(items@),
        None => Seq::empty(),
    }
}

/// A release's table in `dam.toml`: its seal, stream, description and tags
/// as its file gives them, or only its name when the file cannot be read.
pub open spec fn release_entry_ok(after: Map<Seq<char>, TomlValue>, src: ReleaseSource) -> bool {
    match src.fields {
        None => {
            &&& after.contains_key("name"@) && is_text(after["name"@], src.name@)
            &&& forall|k: Seq<char>| after.contains_key(k) ==> k == "name"@
        },
        Some(f) => {
            &&& text_or_absent(after, "seal"@, f.seal_id)
            &&& text_or_absent(after, "stream"@, f.stream)
            &&& text_or_absent(after, "description"@, f.description)
            &&& if release_tags(f).len() > 0 {
                after.contains_key("tags"@) && is_text_list(after["tags"@], release_tags(f))
            } else {
                !after.contains_key("tags"@)
            }
            &&& forall|k: Seq<char>|
                after.contains_key(k) ==> k == "seal"@ || k == "stream"@ || k == "description"@
                    || k == "tags"@
        },
    }
}

proof fn lemma_release_keys_differ()
    ensures
        "seal"@ != "stream"@,
        "seal"@ != "description"@,
        "seal"@ != "tags"@,
        "stream"@ != "description"@,
        "stream"@ != "tags"@,
        "description"@ != "tags"@,
{
    reveal_strlit("seal");
    reveal_strlit("stream");
    reveal_strlit("description");
    reveal_strlit("tags");
    assert("seal"@[1] != "stream"@[1]);
    assert("seal"@[0] != "description"@[0]);
    assert("seal"@[0] != "tags"@[0]);
    assert("stream"@[0] != "description"@[0]);
    assert("stream"@[0] != "tags"@[0]);
    assert("description"@[0] != "tags"@[0]);
}

/// A release's table in `dam.toml`.
pub fn release_entry(src: &ReleaseSource) -> (r: TomlTable)
    ensures
        release_entry_ok(r@, *src),
{
    proof {
        lemma_release_keys_differ();
    }
    let mut t = TomlTable::new();
    match &src.fields {
        Some(f) => {
            match &f.seal_id {
                Some(x) => {
                    t.insert(owned("seal"), TomlValue::Text(x.clone()));
                },
                None => {},
            }
            match &f.stream {
                Some(x) => {
                    t.insert(owned("stream"), TomlValue::Text(x.clone()));
                },
                None => {},
            }
            match &f.description {
                Some(x) => {
                    t.insert(owned("description"), TomlValue::Text(x.clone()));
                },
                None => {},
            }
            match &f.tags {
                Some(items) => {
                    let tags = present_text_list(items);
                    if tags.len() > 0 {
                        t.insert(owned("tags"), text_list(&tags));
                    }
                },
                None => {},
            }
        },
        None => {
            t.insert(owned("name"), TomlValue::Text(src.name.clone()));
        },
    }
    t
}

/// Whether a release is among those `selected` (all are when none are).
pub open spec fn chosen(selected: Option<&Vec<String>>, name: Seq<char>) -> bool {
    match selected {
        Some(v) => string_views(v@).contains(name),
        None => true,
    }
}

/// No two releases share a name.
pub open spec fn release_names_distinct(releases: Seq<ReleaseSource>) -> bool {
    forall|i: int, j: int| 0 <= i < j < releases.len() ==> releases[i].name@ != releases[j].name@
}

/// One of the first `n` releases is chosen under `key`.
pub open spec fn listed(
    releases: Seq<ReleaseSource>,
    selected: Option<&Vec<String>>,
    n: int,
    key: Seq<char>,
) -> bool {
    exists|j: int| 0 <= j < n && chosen(selected, releases[j].name@) && #[trigger] releases[j].name@ == key
}

/// The `releases` table `r1` holds exactly the chosen releases.
pub open spec fn releases_listed(
    r1: Map<Seq<char>, TomlValue>,
    releases: Seq<ReleaseSource>,
    selected: Option<&Vec<String>>,
) -> bool {
    &&& forall|k: Seq<char>| r1.contains_key(k) <==> listed(releases, selected, releases.len() as int, k)
    &&& forall|i: int|
        0 <= i < releases.len() && chosen(selected, releases[i].name@) ==> {
            &&& r1[#[trigger] releases[i].name@] is Table
            &&& release_entry_ok(child_map(r1, releases[i].name@), releases[i])
        }
}

/// Rebuilds the `releases` table from the reservoir's releases (those
/// `selected`, when there is a selection).
pub fn populate_releases(
    table: &mut TomlTable,
    selected: Option<&Vec<String>>,
    releases: &Vec<ReleaseSource>,
)
    requires
        table_or_absent(old(table)@, "releases"@),
        release_names_distinct(releases@),
    ensures
        edits_child(old(table)@, final(table)@, "releases"@),
        releases_listed(child_map(final(table)@, "releases"@), releases@, selected),
{
    let mut block = table.take_table("releases");
    block.clear();
    let mut i: usize = 0;
    while i < releases.len()
        invariant
            0 <= i <= releases@.len(),
            release_names_distinct(releases@),
            forall|k: Seq<char>| block@.contains_key(k) <==> listed(releases@, selected, i as int, k),
            forall|j: int|
                0 <= j < i && chosen(selected, releases@[j].name@) ==> {
                    &&& block@[#[trigger] releases@[j].name@] is Table
                    &&& release_entry_ok(child_map(block@, releases@[j].name@), releases@[j])
                },
        decreases releases@.len() - i,
    {
        let src = &releases[i];
        let go = match selected {
            Some(v) => crate::text::contains_string(v, src.name.as_str()),
            None => true,
        };
        let ghost cur = block@;
        let ghost n = src.name@;
        if go {
            let entry = release_entry(src);
            let ghost e = entry@;
            block.insert(src.name.clone(), TomlValue::Table(entry));
            proof {
                assert(child_map(block@, n) == e);
                assert forall|k: Seq<char>| block@.contains_key(k) <==> listed(
                    releases@,
                    selected,
                    i + 1,
                    k,
                ) by {
                    if listed(releases@, selected, i + 1, k) && k != n {
                        let j = choose|j: int|
                            0 <= j < i + 1 && chosen(selected, releases@[j].name@)
                                && #[trigger] releases@[j].name@ == k;
                        assert(listed(releases@, selected, i as int, k));
                    }
                    if listed(releases@, selected, i as int, k) {
                        let j = choose|j: int|
                            0 <= j < i && chosen(selected, releases@[j].name@)
                                && #[trigger] releases@[j].name@ == k;
                        assert(listed(releases@, selected, i + 1, k));
                    }
                    if k == n {
                        assert(releases@[i as int].name@ == k);
                        assert(listed(releases@, selected, i + 1, k));
                    }
                }
                assert forall|j: int|
                    0 <= j < i + 1 && chosen(selected, releases@[j].name@) implies {
                    &&& block@[#[trigger] releases@[j].name@] is Table
                    &&& release_entry_ok(child_map(block@, releases@[j].name@), releases@[j])
                } by {
                    if j < i {
                        assert(releases@[j].name@ != n);
                    } else {
                        assert(releases@[j] == *src);
                    }
                }
            }
        } else {
            proof {
                assert forall|k: Seq<char>| block@.contains_key(k) <==> listed(
                    releases@,
                    selected,
                    i + 1,
                    k,
                ) by {
                    if listed(releases@, selected, i + 1, k) {
                        let j = choose|j: int|
                            0 <= j < i + 1 && chosen(selected, releases@[j].name@)
                                && #[trigger] releases@[j].name@ == k;
                        if j == i {
                            assert(chosen(selected, n));
                        }
                        assert(listed(releases@, selected, i as int, k));
                    }
                    if listed(releases@, selected, i as int, k) {
                        let j = choose|j: int|
                            0 <= j < i && chosen(selected, releases@[j].name@)
                                && #[trigger] releases@[j].name@ == k;
                        assert(listed(releases@, selected, i + 1, k));
                    }
                }
            }
        }
        i = i + 1;
    }
    let ghost done = block@;
    table.insert(owned("releases"), TomlValue::Table(block));
    assert(child_map(final(table)@, "releases"@) == done);
    assert(final(table)@.remove("releases"@) =~= old(table)@.remove("releases"@));
}

// ---------------------------------------------------------------------------
// Profiles
// ---------------------------------------------------------------------------

/// A profile's table: its description and its include and exclude
/// patterns, nothing else.
pub open spec fn profile_ok(
    after: Map<Seq<char>, TomlValue>,
    description: Seq<char>,
    includes: Seq<Seq<char>>,
    excludes: Seq<Seq<char>>,
) -> bool {
    &&& after.contains_key("description"@) && is_text(after["description"@], description)
    &&& after.contains_key("include"@) && is_text_list(after["include"@], includes)
    &&& after.contains_key("exclude"@) && is_text_list(after["exclude"@], excludes)
    &&& forall|k: Seq<char>|
        after.contains_key(k) ==> k == "description"@ || k == "include"@ || k == "exclude"@
}

proof fn lemma_profile_keys_differ()
    ensures
        "description"@ != "include"@,
        "description"@ != "exclude"@,
        "include"@ != "exclude"@,
{
    reveal_strlit("description");
    reveal_strlit("include");
    reveal_strlit("exclude");
    assert("description"@[0] != "include"@[0]);
    assert("description"@[0] != "exclude"@[0]);
    assert("include"@[0] != "exclude"@[0]);
}

/// Stores the profile `name` (replacing one of that name) in the
/// `profiles` table.
pub fn add_profile_to_table(
    table: &mut TomlTable,
    name: &str,
    description: &str,
    includes: Vec<String>,
    excludes: Vec<String>,
)
    requires
        table_or_absent(old(table)@, "profiles"@),
    ensures
        edits_child(old(table)@, final(table)@, "profiles"@),
        edits_child(
            child_map(old(table)@, "profiles"@),
            child_map(final(table)@, "profiles"@),
            name@,
        ),
        profile_ok(
            child_map(child_map(final(table)@, "profiles"@), name@),
            description@,
            string_views(includes@),
            string_views(excludes@),
        ),
{
    proof {
        lemma_profile_keys_differ();
    }
    let mut profiles = table.take_table("profiles");
    let ghost p0 = profiles@;
    let mut profile = TomlTable::new();
    profile.insert(owned("description"), TomlValue::Text(owned(description)));
    profile.insert(owned("include"), text_list(&includes));
    profile.insert(owned("exclude"), text_list(&excludes));
    let ghost made = profile@;
    profiles.insert(owned(name), TomlValue::Table(profile));
    assert(child_map(profiles@, name@) == made);
    assert(profiles@.remove(name@) =~= p0.remove(name@));
    let ghost p1 = profiles@;
    table.insert(owned("profiles"), TomlValue::Table(profiles));
    assert(child_map(final(table)@, "profiles"@) == p1);
    assert(final(table)@.remove("profiles"@) =~= old(table)@.remove("profiles"@));
}

/// The table `name` inside the table `block`, when both are tables.
pub open spec fn inner_table(m: Map<Seq<char>, TomlValue>, block: Seq<char>, name: Seq<char>) -> Option<
    Map<Seq<char>, TomlValue>,
> {
    if m.contains_key(block) && m[block] is Table && child_map(m, block).contains_key(name)
        && child_map(m, block)[name] is Table {
        Some(child_map(child_map(m, block), name))
    } else {
        None
    }
}

/// Removes `name` from the table `block`; whether it was there.
fn remove_from_block(table: &mut TomlTable, block: &str, name: &str) -> (r: bool)
    ensures
        r == (old(table)@.contains_key(block@) && old(table)@[block@] is Table && child_map(
            old(table)@,
            block@,
        ).contains_key(name@)),
        r ==> edits_child(old(table)@, final(table)@, block@) && child_map(final(table)@, block@)
            == child_map(old(table)@, block@).remove(name@),
        !r ==> final(table)@ == old(table)@,
{
    let present = match table.get(block) {
        Some(TomlValue::Table(t)) => t.contains_key(name),
        _ => false,
    };
    if present {
        let mut inner = table.take_table(block);
        inner.remove(name);
        let ghost after = inner@;
        table.insert(owned(block), TomlValue::Table(inner));
        assert(child_map(final(table)@, block@) == after);
        assert(final(table)@.remove(block@) =~= old(table)@.remove(block@));
    }
    present
}

/// Removes the profile `name`; whether there was one.
pub fn remove_profile(table: &mut TomlTable, name: &str) -> (r: bool)
    ensures
        r == (old(table)@.contains_key("profiles"@) && old(table)@["profiles"@] is Table
            && child_map(old(table)@, "profiles"@).contains_key(name@)),
        r ==> edits_child(old(table)@, final(table)@, "profiles"@) && child_map(
            final(table)@,
            "profiles"@,
        ) == child_map(old(table)@, "profiles"@).remove(name@),
        !r ==> final(table)@ == old(table)@,
{
    remove_from_block(table, "profiles", name)
}

/// The names of the profiles, in document order.
pub fn list_profiles(table: &TomlTable) -> (r: Vec<String>)
    ensures
        string_views(r@) == child_keys(table@, "profiles"@),
{
    match table.get("profiles") {
        Some(TomlValue::Table(t)) => t.keys(),
        _ => Vec::new(),
    }
}

/// What a profile holds, as `dam.toml` shows it.
pub struct ProfileDetails {
    pub description: Option<String>,
    pub includes: Option<Vec<String>>,
    pub excludes: Option<Vec<String>>,
}

/// The details of the profile `name`, when there is such a profile.
pub fn profile_details(table: &TomlTable, name: &str) -> (r: Option<ProfileDetails>)
    ensures
        match r {
            Some(d) => inner_table(table@, "profiles"@, name@) matches Some(p) && {
                &&& opt_view(d.description) == text_at(p, "description"@)
                &&& match d.includes {
                    Some(v) => texts_at(p, "include"@) == Some(string_views(v@)),
                    None => texts_at(p, "include"@) is None,
                }
                &&& match d.excludes {
                    Some(v) => texts_at(p, "exclude"@) == Some(string_views(v@)),
                    None => texts_at(p, "exclude"@) is None,
                }
            },
            None => inner_table(table@, "profiles"@, name@) is None,
        },
{
    match table.get("profiles") {
        Some(TomlValue::Table(profiles)) => match profiles.get(name) {
            Some(TomlValue::Table(p)) => Some(
                ProfileDetails {
                    description: p.get_text("description"),
                    includes: p.get_texts("include"),
                    excludes: p.get_texts("exclude"),
                },
            ),
            _ => None,
        },
        _ => None,
    }
}

// ---------------------------------------------------------------------------
// Providers
// ---------------------------------------------------------------------------

/// The providers `dam` knows by name.
pub fn known_provider_names() -> (r: Vec<&'static str>)
    ensures
        r@.map_values(|s: &str| s@) == seq![
            "flutter"@,
            "firebase"@,
            "python"@,
            "rust"@,
            "js"@,
            "custom"@,
        ],
{
    let r = vec!["flutter", "firebase", "python", "rust", "js", "custom"];
    assert(r@.map_values(|s: &str| s@) =~= seq![
        "flutter"@,
        "firebase"@,
        "python"@,
        "rust"@,
        "js"@,
        "custom"@,
    ]);
    r
}

/// The names of the provider blocks, in document order.
pub fn existing_provider_names(table: &TomlTable) -> (r: Vec<String>)
    ensures
        string_views(r@) == child_keys(table@, "provider"@),
{
    match table.get("provider") {
        Some(TomlValue::Table(t)) => t.keys(),
        _ => Vec::new(),
    }
}

/// Removes the provider block `name`; whether there was one.
pub fn remove_provider_block(table: &mut TomlTable, name: &str) -> (r: bool)
    ensures
        r == (old(table)@.contains_key("provider"@) && old(table)@["provider"@] is Table
            && child_map(old(table)@, "provider"@).contains_key(name@)),
        r ==> edits_child(old(table)@, final(table)@, "provider"@) && child_map(
            final(table)@,
            "provider"@,
        ) == child_map(old(table)@, "provider"@).remove(name@),
        !r ==> final(table)@ == old(table)@,
{
    remove_from_block(table, "provider", name)
}

/// What a provider block holds, as `dam.toml` shows it.
pub struct ProviderDetails {
    /// `any`, false unless it is set to true.
    pub any: bool,
    pub sdk: Option<String>,
    pub cli: Option<String>,
    pub cli_name: Option<String>,
    pub version_check_command: Option<String>,
    /// The texts among the setup commands, none when there is no list.
    pub setup_commands: Vec<String>,
}

/// The details of the provider block `name`, when there is such a block.
pub fn provider_block_details(table: &TomlTable, name: &str) -> (r: Option<ProviderDetails>)
    ensures
        match r {
            Some(d) => inner_table(table@, "provider"@, name@) matches Some(p) && {
                &&& d.any == (flag_at(p, "any"@) == Some(true))
                &&& opt_view(d.sdk) == text_at(p, "sdk"@)
                &&& opt_view(d.cli) == text_at(p, "cli"@)
                &&& opt_view(d.cli_name) == text_at(p, "cli_name"@)
                &&& opt_view(d.version_check_command) == text_at(p, "version_check_command"@)
                &&& string_views(d.setup_commands@) == match texts_at(p, "setup_commands"@) {
                    Some(ts) => ts,
                    None => Seq::empty(),
                }
            },
            None => inner_table(table@, "provider"@, name@) is None,
        },
{
    match table.get("provider") {
        Some(TomlValue::Table(providers)) => match providers.get(name) {
            Some(TomlValue::Table(p)) => {
                let any = match p.get_flag("any") {
                    Some(b) => b,
                    None => false,
                };
                let setup = match p.get_texts("setup_commands") {
                    Some(v) => v,
                    None => Vec::new(),
                };
                Some(
                    ProviderDetails {
                        any,
                        sdk: p.get_text("sdk"),
                        cli: p.get_text("cli"),
                        cli_name: p.get_text("cli_name"),
                        version_check_command: p.get_text("version_check_command"),
                        setup_commands: setup,
                    },
                )
            },
            _ => None,
        },
        _ => None,
    }
}

/// `key` is the text `value`, or keeps its value when there is none.
pub open spec fn str_set_or_kept(
    before: Map<Seq<char>, TomlValue>,
    after: Map<Seq<char>, TomlValue>,
    key: Seq<char>,
    value: Option<&str>,
) -> bool {
    match value {
        Some(t) => after.contains_key(key) && is_text(after[key], t@),
        None => kept(before, after, key),
    }
}

/// What editing a provider leaves in the document: the project entry as
/// `ensure_project_entry` leaves it, a provider table, nothing else changed.
pub open spec fn provider_edit_ok(
    before: Map<Seq<char>, TomlValue>,
    after: Map<Seq<char>, TomlValue>,
    project_name: Seq<char>,
) -> bool {
    &&& after.contains_key("project"@) && after["project"@] is Table
    &&& project_entry_ok(child_map(before, "project"@), child_map(after, "project"@), project_name)
    &&& after.contains_key("provider"@) && after["provider"@] is Table
    &&& forall|k: Seq<char>| k != "project"@ && k != "provider"@ ==> kept(before, after, k)
}

/// The provider table `p1` is `p0` with the block `name` edited, and
/// `custom.any` set unless `custom` is the block edited.
pub open spec fn provider_block_edited(
    p0: Map<Seq<char>, TomlValue>,
    p1: Map<Seq<char>, TomlValue>,
    name: Seq<char>,
) -> bool {
    &&& name != "custom"@ ==> custom_ok(p0, p1)
    &&& p1.contains_key(name) && p1[name] is Table
    &&& forall|k: Seq<char>| k != name && k != "custom"@ ==> kept(p0, p1, k)
}

/// What `add_provider_entry` leaves in a provider block: `any` as given,
/// the SDK and CLI requirements when given; everything else as it was.
pub open spec fn provider_entry_ok(
    before: Map<Seq<char>, TomlValue>,
    after: Map<Seq<char>, TomlValue>,
    sdk: Option<&str>,
    cli: Option<&str>,
    any: bool,
) -> bool {
    &&& after.contains_key("any"@) && after["any"@] == TomlValue::Flag(any)
    &&& str_set_or_kept(before, after, "sdk"@, sdk)
    &&& str_set_or_kept(before, after, "cli"@, cli)
    &&& forall|k: Seq<char>| k != "any"@ && k != "sdk"@ && k != "cli"@ ==> kept(before, after, k)
}

/// What `add_provider_full` leaves in a provider block: `any` and
/// `verified` false, and each of the rest when given; everything else as it
/// was.
pub open spec fn provider_full_ok(
    before: Map<Seq<char>, TomlValue>,
    after: Map<Seq<char>, TomlValue>,
    cli_name: Option<&str>,
    version_check_cmd: Option<&str>,
    setup_cmds: Seq<Seq<char>>,
    sdk_req: Option<&str>,
    cli_req: Option<&str>,
) -> bool {
    &&& after.contains_key("any"@) && after["any"@] == TomlValue::Flag(false)
    &&& after.contains_key("verified"@) && after["verified"@] == TomlValue::Flag(false)
    &&& str_set_or_kept(before, after, "cli_name"@, cli_name)
    &&& str_set_or_kept(before, after, "version_check_command"@, version_check_cmd)
    &&& list_set_or_kept(before, after, "setup_commands"@, setup_cmds)
    &&& str_set_or_kept(before, after, "sdk"@, sdk_req)
    &&& str_set_or_kept(before, after, "cli"@, cli_req)
    &&& forall|k: Seq<char>|
        k != "any"@ && k != "verified"@ && k != "cli_name"@ && k != "version_check_command"@ && k
            != "setup_commands"@ && k != "sdk"@ && k != "cli"@ ==> kept(before, after, k)
}

proof fn lemma_provider_keys_differ()
    ensures
        "project"@ != "provider"@,
        "any"@ != "verified"@,
        "any"@ != "cli_name"@,
        "any"@ != "version_check_command"@,
        "any"@ != "setup_commands"@,
        "any"@ != "sdk"@,
        "any"@ != "cli"@,
        "verified"@ != "cli_name"@,
        "verified"@ != "version_check_command"@,
        "verified"@ != "setup_commands"@,
        "verified"@ != "sdk"@,
        "verified"@ != "cli"@,
        "cli_name"@ != "version_check_command"@,
        "cli_name"@ != "setup_commands"@,
        "cli_name"@ != "sdk"@,
        "cli_name"@ != "cli"@,
        "version_check_command"@ != "setup_commands"@,
        "version_check_command"@ != "sdk"@,
        "version_check_command"@ != "cli"@,
        "setup_commands"@ != "sdk"@,
        "setup_commands"@ != "cli"@,
        "sdk"@ != "cli"@,
{
    reveal_strlit("project");
    reveal_strlit("provider");
    reveal_strlit("any");
    reveal_strlit("verified");
    reveal_strlit("cli_name");
    reveal_strlit("version_check_command");
    reveal_strlit("setup_commands");
    reveal_strlit("sdk");
    reveal_strlit("cli");
    assert("project"@[3] != "provider"@[3]);
    assert("any"@[0] != "verified"@[0]);
    assert("any"@[0] != "cli_name"@[0]);
    assert("any"@[0] != "version_check_command"@[0]);
    assert("any"@[0] != "setup_commands"@[0]);
    assert("any"@[0] != "sdk"@[0]);
    assert("any"@[0] != "cli"@[0]);
    assert("verified"@[0] != "cli_name"@[0]);
    assert("verified"@[3] != "version_check_command"@[3]);
    assert("verified"@[0] != "setup_commands"@[0]);
    assert("verified"@[0] != "sdk"@[0]);
    assert("verified"@[0] != "cli"@[0]);
    assert("cli_name"@[0] != "version_check_command"@[0]);
    assert("cli_name"@[0] != "setup_commands"@[0]);
    assert("cli_name"@[0] != "sdk"@[0]);
    assert("cli_name"@.len() != "cli"@.len());
    assert("version_check_command"@[0] != "setup_commands"@[0]);
    assert("version_check_command"@[0] != "sdk"@[0]);
    assert("version_check_command"@[0] != "cli"@[0]);
    assert("setup_commands"@[1] != "sdk"@[1]);
    assert("setup_commands"@[0] != "cli"@[0]);
    assert("sdk"@[0] != "cli"@[0]);
}

/// The text value of an optional text, when there is one.
fn opt_text(value: Option<&str>) -> (r: Option<TomlValue>)
    ensures
        match value {
            Some(t) => r matches Some(v) && is_text(v, t@),
            None => r is None,
        },
{
    match value {
        Some(t) => Some(TomlValue::Text(owned(t))),
        None => None,
    }
}

/// Sets `key` in `t` to `value` when there is one.
fn insert_opt(t: &mut TomlTable, key: &str, value: Option<&str>)
    ensures
        match value {
            Some(x) => final(t)@.contains_key(key@) && is_text(final(t)@[key@], x@),
            None => final(t)@ == old(t)@,
        },
        forall|k: Seq<char>| k != key@ ==> kept(old(t)@, final(t)@, k),
{
    match opt_text(value) {
        Some(v) => {
            t.insert(owned(key), v);
        },
        None => {},
    }
}

/// Makes the project entry and the provider table ready for editing the
/// block `name`, and takes that block out of them.
fn open_provider_block(table: &mut TomlTable, name: &str, project_name: &str) -> (r: (
    TomlTable,
    TomlTable,
))
    requires
        table_or_absent(old(table)@, "project"@),
        table_or_absent(old(table)@, "provider"@),
        table_or_absent(child_map(old(table)@, "provider"@), "custom"@),
        table_or_absent(child_map(old(table)@, "provider"@), name@),
    ensures
        provider_edit_ok(old(table)@, final(table)@, project_name@),
        ({
            let p0 = child_map(old(table)@, "provider"@);
            let c0 = child_map(p0, "custom"@);
            &&& name@ != "custom"@ ==> custom_ok(p0, r.0@)
            &&& r.0@.contains_key(name@)
            &&& forall|k: Seq<char>| k != name@ && k != "custom"@ ==> kept(p0, r.0@, k)
            &&& if name@ == "custom"@ {
                r.1@ == (if c0.contains_key("any"@) {
                    c0
                } else {
                    c0.insert("any"@, TomlValue::Flag(true))
                })
            } else {
                r.1@ == child_map(p0, name@)
            }
        }),
{
    proof {
        lemma_provider_keys_differ();
    }
    let ghost t0 = table@;
    ensure_project_entry(table, project_name);
    let ghost t1 = table@;
    proof {
        lemma_edits_child_kept(t0, t1, "project"@);
        assert(kept(t0, t1, "provider"@));
    }
    ensure_provider_block(table);
    let ghost t2 = table@;
    proof {
        lemma_edits_child_kept(t1, t2, "provider"@);
        assert(child_map(t1, "provider"@) == child_map(t0, "provider"@));
        lemma_edits_child_kept(child_map(t1, "provider"@), child_map(t2, "provider"@), "custom"@);
    }
    let mut providers = table.take_table("provider");
    proof {
        assert(providers@ == child_map(t2, "provider"@));
        if name@ != "custom"@ {
            assert(kept(child_map(t1, "provider"@), child_map(t2, "provider"@), name@));
        }
    }
    let ghost pm = providers@;
    let entry = providers.take_table(name);
    proof {
        let p0 = child_map(t0, "provider"@);
        assert(p0 == child_map(t1, "provider"@));
        assert forall|k: Seq<char>| k != name@ implies kept(pm, providers@, k) by {
            assert(providers@.remove(name@).contains_key(k) == providers@.contains_key(k));
            assert(pm.remove(name@).contains_key(k) == pm.contains_key(k));
            if pm.contains_key(k) {
                assert(providers@.remove(name@)[k] == providers@[k]);
                assert(pm.remove(name@)[k] == pm[k]);
            }
        }
        assert forall|k: Seq<char>| k != name@ && k != "custom"@ implies kept(p0, providers@, k) by {
            assert(kept(p0, pm, k));
            assert(kept(pm, providers@, k));
        }
        if name@ != "custom"@ {
            assert(kept(pm, providers@, "custom"@));
            assert(custom_ok(p0, pm));
        }
        assert(kept(t1, t2, "project"@));
        assert(table@.remove("provider"@).contains_key("project"@) == t2.remove("provider"@).contains_key("project"@));
        assert(table@.remove("provider"@)["project"@] == t2.remove("provider"@)["project"@]);
        assert(child_map(table@, "project"@) == child_map(t1, "project"@));
        assert forall|k: Seq<char>| k != "project"@ && k != "provider"@ implies kept(
            t0,
            table@,
            k,
        ) by {
            assert(kept(t0, t1, k));
            assert(kept(t1, t2, k));
            assert(table@.remove("provider"@).contains_key(k) == table@.contains_key(k));
            if t2.contains_key(k) {
                assert(table@.remove("provider"@)[k] == table@[k]);
            }
        }
        assert(table@.remove("provider"@).contains_key("project"@) == table@.contains_key(
            "project"@,
        ));
        assert(table@.remove("provider"@)["project"@] == table@["project"@]);
    }
    (providers, entry)
}

/// Sets `any`, and the SDK and CLI requirements when given, in the
/// provider block `name`, after making the project entry and the provider
/// table ready.
pub fn add_provider_entry(
    table: &mut TomlTable,
    name: &str,
    project_name: &str,
    sdk: Option<&str>,
    cli: Option<&str>,
    any: bool,
)
    requires
        table_or_absent(old(table)@, "project"@),
        table_or_absent(old(table)@, "provider"@),
        table_or_absent(child_map(old(table)@, "provider"@), "custom"@),
        table_or_absent(child_map(old(table)@, "provider"@), name@),
    ensures
        provider_edit_ok(old(table)@, final(table)@, project_name@),
        provider_block_edited(
            child_map(old(table)@, "provider"@),
            child_map(final(table)@, "provider"@),
            name@,
        ),
        provider_entry_ok(
            child_map(child_map(old(table)@, "provider"@), name@),
            child_map(child_map(final(table)@, "provider"@), name@),
            sdk,
            cli,
            any,
        ),
{
    proof {
        lemma_provider_keys_differ();
    }
    let ghost t0 = table@;
    let (mut providers, mut entry) = open_provider_block(table, name, project_name);
    let ghost e0 = entry@;
    entry.insert(owned("any"), TomlValue::Flag(any));
    let ghost ea = entry@;
    insert_opt(&mut entry, "sdk", sdk);
    let ghost eb = entry@;
    insert_opt(&mut entry, "cli", cli);
    let ghost e1 = entry@;
    let ghost p_mid = providers@;
    providers.insert(owned(name), TomlValue::Table(entry));
    let ghost p1 = providers@;
    let ghost t_mid = table@;
    table.insert(owned("provider"), TomlValue::Table(providers));
    proof {
        let p0 = child_map(t0, "provider"@);
        lemma_insert_kept(e0, "any"@, TomlValue::Flag(any));
        lemma_insert_kept(p_mid, name@, TomlValue::Table(entry));
        lemma_insert_kept(t_mid, "provider"@, TomlValue::Table(providers));
        assert(child_map(table@, "provider"@) == p1);
        assert(child_map(p1, name@) == e1);
        // `any` survives the optional settings
        assert(kept(ea, eb, "any"@));
        assert(kept(eb, e1, "any"@));
        // `sdk` survives the CLI setting
        assert(kept(eb, e1, "sdk"@));
        if sdk is None {
            assert(kept(ea, eb, "sdk"@));
            assert(kept(e0, ea, "sdk"@));
        }
        if cli is None {
            assert(kept(eb, e1, "cli"@));
            assert(kept(ea, eb, "cli"@));
            assert(kept(e0, ea, "cli"@));
        } else {
            assert(kept(e0, ea, "cli"@));
        }
        assert forall|k: Seq<char>| k != "any"@ && k != "sdk"@ && k != "cli"@ implies kept(
            e0,
            e1,
            k,
        ) by {
            assert(kept(e0, ea, k));
            assert(kept(ea, eb, k));
            assert(kept(eb, e1, k));
        }
        if name@ == "custom"@ {
            // the block edited is `custom`: its `any` is overwritten anyway
            let c0 = child_map(p0, "custom"@);
            assert forall|k: Seq<char>| k != "any"@ && k != "sdk"@ && k != "cli"@ implies kept(
                c0,
                e1,
                k,
            ) by {
                assert(kept(c0, e0, k));
                assert(kept(e0, e1, k));
            }
            if sdk is None {
                assert(kept(c0, e0, "sdk"@));
            }
            if cli is None {
                assert(kept(c0, e0, "cli"@));
            }
        }
        assert forall|k: Seq<char>| k != "project"@ && k != "provider"@ implies kept(
            t0,
            table@,
            k,
        ) by {
            assert(kept(t0, t_mid, k));
        }
        assert(table@.remove("provider"@).contains_key("project"@) == t_mid.contains_key(
            "project"@,
        ));
        assert(table@["project"@] == t_mid["project"@]);
        assert forall|k: Seq<char>| k != name@ && k != "custom"@ implies kept(p0, p1, k) by {
            assert(kept(p0, p_mid, k));
            assert(kept(p_mid, p1, k));
        }
        if name@ != "custom"@ {
            assert(kept(p_mid, p1, "custom"@));
        }
    }
}

/// Sets the list `items` under `key` in `t` when it is not empty.
fn insert_list_unless_empty(t: &mut TomlTable, key: &str, items: &Vec<String>)
    ensures
        list_set_or_kept(old(t)@, final(t)@, key@, string_views(items@)),
        forall|k: Seq<char>| k != key@ ==> kept(old(t)@, final(t)@, k),
{
    if items.len() > 0 {
        t.insert(owned(key), text_list(items));
    }
}

/// Writes a provider block as the provider editor fills it in: `any` and
/// `verified` false, and each of the rest when given; after making the
/// project entry and the provider table ready.
pub fn add_provider_full(
    table: &mut TomlTable,
    name: &str,
    project_name: &str,
    cli_name: Option<&str>,
    version_check_cmd: Option<&str>,
    setup_cmds: &Vec<String>,
    sdk_req: Option<&str>,
    cli_req: Option<&str>,
)
    requires
        table_or_absent(old(table)@, "project"@),
        table_or_absent(old(table)@, "provider"@),
        table_or_absent(child_map(old(table)@, "provider"@), "custom"@),
        table_or_absent(child_map(old(table)@, "provider"@), name@),
    ensures
        provider_edit_ok(old(table)@, final(table)@, project_name@),
        provider_block_edited(
            child_map(old(table)@, "provider"@),
            child_map(final(table)@, "provider"@),
            name@,
        ),
        provider_full_ok(
            child_map(child_map(old(table)@, "provider"@), name@),
            child_map(child_map(final(table)@, "provider"@), name@),
            cli_name,
            version_check_cmd,
            string_views(setup_cmds@),
            sdk_req,
            cli_req,
        ),
{
    proof {
        lemma_provider_keys_differ();
    }
    let ghost t0 = table@;
    let (mut providers, mut entry) = open_provider_block(table, name, project_name);
    let ghost e0 = entry@;
    entry.insert(owned("any"), TomlValue::Flag(false));
    let ghost e1 = entry@;
    entry.insert(owned("verified"), TomlValue::Flag(false));
    let ghost e2 = entry@;
    insert_opt(&mut entry, "cli_name", cli_name);
    let ghost e3 = entry@;
    insert_opt(&mut entry, "version_check_command", version_check_cmd);
    let ghost e4 = entry@;
    insert_list_unless_empty(&mut entry, "setup_commands", setup_cmds);
    let ghost e5 = entry@;
    insert_opt(&mut entry, "sdk", sdk_req);
    let ghost e6 = entry@;
    insert_opt(&mut entry, "cli", cli_req);
    let ghost e7 = entry@;
    let ghost p_mid = providers@;
    providers.insert(owned(name), TomlValue::Table(entry));
    let ghost p1 = providers@;
    let ghost t_mid = table@;
    table.insert(owned("provider"), TomlValue::Table(providers));
    proof {
        let p0 = child_map(t0, "provider"@);
        let base = child_map(p0, name@);
        lemma_insert_kept(e0, "any"@, TomlValue::Flag(false));
        lemma_insert_kept(e1, "verified"@, TomlValue::Flag(false));
        lemma_insert_kept(p_mid, name@, TomlValue::Table(entry));
        lemma_insert_kept(t_mid, "provider"@, TomlValue::Table(providers));
        assert(child_map(table@, "provider"@) == p1);
        assert(child_map(p1, name@) == e7);
        // every key but `any` is the same in `base` and `e0`
        assert forall|k: Seq<char>| k != "any"@ implies kept(base, e0, k) by {
            if name@ == "custom"@ {
                assert(kept(child_map(p0, "custom"@), e0, k));
            }
        }
        // each key set is left alone by the later steps
        assert(kept(e1, e2, "any"@) && kept(e2, e3, "any"@) && kept(e3, e4, "any"@) && kept(
            e4,
            e5,
            "any"@,
        ) && kept(e5, e6, "any"@) && kept(e6, e7, "any"@));
        assert(kept(e2, e3, "verified"@) && kept(e3, e4, "verified"@) && kept(e4, e5, "verified"@)
            && kept(e5, e6, "verified"@) && kept(e6, e7, "verified"@));
        assert(kept(e3, e4, "cli_name"@) && kept(e4, e5, "cli_name"@) && kept(e5, e6, "cli_name"@)
            && kept(e6, e7, "cli_name"@));
        assert(kept(e4, e5, "version_check_command"@) && kept(e5, e6, "version_check_command"@)
            && kept(e6, e7, "version_check_command"@));
        assert(kept(e5, e6, "setup_commands"@) && kept(e6, e7, "setup_commands"@));
        assert(kept(e6, e7, "sdk"@));
        // and the steps before it leave it alone too
        assert(kept(base, e0, "cli_name"@) && kept(e0, e1, "cli_name"@) && kept(e1, e2, "cli_name"@));
        assert(kept(base, e0, "version_check_command"@) && kept(e0, e1, "version_check_command"@)
            && kept(e1, e2, "version_check_command"@) && kept(e2, e3, "version_check_command"@));
        assert(kept(base, e0, "setup_commands"@) && kept(e0, e1, "setup_commands"@) && kept(
            e1,
            e2,
            "setup_commands"@,
        ) && kept(e2, e3, "setup_commands"@) && kept(e3, e4, "setup_commands"@));
        assert(kept(base, e0, "sdk"@) && kept(e0, e1, "sdk"@) && kept(e1, e2, "sdk"@) && kept(
            e2,
            e3,
            "sdk"@,
        ) && kept(e3, e4, "sdk"@) && kept(e4, e5, "sdk"@));
        assert(kept(base, e0, "cli"@) && kept(e0, e1, "cli"@) && kept(e1, e2, "cli"@) && kept(
            e2,
            e3,
            "cli"@,
        ) && kept(e3, e4, "cli"@) && kept(e4, e5, "cli"@) && kept(e5, e6, "cli"@));
        assert forall|k: Seq<char>|
            k != "any"@ && k != "verified"@ && k != "cli_name"@ && k != "version_check_command"@
                && k != "setup_commands"@ && k != "sdk"@ && k != "cli"@ implies kept(base, e7, k) by {
            assert(kept(base, e0, k));
            assert(kept(e0, e1, k));
            assert(kept(e1, e2, k));
            assert(kept(e2, e3, k));
            assert(kept(e3, e4, k));
            assert(kept(e4, e5, k));
            assert(kept(e5, e6, k));
            assert(kept(e6, e7, k));
        }
        assert forall|k: Seq<char>| k != "project"@ && k != "provider"@ implies kept(
            t0,
            table@,
            k,
        ) by {
            assert(kept(t0, t_mid, k));
        }
        assert(table@.remove("provider"@).contains_key("project"@) == t_mid.contains_key(
            "project"@,
        ));
        assert(table@["project"@] == t_mid["project"@]);
        assert forall|k: Seq<char>| k != name@ && k != "custom"@ implies kept(p0, p1, k) by {
            assert(kept(p0, p_mid, k));
            assert(kept(p_mid, p1, k));
        }
        if name@ != "custom"@ {
            assert(kept(p_mid, p1, "custom"@));
        }
    }
}

// ---------------------------------------------------------------------------
// Whole regenerations
// ---------------------------------------------------------------------------

proof fn lemma_block_keys_differ()
    ensures
        "project"@ != "provider"@,
        "project"@ != "streams"@,
        "project"@ != "releases"@,
        "provider"@ != "streams"@,
        "provider"@ != "releases"@,
        "streams"@ != "releases"@,
{
    reveal_strlit("project");
    reveal_strlit("provider");
    reveal_strlit("streams");
    reveal_strlit("releases");
    assert("project"@[3] != "provider"@[3]);
    assert("project"@[0] != "streams"@[0]);
    assert("project"@[0] != "releases"@[0]);
    assert("provider"@[0] != "streams"@[0]);
    assert("provider"@[0] != "releases"@[0]);
    assert("streams"@[0] != "releases"@[0]);
}

/// The project entry and the provider table as `ensure_project_entry` and
/// `ensure_provider_block` leave them.
pub open spec fn blocks_ensured(
    before: Map<Seq<char>, TomlValue>,
    after: Map<Seq<char>, TomlValue>,
    project_name: Seq<char>,
) -> bool {
    &&& after.contains_key("project"@) && after["project"@] is Table
    &&& project_entry_ok(child_map(before, "project"@), child_map(after, "project"@), project_name)
    &&& after.contains_key("provider"@) && after["provider"@] is Table
    &&& edits_child(child_map(before, "provider"@), child_map(after, "provider"@), "custom"@)
    &&& custom_ok(child_map(before, "provider"@), child_map(after, "provider"@))
}

/// Makes the project entry and the provider block ready, as every
/// regeneration does first.
fn ensure_blocks(table: &mut TomlTable, project_name: &str)
    requires
        table_or_absent(old(table)@, "project"@),
        table_or_absent(old(table)@, "provider"@),
        table_or_absent(child_map(old(table)@, "provider"@), "custom"@),
    ensures
        blocks_ensured(old(table)@, final(table)@, project_name@),
        forall|k: Seq<char>| k != "project"@ && k != "provider"@ ==> kept(old(table)@, final(table)@, k),
{
    proof {
        lemma_block_keys_differ();
    }
    let ghost t0 = table@;
    ensure_project_entry(table, project_name);
    let ghost t1 = table@;
    proof {
        lemma_edits_child_kept(t0, t1, "project"@);
        assert(kept(t0, t1, "provider"@));
    }
    ensure_provider_block(table);
    proof {
        let t2 = table@;
        lemma_edits_child_kept(t1, t2, "provider"@);
        assert(kept(t1, t2, "project"@));
        assert forall|k: Seq<char>| k != "project"@ && k != "provider"@ implies kept(t0, t2, k) by {
            assert(kept(t0, t1, k));
            assert(kept(t1, t2, k));
        }
    }
}

/// The document as `regenerate_table` leaves it: the project entry and
/// the provider block ready, the picked streams filled in, the releases
/// rebuilt, nothing else changed.
pub open spec fn regenerated(
    before: Map<Seq<char>, TomlValue>,
    after: Map<Seq<char>, TomlValue>,
    project_name: Seq<char>,
    target: Option<&str>,
    streams: Seq<StreamSource>,
    releases: Seq<ReleaseSource>,
) -> bool {
    &&& blocks_ensured(before, after, project_name)
    &&& after.contains_key("streams"@) && after["streams"@] is Table
    &&& streams_filled(child_map(before, "streams"@), child_map(after, "streams"@), streams, target)
    &&& after.contains_key("releases"@) && after["releases"@] is Table
    &&& releases_listed(child_map(after, "releases"@), releases, None)
    &&& forall|k: Seq<char>|
        k != "project"@ && k != "provider"@ && k != "streams"@ && k != "releases"@ ==> kept(
            before,
            after,
            k,
        )
}

/// Regenerates the document from the reservoir: the project entry and the
/// provider block, the streams (only `target`, when given) and all the
/// releases.
pub fn regenerate_table(
    table: &mut TomlTable,
    project_name: &str,
    target: Option<&str>,
    streams: &Vec<StreamSource>,
    releases: &Vec<ReleaseSource>,
)
    requires
        table_or_absent(old(table)@, "project"@),
        table_or_absent(old(table)@, "provider"@),
        table_or_absent(child_map(old(table)@, "provider"@), "custom"@),
        table_or_absent(old(table)@, "streams"@),
        streams_fillable(child_map(old(table)@, "streams"@), streams@, target),
        stream_names_distinct(streams@),
        table_or_absent(old(table)@, "releases"@),
        release_names_distinct(releases@),
    ensures
        regenerated(old(table)@, final(table)@, project_name@, target, streams@, releases@),
{
    proof {
        lemma_block_keys_differ();
    }
    let ghost t0 = table@;
    ensure_blocks(table, project_name);
    let ghost t1 = table@;
    proof {
        assert(kept(t0, t1, "streams"@));
        assert(kept(t0, t1, "releases"@));
    }
    populate_streams(table, target, streams);
    let ghost t2 = table@;
    proof {
        lemma_edits_child_kept(t1, t2, "streams"@);
        assert(kept(t1, t2, "releases"@));
    }
    populate_releases(table, None, releases);
    proof {
        let t3 = table@;
        lemma_edits_child_kept(t2, t3, "releases"@);
        assert(kept(t1, t2, "project"@) && kept(t2, t3, "project"@));
        assert(kept(t1, t2, "provider"@) && kept(t2, t3, "provider"@));
        assert(kept(t2, t3, "streams"@));
        assert forall|k: Seq<char>|
            k != "project"@ && k != "provider"@ && k != "streams"@ && k != "releases"@ implies kept(
            t0,
            t3,
            k,
        ) by {
            assert(kept(t0, t1, k));
            assert(kept(t1, t2, k));
            assert(kept(t2, t3, k));
        }
    }
}

/// Rebuilds the releases in the document from the reservoir's releases
/// (those `selection` names, when there is a selection), after making the
/// project entry and the provider block ready.
pub fn apply_release_selection(
    table: &mut TomlTable,
    project_name: &str,
    selection: Option<&Vec<String>>,
    releases: &Vec<ReleaseSource>,
)
    requires
        table_or_absent(old(table)@, "project"@),
        table_or_absent(old(table)@, "provider"@),
        table_or_absent(child_map(old(table)@, "provider"@), "custom"@),
        table_or_absent(old(table)@, "releases"@),
        release_names_distinct(releases@),
    ensures
        blocks_ensured(old(table)@, final(table)@, project_name@),
        final(table)@.contains_key("releases"@) && final(table)@["releases"@] is Table,
        releases_listed(child_map(final(table)@, "releases"@), releases@, selection),
        forall|k: Seq<char>|
            k != "project"@ && k != "provider"@ && k != "releases"@ ==> kept(
                old(table)@,
                final(table)@,
                k,
            ),
{
    proof {
        lemma_block_keys_differ();
    }
    let ghost t0 = table@;
    ensure_blocks(table, project_name);
    let ghost t1 = table@;
    proof {
        assert(kept(t0, t1, "releases"@));
    }
    populate_releases(table, selection, releases);
    proof {
        let t2 = table@;
        lemma_edits_child_kept(t1, t2, "releases"@);
        assert(kept(t1, t2, "project"@));
        assert(kept(t1, t2, "provider"@));
        assert forall|k: Seq<char>| k != "project"@ && k != "provider"@ && k != "releases"@ implies kept(
            t0,
            t2,
            k,
        ) by {
            assert(kept(t0, t1, k));
            assert(kept(t1, t2, k));
        }
    }
}

/// Filling in a stream twice in a row leaves what filling it in once does.
proof fn lemma_stream_entry_ok_twice(
    a: Map<Seq<char>, TomlValue>,
    b: Map<Seq<char>, TomlValue>,
    c: Map<Seq<char>, TomlValue>,
    src: StreamSource,
)
    requires
        stream_entry_ok(a, b, src),
        stream_entry_ok(b, c, src),
    ensures
        stream_entry_ok(a, c, src),
{
    assert forall|k: Seq<char>|
        k != "target"@ && k != "status"@ && k != "description"@ && k != "goals"@ && k
            != "stable"@ implies kept(a, c, k) by {
        assert(kept(a, b, k));
        assert(kept(b, c, k));
    }
}

/// One of the streams named in `sel` has the name `key`.
pub open spec fn filled_by(streams: Seq<StreamSource>, sel: Seq<Seq<char>>, key: Seq<char>) -> bool {
    exists|i: int| 0 <= i < streams.len() && sel.contains(streams[i].name@) && #[trigger] streams[i].name@ == key
}

/// Each stream named in `sel` holds a table, or nothing.
pub open spec fn selected_fillable(
    s0: Map<Seq<char>, TomlValue>,
    streams: Seq<StreamSource>,
    sel: Seq<Seq<char>>,
) -> bool {
    forall|i: int|
        0 <= i < streams.len() && sel.contains(streams[i].name@) ==> table_or_absent(
            s0,
            #[trigger] streams[i].name@,
        )
}

/// The `streams` table `s1` is `s0` with the streams named in `sel` filled
/// in.
pub open spec fn selected_streams_filled(
    s0: Map<Seq<char>, TomlValue>,
    s1: Map<Seq<char>, TomlValue>,
    streams: Seq<StreamSource>,
    sel: Seq<Seq<char>>,
) -> bool {
    &&& forall|k: Seq<char>| !filled_by(streams, sel, k) ==> kept(s0, s1, k)
    &&& forall|i: int|
        0 <= i < streams.len() && sel.contains(streams[i].name@) ==> {
            &&& s1.contains_key(#[trigger] streams[i].name@)
            &&& s1[streams[i].name@] is Table
            &&& stream_entry_ok(child_map(s0, streams[i].name@), child_map(s1, streams[i].name@), streams[i])
        }
}

/// Fills in the streams named in `selected`, one name after another, as
/// the `dam.toml` menu does with the streams picked.
pub fn populate_selected_streams(
    table: &mut TomlTable,
    selected: &Vec<String>,
    streams: &Vec<StreamSource>,
)
    requires
        table_or_absent(old(table)@, "streams"@),
        selected_fillable(child_map(old(table)@, "streams"@), streams@, string_views(selected@)),
        stream_names_distinct(streams@),
    ensures
        forall|k: Seq<char>| k != "streams"@ ==> kept(old(table)@, final(table)@, k),
        table_or_absent(final(table)@, "streams"@),
        selected@.len() > 0 ==> final(table)@.contains_key("streams"@),
        selected_streams_filled(
            child_map(old(table)@, "streams"@),
            child_map(final(table)@, "streams"@),
            streams@,
            string_views(selected@),
        ),
{
    let ghost t0 = table@;
    let ghost s0 = child_map(t0, "streams"@);
    let ghost sel = string_views(selected@);
    let mut j: usize = 0;
    proof {
        assert(sel.take(0) =~= Seq::<Seq<char>>::empty());
    }
    while j < selected.len()
        invariant
            0 <= j <= selected@.len(),
            sel == string_views(selected@),
            s0 == child_map(t0, "streams"@),
            table_or_absent(t0, "streams"@),
            selected_fillable(s0, streams@, sel),
            stream_names_distinct(streams@),
            forall|k: Seq<char>| k != "streams"@ ==> kept(t0, table@, k),
            j == 0 ==> table@ == t0,
            j > 0 ==> table@.contains_key("streams"@) && table@["streams"@] is Table,
            selected_streams_filled(s0, child_map(table@, "streams"@), streams@, sel.take(j as int)),
        decreases selected@.len() - j,
    {
        let ghost cur_t = table@;
        let ghost cur = child_map(cur_t, "streams"@);
        let ghost t = sel[j as int];
        let ghost before = sel.take(j as int);
        let ghost after = sel.take(j + 1);
        let tgt: &str = selected[j].as_str();
        proof {
            assert(tgt@ == t);
            assert(after =~= before.push(t));
            assert forall|x: Seq<char>| after.contains(x) <==> before.contains(x) || x == t by {
                if after.contains(x) {
                    let m = choose|m: int| 0 <= m < after.len() && after[m] == x;
                    if m < j {
                        assert(before[m] == x);
                    }
                }
                if before.contains(x) {
                    let m = choose|m: int| 0 <= m < before.len() && before[m] == x;
                    assert(after[m] == x);
                }
                if x == t {
                    assert(after[j as int] == x);
                }
            }
            assert(sel.contains(t)) by {
                assert(sel[j as int] == t);
            }
            assert(streams_fillable(cur, streams@, Some(tgt))) by {
                assert forall|i: int|
                    0 <= i < streams@.len() && picked(Some(tgt), streams@[i].name@)
                    implies table_or_absent(cur, #[trigger] streams@[i].name@) by {
                    let n = streams@[i].name@;
                    assert(n == t);
                    assert(sel.contains(n));
                    if !filled_by(streams@, before, n) {
                        assert(kept(s0, cur, n));
                    } else {
                        let q = choose|q: int|
                            0 <= q < streams@.len() && before.contains(streams@[q].name@)
                                && #[trigger] streams@[q].name@ == n;
                        assert(cur[streams@[q].name@] is Table);
                    }
                }
            }
        }
        populate_streams(table, Some(tgt), streams);
        proof {
            let next = child_map(table@, "streams"@);
            let target = Some(tgt);
            lemma_edits_child_kept(cur_t, table@, "streams"@);
            assert forall|k: Seq<char>| !filled_by(streams@, after, k) implies kept(s0, next, k) by {
                assert(!filled_by(streams@, before, k)) by {
                    if filled_by(streams@, before, k) {
                        let q = choose|q: int|
                            0 <= q < streams@.len() && before.contains(streams@[q].name@)
                                && #[trigger] streams@[q].name@ == k;
                        assert(after.contains(streams@[q].name@));
                    }
                }
                assert(!filled(streams@, target, streams@.len() as int, k)) by {
                    if filled(streams@, target, streams@.len() as int, k) {
                        let q = choose|q: int|
                            0 <= q < streams@.len() && picked(target, streams@[q].name@)
                                && #[trigger] streams@[q].name@ == k;
                        assert(after.contains(streams@[q].name@));
                    }
                }
                assert(kept(s0, cur, k));
                assert(kept(cur, next, k));
            }
            assert forall|i: int| 0 <= i < streams@.len() && after.contains(streams@[i].name@) implies {
                &&& next.contains_key(#[trigger] streams@[i].name@)
                &&& next[streams@[i].name@] is Table
                &&& stream_entry_ok(child_map(s0, streams@[i].name@), child_map(next, streams@[i].name@), streams@[i])
            } by {
                let n = streams@[i].name@;
                if n == t {
                    assert(picked(target, n));
                    if before.contains(n) {
                        lemma_stream_entry_ok_twice(
                            child_map(s0, n),
                            child_map(cur, n),
                            child_map(next, n),
                            streams@[i],
                        );
                    } else {
                        assert(!filled_by(streams@, before, n)) by {
                            if filled_by(streams@, before, n) {
                                let q = choose|q: int|
                                    0 <= q < streams@.len() && before.contains(streams@[q].name@)
                                        && #[trigger] streams@[q].name@ == n;
                                if q != i {
                                    assert(streams@[q].name@ != streams@[i].name@);
                                }
                            }
                        }
                        assert(kept(s0, cur, n));
                    }
                } else {
                    assert(before.contains(n));
                    assert(!filled(streams@, target, streams@.len() as int, n)) by {
                        if filled(streams@, target, streams@.len() as int, n) {
                            let q = choose|q: int|
                                0 <= q < streams@.len() && picked(target, streams@[q].name@)
                                    && #[trigger] streams@[q].name@ == n;
                        }
                    }
                    assert(kept(cur, next, n));
                }
            }
            assert forall|k: Seq<char>| k != "streams"@ implies kept(t0, table@, k) by {
                assert(kept(t0, cur_t, k));
                assert(kept(cur_t, table@, k));
            }
        }
        j = j + 1;
    }
    proof {
        assert(sel.take(j as int) =~= sel);
    }
}

/// Writes the streams and releases picked in the `dam.toml` menu into the
/// document, after making the project entry and the provider block ready.
pub fn regenerate_selection(
    table: &mut TomlTable,
    project_name: &str,
    selected: &Vec<String>,
    streams: &Vec<StreamSource>,
    selected_releases: Option<&Vec<String>>,
    releases: &Vec<ReleaseSource>,
)
    requires
        table_or_absent(old(table)@, "project"@),
        table_or_absent(old(table)@, "provider"@),
        table_or_absent(child_map(old(table)@, "provider"@), "custom"@),
        table_or_absent(old(table)@, "streams"@),
        selected_fillable(child_map(old(table)@, "streams"@), streams@, string_views(selected@)),
        stream_names_distinct(streams@),
        table_or_absent(old(table)@, "releases"@),
        release_names_distinct(releases@),
    ensures
        blocks_ensured(old(table)@, final(table)@, project_name@),
        selected_streams_filled(
            child_map(old(table)@, "streams"@),
            child_map(final(table)@, "streams"@),
            streams@,
            string_views(selected@),
        ),
        selected@.len() > 0 ==> final(table)@.contains_key("streams"@),
        final(table)@.contains_key("releases"@) && final(table)@["releases"@] is Table,
        releases_listed(child_map(final(table)@, "releases"@), releases@, selected_releases),
        forall|k: Seq<char>|
            k != "project"@ && k != "provider"@ && k != "streams"@ && k != "releases"@ ==> kept(
                old(table)@,
                final(table)@,
                k,
            ),
{
    proof {
        lemma_block_keys_differ();
    }
    let ghost t0 = table@;
    ensure_blocks(table, project_name);
    let ghost t1 = table@;
    proof {
        assert(kept(t0, t1, "streams"@));
        assert(kept(t0, t1, "releases"@));
    }
    populate_selected_streams(table, selected, streams);
    let ghost t2 = table@;
    proof {
        assert(kept(t1, t2, "releases"@));
    }
    populate_releases(table, selected_releases, releases);
    proof {
        let t3 = table@;
        lemma_edits_child_kept(t2, t3, "releases"@);
        assert(kept(t1, t2, "project"@) && kept(t2, t3, "project"@));
        assert(kept(t1, t2, "provider"@) && kept(t2, t3, "provider"@));
        assert(kept(t2, t3, "streams"@));
        assert forall|k: Seq<char>|
            k != "project"@ && k != "provider"@ && k != "streams"@ && k != "releases"@ implies kept(
            t0,
            t3,
            k,
        ) by {
            assert(kept(t0, t1, k));
            assert(kept(t1, t2, k));
            assert(kept(t2, t3, k));
        }
    }
}

// ---------------------------------------------------------------------------
// Reading the reservoir
// ---------------------------------------------------------------------------

/// A stream and the priority its metadata gives it, when as text.
pub struct StreamPriority {
    pub name: String,
    pub priority: Option<String>,
}

/// A stream the `dam.toml` menu picks unless told otherwise: `main`, and
/// those of priority `high` in any ASCII case.
pub open spec fn picked_by_default(s: StreamPriority) -> bool {
    s.name@ == "main"@ || (s.priority matches Some(p) && eq_ignore_ascii_case(p@, "high"@))
}

/// The names of the streams picked by default, in order.
pub open spec fn default_picks(ss: Seq<StreamPriority>) -> Seq<Seq<char>>
    decreases ss.len(),
{
    if ss.len() == 0 {
        Seq::empty()
    } else {
        let rest = default_picks(ss.drop_last());
        if picked_by_default(ss.last()) {
            rest.push(ss.last().name@)
        } else {
            rest
        }
    }
}

/// The streams the `dam.toml` menu picks unless told otherwise, sorted.
pub fn get_default_stream_selection(streams: &Vec<StreamPriority>) -> (r: Vec<String>)
    ensures
        is_sorted_texts(string_views(r@)),
        string_views(r@).to_multiset() == default_picks(streams@).to_multiset(),
{
    let mut picks: Vec<String> = Vec::new();
    let mut i: usize = 0;
    while i < streams.len()
        invariant
            0 <= i <= streams@.len(),
            string_views(picks@) == default_picks(streams@.take(i as int)),
        decreases streams@.len() - i,
    {
        let s = &streams[i];
        let pick = str_eq(s.name.as_str(), "main") || match &s.priority {
            Some(p) => str_eq_ignore_ascii_case(p.as_str(), "high"),
            None => false,
        };
        if pick {
            picks.push(s.name.clone());
        }
        proof {
            assert(streams@.take(i + 1).drop_last() =~= streams@.take(i as int));
            assert(string_views(picks@) =~= default_picks(streams@.take(i + 1)));
        }
        i = i + 1;
    }
    assert(streams@.take(i as int) =~= streams@);
    sort_texts(&picks)
}

/// A stable version file: its name and the stream it names, when as text.
pub struct StableFile {
    pub stem: String,
    pub stream: Option<String>,
}

/// The names of the stable version files that name `stream`, in order.
pub open spec fn stable_picks(files: Seq<StableFile>, stream: Seq<char>) -> Seq<Seq<char>>
    decreases files.len(),
{
    if files.len() == 0 {
        Seq::empty()
    } else {
        let rest = stable_picks(files.drop_last(), stream);
        if files.last().stream matches Some(x) && x@ == stream {
            rest.push(files.last().stem@)
        } else {
            rest
        }
    }
}

/// The stable versions assigned to `stream`, sorted.
pub fn stable_versions_for_stream(stream: &str, files: &Vec<StableFile>) -> (r: Vec<String>)
    ensures
        is_sorted_texts(string_views(r@)),
        string_views(r@).to_multiset() == stable_picks(files@, stream@).to_multiset(),
{
    let mut picks: Vec<String> = Vec::new();
    let mut i: usize = 0;
    while i < files.len()
        invariant
            0 <= i <= files@.len(),
            string_views(picks@) == stable_picks(files@.take(i as int), stream@),
        decreases files@.len() - i,
    {
        let f = &files[i];
        let pick = match &f.stream {
            Some(x) => str_eq(x.as_str(), stream),
            None => false,
        };
        if pick {
            picks.push(f.stem.clone());
        }
        proof {
            assert(files@.take(i + 1).drop_last() =~= files@.take(i as int));
            assert(string_views(picks@) =~= stable_picks(files@.take(i + 1), stream@));
        }
        i = i + 1;
    }
    assert(files@.take(i as int) =~= files@);
    sort_texts(&picks)
}

// ---------------------------------------------------------------------------
// The menus
// ---------------------------------------------------------------------------

/// The streams typed at the `dam.toml` menu: the defaults when nothing is
/// typed, all of them for `all` (any ASCII case), else the comma separated
/// names.
pub open spec fn stream_selection_spec(
    input: Seq<char>,
    defaults: Seq<Seq<char>>,
    available: Seq<Seq<char>>,
) -> Seq<Seq<char>> {
    let t = trim(input);
    if t.len() == 0 {
        defaults
    } else if eq_ignore_ascii_case(t, "all"@) {
        available
    } else {
        comma_list(t)
    }
}

/// Reads the streams typed at the `dam.toml` menu.
pub fn stream_selection(input: &str, defaults: &Vec<String>, available: &Vec<String>) -> (r: Vec<
    String,
>)
    ensures
        string_views(r@) == stream_selection_spec(input@, string_views(defaults@), string_views(available@)),
{
    let t = trimmed(input);
    if t.as_str().is_empty() {
        copy_strings(defaults)
    } else if str_eq_ignore_ascii_case(t.as_str(), "all") {
        copy_strings(available)
    } else {
        comma_list_of(t.as_str())
    }
}

/// Reads the releases typed at the `dam.toml` menu: all when nothing is
/// typed, else the comma separated names.
pub fn release_selection(input: &str) -> (r: Option<Vec<String>>)
    ensures
        match r {
            None => trim(input@).len() == 0,
            Some(v) => trim(input@).len() > 0 && string_views(v@) == comma_list(trim(input@)),
        },
{
    let t = trimmed(input);
    if t.as_str().is_empty() {
        None
    } else {
        Some(comma_list_of(t.as_str()))
    }
}

/// A copy of `v`.
fn copy_strings(v: &Vec<String>) -> (r: Vec<String>)
    ensures
        string_views(r@) == string_views(v@),
{
    let mut out: Vec<String> = Vec::new();
    let mut i: usize = 0;
    while i < v.len()
        invariant
            0 <= i <= v@.len(),
            string_views(out@) =~= string_views(v@.take(i as int)),
        decreases v@.len() - i,
    {
        out.push(v[i].clone());
        proof {
            assert(string_views(v@.take(i + 1)) =~= string_views(v@.take(i as int)).push(v@[i as int]@));
        }
        i = i + 1;
    }
    assert(v@.take(i as int) =~= v@);
    out
}

/// What the provider menu does with an existing block.
#[derive(Clone, Copy, Debug, PartialEq, Eq, Structural)]
pub enum ProviderMenuAction {
    Edit,
    Remove,
    Cancel,
}

/// Reads the answer to "[E]dit, [D]etails, [R]emove, or [C]ancel?".
pub fn provider_menu_action(input: &str) -> (r: ProviderMenuAction)
    ensures
        r == (if lowered_answer(input@) == "e"@ || lowered_answer(input@) == "d"@ {
            ProviderMenuAction::Edit
        } else if lowered_answer(input@) == "r"@ {
            ProviderMenuAction::Remove
        } else {
            ProviderMenuAction::Cancel
        }),
{
    let a = lower_answer(input);
    if str_eq(a.as_str(), "e") || str_eq(a.as_str(), "d") {
        ProviderMenuAction::Edit
    } else if str_eq(a.as_str(), "r") {
        ProviderMenuAction::Remove
    } else {
        ProviderMenuAction::Cancel
    }
}

/// What the profile menu does next.
#[derive(Clone, Copy, Debug, PartialEq, Eq, Structural)]
pub enum ProfileMenuAction {
    Add,
    Edit,
    Remove,
    Quit,
    Unknown,
}

/// Reads the answer to "Choose [A]dd, [E]dit, [R]emove, or [Q]uit".
pub fn profile_menu_action(input: &str) -> (r: ProfileMenuAction)
    ensures
        r == (if lowered_answer(input@) == "a"@ {
            ProfileMenuAction::Add
        } else if lowered_answer(input@) == "e"@ {
            ProfileMenuAction::Edit
        } else if lowered_answer(input@) == "r"@ {
            ProfileMenuAction::Remove
        } else if lowered_answer(input@) == "q"@ {
            ProfileMenuAction::Quit
        } else {
            ProfileMenuAction::Unknown
        }),
{
    let a = lower_answer(input);
    if str_eq(a.as_str(), "a") {
        ProfileMenuAction::Add
    } else if str_eq(a.as_str(), "e") {
        ProfileMenuAction::Edit
    } else if str_eq(a.as_str(), "r") {
        ProfileMenuAction::Remove
    } else if str_eq(a.as_str(), "q") {
        ProfileMenuAction::Quit
    } else {
        ProfileMenuAction::Unknown
    }
}

/// What the releases menu does next.
#[derive(Clone, Copy, Debug, PartialEq, Eq, Structural)]
pub enum ReleasesMenuAction {
    Add,
    Remove,
    Select,
    Quit,
    Unknown,
}

/// Reads the answer to "Choose [A]dd, [R]emove, [S]elect subset, or [Q]uit".
pub fn releases_menu_action(input: &str) -> (r: ReleasesMenuAction)
    ensures
        r == (if lowered_answer(input@) == "a"@ {
            ReleasesMenuAction::Add
        } else if lowered_answer(input@) == "r"@ {
            ReleasesMenuAction::Remove
        } else if lowered_answer(input@) == "s"@ {
            ReleasesMenuAction::Select
        } else if lowered_answer(input@) == "q"@ {
            ReleasesMenuAction::Quit
        } else {
            ReleasesMenuAction::Unknown
        }),
{
    let a = lower_answer(input);
    if str_eq(a.as_str(), "a") {
        ReleasesMenuAction::Add
    } else if str_eq(a.as_str(), "r") {
        ReleasesMenuAction::Remove
    } else if str_eq(a.as_str(), "s") {
        ReleasesMenuAction::Select
    } else if str_eq(a.as_str(), "q") {
        ReleasesMenuAction::Quit
    } else {
        ReleasesMenuAction::Unknown
    }
}

/// How adding a release to the selection went.
#[derive(Clone, Copy, Debug, PartialEq, Eq, Structural)]
pub enum ReleaseAddOutcome {
    /// No release of that name exists.
    NotOnDisk,
    Added,
    AlreadyIncluded,
}

/// Adds the release `name` to the selection `current`, when it exists and
/// is not selected yet.
pub fn add_release_to_selection(
    current: &mut Vec<String>,
    available: &Vec<String>,
    name: &str,
) -> (r: ReleaseAddOutcome)
    ensures
        !string_views(available@).contains(name@) ==> r == ReleaseAddOutcome::NotOnDisk
            && final(current)@ == old(current)@,
        string_views(available@).contains(name@) && !string_views(old(current)@).contains(name@)
            ==> r == ReleaseAddOutcome::Added && string_views(final(current)@) == string_views(
            old(current)@,
        ).push(name@),
        string_views(available@).contains(name@) && string_views(old(current)@).contains(name@)
            ==> r == ReleaseAddOutcome::AlreadyIncluded && final(current)@ == old(current)@,
{
    if !contains_string(available, name) {
        return ReleaseAddOutcome::NotOnDisk;
    }
    if contains_string(current, name) {
        return ReleaseAddOutcome::AlreadyIncluded;
    }
    let ghost before = current@;
    current.push(owned(name));
    assert(string_views(current@) =~= string_views(before).push(name@));
    ReleaseAddOutcome::Added
}

/// `s` without the occurrences of `x`.
pub open spec fn without(s: Seq<Seq<char>>, x: Seq<char>) -> Seq<Seq<char>>
    decreases s.len(),
{
    if s.len() == 0 {
        Seq::empty()
    } else {
        let rest = without(s.drop_last(), x);
        if s.last() == x {
            rest
        } else {
            rest.push(s.last())
        }
    }
}

/// Removes the release `name` from the selection; whether it was selected.
pub fn remove_release_from_selection(current: &mut Vec<String>, name: &str) -> (r: bool)
    ensures
        r == string_views(old(current)@).contains(name@),
        string_views(final(current)@) == without(string_views(old(current)@), name@),
{
    let found = contains_string(current, name);
    let mut kept_names: Vec<String> = Vec::new();
    let mut i: usize = 0;
    while i < current.len()
        invariant
            0 <= i <= current@.len(),
            string_views(kept_names@) == without(string_views(current@.take(i as int)), name@),
        decreases current@.len() - i,
    {
        if !str_eq(current[i].as_str(), name) {
            kept_names.push(current[i].clone());
        }
        proof {
            assert(string_views(current@.take(i + 1)).drop_last() =~= string_views(
                current@.take(i as int),
            ));
            assert(string_views(kept_names@) =~= without(string_views(current@.take(i + 1)), name@));
        }
        i = i + 1;
    }
    assert(current@.take(i as int) =~= current@);
    *current = kept_names;
    found
}

/// The selection after `dam regenerate dam-toml releases --add/--remove`:
/// `add` appended unless selected, then `remove` taken out.
pub fn edit_release_selection(current: Vec<String>, add: Option<&str>, remove: Option<&str>) -> (r:
    Vec<String>)
    ensures
        ({
            let added = match add {
                Some(a) => if string_views(current@).contains(a@) {
                    string_views(current@)
                } else {
                    string_views(current@).push(a@)
                },
                None => string_views(current@),
            };
            string_views(r@) == match remove {
                Some(x) => without(added, x@),
                None => added,
            }
        }),
{
    let mut cur = current;
    match add {
        Some(a) => {
            if !contains_string(&cur, a) {
                let ghost before = cur@;
                cur.push(owned(a));
                assert(string_views(cur@) =~= string_views(before).push(a@));
            }
        },
        None => {},
    }
    match remove {
        Some(x) => {
            remove_release_from_selection(&mut cur, x);
        },
        None => {},
    }
    cur
}

/// The description a profile prompt offers: the current one, or nothing.
pub open spec fn default_description(current: Option<&str>) -> Seq<char> {
    match current {
        Some(d) => d@,
        None => Seq::empty(),
    }
}

/// The patterns a profile prompt offers: the current ones joined by `, `,
/// or `fallback`.
pub open spec fn default_patterns(current: Option<&Vec<String>>, fallback: Seq<char>) -> Seq<char> {
    match current {
        Some(v) => join_with(string_views(v@), ", "@),
        None => fallback,
    }
}

/// The defaults a profile prompt offers: description, include patterns
/// (`**/*` for a new profile) and exclude patterns (`.git/**, .dam/**`).
pub fn profile_prompt_defaults(
    current_description: Option<&str>,
    current_include: Option<&Vec<String>>,
    current_exclude: Option<&Vec<String>>,
) -> (r: (String, String, String))
    ensures
        r.0@ == default_description(current_description),
        r.1@ == default_patterns(current_include, "**/*"@),
        r.2@ == default_patterns(current_exclude, ".git/**, .dam/**"@),
{
    let d = match current_description {
        Some(x) => owned(x),
        None => String::new(),
    };
    let i = match current_include {
        Some(v) => join_strings(v, ", "),
        None => owned("**/*"),
    };
    let e = match current_exclude {
        Some(v) => join_strings(v, ", "),
        None => owned(".git/**, .dam/**"),
    };
    (d, i, e)
}

/// A typed answer, trimmed, or `default` when nothing was typed.
pub open spec fn answer_or_default(input: Seq<char>, default: Seq<char>) -> Seq<char> {
    if trim(input).len() == 0 {
        default
    } else {
        trim(input)
    }
}

/// The profile the profile prompts describe: the description and the
/// comma separated include and exclude patterns typed, each defaulting to
/// what `profile_prompt_defaults` offers.
pub fn prompt_profile_details(
    current_description: Option<&str>,
    current_include: Option<&Vec<String>>,
    current_exclude: Option<&Vec<String>>,
    description_line: &str,
    include_line: &str,
    exclude_line: &str,
) -> (r: (String, Vec<String>, Vec<String>))
    ensures
        r.0@ == answer_or_default(description_line@, default_description(current_description)),
        string_views(r.1@) == comma_list(
            answer_or_default(include_line@, default_patterns(current_include, "**/*"@)),
        ),
        string_views(r.2@) == comma_list(
            answer_or_default(exclude_line@, default_patterns(current_exclude, ".git/**, .dam/**"@)),
        ),
{
    let (dd, di, de) = profile_prompt_defaults(current_description, current_include, current_exclude);
    let d = trimmed(description_line);
    let description = if d.as_str().is_empty() {
        dd
    } else {
        d
    };
    let i = trimmed(include_line);
    let includes = if i.as_str().is_empty() {
        comma_list_of(di.as_str())
    } else {
        comma_list_of(i.as_str())
    };
    let e = trimmed(exclude_line);
    let excludes = if e.as_str().is_empty() {
        comma_list_of(de.as_str())
    } else {
        comma_list_of(e.as_str())
    };
    (description, includes, excludes)
}

// ---------------------------------------------------------------------------
// Commands
// ---------------------------------------------------------------------------

/// The subcommands of `dam regenerate dam-toml`.
pub enum DamTomlCommands {
    /// Set a provider block, or open the provider menu when no name is given.
    Providers { name: Option<String>, sdk: Option<String>, cli: Option<String>, any: bool },
    /// Open the profile menu.
    Profiles,
    /// Regenerate one stream, or open the stream menu.
    Streams { stream: Option<String> },
    /// Add or remove a release, or open the releases menu.
    Releases { add: Option<String>, remove: Option<String> },
    /// Regenerate from the reservoir: one stream, or all of them.
    Sync { stream: Option<String>, all: bool },
}

/// The subcommands of `dam regenerate`.
pub enum RegenerateCommands {
    DamToml { command: Option<DamTomlCommands>, stream: Option<String>, force: bool },
    Provider { name: String, sdk: Option<String>, cli: Option<String>, any: bool },
    Sync { stream: Option<String>, all: bool },
}

/// What `dam regenerate` goes on to do.
pub enum RegenerateAction {
    /// `add_provider_entry` with these values.
    AddProvider { name: String, sdk: Option<String>, cli: Option<String>, any: bool },
    ProviderMenu,
    ProfileMenu,
    /// `regenerate_table` for `stream` (all streams when none), announced
    /// by `regenerate_message` with `force`.
    FromDisk { stream: Option<String>, force: bool },
    /// Ask which streams and releases to write, then `regenerate_selection`.
    SelectStreams,
    /// `edit_release_selection` on the releases listed, then
    /// `apply_release_selection`.
    EditReleases { add: Option<String>, remove: Option<String> },
    ReleasesMenu,
    /// The interactive regenerate menu.
    Interactive,
}

/// Regenerating from the reservoir: one stream when one is named and not
/// `all`, else every stream.
pub open spec fn sync_plan(stream: Option<String>, all: bool) -> RegenerateAction {
    if all || stream is None {
        RegenerateAction::FromDisk { stream: None, force: true }
    } else {
        RegenerateAction::FromDisk { stream, force: true }
    }
}

/// The `dam.toml` menu: regenerate the named stream, or ask for streams.
pub open spec fn dam_toml_menu_plan(stream: Option<String>, force: bool) -> RegenerateAction {
    match stream {
        Some(_) => RegenerateAction::FromDisk { stream, force },
        None => RegenerateAction::SelectStreams,
    }
}

/// What `dam regenerate` does for each command.
pub open spec fn regenerate_plan(command: Option<RegenerateCommands>) -> RegenerateAction {
    match command {
        Some(RegenerateCommands::DamToml { command, stream, force }) => match command {
            Some(DamTomlCommands::Providers { name, sdk, cli, any }) => match name {
                Some(n) => RegenerateAction::AddProvider { name: n, sdk, cli, any },
                None => RegenerateAction::ProviderMenu,
            },
            Some(DamTomlCommands::Profiles) => RegenerateAction::ProfileMenu,
            Some(DamTomlCommands::Streams { stream }) => match stream {
                Some(_) => RegenerateAction::FromDisk { stream, force: true },
                None => RegenerateAction::SelectStreams,
            },
            Some(DamTomlCommands::Releases { add, remove }) => if add is Some || remove is Some {
                RegenerateAction::EditReleases { add, remove }
            } else {
                RegenerateAction::ReleasesMenu
            },
            Some(DamTomlCommands::Sync { stream, all }) => sync_plan(stream, all),
            None => dam_toml_menu_plan(stream, force),
        },
        Some(RegenerateCommands::Provider { name, sdk, cli, any }) => RegenerateAction::AddProvider {
            name,
            sdk,
            cli,
            any,
        },
        Some(RegenerateCommands::Sync { stream, all }) => sync_plan(stream, all),
        None => RegenerateAction::Interactive,
    }
}

fn sync_action(stream: Option<String>, all: bool) -> (r: RegenerateAction)
    ensures
        r == sync_plan(stream, all),
{
    if all || stream.is_none() {
        RegenerateAction::FromDisk { stream: None, force: true }
    } else {
        RegenerateAction::FromDisk { stream, force: true }
    }
}

/// The `dam.toml` menu: regenerates the named stream, or asks for streams.
pub fn interactive_dam_toml_menu(stream: Option<String>, force: bool) -> (r: RegenerateAction)
    ensures
        r == dam_toml_menu_plan(stream, force),
{
    match stream {
        Some(s) => RegenerateAction::FromDisk { stream: Some(s), force },
        None => RegenerateAction::SelectStreams,
    }
}

/// The stream menu: the `dam.toml` menu with no stream named.
pub fn interactive_streams_menu() -> (r: RegenerateAction)
    ensures
        r == dam_toml_menu_plan(None, true),
{
    interactive_dam_toml_menu(None, true)
}

/// Syncing everything from the reservoir.
pub fn interactive_sync_menu() -> (r: RegenerateAction)
    ensures
        r == (RegenerateAction::FromDisk { stream: None, force: true }),
{
    RegenerateAction::FromDisk { stream: None, force: true }
}

/// What `dam regenerate` goes on to do for `command`.
pub fn run(command: Option<RegenerateCommands>) -> (r: RegenerateAction)
    ensures
        r == regenerate_plan(command),
{
    match command {
        Some(RegenerateCommands::DamToml { command, stream, force }) => match command {
            Some(DamTomlCommands::Providers { name, sdk, cli, any }) => match name {
                Some(n) => RegenerateAction::AddProvider { name: n, sdk, cli, any },
                None => RegenerateAction::ProviderMenu,
            },
            Some(DamTomlCommands::Profiles) => RegenerateAction::ProfileMenu,
            Some(DamTomlCommands::Streams { stream }) => match stream {
                Some(s) => RegenerateAction::FromDisk { stream: Some(s), force: true },
                None => interactive_streams_menu(),
            },
            Some(DamTomlCommands::Releases { add, remove }) => {
                if add.is_some() || remove.is_some() {
                    RegenerateAction::EditReleases { add, remove }
                } else {
                    RegenerateAction::ReleasesMenu
                }
            },
            Some(DamTomlCommands::Sync { stream, all }) => sync_action(stream, all),
            None => interactive_dam_toml_menu(stream, force),
        },
        Some(RegenerateCommands::Provider { name, sdk, cli, any }) => RegenerateAction::AddProvider {
            name,
            sdk,
            cli,
            any,
        },
        Some(RegenerateCommands::Sync { stream, all }) => sync_action(stream, all),
        None => RegenerateAction::Interactive,
    }
}

/// One step of the interactive regenerate menu.
pub enum MenuStep {
    Act(RegenerateAction),
    Quit,
    Unknown,
}

/// What the interactive regenerate menu does with a typed choice: `1` (or
/// nothing) writes streams and releases, `2` to `5` open the provider,
/// profile, stream and releases menus, `6` syncs everything, `q` quits.
pub open spec fn regenerate_step_spec(input: Seq<char>) -> MenuStep {
    let c = trim(input);
    if c.len() == 0 || c == "1"@ {
        MenuStep::Act(dam_toml_menu_plan(None, false))
    } else if c == "2"@ {
        MenuStep::Act(RegenerateAction::ProviderMenu)
    } else if c == "3"@ {
        MenuStep::Act(RegenerateAction::ProfileMenu)
    } else if c == "4"@ {
        MenuStep::Act(dam_toml_menu_plan(None, true))
    } else if c == "5"@ {
        MenuStep::Act(RegenerateAction::ReleasesMenu)
    } else if c == "6"@ {
        MenuStep::Act(RegenerateAction::FromDisk { stream: None, force: true })
    } else if c == "q"@ || c == "Q"@ {
        MenuStep::Quit
    } else {
        MenuStep::Unknown
    }
}

/// Reads a choice at the interactive regenerate menu.
pub fn interactive_regenerate_step(input: &str) -> (r: MenuStep)
    ensures
        r == regenerate_step_spec(input@),
{
    let c = trimmed(input);
    let c = c.as_str();
    if c.is_empty() || str_eq(c, "1") {
        MenuStep::Act(interactive_dam_toml_menu(None, false))
    } else if str_eq(c, "2") {
        MenuStep::Act(RegenerateAction::ProviderMenu)
    } else if str_eq(c, "3") {
        MenuStep::Act(RegenerateAction::ProfileMenu)
    } else if str_eq(c, "4") {
        MenuStep::Act(interactive_streams_menu())
    } else if str_eq(c, "5") {
        MenuStep::Act(RegenerateAction::ReleasesMenu)
    } else if str_eq(c, "6") {
        MenuStep::Act(interactive_sync_menu())
    } else if str_eq(c, "q") || str_eq(c, "Q") {
        MenuStep::Quit
    } else {
        MenuStep::Unknown
    }
}

/// What regenerating from the reservoir reports: a fresh document when
/// forced or when there was none, else an update.
pub fn regenerate_message(force: bool, exists: bool) -> (r: &'static str)
    ensures
        r@ == (if force || !exists {
            "Regenerated dam.toml from live reservoir state."@
        } else {
            "Updated dam.toml from live reservoir state."@
        }),
{
    if force || !exists {
        "Regenerated dam.toml from live reservoir state."
    } else {
        "Updated dam.toml from live reservoir state."
    }
}

} // verus!

//! Streams: the metadata kept for each parallel flow of seals.
use vstd::prelude::*;
use vstd::string::StringExecFns;
use crate::text::{owned, str_eq, string_views, trim, trimmed};

verus! {

/// The metadata of a stream, as stored in `.dam/streams/<name>`.
pub struct StreamMeta {
    pub name: String,
    pub description: Option<String>,
    pub owner: String,
    pub priority: String,
    pub status: String,
    pub created_at: String,
    pub target: Option<String>,
    pub goals: Vec<String>,
    pub notes: Option<String>,
    pub latest_seal: Option<String>,
}

/// What a stream's metadata says.
pub struct StreamMetaView {
    pub name: Seq<char>,
    pub description: Option<Seq<char>>,
    pub owner: Seq<char>,
    pub priority: Seq<char>,
    pub status: Seq<char>,
    pub created_at: Seq<char>,
    pub target: Option<Seq<char>>,
    pub goals: Seq<Seq<char>>,
    pub notes: Option<Seq<char>>,
    pub latest_seal: Option<Seq<char>>,
}

/// The view of an optional string.
pub open spec fn opt_view(o: Option<String>) -> Option<Seq<char>> {
    match o {
        Some(s) => Some(s@),
        None => None,
    }
}

impl View for StreamMeta {
    type V = StreamMetaView;

    open spec fn view(&self) -> StreamMetaView {
        StreamMetaView {
            name: self.name@,
            description: opt_view(self.description),
            owner: self.owner@,
            priority: self.priority@,
            status: self.status@,
            created_at: self.created_at@,
            target: opt_view(self.target),
            goals: string_views(self.goals@),
            notes: opt_view(self.notes),
            latest_seal: opt_view(self.latest_seal),
        }
    }
}

/// A copy of an optional string.
pub fn copy_opt(o: &Option<String>) -> (r: Option<String>)
    ensures
        opt_view(r) == opt_view(*o),
{
    match o {
        Some(s) => Some(s.clone()),
        None => None,
    }
}

/// The priority a new stream gets by default: `High` for `main`.
pub open spec fn default_priority_spec(name: Seq<char>) -> Seq<char> {
    if name == "main"@ {
        "High"@
    } else {
        "Normal"@
    }
}

/// The priority a new stream gets by default.
pub fn default_priority(name: &str) -> (r: &'static str)
    ensures
        r@ == default_priority_spec(name@),
{
    if str_eq(name, "main") {
        "High"
    } else {
        "Normal"
    }
}

/// The metadata a stream is assumed to have when none is stored.
pub open spec fn default_meta_spec(name: Seq<char>, owner: Seq<char>, created_at: Seq<char>)
    -> StreamMetaView {
    StreamMetaView {
        name,
        description: Some("Standard workflow stream"@),
        owner,
        priority: default_priority_spec(name),
        status: "Active"@,
        created_at,
        target: Some("main"@),
        goals: seq![],
        notes: None,
        latest_seal: None,
    }
}

/// The metadata a stream is assumed to have when none is stored.
pub fn default_stream_meta(name: &str, owner: &str, created_at: &str) -> (r: StreamMeta)
    ensures
        r@ == default_meta_spec(name@, owner@, created_at@),
{
    let goals: Vec<String> = Vec::new();
    let r = StreamMeta {
        name: owned(name),
        description: Some(owned("Standard workflow stream")),
        owner: owned(owner),
        priority: owned(default_priority(name)),
        status: owned("Active"),
        created_at: owned(created_at),
        target: Some(owned("main")),
        goals,
        notes: None,
        latest_seal: None,
    };
    assert(string_views(r.goals@) =~= Seq::<Seq<char>>::empty());
    r
}

/// Metadata with every text empty and nothing set (`StreamMeta::default`).
pub fn empty_stream_meta() -> (r: StreamMeta)
    ensures
        r@ == (StreamMetaView {
            name: seq![],
            description: None,
            owner: seq![],
            priority: seq![],
            status: seq![],
            created_at: seq![],
            target: None,
            goals: seq![],
            notes: None,
            latest_seal: None,
        }),
{
    let goals: Vec<String> = Vec::new();
    let r = StreamMeta {
        name: String::new(),
        description: None,
        owner: String::new(),
        priority: String::new(),
        status: String::new(),
        created_at: String::new(),
        target: None,
        goals,
        notes: None,
        latest_seal: None,
    };
    assert(string_views(r.goals@) =~= Seq::<Seq<char>>::empty());
    r
}

/// The answer to a prompt: what was typed (trimmed), or the default.
pub open spec fn answer_or_spec(input: Seq<char>, default: Seq<char>) -> Seq<char> {
    if trim(input).len() > 0 {
        trim(input)
    } else {
        default
    }
}

/// The answer to a prompt with a default.
pub fn answer_or(input: &str, default: &str) -> (r: String)
    ensures
        r@ == answer_or_spec(input@, default@),
{
    let t = trimmed(input);
    if t.as_str().is_empty() {
        owned(default)
    } else {
        t
    }
}

/// The metadata of a newly created stream, branched from a stream whose
/// latest seal is `starting_seal`.
pub fn new_stream_meta(
    name: &str,
    description: &str,
    owner: &str,
    priority: &str,
    target: &str,
    created_at: &str,
    starting_seal: &Option<String>,
) -> (r: StreamMeta)
    ensures
        r@ == (StreamMetaView {
            name: name@,
            description: Some(description@),
            owner: owner@,
            priority: priority@,
            status: "Active"@,
            created_at: created_at@,
            target: Some(target@),
            goals: seq![],
            notes: None,
            latest_seal: opt_view(*starting_seal),
        }),
{
    let goals: Vec<String> = Vec::new();
    let r = StreamMeta {
        name: owned(name),
        description: Some(owned(description)),
        owner: owned(owner),
        priority: owned(priority),
        status: owned("Active"),
        created_at: owned(created_at),
        target: Some(owned(target)),
        goals,
        notes: None,
        latest_seal: copy_opt(starting_seal),
    };
    assert(string_views(r.goals@) =~= Seq::<Seq<char>>::empty());
    r
}

/// A field of a stream's metadata that `dam stream` edits.
#[derive(Clone, Copy, Debug, PartialEq, Eq, Structural)]
pub enum StreamField {
    Goal,
    Notes,
    Description,
    Target,
}

/// What an edit makes of the metadata: `clear` empties the field; otherwise
/// a text is appended as a goal or replaces the field; without a text
/// nothing changes.
pub open spec fn edited_spec(m: StreamMetaView, field: StreamField, clear: bool, text: Option<
    Seq<char>,
>) -> StreamMetaView {
    if clear {
        match field {
            StreamField::Goal => StreamMetaView { goals: seq![], ..m },
            StreamField::Notes => StreamMetaView { notes: None, ..m },
            StreamField::Description => StreamMetaView { description: None, ..m },
            StreamField::Target => StreamMetaView { target: None, ..m },
        }
    } else {
        match text {
            Some(t) => match field {
                StreamField::Goal => StreamMetaView { goals: m.goals.push(t), ..m },
                StreamField::Notes => StreamMetaView { notes: Some(t), ..m },
                StreamField::Description => StreamMetaView { description: Some(t), ..m },
                StreamField::Target => StreamMetaView { target: Some(t), ..m },
            },
            None => m,
        }
    }
}

/// Edits a field of a stream's metadata.
pub fn edit_stream_meta(meta: &mut StreamMeta, field: StreamField, clear: bool, text: Option<String>)
    ensures
        final(meta)@ == edited_spec(old(meta)@, field, clear, opt_view(text)),
{
    if clear {
        match field {
            StreamField::Goal => {
                meta.goals.clear();
                assert(string_views(meta.goals@) =~= Seq::<Seq<char>>::empty());
            },
            StreamField::Notes => {
                meta.notes = None;
            },
            StreamField::Description => {
                meta.description = None;
            },
            StreamField::Target => {
                meta.target = None;
            },
        }
    } else {
        match text {
            Some(t) => match field {
                StreamField::Goal => {
                    let ghost before = meta.goals@;
                    meta.goals.push(t);
                    assert(string_views(meta.goals@) =~= string_views(before).push(t@));
                },
                StreamField::Notes => {
                    meta.notes = Some(t);
                },
                StreamField::Description => {
                    meta.description = Some(t);
                },
                StreamField::Target => {
                    meta.target = Some(t);
                },
            },
            None => {},
        }
    }
}

/// The stream named by the content of `.dam/CURRENT` (trimmed), or `main`
/// when the file could not be read.
pub open spec fn current_stream_spec(current_file: Option<Seq<char>>) -> Seq<char> {
    match current_file {
        Some(c) => trim(c),
        None => "main"@,
    }
}

/// The active stream, from the content of `.dam/CURRENT` if it was read.
pub fn current_stream(current_file: Option<&str>) -> (r: String)
    ensures
        r@ == current_stream_spec(match current_file {
            Some(c) => Some(c@),
            None => None,
        }),
{
    match current_file {
        Some(c) => trimmed(c),
        None => owned("main"),
    }
}

/// The metadata of a stream imported from a Git branch, kept from the
/// existing metadata except for what the import sets.
pub open spec fn imported_branch_meta_spec(
    existing: StreamMetaView,
    stream: Seq<char>,
    owner: Seq<char>,
    created_at: Seq<char>,
) -> StreamMetaView {
    StreamMetaView {
        name: stream,
        target: Some("main"@),
        description: Some("Imported Git branch '"@ + stream + "' as DAM stream"@),
        status: "Active"@,
        owner,
        created_at,
        ..existing
    }
}

/// Updates the metadata of a stream imported from a Git branch.
pub fn imported_branch_meta(existing: StreamMeta, stream: &str, owner: &str, created_at: &str)
    -> (r: StreamMeta)
    ensures
        r@ == imported_branch_meta_spec(existing@, stream@, owner@, created_at@),
{
    let mut m = existing;
    m.name = owned(stream);
    m.target = Some(owned("main"));
    let mut d = String::from_str("Imported Git branch '");
    d.append(stream);
    d.append("' as DAM stream");
    m.description = Some(d);
    m.status = owned("Active");
    m.owner = owned(owner);
    m.created_at = owned(created_at);
    m
}

/// The metadata a converted repository branch gets, pointing at the seal
/// the conversion made.
pub fn converted_branch_meta(stream: &str, owner: &str, created_at: &str, seal_id: &str) -> (r:
    StreamMeta)
    ensures
        r@ == (StreamMetaView {
            name: stream@,
            description: Some("Imported Git branch '"@ + stream@ + "' as DAM stream"@),
            owner: owner@,
            priority: default_priority_spec(stream@),
            status: "Active"@,
            created_at: created_at@,
            target: Some("main"@),
            goals: seq![],
            notes: None,
            latest_seal: Some(seal_id@),
        }),
{
    let mut d = String::from_str("Imported Git branch '");
    d.append(stream);
    d.append("' as DAM stream");
    let goals: Vec<String> = Vec::new();
    let r = StreamMeta {
        name: owned(stream),
        description: Some(d),
        owner: owned(owner),
        priority: owned(default_priority(stream)),
        status: owned("Active"),
        created_at: owned(created_at),
        target: Some(owned("main")),
        goals,
        notes: None,
        latest_seal: Some(owned(seal_id)),
    };
    assert(string_views(r.goals@) =~= Seq::<Seq<char>>::empty());
    r
}

/// The line `dam stream` lists a stream with.
pub open spec fn stream_list_line_spec(name: Seq<char>, status: Seq<char>, priority: Seq<char>, active: bool)
    -> Seq<char> {
    if active {
        "  * "@ + name + " (active) - ["@ + status + " Priority: "@ + priority + "]"@
    } else {
        "    "@ + name + " - ["@ + status + " Priority: "@ + priority + "]"@
    }
}

/// The line `dam stream` lists a stream with; `current` is the content of
/// `.dam/CURRENT`.
pub fn stream_list_line(name: &str, status: &str, priority: &str, current: &str) -> (r: String)
    ensures
        r@ == stream_list_line_spec(name@, status@, priority@, name@ == trim(current@)),
{
    let t = trimmed(current);
    let active = str_eq(name, t.as_str());
    let mut s = String::from_str(if active {
        "  * "
    } else {
        "    "
    });
    s.append(name);
    s.append(if active {
        " (active) - ["
    } else {
        " - ["
    });
    s.append(status);
    s.append(" Priority: ");
    s.append(priority);
    s.append("]");
    s
}

} // verus!

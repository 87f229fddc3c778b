//! Releases: named, distributable versions kept under `.dam/releases`.
use vstd::prelude::*;
use vstd::string::StringExecFns;
use crate::order::{is_text_less, text_less};
use crate::stable::{lemma_newest_index_is_newest, newest_index, opt_str_view};
use crate::stream::{copy_opt, opt_view};
use crate::text::{
    chars_of, comma_list, comma_list_of, has_suffix, lower_text, owned, str_eq, string_from_range,
    string_views, to_lowercase,
};

verus! {

/// A release record.
pub struct Release {
    pub name: String,
    pub version: String,
    pub description: Option<String>,
    pub tags: Vec<String>,
    pub created_at: String,
    pub seal_id: String,
    pub stream: String,
}

/// What a release record says.
pub struct ReleaseView {
    pub name: Seq<char>,
    pub version: Seq<char>,
    pub description: Option<Seq<char>>,
    pub tags: Seq<Seq<char>>,
    pub created_at: Seq<char>,
    pub seal_id: Seq<char>,
    pub stream: Seq<char>,
}

impl View for Release {
    type V = ReleaseView;

    open spec fn view(&self) -> ReleaseView {
        ReleaseView {
            name: self.name@,
            version: self.version@,
            description: opt_view(self.description),
            tags: string_views(self.tags@),
            created_at: self.created_at@,
            seal_id: self.seal_id@,
            stream: self.stream@,
        }
    }
}

/// The directory releases are kept in.
pub fn releases_dir() -> (r: &'static str)
    ensures
        r@ == ".dam/releases"@,
{
    ".dam/releases"
}

/// The file that names the release marked as the project's latest.
pub fn latest_release_pointer_path() -> (r: &'static str)
    ensures
        r@ == ".dam/latest_release.txt"@,
{
    ".dam/latest_release.txt"
}

/// The names of releases, in order.
pub open spec fn release_names_of(rs: Seq<Release>) -> Seq<Seq<char>> {
    rs.map_values(|r: Release| r.name@)
}

/// The creation times of releases, in order.
pub open spec fn release_created_of(rs: Seq<Release>) -> Seq<Seq<char>> {
    rs.map_values(|r: Release| r.created_at@)
}

/// The release `dam releases inspect --latest` shows: the one the latest
/// pointer names when it exists, else the one created last (the first of
/// those created at the latest time); none when there is no release.
pub open spec fn latest_release_spec(rs: Seq<Release>, pointer: Option<Seq<char>>) -> Option<
    Seq<char>,
> {
    if rs.len() == 0 {
        None
    } else if pointer is Some && release_names_of(rs).contains(pointer->0) {
        pointer
    } else {
        Some(rs[newest_index(release_created_of(rs))].name@)
    }
}

/// Chooses the release to inspect as the latest; `pointer` is the name the
/// latest pointer file holds, if it holds one.
pub fn latest_release(rs: &Vec<Release>, pointer: Option<&str>) -> (r: Option<String>)
    ensures
        match r {
            Some(s) => latest_release_spec(rs@, opt_str_view(pointer)) == Some(s@),
            None => latest_release_spec(rs@, opt_str_view(pointer)) is None,
        },
{
    if rs.len() == 0 {
        return None;
    }
    let ghost names = release_names_of(rs@);
    match pointer {
        Some(p) => {
            let mut j: usize = 0;
            while j < rs.len()
                invariant
                    0 <= j <= rs@.len(),
                    names == release_names_of(rs@),
                    rs@.len() > 0,
                    pointer == Some(p),
                    forall|k: int| 0 <= k < j ==> rs@[k].name@ != p@,
                decreases rs@.len() - j,
            {
                if str_eq(rs[j].name.as_str(), p) {
                    assert(names[j as int] == p@);
                    return Some(owned(p));
                }
                j = j + 1;
            }
            assert(!names.contains(p@)) by {
                if names.contains(p@) {
                    let k = choose|k: int| 0 <= k < names.len() && names[k] == p@;
                    assert(rs@[k].name@ == p@);
                }
            }
        },
        None => {},
    }
    let ghost ks = release_created_of(rs@);
    let mut best: usize = 0;
    let mut k: usize = 1;
    assert(ks.take(1).drop_last() =~= Seq::<Seq<char>>::empty());
    while k < rs.len()
        invariant
            1 <= k <= rs@.len(),
            ks == release_created_of(rs@),
            best == newest_index(ks.take(k as int)),
            0 <= best < k,
        decreases rs@.len() - k,
    {
        let ghost cur = ks.take(k + 1);
        assert(cur.drop_last() =~= ks.take(k as int));
        assert(cur[best as int] == ks[best as int]);
        assert(cur.last() == ks[k as int]);
        if is_text_less(rs[best].created_at.as_str(), rs[k].created_at.as_str()) {
            best = k;
        }
        k = k + 1;
    }
    assert(ks.take(rs@.len() as int) =~= ks);
    Some(rs[best].name.clone())
}

/// What `dam releases inspect --latest` shows: nothing when there is no
/// release; the release the pointer names when there is one of that name;
/// otherwise a release that no other release was created after.
pub proof fn law_latest_release_is_newest(rs: Seq<Release>, pointer: Option<Seq<char>>)
    ensures
        rs.len() == 0 ==> latest_release_spec(rs, pointer) is None,
        (pointer matches Some(p) && exists|j: int| 0 <= j < rs.len() && (#[trigger] rs[j]).name@ == p)
            ==> latest_release_spec(rs, pointer) == pointer,
        rs.len() > 0 && !(pointer matches Some(p) && exists|j: int|
            0 <= j < rs.len() && (#[trigger] rs[j]).name@ == p) ==> exists|k: int|
            0 <= k < rs.len() && latest_release_spec(rs, pointer) == Some(rs[k].name@) && forall|
                j: int,
            | 0 <= j < rs.len() ==> !text_less(rs[k].created_at@, (#[trigger] rs[j]).created_at@),
{
    let names = release_names_of(rs);
    if pointer matches Some(p) && exists|j: int| 0 <= j < rs.len() && (#[trigger] rs[j]).name@ == p {
        let p = pointer->0;
        let j = choose|j: int| 0 <= j < rs.len() && (#[trigger] rs[j]).name@ == p;
        assert(names[j] == p);
    }
    if rs.len() > 0 && !(pointer matches Some(p) && exists|j: int|
        0 <= j < rs.len() && (#[trigger] rs[j]).name@ == p) {
        if pointer is Some && names.contains(pointer->0) {
            let m = choose|m: int| 0 <= m < names.len() && names[m] == pointer->0;
            assert(rs[m].name@ == pointer->0);
        }
        let ks = release_created_of(rs);
        lemma_newest_index_is_newest(ks);
        let b = newest_index(ks);
        assert forall|j: int| 0 <= j < rs.len() implies !text_less(
            rs[b].created_at@,
            (#[trigger] rs[j]).created_at@,
        ) by {
            assert(ks[j] == rs[j].created_at@);
            assert(ks[b] == rs[b].created_at@);
        }
    }
}

/// The file a release is stored in.
pub open spec fn release_path_spec(name: Seq<char>) -> Seq<char> {
    ".dam/releases/"@ + name + ".json"@
}

/// The file a release is stored in.
pub fn release_path(name: &str) -> (r: String)
    ensures
        r@ == release_path_spec(name@),
{
    let mut s = String::from_str(".dam/releases/");
    s.append(name);
    s.append(".json");
    s
}

/// The tags given as a comma separated list.
pub open spec fn parse_tags_spec(tags: Option<Seq<char>>) -> Seq<Seq<char>> {
    match tags {
        Some(t) => comma_list(t),
        None => seq![],
    }
}

/// The tags of `--tags a,b`: trimmed, empty ones dropped.
pub fn parse_tags(tags: Option<&str>) -> (r: Vec<String>)
    ensures
        string_views(r@) == parse_tags_spec(match tags {
            Some(t) => Some(t@),
            None => None,
        }),
{
    match tags {
        Some(t) => comma_list_of(t),
        None => {
            let r: Vec<String> = Vec::new();
            assert(string_views(r@) =~= Seq::<Seq<char>>::empty());
            r
        },
    }
}

/// A new release of the latest seal of `stream`.
pub fn new_release(
    name: &str,
    description: Option<String>,
    tags: Option<&str>,
    created_at: &str,
    seal_id: &str,
    stream: &str,
) -> (r: Release)
    ensures
        r@ == (ReleaseView {
            name: name@,
            version: name@,
            description: opt_view(description),
            tags: parse_tags_spec(match tags {
                Some(t) => Some(t@),
                None => None,
            }),
            created_at: created_at@,
            seal_id: seal_id@,
            stream: stream@,
        }),
{
    Release {
        name: owned(name),
        version: owned(name),
        description,
        tags: parse_tags(tags),
        created_at: owned(created_at),
        seal_id: owned(seal_id),
        stream: owned(stream),
    }
}

/// The release a Git tag becomes on import.
pub open spec fn release_for_git_tag_spec(
    tag: Seq<char>,
    created_at: Seq<char>,
    default_seal: Option<Seq<char>>,
    stream: Seq<char>,
) -> ReleaseView {
    ReleaseView {
        name: tag,
        version: tag,
        description: Some("Imported Git tag '"@ + tag + "' from repository import"@),
        tags: seq!["git-tag"@],
        created_at,
        seal_id: match default_seal {
            Some(s) => s,
            None => "seal_import_tag"@,
        },
        stream,
    }
}

/// The release a Git tag becomes on import.
pub fn release_for_git_tag(
    tag: &str,
    created_at: &str,
    default_seal: &Option<String>,
    stream: &str,
) -> (r: Release)
    ensures
        r@ == release_for_git_tag_spec(tag@, created_at@, opt_view(*default_seal), stream@),
{
    let mut d = String::from_str("Imported Git tag '");
    d.append(tag);
    d.append("' from repository import");
    let mut tags: Vec<String> = Vec::new();
    tags.push(owned("git-tag"));
    assert(string_views(tags@) =~= seq!["git-tag"@]);
    let seal = match copy_opt(default_seal) {
        Some(s) => s,
        None => owned("seal_import_tag"),
    };
    Release {
        name: owned(tag),
        version: owned(tag),
        description: Some(d),
        tags,
        created_at: owned(created_at),
        seal_id: seal,
        stream: owned(stream),
    }
}

/// The release a file in `.dam/releases` holds: its name without `.json`.
pub open spec fn release_file_name_spec(file_name: Seq<char>) -> Option<Seq<char>> {
    if ".json"@.is_suffix_of(file_name) {
        Some(file_name.take(file_name.len() - 5))
    } else {
        None
    }
}

/// The release a file name stands for, if it is a `.json` file.
pub fn release_file_name(file_name: &str) -> (r: Option<String>)
    ensures
        match r {
            Some(s) => release_file_name_spec(file_name@) == Some(s@),
            None => release_file_name_spec(file_name@) is None,
        },
{
    let v = chars_of(file_name);
    let suffix = chars_of(".json");
    proof {
        reveal_strlit(".json");
    }
    if has_suffix(&v, &suffix) {
        Some(string_from_range(&v, 0, v.len() - 5))
    } else {
        None
    }
}

/// What release sync does for a release whose stream is `behind` commits
/// behind the remote.
#[derive(Clone, Copy, Debug, PartialEq, Eq, Structural)]
pub struct ReleaseSyncPlan {
    /// Pull the stream's remote changes first.
    pub pull_first: bool,
    /// Then push the release (release sync has no pull of its own).
    pub push: bool,
}

pub open spec fn release_sync_plan_spec(action: Option<Seq<char>>, behind: nat) -> ReleaseSyncPlan {
    ReleaseSyncPlan {
        pull_first: behind > 0 && (action is None || action == Some("pull"@)),
        push: action != Some("pull"@),
    }
}

/// What release sync does, given `--action` and how far behind the stream is.
pub fn release_sync_plan(action: Option<&str>, behind: usize) -> (r: ReleaseSyncPlan)
    ensures
        r == release_sync_plan_spec(
            match action {
                Some(a) => Some(a@),
                None => None,
            },
            behind as nat,
        ),
{
    let is_pull = match action {
        Some(a) => str_eq(a, "pull"),
        None => false,
    };
    ReleaseSyncPlan { pull_first: behind > 0 && (action.is_none() || is_pull), push: !is_pull }
}

/// The report of syncing release `name` (seal `seal_id`) to `platform`,
/// whose lower-cased name is `lower`.
pub open spec fn sync_report_spec(name: Seq<char>, seal_id: Seq<char>, platform: Seq<char>, lower: Seq<
    char,
>) -> Seq<char> {
    if lower == "github"@ {
        "Release '"@ + name + "' would be pushed to GitHub as a release tag with seal '"@ + seal_id
            + "'"@
    } else {
        "Release '"@ + name + "' synced to "@ + platform + " (seal: "@ + seal_id + ")"@
    }
}

/// The report of syncing a release, given the lower-cased platform name.
pub fn sync_report(release: &Release, platform: &str, lower: &str) -> (r: String)
    ensures
        r@ == sync_report_spec(release.name@, release.seal_id@, platform@, lower@),
{
    if str_eq(lower, "github") {
        let mut s = String::from_str("Release '");
        s.append(release.name.as_str());
        s.append("' would be pushed to GitHub as a release tag with seal '");
        s.append(release.seal_id.as_str());
        s.append("'");
        s
    } else {
        let mut s = String::from_str("Release '");
        s.append(release.name.as_str());
        s.append("' synced to ");
        s.append(platform);
        s.append(" (seal: ");
        s.append(release.seal_id.as_str());
        s.append(")");
        s
    }
}

/// Syncs a release to a platform (the platform's name matched without
/// regard to case); the result reports what was done.
pub fn sync_release_to_platform(release: &Release, platform: &str) -> (r: Result<String, String>)
    ensures
        r is Ok,
        r->Ok_0@ == sync_report_spec(
            release.name@,
            release.seal_id@,
            platform@,
            lower_text(platform@),
        ),
{
    let lower = to_lowercase(platform);
    Ok(sync_report(release, platform, lower.as_str()))
}

} // verus!

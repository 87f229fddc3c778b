//! Restoring a seal into the workspace: the hash cache that spares
//! rehashing unchanged files, the files whose local changes a restore would
//! overwrite, the latest seal of the whole reservoir, and the answers that
//! guard a restore or a switch of stream.
use vstd::prelude::*;
use crate::settings::{setting_value, setting_value_unreadable, get_toml_val};
use crate::text::{
    comma_list, comma_list_of, contains_string, lowered_answer, lower_answer, owned, str_eq,
    string_views, trim, trimmed,
};

verus! {

// ---------------------------------------------------------------------------
// The hash cache
// ---------------------------------------------------------------------------

/// What the cache knows of a file: its hash, and the modification time and
/// size it had when hashed.
pub struct HashCacheEntry {
    pub hash: String,
    pub mtime: i64,
    pub size: u64,
}

/// The cache of file hashes, by path.
pub struct HashCache {
    pub entries: Vec<(String, HashCacheEntry)>,
}

/// The entry for `key`: the first one under that key.
pub open spec fn lookup(s: Seq<(String, HashCacheEntry)>, key: Seq<char>) -> Option<HashCacheEntry>
    decreases s.len(),
{
    if s.len() == 0 {
        None
    } else if s[0].0@ == key {
        Some(s[0].1)
    } else {
        lookup(s.drop_first(), key)
    }
}

proof fn lemma_lookup_skip(s: Seq<(String, HashCacheEntry)>, key: Seq<char>, i: int)
    requires
        0 <= i <= s.len(),
        forall|j: int| 0 <= j < i ==> s[j].0@ != key,
    ensures
        lookup(s, key) == lookup(s.skip(i), key),
    decreases i,
{
    if i > 0 {
        assert(s.drop_first().skip(i - 1) =~= s.skip(i));
        lemma_lookup_skip(s.drop_first(), key, i - 1);
    } else {
        assert(s.skip(0) =~= s);
    }
}

/// The entries after recording `e` under `key`: the first entry under
/// `key` takes the new value, or the entry goes last when there is none.
pub open spec fn recorded(s: Seq<(String, HashCacheEntry)>, key: String, e: HashCacheEntry) -> Seq<
    (String, HashCacheEntry),
>
    decreases s.len(),
{
    if s.len() == 0 {
        seq![(key, e)]
    } else if s[0].0@ == key@ {
        s.update(0, (s[0].0, e))
    } else {
        seq![s[0]] + recorded(s.drop_first(), key, e)
    }
}

proof fn lemma_recorded_at(s: Seq<(String, HashCacheEntry)>, key: String, e: HashCacheEntry, i: int)
    requires
        0 <= i < s.len(),
        s[i].0@ == key@,
        forall|j: int| 0 <= j < i ==> s[j].0@ != key@,
    ensures
        recorded(s, key, e) == s.update(i, (s[i].0, e)),
    decreases i,
{
    if i > 0 {
        assert forall|j: int| 0 <= j < i - 1 implies (#[trigger] s.drop_first()[j]).0@ != key@ by {
            assert(s.drop_first()[j] == s[j + 1]);
        }
        lemma_recorded_at(s.drop_first(), key, e, i - 1);
        assert(seq![s[0]] + s.drop_first().update(i - 1, (s[i].0, e)) =~= s.update(i, (s[i].0, e)));
    }
}

proof fn lemma_recorded_new(s: Seq<(String, HashCacheEntry)>, key: String, e: HashCacheEntry)
    requires
        forall|j: int| 0 <= j < s.len() ==> s[j].0@ != key@,
    ensures
        recorded(s, key, e) == s.push((key, e)),
    decreases s.len(),
{
    if s.len() > 0 {
        assert forall|j: int| 0 <= j < s.drop_first().len() implies (#[trigger] s.drop_first()[j]).0@
            != key@ by {
            assert(s.drop_first()[j] == s[j + 1]);
        }
        lemma_recorded_new(s.drop_first(), key, e);
        assert(seq![s[0]] + s.drop_first().push((key, e)) =~= s.push((key, e)));
    } else {
        assert(seq![(key, e)] =~= s.push((key, e)));
    }
}

/// A hash recorded for a file is what the cache gives back for it, and
/// recording it leaves what the cache gives back for every other file.
pub proof fn law_recorded_hash_is_read_back(
    s: Seq<(String, HashCacheEntry)>,
    key: String,
    e: HashCacheEntry,
    other: Seq<char>,
)
    ensures
        lookup(recorded(s, key, e), key@) == Some(e),
        other != key@ ==> lookup(recorded(s, key, e), other) == lookup(s, other),
    decreases s.len(),
{
    if s.len() > 0 && s[0].0@ != key@ {
        law_recorded_hash_is_read_back(s.drop_first(), key, e, other);
        let r = seq![s[0]] + recorded(s.drop_first(), key, e);
        assert(r.drop_first() =~= recorded(s.drop_first(), key, e));
        assert(r[0] == s[0]);
        assert(recorded(s, key, e) == r);
        if other != key@ {
            if s[0].0@ == other {
                assert(lookup(r, other) == Some(s[0].1));
            } else {
                assert(lookup(r, other) == lookup(r.drop_first(), other));
                assert(lookup(s, other) == lookup(s.drop_first(), other));
            }
        }
    } else if s.len() > 0 {
        let r = s.update(0, (s[0].0, e));
        assert(r.drop_first() =~= s.drop_first());
        assert(r[0].0 == s[0].0);
        assert(recorded(s, key, e) == r);
        if other != key@ {
            assert(lookup(r, other) == lookup(r.drop_first(), other));
            assert(lookup(s, other) == lookup(s.drop_first(), other));
        }
    } else {
        let r = seq![(key, e)];
        assert(r.drop_first() =~= Seq::<(String, HashCacheEntry)>::empty());
        assert(recorded(s, key, e) == r);
        if other != key@ {
            assert(lookup(r, other) == lookup(r.drop_first(), other));
        }
    }
}

impl HashCache {
    /// An empty cache.
    pub fn new() -> (c: HashCache)
        ensures
            forall|k: Seq<char>| lookup(c.entries@, k) is None,
    {
        HashCache { entries: Vec::new() }
    }

    fn position(&self, key: &str) -> (r: Option<usize>)
        ensures
            match r {
                Some(i) => i < self.entries@.len() && self.entries@[i as int].0@ == key@ && forall|j: int|
                    0 <= j < i ==> self.entries@[j].0@ != key@,
                None => forall|j: int| 0 <= j < self.entries@.len() ==> self.entries@[j].0@ != key@,
            },
    {
        let mut i: usize = 0;
        while i < self.entries.len()
            invariant
                0 <= i <= self.entries@.len(),
                forall|j: int| 0 <= j < i ==> self.entries@[j].0@ != key@,
            decreases self.entries@.len() - i,
        {
            if str_eq(self.entries[i].0.as_str(), key) {
                return Some(i);
            }
            i = i + 1;
        }
        None
    }

    /// The hash the cache holds for `key`, when the file still has the
    /// modification time and size it had when hashed.
    pub fn cached_hash(&self, key: &str, mtime: i64, size: u64) -> (r: Option<String>)
        ensures
            match r {
                Some(h) => lookup(self.entries@, key@) matches Some(e) && e.mtime == mtime && e.size
                    == size && h@ == e.hash@,
                None => !(lookup(self.entries@, key@) matches Some(e) && e.mtime == mtime && e.size
                    == size),
            },
    {
        match self.position(key) {
            Some(i) => {
                proof {
                    lemma_lookup_skip(self.entries@, key@, i as int);
                }
                let e = &self.entries[i].1;
                if e.mtime == mtime && e.size == size {
                    Some(e.hash.clone())
                } else {
                    None
                }
            },
            None => {
                proof {
                    lemma_lookup_skip(self.entries@, key@, self.entries@.len() as int);
                }
                None
            },
        }
    }

    /// Records the hash of the file `key` and the modification time and
    /// size it was hashed at.
    pub fn record(&mut self, key: String, hash: String, mtime: i64, size: u64)
        ensures
            final(self).entries@ == recorded(
                old(self).entries@,
                key,
                HashCacheEntry { hash, mtime, size },
            ),
    {
        let entry = HashCacheEntry { hash, mtime, size };
        let ghost s = self.entries@;
        match self.position(key.as_str()) {
            Some(i) => {
                let (k, _previous) = self.entries.remove(i);
                self.entries.insert(i, (k, entry));
                proof {
                    assert(self.entries@ =~= s.update(i as int, (s[i as int].0, entry)));
                    lemma_recorded_at(s, key, entry, i as int);
                }
            },
            None => {
                proof {
                    lemma_recorded_new(s, key, entry);
                }
                self.entries.push((key, entry));
            },
        }
    }
}

// ---------------------------------------------------------------------------
// The overwrite check
// ---------------------------------------------------------------------------

/// A file or directory a seal records.
pub struct SealFile {
    pub path: String,
    pub hash: String,
    pub is_dir: bool,
}

/// A seal as its metadata file holds it.
pub struct Seal {
    pub id: String,
    pub message: String,
    pub timestamp: String,
    pub files: Vec<SealFile>,
}

/// The overwrite check is off when `disable_overwrite_check` is `true`.
pub open spec fn overwrite_check_disabled_spec(config: Seq<char>) -> bool {
    setting_value(config, "disable_overwrite_check"@) == Some("true"@)
}

/// Whether the config turns the overwrite check off.
pub fn overwrite_check_disabled(config: &str) -> (r: bool)
    requires
        !setting_value_unreadable(config@, "disable_overwrite_check"@),
    ensures
        r == overwrite_check_disabled_spec(config@),
{
    match get_toml_val(config, "disable_overwrite_check") {
        Some(v) => str_eq(v.as_str(), "true"),
        None => false,
    }
}

/// The paths the overwrite check skips: `overwrite_check_exclude` as a
/// comma separated list.
pub open spec fn overwrite_exclude_spec(config: Seq<char>) -> Seq<Seq<char>> {
    match setting_value(config, "overwrite_check_exclude"@) {
        Some(v) => comma_list(v),
        None => Seq::empty(),
    }
}

/// The paths the config exempts from the overwrite check.
pub fn overwrite_check_exclude(config: &str) -> (r: Vec<String>)
    requires
        !setting_value_unreadable(config@, "overwrite_check_exclude"@),
    ensures
        string_views(r@) == overwrite_exclude_spec(config@),
{
    match get_toml_val(config, "overwrite_check_exclude") {
        Some(v) => comma_list_of(v.as_str()),
        None => Vec::new(),
    }
}

/// A sealed file the overwrite check looks at: not a directory, not
/// exempted.
pub open spec fn checked_spec(f: SealFile, excluded: Seq<Seq<char>>) -> bool {
    !f.is_dir && !excluded.contains(f.path@)
}

/// Whether the overwrite check looks at the sealed file `f`.
pub fn needs_overwrite_check(f: &SealFile, excluded: &Vec<String>) -> (r: bool)
    ensures
        r == checked_spec(*f, string_views(excluded@)),
{
    !f.is_dir && !contains_string(excluded, f.path.as_str())
}

/// A current hash that is known and not `sealed`.
pub open spec fn differs(current: Option<String>, sealed: Seq<char>) -> bool {
    current matches Some(h) && h@ != sealed
}

/// The paths whose workspace copy differs from the seal: the files
/// checked whose current hash (none when the file is missing or cannot be
/// read) is known and not the sealed one, in order.
pub open spec fn changed_spec(
    files: Seq<SealFile>,
    excluded: Seq<Seq<char>>,
    current: Seq<Option<String>>,
) -> Seq<Seq<char>>
    decreases files.len(),
{
    if files.len() == 0 || current.len() != files.len() {
        Seq::empty()
    } else {
        let rest = changed_spec(files.drop_last(), excluded, current.drop_last());
        let f = files.last();
        if checked_spec(f, excluded) && differs(current.last(), f.hash@) {
            rest.push(f.path@)
        } else {
            rest
        }
    }
}

/// A restore reports a path exactly when some sealed file at that path is
/// checked and its workspace copy has a known hash other than the sealed
/// one: unchanged, missing, exempted files and directories are never
/// reported.
pub proof fn law_reports_exactly_the_changed_files(
    files: Seq<SealFile>,
    excluded: Seq<Seq<char>>,
    current: Seq<Option<String>>,
    p: Seq<char>,
)
    requires
        current.len() == files.len(),
    ensures
        changed_spec(files, excluded, current).contains(p) <==> exists|i: int|
            0 <= i < files.len() && checked_spec(files[i], excluded) && differs(#[trigger] current[i], files[i].hash@)
                && files[i].path@ == p,
    decreases files.len(),
{
    if files.len() > 0 {
        let fd = files.drop_last();
        let cd = current.drop_last();
        law_reports_exactly_the_changed_files(fd, excluded, cd, p);
        let rest = changed_spec(fd, excluded, cd);
        let n = files.len() - 1;
        let hit = checked_spec(files[n], excluded) && differs(current[n], files[n].hash@);
        if changed_spec(files, excluded, current).contains(p) {
            if rest.contains(p) {
                let i = choose|i: int|
                    0 <= i < fd.len() && checked_spec(fd[i], excluded) && differs(#[trigger] cd[i], fd[i].hash@)
                        && fd[i].path@ == p;
                assert(fd[i] == files[i] && cd[i] == current[i]);
            } else {
                assert(hit);
                let k = choose|k: int| 0 <= k < rest.push(files[n].path@).len() && rest.push(files[n].path@)[k] == p;
                assert(files[n].path@ == p);
            }
        }
        if exists|i: int|
            0 <= i < files.len() && checked_spec(files[i], excluded) && differs(#[trigger] current[i], files[i].hash@)
                && files[i].path@ == p {
            let i = choose|i: int|
                0 <= i < files.len() && checked_spec(files[i], excluded) && differs(#[trigger] current[i], files[i].hash@)
                    && files[i].path@ == p;
            if i < n {
                assert(fd[i] == files[i] && cd[i] == current[i]);
                assert(rest.contains(p));
                if hit {
                    let k = choose|k: int| 0 <= k < rest.len() && rest[k] == p;
                    assert(rest.push(files[n].path@)[k] == p);
                }
            } else {
                assert(hit);
                assert(rest.push(files[n].path@)[rest.len() as int] == p);
            }
        }
    }
}

/// The sealed files with local changes a restore would overwrite.
pub fn changed_locally(files: &Vec<SealFile>, excluded: &Vec<String>, current: &Vec<Option<String>>) -> (r:
    Vec<String>)
    requires
        current@.len() == files@.len(),
    ensures
        string_views(r@) == changed_spec(files@, string_views(excluded@), current@),
{
    let ghost ex = string_views(excluded@);
    let mut out: Vec<String> = Vec::new();
    let mut i: usize = 0;
    while i < files.len()
        invariant
            0 <= i <= files@.len(),
            current@.len() == files@.len(),
            ex == string_views(excluded@),
            string_views(out@) == changed_spec(files@.take(i as int), ex, current@.take(i as int)),
        decreases files@.len() - i,
    {
        let f = &files[i];
        let changed = needs_overwrite_check(f, excluded) && match &current[i] {
            Some(h) => !str_eq(h.as_str(), f.hash.as_str()),
            None => false,
        };
        if changed {
            out.push(f.path.clone());
        }
        proof {
            assert(files@.take(i + 1).drop_last() =~= files@.take(i as int));
            assert(current@.take(i + 1).drop_last() =~= current@.take(i as int));
            assert(string_views(out@) =~= changed_spec(files@.take(i + 1), ex, current@.take(i + 1)));
        }
        i = i + 1;
    }
    assert(files@.take(i as int) =~= files@);
    assert(current@.take(i as int) =~= current@);
    out
}

/// What a restore does about the workspace files it would overwrite.
pub enum OverwriteCheck {
    /// Nothing stands in the way.
    Proceed,
    /// These files hold changes that the stream's latest seal does not
    /// have: the restore halts and changes nothing.
    Halt(Vec<String>),
    /// No change is unsealed, but these files differ from the seal being
    /// applied: the user is asked before they are overwritten.
    Confirm(Vec<String>),
}

/// A restore halts when the check is on and some file of the stream's
/// latest seal has a workspace copy whose hash is not the sealed one.
pub open spec fn halts_apply(
    disabled: bool,
    latest: Seq<SealFile>,
    latest_current: Seq<Option<String>>,
    excluded: Seq<Seq<char>>,
) -> bool {
    !disabled && changed_spec(latest, excluded, latest_current).len() > 0
}

/// Decides the overwrite check of a restore. `latest` holds the files of
/// the active stream's latest seal (none when it has none) and
/// `latest_current` the hashes of their workspace copies; `files` and
/// `current` the same for the seal being applied.
pub fn overwrite_check(
    disabled: bool,
    latest: &Vec<SealFile>,
    latest_current: &Vec<Option<String>>,
    files: &Vec<SealFile>,
    current: &Vec<Option<String>>,
    excluded: &Vec<String>,
) -> (r: OverwriteCheck)
    requires
        latest_current@.len() == latest@.len(),
        current@.len() == files@.len(),
    ensures
        (r is Halt) <==> halts_apply(disabled, latest@, latest_current@, string_views(excluded@)),
        match r {
            OverwriteCheck::Proceed => disabled || (changed_spec(
                latest@,
                string_views(excluded@),
                latest_current@,
            ).len() == 0 && changed_spec(files@, string_views(excluded@), current@).len() == 0),
            OverwriteCheck::Halt(v) => string_views(v@) == changed_spec(
                latest@,
                string_views(excluded@),
                latest_current@,
            ),
            OverwriteCheck::Confirm(v) => !disabled && changed_spec(
                latest@,
                string_views(excluded@),
                latest_current@,
            ).len() == 0 && string_views(v@) == changed_spec(
                files@,
                string_views(excluded@),
                current@,
            ) && v@.len() > 0,
        },
{
    if disabled {
        return OverwriteCheck::Proceed;
    }
    let unsealed = changed_locally(latest, excluded, latest_current);
    if unsealed.len() > 0 {
        return OverwriteCheck::Halt(unsealed);
    }
    let changed = changed_locally(files, excluded, current);
    if changed.len() > 0 {
        OverwriteCheck::Confirm(changed)
    } else {
        OverwriteCheck::Proceed
    }
}

/// Sealed files are protected: when the check is on and a checked file of
/// the stream's latest seal has a workspace copy whose hash differs from
/// the one the seal recorded, the restore halts.
pub proof fn law_unsealed_change_halts_apply(
    latest: Seq<SealFile>,
    latest_current: Seq<Option<String>>,
    excluded: Seq<Seq<char>>,
    i: int,
)
    requires
        latest_current.len() == latest.len(),
        0 <= i < latest.len(),
        checked_spec(latest[i], excluded),
        differs(latest_current[i], latest[i].hash@),
    ensures
        halts_apply(false, latest, latest_current, excluded),
{
    let p = latest[i].path@;
    law_reports_exactly_the_changed_files(latest, excluded, latest_current, p);
    assert(changed_spec(latest, excluded, latest_current).contains(p));
}

/// Whether the answer to "Overwrite these files anyway? (y/N)" goes on.
pub fn confirms_overwrite(answer: &str) -> (r: bool)
    ensures
        r == crate::text::answer_is_spec(answer@, "y"@),
{
    crate::text::answer_is(answer, "y")
}

/// Whether the answer to "auto-seal your current work ... (Y/n)" seals:
/// nothing, or `y`, trimmed and lower-cased.
pub fn wants_safety_seal(answer: &str) -> (r: bool)
    ensures
        r == (lowered_answer(answer@) == "y"@ || lowered_answer(answer@).len() == 0),
{
    let a = lower_answer(answer);
    str_eq(a.as_str(), "y") || a.as_str().is_empty()
}

/// The message of the safety seal: what was typed (trimmed), else
/// `Pre-apply snapshot for <seal>`.
pub fn safety_seal_message(typed: &str, seal_id: &str) -> (r: String)
    ensures
        r@ == (if trim(typed@).len() == 0 {
            "Pre-apply snapshot for "@ + seal_id@
        } else {
            trim(typed@)
        }),
{
    let t = trimmed(typed);
    if t.as_str().is_empty() {
        let mut m = owned("Pre-apply snapshot for ");
        m.append(seal_id);
        m
    } else {
        t
    }
}

/// Whether the answer to "Create temporary Continuity Snapshot ... (Y/n)"
/// takes the snapshot: anything but `n`, trimmed and lower-cased.
pub fn wants_flow_snapshot(answer: &str) -> (r: bool)
    ensures
        r == (lowered_answer(answer@) != "n"@),
{
    let a = lower_answer(answer);
    !str_eq(a.as_str(), "n")
}

/// The message of the snapshot taken before flowing from the active stream
/// (from `.dam/CURRENT`, `unknown` when unreadable) into `name`.
pub fn flow_snapshot_message(current_file: Option<&str>, name: &str) -> (r: String)
    ensures
        r@ == "Continuity auto-snapshot before flowing from "@ + trim(
            match current_file {
                Some(c) => c@,
                None => "unknown"@,
            },
        ) + " to "@ + name@,
{
    let active = match current_file {
        Some(c) => trimmed(c),
        None => trimmed("unknown"),
    };
    let mut m = owned("Continuity auto-snapshot before flowing from ");
    m.append(active.as_str());
    m.append(" to ");
    m.append(name);
    m
}

// ---------------------------------------------------------------------------
// The latest seal of the reservoir
// ---------------------------------------------------------------------------

/// The instant an RFC 3339 timestamp names, when it parses: seconds since
/// the epoch and nanoseconds within the second.
pub uninterp spec fn rfc3339_instant(s: Seq<char>) -> Option<(i64, u32)>;

/// `chrono::DateTime::parse_from_rfc3339`, read as the instant it names
/// (`timestamp()` and `timestamp_subsec_nanos()`). Which instant a text
/// names is known only as `rfc3339_instant`.
#[verifier::external_body]
fn parse_rfc3339(s: &str) -> (r: Option<(i64, u32)>)
    ensures
        r == rfc3339_instant(s@),
{
    match chrono::DateTime::parse_from_rfc3339(s) {
        Ok(t) => Some((t.timestamp(), t.timestamp_subsec_nanos())),
        Err(_) => None,
    }
}

/// A seal's id and timestamp, as its metadata file gives them.
pub struct SealStamp {
    pub id: String,
    pub timestamp: String,
}

/// `a` is a later instant than `b`.
pub open spec fn later(a: (i64, u32), b: (i64, u32)) -> bool {
    a.0 > b.0 || (a.0 == b.0 && a.1 > b.1)
}

/// Scanning seals in order for the latest: a seal whose timestamp is later
/// than the latest so far takes its place; one whose timestamp does not
/// parse counts only while no seal has been picked. The seal picked, and the
/// latest instant seen.
pub open spec fn latest_scan(seals: Seq<SealStamp>) -> (Option<Seq<char>>, Option<(i64, u32)>)
    decreases seals.len(),
{
    if seals.len() == 0 {
        (None, None)
    } else {
        let prev = latest_scan(seals.drop_last());
        let s = seals.last();
        match rfc3339_instant(s.timestamp@) {
            Some(t) => if prev.1 is None || later(t, prev.1->0) {
                (Some(s.id@), Some(t))
            } else {
                prev
            },
            None => if prev.0 is None {
                (Some(s.id@), prev.1)
            } else {
                prev
            },
        }
    }
}

/// `u` is a later instant than `t`: more seconds, or as many seconds and
/// more nanoseconds.
pub open spec fn instant_after(u: (i64, u32), t: (i64, u32)) -> bool {
    u.0 > t.0 || (u.0 == t.0 && u.1 > t.1)
}

proof fn lemma_latest_scan(seals: Seq<SealStamp>)
    ensures
        latest_scan(seals).0 is Some <==> seals.len() > 0,
        latest_scan(seals).1 is None <==> forall|j: int|
            0 <= j < seals.len() ==> rfc3339_instant((#[trigger] seals[j]).timestamp@) is None,
        latest_scan(seals).1 is None && seals.len() > 0 ==> latest_scan(seals).0 == Some(
            seals[0].id@,
        ),
        latest_scan(seals).1 matches Some(t) ==> exists|k: int|
            0 <= k < seals.len() && rfc3339_instant(seals[k].timestamp@) == Some(t)
                && latest_scan(seals).0 == Some(#[trigger] seals[k].id@),
        latest_scan(seals).1 matches Some(t) ==> forall|j: int|
            0 <= j < seals.len() ==> (rfc3339_instant((#[trigger] seals[j]).timestamp@) matches Some(
                u,
            ) ==> !instant_after(u, t)),
    decreases seals.len(),
{
    if seals.len() > 0 {
        let pre = seals.drop_last();
        let n = seals.len() - 1;
        lemma_latest_scan(pre);
        let prev = latest_scan(pre);
        assert forall|j: int| 0 <= j < n implies #[trigger] seals[j] == pre[j] by {}
        match rfc3339_instant(seals[n].timestamp@) {
            Some(t) => {
                if prev.1 is None || later(t, prev.1->0) {
                    assert(latest_scan(seals).0 == Some(seals[n].id@));
                    assert forall|j: int|
                        0 <= j < seals.len() && rfc3339_instant((#[trigger] seals[j]).timestamp@)
                            is Some implies !instant_after(
                        rfc3339_instant(seals[j].timestamp@)->0,
                        t,
                    ) by {
                        if j < n {
                            assert(seals[j] == pre[j]);
                        }
                    }
                } else {
                    let k = choose|k: int|
                        0 <= k < pre.len() && rfc3339_instant(pre[k].timestamp@) == prev.1
                            && prev.0 == Some(#[trigger] pre[k].id@);
                    assert(seals[k] == pre[k]);
                }
            },
            None => {
                if prev.1 is Some {
                    let t = prev.1->0;
                    let k = choose|k: int|
                        0 <= k < pre.len() && rfc3339_instant(pre[k].timestamp@) == Some(t)
                            && prev.0 == Some(#[trigger] pre[k].id@);
                    assert(seals[k] == pre[k]);
                }
                if n > 0 {
                    assert(seals[0] == pre[0]);
                }
            },
        }
    }
}

/// The latest seal of a reservoir is a seal of the list, and no seal
/// whose timestamp parses is later than it: when any timestamp parses, the
/// seal picked has a parsed timestamp that is a maximum over all of them;
/// when none parses, the first seal is picked; an empty list has none.
pub proof fn law_latest_global_seal_is_latest(seals: Seq<SealStamp>)
    ensures
        seals.len() == 0 ==> latest_scan(seals).0 is None,
        (forall|j: int|
            0 <= j < seals.len() ==> rfc3339_instant((#[trigger] seals[j]).timestamp@) is None)
            && seals.len() > 0 ==> latest_scan(seals).0 == Some(seals[0].id@),
        (exists|i: int|
            0 <= i < seals.len() && rfc3339_instant((#[trigger] seals[i]).timestamp@) is Some)
            ==> exists|k: int|
            0 <= k < seals.len() && latest_scan(seals).0 == Some(seals[k].id@) && rfc3339_instant(
                seals[k].timestamp@,
            ) is Some && forall|j: int|
                0 <= j < seals.len() ==> (rfc3339_instant((#[trigger] seals[j]).timestamp@) is Some
                    ==> !instant_after(
                    rfc3339_instant(seals[j].timestamp@)->0,
                    rfc3339_instant(seals[k].timestamp@)->0,
                )),
{
    lemma_latest_scan(seals);
    if exists|i: int| 0 <= i < seals.len() && rfc3339_instant((#[trigger] seals[i]).timestamp@) is Some {
        let i = choose|i: int| 0 <= i < seals.len() && rfc3339_instant((#[trigger] seals[i]).timestamp@) is Some;
        assert(latest_scan(seals).1 is Some);
        let t = latest_scan(seals).1->0;
        let k = choose|k: int|
            0 <= k < seals.len() && rfc3339_instant(seals[k].timestamp@) == Some(t)
                && latest_scan(seals).0 == Some(#[trigger] seals[k].id@);
        assert(rfc3339_instant(seals[k].timestamp@)->0 == t);
    }
}

/// The latest seal of the whole reservoir, scanning `seals` in order.
pub fn find_latest_global_seal(seals: &Vec<SealStamp>) -> (r: Option<String>)
    ensures
        crate::stream::opt_view(r) == latest_scan(seals@).0,
{
    let mut latest_id: Option<String> = None;
    let mut latest_ts: Option<(i64, u32)> = None;
    let mut i: usize = 0;
    while i < seals.len()
        invariant
            0 <= i <= seals@.len(),
            (crate::stream::opt_view(latest_id), latest_ts) == latest_scan(seals@.take(i as int)),
        decreases seals@.len() - i,
    {
        let s = &seals[i];
        match parse_rfc3339(s.timestamp.as_str()) {
            Some(t) => {
                let newer = match latest_ts {
                    Some(cur) => t.0 > cur.0 || (t.0 == cur.0 && t.1 > cur.1),
                    None => true,
                };
                if newer {
                    latest_ts = Some(t);
                    latest_id = Some(s.id.clone());
                }
            },
            None => {
                if latest_id.is_none() {
                    latest_id = Some(s.id.clone());
                }
            },
        }
        proof {
            assert(seals@.take(i + 1).drop_last() =~= seals@.take(i as int));
        }
        i = i + 1;
    }
    assert(seals@.take(i as int) =~= seals@);
    latest_id
}

} // verus!

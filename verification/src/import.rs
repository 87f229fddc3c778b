//! Importing projects: telling sources apart, naming clones, and turning a
//! Git repository's branches and tags into streams and releases.
use vstd::prelude::*;
use vstd::string::StringExecFns;
use crate::digest::{hex_lower, is_lower_hex, lemma_hex_lower_digits, sha256, sha256_spec, to_hex};
use crate::text::{
    after_last, chars_of, contains_string, contains_text, decimal, lines_of, lines_vec,
    lowered_answer, lower_answer, owned, push_decimal, split_on, split_ranges, range_views, str_contains,
    str_ends_with, str_eq, str_starts_with, string_from_range, string_views, trim,
    trim_end_matches, trim_end_matches_range, trim_start_matches, trim_start_matches_range,
    trimmed,
};

verus! {

// ---------------------------------------------------------------------------
// Sources
// ---------------------------------------------------------------------------

/// A source that names something on the network rather than a local path.
pub open spec fn is_remote_spec(s: Seq<char>) -> bool {
    "http://"@.is_prefix_of(s) || "https://"@.is_prefix_of(s) || "git://"@.is_prefix_of(s)
        || "git@"@.is_prefix_of(s) || contains_text(s, "github.com:"@) || contains_text(
        s,
        "gitlab.com:"@,
    ) || contains_text(s, "bitbucket.org:"@)
}

/// Whether an import source names something on the network.
pub fn is_remote_source(source: &str) -> (r: bool)
    ensures
        r == is_remote_spec(source@),
{
    str_starts_with(source, "http://") || str_starts_with(source, "https://") || str_starts_with(
        source,
        "git://",
    ) || str_starts_with(source, "git@") || str_contains(source, "github.com:") || str_contains(
        source,
        "gitlab.com:",
    ) || str_contains(source, "bitbucket.org:")
}

/// A source that names an archive DAM can import.
pub open spec fn is_archive_spec(s: Seq<char>) -> bool {
    ".dam"@.is_suffix_of(s) || ".seal"@.is_suffix_of(s) || ".zip"@.is_suffix_of(s)
}

/// How an import source is fetched.
#[derive(Clone, Copy, Debug, PartialEq, Eq, Structural)]
pub enum SourceKind {
    /// An archive to download, then import.
    RemoteArchive,
    /// A Git repository to clone.
    GitRepository,
    /// A local path.
    Local,
}

pub open spec fn source_kind_spec(s: Seq<char>) -> SourceKind {
    if is_remote_spec(s) {
        if is_archive_spec(s) {
            SourceKind::RemoteArchive
        } else {
            SourceKind::GitRepository
        }
    } else {
        SourceKind::Local
    }
}

/// How an import source is fetched: a source that starts with `http://`,
/// `https://`, `git://` or `git@`, or names `github.com:`, `gitlab.com:` or
/// `bitbucket.org:`, is remote; a remote one ending in `.dam`, `.seal` or
/// `.zip` is an archive to download and anything else remote is a Git
/// repository to clone; every other source is a local path.
pub proof fn law_source_kinds(s: Seq<char>)
    ensures
        ({
            let remote = "http://"@.is_prefix_of(s) || "https://"@.is_prefix_of(s)
                || "git://"@.is_prefix_of(s) || "git@"@.is_prefix_of(s) || contains_text(
                s,
                "github.com:"@,
            ) || contains_text(s, "gitlab.com:"@) || contains_text(s, "bitbucket.org:"@);
            let archive = ".dam"@.is_suffix_of(s) || ".seal"@.is_suffix_of(s) || ".zip"@.is_suffix_of(
                s,
            );
            &&& remote && archive ==> source_kind_spec(s) == SourceKind::RemoteArchive
            &&& remote && !archive ==> source_kind_spec(s) == SourceKind::GitRepository
            &&& !remote ==> source_kind_spec(s) == SourceKind::Local
        }),
{
}

/// How an import source is fetched.
pub fn source_kind(source: &str) -> (r: SourceKind)
    ensures
        r == source_kind_spec(source@),
{
    if is_remote_source(source) {
        if str_ends_with(source, ".dam") || str_ends_with(source, ".seal") || str_ends_with(
            source,
            ".zip",
        ) {
            SourceKind::RemoteArchive
        } else {
            SourceKind::GitRepository
        }
    } else {
        SourceKind::Local
    }
}

/// What a local import source is.
#[derive(Clone, Copy, Debug, PartialEq, Eq, Structural)]
pub enum LocalImport {
    /// The path does not exist.
    Missing,
    /// A `.dam` project archive.
    Project,
    /// A `.seal` bundle (gzipped tar).
    SealBundle,
    /// A `.zip` export.
    ZipArchive,
    /// A directory to convert or merge.
    Directory,
    /// Anything else.
    Unsupported,
}

pub open spec fn local_import_spec(s: Seq<char>, exists: bool, is_dir: bool) -> LocalImport {
    if !exists {
        LocalImport::Missing
    } else if ".dam"@.is_suffix_of(s) {
        LocalImport::Project
    } else if ".seal"@.is_suffix_of(s) {
        LocalImport::SealBundle
    } else if ".zip"@.is_suffix_of(s) {
        LocalImport::ZipArchive
    } else if is_dir {
        LocalImport::Directory
    } else {
        LocalImport::Unsupported
    }
}

/// What a local import source is, given whether the path exists and is a
/// directory.
pub fn local_import(source: &str, exists: bool, is_dir: bool) -> (r: LocalImport)
    ensures
        r == local_import_spec(source@, exists, is_dir),
{
    if !exists {
        LocalImport::Missing
    } else if str_ends_with(source, ".dam") {
        LocalImport::Project
    } else if str_ends_with(source, ".seal") {
        LocalImport::SealBundle
    } else if str_ends_with(source, ".zip") {
        LocalImport::ZipArchive
    } else if is_dir {
        LocalImport::Directory
    } else {
        LocalImport::Unsupported
    }
}

/// The last segment of a URL after trailing slashes are dropped: after the
/// last `/`, else after the last `:`.
pub open spec fn repo_segment(url: Seq<char>) -> Seq<char> {
    let t = trim_end_matches(url, "/"@);
    if contains_text(t, "/"@) {
        after_last(t, '/')
    } else if contains_text(t, ":"@) {
        after_last(t, ':')
    } else {
        t
    }
}

/// The directory name a cloned repository gets: the URL's last segment
/// without `.git`, or `imported-repo`.
pub open spec fn repo_name_spec(url: Seq<char>) -> Seq<char> {
    let n = trim_end_matches(repo_segment(url), ".git"@);
    if n.len() == 0 {
        "imported-repo"@
    } else {
        n
    }
}

pub(crate) fn last_piece(v: &Vec<char>, lo: usize, hi: usize, c: char) -> (r: usize)
    requires
        lo <= hi <= v@.len(),
    ensures
        lo <= r <= hi,
        v@.subrange(r as int, hi as int) == after_last(v@.subrange(lo as int, hi as int), c),
{
    let rs = split_ranges(v, lo, hi, c);
    let n = rs.len();
    let (a, b) = rs[n - 1];
    assert(rs@[n - 1].0 <= rs@[n - 1].1);
    assert(range_views(v@, rs@)[n - 1] == v@.subrange(a as int, b as int));
    a
}

/// The directory name a repository cloned from `url` gets.
pub fn git_repo_name_from_url(url: &str) -> (r: String)
    ensures
        r@ == repo_name_spec(url@),
{
    let v = chars_of(url);
    assert(v@.subrange(0, v@.len() as int) =~= v@);
    let slash = chars_of("/");
    let colon = chars_of(":");
    let t_end = trim_end_matches_range(&v, 0, v.len(), &slash);
    let ghost t = v@.subrange(0, t_end as int);
    let t_str = string_from_range(&v, 0, t_end);
    let start = if str_contains(t_str.as_str(), "/") {
        last_piece(&v, 0, t_end, '/')
    } else if str_contains(t_str.as_str(), ":") {
        last_piece(&v, 0, t_end, ':')
    } else {
        0
    };
    assert(v@.subrange(start as int, t_end as int) == repo_segment(url@));
    let git = chars_of(".git");
    let n_end = trim_end_matches_range(&v, start, t_end, &git);
    if n_end == start {
        owned("imported-repo")
    } else {
        string_from_range(&v, start, n_end)
    }
}

/// The file name a download is saved under: the URL's last `/` segment, or
/// `downloaded.bin` when that is empty.
pub open spec fn download_file_name_spec(url: Seq<char>) -> Seq<char> {
    let last = after_last(url, '/');
    if last.len() == 0 {
        "downloaded.bin"@
    } else {
        last
    }
}

/// The file name a download is saved under.
pub fn download_file_name(url: &str) -> (r: String)
    ensures
        r@ == download_file_name_spec(url@),
{
    let v = chars_of(url);
    assert(v@.subrange(0, v@.len() as int) =~= v@);
    let a = last_piece(&v, 0, v.len(), '/');
    if a == v.len() {
        owned("downloaded.bin")
    } else {
        string_from_range(&v, a, v.len())
    }
}

/// The directory name the `attempt`-th try at a clone target uses: the
/// repository name, then `<name>_import_<n>` for later tries.
pub open spec fn clone_dir_name_spec(repo: Seq<char>, attempt: nat) -> Seq<char> {
    if attempt == 0 {
        repo
    } else {
        repo + "_import_"@ + decimal(attempt)
    }
}

/// The directory name to try for a clone.
pub fn clone_dir_name(repo: &str, attempt: u64) -> (r: String)
    ensures
        r@ == clone_dir_name_spec(repo@, attempt as nat),
{
    let mut s = owned(repo);
    if attempt > 0 {
        s.append("_import_");
        push_decimal(&mut s, attempt);
    }
    s
}

/// Whether a typed answer accepts (empty, `y` or `yes`, in any case).
pub open spec fn is_yes_spec(input: Seq<char>) -> bool {
    let a = lowered_answer(input);
    a.len() == 0 || a == "y"@ || a == "yes"@
}

/// Whether a typed answer accepts.
pub fn is_yes(input: &str) -> (r: bool)
    ensures
        r == is_yes_spec(input@),
{
    let a = lower_answer(input);
    a.as_str().is_empty() || str_eq(a.as_str(), "y") || str_eq(a.as_str(), "yes")
}

// ---------------------------------------------------------------------------
// Branches and tags of a cloned repository
// ---------------------------------------------------------------------------

/// The stream a line of `git for-each-ref` output names, if any.
pub open spec fn branch_of_line(line: Seq<char>) -> Option<Seq<char>> {
    let t = trim(line);
    if t.len() == 0 || t == "HEAD"@ || "origin/HEAD"@.is_prefix_of(t) {
        None
    } else {
        Some(trim_start_matches(t, "origin/"@))
    }
}

/// The branches the lines name, each once, in order of first mention.
pub open spec fn collect_branches(lines: Seq<Seq<char>>) -> Seq<Seq<char>>
    decreases lines.len(),
{
    if lines.len() == 0 {
        seq![]
    } else {
        let r = collect_branches(lines.drop_last());
        match branch_of_line(lines.last()) {
            Some(b) => if r.contains(b) {
                r
            } else {
                r.push(b)
            },
            None => r,
        }
    }
}

/// The branches to import: those the ref listing names, or `main`.
pub open spec fn import_branches_spec(refs_output: Seq<char>) -> Seq<Seq<char>> {
    let b = collect_branches(lines_of(refs_output));
    if b.len() == 0 {
        seq!["main"@]
    } else {
        b
    }
}

fn branch_of(line: &str) -> (r: Option<String>)
    ensures
        match r {
            Some(s) => branch_of_line(line@) == Some(s@),
            None => branch_of_line(line@) is None,
        },
{
    let t = trimmed(line);
    if t.as_str().is_empty() || str_eq(t.as_str(), "HEAD") || str_starts_with(
        t.as_str(),
        "origin/HEAD",
    ) {
        return None;
    }
    let v = chars_of(t.as_str());
    let p = chars_of("origin/");
    let a = trim_start_matches_range(&v, 0, v.len(), &p);
    assert(v@.subrange(0, v@.len() as int) =~= v@);
    Some(string_from_range(&v, a, v.len()))
}

/// The branches of a cloned repository, from `git for-each-ref` output.
pub fn import_branches(refs_output: &str) -> (r: Vec<String>)
    ensures
        string_views(r@) == import_branches_spec(refs_output@),
{
    let lines = lines_vec(refs_output);
    let ghost ls = lines_of(refs_output@);
    let mut out: Vec<String> = Vec::new();
    let mut i: usize = 0;
    assert(ls.take(0) =~= Seq::<Seq<char>>::empty());
    while i < lines.len()
        invariant
            string_views(lines@) == ls,
            0 <= i <= lines@.len(),
            string_views(out@) == collect_branches(ls.take(i as int)),
        decreases lines@.len() - i,
    {
        let ghost cur = ls.take(i + 1);
        assert(cur.drop_last() =~= ls.take(i as int));
        assert(cur.last() == lines@[i as int]@);
        match branch_of(lines[i].as_str()) {
            Some(b) => {
                if !contains_string(&out, b.as_str()) {
                    let ghost before = out@;
                    out.push(b);
                    assert(string_views(out@) =~= string_views(before).push(out@.last()@));
                }
            },
            None => {},
        }
        i = i + 1;
    }
    assert(ls.take(lines@.len() as int) =~= ls);
    if out.len() == 0 {
        out.push(owned("main"));
        assert(string_views(out@) =~= seq!["main"@]);
    }
    out
}

/// The tags a `git tag --list` output names: its non-empty trimmed lines.
pub open spec fn tags_of_lines(lines: Seq<Seq<char>>) -> Seq<Seq<char>>
    decreases lines.len(),
{
    if lines.len() == 0 {
        seq![]
    } else {
        let r = tags_of_lines(lines.drop_last());
        if trim(lines.last()).len() > 0 {
            r.push(trim(lines.last()))
        } else {
            r
        }
    }
}

/// The tags of a cloned repository, from `git tag --list` output.
pub fn import_tags(tag_output: &str) -> (r: Vec<String>)
    ensures
        string_views(r@) == tags_of_lines(lines_of(tag_output@)),
{
    let lines = lines_vec(tag_output);
    let ghost ls = lines_of(tag_output@);
    let mut out: Vec<String> = Vec::new();
    let mut i: usize = 0;
    assert(ls.take(0) =~= Seq::<Seq<char>>::empty());
    while i < lines.len()
        invariant
            string_views(lines@) == ls,
            0 <= i <= lines@.len(),
            string_views(out@) == tags_of_lines(ls.take(i as int)),
        decreases lines@.len() - i,
    {
        let ghost cur = ls.take(i + 1);
        assert(cur.drop_last() =~= ls.take(i as int));
        assert(cur.last() == lines@[i as int]@);
        let t = trimmed(lines[i].as_str());
        if !t.as_str().is_empty() {
            let ghost before = out@;
            out.push(t);
            assert(string_views(out@) =~= string_views(before).push(out@.last()@));
        }
        i = i + 1;
    }
    assert(ls.take(lines@.len() as int) =~= ls);
    out
}

/// The first branch named `main` or `master`, else the first branch.
pub open spec fn default_branch_spec(branches: Seq<Seq<char>>) -> Seq<char>
    decreases branches.len(),
{
    if branches.len() <= 1 {
        branches[0]
    } else if branches[0] == "main"@ || branches[0] == "master"@ {
        branches[0]
    } else {
        let rest = branches.drop_first();
        let d = default_branch_spec(rest);
        if d == "main"@ || d == "master"@ {
            d
        } else {
            branches[0]
        }
    }
}

/// The branch a converted repository ends up on.
pub fn default_branch(branches: &Vec<String>) -> (r: String)
    requires
        branches@.len() > 0,
    ensures
        r@ == default_branch_spec(string_views(branches@)),
{
    let ghost bs = string_views(branches@);
    let mut i: usize = 0;
    while i < branches.len()
        invariant
            bs == string_views(branches@),
            bs.len() > 0,
            0 <= i <= bs.len(),
            forall|j: int| 0 <= j < i ==> bs[j] != "main"@ && bs[j] != "master"@,
        decreases bs.len() - i,
    {
        assert(bs[i as int] == branches@[i as int]@);
        if str_eq(branches[i].as_str(), "main") || str_eq(branches[i].as_str(), "master") {
            proof {
                lemma_default_branch_found(bs, i as int);
            }
            return branches[i].clone();
        }
        i = i + 1;
    }
    proof {
        lemma_default_branch_none(bs);
    }
    assert(bs[0] == branches@[0]@);
    branches[0].clone()
}

proof fn lemma_default_branch_found(bs: Seq<Seq<char>>, i: int)
    requires
        0 <= i < bs.len(),
        bs[i] == "main"@ || bs[i] == "master"@,
        forall|j: int| 0 <= j < i ==> bs[j] != "main"@ && bs[j] != "master"@,
    ensures
        default_branch_spec(bs) == bs[i],
    decreases i,
{
    if i > 0 {
        let rest = bs.drop_first();
        assert forall|j: int| 0 <= j < i - 1 implies rest[j] != "main"@ && rest[j] != "master"@ by {
            assert(rest[j] == bs[j + 1]);
        }
        lemma_default_branch_found(rest, i - 1);
    }
}

proof fn lemma_default_branch_none(bs: Seq<Seq<char>>)
    requires
        bs.len() > 0,
        forall|j: int| 0 <= j < bs.len() ==> bs[j] != "main"@ && bs[j] != "master"@,
    ensures
        default_branch_spec(bs) == bs[0],
    decreases bs.len(),
{
    if bs.len() > 1 {
        let rest = bs.drop_first();
        assert forall|j: int| 0 <= j < rest.len() implies rest[j] != "main"@ && rest[j] != "master"@ by {
            assert(rest[j] == bs[j + 1]);
        }
        lemma_default_branch_none(rest);
    }
}

/// The stream a branch becomes: trimmed, without leading `origin/`.
pub open spec fn stream_for_branch_spec(branch: Seq<char>) -> Seq<char> {
    trim_start_matches(trim(branch), "origin/"@)
}

/// The stream a branch becomes.
pub fn stream_for_branch(branch: &str) -> (r: String)
    ensures
        r@ == stream_for_branch_spec(branch@),
{
    let t = trimmed(branch);
    let v = chars_of(t.as_str());
    let p = chars_of("origin/");
    let a = trim_start_matches_range(&v, 0, v.len(), &p);
    assert(v@.subrange(0, v@.len() as int) =~= v@);
    string_from_range(&v, a, v.len())
}

/// The stream a converted repository is left on: the default branch's
/// stream if one was created for it, else the first stream, else `main`.
pub open spec fn current_after_import_spec(created: Seq<Seq<char>>, default: Seq<char>) -> Seq<
    char,
> {
    if created.contains(default) {
        default
    } else if created.len() > 0 {
        created[0]
    } else {
        "main"@
    }
}

/// The stream a converted repository is left on.
pub fn current_after_import(created: &Vec<String>, default: &str) -> (r: String)
    ensures
        r@ == current_after_import_spec(string_views(created@), default@),
{
    if contains_string(created, default) {
        owned(default)
    } else if created.len() > 0 {
        assert(string_views(created@)[0] == created@[0]@);
        created[0].clone()
    } else {
        owned("main")
    }
}

// ---------------------------------------------------------------------------
// The seal a converted branch gets
// ---------------------------------------------------------------------------

/// The bytes the seal id is hashed over: each file's path, then its hash.
pub open spec fn seal_id_input(files: Seq<(Seq<char>, Seq<char>)>) -> Seq<u8>
    decreases files.len(),
{
    if files.len() == 0 {
        seq![]
    } else {
        seal_id_input(files.drop_last()) + vstd::utf8::encode_utf8(files.last().0)
            + vstd::utf8::encode_utf8(files.last().1)
    }
}

pub open spec fn file_pairs(files: Seq<(String, String)>) -> Seq<(Seq<char>, Seq<char>)> {
    files.map_values(|f: (String, String)| (f.0@, f.1@))
}

/// The id of the seal made for a converted branch:
/// `seal_import_<stream>_<first 8 hex digits>`.
pub open spec fn import_seal_id_spec(stream: Seq<char>, files: Seq<(Seq<char>, Seq<char>)>) -> Seq<
    char,
> {
    "seal_import_"@ + stream + "_"@ + hex_lower(sha256_spec(seal_id_input(files))).take(8)
}

fn push_bytes(out: &mut Vec<u8>, s: &str)
    ensures
        final(out)@ == old(out)@ + vstd::utf8::encode_utf8(s@),
{
    let b = s.as_bytes();
    let mut i: usize = 0;
    while i < b.len()
        invariant
            0 <= i <= b@.len(),
            b@ == vstd::utf8::encode_utf8(s@),
            out@ == old(out)@ + b@.take(i as int),
        decreases b@.len() - i,
    {
        out.push(b[i]);
        assert(b@.take(i + 1) =~= b@.take(i as int).push(b@[i as int]));
        i = i + 1;
    }
    assert(b@.take(b@.len() as int) =~= b@);
}

/// The id of the seal made for a converted branch, from its files'
/// `(path, hash)` pairs in walk order.
pub fn import_seal_id(stream: &str, files: &Vec<(String, String)>) -> (r: String)
    ensures
        r@ == import_seal_id_spec(stream@, file_pairs(files@)),
        r@.len() == stream@.len() + 21,
        forall|i: int| stream@.len() + 13 <= i < r@.len() ==> is_lower_hex(#[trigger] r@[i]),
{
    let ghost fs = file_pairs(files@);
    let mut bytes: Vec<u8> = Vec::new();
    let mut i: usize = 0;
    assert(fs.take(0) =~= Seq::<(Seq<char>, Seq<char>)>::empty());
    while i < files.len()
        invariant
            fs == file_pairs(files@),
            0 <= i <= files@.len(),
            bytes@ == seal_id_input(fs.take(i as int)),
        decreases files@.len() - i,
    {
        let ghost cur = fs.take(i + 1);
        assert(cur.drop_last() =~= fs.take(i as int));
        assert(cur.last() == fs[i as int]);
        assert(fs[i as int] == (files@[i as int].0@, files@[i as int].1@));
        push_bytes(&mut bytes, files[i].0.as_str());
        push_bytes(&mut bytes, files[i].1.as_str());
        i = i + 1;
    }
    assert(fs.take(files@.len() as int) =~= fs);
    let digest = sha256(bytes.as_slice());
    let hex = chars_of(to_hex(digest.as_slice()).as_str());
    proof {
        lemma_hex_lower_digits(digest@);
    }
    let mut s = String::from_str("seal_import_");
    s.append(stream);
    s.append("_");
    let head = string_from_range(&hex, 0, 8);
    assert(hex@.subrange(0, 8) =~= hex@.take(8));
    s.append(head.as_str());
    proof {
        reveal_strlit("seal_import_");
        reveal_strlit("_");
        let pre = "seal_import_"@ + stream@ + "_"@;
        assert(pre.len() == stream@.len() + 13);
        assert(s@ == pre + hex@.take(8));
        assert forall|i: int| stream@.len() + 13 <= i < s@.len() implies is_lower_hex(
            #[trigger] s@[i],
        ) by {
            assert(s@[i] == hex@[i - pre.len()]);
        }
    }
    s
}

/// The message of the seal made for a converted branch.
pub open spec fn import_seal_message_spec(stream: Seq<char>, existing: bool) -> Seq<char> {
    if existing {
        "Imported repository branch '"@ + stream + "' into existing DAM reservoir."@
    } else {
        "Converted repository branch '"@ + stream + "' into a new DAM reservoir."@
    }
}

/// The message of the seal made for a converted branch.
pub fn import_seal_message(stream: &str, existing: bool) -> (r: String)
    ensures
        r@ == import_seal_message_spec(stream@, existing),
{
    let mut s = String::from_str(if existing {
        "Imported repository branch '"
    } else {
        "Converted repository branch '"
    });
    s.append(stream);
    s.append(if existing {
        "' into existing DAM reservoir."
    } else {
        "' into a new DAM reservoir."
    });
    s
}

// ---------------------------------------------------------------------------
// Unpacked bundles
// ---------------------------------------------------------------------------

/// Where an entry of an unpacked bundle goes.
#[derive(Clone, Copy, Debug, PartialEq, Eq, Structural)]
pub enum BundleEntry {
    /// Copy the stream files into `.dam/streams`.
    Streams,
    /// Copy the release files into `.dam/releases`.
    Releases,
    /// Copy the file into `.dam/seals`.
    Seal,
    /// Copy the file into `.dam/releases`.
    Release,
    /// Copy the objects that are missing into `.dam/objects`.
    Objects,
    /// Leave it.
    Skip,
}

pub open spec fn bundle_entry_spec(
    name: Seq<char>,
    compress_objects: bool,
    is_seal: bool,
    is_release: bool,
) -> BundleEntry {
    if name == "streams"@ {
        BundleEntry::Streams
    } else if name == "releases"@ {
        BundleEntry::Releases
    } else if ".json"@.is_suffix_of(name) {
        if !is_seal && is_release {
            BundleEntry::Release
        } else {
            BundleEntry::Seal
        }
    } else if name == "objects"@ && !compress_objects {
        BundleEntry::Objects
    } else {
        BundleEntry::Skip
    }
}

/// Where an entry of an unpacked bundle goes; `is_seal` and `is_release`
/// say whether a JSON file reads as a seal or as a release (a JSON file
/// that reads as neither is kept as a seal).
pub fn bundle_entry(name: &str, compress_objects: bool, is_seal: bool, is_release: bool) -> (r:
    BundleEntry)
    ensures
        r == bundle_entry_spec(name@, compress_objects, is_seal, is_release),
{
    if str_eq(name, "streams") {
        BundleEntry::Streams
    } else if str_eq(name, "releases") {
        BundleEntry::Releases
    } else if str_ends_with(name, ".json") {
        if !is_seal && is_release {
            BundleEntry::Release
        } else {
            BundleEntry::Seal
        }
    } else if str_eq(name, "objects") && !compress_objects {
        BundleEntry::Objects
    } else {
        BundleEntry::Skip
    }
}

/// Whether a path relative to a tree lies in its `.git` or `.dam`
/// directory (judged by the first path component), which imports skip.
pub fn is_vcs_metadata(first_component: &str) -> (r: bool)
    ensures
        r == (first_component@ == ".git"@ || first_component@ == ".dam"@),
{
    str_eq(first_component, ".git") || str_eq(first_component, ".dam")
}

} // verus!

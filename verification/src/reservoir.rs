//! The reservoir's `config.toml`: the version it declares, the file a new
//! reservoir starts with, and the migrations that bring an old one up to
//! date.
use vstd::prelude::*;
use vstd::string::StringExecFns;
use crate::text::{
    chars_of, contains_chars, contains_text, has_prefix_at, lemma_unlines_concat,
    lemma_unlines_single, lines_of, next_line, owned, push_char, push_range, range_views, split_on,
    split_ranges, str_contains,
    str_eq, string_from_range, trim, trim_char, trim_char_range, trim_range, unlines,
};
use crate::version::{is_before, version_before, VersionTriple};

verus! {

// ---------------------------------------------------------------------------
// Declared version
// ---------------------------------------------------------------------------

/// The version that a line declares for the start-up check: its trimmed text
/// starts with `version =` or `version=` and holds exactly one `=`; the value
/// is the trimmed right-hand side without surrounding quotes.
pub open spec fn declared_version(line: Seq<char>) -> Option<Seq<char>> {
    let t = trim(line);
    if "version ="@.is_prefix_of(t) || "version="@.is_prefix_of(t) {
        let parts = split_on(t, '=');
        if parts.len() == 2 {
            Some(trim_char(trim(parts[1]), '"'))
        } else {
            None
        }
    } else {
        None
    }
}

/// The version that a line declares for the upgrade: its trimmed text starts
/// with `version =`; the value is the trimmed text between the first and the
/// second `=` without surrounding quotes.
pub open spec fn upgrade_declared_version(line: Seq<char>) -> Option<Seq<char>> {
    let t = trim(line);
    if "version ="@.is_prefix_of(t) {
        Some(trim_char(trim(split_on(t, '=')[1]), '"'))
    } else {
        None
    }
}

/// The last declaration among `lines` (by `for_upgrade`'s rule).
pub open spec fn last_declared(lines: Seq<Seq<char>>, for_upgrade: bool) -> Option<Seq<char>>
    decreases lines.len(),
{
    if lines.len() == 0 {
        None
    } else {
        let d = if for_upgrade {
            upgrade_declared_version(lines.last())
        } else {
            declared_version(lines.last())
        };
        match d {
            Some(v) => Some(v),
            None => last_declared(lines.drop_last(), for_upgrade),
        }
    }
}

/// The version a reservoir's `config.toml` declares, `0.1.0` when it
/// declares none.
pub open spec fn config_version_spec(content: Seq<char>, for_upgrade: bool) -> Seq<char> {
    match last_declared(lines_of(content), for_upgrade) {
        Some(v) => v,
        None => "0.1.0"@,
    }
}

fn line_declaration(v: &Vec<char>, ls: usize, le: usize, for_upgrade: bool) -> (r: Option<String>)
    requires
        ls <= le <= v@.len(),
    ensures
        match r {
            Some(s) => (if for_upgrade {
                upgrade_declared_version(v@.subrange(ls as int, le as int))
            } else {
                declared_version(v@.subrange(ls as int, le as int))
            }) == Some(s@),
            None => (if for_upgrade {
                upgrade_declared_version(v@.subrange(ls as int, le as int))
            } else {
                declared_version(v@.subrange(ls as int, le as int))
            }) is None,
        },
{
    let (a, b) = trim_range(v, ls, le);
    let p1 = chars_of("version =");
    let p2 = chars_of("version=");
    let with_space = has_prefix_at(v, a, b, &p1);
    let without_space = has_prefix_at(v, a, b, &p2);
    if !with_space && (for_upgrade || !without_space) {
        return None;
    }
    let rs = split_ranges(v, a, b, '=');
    let ghost t = v@.subrange(a as int, b as int);
    if !for_upgrade && rs.len() != 2 {
        return None;
    }
    proof {
        if for_upgrade {
            reveal_strlit("version =");
            assert(with_space);
            assert(p1@[8] == '=');
            assert(t.take(9)[8] == t[8]);
            assert(t[8] == '=');
            lemma_split_has_two(t, 8);
        }
    }
    let (x, y) = rs[1];
    assert(range_views(v@, rs@)[1] == v@.subrange(x as int, y as int));
    let (x2, y2) = trim_range(v, x, y);
    let (x3, y3) = trim_char_range(v, x2, y2, '"');
    Some(string_from_range(v, x3, y3))
}

proof fn lemma_split_has_two(t: Seq<char>, i: int)
    requires
        0 <= i < t.len(),
        t[i] == '=',
    ensures
        split_on(t, '=').len() >= 2,
{
    crate::text::lemma_first_index_props(t, '=');
    let k = crate::text::first_index(t, '=');
    assert(k >= 0);
    lemma_split_nonempty(t.skip(k + 1), '=');
}

proof fn lemma_split_nonempty(t: Seq<char>, c: char)
    ensures
        split_on(t, c).len() >= 1,
    decreases t.len(),
{
    crate::text::lemma_first_index_props(t, c);
    let k = crate::text::first_index(t, c);
    if k >= 0 {
        lemma_split_nonempty(t.skip(k + 1), c);
    }
}

/// The version a reservoir's `config.toml` declares (the last declaration
/// wins), `0.1.0` when it declares none. `for_upgrade` selects the upgrade's
/// reading of a declaration over the start-up check's.
pub fn config_version(content: &str, for_upgrade: bool) -> (r: String)
    ensures
        r@ == config_version_spec(content@, for_upgrade),
{
    let v = chars_of(content);
    let mut found: Option<String> = None;
    let mut start: usize = 0;
    let ghost mut done: Seq<Seq<char>> = seq![];
    assert(v@.skip(0) =~= v@);
    assert(lines_of(v@) =~= done + lines_of(v@.skip(0)));
    while start < v.len()
        invariant
            start <= v@.len(),
            v@ == content@,
            lines_of(v@) == done + lines_of(v@.skip(start as int)),
            match found {
                Some(s) => last_declared(done, for_upgrade) == Some(s@),
                None => last_declared(done, for_upgrade) is None,
            },
        decreases v@.len() - start,
    {
        let (ls, le, next) = next_line(&v, start);
        let ghost line = v@.subrange(ls as int, le as int);
        let ghost rest = lines_of(v@.skip(start as int));
        assert(rest[0] == line);
        assert(rest.drop_first() =~= lines_of(v@.skip(next as int)));
        let d = line_declaration(&v, ls, le, for_upgrade);
        proof {
            let nd = done.push(line);
            assert(nd.drop_last() =~= done);
            assert(nd.last() == line);
            assert(lines_of(v@) =~= nd + lines_of(v@.skip(next as int)));
            done = nd;
        }
        match d {
            Some(s) => {
                found = Some(s);
            },
            None => {},
        }
        start = next;
    }
    match found {
        Some(s) => s,
        None => owned("0.1.0"),
    }
}

/// The versions a reservoir may be on for this CLI.
pub open spec fn is_supported_spec(v: Seq<char>, current: Seq<char>) -> bool {
    v == current || v == "0.5.6"@
}

/// Whether this CLI, at version `current`, supports a reservoir on `v`.
pub fn is_supported_version(v: &str, current: &str) -> (r: bool)
    ensures
        r == is_supported_spec(v@, current@),
{
    str_eq(v, current) || str_eq(v, "0.5.6")
}

/// The config asks not to warn about a parent reservoir.
pub open spec fn nested_warning_suppressed_spec(content: Seq<char>) -> bool {
    contains_text(content, "suppress_nested_warning = true"@)
}

/// Whether the config asks not to warn about a parent reservoir.
pub fn nested_warning_suppressed(content: &str) -> (r: bool)
    ensures
        r == nested_warning_suppressed_spec(content@),
{
    str_contains(content, "suppress_nested_warning = true")
}

// ---------------------------------------------------------------------------
// A new reservoir's config
// ---------------------------------------------------------------------------

pub open spec fn bool_text(b: bool) -> Seq<char> {
    if b {
        "true"@
    } else {
        "false"@
    }
}

fn bool_str(b: bool) -> (r: &'static str)
    ensures
        r@ == bool_text(b),
{
    if b {
        "true"
    } else {
        "false"
    }
}

/// The `config.toml` a new reservoir starts with.
pub open spec fn initial_config_spec(
    version: Seq<char>,
    name: Seq<char>,
    suppress_nested_warning: bool,
    purities_win: bool,
    impurities_win: bool,
    enforce_password: bool,
) -> Seq<char> {
    "[reservoir]\nversion = \""@ + version + "\"\ntype = \"native\"\nname = \""@ + name
        + "\"\nsuppress_nested_warning = "@ + bool_text(suppress_nested_warning)
        + "\npurities_overrides_impurities = "@ + bool_text(purities_win)
        + "\nimpurities_overrides_purities = "@ + bool_text(impurities_win)
        + "\nenforce_password_on_project_import = "@ + bool_text(enforce_password)
        + "\ndisable_overwrite_check = false\noverwrite_check_exclude = []\n"@
}

/// The `config.toml` a new reservoir starts with.
pub fn initial_config(
    version: &str,
    name: &str,
    suppress_nested_warning: bool,
    purities_win: bool,
    impurities_win: bool,
    enforce_password: bool,
) -> (r: String)
    ensures
        r@ == initial_config_spec(
            version@,
            name@,
            suppress_nested_warning,
            purities_win,
            impurities_win,
            enforce_password,
        ),
{
    let mut s = String::from_str("[reservoir]\nversion = \"");
    s.append(version);
    s.append("\"\ntype = \"native\"\nname = \"");
    s.append(name);
    s.append("\"\nsuppress_nested_warning = ");
    s.append(bool_str(suppress_nested_warning));
    s.append("\npurities_overrides_impurities = ");
    s.append(bool_str(purities_win));
    s.append("\nimpurities_overrides_purities = ");
    s.append(bool_str(impurities_win));
    s.append("\nenforce_password_on_project_import = ");
    s.append(bool_str(enforce_password));
    s.append("\ndisable_overwrite_check = false\noverwrite_check_exclude = []\n");
    s
}

/// The conflict rule a new reservoir gets from the answer to "Law of
/// Priority" (already trimmed and lower-cased): `(purities win, impurities
/// win)`.
pub open spec fn priority_choice_spec(answer: Seq<char>) -> (bool, bool) {
    if answer == "p"@ {
        (true, false)
    } else if answer == "i"@ {
        (false, true)
    } else {
        (false, false)
    }
}

/// The conflict rule selected by the (trimmed, lower-cased) answer.
pub fn priority_choice(answer: &str) -> (r: (bool, bool))
    ensures
        r == priority_choice_spec(answer@),
{
    if str_eq(answer, "p") {
        (true, false)
    } else if str_eq(answer, "i") {
        (false, true)
    } else {
        (false, false)
    }
}

// ---------------------------------------------------------------------------
// Upgrades
// ---------------------------------------------------------------------------

/// Which migrations an upgrade from `project` to `target` runs.
#[derive(Clone, Copy, Debug, PartialEq, Eq, Structural)]
pub struct UpgradePlan {
    /// Nothing to do: the project is not older than the target.
    pub up_to_date: bool,
    /// Pre-0.4.0 structural defaults.
    pub structural: bool,
    /// Pre-0.5.0 credential migration.
    pub credentials: bool,
    /// Pre-0.5.6 overwrite-check defaults.
    pub overwrite_defaults: bool,
}

pub open spec fn upgrade_plan_spec(project: VersionTriple, target: VersionTriple) -> UpgradePlan {
    UpgradePlan {
        up_to_date: !version_before(project, target),
        structural: version_before(project, (0, 4, 0)),
        credentials: version_before(project, (0, 5, 0)),
        overwrite_defaults: version_before(project, (0, 5, 6)),
    }
}

/// The migrations that bring a reservoir on `project` up to `target`.
pub fn upgrade_plan(project: VersionTriple, target: VersionTriple) -> (r: UpgradePlan)
    ensures
        r == upgrade_plan_spec(project, target),
{
    UpgradePlan {
        up_to_date: !is_before(project, target),
        structural: is_before(project, (0, 4, 0)),
        credentials: is_before(project, (0, 5, 0)),
        overwrite_defaults: is_before(project, (0, 5, 6)),
    }
}

/// `content` with `line` appended unless `needle` already occurs in it.
pub open spec fn append_if_missing(content: Seq<char>, needle: Seq<char>, line: Seq<char>) -> Seq<
    char,
> {
    if contains_text(content, needle) {
        content
    } else {
        content + line
    }
}

fn append_unless_present(content: &str, needle: &str, line: &str) -> (r: String)
    ensures
        r@ == append_if_missing(content@, needle@, line@),
{
    let mut s = owned(content);
    if !str_contains(content, needle) {
        s.append(line);
    }
    s
}

/// The pre-0.4.0 migration of `config.toml`.
pub open spec fn structural_defaults_spec(content: Seq<char>) -> Seq<char> {
    append_if_missing(
        content,
        "enforce_password_on_project_import"@,
        "enforce_password_on_project_import = false\n"@,
    )
}

/// Adds the password-enforcement flag a pre-0.4.0 config lacks.
pub fn structural_defaults(content: &str) -> (r: String)
    ensures
        r@ == structural_defaults_spec(content@),
{
    append_unless_present(
        content,
        "enforce_password_on_project_import",
        "enforce_password_on_project_import = false\n",
    )
}

/// The pre-0.5.6 migration of `config.toml`.
pub open spec fn overwrite_defaults_spec(content: Seq<char>) -> Seq<char> {
    append_if_missing(
        append_if_missing(content, "disable_overwrite_check"@, "disable_overwrite_check = false\n"@),
        "overwrite_check_exclude"@,
        "overwrite_check_exclude = []\n"@,
    )
}

/// Adds the overwrite-check settings a pre-0.5.6 config lacks.
pub fn overwrite_defaults(content: &str) -> (r: String)
    ensures
        r@ == overwrite_defaults_spec(content@),
{
    let c1 = append_unless_present(
        content,
        "disable_overwrite_check",
        "disable_overwrite_check = false\n",
    );
    append_unless_present(c1.as_str(), "overwrite_check_exclude", "overwrite_check_exclude = []\n")
}

/// The credential alias recorded after a credential migration.
pub open spec fn record_cred_alias_spec(content: Seq<char>, alias: Seq<char>) -> Seq<char> {
    append_if_missing(
        content,
        "github_cred_alias"@,
        "github_cred_alias = \""@ + alias + "\"\n"@,
    )
}

/// Records the migrated credential's alias unless one is configured.
pub fn record_cred_alias(content: &str, alias: &str) -> (r: String)
    ensures
        r@ == record_cred_alias_spec(content@, alias@),
{
    let mut line = String::from_str("github_cred_alias = \"");
    line.append(alias);
    line.append("\"\n");
    append_unless_present(content, "github_cred_alias", line.as_str())
}

/// A line that the upgrade stamps with the new version.
pub open spec fn is_version_line(line: Seq<char>) -> bool {
    "version ="@.is_prefix_of(trim(line))
}

/// `version = "<current>"`.
pub open spec fn version_line(current: Seq<char>) -> Seq<char> {
    "version = \""@ + current + "\""@
}

pub open spec fn stamp_lines(ls: Seq<Seq<char>>, current: Seq<char>) -> Seq<Seq<char>> {
    ls.map_values(
        |l: Seq<char>|
            if is_version_line(l) {
                version_line(current)
            } else {
                l
            },
    )
}

/// The config stamped with the version the upgrade reached: each version
/// line replaced, or one appended when there is none.
pub open spec fn stamp_version_spec(content: Seq<char>, current: Seq<char>) -> Seq<char> {
    if !contains_text(content, "version ="@) {
        content + "\nversion = \""@ + current + "\"\n"@
    } else {
        unlines(stamp_lines(lines_of(content), current))
    }
}

/// Stamps the config with the version the upgrade reached.
pub fn stamp_version(content: &str, current: &str) -> (r: String)
    ensures
        r@ == stamp_version_spec(content@, current@),
{
    if !str_contains(content, "version =") {
        let mut s = owned(content);
        s.append("\nversion = \"");
        s.append(current);
        s.append("\"\n");
        return s;
    }
    let v = chars_of(content);
    let p = chars_of("version =");
    let mut out = String::new();
    let mut start: usize = 0;
    let ghost mut done: Seq<Seq<char>> = seq![];
    let ghost vl = version_line(current@);
    assert(v@.skip(0) =~= v@);
    assert(lines_of(v@) =~= done + lines_of(v@.skip(0)));
    assert(unlines(stamp_lines(done, current@)) =~= Seq::<char>::empty());
    while start < v.len()
        invariant
            start <= v@.len(),
            v@ == content@,
            p@ == "version ="@,
            vl == version_line(current@),
            lines_of(v@) == done + lines_of(v@.skip(start as int)),
            out@ == unlines(stamp_lines(done, current@)),
        decreases v@.len() - start,
    {
        let (ls, le, next) = next_line(&v, start);
        let ghost line = v@.subrange(ls as int, le as int);
        let ghost rest = lines_of(v@.skip(start as int));
        assert(rest[0] == line);
        assert(rest.drop_first() =~= lines_of(v@.skip(next as int)));
        let ghost old_out = out@;
        let (a, b) = trim_range(&v, ls, le);
        let ghost new_line = if is_version_line(line) {
            vl
        } else {
            line
        };
        if has_prefix_at(&v, a, b, &p) {
            out.append("version = \"");
            out.append(current);
            out.append("\"");
        } else {
            push_range(&mut out, &v, ls, le);
        }
        assert(out@ =~= old_out + new_line);
        push_char(&mut out, '\n');
        proof {
            let nd = done.push(line);
            assert(stamp_lines(nd, current@) =~= stamp_lines(done, current@).push(new_line));
            lemma_unlines_concat(stamp_lines(done, current@), seq![new_line]);
            lemma_unlines_single(new_line);
            assert(stamp_lines(done, current@) + seq![new_line] =~= stamp_lines(nd, current@));
            assert(lines_of(v@) =~= nd + lines_of(v@.skip(next as int)));
            done = nd;
        }
        start = next;
    }
    proof {
        assert(v@.skip(start as int) =~= Seq::<char>::empty());
        assert(lines_of(v@) =~= done);
    }
    out
}

} // verus!

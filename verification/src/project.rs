//! Project archives: which files a profile exports, what the metadata of an
//! export says, and which setup commands an import trusts.
use vstd::prelude::*;
use vstd::string::StringExecFns;
use crate::text::{
    lower_answer, lowered_answer,
    join_strings, join_with, lines_of, lines_vec, owned, str_eq, string_views, trim, trimmed,
};

verus! {

// ---------------------------------------------------------------------------
// Profiles
// ---------------------------------------------------------------------------

/// Whether `glob::Pattern::new` accepts a pattern.
pub uninterp spec fn glob_pattern_valid(pattern: Seq<char>) -> bool;

/// Whether a pattern that `glob::Pattern::new` accepts matches a path.
pub uninterp spec fn glob_matches(pattern: Seq<char>, path: Seq<char>) -> bool;

/// `glob::Pattern::new(pattern)` and, when the pattern is valid,
/// `Pattern::matches(path)`: `None` for an invalid pattern, else whether it
/// matches. The glob semantics are known only under the two names.
#[verifier::external_body]
fn glob_match(pattern: &str, path: &str) -> (r: Option<bool>)
    ensures
        r is Some <==> glob_pattern_valid(pattern@),
        r matches Some(m) ==> m == glob_matches(pattern@, path@),
{
    match glob::Pattern::new(pattern) {
        Ok(p) => Some(p.matches(path)),
        Err(_) => None,
    }
}

/// Some pattern matches the path.
pub open spec fn any_matches(pats: Seq<Seq<char>>, path: Seq<char>) -> bool
    decreases pats.len(),
{
    if pats.len() == 0 {
        false
    } else if glob_matches(pats[0], path) {
        true
    } else {
        any_matches(pats.drop_first(), path)
    }
}

/// Every pattern tried before the first match (all of them when none
/// matches) is valid.
pub open spec fn scan_valid(pats: Seq<Seq<char>>, path: Seq<char>) -> bool
    decreases pats.len(),
{
    if pats.len() == 0 {
        true
    } else {
        glob_pattern_valid(pats[0]) && (glob_matches(pats[0], path) || scan_valid(
            pats.drop_first(),
            path,
        ))
    }
}

/// A profile exports the path: an include pattern matches it and no
/// exclude pattern does.
pub open spec fn is_allowed_spec(path: Seq<char>, includes: Seq<Seq<char>>, excludes: Seq<Seq<char>>)
    -> bool {
    any_matches(includes, path) && !any_matches(excludes, path)
}

/// Every pattern the check reaches is valid.
pub open spec fn is_allowed_defined(path: Seq<char>, includes: Seq<Seq<char>>, excludes: Seq<Seq<char>>)
    -> bool {
    scan_valid(includes, path) && (any_matches(includes, path) ==> scan_valid(excludes, path))
}

proof fn lemma_any_matches(pats: Seq<Seq<char>>, path: Seq<char>)
    ensures
        any_matches(pats, path) <==> exists|i: int|
            0 <= i < pats.len() && glob_matches(#[trigger] pats[i], path),
        (forall|i: int| 0 <= i < pats.len() ==> glob_pattern_valid(#[trigger] pats[i]))
            ==> scan_valid(pats, path),
    decreases pats.len(),
{
    if pats.len() > 0 {
        let rest = pats.drop_first();
        lemma_any_matches(rest, path);
        if exists|i: int| 0 <= i < pats.len() && glob_matches(#[trigger] pats[i], path) {
            let i = choose|i: int| 0 <= i < pats.len() && glob_matches(#[trigger] pats[i], path);
            if i > 0 {
                assert(rest[i - 1] == pats[i]);
            }
        }
        if exists|i: int| 0 <= i < rest.len() && glob_matches(#[trigger] rest[i], path) {
            let i = choose|i: int| 0 <= i < rest.len() && glob_matches(#[trigger] rest[i], path);
            assert(pats[i + 1] == rest[i]);
        }
        if forall|i: int| 0 <= i < pats.len() ==> glob_pattern_valid(#[trigger] pats[i]) {
            assert forall|i: int| 0 <= i < rest.len() implies glob_pattern_valid(#[trigger] rest[i]) by {
                assert(pats[i + 1] == rest[i]);
            }
            assert(glob_pattern_valid(pats[0]));
        }
    }
}

/// A profile exports a path exactly when some include pattern matches it,
/// wherever that pattern stands in the list, and no exclude pattern does;
/// and the check gives an answer whenever every pattern is valid.
pub proof fn law_export_selects_matching_files(
    path: Seq<char>,
    includes: Seq<Seq<char>>,
    excludes: Seq<Seq<char>>,
)
    ensures
        is_allowed_spec(path, includes, excludes) <==> (exists|i: int|
            0 <= i < includes.len() && glob_matches(#[trigger] includes[i], path)) && !(exists|j: int|
            0 <= j < excludes.len() && glob_matches(#[trigger] excludes[j], path)),
        (forall|i: int| 0 <= i < includes.len() ==> glob_pattern_valid(#[trigger] includes[i]))
            && (forall|j: int| 0 <= j < excludes.len() ==> glob_pattern_valid(#[trigger] excludes[j]))
            ==> is_allowed_defined(path, includes, excludes),
{
    lemma_any_matches(includes, path);
    lemma_any_matches(excludes, path);
}

fn scan(path: &str, pats: &Vec<String>) -> (r: Option<bool>)
    ensures
        r is Some <==> scan_valid(string_views(pats@), path@),
        r matches Some(m) ==> m == any_matches(string_views(pats@), path@),
{
    let ghost ps = string_views(pats@);
    let mut i: usize = 0;
    assert(ps.skip(0) =~= ps);
    while i < pats.len()
        invariant
            ps == string_views(pats@),
            0 <= i <= ps.len(),
            scan_valid(ps, path@) == scan_valid(ps.skip(i as int), path@),
            any_matches(ps, path@) == any_matches(ps.skip(i as int), path@),
        decreases ps.len() - i,
    {
        let ghost rest = ps.skip(i as int);
        assert(rest[0] == pats@[i as int]@);
        assert(rest.drop_first() =~= ps.skip(i + 1));
        match glob_match(pats[i].as_str(), path) {
            None => {
                return None;
            },
            Some(true) => {
                return Some(true);
            },
            Some(false) => {},
        }
        i = i + 1;
    }
    assert(ps.skip(i as int) =~= Seq::<Seq<char>>::empty());
    Some(false)
}

/// Whether a profile exports `path`; `None` when a pattern the check
/// reaches is not a valid glob.
pub fn check_allowed(path: &str, includes: &Vec<String>, excludes: &Vec<String>) -> (r: Option<
    bool,
>)
    ensures
        r is Some <==> is_allowed_defined(path@, string_views(includes@), string_views(excludes@)),
        r matches Some(m) ==> m == is_allowed_spec(
            path@,
            string_views(includes@),
            string_views(excludes@),
        ),
{
    match scan(path, includes) {
        None => None,
        Some(false) => Some(false),
        Some(true) => match scan(path, excludes) {
            None => None,
            Some(m) => Some(!m),
        },
    }
}

/// Whether a profile exports `path`.
pub fn is_allowed(path: &str, includes: &Vec<String>, excludes: &Vec<String>) -> (r: bool)
    requires
        is_allowed_defined(path@, string_views(includes@), string_views(excludes@)),
    ensures
        r == is_allowed_spec(path@, string_views(includes@), string_views(excludes@)),
{
    match check_allowed(path, includes, excludes) {
        Some(m) => m,
        None => false,
    }
}

// ---------------------------------------------------------------------------
// Export
// ---------------------------------------------------------------------------

/// The metadata stored in a `.dam` archive.
pub struct ProjectMetadata {
    pub project_name: String,
    pub author: String,
    pub timestamp: String,
    pub provider: String,
    pub profile_used: String,
    pub setup_commands: Vec<String>,
    pub is_encrypted: bool,
    pub streams: Option<Vec<String>>,
}

/// The config asks for password-protected exports: one of its lines,
/// trimmed, is `enforce_password_on_project_import = true`.
pub open spec fn enforces_password_spec(config: Seq<char>) -> bool {
    exists|i: int|
        0 <= i < lines_of(config).len() && trim(#[trigger] lines_of(config)[i])
            == "enforce_password_on_project_import = true"@
}

/// Whether the reservoir's config asks for password-protected exports.
pub fn enforces_password(config: &str) -> (r: bool)
    ensures
        r == enforces_password_spec(config@),
{
    let lines = lines_vec(config);
    let ghost ls = lines_of(config@);
    let mut i: usize = 0;
    while i < lines.len()
        invariant
            string_views(lines@) == ls,
            ls == lines_of(config@),
            0 <= i <= ls.len(),
            forall|j: int| 0 <= j < i ==> trim(#[trigger] ls[j])
                != "enforce_password_on_project_import = true"@,
        decreases ls.len() - i,
    {
        assert(ls[i as int] == lines@[i as int]@);
        let t = trimmed(lines[i].as_str());
        if str_eq(t.as_str(), "enforce_password_on_project_import = true") {
            return true;
        }
        i = i + 1;
    }
    false
}

/// The name of the payload inside a `.dam` archive.
pub fn payload_name(encrypted: bool) -> (r: &'static str)
    ensures
        r@ == (if encrypted {
            "payload.enc"@
        } else {
            "payload.tar.gz"@
        }),
{
    if encrypted {
        "payload.enc"
    } else {
        "payload.tar.gz"
    }
}

/// The file an export of `project_name` is written to.
pub fn export_file_name(project_name: &str) -> (r: String)
    ensures
        r@ == project_name@ + ".dam"@,
{
    let mut s = owned(project_name);
    s.append(".dam");
    s
}

/// The streams an export lists when its profile names none: the reservoir's
/// streams, or none at all when there are none.
pub fn export_streams(names: Vec<String>) -> (r: Option<Vec<String>>)
    ensures
        match r {
            Some(v) => names@.len() > 0 && v@ == names@,
            None => names@.len() == 0,
        },
{
    if names.len() == 0 {
        None
    } else {
        Some(names)
    }
}

// ---------------------------------------------------------------------------
// Import: setup commands
// ---------------------------------------------------------------------------

/// A command is trusted when, trimmed, it starts with an allowed command.
pub open spec fn is_trusted_spec(cmd: Seq<char>, allowed: Seq<Seq<char>>) -> bool {
    exists|i: int| 0 <= i < allowed.len() && (#[trigger] allowed[i]).is_prefix_of(trim(cmd))
}

/// The commands of `cmds` whose trust is `trusted`, in order.
pub open spec fn commands_with_trust(cmds: Seq<Seq<char>>, allowed: Seq<Seq<char>>, trusted: bool)
    -> Seq<Seq<char>>
    decreases cmds.len(),
{
    if cmds.len() == 0 {
        seq![]
    } else {
        let r = commands_with_trust(cmds.drop_last(), allowed, trusted);
        if is_trusted_spec(cmds.last(), allowed) == trusted {
            r.push(cmds.last())
        } else {
            r
        }
    }
}

fn trusted_command(cmd: &str, allowed: &Vec<String>) -> (r: bool)
    ensures
        r == is_trusted_spec(cmd@, string_views(allowed@)),
{
    let t = crate::text::chars_of(trimmed(cmd).as_str());
    let mut i: usize = 0;
    while i < allowed.len()
        invariant
            t@ == trim(cmd@),
            0 <= i <= allowed@.len(),
            forall|j: int| 0 <= j < i ==> !(#[trigger] string_views(allowed@)[j]).is_prefix_of(
                trim(cmd@),
            ),
        decreases allowed@.len() - i,
    {
        assert(string_views(allowed@)[i as int] == allowed@[i as int]@);
        let a = crate::text::chars_of(allowed[i].as_str());
        if crate::text::has_prefix(&t, &a) {
            return true;
        }
        i = i + 1;
    }
    false
}

/// Splits setup commands into the trusted and the untrusted ones, each in
/// their given order.
pub fn split_setup_commands(cmds: &Vec<String>, allowed: &Vec<String>) -> (r: (
    Vec<String>,
    Vec<String>,
))
    ensures
        string_views(r.0@) == commands_with_trust(string_views(cmds@), string_views(allowed@), true),
        string_views(r.1@) == commands_with_trust(
            string_views(cmds@),
            string_views(allowed@),
            false,
        ),
{
    let ghost cs = string_views(cmds@);
    let ghost al = string_views(allowed@);
    let mut trusted: Vec<String> = Vec::new();
    let mut untrusted: Vec<String> = Vec::new();
    let mut i: usize = 0;
    assert(cs.take(0) =~= Seq::<Seq<char>>::empty());
    while i < cmds.len()
        invariant
            cs == string_views(cmds@),
            al == string_views(allowed@),
            0 <= i <= cs.len(),
            string_views(trusted@) == commands_with_trust(cs.take(i as int), al, true),
            string_views(untrusted@) == commands_with_trust(cs.take(i as int), al, false),
        decreases cs.len() - i,
    {
        let ghost cur = cs.take(i + 1);
        assert(cur.drop_last() =~= cs.take(i as int));
        assert(cur.last() == cmds@[i as int]@);
        let c = cmds[i].clone();
        if trusted_command(cmds[i].as_str(), allowed) {
            let ghost before = trusted@;
            trusted.push(c);
            assert(string_views(trusted@) =~= string_views(before).push(cmds@[i as int]@));
        } else {
            let ghost before = untrusted@;
            untrusted.push(c);
            assert(string_views(untrusted@) =~= string_views(before).push(cmds@[i as int]@));
        }
        i = i + 1;
    }
    assert(cs.take(cmds@.len() as int) =~= cs);
    (trusted, untrusted)
}

/// The review script the untrusted setup commands are written to.
pub open spec fn untrusted_script_spec(untrusted: Seq<Seq<char>>) -> Seq<char> {
    "#!/bin/bash\n# UNTRUSTED: Review before executing\n\n"@ + join_with(untrusted, "\n"@)
}

/// The review script the untrusted setup commands are written to.
pub fn untrusted_script(untrusted: &Vec<String>) -> (r: String)
    ensures
        r@ == untrusted_script_spec(string_views(untrusted@)),
{
    let mut s = String::from_str("#!/bin/bash\n# UNTRUSTED: Review before executing\n\n");
    let body = join_strings(untrusted, "\n");
    s.append(body.as_str());
    s
}

/// Whether the answer to "Execute trusted commands now? (Y/n)" runs them:
/// nothing, or `y`, trimmed and lower-cased.
pub fn runs_trusted_commands(answer: &str) -> (r: bool)
    ensures
        r == (lowered_answer(answer@).len() == 0 || lowered_answer(answer@) == "y"@),
{
    let a = lower_answer(answer);
    a.as_str().is_empty() || str_eq(a.as_str(), "y")
}

/// Whether the answer to "Type 'yes' to execute untrusted commands now"
/// runs them: exactly `yes`, once trimmed.
pub fn runs_untrusted_commands(answer: &str) -> (r: bool)
    ensures
        r == (trim(answer@) == "yes"@),
{
    let t = trimmed(answer);
    str_eq(t.as_str(), "yes")
}

/// Every setup command is either trusted or untrusted, never both: the two
/// lists together hold each command once, and the count adds up.
pub proof fn law_setup_commands_partition(cmds: Seq<Seq<char>>, allowed: Seq<Seq<char>>)
    ensures
        commands_with_trust(cmds, allowed, true).len() + commands_with_trust(cmds, allowed, false).len()
            == cmds.len(),
        forall|c: Seq<char>|
            #[trigger] commands_with_trust(cmds, allowed, true).contains(c) ==> is_trusted_spec(
                c,
                allowed,
            ),
        forall|c: Seq<char>|
            #[trigger] commands_with_trust(cmds, allowed, false).contains(c) ==> !is_trusted_spec(
                c,
                allowed,
            ),
    decreases cmds.len(),
{
    if cmds.len() > 0 {
        law_setup_commands_partition(cmds.drop_last(), allowed);
        let t = commands_with_trust(cmds, allowed, true);
        let u = commands_with_trust(cmds, allowed, false);
        let t0 = commands_with_trust(cmds.drop_last(), allowed, true);
        let u0 = commands_with_trust(cmds.drop_last(), allowed, false);
        assert forall|c: Seq<char>| #[trigger] t.contains(c) implies is_trusted_spec(c, allowed) by {
            let k = choose|k: int| 0 <= k < t.len() && t[k] == c;
            if k < t0.len() {
                assert(t0[k] == c);
                assert(t0.contains(c));
            }
        }
        assert forall|c: Seq<char>| #[trigger] u.contains(c) implies !is_trusted_spec(c, allowed) by {
            let k = choose|k: int| 0 <= k < u.len() && u[k] == c;
            if k < u0.len() {
                assert(u0[k] == c);
                assert(u0.contains(c));
            }
        }
    }
}

} // verus!

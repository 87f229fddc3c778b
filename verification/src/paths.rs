//! Paths the CLI works with: a user's path made relative to the reservoir
//! it runs in, and whether the executable sits in a system directory.
//! Joining, prefix tests and prefix stripping go by whole path components,
//! as `std::path::Path` does them.
use vstd::prelude::*;
use crate::text::owned;

verus! {

/// The path `Path::new(base).join(p)` names. On Unix this is `p` when it is
/// absolute and otherwise `base` and `p` with a `/` between them; on
/// Windows drive letters, prefixes and both separators change the rules,
/// so the result is named here rather than written out for one platform.
pub uninterp spec fn joined_path(base: Seq<char>, p: Seq<char>) -> Seq<char>;

/// What `Path::new(path).strip_prefix(prefix)` leaves, when `prefix` is a
/// leading run of `path`'s components.
pub uninterp spec fn stripped_prefix(path: Seq<char>, prefix: Seq<char>) -> Option<Seq<char>>;

/// Whether `Path::new(path).starts_with(base)`: `base`'s components are a
/// leading run of `path`'s.
pub uninterp spec fn path_starts_with_spec(path: Seq<char>, base: Seq<char>) -> bool;

/// `std::path::Path::join`: `p` appended to `base` (or `p` itself when it is
/// absolute). The result is known only as `joined_path`; a path built from
/// two texts is itself text, so nothing is lost in reading it back.
#[verifier::external_body]
fn path_join(base: &str, p: &str) -> (r: String)
    ensures
        r@ == joined_path(base@, p@),
{
    std::path::Path::new(base).join(p).to_string_lossy().into_owned()
}

/// `std::path::Path::strip_prefix`: the rest of `path` after `prefix`, when
/// `prefix`'s components lead `path`'s; known only as `stripped_prefix`.
#[verifier::external_body]
fn path_strip_prefix(path: &str, prefix: &str) -> (r: Option<String>)
    ensures
        match r {
            Some(s) => stripped_prefix(path@, prefix@) == Some(s@),
            None => stripped_prefix(path@, prefix@) is None,
        },
{
    match std::path::Path::new(path).strip_prefix(prefix) {
        Ok(rest) => Some(rest.to_string_lossy().into_owned()),
        Err(_) => None,
    }
}

/// `std::path::Path::starts_with`, known only as `path_starts_with_spec`.
#[verifier::external_body]
fn path_starts_with(path: &str, base: &str) -> (r: bool)
    ensures
        r == path_starts_with_spec(path@, base@),
{
    std::path::Path::new(path).starts_with(base)
}

/// A path the user typed, as seen from the reservoir's root: the part of
/// `cwd/user_path` under `root` (`.` for the root itself), or the path as
/// typed when it lies outside the reservoir.
pub open spec fn adjust_path_spec(cwd: Seq<char>, root: Seq<char>, user_path: Seq<char>) -> Seq<char> {
    match stripped_prefix(joined_path(cwd, user_path), root) {
        Some(rel) => if rel.len() == 0 {
            "."@
        } else {
            rel
        },
        None => user_path,
    }
}

/// Makes a path the user typed relative to the reservoir's root.
pub fn adjust_path(cwd: &str, root: &str, user_path: &str) -> (r: String)
    ensures
        r@ == adjust_path_spec(cwd@, root@, user_path@),
{
    let abs = path_join(cwd, user_path);
    match path_strip_prefix(abs.as_str(), root) {
        Some(rel) => {
            if rel.as_str().is_empty() {
                owned(".")
            } else {
                rel
            }
        },
        None => owned(user_path),
    }
}

/// An override path of `dam collect` as seen from the reservoir's root: an
/// empty one (no file given) stays empty, and nothing changes outside a
/// reservoir.
pub open spec fn adjust_override_spec(
    cwd: Seq<char>,
    root: Option<Seq<char>>,
    p: Option<Seq<char>>,
) -> Option<Seq<char>> {
    match p {
        Some(x) => if x.len() == 0 {
            Some(x)
        } else {
            match root {
                Some(r) => Some(adjust_path_spec(cwd, r, x)),
                None => Some(x),
            }
        },
        None => None,
    }
}

/// Makes an override path of `dam collect` relative to the reservoir.
pub fn adjust_override(cwd: &str, root: Option<&str>, p: Option<String>) -> (r: Option<String>)
    ensures
        crate::dam_toml::opt_view(r) == adjust_override_spec(
            cwd@,
            crate::terminal::opt_str(root),
            crate::dam_toml::opt_view(p),
        ),
{
    match p {
        Some(x) => {
            if x.as_str().is_empty() {
                Some(x)
            } else {
                match root {
                    Some(r) => Some(adjust_path(cwd, r, x.as_str())),
                    None => Some(x),
                }
            }
        },
        None => None,
    }
}

/// The system directories a package manager installs executables into.
pub open spec fn in_system_dir_spec(path: Seq<char>) -> bool {
    ||| path_starts_with_spec(path, "/usr/bin"@)
    ||| path_starts_with_spec(path, "/usr/local/bin"@)
    ||| path_starts_with_spec(path, "/bin"@)
    ||| path_starts_with_spec(path, "/usr/sbin"@)
    ||| path_starts_with_spec(path, "/sbin"@)
}

/// Whether the executable's canonical path lies in a system directory.
pub fn is_system_install(canonical: &str) -> (r: bool)
    ensures
        r == in_system_dir_spec(canonical@),
{
    path_starts_with(canonical, "/usr/bin") || path_starts_with(canonical, "/usr/local/bin")
        || path_starts_with(canonical, "/bin") || path_starts_with(canonical, "/usr/sbin")
        || path_starts_with(canonical, "/sbin")
}

} // verus!

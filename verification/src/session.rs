//! What a run of `dam` decides before a command runs: which reservoir it
//! works in, whether the reservoir's version is supported, whether to warn
//! that the executable is not on the `PATH`, and which form of `apply` and
//! `seal` was asked for.
use vstd::prelude::*;
use crate::reservoir::{config_version, config_version_spec, is_supported_spec, is_supported_version};
use crate::text::{owned, str_eq};

verus! {

// ---------------------------------------------------------------------------
// The reservoir
// ---------------------------------------------------------------------------

/// The first index at or after `from` where `has_dam` holds.
pub open spec fn next_dam(has_dam: Seq<bool>, from: int) -> Option<int>
    decreases has_dam.len() - from,
{
    if from < 0 || from >= has_dam.len() {
        None
    } else if has_dam[from] {
        Some(from)
    } else {
        next_dam(has_dam, from + 1)
    }
}

/// Among a directory and its ancestors (nearest first), flagged where a
/// `.dam` directory exists: the active reservoir is the nearest, the parent
/// reservoir the next one up.
pub open spec fn reservoirs_spec(has_dam: Seq<bool>) -> (Option<int>, Option<int>) {
    match next_dam(has_dam, 0) {
        Some(a) => (Some(a), next_dam(has_dam, a + 1)),
        None => (None, None),
    }
}

fn find_dam(has_dam: &Vec<bool>, from: usize) -> (r: Option<usize>)
    requires
        from <= has_dam@.len(),
    ensures
        match r {
            Some(i) => from <= i < has_dam@.len() && next_dam(has_dam@, from as int) == Some(i as int),
            None => next_dam(has_dam@, from as int) is None,
        },
    decreases has_dam@.len() - from,
{
    if from == has_dam.len() {
        None
    } else if has_dam[from] {
        Some(from)
    } else {
        find_dam(has_dam, from + 1)
    }
}

/// The positions of the active and the parent reservoir among a directory
/// and its ancestors, nearest first.
pub fn find_reservoirs(has_dam: &Vec<bool>) -> (r: (Option<usize>, Option<usize>))
    ensures
        (match r.0 {
            Some(i) => Some(i as int),
            None => None,
        }) == reservoirs_spec(has_dam@).0,
        (match r.1 {
            Some(i) => Some(i as int),
            None => None,
        }) == reservoirs_spec(has_dam@).1,
{
    match find_dam(has_dam, 0) {
        Some(a) => {
            let n = has_dam.len();
            assert(a < n);
            (Some(a), find_dam(has_dam, a + 1))
        },
        None => (None, None),
    }
}

/// The version a reservoir's config declares, when this CLI (at `current`)
/// does not support it.
pub fn unsupported_version(config: &str, current: &str) -> (r: Option<String>)
    ensures
        match r {
            Some(v) => v@ == config_version_spec(config@, false) && !is_supported_spec(v@, current@),
            None => is_supported_spec(config_version_spec(config@, false), current@),
        },
{
    let v = config_version(config, false);
    if is_supported_version(v.as_str(), current) {
        None
    } else {
        Some(v)
    }
}

// ---------------------------------------------------------------------------
// The PATH warning
// ---------------------------------------------------------------------------

/// The escape codes the PATH warning uses; all empty without colors.
pub struct Colors {
    pub bold: &'static str,
    pub reset: &'static str,
    pub yellow: &'static str,
    pub cyan: &'static str,
    pub green: &'static str,
    pub dim: &'static str,
}

impl Colors {
    /// The palette with colors on, or every code empty.
    pub fn for_support(supported: bool) -> (c: Colors)
        ensures
            supported ==> c.bold@ == "\x1b[1m"@ && c.reset@ == "\x1b[0m"@ && c.yellow@
                == "\x1b[1;33m"@ && c.cyan@ == "\x1b[36m"@ && c.green@ == "\x1b[32m"@ && c.dim@
                == "\x1b[2m"@,
            !supported ==> c.bold@ == ""@ && c.reset@ == ""@ && c.yellow@ == ""@ && c.cyan@ == ""@
                && c.green@ == ""@ && c.dim@ == ""@,
    {
        if supported {
            Colors {
                bold: "\x1b[1m",
                reset: "\x1b[0m",
                yellow: "\x1b[1;33m",
                cyan: "\x1b[36m",
                green: "\x1b[32m",
                dim: "\x1b[2m",
            }
        } else {
            Colors { bold: "", reset: "", yellow: "", cyan: "", green: "", dim: "" }
        }
    }
}

/// The running executable is on the `PATH` when one of the `PATH`
/// candidates resolves to the same canonical file.
pub open spec fn on_path_spec(current: Seq<char>, candidates: Seq<Option<String>>) -> bool {
    exists|i: int| 0 <= i < candidates.len() && is_file(#[trigger] candidates[i], current)
}

/// A candidate that resolves to the file `current`.
pub open spec fn is_file(candidate: Option<String>, current: Seq<char>) -> bool {
    candidate matches Some(c) && c@ == current
}

/// Whether one of the `PATH` candidates (canonical, where it exists) is the
/// running executable.
pub fn on_path(current: &str, candidates: &Vec<Option<String>>) -> (r: bool)
    ensures
        r == on_path_spec(current@, candidates@),
{
    let mut i: usize = 0;
    while i < candidates.len()
        invariant
            0 <= i <= candidates@.len(),
            forall|j: int| 0 <= j < i ==> !is_file(#[trigger] candidates@[j], current@),
        decreases candidates@.len() - i,
    {
        match &candidates[i] {
            Some(c) => {
                if str_eq(c.as_str(), current) {
                    assert(is_file(candidates@[i as int], current@));
                    return true;
                }
            },
            None => {},
        }
        i = i + 1;
    }
    false
}

/// The PATH warning is shown unless it is switched off by the environment
/// or by the marker file, and only when the executable is not on the PATH.
pub open spec fn warn_path_spec(disabled: bool, marker_exists: bool, on_path: bool) -> bool {
    !disabled && !marker_exists && !on_path
}

/// Whether to show the PATH warning.
pub fn should_warn_path(disabled: bool, marker_exists: bool, on_path: bool) -> (r: bool)
    ensures
        r == warn_path_spec(disabled, marker_exists, on_path),
{
    !disabled && !marker_exists && !on_path
}

/// `parts` concatenated.
pub open spec fn concat(parts: Seq<Seq<char>>) -> Seq<char>
    decreases parts.len(),
{
    if parts.len() == 0 {
        Seq::empty()
    } else {
        concat(parts.drop_last()) + parts.last()
    }
}

fn concat_strs(parts: &Vec<&str>) -> (r: String)
    ensures
        r@ == concat(parts@.map_values(|p: &str| p@)),
{
    let ghost ps = parts@.map_values(|p: &str| p@);
    let mut s = String::new();
    let mut i: usize = 0;
    while i < parts.len()
        invariant
            0 <= i <= parts@.len(),
            ps == parts@.map_values(|p: &str| p@),
            s@ == concat(ps.take(i as int)),
        decreases parts@.len() - i,
    {
        s.append(parts[i]);
        proof {
            assert(ps.take(i + 1).drop_last() =~= ps.take(i as int));
        }
        i = i + 1;
    }
    assert(ps.take(i as int) =~= ps);
    s
}

/// The lines of the PATH warning for an executable in `dir`: what is wrong,
/// where it runs from, and the command that adds `dir` to the PATH on
/// Windows or on macOS and Linux.
pub open spec fn path_warning_spec(c: Colors, dir: Seq<char>, windows: bool) -> Seq<Seq<char>> {
    let head = seq![
        concat(seq![c.yellow@, "⚠️  Warning: The 'dam' executable is not in your system PATH."@, c.reset@]),
        concat(seq!["You are currently running it directly from: "@, c.cyan@, dir, c.reset@]),
        "To run 'dam' from anywhere, please add its folder to your PATH.\n"@,
    ];
    if windows {
        head + seq![
            concat(seq!["To add it on "@, c.bold@, "Windows"@, c.reset@, ", run this in PowerShell:"@]),
            concat(
                seq![
                    "  "@,
                    c.green@,
                    "[Environment]::SetEnvironmentVariable(\"Path\", $env:Path + \";"@,
                    dir,
                    "\", \"User\")"@,
                    c.reset@,
                    "\n"@,
                ],
            ),
        ]
    } else {
        head + seq![
            concat(seq!["To add it on "@, c.bold@, "macOS / Linux"@, c.reset@, ", run this in your terminal:"@]),
            concat(seq!["  "@, c.green@, "echo 'export PATH=\"$PATH:"@, dir, "\"' >> ~/.zshrc"@, c.reset@]),
            concat(seq!["  "@, c.dim@, "(Replace ~/.zshrc with ~/.bashrc if you use bash)"@, c.reset@, "\n"@]),
        ]
    }
}

/// The lines of the PATH warning.
pub fn path_warning(c: &Colors, dir: &str, windows: bool) -> (r: Vec<String>)
    ensures
        r@.map_values(|s: String| s@) == path_warning_spec(*c, dir@, windows),
{
    let mut r: Vec<String> = Vec::new();
    r.push(concat_strs(&vec![c.yellow, "⚠️  Warning: The 'dam' executable is not in your system PATH.", c.reset]));
    r.push(concat_strs(&vec!["You are currently running it directly from: ", c.cyan, dir, c.reset]));
    r.push(owned("To run 'dam' from anywhere, please add its folder to your PATH.\n"));
    if windows {
        r.push(concat_strs(&vec!["To add it on ", c.bold, "Windows", c.reset, ", run this in PowerShell:"]));
        r.push(
            concat_strs(
                &vec![
                    "  ",
                    c.green,
                    "[Environment]::SetEnvironmentVariable(\"Path\", $env:Path + \";",
                    dir,
                    "\", \"User\")",
                    c.reset,
                    "\n",
                ],
            ),
        );
    } else {
        r.push(concat_strs(&vec!["To add it on ", c.bold, "macOS / Linux", c.reset, ", run this in your terminal:"]));
        r.push(concat_strs(&vec!["  ", c.green, "echo 'export PATH=\"$PATH:", dir, "\"' >> ~/.zshrc", c.reset]));
        r.push(concat_strs(&vec!["  ", c.dim, "(Replace ~/.zshrc with ~/.bashrc if you use bash)", c.reset, "\n"]));
    }
    proof {
        let vs = r@.map_values(|s: String| s@);
        assert(vs =~= path_warning_spec(*c, dir@, windows)) by {
            reveal_with_fuel(concat, 8);
        }
    }
    r
}

// ---------------------------------------------------------------------------
// Commands
// ---------------------------------------------------------------------------

/// Which seal `dam apply` restores.
pub enum ApplyRequest {
    /// `--latest` and `--latest-global` together.
    Conflict,
    LatestGlobal,
    Latest,
    Seal(String),
    /// Neither a seal nor `--latest` / `--latest-global`.
    Missing,
}

/// What `dam apply` was asked for: the two `--latest` flags exclude each
/// other, then the global one, the stream's one, and a named seal.
pub open spec fn apply_request_spec(seal_id: Option<String>, latest: bool, latest_global: bool) -> ApplyRequest {
    if latest && latest_global {
        ApplyRequest::Conflict
    } else if latest_global {
        ApplyRequest::LatestGlobal
    } else if latest {
        ApplyRequest::Latest
    } else {
        match seal_id {
            Some(id) => ApplyRequest::Seal(id),
            None => ApplyRequest::Missing,
        }
    }
}

/// Reads the arguments of `dam apply`.
pub fn apply_request(seal_id: Option<String>, latest: bool, latest_global: bool) -> (r: ApplyRequest)
    ensures
        r == apply_request_spec(seal_id, latest, latest_global),
{
    if latest && latest_global {
        ApplyRequest::Conflict
    } else if latest_global {
        ApplyRequest::LatestGlobal
    } else if latest {
        ApplyRequest::Latest
    } else {
        match seal_id {
            Some(id) => ApplyRequest::Seal(id),
            None => ApplyRequest::Missing,
        }
    }
}

/// What `dam seal` does.
pub enum SealRequest {
    /// List the last `n` seals.
    List(usize),
    /// Seal the staged files with this message.
    Create(String),
    /// Neither a message nor `--list`.
    Missing,
}

/// Reads the arguments of `dam seal`: `--list` wins over a message.
pub fn seal_request(message: Option<String>, list: Option<usize>) -> (r: SealRequest)
    ensures
        r == (match list {
            Some(n) => SealRequest::List(n),
            None => match message {
                Some(m) => SealRequest::Create(m),
                None => SealRequest::Missing,
            },
        }),
{
    match list {
        Some(n) => SealRequest::List(n),
        None => match message {
            Some(m) => SealRequest::Create(m),
            None => SealRequest::Missing,
        },
    }
}

} // verus!

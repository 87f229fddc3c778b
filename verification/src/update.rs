//! Self-update: the published manifest, when to check for it and when to
//! prompt, which payload fits the platform, what a valid payload looks
//! like, and the package managers `dam` may have been installed with.
use vstd::prelude::*;
use crate::import::last_piece;
use crate::text::{
    after_last, chars_of, join_with, lower_text, owned, str_ends_with, str_eq,
    string_from_range, to_lowercase,
};
use crate::version::{is_newer_spec, is_newer_version};

verus! {

// ---------------------------------------------------------------------------
// The manifest and the cache
// ---------------------------------------------------------------------------

/// How strongly an update is pushed.
#[derive(Clone, Copy, Debug, PartialEq, Eq, Structural)]
pub enum Urgency {
    Soft,
    Medium,
    Urgent,
}

impl Default for Urgency {
    fn default() -> (r: Urgency)
        ensures
            r == Urgency::Soft,
    {
        Urgency::Soft
    }
}

/// Where a platform's payload is and its SHA-256 checksum.
pub struct PlatformDownload {
    pub url: String,
    pub checksum: String,
}

/// The payloads per platform.
pub struct Downloads {
    pub windows: Option<PlatformDownload>,
    pub linux: Option<PlatformDownload>,
}

/// The manifest the update server publishes.
pub struct UpdateManifest {
    pub version: String,
    pub urgency: Urgency,
    pub description: String,
    pub whats_new_url: String,
    pub downloads: Downloads,
}

/// What the background check remembers between runs.
pub struct UpdateCache {
    /// When the manifest was last fetched (seconds since the epoch).
    pub last_checked: u64,
    /// When the user was last prompted.
    pub last_notified: u64,
    pub manifest: Option<UpdateManifest>,
}

impl Default for UpdateCache {
    fn default() -> (r: UpdateCache)
        ensures
            r.last_checked == 0,
            r.last_notified == 0,
            r.manifest is None,
    {
        UpdateCache { last_checked: 0, last_notified: 0, manifest: None }
    }
}

/// Where the changelog is when the manifest names none.
pub fn default_whats_new() -> (r: String)
    ensures
        r@ == "https://dam-pcp.web.app/docs#whats-new"@,
{
    owned("https://dam-pcp.web.app/docs#whats-new")
}

/// `a - b`, or 0 when `b` is larger.
pub open spec fn saturating_diff(a: u64, b: u64) -> int {
    if a >= b {
        a - b
    } else {
        0
    }
}

/// A day, in seconds.
pub const DAY_SECS: u64 = 86400;

/// The background check fetches the manifest once a day.
pub open spec fn check_due_spec(now: u64, last_checked: u64) -> bool {
    saturating_diff(now, last_checked) >= DAY_SECS
}

/// Whether the background check should fetch the manifest at `now`.
pub fn check_due(now: u64, last_checked: u64) -> (r: bool)
    ensures
        r == check_due_spec(now, last_checked),
{
    now.saturating_sub(last_checked) >= DAY_SECS
}

/// Records a fetch of the manifest at `now`: a fetched manifest is kept
/// and the check is done for the day; after a failed fetch the check is
/// due again an hour later.
pub fn record_check(cache: &mut UpdateCache, now: u64, fetched: Option<UpdateManifest>)
    ensures
        final(cache).last_notified == old(cache).last_notified,
        match fetched {
            Some(m) => final(cache).last_checked == now && final(cache).manifest == Some(m),
            None => final(cache).last_checked == saturating_diff(now, (DAY_SECS - 3600) as u64)
                && final(cache).manifest == old(cache).manifest,
        },
{
    match fetched {
        Some(m) => {
            cache.last_checked = now;
            cache.manifest = Some(m);
        },
        None => {
            cache.last_checked = now.saturating_sub(DAY_SECS - 3600);
        },
    }
}

/// Whether a newer version of `urgency` is announced at `now`: urgent ones
/// every time, medium ones once a day, soft ones every three days.
pub open spec fn should_prompt_spec(urgency: Urgency, now: u64, last_notified: u64) -> bool {
    match urgency {
        Urgency::Urgent => true,
        Urgency::Medium => saturating_diff(now, last_notified) >= DAY_SECS,
        Urgency::Soft => saturating_diff(now, last_notified) >= 3 * DAY_SECS,
    }
}

/// Whether an update of `urgency` is announced at `now`.
pub fn should_prompt(urgency: Urgency, now: u64, last_notified: u64) -> (r: bool)
    ensures
        r == should_prompt_spec(urgency, now, last_notified),
{
    let since = now.saturating_sub(last_notified);
    match urgency {
        Urgency::Urgent => true,
        Urgency::Medium => since >= DAY_SECS,
        Urgency::Soft => since >= 3 * DAY_SECS,
    }
}

/// The background check prompts when the cached manifest announces a newer
/// version than `current` and its urgency calls for a prompt now.
pub open spec fn auto_prompt_spec(cache: UpdateCache, current: Seq<char>, now: u64) -> bool {
    match cache.manifest {
        Some(m) => is_newer_spec(current, m.version@) && should_prompt_spec(
            m.urgency,
            now,
            cache.last_notified,
        ),
        None => false,
    }
}

/// Whether the background check prompts for an update at `now`.
pub fn auto_check_prompts(cache: &UpdateCache, current: &str, now: u64) -> (r: bool)
    ensures
        r == auto_prompt_spec(*cache, current@, now),
{
    match &cache.manifest {
        Some(m) => is_newer_version(current, m.version.as_str()) && should_prompt(
            m.urgency,
            now,
            cache.last_notified,
        ),
        None => false,
    }
}

// ---------------------------------------------------------------------------
// The payload
// ---------------------------------------------------------------------------

/// The payload for the operating system `os`, when there is one.
pub fn payload_for_os<'a>(downloads: &'a Downloads, os: &str) -> (r: Option<&'a PlatformDownload>)
    ensures
        r == (if os@ == "windows"@ {
            match downloads.windows {
                Some(d) => Some(&d),
                None => None,
            }
        } else if os@ == "linux"@ {
            match downloads.linux {
                Some(d) => Some(&d),
                None => None,
            }
        } else {
            None
        }),
{
    if str_eq(os, "windows") {
        match &downloads.windows {
            Some(d) => Some(d),
            None => None,
        }
    } else if str_eq(os, "linux") {
        match &downloads.linux {
            Some(d) => Some(d),
            None => None,
        }
    } else {
        None
    }
}

/// The file a payload is saved under: the last `/` segment of its URL.
pub fn payload_file_name(url: &str) -> (r: String)
    ensures
        r@ == after_last(url@, '/'),
{
    let v = chars_of(url);
    assert(v@.subrange(0, v@.len() as int) =~= v@);
    let a = last_piece(&v, 0, v.len(), '/');
    string_from_range(&v, a, v.len())
}

/// The executable's file name on `os`.
pub fn binary_name(os: &str) -> (r: &'static str)
    ensures
        r@ == (if os@ == "windows"@ {
            "dam.exe"@
        } else {
            "dam"@
        }),
{
    if str_eq(os, "windows") {
        "dam.exe"
    } else {
        "dam"
    }
}

/// Whether a payload file is a zip archive: its name, lower-cased, ends
/// with `.zip`.
pub fn is_zip_payload(file_name: &str) -> (r: bool)
    ensures
        r == ".zip"@.is_suffix_of(lower_text(file_name@)),
{
    let lower = to_lowercase(file_name);
    str_ends_with(lower.as_str(), ".zip")
}

/// The first bytes of an ELF, a Windows (MZ) or a Mach-O executable.
pub open spec fn executable_magic_spec(m: Seq<u8>) -> bool {
    ||| m == seq![0x7fu8, 0x45u8, 0x4cu8, 0x46u8]
    ||| (m[0] == 0x4du8 && m[1] == 0x5au8)
    ||| m == seq![0xfeu8, 0xedu8, 0xfau8, 0xceu8]
    ||| m == seq![0xfeu8, 0xedu8, 0xfau8, 0xcfu8]
    ||| m == seq![0xcfu8, 0xfau8, 0xedu8, 0xfeu8]
    ||| m == seq![0xceu8, 0xfau8, 0xedu8, 0xfeu8]
}

/// Whether the first four bytes of a file mark an executable.
pub fn is_executable_magic(m: &[u8; 4]) -> (r: bool)
    ensures
        r == executable_magic_spec(m@),
{
    let is_elf = m[0] == 0x7f && m[1] == 0x45 && m[2] == 0x4c && m[3] == 0x46;
    let is_mz = m[0] == 0x4d && m[1] == 0x5a;
    let is_macho = (m[0] == 0xfe && m[1] == 0xed && m[2] == 0xfa && m[3] == 0xce) || (m[0] == 0xfe
        && m[1] == 0xed && m[2] == 0xfa && m[3] == 0xcf) || (m[0] == 0xcf && m[1] == 0xfa && m[2]
        == 0xed && m[3] == 0xfe) || (m[0] == 0xce && m[1] == 0xfa && m[2] == 0xed && m[3] == 0xfe);
    proof {
        assert(m@.len() == 4);
        if m[0] == 0x7f && m[1] == 0x45 && m[2] == 0x4c && m[3] == 0x46 {
            assert(m@ =~= seq![0x7fu8, 0x45u8, 0x4cu8, 0x46u8]);
        }
        if m[0] == 0xfe && m[1] == 0xed && m[2] == 0xfa && m[3] == 0xce {
            assert(m@ =~= seq![0xfeu8, 0xedu8, 0xfau8, 0xceu8]);
        }
        if m[0] == 0xfe && m[1] == 0xed && m[2] == 0xfa && m[3] == 0xcf {
            assert(m@ =~= seq![0xfeu8, 0xedu8, 0xfau8, 0xcfu8]);
        }
        if m[0] == 0xcf && m[1] == 0xfa && m[2] == 0xed && m[3] == 0xfe {
            assert(m@ =~= seq![0xcfu8, 0xfau8, 0xedu8, 0xfeu8]);
        }
        if m[0] == 0xce && m[1] == 0xfa && m[2] == 0xed && m[3] == 0xfe {
            assert(m@ =~= seq![0xceu8, 0xfau8, 0xedu8, 0xfeu8]);
        }
    }
    is_elf || is_mz || is_macho
}

/// After a failed fetch at `now` (late enough that an hour can be taken
/// off), the check is not due again before an hour has passed, and is due
/// once it has.
pub proof fn law_failed_check_retries_after_an_hour(now: u64, later: u64)
    requires
        now >= DAY_SECS - 3600,
        later >= now,
    ensures
        check_due_spec(later, (now - (DAY_SECS - 3600)) as u64) <==> later - now >= 3600,
{
}

/// After a successful fetch at `now`, the next check is due exactly a day
/// later.
pub proof fn law_fetched_check_waits_a_day(now: u64, later: u64)
    requires
        later >= now,
    ensures
        check_due_spec(later, now) <==> later - now >= DAY_SECS,
{
}

// ---------------------------------------------------------------------------
// Package managers
// ---------------------------------------------------------------------------

/// A package manager `dam` may have been installed with.
#[derive(Clone, Copy, Debug, PartialEq, Eq, Structural)]
pub enum PackageManager {
    Pacman,
    Apt,
    AptGet,
    Dnf,
    Yum,
}

/// The words of a command line.
pub open spec fn word_views(c: Vec<&str>) -> Seq<Seq<char>> {
    c@.map_values(|w: &str| w@)
}

/// The words of each command line.
pub open spec fn command_views(cmds: Seq<Vec<&str>>) -> Seq<Seq<Seq<char>>> {
    cmds.map_values(|c: Vec<&str>| word_views(c))
}

/// A command line shown as typed: its words joined by spaces.
pub open spec fn shown(cmd: Seq<Seq<char>>) -> Seq<char> {
    join_with(cmd, " "@)
}

/// Command lines shown as typed one after the other: joined by ` && `.
pub open spec fn shown_all(cmds: Seq<Seq<Seq<char>>>) -> Seq<char> {
    join_with(cmds.map_values(|c: Seq<Seq<char>>| shown(c)), " && "@)
}

impl PackageManager {
    /// The commands that upgrade `dam`.
    pub open spec fn commands_spec(self) -> Seq<Seq<Seq<char>>> {
        match self {
            PackageManager::Pacman => seq![seq!["sudo"@, "pacman"@, "-Syu"@, "dam"@]],
            PackageManager::Apt => seq![
                seq!["sudo"@, "apt"@, "update"@],
                seq!["sudo"@, "apt"@, "install"@, "--only-upgrade"@, "dam"@],
            ],
            PackageManager::AptGet => seq![
                seq!["sudo"@, "apt-get"@, "update"@],
                seq!["sudo"@, "apt-get"@, "install"@, "--only-upgrade"@, "dam"@],
            ],
            PackageManager::Dnf => seq![seq!["sudo"@, "dnf"@, "upgrade"@, "dam"@]],
            PackageManager::Yum => seq![seq!["sudo"@, "yum"@, "update"@, "dam"@]],
        }
    }

    /// The commands that refresh the package metadata.
    pub open spec fn refresh_commands_spec(self) -> Seq<Seq<Seq<char>>> {
        match self {
            PackageManager::Pacman => seq![seq!["sudo"@, "pacman"@, "-Sy"@]],
            PackageManager::Apt => seq![seq!["sudo"@, "apt"@, "update"@]],
            PackageManager::AptGet => seq![seq!["sudo"@, "apt-get"@, "update"@]],
            PackageManager::Dnf => seq![seq!["sudo"@, "dnf"@, "makecache"@]],
            PackageManager::Yum => seq![seq!["sudo"@, "yum"@, "makecache"@]],
        }
    }

    /// The commands that upgrade `dam`, word by word.
    pub fn commands(&self) -> (r: Vec<Vec<&'static str>>)
        ensures
            command_views(r@) == self.commands_spec(),
    {
        let (a, b): (Vec<&'static str>, Option<Vec<&'static str>>) = match self {
            PackageManager::Pacman => (vec!["sudo", "pacman", "-Syu", "dam"], None),
            PackageManager::Apt => (
                vec!["sudo", "apt", "update"],
                Some(vec!["sudo", "apt", "install", "--only-upgrade", "dam"]),
            ),
            PackageManager::AptGet => (
                vec!["sudo", "apt-get", "update"],
                Some(vec!["sudo", "apt-get", "install", "--only-upgrade", "dam"]),
            ),
            PackageManager::Dnf => (vec!["sudo", "dnf", "upgrade", "dam"], None),
            PackageManager::Yum => (vec!["sudo", "yum", "update", "dam"], None),
        };
        let ghost wa = word_views(a);
        proof {
            match self {
                PackageManager::Pacman => {
                    assert(wa =~= seq!["sudo"@, "pacman"@, "-Syu"@, "dam"@]);
                },
                PackageManager::Apt => {
                    assert(wa =~= seq!["sudo"@, "apt"@, "update"@]);
                    assert(word_views(b->0) =~= seq!["sudo"@, "apt"@, "install"@, "--only-upgrade"@, "dam"@]);
                },
                PackageManager::AptGet => {
                    assert(wa =~= seq!["sudo"@, "apt-get"@, "update"@]);
                    assert(word_views(b->0) =~= seq!["sudo"@, "apt-get"@, "install"@, "--only-upgrade"@, "dam"@]);
                },
                PackageManager::Dnf => {
                    assert(wa =~= seq!["sudo"@, "dnf"@, "upgrade"@, "dam"@]);
                },
                PackageManager::Yum => {
                    assert(wa =~= seq!["sudo"@, "yum"@, "update"@, "dam"@]);
                },
            }
        }
        let mut r: Vec<Vec<&'static str>> = Vec::new();
        r.push(a);
        match b {
            Some(x) => {
                r.push(x);
            },
            None => {},
        }
        assert(command_views(r@) =~= self.commands_spec());
        r
    }

    /// The commands that refresh the package metadata, word by word.
    pub fn refresh_commands(&self) -> (r: Vec<Vec<&'static str>>)
        ensures
            command_views(r@) == self.refresh_commands_spec(),
    {
        let a: Vec<&'static str> = match self {
            PackageManager::Pacman => vec!["sudo", "pacman", "-Sy"],
            PackageManager::Apt => vec!["sudo", "apt", "update"],
            PackageManager::AptGet => vec!["sudo", "apt-get", "update"],
            PackageManager::Dnf => vec!["sudo", "dnf", "makecache"],
            PackageManager::Yum => vec!["sudo", "yum", "makecache"],
        };
        proof {
            let wa = word_views(a);
            match self {
                PackageManager::Pacman => {
                    assert(wa =~= seq!["sudo"@, "pacman"@, "-Sy"@]);
                },
                PackageManager::Apt => {
                    assert(wa =~= seq!["sudo"@, "apt"@, "update"@]);
                },
                PackageManager::AptGet => {
                    assert(wa =~= seq!["sudo"@, "apt-get"@, "update"@]);
                },
                PackageManager::Dnf => {
                    assert(wa =~= seq!["sudo"@, "dnf"@, "makecache"@]);
                },
                PackageManager::Yum => {
                    assert(wa =~= seq!["sudo"@, "yum"@, "makecache"@]);
                },
            }
        }
        let mut r: Vec<Vec<&'static str>> = Vec::new();
        r.push(a);
        assert(command_views(r@) =~= self.refresh_commands_spec());
        r
    }

    /// The upgrade as the user would type it.
    pub open spec fn display_command_spec(self) -> Seq<char> {
        match self {
            PackageManager::Pacman => "sudo pacman -Syu dam"@,
            PackageManager::Apt => "sudo apt update && sudo apt install --only-upgrade dam"@,
            PackageManager::AptGet => "sudo apt-get update && sudo apt-get install --only-upgrade dam"@,
            PackageManager::Dnf => "sudo dnf upgrade dam"@,
            PackageManager::Yum => "sudo yum update dam"@,
        }
    }

    /// The metadata refresh as the user would type it.
    pub open spec fn display_refresh_command_spec(self) -> Seq<char> {
        match self {
            PackageManager::Pacman => "sudo pacman -Sy"@,
            PackageManager::Apt => "sudo apt update"@,
            PackageManager::AptGet => "sudo apt-get update"@,
            PackageManager::Dnf => "sudo dnf makecache"@,
            PackageManager::Yum => "sudo yum makecache"@,
        }
    }

    /// The upgrade as the user would type it.
    pub fn display_command(&self) -> (r: String)
        ensures
            r@ == self.display_command_spec(),
    {
        match self {
            PackageManager::Pacman => owned("sudo pacman -Syu dam"),
            PackageManager::Apt => owned("sudo apt update && sudo apt install --only-upgrade dam"),
            PackageManager::AptGet => owned(
                "sudo apt-get update && sudo apt-get install --only-upgrade dam",
            ),
            PackageManager::Dnf => owned("sudo dnf upgrade dam"),
            PackageManager::Yum => owned("sudo yum update dam"),
        }
    }

    /// The metadata refresh as the user would type it.
    pub fn display_refresh_command(&self) -> (r: String)
        ensures
            r@ == self.display_refresh_command_spec(),
    {
        match self {
            PackageManager::Pacman => owned("sudo pacman -Sy"),
            PackageManager::Apt => owned("sudo apt update"),
            PackageManager::AptGet => owned("sudo apt-get update"),
            PackageManager::Dnf => owned("sudo dnf makecache"),
            PackageManager::Yum => owned("sudo yum makecache"),
        }
    }

    /// The program's name.
    pub fn label(&self) -> (r: &'static str)
        ensures
            r@ == match self {
                PackageManager::Pacman => "pacman"@,
                PackageManager::Apt => "apt"@,
                PackageManager::AptGet => "apt-get"@,
                PackageManager::Dnf => "dnf"@,
                PackageManager::Yum => "yum"@,
            },
    {
        match self {
            PackageManager::Pacman => "pacman",
            PackageManager::Apt => "apt",
            PackageManager::AptGet => "apt-get",
            PackageManager::Dnf => "dnf",
            PackageManager::Yum => "yum",
        }
    }
}

/// The package manager a system-wide install came from: the first of
/// pacman, apt, apt-get, dnf and yum that is present; none for an install
/// outside the system directories.
pub fn detect_package_manager(
    system_install: bool,
    has_pacman: bool,
    has_apt: bool,
    has_apt_get: bool,
    has_dnf: bool,
    has_yum: bool,
) -> (r: Option<PackageManager>)
    ensures
        r == (if !system_install {
            None
        } else if has_pacman {
            Some(PackageManager::Pacman)
        } else if has_apt {
            Some(PackageManager::Apt)
        } else if has_apt_get {
            Some(PackageManager::AptGet)
        } else if has_dnf {
            Some(PackageManager::Dnf)
        } else if has_yum {
            Some(PackageManager::Yum)
        } else {
            None
        }),
{
    if !system_install {
        None
    } else if has_pacman {
        Some(PackageManager::Pacman)
    } else if has_apt {
        Some(PackageManager::Apt)
    } else if has_apt_get {
        Some(PackageManager::AptGet)
    } else if has_dnf {
        Some(PackageManager::Dnf)
    } else if has_yum {
        Some(PackageManager::Yum)
    } else {
        None
    }
}

/// The upgrade shown to the user is exactly the commands run, each with
/// its words joined by spaces, joined by ` && `; the same holds of the
/// metadata refresh.
pub proof fn law_display_command_is_commands_run(pm: PackageManager)
    ensures
        pm.display_command_spec() == shown_all(pm.commands_spec()),
        pm.display_refresh_command_spec() == shown_all(pm.refresh_commands_spec()),
{
    reveal_with_fuel(join_with, 6);
    reveal_strlit("sudo");
    reveal_strlit(" ");
    reveal_strlit(" && ");
    reveal_strlit("dam");
    reveal_strlit("update");
    reveal_strlit("install");
    reveal_strlit("--only-upgrade");
    reveal_strlit("makecache");
    let c = pm.commands_spec();
    let f = pm.refresh_commands_spec();
    assert(f.map_values(|x: Seq<Seq<char>>| shown(x)) =~= seq![shown(f[0])]);
    match pm {
        PackageManager::Pacman => {
            reveal_strlit("pacman");
            reveal_strlit("-Syu");
            reveal_strlit("-Sy");
            reveal_strlit("sudo pacman -Syu dam");
            reveal_strlit("sudo pacman -Sy");
            assert(c.map_values(|x: Seq<Seq<char>>| shown(x)) =~= seq![shown(c[0])]);
            assert(shown(c[0]) =~= "sudo pacman -Syu dam"@);
            assert(shown(f[0]) =~= "sudo pacman -Sy"@);
        },
        PackageManager::Apt => {
            reveal_strlit("apt");
            reveal_strlit("sudo apt update && sudo apt install --only-upgrade dam");
            reveal_strlit("sudo apt update");
            assert(c.map_values(|x: Seq<Seq<char>>| shown(x)) =~= seq![shown(c[0]), shown(c[1])]);
            assert(shown(c[0]) =~= "sudo apt update"@);
            assert(shown(c[0]) + " && "@ + shown(c[1])
                =~= "sudo apt update && sudo apt install --only-upgrade dam"@);
            assert(shown(f[0]) =~= "sudo apt update"@);
        },
        PackageManager::AptGet => {
            reveal_strlit("apt-get");
            reveal_strlit("sudo apt-get update && sudo apt-get install --only-upgrade dam");
            reveal_strlit("sudo apt-get update");
            assert(c.map_values(|x: Seq<Seq<char>>| shown(x)) =~= seq![shown(c[0]), shown(c[1])]);
            assert(shown(c[0]) =~= "sudo apt-get update"@);
            assert(shown(c[0]) + " && "@ + shown(c[1])
                =~= "sudo apt-get update && sudo apt-get install --only-upgrade dam"@);
            assert(shown(f[0]) =~= "sudo apt-get update"@);
        },
        PackageManager::Dnf => {
            reveal_strlit("dnf");
            reveal_strlit("upgrade");
            reveal_strlit("sudo dnf upgrade dam");
            reveal_strlit("sudo dnf makecache");
            assert(c.map_values(|x: Seq<Seq<char>>| shown(x)) =~= seq![shown(c[0])]);
            assert(shown(c[0]) =~= "sudo dnf upgrade dam"@);
            assert(shown(f[0]) =~= "sudo dnf makecache"@);
        },
        PackageManager::Yum => {
            reveal_strlit("yum");
            reveal_strlit("sudo yum update dam");
            reveal_strlit("sudo yum makecache");
            assert(c.map_values(|x: Seq<Seq<char>>| shown(x)) =~= seq![shown(c[0])]);
            assert(shown(c[0]) =~= "sudo yum update dam"@);
            assert(shown(f[0]) =~= "sudo yum makecache"@);
        },
    }
}

// ---------------------------------------------------------------------------
// The prompt
// ---------------------------------------------------------------------------

/// The escape codes the update prompt uses; all empty without colors.
pub struct Colors {
    pub bold: &'static str,
    pub reset: &'static str,
    pub underline: &'static str,
    pub red: &'static str,
    pub green: &'static str,
    pub yellow: &'static str,
    pub blue: &'static str,
}

impl Colors {
    /// The palette with colors on, or every code empty.
    pub fn for_support(supported: bool) -> (c: Colors)
        ensures
            supported ==> c.bold@ == "\x1b[1m"@ && c.reset@ == "\x1b[0m"@ && c.underline@
                == "\x1b[4m"@ && c.red@ == "\x1b[1;31m"@ && c.green@ == "\x1b[1;32m"@ && c.yellow@
                == "\x1b[1;33m"@ && c.blue@ == "\x1b[34m"@,
            !supported ==> c.bold@ == ""@ && c.reset@ == ""@ && c.underline@ == ""@ && c.red@
                == ""@ && c.green@ == ""@ && c.yellow@ == ""@ && c.blue@ == ""@,
    {
        if supported {
            Colors {
                bold: "\x1b[1m",
                reset: "\x1b[0m",
                underline: "\x1b[4m",
                red: "\x1b[1;31m",
                green: "\x1b[1;32m",
                yellow: "\x1b[1;33m",
                blue: "\x1b[34m",
            }
        } else {
            Colors { bold: "", reset: "", underline: "", red: "", green: "", yellow: "", blue: "" }
        }
    }

    /// The color an urgency is shown in: red, yellow or green.
    pub fn urgency_color(&self, u: Urgency) -> (r: &'static str)
        ensures
            r == match u {
                Urgency::Urgent => self.red,
                Urgency::Medium => self.yellow,
                Urgency::Soft => self.green,
            },
    {
        match u {
            Urgency::Urgent => self.red,
            Urgency::Medium => self.yellow,
            Urgency::Soft => self.green,
        }
    }
}

/// An urgency's name as the prompt shows it.
pub fn urgency_label(u: Urgency) -> (r: &'static str)
    ensures
        r@ == match u {
            Urgency::Urgent => "Urgent"@,
            Urgency::Medium => "Medium"@,
            Urgency::Soft => "Soft"@,
        },
{
    match u {
        Urgency::Urgent => "Urgent",
        Urgency::Medium => "Medium",
        Urgency::Soft => "Soft",
    }
}

} // verus!

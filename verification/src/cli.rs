//! The command line of `dam`: the commands and their arguments, as the
//! argument parser hands them over.
use vstd::prelude::*;

verus! {

/// A parsed command line.
pub struct Cli {
    pub command: Commands,
}

/// The commands of `dam`.
pub enum Commands {
    /// Initialize a reservoir in the current directory (or upgrade one).
    Source { name: Option<String>, profile: Option<String>, upgrade: bool },
    /// Show the reservoir's state, its rule files, or a `.dam` archive.
    Inspect { rules: bool, target: Option<String> },
    /// Empty a section such as the staging area.
    Drain { target: String },
    /// Delete the reservoir, or archive it first.
    Destroy { archive: bool },
    /// Collect files into the staging area through the rule engine.
    Collect {
        path: String,
        override_purities: Option<String>,
        override_impurities: Option<String>,
        rule_priority: Option<String>,
    },
    /// Seal the staged files, or list the last seals.
    Seal { message: Option<String>, list: Option<usize> },
    /// Show the history of seals.
    Timeline { graph: bool },
    /// Manage streams.
    Stream { command: Option<StreamCommands> },
    /// Switch the active stream.
    Flowinto { name: String },
    /// Restore the workspace to a seal.
    Apply { seal_id: Option<String>, preview: bool, latest: bool, latest_global: bool },
    /// Merge another stream into the active one.
    Merge { source: Option<String>, apply: bool },
    /// Export a seal or the project.
    Export { target: ExportTarget },
    /// Import a bundle, an archive or a Git repository.
    Import { source: String, merge: bool, branch: Option<String> },
    /// Read or change settings.
    Settings { key: Option<String>, value: Option<String>, interactive: bool },
    /// Manage credentials.
    Creds { command: CredsCommands },
    /// Sync streams or releases with a cloud platform.
    Sync {
        stream: Option<String>,
        action: Option<String>,
        platform: Option<String>,
        force: bool,
        verbose: bool,
        releases: bool,
        clone: Option<String>,
    },
    /// Check for a newer `dam`.
    Update,
    /// List or check out pull requests.
    Pr { command: Option<PrCommands> },
    /// Manage releases.
    Releases { command: Option<ReleasesCommands> },
    /// Manage stable versions of streams.
    Stable { command: Option<StableCommands> },
}

impl Commands {
    /// Every command but `update` runs the background update check first.
    pub fn runs_update_check(&self) -> (r: bool)
        ensures
            r == !(self is Update),
    {
        match self {
            Commands::Update => false,
            _ => true,
        }
    }
}

/// The subcommands of `dam stream`.
pub enum StreamCommands {
    Create {
        name: String,
        from: Option<String>,
        description: Option<String>,
        owner: Option<String>,
        priority: Option<String>,
        target: Option<String>,
    },
    Inspect { name: Option<String> },
    Delete { name: String },
    Goal { name: String, clear: bool, text: Option<String> },
    Notes { name: String, clear: bool, text: Option<String> },
    Description { name: String, clear: bool, text: Option<String> },
    Target { name: String, clear: bool, text: Option<String> },
}

/// What `dam export` exports.
pub enum ExportTarget {
    Seal { seal_id: String, zip: bool },
    Project { project_name: String, profile: Option<String> },
}

/// The subcommands of `dam creds`.
pub enum CredsCommands {
    Create { alias: Option<String>, vault: bool },
    List { vault: bool },
    Delete { alias: String, vault: bool },
}

/// The subcommands of `dam pr`.
pub enum PrCommands {
    List,
    Checkout { number: u64 },
}

/// The subcommands of `dam releases`.
pub enum ReleasesCommands {
    Create {
        name: String,
        stream: Option<String>,
        description: Option<String>,
        tags: Option<String>,
        latest: bool,
    },
    List,
    Inspect { name: Option<String>, latest: bool },
    Delete { name: String },
}

/// The subcommands of `dam stable`.
pub enum StableCommands {
    Assign { version: String, stream: Option<String>, description: Option<String>, latest: bool },
    List,
    Inspect { version: Option<String>, latest: bool },
    Remove { version: String },
}

} // verus!

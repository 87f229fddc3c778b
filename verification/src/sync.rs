//! Cloud sync: which streams a sync covers, what it does for each, how it
//! reads the remote diff and the user's answers, and when it stops
//! re-checking a push or pull.
use vstd::prelude::*;
use crate::stream::{current_stream, current_stream_spec, opt_view, StreamMeta};
use crate::text::{
    answer_is, answer_is_spec, lower_text, lowered_answer, lower_answer, owned, str_eq, to_lowercase,
    trim, trimmed,
};

verus! {

/// A summary of one open pull request on the remote.
pub struct PullRequestInfo {
    pub number: u64,
    pub title: String,
    pub author: String,
    pub head_ref: String,
}

/// The remote a reservoir syncs with. Implementations reach the network;
/// the library only decides what to ask of them.
pub trait SyncProvider {
    /// Compares the remote with the local stream: `(ahead, behind)`, the
    /// local seals the remote lacks and the remote changes missing locally.
    fn check_diff(&self, stream: &str) -> Result<(usize, usize), String>;

    /// Pushes the stream's latest local seals.
    fn push(&self, stream: &str) -> Result<(), String>;

    /// Pulls the stream's latest remote changes into the local objects.
    fn pull(&self, stream: &str) -> Result<(), String>;

    /// Publishes a release; returns where it was published. A provider
    /// that does not publish releases keeps the default, which refuses with
    /// the message of `release_sync_unsupported`.
    fn sync_release(
        &self,
        release_name: &str,
        release_version: &str,
        seal_id: &str,
        stream: &str,
        description: Option<&String>,
        tags: &[String],
    ) -> (r: Result<String, String>)
        default_ensures
            r is Err,
            r->Err_0@ == "This provider does not support release sync."@,
    {
        Err(release_sync_unsupported())
    }

    /// The open pull requests.
    fn list_pull_requests(&self) -> Result<Vec<PullRequestInfo>, String>;

    /// Checks a pull request out into a new stream; returns its name.
    fn checkout_pull_request(&self, number: u64) -> Result<String, String>;
}

/// The message a provider gives for a release it cannot publish.
pub fn release_sync_unsupported() -> (r: String)
    ensures
        r@ == "This provider does not support release sync."@,
{
    owned("This provider does not support release sync.")
}

/// The provider a sync uses: the one named, else GitHub.
pub fn provider_name(platform: Option<String>) -> (r: String)
    ensures
        r@ == match platform {
            Some(p) => p@,
            None => "github"@,
        },
{
    match platform {
        Some(p) => p,
        None => owned("github"),
    }
}

/// Whether a sync provider's name is one `dam` knows (GitHub, in any case);
/// an unknown one falls back to GitHub with a warning.
pub fn is_known_platform(name: &str) -> (r: bool)
    ensures
        r == (lower_text(name@) == "github"@),
{
    let n = to_lowercase(name);
    str_eq(n.as_str(), "github")
}

/// The streams a sync covers: the stream named, when it exists, else the
/// active one.
pub open spec fn sync_targets_spec(
    stream: Option<String>,
    stream_exists: bool,
    current_file: Option<Seq<char>>,
) -> Result<Seq<Seq<char>>, Seq<char>> {
    match stream {
        Some(s) => if stream_exists {
            Ok(seq![s@])
        } else {
            Err(s@)
        },
        None => Ok(seq![current_stream_spec(current_file)]),
    }
}

/// The streams a sync covers; the name of a stream that does not exist as
/// the error.
pub fn sync_targets(stream: Option<String>, stream_exists: bool, current_file: Option<&str>) -> (r:
    Result<Vec<String>, String>)
    ensures
        match r {
            Ok(v) => sync_targets_spec(stream, stream_exists, crate::terminal::opt_str(current_file))
                == Ok::<Seq<Seq<char>>, Seq<char>>(v@.map_values(|x: String| x@)),
            Err(e) => sync_targets_spec(stream, stream_exists, crate::terminal::opt_str(current_file))
                == Err::<Seq<Seq<char>>, Seq<char>>(e@),
        },
{
    match stream {
        Some(s) => {
            if stream_exists {
                let v = vec![s];
                assert(v@.map_values(|x: String| x@) =~= seq![v@[0]@]);
                Ok(v)
            } else {
                Err(s)
            }
        },
        None => {
            let c = current_stream(current_file);
            let v = vec![c];
            assert(v@.map_values(|x: String| x@) =~= seq![v@[0]@]);
            Ok(v)
        },
    }
}

/// Syncing `main` asks first unless forced.
pub fn needs_main_confirmation(stream: &str, force: bool) -> (r: bool)
    ensures
        r == (stream@ == "main"@ && !force),
{
    str_eq(stream, "main") && !force
}

/// Whether the answer to "Continue? (y/N)" goes on: `y`, trimmed and
/// lower-cased.
pub fn confirms_main(answer: &str) -> (r: bool)
    ensures
        r == (lowered_answer(answer@) == "y"@),
{
    let a = lower_answer(answer);
    str_eq(a.as_str(), "y")
}

/// What `--action` asks for.
#[derive(Clone, Copy, Debug, PartialEq, Eq, Structural)]
pub enum SyncAction {
    Push,
    Pull,
    Unknown,
}

/// Reads `--action`, in any case.
pub fn sync_action(action: &str) -> (r: SyncAction)
    ensures
        r == (if lower_text(action@) == "push"@ {
            SyncAction::Push
        } else if lower_text(action@) == "pull"@ {
            SyncAction::Pull
        } else {
            SyncAction::Unknown
        }),
{
    let a = to_lowercase(action);
    if str_eq(a.as_str(), "push") {
        SyncAction::Push
    } else if str_eq(a.as_str(), "pull") {
        SyncAction::Pull
    } else {
        SyncAction::Unknown
    }
}

/// What the remote diff calls for.
#[derive(Clone, Copy, Debug, PartialEq, Eq, Structural)]
pub enum DiffPlan {
    UpToDate,
    /// Both sides moved: ask whether to pull or to force-push.
    Conflict,
    /// Only local seals are new: offer to push.
    OfferPush,
    /// Only remote changes are new: offer to pull.
    OfferPull,
}

/// Reads a remote diff of `ahead` local and `behind` remote changes.
pub fn diff_plan(ahead: usize, behind: usize) -> (r: DiffPlan)
    ensures
        r == (if ahead == 0 && behind == 0 {
            DiffPlan::UpToDate
        } else if ahead > 0 && behind > 0 {
            DiffPlan::Conflict
        } else if ahead > 0 {
            DiffPlan::OfferPush
        } else {
            DiffPlan::OfferPull
        }),
{
    if ahead == 0 && behind == 0 {
        DiffPlan::UpToDate
    } else if ahead > 0 && behind > 0 {
        DiffPlan::Conflict
    } else if ahead > 0 {
        DiffPlan::OfferPush
    } else {
        DiffPlan::OfferPull
    }
}

/// How a conflict is resolved.
#[derive(Clone, Copy, Debug, PartialEq, Eq, Structural)]
pub enum ConflictChoice {
    Pull,
    ForcePush,
    Skip,
}

/// Reads the answer to "Choice [1/2/Skip]": `1` pulls, `2` force-pushes,
/// anything else skips.
pub fn conflict_choice(answer: &str) -> (r: ConflictChoice)
    ensures
        r == (if trim(answer@) == "1"@ {
            ConflictChoice::Pull
        } else if trim(answer@) == "2"@ {
            ConflictChoice::ForcePush
        } else {
            ConflictChoice::Skip
        }),
{
    let t = trimmed(answer);
    if str_eq(t.as_str(), "1") {
        ConflictChoice::Pull
    } else if str_eq(t.as_str(), "2") {
        ConflictChoice::ForcePush
    } else {
        ConflictChoice::Skip
    }
}

/// Whether the answer to a "(Y/n)" offer accepts it: anything but `n`,
/// trimmed and lower-cased.
pub fn accepts_offer(answer: &str) -> (r: bool)
    ensures
        r == (lowered_answer(answer@) != "n"@),
{
    let a = lower_answer(answer);
    !str_eq(a.as_str(), "n")
}

// ---------------------------------------------------------------------------
// Checking a push or pull
// ---------------------------------------------------------------------------

/// How many times a push or pull is checked against the remote.
pub const VERIFY_ATTEMPTS: u32 = 5;

/// What a check of the remote after a push or pull leads to.
#[derive(Clone, Copy, Debug, PartialEq, Eq, Structural)]
pub enum VerifyStep {
    /// The remote and the stream agree.
    Synced,
    /// They still differ: wait and check again.
    Retry,
    /// They still differ and the attempts are used up.
    GiveUp,
    /// The remote could not be asked.
    Failed,
}

/// The step after check number `attempt` (counted from 1) of `max`, which
/// found `diff`, or no answer.
pub open spec fn verify_step_spec(attempt: u32, max: u32, diff: Option<(usize, usize)>) -> VerifyStep {
    match diff {
        None => VerifyStep::Failed,
        Some((ahead, behind)) => if ahead == 0 && behind == 0 {
            VerifyStep::Synced
        } else if attempt >= max {
            VerifyStep::GiveUp
        } else {
            VerifyStep::Retry
        },
    }
}

/// What to do after a check of the remote.
pub fn verify_step(attempt: u32, max: u32, diff: Option<(usize, usize)>) -> (r: VerifyStep)
    ensures
        r == verify_step_spec(attempt, max, diff),
{
    match diff {
        None => VerifyStep::Failed,
        Some((ahead, behind)) => {
            if ahead == 0 && behind == 0 {
                VerifyStep::Synced
            } else if attempt >= max {
                VerifyStep::GiveUp
            } else {
                VerifyStep::Retry
            }
        },
    }
}

/// Checking a push or pull never goes past the last attempt: at attempt
/// `max` (or later) the next step is never another check.
pub proof fn law_verify_stops_at_last_attempt(attempt: u32, max: u32, diff: Option<(usize, usize)>)
    requires
        attempt >= max,
    ensures
        verify_step_spec(attempt, max, diff) != VerifyStep::Retry,
{
}

/// A check that finds the remote and the stream in agreement ends the
/// checking, whatever the attempt.
pub proof fn law_verify_stops_when_synced(attempt: u32, max: u32)
    ensures
        verify_step_spec(attempt, max, Some((0, 0))) == VerifyStep::Synced,
{
}

// ---------------------------------------------------------------------------
// After a pull
// ---------------------------------------------------------------------------

/// Whether a pulled stream is the active one, given `.dam/CURRENT`.
pub fn is_active_stream(stream: &str, current_file: Option<&str>) -> (r: bool)
    ensures
        r == (stream@ == current_stream_spec(crate::terminal::opt_str(current_file))),
{
    let c = current_stream(current_file);
    str_eq(stream, c.as_str())
}

/// Whether the answer to "Apply pulled seal ... (Y/n)" applies it: nothing,
/// or `y` in any ASCII case.
pub fn accepts_apply(answer: &str) -> (r: bool)
    ensures
        r == (trim(answer@).len() == 0 || answer_is_spec(answer@, "y"@)),
{
    let t = trimmed(answer);
    t.as_str().is_empty() || answer_is(answer, "y")
}

/// After a pull, a remote still `behind` means its history left DAM's
/// format: the stream's latest seal is forgotten so it can be rebuilt.
/// Whether it was.
pub fn forget_latest_if_diverged(meta: &mut StreamMeta, behind: usize) -> (r: bool)
    ensures
        r == (behind > 0),
        final(meta).name == old(meta).name,
        final(meta).description == old(meta).description,
        final(meta).owner == old(meta).owner,
        final(meta).priority == old(meta).priority,
        final(meta).status == old(meta).status,
        final(meta).created_at == old(meta).created_at,
        final(meta).target == old(meta).target,
        final(meta).goals == old(meta).goals,
        final(meta).notes == old(meta).notes,
        final(meta).latest_seal == (if behind > 0 {
            None
        } else {
            old(meta).latest_seal
        }),
{
    if behind > 0 {
        meta.latest_seal = None;
        true
    } else {
        false
    }
}

} // verus!

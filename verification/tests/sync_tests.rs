use dam::stream::empty_stream_meta;
use dam::sync::{
    accepts_apply, accepts_offer, conflict_choice, confirms_main, diff_plan, forget_latest_if_diverged,
    is_active_stream, is_known_platform, needs_main_confirmation, provider_name,
    release_sync_unsupported, sync_action, sync_targets, verify_step, ConflictChoice, DiffPlan,
    SyncAction, VerifyStep, VERIFY_ATTEMPTS,
};

#[test]
fn provider_defaults_to_github() {
    assert_eq!(provider_name(None), "github");
    assert_eq!(provider_name(Some("gitlab".to_string())), "gitlab");
    assert!(is_known_platform("GitHub"));
    assert!(!is_known_platform("gitlab"));
    assert_eq!(release_sync_unsupported(), "This provider does not support release sync.");
}

#[test]
fn targets_of_a_sync() {
    assert_eq!(sync_targets(Some("dev".to_string()), true, None), Ok(vec!["dev".to_string()]));
    assert_eq!(sync_targets(Some("nope".to_string()), false, None), Err("nope".to_string()));
    assert_eq!(sync_targets(None, false, Some(" feature \n")), Ok(vec!["feature".to_string()]));
    assert_eq!(sync_targets(None, false, None), Ok(vec!["main".to_string()]));
}

#[test]
fn main_stream_is_guarded() {
    assert!(needs_main_confirmation("main", false));
    assert!(!needs_main_confirmation("main", true));
    assert!(!needs_main_confirmation("dev", false));
    assert!(confirms_main(" Y"));
    assert!(!confirms_main(""));
}

#[test]
fn actions_and_diffs() {
    assert_eq!(sync_action("PUSH"), SyncAction::Push);
    assert_eq!(sync_action("pull"), SyncAction::Pull);
    assert_eq!(sync_action("merge"), SyncAction::Unknown);
    assert_eq!(diff_plan(0, 0), DiffPlan::UpToDate);
    assert_eq!(diff_plan(2, 1), DiffPlan::Conflict);
    assert_eq!(diff_plan(2, 0), DiffPlan::OfferPush);
    assert_eq!(diff_plan(0, 3), DiffPlan::OfferPull);
    assert_eq!(conflict_choice(" 1 "), ConflictChoice::Pull);
    assert_eq!(conflict_choice("2"), ConflictChoice::ForcePush);
    assert_eq!(conflict_choice(""), ConflictChoice::Skip);
    assert!(accepts_offer(""));
    assert!(accepts_offer("y"));
    assert!(!accepts_offer(" N"));
}

#[test]
fn verification_retries_at_most_five_times() {
    assert_eq!(verify_step(1, VERIFY_ATTEMPTS, Some((0, 0))), VerifyStep::Synced);
    assert_eq!(verify_step(1, VERIFY_ATTEMPTS, Some((1, 0))), VerifyStep::Retry);
    assert_eq!(verify_step(4, VERIFY_ATTEMPTS, Some((0, 2))), VerifyStep::Retry);
    assert_eq!(verify_step(5, VERIFY_ATTEMPTS, Some((0, 2))), VerifyStep::GiveUp);
    assert_eq!(verify_step(2, VERIFY_ATTEMPTS, None), VerifyStep::Failed);
    // a full run of checks that never agree stops at the fifth
    let mut attempt = 0;
    loop {
        attempt += 1;
        if verify_step(attempt, VERIFY_ATTEMPTS, Some((1, 1))) != VerifyStep::Retry {
            break;
        }
    }
    assert_eq!(attempt, 5);
}

#[test]
fn after_a_pull() {
    assert!(is_active_stream("main", None));
    assert!(is_active_stream("dev", Some("dev\n")));
    assert!(!is_active_stream("dev", Some("main")));
    assert!(accepts_apply(" "));
    assert!(accepts_apply("Y"));
    assert!(!accepts_apply("no"));
    let mut meta = empty_stream_meta();
    meta.latest_seal = Some("seal_3".to_string());
    assert!(!forget_latest_if_diverged(&mut meta, 0));
    assert_eq!(meta.latest_seal, Some("seal_3".to_string()));
    assert!(forget_latest_if_diverged(&mut meta, 2));
    assert_eq!(meta.latest_seal, None);
}

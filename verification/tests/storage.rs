use bouncer::storage::{Outcome, Stage};

#[test]
fn imposes_cooldown_only_for_user_caused_rejections() {
    assert!(Outcome::RejectedWrong.imposes_cooldown());
    assert!(Outcome::RejectedNoButton.imposes_cooldown());
    assert!(Outcome::RejectedNoAnswer.imposes_cooldown());
    assert!(!Outcome::RejectedLlmError.imposes_cooldown());
    assert!(!Outcome::RejectedCooldown.imposes_cooldown());
    assert!(!Outcome::Approved.imposes_cooldown());
}

#[test]
fn stage_names_round_trip() {
    for s in [Stage::AwaitingButton, Stage::GeneratingQuestion, Stage::AwaitingAnswer, Stage::Verifying] {
        assert_eq!(Stage::parse(s.as_str()), Some(s));
    }
    assert_eq!(Stage::parse("done"), None);
    assert_eq!(Stage::AwaitingButton.as_str(), "awaiting_button");
}

use bouncer::storage::{
    active_cooldown, advance_to_answer, apply_outcome_count, global_stats, group_stats, no_pending_error,
    try_begin_generating, try_begin_verifying, GroupStats, PendingRow,
};

fn row(stage: Stage, deadline: i64) -> PendingRow {
    PendingRow {
        chat_id: -1,
        user_id: 5,
        dm_chat_id: 5,
        stage,
        deadline,
        question: Some("q".into()),
        question_msg_id: Some(11),
        started_at: 100,
        display_name: None,
        username: None,
    }
}

#[test]
fn try_begin_verifying_claims_only_once() {
    let claimed = try_begin_verifying(row(Stage::AwaitingAnswer, 1_000)).unwrap();
    assert_eq!(claimed.stage, Stage::Verifying);
    assert_eq!(claimed.deadline, 0);
    assert!(try_begin_verifying(claimed).is_none());
}

#[test]
fn try_begin_generating_claims_only_once() {
    let claimed = try_begin_generating(row(Stage::AwaitingButton, 2_000)).unwrap();
    assert_eq!(claimed.stage, Stage::GeneratingQuestion);
    assert_eq!(claimed.deadline, 0);
    assert!(try_begin_generating(claimed).is_none());
    assert!(try_begin_generating(row(Stage::AwaitingAnswer, 2_000)).is_none());
}

#[test]
fn advance_keeps_identity_and_sets_question() {
    let r = advance_to_answer(row(Stage::GeneratingQuestion, 0), "Q?".into(), Some(77), 3_000);
    assert_eq!(r.stage, Stage::AwaitingAnswer);
    assert_eq!(r.question.as_deref(), Some("Q?"));
    assert_eq!(r.question_msg_id, Some(77));
    assert_eq!(r.deadline, 3_000);
    assert_eq!((r.chat_id, r.user_id, r.started_at), (-1, 5, 100));
}

#[test]
fn cooldowns_run_until_expiry() {
    assert_eq!(active_cooldown(Some(9_999), 0), Some(9_999));
    assert_eq!(active_cooldown(Some(100), 100), None);
    assert_eq!(active_cooldown(None, 0), None);
}

#[test]
fn outcome_counts_go_to_their_buckets() {
    let mut s = GroupStats::default();
    apply_outcome_count(&mut s, "approved", 2);
    apply_outcome_count(&mut s, "rejected_wrong", 1);
    apply_outcome_count(&mut s, "rejected_timeout", 3);
    apply_outcome_count(&mut s, "something_else", 4);
    assert_eq!(s.attempts, 10);
    assert_eq!(s.approved, 2);
    assert_eq!(s.rejected_wrong, 1);
    assert_eq!(s.rejected_no_answer, 3);
    assert_eq!(s.rejected(), 4);
}

#[test]
fn global_stats_count_a_wrong_answer() {
    let rows = vec![("rejected_wrong".to_string(), 1i64)];
    let stats = global_stats(&rows, 1);
    assert_eq!(stats.attempts, 1);
    assert_eq!(stats.rejected_wrong, 1);
    assert_eq!(stats.unique_users, 1);
}

#[test]
fn global_stats_of_an_empty_log() {
    let stats = global_stats(&Vec::new(), 0);
    assert_eq!(stats.attempts, 0);
}

#[test]
fn group_stats_are_keyed_and_sorted() {
    let rows = vec![
        (-7, "approved".to_string(), 2i64),
        (-100, "rejected_no_button".to_string(), 1),
        (-7, "rejected_cooldown".to_string(), 1),
    ];
    let uniques = vec![(-7, 2i64), (-100, 1), (5, 3)];
    let by = group_stats(&rows, &uniques);
    let ids: Vec<i64> = by.iter().map(|(id, _)| *id).collect();
    assert_eq!(ids, vec![-100, -7, 5]);
    assert_eq!(by[1].1.attempts, 3);
    assert_eq!(by[1].1.approved, 2);
    assert_eq!(by[1].1.rejected_cooldown, 1);
    assert_eq!(by[1].1.unique_users, 2);
    assert_eq!(by[0].1.rejected_no_button, 1);
    assert_eq!(by[2].1.attempts, 0);
    assert_eq!(by[2].1.unique_users, 3);
}

#[test]
fn missing_row_error_names_it() {
    match no_pending_error(-100, 7) {
        bouncer::error::Error::ConfigInvalid(m) => assert_eq!(m, "no pending verification for chat -100 user 7"),
        other => panic!("unexpected {other:?}"),
    }
}

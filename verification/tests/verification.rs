use bouncer::config::{
    Config, CooldownConfig, GroupConfig, I18nConfig, LlmConfig, TelegramConfig, TimeoutsConfig,
};
use bouncer::i18n::LocaleRegistry;
use bouncer::llm::Verdict;
use bouncer::storage::{Outcome, PendingRow, Stage};
use bouncer::telegram::{is_start_press, on_callback_query, on_message, CallbackPlan};
use bouncer::verification::{
    display_name, format_minutes, recovery_action, render_cooldown_template, render_welcome, timeout_due,
    truncate_for_log, AnswerPlan, ButtonPlan, Engine, IgnoreReason, JoinPlan, RecoveryAction, UserInfo,
};

fn group(id: i64, locale: Option<&str>, enabled: bool) -> GroupConfig {
    GroupConfig { id, locale: locale.map(str::to_string), enabled, question_prompt: format!("prompt {id}") }
}

fn engine() -> Engine {
    let config = Config {
        telegram: TelegramConfig { bot_token: "t".into() },
        llm: LlmConfig {
            base_url: "u".into(),
            api_key: "k".into(),
            model: "m".into(),
            max_tokens: None,
            request_timeout_secs: 30,
            recent_question_window: 20,
        },
        timeouts: TimeoutsConfig { button_press_secs: 300, answer_submission_secs: 90 },
        cooldown: CooldownConfig { retry_after_secs: 3600 },
        i18n: I18nConfig { default_locale: "en".into() },
        groups: vec![group(-100, None, true), group(-200, Some("zh-CN"), true), group(-300, None, false)],
    };
    Engine::new(config, LocaleRegistry::load("en").unwrap())
}

fn alice() -> UserInfo {
    UserInfo { id: 42, first_name: "Alice".into(), last_name: Some("Liddell".into()), username: Some("alice".into()) }
}

fn pending(chat_id: i64, stage: Stage, question: Option<&str>) -> PendingRow {
    PendingRow {
        chat_id,
        user_id: 42,
        dm_chat_id: 42,
        stage,
        deadline: 1_300,
        question: question.map(str::to_string),
        question_msg_id: None,
        started_at: 1_000,
        display_name: Some("Alice Liddell".into()),
        username: Some("alice".into()),
    }
}

#[test]
fn display_names_fall_back() {
    assert_eq!(display_name(&alice()), "Alice Liddell");
    let mut u = alice();
    u.last_name = None;
    assert_eq!(display_name(&u), "Alice");
    u.first_name = String::new();
    assert_eq!(display_name(&u), "@alice");
    u.username = None;
    assert_eq!(display_name(&u), "user 42");
}

#[test]
fn minutes_are_formatted_with_two_decimals() {
    assert_eq!(format_minutes(0), "0");
    assert_eq!(format_minutes(300), "5");
    assert_eq!(format_minutes(90), "1.50");
    assert_eq!(format_minutes(61), "1.01");
    assert_eq!(format_minutes(119), "1.98");
}

#[test]
fn log_text_is_one_line_and_capped() {
    assert_eq!(truncate_for_log("a\nb\rc", 10), "a b c");
    assert_eq!(truncate_for_log("abcdef", 3), "abc…");
    assert_eq!(truncate_for_log("abc", 3), "abc");
}

#[test]
fn templates_are_filled() {
    let reg = LocaleRegistry::load("en").unwrap();
    let en = reg.resolve(None);
    let with_group = render_welcome(en, Some("Rustaceans"), "Alice", 300);
    assert!(with_group.contains("Alice") && with_group.contains("Rustaceans") && with_group.contains(" 5 "));
    let without = render_welcome(en, None, "Alice", 90);
    assert!(without.contains("1.50") && !without.contains('{'));
    assert_eq!(render_cooldown_template("wait {minutes} min", 120), "wait 2 min");
}

#[test]
fn join_requests_of_unlisted_or_disabled_groups_are_ignored() {
    let e = engine();
    assert!(matches!(
        e.on_join_request(-999, None, &alice(), 42, 1_000, None),
        JoinPlan::Ignore(IgnoreReason::UnenrolledGroup)
    ));
    assert!(matches!(
        e.on_join_request(-300, None, &alice(), 42, 1_000, None),
        JoinPlan::Ignore(IgnoreReason::DisabledGroup)
    ));
}

#[test]
fn join_request_starts_a_verification() {
    let e = engine();
    match e.on_join_request(-100, Some("Rustaceans".into()), &alice(), 42, 1_000, None) {
        JoinPlan::Start { row, welcome, start_button } => {
            assert_eq!(row.stage, Stage::AwaitingButton);
            assert_eq!(row.deadline, 1_300);
            assert_eq!(row.user_id, 42);
            assert_eq!(row.started_at, 1_000);
            assert_eq!(row.display_name.as_deref(), Some("Alice Liddell"));
            assert!(welcome.contains("Rustaceans"));
            assert_eq!(start_button, e.locale_for_chat(-100).start_button);
        }
        other => panic!("unexpected {other:?}"),
    }
}

#[test]
fn join_request_during_cooldown_is_declined_without_extending_it() {
    let e = engine();
    match e.on_join_request(-200, None, &alice(), 42, 1_000, Some(1_030)) {
        JoinPlan::Decline { notice, record } => {
            assert_eq!(record.outcome, Outcome::RejectedCooldown);
            assert!(!record.outcome.imposes_cooldown());
            assert_eq!(record.reason.as_deref(), Some("cooldown active"));
            assert_eq!((record.started_at, record.completed_at), (1_000, 1_000));
            assert!(notice.contains('1'));
            assert_eq!(notice, render_cooldown_template(&e.locale_for_chat(-200).cooldown_notice, 60));
        }
        other => panic!("unexpected {other:?}"),
    }
}

#[test]
fn button_press_needs_a_waiting_row() {
    let e = engine();
    assert!(matches!(e.on_button_press(-100, None), ButtonPlan::Ignore(IgnoreReason::NoPendingVerification)));
    assert!(matches!(
        e.on_button_press(-100, Some(pending(-100, Stage::AwaitingAnswer, None))),
        ButtonPlan::Ignore(IgnoreReason::WrongStage)
    ));
    match e.on_button_press(-100, Some(pending(-100, Stage::AwaitingButton, None))) {
        ButtonPlan::Generate { prompt, recent_window, generating_button, .. } => {
            assert_eq!(prompt, "prompt -100");
            assert_eq!(recent_window, 20);
            assert_eq!(generating_button, e.locale_for_chat(-100).generating_button);
        }
        other => panic!("unexpected {other:?}"),
    }
}

#[test]
fn question_gets_an_intro_and_a_deadline() {
    let e = engine();
    let (text, deadline) = e.question_delivery(-100, "Why?", 2_000);
    assert_eq!(deadline, 2_090);
    assert!(text.ends_with("\n\nWhy?"));
    assert!(text.contains("1.50"));
}

#[test]
fn answers_are_judged_only_with_a_question() {
    let e = engine();
    assert!(matches!(e.on_user_answer(None), AnswerPlan::Ignore(IgnoreReason::NoPendingVerification)));
    assert!(matches!(
        e.on_user_answer(Some(pending(-100, Stage::AwaitingAnswer, None))),
        AnswerPlan::Ignore(IgnoreReason::MissingQuestion)
    ));
    assert!(matches!(
        e.on_user_answer(Some(pending(-300, Stage::AwaitingAnswer, Some("q")))),
        AnswerPlan::Ignore(IgnoreReason::DisabledGroup)
    ));
    match e.on_user_answer(Some(pending(-100, Stage::AwaitingAnswer, Some("q")))) {
        AnswerPlan::Verify { question, prompt, .. } => {
            assert_eq!(question, "q");
            assert_eq!(prompt, "prompt -100");
        }
        other => panic!("unexpected {other:?}"),
    }
}

#[test]
fn verdicts_decide_the_outcome() {
    let e = engine();
    let row = pending(-100, Stage::Verifying, Some("q"));
    let accepted = e.judge(&row, "a", Ok(Verdict { accept: true, reason: "good".into() }), 2_000);
    assert!(accepted.approve);
    assert_eq!(accepted.record.outcome, Outcome::Approved);
    assert_eq!(accepted.cooldown_until, None);
    assert_eq!(accepted.message, Some(e.locale_for_chat(-100).approved));
    let rejected = e.judge(&row, "a", Ok(Verdict { accept: false, reason: "bad".into() }), 2_000);
    assert!(!rejected.approve);
    assert_eq!(rejected.record.outcome, Outcome::RejectedWrong);
    assert_eq!(rejected.cooldown_until, Some(5_600));
    assert_eq!(rejected.record.reason.as_deref(), Some("bad"));
    let failed = e.judge(&row, "a", Err("timeout".into()), 2_000);
    assert_eq!(failed.record.outcome, Outcome::RejectedLlmError);
    assert_eq!(failed.cooldown_until, None);
    assert_eq!(failed.record.reason.as_deref(), Some("verification failed: timeout"));
    assert_eq!(failed.record.answer.as_deref(), Some("a"));
}

#[test]
fn timeouts_tell_bots_from_slow_users() {
    let e = engine();
    let no_button = e.fire_timeout(&pending(-100, Stage::AwaitingButton, None), 2_000);
    assert_eq!(no_button.record.outcome, Outcome::RejectedNoButton);
    assert_eq!(no_button.cooldown_until, Some(5_600));
    assert_eq!(no_button.record.reason.as_deref(), Some("timeout"));
    let no_answer = e.fire_timeout(&pending(-200, Stage::AwaitingAnswer, Some("q")), 2_000);
    assert_eq!(no_answer.record.outcome, Outcome::RejectedNoAnswer);
    assert_eq!(no_answer.message, Some(render_cooldown_template(&e.locale_for_chat(-200).rejected_timeout, 3600)));
}

#[test]
fn model_failures_do_not_cool_down() {
    let e = engine();
    let row = pending(-100, Stage::GeneratingQuestion, None);
    let r = e.generation_failed(&row, "boom", 2_000);
    assert_eq!(r.cooldown_until, None);
    assert_eq!(r.record.reason.as_deref(), Some("question generation failed: boom"));
    let r = e.delivery_failed(&row, "net", 2_000);
    assert_eq!(r.message, None);
    assert_eq!(r.record.reason.as_deref(), Some("failed to send question: net"));
    let r = e.fire_llm_error(&row, 2_000);
    assert_eq!(r.record.outcome, Outcome::RejectedLlmError);
    assert_eq!(r.cooldown_until, None);
    assert_eq!(r.record.reason.as_deref(), Some("verification interrupted by restart"));
}

#[test]
fn recovery_after_restart() {
    assert_eq!(
        recovery_action(&pending(-100, Stage::Verifying, Some("q")), 0),
        RecoveryAction::DeclineInterrupted
    );
    assert_eq!(recovery_action(&pending(-100, Stage::AwaitingButton, None), 1_300), RecoveryAction::Expire);
    assert_eq!(recovery_action(&pending(-100, Stage::AwaitingAnswer, Some("q")), 1_299), RecoveryAction::Rearm(1_300));
}

#[test]
fn claimed_rows_disarm_old_timers() {
    let row = pending(-100, Stage::AwaitingButton, None);
    assert!(timeout_due(Some(&row), 1_300));
    let claimed = bouncer::storage::try_begin_generating(row).unwrap();
    assert!(!timeout_due(Some(&claimed), 1_300));
    assert!(!timeout_due(None, 1_300));
}

#[test]
fn callbacks_and_messages_are_routed() {
    let e = engine();
    assert!(is_start_press(Some("bouncer:start"), true));
    assert!(!is_start_press(Some("bouncer:start"), false));
    assert!(!is_start_press(Some("bouncer:noop"), true));
    assert!(!is_start_press(None, true));
    match on_callback_query(&e, Some(pending(-200, Stage::AwaitingButton, None)), 42) {
        CallbackPlan::Start { chat_id, toast } => {
            assert_eq!(chat_id, -200);
            assert_eq!(toast, e.locale_for_chat(-200).generating_question);
        }
        other => panic!("unexpected {other:?}"),
    }
    assert!(matches!(on_callback_query(&e, Some(pending(-200, Stage::AwaitingButton, None)), 7), CallbackPlan::Acknowledge));
    assert!(matches!(on_callback_query(&e, None, 42), CallbackPlan::Acknowledge));
    assert_eq!(on_message(true, Some(1), Some("hi".into())), Some((1, "hi".to_string())));
    assert_eq!(on_message(false, Some(1), Some("hi".into())), None);
    assert_eq!(on_message(true, None, Some("hi".into())), None);
    assert_eq!(on_message(true, Some(1), None), None);
}

#[test]
fn locales_follow_the_group() {
    let e = engine();
    let zh = LocaleRegistry::load("zh-CN").unwrap();
    assert_eq!(e.locale_for_chat(-200).start_button, zh.resolve(None).start_button);
    assert_eq!(e.locale_for_chat(-100).start_button, e.locale_for_group(None).start_button);
    assert_eq!(e.locale_for_chat(-999).start_button, e.locale_for_group(Some("xx")).start_button);
}

#[test]
fn group_locales_must_be_registered() {
    let e = engine();
    assert_eq!(bouncer::verification::check_group_locales(&e.config, &e.locales), None);
    let mut config = e.config.clone();
    config.groups.push(group(-400, Some("fr"), true));
    assert_eq!(
        bouncer::verification::check_group_locales(&config, &e.locales).as_deref(),
        Some("group -400 references unknown locale `fr`")
    );
}

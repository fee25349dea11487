use bouncer::config::{
    default_config_path, default_database_path, default_llm_request_timeout, default_locale, default_openai_base_url,
    default_recent_question_window, default_true, Config, CooldownConfig, GroupConfig, I18nConfig, LlmConfig,
    TelegramConfig, TimeoutsConfig,
};
use bouncer::error::Error;

pub fn group(id: i64, prompt: &str) -> GroupConfig {
    GroupConfig { id, locale: None, enabled: true, question_prompt: prompt.to_string() }
}

fn config(groups: Vec<GroupConfig>) -> Config {
    Config {
        telegram: TelegramConfig { bot_token: "token".into() },
        llm: LlmConfig {
            base_url: default_openai_base_url(),
            api_key: "key".into(),
            model: "gpt".into(),
            max_tokens: None,
            request_timeout_secs: default_llm_request_timeout(),
            recent_question_window: default_recent_question_window(),
        },
        timeouts: TimeoutsConfig { button_press_secs: 300, answer_submission_secs: 600 },
        cooldown: CooldownConfig { retry_after_secs: 3600 },
        i18n: I18nConfig::default(),
        groups,
    }
}

fn invalid(c: &Config) -> String {
    match c.validate() {
        Err(Error::ConfigInvalid(m)) => m,
        other => panic!("unexpected {other:?}"),
    }
}

#[test]
fn defaults() {
    assert_eq!(default_openai_base_url(), "https://api.openai.com/v1");
    assert_eq!(default_llm_request_timeout(), 30);
    assert_eq!(default_recent_question_window(), 20);
    assert_eq!(default_locale(), "en");
    assert!(default_true());
    assert_eq!(I18nConfig::default().default_locale, "en");
    assert_eq!(default_config_path(), "configs/bouncer.yaml");
    assert_eq!(default_database_path(), "bouncer.db");
}

#[test]
fn valid_config_passes() {
    assert!(config(vec![group(-1001, "rust"), group(-1002, "go")]).validate().is_ok());
}

#[test]
fn blank_fields_are_refused() {
    let mut c = config(vec![]);
    c.telegram.bot_token = " \t".into();
    assert_eq!(invalid(&c), "telegram.bot_token must not be empty");
    let mut c = config(vec![]);
    c.llm.api_key = String::new();
    assert_eq!(invalid(&c), "llm.api_key must not be empty");
    let mut c = config(vec![]);
    c.llm.model = "\u{3000}".into();
    assert_eq!(invalid(&c), "llm.model must not be empty");
    let mut c = config(vec![]);
    c.timeouts.button_press_secs = 0;
    assert_eq!(invalid(&c), "timeouts.button_press_secs must be > 0");
    let mut c = config(vec![]);
    c.timeouts.answer_submission_secs = 0;
    assert_eq!(invalid(&c), "timeouts.answer_submission_secs must be > 0");
}

#[test]
fn groups_need_prompts_and_distinct_ids() {
    assert_eq!(invalid(&config(vec![group(-5, "ok"), group(-6, "  ")])), "group -6 has empty question_prompt");
    assert_eq!(invalid(&config(vec![group(-5, "ok"), group(-5, "again")])), "group -5 is listed more than once");
    assert_eq!(invalid(&config(vec![group(-5, "ok"), group(-5, " ")])), "group -5 has empty question_prompt");
}

#[test]
fn group_lookup_finds_the_listed_group() {
    let c = config(vec![group(-1001, "rust"), group(-1002, "go")]);
    assert_eq!(c.group(-1002).unwrap().question_prompt, "go");
    assert!(c.group(42).is_none());
}

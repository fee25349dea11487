//! The bot's settings: their shape, their defaults, the rules a loaded
//! configuration must meet, and the lookup of a group's settings.
use std::collections::HashMap;

use vstd::prelude::*;

use crate::error::Error;
use crate::text::{blank, i64_to_string, is_blank, is_white_space, push_str, signed_decimal};

verus! {

broadcast use {vstd::string::group_string_axioms, vstd::std_specs::hash::group_hash_axioms};

/// All settings.
#[derive(Debug, Clone)]
pub struct Config {
    pub telegram: TelegramConfig,
    pub llm: LlmConfig,
    pub timeouts: TimeoutsConfig,
    pub cooldown: CooldownConfig,
    pub i18n: I18nConfig,
    pub groups: Vec<GroupConfig>,
}

/// Access to the Telegram bot API.
#[derive(Debug, Clone)]
pub struct TelegramConfig {
    pub bot_token: String,
}

/// Access to an OpenAI-compatible endpoint. The sampling temperature, a
/// float, is kept by the application beside these settings.
#[derive(Debug, Clone)]
pub struct LlmConfig {
    pub base_url: String,
    pub api_key: String,
    pub model: String,
    pub max_tokens: Option<u32>,
    pub request_timeout_secs: u64,
    /// How many recently asked questions (per group) are fed back into the
    /// question-generation prompt as a "do not repeat" list; 0 disables it.
    pub recent_question_window: u32,
}

/// The deadlines for pressing the start button and for answering.
#[derive(Debug, Clone)]
pub struct TimeoutsConfig {
    pub button_press_secs: u64,
    pub answer_submission_secs: u64,
}

/// How long a rejected applicant waits before trying again.
#[derive(Debug, Clone)]
pub struct CooldownConfig {
    pub retry_after_secs: u64,
}

/// The language used where a group sets none.
#[derive(Debug, Clone)]
pub struct I18nConfig {
    pub default_locale: String,
}

/// One gated group.
#[derive(Debug, Clone)]
pub struct GroupConfig {
    pub id: i64,
    pub locale: Option<String>,
    /// A disabled group is left alone without being removed from the file.
    pub enabled: bool,
    pub question_prompt: String,
}

/// The endpoint used when none is configured.
pub fn default_openai_base_url() -> (r: String)
    ensures
        r@ == "https://api.openai.com/v1"@,
{
    String::from_str("https://api.openai.com/v1")
}

/// The per-request timeout used when none is configured.
pub fn default_llm_request_timeout() -> (r: u64)
    ensures
        r == 30,
{
    30
}

/// The recent-question window used when none is configured.
pub fn default_recent_question_window() -> (r: u32)
    ensures
        r == 20,
{
    20
}

/// The locale used when none is configured.
pub fn default_locale() -> (r: String)
    ensures
        r@ == "en"@,
{
    String::from_str("en")
}

/// Groups are enabled unless the file says otherwise.
pub fn default_true() -> (r: bool)
    ensures
        r,
{
    true
}

impl Default for I18nConfig {
    fn default() -> (r: I18nConfig)
        ensures
            r.default_locale@ == "en"@,
    {
        I18nConfig { default_locale: default_locale() }
    }
}

/// Where the configuration file is read from unless told otherwise.
pub fn default_config_path() -> (r: String)
    ensures
        r@ == "configs/bouncer.yaml"@,
{
    String::from_str("configs/bouncer.yaml")
}

/// Where the database lives unless told otherwise.
pub fn default_database_path() -> (r: String)
    ensures
        r@ == "bouncer.db"@,
{
    String::from_str("bouncer.db")
}

/// The message for a group whose question prompt is blank.
pub open spec fn empty_prompt_message(id: i64) -> Seq<char> {
    "group "@ + signed_decimal(id as int) + " has empty question_prompt"@
}

/// The message for a group listed twice.
pub open spec fn duplicate_group_message(id: i64) -> Seq<char> {
    "group "@ + signed_decimal(id as int) + " is listed more than once"@
}

/// The first problem among `groups[i..]`, each group checked in order for
/// a blank prompt and then for an id that an earlier group already has.
pub open spec fn group_problem(groups: Seq<GroupConfig>, i: int) -> Option<Seq<char>>
    decreases groups.len() - i,
{
    if i < 0 || i >= groups.len() {
        None
    } else if is_blank(groups[i].question_prompt@) {
        Some(empty_prompt_message(groups[i].id))
    } else if exists|j: int| 0 <= j < i && groups[j].id == groups[i].id {
        Some(duplicate_group_message(groups[i].id))
    } else {
        group_problem(groups, i + 1)
    }
}

/// The first rule that `c` breaks, as the message that reports it.
pub open spec fn config_problem(c: Config) -> Option<Seq<char>> {
    if is_blank(c.telegram.bot_token@) {
        Some("telegram.bot_token must not be empty"@)
    } else if is_blank(c.llm.api_key@) {
        Some("llm.api_key must not be empty"@)
    } else if is_blank(c.llm.model@) {
        Some("llm.model must not be empty"@)
    } else if c.timeouts.button_press_secs == 0 {
        Some("timeouts.button_press_secs must be > 0"@)
    } else if c.timeouts.answer_submission_secs == 0 {
        Some("timeouts.answer_submission_secs must be > 0"@)
    } else {
        group_problem(c.groups@, 0)
    }
}

/// The index of the first group with id `id`.
pub open spec fn group_index(groups: Seq<GroupConfig>, id: i64) -> Option<int>
    decreases groups.len(),
{
    if groups.len() == 0 {
        None
    } else if groups.last().id == id && group_index(groups.drop_last(), id) is None {
        Some(groups.len() - 1)
    } else {
        group_index(groups.drop_last(), id)
    }
}

proof fn lemma_group_index(groups: Seq<GroupConfig>, id: i64)
    ensures
        group_index(groups, id) matches Some(i) ==> 0 <= i < groups.len() && groups[i].id == id
            && forall|j: int| 0 <= j < i ==> groups[j].id != id,
        group_index(groups, id) is None ==> forall|j: int| 0 <= j < groups.len() ==> groups[j].id != id,
    decreases groups.len(),
{
    if groups.len() > 0 {
        lemma_group_index(groups.drop_last(), id);
        assert forall|j: int| 0 <= j < groups.len() - 1 implies groups.drop_last()[j] == groups[j] by {}
    }
}

fn problem_message(prefix: &str, id: i64, suffix: &str) -> (r: String)
    ensures
        r@ == prefix@ + signed_decimal(id as int) + suffix@,
{
    let mut m = String::from_str(prefix);
    let n = i64_to_string(id);
    push_str(&mut m, n.as_str());
    push_str(&mut m, suffix);
    m
}

impl Config {
    /// Checks the rules that a configuration must meet: non-blank token,
    /// key and model, non-zero deadlines, and for each group a non-blank
    /// prompt and an id that no earlier group has.
    pub fn validate(&self) -> (r: Result<(), Error>)
        ensures
            match config_problem(*self) {
                None => r is Ok,
                Some(m) => r matches Err(Error::ConfigInvalid(x)) && x@ == m,
            },
    {
        if blank(self.telegram.bot_token.as_str()) {
            return Err(Error::ConfigInvalid(String::from_str("telegram.bot_token must not be empty")));
        }
        if blank(self.llm.api_key.as_str()) {
            return Err(Error::ConfigInvalid(String::from_str("llm.api_key must not be empty")));
        }
        if blank(self.llm.model.as_str()) {
            return Err(Error::ConfigInvalid(String::from_str("llm.model must not be empty")));
        }
        if self.timeouts.button_press_secs == 0 {
            return Err(Error::ConfigInvalid(String::from_str("timeouts.button_press_secs must be > 0")));
        }
        if self.timeouts.answer_submission_secs == 0 {
            return Err(Error::ConfigInvalid(String::from_str("timeouts.answer_submission_secs must be > 0")));
        }
        let mut seen: HashMap<i64, ()> = HashMap::new();
        let mut i: usize = 0;
        while i < self.groups.len()
            invariant
                i <= self.groups@.len(),
                group_problem(self.groups@, 0) == group_problem(self.groups@, i as int),
                config_problem(*self) == group_problem(self.groups@, 0),
                forall|id: i64| seen@.contains_key(id) <==> exists|j: int| 0 <= j < i && #[trigger] self.groups@[j].id == id,
            decreases self.groups@.len() - i,
        {
            let g = &self.groups[i];
            if blank(g.question_prompt.as_str()) {
                assert(group_problem(self.groups@, i as int) == Some(empty_prompt_message(g.id)));
                return Err(Error::ConfigInvalid(problem_message("group ", g.id, " has empty question_prompt")));
            }
            let ghost before = seen@;
            if seen.insert(g.id, ()).is_some() {
                assert(group_problem(self.groups@, i as int) == Some(duplicate_group_message(g.id)));
                return Err(Error::ConfigInvalid(problem_message("group ", g.id, " is listed more than once")));
            }
            assert forall|id: i64| seen@.contains_key(id) <==> exists|j: int| 0 <= j < i + 1 && #[trigger] self.groups@[j].id == id by {
                if id == g.id {
                    assert(self.groups@[i as int].id == id);
                }
                if exists|j: int| 0 <= j < i + 1 && #[trigger] self.groups@[j].id == id {
                    let j = choose|j: int| 0 <= j < i + 1 && #[trigger] self.groups@[j].id == id;
                    if j < i {
                        assert(before.contains_key(id));
                    }
                }
            }
            i += 1;
        }
        Ok(())
    }

    /// The settings of group `id`, if it is listed.
    pub fn group(&self, id: i64) -> (r: Option<&GroupConfig>)
        ensures
            match group_index(self.groups@, id) {
                Some(i) => r matches Some(g) && *g == self.groups@[i],
                None => r is None,
            },
    {
        proof {
            lemma_group_index(self.groups@, id);
        }
        let mut i: usize = 0;
        while i < self.groups.len()
            invariant
                i <= self.groups@.len(),
                forall|j: int| 0 <= j < i ==> self.groups@[j].id != id,
                group_index(self.groups@, id) matches Some(k) ==> 0 <= k < self.groups@.len() && self.groups@[k].id == id
                    && forall|j: int| 0 <= j < k ==> self.groups@[j].id != id,
                group_index(self.groups@, id) is None ==> forall|j: int| 0 <= j < self.groups@.len() ==> self.groups@[j].id != id,
            decreases self.groups@.len() - i,
        {
            if self.groups[i].id == id {
                return Some(&self.groups[i]);
            }
            i += 1;
        }
        None
    }
}

/// In a configuration that passed validation no two groups share an id, so
/// the settings that `group` finds are the only ones for that id.
pub proof fn lemma_valid_group_ids_unique(c: Config)
    requires
        config_problem(c) is None,
    ensures
        forall|i: int, j: int| 0 <= i < j < c.groups@.len() ==> c.groups@[i].id != c.groups@[j].id,
{
    assert forall|i: int, j: int| 0 <= i < j < c.groups@.len() implies c.groups@[i].id != c.groups@[j].id by {
        lemma_group_problem_none(c.groups@, 0, j);
    }
}

/// A configuration is refused only for a rule that it breaks: one whose bot
/// token, API key and model each hold a character that is not white space,
/// whose deadlines are positive, whose every group prompt holds such a
/// character, and which lists no group id twice passes validation.
pub proof fn lemma_sound_config_accepted(c: Config)
    requires
        exists|k: int| 0 <= k < c.telegram.bot_token@.len() && !is_white_space(#[trigger] c.telegram.bot_token@[k]),
        exists|k: int| 0 <= k < c.llm.api_key@.len() && !is_white_space(#[trigger] c.llm.api_key@[k]),
        exists|k: int| 0 <= k < c.llm.model@.len() && !is_white_space(#[trigger] c.llm.model@[k]),
        c.timeouts.button_press_secs > 0,
        c.timeouts.answer_submission_secs > 0,
        forall|i: int| #![trigger c.groups@[i]] 0 <= i < c.groups@.len() ==> exists|k: int| 0 <= k < c.groups@[i].question_prompt@.len()
            && !is_white_space(#[trigger] c.groups@[i].question_prompt@[k]),
        forall|i: int, j: int| 0 <= i < j < c.groups@.len() ==> c.groups@[i].id != c.groups@[j].id,
    ensures
        config_problem(c) is None,
{
    lemma_sound_groups_accepted(c.groups@, 0);
}

proof fn lemma_sound_groups_accepted(groups: Seq<GroupConfig>, from: int)
    requires
        0 <= from <= groups.len(),
        forall|i: int| #![trigger groups[i]] 0 <= i < groups.len() ==> exists|k: int| 0 <= k < groups[i].question_prompt@.len()
            && !is_white_space(#[trigger] groups[i].question_prompt@[k]),
        forall|i: int, j: int| 0 <= i < j < groups.len() ==> groups[i].id != groups[j].id,
    ensures
        group_problem(groups, from) is None,
    decreases groups.len() - from,
{
    if from < groups.len() {
        lemma_sound_groups_accepted(groups, from + 1);
        let p = groups[from].question_prompt@;
        let k = choose|k: int| 0 <= k < p.len() && !is_white_space(#[trigger] p[k]);
        assert(!is_blank(p));
        assert(!exists|j: int| 0 <= j < from && groups[j].id == groups[from].id);
    }
}

/// A configuration that passes validation meets every rule: non-blank bot
/// token, API key and model, positive deadlines, a non-blank prompt in every
/// group, and no group id listed twice.
pub proof fn lemma_accepted_config_meets_rules(c: Config)
    requires
        config_problem(c) is None,
    ensures
        !is_blank(c.telegram.bot_token@),
        !is_blank(c.llm.api_key@),
        !is_blank(c.llm.model@),
        c.timeouts.button_press_secs > 0,
        c.timeouts.answer_submission_secs > 0,
        forall|i: int| 0 <= i < c.groups@.len() ==> !is_blank(#[trigger] c.groups@[i].question_prompt@),
        forall|i: int, j: int| 0 <= i < j < c.groups@.len() ==> c.groups@[i].id != c.groups@[j].id,
{
    lemma_valid_group_ids_unique(c);
    assert forall|i: int| 0 <= i < c.groups@.len() implies !is_blank(#[trigger] c.groups@[i].question_prompt@) by {
        lemma_group_problem_none_prompt(c.groups@, 0, i);
    }
}

proof fn lemma_group_problem_none_prompt(groups: Seq<GroupConfig>, from: int, j: int)
    requires
        0 <= from <= j < groups.len(),
        group_problem(groups, from) is None,
    ensures
        !is_blank(groups[j].question_prompt@),
    decreases j - from,
{
    if from < j {
        lemma_group_problem_none_prompt(groups, from + 1, j);
    }
}

proof fn lemma_group_problem_none(groups: Seq<GroupConfig>, from: int, j: int)
    requires
        0 <= from <= j < groups.len(),
        group_problem(groups, from) is None,
    ensures
        forall|i: int| 0 <= i < j ==> groups[i].id != groups[j].id,
    decreases j - from,
{
    if from < j {
        lemma_group_problem_none(groups, from + 1, j);
    }
}

} // verus!

//! The decisions of the verification flow. The bot's event loop reads the
//! clock, the database, Telegram and the language model; each time it has
//! to decide, it hands what it learnt to a function here and carries out
//! the plan that comes back.
use vstd::prelude::*;

use crate::config::{group_index, Config, GroupConfig};
use crate::i18n::{arg_views, render, rendered, LocaleRegistry};
use crate::llm::Verdict;
use crate::locales::Locale;
use crate::storage::{user_caused, AuditRecord, Outcome, PendingRow, Stage};
use crate::text::{
    chars_of, clone_opt, decimal, digits_value, lemma_decimal_reads_back, push_char, push_decimal, push_str,
};

verus! {

broadcast use vstd::string::group_string_axioms;

/// Callback data of the "Start verification" button.
pub const START_CALLBACK: &'static str = "bouncer:start";

/// Callback data of the "Generating..." button shown while the question is
/// being generated; pressing it does nothing.
pub const NOOP_CALLBACK: &'static str = "bouncer:noop";

/// What the bot knows of a Telegram user.
#[derive(Debug, Clone)]
pub struct UserInfo {
    pub id: u64,
    pub first_name: String,
    pub last_name: Option<String>,
    pub username: Option<String>,
}

// ---------------------------------------------------------------------------
// Text.

/// A user's display name: first and last name, else the first name, else
/// `@username`, else `user <id>`.
pub open spec fn display_name_of(u: UserInfo) -> Seq<char> {
    if u.first_name@.len() > 0 {
        match u.last_name {
            Some(last) => u.first_name@ + " "@ + last@,
            None => u.first_name@,
        }
    } else {
        match u.username {
            Some(name) => "@"@ + name@,
            None => "user "@ + decimal(u.id as nat),
        }
    }
}

/// A user's display name.
pub fn display_name(user: &UserInfo) -> (r: String)
    ensures
        r@ == display_name_of(*user),
{
    if !user.first_name.as_str().is_empty() {
        let mut out = user.first_name.clone();
        if let Some(last) = &user.last_name {
            push_char(&mut out, ' ');
            push_str(&mut out, last.as_str());
            proof {
                reveal_strlit(" ");
                assert(out@ =~= display_name_of(*user));
            }
        }
        return out;
    }
    match &user.username {
        Some(name) => {
            let mut out = String::from_str("@");
            push_str(&mut out, name.as_str());
            out
        },
        None => {
            let mut out = String::from_str("user ");
            push_decimal(&mut out, user.id);
            out
        },
    }
}

/// `n` in two digits, zero-padded (`{:02}`).
pub open spec fn two_digits(n: nat) -> Seq<char> {
    if n < 10 {
        seq!['0'] + decimal(n)
    } else {
        decimal(n)
    }
}

/// A duration in minutes: whole minutes, or minutes with two decimals of a
/// minute (`90` seconds is `1.50`).
pub open spec fn minutes_text(secs: u64) -> Seq<char> {
    let m = secs / 60;
    let rem = secs % 60;
    if rem == 0 {
        decimal(m as nat)
    } else {
        decimal(m as nat) + seq!['.'] + two_digits(((rem * 100) / 60) as nat)
    }
}

/// Renders a duration in seconds as minutes.
pub fn format_minutes(secs: u64) -> (r: String)
    ensures
        r@ == minutes_text(secs),
{
    let m = secs / 60;
    let rem = secs % 60;
    let mut out = String::new();
    push_decimal(&mut out, m);
    if rem != 0 {
        push_char(&mut out, '.');
        let f = (rem * 100) / 60;
        if f < 10 {
            push_char(&mut out, '0');
        }
        push_decimal(&mut out, f);
    }
    assert(out@ =~= minutes_text(secs));
    out
}

/// How a character is written into a log line: line breaks become spaces.
pub open spec fn log_char(c: char) -> char {
    if c == '\n' || c == '\r' { ' ' } else { c }
}

/// `s` on one line, cut after `max` characters with an ellipsis marking
/// the cut.
pub open spec fn truncated_for_log(s: Seq<char>, max: nat) -> Seq<char> {
    if s.len() > max {
        s.take(max as int).map_values(|c: char| log_char(c)).push('…')
    } else {
        s.map_values(|c: char| log_char(c))
    }
}

/// Trims a user-supplied string to at most `max_chars` characters for a log
/// field, on one line, with an ellipsis when it was cut.
pub fn truncate_for_log(s: &str, max_chars: usize) -> (r: String)
    ensures
        r@ == truncated_for_log(s@, max_chars as nat),
{
    let v = chars_of(s);
    let mut out = String::new();
    let mut i: usize = 0;
    while i < v.len()
        invariant
            v@ == s@,
            i <= v.len(),
            i <= max_chars,
            out@ == v@.take(i as int).map_values(|c: char| log_char(c)),
        decreases v.len() - i,
    {
        if i >= max_chars {
            push_char(&mut out, '…');
            return out;
        }
        let c = v[i];
        push_char(&mut out, if c == '\n' || c == '\r' { ' ' } else { c });
        assert(v@.take(i + 1).map_values(|c: char| log_char(c)) =~= v@.take(i as int).map_values(|c: char| log_char(c)).push(log_char(c)));
        i += 1;
    }
    assert(v@.take(i as int) =~= v@);
    out
}

/// The argument list that fills `{minutes}`.
pub open spec fn minutes_arg(secs: u64) -> Seq<(Seq<char>, Seq<char>)> {
    seq![("minutes"@, minutes_text(secs))]
}

/// `template` with `{minutes}` set to `secs` in minutes.
pub fn render_cooldown_template(template: &str, secs: u64) -> (r: String)
    ensures
        r@ == rendered(template@, minutes_arg(secs)),
{
    let minutes = format_minutes(secs);
    let args: Vec<(&str, &str)> = vec![("minutes", minutes.as_str())];
    let r = render(template, args.as_slice());
    assert(arg_views(args@) =~= minutes_arg(secs));
    r
}

/// The welcome text: with the group's name when it is known.
pub open spec fn welcome_text(locale: Locale, group_name: Option<Seq<char>>, user: Seq<char>, secs: u64) -> Seq<char> {
    match group_name {
        Some(name) => rendered(locale.welcome@, seq![("user"@, user), ("group"@, name), ("minutes"@, minutes_text(secs))]),
        None => rendered(locale.welcome_no_group_name@, seq![("user"@, user), ("minutes"@, minutes_text(secs))]),
    }
}

/// The welcome sent with the start button.
pub fn render_welcome(locale: &Locale, group_name: Option<&str>, user: &str, secs: u64) -> (r: String)
    ensures
        r@ == welcome_text(*locale, match group_name { Some(n) => Some(n@), None => None }, user@, secs),
{
    let minutes = format_minutes(secs);
    match group_name {
        Some(name) => {
            let args: Vec<(&str, &str)> = vec![("user", user), ("group", name), ("minutes", minutes.as_str())];
            let r = render(locale.welcome.as_str(), args.as_slice());
            assert(arg_views(args@) =~= seq![("user"@, user@), ("group"@, name@), ("minutes"@, minutes_text(secs))]);
            r
        },
        None => {
            let args: Vec<(&str, &str)> = vec![("user", user), ("minutes", minutes.as_str())];
            let r = render(locale.welcome_no_group_name.as_str(), args.as_slice());
            assert(arg_views(args@) =~= seq![("user"@, user@), ("minutes"@, minutes_text(secs))]);
            r
        },
    }
}

// ---------------------------------------------------------------------------
// The engine.

/// Why an event is left alone.
#[derive(Debug, Clone, Copy, PartialEq, Eq, Structural)]
pub enum IgnoreReason {
    /// The group is not in the configuration; its join requests are left to
    /// the human admins.
    UnenrolledGroup,
    /// The group is listed but disabled.
    DisabledGroup,
    /// No verification is pending for the applicant.
    NoPendingVerification,
    /// The pending verification is not at the stage the event belongs to.
    WrongStage,
    /// The pending verification awaits an answer but holds no question.
    MissingQuestion,
}

/// How a verification ends: the audit record to append, the cool-down to
/// start, the message to send the applicant, and whether the join request
/// is approved (or declined).
#[derive(Debug)]
pub struct Resolution {
    pub record: AuditRecord,
    pub cooldown_until: Option<i64>,
    pub message: Option<String>,
    pub approve: bool,
}

/// What to do with a join request.
#[derive(Debug)]
pub enum JoinPlan {
    Ignore(IgnoreReason),
    /// A cool-down is running: send `notice`, append `record`, decline.
    Decline { notice: String, record: AuditRecord },
    /// Store `row`, send `welcome` with a `start_button`, and arm the
    /// button-press timeout for `row.deadline`.
    Start { row: PendingRow, welcome: String, start_button: String },
}

/// What to do with a press of the start button.
#[derive(Debug)]
pub enum ButtonPlan {
    Ignore(IgnoreReason),
    /// Claim `row`, show `generating_button` in place of the start button,
    /// and ask for a question from `prompt`, avoiding up to `recent_window`
    /// recent questions.
    Generate { row: PendingRow, prompt: String, generating_button: String, recent_window: u32 },
}

/// What to do with a direct message that may be an answer.
#[derive(Debug)]
pub enum AnswerPlan {
    Ignore(IgnoreReason),
    /// Claim `row` and have the answer judged against `question` and
    /// `prompt`.
    Verify { row: PendingRow, question: String, prompt: String },
}

/// What to do with a pending verification found at start-up.
#[derive(Debug, Clone, Copy, PartialEq, Eq, Structural)]
pub enum RecoveryAction {
    /// The previous process died during a model call: decline as a model
    /// error, without a cool-down.
    DeclineInterrupted,
    /// The deadline has passed: finalise as a timeout.
    Expire,
    /// Re-arm the timeout for this deadline.
    Rearm(i64),
}

/// The configuration and locales that the decisions read.
#[derive(Debug)]
pub struct Engine {
    pub config: Config,
    pub locales: LocaleRegistry,
}

/// An optional string as an optional character sequence.
pub open spec fn opt_view(o: Option<String>) -> Option<Seq<char>> {
    match o {
        Some(s) => Some(s@),
        None => None,
    }
}

/// The audit record of `row` finished at `now`.
pub open spec fn audit_for(row: PendingRow, now: i64, outcome: Outcome, answer: Option<String>, reason: Option<String>) -> AuditRecord {
    AuditRecord {
        chat_id: row.chat_id,
        user_id: row.user_id,
        username: row.username,
        display_name: row.display_name,
        started_at: row.started_at,
        completed_at: now,
        question: row.question,
        answer,
        outcome,
        reason,
    }
}

/// The stage-dependent outcome of a missed deadline: an applicant who never
/// pressed the button is told apart from one who never answered.
pub open spec fn timeout_outcome(stage: Stage) -> Outcome {
    match stage {
        Stage::AwaitingButton => Outcome::RejectedNoButton,
        _ => Outcome::RejectedNoAnswer,
    }
}

/// The seconds of cool-down announced to an applicant: what is left of it,
/// but at least a minute.
pub open spec fn remaining_secs(expires: i64, now: i64) -> u64 {
    if expires - now < 60 { 60 } else { (expires - now) as u64 }
}

impl Engine {
    pub fn new(config: Config, locales: LocaleRegistry) -> (e: Engine)
        ensures
            e.config == config,
            e.locales == locales,
    {
        Engine { config, locales }
    }

    /// Why events of chat `chat` are left alone, if they are.
    pub open spec fn gate(self, chat: i64) -> Option<IgnoreReason> {
        match group_index(self.config.groups@, chat) {
            None => Some(IgnoreReason::UnenrolledGroup),
            Some(i) => if self.config.groups@[i].enabled { None } else { Some(IgnoreReason::DisabledGroup) },
        }
    }

    /// The settings of an enrolled chat.
    pub open spec fn group_of(self, chat: i64) -> GroupConfig {
        self.config.groups@[group_index(self.config.groups@, chat)->0]
    }

    /// The locale that chat `chat` asks for.
    pub open spec fn preferred(self, chat: i64) -> Option<Seq<char>> {
        match group_index(self.config.groups@, chat) {
            Some(i) => opt_view(self.config.groups@[i].locale),
            None => None,
        }
    }

    /// The locale used for chat `chat`.
    pub open spec fn chat_locale(self, chat: i64) -> Locale {
        self.locales.resolved(self.preferred(chat))
    }

    /// The cool-down that `outcome` starts at `now`.
    pub open spec fn cooldown_for(self, outcome: Outcome, now: i64) -> Option<i64> {
        if user_caused(outcome) {
            Some((now + (self.config.cooldown.retry_after_secs as i64)) as i64)
        } else {
            None
        }
    }

    /// The cool-down that `outcome` starts at `now` fits an `i64`.
    pub open spec fn cooldown_fits(self, outcome: Outcome, now: i64) -> bool {
        user_caused(outcome) ==> i64::MIN <= now + (self.config.cooldown.retry_after_secs as i64) <= i64::MAX
    }

    /// `r` declines `row` at `now` with `outcome`, the given answer, reason
    /// and message (as character sequences), starting the cool-down that
    /// the outcome calls for.
    pub open spec fn declines(self, r: Resolution, row: PendingRow, now: i64, outcome: Outcome,
        answer: Option<Seq<char>>, reason: Option<Seq<char>>, message: Option<Seq<char>>) -> bool
    {
        &&& r.record == audit_for(row, now, outcome, r.record.answer, r.record.reason)
        &&& opt_view(r.record.answer) == answer
        &&& opt_view(r.record.reason) == reason
        &&& r.cooldown_until == self.cooldown_for(outcome, now)
        &&& opt_view(r.message) == message
        &&& !r.approve
    }

    /// Why events of chat `chat_id` are left alone, if they are.
    pub fn gate_reason(&self, chat_id: i64) -> (r: Option<IgnoreReason>)
        ensures
            r == self.gate(chat_id),
    {
        match self.enrolled(chat_id) {
            Ok(_) => None,
            Err(reason) => Some(reason),
        }
    }

    /// The bot's settings.
    pub fn config(&self) -> (r: &Config)
        ensures
            *r == self.config,
    {
        &self.config
    }

    fn enrolled(&self, chat_id: i64) -> (r: Result<&GroupConfig, IgnoreReason>)
        ensures
            match self.gate(chat_id) {
                Some(reason) => r == Err::<&GroupConfig, IgnoreReason>(reason),
                None => r matches Ok(g) && *g == self.group_of(chat_id),
            },
    {
        match self.config.group(chat_id) {
            None => Err(IgnoreReason::UnenrolledGroup),
            Some(g) => if g.enabled { Ok(g) } else { Err(IgnoreReason::DisabledGroup) },
        }
    }

    /// The locale for a group that asks for `preferred`.
    pub fn locale_for_group(&self, preferred: Option<&str>) -> (r: &Locale)
        ensures
            *r == self.locales.resolved(match preferred { Some(k) => Some(k@), None => None }),
    {
        self.locales.resolve(preferred)
    }

    fn chat_locale_ref(&self, chat_id: i64) -> (r: &Locale)
        ensures
            *r == self.chat_locale(chat_id),
    {
        match self.config.group(chat_id) {
            Some(g) => match &g.locale {
                Some(l) => self.locales.resolve(Some(l.as_str())),
                None => self.locales.resolve(None),
            },
            None => self.locales.resolve(None),
        }
    }

    /// The locale that applies to a configured group, for handlers that have
    /// only the chat id at hand.
    pub fn locale_for_chat(&self, chat_id: i64) -> (r: Locale)
        ensures
            r == self.chat_locale(chat_id),
    {
        self.chat_locale_ref(chat_id).duplicate()
    }

    /// Declines `row` at `now` with `outcome`: the audit record, the
    /// cool-down if the outcome is the applicant's fault, and the message.
    pub fn finalize_rejection(&self, row: &PendingRow, outcome: Outcome, answer: Option<String>,
        reason: Option<String>, user_message: Option<String>, now: i64) -> (r: Resolution)
        requires
            self.cooldown_fits(outcome, now),
        ensures
            r == (Resolution {
                record: audit_for(*row, now, outcome, answer, reason),
                cooldown_until: self.cooldown_for(outcome, now),
                message: user_message,
                approve: false,
            }),
    {
        let cooldown_until = if outcome.imposes_cooldown() {
            Some(now + self.config.cooldown.retry_after_secs as i64)
        } else {
            None
        };
        let record = AuditRecord {
            chat_id: row.chat_id,
            user_id: row.user_id,
            username: clone_opt(&row.username),
            display_name: clone_opt(&row.display_name),
            started_at: row.started_at,
            completed_at: now,
            question: clone_opt(&row.question),
            answer,
            outcome,
            reason,
        };
        Resolution { record, cooldown_until, message: user_message, approve: false }
    }

    /// Approves `row` at `now` with the accepted answer and the judge's
    /// reason; no cool-down; the approval message is sent.
    pub fn finalize_acceptance(&self, row: &PendingRow, answer: String, reason: String, now: i64) -> (r: Resolution)
        ensures
            r.record == audit_for(*row, now, Outcome::Approved, Some(answer), Some(reason)),
            r.cooldown_until is None,
            opt_view(r.message) == Some(self.chat_locale(row.chat_id).approved@),
            r.approve,
    {
        let locale = self.chat_locale_ref(row.chat_id);
        let record = AuditRecord {
            chat_id: row.chat_id,
            user_id: row.user_id,
            username: clone_opt(&row.username),
            display_name: clone_opt(&row.display_name),
            started_at: row.started_at,
            completed_at: now,
            question: clone_opt(&row.question),
            answer: Some(answer),
            outcome: Outcome::Approved,
            reason: Some(reason),
        };
        Resolution { record, cooldown_until: None, message: Some(locale.approved.clone()), approve: true }
    }

    /// The rejection of a verification whose deadline passed: no button
    /// press, or no answer.
    pub fn fire_timeout(&self, row: &PendingRow, now: i64) -> (r: Resolution)
        requires
            self.cooldown_fits(timeout_outcome(row.stage), now),
        ensures
            self.declines(r, *row, now, timeout_outcome(row.stage), None, Some("timeout"@),
                Some(rendered(self.chat_locale(row.chat_id).rejected_timeout@, minutes_arg(self.config.cooldown.retry_after_secs)))),
    {
        let locale = self.chat_locale_ref(row.chat_id);
        let message = render_cooldown_template(locale.rejected_timeout.as_str(), self.config.cooldown.retry_after_secs);
        let outcome = match row.stage {
            Stage::AwaitingButton => Outcome::RejectedNoButton,
            _ => Outcome::RejectedNoAnswer,
        };
        self.finalize_rejection(row, outcome, None, Some(String::from_str("timeout")), Some(message), now)
    }

    /// The rejection of a verification interrupted by a restart during a
    /// model call: a model error, without a cool-down.
    pub fn fire_llm_error(&self, row: &PendingRow, now: i64) -> (r: Resolution)
        ensures
            self.declines(r, *row, now, Outcome::RejectedLlmError, None, Some("verification interrupted by restart"@),
                Some(self.chat_locale(row.chat_id).rejected_llm_error@)),
    {
        let locale = self.chat_locale_ref(row.chat_id);
        self.finalize_rejection(row, Outcome::RejectedLlmError, None,
            Some(String::from_str("verification interrupted by restart")), Some(locale.rejected_llm_error.clone()), now)
    }

    /// The plan for a join request of `user` to chat `chat_id`, the bot's
    /// private chat with the user being `dm_chat_id`, at `now`, with the
    /// user's running cool-down (if any) in `cooldown`.
    pub fn on_join_request(&self, chat_id: i64, chat_title: Option<String>, user: &UserInfo, dm_chat_id: i64,
        now: i64, cooldown: Option<i64>) -> (r: JoinPlan)
        requires
            self.gate(chat_id) is None && cooldown is None ==>
                i64::MIN <= now + (self.config.timeouts.button_press_secs as i64) <= i64::MAX,
            self.gate(chat_id) is None ==> (cooldown matches Some(e) ==> i64::MIN <= e - now <= i64::MAX),
        ensures
            match self.gate(chat_id) {
                Some(reason) => r == JoinPlan::Ignore(reason),
                None => match cooldown {
                    Some(e) => r matches JoinPlan::Decline { notice, record } && {
                        &&& notice@ == rendered(self.chat_locale(chat_id).cooldown_notice@, minutes_arg(remaining_secs(e, now)))
                        &&& record.chat_id == chat_id
                        &&& record.user_id == user.id as i64
                        &&& record.username == user.username
                        &&& opt_view(record.display_name) == Some(display_name_of(*user))
                        &&& record.started_at == now
                        &&& record.completed_at == now
                        &&& record.question is None
                        &&& record.answer is None
                        &&& record.outcome == Outcome::RejectedCooldown
                        &&& opt_view(record.reason) == Some("cooldown active"@)
                    },
                    None => r matches JoinPlan::Start { row, welcome, start_button } && {
                        &&& row.chat_id == chat_id
                        &&& row.user_id == user.id as i64
                        &&& row.dm_chat_id == dm_chat_id
                        &&& row.stage == Stage::AwaitingButton
                        &&& row.deadline == now + (self.config.timeouts.button_press_secs as i64)
                        &&& row.question is None
                        &&& row.question_msg_id is None
                        &&& row.started_at == now
                        &&& opt_view(row.display_name) == Some(display_name_of(*user))
                        &&& row.username == user.username
                        &&& welcome@ == welcome_text(self.chat_locale(chat_id), opt_view(chat_title),
                            display_name_of(*user), self.config.timeouts.button_press_secs)
                        &&& start_button@ == self.chat_locale(chat_id).start_button@
                    },
                },
            },
    {
        if let Err(reason) = self.enrolled(chat_id) {
            return JoinPlan::Ignore(reason);
        }
        let locale = self.chat_locale_ref(chat_id);
        let name = display_name(user);
        if let Some(expires) = cooldown {
            let d = expires - now;
            let remaining: u64 = if d < 60 { 60 } else { d as u64 };
            let notice = render_cooldown_template(locale.cooldown_notice.as_str(), remaining);
            let record = AuditRecord {
                chat_id,
                user_id: user.id as i64,
                username: clone_opt(&user.username),
                display_name: Some(name),
                started_at: now,
                completed_at: now,
                question: None,
                answer: None,
                outcome: Outcome::RejectedCooldown,
                reason: Some(String::from_str("cooldown active")),
            };
            return JoinPlan::Decline { notice, record };
        }
        let deadline = now + self.config.timeouts.button_press_secs as i64;
        let title = match &chat_title {
            Some(t) => Some(t.as_str()),
            None => None,
        };
        let welcome = render_welcome(locale, title, name.as_str(), self.config.timeouts.button_press_secs);
        let row = PendingRow {
            chat_id,
            user_id: user.id as i64,
            dm_chat_id,
            stage: Stage::AwaitingButton,
            deadline,
            question: None,
            question_msg_id: None,
            started_at: now,
            display_name: Some(name),
            username: clone_opt(&user.username),
        };
        JoinPlan::Start { row, welcome, start_button: locale.start_button.clone() }
    }

    /// The plan for a press of the start button for chat `chat_id`, given
    /// the applicant's pending verification, if any.
    pub fn on_button_press(&self, chat_id: i64, pending: Option<PendingRow>) -> (r: ButtonPlan)
        ensures
            match pending {
                None => r == ButtonPlan::Ignore(IgnoreReason::NoPendingVerification),
                Some(row) => if row.stage != Stage::AwaitingButton {
                    r == ButtonPlan::Ignore(IgnoreReason::WrongStage)
                } else {
                    match self.gate(chat_id) {
                        Some(reason) => r == ButtonPlan::Ignore(reason),
                        None => r matches ButtonPlan::Generate { row: x, prompt, generating_button, recent_window } && {
                            &&& x == row
                            &&& prompt == self.group_of(chat_id).question_prompt
                            &&& generating_button@ == self.chat_locale(chat_id).generating_button@
                            &&& recent_window == self.config.llm.recent_question_window
                        },
                    }
                },
            },
    {
        let row = match pending {
            None => return ButtonPlan::Ignore(IgnoreReason::NoPendingVerification),
            Some(row) => row,
        };
        if row.stage != Stage::AwaitingButton {
            return ButtonPlan::Ignore(IgnoreReason::WrongStage);
        }
        let group = match self.enrolled(chat_id) {
            Err(reason) => return ButtonPlan::Ignore(reason),
            Ok(g) => g,
        };
        let locale = self.chat_locale_ref(chat_id);
        ButtonPlan::Generate {
            row,
            prompt: group.question_prompt.clone(),
            generating_button: locale.generating_button.clone(),
            recent_window: self.config.llm.recent_question_window,
        }
    }

    /// Question generation failed with `error`: a model error, without a
    /// cool-down.
    pub fn generation_failed(&self, row: &PendingRow, error: &str, now: i64) -> (r: Resolution)
        ensures
            self.declines(r, *row, now, Outcome::RejectedLlmError, None, Some("question generation failed: "@ + error@),
                Some(self.chat_locale(row.chat_id).rejected_llm_error@)),
    {
        let locale = self.chat_locale_ref(row.chat_id);
        let mut reason = String::from_str("question generation failed: ");
        push_str(&mut reason, error);
        self.finalize_rejection(row, Outcome::RejectedLlmError, None, Some(reason), Some(locale.rejected_llm_error.clone()), now)
    }

    /// The question could not be sent (`error`): a model-side failure,
    /// without a cool-down and without a message.
    pub fn delivery_failed(&self, row: &PendingRow, error: &str, now: i64) -> (r: Resolution)
        ensures
            self.declines(r, *row, now, Outcome::RejectedLlmError, None, Some("failed to send question: "@ + error@), None),
    {
        let mut reason = String::from_str("failed to send question: ");
        push_str(&mut reason, error);
        self.finalize_rejection(row, Outcome::RejectedLlmError, None, Some(reason), None, now)
    }

    /// The message that carries `question` to an applicant of chat
    /// `chat_id`, and the answer deadline counted from `now`.
    pub fn question_delivery(&self, chat_id: i64, question: &str, now: i64) -> (r: (String, i64))
        requires
            i64::MIN <= now + (self.config.timeouts.answer_submission_secs as i64) <= i64::MAX,
        ensures
            r.0@ == rendered(self.chat_locale(chat_id).question_intro@, minutes_arg(self.config.timeouts.answer_submission_secs))
                + "\n\n"@ + question@,
            r.1 == now + (self.config.timeouts.answer_submission_secs as i64),
    {
        let locale = self.chat_locale_ref(chat_id);
        let mut text = render_cooldown_template(locale.question_intro.as_str(), self.config.timeouts.answer_submission_secs);
        push_str(&mut text, "\n\n");
        push_str(&mut text, question);
        (text, now + self.config.timeouts.answer_submission_secs as i64)
    }

    /// The plan for a direct message, given the pending verification that
    /// awaits an answer in that private chat, if any.
    pub fn on_user_answer(&self, pending: Option<PendingRow>) -> (r: AnswerPlan)
        ensures
            match pending {
                None => r == AnswerPlan::Ignore(IgnoreReason::NoPendingVerification),
                Some(row) => match row.question {
                    None => r == AnswerPlan::Ignore(IgnoreReason::MissingQuestion),
                    Some(q) => match self.gate(row.chat_id) {
                        Some(reason) => r == AnswerPlan::Ignore(reason),
                        None => r == (AnswerPlan::Verify {
                            row,
                            question: q,
                            prompt: self.group_of(row.chat_id).question_prompt,
                        }),
                    },
                },
            },
    {
        let row = match pending {
            None => return AnswerPlan::Ignore(IgnoreReason::NoPendingVerification),
            Some(row) => row,
        };
        let question = match &row.question {
            None => return AnswerPlan::Ignore(IgnoreReason::MissingQuestion),
            Some(q) => q.clone(),
        };
        let group = match self.enrolled(row.chat_id) {
            Err(reason) => return AnswerPlan::Ignore(reason),
            Ok(g) => g,
        };
        let prompt = group.question_prompt.clone();
        AnswerPlan::Verify { row, question, prompt }
    }

    /// How a verification ends once the judge has spoken on `answer`: an
    /// accepted answer approves; a rejected one declines with a cool-down;
    /// a failed judgement (`Err` with its message) declines as a model error
    /// without one.
    pub fn judge(&self, row: &PendingRow, answer: &str, verdict: Result<Verdict, String>, now: i64) -> (r: Resolution)
        requires
            verdict matches Ok(v) && !v.accept ==> self.cooldown_fits(Outcome::RejectedWrong, now),
        ensures
            match verdict {
                Err(e) => self.declines(r, *row, now, Outcome::RejectedLlmError, Some(answer@),
                    Some("verification failed: "@ + e@), Some(self.chat_locale(row.chat_id).rejected_llm_error@)),
                Ok(v) => if v.accept {
                    &&& opt_view(r.record.answer) == Some(answer@)
                    &&& r.record == audit_for(*row, now, Outcome::Approved, r.record.answer, Some(v.reason))
                    &&& r.cooldown_until is None
                    &&& opt_view(r.message) == Some(self.chat_locale(row.chat_id).approved@)
                    &&& r.approve
                } else {
                    self.declines(r, *row, now, Outcome::RejectedWrong, Some(answer@), Some(v.reason@),
                        Some(rendered(self.chat_locale(row.chat_id).rejected_wrong@, minutes_arg(self.config.cooldown.retry_after_secs))))
                },
            },
    {
        let locale = self.chat_locale_ref(row.chat_id);
        match verdict {
            Err(e) => {
                let mut reason = String::from_str("verification failed: ");
                push_str(&mut reason, e.as_str());
                self.finalize_rejection(row, Outcome::RejectedLlmError, Some(String::from_str(answer)), Some(reason),
                    Some(locale.rejected_llm_error.clone()), now)
            },
            Ok(v) => {
                if v.accept {
                    self.finalize_acceptance(row, String::from_str(answer), v.reason, now)
                } else {
                    let message = render_cooldown_template(locale.rejected_wrong.as_str(), self.config.cooldown.retry_after_secs);
                    self.finalize_rejection(row, Outcome::RejectedWrong, Some(String::from_str(answer)), Some(v.reason),
                        Some(message), now)
                }
            },
        }
    }
}

/// The index of the first group that asks for a locale that is not
/// registered.
pub open spec fn unknown_locale_index(groups: Seq<GroupConfig>, locales: LocaleRegistry, from: int) -> Option<int>
    decreases groups.len() - from,
{
    if from < 0 || from >= groups.len() {
        None
    } else if groups[from].locale matches Some(l) && locales.get(l@) is None {
        Some(from)
    } else {
        unknown_locale_index(groups, locales, from + 1)
    }
}

/// The complaint about the first group whose locale is not registered, if
/// any: `group <id> references unknown locale `<locale>``.
pub fn check_group_locales(config: &Config, locales: &LocaleRegistry) -> (r: Option<String>)
    ensures
        match unknown_locale_index(config.groups@, *locales, 0) {
            None => r is None,
            Some(i) => r matches Some(m) && m@ == "group "@ + crate::text::signed_decimal(config.groups@[i].id as int)
                + " references unknown locale `"@ + config.groups@[i].locale->0@ + "`"@,
        },
{
    let mut i: usize = 0;
    while i < config.groups.len()
        invariant
            i <= config.groups@.len(),
            unknown_locale_index(config.groups@, *locales, 0) == unknown_locale_index(config.groups@, *locales, i as int),
        decreases config.groups@.len() - i,
    {
        let g = &config.groups[i];
        if let Some(l) = &g.locale {
            if !locales.is_known(l.as_str()) {
                let mut m = String::from_str("group ");
                crate::text::push_signed_decimal(&mut m, g.id);
                push_str(&mut m, " references unknown locale `");
                push_str(&mut m, l.as_str());
                push_str(&mut m, "`");
                return Some(m);
            }
        }
        i += 1;
    }
    None
}

/// What to do at start-up with a verification left pending by a previous
/// run.
pub fn recovery_action(row: &PendingRow, now: i64) -> (r: RecoveryAction)
    ensures
        r == (match row.stage {
            Stage::GeneratingQuestion | Stage::Verifying => RecoveryAction::DeclineInterrupted,
            _ => if row.deadline <= now { RecoveryAction::Expire } else { RecoveryAction::Rearm(row.deadline) },
        }),
{
    match row.stage {
        Stage::GeneratingQuestion | Stage::Verifying => RecoveryAction::DeclineInterrupted,
        _ => if row.deadline <= now { RecoveryAction::Expire } else { RecoveryAction::Rearm(row.deadline) },
    }
}

/// Whether a timer armed for `deadline` still applies to the row now
/// stored: only if the row is still there with that very deadline.
pub fn timeout_due(current: Option<&PendingRow>, deadline: i64) -> (r: bool)
    ensures
        r == (current matches Some(row) && row.deadline == deadline),
{
    match current {
        Some(row) => row.deadline == deadline,
        None => false,
    }
}

/// A rejection that is the applicant's fault blocks a new attempt until the
/// cool-down has run out, and no longer after: a join request at `t` finds
/// the cool-down running exactly while `t` is before its expiry.
pub proof fn lemma_rejection_blocks_rejoin(engine: Engine, outcome: Outcome, now: i64, t: i64)
    requires
        user_caused(outcome),
        engine.cooldown_fits(outcome, now),
    ensures
        crate::storage::running_cooldown(engine.cooldown_for(outcome, now), t) is Some
            <==> t < now + (engine.config.cooldown.retry_after_secs as i64),
{
}

/// A timer armed for `deadline` fires on the row now stored only if that
/// row still carries the deadline.
pub open spec fn timer_applies(current: Option<PendingRow>, deadline: i64) -> bool {
    current matches Some(row) && row.deadline == deadline
}

/// Only the applicant's own failures start a cool-down: a wrong answer and
/// the two missed deadlines do; an approval, a model or transport error,
/// and a refused request during a running cool-down do not.
pub proof fn lemma_cooldown_only_for_user_faults(engine: Engine, now: i64)
    ensures
        engine.cooldown_for(Outcome::RejectedWrong, now) is Some,
        engine.cooldown_for(Outcome::RejectedNoButton, now) is Some,
        engine.cooldown_for(Outcome::RejectedNoAnswer, now) is Some,
        engine.cooldown_for(Outcome::Approved, now) is None,
        engine.cooldown_for(Outcome::RejectedLlmError, now) is None,
        engine.cooldown_for(Outcome::RejectedCooldown, now) is None,
{
}

/// Claiming a row before a model call disarms the timer armed for its
/// earlier (non-zero) deadline, and a row moved on to await the answer
/// under a new deadline is not hit by the timer of the old one; so a
/// timeout cannot decline a verification mid-call.
pub proof fn lemma_claim_disarms_timer(row: PendingRow, from: Stage, to: Stage, deadline: i64)
    requires
        row.deadline == deadline,
        deadline != 0,
        crate::storage::claimed(row, from, to) is Some,
    ensures
        !timer_applies(crate::storage::claimed(row, from, to), deadline),
        timer_applies(Some(row), deadline),
{
}

/// A verification interrupted by a restart during a model call is
/// recovered as a model error, which starts no cool-down; one whose
/// deadline passed while the bot was down is recovered as a timeout.
pub proof fn lemma_recovery_outcomes(engine: Engine, row: PendingRow, now: i64)
    ensures
        (row.stage == Stage::GeneratingQuestion || row.stage == Stage::Verifying) ==>
            engine.cooldown_for(Outcome::RejectedLlmError, now) is None,
        (row.stage == Stage::AwaitingButton) ==> timeout_outcome(row.stage) == Outcome::RejectedNoButton,
        (row.stage == Stage::AwaitingAnswer) ==> timeout_outcome(row.stage) == Outcome::RejectedNoAnswer,
        user_caused(timeout_outcome(row.stage)),
{
}

/// The cool-down notice announces the seconds that are left, but at least a
/// minute: the announced time is never under a minute nor under what is left,
/// and it is one of the two. When exactly `m` whole minutes are left, the
/// notice reads `m`.
pub proof fn lemma_cooldown_notice_time(expires: i64, now: i64, m: u64)
    ensures
        remaining_secs(expires, now) >= 60,
        remaining_secs(expires, now) >= expires - now,
        remaining_secs(expires, now) == 60 || remaining_secs(expires, now) == expires - now,
        m >= 1 && expires - now == m * 60 ==> minutes_text(remaining_secs(expires, now)) == decimal(
            m as nat,
        ),
{
    if m >= 1 && expires - now == m * 60 {
        lemma_whole_minutes(m);
    }
}

/// A number under a hundred is written with exactly two digits that read
/// back as the number.
pub proof fn lemma_two_digits_reads_back(n: nat)
    requires
        n < 100,
    ensures
        two_digits(n).len() == 2,
        digits_value(two_digits(n)) == n,
{
    lemma_decimal_reads_back(n);
    if n < 10 {
        let t = seq!['0'] + decimal(n);
        assert(decimal(n) =~= seq![decimal(n)[0]]);
        assert(t.drop_last() =~= seq!['0']);
        assert(seq!['0'].drop_last() =~= Seq::<char>::empty());
        assert(seq!['0'].last() == '0');
        assert(digits_value(Seq::<char>::empty()) == 0);
        assert(digits_value(seq!['0']) == digits_value(seq!['0'].drop_last()) * 10 + ('0' as int - '0' as int));
        assert(digits_value(seq!['0']) == 0);
        assert(t.last() == decimal(n)[0]);
        assert(digits_value(decimal(n)) == digits_value(decimal(n).drop_last()) * 10 + (decimal(n).last() as int - '0' as int));
        assert(decimal(n).drop_last() =~= Seq::<char>::empty());
    } else {
        assert(decimal(n / 10).len() == 1);
    }
}

/// A duration of whole minutes reads as the plain number of minutes.
pub proof fn lemma_whole_minutes(m: u64)
    requires
        m * 60 <= u64::MAX,
    ensures
        minutes_text((m * 60) as u64) == decimal(m as nat),
{
    assert(((m * 60) as u64) / 60 == m) by (nonlinear_arith)
        requires m * 60 <= u64::MAX;
    assert(((m * 60) as u64) % 60 == 0) by (nonlinear_arith)
        requires m * 60 <= u64::MAX;
}

} // verus!

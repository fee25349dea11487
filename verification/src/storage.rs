//! The records that the bot keeps between events: the stage of an in-flight
//! verification, the outcome of a finished one, the row kept per pending
//! applicant, the audit record and the aggregated statistics; and the rules
//! by which the stored state moves on.
use vstd::prelude::*;

use crate::error::Error;
use crate::text::{push_signed_decimal, push_str, signed_decimal, str_eq};

verus! {

broadcast use vstd::string::group_string_axioms;

/// Where an in-flight verification stands.
#[derive(Debug, Clone, Copy, PartialEq, Eq, Structural)]
pub enum Stage {
    /// The welcome with the start button was sent; nothing pressed yet.
    AwaitingButton,
    /// The question is being generated. No deadline applies.
    GeneratingQuestion,
    /// The question was delivered; the answer is awaited.
    AwaitingAnswer,
    /// The answer is being judged. No deadline applies.
    Verifying,
}

/// The stored name of a stage.
pub open spec fn stage_name(s: Stage) -> Seq<char> {
    match s {
        Stage::AwaitingButton => "awaiting_button"@,
        Stage::GeneratingQuestion => "generating_question"@,
        Stage::AwaitingAnswer => "awaiting_answer"@,
        Stage::Verifying => "verifying"@,
    }
}

impl Stage {
    /// The name under which the stage is stored.
    pub fn as_str(self) -> (r: &'static str)
        ensures
            r@ == stage_name(self),
    {
        match self {
            Stage::AwaitingButton => "awaiting_button",
            Stage::GeneratingQuestion => "generating_question",
            Stage::AwaitingAnswer => "awaiting_answer",
            Stage::Verifying => "verifying",
        }
    }

    /// The stage stored under `raw`, if any.
    pub fn parse(raw: &str) -> (r: Option<Stage>)
        ensures
            r matches Some(s) ==> stage_name(s) == raw@,
            r is None ==> (forall|s: Stage| stage_name(s) != raw@),
    {
        proof {
            reveal_strlit("awaiting_button");
            reveal_strlit("generating_question");
            reveal_strlit("awaiting_answer");
            reveal_strlit("verifying");
        }
        if str_eq(raw, "awaiting_button") {
            Some(Stage::AwaitingButton)
        } else if str_eq(raw, "generating_question") {
            Some(Stage::GeneratingQuestion)
        } else if str_eq(raw, "awaiting_answer") {
            Some(Stage::AwaitingAnswer)
        } else if str_eq(raw, "verifying") {
            Some(Stage::Verifying)
        } else {
            assert forall|s: Stage| stage_name(s) != raw@ by {
                match s {
                    Stage::AwaitingButton => {},
                    Stage::GeneratingQuestion => {},
                    Stage::AwaitingAnswer => {},
                    Stage::Verifying => {},
                }
            }
            None
        }
    }
}

/// How a verification ended.
#[derive(Debug, Clone, Copy, PartialEq, Eq, Structural)]
pub enum Outcome {
    Approved,
    RejectedWrong,
    /// The join request was made but the start button was never pressed.
    RejectedNoButton,
    /// The question was delivered but no answer came in time.
    RejectedNoAnswer,
    RejectedLlmError,
    RejectedCooldown,
}

/// The stored name of an outcome.
pub open spec fn outcome_name(o: Outcome) -> Seq<char> {
    match o {
        Outcome::Approved => "approved"@,
        Outcome::RejectedWrong => "rejected_wrong"@,
        Outcome::RejectedNoButton => "rejected_no_button"@,
        Outcome::RejectedNoAnswer => "rejected_no_answer"@,
        Outcome::RejectedLlmError => "rejected_llm_error"@,
        Outcome::RejectedCooldown => "rejected_cooldown"@,
    }
}

/// The outcomes that are the applicant's own doing: a wrong answer or a
/// missed deadline.
pub open spec fn user_caused(o: Outcome) -> bool {
    o == Outcome::RejectedWrong || o == Outcome::RejectedNoButton || o == Outcome::RejectedNoAnswer
}

impl Outcome {
    /// The name under which the outcome is stored.
    pub fn as_str(self) -> (r: &'static str)
        ensures
            r@ == outcome_name(self),
    {
        match self {
            Outcome::Approved => "approved",
            Outcome::RejectedWrong => "rejected_wrong",
            Outcome::RejectedNoButton => "rejected_no_button",
            Outcome::RejectedNoAnswer => "rejected_no_answer",
            Outcome::RejectedLlmError => "rejected_llm_error",
            Outcome::RejectedCooldown => "rejected_cooldown",
        }
    }

    /// Whether this outcome puts the applicant on a retry cool-down: only
    /// rejections that are the applicant's fault do.
    pub fn imposes_cooldown(self) -> (r: bool)
        ensures
            r == user_caused(self),
    {
        match self {
            Outcome::RejectedWrong | Outcome::RejectedNoButton | Outcome::RejectedNoAnswer => true,
            _ => false,
        }
    }
}

/// The stored state of one in-flight verification, keyed by
/// `(chat_id, user_id)`.
#[derive(Debug, Clone)]
pub struct PendingRow {
    pub chat_id: i64,
    pub user_id: i64,
    pub dm_chat_id: i64,
    pub stage: Stage,
    pub deadline: i64,
    pub question: Option<String>,
    pub question_msg_id: Option<i64>,
    pub started_at: i64,
    /// Human-readable name captured at join-request time.
    pub display_name: Option<String>,
    /// The applicant's `@username`, if set.
    pub username: Option<String>,
}

/// One finished verification, as appended to the audit log.
#[derive(Debug, Clone)]
pub struct AuditRecord {
    pub chat_id: i64,
    pub user_id: i64,
    pub username: Option<String>,
    pub display_name: Option<String>,
    pub started_at: i64,
    pub completed_at: i64,
    pub question: Option<String>,
    pub answer: Option<String>,
    pub outcome: Outcome,
    pub reason: Option<String>,
}

/// Counts of finished verifications.
#[derive(Debug, Clone, Copy)]
pub struct GroupStats {
    pub attempts: u64,
    pub approved: u64,
    pub rejected_wrong: u64,
    pub rejected_no_button: u64,
    pub rejected_no_answer: u64,
    pub rejected_llm_error: u64,
    pub rejected_cooldown: u64,
    pub unique_users: u64,
}

/// The all-zero statistics.
pub open spec fn zero_stats() -> GroupStats {
    GroupStats {
        attempts: 0,
        approved: 0,
        rejected_wrong: 0,
        rejected_no_button: 0,
        rejected_no_answer: 0,
        rejected_llm_error: 0,
        rejected_cooldown: 0,
        unique_users: 0,
    }
}

impl Default for GroupStats {
    fn default() -> (s: GroupStats)
        ensures
            s == zero_stats(),
    {
        GroupStats {
            attempts: 0,
            approved: 0,
            rejected_wrong: 0,
            rejected_no_button: 0,
            rejected_no_answer: 0,
            rejected_llm_error: 0,
            rejected_cooldown: 0,
            unique_users: 0,
        }
    }
}

/// The sum of the rejection counts.
pub open spec fn rejected_total(s: GroupStats) -> int {
    s.rejected_wrong + s.rejected_no_button + s.rejected_no_answer + s.rejected_llm_error
        + s.rejected_cooldown
}

impl GroupStats {
    /// All rejections, whatever their cause.
    pub fn rejected(&self) -> (r: u64)
        requires
            rejected_total(*self) <= u64::MAX,
        ensures
            r == rejected_total(*self),
    {
        self.rejected_wrong + self.rejected_no_button + self.rejected_no_answer
            + self.rejected_llm_error + self.rejected_cooldown
    }
}

/// The bucket that a stored outcome name is counted in. Rows written before
/// the no-button / no-answer split carry `rejected_timeout`; they count as
/// no-answer. Unknown names count towards the attempts only.
pub enum Bucket {
    Approved,
    Wrong,
    NoButton,
    NoAnswer,
    LlmError,
    Cooldown,
    Unknown,
}

pub open spec fn bucket_of(outcome: Seq<char>) -> Bucket {
    if outcome == "approved"@ {
        Bucket::Approved
    } else if outcome == "rejected_wrong"@ {
        Bucket::Wrong
    } else if outcome == "rejected_no_button"@ {
        Bucket::NoButton
    } else if outcome == "rejected_no_answer"@ {
        Bucket::NoAnswer
    } else if outcome == "rejected_timeout"@ {
        Bucket::NoAnswer
    } else if outcome == "rejected_llm_error"@ {
        Bucket::LlmError
    } else if outcome == "rejected_cooldown"@ {
        Bucket::Cooldown
    } else {
        Bucket::Unknown
    }
}

/// The current value of the counter that `outcome` is added to (0 when none).
pub open spec fn bucket_value(s: GroupStats, outcome: Seq<char>) -> int {
    match bucket_of(outcome) {
        Bucket::Approved => s.approved as int,
        Bucket::Wrong => s.rejected_wrong as int,
        Bucket::NoButton => s.rejected_no_button as int,
        Bucket::NoAnswer => s.rejected_no_answer as int,
        Bucket::LlmError => s.rejected_llm_error as int,
        Bucket::Cooldown => s.rejected_cooldown as int,
        Bucket::Unknown => 0,
    }
}

/// `s` after counting `count` verifications with the stored outcome `outcome`.
pub open spec fn counted(s: GroupStats, outcome: Seq<char>, count: u64) -> GroupStats {
    let t = GroupStats { attempts: (s.attempts + count) as u64, ..s };
    match bucket_of(outcome) {
        Bucket::Approved => GroupStats { approved: (s.approved + count) as u64, ..t },
        Bucket::Wrong => GroupStats { rejected_wrong: (s.rejected_wrong + count) as u64, ..t },
        Bucket::NoButton => GroupStats { rejected_no_button: (s.rejected_no_button + count) as u64, ..t },
        Bucket::NoAnswer => GroupStats { rejected_no_answer: (s.rejected_no_answer + count) as u64, ..t },
        Bucket::LlmError => GroupStats { rejected_llm_error: (s.rejected_llm_error + count) as u64, ..t },
        Bucket::Cooldown => GroupStats { rejected_cooldown: (s.rejected_cooldown + count) as u64, ..t },
        Bucket::Unknown => t,
    }
}

/// Adds `count` verifications with the stored outcome `outcome` to `stats`.
pub fn apply_outcome_count(stats: &mut GroupStats, outcome: &str, count: u64)
    requires
        old(stats).attempts + count <= u64::MAX,
        bucket_value(*old(stats), outcome@) + count <= u64::MAX,
    ensures
        *final(stats) == counted(*old(stats), outcome@, count),
{
    proof {
        reveal_strlit("approved");
        reveal_strlit("rejected_wrong");
        reveal_strlit("rejected_no_button");
        reveal_strlit("rejected_no_answer");
        reveal_strlit("rejected_timeout");
        reveal_strlit("rejected_llm_error");
        reveal_strlit("rejected_cooldown");
    }
    stats.attempts = stats.attempts + count;
    if str_eq(outcome, "approved") {
        stats.approved = stats.approved + count;
    } else if str_eq(outcome, "rejected_wrong") {
        stats.rejected_wrong = stats.rejected_wrong + count;
    } else if str_eq(outcome, "rejected_no_button") {
        stats.rejected_no_button = stats.rejected_no_button + count;
    } else if str_eq(outcome, "rejected_no_answer") {
        stats.rejected_no_answer = stats.rejected_no_answer + count;
    } else if str_eq(outcome, "rejected_timeout") {
        stats.rejected_no_answer = stats.rejected_no_answer + count;
    } else if str_eq(outcome, "rejected_llm_error") {
        stats.rejected_llm_error = stats.rejected_llm_error + count;
    } else if str_eq(outcome, "rejected_cooldown") {
        stats.rejected_cooldown = stats.rejected_cooldown + count;
    }
}

/// Each stored outcome name is counted in its own counter: counting `n`
/// verifications stored under an outcome's name raises the attempts and the
/// counter of that outcome by `n` and leaves every other counter as it was.
/// The older `rejected_timeout` counts as no answer, and a name the bot never
/// writes raises the attempts alone.
pub proof fn lemma_outcome_counted_in_its_own_counter(s: GroupStats, name: Seq<char>, n: u64)
    requires
        s.attempts + n <= u64::MAX,
        s.approved + n <= u64::MAX,
        s.rejected_wrong + n <= u64::MAX,
        s.rejected_no_button + n <= u64::MAX,
        s.rejected_no_answer + n <= u64::MAX,
        s.rejected_llm_error + n <= u64::MAX,
        s.rejected_cooldown + n <= u64::MAX,
    ensures
        counted(s, outcome_name(Outcome::Approved), n) == (GroupStats {
            attempts: (s.attempts + n) as u64,
            approved: (s.approved + n) as u64,
            ..s
        }),
        counted(s, outcome_name(Outcome::RejectedWrong), n) == (GroupStats {
            attempts: (s.attempts + n) as u64,
            rejected_wrong: (s.rejected_wrong + n) as u64,
            ..s
        }),
        counted(s, outcome_name(Outcome::RejectedNoButton), n) == (GroupStats {
            attempts: (s.attempts + n) as u64,
            rejected_no_button: (s.rejected_no_button + n) as u64,
            ..s
        }),
        counted(s, outcome_name(Outcome::RejectedNoAnswer), n) == (GroupStats {
            attempts: (s.attempts + n) as u64,
            rejected_no_answer: (s.rejected_no_answer + n) as u64,
            ..s
        }),
        counted(s, outcome_name(Outcome::RejectedLlmError), n) == (GroupStats {
            attempts: (s.attempts + n) as u64,
            rejected_llm_error: (s.rejected_llm_error + n) as u64,
            ..s
        }),
        counted(s, outcome_name(Outcome::RejectedCooldown), n) == (GroupStats {
            attempts: (s.attempts + n) as u64,
            rejected_cooldown: (s.rejected_cooldown + n) as u64,
            ..s
        }),
        counted(s, "rejected_timeout"@, n) == (GroupStats {
            attempts: (s.attempts + n) as u64,
            rejected_no_answer: (s.rejected_no_answer + n) as u64,
            ..s
        }),
        (forall|o: Outcome| name != #[trigger] outcome_name(o)) && name != "rejected_timeout"@
            ==> counted(s, name, n) == (GroupStats { attempts: (s.attempts + n) as u64, ..s }),
{
    reveal_strlit("approved");
    reveal_strlit("rejected_wrong");
    reveal_strlit("rejected_no_button");
    reveal_strlit("rejected_no_answer");
    reveal_strlit("rejected_timeout");
    reveal_strlit("rejected_llm_error");
    reveal_strlit("rejected_cooldown");
    assert("approved"@.len() == 8);
    assert("rejected_wrong"@.len() == 14);
    assert("rejected_no_button"@.len() == 18);
    assert("rejected_no_answer"@.len() == 18);
    assert("rejected_timeout"@.len() == 16);
    assert("rejected_llm_error"@.len() == 18);
    assert("rejected_cooldown"@.len() == 17);
    assert("rejected_no_button"@[12] != "rejected_no_answer"@[12]);
    assert("rejected_no_button"@[9] != "rejected_llm_error"@[9]);
    assert("rejected_no_answer"@[9] != "rejected_llm_error"@[9]);
    assert(bucket_of("approved"@) is Approved);
    assert(bucket_of("rejected_wrong"@) is Wrong);
    assert(bucket_of("rejected_no_button"@) is NoButton);
    assert(bucket_of("rejected_no_answer"@) is NoAnswer);
    assert(bucket_of("rejected_timeout"@) is NoAnswer);
    assert(bucket_of("rejected_llm_error"@) is LlmError);
    assert(bucket_of("rejected_cooldown"@) is Cooldown);
    if (forall|o: Outcome| name != #[trigger] outcome_name(o)) && name != "rejected_timeout"@ {
        assert(name != outcome_name(Outcome::Approved));
        assert(name != outcome_name(Outcome::RejectedWrong));
        assert(name != outcome_name(Outcome::RejectedNoButton));
        assert(name != outcome_name(Outcome::RejectedNoAnswer));
        assert(name != outcome_name(Outcome::RejectedLlmError));
        assert(name != outcome_name(Outcome::RejectedCooldown));
    }
}

// ---------------------------------------------------------------------------
// Aggregating the audit log.

/// The sum of the counts of `rows`, each read as a `u64`.
pub open spec fn total_count(rows: Seq<(String, i64)>) -> int
    decreases rows.len(),
{
    if rows.len() == 0 {
        0
    } else {
        total_count(rows.drop_last()) + (rows.last().1 as u64) as int
    }
}

/// The statistics of `(outcome, count)` rows, counted in order.
pub open spec fn fold_counts(rows: Seq<(String, i64)>) -> GroupStats
    decreases rows.len(),
{
    if rows.len() == 0 {
        zero_stats()
    } else {
        counted(fold_counts(rows.drop_last()), rows.last().0@, rows.last().1 as u64)
    }
}

/// Every counter of `s` is at most its attempts.
pub open spec fn buckets_within_attempts(s: GroupStats) -> bool {
    &&& s.approved <= s.attempts
    &&& s.rejected_wrong <= s.attempts
    &&& s.rejected_no_button <= s.attempts
    &&& s.rejected_no_answer <= s.attempts
    &&& s.rejected_llm_error <= s.attempts
    &&& s.rejected_cooldown <= s.attempts
    &&& s.approved + rejected_total(s) <= s.attempts
}

proof fn lemma_counted_bounds(s: GroupStats, outcome: Seq<char>, count: u64)
    requires
        buckets_within_attempts(s),
        s.attempts + count <= u64::MAX,
    ensures
        buckets_within_attempts(counted(s, outcome, count)),
        counted(s, outcome, count).attempts == s.attempts + count,
        counted(s, outcome, count).unique_users == s.unique_users,
{
}

proof fn lemma_fold_counts(rows: Seq<(String, i64)>)
    requires
        total_count(rows) <= u64::MAX,
    ensures
        fold_counts(rows).attempts == total_count(rows),
        buckets_within_attempts(fold_counts(rows)),
        fold_counts(rows).unique_users == 0,
    decreases rows.len(),
{
    if rows.len() > 0 {
        lemma_fold_counts(rows.drop_last());
        lemma_counted_bounds(fold_counts(rows.drop_last()), rows.last().0@, rows.last().1 as u64);
    }
}

proof fn lemma_total_count_prefix(rows: Seq<(String, i64)>, i: int)
    requires
        0 <= i <= rows.len(),
    ensures
        total_count(rows.take(i)) <= total_count(rows),
    decreases rows.len() - i,
{
    if i < rows.len() {
        lemma_total_count_prefix(rows, i + 1);
        assert(rows.take(i + 1).drop_last() =~= rows.take(i));
    } else {
        assert(rows.take(i) =~= rows);
    }
}

/// The statistics over all groups: the `(outcome, count)` rows of the audit
/// log counted in order, with `unique` distinct applicants.
pub fn global_stats(rows: &Vec<(String, i64)>, unique: i64) -> (r: GroupStats)
    requires
        total_count(rows@) <= u64::MAX,
    ensures
        r == (GroupStats { unique_users: unique as u64, ..fold_counts(rows@) }),
        buckets_within_attempts(r),
{
    let mut stats = GroupStats::default();
    let mut i: usize = 0;
    while i < rows.len()
        invariant
            i <= rows@.len(),
            total_count(rows@) <= u64::MAX,
            stats == fold_counts(rows@.take(i as int)),
        decreases rows@.len() - i,
    {
        proof {
            lemma_total_count_prefix(rows@, i + 1);
            lemma_total_count_prefix(rows@, i as int);
            lemma_fold_counts(rows@.take(i + 1));
            lemma_fold_counts(rows@.take(i as int));
            assert(rows@.take(i + 1).drop_last() =~= rows@.take(i as int));
        }
        apply_outcome_count(&mut stats, rows[i].0.as_str(), rows[i].1 as u64);
        i += 1;
    }
    assert(rows@.take(rows@.len() as int) =~= rows@);
    proof {
        lemma_fold_counts(rows@);
    }
    stats.unique_users = unique as u64;
    stats
}

/// The sum of the counts of `(chat, outcome, count)` rows.
pub open spec fn chat_rows_total(rows: Seq<(i64, String, i64)>) -> int
    decreases rows.len(),
{
    if rows.len() == 0 {
        0
    } else {
        chat_rows_total(rows.drop_last()) + (rows.last().2 as u64) as int
    }
}

/// The statistics of chat `k` from `(chat, outcome, count)` rows, counted
/// in order.
pub open spec fn chat_fold(rows: Seq<(i64, String, i64)>, k: i64) -> GroupStats
    decreases rows.len(),
{
    if rows.len() == 0 {
        zero_stats()
    } else if rows.last().0 == k {
        counted(chat_fold(rows.drop_last(), k), rows.last().1@, rows.last().2 as u64)
    } else {
        chat_fold(rows.drop_last(), k)
    }
}

/// The `(outcome, count)` rows of chat `k`, in order.
pub open spec fn rows_of_chat(rows: Seq<(i64, String, i64)>, k: i64) -> Seq<(String, i64)>
    decreases rows.len(),
{
    if rows.len() == 0 {
        Seq::empty()
    } else if rows.last().0 == k {
        rows_of_chat(rows.drop_last(), k).push((rows.last().1, rows.last().2))
    } else {
        rows_of_chat(rows.drop_last(), k)
    }
}

/// A group is counted as the whole log is: the statistics of chat `k` are
/// those that the global count gives for the rows of `k` alone.
pub proof fn lemma_chat_counted_like_global(rows: Seq<(i64, String, i64)>, k: i64)
    ensures
        chat_fold(rows, k) == fold_counts(rows_of_chat(rows, k)),
    decreases rows.len(),
{
    if rows.len() > 0 {
        lemma_chat_counted_like_global(rows.drop_last(), k);
        if rows.last().0 == k {
            let p = rows_of_chat(rows.drop_last(), k);
            let q = p.push((rows.last().1, rows.last().2));
            assert(q.drop_last() =~= p);
            assert(q.last() == (rows.last().1, rows.last().2));
        }
    }
}

/// The chats that `(chat, outcome, count)` rows mention.
pub open spec fn row_chats(rows: Seq<(i64, String, i64)>) -> Set<i64>
    decreases rows.len(),
{
    if rows.len() == 0 {
        Set::empty()
    } else {
        row_chats(rows.drop_last()).insert(rows.last().0)
    }
}

/// The distinct-applicant count given for chat `k` by the last
/// `(chat, count)` row that names it; 0 when none does.
pub open spec fn unique_for(uniques: Seq<(i64, i64)>, k: i64) -> u64
    decreases uniques.len(),
{
    if uniques.len() == 0 {
        0
    } else if uniques.last().0 == k {
        uniques.last().1 as u64
    } else {
        unique_for(uniques.drop_last(), k)
    }
}

/// The chats that `(chat, count)` rows mention.
pub open spec fn unique_chats(uniques: Seq<(i64, i64)>) -> Set<i64>
    decreases uniques.len(),
{
    if uniques.len() == 0 {
        Set::empty()
    } else {
        unique_chats(uniques.drop_last()).insert(uniques.last().0)
    }
}

/// The statistics reported for chat `k`.
pub open spec fn chat_stats(rows: Seq<(i64, String, i64)>, uniques: Seq<(i64, i64)>, k: i64) -> GroupStats {
    GroupStats { unique_users: unique_for(uniques, k), ..chat_fold(rows, k) }
}

/// The chats of `entries` are strictly increasing.
pub open spec fn strictly_sorted(entries: Seq<(i64, GroupStats)>) -> bool {
    forall|a: int, b: int| 0 <= a < b < entries.len() ==> entries[a].0 < entries[b].0
}

/// The chats of `entries`.
pub open spec fn entry_keys(entries: Seq<(i64, GroupStats)>) -> Set<i64> {
    Set::new(|k: i64| exists|a: int| 0 <= a < entries.len() && entries[a].0 == k)
}

proof fn lemma_chat_fold(rows: Seq<(i64, String, i64)>, k: i64)
    requires
        chat_rows_total(rows) <= u64::MAX,
    ensures
        chat_fold(rows, k).attempts <= chat_rows_total(rows),
        buckets_within_attempts(chat_fold(rows, k)),
        chat_fold(rows, k).unique_users == 0,
        !row_chats(rows).contains(k) ==> chat_fold(rows, k) == zero_stats(),
    decreases rows.len(),
{
    if rows.len() > 0 {
        lemma_chat_fold(rows.drop_last(), k);
        if rows.last().0 == k {
            lemma_counted_bounds(chat_fold(rows.drop_last(), k), rows.last().1@, rows.last().2 as u64);
        }
    }
}

proof fn lemma_chat_rows_total_prefix(rows: Seq<(i64, String, i64)>, i: int)
    requires
        0 <= i <= rows.len(),
    ensures
        chat_rows_total(rows.take(i)) <= chat_rows_total(rows),
    decreases rows.len() - i,
{
    if i < rows.len() {
        lemma_chat_rows_total_prefix(rows, i + 1);
        assert(rows.take(i + 1).drop_last() =~= rows.take(i));
    } else {
        assert(rows.take(i) =~= rows);
    }
}

/// Where `k` is, or would go, in the strictly sorted `entries`.
fn locate(entries: &Vec<(i64, GroupStats)>, k: i64) -> (r: (bool, usize))
    requires
        strictly_sorted(entries@),
    ensures
        r.1 <= entries@.len(),
        r.0 ==> r.1 < entries@.len() && entries@[r.1 as int].0 == k,
        !r.0 ==> (forall|a: int| 0 <= a < r.1 ==> entries@[a].0 < k)
            && (forall|a: int| r.1 <= a < entries@.len() ==> entries@[a].0 > k),
{
    let mut i: usize = 0;
    while i < entries.len() && entries[i].0 < k
        invariant
            i <= entries@.len(),
            forall|a: int| 0 <= a < i ==> entries@[a].0 < k,
        decreases entries@.len() - i,
    {
        i += 1;
    }
    if i < entries.len() && entries[i].0 == k {
        (true, i)
    } else {
        (false, i)
    }
}

/// The statistics of each chat from the audit log's
/// `(chat, outcome, count)` rows and `(chat, distinct applicants)` rows,
/// ordered by chat id.
pub fn group_stats(rows: &Vec<(i64, String, i64)>, uniques: &Vec<(i64, i64)>) -> (r: Vec<(i64, GroupStats)>)
    requires
        chat_rows_total(rows@) <= u64::MAX,
    ensures
        strictly_sorted(r@),
        entry_keys(r@) == row_chats(rows@).union(unique_chats(uniques@)),
        forall|a: int| 0 <= a < r@.len() ==> #[trigger] r@[a].1 == chat_stats(rows@, uniques@, r@[a].0),
        forall|a: int| 0 <= a < r@.len() ==> buckets_within_attempts(#[trigger] r@[a].1),
{
    let mut acc: Vec<(i64, GroupStats)> = Vec::new();
    let mut i: usize = 0;
    while i < rows.len()
        invariant
            i <= rows@.len(),
            chat_rows_total(rows@) <= u64::MAX,
            strictly_sorted(acc@),
            entry_keys(acc@) == row_chats(rows@.take(i as int)),
            forall|a: int| 0 <= a < acc@.len() ==> #[trigger] acc@[a].1 == chat_fold(rows@.take(i as int), acc@[a].0),
        decreases rows@.len() - i,
    {
        let chat = rows[i].0;
        let ghost pre = rows@.take(i as int);
        let ghost post = rows@.take(i + 1);
        let ghost old_acc = acc@;
        proof {
            assert(post.drop_last() =~= pre);
            assert(post.last() == rows@[i as int]);
            lemma_chat_rows_total_prefix(rows@, i + 1);
            lemma_chat_fold(pre, chat);
            assert(chat_rows_total(post) == chat_rows_total(pre) + (rows@[i as int].2 as u64) as int);
        }
        let (found, pos) = locate(&acc, chat);
        let mut st = if found { acc[pos].1 } else { GroupStats::default() };
        assert(st == chat_fold(pre, chat)) by {
            if !found {
                assert(!entry_keys(old_acc).contains(chat));
            }
        }
        apply_outcome_count(&mut st, rows[i].1.as_str(), rows[i].2 as u64);
        assert(st == chat_fold(post, chat));
        if found {
            acc.set(pos, (chat, st));
            proof {
                assert forall|a: int| 0 <= a < acc@.len() implies #[trigger] acc@[a].1 == chat_fold(post, acc@[a].0) by {
                    if a != pos {
                        assert(acc@[a] == old_acc[a]);
                    }
                }
                assert(entry_keys(acc@) =~= row_chats(post)) by {
                    assert forall|k: i64| entry_keys(acc@).contains(k) <==> row_chats(post).contains(k) by {
                        if entry_keys(old_acc).contains(k) {
                            let a = choose|a: int| 0 <= a < old_acc.len() && old_acc[a].0 == k;
                            assert(acc@[a].0 == k);
                        }
                        if entry_keys(acc@).contains(k) {
                            let a = choose|a: int| 0 <= a < acc@.len() && acc@[a].0 == k;
                            assert(old_acc[a].0 == k);
                        }
                    }
                }
            }
        } else {
            acc.insert(pos, (chat, st));
            proof {
                assert forall|a: int| 0 <= a < acc@.len() implies #[trigger] acc@[a].1 == chat_fold(post, acc@[a].0) by {
                    if a < pos {
                        assert(acc@[a] == old_acc[a]);
                    } else if a > pos {
                        assert(acc@[a] == old_acc[a - 1]);
                    }
                }
                assert forall|a: int, b: int| 0 <= a < b < acc@.len() implies acc@[a].0 < acc@[b].0 by {
                    if a < pos {
                        assert(acc@[a] == old_acc[a]);
                    } else if a > pos {
                        assert(acc@[a] == old_acc[a - 1]);
                    }
                    if b < pos {
                        assert(acc@[b] == old_acc[b]);
                    } else if b > pos {
                        assert(acc@[b] == old_acc[b - 1]);
                    }
                }
                assert(entry_keys(acc@) =~= row_chats(post)) by {
                    assert forall|k: i64| entry_keys(acc@).contains(k) <==> row_chats(post).contains(k) by {
                        if entry_keys(old_acc).contains(k) {
                            let a = choose|a: int| 0 <= a < old_acc.len() && old_acc[a].0 == k;
                            if a < pos {
                                assert(acc@[a].0 == k);
                            } else {
                                assert(acc@[a + 1].0 == k);
                            }
                        }
                        if k == chat {
                            assert(acc@[pos as int].0 == k);
                        }
                        if entry_keys(acc@).contains(k) {
                            let a = choose|a: int| 0 <= a < acc@.len() && acc@[a].0 == k;
                            if a < pos {
                                assert(old_acc[a].0 == k);
                            } else if a > pos {
                                assert(old_acc[a - 1].0 == k);
                            }
                        }
                    }
                }
            }
        }
        i += 1;
    }
    assert(rows@.take(rows@.len() as int) =~= rows@);
    assert(uniques@.take(0).len() == 0);
    assert(unique_chats(uniques@.take(0)) =~= Set::<i64>::empty());
    assert(row_chats(rows@).union(unique_chats(uniques@.take(0))) =~= row_chats(rows@));
    assert forall|a: int| 0 <= a < acc@.len() implies #[trigger] acc@[a].1 == chat_stats(rows@, uniques@.take(0), acc@[a].0) by {
        lemma_chat_fold(rows@, acc@[a].0);
    }
    let mut j: usize = 0;
    while j < uniques.len()
        invariant
            j <= uniques@.len(),
            chat_rows_total(rows@) <= u64::MAX,
            strictly_sorted(acc@),
            entry_keys(acc@) == row_chats(rows@).union(unique_chats(uniques@.take(j as int))),
            forall|a: int| 0 <= a < acc@.len() ==> #[trigger] acc@[a].1 == chat_stats(rows@, uniques@.take(j as int), acc@[a].0),
        decreases uniques@.len() - j,
    {
        let chat = uniques[j].0;
        let ghost pre = uniques@.take(j as int);
        let ghost post = uniques@.take(j + 1);
        let ghost old_acc = acc@;
        proof {
            assert(post.drop_last() =~= pre);
            assert(post.last() == uniques@[j as int]);
            assert(j == 0 ==> pre.len() == 0);
            lemma_chat_fold(rows@, chat);
            assert forall|k: i64| k != chat implies #[trigger] unique_for(post, k) == unique_for(pre, k) by {}
            assert(unique_chats(post) == unique_chats(pre).insert(chat));
        }
        let (found, pos) = locate(&acc, chat);
        let mut st = if found { acc[pos].1 } else { GroupStats::default() };
        assert(st == chat_stats(rows@, pre, chat)) by {
            if !found {
                assert(!entry_keys(old_acc).contains(chat));
                assert(!row_chats(rows@).contains(chat));
                assert(!unique_chats(pre).contains(chat));
                lemma_unique_for_absent(pre, chat);
            }
        }
        st.unique_users = uniques[j].1 as u64;
        assert(st == chat_stats(rows@, post, chat));
        if found {
            acc.set(pos, (chat, st));
            proof {
                assert forall|a: int| 0 <= a < acc@.len() implies #[trigger] acc@[a].1 == chat_stats(rows@, post, acc@[a].0) by {
                    if a != pos {
                        assert(acc@[a] == old_acc[a]);
                    }
                }
                assert(entry_keys(acc@) =~= row_chats(rows@).union(unique_chats(post))) by {
                    assert forall|k: i64| entry_keys(acc@).contains(k) <==> row_chats(rows@).union(unique_chats(post)).contains(k) by {
                        if entry_keys(old_acc).contains(k) {
                            let a = choose|a: int| 0 <= a < old_acc.len() && old_acc[a].0 == k;
                            assert(acc@[a].0 == k);
                        }
                        if entry_keys(acc@).contains(k) {
                            let a = choose|a: int| 0 <= a < acc@.len() && acc@[a].0 == k;
                            assert(old_acc[a].0 == k);
                        }
                    }
                }
            }
        } else {
            acc.insert(pos, (chat, st));
            proof {
                assert forall|a: int| 0 <= a < acc@.len() implies #[trigger] acc@[a].1 == chat_stats(rows@, post, acc@[a].0) by {
                    if a < pos {
                        assert(acc@[a] == old_acc[a]);
                    } else if a > pos {
                        assert(acc@[a] == old_acc[a - 1]);
                    }
                }
                assert forall|a: int, b: int| 0 <= a < b < acc@.len() implies acc@[a].0 < acc@[b].0 by {
                    if a < pos {
                        assert(acc@[a] == old_acc[a]);
                    } else if a > pos {
                        assert(acc@[a] == old_acc[a - 1]);
                    }
                    if b < pos {
                        assert(acc@[b] == old_acc[b]);
                    } else if b > pos {
                        assert(acc@[b] == old_acc[b - 1]);
                    }
                }
                assert(entry_keys(acc@) =~= row_chats(rows@).union(unique_chats(post))) by {
                    assert forall|k: i64| entry_keys(acc@).contains(k) <==> row_chats(rows@).union(unique_chats(post)).contains(k) by {
                        if entry_keys(old_acc).contains(k) {
                            let a = choose|a: int| 0 <= a < old_acc.len() && old_acc[a].0 == k;
                            if a < pos {
                                assert(acc@[a].0 == k);
                            } else {
                                assert(acc@[a + 1].0 == k);
                            }
                        }
                        if k == chat {
                            assert(acc@[pos as int].0 == k);
                        }
                        if entry_keys(acc@).contains(k) {
                            let a = choose|a: int| 0 <= a < acc@.len() && acc@[a].0 == k;
                            if a < pos {
                                assert(old_acc[a].0 == k);
                            } else if a > pos {
                                assert(old_acc[a - 1].0 == k);
                            }
                        }
                    }
                }
            }
        }
        j += 1;
    }
    assert(uniques@.take(uniques@.len() as int) =~= uniques@);
    assert forall|a: int| 0 <= a < acc@.len() implies buckets_within_attempts(#[trigger] acc@[a].1) by {
        lemma_chat_fold(rows@, acc@[a].0);
    }
    acc
}

proof fn lemma_unique_for_absent(uniques: Seq<(i64, i64)>, k: i64)
    requires
        !unique_chats(uniques).contains(k),
    ensures
        unique_for(uniques, k) == 0,
    decreases uniques.len(),
{
    if uniques.len() > 0 {
        lemma_unique_for_absent(uniques.drop_last(), k);
    }
}

/// Whether stored outcome `o` is one of the names the bot writes (or the
/// older `rejected_timeout`).
pub open spec fn known_outcome(o: Seq<char>) -> bool {
    !(bucket_of(o) is Unknown)
}

/// When every row carries a known outcome, each attempt is counted exactly
/// once as an approval or as a rejection.
pub proof fn lemma_known_outcomes_add_up(rows: Seq<(String, i64)>)
    requires
        total_count(rows) <= u64::MAX,
        forall|i: int| 0 <= i < rows.len() ==> known_outcome(#[trigger] rows[i].0@),
    ensures
        fold_counts(rows).approved + rejected_total(fold_counts(rows)) == fold_counts(rows).attempts,
    decreases rows.len(),
{
    if rows.len() > 0 {
        let prefix = rows.drop_last();
        assert forall|i: int| 0 <= i < prefix.len() implies known_outcome(#[trigger] prefix[i].0@) by {
            assert(prefix[i] == rows[i]);
        }
        lemma_known_outcomes_add_up(prefix);
        lemma_fold_counts(prefix);
        assert(known_outcome(rows[rows.len() - 1].0@));
    }
}

/// The stored cool-down expiry, if it is still running at `now`.
pub open spec fn running_cooldown(expires_at: Option<i64>, now: i64) -> Option<i64> {
    match expires_at {
        Some(e) => if e > now { Some(e) } else { None },
        None => None,
    }
}

/// The expiry of a cool-down that is still running at `now`.
pub fn active_cooldown(expires_at: Option<i64>, now: i64) -> (r: Option<i64>)
    ensures
        r == running_cooldown(expires_at, now),
{
    match expires_at {
        Some(e) => if e > now { Some(e) } else { None },
        None => None,
    }
}

/// The row after an atomic claim that moves it from stage `from` to `to`:
/// the deadline becomes 0, so that a timer armed for the old deadline no
/// longer matches. `None` when the row is not in stage `from`.
pub open spec fn claimed(row: PendingRow, from: Stage, to: Stage) -> Option<PendingRow> {
    if row.stage == from {
        Some(PendingRow { stage: to, deadline: 0, ..row })
    } else {
        None
    }
}

/// Claims an `AwaitingButton` row for question generation.
pub fn try_begin_generating(row: PendingRow) -> (r: Option<PendingRow>)
    ensures
        r == claimed(row, Stage::AwaitingButton, Stage::GeneratingQuestion),
{
    if row.stage == Stage::AwaitingButton {
        Some(PendingRow { stage: Stage::GeneratingQuestion, deadline: 0, ..row })
    } else {
        None
    }
}

/// Claims an `AwaitingAnswer` row for answer verification.
pub fn try_begin_verifying(row: PendingRow) -> (r: Option<PendingRow>)
    ensures
        r == claimed(row, Stage::AwaitingAnswer, Stage::Verifying),
{
    if row.stage == Stage::AwaitingAnswer {
        Some(PendingRow { stage: Stage::Verifying, deadline: 0, ..row })
    } else {
        None
    }
}

/// The row once the question was delivered: it awaits the answer until
/// `deadline`.
pub fn advance_to_answer(row: PendingRow, question: String, question_msg_id: Option<i64>, deadline: i64) -> (r: PendingRow)
    ensures
        r == (PendingRow {
            stage: Stage::AwaitingAnswer,
            question: Some(question),
            question_msg_id,
            deadline,
            ..row
        }),
{
    PendingRow {
        stage: Stage::AwaitingAnswer,
        question: Some(question),
        question_msg_id,
        deadline,
        ..row
    }
}

/// The error for an update of a verification that is not stored.
pub fn no_pending_error(chat_id: i64, user_id: i64) -> (e: Error)
    ensures
        e matches Error::ConfigInvalid(m) && m@ == "no pending verification for chat "@ + signed_decimal(chat_id as int)
            + " user "@ + signed_decimal(user_id as int),
{
    let mut m = String::from_str("no pending verification for chat ");
    push_signed_decimal(&mut m, chat_id);
    push_str(&mut m, " user ");
    push_signed_decimal(&mut m, user_id);
    Error::ConfigInvalid(m)
}

/// A claimed row cannot be claimed again: a second button press (or a
/// second answer) after the first claim is refused, and a timer armed for
/// the row's earlier, non-zero deadline no longer matches it.
pub proof fn lemma_claim_once(row: PendingRow, from: Stage, to: Stage)
    requires
        claimed(row, from, to) is Some,
        from != to,
    ensures
        claimed(claimed(row, from, to)->0, from, to) is None,
        row.deadline != 0 ==> claimed(row, from, to)->0.deadline != row.deadline,
{
}

/// Every stage is stored under a name that reads back as that stage, and
/// no two stages share a name.
pub proof fn lemma_stage_names_distinct(a: Stage, b: Stage)
    ensures
        stage_name(a) == stage_name(b) <==> a == b,
{
    reveal_strlit("awaiting_button");
    reveal_strlit("generating_question");
    reveal_strlit("awaiting_answer");
    reveal_strlit("verifying");
    assert("awaiting_button"@[0] != "generating_question"@[0]);
    assert("awaiting_button"@[1] != "awaiting_answer"@[1] || "awaiting_button"@[9] != "awaiting_answer"@[9]);
    assert("awaiting_button"@[0] != "verifying"@[0]);
    assert("generating_question"@[0] != "awaiting_answer"@[0]);
    assert("generating_question"@[0] != "verifying"@[0]);
    assert("awaiting_answer"@[0] != "verifying"@[0]);
}

} // verus!

//! Routing of Telegram updates: which button presses start a verification
//! and which private messages are answers.
use vstd::prelude::*;

use crate::storage::PendingRow;
use crate::text::str_eq;
use crate::verification::Engine;

verus! {

broadcast use vstd::string::group_string_axioms;

/// What to do with a callback query.
#[derive(Debug)]
pub enum CallbackPlan {
    /// Only acknowledge the query, so that the client stops its spinner.
    Acknowledge,
    /// Acknowledge with `toast` and handle the press of the start button of
    /// the verification for chat `chat_id`.
    Start { chat_id: i64, toast: String },
}

/// Whether a callback query is a press of the start button on a message.
pub fn is_start_press(data: Option<&str>, has_message: bool) -> (r: bool)
    ensures
        r == (data matches Some(d) && d@ == "bouncer:start"@ && has_message),
{
    match data {
        Some(d) => str_eq(d, "bouncer:start") && has_message,
        None => false,
    }
}

/// The plan for a press of the start button by `user_id`, given the
/// verification awaiting a button press in that private chat (`None` also
/// when the lookup failed). Only the applicant's own press counts.
pub fn on_callback_query(engine: &Engine, pending: Option<PendingRow>, user_id: i64) -> (r: CallbackPlan)
    ensures
        match pending {
            Some(row) if row.user_id == user_id => r matches CallbackPlan::Start { chat_id, toast }
                && chat_id == row.chat_id && toast@ == engine.chat_locale(row.chat_id).generating_question@,
            _ => r is Acknowledge,
        },
{
    match pending {
        Some(row) => {
            if row.user_id != user_id {
                return CallbackPlan::Acknowledge;
            }
            let locale = engine.locale_for_chat(row.chat_id);
            CallbackPlan::Start { chat_id: row.chat_id, toast: locale.generating_question }
        },
        None => CallbackPlan::Acknowledge,
    }
}

/// The `(sender, text)` of a message that may be an answer: a text message
/// with a sender, in a private chat.
pub fn on_message(is_private: bool, sender: Option<i64>, text: Option<String>) -> (r: Option<(i64, String)>)
    ensures
        r == (if is_private && sender is Some && text is Some {
            Some((sender->0, text->0))
        } else {
            None::<(i64, String)>
        }),
{
    if !is_private {
        return None;
    }
    match (sender, text) {
        (Some(s), Some(t)) => Some((s, t)),
        _ => None,
    }
}

} // verus!

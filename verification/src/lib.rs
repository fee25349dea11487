//! Bouncer gates entry to Telegram groups: an applicant is asked a topic
//! question and admitted only if a language model accepts the answer. This
//! crate holds the rules of that flow, verified with Verus.
pub mod config;
pub mod error;
pub mod i18n;
pub mod llm;
pub mod locales;
pub mod stats;
pub mod storage;
pub mod telegram;
pub mod text;
pub mod verification;

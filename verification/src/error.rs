//! The errors that the library reports, and the rendering of an error's
//! cause chain.
use vstd::prelude::*;

use crate::text::push_str;

verus! {

broadcast use vstd::string::group_string_axioms;

/// Errors that the library's own rules produce.
#[derive(Debug)]
pub enum Error {
    /// The configuration breaks one of its rules; the text says which.
    ConfigInvalid(String),
    /// A locale was asked for that is not registered.
    UnknownLocale(String),
    /// The language model's reply could not be used; the text says why.
    LlmVerdict(String),
}

/// The separator between an error's message and that of its cause.
pub open spec fn cause_separator() -> Seq<char> {
    " — caused by: "@
}

/// The messages of an error and of each cause after it, joined by
/// `cause_separator`.
pub open spec fn chain_text(messages: Seq<String>) -> Seq<char>
    decreases messages.len(),
{
    if messages.len() == 0 {
        Seq::empty()
    } else if messages.len() == 1 {
        messages[0]@
    } else {
        chain_text(messages.drop_last()) + cause_separator() + messages.last()@
    }
}

/// Renders an error and every level of its cause chain, given the message
/// of each level from the outermost down, joined with ` — caused by: `.
/// A plain `Display` shows only the top level, which for transport errors
/// hides what the underlying library saw.
pub fn error_chain(messages: &[String]) -> (r: String)
    ensures
        r@ == chain_text(messages@),
{
    let mut out = String::new();
    let mut i: usize = 0;
    while i < messages.len()
        invariant
            i <= messages@.len(),
            out@ == chain_text(messages@.take(i as int)),
        decreases messages@.len() - i,
    {
        if i > 0 {
            push_str(&mut out, " — caused by: ");
        }
        push_str(&mut out, messages[i].as_str());
        proof {
            let t = messages@.take(i + 1);
            assert(t.drop_last() =~= messages@.take(i as int));
            assert(t.last() == messages@[i as int]);
            if i == 0 {
                assert(messages@.take(0).len() == 0);
            }
            assert(out@ =~= chain_text(t));
        }
        i += 1;
    }
    assert(messages@.take(messages@.len() as int) =~= messages@);
    out
}

} // verus!

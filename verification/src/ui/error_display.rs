//! Errors as they are shown.

use std::fmt::Write;
use vstd::prelude::*;
use vstd::string::StringExecFns;

verus! {

/// An error of `anyhow`, with whatever it holds.
#[verifier::external_type_specification]
#[verifier::external_body]
pub struct ExError(anyhow::Error);

/// The texts of an error and of its causes, the outermost first, by
/// `anyhow::Error::chain`. There is at least one. What the texts are is up to
/// the `Display` of each error, which may write anything and something else the
/// next time; it is left open.
#[verifier::external_body]
pub fn error_messages(error: &anyhow::Error) -> (r: Vec<String>)
    ensures
        r@.len() >= 1,
{
    let mut texts = Vec::new();
    for cause in error.chain() {
        let mut text = String::new();
        let _ = write!(text, "{cause}");
        texts.push(text);
    }
    texts
}

/// The texts of a list.
pub open spec fn texts(list: Seq<String>) -> Seq<Seq<char>> {
    list.map_values(|s: String| s@)
}

/// An error as it is shown: a headline, and the causes below it.
#[derive(Debug)]
pub struct ErrorDisplay {
    pub headline: String,
    pub context: Vec<String>,
}

impl View for ErrorDisplay {
    type V = (Seq<char>, Seq<Seq<char>>);

    open spec fn view(&self) -> (Seq<char>, Seq<Seq<char>>) {
        (self.headline@, texts(self.context@))
    }
}

impl ErrorDisplay {
    /// The first message becomes the headline, the others the causes.
    pub fn from_messages(messages: &Vec<String>) -> (r: ErrorDisplay)
        requires
            messages@.len() >= 1,
        ensures
            r@ == (messages@[0]@, texts(messages@).drop_first()),
    {
        let mut context: Vec<String> = Vec::new();
        let mut i: usize = 1;
        while i < messages.len()
            invariant
                1 <= i <= messages@.len(),
                texts(context@) == texts(messages@).subrange(1, i as int),
            decreases messages@.len() - i,
        {
            let ghost before = context@;
            context.push(messages[i].clone());
            assert(texts(context@) =~= texts(before).push(messages@[i as int]@));
            assert(texts(messages@).subrange(1, i + 1) =~= texts(messages@).subrange(
                1,
                i as int,
            ).push(messages@[i as int]@));
            i = i + 1;
        }
        assert(texts(messages@).subrange(1, i as int) =~= texts(messages@).drop_first());
        ErrorDisplay { headline: messages[0].clone(), context }
    }

    /// An error with its causes: of the messages that the error gives, the first is
    /// the headline. What they say is up to the error.
    pub fn new(error: &anyhow::Error) -> (r: ErrorDisplay)
        ensures
            exists|messages: Vec<String>| #[trigger]
                call_ensures(error_messages, (error,), messages) && r@ == (
                    messages@[0]@,
                    texts(messages@).drop_first(),
                ),
    {
        let messages: Vec<String> = error_messages(error);
        assert(call_ensures(error_messages, (error,), messages));
        ErrorDisplay::from_messages(&messages)
    }

    /// The heading that is shown.
    pub fn heading(&self) -> (r: String)
        ensures
            r@ == "❌ "@ + self.headline@,
    {
        let mut text: String = String::from_str("❌ ");
        text.append(self.headline.as_str());
        text
    }

    /// The lines that are shown below it.
    pub fn lines(&self) -> (r: Vec<String>)
        ensures
            texts(r@) == texts(self.context@).map_values(|cause: Seq<char>| "• "@ + cause),
    {
        let mut out: Vec<String> = Vec::new();
        let mut i: usize = 0;
        while i < self.context.len()
            invariant
                i <= self.context@.len(),
                texts(out@) == texts(self.context@).take(i as int).map_values(
                    |cause: Seq<char>| "• "@ + cause,
                ),
            decreases self.context@.len() - i,
        {
            let ghost before = out@;
            let mut text: String = String::from_str("• ");
            text.append(self.context[i].as_str());
            out.push(text);
            assert(texts(out@) =~= texts(before).push("• "@ + self.context@[i as int]@));
            assert(texts(self.context@).take(i + 1) =~= texts(self.context@).take(i as int).push(
                self.context@[i as int]@,
            ));
            assert(texts(out@) =~= texts(self.context@).take(i + 1).map_values(
                |cause: Seq<char>| "• "@ + cause,
            ));
            i = i + 1;
        }
        assert(texts(self.context@).take(i as int) =~= texts(self.context@));
        out
    }
}

} // verus!

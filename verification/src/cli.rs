//! What the command line can refuse to do, and how it says so.

use vstd::prelude::*;
use vstd::string::*;

use crate::error::{EngineError, EngineErrorView};
use crate::text::same_text;

verus! {

/// What the command line can refuse to do.
#[derive(Debug)]
pub enum CliError {
    /// The interface would not open, or the session behind it would not start.
    Gui(String),
    /// The session would not start: the definition, the configuration, or a limits file.
    Engine(EngineError),
    /// The source or the framing cannot be used.
    Link(String),
    /// A file said no, or the reactor would not build.
    Io(String),
}

/// What a refusal says, and where it came from.
#[verifier::ext_equal]
pub enum CliErrorView {
    Gui(Seq<char>),
    Engine(EngineErrorView),
    Link(Seq<char>),
    Io(Seq<char>),
}

impl View for CliError {
    type V = CliErrorView;

    open spec fn view(&self) -> CliErrorView {
        match self {
            CliError::Gui(message) => CliErrorView::Gui(message@),
            CliError::Engine(error) => CliErrorView::Engine(error@),
            CliError::Link(message) => CliErrorView::Link(message@),
            CliError::Io(message) => CliErrorView::Io(message@),
        }
    }
}

impl CliErrorView {
    /// The sentence a refusal carries.
    pub open spec fn text(self) -> Seq<char> {
        match self {
            CliErrorView::Gui(message) => message,
            CliErrorView::Engine(error) => error.text(),
            CliErrorView::Link(message) => message,
            CliErrorView::Io(message) => message,
        }
    }
}

impl CliError {
    /// The sentence the refusal carries.
    pub fn to_string(&self) -> (r: String)
        ensures
            r@ == self@.text(),
    {
        match self {
            CliError::Gui(message) => message.clone(),
            CliError::Engine(error) => error.to_string(),
            CliError::Link(message) => message.clone(),
            CliError::Io(message) => message.clone(),
        }
    }
}

/// What the texts of a list hold.
pub open spec fn text_views(texts: Seq<String>) -> Seq<Seq<char>> {
    texts.map_values(|text: String| text@)
}

/// The lines that report a failure and what is under it: each message that differs from the one
/// above it, the outermost first.
pub open spec fn report_lines(chain: Seq<Seq<char>>) -> Seq<Seq<char>>
    decreases chain.len(),
{
    if chain.len() == 0 {
        Seq::empty()
    } else if chain.len() == 1 {
        seq!["error: "@ + chain[0]]
    } else if chain[chain.len() - 1] == chain[chain.len() - 2] {
        report_lines(chain.drop_last())
    } else {
        report_lines(chain.drop_last()).push("  caused by: "@ + chain.last())
    }
}

/// The lines that report a failure and everything under it, once each.
///
/// A wrapper's message and its cause's are usually the same sentence, and an operator reading
/// three identical lines learns to read none of them. Only a cause that says something new is
/// reported.
pub fn report(chain: &Vec<String>) -> (r: Vec<String>)
    ensures
        text_views(r@) == report_lines(text_views(chain@)),
{
    let ghost all = text_views(chain@);
    let mut lines: Vec<String> = Vec::new();
    let mut index: usize = 0;
    assert(text_views(lines@) =~= report_lines(all.take(0)));
    while index < chain.len()
        invariant
            index <= chain@.len(),
            all == text_views(chain@),
            text_views(lines@) == report_lines(all.take(index as int)),
        decreases chain@.len() - index,
    {
        let ghost next = all.take(index + 1);
        let ghost before = lines@;
        assert(next.drop_last() =~= all.take(index as int));
        if index == 0 {
            let mut line: String = "error: ".to_owned();
            line.append(chain[index].as_str());
            lines.push(line);
            assert(text_views(before).len() == before.len());
        } else if !same_text(chain[index].as_str(), chain[index - 1].as_str()) {
            let mut line: String = "  caused by: ".to_owned();
            line.append(chain[index].as_str());
            lines.push(line);
        }
        proof {
            assert(text_views(lines@) =~= report_lines(next));
        }
        index = index + 1;
    }
    assert(all.take(index as int) =~= all);
    lines
}

/// A chain of identical messages is reported in one line.
pub proof fn identical_messages_are_reported_once(message: Seq<char>, count: nat)
    requires
        count > 0,
    ensures
        report_lines(Seq::new(count, |i: int| message)) == seq!["error: "@ + message],
    decreases count,
{
    let chain = Seq::new(count, |i: int| message);
    if count > 1 {
        identical_messages_are_reported_once(message, (count - 1) as nat);
        assert(chain.drop_last() =~= Seq::new((count - 1) as nat, |i: int| message));
    }
}

} // verus!

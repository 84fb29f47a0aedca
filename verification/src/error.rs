//! What a session can refuse to do.
//!
//! Five variants, and the boundary between them is where the failure came from: the
//! definition, the decoder, the link, the filesystem, or the operator's own configuration.

use vstd::prelude::*;

verus! {

/// A session could not be started, or a packet could not be decoded.
#[derive(Debug)]
pub enum EngineError {
    /// The XTCE definition could not be read or lowered.
    Xtce(String),
    /// A packet could not be decoded against the definition.
    Decode(String),
    /// The source could not be opened, read, or configured.
    Link(String),
    /// A file the session owns said no.
    Io(String),
    /// The configuration cannot be carried out.
    Config(String),
}

/// What an error says, and where it came from.
#[verifier::ext_equal]
pub enum EngineErrorView {
    Xtce(Seq<char>),
    Decode(Seq<char>),
    Link(Seq<char>),
    Io(Seq<char>),
    Config(Seq<char>),
}

impl View for EngineError {
    type V = EngineErrorView;

    open spec fn view(&self) -> EngineErrorView {
        match self {
            EngineError::Xtce(message) => EngineErrorView::Xtce(message@),
            EngineError::Decode(message) => EngineErrorView::Decode(message@),
            EngineError::Link(message) => EngineErrorView::Link(message@),
            EngineError::Io(message) => EngineErrorView::Io(message@),
            EngineError::Config(message) => EngineErrorView::Config(message@),
        }
    }
}

impl EngineErrorView {
    /// The sentence an error carries.
    pub open spec fn text(self) -> Seq<char> {
        match self {
            EngineErrorView::Xtce(message) => message,
            EngineErrorView::Decode(message) => message,
            EngineErrorView::Link(message) => message,
            EngineErrorView::Io(message) => message,
            EngineErrorView::Config(message) => message,
        }
    }
}

impl EngineError {
    /// A configuration failure, naming what cannot be used.
    pub fn config(message: String) -> (r: Self)
        ensures
            r@ == EngineErrorView::Config(message@),
    {
        EngineError::Config(message)
    }

    /// The sentence the error carries.
    pub fn to_string(&self) -> (r: String)
        ensures
            r@ == self@.text(),
    {
        match self {
            EngineError::Xtce(message) => message.clone(),
            EngineError::Decode(message) => message.clone(),
            EngineError::Link(message) => message.clone(),
            EngineError::Io(message) => message.clone(),
            EngineError::Config(message) => message.clone(),
        }
    }
}

} // verus!

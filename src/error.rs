use vstd::prelude::*;

verus! {

/// What the library reports instead of panicking.
#[derive(Debug, Clone)]
pub enum Error {
    /// No credentials for the model provider were found.
    NoApiKey,
    /// Handing a request to the assistant failed.
    SendInput,
    /// Handing a reply back to the session failed.
    SendOutput,
    /// The terminal could not be drawn.
    Draw(String),
    /// The user ended the session.
    Exit,
    /// The conversation state could not be reached.
    State,
    /// A request that breaks the library's rules, with a description.
    Generic(String),
}

} // verus!

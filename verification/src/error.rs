//! The fatal conditions of a game.

use vstd::prelude::*;

verus! {

/// Why a game cannot start or go on. None of them is retried.
#[derive(Debug, Clone, Copy, PartialEq, Eq, Structural)]
pub enum GameError {
    /// The word list cannot be loaded.
    ResourceUnavailable,
    /// Fewer than four words pass the length filter.
    InsufficientWords,
    /// The input channel failed or closed during a round.
    InputStreamFailure,
}

impl GameError {
    /// The message shown to the user.
    pub fn message(&self) -> (text: String)
        ensures
            text@ == match *self {
                GameError::ResourceUnavailable => "Could not read file!"@,
                GameError::InsufficientWords => "Could not get words from wordlist.txt"@,
                GameError::InputStreamFailure => "Some error occurred!"@,
            },
    {
        match self {
            GameError::ResourceUnavailable => "Could not read file!".to_owned(),
            GameError::InsufficientWords => "Could not get words from wordlist.txt".to_owned(),
            GameError::InputStreamFailure => "Some error occurred!".to_owned(),
        }
    }
}

} // verus!

//! The configuration of a game.

use vstd::prelude::*;

verus! {

/// Number of words in a round where none is given.
pub const DEFAULT_WORD_COUNT: usize = 15;

/// What the player chose. It does not change once made.
pub struct Config {
    /// Longest word to present, in bytes; 0 means no limit.
    pub difficulty: usize,
    /// Name to show with the result; empty means none.
    pub username: String,
    /// Number of words to type in one round.
    pub word_count: usize,
}

impl Config {
    /// The configuration for the given choices: no length limit, no name
    /// and `DEFAULT_WORD_COUNT` words where a choice is absent.
    pub fn new(difficulty: Option<usize>, username: Option<String>, word_count: Option<usize>) -> (config: Config)
        ensures
            config.difficulty == match difficulty {
                Some(d) => d,
                None => 0,
            },
            config.username@ == match username {
                Some(u) => u@,
                None => Seq::<char>::empty(),
            },
            config.word_count == match word_count {
                Some(w) => w,
                None => DEFAULT_WORD_COUNT,
            },
    {
        Config {
            difficulty: match difficulty {
                Some(d) => d,
                None => 0,
            },
            username: match username {
                Some(u) => u,
                None => String::new(),
            },
            word_count: match word_count {
                Some(w) => w,
                None => DEFAULT_WORD_COUNT,
            },
        }
    }

    /// The name to show with the result, if one is set.
    pub fn display_name(&self) -> (name: Option<&String>)
        ensures
            self.username@.len() == 0 ==> name.is_none(),
            self.username@.len() > 0 ==> name == Some(&self.username),
    {
        if self.username.as_str().is_empty() {
            None
        } else {
            Some(&self.username)
        }
    }
}

} // verus!

//! The display window: the queue of upcoming words, front first.

use std::collections::VecDeque;
use vstd::prelude::*;
use crate::pool::WordPool;
use crate::text::word_views;

verus! {

/// Number of words that a window shows while the pool can refill it.
pub const WINDOW_SIZE: usize = 3;

/// The first `WINDOW_SIZE` words of `pool`, or all of them if there are
/// fewer.
pub open spec fn seeded(pool: Seq<Seq<char>>) -> Seq<Seq<char>> {
    if pool.len() >= WINDOW_SIZE {
        pool.take(WINDOW_SIZE as int)
    } else {
        pool
    }
}

/// The window after its front word was typed: the front leaves, and
/// `refill`, if there is one, joins at the back. An empty window has no
/// front word and stays as it is.
pub open spec fn advanced(window: Seq<Seq<char>>, refill: Option<Seq<char>>) -> Seq<Seq<char>> {
    if window.len() == 0 {
        window
    } else {
        match refill {
            Some(word) => window.skip(1).push(word),
            None => window.skip(1),
        }
    }
}

/// Advancing keeps the size of a window that is refilled and makes any
/// other window smaller, so a window never grows.
pub proof fn lemma_advance_never_grows(window: Seq<Seq<char>>, refill: Option<Seq<char>>)
    ensures
        advanced(window, refill).len() <= window.len(),
        window.len() > 0 && refill.is_some() ==> advanced(window, refill).len() == window.len(),
        window.len() > 0 && refill.is_none() ==> advanced(window, refill).len() == window.len()
            - 1,
{
}

/// The upcoming words of a round. The front word is the one to type.
pub struct DisplayWindow {
    words: VecDeque<String>,
}

impl View for DisplayWindow {
    type V = Seq<Seq<char>>;

    closed spec fn view(&self) -> Seq<Seq<char>> {
        word_views(self.words@)
    }
}

impl DisplayWindow {
    /// The window over the first words of `pool`, in the pool's order.
    pub fn seed(pool: &WordPool) -> (window: DisplayWindow)
        ensures
            window@ == seeded(pool@),
    {
        let mut words: VecDeque<String> = VecDeque::new();
        let mut i: usize = 0;
        while i < WINDOW_SIZE && i < pool.len()
            invariant
                i <= WINDOW_SIZE,
                i <= pool@.len(),
                word_views(words@) == pool@.take(i as int),
            decreases WINDOW_SIZE - i,
        {
            let word = match pool.get(i) {
                Some(w) => w.clone(),
                None => String::new(),
            };
            assert(word_views(words@.push(word)) == word_views(words@).push(word@));
            assert(pool@.take(i + 1) == pool@.take(i as int).push(pool@[i as int]));
            words.push_back(word);
            i += 1;
        }
        assert(pool@.len() < WINDOW_SIZE ==> pool@.take(i as int) == pool@);
        DisplayWindow { words }
    }

    /// Number of words in the window.
    pub fn len(&self) -> (n: usize)
        ensures
            n == self@.len(),
    {
        self.words.len()
    }

    /// Whether the window holds no word.
    pub fn is_empty(&self) -> (b: bool)
        ensures
            b == (self@.len() == 0),
    {
        self.words.len() == 0
    }

    /// The word to type, if the window holds one.
    pub fn front(&self) -> (word: Option<&String>)
        ensures
            self@.len() > 0 ==> word.is_some() && word.unwrap()@ == self@[0],
            self@.len() == 0 ==> word.is_none(),
    {
        self.get(0)
    }

    /// The word at position `index` from the front, if there is one.
    pub fn get(&self, index: usize) -> (word: Option<&String>)
        ensures
            index < self@.len() ==> word.is_some() && word.unwrap()@ == self@[index as int],
            index >= self@.len() ==> word.is_none(),
    {
        if index < self.words.len() {
            Some(&self.words[index])
        } else {
            None
        }
    }

    /// The words of the window, front first.
    pub fn words(&self) -> (out: Vec<String>)
        ensures
            word_views(out@) == self@,
    {
        let mut out: Vec<String> = Vec::new();
        let mut i: usize = 0;
        while i < self.words.len()
            invariant
                i <= self.words.len(),
                word_views(out@) == self@.take(i as int),
            decreases self.words.len() - i,
        {
            let word = self.words[i].clone();
            assert(word_views(out@.push(word)) == word_views(out@).push(word@));
            assert(self@.take(i + 1) == self@.take(i as int).push(self@[i as int]));
            out.push(word);
            i += 1;
        }
        assert(self@.take(self.words.len() as int) == self@);
        out
    }

    /// Whether `input` is exactly the front word.
    pub fn matches(&self, input: &String) -> (b: bool)
        ensures
            b == (self@.len() > 0 && self@[0] == input@),
    {
        match self.front() {
            Some(front) => *front == *input,
            None => false,
        }
    }

    /// Drops the front word and puts `refill`, if there is one, at the
    /// back. An empty window stays as it is.
    pub fn advance(&mut self, refill: Option<String>)
        ensures
            final(self)@ == advanced(
                old(self)@,
                match refill {
                    Some(word) => Some(word@),
                    None => None,
                },
            ),
    {
        if self.words.len() > 0 {
            let ghost before = self.words@;
            let _ = self.words.pop_front();
            assert(word_views(self.words@) == word_views(before).skip(1));
            match refill {
                Some(word) => {
                    assert(word_views(self.words@.push(word)) == word_views(self.words@).push(
                        word@,
                    ));
                    self.words.push_back(word);
                },
                None => {},
            }
        }
    }
}

} // verus!

//! The word pool: candidate words filtered by a maximum length and put in
//! random order.

use rand::rngs::ThreadRng;
use rand::seq::SliceRandom;
use vstd::prelude::*;
use vstd::utf8::encode_utf8;
use crate::config::Config;
use crate::text::{lines, split_lines, word_views};

verus! {

/// Length of a word: the number of bytes of its UTF-8 encoding.
pub open spec fn word_length(word: Seq<char>) -> nat {
    encode_utf8(word).len()
}

/// Whether a word passes the length filter; a limit of 0 means no limit.
pub open spec fn keeps(word: Seq<char>, max_word_length: usize) -> bool {
    max_word_length == 0 || word_length(word) <= max_word_length
}

/// The words of `words` that pass the length filter, in their order.
pub open spec fn filtered(words: Seq<Seq<char>>, max_word_length: usize) -> Seq<Seq<char>> {
    words.filter(|w: Seq<char>| keeps(w, max_word_length))
}

/// The lines of `raw` that pass the length filter, in their order.
pub open spec fn candidates(raw: Seq<char>, max_word_length: usize) -> Seq<Seq<char>> {
    filtered(lines(raw), max_word_length)
}

/// Whether `word` passes the length filter.
pub fn keep_word(word: &str, max_word_length: usize) -> (b: bool)
    ensures
        b == keeps(word@, max_word_length),
{
    max_word_length == 0 || word.as_bytes().len() <= max_word_length
}

/// A filter that keeps everything returns its input.
pub proof fn lemma_filter_all<A>(s: Seq<A>, pred: spec_fn(A) -> bool)
    requires
        forall|i: int| 0 <= i < s.len() ==> pred(#[trigger] s[i]),
    ensures
        s.filter(pred) == s,
    decreases s.len(),
{
    reveal(Seq::filter);
    if s.len() > 0 {
        lemma_filter_all(s.drop_last(), pred);
        assert(s.drop_last().push(s.last()) == s);
    }
}

/// Every retained word passes the filter: with a limit above 0 its length
/// is at most the limit, and without a limit every line is retained.
pub proof fn lemma_candidates_within_limit(raw: Seq<char>, max_word_length: usize)
    ensures
        forall|i: int|
            0 <= i < candidates(raw, max_word_length).len() ==> keeps(
                #[trigger] candidates(raw, max_word_length)[i],
                max_word_length,
            ),
        max_word_length > 0 ==> forall|i: int|
            0 <= i < candidates(raw, max_word_length).len() ==> word_length(
                #[trigger] candidates(raw, max_word_length)[i],
            ) <= max_word_length,
        max_word_length == 0 ==> candidates(raw, max_word_length) == lines(raw),
{
    let pred = |w: Seq<char>| keeps(w, max_word_length);
    let c = candidates(raw, max_word_length);
    assert forall|i: int| 0 <= i < c.len() implies keeps(#[trigger] c[i], max_word_length) by {
        lines(raw).lemma_filter_pred(pred, i);
    }
    if max_word_length == 0 {
        lemma_filter_all(lines(raw), pred);
    }
}

/// The words of `words` that pass the length filter, in their order.
pub fn filter_words(words: &Vec<String>, max_word_length: usize) -> (out: Vec<String>)
    ensures
        word_views(out@) == filtered(word_views(words@), max_word_length),
{
    let ghost pred = |w: Seq<char>| keeps(w, max_word_length);
    let ghost all = word_views(words@);
    let mut out: Vec<String> = Vec::new();
    let mut i: usize = 0;
    proof {
        reveal(Seq::filter);
        assert(all.take(0).filter(pred) == Seq::<Seq<char>>::empty());
    }
    while i < words.len()
        invariant
            i <= words.len(),
            all == word_views(words@),
            pred == (|w: Seq<char>| keeps(w, max_word_length)),
            word_views(out@) == all.take(i as int).filter(pred),
        decreases words.len() - i,
    {
        proof {
            assert(all.take(i + 1) == all.take(i as int).push(words@[i as int]@));
            all.take(i as int).lemma_filter_push(words@[i as int]@, pred);
        }
        if keep_word(words[i].as_str(), max_word_length) {
            let word = words[i].clone();
            assert(word_views(out@.push(word)) == word_views(out@).push(word@));
            out.push(word);
        }
        i += 1;
    }
    assert(all.take(words.len() as int) == all);
    out
}

/// The thread-local random number generator of the `rand` crate.
#[verifier::external_type_specification]
#[verifier::external_body]
pub struct ExThreadRng(ThreadRng);

/// A handle to the thread-local generator, which the operating system
/// seeds. Wraps `rand::thread_rng`; nothing is claimed of the handle.
#[verifier::external_body]
fn thread_rng() -> ThreadRng {
    rand::thread_rng()
}

/// Permutes `words` in place. Wraps `SliceRandom::shuffle`, which only
/// swaps elements of the slice: the words afterwards are the words before,
/// each as often as before. Which order comes out is left open.
#[verifier::external_body]
fn shuffle(words: &mut Vec<String>, rng: &mut ThreadRng)
    ensures
        word_views(final(words)@).to_multiset() == word_views(old(words)@).to_multiset(),
{
    words.shuffle(rng);
}

/// A sequence with the same elements as one whose elements all pass the
/// filter passes it too.
pub proof fn lemma_permutation_keeps(
    before: Seq<Seq<char>>,
    after: Seq<Seq<char>>,
    max_word_length: usize,
)
    requires
        after.to_multiset() == before.to_multiset(),
        forall|i: int| 0 <= i < before.len() ==> keeps(#[trigger] before[i], max_word_length),
    ensures
        after.len() == before.len(),
        forall|i: int| 0 <= i < after.len() ==> keeps(#[trigger] after[i], max_word_length),
{
    before.to_multiset_ensures();
    after.to_multiset_ensures();
    assert forall|i: int| 0 <= i < after.len() implies keeps(
        #[trigger] after[i],
        max_word_length,
    ) by {
        assert(after.contains(after[i]));
        assert(after.to_multiset().count(after[i]) > 0);
        assert(before.to_multiset().count(after[i]) > 0);
        let j = choose|j: int| 0 <= j < before.len() && before[j] == after[i];
        assert(keeps(before[j], max_word_length));
    }
}

/// Candidate words in the order in which a round presents them.
pub struct WordPool {
    words: Vec<String>,
    max_word_length: usize,
}

impl View for WordPool {
    type V = Seq<Seq<char>>;

    closed spec fn view(&self) -> Seq<Seq<char>> {
        word_views(self.words@)
    }
}

impl WordPool {
    /// The length limit that the pool was built with; 0 means no limit.
    pub closed spec fn limit(&self) -> usize {
        self.max_word_length
    }

    /// Every word of the pool passes the pool's length filter.
    pub open spec fn wf(&self) -> bool {
        forall|i: int| 0 <= i < self@.len() ==> keeps(#[trigger] self@[i], self.limit())
    }

    /// The pool of those `words` that pass the filter, in their order.
    pub fn from_words(words: &Vec<String>, max_word_length: usize) -> (pool: WordPool)
        ensures
            pool.wf(),
            pool.limit() == max_word_length,
            pool@ == filtered(word_views(words@), max_word_length),
    {
        let kept = filter_words(words, max_word_length);
        proof {
            let pred = |w: Seq<char>| keeps(w, max_word_length);
            assert forall|i: int| 0 <= i < word_views(kept@).len() implies keeps(
                #[trigger] word_views(kept@)[i],
                max_word_length,
            ) by {
                word_views(words@).lemma_filter_pred(pred, i);
            }
        }
        WordPool { words: kept, max_word_length }
    }

    /// The pool of the lines of `raw` that pass the filter, in the order
    /// of the text.
    pub fn in_order(raw: &str, max_word_length: usize) -> (pool: WordPool)
        ensures
            pool.wf(),
            pool.limit() == max_word_length,
            pool@ == candidates(raw@, max_word_length),
    {
        let all = split_lines(raw);
        WordPool::from_words(&all, max_word_length)
    }

    /// The pool of the lines of `raw` that pass the filter, permuted with
    /// the generator `rng`.
    pub fn build_with(raw: &str, max_word_length: usize, rng: &mut ThreadRng) -> (pool: WordPool)
        ensures
            pool.wf(),
            pool.limit() == max_word_length,
            pool@.to_multiset() == candidates(raw@, max_word_length).to_multiset(),
            pool@.len() == candidates(raw@, max_word_length).len(),
    {
        let mut pool = WordPool::in_order(raw, max_word_length);
        let ghost before = pool@;
        shuffle(&mut pool.words, rng);
        proof {
            lemma_permutation_keeps(before, pool@, max_word_length);
        }
        pool
    }

    /// The pool of the lines of `raw` that pass the filter, permuted with
    /// the thread-local generator.
    pub fn build(raw: &str, max_word_length: usize) -> (pool: WordPool)
        ensures
            pool.wf(),
            pool.limit() == max_word_length,
            pool@.to_multiset() == candidates(raw@, max_word_length).to_multiset(),
            pool@.len() == candidates(raw@, max_word_length).len(),
    {
        let mut rng = thread_rng();
        WordPool::build_with(raw, max_word_length, &mut rng)
    }

    /// Number of words in the pool.
    pub fn len(&self) -> (n: usize)
        ensures
            n == self@.len(),
    {
        self.words.len()
    }

    /// Whether the pool holds no word.
    pub fn is_empty(&self) -> (b: bool)
        ensures
            b == (self@.len() == 0),
    {
        self.words.len() == 0
    }

    /// The length limit that the pool was built with; 0 means no limit.
    pub fn max_word_length(&self) -> (limit: usize)
        ensures
            limit == self.limit(),
    {
        self.max_word_length
    }

    /// The word at position `index`, if there is one.
    pub fn get(&self, index: usize) -> (word: Option<&String>)
        ensures
            index < self@.len() ==> word.is_some() && word.unwrap()@ == self@[index as int],
            index >= self@.len() ==> word.is_none(),
    {
        if index < self.words.len() {
            Some(&self.words[index])
        } else {
            None
        }
    }

    /// The words of the pool, in order.
    pub fn words(&self) -> (words: &Vec<String>)
        ensures
            word_views(words@) == self@,
    {
        &self.words
    }
}

/// The words for a round: the lines of `contents` that are no longer than
/// the configured difficulty allows, in random order.
pub fn get_words(contents: &str, config: &Config) -> (pool: WordPool)
    ensures
        pool.wf(),
        pool.limit() == config.difficulty,
        pool@.to_multiset() == candidates(contents@, config.difficulty).to_multiset(),
        pool@.len() == candidates(contents@, config.difficulty).len(),
{
    WordPool::build(contents, config.difficulty)
}

} // verus!

//! The round: a state machine that line input drives from its start to
//! its end.

use vstd::prelude::*;
use crate::error::GameError;
use crate::pool::WordPool;
use crate::text::{trim, trimmed};
use crate::timer::Timer;
use crate::window::{advanced, seeded, DisplayWindow, WINDOW_SIZE};

verus! {

/// Fewest words with which a round can start: a full window and one more.
pub const MIN_POOL_SIZE: usize = 4;

/// The state of a round as plain values.
pub struct RoundModel {
    /// The words of the round, in the order of presentation.
    pub pool: Seq<Seq<char>>,
    /// The upcoming words, front first.
    pub window: Seq<Seq<char>>,
    /// Number of words typed so far.
    pub words_completed: nat,
    /// Position in the pool of the next word to enter the window.
    pub next_pool_index: nat,
    /// Number of words that ends the round.
    pub target_word_count: nat,
}

/// The state in which a round starts.
pub open spec fn primed(pool: Seq<Seq<char>>, target_word_count: nat) -> RoundModel {
    RoundModel {
        pool,
        window: seeded(pool),
        words_completed: 0,
        next_pool_index: WINDOW_SIZE as nat,
        target_word_count,
    }
}

/// Whether the round is over: the target is reached, or the cursor has
/// come to the last word of the pool.
pub open spec fn finished(m: RoundModel) -> bool {
    m.words_completed >= m.target_word_count || m.next_pool_index >= m.pool.len() - 1
}

/// The word that enters the window next, if the pool still has one.
pub open spec fn refill(m: RoundModel) -> Option<Seq<char>> {
    if m.next_pool_index < m.pool.len() {
        Some(m.pool[m.next_pool_index as int])
    } else {
        None
    }
}

/// The state after the front word was typed.
pub open spec fn after_match(m: RoundModel) -> RoundModel {
    RoundModel {
        pool: m.pool,
        window: advanced(m.window, refill(m)),
        words_completed: m.words_completed + 1,
        next_pool_index: if m.next_pool_index < m.pool.len() {
            m.next_pool_index + 1
        } else {
            m.next_pool_index
        },
        target_word_count: m.target_word_count,
    }
}

/// Whether `input`, already trimmed, counts as typed: the round is not
/// over and the input is exactly the front word.
pub open spec fn accepts(m: RoundModel, input: Seq<char>) -> bool {
    !finished(m) && m.window.len() > 0 && m.window[0] == input
}

/// The state after one trimmed line of input.
pub open spec fn step(m: RoundModel, input: Seq<char>) -> RoundModel {
    if accepts(m, input) {
        after_match(m)
    } else {
        m
    }
}

/// The state after the trimmed lines `inputs`, first to last.
pub open spec fn run(m: RoundModel, inputs: Seq<Seq<char>>) -> RoundModel
    decreases inputs.len(),
{
    if inputs.len() == 0 {
        m
    } else {
        step(run(m, inputs.drop_last()), inputs.last())
    }
}

/// What holds of every state of a round: the pool can start a round, the
/// cursor is past the window and not past the last word, and the window
/// holds the `WINDOW_SIZE` words before the cursor.
pub open spec fn consistent(m: RoundModel) -> bool {
    &&& m.pool.len() >= MIN_POOL_SIZE
    &&& WINDOW_SIZE <= m.next_pool_index <= m.pool.len() - 1
    &&& m.words_completed + WINDOW_SIZE == m.next_pool_index
    &&& m.words_completed <= m.target_word_count
    &&& m.window == m.pool.subrange(m.words_completed as int, m.next_pool_index as int)
}

/// A round over a pool of at least `MIN_POOL_SIZE` words starts in a
/// consistent state.
pub proof fn lemma_primed_consistent(pool: Seq<Seq<char>>, target_word_count: nat)
    requires
        pool.len() >= MIN_POOL_SIZE,
    ensures
        consistent(primed(pool, target_word_count)),
{
    assert(pool.take(WINDOW_SIZE as int) == pool.subrange(0, WINDOW_SIZE as int));
}

/// One line of input leaves a consistent state consistent.
pub proof fn lemma_step_consistent(m: RoundModel, input: Seq<char>)
    requires
        consistent(m),
    ensures
        consistent(step(m, input)),
{
    if accepts(m, input) {
        let n = after_match(m);
        assert(n.window == n.pool.subrange(n.words_completed as int, n.next_pool_index as int));
    }
}

/// Any number of lines of input leaves a consistent state consistent.
pub proof fn lemma_run_consistent(m: RoundModel, inputs: Seq<Seq<char>>)
    requires
        consistent(m),
    ensures
        consistent(run(m, inputs)),
    decreases inputs.len(),
{
    if inputs.len() > 0 {
        lemma_run_consistent(m, inputs.drop_last());
        lemma_step_consistent(run(m, inputs.drop_last()), inputs.last());
    }
}

/// In every state of a round the pool has a word left for the window, and
/// the window holds exactly `WINDOW_SIZE` words.
pub proof fn lemma_window_full(m: RoundModel)
    requires
        consistent(m),
    ensures
        m.next_pool_index < m.pool.len(),
        m.window.len() == WINDOW_SIZE,
{
}

/// Typing the front word keeps the size of the window while the pool has
/// a word left. Once the pool has none, the window loses a word with each
/// word typed, and the pool still has none afterwards: the window does
/// not grow again.
pub proof fn lemma_window_shrinks_at_exhaustion(m: RoundModel)
    ensures
        after_match(m).window.len() <= m.window.len(),
        m.next_pool_index < m.pool.len() ==> after_match(m).window.len() == m.window.len(),
        m.next_pool_index >= m.pool.len() && m.window.len() > 0 ==> after_match(m).window.len()
            == m.window.len() - 1,
        m.next_pool_index >= m.pool.len() ==> after_match(m).next_pool_index
            >= after_match(m).pool.len(),
{
}

/// A line that is not the front word changes nothing.
pub proof fn lemma_mismatch_changes_nothing(m: RoundModel, input: Seq<char>)
    requires
        m.window.len() == 0 || m.window[0] != input,
    ensures
        step(m, input) == m,
{
}

/// Any number of lines, none of which is the front word, change nothing.
pub proof fn lemma_mismatches_change_nothing(m: RoundModel, inputs: Seq<Seq<char>>)
    requires
        forall|i: int|
            0 <= i < inputs.len() ==> m.window.len() == 0 || m.window[0] != #[trigger] inputs[i],
    ensures
        run(m, inputs) == m,
    decreases inputs.len(),
{
    if inputs.len() > 0 {
        lemma_mismatches_change_nothing(m, inputs.drop_last());
        assert(m.window.len() == 0 || m.window[0] != inputs[inputs.len() - 1]);
    }
}

/// A round is over once the cursor is at the last word of the pool,
/// whatever the target. So a round over a pool of `n` words completes at
/// most `n - MIN_POOL_SIZE` words.
pub proof fn lemma_round_ends_at_pool_boundary(m: RoundModel)
    requires
        consistent(m),
    ensures
        m.next_pool_index >= m.pool.len() - 1 ==> finished(m),
        m.words_completed <= m.pool.len() - MIN_POOL_SIZE,
        m.words_completed == m.pool.len() - MIN_POOL_SIZE ==> finished(m),
{
}

/// A round that is over stays as it is, whatever is typed.
pub proof fn lemma_finished_is_terminal(m: RoundModel, inputs: Seq<Seq<char>>)
    requires
        finished(m),
    ensures
        run(m, inputs) == m,
    decreases inputs.len(),
{
    if inputs.len() > 0 {
        lemma_finished_is_terminal(m, inputs.drop_last());
    }
}

/// The outcome of a round.
#[derive(Debug, Clone, Copy, PartialEq, Eq, Structural)]
pub struct RoundReport {
    /// Time from the start of the round to its end, in nanoseconds.
    pub elapsed_nanos: u128,
    /// Number of words typed.
    pub words_completed: usize,
}

impl RoundReport {
    /// The elapsed time in whole milliseconds.
    pub fn elapsed_millis(&self) -> (millis: u128)
        ensures
            millis == self.elapsed_nanos / 1_000_000,
    {
        self.elapsed_nanos / 1_000_000
    }

    /// The elapsed time in whole seconds.
    pub fn elapsed_secs(&self) -> (secs: u128)
        ensures
            secs == self.elapsed_nanos / 1_000_000_000,
    {
        self.elapsed_nanos / 1_000_000_000
    }

    /// The nanoseconds of the elapsed time beyond its whole seconds.
    pub fn subsec_nanos(&self) -> (nanos: u32)
        ensures
            nanos == self.elapsed_nanos % 1_000_000_000,
    {
        (self.elapsed_nanos % 1_000_000_000) as u32
    }
}

/// A round in progress.
pub struct RoundEngine {
    pool: WordPool,
    window: DisplayWindow,
    words_completed: usize,
    next_pool_index: usize,
    target_word_count: usize,
    timer: Timer,
}

impl View for RoundEngine {
    type V = RoundModel;

    closed spec fn view(&self) -> RoundModel {
        RoundModel {
            pool: self.pool@,
            window: self.window@,
            words_completed: self.words_completed as nat,
            next_pool_index: self.next_pool_index as nat,
            target_word_count: self.target_word_count as nat,
        }
    }
}

impl RoundEngine {
    /// The state of the round is consistent.
    pub open spec fn wf(&self) -> bool {
        consistent(self@)
    }

    /// The latest reading of the round's stopwatch, in nanoseconds.
    pub closed spec fn last_reading(&self) -> u128 {
        self.timer.last_reading()
    }

    /// Starts a round over `pool` that ends after `target_word_count`
    /// words, and starts its stopwatch. A pool of fewer than
    /// `MIN_POOL_SIZE` words cannot start a round.
    pub fn start(pool: WordPool, target_word_count: usize) -> (round: Result<RoundEngine, GameError>)
        ensures
            pool@.len() < MIN_POOL_SIZE <==> round.is_err(),
            round.is_err() ==> round == Err::<RoundEngine, GameError>(GameError::InsufficientWords),
            round.is_ok() ==> {
                &&& round.unwrap().wf()
                &&& round.unwrap()@ == primed(pool@, target_word_count as nat)
                &&& round.unwrap().last_reading() == 0
            },
    {
        if pool.len() < MIN_POOL_SIZE {
            return Err(GameError::InsufficientWords);
        }
        let window = DisplayWindow::seed(&pool);
        proof {
            lemma_primed_consistent(pool@, target_word_count as nat);
        }
        Ok(
            RoundEngine {
                pool,
                window,
                words_completed: 0,
                next_pool_index: WINDOW_SIZE,
                target_word_count,
                timer: Timer::start(),
            },
        )
    }

    /// Whether the round is over.
    pub fn is_finished(&self) -> (b: bool)
        ensures
            b == finished(self@),
    {
        let n: usize = self.pool.len();
        self.words_completed >= self.target_word_count || n == 0 || self.next_pool_index >= n - 1
    }

    /// The upcoming words, for display.
    pub fn window(&self) -> (window: &DisplayWindow)
        ensures
            window@ == self@.window,
    {
        &self.window
    }

    /// The words of the round.
    pub fn pool(&self) -> (pool: &WordPool)
        ensures
            pool@ == self@.pool,
    {
        &self.pool
    }

    /// Number of words typed so far.
    pub fn words_completed(&self) -> (n: usize)
        ensures
            n == self@.words_completed,
    {
        self.words_completed
    }

    /// Position in the pool of the next word to enter the window.
    pub fn next_pool_index(&self) -> (n: usize)
        ensures
            n == self@.next_pool_index,
    {
        self.next_pool_index
    }

    /// Number of words that ends the round.
    pub fn target_word_count(&self) -> (n: usize)
        ensures
            n == self@.target_word_count,
    {
        self.target_word_count
    }

    /// Takes one line of input. The line is trimmed; if the round is not
    /// over and the rest is exactly the front word, the word counts as
    /// typed and the window moves on. Any other line changes nothing.
    /// Returns whether the word counted.
    pub fn submit(&mut self, line: &str) -> (matched: bool)
        ensures
            old(self).wf() ==> final(self).wf(),
            matched == accepts(old(self)@, trimmed(line@)),
            final(self)@ == step(old(self)@, trimmed(line@)),
            final(self).last_reading() == old(self).last_reading(),
    {
        let input = trim(line);
        if self.is_finished() || !self.window.matches(&input) {
            return false;
        }
        proof {
            if self.wf() {
                lemma_step_consistent(self@, input@);
            }
        }
        let refill: Option<String> = match self.pool.get(self.next_pool_index) {
            Some(word) => Some(word.clone()),
            None => None,
        };
        self.window.advance(refill);
        self.words_completed += 1;
        if self.next_pool_index < self.pool.len() {
            self.next_pool_index += 1;
        }
        true
    }

    /// Nanoseconds since the round started. A reading is never below an
    /// earlier one of the same round.
    pub fn elapsed(&mut self) -> (nanos: u128)
        ensures
            nanos >= old(self).last_reading(),
            final(self).last_reading() == nanos,
            final(self)@ == old(self)@,
    {
        self.timer.elapsed()
    }

    /// The outcome of the round, once it is over: the time that has
    /// passed since its start and the number of words typed.
    pub fn report(&mut self) -> (report: Option<RoundReport>)
        ensures
            final(self)@ == old(self)@,
            report.is_some() <==> finished(old(self)@),
            report.is_some() ==> {
                &&& report.unwrap().words_completed == old(self)@.words_completed
                &&& report.unwrap().elapsed_nanos >= old(self).last_reading()
                &&& final(self).last_reading() == report.unwrap().elapsed_nanos
            },
            report.is_none() ==> final(self).last_reading() == old(self).last_reading(),
    {
        if !self.is_finished() {
            return None;
        }
        let elapsed_nanos = self.timer.elapsed();
        Some(RoundReport { elapsed_nanos, words_completed: self.words_completed })
    }
}

} // verus!

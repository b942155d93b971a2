//! Where the randomness comes from: a source hands out integers below a bound,
//! one at a time, and keeps a ghost record of what it handed out.

use vstd::prelude::*;

verus! {

/// A supply of random integers.
///
/// The single operation draws a value below a bound. `drawn` is the ghost record
/// of every value handed out so far, oldest first: contracts of functions that
/// consume randomness state their result as a function of the values that were
/// appended to it.
pub trait RandomSource {
    /// The values handed out so far, oldest first.
    spec fn drawn(&self) -> Seq<u64>;

    /// Draws a value from `0..bound`.
    fn draw_below(&mut self, bound: u64) -> (value: u64)
        requires
            bound > 0,
        ensures
            value < bound,
            final(self).drawn() == old(self).drawn().push(value),
    ;
}

/// `rand::rngs::ThreadRng`, the handle on a thread's generator. Nothing is
/// known of what it holds; it is only handed on to `rand`.
#[verifier::external_type_specification]
#[verifier::external_body]
pub struct ExThreadRng(rand::rngs::ThreadRng);

/// `rand::thread_rng`: a handle on the generator of the current thread, which
/// the operating system seeds when the thread first asks for it. Nothing is
/// claimed of the handle.
pub assume_specification[ rand::thread_rng ]() -> (generator: rand::rngs::ThreadRng)
;

/// `rand::Rng::gen_range` on a thread's generator, over the half-open range
/// `0..bound`. Claimed: the value lies in that range. Which value comes is left
/// open. The call panics on an empty range, so the bound must be positive.
#[verifier::external_body]
fn uniform_below(generator: &mut rand::rngs::ThreadRng, bound: u64) -> (value: u64)
    requires
        bound > 0,
    ensures
        value < bound,
{
    rand::Rng::gen_range(generator, 0..bound)
}

/// The generator of the current thread, seeded by the operating system.
pub struct ThreadRandom {
    generator: rand::rngs::ThreadRng,
    record: Ghost<Seq<u64>>,
}

impl ThreadRandom {
    /// A source on the current thread's generator that has handed out nothing yet.
    pub fn new() -> (source: Self)
        ensures
            source.drawn() == Seq::<u64>::empty(),
    {
        ThreadRandom { generator: rand::thread_rng(), record: Ghost(Seq::empty()) }
    }
}

impl RandomSource for ThreadRandom {
    closed spec fn drawn(&self) -> Seq<u64> {
        self.record@
    }

    fn draw_below(&mut self, bound: u64) -> (value: u64) {
        let value = uniform_below(&mut self.generator, bound);
        self.record = Ghost(self.record@.push(value));
        value
    }
}

/// A source that replays a fixed script: each draw takes the scripted value
/// under the cursor, reduced modulo the bound, and moves the cursor on, back to
/// the start after the last value. An empty script yields zero every time.
pub struct ScriptedRandom {
    script: Vec<u64>,
    cursor: usize,
    record: Ghost<Seq<u64>>,
}

impl ScriptedRandom {
    /// The scripted values.
    pub closed spec fn script(&self) -> Seq<u64> {
        self.script@
    }

    /// The position in the script of the value that the next draw takes.
    pub closed spec fn cursor(&self) -> int {
        self.cursor as int
    }

    /// The value that the next draw below `bound` hands out.
    pub open spec fn upcoming(&self, bound: u64) -> u64 {
        if 0 <= self.cursor() < self.script().len() {
            (self.script()[self.cursor()] % bound) as u64
        } else {
            0
        }
    }

    /// The cursor after one more draw.
    pub open spec fn advanced(&self) -> int {
        if self.cursor() + 1 < self.script().len() {
            self.cursor() + 1
        } else {
            0
        }
    }

    /// A source that replays `script` from its first value and has handed out
    /// nothing yet.
    pub fn new(script: Vec<u64>) -> (source: Self)
        ensures
            source.script() == script@,
            source.cursor() == 0,
            source.drawn() == Seq::<u64>::empty(),
    {
        ScriptedRandom { script, cursor: 0, record: Ghost(Seq::empty()) }
    }
}

impl RandomSource for ScriptedRandom {
    closed spec fn drawn(&self) -> Seq<u64> {
        self.record@
    }

    fn draw_below(&mut self, bound: u64) -> (value: u64)
        ensures
            value == old(self).upcoming(bound),
            final(self).cursor() == old(self).advanced(),
            final(self).script() == old(self).script(),
    {
        let value = if self.cursor < self.script.len() {
            self.script[self.cursor] % bound
        } else {
            0
        };
        self.cursor = if self.script.len() > 0 && self.cursor < self.script.len() - 1 {
            self.cursor + 1
        } else {
            0
        };
        self.record = Ghost(self.record@.push(value));
        value
    }
}

} // verus!

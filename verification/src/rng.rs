//! The random-float collaborator of the pipeline.
//!
//! The generator consumes a value-independent stream of uniform fractions.
//! A draw is a `u32` read as the fraction `value / 2^32` of `[0, 1)`.  The
//! source is handed to the entry point explicitly, never ambient, so a
//! seeded or scripted source can be substituted for deterministic runs.
//! Each source keeps a ghost log of the values it handed out; contracts of
//! the pipeline speak of that log.

use vstd::prelude::*;

verus! {

/// A source of uniform random fractions in `[0, 1)`, scaled by `2^32`.
pub trait RandomSource {
    /// The values handed out so far.
    spec fn taken(&self) -> Seq<u32>;

    /// Draws the next fraction.  Nothing is promised of the value itself;
    /// only the log grows by it.
    fn next_fraction(&mut self) -> (r: u32)
        ensures
            final(self).taken() == old(self).taken().push(r),
    ;
}

/// The next state of the linear congruential generator.
pub open spec fn lcg_step(s: u64) -> u64 {
    (((s as int) * 6364136223846793005 + 1442695040888963407) % 0x1_0000_0000_0000_0000) as u64
}

/// The fraction a state yields: its upper 32 bits.
pub open spec fn lcg_out(s: u64) -> u32 {
    ((s as int) / 0x1_0000_0000) as u32
}

/// A seeded linear congruential generator: a deterministic
/// [`RandomSource`] for reproducible runs and tests.
pub struct Lcg {
    state: u64,
    hist: Ghost<Seq<u32>>,
}

impl Lcg {
    /// The current generator state.
    pub closed spec fn state(&self) -> u64 {
        self.state
    }

    /// A fresh generator with the given seed and an empty log.
    pub fn new(seed: u64) -> (r: Lcg)
        ensures
            r.taken() == Seq::<u32>::empty(),
            r.state() == seed,
    {
        Lcg { state: seed, hist: Ghost(Seq::empty()) }
    }
}

impl RandomSource for Lcg {
    closed spec fn taken(&self) -> Seq<u32> {
        self.hist@
    }

    fn next_fraction(&mut self) -> (r: u32)
        ensures
            final(self).state() == lcg_step(old(self).state()),
            r == lcg_out(final(self).state()),
    {
        let w: u128 = (self.state as u128) * 6364136223846793005u128 + 1442695040888963407u128;
        let next: u64 = (w % 0x1_0000_0000_0000_0000u128) as u64;
        self.state = next;
        let r: u32 = (next / 0x1_0000_0000u64) as u32;
        self.hist = Ghost(self.hist@.push(r));
        r
    }
}

/// A scripted [`RandomSource`]: hands out the given values in a cycle.
/// With an empty script every draw is `0`.
pub struct ScriptedSource {
    values: Vec<u32>,
    pos: usize,
    hist: Ghost<Seq<u32>>,
}

/// The value a scripted source at position `pos` hands out.
pub open spec fn scripted_next(script: Seq<u32>, pos: int) -> u32 {
    if script.len() == 0 {
        0
    } else if 0 <= pos < script.len() {
        script[pos]
    } else {
        script[0]
    }
}

impl ScriptedSource {
    /// The scripted values.
    pub closed spec fn script(&self) -> Seq<u32> {
        self.values@
    }

    /// The position of the next value to hand out.
    pub closed spec fn cursor(&self) -> int {
        self.pos as int
    }

    /// A source that cycles through `values`, starting at the front.
    pub fn new(values: Vec<u32>) -> (r: ScriptedSource)
        ensures
            r.taken() == Seq::<u32>::empty(),
            r.script() == values@,
            r.cursor() == 0,
    {
        ScriptedSource { values, pos: 0, hist: Ghost(Seq::empty()) }
    }
}

impl RandomSource for ScriptedSource {
    closed spec fn taken(&self) -> Seq<u32> {
        self.hist@
    }

    fn next_fraction(&mut self) -> (r: u32)
        ensures
            r == scripted_next(old(self).script(), old(self).cursor()),
            final(self).script() == old(self).script(),
    {
        let n = self.values.len();
        let r: u32 = if n == 0 {
            0
        } else {
            let p = if self.pos < n {
                self.pos
            } else {
                0
            };
            let out = self.values[p];
            self.pos = p + 1;
            out
        };
        self.hist = Ghost(self.hist@.push(r));
        r
    }
}

} // verus!

use vstd::prelude::*;

verus! {

/// Multiplier of the linear congruential step.
pub const MULTIPLIER: u32 = 1664525;

/// Increment of the linear congruential step.
pub const OFFSET: u32 = 1013904223;

/// The generator state denoted by a two-word seed: the first word fills the
/// high half of the state, the second the low half.
pub open spec fn seed_state(word0: u16, word1: u16) -> u32 {
    (word0 * 0x1_0000 + word1) as u32
}

/// One linear congruential step of the 32-bit generator state.
pub open spec fn lcg_next(s: u32) -> u32 {
    ((s * MULTIPLIER + OFFSET) % 0x1_0000_0000) as u32
}

/// The 16-bit word handed out after one step from state `s`: the high half
/// of the advanced state.
pub open spec fn lcg_output(s: u32) -> u16 {
    (lcg_next(s) / 0x1_0000) as u16
}

/// A seeded pseudo-random generator: a 32-bit linear congruential sequence,
/// handed out 16 bits at a time. Given the same seed it yields the same
/// infinite sequence of values; it never fails.
#[derive(PartialEq, Eq, Structural, Clone, Copy, Debug)]
pub struct Prng {
    pub state: u32,
}

impl Prng {
    /// Seeds a generator from two 16-bit words.
    pub fn new(word0: u16, word1: u16) -> (r: Prng)
        ensures
            r.state == seed_state(word0, word1),
    {
        Prng { state: (word0 as u32) * 0x1_0000 + (word1 as u32) }
    }

    /// Advances the generator one step and returns the next 16-bit value.
    pub fn get_u16(&mut self) -> (r: u16)
        ensures
            final(self).state == lcg_next(old(self).state),
            r == lcg_output(old(self).state),
    {
        let wide: u64 = (self.state as u64) * 1664525 + 1013904223;
        let next: u32 = (wide % 0x1_0000_0000) as u32;
        self.state = next;
        (next / 0x1_0000) as u16
    }
}

/// Relies on std::time::SystemTime::now as a coarse entropy source; the body
/// only converts the clock reading to plain seconds and subsecond nanoseconds,
/// and nothing is assumed about their values.
#[verifier::external_body]
fn unix_time_words() -> (u64, u32) {
    let duration = std::time::SystemTime::now()
        .duration_since(std::time::UNIX_EPOCH)
        .unwrap_or(std::time::Duration::ZERO);
    (duration.as_secs(), duration.subsec_nanos())
}

/// The two seed words derived from a clock reading: the low 16 bits of the
/// seconds, and the low 16 bits of the subsecond nanoseconds.
pub fn seed_from_words(secs: u64, nanos: u32) -> (r: (u16, u16))
    ensures
        r.0 as int == secs as int % 0x1_0000,
        r.1 as int == nanos as int % 0x1_0000,
{
    ((secs % 0x1_0000) as u16, (nanos % 0x1_0000) as u16)
}

/// Derives the two seed words for a self-seeded game from the system clock.
/// Any word pair is a possible outcome of the clock, so nothing more is
/// promised of the result; `seed_from_words` carries the derivation's
/// contract.
pub(crate) fn get_prng_seed() -> (u16, u16) {
    let (secs, nanos) = unix_time_words();
    seed_from_words(secs, nanos)
}

} // verus!

//! The generator's source of random draws. A [`Rand`] either forwards to the
//! process-wide generator or replays a fixed queue of draws, which makes every
//! decision taken during generation a deterministic function of that queue.

use vstd::prelude::*;

verus! {

/// Relies on rand::random::<u64> (rand crate): one uniform draw from the
/// thread-local generator. Nothing is assumed about the value.
#[verifier::external_body]
fn sys_random_u64() -> u64 {
    rand::random::<u64>()
}

/// A source of raw 64-bit draws: the system generator, or a replayed queue.
pub struct Rand {
    replay: Option<Vec<u64>>,
    pos: usize,
}

impl Rand {
    /// True when this source replays a fixed queue instead of drawing fresh
    /// randomness.
    pub closed spec fn is_fixed(self) -> bool {
        self.replay is Some
    }

    pub closed spec fn queue(self) -> Seq<u64> {
        self.replay->0@
    }

    pub closed spec fn cursor(self) -> int {
        self.pos as int
    }

    /// The value a fixed source hands out next: the queued draw under the
    /// cursor, or 0 once the queue is exhausted.
    pub open spec fn fixed_next(self) -> u64 {
        if self.cursor() < self.queue().len() {
            self.queue()[self.cursor()]
        } else {
            0
        }
    }

    /// A source backed by the process-wide generator.
    pub fn system() -> (r: Rand)
        ensures
            !r.is_fixed(),
    {
        Rand { replay: None, pos: 0 }
    }

    /// A source that replays `draws` from the start.
    pub fn fixed(draws: Vec<u64>) -> (r: Rand)
        ensures
            r.is_fixed(),
            r.queue() == draws@,
            r.cursor() == 0,
    {
        Rand { replay: Some(draws), pos: 0 }
    }

    /// One raw draw. A fixed source hands out exactly the queued value under
    /// its cursor and advances; a system source returns an arbitrary value.
    pub fn next_raw(&mut self) -> (r: u64)
        ensures
            final(self).is_fixed() == old(self).is_fixed(),
            final(self).queue() == old(self).queue(),
            old(self).is_fixed() ==> r == old(self).fixed_next(),
            old(self).is_fixed() ==> final(self).cursor() == if old(self).cursor()
                < old(self).queue().len() {
                old(self).cursor() + 1
            } else {
                old(self).cursor()
            },
            !old(self).is_fixed() ==> final(self).cursor() == old(self).cursor(),
    {
        match &self.replay {
            Option::Some(draws) => {
                if self.pos < draws.len() {
                    let v = draws[self.pos];
                    self.pos = self.pos + 1;
                    v
                } else {
                    0
                }
            },
            Option::None => sys_random_u64(),
        }
    }

    /// A draw folded into the inclusive range `lo..=hi`.
    pub fn next_in_range_u32(&mut self, lo: u32, hi: u32) -> (r: u32)
        requires
            lo <= hi,
        ensures
            lo <= r <= hi,
            final(self).is_fixed() == old(self).is_fixed(),
            final(self).queue() == old(self).queue(),
    {
        let raw = self.next_raw();
        let span = (hi - lo) as u64 + 1;
        lo + (raw % span) as u32
    }

    /// A draw folded into `0..n`.
    pub fn next_below_usize(&mut self, n: usize) -> (r: usize)
        requires
            n >= 1,
        ensures
            r < n,
            final(self).is_fixed() == old(self).is_fixed(),
            final(self).queue() == old(self).queue(),
    {
        let raw = self.next_raw();
        (raw % n as u64) as usize
    }

    /// A draw folded into a single byte.
    pub fn next_byte(&mut self) -> (r: u8)
        ensures
            final(self).is_fixed() == old(self).is_fixed(),
            final(self).queue() == old(self).queue(),
    {
        let raw = self.next_raw();
        (raw % 256) as u8
    }

    /// A draw folded into a coin flip.
    pub fn next_bool(&mut self) -> (r: bool)
        ensures
            final(self).is_fixed() == old(self).is_fixed(),
            final(self).queue() == old(self).queue(),
    {
        let raw = self.next_raw();
        raw % 2 == 1
    }
}

} // verus!

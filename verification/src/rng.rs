//! A small explicit xorshift random stream.
//!
//! Every randomized operation of the library takes one of these by `&mut`
//! reference, never an ambient generator, so a run is reproducible from its
//! seed alone.  The step function is the classic 128-bit xorshift: its exact
//! effect is stated by [`spec_step`].

use vstd::prelude::*;

verus! {

/// A 128-bit xorshift generator.
#[derive(Clone, Copy, Debug, PartialEq, Eq, Structural)]
pub struct XorShiftRng {
    pub x: u32,
    pub y: u32,
    pub z: u32,
    pub w: u32,
}

/// One xorshift step: the next state.  The drawn value is the new `w`.
pub open spec fn spec_step(s: XorShiftRng) -> XorShiftRng {
    let t = s.x ^ (s.x << 11);
    XorShiftRng { x: s.y, y: s.z, z: s.w, w: s.w ^ (s.w >> 19) ^ (t ^ (t >> 8)) }
}

impl XorShiftRng {
    /// Seed the generator from four words.  The all-zero seed is a fixed
    /// point of xorshift, so it is replaced by a fixed nonzero state.
    pub fn from_seed(seed: [u32; 4]) -> (r: XorShiftRng)
        ensures
            (seed@[0] != 0 || seed@[1] != 0 || seed@[2] != 0 || seed@[3] != 0) ==> r == (
            XorShiftRng { x: seed@[0], y: seed@[1], z: seed@[2], w: seed@[3] }),
            (seed@[0] == 0 && seed@[1] == 0 && seed@[2] == 0 && seed@[3] == 0) ==> r == (
            XorShiftRng { x: 0x193a_6754, y: 0xa8a7_d469, z: 0x9783_0e05, w: 0x113b_a7bb }),
    {
        if seed[0] == 0 && seed[1] == 0 && seed[2] == 0 && seed[3] == 0 {
            XorShiftRng { x: 0x193a_6754, y: 0xa8a7_d469, z: 0x9783_0e05, w: 0x113b_a7bb }
        } else {
            XorShiftRng { x: seed[0], y: seed[1], z: seed[2], w: seed[3] }
        }
    }

    /// Draw the next 32-bit value and advance the state by one step.
    pub fn next_u32(&mut self) -> (r: u32)
        ensures
            *final(self) == spec_step(*old(self)),
            r == spec_step(*old(self)).w,
    {
        let t = self.x ^ (self.x << 11u32);
        self.x = self.y;
        self.y = self.z;
        self.z = self.w;
        self.w = self.w ^ (self.w >> 19u32) ^ (t ^ (t >> 8u32));
        self.w
    }

    /// Draw an index below `n` (the drawn word reduced modulo `n`).
    pub fn gen_index(&mut self, n: usize) -> (r: usize)
        requires
            n > 0,
        ensures
            *final(self) == spec_step(*old(self)),
            r == spec_step(*old(self)).w as int % n as int,
            r < n,
    {
        let v = self.next_u32();
        (v as usize) % n
    }

    /// Draw a fixed-point value in `[lo, hi)` (the drawn word reduced
    /// modulo the span).
    pub fn gen_range_fixed(&mut self, lo: i64, hi: i64) -> (r: i64)
        requires
            lo < hi,
            hi - lo <= 0xffff_ffff,
        ensures
            *final(self) == spec_step(*old(self)),
            r == lo + spec_step(*old(self)).w as int % (hi - lo),
            lo <= r < hi,
    {
        let v = self.next_u32();
        let span = (hi - lo) as u64;
        lo + ((v as u64 % span) as i64)
    }
}

} // verus!

//! Retiming of the decoded frame stream: a fixed-step decimation that keeps
//! roughly one decoded frame per `source_fps / target_fps`.

use vstd::prelude::*;
use vstd::arithmetic::div_mod::lemma_fundamental_div_mod;

verus! {

/// Whether an accumulator that has just counted one more decoded frame
/// reaches the emit threshold `(num / den) / target` — one source-second's
/// frames per target-second's frames — written without division.
pub open spec fn spec_emits(count: int, num: int, den: int, target: int) -> bool {
    count * den * target >= num
}

/// The accumulator after `n` decoded frames: it counts up by one per frame
/// and resets to zero on every emit, discarding the fractional remainder.
pub open spec fn spec_count_after(n: int, num: int, den: int, target: int) -> int
    decreases n,
{
    if n <= 0 {
        0
    } else if spec_emits(spec_count_after(n - 1, num, den, target) + 1, num, den, target) {
        0
    } else {
        spec_count_after(n - 1, num, den, target) + 1
    }
}

/// How many of the first `n` decoded frames are emitted.
pub open spec fn spec_emitted(n: int, num: int, den: int, target: int) -> int
    decreases n,
{
    if n <= 0 {
        0
    } else {
        spec_emitted(n - 1, num, den, target) + if spec_emits(
            spec_count_after(n - 1, num, den, target) + 1,
            num,
            den,
            target,
        ) {
            1int
        } else {
            0int
        }
    }
}

/// The decimation state for one extraction run. The source rate is the exact
/// rational `fps_num / fps_den` the container reports.
pub struct Retimer {
    pub fps_num: u32,
    pub fps_den: u32,
    pub target_fps: u16,
    pub count: u32,
}

impl Retimer {
    pub open spec fn wf(self) -> bool {
        &&& self.fps_den >= 1
        &&& self.target_fps >= 1
        &&& (self.count == 0 || !spec_emits(
            self.count as int,
            self.fps_num as int,
            self.fps_den as int,
            self.target_fps as int,
        ))
    }

    pub fn new(fps_num: u32, fps_den: u32, target_fps: u16) -> (r: Retimer)
        requires
            fps_den >= 1,
            target_fps >= 1,
        ensures
            r == (Retimer { fps_num, fps_den, target_fps, count: 0 }),
            r.wf(),
    {
        Retimer { fps_num, fps_den, target_fps, count: 0 }
    }

    /// Counts one successfully decoded frame and says whether it is emitted;
    /// an emit resets the accumulator, a drop carries it forward.
    pub fn note_frame(&mut self) -> (emit: bool)
        requires
            old(self).wf(),
        ensures
            final(self).fps_num == old(self).fps_num,
            final(self).fps_den == old(self).fps_den,
            final(self).target_fps == old(self).target_fps,
            final(self).wf(),
            emit == spec_emits(
                old(self).count + 1,
                old(self).fps_num as int,
                old(self).fps_den as int,
                old(self).target_fps as int,
            ),
            final(self).count == if emit {
                0int
            } else {
                old(self).count + 1
            },
    {
        proof {
            if self.count != 0 {
                assert(self.count as int <= self.count as int * self.fps_den as int
                    * self.target_fps as int) by (nonlinear_arith)
                    requires
                        self.fps_den >= 1,
                        self.target_fps >= 1,
                        self.count as int >= 0,
                ;
            }
        }
        let c: u32 = self.count + 1;
        proof {
            assert((c as int) * (self.fps_den as int) <= u32::MAX as int * u32::MAX as int)
                by (nonlinear_arith)
                requires
                    0 <= c as int <= u32::MAX as int,
                    0 <= self.fps_den as int <= u32::MAX as int,
            ;
            assert((c as int) * (self.fps_den as int) * (self.target_fps as int) <= (u32::MAX as int
                * u32::MAX as int) * u16::MAX as int) by (nonlinear_arith)
                requires
                    0 <= (c as int) * (self.fps_den as int) <= u32::MAX as int * u32::MAX as int,
                    0 <= self.target_fps as int <= u16::MAX as int,
            ;
        }
        let reach: u128 = (c as u128) * (self.fps_den as u128) * (self.target_fps as u128);
        if reach >= self.fps_num as u128 {
            self.count = 0;
            true
        } else {
            self.count = c;
            false
        }
    }
}

/// With a 30 fps source and a 10 fps target exactly every third decoded frame
/// is emitted: after `n` decoded frames, `floor(n / 3)` frames have been
/// emitted and the accumulator stands at `n mod 3`.
pub proof fn lemma_retime_one_in_three(n: int)
    requires
        n >= 0,
    ensures
        spec_emitted(n, 30, 1, 10) == n / 3,
        spec_count_after(n, 30, 1, 10) == n % 3,
    decreases n,
{
    if n == 0 {
        lemma_fundamental_div_mod(0, 3);
        assert(0int / 3 == 0);
        assert(0int % 3 == 0);
    } else {
        lemma_retime_one_in_three(n - 1);
        lemma_fundamental_div_mod(n, 3);
        lemma_fundamental_div_mod(n - 1, 3);
        assert(0 <= n % 3 < 3);
        assert(0 <= (n - 1) % 3 < 3);
        if (n - 1) % 3 == 2 {
            assert(n % 3 == 0);
            assert(n / 3 == (n - 1) / 3 + 1);
        } else {
            assert(n % 3 == (n - 1) % 3 + 1);
            assert(n / 3 == (n - 1) / 3);
        }
    }
}

} // verus!

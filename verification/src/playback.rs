//! The playback clock: which text frame is due at a given elapsed wall-clock
//! time, with drop-behind catch-up and an unconditional restart at the end.

use vstd::prelude::*;

verus! {

/// The frame slot the wall clock has reached: `floor(elapsed * fps / 1000)`,
/// each slot lasting `1000 / fps` milliseconds.
pub open spec fn spec_frame_index(elapsed_ms: int, framerate: int) -> int {
    elapsed_ms * framerate / 1000
}

/// What one poll of the clock asks the embedding loop to do.
#[derive(Clone, Copy, PartialEq, Eq, Structural, Debug)]
pub enum PlaybackAction {
    /// No new frame is due yet; keep polling.
    Wait,
    /// The sequence has fully played; restart the clock at the first frame.
    Restart,
    /// Clear the viewport and draw this frame now.
    Draw(usize),
}

/// A converted frame sequence together with the playback position.
pub struct VideoPlayer {
    pub data: Vec<String>,
    pub framerate: u16,
    pub last_rendered: Option<usize>,
}

impl VideoPlayer {
    pub open spec fn wf(self) -> bool {
        self.framerate >= 1
    }

    /// Takes ownership of the ordered text frames for one play session; no
    /// frame has been drawn yet.
    pub fn new(data: Vec<String>, framerate: u16) -> (p: VideoPlayer)
        requires
            framerate >= 1,
        ensures
            p.data == data,
            p.framerate == framerate,
            p.last_rendered is None,
            p.wf(),
    {
        VideoPlayer { data, framerate, last_rendered: None }
    }

    pub fn len(&self) -> (n: usize)
        ensures
            n == self.data@.len(),
    {
        self.data.len()
    }

    /// The text of one frame, for the loop that draws it.
    pub fn frame(&self, i: usize) -> (s: &String)
        requires
            i < self.data@.len(),
        ensures
            s == self.data@[i as int],
    {
        &self.data[i]
    }

    /// One poll of the wall clock. The due frame index is derived from real
    /// elapsed time, never from a loop counter: when drawing lags, intermediate
    /// frames are skipped, and the display always shows the frame of the
    /// current presentation instant. Past the end the sequence restarts; a
    /// frame already drawn is not drawn again.
    pub fn poll(&mut self, elapsed_ms: u64) -> (action: PlaybackAction)
        requires
            old(self).wf(),
        ensures
            final(self).data == old(self).data,
            final(self).framerate == old(self).framerate,
            final(self).wf(),
            ({
                let idx = spec_frame_index(elapsed_ms as int, old(self).framerate as int);
                if idx >= old(self).data@.len() {
                    &&& action == PlaybackAction::Restart
                    &&& final(self).last_rendered == old(self).last_rendered
                } else if old(self).last_rendered == Some(idx as usize) {
                    &&& action == PlaybackAction::Wait
                    &&& final(self).last_rendered == old(self).last_rendered
                } else {
                    &&& action == PlaybackAction::Draw(idx as usize)
                    &&& final(self).last_rendered == Some(idx as usize)
                }
            }),
    {
        proof {
            assert((elapsed_ms as int) * (self.framerate as int) <= u64::MAX as int
                * u16::MAX as int) by (nonlinear_arith)
                requires
                    0 <= elapsed_ms as int <= u64::MAX as int,
                    0 <= self.framerate as int <= u16::MAX as int,
            ;
        }
        let q: u128 = (elapsed_ms as u128) * (self.framerate as u128) / 1000;
        proof {
            assert(q == spec_frame_index(elapsed_ms as int, self.framerate as int));
        }
        if q >= self.data.len() as u128 {
            return PlaybackAction::Restart;
        }
        let idx: usize = q as usize;
        match self.last_rendered {
            Some(last) if last == idx => PlaybackAction::Wait,
            _ => {
                self.last_rendered = Some(idx);
                PlaybackAction::Draw(idx)
            },
        }
    }
}

} // verus!

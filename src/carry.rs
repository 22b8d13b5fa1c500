//! The frames of the last computed block that a device callback has not yet
//! taken.
use vstd::prelude::*;
use crate::frames::{
    block_frames, block_wf, copy_frames, frames_at, lemma_silent_block_frames, silent_block,
    silent_frames,
};

verus! {

/// The last computed block and a cursor on the next frame of it that has not
/// been handed out; when the cursor stands at the block size, nothing is left.
/// A block of silence is kept ready, so that standing in silence for a block
/// takes no new memory.
pub struct CarryBuffer<T> {
    block: Vec<Vec<T>>,
    quiet: Vec<Vec<T>>,
    silent: bool,
    silence: T,
    cursor: usize,
    block_size: usize,
    device_channels: usize,
}

impl<T: Copy> CarryBuffer<T> {
    /// The block holds `block_size` frames per channel and the cursor lies
    /// within it.
    pub closed spec fn wf(&self) -> bool {
        &&& self.block_size > 0
        &&& self.device_channels > 0
        &&& block_wf(self.block@, self.block_size as nat)
        &&& block_wf(self.quiet@, self.block_size as nat)
        &&& self.quiet@.len() == 1
        &&& forall|i: int| 0 <= i < self.block_size ==> #[trigger] self.quiet@[0]@[i] == self.silence
        &&& self.cursor <= self.block_size
    }

    /// The block whose frames wait.
    pub closed spec fn held(&self) -> Seq<Vec<T>> {
        if self.silent {
            self.quiet@
        } else {
            self.block@
        }
    }

    pub closed spec fn silence_spec(&self) -> T {
        self.silence
    }

    pub closed spec fn block_size_spec(&self) -> usize {
        self.block_size
    }

    pub closed spec fn device_channels_spec(&self) -> usize {
        self.device_channels
    }

    /// The frames not yet handed out, in order.
    pub closed spec fn pending(&self) -> Seq<Seq<T>> {
        block_frames(self.held(), self.block_size as nat, self.device_channels as nat).subrange(
            self.cursor as int,
            self.block_size as int,
        )
    }

    /// A well-formed carry buffer never holds more than one block's worth of
    /// waiting frames.
    pub proof fn lemma_at_most_one_block(&self)
        requires
            self.wf(),
        ensures
            self.pending().len() <= self.block_size_spec(),
            self.block_size_spec() > 0,
            self.device_channels_spec() > 0,
    {
    }

    /// An empty carry buffer for blocks of `block_size` frames, laid out over
    /// `device_channels` interleaved channels, that stands in `silence` for a
    /// block the source failed to compute.
    pub fn new(block_size: usize, device_channels: usize, silence: T) -> (r: Self)
        requires
            block_size > 0,
            device_channels > 0,
        ensures
            r.wf(),
            r.pending().len() == 0,
            r.block_size_spec() == block_size,
            r.device_channels_spec() == device_channels,
            r.silence_spec() == silence,
    {
        let block = silent_block(block_size, silence);
        let quiet = silent_block(block_size, silence);
        CarryBuffer { block, quiet, silent: true, silence, cursor: block_size, block_size, device_channels }
    }

    pub fn silence(&self) -> (r: T)
        ensures
            r == self.silence_spec(),
    {
        self.silence
    }

    pub fn block_size(&self) -> (r: usize)
        ensures
            r == self.block_size_spec(),
    {
        self.block_size
    }

    pub fn device_channels(&self) -> (r: usize)
        ensures
            r == self.device_channels_spec(),
    {
        self.device_channels
    }

    /// How many frames are waiting.
    pub fn pending_len(&self) -> (r: usize)
        requires
            self.wf(),
        ensures
            r == self.pending().len(),
    {
        self.block_size - self.cursor
    }

    /// Copies up to `max_frames` waiting frames into `out` from frame slot
    /// `at` on, and returns how many it copied; those frames are no longer
    /// waiting.  Every other sample of `out` is kept.
    pub fn drain(&mut self, out: &mut [T], at: usize, max_frames: usize) -> (n: usize)
        requires
            old(self).wf(),
            (at + max_frames) * old(self).device_channels_spec() <= old(out)@.len(),
        ensures
            final(self).wf(),
            n as int == if max_frames <= old(self).pending().len() {
                max_frames as int
            } else {
                old(self).pending().len() as int
            },
            final(self).pending() == old(self).pending().subrange(n as int, old(self).pending().len() as int),
            final(self).block_size_spec() == old(self).block_size_spec(),
            final(self).device_channels_spec() == old(self).device_channels_spec(),
            final(self).silence_spec() == old(self).silence_spec(),
            max_frames == 0 ==> *final(self) == *old(self),
            final(out)@.len() == old(out)@.len(),
            frames_at(final(out)@, at as int, n as nat, old(self).device_channels_spec() as nat)
                == old(self).pending().subrange(0, n as int),
            forall|k: int|
                0 <= k < old(out)@.len() && !(at * old(self).device_channels_spec() <= k < (at + n)
                    * old(self).device_channels_spec()) ==> final(out)@[k] == old(out)@[k],
    {
        let waiting = self.block_size - self.cursor;
        let n = if max_frames <= waiting { max_frames } else { waiting };
        proof {
            assert((at + n) * self.device_channels <= (at + max_frames) * self.device_channels)
                by (nonlinear_arith)
                requires
                    n <= max_frames,
                    self.device_channels > 0,
            ;
        }
        if self.silent {
            copy_frames(out, at, &self.quiet, self.block_size, self.cursor, n, self.device_channels);
        } else {
            copy_frames(out, at, &self.block, self.block_size, self.cursor, n, self.device_channels);
        }
        let ghost before = self.pending();
        self.cursor = self.cursor + n;
        proof {
            assert(self.pending() =~= before.subrange(n as int, before.len() as int));
            assert(before.subrange(0, n as int) =~= block_frames(self.held(), self.block_size as nat, self.device_channels as nat).subrange(old(self).cursor as int, old(self).cursor + n));
        }
        n
    }

    /// Replaces the held block with `block`, of which frames `start ..` are
    /// waiting.
    pub fn refill(&mut self, block: Vec<Vec<T>>, start: usize)
        requires
            old(self).wf(),
            block_wf(block@, old(self).block_size_spec() as nat),
            start <= old(self).block_size_spec(),
        ensures
            final(self).wf(),
            final(self).pending() == block_frames(
                block@,
                old(self).block_size_spec() as nat,
                old(self).device_channels_spec() as nat,
            ).subrange(start as int, old(self).block_size_spec() as int),
            final(self).block_size_spec() == old(self).block_size_spec(),
            final(self).device_channels_spec() == old(self).device_channels_spec(),
            final(self).silence_spec() == old(self).silence_spec(),
    {
        self.block = block;
        self.silent = false;
        self.cursor = start;
    }

    /// Makes a block of silence the held block, of which frames `start ..`
    /// are waiting.
    pub fn refill_silent(&mut self, start: usize)
        requires
            old(self).wf(),
            start <= old(self).block_size_spec(),
        ensures
            final(self).wf(),
            final(self).pending() == silent_frames(
                old(self).block_size_spec() as nat,
                old(self).device_channels_spec() as nat,
                old(self).silence_spec(),
            ).subrange(start as int, old(self).block_size_spec() as int),
            final(self).block_size_spec() == old(self).block_size_spec(),
            final(self).device_channels_spec() == old(self).device_channels_spec(),
            final(self).silence_spec() == old(self).silence_spec(),
    {
        self.silent = true;
        self.cursor = start;
        proof {
            lemma_silent_block_frames(self.quiet@, self.block_size as nat, self.device_channels as nat, self.silence);
        }
    }
}

} // verus!

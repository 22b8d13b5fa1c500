//! The streaming bridge: serves device callbacks of any length from a source
//! of fixed-size blocks, carrying the unused tail of a block to the next
//! callback.
use vstd::prelude::*;
use crate::carry::CarryBuffer;
use crate::source::{lemma_log_frames_push, log_frames, source_frames, BlockLog};
use crate::frames::{block_wf, frames_at, lemma_frames_split};

verus! {

/// Checks that every channel of `block` holds `n` samples and that there is
/// at least one channel.
pub fn block_fits<T>(block: &Vec<Vec<T>>, n: usize) -> (r: bool)
    ensures
        r == block_wf(block@, n as nat),
{
    if block.len() == 0 {
        return false;
    }
    let mut ch: usize = 0;
    while ch < block.len()
        invariant
            ch <= block@.len(),
            forall|c: int| 0 <= c < ch ==> (#[trigger] block@[c])@.len() == n,
        decreases block@.len() - ch,
    {
        if block[ch].len() != n {
            return false;
        }
        ch += 1;
    }
    true
}

/// Serves device callbacks from a source of blocks of `block_size` frames.
pub struct StreamBridge<T> {
    carry: CarryBuffer<T>,
    delivered: Ghost<Seq<Seq<T>>>,
    produced: Ghost<Seq<Seq<T>>>,
}

impl<T: Copy> StreamBridge<T> {
    /// Every frame produced so far has been delivered, or is waiting in the
    /// carry buffer, in the order it was produced.
    pub closed spec fn wf(&self) -> bool {
        &&& self.carry.wf()
        &&& self.produced@ == self.delivered@ + self.carry.pending()
    }

    /// The frames handed to the device so far, in order.
    pub closed spec fn delivered(&self) -> Seq<Seq<T>> {
        self.delivered@
    }

    /// The frames of all blocks taken from the source so far, in order.
    pub closed spec fn produced(&self) -> Seq<Seq<T>> {
        self.produced@
    }

    /// The frames waiting for the next callback.
    pub closed spec fn pending(&self) -> Seq<Seq<T>> {
        self.carry.pending()
    }

    pub closed spec fn block_size_spec(&self) -> usize {
        self.carry.block_size_spec()
    }

    pub closed spec fn device_channels_spec(&self) -> usize {
        self.carry.device_channels_spec()
    }

    pub closed spec fn silence_spec(&self) -> T {
        self.carry.silence_spec()
    }

    /// Across any run of callbacks, the frames handed to the device are the
    /// frames of the blocks taken from the source, in the order they were
    /// produced, with none skipped or repeated: what has been delivered is a
    /// prefix of what has been produced, and the rest is exactly what waits in
    /// the carry buffer.
    pub proof fn lemma_delivered_in_order(&self)
        requires
            self.wf(),
        ensures
            self.delivered().len() <= self.produced().len(),
            self.delivered() == self.produced().subrange(0, self.delivered().len() as int),
            self.pending() == self.produced().subrange(
                self.delivered().len() as int,
                self.produced().len() as int,
            ),
    {
        assert(self.delivered() =~= self.produced().subrange(0, self.delivered().len() as int));
        assert(self.pending() =~= self.produced().subrange(
            self.delivered().len() as int,
            self.produced().len() as int,
        ));
    }

    /// Between callbacks the bridge never holds more than one block's worth
    /// of undelivered frames.
    pub proof fn lemma_carry_within_one_block(&self)
        requires
            self.wf(),
        ensures
            self.pending().len() <= self.block_size_spec(),
            self.produced().len() - self.delivered().len() <= self.block_size_spec(),
    {
        self.carry.lemma_at_most_one_block();
    }

    /// A bridge for blocks of `block_size` frames and a device with
    /// `device_channels` interleaved channels; `silence` is the sample that
    /// stands in for a block the source failed to compute.
    pub fn new(block_size: usize, device_channels: usize, silence: T) -> (r: Self)
        requires
            block_size > 0,
            device_channels > 0,
        ensures
            r.wf(),
            r.delivered().len() == 0,
            r.produced().len() == 0,
            r.pending().len() == 0,
            r.block_size_spec() == block_size,
            r.device_channels_spec() == device_channels,
            r.silence_spec() == silence,
    {
        let carry = CarryBuffer::new(block_size, device_channels, silence);
        let r = StreamBridge { carry, delivered: Ghost(Seq::empty()), produced: Ghost(Seq::empty()) };
        proof {
            assert(r.produced@ =~= r.delivered@ + r.carry.pending());
        }
        r
    }

    pub fn block_size(&self) -> (r: usize)
        ensures
            r == self.block_size_spec(),
    {
        self.carry.block_size()
    }

    pub fn device_channels(&self) -> (r: usize)
        ensures
            r == self.device_channels_spec(),
    {
        self.carry.device_channels()
    }

    pub fn silence(&self) -> (r: T)
        ensures
            r == self.silence_spec(),
    {
        self.carry.silence()
    }

    /// How many frames wait for the next callback.
    pub fn pending_len(&self) -> (r: usize)
        requires
            self.wf(),
        ensures
            r == self.pending().len(),
    {
        self.carry.pending_len()
    }

    /// Fills the whole frames of the interleaved buffer `out`: first from the
    /// frames waiting since the last callback, then from fresh blocks, one
    /// call of `src` per block, until the buffer is full; it calls `src` no
    /// more often than that.  The unused tail of the last block waits for the
    /// next callback.  A result flagged as failed, or a block of the wrong
    /// shape, counts as a block of silence.  Samples past the last whole frame
    /// are kept.  Returns the number of frames written.
    pub fn render<F: Fn() -> (Vec<Vec<T>>, bool)>(&mut self, out: &mut [T], src: &mut BlockLog<T, F>) -> (frames: usize)
        requires
            old(self).wf(),
            old(src).wf(),
        ensures
            final(self).wf(),
            final(src).wf(),
            final(src).source() == old(src).source(),
            forall|j: int|
                old(src).log().len() <= j < final(src).log().len() ==> old(src).source().ensures(
                    (),
                    #[trigger] final(src).log()[j],
                ),
            final(self).block_size_spec() == old(self).block_size_spec(),
            final(self).device_channels_spec() == old(self).device_channels_spec(),
            final(self).silence_spec() == old(self).silence_spec(),
            frames == old(out)@.len() / (old(self).device_channels_spec() as nat),
            final(out)@.len() == old(out)@.len(),
            final(self).delivered() == old(self).delivered() + frames_at(
                final(out)@,
                0,
                frames as nat,
                old(self).device_channels_spec() as nat,
            ),
            forall|k: int|
                frames * old(self).device_channels_spec() <= k < old(out)@.len() ==> final(out)@[k]
                    == old(out)@[k],
            final(src).log().len() == old(src).log().len() + blocks_needed(
                frames as nat,
                old(self).pending().len(),
                old(self).block_size_spec() as nat,
            ),
            final(src).log().subrange(0, old(src).log().len() as int) == old(src).log(),
            final(self).produced() == old(self).produced() + log_frames(
                final(src).log().subrange(old(src).log().len() as int, final(src).log().len() as int),
                old(self).block_size_spec() as nat,
                old(self).device_channels_spec() as nat,
                old(self).silence_spec(),
            ),
            frames > old(self).pending().len() ==> final(self).pending().len() < old(self).block_size_spec(),
    {
        let dc = self.carry.device_channels();
        let n = self.carry.block_size();
        proof {
            self.carry.lemma_at_most_one_block();
        }
        let len = out.len();
        let frames = len / dc;
        proof {
            vstd::arithmetic::div_mod::lemma_fundamental_div_mod(len as int, dc as int);
            assert(0 <= len % dc);
            assert(frames * dc <= len) by (nonlinear_arith)
                requires
                    len == dc * frames + len % dc,
                    0 <= len % dc,
            ;
        }
        let ghost pending0 = self.carry.pending();
        let ghost p0 = pending0.len() as int;
        let ghost log0 = src.log();
        let mut written = self.carry.drain(out, 0, frames);
        self.delivered = Ghost(self.delivered@ + frames_at(out@, 0, written as nat, dc as nat));
        proof {
            assert(frames_at(out@, 0, written as nat, dc as nat) == pending0.subrange(0, written as int));
            assert(self.produced@ =~= self.delivered@ + self.carry.pending());
            assert(src.log().subrange(0, log0.len() as int) =~= log0);
            assert(src.log().subrange(log0.len() as int, src.log().len() as int) =~= Seq::<(Vec<Vec<T>>, bool)>::empty());
            assert(self.produced@ =~= old(self).produced() + log_frames(Seq::<(Vec<Vec<T>>, bool)>::empty(), n as nat, dc as nat, self.carry.silence_spec()));
        }
        while written < frames
            invariant
                self.wf(),
                src.wf(),
                self.carry.block_size_spec() == n,
                self.carry.device_channels_spec() == dc,
                self.carry.silence_spec() == old(self).silence_spec(),
                n > 0,
                dc > 0,
                dc == old(self).device_channels_spec(),
                n == old(self).block_size_spec(),
                frames * dc <= len,
                len == old(out)@.len(),
                frames == len / dc,
                written <= frames,
                written < frames ==> self.carry.pending().len() == 0,
                out@.len() == old(out)@.len(),
                self.delivered@ == old(self).delivered() + frames_at(out@, 0, written as nat, dc as nat),
                forall|k: int| written * dc <= k < old(out)@.len() ==> out@[k] == old(out)@[k],
                log0 == old(src).log(),
                src.source() == old(src).source(),
                forall|j: int|
                    log0.len() <= j < src.log().len() ==> old(src).source().ensures(
                        (),
                        #[trigger] src.log()[j],
                    ),
                src.log().len() >= log0.len(),
                src.log().subrange(0, log0.len() as int) == log0,
                self.produced@ == old(self).produced() + log_frames(
                    src.log().subrange(log0.len() as int, src.log().len() as int),
                    n as nat,
                    dc as nat,
                    self.carry.silence_spec(),
                ),
                p0 == old(self).pending().len(),
                frames <= p0 ==> src.log().len() == log0.len() && written == frames,
                frames > p0 ==> {
                    let k = src.log().len() - log0.len();
                    &&& written - p0 <= k * n
                    &&& k * n < written - p0 + n
                    &&& (written == frames || written - p0 == k * n)
                },
                src.log().len() > log0.len() ==> self.carry.pending().len() < n,
            decreases frames - written,
        {
            let ghost log_before = src.log();
            let res = src.next_block();
            let ghost gres = res;
            let (block, failed) = res;
            let ghost fresh = source_frames(gres, n as nat, dc as nat, self.carry.silence_spec());
            if failed || !block_fits(&block, n) {
                self.carry.refill_silent(0);
            } else {
                self.carry.refill(block, 0);
            }
            assert(self.carry.pending() =~= fresh);
            let rest = frames - written;
            let count = if n <= rest { n } else { rest };
            proof {
                assert((written + count) * dc <= frames * dc) by (nonlinear_arith)
                    requires
                        written + count <= frames,
                        dc > 0,
                ;
            }
            let ghost out_before = out@;
            let taken = self.carry.drain(out, written, count);
            assert(taken == count);
            self.produced = Ghost(self.produced@ + fresh);
            self.delivered = Ghost(self.delivered@ + frames_at(out@, written as int, count as nat, dc as nat));
            proof {
                assert(written * dc <= (written + count) * dc) by (nonlinear_arith)
                    requires
                        dc > 0,
                ;
                lemma_frames_split(out@, written as nat, count as nat, dc as nat);
                assert forall|f: int| 0 <= f < written implies #[trigger] frames_at(out@, 0, written as nat, dc as nat)[f]
                    == frames_at(out_before, 0, written as nat, dc as nat)[f] by {
                    assert forall|c: int| 0 <= c < dc implies #[trigger] out@[(0 + f) * dc + c] == out_before[(0 + f) * dc + c] by {
                        crate::frames::lemma_sample_index(f, c, dc as int, written as int);
                        assert((0 + f) * dc == f * dc);
                    }
                    assert(frames_at(out@, 0, written as nat, dc as nat)[f] =~= frames_at(out_before, 0, written as nat, dc as nat)[f]);
                }
                assert(frames_at(out@, 0, written as nat, dc as nat) =~= frames_at(out_before, 0, written as nat, dc as nat));
                assert(fresh.subrange(0, count as int) + fresh.subrange(count as int, n as int) =~= fresh);
                assert(self.produced@ =~= (old(self).delivered() + frames_at(out@, 0, (written + count) as nat, dc as nat)) + self.carry.pending());
                let new_before = log_before.subrange(log0.len() as int, log_before.len() as int);
                let new_after = src.log().subrange(log0.len() as int, src.log().len() as int);
                assert(new_after =~= new_before.push(gres));
                lemma_log_frames_push(new_before, gres, n as nat, dc as nat, self.carry.silence_spec());
                assert(self.produced@ =~= old(self).produced() + log_frames(new_after, n as nat, dc as nat, self.carry.silence_spec()));
                assert(src.log().subrange(0, log0.len() as int) =~= log0);
                assert(self.delivered@ =~= old(self).delivered() + frames_at(out@, 0, (written + count) as nat, dc as nat));
                let k = log_before.len() - log0.len();
                assert((k + 1) * n == k * n + n) by (nonlinear_arith);
            }
            written = written + count;
        }
        proof {
            let k = src.log().len() - log0.len();
            if frames > p0 {
                lemma_calls_needed(frames - p0, n as int, k);
            }
        }
        frames
    }
}

/// The number of blocks a callback of `frames` frames takes from the source
/// when `pending` frames wait for it: none if they cover the callback, else
/// just enough whole blocks of `n` frames to cover the rest.
pub open spec fn blocks_needed(frames: nat, pending: nat, n: nat) -> nat {
    if frames <= pending {
        0
    } else {
        ((frames - pending + n - 1) as nat / n) as nat
    }
}

/// `k` blocks of `n` frames that cover `d` frames, one fewer not covering
/// them, are exactly the rounded-up quotient.
proof fn lemma_calls_needed(d: int, n: int, k: int)
    requires
        0 < d,
        0 < n,
        d <= k * n,
        k * n < d + n,
    ensures
        k == (d + n - 1) / n,
{
    vstd::arithmetic::div_mod::lemma_fundamental_div_mod_converse(d + n - 1, n, k, d + n - 1 - k * n);
}

} // verus!

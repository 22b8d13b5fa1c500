//! Frames of a multi-channel block, and how they are laid out in an
//! interleaved device buffer.
use vstd::prelude::*;

verus! {

/// A block holds at least one channel, each of exactly `n` samples.
pub open spec fn block_wf<T>(block: Seq<Vec<T>>, n: nat) -> bool {
    &&& block.len() > 0
    &&& forall|ch: int| 0 <= ch < block.len() ==> (#[trigger] block[ch])@.len() == n
}

/// Frame `i` of a block as the device sees it: device channel `c` takes block
/// channel `c % channels`, so a block with fewer channels than the device is
/// broadcast over the device channels.
pub open spec fn frame_at<T>(block: Seq<Vec<T>>, i: int, dc: nat) -> Seq<T> {
    Seq::new(dc, |c: int| block[c % (block.len() as int)]@[i])
}

/// All `n` frames of a block, in order.
pub open spec fn block_frames<T>(block: Seq<Vec<T>>, n: nat, dc: nat) -> Seq<Seq<T>> {
    Seq::new(n, |i: int| frame_at(block, i, dc))
}

/// A block of `n` frames whose samples are all `silence`.
pub open spec fn silent_frames<T>(n: nat, dc: nat, silence: T) -> Seq<Seq<T>> {
    Seq::new(n, |i: int| Seq::new(dc, |c: int| silence))
}

/// The `count` frames of an interleaved buffer that start at frame `start`,
/// with `dc` samples per frame.
pub open spec fn frames_at<T>(out: Seq<T>, start: int, count: nat, dc: nat) -> Seq<Seq<T>> {
    Seq::new(count, |f: int| Seq::new(dc, |c: int| out[(start + f) * dc + c]))
}

/// A single-channel block reaches every device channel: each sample of a
/// frame is the block's sample for that frame.
pub proof fn lemma_mono_broadcast<T>(block: Seq<Vec<T>>, n: nat, dc: nat)
    requires
        block.len() == 1,
    ensures
        forall|i: int, c: int|
            0 <= i < n && 0 <= c < dc ==> #[trigger] block_frames(block, n, dc)[i][c] == block[0]@[i],
{
    assert forall|i: int, c: int| 0 <= i < n && 0 <= c < dc implies #[trigger] block_frames(
        block,
        n,
        dc,
    )[i][c] == block[0]@[i] by {
        assert(c % 1 == 0);
    }
}

/// Sample `c` of frame `f` lies inside the first `w` frames, after those of
/// the frames before `f`.
pub proof fn lemma_sample_index(f: int, c: int, dc: int, w: int)
    requires
        0 <= f < w,
        0 <= c < dc,
    ensures
        0 <= f * dc <= f * dc + c < (f + 1) * dc <= w * dc,
        (f + 1) * dc == f * dc + dc,
        w <= w * dc,
{
    assert(0 <= f * dc) by (nonlinear_arith)
        requires
            0 <= f,
            0 <= dc,
    ;
    assert((f + 1) * dc == f * dc + dc) by (nonlinear_arith);
    assert((f + 1) * dc <= w * dc) by (nonlinear_arith)
        requires
            f + 1 <= w,
            0 <= dc,
    ;
    assert(w <= w * dc) by (nonlinear_arith)
        requires
            0 <= w,
            1 <= dc,
    ;
}

/// The first `a + b` frames are the first `a` followed by the `b` after them.
pub proof fn lemma_frames_split<T>(out: Seq<T>, a: nat, b: nat, dc: nat)
    ensures
        frames_at(out, 0, a + b, dc) == frames_at(out, 0, a, dc) + frames_at(out, a as int, b, dc),
{
    assert(frames_at(out, 0, a + b, dc) =~= frames_at(out, 0, a, dc) + frames_at(
        out,
        a as int,
        b,
        dc,
    )) by {
        assert forall|f: int| a <= f < a + b implies #[trigger] frames_at(out, 0, a + b, dc)[f]
            == frames_at(out, a as int, b, dc)[f - a] by {
            assert(frames_at(out, 0, a + b, dc)[f] =~= frames_at(out, a as int, b, dc)[f - a]);
        }
    }
}

/// Writes frame `i` of `block` into frame slot `at` of `out`.
fn write_frame<T: Copy>(out: &mut [T], at: usize, block: &Vec<Vec<T>>, n: usize, i: usize, dc: usize)
    requires
        block_wf(block@, n as nat),
        i < n,
        dc > 0,
        (at + 1) * dc <= old(out)@.len(),
    ensures
        final(out)@.len() == old(out)@.len(),
        forall|c: int| 0 <= c < dc ==> final(out)@[at * dc + c] == #[trigger] frame_at(block@, i as int, dc as nat)[c],
        forall|k: int|
            0 <= k < old(out)@.len() && !(at * dc <= k < at * dc + dc) ==> final(out)@[k] == old(out)@[k],
{
    proof {
        lemma_sample_index(at as int, 0, dc as int, at as int + 1);
    }
    let len = out.len();
    let base = at * dc;
    let channels = block.len();
    let mut c: usize = 0;
    while c < dc
        invariant
            block_wf(block@, n as nat),
            channels == block@.len(),
            i < n,
            base == at * dc,
            base + dc <= old(out)@.len(),
            len == old(out)@.len(),
            c <= dc,
            out@.len() == old(out)@.len(),
            forall|d: int| 0 <= d < c ==> out@[base + d] == #[trigger] frame_at(block@, i as int, dc as nat)[d],
            forall|k: int| 0 <= k < old(out)@.len() && !(base <= k < base + c) ==> out@[k] == old(out)@[k],
        decreases dc - c,
    {
        let ch = c % channels;
        assert(block@[ch as int]@.len() == n);
        out[base + c] = block[ch][i];
        c += 1;
    }
}

/// Copies frames `from .. from + count` of `block` into `out`, starting at
/// frame slot `at`; every other sample of `out` is kept.
pub fn copy_frames<T: Copy>(
    out: &mut [T],
    at: usize,
    block: &Vec<Vec<T>>,
    n: usize,
    from: usize,
    count: usize,
    dc: usize,
)
    requires
        block_wf(block@, n as nat),
        from + count <= n,
        dc > 0,
        (at + count) * dc <= old(out)@.len(),
    ensures
        final(out)@.len() == old(out)@.len(),
        frames_at(final(out)@, at as int, count as nat, dc as nat) == block_frames(
            block@,
            n as nat,
            dc as nat,
        ).subrange(from as int, from + count),
        forall|k: int|
            0 <= k < old(out)@.len() && !(at * dc <= k < (at + count) * dc) ==> final(out)@[k]
                == old(out)@[k],
{
    let len = out.len();
    let mut j: usize = 0;
    while j < count
        invariant
            block_wf(block@, n as nat),
            from + count <= n,
            dc > 0,
            (at + count) * dc <= old(out)@.len(),
            len == old(out)@.len(),
            j <= count,
            out@.len() == old(out)@.len(),
            frames_at(out@, at as int, j as nat, dc as nat) == block_frames(
                block@,
                n as nat,
                dc as nat,
            ).subrange(from as int, from + j),
            forall|k: int|
                0 <= k < old(out)@.len() && !(at * dc <= k < (at + j) * dc) ==> out@[k]
                    == old(out)@[k],
        decreases count - j,
    {
        proof {
            lemma_sample_index(at + j, 0, dc as int, at + count);
            lemma_sample_index(j as int, 0, dc as int, count as int);
            assert(at * dc + j * dc == (at + j) * dc) by (nonlinear_arith);
            assert((at + j) * dc + dc == (at + j + 1) * dc) by (nonlinear_arith);
        }
        let ghost before = out@;
        write_frame(out, at + j, block, n, from + j, dc);
        proof {
            let bf = block_frames(block@, n as nat, dc as nat);
            assert forall|f: int| 0 <= f < j implies #[trigger] frames_at(out@, at as int, (j + 1) as nat, dc as nat)[f]
                == frames_at(before, at as int, j as nat, dc as nat)[f] by {
                assert forall|c: int| 0 <= c < dc implies #[trigger] out@[(at + f) * dc + c] == before[(at + f) * dc + c] by {
                    lemma_sample_index(at + f, c, dc as int, at + j);
                }
                assert(frames_at(out@, at as int, (j + 1) as nat, dc as nat)[f] =~= frames_at(before, at as int, j as nat, dc as nat)[f]);
            }
            assert(frames_at(out@, at as int, (j + 1) as nat, dc as nat)[j as int] =~= bf[from + j]);
            assert(frames_at(out@, at as int, (j + 1) as nat, dc as nat) =~= bf.subrange(from as int, from + j + 1));
        }
        j += 1;
    }
}

/// A single channel of silence gives silent frames on every device channel.
pub proof fn lemma_silent_block_frames<T>(b: Seq<Vec<T>>, n: nat, dc: nat, silence: T)
    requires
        b.len() == 1,
        forall|i: int| 0 <= i < n ==> #[trigger] b[0]@[i] == silence,
    ensures
        block_frames(b, n, dc) == silent_frames(n, dc, silence),
{
    assert forall|i: int| 0 <= i < n implies #[trigger] block_frames(b, n, dc)[i] == silent_frames(
        n,
        dc,
        silence,
    )[i] by {
        assert forall|c: int| 0 <= c < dc implies #[trigger] frame_at(b, i, dc)[c] == silence by {
            assert(c % 1 == 0);
        }
        assert(block_frames(b, n, dc)[i] =~= silent_frames(n, dc, silence)[i]);
    }
    assert(block_frames(b, n, dc) =~= silent_frames(n, dc, silence));
}

/// One channel of `n` silent samples.
pub(crate) fn silent_block<T: Copy>(n: usize, silence: T) -> (r: Vec<Vec<T>>)
    requires
        n > 0,
    ensures
        block_wf(r@, n as nat),
        r@.len() == 1,
        forall|i: int| 0 <= i < n ==> #[trigger] r@[0]@[i] == silence,
{
    let mut channel: Vec<T> = Vec::new();
    let mut i: usize = 0;
    while i < n
        invariant
            i <= n,
            channel@.len() == i,
            forall|j: int| 0 <= j < i ==> #[trigger] channel@[j] == silence,
        decreases n - i,
    {
        channel.push(silence);
        i += 1;
    }
    let mut r: Vec<Vec<T>> = Vec::new();
    r.push(channel);
    r
}

} // verus!

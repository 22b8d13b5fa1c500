//! A block source, and the record of every result it has handed out.
use vstd::prelude::*;
use crate::frames::{block_frames, block_wf, silent_frames};

verus! {

/// The frames a block source contributes for one of its results: the block's
/// own frames, or silence where the source signalled a failure or handed back
/// a block of the wrong shape.
pub open spec fn source_frames<T>(res: (Vec<Vec<T>>, bool), n: nat, dc: nat, silence: T) -> Seq<Seq<T>> {
    if !res.1 && block_wf(res.0@, n) {
        block_frames(res.0@, n, dc)
    } else {
        silent_frames(n, dc, silence)
    }
}

/// The frames of a run of source results, one block after another, in the
/// order the results were handed out.
pub open spec fn log_frames<T>(entries: Seq<(Vec<Vec<T>>, bool)>, n: nat, dc: nat, silence: T) -> Seq<Seq<T>>
    decreases entries.len(),
{
    if entries.len() == 0 {
        Seq::empty()
    } else {
        log_frames(entries.drop_last(), n, dc, silence) + source_frames(entries.last(), n, dc, silence)
    }
}

/// One more result adds its block's frames at the end.
pub proof fn lemma_log_frames_push<T>(
    entries: Seq<(Vec<Vec<T>>, bool)>,
    res: (Vec<Vec<T>>, bool),
    n: nat,
    dc: nat,
    silence: T,
)
    ensures
        log_frames(entries.push(res), n, dc, silence) == log_frames(entries, n, dc, silence)
            + source_frames(res, n, dc, silence),
{
    assert(entries.push(res).drop_last() =~= entries);
}

/// The results of a run give `n` frames each, and the frames of result `j`
/// are the `j`-th run of `n` frames: a failed result gives silence there.
pub proof fn lemma_log_frames_blocks<T>(
    entries: Seq<(Vec<Vec<T>>, bool)>,
    n: nat,
    dc: nat,
    silence: T,
)
    ensures
        log_frames(entries, n, dc, silence).len() == entries.len() * n,
        forall|j: int|
            0 <= j < entries.len() ==> log_frames(entries, n, dc, silence).subrange(
                j * n,
                j * n + n,
            ) == #[trigger] source_frames(entries[j], n, dc, silence),
    decreases entries.len(),
{
    if entries.len() > 0 {
        let front = entries.drop_last();
        lemma_log_frames_blocks(front, n, dc, silence);
        let all = log_frames(entries, n, dc, silence);
        let head = log_frames(front, n, dc, silence);
        assert(front.len() * n + n == entries.len() * n) by (nonlinear_arith)
            requires
                front.len() + 1 == entries.len(),
        ;
        assert forall|j: int| 0 <= j < entries.len() implies all.subrange(j * n, j * n + n)
            == #[trigger] source_frames(entries[j], n, dc, silence) by {
            if j < front.len() {
                assert(j * n + n <= front.len() * n) by (nonlinear_arith)
                    requires
                        j + 1 <= front.len(),
                ;
                assert(0 <= j * n) by (nonlinear_arith)
                    requires
                        0 <= j,
                ;
                assert(front[j] == entries[j]);
                assert(all.subrange(j * n, j * n + n) =~= head.subrange(j * n, j * n + n));
            } else {
                assert(j * n == front.len() * n);
                assert(all.subrange(j * n, j * n + n) =~= source_frames(entries.last(), n, dc, silence));
            }
        }
    }
}

/// Wherever in a run the source signalled a failure, the run holds a whole
/// block of silence in that result's place.
pub proof fn lemma_failed_result_is_silent<T>(
    entries: Seq<(Vec<Vec<T>>, bool)>,
    n: nat,
    dc: nat,
    silence: T,
    j: int,
)
    requires
        0 <= j < entries.len(),
        entries[j].1,
    ensures
        log_frames(entries, n, dc, silence).subrange(j * n, j * n + n) == silent_frames(n, dc, silence),
{
    lemma_log_frames_blocks(entries, n, dc, silence);
    assert(source_frames(entries[j], n, dc, silence) == silent_frames(n, dc, silence));
}

/// A source of blocks, with the record of every result it has handed out.
pub struct BlockLog<T, F> {
    source: F,
    log: Ghost<Seq<(Vec<Vec<T>>, bool)>>,
}

impl<T, F: Fn() -> (Vec<Vec<T>>, bool)> BlockLog<T, F> {
    /// The source may always be called.
    pub closed spec fn wf(&self) -> bool {
        self.source.requires(())
    }

    /// The function that computes the blocks.
    pub closed spec fn source(&self) -> F {
        self.source
    }

    /// The results handed out so far, in the order of the calls.
    pub closed spec fn log(&self) -> Seq<(Vec<Vec<T>>, bool)> {
        self.log@
    }

    /// A source that has handed out nothing yet.
    pub fn new(source: F) -> (r: Self)
        requires
            source.requires(()),
        ensures
            r.wf(),
            r.source() == source,
            r.log().len() == 0,
    {
        BlockLog { source, log: Ghost(Seq::empty()) }
    }

    /// Takes the next block from the source: its samples, one vector per
    /// channel, and whether the source signalled a failure computing it.
    pub fn next_block(&mut self) -> (r: (Vec<Vec<T>>, bool))
        requires
            old(self).wf(),
        ensures
            final(self).wf(),
            final(self).source() == old(self).source(),
            old(self).source().ensures((), r),
            final(self).log() == old(self).log().push(r),
    {
        let r = (self.source)();
        self.log = Ghost(self.log@.push(r));
        r
    }
}

} // verus!

//! Adding the chunks of a document to the vector index of its project.
//!
//! The index and the table of chunks are elsewhere. This decides what is done
//! next, and counts what was done.

use vstd::prelude::*;

use crate::settings::is_on;

verus! {

/// Whether a document is added to the index at all: vectors are switched on, and
/// there is a key for the service that makes them.
pub fn wants_vectors(enabled: &str, api_key: &str) -> (r: bool)
    ensures
        r == (enabled@ == "true"@ && api_key@.len() > 0),
{
    is_on(enabled) && !api_key.is_empty()
}

/// What is done next.
#[derive(Clone, Copy, PartialEq, Eq, Structural, Debug)]
pub enum VectorStep {
    /// Add this chunk to the index.
    Add(usize),
    /// Mark this chunk, which was added, as being in the index.
    Mark(usize),
    /// Write the index to disk.
    Sync,
    /// Nothing.
    Done,
}

/// How far the chunks of a document have been added.
#[derive(Clone, Copy, Debug)]
pub struct Vectorizing {
    chunks: usize,
    step: VectorStep,
    vectorized: i32,
}

/// How far the chunks of a document have been added: how many there are, what is
/// done next, and how many are in the index and marked.
pub struct VectorizingView {
    pub chunks: int,
    pub step: VectorStep,
    pub vectorized: int,
}

impl View for Vectorizing {
    type V = VectorizingView;

    closed spec fn view(&self) -> VectorizingView {
        VectorizingView {
            chunks: self.chunks as int,
            step: self.step,
            vectorized: self.vectorized as int,
        }
    }
}

/// What is done after a chunk.
pub open spec fn after_chunk(chunks: int, i: usize) -> VectorStep {
    if i + 1 < chunks {
        VectorStep::Add((i + 1) as usize)
    } else {
        VectorStep::Sync
    }
}

/// How far the chunks have been added after a step, which succeeded or not. A
/// chunk counts once it was added and marked; one that fails is passed over.
pub open spec fn advanced(v: VectorizingView, ok: bool) -> VectorizingView {
    match v.step {
        VectorStep::Add(i) => VectorizingView {
            step: if ok {
                VectorStep::Mark(i)
            } else {
                after_chunk(v.chunks, i)
            },
            ..v
        },
        VectorStep::Mark(i) => VectorizingView {
            step: after_chunk(v.chunks, i),
            vectorized: if ok {
                v.vectorized + 1
            } else {
                v.vectorized
            },
            ..v
        },
        VectorStep::Sync => VectorizingView { step: VectorStep::Done, ..v },
        VectorStep::Done => v,
    }
}

/// Before the first of some chunks was added.
pub open spec fn untouched(chunks: int) -> VectorizingView {
    VectorizingView {
        chunks,
        step: if chunks > 0 {
            VectorStep::Add(0)
        } else {
            VectorStep::Done
        },
        vectorized: 0,
    }
}

impl Vectorizing {
    /// What holds between steps: no more chunks are counted than were passed.
    pub closed spec fn wf(self) -> bool {
        &&& self.chunks <= i32::MAX
        &&& 0 <= self.vectorized
        &&& match self.step {
            VectorStep::Add(i) => self.vectorized <= i && i < self.chunks,
            VectorStep::Mark(i) => self.vectorized <= i && i < self.chunks,
            VectorStep::Sync => self.vectorized <= self.chunks,
            VectorStep::Done => self.vectorized <= self.chunks,
        }
    }

    /// Begins with the first chunk. There is nothing to do where there is none.
    pub fn new(chunks: usize) -> (r: Vectorizing)
        requires
            chunks <= i32::MAX,
        ensures
            r.wf(),
            r@ == untouched(chunks as int),
    {
        Vectorizing {
            chunks,
            step: if chunks > 0 {
                VectorStep::Add(0)
            } else {
                VectorStep::Done
            },
            vectorized: 0,
        }
    }

    /// What is done next.
    pub fn step(&self) -> (r: VectorStep)
        ensures
            r == self@.step,
    {
        self.step
    }

    /// How many chunks are in the index and marked.
    pub fn vectorized(&self) -> (r: i32)
        ensures
            r == self@.vectorized,
    {
        self.vectorized
    }

    /// Takes note of whether the step succeeded.
    pub fn report(&mut self, ok: bool)
        requires
            old(self).wf(),
        ensures
            final(self).wf(),
            final(self)@ == advanced(old(self)@, ok),
    {
        match self.step {
            VectorStep::Add(i) => {
                self.step = if ok {
                    VectorStep::Mark(i)
                } else if i + 1 < self.chunks {
                    VectorStep::Add(i + 1)
                } else {
                    VectorStep::Sync
                };
            },
            VectorStep::Mark(i) => {
                if ok {
                    self.vectorized = self.vectorized + 1;
                }
                self.step = if i + 1 < self.chunks {
                    VectorStep::Add(i + 1)
                } else {
                    VectorStep::Sync
                };
            },
            VectorStep::Sync => {
                self.step = VectorStep::Done;
            },
            VectorStep::Done => {},
        }
    }
}

// ---------------------------------------------------------------------------
// Laws
// ---------------------------------------------------------------------------

/// What became of a chunk: whether it could be added, and then be marked.
pub struct Attempt {
    pub added: bool,
    pub marked: bool,
}

/// How far the chunks have been added after one chunk was tried.
pub open spec fn tried(v: VectorizingView, a: Attempt) -> VectorizingView {
    if a.added {
        advanced(advanced(v, true), a.marked)
    } else {
        advanced(v, false)
    }
}

/// How far the chunks have been added after some chunks were tried in order.
pub open spec fn tried_all(v: VectorizingView, attempts: Seq<Attempt>) -> VectorizingView
    decreases attempts.len(),
{
    if attempts.len() == 0 {
        v
    } else {
        tried(tried_all(v, attempts.drop_last()), attempts.last())
    }
}

/// How many attempts succeeded in both steps.
pub open spec fn successes(attempts: Seq<Attempt>) -> int
    decreases attempts.len(),
{
    if attempts.len() == 0 {
        0
    } else {
        successes(attempts.drop_last()) + if attempts.last().added && attempts.last().marked {
            1int
        } else {
            0int
        }
    }
}

proof fn lemma_tried(chunks: int, attempts: Seq<Attempt>)
    requires
        0 < chunks <= i32::MAX,
        attempts.len() <= chunks,
    ensures
        tried_all(untouched(chunks), attempts) == (VectorizingView {
            chunks,
            step: if attempts.len() < chunks {
                VectorStep::Add(attempts.len() as usize)
            } else {
                VectorStep::Sync
            },
            vectorized: successes(attempts),
        }),
    decreases attempts.len(),
{
    if attempts.len() > 0 {
        lemma_tried(chunks, attempts.drop_last());
    }
}

/// One chunk that fails does not stop the others: once each chunk was tried, the
/// index is written to disk, and the count is that of the chunks that were both
/// added and marked.
pub proof fn law_every_chunk_is_tried(chunks: int, attempts: Seq<Attempt>)
    requires
        0 < chunks <= i32::MAX,
        attempts.len() == chunks,
    ensures
        ({
            let end = tried_all(untouched(chunks), attempts);
            &&& end.step == VectorStep::Sync
            &&& end.vectorized == successes(attempts)
            &&& forall|ok: bool|
                (#[trigger] advanced(end, ok)).step == VectorStep::Done && advanced(
                    end,
                    ok,
                ).vectorized == successes(attempts)
        }),
{
    lemma_tried(chunks, attempts);
}

/// The chunks are tried in order, one after the other: once some were tried, whatever came
/// of them, the next one is added.
pub proof fn law_the_next_chunk_comes_next(chunks: int, attempts: Seq<Attempt>)
    requires
        0 < chunks <= i32::MAX,
        attempts.len() < chunks,
    ensures
        ({
            let now = tried_all(untouched(chunks), attempts);
            &&& now.step == VectorStep::Add(attempts.len() as usize)
            &&& now.vectorized == successes(attempts)
            &&& advanced(now, true).step == VectorStep::Mark(attempts.len() as usize)
            &&& advanced(now, true).vectorized == now.vectorized
            &&& advanced(now, false).vectorized == now.vectorized
        }),
{
    lemma_tried(chunks, attempts);
}

/// Without chunks there is nothing to do, and once nothing is left to do nothing changes.
pub proof fn law_nothing_is_done_without_chunks(v: VectorizingView, ok: bool)
    ensures
        untouched(0).step == VectorStep::Done,
        untouched(0).vectorized == 0,
        v.step == VectorStep::Done ==> advanced(v, ok) == v,
        advanced(v, ok).chunks == v.chunks,
{
}

/// Nothing is added without a key, nor where vectors are not switched on by the exact word.
pub proof fn law_vectors_need_a_key(enabled: &str, api_key: &str, r: bool)
    requires
        call_ensures(wants_vectors, (enabled, api_key), r),
    ensures
        api_key@.len() == 0 ==> !r,
        r ==> enabled@ == "true"@,
        enabled@ == "true"@ && api_key@.len() > 0 ==> r,
{
}

} // verus!

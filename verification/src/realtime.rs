//! Cutting a running recording into chunks to transcribe.

use vstd::prelude::*;

use crate::text::{is_blank, stripped, text_in};

verus! {

/// How many quiet polls in a row end a chunk early.
pub const QUIET_POLLS: usize = 10;

/// The longest chunk, in seconds.
pub const CHUNK_SECONDS: u64 = 3;

/// The shortest chunk that silence may end, in seconds.
pub const MIN_CHUNK_SECONDS: u64 = 2;

/// Sound that waits to become a chunk. Counts the samples handed out so far, which
/// is the recording's own clock: it cannot drift when transcription lags.
#[derive(Debug)]
pub struct Chunker<T> {
    pending: Vec<T>,
    pending_system: Vec<T>,
    quiet: usize,
    consumed: u64,
}

/// A piece of the recording to transcribe, with its place in milliseconds.
#[derive(Debug)]
pub struct Chunk<T> {
    pub samples: Vec<T>,
    pub system: Vec<T>,
    pub start_ms: u64,
    pub end_ms: u64,
}

/// What a chunk holds.
#[verifier::ext_equal]
pub struct ChunkView<T> {
    pub samples: Seq<T>,
    pub system: Seq<T>,
    pub start_ms: int,
    pub end_ms: int,
}

impl<T> View for Chunk<T> {
    type V = ChunkView<T>;

    open spec fn view(&self) -> ChunkView<T> {
        ChunkView {
            samples: self.samples@,
            system: self.system@,
            start_ms: self.start_ms as int,
            end_ms: self.end_ms as int,
        }
    }
}

/// What is known of an optional chunk.
pub open spec fn chunk_in<T>(c: Option<Chunk<T>>) -> Option<ChunkView<T>> {
    match c {
        Some(c) => Some(c@),
        None => None,
    }
}

/// Sound that waits to become a chunk: the samples of the microphone and of the
/// system, the number of quiet polls, and the number of samples handed out.
#[verifier::ext_equal]
pub struct ChunkerView<T> {
    pub pending: Seq<T>,
    pub system: Seq<T>,
    pub quiet: int,
    pub consumed: int,
}

impl<T> View for Chunker<T> {
    type V = ChunkerView<T>;

    closed spec fn view(&self) -> ChunkerView<T> {
        ChunkerView {
            pending: self.pending@,
            system: self.pending_system@,
            quiet: self.quiet as int,
            consumed: self.consumed as int,
        }
    }
}

/// Before anything was recorded.
pub open spec fn nothing_recorded<T>() -> ChunkerView<T> {
    ChunkerView { pending: Seq::empty(), system: Seq::empty(), quiet: 0, consumed: 0 }
}

/// What one poll of the sound buffers brought.
#[verifier::ext_equal]
pub struct Poll<T> {
    pub samples: Seq<T>,
    pub system: Seq<T>,
    pub rate: u32,
    pub quiet: bool,
}

/// Whether that many samples, after that many quiet polls, make a chunk: three
/// seconds do, and so do two once it has been quiet for a while.
pub open spec fn is_due(samples: int, quiet: int, rate: u32) -> bool {
    samples >= rate * CHUNK_SECONDS || (quiet >= QUIET_POLLS && samples >= rate
        * MIN_CHUNK_SECONDS)
}

/// A place in the recording in milliseconds.
pub open spec fn at_ms(samples: int, rate: u32) -> int {
    samples * 1000 / (rate as int)
}

/// Quiet polls in a row after one more.
pub open spec fn quiet_after(quiet: int, now: bool) -> int {
    if now {
        quiet + 1
    } else {
        0
    }
}

/// What waits after a poll, and the chunk that it completed.
pub open spec fn polled<T>(v: ChunkerView<T>, p: Poll<T>) -> (
    ChunkerView<T>,
    Option<ChunkView<T>>,
) {
    let held = ChunkerView {
        pending: v.pending + p.samples,
        system: v.system + p.system,
        ..v
    };
    if p.samples.len() == 0 || p.rate == 0 {
        (held, None)
    } else if is_due(held.pending.len() as int, quiet_after(v.quiet, p.quiet), p.rate) {
        (
            ChunkerView {
                pending: Seq::empty(),
                system: Seq::empty(),
                quiet: 0,
                consumed: v.consumed + held.pending.len(),
            },
            Some(
                ChunkView {
                    samples: held.pending,
                    system: held.system,
                    start_ms: at_ms(v.consumed, p.rate),
                    end_ms: at_ms(v.consumed + held.pending.len(), p.rate),
                },
            ),
        )
    } else {
        (ChunkerView { quiet: quiet_after(v.quiet, p.quiet), ..held }, None)
    }
}

fn is_due_now(samples: usize, quiet: usize, rate: u32) -> (r: bool)
    ensures
        r == is_due(samples as int, quiet as int, rate),
{
    let n: u64 = samples as u64;
    n >= rate as u64 * CHUNK_SECONDS || (quiet >= QUIET_POLLS && n >= rate as u64
        * MIN_CHUNK_SECONDS)
}

impl<T> Chunker<T> {
    /// What holds between polls: each quiet poll brought a sample that still waits.
    pub closed spec fn wf(self) -> bool {
        self.quiet <= self.pending@.len()
    }

    /// Nothing recorded yet.
    pub fn new() -> (r: Chunker<T>)
        ensures
            r.wf(),
            r@ == nothing_recorded::<T>(),
    {
        Chunker { pending: Vec::new(), pending_system: Vec::new(), quiet: 0, consumed: 0 }
    }

    /// How many samples were handed out or wait to be.
    pub fn recorded(&self) -> (r: u128)
        ensures
            r == self@.consumed + self@.pending.len(),
    {
        self.consumed as u128 + self.pending.len() as u128
    }

    /// Takes in what a poll of the sound buffers brought, and hands out a chunk
    /// once there is enough of it. The rate is zero until the device is known.
    pub fn poll(&mut self, samples: Vec<T>, system: Vec<T>, rate: u32, quiet: bool) -> (r: Option<
        Chunk<T>,
    >)
        requires
            old(self).wf(),
            (old(self)@.consumed + old(self)@.pending.len() + samples@.len()) * 1000 <= u64::MAX,
        ensures
            final(self).wf(),
            (final(self)@, chunk_in(r)) == polled(
                old(self)@,
                (Poll { samples: samples@, system: system@, rate, quiet }),
            ),
    {
        let mut samples = samples;
        let mut system = system;
        let none_new = samples.len() == 0;
        self.pending_system.append(&mut system);
        self.pending.append(&mut samples);
        if none_new || rate == 0 {
            return None;
        }
        let waiting: usize = self.pending.len();
        let quiet_polls: usize = if quiet {
            self.quiet + 1
        } else {
            0
        };
        self.quiet = quiet_polls;
        if !is_due_now(waiting, quiet_polls, rate) {
            return None;
        }
        let mut chunk: Vec<T> = Vec::new();
        chunk.append(&mut self.pending);
        let mut chunk_system: Vec<T> = Vec::new();
        chunk_system.append(&mut self.pending_system);
        self.quiet = 0;
        let start_ms: u64 = self.consumed * 1000 / rate as u64;
        self.consumed = self.consumed + chunk.len() as u64;
        let end_ms: u64 = self.consumed * 1000 / rate as u64;
        Some(Chunk { samples: chunk, system: chunk_system, start_ms, end_ms })
    }
}

// ---------------------------------------------------------------------------
// Transcribing a chunk
// ---------------------------------------------------------------------------

/// Whether there is anything to transcribe. Silence is left out: a model that is
/// given silence makes something up.
pub fn is_worth_transcribing(device_rate: u32, samples: usize, silent: bool) -> (r: bool)
    ensures
        r == (device_rate != 0 && samples > 0 && !silent),
{
    device_rate != 0 && samples > 0 && !silent
}

/// The text that came of a chunk: none where the model failed or heard nothing.
pub fn transcribed(outcome: Option<String>) -> (r: Option<String>)
    ensures
        text_in(r) == match text_in(outcome) {
            Some(text) => if text.len() > 0 {
                Some(text)
            } else {
                None
            },
            None => None,
        },
{
    match outcome {
        Some(text) => if text.as_str().is_empty() {
            None
        } else {
            Some(text)
        },
        None => None,
    }
}

/// The text that came of a trial recording: none where the model failed or what
/// it heard is blank.
pub fn transcribed_for_test(outcome: Option<String>) -> (r: Option<String>)
    ensures
        text_in(r) == match text_in(outcome) {
            Some(text) => if stripped(text).len() > 0 {
                Some(text)
            } else {
                None
            },
            None => None,
        },
{
    match outcome {
        Some(text) => if is_blank(text.as_str()) {
            None
        } else {
            Some(text)
        },
        None => None,
    }
}

// ---------------------------------------------------------------------------
// Laws
// ---------------------------------------------------------------------------

/// What waits after a row of polls.
pub open spec fn after_polls<T>(v: ChunkerView<T>, polls: Seq<Poll<T>>) -> ChunkerView<T>
    decreases polls.len(),
{
    if polls.len() == 0 {
        v
    } else {
        polled(after_polls(v, polls.drop_last()), polls.last()).0
    }
}

/// The chunks that came of a row of polls.
pub open spec fn chunks_of<T>(v: ChunkerView<T>, polls: Seq<Poll<T>>) -> Seq<ChunkView<T>>
    decreases polls.len(),
{
    if polls.len() == 0 {
        Seq::empty()
    } else {
        match polled(after_polls(v, polls.drop_last()), polls.last()).1 {
            Some(c) => chunks_of(v, polls.drop_last()).push(c),
            None => chunks_of(v, polls.drop_last()),
        }
    }
}

/// The samples of a row of chunks, one chunk after the other.
pub open spec fn samples_of<T>(chunks: Seq<ChunkView<T>>) -> Seq<T>
    decreases chunks.len(),
{
    if chunks.len() == 0 {
        Seq::empty()
    } else {
        samples_of(chunks.drop_last()) + chunks.last().samples
    }
}

/// The samples that a row of polls brought.
pub open spec fn brought<T>(polls: Seq<Poll<T>>) -> Seq<T>
    decreases polls.len(),
{
    if polls.len() == 0 {
        Seq::empty()
    } else {
        brought(polls.drop_last()) + polls.last().samples
    }
}

/// No sound is lost or heard twice: the chunks, one after the other, and then what
/// still waits are what waited at first and then what the polls brought, sample
/// for sample. The clock stands at the number of samples handed out.
pub proof fn law_chunks_are_the_recording<T>(v: ChunkerView<T>, polls: Seq<Poll<T>>)
    ensures
        samples_of(chunks_of(v, polls)) + after_polls(v, polls).pending == v.pending + brought(
            polls,
        ),
        after_polls(v, polls).consumed == v.consumed + samples_of(chunks_of(v, polls)).len(),
    decreases polls.len(),
{
    if polls.len() > 0 {
        let less = polls.drop_last();
        law_chunks_are_the_recording(v, less);
        let chunks = chunks_of(v, less);
        let now = after_polls(v, less);
        let (next, chunk) = polled(now, polls.last());
        let sum = v.pending + brought(less);
        assert(sum + polls.last().samples =~= v.pending + brought(polls));
        match chunk {
            Some(c) => {
                assert(chunks.push(c).drop_last() =~= chunks);
                assert(samples_of(chunks.push(c)) =~= samples_of(chunks) + c.samples);
                assert(samples_of(chunks) + (now.pending + polls.last().samples) =~= sum
                    + polls.last().samples);
                assert(samples_of(chunks.push(c)) + next.pending =~= sum + polls.last().samples);
            },
            None => {
                assert(samples_of(chunks) + (now.pending + polls.last().samples) =~= sum
                    + polls.last().samples);
            },
        }
    } else {
        assert(v.pending + brought(polls) =~= v.pending);
        assert(samples_of(chunks_of(v, polls)) + v.pending =~= v.pending);
    }
}

/// Timings have no gaps: at one rate, a chunk begins where the one before it
/// ended, and the first begins where the clock stood.
pub proof fn law_chunks_follow_each_other<T>(v: ChunkerView<T>, polls: Seq<Poll<T>>, rate: u32)
    requires
        rate > 0,
        forall|i: int| 0 <= i < polls.len() ==> (#[trigger] polls[i]).rate == rate,
    ensures
        ({
            let chunks = chunks_of(v, polls);
            &&& chunks.len() > 0 ==> chunks[0].start_ms == at_ms(v.consumed, rate)
            &&& forall|i: int|
                0 < i < chunks.len() ==> (#[trigger] chunks[i]).start_ms == chunks[i - 1].end_ms
            &&& at_ms(after_polls(v, polls).consumed, rate) == if chunks.len() > 0 {
                chunks.last().end_ms
            } else {
                at_ms(v.consumed, rate)
            }
        }),
    decreases polls.len(),
{
    if polls.len() > 0 {
        let less = polls.drop_last();
        assert forall|i: int| 0 <= i < less.len() implies (#[trigger] less[i]).rate == rate by {
            assert(less[i] == polls[i]);
        }
        law_chunks_follow_each_other(v, less, rate);
        assert(polls.last().rate == rate);
    }
}

/// A chunk is long enough to transcribe: it holds at least two seconds of the
/// microphone.
pub proof fn law_chunks_are_long_enough<T>(v: ChunkerView<T>, p: Poll<T>)
    ensures
        polled(v, p).1 matches Some(c) ==> c.samples.len() >= p.rate * MIN_CHUNK_SECONDS,
        polled(v, p).0.pending.len() < p.rate * CHUNK_SECONDS || p.rate == 0 || p.samples.len() == 0
            || polled(v, p).1 is Some,
{
    assert(p.rate * CHUNK_SECONDS >= p.rate * MIN_CHUNK_SECONDS) by (nonlinear_arith)
        requires
            CHUNK_SECONDS == 3,
            MIN_CHUNK_SECONDS == 2,
    ;
}

/// The recording is its own clock: at one rate, every chunk starts at the time of all
/// samples in the chunks before it, and ends at that of those and its own. Each holds
/// at least two seconds, and the chunks one after the other are the beginning of what
/// was recorded.
pub proof fn law_chunks_keep_the_recordings_time<T>(polls: Seq<Poll<T>>, rate: u32)
    requires
        rate > 0,
        forall|i: int| 0 <= i < polls.len() ==> (#[trigger] polls[i]).rate == rate,
    ensures
        ({
            let chunks = chunks_of(nothing_recorded(), polls);
            &&& forall|k: int|
                #![trigger chunks[k]]
                0 <= k < chunks.len() ==> {
                    let before = samples_of(chunks.take(k)).len() as int;
                    &&& chunks[k].start_ms == at_ms(before, rate)
                    &&& chunks[k].end_ms == at_ms(before + chunks[k].samples.len(), rate)
                    &&& chunks[k].samples.len() >= rate * MIN_CHUNK_SECONDS
                }
            &&& samples_of(chunks).is_prefix_of(brought(polls))
        }),
    decreases polls.len(),
{
    let start = nothing_recorded::<T>();
    let chunks = chunks_of(start, polls);
    law_chunks_are_the_recording(start, polls);
    assert(start.pending + brought(polls) =~= brought(polls));
    assert(samples_of(chunks) =~= brought(polls).take(samples_of(chunks).len() as int));
    if polls.len() > 0 {
        let less = polls.drop_last();
        assert forall|i: int| 0 <= i < less.len() implies (#[trigger] less[i]).rate == rate by {
            assert(less[i] == polls[i]);
        }
        law_chunks_keep_the_recordings_time(less, rate);
        law_chunks_are_the_recording(start, less);
        let earlier = chunks_of(start, less);
        let now = after_polls(start, less);
        assert(polls[polls.len() - 1].rate == rate);
        law_chunks_are_long_enough(now, polls.last());
        assert forall|k: int| #![trigger chunks[k]] 0 <= k < chunks.len() implies {
            let before = samples_of(chunks.take(k)).len() as int;
            &&& chunks[k].start_ms == at_ms(before, rate)
            &&& chunks[k].end_ms == at_ms(before + chunks[k].samples.len(), rate)
            &&& chunks[k].samples.len() >= rate * MIN_CHUNK_SECONDS
        } by {
            if k < earlier.len() {
                assert(chunks[k] == earlier[k]);
                assert(chunks.take(k) =~= earlier.take(k));
            } else {
                assert(chunks.take(k) =~= earlier);
            }
        }
    }
}

/// The samples of the speakers in a row of chunks, one chunk after the other.
pub open spec fn system_of<T>(chunks: Seq<ChunkView<T>>) -> Seq<T>
    decreases chunks.len(),
{
    if chunks.len() == 0 {
        Seq::empty()
    } else {
        system_of(chunks.drop_last()) + chunks.last().system
    }
}

/// The samples of the speakers that a row of polls brought.
pub open spec fn brought_by_speakers<T>(polls: Seq<Poll<T>>) -> Seq<T>
    decreases polls.len(),
{
    if polls.len() == 0 {
        Seq::empty()
    } else {
        brought_by_speakers(polls.drop_last()) + polls.last().system
    }
}

/// No sound of the speakers is lost or heard twice: their part of the chunks, one after
/// the other, and then what still waits are what waited at first and then what the polls
/// brought of them, sample for sample.
pub proof fn law_chunks_hold_the_speakers<T>(v: ChunkerView<T>, polls: Seq<Poll<T>>)
    ensures
        system_of(chunks_of(v, polls)) + after_polls(v, polls).system == v.system
            + brought_by_speakers(polls),
    decreases polls.len(),
{
    if polls.len() > 0 {
        let less = polls.drop_last();
        law_chunks_hold_the_speakers(v, less);
        let chunks = chunks_of(v, less);
        let now = after_polls(v, less);
        let (next, chunk) = polled(now, polls.last());
        let sum = v.system + brought_by_speakers(less);
        assert(sum + polls.last().system =~= v.system + brought_by_speakers(polls));
        assert(system_of(chunks) + (now.system + polls.last().system) =~= sum
            + polls.last().system);
        match chunk {
            Some(c) => {
                assert(chunks.push(c).drop_last() =~= chunks);
                assert(system_of(chunks.push(c)) =~= system_of(chunks) + c.system);
                assert(system_of(chunks.push(c)) + next.system =~= sum + polls.last().system);
            },
            None => {},
        }
    } else {
        assert(v.system + brought_by_speakers(polls) =~= v.system);
        assert(system_of(chunks_of(v, polls)) + v.system =~= v.system);
    }
}

/// The two sides of a chunk belong together: a chunk holds all that waited of the
/// microphone and of the speakers, and leaves nothing of either behind. Without a chunk
/// all of both goes on waiting.
pub proof fn law_sides_stay_together<T>(v: ChunkerView<T>, p: Poll<T>)
    ensures
        match polled(v, p).1 {
            Some(c) => {
                &&& c.samples == v.pending + p.samples
                &&& c.system == v.system + p.system
                &&& polled(v, p).0.pending.len() == 0
                &&& polled(v, p).0.system.len() == 0
            },
            None => {
                &&& polled(v, p).0.pending == v.pending + p.samples
                &&& polled(v, p).0.system == v.system + p.system
            },
        },
{
}

/// A chunk comes at three seconds at the latest and at two at the earliest, and only
/// with a poll that brought sound at a known rate. Between the two it takes silence.
pub proof fn law_a_chunk_comes_in_time<T>(v: ChunkerView<T>, p: Poll<T>)
    ensures
        ({
            let held = v.pending.len() + p.samples.len();
            let some = polled(v, p).1 is Some;
            &&& p.samples.len() > 0 && p.rate > 0 && held >= 3 * p.rate ==> some
            &&& some ==> p.samples.len() > 0 && p.rate > 0 && held >= 2 * p.rate
            &&& some && held < 3 * p.rate ==> p.quiet
        }),
{
}

/// A chunk stands at its samples' time: its start and end are the whole milliseconds
/// that the samples handed out before it, and with it, take at the rate.
pub proof fn law_a_chunk_tells_its_time<T>(v: ChunkerView<T>, p: Poll<T>)
    requires
        v.consumed >= 0,
    ensures
        polled(v, p).1 matches Some(c) ==> {
            let after = v.consumed + v.pending.len() + p.samples.len();
            &&& c.start_ms * p.rate <= v.consumed * 1000 < (c.start_ms + 1) * p.rate
            &&& c.end_ms * p.rate <= after * 1000 < (c.end_ms + 1) * p.rate
            &&& polled(v, p).0.consumed == after
        },
        polled(v, p).1 is None ==> polled(v, p).0.consumed == v.consumed,
{
    if polled(v, p).1 is Some {
        let after = v.consumed + v.pending.len() + p.samples.len();
        lemma_whole_part(v.consumed * 1000, p.rate as int);
        lemma_whole_part(after * 1000, p.rate as int);
    }
}

proof fn lemma_whole_part(a: int, d: int)
    requires
        d > 0,
    ensures
        a / d * d <= a < (a / d + 1) * d,
{
    vstd::arithmetic::div_mod::lemma_fundamental_div_mod(a, d);
    assert(a / d * d <= a < (a / d + 1) * d) by (nonlinear_arith)
        requires
            a == d * (a / d) + a % d,
            0 <= a % d < d,
    ;
}

/// Whether a poll tells anything of how loud it is.
pub open spec fn is_heard<T>(p: Poll<T>) -> bool {
    p.samples.len() > 0 && p.rate > 0
}

/// How many of the polls with sound at the end of a row were quiet, one after the other.
pub open spec fn silence_at_end<T>(polls: Seq<Poll<T>>) -> int
    decreases polls.len(),
{
    if polls.len() == 0 {
        0
    } else if !is_heard(polls.last()) {
        silence_at_end(polls.drop_last())
    } else if polls.last().quiet {
        silence_at_end(polls.drop_last()) + 1
    } else {
        0
    }
}

proof fn lemma_silence_is_counted<T>(v: ChunkerView<T>, polls: Seq<Poll<T>>)
    requires
        v.quiet == 0,
        chunks_of(v, polls).len() == 0,
    ensures
        after_polls(v, polls).quiet == silence_at_end(polls),
    decreases polls.len(),
{
    if polls.len() > 0 {
        lemma_silence_is_counted(v, polls.drop_last());
    }
}

/// Silence ends a chunk early: from the start of a chunk on, a poll that brings it to
/// two seconds or more, and to less than three, completes it exactly when ten polls with
/// sound in a row were quiet.
pub proof fn law_silence_ends_a_chunk<T>(v: ChunkerView<T>, polls: Seq<Poll<T>>, p: Poll<T>)
    requires
        v.quiet == 0,
        chunks_of(v, polls).len() == 0,
        is_heard(p),
        2 * p.rate <= after_polls(v, polls).pending.len() + p.samples.len() < 3 * p.rate,
    ensures
        polled(after_polls(v, polls), p).1 is Some <==> silence_at_end(polls.push(p)) >= 10,
{
    lemma_silence_is_counted(v, polls);
    assert(polls.push(p).drop_last() =~= polls);
}

/// A chunk begins without silence: once one was handed out, and before anything was
/// recorded, no quiet poll counts yet.
pub proof fn law_silence_is_counted_afresh<T>(v: ChunkerView<T>, p: Poll<T>)
    ensures
        polled(v, p).1 is Some ==> polled(v, p).0.quiet == 0,
        nothing_recorded::<T>().quiet == 0,
        nothing_recorded::<T>().consumed == 0,
        nothing_recorded::<T>().pending.len() == 0,
        nothing_recorded::<T>().system.len() == 0,
{
}

/// Silence is never transcribed, nor is sound at an unknown rate, nor no sound at all, and
/// any other sound is.
pub proof fn law_silence_is_not_transcribed(rate: u32, samples: usize, silent: bool, r: bool)
    requires
        call_ensures(is_worth_transcribing, (rate, samples, silent), r),
    ensures
        silent ==> !r,
        rate == 0 || samples == 0 ==> !r,
        !r ==> silent || rate == 0 || samples == 0,
{
}

/// What the model heard is kept as it stands. Nothing comes of a failure or of an empty
/// text, and nothing of a blank one in a trial; in a recording a blank one is kept.
pub proof fn law_what_was_heard_is_kept(
    outcome: Option<String>,
    heard: Option<String>,
    tried: Option<String>,
)
    requires
        call_ensures(transcribed, (outcome,), heard),
        call_ensures(transcribed_for_test, (outcome,), tried),
    ensures
        outcome is None ==> heard is None && tried is None,
        outcome matches Some(text) ==> {
            &&& heard is None <==> text@.len() == 0
            &&& heard matches Some(kept) ==> kept@ == text@
            &&& tried is None <==> stripped(text@).len() == 0
            &&& tried matches Some(kept) ==> kept@ == text@
        },
{
}

} // verus!

//! A recording in progress: the transcript as it grows, who spoke last, and the
//! timed utterances of a meeting that is captured without being asked.

use vstd::prelude::*;

use crate::clock::{elapsed, Stamp};
use crate::text::{
    all_digits, all_of, is_blank, is_white, law_stripping_keeps_the_words, law_stripping_loses_only_white,
    law_trim_end_takes_the_class_off, law_trim_leaves_what_stands_between,
    law_two_digits_read_back, law_white_space_parts_words, number_in, occurs, occurs_at, same,
    stripped, text_in, to_chars, to_two_digits, trim_end, trim_end_class, trim_white, two_digits,
    words, CharClass,
};
use crate::unicode::{lower_text, to_lowercase};

verus! {

// ---------------------------------------------------------------------------
// What a recording holds
// ---------------------------------------------------------------------------

/// A stretch of speech with its place in the recording, in milliseconds.
#[derive(Debug)]
pub struct Utterance {
    pub start_ms: u64,
    pub end_ms: u64,
    pub speaker: String,
    pub text: String,
}

/// What an utterance says.
#[verifier::ext_equal]
pub struct UtteranceView {
    pub start_ms: u64,
    pub end_ms: u64,
    pub speaker: Seq<char>,
    pub text: Seq<char>,
}

impl View for Utterance {
    type V = UtteranceView;

    open spec fn view(&self) -> UtteranceView {
        UtteranceView {
            start_ms: self.start_ms,
            end_ms: self.end_ms,
            speaker: self.speaker@,
            text: self.text@,
        }
    }
}

/// What a list of utterances says.
pub open spec fn utterances_of(v: Seq<Utterance>) -> Seq<UtteranceView> {
    v.map_values(|u: Utterance| u@)
}

/// A piece of transcribed speech, in milliseconds from the start of the
/// recording.
#[derive(Debug)]
pub struct Segment {
    pub start_ms: u64,
    pub end_ms: u64,
    pub text: String,
}

/// The meeting that is being captured.
#[derive(Debug)]
pub struct Meeting {
    pub source: String,
    pub started: Stamp,
}

/// What is known of an optional meeting.
pub open spec fn meeting_in(m: Option<Meeting>) -> Option<(Seq<char>, Stamp)> {
    match m {
        Some(m) => Some((m.source@, m.started)),
        None => None,
    }
}

/// A recording in progress.
#[derive(Debug)]
pub struct Session {
    /// The transcript so far.
    pub transcript: String,
    /// Whose heading was written last.
    pub last_speaker: Option<String>,
    /// What the far end of the call is called.
    pub others: String,
    /// What was said, with timings.
    pub utterances: Vec<Utterance>,
    /// Whether the recording was started without being asked.
    pub auto_recording: bool,
    /// The meeting that such a recording captures.
    pub meeting: Option<Meeting>,
}

/// What a recording in progress holds.
#[verifier::ext_equal]
pub struct SessionView {
    pub transcript: Seq<char>,
    pub last_speaker: Option<Seq<char>>,
    pub others: Seq<char>,
    pub utterances: Seq<UtteranceView>,
    pub auto_recording: bool,
    pub meeting: Option<(Seq<char>, Stamp)>,
}

impl View for Session {
    type V = SessionView;

    open spec fn view(&self) -> SessionView {
        SessionView {
            transcript: self.transcript@,
            last_speaker: text_in(self.last_speaker),
            others: self.others@,
            utterances: utterances_of(self.utterances@),
            auto_recording: self.auto_recording,
            meeting: meeting_in(self.meeting),
        }
    }
}

// ---------------------------------------------------------------------------
// The transcript
// ---------------------------------------------------------------------------

/// A position in the recording as `[mm:ss]`.
pub open spec fn timestamp(position_ms: u64) -> Seq<char> {
    "["@ + two_digits((position_ms / 1000 / 60) as nat) + ":"@ + two_digits(
        (position_ms / 1000 % 60) as nat,
    ) + "]"@
}

/// Writes a position in the recording as `[mm:ss]`, so that both a reader and a
/// model can point at a moment.
pub fn timestamp_label(position_ms: u64) -> (r: String)
    ensures
        r@ == timestamp(position_ms),
{
    let total_seconds: u64 = position_ms / 1000;
    let minutes = to_two_digits(total_seconds / 60);
    let seconds = to_two_digits(total_seconds % 60);
    let mut r = "[".to_owned();
    r.append(minutes.as_str());
    r.append(":");
    r.append(seconds.as_str());
    r.append("]");
    r
}

/// A transcript with a text behind it.
pub open spec fn with_plain(transcript: Seq<char>, text: Seq<char>) -> Seq<char> {
    (if transcript.len() > 0 {
        transcript.push(' ')
    } else {
        transcript
    }) + text
}

/// A transcript with a new paragraph behind it, which names who speaks and when.
pub open spec fn with_heading(
    transcript: Seq<char>,
    label: Seq<char>,
    position_ms: u64,
    text: Seq<char>,
) -> Seq<char> {
    (if transcript.len() > 0 {
        transcript + "\n\n"@
    } else {
        transcript
    }) + timestamp(position_ms) + " **"@ + label + ":** "@ + text
}

/// The recording after a text was added with no speaker.
pub open spec fn plainly(v: SessionView, text: Seq<char>) -> SessionView {
    SessionView { transcript: with_plain(v.transcript, text), ..v }
}

/// The recording after a text was added under a speaker: in a new paragraph
/// exactly when someone else spoke last.
pub open spec fn labelled(
    v: SessionView,
    label: Seq<char>,
    position_ms: u64,
    text: Seq<char>,
) -> SessionView {
    SessionView {
        transcript: if v.last_speaker == Some(label) {
            with_plain(v.transcript, text)
        } else {
            with_heading(v.transcript, label, position_ms, text)
        },
        last_speaker: Some(label),
        ..v
    }
}

/// Which side was louder while a piece of sound was recorded.
#[derive(Clone, Copy, PartialEq, Eq, Structural, Debug)]
pub enum SpeakerHint {
    Me,
    Others,
    Both,
    Unknown,
}

/// How a side is called, given the name of the far end and its lower-case form.
pub open spec fn label_of(hint: SpeakerHint, others: Seq<char>, lowered: Seq<char>) -> Option<
    Seq<char>,
> {
    match hint {
        SpeakerHint::Me => Some("Me"@),
        SpeakerHint::Others => Some(others),
        SpeakerHint::Both => Some("Me + "@ + lowered),
        SpeakerHint::Unknown => None,
    }
}

/// How a side is called, given the name of the far end.
pub open spec fn speaker_label(hint: SpeakerHint, others: Seq<char>) -> Option<Seq<char>> {
    label_of(hint, others, lower_text(others))
}

/// How a side is called, given the name of the far end and its lower-case form.
pub fn label_for(hint: SpeakerHint, others: &str, lowered: &str) -> (r: Option<String>)
    ensures
        text_in(r) == label_of(hint, others@, lowered@),
{
    match hint {
        SpeakerHint::Me => Some("Me".to_owned()),
        SpeakerHint::Others => Some(others.to_owned()),
        SpeakerHint::Both => {
            let mut r = "Me + ".to_owned();
            r.append(lowered);
            Some(r)
        },
        SpeakerHint::Unknown => None,
    }
}

/// The recording after the last scrap of sound was added.
pub open spec fn with_tail(
    v: SessionView,
    hint: SpeakerHint,
    position_ms: u64,
    text: Seq<char>,
) -> SessionView {
    match speaker_label(hint, v.others) {
        Some(label) => labelled(v, label, position_ms, text),
        None => plainly(v, text),
    }
}

// ---------------------------------------------------------------------------
// Utterances
// ---------------------------------------------------------------------------

/// The longest gap, in milliseconds, below which a break is taken for one that
/// the cutting of the sound made.
pub const CHUNK_GAP_MS: u64 = 400;

/// Whether a text ends a sentence.
pub open spec fn ends_sentence(text: Seq<char>) -> bool {
    let t = trim_end(text, CharClass::White);
    t.len() > 0 && {
        let c = t.last();
        c == '.' || c == '!' || c == '?' || c == '…' || c == ':'
    }
}

/// Whether a piece of speech goes on with an utterance: the same speaker, nearly
/// no gap, and a sentence that is not finished.
pub open spec fn continues(previous: UtteranceView, start_ms: u64, speaker: Seq<char>) -> bool {
    &&& previous.speaker == speaker
    &&& start_ms < previous.end_ms + CHUNK_GAP_MS
    &&& !ends_sentence(previous.text)
}

/// The utterances after a piece of speech was noted. Speech without text is not.
pub open spec fn noted(
    us: Seq<UtteranceView>,
    start_ms: u64,
    end_ms: u64,
    speaker: Seq<char>,
    text: Seq<char>,
) -> Seq<UtteranceView> {
    let t = stripped(text);
    if t.len() == 0 {
        us
    } else if us.len() > 0 && continues(us.last(), start_ms, speaker) {
        us.drop_last().push(
            UtteranceView {
                text: us.last().text.push(' ') + t,
                end_ms: if end_ms > us.last().end_ms {
                    end_ms
                } else {
                    us.last().end_ms
                },
                ..us.last()
            },
        )
    } else {
        us.push(UtteranceView { start_ms, end_ms, speaker, text: t })
    }
}

/// The recording after a piece of speech was noted, which happens only in a
/// recording that was started without being asked.
pub open spec fn recorded(
    v: SessionView,
    start_ms: u64,
    end_ms: u64,
    speaker: Seq<char>,
    text: Seq<char>,
) -> SessionView {
    if v.auto_recording {
        SessionView { utterances: noted(v.utterances, start_ms, end_ms, speaker, text), ..v }
    } else {
        v
    }
}

fn finishes_sentence(text: &str) -> (r: bool)
    ensures
        r == ends_sentence(text@),
{
    let t = trim_end_class(text, CharClass::White);
    let chars = to_chars(t.as_str());
    if chars.len() == 0 {
        return false;
    }
    let c = chars[chars.len() - 1];
    c == '.' || c == '!' || c == '?' || c == '…' || c == ':'
}

/// Notes a piece of speech.
pub fn note_utterance(
    utterances: &mut Vec<Utterance>,
    start_ms: u64,
    end_ms: u64,
    speaker: &str,
    text: &str,
)
    ensures
        utterances_of(final(utterances)@) == noted(
            utterances_of(old(utterances)@),
            start_ms,
            end_ms,
            speaker@,
            text@,
        ),
{
    let ghost before = utterances@;
    let t = trim_white(text);
    if t.as_str().is_empty() {
        return;
    }
    if utterances.len() > 0 {
        assert(utterances_of(before).last() == before.last()@);
        let last: usize = utterances.len() - 1;
        let goes_on = same(utterances[last].speaker.as_str(), speaker) && start_ms.saturating_sub(
            utterances[last].end_ms,
        ) < CHUNK_GAP_MS && !finishes_sentence(utterances[last].text.as_str());
        assert(goes_on == continues(before.last()@, start_ms, speaker@));
        if goes_on {
            match utterances.pop() {
                Some(previous) => {
                    let mut joined_text = previous.text;
                    joined_text.push(' ');
                    joined_text.append(t.as_str());
                    let end: u64 = if end_ms > previous.end_ms {
                        end_ms
                    } else {
                        previous.end_ms
                    };
                    utterances.push(
                        Utterance {
                            start_ms: previous.start_ms,
                            end_ms: end,
                            speaker: previous.speaker,
                            text: joined_text,
                        },
                    );
                    assert(utterances_of(utterances@) =~= noted(
                        utterances_of(before),
                        start_ms,
                        end_ms,
                        speaker@,
                        text@,
                    ));
                },
                None => {},
            }
            return;
        }
    }
    utterances.push(Utterance { start_ms, end_ms, speaker: speaker.to_owned(), text: t });
    assert(utterances_of(utterances@) =~= noted(
        utterances_of(before),
        start_ms,
        end_ms,
        speaker@,
        text@,
    ));
}

// ---------------------------------------------------------------------------
// Segments
// ---------------------------------------------------------------------------

/// The recording after one segment was added and noted under a speaker, or with
/// none.
pub open spec fn said(v: SessionView, label: Option<Seq<char>>, s: Segment) -> SessionView {
    match label {
        Some(label) => recorded(
            labelled(v, label, s.start_ms, s.text@),
            s.start_ms,
            s.end_ms,
            label,
            s.text@,
        ),
        None => recorded(plainly(v, s.text@), s.start_ms, s.end_ms, "Unknown"@, s.text@),
    }
}

/// The recording after segments were added and noted in order.
pub open spec fn heard(
    v: SessionView,
    label: Option<Seq<char>>,
    segments: Seq<Segment>,
) -> SessionView
    decreases segments.len(),
{
    if segments.len() == 0 {
        v
    } else {
        said(heard(v, label, segments.drop_last()), label, segments.last())
    }
}

/// Whether every segment of a chunk still fits when the chunk begins at
/// `chunk_start_ms`.
pub open spec fn segments_fit(segments: Seq<Segment>, chunk_start_ms: u64) -> bool {
    forall|i: int|
        0 <= i < segments.len() ==> (#[trigger] segments[i]).start_ms + chunk_start_ms <= u64::MAX
            && segments[i].end_ms + chunk_start_ms <= u64::MAX
}

/// Moves the timings of the segments of a chunk so that they count from the start
/// of the recording.
pub fn offset_segments(segments: Vec<Segment>, chunk_start_ms: u64) -> (r: Vec<Segment>)
    requires
        segments_fit(segments@, chunk_start_ms),
    ensures
        r@.len() == segments@.len(),
        forall|i: int|
            0 <= i < r@.len() ==> {
                &&& (#[trigger] r@[i]).start_ms == segments@[i].start_ms + chunk_start_ms
                &&& r@[i].end_ms == segments@[i].end_ms + chunk_start_ms
                &&& r@[i].text@ == segments@[i].text@
            },
{
    let mut r: Vec<Segment> = Vec::new();
    for i in 0..segments.len()
        invariant
            segments_fit(segments@, chunk_start_ms),
            r@.len() == i,
            forall|k: int|
                0 <= k < i ==> {
                    &&& (#[trigger] r@[k]).start_ms == segments@[k].start_ms + chunk_start_ms
                    &&& r@[k].end_ms == segments@[k].end_ms + chunk_start_ms
                    &&& r@[k].text@ == segments@[k].text@
                },
    {
        let s = &segments[i];
        r.push(
            Segment {
                start_ms: s.start_ms + chunk_start_ms,
                end_ms: s.end_ms + chunk_start_ms,
                text: s.text.clone(),
            },
        );
    }
    r
}

// ---------------------------------------------------------------------------
// The end of a meeting
// ---------------------------------------------------------------------------

/// The last scrap of sound, transcribed after a recording stopped.
#[derive(Debug)]
pub struct Tail {
    pub hint: SpeakerHint,
    pub text: String,
}

/// A captured meeting that is worth keeping.
#[derive(Debug)]
pub struct Finished {
    pub source: String,
    pub started: Stamp,
    pub other_party: Option<String>,
    pub text: String,
    pub utterances: Vec<Utterance>,
}

/// What a captured meeting that is worth keeping holds.
#[verifier::ext_equal]
pub struct FinishedView {
    pub source: Seq<char>,
    pub started: Stamp,
    pub other_party: Option<Seq<char>>,
    pub text: Seq<char>,
    pub utterances: Seq<UtteranceView>,
}

/// What is known of a meeting that may be worth keeping.
pub open spec fn finished_in(f: Option<Finished>) -> Option<FinishedView> {
    match f {
        Some(f) => Some(
            FinishedView {
                source: f.source@,
                started: f.started,
                other_party: text_in(f.other_party),
                text: f.text@,
                utterances: utterances_of(f.utterances@),
            },
        ),
        None => None,
    }
}

/// What is kept of a recording that is over, with its tail: nothing where it holds no
/// text. A meeting that is not known is taken for one of `app_name` that began now.
pub open spec fn worth_keeping(v: SessionView, app_name: Seq<char>, now: Stamp) -> Option<
    FinishedView,
> {
    if stripped(v.transcript).len() == 0 {
        None
    } else {
        Some(
            FinishedView {
                source: match v.meeting {
                    Some(m) => m.0,
                    None => app_name,
                },
                started: match v.meeting {
                    Some(m) => m.1,
                    None => now,
                },
                other_party: if v.others == "Others"@ {
                    None
                } else {
                    Some(v.others)
                },
                text: v.transcript,
                utterances: v.utterances,
            },
        )
    }
}

/// The recording after what was heard on each side was added, the near side first.
pub open spec fn heard_apart(
    v: SessionView,
    mine: Seq<Segment>,
    theirs: Seq<Segment>,
) -> SessionView {
    heard(heard(v, Some("Me"@), mine), Some(v.others), theirs)
}

/// A recording that was asked for, as it ends.
pub open spec fn ended_by_hand(v: SessionView, tail: Option<Tail>) -> SessionView {
    match tail {
        Some(tail) => with_tail(v, tail.hint, 0, tail.text@),
        None => v,
    }
}

/// The recording after a meeting began: a capture of it, unless something is being
/// recorded already or no capture could be started.
pub open spec fn meeting_begun(
    v: SessionView,
    already_recording: bool,
    opened: bool,
    source: Seq<char>,
    other_party: Option<Seq<char>>,
    now: Stamp,
) -> SessionView {
    if already_recording || !opened {
        v
    } else {
        begun(source, other_party, now)
    }
}

/// A meeting whose capture begins, with what its far end is called where that is
/// known.
pub open spec fn begun(source: Seq<char>, other_party: Option<Seq<char>>, now: Stamp) -> SessionView {
    SessionView {
        transcript: Seq::empty(),
        last_speaker: None,
        others: match other_party {
            Some(name) => name,
            None => "Others"@,
        },
        utterances: Seq::empty(),
        auto_recording: true,
        meeting: Some((source, now)),
    }
}

/// A recording that was asked for, as it begins.
pub open spec fn begun_by_hand(v: SessionView) -> SessionView {
    SessionView { transcript: Seq::empty(), last_speaker: None, others: "Others"@, ..v }
}

/// A recording once the meeting that was captured is over.
pub open spec fn stopped(v: SessionView) -> SessionView {
    SessionView { auto_recording: false, ..v }
}

/// The recording after the tail of a captured meeting was added and noted.
pub open spec fn tail_added(v: SessionView, tail: Option<Tail>, position_ms: u64) -> SessionView {
    match tail {
        Some(tail) => {
            let t = with_tail(v, tail.hint, position_ms, tail.text@);
            SessionView {
                utterances: noted(t.utterances, position_ms, position_ms, "Unknown"@, tail.text@),
                ..t
            }
        },
        None => v,
    }
}

/// How long a meeting has been going on, in milliseconds: zero where none is.
pub open spec fn position_at(v: SessionView, now: Stamp) -> int {
    match v.meeting {
        Some((_, started)) => elapsed(started, now) / 1_000_000,
        None => 0,
    }
}

impl Session {
    /// Nothing recorded yet.
    pub fn new() -> (r: Session)
        ensures
            r@ == (SessionView {
                transcript: Seq::empty(),
                last_speaker: None,
                others: "Others"@,
                utterances: Seq::empty(),
                auto_recording: false,
                meeting: None,
            }),
    {
        let r = Session {
            transcript: String::new(),
            last_speaker: None,
            others: "Others".to_owned(),
            utterances: Vec::new(),
            auto_recording: false,
            meeting: None,
        };
        assert(utterances_of(r.utterances@) =~= Seq::empty());
        r
    }

    /// Begins a recording that was asked for. It has no meeting to be named after.
    pub fn begin_manual(&mut self)
        ensures
            final(self)@ == begun_by_hand(old(self)@),
    {
        self.transcript = String::new();
        self.last_speaker = None;
        self.others = "Others".to_owned();
    }

    /// Begins to capture a meeting, with what its far end is called where that is
    /// known. A recording that is already running is left alone, and nothing
    /// happens where none could be started. Says whether the capture began.
    pub fn auto_record_start(
        &mut self,
        already_recording: bool,
        opened: bool,
        source: String,
        other_party: Option<String>,
        now: Stamp,
    ) -> (began: bool)
        ensures
            began == (!already_recording && opened),
            final(self)@ == if began {
                begun(source@, text_in(other_party), now)
            } else {
                old(self)@
            },
            final(self)@ == meeting_begun(
                old(self)@,
                already_recording,
                opened,
                source@,
                text_in(other_party),
                now,
            ),
    {
        if already_recording || !opened {
            return false;
        }
        self.transcript = String::new();
        self.last_speaker = None;
        self.utterances = Vec::new();
        self.others = match other_party {
            Some(name) => name,
            None => "Others".to_owned(),
        };
        self.meeting = Some(Meeting { source, started: now });
        self.auto_recording = true;
        assert(utterances_of(self.utterances@) =~= Seq::empty());
        true
    }

    /// What the far end of the call is called.
    pub fn others_label(&self) -> (r: String)
        ensures
            r@ == self@.others,
    {
        self.others.clone()
    }

    /// How a side is called.
    pub fn speaker_label_for_chunk(&self, hint: SpeakerHint) -> (r: Option<String>)
        ensures
            text_in(r) == speaker_label(hint, self@.others),
    {
        let lowered = to_lowercase(self.others.as_str());
        label_for(hint, self.others.as_str(), lowered.as_str())
    }

    /// Adds a text with no speaker, where there is nothing to compare the
    /// microphone with.
    pub fn append_plain(&mut self, text: &str)
        ensures
            final(self)@ == plainly(old(self)@, text@),
    {
        if !self.transcript.as_str().is_empty() {
            self.transcript.push(' ');
        }
        self.transcript.append(text);
    }

    /// Adds a text under a speaker. A new paragraph with a heading and a timestamp
    /// begins only when the speaker changes.
    pub fn append_labelled(&mut self, label: &str, position_ms: u64, text: &str)
        ensures
            final(self)@ == labelled(old(self)@, label@, position_ms, text@),
    {
        let goes_on = match &self.last_speaker {
            Some(last) => same(last.as_str(), label),
            None => false,
        };
        if goes_on {
            if !self.transcript.as_str().is_empty() {
                self.transcript.push(' ');
            }
        } else {
            if !self.transcript.as_str().is_empty() {
                self.transcript.append("\n\n");
            }
            let stamp = timestamp_label(position_ms);
            self.transcript.append(stamp.as_str());
            self.transcript.append(" **");
            self.transcript.append(label);
            self.transcript.append(":** ");
            self.last_speaker = Some(label.to_owned());
        }
        self.transcript.append(text);
    }

    /// Adds the last scrap of sound, transcribed after a recording stopped.
    pub fn append_tail(&mut self, hint: SpeakerHint, position_ms: u64, text: &str)
        ensures
            final(self)@ == with_tail(old(self)@, hint, position_ms, text@),
    {
        match self.speaker_label_for_chunk(hint) {
            Some(label) => self.append_labelled(label.as_str(), position_ms, text),
            None => self.append_plain(text),
        }
    }

    /// Notes a piece of speech with its place in the recording.
    ///
    /// Pieces of the same speaker are joined where the break looks like one that
    /// the cutting of the sound made rather than a pause.
    pub fn record_utterance(&mut self, start_ms: u64, end_ms: u64, speaker: &str, text: &str)
        ensures
            final(self)@ == recorded(old(self)@, start_ms, end_ms, speaker@, text@),
    {
        if !self.auto_recording {
            return;
        }
        note_utterance(&mut self.utterances, start_ms, end_ms, speaker, text);
    }

    fn add_segments(&mut self, label: &Option<String>, segments: &Vec<Segment>)
        ensures
            final(self)@ == heard(old(self)@, text_in(*label), segments@),
    {
        let ghost start = self@;
        for i in 0..segments.len()
            invariant
                self@ == heard(start, text_in(*label), segments@.take(i as int)),
        {
            let s = &segments[i];
            let ghost now = segments@.take(i + 1);
            assert(now.drop_last() == segments@.take(i as int));
            assert(now.last() == segments@[i as int]);
            match label {
                Some(label) => {
                    self.append_labelled(label.as_str(), s.start_ms, s.text.as_str());
                    self.record_utterance(s.start_ms, s.end_ms, label.as_str(), s.text.as_str());
                },
                None => {
                    self.append_plain(s.text.as_str());
                    self.record_utterance(s.start_ms, s.end_ms, "Unknown", s.text.as_str());
                },
            }
        }
        assert(segments@.take(segments@.len() as int) == segments@);
    }

    /// Adds what was heard on each side, transcribed on its own, so that a label is
    /// a fact about which side spoke. Says whether anything was heard.
    pub fn add_separate(&mut self, mine: &Vec<Segment>, theirs: &Vec<Segment>) -> (updated: bool)
        ensures
            final(self)@ == heard(
                heard(old(self)@, Some("Me"@), mine@),
                Some(old(self)@.others),
                theirs@,
            ),
            final(self)@ == heard_apart(old(self)@, mine@, theirs@),
            updated == (mine@.len() > 0 || theirs@.len() > 0),
    {
        let others = self.others_label();
        self.add_segments(&Some("Me".to_owned()), mine);
        self.add_segments(&Some(others), theirs);
        mine.len() > 0 || theirs.len() > 0
    }

    /// Adds what was heard on both sides together, under the side that was louder.
    /// Says whether anything was heard.
    pub fn add_mixed(&mut self, segments: &Vec<Segment>, hint: SpeakerHint) -> (updated: bool)
        ensures
            final(self)@ == heard(
                old(self)@,
                speaker_label(hint, old(self)@.others),
                segments@,
            ),
            updated == (segments@.len() > 0),
    {
        let label = self.speaker_label_for_chunk(hint);
        self.add_segments(&label, segments);
        segments.len() > 0
    }

    /// Stops capturing a meeting, and says whether one was being captured. A
    /// recording that was asked for is not cut short because a meeting ended.
    pub fn stop_auto(&mut self) -> (was_auto: bool)
        ensures
            was_auto == old(self)@.auto_recording,
            final(self)@ == stopped(old(self)@),
    {
        let was = self.auto_recording;
        self.auto_recording = false;
        was
    }

    /// How long the meeting has been going on, in milliseconds.
    pub fn position_ms(&self, now: &Stamp) -> (r: u64)
        ensures
            r == position_at(self@, *now),
    {
        match &self.meeting {
            Some(m) => m.started.millis_until(now),
            None => 0,
        }
    }

    /// The transcript so far.
    pub fn get_transcript(&self) -> (r: String)
        ensures
            r@ == self@.transcript,
    {
        self.transcript.clone()
    }

    /// What to keep on disk while a meeting runs: the source, the start and the
    /// transcript so far. Nothing for a recording that was asked for.
    pub fn partial(&self) -> (r: Option<(String, Stamp, String)>)
        ensures
            match r {
                Some((source, started, text)) => self@.auto_recording && self@.meeting == Some(
                    (source@, started),
                ) && text@ == self@.transcript,
                None => !self@.auto_recording || self@.meeting is None,
            },
    {
        if !self.auto_recording {
            return None;
        }
        match &self.meeting {
            Some(m) => Some((m.source.clone(), m.started, self.transcript.clone())),
            None => None,
        }
    }

    /// Ends a recording that was asked for, and gives its transcript.
    pub fn finish_manual(&mut self, tail: &Option<Tail>) -> (r: String)
        ensures
            final(self)@ == match *tail {
                Some(tail) => with_tail(old(self)@, tail.hint, 0, tail.text@),
                None => old(self)@,
            },
            final(self)@ == ended_by_hand(old(self)@, *tail),
            r@ == final(self)@.transcript,
    {
        match tail {
            Some(tail) => self.append_tail(tail.hint, 0, tail.text.as_str()),
            None => {},
        }
        self.transcript.clone()
    }

    /// Ends the capture of a meeting with the last scrap of sound, at a position in
    /// the recording. Gives what is worth keeping: nothing where no text came of
    /// the meeting. A meeting that is not known is taken for one of `app_name` that
    /// began now.
    pub fn finish_at(
        &mut self,
        tail: &Option<Tail>,
        position_ms: u64,
        app_name: &str,
        now: Stamp,
    ) -> (r: Option<Finished>)
        ensures
            final(self)@ == (SessionView {
                meeting: None,
                ..tail_added(old(self)@, *tail, position_ms)
            }),
            finished_in(r) == worth_keeping(
                tail_added(old(self)@, *tail, position_ms),
                app_name@,
                now,
            ),
            r is Some <==> stripped(final(self)@.transcript).len() > 0,
            r matches Some(f) ==> {
                &&& (f.source@, f.started) == (match old(self)@.meeting {
                    Some(m) => m,
                    None => (app_name@, now),
                })
                &&& text_in(f.other_party) == if old(self)@.others == "Others"@ {
                    None
                } else {
                    Some(old(self)@.others)
                }
                &&& f.text@ == final(self)@.transcript
                &&& utterances_of(f.utterances@) == final(self)@.utterances
            },
    {
        match tail {
            Some(tail) => {
                self.append_tail(tail.hint, position_ms, tail.text.as_str());
                note_utterance(
                    &mut self.utterances,
                    position_ms,
                    position_ms,
                    "Unknown",
                    tail.text.as_str(),
                );
            },
            None => {},
        }
        assert(self@ == tail_added(old(self)@, *tail, position_ms));
        let meeting = self.meeting.take();
        let (source, started) = match meeting {
            Some(m) => (m.source, m.started),
            None => (app_name.to_owned(), now),
        };
        if is_blank(self.transcript.as_str()) {
            return None;
        }
        let other_party = if same(self.others.as_str(), "Others") {
            None
        } else {
            Some(self.others.clone())
        };
        let utterances = copy_utterances(&self.utterances);
        Some(Finished { source, started, other_party, text: self.transcript.clone(), utterances })
    }

    /// Ends the capture of a meeting at a moment, with the last scrap of sound.
    pub fn finish_auto(&mut self, tail: &Option<Tail>, app_name: &str, now: Stamp) -> (r: Option<
        Finished,
    >)
        ensures
            final(self)@ == (SessionView {
                meeting: None,
                ..tail_added(old(self)@, *tail, position_at(old(self)@, now) as u64)
            }),
            finished_in(r) == worth_keeping(
                tail_added(old(self)@, *tail, position_at(old(self)@, now) as u64),
                app_name@,
                now,
            ),
            r is Some <==> stripped(final(self)@.transcript).len() > 0,
            r matches Some(f) ==> {
                &&& (f.source@, f.started) == (match old(self)@.meeting {
                    Some(m) => m,
                    None => (app_name@, now),
                })
                &&& text_in(f.other_party) == if old(self)@.others == "Others"@ {
                    None
                } else {
                    Some(old(self)@.others)
                }
                &&& f.text@ == final(self)@.transcript
                &&& utterances_of(f.utterances@) == final(self)@.utterances
            },
    {
        let position_ms = self.position_ms(&now);
        self.finish_at(tail, position_ms, app_name, now)
    }
}

/// A copy of a list of utterances.
fn copy_utterances(us: &Vec<Utterance>) -> (r: Vec<Utterance>)
    ensures
        utterances_of(r@) == utterances_of(us@),
{
    let mut r: Vec<Utterance> = Vec::new();
    for i in 0..us.len()
        invariant
            utterances_of(r@) == utterances_of(us@.take(i as int)),
    {
        let u = &us[i];
        let ghost before = r@;
        r.push(
            Utterance {
                start_ms: u.start_ms,
                end_ms: u.end_ms,
                speaker: u.speaker.clone(),
                text: u.text.clone(),
            },
        );
        assert(utterances_of(r@) =~= utterances_of(before).push(u@));
        assert(utterances_of(us@.take(i + 1)) =~= utterances_of(us@.take(i as int)).push(u@));
    }
    assert(us@.take(us@.len() as int) == us@);
    r
}

// ---------------------------------------------------------------------------
// Laws
// ---------------------------------------------------------------------------

proof fn lemma_longer_holds(whole: Seq<char>, more: Seq<char>, part: Seq<char>)
    requires
        occurs(whole, part),
        whole.is_prefix_of(more),
    ensures
        occurs(more, part),
{
    let k = choose|k: int| #[trigger] occurs_at(whole, part, k);
    assert(more.subrange(k, k + part.len()) =~= whole.subrange(k, k + part.len())) by {
        assert(whole == more.take(whole.len() as int));
    }
    assert(occurs_at(more, part, k));
}

proof fn lemma_said_grows(v: SessionView, label: Option<Seq<char>>, s: Segment)
    ensures
        v.transcript.is_prefix_of(said(v, label, s).transcript),
        occurs(said(v, label, s).transcript, s.text@),
        said(v, label, s).auto_recording == v.auto_recording,
        said(v, label, s).others == v.others,
        said(v, label, s).meeting == v.meeting,
{
    let t = said(v, label, s).transcript;
    assert(v.transcript =~= t.take(v.transcript.len() as int));
    assert(t.subrange(t.len() - s.text@.len(), t.len() as int) =~= s.text@);
    assert(occurs_at(t, s.text@, t.len() - s.text@.len()));
}

proof fn lemma_kept_so_far(
    start: Seq<char>,
    before: Seq<char>,
    after: Seq<char>,
    segments: Seq<Segment>,
)
    requires
        segments.len() > 0,
        start.is_prefix_of(before),
        before.is_prefix_of(after),
        forall|i: int|
            0 <= i < segments.len() - 1 ==> occurs(
                before,
                (#[trigger] segments.drop_last()[i]).text@,
            ),
        occurs(after, segments.last().text@),
    ensures
        start.is_prefix_of(after),
        forall|i: int|
            0 <= i < segments.len() ==> occurs(after, (#[trigger] segments[i]).text@),
{
    assert forall|i: int| 0 <= i < segments.len() implies occurs(
        after,
        (#[trigger] segments[i]).text@,
    ) by {
        if i < segments.len() - 1 {
            assert(segments.drop_last()[i] == segments[i]);
            lemma_longer_holds(before, after, segments[i].text@);
        }
    }
    assert(start =~= after.take(start.len() as int)) by {
        assert(before =~= after.take(before.len() as int));
        assert(start =~= before.take(start.len() as int));
    }
}

/// Nothing that was heard is lost: a transcript only grows, and once segments were
/// added it holds the text of each.
pub proof fn law_everything_heard_is_kept(
    v: SessionView,
    label: Option<Seq<char>>,
    segments: Seq<Segment>,
)
    ensures
        v.transcript.is_prefix_of(heard(v, label, segments).transcript),
        forall|i: int|
            0 <= i < segments.len() ==> occurs(
                heard(v, label, segments).transcript,
                (#[trigger] segments[i]).text@,
            ),
        heard(v, label, segments).auto_recording == v.auto_recording,
        heard(v, label, segments).meeting == v.meeting,
    decreases segments.len(),
{
    if segments.len() > 0 {
        let before = heard(v, label, segments.drop_last());
        law_everything_heard_is_kept(v, label, segments.drop_last());
        lemma_said_grows(before, label, segments.last());
        lemma_kept_so_far(
            v.transcript,
            before.transcript,
            heard(v, label, segments).transcript,
            segments,
        );
    } else {
        assert(v.transcript =~= v.transcript.take(v.transcript.len() as int));
    }
}

/// A heading is written exactly when the speaker changes: after a speaker was
/// heard, more of the same speaker stands in the same paragraph, and another
/// speaker gets a heading of their own.
pub proof fn law_headings_follow_the_speaker(
    v: SessionView,
    first: Seq<char>,
    second: Seq<char>,
    a: u64,
    b: u64,
    s: Seq<char>,
    t: Seq<char>,
)
    ensures
        first == second ==> labelled(labelled(v, first, a, s), second, b, t).transcript
            == with_plain(labelled(v, first, a, s).transcript, t),
        first != second ==> labelled(labelled(v, first, a, s), second, b, t).transcript
            == with_heading(labelled(v, first, a, s).transcript, second, b, t),
        labelled(labelled(v, first, a, s), second, b, t).last_speaker == Some(second),
{
}

/// Noting speech leaves the utterances before the last as they are. The last one
/// keeps its speaker and its start, and its text and its end only grow.
pub proof fn law_earlier_utterances_stay(
    us: Seq<UtteranceView>,
    start_ms: u64,
    end_ms: u64,
    speaker: Seq<char>,
    text: Seq<char>,
)
    ensures
        noted(us, start_ms, end_ms, speaker, text).len() >= us.len(),
        forall|i: int|
            0 <= i < us.len() - 1 ==> noted(us, start_ms, end_ms, speaker, text)[i]
                == #[trigger] us[i],
        us.len() > 0 ==> {
            let now = noted(us, start_ms, end_ms, speaker, text)[us.len() - 1];
            &&& now.speaker == us.last().speaker
            &&& now.start_ms == us.last().start_ms
            &&& us.last().end_ms <= now.end_ms
            &&& us.last().text.is_prefix_of(now.text)
        },
{
    if us.len() > 0 {
        let now = noted(us, start_ms, end_ms, speaker, text)[us.len() - 1];
        assert(us.last().text =~= now.text.take(us.last().text.len() as int));
    }
}

/// Whether an utterance ends no earlier than it starts.
pub open spec fn well_timed(u: UtteranceView) -> bool {
    u.start_ms <= u.end_ms
}

/// Timings stay sound: where every utterance ends no earlier than it starts, that
/// is so after more speech was noted.
pub proof fn law_timings_stay_sound(
    us: Seq<UtteranceView>,
    start_ms: u64,
    end_ms: u64,
    speaker: Seq<char>,
    text: Seq<char>,
)
    requires
        start_ms <= end_ms,
        forall|i: int| 0 <= i < us.len() ==> well_timed(#[trigger] us[i]),
    ensures
        forall|i: int|
            0 <= i < noted(us, start_ms, end_ms, speaker, text).len() ==> well_timed(
                #[trigger] noted(us, start_ms, end_ms, speaker, text)[i],
            ),
{
    if us.len() > 0 {
        assert(well_timed(us[us.len() - 1]));
    }
}

/// A sentence that was cut in two is stitched back together: two pieces of one
/// speaker become one utterance where the gap is short and the first piece does
/// not end a sentence, and two utterances otherwise.
pub proof fn law_cut_sentences_are_stitched(
    us: Seq<UtteranceView>,
    first: UtteranceView,
    second: UtteranceView,
)
    requires
        stripped(first.text).len() > 0,
        stripped(second.text).len() > 0,
        us.len() == 0 || !continues(us.last(), first.start_ms, first.speaker),
    ensures
        ({
            let once = noted(us, first.start_ms, first.end_ms, first.speaker, first.text);
            let twice = noted(once, second.start_ms, second.end_ms, second.speaker, second.text);
            let cut = first.speaker == second.speaker && second.start_ms - first.end_ms
                < CHUNK_GAP_MS && !ends_sentence(stripped(first.text));
            &&& cut ==> twice == us.push(
                UtteranceView {
                    start_ms: first.start_ms,
                    end_ms: if second.end_ms > first.end_ms {
                        second.end_ms
                    } else {
                        first.end_ms
                    },
                    speaker: first.speaker,
                    text: stripped(first.text).push(' ') + stripped(second.text),
                },
            )
            &&& !cut ==> twice == us.push(
                UtteranceView { text: stripped(first.text), ..first },
            ).push(UtteranceView { text: stripped(second.text), ..second })
        }),
{
    let one = UtteranceView { text: stripped(first.text), ..first };
    assert(us.push(one).drop_last() =~= us);
    assert(us.push(one).last() == one);
}

/// Whether one of the utterances is of a speaker and holds a text.
pub open spec fn listed(us: Seq<UtteranceView>, speaker: Seq<char>, text: Seq<char>) -> bool {
    exists|j: int|
        0 <= j < us.len() && (#[trigger] us[j]).speaker == speaker && occurs(us[j].text, text)
}

proof fn lemma_noted_lists(
    us: Seq<UtteranceView>,
    start_ms: u64,
    end_ms: u64,
    speaker: Seq<char>,
    text: Seq<char>,
)
    requires
        stripped(text).len() > 0,
    ensures
        listed(noted(us, start_ms, end_ms, speaker, text), speaker, stripped(text)),
{
    let after = noted(us, start_ms, end_ms, speaker, text);
    let t = after.last().text;
    let p = stripped(text);
    assert(t.subrange(t.len() - p.len(), t.len() as int) =~= p);
    assert(occurs_at(t, p, t.len() - p.len()));
    assert(after[after.len() - 1].speaker == speaker);
}

proof fn lemma_still_listed(
    us: Seq<UtteranceView>,
    start_ms: u64,
    end_ms: u64,
    speaker: Seq<char>,
    text: Seq<char>,
    earlier: Seq<char>,
    part: Seq<char>,
)
    requires
        listed(us, earlier, part),
    ensures
        listed(noted(us, start_ms, end_ms, speaker, text), earlier, part),
{
    let after = noted(us, start_ms, end_ms, speaker, text);
    let j = choose|j: int|
        0 <= j < us.len() && (#[trigger] us[j]).speaker == earlier && occurs(us[j].text, part);
    law_earlier_utterances_stay(us, start_ms, end_ms, speaker, text);
    if j == us.len() - 1 {
        lemma_longer_holds(us[j].text, after[j].text, part);
    } else {
        assert(after[j] == us[j]);
    }
    assert(after[j].speaker == earlier && occurs(after[j].text, part));
}

/// Who speaks, where a side may have no name.
pub open spec fn named(label: Option<Seq<char>>) -> Seq<char> {
    match label {
        Some(label) => label,
        None => "Unknown"@,
    }
}

proof fn lemma_listed_so_far(before: Seq<UtteranceView>, speaker: Seq<char>, segments: Seq<Segment>)
    requires
        segments.len() > 0,
        forall|i: int|
            0 <= i < segments.len() - 1 && stripped(
                (#[trigger] segments.drop_last()[i]).text@,
            ).len() > 0 ==> listed(before, speaker, stripped(segments.drop_last()[i].text@)),
    ensures
        ({
            let s = segments.last();
            let after = noted(before, s.start_ms, s.end_ms, speaker, s.text@);
            forall|i: int|
                0 <= i < segments.len() && stripped((#[trigger] segments[i]).text@).len() > 0
                    ==> listed(after, speaker, stripped(segments[i].text@))
        }),
{
    let s = segments.last();
    let after = noted(before, s.start_ms, s.end_ms, speaker, s.text@);
    assert forall|i: int|
        0 <= i < segments.len() && stripped((#[trigger] segments[i]).text@).len()
            > 0 implies listed(after, speaker, stripped(segments[i].text@)) by {
        if i < segments.len() - 1 {
            assert(segments.drop_last()[i] == segments[i]);
            lemma_still_listed(
                before,
                s.start_ms,
                s.end_ms,
                speaker,
                s.text@,
                speaker,
                stripped(segments[i].text@),
            );
        } else {
            lemma_noted_lists(before, s.start_ms, s.end_ms, speaker, s.text@);
        }
    }
}

/// Every stretch of speech of a captured meeting is listed: once segments were
/// added, the text of each that is not blank stands in an utterance of its
/// speaker.
pub proof fn law_every_stretch_is_listed(
    v: SessionView,
    label: Option<Seq<char>>,
    segments: Seq<Segment>,
)
    requires
        v.auto_recording,
    ensures
        forall|i: int|
            0 <= i < segments.len() && stripped((#[trigger] segments[i]).text@).len() > 0
                ==> listed(
                heard(v, label, segments).utterances,
                named(label),
                stripped(segments[i].text@),
            ),
    decreases segments.len(),
{
    if segments.len() > 0 {
        let less = segments.drop_last();
        law_every_stretch_is_listed(v, label, less);
        law_everything_heard_is_kept(v, label, less);
        lemma_listed_so_far(heard(v, label, less).utterances, named(label), segments);
    }
}

/// A recording that was asked for is never stopped by a meeting that ends: once
/// it began, with no capture running, the end of a meeting changes nothing of it,
/// whatever was heard in between.
pub proof fn law_recordings_by_hand_go_on(
    v: SessionView,
    label: Option<Seq<char>>,
    segments: Seq<Segment>,
)
    requires
        !v.auto_recording,
    ensures
        ({
            let running = heard(begun_by_hand(v), label, segments);
            &&& !running.auto_recording
            &&& stopped(running) == running
        }),
{
    law_everything_heard_is_kept(begun_by_hand(v), label, segments);
}

/// A meeting ends once: stopping the capture a second time does nothing.
pub proof fn law_stopping_twice_is_stopping_once(v: SessionView)
    ensures
        stopped(stopped(v)) == stopped(v),
        !stopped(v).auto_recording,
{
}

/// Whether a character is one that sentences end with.
pub open spec fn is_sentence_end(c: char) -> bool {
    ".!?…:"@.contains(c)
}

proof fn lemma_sentence_ends(c: char)
    ensures
        is_sentence_end(c) <==> c == '.' || c == '!' || c == '?' || c == '…' || c == ':',
{
    reveal_strlit(".!?…:");
    let ends = ".!?…:"@;
    assert(ends[0] == '.' && ends[1] == '!' && ends[2] == '?' && ends[3] == '…' && ends[4] == ':');
}

/// Whether a sentence is finished shows in the last character that is not white space,
/// and in nothing that stands before it.
pub proof fn law_the_last_character_tells(before: Seq<char>, c: char, white: Seq<char>)
    requires
        !is_white(c),
        all_of(white, CharClass::White),
    ensures
        ends_sentence(before.push(c) + white) <==> is_sentence_end(c),
        !ends_sentence(white),
{
    lemma_sentence_ends(c);
    law_trim_end_takes_the_class_off(before.push(c), white, CharClass::White);
    law_trim_end_takes_the_class_off(Seq::empty(), white, CharClass::White);
    assert(Seq::<char>::empty() + white =~= white);
}

/// A sentence that breaks off at a letter goes on, whatever sentences were finished
/// before it.
pub proof fn law_a_letter_leaves_a_sentence_open(before: Seq<char>, c: char, white: Seq<char>)
    requires
        ('a' <= c && c <= 'z') || ('A' <= c && c <= 'Z'),
        all_of(white, CharClass::White),
    ensures
        !ends_sentence(before.push(c) + white),
{
    lemma_sentence_ends(c);
    law_the_last_character_tells(before, c, white);
}

/// Whether a text begins and ends with a character that is not white space.
pub open spec fn is_bare(s: Seq<char>) -> bool {
    s.len() > 0 && !is_white(s[0]) && !is_white(s.last())
}

proof fn lemma_bare_end(s: Seq<char>)
    requires
        is_bare(s),
    ensures
        stripped(s) == s,
        ends_sentence(s) <==> is_sentence_end(s.last()),
{
    let none = Seq::<char>::empty();
    law_trim_leaves_what_stands_between(none, s, none, CharClass::White);
    assert(none + s + none =~= s);
    law_the_last_character_tells(s.drop_last(), s.last(), none);
    assert(s.drop_last().push(s.last()) + none =~= s);
}

/// Two pieces of speech that follow what another speaker said become one utterance with
/// both texts exactly when they are of one speaker, less than four tenths of a second
/// apart, and the first breaks off inside a sentence; otherwise they become two. White
/// space around them is left out.
pub proof fn law_pieces_of_one_sentence_are_one(
    us: Seq<UtteranceView>,
    first: UtteranceView,
    second: UtteranceView,
    before: Seq<char>,
    behind: Seq<char>,
)
    requires
        us.len() == 0 || us.last().speaker != first.speaker,
        is_bare(first.text),
        is_bare(second.text),
        all_of(before, CharClass::White),
        all_of(behind, CharClass::White),
    ensures
        ({
            let once = noted(
                us,
                first.start_ms,
                first.end_ms,
                first.speaker,
                before + first.text + behind,
            );
            let twice = noted(
                once,
                second.start_ms,
                second.end_ms,
                second.speaker,
                before + second.text + behind,
            );
            let apart = first.speaker != second.speaker || second.start_ms >= first.end_ms + 400
                || is_sentence_end(first.text.last());
            &&& once == us.push(first)
            &&& apart ==> twice == us.push(first).push(second)
            &&& !apart ==> twice.len() == us.len() + 1 && twice.drop_last() == us && {
                let u = twice.last();
                &&& u.text == first.text + seq![' '] + second.text
                &&& u.speaker == first.speaker
                &&& u.start_ms == first.start_ms
                &&& u.end_ms >= first.end_ms && u.end_ms >= second.end_ms
                &&& u.end_ms == first.end_ms || u.end_ms == second.end_ms
            }
        }),
{
    law_trim_leaves_what_stands_between(before, first.text, behind, CharClass::White);
    law_trim_leaves_what_stands_between(before, second.text, behind, CharClass::White);
    lemma_bare_end(first.text);
    lemma_bare_end(second.text);
    assert(us.push(first).last() == first);
    assert(us.push(first).drop_last() =~= us);
    assert(first.text.push(' ') + second.text =~= first.text + seq![' '] + second.text);
}

/// Speech without a text is not noted.
pub proof fn law_silence_is_not_noted(
    us: Seq<UtteranceView>,
    start_ms: u64,
    end_ms: u64,
    speaker: Seq<char>,
    white: Seq<char>,
)
    requires
        all_of(white, CharClass::White),
    ensures
        noted(us, start_ms, end_ms, speaker, white) == us,
{
    let none = Seq::<char>::empty();
    law_trim_leaves_what_stands_between(white, none, none, CharClass::White);
    assert(white + none + none =~= white);
}

/// The words of all utterances, one utterance after the other.
pub open spec fn words_spoken(us: Seq<UtteranceView>) -> Seq<Seq<char>>
    decreases us.len(),
{
    if us.len() == 0 {
        Seq::empty()
    } else {
        words_spoken(us.drop_last()) + words(us.last().text)
    }
}

/// The words of segments, one segment after the other.
pub open spec fn words_heard(segments: Seq<Segment>) -> Seq<Seq<char>>
    decreases segments.len(),
{
    if segments.len() == 0 {
        Seq::empty()
    } else {
        words_heard(segments.drop_last()) + words(segments.last().text@)
    }
}

/// Noting speech adds its words behind those noted before, each once and in order,
/// however the pieces are joined.
pub proof fn law_noting_keeps_every_word(
    us: Seq<UtteranceView>,
    start_ms: u64,
    end_ms: u64,
    speaker: Seq<char>,
    text: Seq<char>,
)
    ensures
        words_spoken(noted(us, start_ms, end_ms, speaker, text)) == words_spoken(us) + words(text),
{
    let t = stripped(text);
    let after = noted(us, start_ms, end_ms, speaker, text);
    law_stripping_keeps_the_words(text);
    if t.len() == 0 {
        assert(words(t) =~= Seq::<Seq<char>>::empty());
        assert(words_spoken(us) + words(text) =~= words_spoken(us));
    } else if us.len() > 0 && continues(us.last(), start_ms, speaker) {
        let whole = us.last().text.push(' ') + t;
        assert(whole =~= us.last().text + seq![' '] + t);
        law_white_space_parts_words(us.last().text, ' ', t);
        assert(after.drop_last() =~= us.drop_last());
        assert(after.last().text == whole);
        assert(words_spoken(after) =~= words_spoken(us) + words(text));
    } else {
        assert(after.drop_last() =~= us);
    }
}

proof fn lemma_said_is_noted(v: SessionView, label: Option<Seq<char>>, s: Segment)
    ensures
        v.auto_recording ==> said(v, label, s).utterances == noted(
            v.utterances,
            s.start_ms,
            s.end_ms,
            named(label),
            s.text@,
        ),
        !v.auto_recording ==> said(v, label, s).utterances == v.utterances,
        said(v, label, s).auto_recording == v.auto_recording,
{
}

proof fn lemma_words_in_a_row(a: Seq<Seq<char>>, b: Seq<Seq<char>>, c: Seq<Seq<char>>)
    ensures
        (a + b) + c == a + (b + c),
        a + Seq::empty() == a,
{
    assert((a + b) + c =~= a + (b + c));
    assert(a + Seq::empty() =~= a);
}

/// The utterances of a captured meeting hold the words of every segment, in the order
/// in which they were heard. Nothing is noted while no meeting is captured.
pub proof fn law_utterances_hold_every_word(
    v: SessionView,
    label: Option<Seq<char>>,
    segments: Seq<Segment>,
)
    ensures
        v.auto_recording ==> words_spoken(heard(v, label, segments).utterances) == words_spoken(
            v.utterances,
        ) + words_heard(segments),
        !v.auto_recording ==> heard(v, label, segments).utterances == v.utterances,
        heard(v, label, segments).auto_recording == v.auto_recording,
    decreases segments.len(),
{
    let spoken = words_spoken(v.utterances);
    if segments.len() > 0 {
        let less = segments.drop_last();
        let s = segments.last();
        let so_far = heard(v, label, less);
        law_utterances_hold_every_word(v, label, less);
        lemma_said_is_noted(so_far, label, s);
        law_noting_keeps_every_word(
            so_far.utterances,
            s.start_ms,
            s.end_ms,
            named(label),
            s.text@,
        );
        lemma_words_in_a_row(spoken, words_heard(less), words(s.text@));
    } else {
        lemma_words_in_a_row(spoken, Seq::empty(), Seq::empty());
    }
}

/// A text without a speaker adds its words to the transcript and no others, and leaves
/// who spoke last as it is.
pub proof fn law_plain_text_adds_its_words(v: SessionView, text: Seq<char>)
    ensures
        words(plainly(v, text).transcript) == words(v.transcript) + words(text),
        v.transcript.len() == 0 ==> plainly(v, text).transcript == text,
        v.transcript.len() > 0 ==> plainly(v, text).transcript == v.transcript + seq![' '] + text,
        plainly(v, text).last_speaker == v.last_speaker,
        plainly(v, text).utterances == v.utterances,
        plainly(v, text).others == v.others,
{
    if v.transcript.len() == 0 {
        assert(v.transcript + text =~= text);
        assert(words(v.transcript) =~= Seq::<Seq<char>>::empty());
        assert(words(v.transcript) + words(text) =~= words(text));
    } else {
        law_white_space_parts_words(v.transcript, ' ', text);
        assert(v.transcript.push(' ') + text =~= v.transcript + seq![' '] + text);
    }
}

/// Whether two digits or more for the minutes and two for the seconds tell a position in
/// milliseconds, cut to whole seconds.
pub open spec fn tells_position(minutes: Seq<char>, seconds: Seq<char>, position_ms: u64) -> bool {
    let total = number_in(minutes) * 60 + number_in(seconds);
    &&& all_digits(minutes) && all_digits(seconds)
    &&& minutes.len() >= 2 && seconds.len() == 2
    &&& number_in(seconds) < 60
    &&& number_in(minutes) < 100 ==> minutes.len() == 2
    &&& total * 1000 <= position_ms < (total + 1) * 1000
}

/// A timestamp tells the position: its numbers read back as minutes and seconds.
pub proof fn law_timestamps_tell_the_position(position_ms: u64)
    ensures
        exists|minutes: Seq<char>, seconds: Seq<char>|
            #[trigger] tells_position(minutes, seconds, position_ms) && timestamp(position_ms)
                == seq!['['] + minutes + seq![':'] + seconds + seq![']'],
{
    let m = two_digits((position_ms / 1000 / 60) as nat);
    let s = two_digits((position_ms / 1000 % 60) as nat);
    law_two_digits_read_back((position_ms / 1000 / 60) as nat);
    law_two_digits_read_back((position_ms / 1000 % 60) as nat);
    reveal_strlit("[");
    reveal_strlit(":");
    reveal_strlit("]");
    assert("["@ =~= seq!['[']);
    assert(":"@ =~= seq![':']);
    assert("]"@ =~= seq![']']);
    assert(tells_position(m, s, position_ms));
}

/// The first words of a speaker stand in a paragraph of their own, behind what was said
/// before, with the time and the name in front of them. More words of the same speaker
/// go on in the paragraph, a space behind. Either way the speaker is who spoke last.
pub proof fn law_a_paragraph_names_its_speaker(
    v: SessionView,
    label: Seq<char>,
    position_ms: u64,
    text: Seq<char>,
)
    ensures
        ({
            let after = labelled(v, label, position_ms, text);
            &&& after.last_speaker == Some(label)
            &&& after.utterances == v.utterances && after.others == v.others
            &&& after.auto_recording == v.auto_recording && after.meeting == v.meeting
            &&& v.last_speaker == Some(label) && v.transcript.len() > 0 ==> after.transcript
                == v.transcript + seq![' '] + text
            &&& v.last_speaker == Some(label) && v.transcript.len() == 0 ==> after.transcript
                == text
            &&& v.last_speaker != Some(label) ==> exists|minutes: Seq<char>, seconds: Seq<char>|
                {
                    &&& #[trigger] tells_position(minutes, seconds, position_ms)
                    &&& after.transcript == (if v.transcript.len() > 0 {
                        v.transcript + seq!['\n', '\n']
                    } else {
                        Seq::empty()
                    }) + (seq!['['] + minutes + seq![':'] + seconds + seq![']']) + " **"@ + label
                        + ":** "@ + text
                }
        }),
{
    law_timestamps_tell_the_position(position_ms);
    reveal_strlit("\n\n");
    assert("\n\n"@ =~= seq!['\n', '\n']);
    assert(v.transcript.push(' ') + text =~= v.transcript + seq![' '] + text);
    if v.transcript.len() == 0 {
        assert(v.transcript =~= Seq::<char>::empty());
        assert(v.transcript + text =~= text);
    }
}

/// A segment is written at its start, whether it is noted or not. In a captured meeting it
/// is noted from its start to its end, under its speaker, or as unknown where it has none.
pub proof fn law_a_segment_keeps_its_place(v: SessionView, label: Option<Seq<char>>, s: Segment)
    ensures
        ({
            let after = heard(v, label, seq![s]);
            let name = match label {
                Some(name) => name,
                None => "Unknown"@,
            };
            &&& after.transcript == match label {
                Some(name) => labelled(v, name, s.start_ms, s.text@).transcript,
                None => plainly(v, s.text@).transcript,
            }
            &&& label is None ==> after.last_speaker == v.last_speaker
            &&& label is Some ==> after.last_speaker == label
            &&& v.auto_recording ==> after.utterances == noted(
                v.utterances,
                s.start_ms,
                s.end_ms,
                name,
                s.text@,
            )
            &&& !v.auto_recording ==> after.utterances == v.utterances
            &&& v.auto_recording && v.utterances.len() == 0 && is_bare(s.text@)
                ==> after.utterances == seq![
                UtteranceView {
                    start_ms: s.start_ms,
                    end_ms: s.end_ms,
                    speaker: name,
                    text: s.text@,
                },
            ]
            &&& after.others == v.others && after.meeting == v.meeting
            &&& after.auto_recording == v.auto_recording
        }),
{
    reveal_with_fuel(heard, 2);
    assert(seq![s].drop_last() =~= Seq::empty());
    assert(heard(v, label, seq![s].drop_last()) == v);
    lemma_said_is_noted(v, label, s);
    let after = heard(v, label, seq![s]);
    if v.auto_recording && v.utterances.len() == 0 && is_bare(s.text@) {
        lemma_bare_end(s.text@);
        assert(after.utterances.len() == 1);
        assert(after.utterances =~= seq![after.utterances[0]]);
    }
}

/// Segments that are heard one after the other are heard in that order.
pub proof fn law_hearing_goes_on(
    v: SessionView,
    label: Option<Seq<char>>,
    a: Seq<Segment>,
    b: Seq<Segment>,
)
    ensures
        heard(v, label, a + b) == heard(heard(v, label, a), label, b),
    decreases b.len(),
{
    if b.len() == 0 {
        assert(a + b =~= a);
    } else {
        assert((a + b).drop_last() =~= a + b.drop_last());
        assert((a + b).last() == b.last());
        law_hearing_goes_on(v, label, a, b.drop_last());
    }
}

/// How the sides are called: the near one is me, the far one has its name, both together
/// are me and the name in lower case, and where neither was louder there is no name.
pub proof fn law_sides_have_their_names(others: Seq<char>)
    ensures
        speaker_label(SpeakerHint::Me, others) == Some("Me"@),
        speaker_label(SpeakerHint::Others, others) == Some(others),
        speaker_label(SpeakerHint::Both, others) == Some("Me + "@ + lower_text(others)),
        speaker_label(SpeakerHint::Unknown, others) is None,
{
}

/// The last scrap of sound is kept: the transcript holds it behind all that was said
/// before, under the name of its side, and its words are the last that are noted.
pub proof fn law_the_tail_is_kept(v: SessionView, tail: Tail, position_ms: u64)
    ensures
        ({
            let after = tail_added(v, Some(tail), position_ms);
            let name = speaker_label(tail.hint, v.others);
            &&& v.transcript.is_prefix_of(after.transcript)
            &&& after.transcript == match name {
                Some(name) => labelled(v, name, position_ms, tail.text@).transcript,
                None => plainly(v, tail.text@).transcript,
            }
            &&& after.transcript.skip(after.transcript.len() - tail.text@.len()) == tail.text@
            &&& after.utterances == noted(
                v.utterances,
                position_ms,
                position_ms,
                "Unknown"@,
                tail.text@,
            )
            &&& words_spoken(after.utterances) == words_spoken(v.utterances) + words(tail.text@)
            &&& stripped(tail.text@).len() > 0 ==> listed(
                after.utterances,
                "Unknown"@,
                stripped(tail.text@),
            )
            &&& after.meeting == v.meeting && after.others == v.others
            &&& after.auto_recording == v.auto_recording
            &&& name is Some ==> after.last_speaker == name
            &&& name is None ==> after.last_speaker == v.last_speaker
            &&& tail_added(v, None, position_ms) == v
        }),
{
    let after = tail_added(v, Some(tail), position_ms);
    law_noting_keeps_every_word(
        v.utterances,
        position_ms,
        position_ms,
        "Unknown"@,
        tail.text@,
    );
    if stripped(tail.text@).len() > 0 {
        lemma_noted_lists(v.utterances, position_ms, position_ms, "Unknown"@, tail.text@);
    }
    let t = after.transcript;
    assert(v.transcript =~= t.take(v.transcript.len() as int));
    assert(t.skip(t.len() - tail.text@.len()) =~= tail.text@);
}

/// A capture begins with nothing said, under the name of its source and from its start,
/// and the far end is called by its name where there is one.
pub proof fn law_a_capture_begins_empty(
    source: Seq<char>,
    other_party: Option<Seq<char>>,
    now: Stamp,
)
    ensures
        ({
            let v = begun(source, other_party, now);
            &&& v.transcript.len() == 0 && v.utterances.len() == 0 && v.last_speaker is None
            &&& v.auto_recording && v.meeting == Some((source, now))
            &&& other_party matches Some(name) ==> v.others == name
            &&& other_party is None ==> v.others == "Others"@
            &&& position_at(v, now) == 0
        }),
{
}

/// A recording that is asked for begins with nothing said and no name for the far end,
/// and leaves everything that belongs to a capture as it is.
pub proof fn law_a_recording_by_hand_begins_empty(v: SessionView)
    ensures
        ({
            let now = begun_by_hand(v);
            &&& now.transcript.len() == 0 && now.last_speaker is None && now.others == "Others"@
            &&& now.utterances == v.utterances && now.auto_recording == v.auto_recording
            &&& now.meeting == v.meeting
            &&& stopped(v).transcript == v.transcript && stopped(v).utterances == v.utterances
            &&& stopped(v).others == v.others && stopped(v).meeting == v.meeting
            &&& stopped(v).last_speaker == v.last_speaker
        }),
{
}

/// A position in a meeting is the whole milliseconds since it began.
pub proof fn law_positions_count_from_the_start(v: SessionView, now: Stamp)
    ensures
        v.meeting matches Some((source, started)) ==> position_at(v, now) * 1_000_000 <= elapsed(
            started,
            now,
        ) < (position_at(v, now) + 1) * 1_000_000,
        v.meeting is None ==> position_at(v, now) == 0,
{
}

/// Segments keep their length, their order and their text when they are moved: only where
/// they begin and end changes, by as much as the chunk begins later.
pub proof fn law_moved_segments_stay_the_same(
    segments: Vec<Segment>,
    chunk_start_ms: u64,
    moved: Vec<Segment>,
    i: int,
)
    requires
        call_ensures(offset_segments, (segments, chunk_start_ms), moved),
        0 <= i < segments@.len(),
    ensures
        moved@.len() == segments@.len(),
        moved@[i].text@ == segments@[i].text@,
        moved@[i].start_ms - segments@[i].start_ms == chunk_start_ms,
        moved@[i].end_ms - moved@[i].start_ms == segments@[i].end_ms - segments@[i].start_ms,
{
}

/// What is kept on disk while a meeting runs is the transcript so far under the source and
/// the start of the meeting. Nothing is kept of a recording that was asked for, nor once
/// the capture stopped.
pub proof fn law_a_running_meeting_is_kept(s: Session, r: Option<(String, Stamp, String)>)
    requires
        call_ensures(Session::partial, (&s,), r),
    ensures
        !s@.auto_recording ==> r is None,
        s@.auto_recording && s@.meeting is Some ==> r is Some,
        r matches Some((source, started, text)) ==> s@.meeting == Some((source@, started))
            && text@ == s@.transcript,
{
}

/// A meeting is kept exactly where anything of its transcript can be seen. What is kept is
/// all of it: the transcript as it stands and every utterance, under its own source and
/// start. The far end is named where it has a name of its own.
pub proof fn law_a_meeting_is_kept_whole(
    v: SessionView,
    app_name: Seq<char>,
    now: Stamp,
    before: Seq<char>,
    c: char,
    behind: Seq<char>,
)
    requires
        !is_white(c),
        v.transcript == before + seq![c] + behind,
    ensures
        worth_keeping(v, app_name, now) matches Some(f) && {
            &&& f.text == v.transcript
            &&& f.utterances == v.utterances
            &&& v.meeting matches Some((source, started)) ==> f.source == source && f.started
                == started
            &&& v.meeting is None ==> f.source == app_name && f.started == now
            &&& v.others == "Others"@ ==> f.other_party is None
            &&& v.others != "Others"@ ==> f.other_party == Some(v.others)
        },
{
    let t = v.transcript;
    law_stripping_loses_only_white(t);
    assert(t[before.len() as int] == c);
}

/// Nothing is kept of a meeting in which nothing was said.
pub proof fn law_a_silent_meeting_is_not_kept(v: SessionView, app_name: Seq<char>, now: Stamp)
    requires
        all_of(v.transcript, CharClass::White),
    ensures
        worth_keeping(v, app_name, now) is None,
{
    let none = Seq::<char>::empty();
    law_trim_leaves_what_stands_between(v.transcript, none, none, CharClass::White);
    assert(v.transcript + none + none =~= v.transcript);
}

/// Both sides of a chunk are heard, each under its own name: the near one first, and then
/// the far one. Where one of them is silent, the other is heard as if it were alone.
pub proof fn law_both_sides_are_heard(
    v: SessionView,
    mine: Seq<Segment>,
    theirs: Seq<Segment>,
)
    ensures
        v.auto_recording ==> words_spoken(heard_apart(v, mine, theirs).utterances) == words_spoken(
            v.utterances,
        ) + words_heard(mine) + words_heard(theirs),
        theirs.len() == 0 ==> heard_apart(v, mine, theirs) == heard(v, Some("Me"@), mine),
        mine.len() == 0 ==> heard_apart(v, mine, theirs) == heard(v, Some(v.others), theirs),
        theirs.len() > 0 ==> heard_apart(v, mine, theirs).last_speaker == Some(v.others),
        v.transcript.is_prefix_of(heard(v, Some("Me"@), mine).transcript),
        heard(v, Some("Me"@), mine).transcript.is_prefix_of(
            heard_apart(v, mine, theirs).transcript,
        ),
{
    let first = heard(v, Some("Me"@), mine);
    law_utterances_hold_every_word(v, Some("Me"@), mine);
    law_utterances_hold_every_word(first, Some(v.others), theirs);
    law_everything_heard_is_kept(v, Some("Me"@), mine);
    law_everything_heard_is_kept(first, Some(v.others), theirs);
}

/// A recording that was asked for ends with its tail behind all that was said, and as it is
/// where there is none.
pub proof fn law_a_recording_by_hand_ends_with_its_tail(v: SessionView, tail: Tail)
    ensures
        ended_by_hand(v, None) == v,
        v.transcript.is_prefix_of(ended_by_hand(v, Some(tail)).transcript),
        ended_by_hand(v, Some(tail)).transcript == tail_added(v, Some(tail), 0).transcript,
        ended_by_hand(v, Some(tail)).utterances == v.utterances,
{
    law_the_tail_is_kept(v, tail, 0);
}

/// A meeting that begins never disturbs a recording that is running, and changes nothing
/// where no capture could be started.
pub proof fn law_a_running_recording_is_left_alone(
    v: SessionView,
    already_recording: bool,
    opened: bool,
    source: Seq<char>,
    other_party: Option<Seq<char>>,
    now: Stamp,
)
    ensures
        already_recording || !opened ==> meeting_begun(
            v,
            already_recording,
            opened,
            source,
            other_party,
            now,
        ) == v,
        !already_recording && opened ==> {
            let after = meeting_begun(v, already_recording, opened, source, other_party, now);
            &&& after.auto_recording && after.meeting == Some((source, now))
            &&& after.transcript.len() == 0 && after.utterances.len() == 0
            &&& other_party matches Some(name) ==> after.others == name
        },
{
}

} // verus!

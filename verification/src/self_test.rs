//! The report of a self-test: a short trial recording that shows whether an
//! unattended machine can hear, write and transcribe.

use vstd::prelude::*;

use crate::clock::{second_date, Stamp};
use crate::text::{
    begins, decimal, lemma_occurs_last, lemma_occurs_left, lemma_occurs_right, occurs, replace_char,
    replaced, to_decimal,
};

verus! {

// ---------------------------------------------------------------------------
// What was found
// ---------------------------------------------------------------------------

/// Whether the data directory can be written to.
#[derive(Debug)]
pub enum DataDirectory {
    Writable { place: String },
    NotWritable { place: String, error: String },
    Unknown,
}

/// What came of playing a tone.
#[derive(Debug)]
pub enum Tone {
    Played,
    NotPlayed { error: String },
    Failed { error: String },
}

/// What one side of the recording holds: the number of samples, their loudness to
/// four places, and whether nothing can be heard.
#[derive(Debug)]
pub struct Loudness {
    pub samples: u64,
    pub rms: String,
    pub peak: String,
    pub silent: bool,
}

/// What came of transcribing the recording.
#[derive(Debug)]
pub enum Heard {
    Text { text: String },
    Nothing,
    Failed { error: String },
}

/// A trial recording.
#[derive(Debug)]
pub struct Trial {
    pub tone: Tone,
    pub microphone: Loudness,
    pub system: Loudness,
    pub heard: Heard,
}

/// Everything that a self-test finds out.
#[derive(Debug)]
pub struct Findings {
    pub cuda: bool,
    pub data_directory: DataDirectory,
    pub model: String,
    pub model_present: bool,
    pub trial: Result<Trial, String>,
}

// ---------------------------------------------------------------------------
// The report
// ---------------------------------------------------------------------------

/// When the test ran, and on what build.
pub open spec fn heading(date: Seq<char>, cuda: bool) -> Seq<char> {
    "# Platypus self-test\n\n- Run at: "@ + date + "\n- Build: "@ + (if cuda {
        "CUDA"@
    } else {
        "CPU"@
    }) + "\n\n"@
}

/// Whether the data directory can be written to.
pub open spec fn data_line(d: DataDirectory) -> Seq<char> {
    match d {
        DataDirectory::Writable { place } => "- [ok] Data directory writable: "@ + place@ + "\n"@,
        DataDirectory::NotWritable { place, error } => "- [FAIL] Data directory not writable ("@
            + place@ + "): "@ + error@ + "\n"@,
        DataDirectory::Unknown => "- [FAIL] Could not resolve the data directory\n"@,
    }
}

/// Whether the model is there.
pub open spec fn model_line(model: Seq<char>, present: bool) -> Seq<char> {
    if present {
        "- [ok] Whisper model present: "@ + model + "\n"@
    } else {
        "- [FAIL] Whisper model missing: "@ + model + " - run fetch-whisper-model.ps1\n"@
    }
}

/// Whether the tone was played.
pub open spec fn tone_line(t: Tone) -> Seq<char> {
    match t {
        Tone::Played => "- [ok] Playback stream opened\n"@,
        Tone::NotPlayed { error } => "- [warn] Could not play the tone: "@ + error@ + "\n"@,
        Tone::Failed { error } => "- [warn] Playback task failed: "@ + error@ + "\n"@,
    }
}

/// Whether the microphone was heard.
pub open spec fn microphone_line(l: Loudness) -> Seq<char> {
    if l.samples == 0 {
        "- [FAIL] No microphone samples captured\n"@
    } else if l.silent {
        "- [FAIL] Microphone silent ("@ + decimal(l.samples as nat) + " samples, peak "@ + l.peak@
            + ") - check the input device and Windows privacy settings\n"@
    } else {
        "- [ok] Microphone captured "@ + decimal(l.samples as nat) + " samples (rms "@ + l.rms@
            + ", peak "@ + l.peak@ + ")\n"@
    }
}

/// Whether the tone came back through the speakers.
pub open spec fn system_line(l: Loudness) -> Seq<char> {
    if l.samples == 0 {
        "- [FAIL] No system audio captured - loopback did not open (see the log for 'System audio capture:')\n"@
    } else if l.silent {
        "- [FAIL] System audio silent ("@ + decimal(l.samples as nat)
            + " samples) - the tone did not reach the capture; is the output device muted?\n"@
    } else {
        "- [ok] System audio captured "@ + decimal(l.samples as nat) + " samples (peak "@ + l.peak@
            + ") - the tone came back\n"@
    }
}

/// What the model made of the microphone.
pub open spec fn heard_line(microphone: Loudness, h: Heard) -> Seq<char> {
    if microphone.samples == 0 {
        "- skipped, nothing was recorded\n"@
    } else {
        match h {
            Heard::Text { text } => "- [ok] Whisper returned: \""@ + replaced(text@, '\n', " "@)
                + "\"\n"@,
            Heard::Nothing =>
                "- [warn] Whisper returned nothing - either silence, or the model is not loaded\n"@,
            Heard::Failed { error } => "- [FAIL] Transcription task failed: "@ + error@ + "\n"@,
        }
    }
}

/// The report up to the trial recording.
pub open spec fn report_start(date: Seq<char>, f: Findings) -> Seq<char> {
    heading(date, f.cuda) + data_line(f.data_directory) + model_line(f.model@, f.model_present)
        + "\n## Capture\n\n"@
}

/// The report on the trial recording.
pub open spec fn report_end(t: Trial) -> Seq<char> {
    "- Playing a 440 Hz tone for 3 seconds - speak now as well\n"@ + tone_line(t.tone)
        + microphone_line(t.microphone) + system_line(t.system) + "\n## Transcription\n\n"@
        + heard_line(t.microphone, t.heard) + "\n## Meeting detection\n\n"@
        + "- Detection watches which application holds the microphone. To check it, join a call and look for 'Meeting detected on' in data/logs.\n"@
}

/// The report. It ends early where nothing could be recorded.
pub open spec fn report(date: Seq<char>, f: Findings) -> Seq<char> {
    report_start(date, f) + match f.trial {
        Ok(t) => report_end(t),
        Err(error) => "- [FAIL] Could not start recording: "@ + error@ + "\n"@,
    }
}

fn heading_text(date: &str, cuda: bool) -> (r: String)
    ensures
        r@ == heading(date@, cuda),
{
    let mut r = "# Platypus self-test\n\n- Run at: ".to_owned();
    r.append(date);
    r.append("\n- Build: ");
    r.append(
        if cuda {
            "CUDA"
        } else {
            "CPU"
        },
    );
    r.append("\n\n");
    r
}

fn data_text(d: &DataDirectory) -> (r: String)
    ensures
        r@ == data_line(*d),
{
    match d {
        DataDirectory::Writable { place } => {
            let mut r = "- [ok] Data directory writable: ".to_owned();
            r.append(place.as_str());
            r.append("\n");
            r
        },
        DataDirectory::NotWritable { place, error } => {
            let mut r = "- [FAIL] Data directory not writable (".to_owned();
            r.append(place.as_str());
            r.append("): ");
            r.append(error.as_str());
            r.append("\n");
            r
        },
        DataDirectory::Unknown => "- [FAIL] Could not resolve the data directory\n".to_owned(),
    }
}

fn model_text(model: &str, present: bool) -> (r: String)
    ensures
        r@ == model_line(model@, present),
{
    if present {
        let mut r = "- [ok] Whisper model present: ".to_owned();
        r.append(model);
        r.append("\n");
        r
    } else {
        let mut r = "- [FAIL] Whisper model missing: ".to_owned();
        r.append(model);
        r.append(" - run fetch-whisper-model.ps1\n");
        r
    }
}

fn tone_text(t: &Tone) -> (r: String)
    ensures
        r@ == tone_line(*t),
{
    match t {
        Tone::Played => "- [ok] Playback stream opened\n".to_owned(),
        Tone::NotPlayed { error } => {
            let mut r = "- [warn] Could not play the tone: ".to_owned();
            r.append(error.as_str());
            r.append("\n");
            r
        },
        Tone::Failed { error } => {
            let mut r = "- [warn] Playback task failed: ".to_owned();
            r.append(error.as_str());
            r.append("\n");
            r
        },
    }
}

fn microphone_text(l: &Loudness) -> (r: String)
    ensures
        r@ == microphone_line(*l),
{
    if l.samples == 0 {
        return "- [FAIL] No microphone samples captured\n".to_owned();
    }
    let samples = to_decimal(l.samples);
    if l.silent {
        let mut r = "- [FAIL] Microphone silent (".to_owned();
        r.append(samples.as_str());
        r.append(" samples, peak ");
        r.append(l.peak.as_str());
        r.append(") - check the input device and Windows privacy settings\n");
        r
    } else {
        let mut r = "- [ok] Microphone captured ".to_owned();
        r.append(samples.as_str());
        r.append(" samples (rms ");
        r.append(l.rms.as_str());
        r.append(", peak ");
        r.append(l.peak.as_str());
        r.append(")\n");
        r
    }
}

fn system_text(l: &Loudness) -> (r: String)
    ensures
        r@ == system_line(*l),
{
    if l.samples == 0 {
        return "- [FAIL] No system audio captured - loopback did not open (see the log for 'System audio capture:')\n".to_owned();
    }
    let samples = to_decimal(l.samples);
    if l.silent {
        let mut r = "- [FAIL] System audio silent (".to_owned();
        r.append(samples.as_str());
        r.append(
            " samples) - the tone did not reach the capture; is the output device muted?\n",
        );
        r
    } else {
        let mut r = "- [ok] System audio captured ".to_owned();
        r.append(samples.as_str());
        r.append(" samples (peak ");
        r.append(l.peak.as_str());
        r.append(") - the tone came back\n");
        r
    }
}

fn heard_text(microphone: &Loudness, h: &Heard) -> (r: String)
    ensures
        r@ == heard_line(*microphone, *h),
{
    if microphone.samples == 0 {
        return "- skipped, nothing was recorded\n".to_owned();
    }
    match h {
        Heard::Text { text } => {
            let one_line = replace_char(text.as_str(), '\n', " ");
            let mut r = "- [ok] Whisper returned: \"".to_owned();
            r.append(one_line.as_str());
            r.append("\"\n");
            r
        },
        Heard::Nothing =>
            "- [warn] Whisper returned nothing - either silence, or the model is not loaded\n".to_owned(),
        Heard::Failed { error } => {
            let mut r = "- [FAIL] Transcription task failed: ".to_owned();
            r.append(error.as_str());
            r.append("\n");
            r
        },
    }
}

fn trial_text(t: &Trial) -> (r: String)
    ensures
        r@ == report_end(*t),
{
    let mut r = "- Playing a 440 Hz tone for 3 seconds - speak now as well\n".to_owned();
    r.append(tone_text(&t.tone).as_str());
    r.append(microphone_text(&t.microphone).as_str());
    r.append(system_text(&t.system).as_str());
    r.append("\n## Transcription\n\n");
    r.append(heard_text(&t.microphone, &t.heard).as_str());
    r.append("\n## Meeting detection\n\n");
    r.append(
        "- Detection watches which application holds the microphone. To check it, join a call and look for 'Meeting detected on' in data/logs.\n",
    );
    r
}

/// The report of a self-test as Markdown, given the date and time as text.
pub fn report_dated(date: &str, f: &Findings) -> (r: String)
    ensures
        r@ == report(date@, *f),
{
    let mut r = heading_text(date, f.cuda);
    r.append(data_text(&f.data_directory).as_str());
    r.append(model_text(f.model.as_str(), f.model_present).as_str());
    r.append("\n## Capture\n\n");
    match &f.trial {
        Ok(t) => {
            r.append(trial_text(t).as_str());
        },
        Err(error) => {
            let mut line = "- [FAIL] Could not start recording: ".to_owned();
            line.append(error.as_str());
            line.append("\n");
            r.append(line.as_str());
        },
    }
    r
}

/// The report of a self-test as Markdown.
pub fn run(now: &Stamp, f: &Findings) -> (r: String)
    ensures
        r@ == report(second_date(*now), *f),
{
    let date = now.second_text();
    report_dated(date.as_str(), f)
}

// ---------------------------------------------------------------------------
// Laws
// ---------------------------------------------------------------------------

proof fn lemma_occurs_in_four(a: Seq<char>, p: Seq<char>, q: Seq<char>, b: Seq<char>)
    ensures
        occurs(a + p + q + b, p),
        occurs(a + p + q + b, q),
{
    lemma_occurs_last(a, p);
    lemma_occurs_left(a + p, q, p);
    lemma_occurs_left(a + p + q, b, p);
    lemma_occurs_last(a + p, q);
    lemma_occurs_left(a + p + q, b, q);
}

proof fn lemma_later(
    early: Seq<char>,
    b: Seq<char>,
    h: Seq<char>,
    e: Seq<char>,
    d: Seq<char>,
    part: Seq<char>,
)
    requires
        occurs(early, part),
    ensures
        occurs(early + b + h + e + d, part),
{
    lemma_occurs_left(early, b, part);
    lemma_occurs_left(early + b, h, part);
    lemma_occurs_left(early + b + h, e, part);
    lemma_occurs_left(early + b + h + e, d, part);
}

proof fn lemma_trial_answers(t: Trial)
    ensures
        occurs(report_end(t), tone_line(t.tone)),
        occurs(report_end(t), microphone_line(t.microphone)),
        occurs(report_end(t), system_line(t.system)),
        occurs(report_end(t), heard_line(t.microphone, t.heard)),
{
    let p = tone_line(t.tone);
    let q = microphone_line(t.microphone);
    let s = system_line(t.system);
    let b = "\n## Transcription\n\n"@;
    let h = heard_line(t.microphone, t.heard);
    let e = "\n## Meeting detection\n\n"@;
    let d =
        "- Detection watches which application holds the microphone. To check it, join a call and look for 'Meeting detected on' in data/logs.\n"@;
    let x = "- Playing a 440 Hz tone for 3 seconds - speak now as well\n"@;
    let early = x + p + q + s;
    let late = early + b + h + e;
    lemma_occurs_in_four(x, p, q, s);
    lemma_occurs_last(x + p + q, s);
    lemma_later(early, b, h, e, d, p);
    lemma_later(early, b, h, e, d, q);
    lemma_later(early, b, h, e, d, s);
    lemma_occurs_in_four(early + b, h, e, d);
    assert(report_end(t) == late + d);
}

/// The report answers every question: whether the data directory can be written
/// to and whether the model is there, and, where something could be recorded,
/// whether the tone was played, the microphone was heard, the tone came back and
/// what the model made of it.
pub proof fn law_report_answers_every_question(date: Seq<char>, f: Findings)
    ensures
        occurs(report(date, f), data_line(f.data_directory)),
        occurs(report(date, f), model_line(f.model@, f.model_present)),
        f.trial matches Ok(t) ==> {
            &&& occurs(report(date, f), tone_line(t.tone))
            &&& occurs(report(date, f), microphone_line(t.microphone))
            &&& occurs(report(date, f), system_line(t.system))
            &&& occurs(report(date, f), heard_line(t.microphone, t.heard))
        },
{
    let head = heading(date, f.cuda);
    let data = data_line(f.data_directory);
    let model = model_line(f.model@, f.model_present);
    let start = report_start(date, f);
    lemma_occurs_in_four(head, data, model, "\n## Capture\n\n"@);
    match f.trial {
        Ok(t) => {
            let end = report_end(t);
            lemma_occurs_left(start, end, data);
            lemma_occurs_left(start, end, model);
            lemma_trial_answers(t);
            lemma_occurs_right(start, end, tone_line(t.tone));
            lemma_occurs_right(start, end, microphone_line(t.microphone));
            lemma_occurs_right(start, end, system_line(t.system));
            lemma_occurs_right(start, end, heard_line(t.microphone, t.heard));
        },
        Err(error) => {
            let end = "- [FAIL] Could not start recording: "@ + error@ + "\n"@;
            lemma_occurs_left(start, end, data);
            lemma_occurs_left(start, end, model);
        },
    }
}

proof fn lemma_marked(mark: Seq<char>, head: Seq<char>, rest: Seq<char>)
    requires
        begins(head, mark),
    ensures
        begins(head + rest, mark),
{
    assert((head + rest).take(mark.len() as int) =~= head.take(mark.len() as int));
}

proof fn lemma_marks_differ(s: Seq<char>)
    ensures
        begins(s, "- [ok] "@) ==> !begins(s, "- [FAIL] "@) && !begins(s, "- [warn] "@),
        begins(s, "- [FAIL] "@) ==> !begins(s, "- [warn] "@),
{
    reveal_strlit("- [ok] ");
    reveal_strlit("- [FAIL] ");
    reveal_strlit("- [warn] ");
    if begins(s, "- [ok] "@) {
        assert(s.take(7)[3] == s[3]);
        assert("- [ok] "@[3] == 'o');
    }
    if begins(s, "- [FAIL] "@) {
        assert(s.take(9)[3] == s[3]);
        assert("- [FAIL] "@[3] == 'F');
    }
    if begins(s, "- [warn] "@) {
        assert(s.take(9)[3] == s[3]);
        assert("- [warn] "@[3] == 'w');
    }
}

/// The line on the data directory begins with the verdict, and names the place and what is
/// wrong with it.
pub proof fn law_the_data_line_tells_the_verdict(d: DataDirectory)
    ensures
        begins(data_line(d), "- [ok] "@) <==> d is Writable,
        begins(data_line(d), "- [FAIL] "@) <==> !(d is Writable),
        match d {
            DataDirectory::Writable { place } => occurs(data_line(d), place@),
            DataDirectory::NotWritable { place, error } => occurs(data_line(d), place@) && occurs(
                data_line(d),
                error@,
            ),
            DataDirectory::Unknown => true,
        },
{
    lemma_marks_differ(data_line(d));
    reveal_strlit("- [ok] ");
    reveal_strlit("- [FAIL] ");
    match d {
        DataDirectory::Writable { place } => {
            let head = "- [ok] Data directory writable: "@;
            reveal_strlit("- [ok] Data directory writable: ");
            assert(head.take(7) =~= "- [ok] "@);
            lemma_marked("- [ok] "@, head, place@);
            lemma_marked("- [ok] "@, head + place@, "\n"@);
            lemma_occurs_last(head, place@);
            lemma_occurs_left(head + place@, "\n"@, place@);
        },
        DataDirectory::NotWritable { place, error } => {
            let head = "- [FAIL] Data directory not writable ("@;
            reveal_strlit("- [FAIL] Data directory not writable (");
            assert(head.take(9) =~= "- [FAIL] "@);
            lemma_marked("- [FAIL] "@, head, place@);
            lemma_marked("- [FAIL] "@, head + place@, "): "@);
            lemma_marked("- [FAIL] "@, head + place@ + "): "@, error@);
            lemma_marked("- [FAIL] "@, head + place@ + "): "@ + error@, "\n"@);
            lemma_occurs_last(head, place@);
            lemma_occurs_left(head + place@, "): "@, place@);
            lemma_occurs_left(head + place@ + "): "@, error@, place@);
            lemma_occurs_left(head + place@ + "): "@ + error@, "\n"@, place@);
            lemma_occurs_last(head + place@ + "): "@, error@);
            lemma_occurs_left(head + place@ + "): "@ + error@, "\n"@, error@);
        },
        DataDirectory::Unknown => {
            reveal_strlit("- [FAIL] Could not resolve the data directory\n");
            assert(data_line(d).take(9) =~= "- [FAIL] "@);
        },
    }
}

/// The line on the model begins with the verdict and names the model.
pub proof fn law_the_model_line_tells_the_verdict(model: Seq<char>, present: bool)
    ensures
        begins(model_line(model, present), "- [ok] "@) <==> present,
        begins(model_line(model, present), "- [FAIL] "@) <==> !present,
        occurs(model_line(model, present), model),
{
    lemma_marks_differ(model_line(model, present));
    reveal_strlit("- [ok] ");
    reveal_strlit("- [FAIL] ");
    reveal_strlit("- [ok] Whisper model present: ");
    reveal_strlit("- [FAIL] Whisper model missing: ");
    let head = if present {
        "- [ok] Whisper model present: "@
    } else {
        "- [FAIL] Whisper model missing: "@
    };
    let tail = if present {
        "\n"@
    } else {
        " - run fetch-whisper-model.ps1\n"@
    };
    assert(present ==> head.take(7) =~= "- [ok] "@);
    assert(!present ==> head.take(9) =~= "- [FAIL] "@);
    let mark = if present {
        "- [ok] "@
    } else {
        "- [FAIL] "@
    };
    lemma_marked(mark, head, model);
    lemma_marked(mark, head + model, tail);
    lemma_occurs_last(head, model);
    lemma_occurs_left(head + model, tail, model);
}

proof fn lemma_five(
    mark: Seq<char>,
    a: Seq<char>,
    b: Seq<char>,
    c: Seq<char>,
    d: Seq<char>,
    e: Seq<char>,
)
    requires
        begins(a, mark),
    ensures
        begins(a + b + c + d + e, mark),
        occurs(a + b + c + d + e, b),
        occurs(a + b + c + d + e, d),
{
    lemma_marked(mark, a, b);
    lemma_marked(mark, a + b, c);
    lemma_marked(mark, a + b + c, d);
    lemma_marked(mark, a + b + c + d, e);
    lemma_occurs_last(a, b);
    lemma_occurs_left(a + b, c, b);
    lemma_occurs_left(a + b + c, d, b);
    lemma_occurs_left(a + b + c + d, e, b);
    lemma_occurs_last(a + b + c, d);
    lemma_occurs_left(a + b + c + d, e, d);
}

/// The line on the microphone is good exactly where something was heard of it, and tells
/// how many samples came and how loud they were.
pub proof fn law_the_microphone_line_tells_the_verdict(l: Loudness)
    ensures
        begins(microphone_line(l), "- [ok] "@) <==> l.samples > 0 && !l.silent,
        begins(microphone_line(l), "- [FAIL] "@) <==> l.samples == 0 || l.silent,
        l.samples > 0 ==> occurs(microphone_line(l), l.peak@) && occurs(
            microphone_line(l),
            decimal(l.samples as nat),
        ),
        l.samples > 0 && !l.silent ==> occurs(microphone_line(l), l.rms@),
{
    lemma_marks_differ(microphone_line(l));
    reveal_strlit("- [ok] ");
    reveal_strlit("- [FAIL] ");
    let n = decimal(l.samples as nat);
    if l.samples == 0 {
        reveal_strlit("- [FAIL] No microphone samples captured\n");
        assert(microphone_line(l).take(9) =~= "- [FAIL] "@);
    } else if l.silent {
        let head = "- [FAIL] Microphone silent ("@;
        reveal_strlit("- [FAIL] Microphone silent (");
        assert(head.take(9) =~= "- [FAIL] "@);
        lemma_five(
            "- [FAIL] "@,
            head,
            n,
            " samples, peak "@,
            l.peak@,
            ") - check the input device and Windows privacy settings\n"@,
        );
    } else {
        let head = "- [ok] Microphone captured "@;
        reveal_strlit("- [ok] Microphone captured ");
        assert(head.take(7) =~= "- [ok] "@);
        let some = head + n + " samples (rms "@ + l.rms@ + ", peak "@;
        lemma_five("- [ok] "@, head, n, " samples (rms "@, l.rms@, ", peak "@);
        lemma_marked("- [ok] "@, some, l.peak@);
        lemma_marked("- [ok] "@, some + l.peak@, ")\n"@);
        lemma_occurs_left(some, l.peak@, n);
        lemma_occurs_left(some + l.peak@, ")\n"@, n);
        lemma_occurs_left(some, l.peak@, l.rms@);
        lemma_occurs_left(some + l.peak@, ")\n"@, l.rms@);
        lemma_occurs_last(some, l.peak@);
        lemma_occurs_left(some + l.peak@, ")\n"@, l.peak@);
    }
}

/// The line on the speakers is good exactly where the tone came back, and tells how many
/// samples came.
pub proof fn law_the_system_line_tells_the_verdict(l: Loudness)
    ensures
        begins(system_line(l), "- [ok] "@) <==> l.samples > 0 && !l.silent,
        begins(system_line(l), "- [FAIL] "@) <==> l.samples == 0 || l.silent,
        l.samples > 0 ==> occurs(system_line(l), decimal(l.samples as nat)),
        l.samples > 0 && !l.silent ==> occurs(system_line(l), l.peak@),
{
    lemma_marks_differ(system_line(l));
    reveal_strlit("- [ok] ");
    reveal_strlit("- [FAIL] ");
    let n = decimal(l.samples as nat);
    if l.samples == 0 {
        reveal_strlit(
            "- [FAIL] No system audio captured - loopback did not open (see the log for 'System audio capture:')\n",
        );
        assert(system_line(l).take(9) =~= "- [FAIL] "@);
    } else if l.silent {
        let head = "- [FAIL] System audio silent ("@;
        let tail =
            " samples) - the tone did not reach the capture; is the output device muted?\n"@;
        reveal_strlit("- [FAIL] System audio silent (");
        assert(head.take(9) =~= "- [FAIL] "@);
        lemma_marked("- [FAIL] "@, head, n);
        lemma_marked("- [FAIL] "@, head + n, tail);
        lemma_occurs_last(head, n);
        lemma_occurs_left(head + n, tail, n);
    } else {
        let head = "- [ok] System audio captured "@;
        reveal_strlit("- [ok] System audio captured ");
        assert(head.take(7) =~= "- [ok] "@);
        lemma_five(
            "- [ok] "@,
            head,
            n,
            " samples (peak "@,
            l.peak@,
            ") - the tone came back\n"@,
        );
    }
}

proof fn lemma_replaced_place_by_place(s: Seq<char>)
    ensures
        replaced(s, '\n', " "@).len() == s.len(),
        forall|i: int|
            0 <= i < s.len() ==> #[trigger] replaced(s, '\n', " "@)[i] == if s[i] == '\n' {
                ' '
            } else {
                s[i]
            },
    decreases s.len(),
{
    reveal_strlit(" ");
    if s.len() > 0 {
        let less = s.drop_last();
        lemma_replaced_place_by_place(less);
        let r = replaced(s, '\n', " "@);
        let q = replaced(less, '\n', " "@);
        assert(r.len() == q.len() + 1);
        assert forall|i: int| 0 <= i < s.len() implies #[trigger] r[i] == if s[i] == '\n' {
            ' '
        } else {
            s[i]
        } by {
            if i < less.len() {
                assert(r[i] == q[i]);
                assert(less[i] == s[i]);
            }
        }
    }
}

/// What the model heard stands in one line, between quotes: it is the text, place by place,
/// with a space for each line break. Nothing is said of it where nothing was recorded.
pub proof fn law_what_was_heard_stands_in_one_line(l: Loudness, text: String, error: String)
    ensures
        l.samples == 0 ==> heard_line(l, Heard::Text { text }) == heard_line(l, Heard::Nothing),
        l.samples > 0 ==> exists|line: Seq<char>|
            {
                &&& heard_line(l, Heard::Text { text }) == #[trigger] (
                "- [ok] Whisper returned: \""@ + line + "\"\n"@)
                &&& line.len() == text@.len()
                &&& forall|i: int|
                    0 <= i < line.len() ==> #[trigger] line[i] == if text@[i] == '\n' {
                        ' '
                    } else {
                        text@[i]
                    }
            },
        l.samples > 0 ==> heard_line(l, Heard::Failed { error })
            == "- [FAIL] Transcription task failed: "@ + error@ + "\n"@,
{
    lemma_replaced_place_by_place(text@);
    let line = replaced(text@, '\n', " "@);
    if l.samples > 0 {
        assert(heard_line(l, Heard::Text { text }) == "- [ok] Whisper returned: \""@ + line
            + "\"\n"@);
    }
}

/// The tone line tells what is wrong with it, if anything.
pub proof fn law_the_tone_line_tells_what_is_wrong(error: String)
    ensures
        tone_line(Tone::Played) == "- [ok] Playback stream opened\n"@,
        tone_line(Tone::NotPlayed { error }) == "- [warn] Could not play the tone: "@ + error@
            + "\n"@,
        tone_line(Tone::Failed { error }) == "- [warn] Playback task failed: "@ + error@ + "\n"@,
{
}

/// The report begins with when the test ran and on what build, and a recording that could
/// not be started is the last it tells of.
pub proof fn law_the_report_begins_with_its_date(date: Seq<char>, f: Findings)
    ensures
        begins(report(date, f), "# Platypus self-test\n\n- Run at: "@ + date + "\n- Build: "@),
        occurs(report(date, f), if f.cuda {
            "- Build: CUDA\n"@
        } else {
            "- Build: CPU\n"@
        }),
        f.trial matches Err(error) ==> report(date, f) == report_start(date, f)
            + "- [FAIL] Could not start recording: "@ + error@ + "\n"@,
{
    let top = "# Platypus self-test\n\n- Run at: "@ + date + "\n- Build: "@;
    let build = if f.cuda {
        "CUDA"@
    } else {
        "CPU"@
    };
    let head = heading(date, f.cuda);
    let data = data_line(f.data_directory);
    let model = model_line(f.model@, f.model_present);
    let end = match f.trial {
        Ok(t) => report_end(t),
        Err(error) => "- [FAIL] Could not start recording: "@ + error@ + "\n"@,
    };
    assert(top.take(top.len() as int) =~= top);
    lemma_marked(top, top, build);
    lemma_marked(top, top + build, "\n\n"@);
    lemma_marked(top, head, data);
    lemma_marked(top, head + data, model);
    lemma_marked(top, head + data + model, "\n## Capture\n\n"@);
    lemma_marked(top, report_start(date, f), end);
    let line = if f.cuda {
        "- Build: CUDA\n"@
    } else {
        "- Build: CPU\n"@
    };
    reveal_strlit("\n- Build: ");
    reveal_strlit("- Build: CUDA\n");
    reveal_strlit("- Build: CPU\n");
    reveal_strlit("CUDA");
    reveal_strlit("CPU");
    reveal_strlit("\n\n");
    let from = "# Platypus self-test\n\n- Run at: "@ + date + seq!['\n'];
    assert("\n- Build: "@ + build + "\n\n"@ =~= seq!['\n'] + line + seq!['\n']);
    assert(head =~= "# Platypus self-test\n\n- Run at: "@ + date + ("\n- Build: "@ + build
        + "\n\n"@));
    assert(head =~= from + line + seq!['\n']);
    lemma_occurs_last(from, line);
    lemma_occurs_left(from + line, seq!['\n'], line);
    lemma_occurs_left(head, data, line);
    lemma_occurs_left(head + data, model, line);
    lemma_occurs_left(head + data + model, "\n## Capture\n\n"@, line);
    lemma_occurs_left(report_start(date, f), end, line);
    match f.trial {
        Ok(t) => {},
        Err(error) => {
            let start = report_start(date, f);
            let said = "- [FAIL] Could not start recording: "@;
            assert(start + (said + error@ + "\n"@) =~= start + said + error@ + "\n"@);
        },
    }
}

} // verus!

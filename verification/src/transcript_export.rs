//! Finished transcripts as Markdown files: what they are called and what they
//! say.

use vstd::prelude::*;

use crate::clock::{elapsed, file_date, minute_date, second_date, Stamp};
use crate::portable::{app_data_dir, app_data_place, child, Base, Detection, Location};
use crate::text::{
    all_digits, all_of, ascii_lower, ascii_lower_char, decimal, digit, from_chars, joined,
    law_numbers_read_back, law_trim_leaves_what_stands_between, law_trim_loses_only_the_class,
    lemma_occurs_last, lemma_occurs_left, lemma_occurs_right, lemma_replaced_concat,
    lemma_replaced_nothing, lemma_replaced_one, lower_char, number_in, occurs, replaced, same,
    stripped, text_in, texts, to_chars, to_decimal, trim, trim_class, trim_end, trim_start,
    trim_white, word_count, words, CharClass,
};

verus! {

/// Where transcripts go.
pub open spec fn transcripts_place(state: Detection) -> (Base, Seq<Seq<char>>) {
    child(app_data_place(state), "transcripts"@)
}

/// The directory that transcripts are written to.
pub fn transcripts_dir(state: Detection) -> (r: Location)
    ensures
        r@ == transcripts_place(state),
{
    app_data_dir(state).join("transcripts")
}

// ---------------------------------------------------------------------------
// Slugs
// ---------------------------------------------------------------------------

/// Whether a character is an ASCII letter or digit.
pub open spec fn is_alphanumeric(c: char) -> bool {
    ('a' <= c && c <= 'z') || ('A' <= c && c <= 'Z') || ('0' <= c && c <= '9')
}

/// `s` with its ASCII letters in lower case and each run of other characters
/// than letters and digits as one dash.
pub open spec fn dashed(s: Seq<char>) -> Seq<char>
    decreases s.len(),
{
    if s.len() == 0 {
        Seq::empty()
    } else {
        let d = dashed(s.drop_last());
        if is_alphanumeric(s.last()) {
            d.push(ascii_lower_char(s.last()))
        } else if d.len() > 0 && d.last() == '-' {
            d
        } else {
            d.push('-')
        }
    }
}

/// The slug of a text: its runs of ASCII letters and digits, in lower case, with
/// a dash between each two.
pub open spec fn slug(s: Seq<char>) -> Seq<char> {
    trim(dashed(s), CharClass::Just('-'))
}

/// Makes the slug of a text.
pub fn slugify(value: &str) -> (r: String)
    ensures
        r@ == slug(value@),
{
    let mut out = String::new();
    let mut last_dash = false;
    for c in it: value.chars()
        invariant
            out@ == dashed(value@.take(it.index())),
            last_dash == (out@.len() > 0 && out@.last() == '-'),
            it.seq() == value@,
    {
        assert(value@.take(it.index() + 1).drop_last() == value@.take(it.index()));
        assert(value@.take(it.index() + 1).last() == c);
        if ('a' <= c && c <= 'z') || ('A' <= c && c <= 'Z') || ('0' <= c && c <= '9') {
            out.push(lower_char(c));
            last_dash = false;
        } else if !last_dash {
            out.push('-');
            last_dash = true;
        }
    }
    assert(value@.take(value@.len() as int) == value@);
    trim_class(out.as_str(), CharClass::Just('-'))
}

/// Whether a text holds only lower-case ASCII letters, digits and single dashes.
pub open spec fn plain_with_dashes(s: Seq<char>) -> bool {
    &&& forall|i: int|
        0 <= i < s.len() ==> (#[trigger] s[i] == '-' || ('a' <= s[i] && s[i] <= 'z') || ('0' <= s[i]
            && s[i] <= '9'))
    &&& forall|i: int, j: int|
        0 <= i && j == i + 1 && j < s.len() ==> !(#[trigger] s[i] == '-' && #[trigger] s[j] == '-')
}

proof fn lemma_dashed_shape(s: Seq<char>)
    ensures
        plain_with_dashes(dashed(s)),
    decreases s.len(),
{
    if s.len() > 0 {
        lemma_dashed_shape(s.drop_last());
    }
}

proof fn lemma_trim_start_shape(s: Seq<char>)
    requires
        plain_with_dashes(s),
    ensures
        plain_with_dashes(trim_start(s, CharClass::Just('-'))),
        trim_start(s, CharClass::Just('-')).len() > 0 ==> trim_start(s, CharClass::Just('-'))[0]
            != '-',
    decreases s.len(),
{
    if s.len() > 0 && s[0] == '-' {
        let t = s.drop_first();
        assert(plain_with_dashes(t)) by {
            assert forall|i: int| 0 <= i < t.len() implies (#[trigger] t[i] == '-' || ('a' <= t[i]
                && t[i] <= 'z') || ('0' <= t[i] && t[i] <= '9')) by {
                assert(t[i] == s[i + 1]);
            }
            assert forall|i: int, j: int| 0 <= i && j == i + 1 && j < t.len() implies !(
            #[trigger] t[i] == '-' && #[trigger] t[j] == '-') by {
                assert(t[i] == s[i + 1]);
                assert(t[j] == s[j + 1]);
            }
        }
        lemma_trim_start_shape(t);
    }
}

proof fn lemma_trim_end_shape(s: Seq<char>)
    requires
        plain_with_dashes(s),
    ensures
        plain_with_dashes(trim_end(s, CharClass::Just('-'))),
        trim_end(s, CharClass::Just('-')).len() > 0 ==> trim_end(s, CharClass::Just('-')).last()
            != '-' && trim_end(s, CharClass::Just('-'))[0] == s[0],
    decreases s.len(),
{
    if s.len() > 0 && s.last() == '-' {
        lemma_trim_end_shape(s.drop_last());
    }
}

/// A slug holds only lower-case ASCII letters, digits and single dashes, and no
/// dash at either end.
pub proof fn law_slug_shape(s: Seq<char>)
    ensures
        plain_with_dashes(slug(s)),
        slug(s).len() > 0 ==> slug(s)[0] != '-' && slug(s).last() != '-',
{
    lemma_dashed_shape(s);
    lemma_trim_start_shape(dashed(s));
    lemma_trim_end_shape(trim_start(dashed(s), CharClass::Just('-')));
}

proof fn lemma_dashed_keeps(s: Seq<char>)
    requires
        plain_with_dashes(s),
    ensures
        dashed(s) == s,
    decreases s.len(),
{
    if s.len() > 0 {
        let t = s.drop_last();
        lemma_dashed_keeps(t);
        assert(t.push(s.last()) =~= s);
        if s.last() == '-' && t.len() > 0 {
            assert(t.last() == s[s.len() - 2]);
            assert(s[s.len() - 1] == '-');
        }
    } else {
        assert(dashed(s) =~= s);
    }
}

/// The slug of a slug is the slug itself.
pub proof fn law_slug_is_stable(s: Seq<char>)
    ensures
        slug(slug(s)) == slug(s),
{
    law_slug_shape(s);
    lemma_dashed_keeps(slug(s));
}

// ---------------------------------------------------------------------------
// File names
// ---------------------------------------------------------------------------

/// The name of a transcript without its number and extension.
pub open spec fn stem(date: Seq<char>, source: Seq<char>) -> Seq<char> {
    date + "_"@ + slug(source)
}

/// The `attempt`-th name to try for a transcript: two meetings can start in the
/// same minute, and no transcript is ever overwritten.
pub open spec fn numbered_name(stem: Seq<char>, attempt: nat) -> Seq<char> {
    if attempt <= 1 {
        stem + ".md"@
    } else {
        stem + "-"@ + decimal(attempt) + ".md"@
    }
}

/// The name of a transcript without its number and extension, from the date its
/// meeting began and the name of its source.
pub fn stem_for(date: &str, source_app: &str) -> (r: String)
    ensures
        r@ == stem(date@, source_app@),
{
    let mut r = date.to_owned();
    r.append("_");
    let s = slugify(source_app);
    r.append(s.as_str());
    r
}

/// The name of a transcript without its number and extension.
pub fn transcript_stem(started: &Stamp, source_app: &str) -> (r: String)
    ensures
        r@ == stem(file_date(*started), source_app@),
{
    let date = started.file_text();
    stem_for(date.as_str(), source_app)
}

/// The `attempt`-th name to try for a transcript, counted from one.
pub fn transcript_name(stem: &str, attempt: u64) -> (r: String)
    ensures
        r@ == numbered_name(stem@, attempt as nat),
{
    let mut r = stem.to_owned();
    if attempt > 1 {
        r.append("-");
        let n = to_decimal(attempt);
        r.append(n.as_str());
    }
    r.append(".md");
    r
}

proof fn lemma_decimal_injective(a: nat, b: nat)
    requires
        decimal(a) == decimal(b),
    ensures
        a == b,
    decreases a,
{
    lemma_decimal_len(a);
    lemma_decimal_len(b);
    assert(decimal(a).last() == digit((a % 10) as int));
    assert(decimal(b).last() == digit((b % 10) as int));
    if a < 10 {
        assert(decimal(a).len() == 1);
        if b >= 10 {
            lemma_decimal_len(b / 10);
        }
    } else {
        lemma_decimal_len(a / 10);
        if b >= 10 {
            assert(decimal(a).drop_last() =~= decimal(a / 10));
            assert(decimal(b).drop_last() =~= decimal(b / 10));
            lemma_decimal_injective(a / 10, b / 10);
        }
    }
}

proof fn lemma_decimal_len(a: nat)
    ensures
        decimal(a).len() > 0,
{
}

/// No name is tried twice: different attempts have different names, so looking
/// on while names are taken finds a free one.
pub proof fn law_attempts_differ(stem: Seq<char>, a: nat, b: nat)
    requires
        1 <= a,
        1 <= b,
        a != b,
    ensures
        numbered_name(stem, a) != numbered_name(stem, b),
{
    reveal_strlit("-");
    reveal_strlit(".md");
    lemma_decimal_len(a);
    lemma_decimal_len(b);
    let x = numbered_name(stem, a);
    let y = numbered_name(stem, b);
    if x == y {
        assert(x.len() == y.len());
        if a > 1 && b > 1 {
            let from = (stem + "-"@).len() as int;
            assert(x.subrange(from, x.len() - 3) =~= decimal(a));
            assert(y.subrange(from, y.len() - 3) =~= decimal(b));
            lemma_decimal_injective(a, b);
        }
    }
}

/// Whether a name is the first free one for a transcript: the names that come before
/// it are taken, and it is not.
pub open spec fn is_first_free(stem: Seq<char>, taken: Seq<Seq<char>>, n: nat) -> bool {
    &&& 1 <= n
    &&& !taken.contains(numbered_name(stem, n))
    &&& forall|k: nat| 1 <= k < n ==> taken.contains(#[trigger] numbered_name(stem, k))
}

proof fn lemma_names_are_taken_one_each(stem: Seq<char>, taken: Seq<Seq<char>>, m: nat)
    requires
        forall|k: nat| 1 <= k <= m ==> taken.contains(#[trigger] numbered_name(stem, k)),
    ensures
        m <= taken.len(),
    decreases m,
{
    if m > 0 {
        let last = numbered_name(stem, m);
        assert(taken.contains(last));
        let j = choose|j: int| 0 <= j < taken.len() && taken[j] == last;
        let others = taken.remove(j);
        assert forall|k: nat| 1 <= k <= m - 1 implies others.contains(
            #[trigger] numbered_name(stem, k),
        ) by {
            let name = numbered_name(stem, k);
            assert(taken.contains(name));
            law_attempts_differ(stem, k, m);
            let i = choose|i: int| 0 <= i < taken.len() && taken[i] == name;
            if i < j {
                assert(others[i] == name);
            } else {
                assert(others[i - 1] == name);
            }
        }
        lemma_names_are_taken_one_each(stem, others, (m - 1) as nat);
    }
}

fn is_taken(taken: &Vec<String>, name: &str) -> (r: bool)
    ensures
        r == texts(taken@).contains(name@),
{
    for i in 0..taken.len()
        invariant
            forall|j: int| 0 <= j < i ==> (#[trigger] taken@[j])@ != name@,
    {
        if same(taken[i].as_str(), name) {
            assert(texts(taken@)[i as int] == name@);
            return true;
        }
    }
    assert forall|j: int| 0 <= j < texts(taken@).len() implies texts(taken@)[j] != name@ by {
        assert(texts(taken@)[j] == taken@[j]@);
    }
    false
}

/// The name that a transcript gets, given the names that are taken: the first of its
/// numbered names that is free, so that no transcript is ever overwritten.
pub fn free_name(stem: &str, taken: &Vec<String>) -> (r: String)
    requires
        taken@.len() < u64::MAX,
    ensures
        exists|n: nat|
            #[trigger] is_first_free(stem@, texts(taken@), n) && r@ == numbered_name(stem@, n),
        !texts(taken@).contains(r@),
{
    let mut n: u64 = 1;
    loop
        invariant
            taken@.len() < u64::MAX,
            1 <= n <= taken@.len() + 1,
            forall|k: nat|
                1 <= k < n ==> texts(taken@).contains(#[trigger] numbered_name(stem@, k)),
        decreases taken@.len() + 1 - n,
    {
        let name = transcript_name(stem, n);
        if !is_taken(taken, name.as_str()) {
            assert(is_first_free(stem@, texts(taken@), n as nat));
            return name;
        }
        proof {
            lemma_names_are_taken_one_each(stem@, texts(taken@), n as nat);
        }
        n = n + 1;
    }
}

/// There is one first free name: whatever is taken, two answers are the same.
pub proof fn law_first_free_name_is_one(
    stem: Seq<char>,
    taken: Seq<Seq<char>>,
    a: nat,
    b: nat,
)
    requires
        is_first_free(stem, taken, a),
        is_first_free(stem, taken, b),
    ensures
        a == b,
{
    if a < b {
        assert(taken.contains(numbered_name(stem, a)));
    }
    if b < a {
        assert(taken.contains(numbered_name(stem, b)));
    }
}

// ---------------------------------------------------------------------------
// While a meeting runs
// ---------------------------------------------------------------------------

/// The name of the file that a running meeting is kept in, after its start.
pub open spec fn unfinished_name(date: Seq<char>) -> Seq<char> {
    date + ".partial.md"@
}

/// The name that an interrupted meeting gets, without its number and extension, given
/// the name of the file that it was kept in: none where the file is not one of those.
pub open spec fn rescued_stem(name: Seq<char>) -> Option<Seq<char>> {
    let tail = ".partial.md"@.len() as int;
    if tail <= name.len() && name.skip(name.len() - tail) == ".partial.md"@ {
        Some(name.take(name.len() - tail) + "-interrupted"@)
    } else {
        None
    }
}

/// The name of the file that a running meeting is kept in, given its start as text.
pub fn partial_name_for(date: &str) -> (r: String)
    ensures
        r@ == unfinished_name(date@),
{
    let mut r = date.to_owned();
    r.append(".partial.md");
    r
}

/// The name of the file that a running meeting is kept in.
pub fn partial_name(started: &Stamp) -> (r: String)
    ensures
        r@ == unfinished_name(file_date(*started)),
{
    let date = started.file_text();
    partial_name_for(date.as_str())
}

/// The name that an interrupted meeting gets, without its number and extension, where
/// a file holds one.
pub fn interrupted_stem(name: &str) -> (r: Option<String>)
    ensures
        text_in(r) == rescued_stem(name@),
{
    proof {
        reveal_strlit(".partial.md");
    }
    let chars = to_chars(name);
    if chars.len() < 11 {
        return None;
    }
    let cut: usize = chars.len() - 11;
    let tail = from_chars(&chars, cut, chars.len());
    assert(name@.subrange(cut as int, name@.len() as int) =~= name@.skip(cut as int));
    if !same(tail.as_str(), ".partial.md") {
        return None;
    }
    let mut r = from_chars(&chars, 0, cut);
    assert(name@.subrange(0, cut as int) =~= name@.take(cut as int));
    r.append("-interrupted");
    Some(r)
}

/// What the file of a running meeting says.
pub fn partial_text(source_app: &str, text: &str) -> (r: String)
    ensures
        r@ == "# "@ + source_app@ + "\n\n"@ + text@ + "\n"@,
{
    let mut r = "# ".to_owned();
    r.append(source_app);
    r.append("\n\n");
    r.append(text);
    r.append("\n");
    r
}

/// What the file of an interrupted meeting says: what was kept of it, and a note.
pub fn interrupted_text(text: &str) -> (r: String)
    ensures
        r@ == text@ + "\n- This recording was cut short.\n"@,
{
    let mut r = text.to_owned();
    r.append("\n- This recording was cut short.\n");
    r
}

/// A meeting that was cut short keeps its start in its name.
pub proof fn law_interrupted_meetings_are_found(date: Seq<char>)
    ensures
        rescued_stem(unfinished_name(date)) == Some(date + "-interrupted"@),
        numbered_name(date + "-interrupted"@, 1) == date + "-interrupted.md"@,
{
    reveal_strlit("-interrupted");
    reveal_strlit(".md");
    reveal_strlit("-interrupted.md");
    assert("-interrupted"@ + ".md"@ =~= "-interrupted.md"@);
    assert(date + "-interrupted"@ + ".md"@ =~= date + ("-interrupted"@ + ".md"@));
    let name = unfinished_name(date);
    let tail = ".partial.md"@.len() as int;
    assert(name.skip(name.len() - tail) =~= ".partial.md"@);
    assert(name.take(name.len() - tail) =~= date);
}

// ---------------------------------------------------------------------------
// The file
// ---------------------------------------------------------------------------

/// The header line that names the person at the other end, where it is known.
pub open spec fn party_line(other_party: Option<Seq<char>>) -> Seq<char> {
    match other_party {
        Some(name) => "- Other party: "@ + name + "\n"@,
        None => Seq::empty(),
    }
}

/// What a transcript file says.
pub open spec fn markdown_text(
    source: Seq<char>,
    other_party: Option<Seq<char>>,
    text: Seq<char>,
    date: Seq<char>,
    started: Seq<char>,
    ended: Seq<char>,
    minutes: nat,
    seconds: nat,
) -> Seq<char> {
    "# "@ + source + " - "@ + date + "\n\n- Source: "@ + source + "\n"@ + party_line(other_party)
        + "- Started: "@ + started + "\n- Ended: "@ + ended + "\n- Duration: "@ + decimal(minutes)
        + "m "@ + decimal(seconds) + "s\n- Words: "@ + decimal(words(text).len())
        + "\n- Captured automatically by Platypus (local Whisper)\n\n---\n\n"@ + stripped(text)
        + "\n"@
}

/// Writes what a transcript file says, given its dates as text and how long the
/// meeting took.
pub fn markdown_with_dates(
    source_app: &str,
    other_party: &Option<String>,
    text: &str,
    date: &str,
    started: &str,
    ended: &str,
    minutes: u64,
    seconds: u64,
) -> (r: String)
    ensures
        r@ == markdown_text(
            source_app@,
            text_in(*other_party),
            text@,
            date@,
            started@,
            ended@,
            minutes as nat,
            seconds as nat,
        ),
{
    let mut party = String::new();
    match other_party {
        Some(name) => {
            party.append("- Other party: ");
            party.append(name.as_str());
            party.append("\n");
        },
        None => {},
    }
    assert(party@ =~= party_line(text_in(*other_party)));
    let minutes_text = to_decimal(minutes);
    let seconds_text = to_decimal(seconds);
    let words_text = to_decimal(word_count(text) as u64);
    let body = trim_white(text);
    let mut r = "# ".to_owned();
    r.append(source_app);
    r.append(" - ");
    r.append(date);
    r.append("\n\n- Source: ");
    r.append(source_app);
    r.append("\n");
    r.append(party.as_str());
    r.append("- Started: ");
    r.append(started);
    r.append("\n- Ended: ");
    r.append(ended);
    r.append("\n- Duration: ");
    r.append(minutes_text.as_str());
    r.append("m ");
    r.append(seconds_text.as_str());
    r.append("s\n- Words: ");
    r.append(words_text.as_str());
    r.append("\n- Captured automatically by Platypus (local Whisper)\n\n---\n\n");
    r.append(body.as_str());
    r.append("\n");
    r
}

/// Writes what a transcript file says.
pub fn markdown(
    source_app: &str,
    other_party: &Option<String>,
    text: &str,
    started: &Stamp,
    ended: &Stamp,
) -> (r: String)
    ensures
        r@ == markdown_text(
            source_app@,
            text_in(*other_party),
            text@,
            minute_date(*started),
            second_date(*started),
            second_date(*ended),
            (elapsed(*started, *ended) / 60_000_000_000) as nat,
            (elapsed(*started, *ended) / 1_000_000_000 % 60) as nat,
        ),
        exists|minutes: Seq<char>, seconds: Seq<char>|
            #[trigger] tells_duration(minutes, seconds, elapsed(*started, *ended)) && has_line(
                r@,
                "- Duration: "@ + minutes + "m "@ + seconds + "s"@,
            ),
{
    proof {
        law_file_tells_how_long(
            source_app@,
            text_in(*other_party),
            text@,
            minute_date(*started),
            second_date(*started),
            second_date(*ended),
            elapsed(*started, *ended),
        );
    }
    let date = started.minute_text();
    let started_text = started.second_text();
    let ended_text = ended.second_text();
    let minutes = started.minutes_until(ended);
    let seconds = started.seconds_until(ended) % 60;
    markdown_with_dates(
        source_app,
        other_party,
        text,
        date.as_str(),
        started_text.as_str(),
        ended_text.as_str(),
        minutes,
        seconds,
    )
}

// ---------------------------------------------------------------------------
// The note
// ---------------------------------------------------------------------------

/// How one character is written in HTML.
pub open spec fn escaped_char(c: char) -> Seq<char> {
    if c == '&' {
        "&amp;"@
    } else if c == '<' {
        "&lt;"@
    } else if c == '>' {
        "&gt;"@
    } else {
        seq![c]
    }
}

/// A text with the characters that HTML reads as markup written out.
pub open spec fn escaped(s: Seq<char>) -> Seq<char>
    decreases s.len(),
{
    if s.len() == 0 {
        Seq::empty()
    } else {
        escaped(s.drop_last()) + escaped_char(s.last())
    }
}

/// Writes out the characters of a text that HTML reads as markup.
pub fn html_escape(text: &str) -> (r: String)
    ensures
        r@ == escaped(text@),
{
    let mut r = String::new();
    for c in it: text.chars()
        invariant
            r@ == escaped(text@.take(it.index())),
            it.seq() == text@,
    {
        assert(text@.take(it.index() + 1).drop_last() == text@.take(it.index()));
        assert(text@.take(it.index() + 1).last() == c);
        let ghost done = r@;
        if c == '&' {
            r.append("&amp;");
        } else if c == '<' {
            r.append("&lt;");
        } else if c == '>' {
            r.append("&gt;");
        } else {
            r.push(c);
            assert(r@ =~= done + seq![c]);
        }
    }
    assert(text@.take(text@.len() as int) == text@);
    r
}

/// The title of the note that keeps a transcript.
pub fn note_title_with_date(source_app: &str, date: &str) -> (r: String)
    ensures
        r@ == source_app@ + " - "@ + date@,
{
    let mut r = source_app.to_owned();
    r.append(" - ");
    r.append(date);
    r
}

/// The title of the note that keeps a transcript.
pub fn note_title(source_app: &str, started: &Stamp) -> (r: String)
    ensures
        r@ == source_app@ + " - "@ + minute_date(*started),
{
    let date = started.minute_text();
    note_title_with_date(source_app, date.as_str())
}

/// The body of the note that keeps a transcript.
pub fn note_html(text: &str) -> (r: String)
    ensures
        r@ == "<p>"@ + escaped(text@) + "</p>"@,
{
    let mut r = "<p>".to_owned();
    let inner = html_escape(text);
    r.append(inner.as_str());
    r.append("</p>");
    r
}

proof fn lemma_escaped_char(c: char)
    ensures
        forall|i: int|
            0 <= i < escaped_char(c).len() ==> #[trigger] escaped_char(c)[i] != '<' && escaped_char(
                c,
            )[i] != '>',
        replaced(replaced(replaced(seq![c], '&', "&amp;"@), '<', "&lt;"@), '>', "&gt;"@)
            == escaped_char(c),
{
    reveal_strlit("&amp;");
    reveal_strlit("&lt;");
    reveal_strlit("&gt;");
    let one = seq![c];
    if c == '&' {
        lemma_replaced_one('&', "&amp;"@);
        lemma_replaced_nothing("&amp;"@, '<', "&lt;"@);
        lemma_replaced_nothing("&amp;"@, '>', "&gt;"@);
    } else {
        lemma_replaced_nothing(one, '&', "&amp;"@);
        if c == '<' {
            lemma_replaced_one('<', "&lt;"@);
            lemma_replaced_nothing("&lt;"@, '>', "&gt;"@);
        } else {
            lemma_replaced_nothing(one, '<', "&lt;"@);
            if c == '>' {
                lemma_replaced_one('>', "&gt;"@);
            } else {
                lemma_replaced_nothing(one, '>', "&gt;"@);
            }
        }
    }
}

/// No character of an escaped text opens or closes a tag.
pub proof fn law_escaped_text_has_no_tags(s: Seq<char>)
    ensures
        forall|i: int|
            0 <= i < escaped(s).len() ==> #[trigger] escaped(s)[i] != '<' && escaped(s)[i] != '>',
    decreases s.len(),
{
    if s.len() > 0 {
        let head = escaped(s.drop_last());
        let tail = escaped_char(s.last());
        law_escaped_text_has_no_tags(s.drop_last());
        lemma_escaped_char(s.last());
        assert forall|i: int| 0 <= i < escaped(s).len() implies #[trigger] escaped(s)[i] != '<'
            && escaped(s)[i] != '>' by {
            if i < head.len() {
                assert(escaped(s)[i] == head[i]);
            } else {
                assert(escaped(s)[i] == tail[i - head.len()]);
            }
        }
    }
}

/// Escaping is the same as replacing `&`, then `<`, then `>`: what one step
/// writes, no later step takes for markup.
pub proof fn law_escaping_is_three_replacements(s: Seq<char>)
    ensures
        escaped(s) == replaced(replaced(replaced(s, '&', "&amp;"@), '<', "&lt;"@), '>', "&gt;"@),
    decreases s.len(),
{
    if s.len() > 0 {
        let t = s.drop_last();
        let one = seq![s.last()];
        assert(s =~= t + one);
        law_escaping_is_three_replacements(t);
        lemma_escaped_char(s.last());
        let t1 = replaced(t, '&', "&amp;"@);
        let one1 = replaced(one, '&', "&amp;"@);
        lemma_replaced_concat(t, one, '&', "&amp;"@);
        let t2 = replaced(t1, '<', "&lt;"@);
        let one2 = replaced(one1, '<', "&lt;"@);
        lemma_replaced_concat(t1, one1, '<', "&lt;"@);
        lemma_replaced_concat(t2, one2, '>', "&gt;"@);
    } else {
        assert(s =~= Seq::<char>::empty());
    }
}

proof fn lemma_occurs_four_on(
    a: Seq<char>,
    b: Seq<char>,
    c: Seq<char>,
    d: Seq<char>,
    e: Seq<char>,
    part: Seq<char>,
)
    requires
        occurs(a, part),
    ensures
        occurs(a + b + c + d + e, part),
{
    lemma_occurs_left(a, b, part);
    lemma_occurs_left(a + b, c, part);
    lemma_occurs_left(a + b + c, d, part);
    lemma_occurs_left(a + b + c + d, e, part);
}

/// A transcript file holds what was said and who is at the other end.
pub proof fn law_file_holds_the_transcript(
    source: Seq<char>,
    other_party: Option<Seq<char>>,
    text: Seq<char>,
    date: Seq<char>,
    started: Seq<char>,
    ended: Seq<char>,
    minutes: nat,
    seconds: nat,
)
    ensures
        ({
            let file = markdown_text(
                source,
                other_party,
                text,
                date,
                started,
                ended,
                minutes,
                seconds,
            );
            &&& occurs(file, stripped(text))
            &&& other_party matches Some(name) ==> occurs(file, name)
        }),
{
    let top = "# "@ + source + " - "@ + date + "\n\n- Source: "@ + source + "\n"@;
    let named = top + party_line(other_party);
    let timed = named + "- Started: "@ + started + "\n- Ended: "@ + ended;
    let lasted = timed + "\n- Duration: "@ + decimal(minutes) + "m "@ + decimal(seconds);
    let body = stripped(text);
    let headed = lasted + "s\n- Words: "@ + decimal(words(text).len())
        + "\n- Captured automatically by Platypus (local Whisper)\n\n---\n\n"@;
    lemma_occurs_last(headed, body);
    lemma_occurs_left(headed + body, "\n"@, body);
    match other_party {
        Some(name) => {
            lemma_occurs_last("- Other party: "@, name);
            lemma_occurs_left("- Other party: "@ + name, "\n"@, name);
            lemma_occurs_right(top, party_line(other_party), name);
            lemma_occurs_four_on(named, "- Started: "@, started, "\n- Ended: "@, ended, name);
            lemma_occurs_four_on(
                timed,
                "\n- Duration: "@,
                decimal(minutes),
                "m "@,
                decimal(seconds),
                name,
            );
            lemma_occurs_four_on(
                lasted,
                "s\n- Words: "@,
                decimal(words(text).len()),
                "\n- Captured automatically by Platypus (local Whisper)\n\n---\n\n"@,
                body,
                name,
            );
            lemma_occurs_left(headed + body, "\n"@, name);
        },
        None => {},
    }
}

/// Whether a text stands in a file as a line of its own.
pub open spec fn has_line(file: Seq<char>, line: Seq<char>) -> bool {
    occurs(file, seq!['\n'] + line + seq!['\n'])
}

/// The lines of a transcript file, given the digits of its numbers.
pub open spec fn file_lines(
    source: Seq<char>,
    other_party: Option<Seq<char>>,
    body: Seq<char>,
    dates: (Seq<char>, Seq<char>, Seq<char>),
    minutes: Seq<char>,
    seconds: Seq<char>,
    count: Seq<char>,
) -> Seq<Seq<char>> {
    let (date, started, ended) = dates;
    seq!["# "@ + source + " - "@ + date, Seq::empty(), "- Source: "@ + source] + (
    match other_party {
        Some(name) => seq!["- Other party: "@ + name],
        None => Seq::empty(),
    }) + seq![
        "- Started: "@ + started,
        "- Ended: "@ + ended,
        "- Duration: "@ + minutes + "m "@ + seconds + "s"@,
        "- Words: "@ + count,
        "- Captured automatically by Platypus (local Whisper)"@,
        Seq::empty(),
        "---"@,
        Seq::empty(),
        body,
        Seq::empty(),
    ]
}

/// A text with a line break and a line behind it.
spec fn and_line(text: Seq<char>, line: Seq<char>) -> Seq<char> {
    text + seq!['\n'] + line
}

proof fn lemma_line_breaks()
    ensures
        "\n"@ == seq!['\n'],
        "\n\n- Source: "@ == seq!['\n'] + seq!['\n'] + "- Source: "@,
        "\n- Ended: "@ == seq!['\n'] + "- Ended: "@,
        "\n- Duration: "@ == seq!['\n'] + "- Duration: "@,
        "s\n- Words: "@ == "s"@ + seq!['\n'] + "- Words: "@,
{
    reveal_strlit("\n");
    reveal_strlit("\n\n- Source: ");
    reveal_strlit("- Source: ");
    reveal_strlit("\n- Ended: ");
    reveal_strlit("- Ended: ");
    reveal_strlit("\n- Duration: ");
    reveal_strlit("- Duration: ");
    reveal_strlit("s");
    reveal_strlit("s\n- Words: ");
    reveal_strlit("- Words: ");
    assert("\n"@ =~= seq!['\n']);
    assert("\n\n- Source: "@ =~= seq!['\n'] + seq!['\n'] + "- Source: "@);
    assert("\n- Ended: "@ =~= seq!['\n'] + "- Ended: "@);
    assert("\n- Duration: "@ =~= seq!['\n'] + "- Duration: "@);
    assert("s\n- Words: "@ =~= "s"@ + seq!['\n'] + "- Words: "@);
}

proof fn lemma_last_line_breaks()
    ensures
        "\n- Captured automatically by Platypus (local Whisper)\n\n---\n\n"@ == seq!['\n']
            + "- Captured automatically by Platypus (local Whisper)"@ + seq!['\n'] + seq!['\n']
            + "---"@ + seq!['\n'] + seq!['\n'],
{
    reveal_strlit("\n- Captured automatically by Platypus (local Whisper)\n\n---\n\n");
    reveal_strlit("- Captured automatically by Platypus (local Whisper)");
    reveal_strlit("---");
    assert("\n- Captured automatically by Platypus (local Whisper)\n\n---\n\n"@ =~= seq!['\n']
        + "- Captured automatically by Platypus (local Whisper)"@ + seq!['\n'] + seq!['\n']
        + "---"@ + seq!['\n'] + seq!['\n']);
}

proof fn lemma_one_line_more(lines: Seq<Seq<char>>, text: Seq<char>, line: Seq<char>)
    requires
        lines.len() > 0,
        joined(lines, seq!['\n']) == text,
    ensures
        joined(lines.push(line), seq!['\n']) == and_line(text, line),
{
    assert(lines.push(line).drop_last() =~= lines);
}

proof fn lemma_source_lines(t: Seq<char>, lit: Seq<char>, source: Seq<char>)
    ensures
        t + (seq!['\n'] + seq!['\n'] + lit) + source == and_line(
            and_line(t, Seq::empty()),
            lit + source,
        ),
{
    assert(t + (seq!['\n'] + seq!['\n'] + lit) + source =~= and_line(
        and_line(t, Seq::empty()),
        lit + source,
    ));
}

proof fn lemma_line(t: Seq<char>, lit: Seq<char>, value: Seq<char>)
    ensures
        t + (seq!['\n'] + lit) + value == and_line(t, lit + value),
        t + seq!['\n'] + Seq::empty() + lit + value == and_line(t, lit + value),
        t + seq!['\n'] == and_line(t, Seq::empty()),
{
    assert(t + (seq!['\n'] + lit) + value =~= and_line(t, lit + value));
    assert(t + seq!['\n'] + Seq::empty() + lit + value =~= and_line(t, lit + value));
    assert(t + seq!['\n'] =~= and_line(t, Seq::empty()));
}

proof fn lemma_two_lines(
    t: Seq<char>,
    first: Seq<char>,
    lit: Seq<char>,
    value: Seq<char>,
)
    ensures
        t + seq!['\n'] + (first + seq!['\n']) + lit + value == and_line(
            and_line(t, first),
            lit + value,
        ),
{
    assert(t + seq!['\n'] + (first + seq!['\n']) + lit + value =~= and_line(
        and_line(t, first),
        lit + value,
    ));
}

proof fn lemma_duration_lines(
    t: Seq<char>,
    lit: Seq<char>,
    minutes: Seq<char>,
    m: Seq<char>,
    seconds: Seq<char>,
    s: Seq<char>,
    next: Seq<char>,
    count: Seq<char>,
)
    ensures
        t + (seq!['\n'] + lit) + minutes + m + seconds + (s + seq!['\n'] + next) + count
            == and_line(and_line(t, lit + minutes + m + seconds + s), next + count),
{
    assert(t + (seq!['\n'] + lit) + minutes + m + seconds + (s + seq!['\n'] + next) + count
        =~= and_line(and_line(t, lit + minutes + m + seconds + s), next + count));
}

proof fn lemma_last_lines(t: Seq<char>, captured: Seq<char>, rule: Seq<char>, body: Seq<char>)
    ensures
        t + (seq!['\n'] + captured + seq!['\n'] + seq!['\n'] + rule + seq!['\n'] + seq!['\n'])
            + body + seq!['\n'] == and_line(
            and_line(
                and_line(
                    and_line(and_line(and_line(t, captured), Seq::empty()), rule),
                    Seq::empty(),
                ),
                body,
            ),
            Seq::empty(),
        ),
{
    let e = Seq::<char>::empty();
    assert(t + (seq!['\n'] + captured + seq!['\n'] + seq!['\n'] + rule + seq!['\n'] + seq!['\n'])
        + body + seq!['\n'] =~= and_line(
        and_line(and_line(and_line(and_line(and_line(t, captured), e), rule), e), body),
        e,
    ));
}

/// A transcript file reads line by line: a heading, a list of what is known of the
/// meeting, a rule, and what was said.
pub proof fn law_a_file_reads_line_by_line(
    source: Seq<char>,
    other_party: Option<Seq<char>>,
    text: Seq<char>,
    date: Seq<char>,
    started: Seq<char>,
    ended: Seq<char>,
    minutes: nat,
    seconds: nat,
)
    ensures
        markdown_text(source, other_party, text, date, started, ended, minutes, seconds) == joined(
            file_lines(
                source,
                other_party,
                stripped(text),
                (date, started, ended),
                decimal(minutes),
                decimal(seconds),
                decimal(words(text).len()),
            ),
            seq!['\n'],
        ),
{
    lemma_line_breaks();
    lemma_last_line_breaks();
    let e = Seq::<char>::empty();
    let m = decimal(minutes);
    let s = decimal(seconds);
    let n = decimal(words(text).len());
    let body = stripped(text);
    let captured = "- Captured automatically by Platypus (local Whisper)"@;
    let t0 = "# "@ + source + " - "@ + date;
    let t1 = and_line(t0, e);
    let t2 = and_line(t1, "- Source: "@ + source);
    lemma_source_lines(t0, "- Source: "@, source);
    let t3 = match other_party {
        Some(name) => and_line(t2, "- Other party: "@ + name),
        None => t2,
    };
    let t4 = and_line(t3, "- Started: "@ + started);
    match other_party {
        Some(name) => {
            lemma_two_lines(t2, "- Other party: "@ + name, "- Started: "@, started);
        },
        None => {
            lemma_line(t2, "- Started: "@, started);
        },
    }
    let t5 = and_line(t4, "- Ended: "@ + ended);
    lemma_line(t4, "- Ended: "@, ended);
    let lasted = "- Duration: "@ + m + "m "@ + s + "s"@;
    let t6 = and_line(t5, lasted);
    let t7 = and_line(t6, "- Words: "@ + n);
    lemma_duration_lines(t5, "- Duration: "@, m, "m "@, s, "s"@, "- Words: "@, n);
    lemma_last_lines(t7, captured, "---"@, body);
    let l0 = seq![t0];
    let l1 = l0.push(e);
    let l2 = l1.push("- Source: "@ + source);
    let l3 = match other_party {
        Some(name) => l2.push("- Other party: "@ + name),
        None => l2,
    };
    let l4 = l3.push("- Started: "@ + started);
    let l5 = l4.push("- Ended: "@ + ended);
    let l6 = l5.push(lasted);
    let l7 = l6.push("- Words: "@ + n);
    let l8 = l7.push(captured);
    let l9 = l8.push(e);
    let l10 = l9.push("---"@);
    let l11 = l10.push(e);
    let l12 = l11.push(body);
    let l13 = l12.push(e);
    lemma_one_line_more(l0, t0, e);
    lemma_one_line_more(l1, t1, "- Source: "@ + source);
    match other_party {
        Some(name) => {
            lemma_one_line_more(l2, t2, "- Other party: "@ + name);
        },
        None => {},
    }
    lemma_one_line_more(l3, t3, "- Started: "@ + started);
    lemma_one_line_more(l4, t4, "- Ended: "@ + ended);
    lemma_one_line_more(l5, t5, lasted);
    lemma_one_line_more(l6, t6, "- Words: "@ + n);
    let t8 = and_line(t7, captured);
    let t9 = and_line(t8, e);
    let t10 = and_line(t9, "---"@);
    let t11 = and_line(t10, e);
    let t12 = and_line(t11, body);
    lemma_one_line_more(l7, t7, captured);
    lemma_one_line_more(l8, t8, e);
    lemma_one_line_more(l9, t9, "---"@);
    lemma_one_line_more(l10, t10, e);
    lemma_one_line_more(l11, t11, body);
    lemma_one_line_more(l12, t12, e);
    assert(l13 =~= file_lines(source, other_party, body, (date, started, ended), m, s, n));
}

/// Whether digits tell how many whole minutes, and how many whole seconds more, some
/// nanoseconds take.
pub open spec fn tells_duration(minutes: Seq<char>, seconds: Seq<char>, nanos: int) -> bool {
    let total = number_in(minutes) * 60 + number_in(seconds);
    &&& all_digits(minutes) && all_digits(seconds)
    &&& minutes.len() > 0 && seconds.len() > 0
    &&& 0 <= number_in(seconds) < 60
    &&& total * 1_000_000_000 <= nanos < (total + 1) * 1_000_000_000
}

proof fn lemma_line_inside(lines: Seq<Seq<char>>, i: int)
    requires
        0 < i < lines.len() - 1,
    ensures
        has_line(joined(lines, seq!['\n']), lines[i]),
    decreases lines.len(),
{
    let nl = seq!['\n'];
    let less = lines.drop_last();
    let part = nl + lines[i] + nl;
    if i == lines.len() - 2 {
        let before = joined(less.drop_last(), nl);
        assert(joined(less, nl) == before + nl + lines[i]);
        assert(joined(lines, nl) =~= before + part + lines.last());
        lemma_occurs_last(before, part);
        lemma_occurs_left(before + part, lines.last(), part);
    } else {
        assert(less[i] == lines[i]);
        lemma_line_inside(less, i);
        lemma_occurs_left(joined(less, nl), nl, part);
        lemma_occurs_left(joined(less, nl) + nl, lines.last(), part);
    }
}

/// A transcript file has a line that tells how long the meeting took: the minutes and the
/// seconds in it read back as its length in whole seconds.
pub proof fn law_file_tells_how_long(
    source: Seq<char>,
    other_party: Option<Seq<char>>,
    text: Seq<char>,
    date: Seq<char>,
    started: Seq<char>,
    ended: Seq<char>,
    nanos: int,
)
    requires
        nanos >= 0,
    ensures
        exists|minutes: Seq<char>, seconds: Seq<char>|
            #[trigger] tells_duration(minutes, seconds, nanos) && has_line(
                markdown_text(
                    source,
                    other_party,
                    text,
                    date,
                    started,
                    ended,
                    (nanos / 60_000_000_000) as nat,
                    (nanos / 1_000_000_000 % 60) as nat,
                ),
                "- Duration: "@ + minutes + "m "@ + seconds + "s"@,
            ),
{
    let m = decimal((nanos / 60_000_000_000) as nat);
    let s = decimal((nanos / 1_000_000_000 % 60) as nat);
    law_numbers_read_back((nanos / 60_000_000_000) as nat);
    law_numbers_read_back((nanos / 1_000_000_000 % 60) as nat);
    assert(tells_duration(m, s, nanos));
    law_a_file_reads_line_by_line(
        source,
        other_party,
        text,
        date,
        started,
        ended,
        (nanos / 60_000_000_000) as nat,
        (nanos / 1_000_000_000 % 60) as nat,
    );
    let lines = file_lines(
        source,
        other_party,
        stripped(text),
        (date, started, ended),
        m,
        s,
        decimal(words(text).len()),
    );
    let i = if other_party is Some {
        6int
    } else {
        5
    };
    assert(lines[i] == "- Duration: "@ + m + "m "@ + s + "s"@);
    lemma_line_inside(lines, i);
}

/// The numbers in a duration line are there to be read: whatever minutes and seconds a
/// transcript file is written with, it has a line with their digits.
pub proof fn law_file_has_its_minutes_and_seconds(
    source: Seq<char>,
    other_party: Option<Seq<char>>,
    text: Seq<char>,
    date: Seq<char>,
    started: Seq<char>,
    ended: Seq<char>,
    minutes: nat,
    seconds: nat,
)
    ensures
        exists|m: Seq<char>, s: Seq<char>|
            {
                &&& all_digits(m) && all_digits(s)
                &&& number_in(m) == minutes && number_in(s) == seconds
                &&& #[trigger] has_line(
                    markdown_text(
                        source,
                        other_party,
                        text,
                        date,
                        started,
                        ended,
                        minutes,
                        seconds,
                    ),
                    "- Duration: "@ + m + "m "@ + s + "s"@,
                )
            },
{
    let m = decimal(minutes);
    let s = decimal(seconds);
    law_numbers_read_back(minutes);
    law_numbers_read_back(seconds);
    law_a_file_reads_line_by_line(
        source,
        other_party,
        text,
        date,
        started,
        ended,
        minutes,
        seconds,
    );
    let lines = file_lines(
        source,
        other_party,
        stripped(text),
        (date, started, ended),
        m,
        s,
        decimal(words(text).len()),
    );
    let i = if other_party is Some {
        6int
    } else {
        5
    };
    assert(lines[i] == "- Duration: "@ + m + "m "@ + s + "s"@);
    lemma_line_inside(lines, i);
}

/// Meetings of different length in whole seconds have different duration lines.
pub proof fn law_durations_differ(
    m: Seq<char>,
    s: Seq<char>,
    a: int,
    n: Seq<char>,
    t: Seq<char>,
    b: int,
)
    requires
        tells_duration(m, s, a),
        tells_duration(n, t, b),
        a / 1_000_000_000 != b / 1_000_000_000,
    ensures
        "- Duration: "@ + m + "m "@ + s + "s"@ != "- Duration: "@ + n + "m "@ + t + "s"@,
{
    reveal_strlit("m ");
    reveal_strlit("s");
    let lead = "- Duration: "@;
    let x = lead + m + "m "@ + s + "s"@;
    let y = lead + n + "m "@ + t + "s"@;
    if x == y {
        let k = lead.len() as int;
        if m.len() < n.len() {
            assert(x[k + m.len()] == 'm');
            assert(y[k + m.len()] == n[m.len() as int]);
        }
        if n.len() < m.len() {
            assert(y[k + n.len()] == 'm');
            assert(x[k + n.len()] == m[n.len() as int]);
        }
        assert(x.subrange(k, k + m.len()) =~= m);
        assert(y.subrange(k, k + n.len()) =~= n);
        assert(x.subrange(k + m.len() + 2, x.len() - 1) =~= s);
        assert(y.subrange(k + n.len() + 2, y.len() - 1) =~= t);
    }
}

proof fn lemma_run_dashed(w: Seq<char>)
    requires
        forall|i: int| 0 <= i < w.len() ==> is_alphanumeric(#[trigger] w[i]),
    ensures
        dashed(w) == ascii_lower(w),
        forall|i: int| 0 <= i < w.len() ==> #[trigger] ascii_lower(w)[i] != '-',
    decreases w.len(),
{
    if w.len() > 0 {
        let less = w.drop_last();
        assert forall|i: int| 0 <= i < less.len() implies is_alphanumeric(#[trigger] less[i]) by {
            assert(less[i] == w[i]);
        }
        lemma_run_dashed(less);
        assert(is_alphanumeric(w[w.len() - 1]));
        assert(dashed(w) =~= ascii_lower(w));
    } else {
        assert(dashed(w) =~= ascii_lower(w));
    }
}

/// A run of letters and digits is its own slug, in lower case. What holds neither has an
/// empty one.
pub proof fn law_a_run_is_its_own_slug(w: Seq<char>)
    requires
        forall|i: int| 0 <= i < w.len() ==> is_alphanumeric(#[trigger] w[i]),
    ensures
        slug(w) == ascii_lower(w),
        slug(Seq::empty()) == Seq::<char>::empty(),
{
    lemma_run_dashed(w);
    let none = Seq::<char>::empty();
    let low = ascii_lower(w);
    if low.len() > 0 {
        assert(low[0] != '-' && low[low.len() - 1] != '-');
    }
    law_trim_leaves_what_stands_between(none, low, none, CharClass::Just('-'));
    assert(none + low + none =~= low);
    law_trim_leaves_what_stands_between(none, none, none, CharClass::Just('-'));
    assert(none + none + none =~= none);
}

/// A text without the dash that it begins with.
spec fn undashed(d: Seq<char>) -> Seq<char> {
    if d.len() > 0 && d[0] == '-' {
        d.drop_first()
    } else {
        d
    }
}

proof fn lemma_dashed_behind_dash(x: Seq<char>, b: Seq<char>)
    requires
        dashed(x).len() > 0,
        dashed(x).last() == '-',
    ensures
        dashed(x + b) == dashed(x) + undashed(dashed(b)),
    decreases b.len(),
{
    if b.len() == 0 {
        assert(x + b =~= x);
        assert(dashed(x) + undashed(dashed(b)) =~= dashed(x));
    } else {
        let less = b.drop_last();
        let d = dashed(less);
        assert((x + b).drop_last() =~= x + less);
        assert((x + b).last() == b.last());
        lemma_dashed_behind_dash(x, less);
        assert(dashed(x + b) =~= dashed(x) + undashed(dashed(b)));
    }
}

proof fn lemma_slug_inside(s: Seq<char>) -> (r: (Seq<char>, Seq<char>))
    ensures
        dashed(s) == r.0 + slug(s) + r.1,
        all_of(r.0, CharClass::Just('-')),
        all_of(r.1, CharClass::Just('-')),
{
    let k = CharClass::Just('-');
    let d = dashed(s);
    law_trim_loses_only_the_class(d, k);
    let (i, j) = choose|i: int, j: int|
        #![trigger d.subrange(i, j)]
        {
            &&& 0 <= i <= j <= d.len()
            &&& trim(d, k) == d.subrange(i, j)
            &&& all_of(d.take(i), k)
            &&& all_of(d.skip(j), k)
        };
    assert(d =~= d.take(i) + d.subrange(i, j) + d.skip(j));
    (d.take(i), d.skip(j))
}

proof fn lemma_dashed_then_other(a: Seq<char>, c: char) -> (r: (Seq<char>, Seq<char>))
    requires
        !is_alphanumeric(c),
    ensures
        dashed(a.push(c)) == r.0 + slug(a) + r.1,
        all_of(r.0, CharClass::Just('-')),
        all_of(r.1, CharClass::Just('-')),
        dashed(a.push(c)).len() > 0 && dashed(a.push(c)).last() == '-',
        slug(a).len() > 0 ==> r.1.len() > 0,
{
    let (h, t) = lemma_slug_inside(a);
    law_slug_shape(a);
    assert(a.push(c).drop_last() =~= a);
    if dashed(a).len() > 0 && dashed(a).last() == '-' {
        (h, t)
    } else {
        assert(dashed(a).push('-') =~= h + slug(a) + t.push('-'));
        (h, t.push('-'))
    }
}

proof fn lemma_undashed_inside(b: Seq<char>) -> (r: (Seq<char>, Seq<char>))
    ensures
        undashed(dashed(b)) == r.0 + slug(b) + r.1,
        all_of(r.0, CharClass::Just('-')),
        all_of(r.1, CharClass::Just('-')),
{
    let (h, t) = lemma_slug_inside(b);
    law_slug_shape(b);
    let d = dashed(b);
    if d.len() > 0 && d[0] == '-' {
        if h.len() > 0 {
            let less = h.drop_first();
            assert forall|i: int| 0 <= i < less.len() implies CharClass::Just('-').holds(
                #[trigger] less[i],
            ) by {
                assert(less[i] == h[i + 1]);
            }
            assert(d.drop_first() =~= less + slug(b) + t);
            (less, t)
        } else {
            if slug(b).len() > 0 {
                assert(d[0] == slug(b)[0]);
            }
            let less = t.drop_first();
            assert forall|i: int| 0 <= i < less.len() implies CharClass::Just('-').holds(
                #[trigger] less[i],
            ) by {
                assert(less[i] == t[i + 1]);
            }
            assert(d.drop_first() =~= h + slug(b) + less);
            (h, less)
        }
    } else {
        (h, t)
    }
}

proof fn lemma_one_dash_between(
    h: Seq<char>,
    left: Seq<char>,
    mid: Seq<char>,
    right: Seq<char>,
    t: Seq<char>,
)
    requires
        left.len() > 0,
        right.len() > 0,
        mid.len() > 0,
        all_of(mid, CharClass::Just('-')),
        plain_with_dashes(h + left + mid + right + t),
    ensures
        mid == seq!['-'],
{
    let d = h + left + mid + right + t;
    let k = (h + left).len() as int;
    assert(d[k] == mid[0]);
    if mid.len() > 1 {
        assert(d[k + 1] == mid[1]);
    }
    assert(CharClass::Just('-').holds(mid[0]));
    assert(mid =~= seq!['-']);
}

/// Anything but a letter or a digit parts a slug and does nothing else: the slug of two
/// texts with such a character between them is the two slugs with one dash between, and
/// no dash where either is empty.
pub proof fn law_a_slug_is_made_of_its_parts(a: Seq<char>, c: char, b: Seq<char>)
    requires
        !is_alphanumeric(c),
    ensures
        slug(a + seq![c] + b) == if slug(a).len() > 0 && slug(b).len() > 0 {
            slug(a) + seq!['-'] + slug(b)
        } else {
            slug(a) + slug(b)
        },
{
    let k = CharClass::Just('-');
    let none = Seq::<char>::empty();
    let (h, t) = lemma_dashed_then_other(a, c);
    let (g, u) = lemma_undashed_inside(b);
    lemma_dashed_behind_dash(a.push(c), b);
    let all = a + seq![c] + b;
    assert(all =~= a.push(c) + b);
    lemma_dashed_shape(all);
    law_slug_shape(a);
    law_slug_shape(b);
    let d = dashed(all);
    let mid = t + g;
    assert(all_of(mid, k));
    assert(d =~= h + slug(a) + mid + slug(b) + u);
    if slug(a).len() > 0 && slug(b).len() > 0 {
        lemma_one_dash_between(h, slug(a), mid, slug(b), u);
        let body = slug(a) + mid + slug(b);
        assert(d =~= h + body + u);
        assert(body[0] == slug(a)[0]);
        assert(body.last() == slug(b).last());
        law_trim_leaves_what_stands_between(h, body, u, k);
    } else if slug(a).len() > 0 {
        assert(d =~= h + slug(a) + (mid + u));
        assert(all_of(mid + u, k));
        law_trim_leaves_what_stands_between(h, slug(a), mid + u, k);
        assert(slug(a) + slug(b) =~= slug(a));
    } else {
        assert(d =~= (h + mid) + slug(b) + u);
        assert(all_of(h + mid, k));
        law_trim_leaves_what_stands_between(h + mid, slug(b), u, k);
        assert(slug(a) + slug(b) =~= slug(b));
    }
}

/// The first name of a transcript has no number, and each further one has its number
/// between a dash and the extension.
pub proof fn law_names_carry_their_number(name: Seq<char>, n: nat)
    requires
        n >= 2,
    ensures
        numbered_name(name, 1) == name + seq!['.', 'm', 'd'],
        exists|digits: Seq<char>|
            #[trigger] all_digits(digits) && number_in(digits) == n && digits[0] != '0'
                && numbered_name(name, n) == name + seq!['-'] + digits + seq!['.', 'm', 'd'],
{
    reveal_strlit(".md");
    reveal_strlit("-");
    assert(".md"@ =~= seq!['.', 'm', 'd']);
    assert("-"@ =~= seq!['-']);
    law_numbers_read_back(n);
}

/// A transcript is named by the start of its meeting and the slug of its source, and a
/// running one by its start alone.
pub proof fn law_names_tell_the_start(date: Seq<char>, source: Seq<char>)
    ensures
        stem(date, source) == date + seq!['_'] + slug(source),
        unfinished_name(date) == date + ".partial.md"@,
{
    reveal_strlit("_");
    assert("_"@ =~= seq!['_']);
}

/// Only the file of a running meeting is taken for one: where a name gives a stem, it is
/// the name of such a file, and the stem is what stands before the ending.
pub proof fn law_only_unfinished_files_are_rescued(name: Seq<char>)
    ensures
        rescued_stem(name) matches Some(found) ==> exists|date: Seq<char>|
            name == #[trigger] (date + ".partial.md"@) && found == date + "-interrupted"@,
        rescued_stem(name) is None ==> forall|date: Seq<char>|
            name != #[trigger] (date + ".partial.md"@),
{
    let tail = ".partial.md"@;
    let n = name.len() - tail.len();
    if rescued_stem(name) is Some {
        let date = name.take(n);
        assert(name =~= date + tail);
    } else {
        assert forall|date: Seq<char>| name != #[trigger] (date + tail) by {
            if name == date + tail {
                assert(name.skip(n) =~= tail);
            }
        }
    }
}

/// Escaping goes character by character, and only the three characters that HTML reads as
/// markup are written otherwise.
pub proof fn law_escaping_goes_by_character(a: Seq<char>, b: Seq<char>)
    ensures
        escaped(a + b) == escaped(a) + escaped(b),
        (forall|i: int|
            0 <= i < a.len() ==> #[trigger] a[i] != '&' && a[i] != '<' && a[i] != '>')
            ==> escaped(a) == a,
    decreases b.len(), a.len(),
{
    if b.len() == 0 {
        assert(a + b =~= a);
        assert(escaped(a) + escaped(b) =~= escaped(a));
        if a.len() > 0 {
            let less = a.drop_last();
            law_escaping_goes_by_character(less, b);
            if forall|i: int|
                0 <= i < a.len() ==> #[trigger] a[i] != '&' && a[i] != '<' && a[i] != '>' {
                assert forall|i: int| 0 <= i < less.len() implies #[trigger] less[i] != '&'
                    && less[i] != '<' && less[i] != '>' by {
                    assert(less[i] == a[i]);
                }
                assert(a[a.len() - 1] == a.last());
                assert(less + seq![a.last()] =~= a);
            }
        } else {
            assert(escaped(a) =~= a);
        }
    } else {
        law_escaping_goes_by_character(a, b.drop_last());
        assert((a + b).drop_last() =~= a + b.drop_last());
        assert((a + b).last() == b.last());
        assert(escaped(a + b) =~= escaped(a) + escaped(b));
    }
}

/// What a running meeting is kept as: its source in the first line, and what was said so
/// far behind an empty one. Once it was cut short, all of that stands in front of a note.
pub proof fn law_a_running_meeting_is_kept_whole(
    source: &str,
    text: &str,
    kept: String,
    kept_text: &str,
    rescued: String,
)
    requires
        call_ensures(partial_text, (source, text), kept),
        kept_text@ == kept@,
        call_ensures(interrupted_text, (kept_text,), rescued),
    ensures
        kept@ == joined(
            seq!["# "@ + source@, Seq::empty(), text@, Seq::empty()],
            seq!['\n'],
        ),
        kept@.is_prefix_of(rescued@),
        has_line(rescued@, "- This recording was cut short."@),
{
    let e = Seq::<char>::empty();
    let top = "# "@ + source@;
    reveal_strlit("\n\n");
    reveal_strlit("\n");
    let l0 = seq![top];
    let l1 = l0.push(e);
    let l2 = l1.push(text@);
    let l3 = l2.push(e);
    lemma_one_line_more(l0, top, e);
    lemma_one_line_more(l1, and_line(top, e), text@);
    lemma_one_line_more(l2, and_line(and_line(top, e), text@), e);
    assert(l3 =~= seq![top, e, text@, e]);
    assert(kept@ =~= and_line(and_line(and_line(top, e), text@), e));
    assert(kept@ =~= rescued@.take(kept@.len() as int));
    let note = "\n- This recording was cut short.\n"@;
    reveal_strlit("\n- This recording was cut short.\n");
    reveal_strlit("- This recording was cut short.");
    assert(note =~= seq!['\n'] + "- This recording was cut short."@ + seq!['\n']);
    lemma_occurs_last(kept@, note);
}

/// The note that keeps a transcript is one paragraph, and nothing in the text can end it.
pub proof fn law_a_note_is_one_paragraph(text: &str, r: String)
    requires
        call_ensures(note_html, (text,), r),
    ensures
        r@ == seq!['<', 'p', '>'] + escaped(text@) + seq!['<', '/', 'p', '>'],
        forall|i: int| 3 <= i < r@.len() - 4 ==> #[trigger] r@[i] != '<' && r@[i] != '>',
{
    reveal_strlit("<p>");
    reveal_strlit("</p>");
    assert("<p>"@ =~= seq!['<', 'p', '>']);
    assert("</p>"@ =~= seq!['<', '/', 'p', '>']);
    law_escaped_text_has_no_tags(text@);
    assert forall|i: int| 3 <= i < r@.len() - 4 implies #[trigger] r@[i] != '<' && r@[i] != '>' by {
        assert(r@[i] == escaped(text@)[i - 3]);
    }
}

/// Which characters a slug keeps.
pub proof fn law_slugs_keep_letters_and_digits(c: char)
    ensures
        is_alphanumeric(c)
            <==> "abcdefghijklmnopqrstuvwxyzABCDEFGHIJKLMNOPQRSTUVWXYZ0123456789"@.contains(c),
{
    let all = "abcdefghijklmnopqrstuvwxyzABCDEFGHIJKLMNOPQRSTUVWXYZ0123456789"@;
    reveal_strlit("abcdefghijklmnopqrstuvwxyzABCDEFGHIJKLMNOPQRSTUVWXYZ0123456789");
    let n = c as int;
    if 97 <= n <= 122 {
        assert(all[n - 97] == c);
    } else if 65 <= n <= 90 {
        assert(all[n - 65 + 26] == c);
    } else if 48 <= n <= 57 {
        assert(all[n - 48 + 52] == c);
    }
}

/// Transcripts go where the data goes, in a folder of their own.
pub proof fn law_transcripts_go_with_the_data(state: Detection)
    ensures
        state == Detection::Portable ==> transcripts_place(state) == (
            Base::ExeDir,
            seq!["data"@, "transcripts"@],
        ),
        state != Detection::Portable ==> transcripts_place(state) == (
            Base::AppData,
            seq!["transcripts"@],
        ),
{
    assert(seq!["data"@].push("transcripts"@) =~= seq!["data"@, "transcripts"@]);
    assert(Seq::empty().push("transcripts"@) =~= seq!["transcripts"@]);
}

/// No free name is passed over: the first name is taken for a transcript where it is free,
/// and otherwise the first free one behind names that are all taken.
pub proof fn law_no_free_name_is_passed_over(stem: Seq<char>, taken: Seq<Seq<char>>, n: nat)
    ensures
        !taken.contains(stem + seq!['.', 'm', 'd']) ==> is_first_free(stem, taken, 1),
        is_first_free(stem, taken, n) ==> n >= 1 && !taken.contains(numbered_name(stem, n)),
        is_first_free(stem, taken, n) && n > 1 ==> taken.contains(stem + seq!['.', 'm', 'd'])
            && taken.contains(numbered_name(stem, (n - 1) as nat)),
        n >= 1 && !taken.contains(numbered_name(stem, n)) && (forall|k: nat|
            1 <= k < n ==> taken.contains(#[trigger] numbered_name(stem, k))) ==> is_first_free(
            stem,
            taken,
            n,
        ),
{
    law_names_carry_their_number(stem, 2);
    if is_first_free(stem, taken, n) && n > 1 {
        assert(taken.contains(numbered_name(stem, 1)));
    }
}

} // verus!

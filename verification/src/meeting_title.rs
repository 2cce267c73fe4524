//! What the title of a meeting window says: the name of the meeting, or of the
//! person at the other end.

use vstd::prelude::*;
use vstd::utf8::{
    decode_utf8, encode_utf8, is_ascii_chars, is_char_boundary, length_of_first_scalar,
    pop_first_scalar,
};

use crate::text::{
    all_of, ascii_lower, before, begins, contains, is_white, law_a_run_is_one_word,
    law_before_stops_at_the_first, law_occurs_between, law_trim_end_takes_the_class_off,
    law_trim_leaves_what_stands_between, law_white_space_parts_words, no_white, occurs,
    same_ignoring_ascii_case, split_words, starts_with, stripped, text_in, texts, to_chars,
    trim_end, trim_end_class, trim_white, up_to, words, CharClass,
};
use crate::unicode::{is_upper, is_uppercase, lower_text, to_lowercase};

verus! {

// ---------------------------------------------------------------------------
// The name of the meeting
// ---------------------------------------------------------------------------

/// The part of a window title that names the meeting: what stands before the
/// first `|`, without white space around it and without dashes at its end.
pub open spec fn meeting_name(title: Seq<char>) -> Seq<char> {
    stripped(trim_end(stripped(before(title, '|')), CharClass::Just('-')))
}

/// Whether a window title tells more than the name of the application.
pub open spec fn names_a_meeting(title: Seq<char>) -> bool {
    let name = meeting_name(title);
    name.len() > 0 && ascii_lower(name) != ascii_lower("Microsoft Teams"@)
}

/// The name of the meeting in a window title, where it holds one.
pub fn meeting_name_of(title: &str) -> (r: Option<String>)
    ensures
        text_in(r) == if names_a_meeting(title@) {
            Some(meeting_name(title@))
        } else {
            None
        },
{
    let head = up_to(title, '|');
    let head = trim_white(head.as_str());
    let head = trim_end_class(head.as_str(), CharClass::Just('-'));
    let name = trim_white(head.as_str());
    if name.as_str().is_empty() || same_ignoring_ascii_case(name.as_str(), "Microsoft Teams") {
        None
    } else {
        Some(name)
    }
}

// ---------------------------------------------------------------------------
// The name of the other person
// ---------------------------------------------------------------------------

/// Words that mark a title as the name of a meeting rather than of a person.
pub open spec fn meeting_words() -> Seq<Seq<char>> {
    seq![
        "meeting"@,
        "call"@,
        "sync"@,
        "standup"@,
        "stand-up"@,
        "daily"@,
        "weekly"@,
        "monthly"@,
        "review"@,
        "retro"@,
        "planning"@,
        "kickoff"@,
        "demo"@,
        "workshop"@,
        "interview"@,
        "spotkanie"@,
        "rozmowa"@,
        "zebranie"@,
        "narada"@,
        "prezentacja"@,
        "szkolenie"@,
        "status"@,
    ]
}

/// What stands in front of a person's name in the title of a one-to-one call.
pub open spec fn call_prefixes() -> Seq<Seq<char>> {
    seq![
        "call with "@,
        "meeting with "@,
        "chat with "@,
        "rozmowa z "@,
        "spotkanie z "@,
        "połączenie z "@,
    ]
}

/// The texts of a list of string slices.
pub open spec fn slices(v: Seq<&'static str>) -> Seq<Seq<char>> {
    v.map_values(|s: &'static str| s@)
}

fn meeting_word_list() -> (r: Vec<&'static str>)
    ensures
        slices(r@) == meeting_words(),
{
    let r: Vec<&'static str> = vec![
        "meeting",
        "call",
        "sync",
        "standup",
        "stand-up",
        "daily",
        "weekly",
        "monthly",
        "review",
        "retro",
        "planning",
        "kickoff",
        "demo",
        "workshop",
        "interview",
        "spotkanie",
        "rozmowa",
        "zebranie",
        "narada",
        "prezentacja",
        "szkolenie",
        "status",
    ];
    assert(slices(r@) =~= meeting_words());
    r
}

fn call_prefix_list() -> (r: Vec<&'static str>)
    ensures
        slices(r@) == call_prefixes(),
{
    let r: Vec<&'static str> = vec![
        "call with ",
        "meeting with ",
        "chat with ",
        "rozmowa z ",
        "spotkanie z ",
        "połączenie z ",
    ];
    assert(slices(r@) =~= call_prefixes());
    r
}

/// The first of the call prefixes from the `i`-th on that `lowered` begins with.
pub open spec fn prefix_from(lowered: Seq<char>, i: int) -> Option<Seq<char>>
    decreases call_prefixes().len() - i,
{
    if i < 0 || i >= call_prefixes().len() {
        None
    } else if begins(lowered, call_prefixes()[i]) {
        Some(call_prefixes()[i])
    } else {
        prefix_from(lowered, i + 1)
    }
}

/// The call prefix that a title begins with, given its lower-case form.
pub open spec fn call_prefix(lowered: Seq<char>) -> Option<Seq<char>> {
    prefix_from(lowered, 0)
}

fn find_call_prefix(lowered: &str) -> (r: Option<&'static str>)
    ensures
        match r {
            Some(p) => call_prefix(lowered@) == Some(p@),
            None => call_prefix(lowered@) is None,
        },
{
    let prefixes = call_prefix_list();
    let mut i: usize = 0;
    while i < prefixes.len()
        invariant
            i <= prefixes@.len(),
            slices(prefixes@) == call_prefixes(),
            call_prefix(lowered@) == prefix_from(lowered@, i as int),
        decreases prefixes@.len() - i,
    {
        assert(slices(prefixes@)[i as int] == prefixes@[i as int]@);
        assert(slices(prefixes@).len() == prefixes@.len());
        if starts_with(lowered, prefixes[i]) {
            return Some(prefixes[i]);
        }
        i += 1;
    }
    assert(slices(prefixes@).len() == prefixes@.len());
    None
}

/// Whether a title can be cut behind the call prefix that its lower-case form
/// begins with: the prefix is as many bytes long as some characters at the
/// start of the title.
pub open spec fn clean_cut(title: Seq<char>, lowered: Seq<char>) -> bool {
    match call_prefix(lowered) {
        Some(p) => is_char_boundary(encode_utf8(title), encode_utf8(p).len() as int),
        None => true,
    }
}

/// What is left of a title behind its call prefix, and all of it where it has
/// none.
pub open spec fn call_subject(title: Seq<char>, lowered: Seq<char>) -> Seq<char> {
    match call_prefix(lowered) {
        Some(p) => {
            let bytes = encode_utf8(title);
            stripped(decode_utf8(bytes.subrange(encode_utf8(p).len() as int, bytes.len() as int)))
        },
        None => title,
    }
}

/// Whether a title can be cut behind its call prefix, given its lower-case form.
pub fn cuts_cleanly(title: &str, lowered: &str) -> (r: bool)
    ensures
        r == clean_cut(title@, lowered@),
{
    match find_call_prefix(lowered) {
        Some(p) => {
            let at: usize = p.as_bytes().len();
            title.is_char_boundary(at)
        },
        None => true,
    }
}

/// What is left of a title behind its call prefix, given its lower-case form.
pub fn subject_of_call(title: &str, lowered: &str) -> (r: String)
    requires
        clean_cut(title@, lowered@),
    ensures
        r@ == call_subject(title@, lowered@),
{
    match find_call_prefix(lowered) {
        Some(p) => {
            let at: usize = p.as_bytes().len();
            let (_head, tail) = title.split_at(at);
            proof {
                vstd::utf8::encode_utf8_decode_utf8(tail@);
            }
            trim_white(tail)
        },
        None => title.to_owned(),
    }
}

/// Whether a text holds a decimal digit.
pub open spec fn has_digit(s: Seq<char>) -> bool {
    exists|i: int| 0 <= i < s.len() && '0' <= #[trigger] s[i] && s[i] <= '9'
}

/// Whether one of the words of meeting names occurs in a lower-case text.
pub open spec fn has_meeting_word(lowered: Seq<char>) -> bool {
    exists|i: int|
        0 <= i < meeting_words().len() && occurs(lowered, #[trigger] meeting_words()[i])
}

/// Whether a word has an upper-case initial and at least one more character.
pub open spec fn capitalised_word(w: Seq<char>) -> bool {
    w.len() >= 2 && is_upper(w[0])
}

/// Whether every word of a text is capitalised.
pub open spec fn capitalised(s: Seq<char>) -> bool {
    forall|i: int| 0 <= i < words(s).len() ==> capitalised_word(#[trigger] words(s)[i])
}

/// The person whom a text names, given its lower-case form and whether its words
/// are capitalised: the text itself where it has two or three words, no digit
/// and none of the words of meeting names.
pub open spec fn person_in(
    candidate: Seq<char>,
    lowered: Seq<char>,
    capitalised: bool,
) -> Option<Seq<char>> {
    if 2 <= words(candidate).len() <= 3 && !has_digit(candidate) && !has_meeting_word(lowered)
        && capitalised {
        Some(candidate)
    } else {
        None
    }
}

/// The person whom a window title names, if it plausibly names one.
pub open spec fn other_party(title: Seq<char>) -> Option<Seq<char>> {
    let t = stripped(title);
    let lowered = lower_text(t);
    if clean_cut(t, lowered) {
        let candidate = call_subject(t, lowered);
        person_in(candidate, lower_text(candidate), capitalised(candidate))
    } else {
        None
    }
}

fn holds_digit(s: &str) -> (r: bool)
    ensures
        r == has_digit(s@),
{
    let chars = to_chars(s);
    for i in 0..chars.len()
        invariant
            chars@ == s@,
            forall|j: int| 0 <= j < i ==> !('0' <= #[trigger] s@[j] && s@[j] <= '9'),
    {
        if '0' <= chars[i] && chars[i] <= '9' {
            assert('0' <= s@[i as int] && s@[i as int] <= '9');
            return true;
        }
    }
    false
}

fn holds_meeting_word(lowered: &str) -> (r: bool)
    ensures
        r == has_meeting_word(lowered@),
{
    let list = meeting_word_list();
    for i in 0..list.len()
        invariant
            slices(list@) == meeting_words(),
            forall|j: int| 0 <= j < i ==> !occurs(lowered@, #[trigger] meeting_words()[j]),
    {
        assert(slices(list@)[i as int] == list@[i as int]@);
        assert(slices(list@).len() == list@.len());
        if contains(lowered, list[i]) {
            assert(occurs(lowered@, meeting_words()[i as int]));
            return true;
        }
    }
    assert(slices(list@).len() == list@.len());
    false
}

/// Whether every word of a text is capitalised.
pub fn is_capitalised(s: &str) -> (r: bool)
    ensures
        r == capitalised(s@),
{
    let list = split_words(s);
    assert(texts(list@).len() == list@.len());
    for i in 0..list.len()
        invariant
            texts(list@) == words(s@),
            texts(list@).len() == list@.len(),
            forall|j: int| 0 <= j < i ==> capitalised_word(#[trigger] words(s@)[j]),
    {
        let word = to_chars(list[i].as_str());
        assert(words(s@)[i as int] == list@[i as int]@);
        if word.len() < 2 || !is_uppercase(word[0]) {
            assert(!capitalised_word(words(s@)[i as int]));
            return false;
        }
        assert(capitalised_word(words(s@)[i as int]));
    }
    true
}

/// The person whom a text names, given its lower-case form and whether its words
/// are capitalised.
pub fn person_named(candidate: &str, lowered: &str, capitalised: bool) -> (r: Option<String>)
    ensures
        text_in(r) == person_in(candidate@, lowered@, capitalised),
{
    let list = split_words(candidate);
    assert(texts(list@).len() == list@.len());
    if list.len() < 2 || list.len() > 3 || holds_digit(candidate) || holds_meeting_word(lowered)
        || !capitalised {
        None
    } else {
        Some(candidate.to_owned())
    }
}

/// Reads a window title as the name of the person at the other end, where it
/// plausibly is one.
///
/// In a one-to-one call the title is the other participant, in a scheduled
/// meeting the name of the meeting, and nothing in the title tells the two
/// apart. So the test is strict: two or three capitalised words, no digits, and
/// none of the words that turn up in meeting names. Where the title cannot be
/// cut behind a call prefix, no name is read.
pub fn other_party_from_title(title: &str) -> (r: Option<String>)
    ensures
        text_in(r) == other_party(title@),
{
    let t = trim_white(title);
    let lowered = to_lowercase(t.as_str());
    if !cuts_cleanly(t.as_str(), lowered.as_str()) {
        return None;
    }
    let candidate = subject_of_call(t.as_str(), lowered.as_str());
    let lowered = to_lowercase(candidate.as_str());
    let caps = is_capitalised(candidate.as_str());
    person_named(candidate.as_str(), lowered.as_str(), caps)
}

// ---------------------------------------------------------------------------
// Laws
// ---------------------------------------------------------------------------

/// A name that is read from a title has two or three words, each capitalised,
/// no digit, and none of the words of meeting names.
pub proof fn law_party_is_shaped_like_a_name(title: Seq<char>)
    requires
        other_party(title) is Some,
    ensures
        ({
            let name = other_party(title)->0;
            &&& 2 <= words(name).len() <= 3
            &&& capitalised(name)
            &&& !has_digit(name)
            &&& !has_meeting_word(lower_text(name))
        }),
{
}

proof fn lemma_no_bar(s: Seq<char>, k: CharClass)
    requires
        all_of(s, k),
        k == CharClass::White || k == CharClass::Just('-'),
    ensures
        forall|i: int| 0 <= i < s.len() ==> #[trigger] s[i] != '|',
{
    assert forall|i: int| 0 <= i < s.len() implies #[trigger] s[i] != '|' by {
        assert(k.holds(s[i]));
    }
}

/// A window title names its meeting in front of the first bar. White space around the
/// name is no part of it, nor are dashes behind it, and what stands behind the bar does
/// not matter.
pub proof fn law_a_title_names_its_meeting(
    before_it: Seq<char>,
    name: Seq<char>,
    gap: Seq<char>,
    dashes: Seq<char>,
    behind_it: Seq<char>,
    rest: Seq<char>,
)
    requires
        all_of(before_it, CharClass::White),
        all_of(gap, CharClass::White),
        all_of(dashes, CharClass::Just('-')),
        all_of(behind_it, CharClass::White),
        name.len() > 0,
        !is_white(name[0]) && !is_white(name.last()) && name.last() != '-',
        forall|i: int| 0 <= i < name.len() ==> #[trigger] name[i] != '|',
    ensures
        meeting_name(before_it + name + gap + dashes + behind_it) == name,
        meeting_name(before_it + name + gap + dashes + behind_it + seq!['|'] + rest) == name,
{
    let white = CharClass::White;
    let dash = CharClass::Just('-');
    let none = Seq::<char>::empty();
    let head = before_it + name + gap + dashes + behind_it;
    lemma_no_bar(before_it, white);
    lemma_no_bar(gap, white);
    lemma_no_bar(dashes, dash);
    lemma_no_bar(behind_it, white);
    assert forall|i: int| 0 <= i < head.len() implies #[trigger] head[i] != '|' by {
        let a = before_it.len() as int;
        let b = a + name.len();
        let c = b + gap.len();
        let d = c + dashes.len();
        if i < a {
            assert(head[i] == before_it[i]);
        } else if i < b {
            assert(head[i] == name[i - a]);
        } else if i < c {
            assert(head[i] == gap[i - b]);
        } else if i < d {
            assert(head[i] == dashes[i - c]);
        } else {
            assert(head[i] == behind_it[i - d]);
        }
    }
    law_before_stops_at_the_first(head, '|', rest);
    let parted = if dashes.len() == 0 {
        name
    } else {
        name + gap + dashes
    };
    if dashes.len() == 0 {
        assert(head =~= before_it + name + (gap + behind_it));
        assert(all_of(gap + behind_it, white));
        law_trim_leaves_what_stands_between(before_it, name, gap + behind_it, white);
        law_trim_end_takes_the_class_off(name, none, dash);
        assert(name + none =~= name);
    } else {
        assert(head =~= before_it + parted + behind_it);
        assert(dash.holds(dashes[dashes.len() - 1]));
        assert(parted.last() == dashes[dashes.len() - 1]);
        assert(parted[0] == name[0]);
        law_trim_leaves_what_stands_between(before_it, parted, behind_it, white);
        if gap.len() > 0 {
            assert(white.holds(gap[gap.len() - 1]));
            assert((name + gap).last() == gap[gap.len() - 1]);
        } else {
            assert(name + gap =~= name);
        }
        law_trim_end_takes_the_class_off(name + gap, dashes, dash);
    }
    law_trim_leaves_what_stands_between(none, name, gap, white);
    law_trim_leaves_what_stands_between(none, name, none, white);
    assert(none + name + gap =~= name + gap);
    assert(none + name + none =~= name);
}

/// The name of the application, in any ASCII case, is not that of a meeting, and neither
/// is a blank. Any other name is.
pub proof fn law_the_application_is_no_meeting(title: Seq<char>)
    ensures
        names_a_meeting(title) <==> meeting_name(title).len() > 0 && ascii_lower(
            meeting_name(title),
        ) != "microsoft teams"@,
        !names_a_meeting(Seq::empty()),
{
    reveal_strlit("Microsoft Teams");
    reveal_strlit("microsoft teams");
    assert(ascii_lower("Microsoft Teams"@) =~= "microsoft teams"@);
    let none = Seq::<char>::empty();
    law_before_stops_at_the_first(none, '|', none);
    law_trim_leaves_what_stands_between(none, none, none, CharClass::White);
    law_trim_end_takes_the_class_off(none, none, CharClass::Just('-'));
    assert(none + none + none =~= none);
    assert(none + none =~= none);
}

/// Which words mark the name of a meeting.
pub proof fn law_meeting_words_are_known(lowered: Seq<char>)
    ensures
        has_meeting_word(lowered) <==> {
            ||| occurs(lowered, "meeting"@)
            ||| occurs(lowered, "call"@)
            ||| occurs(lowered, "sync"@)
            ||| occurs(lowered, "standup"@)
            ||| occurs(lowered, "stand-up"@)
            ||| occurs(lowered, "daily"@)
            ||| occurs(lowered, "weekly"@)
            ||| occurs(lowered, "monthly"@)
            ||| occurs(lowered, "review"@)
            ||| occurs(lowered, "retro"@)
            ||| occurs(lowered, "planning"@)
            ||| occurs(lowered, "kickoff"@)
            ||| occurs(lowered, "demo"@)
            ||| occurs(lowered, "workshop"@)
            ||| occurs(lowered, "interview"@)
            ||| occurs(lowered, "spotkanie"@)
            ||| occurs(lowered, "rozmowa"@)
            ||| occurs(lowered, "zebranie"@)
            ||| occurs(lowered, "narada"@)
            ||| occurs(lowered, "prezentacja"@)
            ||| occurs(lowered, "szkolenie"@)
            ||| occurs(lowered, "status"@)
        },
{
    let w = meeting_words();
    assert(w.len() == 22);
    assert(w[0] == "meeting"@ && w[1] == "call"@ && w[2] == "sync"@ && w[3] == "standup"@);
    assert(w[4] == "stand-up"@ && w[5] == "daily"@ && w[6] == "weekly"@ && w[7] == "monthly"@);
    assert(w[8] == "review"@ && w[9] == "retro"@ && w[10] == "planning"@ && w[11] == "kickoff"@);
    assert(w[12] == "demo"@ && w[13] == "workshop"@ && w[14] == "interview"@);
    assert(w[15] == "spotkanie"@ && w[16] == "rozmowa"@ && w[17] == "zebranie"@);
    assert(w[18] == "narada"@ && w[19] == "prezentacja"@ && w[20] == "szkolenie"@);
    assert(w[21] == "status"@);
}

/// Wherever a word of meeting names stands in a text, it marks the text.
pub proof fn law_a_meeting_word_marks_any_text(
    before_it: Seq<char>,
    i: int,
    behind_it: Seq<char>,
)
    requires
        0 <= i < meeting_words().len(),
    ensures
        has_meeting_word(before_it + meeting_words()[i] + behind_it),
{
    law_occurs_between(before_it, meeting_words()[i], behind_it);
}

/// Which words stand in front of a name in the title of a call: a title that begins with
/// one of them begins with no other, and no other title has any.
pub proof fn law_call_prefixes_are_known(lowered: Seq<char>)
    ensures
        begins(lowered, "call with "@) ==> call_prefix(lowered) == Some("call with "@),
        begins(lowered, "meeting with "@) ==> call_prefix(lowered) == Some("meeting with "@),
        begins(lowered, "chat with "@) ==> call_prefix(lowered) == Some("chat with "@),
        begins(lowered, "rozmowa z "@) ==> call_prefix(lowered) == Some("rozmowa z "@),
        begins(lowered, "spotkanie z "@) ==> call_prefix(lowered) == Some("spotkanie z "@),
        begins(lowered, "połączenie z "@) ==> call_prefix(lowered) == Some("połączenie z "@),
        call_prefix(lowered) matches Some(p) ==> begins(lowered, p) && {
            ||| p == "call with "@
            ||| p == "meeting with "@
            ||| p == "chat with "@
            ||| p == "rozmowa z "@
            ||| p == "spotkanie z "@
            ||| p == "połączenie z "@
        },
{
    reveal_strlit("call with ");
    reveal_strlit("meeting with ");
    reveal_strlit("chat with ");
    reveal_strlit("rozmowa z ");
    reveal_strlit("spotkanie z ");
    reveal_strlit("połączenie z ");
    let p = call_prefixes();
    assert(p.len() == 6);
    assert(p[0] == "call with "@ && p[1] == "meeting with "@ && p[2] == "chat with "@);
    assert(p[3] == "rozmowa z "@ && p[4] == "spotkanie z "@ && p[5] == "połączenie z "@);
    assert forall|i: int| 0 <= i < 6 && begins(lowered, #[trigger] p[i]) implies lowered.len() > 1
        && lowered[0] == p[i][0] && lowered[1] == p[i][1] by {
        let t = lowered.take(p[i].len() as int);
        assert(t == p[i]);
        assert(t[0] == lowered[0] && t[1] == lowered[1]);
    }
    assert(p[0][0] == 'c' && p[0][1] == 'a' && p[1][0] == 'm' && p[2][0] == 'c' && p[2][1] == 'h');
    assert(p[3][0] == 'r' && p[4][0] == 's' && p[5][0] == 'p');
    reveal_with_fuel(prefix_from, 7);
}

proof fn lemma_encoded_in_parts(a: Seq<char>, b: Seq<char>)
    ensures
        encode_utf8(a + b) == encode_utf8(a) + encode_utf8(b),
        is_char_boundary(encode_utf8(a + b), encode_utf8(a).len() as int),
    decreases a.len(),
{
    let all = a + b;
    vstd::utf8::encode_utf8_valid_utf8(all);
    if a.len() == 0 {
        assert(all =~= b);
        assert(encode_utf8(a) + encode_utf8(b) =~= encode_utf8(b));
    } else {
        let rest = a.drop_first();
        lemma_encoded_in_parts(rest, b);
        assert(all.drop_first() =~= rest + b);
        assert(all[0] == a[0]);
        assert(encode_utf8(all) =~= encode_utf8(a) + encode_utf8(b));
        vstd::utf8::encode_utf8_first_scalar(all);
        let bytes = encode_utf8(all);
        let n = encode_utf8(a).len() as int;
        assert(pop_first_scalar(bytes) == encode_utf8(rest + b));
        assert(n - length_of_first_scalar(bytes) == encode_utf8(rest).len());
    }
}

/// What stands in front of a name in the title of a call is taken off, with the white space
/// around the name, and nothing else is: whatever characters the prefix was written with,
/// where they take as much room.
pub proof fn law_a_call_prefix_is_taken_off(
    head: Seq<char>,
    rest: Seq<char>,
    lowered: Seq<char>,
)
    requires
        call_prefix(lowered) matches Some(p) && encode_utf8(head).len() == encode_utf8(p).len(),
    ensures
        clean_cut(head + rest, lowered),
        call_subject(head + rest, lowered) == stripped(rest),
{
    lemma_encoded_in_parts(head, rest);
    let bytes = encode_utf8(head + rest);
    let n = encode_utf8(head).len() as int;
    assert(bytes.subrange(n, bytes.len() as int) =~= encode_utf8(rest));
    vstd::utf8::encode_utf8_decode_utf8(rest);
}

/// A title without such a prefix is taken as it stands.
pub proof fn law_other_titles_are_taken_whole(title: Seq<char>, lowered: Seq<char>)
    requires
        call_prefix(lowered) is None,
    ensures
        clean_cut(title, lowered),
        call_subject(title, lowered) == title,
{
}

/// The title of a one-to-one call in ASCII names whoever stands behind the prefix, where
/// what stands there is shaped like a name.
pub proof fn law_a_call_names_the_other_party(head: Seq<char>, name: Seq<char>)
    requires
        is_ascii_chars(head),
        is_ascii_chars(name),
        ({
            let low = ascii_lower(head);
            ||| low == "call with "@
            ||| low == "meeting with "@
            ||| low == "chat with "@
            ||| low == "rozmowa z "@
            ||| low == "spotkanie z "@
        }),
        name.len() > 0 && !is_white(name[0]) && !is_white(name.last()),
    ensures
        other_party(head + name) == person_in(name, ascii_lower(name), capitalised(name)),
{
    let none = Seq::<char>::empty();
    let title = head + name;
    let low = ascii_lower(head);
    reveal_strlit("call with ");
    reveal_strlit("meeting with ");
    reveal_strlit("chat with ");
    reveal_strlit("rozmowa z ");
    reveal_strlit("spotkanie z ");
    assert(low[0] == 'c' || low[0] == 'm' || low[0] == 'r' || low[0] == 's');
    assert(!is_white(head[0]));
    assert(title[0] == head[0] && title.last() == name.last());
    law_trim_leaves_what_stands_between(none, title, none, CharClass::White);
    law_trim_leaves_what_stands_between(none, name, none, CharClass::White);
    assert(none + title + none =~= title);
    assert(none + name + none =~= name);
    assert(is_ascii_chars(title)) by {
        assert forall|i: int| 0 <= i < title.len() implies '\0' <= #[trigger] title[i] <= '\u{7f}' by {
            if i < head.len() {
                assert(title[i] == head[i]);
            } else {
                assert(title[i] == name[i - head.len()]);
            }
        }
    }
    let lowered = ascii_lower(title);
    assert(lowered.take(low.len() as int) =~= low);
    assert(begins(lowered, low));
    law_call_prefixes_are_known(lowered);
    assert(is_ascii_chars(low)) by {
        assert forall|i: int| 0 <= i < low.len() implies '\0' <= #[trigger] low[i] <= '\u{7f}' by {
            assert('\0' <= head[i] <= '\u{7f}');
        }
    }
    vstd::utf8::is_ascii_chars_encode_utf8(head);
    vstd::utf8::is_ascii_chars_encode_utf8(low);
    law_a_call_prefix_is_taken_off(head, name, lowered);
}

/// A digit anywhere in a text is one.
pub proof fn law_a_digit_is_found_anywhere(a: Seq<char>, b: Seq<char>)
    ensures
        has_digit(a + b) == (has_digit(a) || has_digit(b)),
        !has_digit(Seq::empty()),
        forall|c: char| has_digit(seq![c]) == #[trigger] "0123456789"@.contains(c),
{
    let all = a + b;
    assert forall|i: int| 0 <= i < a.len() implies #[trigger] a[i] == all[i] by {}
    assert forall|i: int| 0 <= i < b.len() implies #[trigger] b[i] == all[a.len() + i] by {}
    if has_digit(all) {
        let i = choose|i: int| 0 <= i < all.len() && '0' <= #[trigger] all[i] && all[i] <= '9';
        if i < a.len() {
            assert(a[i] == all[i]);
        } else {
            assert(b[i - a.len()] == all[i]);
        }
    }
    reveal_strlit("0123456789");
    let digits = "0123456789"@;
    assert forall|c: char| has_digit(seq![c]) == #[trigger] digits.contains(c) by {
        assert(seq![c][0] == c);
        if has_digit(seq![c]) {
            assert(digits[c as int - '0' as int] == c);
        }
    }
}

/// A text is capitalised where each of its words is: an upper-case initial and at least one
/// character more.
pub proof fn law_each_word_is_capitalised(a: Seq<char>, c: char, b: Seq<char>)
    requires
        is_white(c),
    ensures
        capitalised(a + seq![c] + b) == (capitalised(a) && capitalised(b)),
        no_white(a) && a.len() > 0 ==> (capitalised(a) <==> a.len() >= 2 && is_upper(a[0])),
{
    law_white_space_parts_words(a, c, b);
    let all = words(a + seq![c] + b);
    let x = words(a);
    let y = words(b);
    assert(all == x + y);
    if capitalised(a + seq![c] + b) {
        assert forall|i: int| 0 <= i < x.len() implies capitalised_word(#[trigger] x[i]) by {
            assert(all[i] == x[i]);
        }
        assert forall|i: int| 0 <= i < y.len() implies capitalised_word(#[trigger] y[i]) by {
            assert(all[x.len() + i] == y[i]);
        }
    }
    if capitalised(a) && capitalised(b) {
        assert forall|i: int| 0 <= i < all.len() implies capitalised_word(#[trigger] all[i]) by {
            if i < x.len() {
                assert(all[i] == x[i]);
            } else {
                assert(all[i] == y[i - x.len()]);
            }
        }
    }
    if no_white(a) && a.len() > 0 {
        law_a_run_is_one_word(a);
        assert(words(a)[0] == a);
    }
}

/// Two words or three name a person, where they are capitalised, without a digit and
/// without a word of meeting names. One word does not, and four do not.
pub proof fn law_two_or_three_words_name_a_person(
    w: Seq<char>,
    x: Seq<char>,
    y: Seq<char>,
    z: Seq<char>,
    lowered: Seq<char>,
    caps: bool,
)
    requires
        no_white(w) && w.len() > 0,
        no_white(x) && x.len() > 0,
        no_white(y) && y.len() > 0,
        no_white(z) && z.len() > 0,
    ensures
        ({
            let two = w + seq![' '] + x;
            let three = two + seq![' '] + y;
            let four = three + seq![' '] + z;
            &&& person_in(w, lowered, caps) is None
            &&& person_in(two, lowered, caps) == if caps && !has_digit(two) && !has_meeting_word(
                lowered,
            ) {
                Some(two)
            } else {
                None
            }
            &&& person_in(three, lowered, caps) == if caps && !has_digit(three)
                && !has_meeting_word(lowered) {
                Some(three)
            } else {
                None
            }
            &&& person_in(four, lowered, caps) is None
        }),
{
    let two = w + seq![' '] + x;
    let three = two + seq![' '] + y;
    law_a_run_is_one_word(w);
    law_a_run_is_one_word(x);
    law_a_run_is_one_word(y);
    law_a_run_is_one_word(z);
    law_white_space_parts_words(w, ' ', x);
    law_white_space_parts_words(two, ' ', y);
    law_white_space_parts_words(three, ' ', z);
}

/// White space around a title does not matter to whom it names.
pub proof fn law_space_around_a_title_does_not_matter(
    before_it: Seq<char>,
    title: Seq<char>,
    behind_it: Seq<char>,
)
    requires
        all_of(before_it, CharClass::White),
        all_of(behind_it, CharClass::White),
        title.len() > 0 ==> !is_white(title[0]) && !is_white(title.last()),
    ensures
        other_party(before_it + title + behind_it) == other_party(title),
{
    let none = Seq::<char>::empty();
    law_trim_leaves_what_stands_between(before_it, title, behind_it, CharClass::White);
    law_trim_leaves_what_stands_between(none, title, none, CharClass::White);
    assert(none + title + none =~= title);
}

/// Titles are read beyond ASCII in the same way: a title names whom the part behind its call
/// prefix names, where the prefix takes as much room as its lower-case form, and otherwise
/// whom the whole of it names.
pub proof fn law_titles_are_read_beyond_ascii(head: Seq<char>, rest: Seq<char>)
    requires
        (head + rest).len() > 0 && !is_white((head + rest)[0]) && !is_white((head + rest).last()),
    ensures
        ({
            let title = head + rest;
            let lowered = lower_text(title);
            let name = stripped(rest);
            &&& call_prefix(lowered) is None ==> other_party(title) == person_in(
                title,
                lowered,
                capitalised(title),
            )
            &&& (call_prefix(lowered) matches Some(p) && encode_utf8(head).len() == encode_utf8(
                p,
            ).len()) ==> other_party(title) == person_in(name, lower_text(name), capitalised(name))
        }),
{
    let none = Seq::<char>::empty();
    let title = head + rest;
    law_trim_leaves_what_stands_between(none, title, none, CharClass::White);
    assert(none + title + none =~= title);
    let lowered = lower_text(title);
    if call_prefix(lowered) matches Some(p) && encode_utf8(head).len() == encode_utf8(p).len() {
        law_a_call_prefix_is_taken_off(head, rest, lowered);
    }
}

} // verus!

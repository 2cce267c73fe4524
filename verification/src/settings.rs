//! The settings: how they are stored, what they are on a first run, and what each
//! of them decides.

use vstd::prelude::*;
use vstd::utf8::encode_utf8;

use crate::base64::{bytes_of, encoded};
use crate::secret::{
    is_secret_key, law_reveal_undoes_protect, law_stored_values_are_read,
    law_the_keys_of_services_are_secret, law_values_are_stored_sealed, needs_sealing, prefix,
    protect, reveal_secret, revealed_form, sealed_bytes, secret_key, stored_form,
};
use crate::text::{
    all_of, ascii_lower, begins, is_blank, is_white, law_stripping_loses_only_white,
    law_trim_leaves_what_stands_between, lemma_not_blank, outcome_of, same,
    same_ignoring_ascii_case, stripped, text_in, to_truth, trim_white, truth, word_count, words,
    CharClass,
};

verus! {

// ---------------------------------------------------------------------------
// Rows
// ---------------------------------------------------------------------------

/// A setting as it stands in the table: a key and its value.
#[derive(Debug)]
pub struct Setting {
    pub setting_key: String,
    pub setting_value: String,
}

impl View for Setting {
    type V = (Seq<char>, Seq<char>);

    open spec fn view(&self) -> (Seq<char>, Seq<char>) {
        (self.setting_key@, self.setting_value@)
    }
}

/// What a list of settings says.
pub open spec fn rows_of(v: Seq<Setting>) -> Seq<(Seq<char>, Seq<char>)> {
    v.map_values(|s: Setting| s@)
}

fn row(key: &str, value: &str) -> (r: Setting)
    ensures
        r@ == (key@, value@),
{
    Setting { setting_key: key.to_owned(), setting_value: value.to_owned() }
}

/// The value that is written for a setting, given what sealing it gave: a secret
/// is sealed, anything else is written as it is.
pub open spec fn written_value(key: Seq<char>, value: Seq<char>, sealed: Option<Seq<u8>>) -> Seq<
    char,
> {
    if secret_key(key) {
        stored_form(value, sealed)
    } else {
        value
    }
}

/// The value that a row reads as, given what opening it gave.
pub open spec fn read_value(key: Seq<char>, value: Seq<char>, opened: Option<Seq<u8>>) -> Seq<
    char,
> {
    if secret_key(key) {
        revealed_form(value, opened)
    } else {
        value
    }
}

/// The row to write for a setting: a secret is sealed first. `encrypt` is handed
/// the UTF-8 bytes of a secret that is set and not sealed yet.
pub fn insert_or_update_setting<F: Fn(&[u8]) -> Option<Vec<u8>>>(
    setting: Setting,
    encrypt: F,
) -> (r: Setting)
    requires
        forall|data: &[u8]| call_requires(encrypt, (data,)),
    ensures
        r.setting_key@ == setting.setting_key@,
        !(secret_key(setting@.0) && needs_sealing(setting@.1)) ==> r@ == setting@,
        secret_key(setting@.0) && needs_sealing(setting@.1) ==> exists|
            data: &[u8],
            sealed: Option<Vec<u8>>,
        |
            {
                &&& data@ == encode_utf8(setting@.1)
                &&& #[trigger] call_ensures(encrypt, (data,), sealed)
                &&& r@.1 == written_value(setting@.0, setting@.1, bytes_of(sealed))
            },
{
    if is_secret_key(setting.setting_key.as_str()) {
        let value = protect(setting.setting_value.as_str(), encrypt);
        Setting { setting_key: setting.setting_key, setting_value: value }
    } else {
        setting
    }
}

/// Whether a row reads as a setting, where `decrypt` opens secrets: a secret that
/// is sealed is opened, anything else is read as it is.
pub open spec fn reads_as<F: Fn(&[u8]) -> Option<Vec<u8>>>(
    row: (Seq<char>, Seq<char>),
    decrypt: F,
    r: (Seq<char>, Seq<char>),
) -> bool {
    &&& r.0 == row.0
    &&& if secret_key(row.0) && begins(row.1, prefix()) {
        match sealed_bytes(row.1) {
            Some(bytes) => exists|data: &[u8], opened: Option<Vec<u8>>|
                {
                    &&& data@ == bytes
                    &&& #[trigger] call_ensures(decrypt, (data,), opened)
                    &&& r.1 == read_value(row.0, row.1, bytes_of(opened))
                },
            None => r.1.len() == 0,
        }
    } else {
        r.1 == row.1
    }
}

/// Reads a row: a secret is opened first.
fn read_row<F: Fn(&[u8]) -> Option<Vec<u8>>>(row: &Setting, decrypt: F) -> (r: Setting)
    requires
        forall|data: &[u8]| call_requires(decrypt, (data,)),
    ensures
        reads_as(row@, decrypt, r@),
{
    if is_secret_key(row.setting_key.as_str()) {
        let value = reveal_secret(row.setting_value.as_str(), decrypt);
        Setting { setting_key: row.setting_key.clone(), setting_value: value }
    } else {
        Setting { setting_key: row.setting_key.clone(), setting_value: row.setting_value.clone() }
    }
}

/// Reads one setting, given the row that was found. A row that is missing, or
/// could not be read, gives an empty value, which means that nothing was chosen.
pub fn get_setting<F: Fn(&[u8]) -> Option<Vec<u8>>>(
    setting_key: &str,
    found: &Option<Setting>,
    decrypt: F,
) -> (r: Setting)
    requires
        forall|data: &[u8]| call_requires(decrypt, (data,)),
    ensures
        match *found {
            Some(row) => reads_as(row@, decrypt, r@),
            None => r@ == (setting_key@, Seq::<char>::empty()),
        },
{
    match found {
        Some(row) => read_row(row, decrypt),
        None => Setting { setting_key: setting_key.to_owned(), setting_value: String::new() },
    }
}

/// Reads all settings, given their rows.
pub fn get_settings<F: Fn(&[u8]) -> Option<Vec<u8>> + Copy>(
    rows: &Vec<Setting>,
    decrypt: F,
) -> (r: Vec<Setting>)
    requires
        forall|data: &[u8]| call_requires(decrypt, (data,)),
    ensures
        r@.len() == rows@.len(),
        forall|i: int| 0 <= i < r@.len() ==> reads_as(rows@[i]@, decrypt, (#[trigger] r@[i])@),
{
    let mut r: Vec<Setting> = Vec::new();
    for i in 0..rows.len()
        invariant
            forall|data: &[u8]| call_requires(decrypt, (data,)),
            r@.len() == i,
            forall|j: int| 0 <= j < i ==> reads_as(rows@[j]@, decrypt, (#[trigger] r@[j])@),
    {
        r.push(read_row(&rows[i], decrypt));
    }
    r
}

// ---------------------------------------------------------------------------
// The first run
// ---------------------------------------------------------------------------

/// The settings that capture without anyone at the machine depends on, as they are
/// on a first run.
pub open spec fn default_rows() -> Seq<(Seq<char>, Seq<char>)> {
    seq![
        ("use_local_transcription"@, "true"@),
        ("whisper_model"@, "large-v3-turbo"@),
        ("meeting_detection_enabled"@, "true"@),
        ("auto_capture_meetings"@, "true"@),
        ("capture_system_audio"@, "true"@),
        ("transcription_language"@, "auto"@),
        ("post_meeting_analysis"@, "local"@),
        ("vectorization_enabled"@, "true"@),
        ("rag_top_k"@, "12"@),
    ]
}

/// The settings of a first run.
pub fn default_settings() -> (r: Vec<Setting>)
    ensures
        rows_of(r@) == default_rows(),
{
    let mut r: Vec<Setting> = Vec::new();
    // Transcribe on this machine: a capture that nobody watches cannot depend on
    // a key being there.
    r.push(row("use_local_transcription", "true"));
    r.push(row("whisper_model", "large-v3-turbo"));
    r.push(row("meeting_detection_enabled", "true"));
    r.push(row("auto_capture_meetings", "true"));
    // Without the speakers a transcript is only one half of a call.
    r.push(row("capture_system_audio", "true"));
    // A code such as "pl" is better where the language is known.
    r.push(row("transcription_language", "auto"));
    // A local model, a hosted one by its name, or "off".
    r.push(row("post_meeting_analysis", "local"));
    r.push(row("vectorization_enabled", "true"));
    // More chunks overflow what a local model can take in.
    r.push(row("rag_top_k", "12"));
    assert(rows_of(r@) =~= default_rows());
    r
}

/// The value under a key: that of the first row with it, and empty where there is
/// none.
pub open spec fn value_in(rows: Seq<(Seq<char>, Seq<char>)>, key: Seq<char>) -> Seq<char>
    decreases rows.len(),
{
    if rows.len() == 0 {
        Seq::empty()
    } else if rows[0].0 == key {
        rows[0].1
    } else {
        value_in(rows.skip(1), key)
    }
}

/// Of some defaults, those for which nothing was chosen.
pub open spec fn unset(
    defaults: Seq<(Seq<char>, Seq<char>)>,
    chosen: spec_fn(Seq<char>) -> Seq<char>,
) -> Seq<(Seq<char>, Seq<char>)> {
    defaults.filter(|d: (Seq<char>, Seq<char>)| stripped(chosen(d.0)).len() == 0)
}

/// The value under a key.
fn value_under(rows: &Vec<Setting>, key: &str) -> (r: String)
    ensures
        r@ == value_in(rows_of(rows@), key@),
{
    let ghost all = rows_of(rows@);
    assert(all.skip(0) =~= all);
    for i in 0..rows.len()
        invariant
            all == rows_of(rows@),
            value_in(all, key@) == value_in(all.skip(i as int), key@),
    {
        assert(all.skip(i as int)[0] == rows@[i as int]@);
        assert(all.skip(i as int).skip(1) =~= all.skip(i + 1));
        if same(rows[i].setting_key.as_str(), key) {
            return rows[i].setting_value.clone();
        }
    }
    String::new()
}

/// The settings to write on start: those defaults for which nothing was chosen.
/// What was chosen already is left alone.
pub fn settings_to_seed(existing: &Vec<Setting>) -> (r: Vec<Setting>)
    ensures
        rows_of(r@) == unset(default_rows(), |key: Seq<char>| value_in(rows_of(existing@), key)),
{
    let defaults = default_settings();
    let ghost chosen = |key: Seq<char>| value_in(rows_of(existing@), key);
    let ghost wanted = |d: (Seq<char>, Seq<char>)| stripped(chosen(d.0)).len() == 0;
    let ghost all = default_rows();
    let mut r: Vec<Setting> = Vec::new();
    assert(all.take(0) =~= Seq::empty());
    assert(rows_of(r@) =~= Seq::empty());
    proof {
        reveal(Seq::filter);
    }
    for i in 0..defaults.len()
        invariant
            rows_of(defaults@) == all,
            chosen == (|key: Seq<char>| value_in(rows_of(existing@), key)),
            wanted == (|d: (Seq<char>, Seq<char>)| stripped(chosen(d.0)).len() == 0),
            rows_of(r@) == all.take(i as int).filter(wanted),
    {
        let ghost before = r@;
        let d = &defaults[i];
        assert(all[i as int] == d@);
        assert(all.take(i + 1).drop_last() =~= all.take(i as int));
        assert(all.take(i + 1).last() == d@);
        let value = value_under(existing, d.setting_key.as_str());
        assert(value@ == chosen(d@.0));
        proof {
            reveal(Seq::filter);
        }
        if is_blank(value.as_str()) {
            r.push(row(d.setting_key.as_str(), d.setting_value.as_str()));
            assert(rows_of(r@) =~= rows_of(before).push(d@));
        }
    }
    assert(all.take(all.len() as int) =~= all);
    r
}

// ---------------------------------------------------------------------------
// The form
// ---------------------------------------------------------------------------

/// The settings as they are chosen in the window.
#[derive(Debug)]
pub struct Settings {
    pub interval: String,
    pub is_dev_mode: bool,
    pub auto_start: bool,
    pub api_choice: String,
    pub api_key_claude: String,
    pub api_key_open_ai: String,
    pub api_key_gemini: String,
    pub local_model_url: String,
    pub vectorization_enabled: bool,
    pub rag_top_k: String,
    pub meeting_detection_enabled: bool,
    pub model_claude: String,
    pub model_openai: String,
    pub model_gemini: String,
    pub use_local_transcription: bool,
    pub whisper_model: String,
    pub api_key_elevenlabs: String,
}

/// The rows that hold the settings chosen in the window.
pub open spec fn chosen_rows(s: Settings) -> Seq<(Seq<char>, Seq<char>)> {
    seq![
        ("interval"@, s.interval@),
        ("is_dev_mode"@, truth(s.is_dev_mode)),
        ("auto_start"@, truth(s.auto_start)),
        ("api_choice"@, s.api_choice@),
        ("api_key_claude"@, s.api_key_claude@),
        ("api_key_open_ai"@, s.api_key_open_ai@),
        ("api_key_gemini"@, s.api_key_gemini@),
        ("local_model_url"@, s.local_model_url@),
        ("vectorization_enabled"@, truth(s.vectorization_enabled)),
        ("rag_top_k"@, s.rag_top_k@),
        ("meeting_detection_enabled"@, truth(s.meeting_detection_enabled)),
        ("model_claude"@, s.model_claude@),
        ("model_openai"@, s.model_openai@),
        ("model_gemini"@, s.model_gemini@),
        ("use_local_transcription"@, truth(s.use_local_transcription)),
        ("whisper_model"@, s.whisper_model@),
        ("api_key_elevenlabs"@, s.api_key_elevenlabs@),
    ]
}

/// The rows to write when settings are chosen in the window, and how the switch of
/// the running detection loop stands from now on.
pub fn update_settings(settings: &Settings) -> (r: (Vec<Setting>, bool))
    ensures
        rows_of(r.0@) == chosen_rows(*settings),
        r.1 == settings.meeting_detection_enabled,
{
    let mut r: Vec<Setting> = Vec::new();
    r.push(row("interval", settings.interval.as_str()));
    r.push(row("is_dev_mode", to_truth(settings.is_dev_mode).as_str()));
    r.push(row("auto_start", to_truth(settings.auto_start).as_str()));
    r.push(row("api_choice", settings.api_choice.as_str()));
    r.push(row("api_key_claude", settings.api_key_claude.as_str()));
    r.push(row("api_key_open_ai", settings.api_key_open_ai.as_str()));
    r.push(row("api_key_gemini", settings.api_key_gemini.as_str()));
    r.push(row("local_model_url", settings.local_model_url.as_str()));
    r.push(row("vectorization_enabled", to_truth(settings.vectorization_enabled).as_str()));
    r.push(row("rag_top_k", settings.rag_top_k.as_str()));
    r.push(row("meeting_detection_enabled", to_truth(settings.meeting_detection_enabled).as_str()));
    r.push(row("model_claude", settings.model_claude.as_str()));
    r.push(row("model_openai", settings.model_openai.as_str()));
    r.push(row("model_gemini", settings.model_gemini.as_str()));
    r.push(row("use_local_transcription", to_truth(settings.use_local_transcription).as_str()));
    r.push(row("whisper_model", settings.whisper_model.as_str()));
    r.push(row("api_key_elevenlabs", settings.api_key_elevenlabs.as_str()));
    assert(rows_of(r@) =~= chosen_rows(*settings));
    (r, settings.meeting_detection_enabled)
}

// ---------------------------------------------------------------------------
// What the values decide
// ---------------------------------------------------------------------------

/// Whether a switch is on: only the exact word turns it on.
pub fn is_on(value: &str) -> (r: bool)
    ensures
        r == (value@ == "true"@),
{
    same(value, "true")
}

/// Whether meetings are captured without asking. They are unless someone chose
/// otherwise: a recorder that runs hidden has nobody to ask.
pub fn auto_capture_enabled(value: &str) -> (r: bool)
    ensures
        r == (stripped(value@).len() == 0 || ascii_lower(stripped(value@)) == ascii_lower(
            "true"@,
        )),
{
    let chosen = trim_white(value);
    chosen.as_str().is_empty() || same_ignoring_ascii_case(chosen.as_str(), "true")
}

/// Whether screenshots and task mining are prepared, which happens only on
/// request.
pub fn task_mining_enabled(value: &str) -> (r: bool)
    ensures
        r == (ascii_lower(value@) == ascii_lower("true"@)),
{
    same_ignoring_ascii_case(value, "true")
}

/// Whether the speakers are recorded beside the microphone, which happens unless
/// someone chose otherwise.
pub fn captures_system_audio(value: &str) -> (r: bool)
    ensures
        r == (ascii_lower(value@) != ascii_lower("false"@)),
{
    !same_ignoring_ascii_case(value, "false")
}

/// Whether the two sides of a call are transcribed on their own: as the build
/// does by default, unless someone chose.
pub fn separates_speakers(value: &str, by_default: bool) -> (r: bool)
    ensures
        r == if stripped(value@).len() == 0 {
            by_default
        } else {
            ascii_lower(value@) == ascii_lower("true"@)
        },
{
    if is_blank(value) {
        by_default
    } else {
        same_ignoring_ascii_case(value, "true")
    }
}

/// The model that a trial recording is transcribed with.
pub open spec fn model_named(value: Seq<char>) -> Seq<char> {
    if stripped(value).len() == 0 {
        "large-v3"@
    } else {
        value
    }
}

/// The model that a trial recording is transcribed with.
pub fn model_id(value: &str) -> (r: String)
    ensures
        r@ == model_named(value@),
{
    if is_blank(value) {
        "large-v3".to_owned()
    } else {
        value.to_owned()
    }
}

/// The fewest words that make a meeting worth analysing.
pub const WORDS_TO_ANALYSE: usize = 30;

/// Who analyses a finished meeting: nobody where none was chosen, where it was
/// switched off, or where too little was said.
pub open spec fn analyst(value: Seq<char>, transcript: Seq<char>) -> Option<Seq<char>> {
    let provider = stripped(value);
    if provider.len() == 0 || ascii_lower(provider) == ascii_lower("off"@) || words(
        transcript,
    ).len() < WORDS_TO_ANALYSE {
        None
    } else {
        Some(provider)
    }
}

/// Who analyses a finished meeting.
pub fn analysis_provider(value: &str, transcript: &str) -> (r: Option<String>)
    ensures
        text_in(r) == analyst(value@, transcript@),
{
    let provider = trim_white(value);
    if provider.as_str().is_empty() || same_ignoring_ascii_case(provider.as_str(), "off") {
        return None;
    }
    if word_count(transcript) < WORDS_TO_ANALYSE {
        return None;
    }
    Some(provider)
}

/// The key for transcribing with a hosted service, which must be there.
pub fn transcription_key(value: &str) -> (r: Result<String, String>)
    ensures
        outcome_of(r) == if value@.len() == 0 {
            Err("OpenAI API key is required for audio transcription"@)
        } else {
            Ok::<Seq<char>, Seq<char>>(value@)
        },
{
    if value.is_empty() {
        Err("OpenAI API key is required for audio transcription".to_owned())
    } else {
        Ok(value.to_owned())
    }
}

/// What to look for in the notes: nothing where the term is blank.
pub fn search_term(term: &str) -> (r: Option<String>)
    ensures
        text_in(r) == if stripped(term@).len() == 0 {
            None
        } else {
            Some(stripped(term@))
        },
{
    let t = trim_white(term);
    if t.as_str().is_empty() {
        None
    } else {
        Some(t)
    }
}

/// Whether an argument is among those of a command line.
pub open spec fn is_given(args: Seq<String>, wanted: Seq<char>) -> bool {
    exists|i: int| 0 <= i < args.len() && (#[trigger] args[i])@ == wanted
}

/// Whether an argument was given on the command line.
pub fn has_argument(args: &Vec<String>, wanted: &str) -> (r: bool)
    ensures
        r == exists|i: int| 0 <= i < args@.len() && (#[trigger] args@[i])@ == wanted@,
        r == is_given(args@, wanted@),
{
    for i in 0..args.len()
        invariant
            forall|j: int| 0 <= j < i ==> (#[trigger] args@[j])@ != wanted@,
    {
        if same(args[i].as_str(), wanted) {
            return true;
        }
    }
    false
}

// ---------------------------------------------------------------------------
// Laws
// ---------------------------------------------------------------------------

/// What is saved is what is read: a setting reads as it was chosen, sealed or not,
/// where opening gives back what was sealed. The one exception is a secret that
/// itself begins as a sealed value does.
pub proof fn law_saved_settings_read_back(
    key: Seq<char>,
    value: Seq<char>,
    sealed: Option<Seq<u8>>,
)
    requires
        secret_key(key) ==> !begins(value, prefix()),
    ensures
        read_value(key, written_value(key, value, sealed), Some(encode_utf8(value))) == value,
{
    if secret_key(key) {
        law_reveal_undoes_protect(value, sealed);
    }
}

/// What is chosen under each key once rows were written.
pub open spec fn after_writing(
    chosen: spec_fn(Seq<char>) -> Seq<char>,
    rows: Seq<(Seq<char>, Seq<char>)>,
) -> spec_fn(Seq<char>) -> Seq<char> {
    |key: Seq<char>|
        if exists|i: int| 0 <= i < rows.len() && (#[trigger] rows[i]).0 == key {
            value_in(rows, key)
        } else {
            chosen(key)
        }
}

proof fn lemma_value_is_there(rows: Seq<(Seq<char>, Seq<char>)>, i: int)
    requires
        0 <= i < rows.len(),
    ensures
        exists|j: int| 0 <= j < rows.len() && value_in(rows, rows[i].0) == (#[trigger] rows[j]).1,
    decreases rows.len(),
{
    if rows[0].0 == rows[i].0 {
        assert(value_in(rows, rows[i].0) == rows[0].1);
    } else {
        let rest = rows.skip(1);
        assert(rest[i - 1] == rows[i]);
        lemma_value_is_there(rest, i - 1);
        let j = choose|j: int|
            0 <= j < rest.len() && value_in(rest, rows[i].0) == (#[trigger] rest[j]).1;
        assert(rest[j] == rows[j + 1]);
    }
}

proof fn lemma_defaults_are_not_blank()
    ensures
        forall|i: int|
            0 <= i < default_rows().len() ==> stripped((#[trigger] default_rows()[i]).1).len() > 0,
{
    reveal_strlit("true");
    reveal_strlit("large-v3-turbo");
    reveal_strlit("auto");
    reveal_strlit("local");
    reveal_strlit("12");
    lemma_not_blank("true"@);
    lemma_not_blank("large-v3-turbo"@);
    lemma_not_blank("auto"@);
    lemma_not_blank("local"@);
    lemma_not_blank("12"@);
}

/// Seeding is done once and overwrites no choice: once the defaults were written,
/// none is left to write, and whatever was chosen before is still chosen.
pub proof fn law_seeding_keeps_choices(chosen: spec_fn(Seq<char>) -> Seq<char>)
    ensures
        ({
            let now = after_writing(chosen, unset(default_rows(), chosen));
            &&& unset(default_rows(), now) == Seq::<(Seq<char>, Seq<char>)>::empty()
            &&& forall|key: Seq<char>|
                stripped(chosen(key)).len() > 0 ==> #[trigger] now(key) == chosen(key)
        }),
{
    let defaults = default_rows();
    let seeds = unset(defaults, chosen);
    let now = after_writing(chosen, seeds);
    let missing = |d: (Seq<char>, Seq<char>)| stripped(chosen(d.0)).len() == 0;
    let still = |d: (Seq<char>, Seq<char>)| stripped(now(d.0)).len() == 0;
    lemma_defaults_are_not_blank();
    assert forall|key: Seq<char>| stripped(chosen(key)).len() > 0 implies #[trigger] now(key)
        == chosen(key) by {
        if exists|i: int| 0 <= i < seeds.len() && (#[trigger] seeds[i]).0 == key {
            let i = choose|i: int| 0 <= i < seeds.len() && (#[trigger] seeds[i]).0 == key;
            defaults.lemma_filter_pred(missing, i);
        }
    }
    let left = defaults.filter(still);
    if left.len() > 0 {
        let d = left[0];
        defaults.lemma_filter_pred(still, 0);
        assert(left.contains(d));
        defaults.lemma_filter_contains_rev(still, d);
        if missing(d) {
            let k = choose|k: int| 0 <= k < defaults.len() && defaults[k] == d;
            defaults.lemma_filter_contains(missing, k);
            let i = choose|i: int| 0 <= i < seeds.len() && seeds[i] == d;
            assert(seeds[i].0 == d.0);
            lemma_value_is_there(seeds, i);
            let j = choose|j: int|
                0 <= j < seeds.len() && value_in(seeds, seeds[i].0) == (#[trigger] seeds[j]).1;
            assert(seeds.contains(seeds[j]));
            defaults.lemma_filter_contains_rev(missing, seeds[j]);
            let m = choose|m: int| 0 <= m < defaults.len() && defaults[m] == seeds[j];
            assert(stripped(defaults[m].1).len() > 0);
            assert(now(d.0) == value_in(seeds, d.0));
            assert(false);
        } else {
            assert(now(d.0) == chosen(d.0));
            assert(false);
        }
    }
    assert(left =~= Seq::empty());
}

/// The value under a key is that of the first row with it, whatever stands behind, and
/// empty where no row has it.
pub proof fn law_the_first_row_counts(
    before: Seq<(Seq<char>, Seq<char>)>,
    key: Seq<char>,
    value: Seq<char>,
    behind: Seq<(Seq<char>, Seq<char>)>,
)
    requires
        forall|i: int| 0 <= i < before.len() ==> (#[trigger] before[i]).0 != key,
    ensures
        value_in(before + seq![(key, value)] + behind, key) == value,
        value_in(before, key) == Seq::<char>::empty(),
    decreases before.len(),
{
    let rows = before + seq![(key, value)] + behind;
    if before.len() == 0 {
        assert(rows[0] == (key, value));
    } else {
        let rest = before.skip(1);
        assert forall|i: int| 0 <= i < rest.len() implies (#[trigger] rest[i]).0 != key by {
            assert(rest[i] == before[i + 1]);
        }
        law_the_first_row_counts(rest, key, value, behind);
        assert(rows[0] == before[0]);
        assert(rows.skip(1) =~= rest + seq![(key, value)] + behind);
    }
}

/// A default is written exactly where nothing but white space was chosen for its key, and
/// nothing else is written.
pub proof fn law_defaults_fill_what_is_blank(
    chosen: spec_fn(Seq<char>) -> Seq<char>,
    d: (Seq<char>, Seq<char>),
)
    ensures
        unset(default_rows(), chosen).contains(d) <==> default_rows().contains(d) && all_of(
            chosen(d.0),
            CharClass::White,
        ),
{
    let missing = |d: (Seq<char>, Seq<char>)| stripped(chosen(d.0)).len() == 0;
    let defaults = default_rows();
    law_stripping_loses_only_white(chosen(d.0));
    if defaults.contains(d) && missing(d) {
        let k = choose|k: int| 0 <= k < defaults.len() && defaults[k] == d;
        defaults.lemma_filter_contains(missing, k);
    }
    if unset(defaults, chosen).contains(d) {
        let k = choose|k: int| 0 <= k < unset(defaults, chosen).len() && unset(
            defaults,
            chosen,
        )[k] == d;
        defaults.lemma_filter_pred(missing, k);
        defaults.lemma_filter_contains_rev(missing, d);
    }
}

/// The form is written row by row: each field stands under its own key, switches as words,
/// and there is no other row.
pub proof fn law_each_field_has_its_row(s: Settings)
    ensures
        ({
            let rows = chosen_rows(s);
            &&& rows.len() == 17
            &&& rows.contains(("interval"@, s.interval@))
            &&& rows.contains(("api_choice"@, s.api_choice@))
            &&& rows.contains(("api_key_claude"@, s.api_key_claude@))
            &&& rows.contains(("api_key_open_ai"@, s.api_key_open_ai@))
            &&& rows.contains(("api_key_gemini"@, s.api_key_gemini@))
            &&& rows.contains(("api_key_elevenlabs"@, s.api_key_elevenlabs@))
            &&& rows.contains(("local_model_url"@, s.local_model_url@))
            &&& rows.contains(("rag_top_k"@, s.rag_top_k@))
            &&& rows.contains(("model_claude"@, s.model_claude@))
            &&& rows.contains(("model_openai"@, s.model_openai@))
            &&& rows.contains(("model_gemini"@, s.model_gemini@))
            &&& rows.contains(("whisper_model"@, s.whisper_model@))
            &&& s.is_dev_mode ==> rows.contains(("is_dev_mode"@, "true"@))
            &&& !s.is_dev_mode ==> rows.contains(("is_dev_mode"@, "false"@))
            &&& s.auto_start ==> rows.contains(("auto_start"@, "true"@))
            &&& !s.auto_start ==> rows.contains(("auto_start"@, "false"@))
            &&& s.vectorization_enabled ==> rows.contains(("vectorization_enabled"@, "true"@))
            &&& !s.vectorization_enabled ==> rows.contains(("vectorization_enabled"@, "false"@))
            &&& s.meeting_detection_enabled ==> rows.contains(
                ("meeting_detection_enabled"@, "true"@),
            )
            &&& !s.meeting_detection_enabled ==> rows.contains(
                ("meeting_detection_enabled"@, "false"@),
            )
            &&& s.use_local_transcription ==> rows.contains(("use_local_transcription"@, "true"@))
            &&& !s.use_local_transcription ==> rows.contains(
                ("use_local_transcription"@, "false"@),
            )
        }),
{
    let rows = chosen_rows(s);
    assert(rows[0] == ("interval"@, s.interval@));
    assert(rows[1] == ("is_dev_mode"@, truth(s.is_dev_mode)));
    assert(rows[2] == ("auto_start"@, truth(s.auto_start)));
    assert(rows[3] == ("api_choice"@, s.api_choice@));
    assert(rows[4] == ("api_key_claude"@, s.api_key_claude@));
    assert(rows[5] == ("api_key_open_ai"@, s.api_key_open_ai@));
    assert(rows[6] == ("api_key_gemini"@, s.api_key_gemini@));
    assert(rows[7] == ("local_model_url"@, s.local_model_url@));
    assert(rows[8] == ("vectorization_enabled"@, truth(s.vectorization_enabled)));
    assert(rows[9] == ("rag_top_k"@, s.rag_top_k@));
    assert(rows[10] == ("meeting_detection_enabled"@, truth(s.meeting_detection_enabled)));
    assert(rows[11] == ("model_claude"@, s.model_claude@));
    assert(rows[12] == ("model_openai"@, s.model_openai@));
    assert(rows[13] == ("model_gemini"@, s.model_gemini@));
    assert(rows[14] == ("use_local_transcription"@, truth(s.use_local_transcription)));
    assert(rows[15] == ("whisper_model"@, s.whisper_model@));
    assert(rows[16] == ("api_key_elevenlabs"@, s.api_key_elevenlabs@));
}

/// Settings that are no secrets are written and read as they are.
pub proof fn law_plain_settings_stay_plain(
    key: Seq<char>,
    value: Seq<char>,
    sealed: Option<Seq<u8>>,
)
    requires
        !begins(key, "api_key_"@),
    ensures
        written_value(key, value, sealed) == value,
        read_value(key, value, sealed) == value,
{
    law_the_keys_of_services_are_secret(key);
}

/// A model is always named: the one that was chosen, or the large one where the choice is
/// blank.
pub proof fn law_a_model_is_always_named(value: Seq<char>, white: Seq<char>)
    requires
        all_of(white, CharClass::White),
    ensures
        stripped(value).len() > 0 ==> model_named(value) == value,
        model_named(white) == "large-v3"@,
{
    let none = Seq::<char>::empty();
    law_trim_leaves_what_stands_between(white, none, none, CharClass::White);
    assert(white + none + none =~= white);
}

/// A meeting is analysed by whoever was chosen, white space aside, once thirty words were
/// said. Nobody analyses it where the choice is blank or is off, in any ASCII case.
pub proof fn law_meetings_are_analysed_as_chosen(
    before: Seq<char>,
    name: Seq<char>,
    behind: Seq<char>,
    transcript: Seq<char>,
)
    requires
        all_of(before, CharClass::White),
        all_of(behind, CharClass::White),
        name.len() > 0 ==> !is_white(name[0]) && !is_white(name.last()),
    ensures
        analyst(before + name + behind, transcript) == if name.len() > 0 && ascii_lower(name)
            != "off"@ && words(transcript).len() >= 30 {
            Some(name)
        } else {
            None
        },
{
    law_trim_leaves_what_stands_between(before, name, behind, CharClass::White);
    reveal_strlit("off");
    assert(ascii_lower("off"@) =~= "off"@);
}

/// A switch that reads a word reads it in any ASCII case; the capture of meetings and of
/// the speakers is on where nothing was chosen, task mining is not.
pub proof fn law_switches_read_words(value: &str, capture: bool, mining: bool, speakers: bool)
    requires
        call_ensures(auto_capture_enabled, (value,), capture),
        call_ensures(task_mining_enabled, (value,), mining),
        call_ensures(captures_system_audio, (value,), speakers),
    ensures
        ascii_lower(value@) == "true"@ ==> capture && mining && speakers,
        ascii_lower(value@) == "false"@ ==> !capture && !mining && !speakers,
        value@.len() == 0 ==> capture && !mining && speakers,
{
    reveal_strlit("true");
    reveal_strlit("false");
    assert(ascii_lower("true"@) =~= "true"@);
    assert(ascii_lower("false"@) =~= "false"@);
    assert("true"@.len() == 4 && "false"@.len() == 5);
    let none = Seq::<char>::empty();
    let v = value@;
    if ascii_lower(v) == "true"@ || ascii_lower(v) == "false"@ {
        assert(ascii_lower(v)[0] == 't' || ascii_lower(v)[0] == 'f');
        assert(ascii_lower(v).last() == 'e');
        law_trim_leaves_what_stands_between(none, v, none, CharClass::White);
        assert(none + v + none =~= v);
    }
    if v.len() == 0 {
        assert(v =~= none);
        law_trim_leaves_what_stands_between(none, none, none, CharClass::White);
        assert(none + none + none =~= none);
        assert(ascii_lower(none).len() == 0);
    }
}

/// The two sides are transcribed on their own as the build does where the choice is blank,
/// and otherwise only where the choice is the word for it, in any ASCII case.
pub proof fn law_sides_are_separated_as_chosen(value: &str, by_default: bool, r: bool)
    requires
        call_ensures(separates_speakers, (value, by_default), r),
    ensures
        value@.len() == 0 ==> r == by_default,
        ascii_lower(value@) == "true"@ ==> r,
        stripped(value@).len() > 0 && ascii_lower(value@) != "true"@ ==> !r,
{
    reveal_strlit("true");
    assert(ascii_lower("true"@) =~= "true"@);
    assert("true"@.len() == 4);
    let none = Seq::<char>::empty();
    let v = value@;
    if ascii_lower(v) == "true"@ {
        assert(ascii_lower(v)[0] == 't');
        assert(ascii_lower(v).last() == 'e');
        law_trim_leaves_what_stands_between(none, v, none, CharClass::White);
        assert(none + v + none =~= v);
    }
    if v.len() == 0 {
        assert(v =~= none);
        law_trim_leaves_what_stands_between(none, none, none, CharClass::White);
        assert(none + none + none =~= none);
        assert(ascii_lower(v).len() == 0);
    }
}

/// A search looks for the term without the white space around it, and for nothing where the
/// term is blank. A hosted service gets its key as it stands, and an empty one is refused.
pub proof fn law_terms_and_keys_are_there(
    term: &str,
    sought: Option<String>,
    key: Result<String, String>,
)
    requires
        call_ensures(search_term, (term,), sought),
        call_ensures(transcription_key, (term,), key),
    ensures
        sought is None <==> stripped(term@).len() == 0,
        sought matches Some(s) ==> s@ == stripped(term@),
        key is Ok <==> term@.len() > 0,
        key matches Ok(k) ==> k@ == term@,
{
}

/// An argument is found wherever it was given.
pub proof fn law_arguments_are_found_anywhere(
    args: &Vec<String>,
    wanted: &str,
    i: int,
    r: bool,
)
    requires
        call_ensures(has_argument, (args, wanted), r),
    ensures
        0 <= i < args@.len() && args@[i]@ == wanted@ ==> r,
        args@.len() == 0 ==> !r,
{
    assert(r == is_given(args@, wanted@));
}

/// A row reads as a setting with the same key. Only a secret with the mark of a sealed value
/// is opened; any other value reads as it stands, and one whose sealed bytes cannot be read
/// reads as empty.
pub proof fn law_rows_read_under_their_key<F: Fn(&[u8]) -> Option<Vec<u8>>>(
    row: (Seq<char>, Seq<char>),
    decrypt: F,
    r: (Seq<char>, Seq<char>),
)
    requires
        reads_as(row, decrypt, r),
    ensures
        r.0 == row.0,
        !begins(row.0, "api_key_"@) ==> r == row,
        !begins(row.1, "dpapi:"@) ==> r == row,
        begins(row.1, "dpapi:"@) && secret_key(row.0) && sealed_bytes(row.1) is None ==> r.1.len()
            == 0,
{
    law_the_keys_of_services_are_secret(row.0);
}

/// A secret is never written as it stands where it could be sealed, whatever it holds, and a
/// sealed one reads as what opening it gives.
pub proof fn law_secrets_are_written_sealed(
    key: Seq<char>,
    value: Seq<char>,
    sealed: Seq<u8>,
    rest: Seq<char>,
    plain: Seq<char>,
)
    requires
        secret_key(key),
    ensures
        value.len() > 0 && !begins(value, "dpapi:"@) ==> written_value(key, value, Some(sealed))
            == "dpapi:"@ + encoded(sealed),
        written_value(key, value, None) == value,
        read_value(key, "dpapi:"@ + rest, Some(encode_utf8(plain))) == plain,
        read_value(key, "dpapi:"@ + rest, None) == Seq::<char>::empty(),
        !begins(value, "dpapi:"@) ==> read_value(key, value, Some(sealed)) == value,
{
    law_values_are_stored_sealed(value, sealed, rest);
    law_stored_values_are_read(value, rest, Some(sealed), plain);
}

} // verus!

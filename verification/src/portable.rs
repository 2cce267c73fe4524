//! Portable mode: where the user's data lives.
//!
//! In portable mode every piece of user data lives in a `data` folder next to
//! the executable. The mode is on when the program was built portable, when a
//! marker file sits next to the executable, or when the environment asks for
//! it; the environment can also force it off. Where the folder cannot be made
//! or written, the program falls back to the regular places of the system.

use vstd::prelude::*;

use crate::text::{
    all_of, ascii_lower, is_white, law_trim_leaves_what_stands_between, same, stripped, text_in,
    texts, to_ascii_lower, trim_white, CharClass,
};

verus! {

// ---------------------------------------------------------------------------
// Places
// ---------------------------------------------------------------------------

/// A directory that only the running system can name.
#[derive(Clone, Copy, PartialEq, Eq, Structural, Debug)]
pub enum Base {
    /// The directory of the executable.
    ExeDir,
    /// The application's own data directory.
    AppData,
    /// The user's data directory.
    UserData,
    /// The current directory.
    Current,
    /// The directory for temporary files.
    Temp,
}

/// A directory: a base and the names to go down from it.
#[derive(Debug)]
pub struct Location {
    pub base: Base,
    pub below: Vec<String>,
}

impl View for Location {
    type V = (Base, Seq<Seq<char>>);

    open spec fn view(&self) -> (Base, Seq<Seq<char>>) {
        (self.base, texts(self.below@))
    }
}

/// What an optional location is.
pub open spec fn place_of(l: Option<Location>) -> Option<(Base, Seq<Seq<char>>)> {
    match l {
        Some(l) => Some(l@),
        None => None,
    }
}

impl Location {
    /// The base itself.
    pub fn at(base: Base) -> (r: Location)
        ensures
            r@ == (base, Seq::<Seq<char>>::empty()),
    {
        let r = Location { base, below: Vec::new() };
        assert(texts(r.below@) =~= Seq::empty());
        r
    }

    /// The directory `name` in this one.
    pub fn join(self, name: &str) -> (r: Location)
        ensures
            r@ == (self@.0, self@.1.push(name@)),
    {
        let mut below = self.below;
        let ghost before = below@;
        below.push(name.to_owned());
        assert(texts(below@) =~= texts(before).push(name@));
        Location { base: self.base, below }
    }
}

// ---------------------------------------------------------------------------
// Deciding
// ---------------------------------------------------------------------------

/// What the text of an environment variable asks for.
pub open spec fn override_of(raw: Option<Seq<char>>) -> Option<bool> {
    match raw {
        Some(raw) => {
            let word = ascii_lower(stripped(raw));
            if word == "1"@ || word == "true"@ || word == "yes"@ || word == "on"@ {
                Some(true)
            } else if word == "0"@ || word == "false"@ || word == "no"@ || word == "off"@ {
                Some(false)
            } else {
                None
            }
        },
        None => None,
    }
}

/// Reads what the environment asks for: on, off, or nothing.
pub fn env_override(raw: &Option<String>) -> (r: Option<bool>)
    ensures
        r == override_of(text_in(*raw)),
{
    proof {
        reveal_strlit("1");
        reveal_strlit("true");
        reveal_strlit("yes");
        reveal_strlit("on");
        reveal_strlit("0");
        reveal_strlit("false");
        reveal_strlit("no");
        reveal_strlit("off");
    }
    match raw {
        Some(raw) => {
            let trimmed = trim_white(raw.as_str());
            let word = to_ascii_lower(trimmed.as_str());
            let w = word.as_str();
            if same(w, "1") || same(w, "true") || same(w, "yes") || same(w, "on") {
                Some(true)
            } else if same(w, "0") || same(w, "false") || same(w, "no") || same(w, "off") {
                Some(false)
            } else {
                None
            }
        },
        None => None,
    }
}

/// How far the decision has come: what has to be found out next, or what was
/// decided.
#[derive(Clone, Copy, PartialEq, Eq, Structural, Debug)]
pub enum Detection {
    /// Find the directory of the executable.
    FindExeDir,
    /// Read the environment variable.
    ReadEnvironment,
    /// Look for the marker file next to the executable.
    LookForMarker,
    /// Make the data directory.
    MakeDataDir,
    /// Try to write in the data directory.
    TryWriting,
    /// Decided: portable.
    Portable,
    /// Decided: the regular places.
    Regular,
}

/// What was found out.
#[derive(Debug)]
pub enum Finding {
    /// Whether the directory of the executable is known.
    ExeDir(bool),
    /// The value of the environment variable, where it is set.
    Environment(Option<String>),
    /// Whether the marker file is there.
    Marker(bool),
    /// Whether the data directory is there now.
    DataDir(bool),
    /// Whether it can be written.
    Writable(bool),
}

/// What follows from a finding. A finding that was not asked for changes
/// nothing.
pub open spec fn detect_step(
    state: Detection,
    finding: Finding,
    built_portable: bool,
) -> Detection {
    match (state, finding) {
        (Detection::FindExeDir, Finding::ExeDir(known)) => if known {
            Detection::ReadEnvironment
        } else {
            Detection::Regular
        },
        (Detection::ReadEnvironment, Finding::Environment(raw)) => match override_of(text_in(raw)) {
            Some(true) => Detection::MakeDataDir,
            Some(false) => Detection::Regular,
            None => if built_portable {
                Detection::MakeDataDir
            } else {
                Detection::LookForMarker
            },
        },
        (Detection::LookForMarker, Finding::Marker(there)) => if there {
            Detection::MakeDataDir
        } else {
            Detection::Regular
        },
        (Detection::MakeDataDir, Finding::DataDir(there)) => if there {
            Detection::TryWriting
        } else {
            Detection::Regular
        },
        (Detection::TryWriting, Finding::Writable(yes)) => if yes {
            Detection::Portable
        } else {
            Detection::Regular
        },
        _ => state,
    }
}

/// Takes the decision one step further.
pub fn detect(state: Detection, finding: &Finding, built_portable: bool) -> (r: Detection)
    ensures
        r == detect_step(state, *finding, built_portable),
{
    match (state, finding) {
        (Detection::FindExeDir, Finding::ExeDir(known)) => if *known {
            Detection::ReadEnvironment
        } else {
            Detection::Regular
        },
        (Detection::ReadEnvironment, Finding::Environment(raw)) => match env_override(raw) {
            Some(asked) => if asked {
                Detection::MakeDataDir
            } else {
                Detection::Regular
            },
            None => if built_portable {
                Detection::MakeDataDir
            } else {
                Detection::LookForMarker
            },
        },
        (Detection::LookForMarker, Finding::Marker(there)) => if *there {
            Detection::MakeDataDir
        } else {
            Detection::Regular
        },
        (Detection::MakeDataDir, Finding::DataDir(there)) => if *there {
            Detection::TryWriting
        } else {
            Detection::Regular
        },
        (Detection::TryWriting, Finding::Writable(yes)) => if *yes {
            Detection::Portable
        } else {
            Detection::Regular
        },
        _ => state,
    }
}

/// Whether portable mode was decided.
pub fn is_portable(state: Detection) -> (r: bool)
    ensures
        r == (state == Detection::Portable),
{
    match state {
        Detection::Portable => true,
        _ => false,
    }
}

// ---------------------------------------------------------------------------
// Where things go
// ---------------------------------------------------------------------------

/// The folder next to the executable that holds the data of a portable program.
pub open spec fn data_folder() -> (Base, Seq<Seq<char>>) {
    (Base::ExeDir, seq!["data"@])
}

/// The directory `name` in `place`.
pub open spec fn child(place: (Base, Seq<Seq<char>>), name: Seq<char>) -> (Base, Seq<Seq<char>>) {
    (place.0, place.1.push(name))
}

/// Where the database and generated files go.
pub open spec fn app_data_place(state: Detection) -> (Base, Seq<Seq<char>>) {
    if state == Detection::Portable {
        data_folder()
    } else {
        (Base::AppData, Seq::empty())
    }
}

/// Where speech models go. Without a user data directory they go below the
/// current one.
pub open spec fn models_place(state: Detection, user_data_known: bool) -> (Base, Seq<Seq<char>>) {
    if state == Detection::Portable {
        child(data_folder(), "models"@)
    } else {
        (
            if user_data_known {
                Base::UserData
            } else {
                Base::Current
            },
            seq!["platypus_notes"@, "models"@],
        )
    }
}

/// Where recordings in progress go.
pub open spec fn recordings_place(state: Detection) -> (Base, Seq<Seq<char>>) {
    if state == Detection::Portable {
        child(data_folder(), "recordings"@)
    } else {
        (Base::Temp, seq!["platypus_recordings"@])
    }
}

/// Where the web view keeps its storage, where that has to be said.
pub open spec fn webview_place(state: Detection, already_set: bool) -> Option<
    (Base, Seq<Seq<char>>),
> {
    if state == Detection::Portable && !already_set {
        Some(child(data_folder(), "webview"@))
    } else {
        None
    }
}

/// The data folder next to the executable in portable mode, nothing otherwise.
pub fn portable_root(state: Detection) -> (r: Option<Location>)
    ensures
        place_of(r) == if state == Detection::Portable {
            Some(data_folder())
        } else {
            None
        },
{
    if is_portable(state) {
        let r = Location::at(Base::ExeDir).join("data");
        assert(r@.1 =~= seq!["data"@]);
        Some(r)
    } else {
        None
    }
}

/// The directory that holds the database and generated files.
pub fn app_data_dir(state: Detection) -> (r: Location)
    ensures
        r@ == app_data_place(state),
{
    match portable_root(state) {
        Some(root) => root,
        None => Location::at(Base::AppData),
    }
}

/// The directory that holds speech models.
pub fn models_dir(state: Detection, user_data_known: bool) -> (r: Location)
    ensures
        r@ == models_place(state, user_data_known),
{
    match portable_root(state) {
        Some(root) => root.join("models"),
        None => {
            let base = if user_data_known {
                Base::UserData
            } else {
                Base::Current
            };
            let r = Location::at(base).join("platypus_notes").join("models");
            assert(r@.1 =~= seq!["platypus_notes"@, "models"@]);
            r
        },
    }
}

/// The directory that holds recordings in progress.
pub fn recordings_dir(state: Detection) -> (r: Location)
    ensures
        r@ == recordings_place(state),
{
    match portable_root(state) {
        Some(root) => root.join("recordings"),
        None => {
            let r = Location::at(Base::Temp).join("platypus_recordings");
            assert(r@.1 =~= seq!["platypus_recordings"@]);
            r
        },
    }
}

/// The directory to make and to name in the environment before the first window
/// opens, so that the web view keeps its storage there. Nothing where the
/// environment names one already, or outside portable mode.
pub fn prepare_environment(state: Detection, already_set: bool) -> (r: Option<Location>)
    ensures
        place_of(r) == webview_place(state, already_set),
{
    match portable_root(state) {
        Some(root) => if already_set {
            None
        } else {
            Some(root.join("webview"))
        },
        None => None,
    }
}

// ---------------------------------------------------------------------------
// Laws
// ---------------------------------------------------------------------------

/// Everything that the decision can ask about.
pub struct Surroundings {
    pub exe_dir_known: bool,
    pub environment: Option<String>,
    pub marker: bool,
    pub data_dir_made: bool,
    pub writable: bool,
}

/// What is found out when a state asks.
pub open spec fn answer(w: Surroundings, state: Detection) -> Finding {
    match state {
        Detection::FindExeDir => Finding::ExeDir(w.exe_dir_known),
        Detection::ReadEnvironment => Finding::Environment(w.environment),
        Detection::LookForMarker => Finding::Marker(w.marker),
        Detection::MakeDataDir => Finding::DataDir(w.data_dir_made),
        _ => Finding::Writable(w.writable),
    }
}

/// The state after `steps` questions were asked and answered.
pub open spec fn settled(
    w: Surroundings,
    built_portable: bool,
    state: Detection,
    steps: nat,
) -> Detection
    decreases steps,
{
    if steps == 0 {
        state
    } else {
        settled(
            w,
            built_portable,
            detect_step(state, answer(w, state), built_portable),
            (steps - 1) as nat,
        )
    }
}

/// The decision is reached after at most five questions. It is for portable
/// mode exactly when the environment says so or leaves it open in a portable
/// build or next to a marker file, the executable's directory is known, and the
/// data directory can be made and written; otherwise it is for the regular
/// places.
pub proof fn law_portable_decision(w: Surroundings, built_portable: bool)
    ensures
        ({
            let wanted = match override_of(text_in(w.environment)) {
                Some(asked) => asked,
                None => built_portable || w.marker,
            };
            settled(w, built_portable, Detection::FindExeDir, 5) == if w.exe_dir_known && wanted
                && w.data_dir_made && w.writable {
                Detection::Portable
            } else {
                Detection::Regular
            }
        }),
{
    reveal_with_fuel(settled, 6);
}

/// In portable mode every directory is the data folder next to the executable
/// or lies in it.
pub proof fn law_portable_data_stays_together(user_data_known: bool, already_set: bool)
    ensures
        ({
            let root = data_folder();
            let p = Detection::Portable;
            &&& app_data_place(p) == root
            &&& exists|name: Seq<char>|
                models_place(p, user_data_known) == #[trigger] child(root, name)
            &&& exists|name: Seq<char>| recordings_place(p) == #[trigger] child(root, name)
            &&& webview_place(p, already_set) is Some ==> exists|name: Seq<char>|
                webview_place(p, already_set)->0 == #[trigger] child(root, name)
        }),
{
    let p = Detection::Portable;
    assert(models_place(p, user_data_known) == child(data_folder(), "models"@));
    assert(recordings_place(p) == child(data_folder(), "recordings"@));
    assert(webview_place(p, already_set) is Some ==> webview_place(p, already_set)->0 == child(
        data_folder(),
        "webview"@,
    ));
}

/// The environment is read by its word, whatever the case and the white space around it:
/// four words ask for portable mode, four against it, and no other asks for anything.
pub proof fn law_the_environment_is_read_by_its_word(
    before: Seq<char>,
    word: Seq<char>,
    behind: Seq<char>,
)
    requires
        all_of(before, CharClass::White),
        all_of(behind, CharClass::White),
        word.len() > 0 ==> !is_white(word[0]) && !is_white(word.last()),
    ensures
        ({
            let asked = override_of(Some(before + word + behind));
            let low = ascii_lower(word);
            &&& asked == Some(true) <==> low == "1"@ || low == "true"@ || low == "yes"@ || low
                == "on"@
            &&& asked == Some(false) <==> low == "0"@ || low == "false"@ || low == "no"@ || low
                == "off"@
            &&& override_of(None) is None
        }),
{
    law_trim_leaves_what_stands_between(before, word, behind, CharClass::White);
    assert(stripped(before + word + behind) == word);
    reveal_strlit("1");
    reveal_strlit("true");
    reveal_strlit("yes");
    reveal_strlit("on");
    reveal_strlit("0");
    reveal_strlit("false");
    reveal_strlit("no");
    reveal_strlit("off");
    let low = ascii_lower(word);
    assert("1"@.len() == 1 && "on"@.len() == 2 && "yes"@.len() == 3 && "true"@.len() == 4);
    assert("0"@.len() == 1 && "no"@.len() == 2 && "off"@.len() == 3 && "false"@.len() == 5);
    assert("1"@[0] == '1' && "on"@[0] == 'o' && "yes"@[0] == 'y');
    assert("0"@[0] == '0' && "no"@[0] == 'n' && "off"@[0] == 'o');
    if low == "0"@ || low == "false"@ || low == "no"@ || low == "off"@ {
        assert(low != "1"@ && low != "true"@ && low != "yes"@ && low != "on"@);
    }
}

/// A decision stands: no finding changes it, and a state that asks one thing is not moved
/// by the answer to another.
pub proof fn law_decisions_stand(finding: Finding, built_portable: bool)
    ensures
        detect_step(Detection::Portable, finding, built_portable) == Detection::Portable,
        detect_step(Detection::Regular, finding, built_portable) == Detection::Regular,
        !(finding is ExeDir) ==> detect_step(Detection::FindExeDir, finding, built_portable)
            == Detection::FindExeDir,
        !(finding is Environment) ==> detect_step(
            Detection::ReadEnvironment,
            finding,
            built_portable,
        ) == Detection::ReadEnvironment,
        !(finding is Marker) ==> detect_step(Detection::LookForMarker, finding, built_portable)
            == Detection::LookForMarker,
        !(finding is DataDir) ==> detect_step(Detection::MakeDataDir, finding, built_portable)
            == Detection::MakeDataDir,
        !(finding is Writable) ==> detect_step(Detection::TryWriting, finding, built_portable)
            == Detection::TryWriting,
{
}

/// Where things go: next to the executable in portable mode, each in a folder of its own,
/// and otherwise in the places of the system.
pub proof fn law_places_have_their_names(state: Detection, known: bool, already_set: bool)
    ensures
        data_folder() == (Base::ExeDir, seq!["data"@]),
        state == Detection::Portable ==> {
            &&& app_data_place(state) == (Base::ExeDir, seq!["data"@])
            &&& models_place(state, known) == (Base::ExeDir, seq!["data"@, "models"@])
            &&& recordings_place(state) == (Base::ExeDir, seq!["data"@, "recordings"@])
            &&& already_set ==> webview_place(state, already_set) is None
            &&& !already_set ==> webview_place(state, already_set) == Some(
                (Base::ExeDir, seq!["data"@, "webview"@]),
            )
        },
        state != Detection::Portable ==> {
            &&& app_data_place(state) == (Base::AppData, Seq::<Seq<char>>::empty())
            &&& known ==> models_place(state, known) == (
                Base::UserData,
                seq!["platypus_notes"@, "models"@],
            )
            &&& !known ==> models_place(state, known) == (
                Base::Current,
                seq!["platypus_notes"@, "models"@],
            )
            &&& recordings_place(state) == (Base::Temp, seq!["platypus_recordings"@])
            &&& webview_place(state, already_set) is None
        },
{
    assert(seq!["data"@].push("models"@) =~= seq!["data"@, "models"@]);
    assert(seq!["data"@].push("recordings"@) =~= seq!["data"@, "recordings"@]);
    assert(seq!["data"@].push("webview"@) =~= seq!["data"@, "webview"@]);
}

} // verus!

use platypus::portable::{
    app_data_dir, detect, env_override, is_portable, models_dir, portable_root,
    prepare_environment, recordings_dir, Base, Detection, Finding, Location,
};
use platypus::transcript_export::transcripts_dir;

struct World {
    exe_dir: bool,
    environment: Option<&'static str>,
    marker: bool,
    made: bool,
    writable: bool,
}

fn settle(w: &World, built_portable: bool) -> Detection {
    let mut state = Detection::FindExeDir;
    for _ in 0..6 {
        let finding = match state {
            Detection::FindExeDir => Finding::ExeDir(w.exe_dir),
            Detection::ReadEnvironment => Finding::Environment(w.environment.map(str::to_string)),
            Detection::LookForMarker => Finding::Marker(w.marker),
            Detection::MakeDataDir => Finding::DataDir(w.made),
            Detection::TryWriting => Finding::Writable(w.writable),
            Detection::Portable | Detection::Regular => break,
        };
        state = detect(state, &finding, built_portable);
    }
    state
}

fn place(l: &Location) -> (Base, Vec<&str>) {
    (l.base, l.below.iter().map(String::as_str).collect())
}

#[test]
fn the_environment_switches_portable_mode() {
    for on in ["1", "true", "yes", "on", " TRUE\n", "Yes"] {
        assert_eq!(env_override(&Some(on.to_string())), Some(true));
    }
    for off in ["0", "false", "no", "off", " OFF "] {
        assert_eq!(env_override(&Some(off.to_string())), Some(false));
    }
    assert_eq!(env_override(&Some("maybe".to_string())), None);
    assert_eq!(env_override(&Some(String::new())), None);
    assert_eq!(env_override(&None), None);
}

#[test]
fn portable_mode_is_decided_by_build_marker_or_environment() {
    let mut w = World { exe_dir: true, environment: None, marker: false, made: true, writable: true };
    assert_eq!(settle(&w, false), Detection::Regular);
    assert_eq!(settle(&w, true), Detection::Portable);
    w.marker = true;
    assert_eq!(settle(&w, false), Detection::Portable);
    w.environment = Some("0");
    assert_eq!(settle(&w, true), Detection::Regular);
    w.marker = false;
    w.environment = Some("on");
    assert_eq!(settle(&w, false), Detection::Portable);
}

#[test]
fn a_folder_that_cannot_be_written_falls_back() {
    let mut w = World { exe_dir: true, environment: Some("1"), marker: true, made: true, writable: false };
    assert_eq!(settle(&w, true), Detection::Regular);
    w.made = false;
    assert_eq!(settle(&w, true), Detection::Regular);
    w.exe_dir = false;
    assert_eq!(settle(&w, true), Detection::Regular);
}

#[test]
fn a_finding_that_was_not_asked_for_changes_nothing() {
    assert_eq!(
        detect(Detection::FindExeDir, &Finding::Writable(true), true),
        Detection::FindExeDir
    );
    assert_eq!(detect(Detection::Portable, &Finding::ExeDir(false), false), Detection::Portable);
}

#[test]
fn portable_data_stays_next_to_the_executable() {
    let p = Detection::Portable;
    assert!(is_portable(p));
    assert_eq!(place(&portable_root(p).unwrap()), (Base::ExeDir, vec!["data"]));
    assert_eq!(place(&app_data_dir(p)), (Base::ExeDir, vec!["data"]));
    assert_eq!(place(&models_dir(p, true)), (Base::ExeDir, vec!["data", "models"]));
    assert_eq!(place(&recordings_dir(p)), (Base::ExeDir, vec!["data", "recordings"]));
    assert_eq!(place(&transcripts_dir(p)), (Base::ExeDir, vec!["data", "transcripts"]));
    assert_eq!(
        place(&prepare_environment(p, false).unwrap()),
        (Base::ExeDir, vec!["data", "webview"])
    );
    assert!(prepare_environment(p, true).is_none());
}

#[test]
fn regular_data_goes_where_the_system_keeps_it() {
    let r = Detection::Regular;
    assert!(!is_portable(r));
    assert!(portable_root(r).is_none());
    assert_eq!(place(&app_data_dir(r)), (Base::AppData, vec![]));
    assert_eq!(place(&models_dir(r, true)), (Base::UserData, vec!["platypus_notes", "models"]));
    assert_eq!(place(&models_dir(r, false)), (Base::Current, vec!["platypus_notes", "models"]));
    assert_eq!(place(&recordings_dir(r)), (Base::Temp, vec!["platypus_recordings"]));
    assert_eq!(place(&transcripts_dir(r)), (Base::AppData, vec!["transcripts"]));
    assert!(prepare_environment(r, false).is_none());
}

use platypus::meeting_detector::{
    app_holding_mic, default_input_address, input_device, is_external_mic_active,
    is_teams_in_meeting, is_teams_running, is_zoom_in_meeting, meeting_window_title, observe,
    on_meeting_begun, running_somewhere_address, seconds_until_next, teams_meeting_window_title,
    ConsentEntry, DesktopWindow, MeetingAction, MeetingDetector, MicUse, OwnedWindow, ProcessInfo,
    PropertyReply, Track, NOTIFICATION_COOLDOWN, POLL_SECONDS,
};

fn mic(name: &str, stop: Option<u64>) -> MicUse {
    MicUse { name: name.to_string(), last_used_stop: stop }
}

fn app(name: &str, stop: Option<u64>) -> ConsentEntry {
    ConsentEntry { entry: mic(name, stop), members: vec![] }
}

fn process(pid: u32, name: &str, cmd: &[&str]) -> ProcessInfo {
    ProcessInfo {
        pid,
        name: name.to_string(),
        cmd: cmd.iter().map(|s| s.to_string()).collect(),
    }
}

fn window(pid: u32, visible: bool, title: &str) -> DesktopWindow {
    DesktopWindow { visible, pid, title: title.to_string() }
}

fn owned(owner: &str, title: &str) -> OwnedWindow {
    OwnedWindow { owner: owner.to_string(), title: title.to_string() }
}

#[test]
fn the_microphone_is_held_while_its_last_use_has_no_end() {
    assert!(app_holding_mic(&vec![app("MSTeams_8wekyb3d8bbwe", Some(0))], "teams"));
    assert!(!app_holding_mic(&vec![app("MSTeams_8wekyb3d8bbwe", Some(133))], "teams"));
    assert!(!app_holding_mic(&vec![app("MSTeams_8wekyb3d8bbwe", None)], "teams"));
    assert!(!app_holding_mic(&vec![app("Other", Some(0))], "teams"));
    assert!(!app_holding_mic(&vec![], "teams"));
}

#[test]
fn desktop_applications_are_listed_in_a_group() {
    let group = ConsentEntry {
        entry: mic("nonpackaged", Some(0)),
        members: vec![mic("C:#Program Files#Zoom#Zoom.exe", Some(0)), mic("C:#x.exe", Some(5))],
    };
    let store = vec![app("Calculator", Some(0)), group];
    assert!(app_holding_mic(&store, "ZOOM"));
    assert!(!app_holding_mic(&store, "nonpackaged"));
    assert!(!app_holding_mic(&store, "x.exe"));
}

#[test]
fn the_input_device_is_asked_by_its_address() {
    assert_eq!(default_input_address().m_selector, u32::from_be_bytes(*b"dIn "));
    assert_eq!(running_somewhere_address().m_selector, u32::from_be_bytes(*b"gone"));
    assert_eq!(default_input_address().m_scope, u32::from_be_bytes(*b"glob"));
    assert_eq!(running_somewhere_address().m_element, 0);
}

#[test]
fn someone_else_uses_the_microphone() {
    let device = PropertyReply { status: 0, value: 42 };
    let busy = PropertyReply { status: 0, value: 1 };
    assert_eq!(input_device(device), Some(42));
    assert_eq!(input_device(PropertyReply { status: 1, value: 42 }), None);
    assert_eq!(input_device(PropertyReply { status: 0, value: 0 }), None);
    assert!(is_external_mic_active(false, device, busy));
    assert!(!is_external_mic_active(true, device, busy));
    assert!(!is_external_mic_active(false, device, PropertyReply { status: 0, value: 0 }));
    assert!(!is_external_mic_active(false, device, PropertyReply { status: -1, value: 1 }));
    assert!(!is_external_mic_active(false, PropertyReply { status: 0, value: 0 }, busy));
}

#[test]
fn zoom_is_in_a_meeting_while_its_host_runs() {
    assert!(is_zoom_in_meeting(&vec![process(1, "bash", &[]), process(2, "CptHost", &[])]));
    assert!(!is_zoom_in_meeting(&vec![process(2, "caphost", &[])]));
}

#[test]
fn teams_runs_under_several_names() {
    assert!(is_teams_running(&vec![process(1, "MSTeams", &[])]));
    assert!(is_teams_running(&vec![process(1, "x", &["/Applications/Microsoft", "Teams.app"])]));
    assert!(is_teams_running(&vec![process(1, "Teams", &["Teams"])]));
    assert!(is_teams_in_meeting(true, &vec![process(1, "Teams", &[])]));
    assert!(!is_teams_running(&vec![process(1, "TeamsUpdater", &["teams"])]));
    let running = vec![process(1, "MSTeams", &[])];
    assert!(is_teams_in_meeting(true, &running));
    assert!(!is_teams_in_meeting(false, &running));
    assert!(!is_teams_in_meeting(true, &vec![]));
}

#[test]
fn a_teams_window_may_show_a_meeting() {
    assert_eq!(
        teams_meeting_window_title(&vec![
            owned("Finder", "Meeting"),
            owned("MSTeams", "Files"),
            owned("Teams helper", "Call with Anna"),
        ]),
        Some("Call with Anna".to_string())
    );
    assert_eq!(
        teams_meeting_window_title(&vec![owned("Microsoft Teams", "Chat | Microsoft Teams")]),
        Some("Chat | Microsoft Teams".to_string())
    );
    assert_eq!(teams_meeting_window_title(&vec![owned("My Teams", "Meeting")]), None);
}

#[test]
fn the_meeting_is_named_by_the_first_telling_window() {
    let processes = vec![process(7, "Teams", &[]), process(8, "bash", &[])];
    let windows = vec![
        window(8, true, "Secret sync"),
        window(7, false, "Hidden"),
        window(7, true, ""),
        window(7, true, "Microsoft Teams"),
        window(7, true, "Weekly sync | Microsoft Teams"),
        window(7, true, "Later"),
    ];
    assert_eq!(meeting_window_title(&processes, &windows), Some("Weekly sync".to_string()));
    assert_eq!(meeting_window_title(&vec![], &windows), None);
}

#[test]
fn a_short_gap_does_not_end_a_meeting() {
    let mut t = Track::new();
    assert!(observe(&mut t, true, 0).begun);
    for now in [12, 27] {
        let c = observe(&mut t, false, now);
        assert!(!c.begun && !c.ended);
    }
    let back = observe(&mut t, true, 2);
    assert!(!back.begun && !back.ended);
    for _ in 0..2 {
        assert!(!observe(&mut t, false, 3).ended);
    }
    assert!(observe(&mut t, false, 3).ended);
    assert!(!observe(&mut t, false, 4).ended);
}

#[test]
fn nobody_is_notified_twice_within_the_cooldown() {
    let mut t = Track::new();
    assert!(observe(&mut t, true, 10).begun);
    for _ in 0..3 {
        observe(&mut t, false, 20);
    }
    let soon = observe(&mut t, true, NOTIFICATION_COOLDOWN + 9);
    assert!(!soon.begun);
    for _ in 0..2 {
        assert!(!observe(&mut t, false, NOTIFICATION_COOLDOWN + 9).ended);
    }
    assert!(observe(&mut t, false, NOTIFICATION_COOLDOWN + 9).ended);
    assert!(observe(&mut t, true, NOTIFICATION_COOLDOWN + 10).begun);
}

#[test]
fn both_applications_are_followed() {
    let mut d = MeetingDetector::new();
    let none: Vec<String> = vec![];
    assert_eq!(d.poll(false, false, 0), (none.clone(), none.clone()));
    assert_eq!(
        d.poll(true, true, 1),
        (vec!["Zoom".to_string(), "Microsoft Teams".to_string()], none.clone())
    );
    assert_eq!(d.poll(true, false, 2), (none.clone(), none.clone()));
    assert_eq!(d.poll(true, false, 3), (none.clone(), none.clone()));
    assert_eq!(d.poll(true, false, 4), (none.clone(), vec!["Microsoft Teams".to_string()]));
}

#[test]
fn detection_polls_every_twelve_seconds() {
    assert_eq!(POLL_SECONDS, 12);
    assert_eq!(seconds_until_next(true), 12);
    assert_eq!(seconds_until_next(false), 2);
}

#[test]
fn a_meeting_is_recorded_or_announced() {
    assert!(matches!(on_meeting_begun("Zoom", false, &None), MeetingAction::Notify));
    match on_meeting_begun("Microsoft Teams", true, &Some("Jan Kowalski".to_string())) {
        MeetingAction::Record { label, other_party } => {
            assert_eq!(label, "Jan Kowalski (Microsoft Teams)");
            assert_eq!(other_party, Some("Jan Kowalski".to_string()));
        }
        MeetingAction::Notify => panic!("not recorded"),
    }
    match on_meeting_begun("Microsoft Teams", true, &Some("Weekly sync".to_string())) {
        MeetingAction::Record { label, other_party } => {
            assert_eq!(label, "Weekly sync (Microsoft Teams)");
            assert_eq!(other_party, None);
        }
        MeetingAction::Notify => panic!("not recorded"),
    }
    match on_meeting_begun("Zoom", true, &None) {
        MeetingAction::Record { label, other_party } => {
            assert_eq!(label, "Zoom");
            assert_eq!(other_party, None);
        }
        MeetingAction::Notify => panic!("not recorded"),
    }
}

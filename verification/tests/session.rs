use platypus::clock::Stamp;
use platypus::session::{
    label_for, note_utterance, offset_segments, timestamp_label, Segment, Session, SpeakerHint,
    Tail, Utterance,
};

fn at(secs: i64) -> Stamp {
    Stamp::new(secs, 0, 0).unwrap()
}

fn segment(start_ms: u64, end_ms: u64, text: &str) -> Segment {
    Segment { start_ms, end_ms, text: text.to_string() }
}

fn rows(us: &[Utterance]) -> Vec<(u64, u64, &str, &str)> {
    us.iter()
        .map(|u| (u.start_ms, u.end_ms, u.speaker.as_str(), u.text.as_str()))
        .collect()
}

fn captured(other_party: Option<&str>) -> Session {
    let mut s = Session::new();
    assert!(s.auto_record_start(
        false,
        true,
        "Weekly (Teams)".to_string(),
        other_party.map(str::to_string),
        at(100),
    ));
    s
}

#[test]
fn a_position_is_minutes_and_seconds() {
    assert_eq!(timestamp_label(0), "[00:00]");
    assert_eq!(timestamp_label(61_999), "[01:01]");
    assert_eq!(timestamp_label(6_000_000), "[100:00]");
}

#[test]
fn a_heading_marks_each_change_of_speaker() {
    let mut s = Session::new();
    s.append_labelled("Me", 1000, "hello");
    s.append_labelled("Me", 2000, "there");
    s.append_labelled("Others", 63_000, "hi");
    s.append_labelled("Me", 65_000, "again");
    assert_eq!(
        s.get_transcript(),
        "[00:01] **Me:** hello there\n\n[01:03] **Others:** hi\n\n[01:05] **Me:** again"
    );
}

#[test]
fn text_without_a_speaker_is_appended() {
    let mut s = Session::new();
    s.append_plain("one");
    s.append_plain("two");
    assert_eq!(s.get_transcript(), "one two");
}

#[test]
fn sides_are_called_by_their_names() {
    let s = captured(Some("Anna Nowak"));
    assert_eq!(s.others_label(), "Anna Nowak");
    assert_eq!(s.speaker_label_for_chunk(SpeakerHint::Me), Some("Me".to_string()));
    assert_eq!(s.speaker_label_for_chunk(SpeakerHint::Others), Some("Anna Nowak".to_string()));
    assert_eq!(
        s.speaker_label_for_chunk(SpeakerHint::Both),
        Some("Me + anna nowak".to_string())
    );
    assert_eq!(s.speaker_label_for_chunk(SpeakerHint::Unknown), None);
    assert_eq!(
        Session::new().speaker_label_for_chunk(SpeakerHint::Both),
        Some("Me + others".to_string())
    );
    assert_eq!(label_for(SpeakerHint::Both, "A", "b"), Some("Me + b".to_string()));
    assert_eq!(label_for(SpeakerHint::Others, "Ż", "ż"), Some("Ż".to_string()));
    assert_eq!(
        captured(Some("ŻAK")).speaker_label_for_chunk(SpeakerHint::Both),
        Some("Me + żak".to_string())
    );
}

#[test]
fn cut_sentences_are_stitched_together() {
    let mut us = vec![];
    note_utterance(&mut us, 0, 1000, "Me", " we should ");
    note_utterance(&mut us, 1399, 2000, "Me", "meet tomorrow.");
    note_utterance(&mut us, 2000, 2500, "Me", "Fine");
    note_utterance(&mut us, 2900, 3000, "Me", "late");
    note_utterance(&mut us, 3000, 3500, "Others", "yes");
    note_utterance(&mut us, 3500, 3600, "Others", "   ");
    note_utterance(&mut us, 0, 100, "Others", "earlier");
    assert_eq!(
        rows(&us),
        vec![
            (0, 2000, "Me", "we should meet tomorrow."),
            (2000, 2500, "Me", "Fine"),
            (2900, 3000, "Me", "late"),
            (3000, 3500, "Others", "yes earlier"),
        ]
    );
}

#[test]
fn sentence_punctuation_ends_an_utterance() {
    for end in [".", "!", "?", "…", ":"] {
        let mut us = vec![];
        note_utterance(&mut us, 0, 10, "Me", &format!("so{}", end));
        note_utterance(&mut us, 10, 20, "Me", "next");
        assert_eq!(us.len(), 2);
    }
}

#[test]
fn utterances_are_noted_only_for_captured_meetings() {
    let mut s = Session::new();
    s.record_utterance(0, 10, "Me", "hello");
    assert!(s.utterances.is_empty());
    let mut s = captured(None);
    s.record_utterance(0, 10, "Me", " hello ");
    assert_eq!(rows(&s.utterances), vec![(0, 10, "Me", "hello")]);
}

#[test]
fn each_side_is_added_under_its_label() {
    let mut s = captured(None);
    assert!(s.add_separate(
        &vec![segment(0, 900, "hello"), segment(900, 1500, "there.")],
        &vec![segment(300, 800, "hi")],
    ));
    assert_eq!(
        s.get_transcript(),
        "[00:00] **Me:** hello there.\n\n[00:00] **Others:** hi"
    );
    assert_eq!(
        rows(&s.utterances),
        vec![(0, 1500, "Me", "hello there."), (300, 800, "Others", "hi")]
    );
    assert!(!s.add_separate(&vec![], &vec![]));
}

#[test]
fn mixed_sides_are_added_under_the_louder_one() {
    let mut s = captured(Some("Anna Nowak"));
    assert!(s.add_mixed(&vec![segment(5000, 6000, "both?")], SpeakerHint::Both));
    assert!(s.add_mixed(&vec![segment(8000, 9000, "nobody")], SpeakerHint::Unknown));
    assert!(!s.add_mixed(&vec![], SpeakerHint::Me));
    assert_eq!(s.get_transcript(), "[00:05] **Me + anna nowak:** both? nobody");
    assert_eq!(
        rows(&s.utterances),
        vec![
            (5000, 6000, "Me + anna nowak", "both?"),
            (8000, 9000, "Unknown", "nobody"),
        ]
    );
}

#[test]
fn segments_count_from_the_start_of_the_recording() {
    let moved = offset_segments(vec![segment(0, 10, "a"), segment(10, 20, "b")], 3000);
    assert_eq!(moved.len(), 2);
    assert_eq!((moved[1].start_ms, moved[1].end_ms, moved[1].text.as_str()), (3010, 3020, "b"));
}

#[test]
fn a_running_recording_is_left_alone() {
    let mut s = Session::new();
    s.append_plain("mine");
    assert!(!s.auto_record_start(true, false, "Zoom".to_string(), None, at(0)));
    assert!(!s.auto_record_start(true, true, "Zoom".to_string(), None, at(0)));
    assert!(!s.auto_record_start(false, false, "Zoom".to_string(), None, at(0)));
    assert_eq!(s.get_transcript(), "mine");
    assert!(!s.auto_recording);
}

#[test]
fn a_recording_by_hand_is_not_stopped_by_a_meeting() {
    let mut s = Session::new();
    s.begin_manual();
    assert!(!s.stop_auto());
    s.append_plain("still here");
    assert!(!s.stop_auto());
    let text = s.finish_manual(&Some(Tail {
        hint: SpeakerHint::Me,
        text: "bye".to_string(),
    }));
    assert_eq!(text, "still here\n\n[00:00] **Me:** bye");
}

#[test]
fn a_recording_by_hand_starts_afresh() {
    let mut s = captured(Some("Anna Nowak"));
    s.append_labelled("Me", 0, "x");
    s.begin_manual();
    assert_eq!(s.get_transcript(), "");
    assert_eq!(s.others_label(), "Others");
    s.append_labelled("Me", 0, "y");
    assert_eq!(s.finish_manual(&None), "[00:00] **Me:** y");
}

#[test]
fn a_running_meeting_is_kept_on_disk() {
    let mut s = captured(None);
    s.append_plain("so far");
    let (source, started, text) = s.partial().unwrap();
    assert_eq!(source, "Weekly (Teams)");
    assert_eq!(started.seconds_until(&at(130)), 30);
    assert_eq!(text, "so far");
    assert!(s.stop_auto());
    assert!(s.partial().is_none());
    assert!(Session::new().partial().is_none());
}

#[test]
fn a_finished_meeting_keeps_its_tail() {
    let mut s = captured(Some("Anna Nowak"));
    s.add_separate(&vec![segment(0, 900, "hello.")], &vec![]);
    assert!(s.stop_auto());
    assert_eq!(s.position_ms(&at(165)), 65_000);
    let tail = Some(Tail { hint: SpeakerHint::Others, text: "bye".to_string() });
    let f = s.finish_auto(&tail, "Teams", at(165)).unwrap();
    assert_eq!(f.source, "Weekly (Teams)");
    assert_eq!(f.other_party, Some("Anna Nowak".to_string()));
    assert_eq!(f.text, "[00:00] **Me:** hello.\n\n[01:05] **Anna Nowak:** bye");
    assert_eq!(
        rows(&f.utterances),
        vec![(0, 900, "Me", "hello."), (65_000, 65_000, "Unknown", "bye")]
    );
    assert_eq!(f.started.seconds_until(&at(165)), 65);
    assert!(!s.stop_auto());
}

#[test]
fn a_meeting_without_text_leaves_nothing() {
    let mut s = captured(None);
    assert!(s.stop_auto());
    assert!(s.finish_auto(&None, "Teams", at(200)).is_none());
    assert!(s.finish_at(&None, 0, "Teams", at(200)).is_none());
}

#[test]
fn a_meeting_that_is_not_known_is_named_after_its_application() {
    let mut s = Session::new();
    s.append_plain("text");
    assert_eq!(s.position_ms(&at(200)), 0);
    let f = s.finish_auto(&None, "Teams", at(200)).unwrap();
    assert_eq!(f.source, "Teams");
    assert_eq!(f.other_party, None);
    assert_eq!(f.started.seconds_until(&at(201)), 1);
}

#[test]
fn an_utterance_never_ends_before_it_starts() {
    let mut us = vec![];
    note_utterance(&mut us, 500, 900, "Me", "a");
    note_utterance(&mut us, 100, 200, "Me", "b");
    assert_eq!(rows(&us), vec![(500, 900, "Me", "a b")]);
}

use platypus::meeting_title::{
    cuts_cleanly, is_capitalised, meeting_name_of, other_party_from_title, person_named,
    subject_of_call,
};

#[test]
fn reads_a_name_from_a_one_to_one_call() {
    assert_eq!(
        other_party_from_title("Jan Kowalski"),
        Some("Jan Kowalski".to_string())
    );
    assert_eq!(
        other_party_from_title("Call with Anna Nowak"),
        Some("Anna Nowak".to_string())
    );
}

#[test]
fn refuses_meeting_names() {
    assert_eq!(other_party_from_title("Weekly sync"), None);
    assert_eq!(other_party_from_title("Spotkanie zespolu"), None);
    assert_eq!(other_party_from_title("Sprint planning 12"), None);
}

#[test]
fn refuses_anything_that_is_not_shaped_like_a_name() {
    assert_eq!(other_party_from_title("Kowalski"), None);
    assert_eq!(other_party_from_title("a b"), None);
    assert_eq!(other_party_from_title(""), None);
}

#[test]
fn reads_names_beyond_ascii() {
    assert_eq!(
        other_party_from_title("Połączenie z Łukasz Żak"),
        Some("Łukasz Żak".to_string())
    );
    assert_eq!(
        other_party_from_title("  Anna Maria Nowak  "),
        Some("Anna Maria Nowak".to_string())
    );
    assert_eq!(other_party_from_title("łukasz Żak"), None);
    assert_eq!(other_party_from_title("Jan X"), None);
    assert_eq!(other_party_from_title("Jan Maria Adam Nowak"), None);
    assert_eq!(other_party_from_title("Call with "), None);
    assert_eq!(other_party_from_title("Jan Kowalski 2"), None);
    assert_eq!(other_party_from_title("SPOTKANIE Z JAN NOWAK"), Some("JAN NOWAK".to_string()));
}

#[test]
fn a_prefix_is_taken_off_once() {
    assert_eq!(other_party_from_title("Call with Call with Anna Nowak"), None);
    assert_eq!(
        other_party_from_title("Chat with Anna Nowak"),
        Some("Anna Nowak".to_string())
    );
}

#[test]
fn the_test_for_a_name_takes_its_letter_case_as_given() {
    assert_eq!(person_named("Jan Nowak", "jan nowak", true), Some("Jan Nowak".to_string()));
    assert_eq!(person_named("Jan Nowak", "jan nowak", false), None);
    assert_eq!(person_named("Team Sync", "team sync", true), None);
    assert!(is_capitalised("Łukasz Żak"));
    assert!(!is_capitalised("Jan kowalski"));
}

#[test]
fn a_call_is_with_whoever_its_title_names() {
    assert!(cuts_cleanly("Call with Anna", "call with anna"));
    assert_eq!(subject_of_call("Call with Anna", "call with anna"), "Anna");
    assert_eq!(subject_of_call("Anna", "anna"), "Anna");
    assert!(!cuts_cleanly("aİİİİİİ", "call with x"));
}

#[test]
fn a_meeting_is_named_by_its_window() {
    assert_eq!(
        meeting_name_of("Weekly sync | Microsoft Teams"),
        Some("Weekly sync".to_string())
    );
    assert_eq!(meeting_name_of("Weekly sync -| x"), Some("Weekly sync".to_string()));
    assert_eq!(meeting_name_of("microsoft teams | x"), None);
    assert_eq!(meeting_name_of(" - | Microsoft Teams"), None);
    assert_eq!(meeting_name_of(""), None);
}

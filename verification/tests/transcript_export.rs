use platypus::clock::Stamp;
use platypus::transcript_export::{
    free_name, html_escape, interrupted_stem, interrupted_text, markdown, markdown_with_dates, note_html, note_title,
    note_title_with_date, partial_name, partial_name_for, partial_text, slugify, stem_for, transcript_name,
    transcript_stem,
};

#[test]
fn a_slug_is_lower_case_with_single_dashes() {
    assert_eq!(slugify("Weekly sync (Microsoft Teams)"), "weekly-sync-microsoft-teams");
    assert_eq!(slugify("  Zoom!! 2  "), "zoom-2");
    assert_eq!(slugify("Łódź"), "d");
    assert_eq!(slugify("---"), "");
    assert_eq!(slugify(&slugify("A  b--C")), slugify("A  b--C"));
}

#[test]
fn a_transcript_is_named_after_its_start_and_source() {
    assert_eq!(
        stem_for("2026-09-13_15-42", "weekly sync (Microsoft Teams)"),
        "2026-09-13_15-42_weekly-sync-microsoft-teams"
    );
    let s = Stamp::new(1_789_307_000, 0, 7200).unwrap();
    assert_eq!(transcript_stem(&s, "Zoom"), "2026-09-13_15-43_zoom");
}

#[test]
fn a_taken_name_gets_a_number() {
    assert_eq!(transcript_name("a", 1), "a.md");
    assert_eq!(transcript_name("a", 2), "a-2.md");
    assert_eq!(transcript_name("a", 11), "a-11.md");
}

#[test]
fn a_transcript_file_describes_itself() {
    assert_eq!(
        markdown_with_dates(
            "Zoom",
            &Some("Anna Nowak".to_string()),
            "  hello big  world \n",
            "2026-09-13 15:43",
            "2026-09-13 15:43:20",
            "2026-09-13 16:00:00",
            16,
            40,
        ),
        "# Zoom - 2026-09-13 15:43\n\n- Source: Zoom\n- Other party: Anna Nowak\n\
         - Started: 2026-09-13 15:43:20\n- Ended: 2026-09-13 16:00:00\n- Duration: 16m 40s\n\
         - Words: 3\n- Captured automatically by Platypus (local Whisper)\n\n---\n\n\
         hello big  world\n"
    );
}

#[test]
fn a_transcript_file_counts_the_time() {
    let a = Stamp::new(1_789_307_000, 0, 7200).unwrap();
    let b = Stamp::new(1_789_307_000 + 1000, 0, 7200).unwrap();
    assert_eq!(
        markdown("Zoom", &None, "hi", &a, &b),
        "# Zoom - 2026-09-13 15:43\n\n- Source: Zoom\n- Started: 2026-09-13 15:43:20\n\
         - Ended: 2026-09-13 16:00:00\n- Duration: 16m 40s\n- Words: 1\n\
         - Captured automatically by Platypus (local Whisper)\n\n---\n\nhi\n"
    );
    assert!(markdown("Zoom", &None, "hi", &b, &a).contains("- Duration: 0m 0s\n"));
}

#[test]
fn a_note_shows_the_text_as_it_is() {
    assert_eq!(html_escape("a < b && c > d"), "a &lt; b &amp;&amp; c &gt; d");
    assert_eq!(html_escape("&lt;"), "&amp;lt;");
    let text = "x<y>&\"z\"";
    assert_eq!(
        html_escape(text),
        text.replace('&', "&amp;").replace('<', "&lt;").replace('>', "&gt;")
    );
    assert_eq!(note_html("<b>"), "<p>&lt;b&gt;</p>");
    assert_eq!(note_title_with_date("Zoom", "2026"), "Zoom - 2026");
    let s = Stamp::new(1_789_307_000, 0, 7200).unwrap();
    assert_eq!(note_title("Zoom", &s), "Zoom - 2026-09-13 15:43");
}

#[test]
fn an_interrupted_meeting_keeps_its_start() {
    assert_eq!(partial_name_for("2026-09-13_15-43"), "2026-09-13_15-43.partial.md");
    let s = Stamp::new(1_789_307_000, 0, 7200).unwrap();
    assert_eq!(partial_name(&s), "2026-09-13_15-43.partial.md");
    let stem = interrupted_stem("2026-09-13_15-43.partial.md").unwrap();
    assert_eq!(stem, "2026-09-13_15-43-interrupted");
    assert_eq!(free_name(&stem, &vec![]), "2026-09-13_15-43-interrupted.md");
    assert_eq!(interrupted_stem(".partial.md"), Some("-interrupted".to_string()));
    assert_eq!(interrupted_stem("2026-09-13_15-43_zoom.md"), None);
    assert_eq!(interrupted_stem("partial.md"), None);
    let kept = partial_text("Zoom", "so far");
    assert_eq!(kept, "# Zoom\n\nso far\n");
    assert_eq!(
        interrupted_text(&kept),
        "# Zoom\n\nso far\n\n- This recording was cut short.\n"
    );
}

#[test]
fn the_first_free_name_is_taken() {
    let names = |v: &[&str]| v.iter().map(|s| s.to_string()).collect::<Vec<String>>();
    assert_eq!(free_name("a", &vec![]), "a.md");
    assert_eq!(free_name("a", &names(&["a.md"])), "a-2.md");
    assert_eq!(free_name("a", &names(&["a-3.md", "a.md", "a-2.md", "b.md"])), "a-4.md");
    assert_eq!(free_name("a", &names(&["a.md", "a-3.md"])), "a-2.md");
    assert_eq!(free_name("a", &names(&["a-2.md", "a.md", "a.md"])), "a-3.md");
}

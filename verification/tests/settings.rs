use platypus::secret::{decrypt, encrypt};
use platypus::settings::{
    analysis_provider, auto_capture_enabled, captures_system_audio, default_settings, get_setting,
    get_settings, has_argument, insert_or_update_setting, is_on, model_id, search_term,
    separates_speakers, settings_to_seed, task_mining_enabled, transcription_key, update_settings,
    Setting, Settings,
};

fn seal(data: &[u8]) -> Option<Vec<u8>> {
    Some(data.iter().map(|b| b ^ 0x5a).collect())
}

fn setting(key: &str, value: &str) -> Setting {
    Setting { setting_key: key.to_string(), setting_value: value.to_string() }
}

fn pairs(rows: &[Setting]) -> Vec<(&str, &str)> {
    rows.iter().map(|s| (s.setting_key.as_str(), s.setting_value.as_str())).collect()
}

#[test]
fn secrets_are_sealed_before_they_are_written() {
    let row = insert_or_update_setting(setting("api_key_claude", "sk-1"), seal);
    assert_eq!(row.setting_key, "api_key_claude");
    assert!(row.setting_value.starts_with("dpapi:"));
    assert_eq!(get_setting("api_key_claude", &Some(row), seal).setting_value, "sk-1");
    let row = insert_or_update_setting(setting("api_choice", "gemini"), seal);
    assert_eq!(row.setting_value, "gemini");
    let row = insert_or_update_setting(setting("api_key_gemini", ""), seal);
    assert_eq!(row.setting_value, "");
    let row = insert_or_update_setting(setting("api_key_gemini", "k"), encrypt);
    assert_eq!(row.setting_value, "k");
}

#[test]
fn a_missing_setting_is_empty() {
    let s = get_setting("whisper_model", &None, seal);
    assert_eq!((s.setting_key.as_str(), s.setting_value.as_str()), ("whisper_model", ""));
}

#[test]
fn a_key_from_another_machine_is_blank() {
    let row = insert_or_update_setting(setting("api_key_open_ai", "sk"), seal);
    assert_eq!(get_setting("api_key_open_ai", &Some(row), decrypt).setting_value, "");
    let plain = setting("api_key_open_ai", "sk");
    assert_eq!(get_setting("api_key_open_ai", &Some(plain), decrypt).setting_value, "sk");
}

#[test]
fn all_settings_are_read() {
    let rows = vec![
        setting("a", "dpapi:x"),
        insert_or_update_setting(setting("api_key_claude", "k"), seal),
        setting("api_key_gemini", "dpapi:!"),
    ];
    assert_eq!(
        pairs(&get_settings(&rows, seal)),
        vec![("a", "dpapi:x"), ("api_key_claude", "k"), ("api_key_gemini", "")]
    );
}

#[test]
fn a_first_run_seeds_the_defaults() {
    let wanted = vec![
        ("use_local_transcription", "true"),
        ("whisper_model", "large-v3-turbo"),
        ("meeting_detection_enabled", "true"),
        ("auto_capture_meetings", "true"),
        ("capture_system_audio", "true"),
        ("transcription_language", "auto"),
        ("post_meeting_analysis", "local"),
        ("vectorization_enabled", "true"),
        ("rag_top_k", "12"),
    ];
    assert_eq!(pairs(&default_settings()), wanted);
    assert_eq!(pairs(&settings_to_seed(&vec![])), wanted);
}

#[test]
fn a_choice_is_never_overwritten() {
    let mut rows = vec![
        setting("whisper_model", "base"),
        setting("rag_top_k", "  "),
        setting("auto_capture_meetings", "false"),
    ];
    let seeds = settings_to_seed(&rows);
    assert_eq!(
        pairs(&seeds),
        vec![
            ("use_local_transcription", "true"),
            ("meeting_detection_enabled", "true"),
            ("capture_system_audio", "true"),
            ("transcription_language", "auto"),
            ("post_meeting_analysis", "local"),
            ("vectorization_enabled", "true"),
            ("rag_top_k", "12"),
        ]
    );
    rows.remove(1);
    rows.extend(seeds);
    assert!(settings_to_seed(&rows).is_empty());
}

#[test]
fn the_form_is_written_row_by_row() {
    let s = Settings {
        interval: "20".to_string(),
        is_dev_mode: false,
        auto_start: true,
        api_choice: "gemini".to_string(),
        api_key_claude: "c".to_string(),
        api_key_open_ai: "o".to_string(),
        api_key_gemini: "g".to_string(),
        local_model_url: "u".to_string(),
        vectorization_enabled: true,
        rag_top_k: "12".to_string(),
        meeting_detection_enabled: false,
        model_claude: "mc".to_string(),
        model_openai: "mo".to_string(),
        model_gemini: "mg".to_string(),
        use_local_transcription: true,
        whisper_model: "w".to_string(),
        api_key_elevenlabs: "e".to_string(),
    };
    let (rows, detecting) = update_settings(&s);
    assert!(!detecting);
    assert_eq!(
        pairs(&rows),
        vec![
            ("interval", "20"),
            ("is_dev_mode", "false"),
            ("auto_start", "true"),
            ("api_choice", "gemini"),
            ("api_key_claude", "c"),
            ("api_key_open_ai", "o"),
            ("api_key_gemini", "g"),
            ("local_model_url", "u"),
            ("vectorization_enabled", "true"),
            ("rag_top_k", "12"),
            ("meeting_detection_enabled", "false"),
            ("model_claude", "mc"),
            ("model_openai", "mo"),
            ("model_gemini", "mg"),
            ("use_local_transcription", "true"),
            ("whisper_model", "w"),
            ("api_key_elevenlabs", "e"),
        ]
    );
    let on = Settings { meeting_detection_enabled: true, ..s };
    assert!(update_settings(&on).1);
}

#[test]
fn switches_read_their_values() {
    assert!(is_on("true"));
    assert!(!is_on("True"));
    assert!(!is_on(""));
    assert!(auto_capture_enabled(""));
    assert!(auto_capture_enabled("  "));
    assert!(auto_capture_enabled(" TRUE "));
    assert!(!auto_capture_enabled("false"));
    assert!(!auto_capture_enabled("yes"));
    assert!(task_mining_enabled("True"));
    assert!(!task_mining_enabled(" true"));
    assert!(!task_mining_enabled(""));
    assert!(captures_system_audio(""));
    assert!(captures_system_audio("no"));
    assert!(!captures_system_audio("FALSE"));
    assert!(separates_speakers(" ", true));
    assert!(!separates_speakers("", false));
    assert!(separates_speakers("TRUE", false));
    assert!(!separates_speakers("false", true));
}

#[test]
fn a_model_is_always_named() {
    assert_eq!(model_id(" "), "large-v3");
    assert_eq!(model_id("base"), "base");
}

#[test]
fn only_long_meetings_are_analysed() {
    let long = "word ".repeat(30);
    let short = "word ".repeat(29);
    assert_eq!(analysis_provider(" local ", &long), Some("local".to_string()));
    assert_eq!(analysis_provider("local", &short), None);
    assert_eq!(analysis_provider("OFF", &long), None);
    assert_eq!(analysis_provider(" ", &long), None);
}

#[test]
fn a_hosted_transcription_needs_a_key() {
    assert_eq!(transcription_key("k"), Ok("k".to_string()));
    assert_eq!(
        transcription_key(""),
        Err("OpenAI API key is required for audio transcription".to_string())
    );
}

#[test]
fn a_blank_search_finds_nothing() {
    assert_eq!(search_term("  a b "), Some("a b".to_string()));
    assert_eq!(search_term(" \t"), None);
}

#[test]
fn arguments_are_looked_up() {
    let args = vec!["platypus".to_string(), "--minimized".to_string()];
    assert!(has_argument(&args, "--minimized"));
    assert!(!has_argument(&args, "--self-test"));
    assert!(!has_argument(&vec![], "--self-test"));
}

use platypus::clock::Stamp;
use platypus::self_test::{
    report_dated, run, DataDirectory, Findings, Heard, Loudness, Tone, Trial,
};

fn loud(samples: u64, silent: bool) -> Loudness {
    Loudness { samples, rms: "0.0500".to_string(), peak: "0.2000".to_string(), silent }
}

fn findings(trial: Result<Trial, String>) -> Findings {
    Findings {
        cuda: false,
        data_directory: DataDirectory::Writable { place: "C:\\data".to_string() },
        model: "large-v3".to_string(),
        model_present: true,
        trial,
    }
}

#[test]
fn a_working_machine_is_reported() {
    let f = findings(Ok(Trial {
        tone: Tone::Played,
        microphone: loud(144000, false),
        system: loud(143000, false),
        heard: Heard::Text { text: "one\ntwo".to_string() },
    }));
    assert_eq!(
        report_dated("2026-09-13 15:43:20", &f),
        "# Platypus self-test\n\n- Run at: 2026-09-13 15:43:20\n- Build: CPU\n\n\
         - [ok] Data directory writable: C:\\data\n\
         - [ok] Whisper model present: large-v3\n\
         \n## Capture\n\n\
         - Playing a 440 Hz tone for 3 seconds - speak now as well\n\
         - [ok] Playback stream opened\n\
         - [ok] Microphone captured 144000 samples (rms 0.0500, peak 0.2000)\n\
         - [ok] System audio captured 143000 samples (peak 0.2000) - the tone came back\n\
         \n## Transcription\n\n\
         - [ok] Whisper returned: \"one two\"\n\
         \n## Meeting detection\n\n\
         - Detection watches which application holds the microphone. To check it, join a call and look for 'Meeting detected on' in data/logs.\n"
    );
}

#[test]
fn a_report_ends_where_nothing_can_be_recorded() {
    let mut f = findings(Err("no device".to_string()));
    f.cuda = true;
    f.model_present = false;
    f.data_directory = DataDirectory::Unknown;
    let now = Stamp::new(1_789_307_000, 0, 7200).unwrap();
    assert_eq!(
        run(&now, &f),
        "# Platypus self-test\n\n- Run at: 2026-09-13 15:43:20\n- Build: CUDA\n\n\
         - [FAIL] Could not resolve the data directory\n\
         - [FAIL] Whisper model missing: large-v3 - run fetch-whisper-model.ps1\n\
         \n## Capture\n\n\
         - [FAIL] Could not start recording: no device\n"
    );
}

#[test]
fn a_deaf_machine_is_reported() {
    let mut f = findings(Ok(Trial {
        tone: Tone::NotPlayed { error: "busy".to_string() },
        microphone: loud(0, true),
        system: loud(0, true),
        heard: Heard::Nothing,
    }));
    f.data_directory =
        DataDirectory::NotWritable { place: "/x".to_string(), error: "denied".to_string() };
    let report = report_dated("now", &f);
    assert!(report.contains("- [FAIL] Data directory not writable (/x): denied\n"));
    assert!(report.contains("- [warn] Could not play the tone: busy\n"));
    assert!(report.contains("- [FAIL] No microphone samples captured\n"));
    assert!(report.contains("- [FAIL] No system audio captured - loopback did not open (see the log for 'System audio capture:')\n"));
    assert!(report.contains("- skipped, nothing was recorded\n"));
}

#[test]
fn silence_is_reported() {
    let f = findings(Ok(Trial {
        tone: Tone::Failed { error: "gone".to_string() },
        microphone: loud(10, true),
        system: loud(20, true),
        heard: Heard::Nothing,
    }));
    let report = report_dated("now", &f);
    assert!(report.contains("- [warn] Playback task failed: gone\n"));
    assert!(report.contains("- [FAIL] Microphone silent (10 samples, peak 0.2000) - check the input device and Windows privacy settings\n"));
    assert!(report.contains("- [FAIL] System audio silent (20 samples) - the tone did not reach the capture; is the output device muted?\n"));
    assert!(report.contains("- [warn] Whisper returned nothing - either silence, or the model is not loaded\n"));
    let f = findings(Ok(Trial {
        tone: Tone::Played,
        microphone: loud(10, false),
        system: loud(20, false),
        heard: Heard::Failed { error: "panicked".to_string() },
    }));
    assert!(report_dated("now", &f).contains("- [FAIL] Transcription task failed: panicked\n"));
}

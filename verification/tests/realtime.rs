use platypus::realtime::{is_worth_transcribing, transcribed, transcribed_for_test, Chunker};

fn samples(from: i32, n: i32) -> Vec<i32> {
    (from..from + n).collect()
}

#[test]
fn three_seconds_make_a_chunk() {
    let mut c: Chunker<i32> = Chunker::new();
    assert!(c.poll(samples(0, 29), vec![], 10, false).is_none());
    let chunk = c.poll(samples(29, 4), vec![9], 10, false).unwrap();
    assert_eq!(chunk.samples, samples(0, 33));
    assert_eq!(chunk.system, vec![9]);
    assert_eq!((chunk.start_ms, chunk.end_ms), (0, 3300));
    let next = c.poll(samples(33, 30), vec![], 10, false).unwrap();
    assert_eq!(next.samples, samples(33, 30));
    assert_eq!(next.system, vec![]);
    assert_eq!((next.start_ms, next.end_ms), (3300, 6300));
    assert_eq!(c.recorded(), 63);
}

#[test]
fn silence_ends_a_chunk_of_two_seconds() {
    let mut c: Chunker<i32> = Chunker::new();
    assert!(c.poll(samples(0, 19), vec![], 10, false).is_none());
    for i in 0..9 {
        assert!(c.poll(samples(19 + i, 1), vec![], 10, true).is_none());
    }
    let chunk = c.poll(samples(28, 1), vec![], 10, true).unwrap();
    assert_eq!(chunk.samples, samples(0, 29));
}

#[test]
fn speech_starts_the_count_of_silence_again() {
    let mut c: Chunker<i32> = Chunker::new();
    for _ in 0..9 {
        assert!(c.poll(vec![0], vec![], 5, true).is_none());
    }
    assert!(c.poll(vec![0], vec![], 5, false).is_none());
    assert!(c.poll(vec![0], vec![], 5, true).is_none());
    assert!(c.poll(vec![0, 0], vec![], 5, true).is_none());
}

#[test]
fn short_silence_waits_for_two_seconds() {
    let mut c: Chunker<i32> = Chunker::new();
    for _ in 0..19 {
        assert!(c.poll(vec![0], vec![], 10, true).is_none());
    }
    assert!(c.poll(vec![0], vec![], 10, true).is_some());
}

#[test]
fn polls_without_sound_or_rate_only_collect() {
    let mut c: Chunker<i32> = Chunker::new();
    assert!(c.poll(vec![], vec![1, 2], 10, true).is_none());
    assert!(c.poll(samples(0, 100), vec![3], 0, true).is_none());
    let chunk = c.poll(vec![100], vec![4], 10, false).unwrap();
    assert_eq!(chunk.samples, samples(0, 101));
    assert_eq!(chunk.system, vec![1, 2, 3, 4]);
}

#[test]
fn no_sample_is_lost_or_doubled() {
    let mut c: Chunker<i32> = Chunker::new();
    let mut heard = vec![];
    let mut end = 0;
    for i in 0..200 {
        if let Some(chunk) = c.poll(samples(i * 7, 7), vec![], 10, i % 3 == 0) {
            assert!(chunk.samples.len() >= 20);
            assert_eq!(chunk.start_ms, end);
            assert_eq!(chunk.start_ms, heard.len() as u64 * 1000 / 10);
            end = chunk.end_ms;
            heard.extend(chunk.samples);
        }
    }
    let n = heard.len() as i32;
    assert_eq!(heard, samples(0, n));
    assert!(c.recorded() == 1400 && n <= 1400);
}

#[test]
fn silence_is_not_transcribed() {
    assert!(is_worth_transcribing(48_000, 10, false));
    assert!(!is_worth_transcribing(48_000, 10, true));
    assert!(!is_worth_transcribing(48_000, 0, false));
    assert!(!is_worth_transcribing(0, 10, false));
}

#[test]
fn nothing_heard_is_no_text() {
    assert_eq!(transcribed(Some("a".to_string())), Some("a".to_string()));
    assert_eq!(transcribed(Some(" ".to_string())), Some(" ".to_string()));
    assert_eq!(transcribed(Some(String::new())), None);
    assert_eq!(transcribed(None), None);
    assert_eq!(transcribed_for_test(Some(" a".to_string())), Some(" a".to_string()));
    assert_eq!(transcribed_for_test(Some(" ".to_string())), None);
    assert_eq!(transcribed_for_test(None), None);
}

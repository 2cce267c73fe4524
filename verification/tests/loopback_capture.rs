use platypus::loopback_capture::{
    device_opened, packet_format, push_packet, resample, start, stop, take_samples, wanted_source,
    Loopback, PacketFormat,
};

fn blend(a: i32, b: i32, part: u32, whole: u32) -> i32 {
    a + (b - a) * part as i32 / whole as i32
}

#[test]
fn capture_starts_once_and_stops() {
    let mut l: Loopback<i32> = Loopback::new(true);
    assert!(!l.is_capturing());
    assert!(start(&mut l));
    assert!(!start(&mut l));
    assert!(l.is_capturing());
    stop(&mut l);
    assert!(!l.is_capturing());
    assert!(start(&mut l));
}

#[test]
fn where_nothing_can_be_captured_nothing_happens() {
    let mut l: Loopback<i32> = Loopback::new(false);
    assert!(!start(&mut l));
    assert!(!l.is_capturing());
    push_packet(&mut l, &vec![1, 2]);
    assert_eq!(take_samples(&mut l, 16_000, 10, blend), Vec::<i32>::new());
}

#[test]
fn a_device_without_channels_is_refused() {
    let mut l: Loopback<i32> = Loopback::new(true);
    assert_eq!(
        device_opened(&mut l, 0, 48_000),
        Err("Playback device reports zero channels".to_string())
    );
    assert_eq!(l.sample_rate(), 0);
    assert_eq!(device_opened(&mut l, 2, 48_000), Ok(()));
    assert_eq!(l.sample_rate(), 48_000);
}

#[test]
fn packets_are_read_by_their_format() {
    assert_eq!(packet_format(true, true, 32), PacketFormat::Silence);
    assert_eq!(packet_format(false, false, 32), PacketFormat::Silence);
    assert_eq!(packet_format(false, true, 32), PacketFormat::Float32);
    assert_eq!(packet_format(false, true, 16), PacketFormat::Int16);
    assert_eq!(packet_format(false, true, 24), PacketFormat::Silence);
}

#[test]
fn the_newest_minute_is_kept() {
    let mut l: Loopback<i32> = Loopback::new(true);
    start(&mut l);
    device_opened(&mut l, 1, 1).unwrap();
    push_packet(&mut l, &(0..50).collect());
    push_packet(&mut l, &(50..80).collect());
    assert_eq!(take_samples(&mut l, 1, 1000, blend), (20..80).collect::<Vec<i32>>());
    push_packet(&mut l, &vec![7]);
    push_packet(&mut l, &(0..70).collect());
    assert_eq!(take_samples(&mut l, 1, 1000, blend), (0..70).collect::<Vec<i32>>());
}

#[test]
fn samples_are_taken_oldest_first() {
    let mut l: Loopback<i32> = Loopback::new(true);
    start(&mut l);
    assert_eq!(take_samples(&mut l, 10, 5, blend), vec![]);
    device_opened(&mut l, 1, 10).unwrap();
    push_packet(&mut l, &vec![1, 2, 3, 4]);
    assert_eq!(take_samples(&mut l, 0, 5, blend), vec![]);
    assert_eq!(take_samples(&mut l, 10, 0, blend), vec![]);
    assert_eq!(take_samples(&mut l, 10, 3, blend), vec![1, 2, 3]);
    assert_eq!(take_samples(&mut l, 10, 3, blend), vec![4]);
    assert_eq!(take_samples(&mut l, 10, 3, blend), vec![]);
    push_packet(&mut l, &vec![5]);
    stop(&mut l);
    assert!(start(&mut l));
    assert_eq!(take_samples(&mut l, 10, 3, blend), vec![]);
}

#[test]
fn as_many_samples_are_taken_as_stand_for_the_asked() {
    assert_eq!(wanted_source(160, 48_000, 16_000), 480);
    assert_eq!(wanted_source(5, 1, 2), 3);
    assert_eq!(wanted_source(7, 44_100, 44_100), 7);
    assert_eq!(wanted_source(1, 3, 2), 2);
    assert_eq!(wanted_source(0, 3, 2), 0);
}

#[test]
fn samples_between_two_others_are_blended() {
    let source = vec![0, 10, 20, 30, 40, 50];
    assert_eq!(resample(&source, 3, 1, 100, blend), vec![0, 30]);
    assert_eq!(resample(&source, 3, 2, 100, blend), vec![0, 15, 30, 45]);
    assert_eq!(resample(&vec![0, 10], 1, 2, 100, blend), vec![0, 5, 10, 10]);
    assert_eq!(resample(&source, 5, 5, 4, blend), vec![0, 10, 20, 30]);
    assert_eq!(resample(&Vec::new(), 5, 7, 4, blend), Vec::<i32>::new());
}

#[test]
fn no_more_comes_out_than_was_asked_for() {
    let mut l: Loopback<i32> = Loopback::new(true);
    start(&mut l);
    device_opened(&mut l, 1, 1).unwrap();
    push_packet(&mut l, &vec![0, 10, 20, 30]);
    assert_eq!(take_samples(&mut l, 2, 5, blend), vec![0, 5, 10, 15, 20]);
    assert_eq!(take_samples(&mut l, 1, 5, blend), vec![30]);
}

#[test]
fn a_lower_rate_takes_several_samples_for_one() {
    let mut l: Loopback<i32> = Loopback::new(true);
    start(&mut l);
    device_opened(&mut l, 2, 48_000).unwrap();
    push_packet(&mut l, &(0..10).collect());
    assert_eq!(take_samples(&mut l, 16_000, 2, blend), vec![0, 3]);
    assert_eq!(take_samples(&mut l, 16_000, 2, blend), vec![6]);
    assert_eq!(take_samples(&mut l, 16_000, 2, blend), vec![]);
}

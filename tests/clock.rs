use pomodoro::clock::{countdown_frames, format_clock, phase_seconds, Countdown};

#[test]
fn clock_pads_minutes_and_seconds() {
    assert_eq!(format_clock(125), "02:05");
    assert_eq!(format_clock(0), "00:00");
    assert_eq!(format_clock(59), "00:59");
    assert_eq!(format_clock(60), "01:00");
    assert_eq!(format_clock(1499), "24:59");
}

#[test]
fn clock_minutes_are_not_wrapped() {
    assert_eq!(format_clock(599), "09:59");
    assert_eq!(format_clock(600), "10:00");
    assert_eq!(format_clock(6000), "100:00");
    assert_eq!(format_clock(3661), "61:01");
}

#[test]
fn phase_seconds_of_minutes() {
    assert_eq!(phase_seconds(0), 0);
    assert_eq!(phase_seconds(1), 60);
    assert_eq!(phase_seconds(25), 1500);
    assert_eq!(phase_seconds(u32::MAX), 257_698_037_700);
}

#[test]
fn frames_count_one_per_second() {
    for total in [1u64, 2, 59, 60, 61, 130] {
        assert_eq!(countdown_frames(total).len() as u64, total);
    }
}

#[test]
fn frames_of_zero_length_countdown_are_empty() {
    assert!(countdown_frames(0).is_empty());
}

#[test]
fn frame_for_second_125_of_130() {
    let frames = countdown_frames(130);
    assert_eq!(frames[0], "02:09");
    assert_eq!(frames[4], "02:05");
    assert_eq!(frames[129], "00:00");
}

#[test]
fn frames_count_down_to_zero() {
    let frames = countdown_frames(3);
    assert_eq!(frames, vec!["00:02".to_string(), "00:01".to_string(), "00:00".to_string()]);
}

#[test]
fn countdown_ticks_then_stops() {
    let mut c = Countdown::new(2);
    assert_eq!(c.remaining(), 2);
    assert!(!c.is_finished());
    assert_eq!(c.tick(), Some("00:01".to_string()));
    assert_eq!(c.remaining(), 1);
    assert_eq!(c.tick(), Some("00:00".to_string()));
    assert!(c.is_finished());
    assert_eq!(c.tick(), None);
    assert_eq!(c.tick(), None);
}

#[test]
fn zero_countdown_is_finished_at_once() {
    let mut c = Countdown::new(0);
    assert!(c.is_finished());
    assert_eq!(c.tick(), None);
}

#[test]
fn cancelled_countdown_shows_nothing_more() {
    let mut c = Countdown::new(90);
    assert_eq!(c.tick(), Some("01:29".to_string()));
    c.cancel();
    assert!(c.is_finished());
    assert_eq!(c.remaining(), 0);
    assert_eq!(c.tick(), None);
}

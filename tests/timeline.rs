use straycat_rs::timeline::{build_timeline, rounded_ratio, NoteTiming, RenderTimeline};

const PERIOD_US: i64 = 5_000;

fn timing(offset_ms: i64, consonant_ms: i64, cutoff_ms: i64, length_ms: i64, consonant_render_ms: i64) -> NoteTiming {
    NoteTiming {
        offset_us: offset_ms * 1000,
        consonant_us: consonant_ms * 1000,
        cutoff_us: cutoff_ms * 1000,
        length_us: length_ms * 1000,
        consonant_render_us: consonant_render_ms * 1000,
    }
}

fn frame_pos(t: &RenderTimeline, k: usize) -> f64 {
    let (num, den) = t.position(k);
    num as f64 / den as f64
}

#[test]
fn rounding_goes_to_nearest_halves_up() {
    assert_eq!(rounded_ratio(7, 2), 4);
    assert_eq!(rounded_ratio(5, 3), 2);
    assert_eq!(rounded_ratio(4, 3), 1);
    assert_eq!(rounded_ratio(0, 9), 0);
}

#[test]
fn slice_branch_keeps_source_frames() {
    // vowel region of 2.0 s in a 2.1 s source, 1.0 s requested
    let t = build_timeline(&timing(0, 100, 0, 1000, 100), 420, PERIOD_US);
    assert_eq!(t.consonant.count, 20);
    assert_eq!(t.vowel.count, 200);
    assert_eq!(t.render_length(), 220);
    for k in 0..20 {
        assert_eq!(frame_pos(&t, k), k as f64);
    }
    for i in 0..200 {
        assert_eq!(t.position(20 + i), (20 + i as i64, 1));
    }
}

#[test]
fn stretch_branch_spans_region_evenly() {
    // vowel region of 0.5 s in a 0.6 s source, 1.0 s requested
    let t = build_timeline(&timing(0, 100, 0, 1000, 100), 120, PERIOD_US);
    assert_eq!(t.consonant.count, 20);
    assert_eq!(t.vowel.count, 200);
    assert_eq!(frame_pos(&t, 20), 20.0);
    assert_eq!(frame_pos(&t, 219), 120.0);
    let step = 100.0 / 199.0;
    for i in 0..199 {
        let d = frame_pos(&t, 21 + i) - frame_pos(&t, 20 + i);
        assert!((d - step).abs() < 1e-9);
    }
}

#[test]
fn equal_lengths_fall_to_stretch() {
    // vowel region of exactly 0.5 s, 0.5 s requested
    let t = build_timeline(&timing(0, 100, 0, 500, 100), 120, PERIOD_US);
    assert_eq!(t.vowel.count, 100);
    assert_eq!(frame_pos(&t, 20), 20.0);
    assert_eq!(frame_pos(&t, 119), 120.0);
}

#[test]
fn default_note_renders_six_tenths_of_a_second() {
    let t = build_timeline(&timing(0, 100, 0, 500, 100), 100, PERIOD_US);
    assert_eq!(t.render_length(), 120);
    assert_eq!(t.render_length() as i64 * PERIOD_US, 600_000);
}

#[test]
fn velocity_stretches_consonant() {
    // velocity 0 doubles the consonant in the render, velocity 200 halves it
    let slow = build_timeline(&timing(50, 100, 0, 500, 200), 400, PERIOD_US);
    assert_eq!(slow.consonant.count, 40);
    assert_eq!(frame_pos(&slow, 0), 10.0);
    assert_eq!(frame_pos(&slow, 1), 10.5);
    assert_eq!(frame_pos(&slow, 39), 29.5);
    let fast = build_timeline(&timing(50, 100, 0, 500, 50), 400, PERIOD_US);
    assert_eq!(fast.consonant.count, 10);
    assert_eq!(frame_pos(&fast, 9), 28.0);
}

#[test]
fn no_consonant_gives_no_consonant_frames() {
    let t = build_timeline(&timing(0, 0, 0, 100, 0), 100, PERIOD_US);
    assert_eq!(t.consonant.count, 0);
    assert_eq!(t.render_length(), t.vowel.count);
}

#[test]
fn negative_cutoff_measures_from_offset() {
    // region of 300 ms from the offset; 100 ms consonant leaves 200 ms of vowel
    let t = build_timeline(&timing(50, 100, -300, 400, 100), 1000, PERIOD_US);
    assert_eq!(t.vowel.count, 80);
    assert_eq!(frame_pos(&t, 20), 30.0);
    assert_eq!(frame_pos(&t, 99), 70.0);
}

#[test]
fn slice_is_held_before_last_frame() {
    // 300 ms requested but the source ends 250 ms past the consonant
    let t = build_timeline(&timing(0, 100, -1000, 300, 100), 70, PERIOD_US);
    assert_eq!(t.vowel.count, 49);
    assert_eq!(t.position(20), (20, 1));
    assert_eq!(t.position(68), (68, 1));
}

#[test]
fn source_frame_is_held_within_source() {
    // cutoff past the start gives a region that ends before the source starts
    let t = build_timeline(&timing(0, 0, 200, 50, 0), 20, PERIOD_US);
    assert_eq!(t.vowel.count, 10);
    for k in 0..10 {
        assert_eq!(t.source_frame(k, 20), 0);
    }
    let t = build_timeline(&timing(0, 100, -1000, 1000, 100), 30, PERIOD_US);
    assert_eq!(t.source_frame(t.render_length() - 1, 30), 29);
}

#[test]
fn voicing_reads_frame_below() {
    let t = build_timeline(&timing(0, 100, 0, 100, 200), 40, PERIOD_US);
    // consonant: 40 points over 20 source frames, half a frame apart
    let vuv: Vec<bool> = (0..40).map(|i| i % 2 == 0).collect();
    let v = t.voicing(&vuv);
    assert_eq!(v.len(), t.render_length());
    assert!(v[0] && v[1]);
    assert!(!v[2] && !v[3]);
    assert!(v[4]);
}

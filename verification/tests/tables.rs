use goldsrc_dsp::modulation::countdown;
use goldsrc_dsp::reverb::{buffers_fit, parse_clip_mode, room_label, shift_lowpass_history};
use goldsrc_dsp::{preset_index, ClipMode, PRESET_COUNT, ROOM_NAMES};

#[test]
fn preset_index_clamps_to_last_room() {
    assert_eq!(preset_index(0), 0);
    assert_eq!(preset_index(5), 5);
    assert_eq!(preset_index(28), 28);
    assert_eq!(preset_index(29), 28);
    assert_eq!(preset_index(usize::MAX), 28);
    assert_eq!(PRESET_COUNT, 29);
}

#[test]
fn room_labels() {
    assert_eq!(room_label(0), "off");
    assert_eq!(room_label(5), "tunnel");
    assert_eq!(room_label(14), "water");
    assert_eq!(room_label(28), "weirdo3");
    assert_eq!(room_label(29), "unknown");
    assert_eq!(room_label(1000), "unknown");
    assert_eq!(ROOM_NAMES.len(), 29);
    assert_eq!(ROOM_NAMES[23], "cavern");
}

#[test]
fn clip_mode_parsing() {
    assert_eq!(parse_clip_mode("soft"), ClipMode::Soft);
    assert_eq!(parse_clip_mode("hard"), ClipMode::Hard);
    assert_eq!(parse_clip_mode("off"), ClipMode::Off);
    assert_eq!(parse_clip_mode("Off"), ClipMode::Hard);
    assert_eq!(parse_clip_mode("of"), ClipMode::Hard);
    assert_eq!(parse_clip_mode(""), ClipMode::Hard);
    assert_eq!(parse_clip_mode("Soft"), ClipMode::Hard);
    assert_eq!(parse_clip_mode("softer"), ClipMode::Hard);
    assert_eq!(parse_clip_mode("sof"), ClipMode::Hard);
}

#[test]
fn block_fit_check() {
    assert!(buffers_fit(4, 4, 4, 4));
    assert!(buffers_fit(4, 4, 8, 5));
    assert!(buffers_fit(0, 0, 0, 0));
    assert!(!buffers_fit(4, 3, 4, 4));
    assert!(!buffers_fit(4, 4, 3, 4));
    assert!(!buffers_fit(4, 4, 4, 3));
}

#[test]
fn countdown_reloads_below_zero() {
    assert_eq!(countdown(5, 9), 4);
    assert_eq!(countdown(1, 9), 0);
    assert_eq!(countdown(0, 9), 9);
    assert_eq!(countdown(-1, 9), 9);
}

#[test]
fn countdown_fires_once_per_period() {
    let period = 4;
    let mut cur = 0;
    let mut fired = Vec::new();
    for k in 1..=15 {
        cur = countdown(cur, period);
        if cur == 0 {
            fired.push(k);
        }
    }
    assert_eq!(fired, vec![5, 10, 15]);
}

#[test]
fn lowpass_history_shift() {
    let mut h = [0, 1, 2, 3, 4, 5, 6, 7, 8, 9];
    shift_lowpass_history(&mut h, 40, 90);
    assert_eq!(h, [1, 2, 3, 40, 40, 6, 7, 8, 90, 90]);
    shift_lowpass_history(&mut h, 41, 91);
    assert_eq!(h, [2, 3, 40, 41, 41, 7, 8, 90, 91, 91]);
}

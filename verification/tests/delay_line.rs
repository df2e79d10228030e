use goldsrc_dsp::delay_line::{DelayLine, REVERB_XFADE, STEREO_XFADE};
use rand::rngs::StdRng;
use rand::SeedableRng;

#[test]
fn new_line_is_silent_with_heads_at_start() {
    let line: DelayLine<f32> = DelayLine::new(4, 44100, 0.0);
    assert_eq!(line.buffer_size, 5);
    assert_eq!(line.buffer, vec![0.0; 5]);
    assert_eq!(line.input_pos, 0);
    assert_eq!(line.output_pos, 0);
    assert_eq!(line.output_pos_xf, 0);
    assert_eq!(line.xfade, 0);
    assert_eq!(line.delay_samples, 0);
    assert_eq!(line.feedback, 0.0);
    assert!(line.lp_enabled);
    assert_eq!(line.modulation, 0);
    assert_eq!(line.mod_cur, 0);
    assert_eq!(line.sample_rate, 44100);
}

#[test]
fn move_pointer_wraps_both_heads() {
    let mut line: DelayLine<i32> = DelayLine::new(2, 8000, 0);
    line.tune_echo(1, 0, false);
    assert_eq!(line.output_pos, 2);
    line.move_pointer();
    assert_eq!((line.input_pos, line.output_pos), (1, 0));
    line.move_pointer();
    assert_eq!((line.input_pos, line.output_pos), (2, 1));
    line.move_pointer();
    assert_eq!((line.input_pos, line.output_pos), (0, 2));
}

#[test]
fn echo_comes_back_after_the_delay() {
    let mut line: DelayLine<i32> = DelayLine::new(8, 8000, 0);
    line.tune_echo(3, 0, false);
    let mut heard = Vec::new();
    for v in 1..=10 {
        heard.push(line.read_output());
        line.write_input(v);
        line.move_pointer();
    }
    assert_eq!(heard, vec![0, 0, 0, 1, 2, 3, 4, 5, 6, 7]);
}

#[test]
fn full_ring_delay_reads_before_overwriting() {
    let mut line: DelayLine<i32> = DelayLine::new(2, 8000, 0);
    line.tune_echo(3, 0, false);
    assert_eq!(line.output_pos, line.input_pos);
    let mut heard = Vec::new();
    for v in 1..=6 {
        heard.push(line.read_output());
        line.write_input(v);
        line.move_pointer();
    }
    assert_eq!(heard, vec![0, 0, 0, 1, 2, 3]);
}

#[test]
fn delay_longer_than_ring_puts_read_head_on_write_head() {
    let mut line: DelayLine<i32> = DelayLine::new(2, 8000, 0);
    line.move_pointer();
    line.tune_echo(10, 0, true);
    assert_eq!(line.output_pos, line.input_pos);
    assert_eq!(line.delay_samples, 10);
}

#[test]
fn reset_silences_buffer_and_filters_but_keeps_heads() {
    let mut line: DelayLine<f32> = DelayLine::new(3, 8000, 0.0);
    line.tune_reverb_tap(2, 0.5, true, 7);
    line.write_input(0.75);
    line.move_pointer();
    line.write_input(-0.25);
    line.lp0 = 0.1;
    line.lp1 = 0.2;
    line.lp2 = 0.3;
    line.start_reverb_crossfade(1);
    assert_eq!(line.xfade, REVERB_XFADE);
    let (inp, out) = (line.input_pos, line.output_pos);
    line.reset(0.0);
    assert_eq!(line.buffer, vec![0.0; 4]);
    assert_eq!((line.lp0, line.lp1, line.lp2), (0.0, 0.0, 0.0));
    assert_eq!(line.xfade, 0);
    assert_eq!((line.input_pos, line.output_pos), (inp, out));
    assert_eq!(line.feedback, 0.5);
    assert_eq!(line.delay_samples, 2);
}

#[test]
fn retuning_keeps_the_tail() {
    let mut line: DelayLine<i32> = DelayLine::new(4, 8000, 0);
    for v in 1..=3 {
        line.write_input(v);
        line.move_pointer();
    }
    let before = line.buffer.clone();
    line.tune_reverb_tap(2, 9, false, 5);
    assert_eq!(line.buffer, before);
    assert_eq!(line.output_pos, 1);
    assert_eq!(line.read_output(), 2);
    assert_eq!(line.feedback, 9);
    assert!(!line.lp_enabled);
    assert_eq!(line.modulation, 5);
    assert_eq!(line.mod_cur, 5);
    line.tune_widener(1);
    assert_eq!(line.buffer, before);
    assert_eq!(line.output_pos, 2);
    assert_eq!(line.modulation, 0);
    assert_eq!(line.mod_cur, 0);
}

#[test]
fn modulation_timer_counts_down_and_reloads() {
    let mut line: DelayLine<i32> = DelayLine::new(4, 8000, 0);
    line.tune_reverb_tap(2, 0, false, 2);
    let mut seen = Vec::new();
    for _ in 0..7 {
        line.tick_modulation();
        seen.push(line.mod_cur);
    }
    assert_eq!(seen, vec![1, 0, 2, 1, 0, 2, 1]);
}

#[test]
fn crossfade_runs_down_then_moves_read_head() {
    let mut line: DelayLine<i32> = DelayLine::new(9, 8000, 0);
    for v in 0..10 {
        line.write_input(v * 10);
        line.move_pointer();
    }
    line.tune_reverb_tap(4, 0, false, 0);
    let out = line.output_pos;
    assert_eq!(out, 6);
    // 13 mod max(4, 1) = 1 slot ahead of the read head.
    line.start_reverb_crossfade(13);
    assert_eq!(line.output_pos_xf, 7);
    assert_eq!(line.xfade, REVERB_XFADE);
    let mut steps = 0;
    while let Some((sample, weight)) = line.crossfade_step() {
        assert_eq!(weight, REVERB_XFADE - steps);
        assert_eq!(sample, ((7 + steps as usize) % 10) as i32 * 10);
        steps += 1;
        if line.xfade != 0 {
            assert_eq!(line.output_pos, out);
        }
    }
    assert_eq!(steps, REVERB_XFADE);
    assert_eq!(line.xfade, 0);
    assert_eq!(line.output_pos, (7 + REVERB_XFADE as usize) % 10);
    assert_eq!(line.output_pos_xf, line.output_pos);
    assert_eq!(line.crossfade_step(), None);
}

#[test]
fn reverb_wobble_draws_only_when_due() {
    let mut rng = StdRng::seed_from_u64(42);
    let mut line: DelayLine<f32> = DelayLine::new(100, 8000, 0.0);
    line.tune_reverb_tap(50, 0.5, true, 3);
    assert_eq!(line.reverb_wobble_byte(&mut rng), None);
    for _ in 0..3 {
        line.tick_modulation();
    }
    assert_eq!(line.mod_cur, 0);
    let mut drawn = Vec::new();
    for _ in 0..20 {
        let b = line.reverb_wobble_byte(&mut rng).expect("wobble due");
        assert!(b <= 255);
        drawn.push(b);
    }
    // A generator draw, not a constant: twenty draws are not all equal.
    assert!(drawn.iter().any(|&b| b != drawn[0]));
}

#[test]
fn reverb_wobble_without_modulation_never_draws() {
    let mut rng = StdRng::seed_from_u64(1);
    let mut line: DelayLine<f32> = DelayLine::new(10, 8000, 0.0);
    line.tune_reverb_tap(5, 0.5, true, 0);
    for _ in 0..5 {
        line.tick_modulation();
        assert_eq!(line.reverb_wobble_byte(&mut rng), None);
    }
}

#[test]
fn reverb_crossfade_offset_stays_within_delay() {
    let mut line: DelayLine<i32> = DelayLine::new(100, 8000, 0);
    line.tune_reverb_tap(0, 0, false, 0);
    // delay 0 counts as 1: every offset reduces to 0.
    line.start_reverb_crossfade(12345);
    assert_eq!(line.output_pos_xf, line.output_pos);
    let mut line: DelayLine<i32> = DelayLine::new(100, 8000, 0);
    line.tune_reverb_tap(30, 0, false, 0);
    line.start_reverb_crossfade(95);
    assert_eq!(line.output_pos_xf, (line.output_pos + 5) % 101);
}

#[test]
fn stereo_wobble_sets_crossfade_from_drawn_byte() {
    let mut rng = StdRng::seed_from_u64(7);
    let mut line: DelayLine<f32> = DelayLine::new(1000, 8000, 0.0);
    line.tune_reverb_tap(800, 0.0, false, 1);
    line.tick_modulation();
    assert_eq!(line.mod_cur, 0);
    let out = line.output_pos;
    let b = line.trigger_stereo_wobble(&mut rng).expect("wobble due");
    assert!(b <= 255);
    assert_eq!(line.xfade, STEREO_XFADE);
    assert_eq!(line.output_pos_xf, (out + (b as usize * 800) / 512) % 1001);
    // A crossfade is running: no second draw.
    assert_eq!(line.trigger_stereo_wobble(&mut rng), None);
}

#[test]
fn stereo_wobble_idle_without_modulation() {
    let mut rng = StdRng::seed_from_u64(7);
    let mut line: DelayLine<f32> = DelayLine::new(100, 8000, 0.0);
    line.tune_widener(40);
    let xf = line.output_pos_xf;
    assert_eq!(line.trigger_stereo_wobble(&mut rng), None);
    assert_eq!(line.xfade, 0);
    assert_eq!(line.output_pos_xf, xf);
}

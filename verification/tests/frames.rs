use goldsrc_dsp::frames::split_stereo;

#[test]
fn stereo_frames_split_into_tracks() {
    let (l, r) = split_stereo(&vec![1, 2, 3, 4, 5, 6], 2);
    assert_eq!(l, vec![1, 3, 5]);
    assert_eq!(r, vec![2, 4, 6]);
}

#[test]
fn mono_is_duplicated() {
    let (l, r) = split_stereo(&vec![0.5f32, -0.25, 1.0], 1);
    assert_eq!(l, vec![0.5, -0.25, 1.0]);
    assert_eq!(r, vec![0.5, -0.25, 1.0]);
}

#[test]
fn extra_channels_are_dropped() {
    let (l, r) = split_stereo(&vec![1, 2, 3, 4, 5, 6, 7, 8], 4);
    assert_eq!(l, vec![1, 5]);
    assert_eq!(r, vec![2, 6]);
}

#[test]
fn trailing_partial_frame_counts() {
    let (l, r) = split_stereo(&vec![1, 2, 3, 4, 5, 6, 7, 8], 3);
    assert_eq!(l, vec![1, 4, 7]);
    assert_eq!(r, vec![2, 5, 8]);
}

#[test]
fn empty_input_gives_empty_tracks() {
    let (l, r) = split_stereo(&Vec::<i16>::new(), 2);
    assert!(l.is_empty());
    assert!(r.is_empty());
}

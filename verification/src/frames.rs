//! Interleaved multichannel sample frames.

use vstd::prelude::*;

verus! {

/// Number of frames in `len` interleaved samples of `channels` channels,
/// counting a trailing partial frame.
pub open spec fn frame_count(len: int, channels: int) -> int {
    len / channels + if len % channels != 0 { 1int } else { 0int }
}

/// Channel of frame `k` that feeds the right output: the second channel, or
/// the only one for mono.
pub open spec fn right_channel(channels: int) -> int {
    if channels > 1 { 1 } else { 0 }
}

/// Split interleaved samples into a left and a right track: frame `k` gives its
/// first sample to the left track and its second (the first, for mono) to the
/// right track; further channels are dropped. A trailing partial frame counts
/// as a frame, and then must not be cut right after its first sample when the
/// input has two channels or more.
pub fn split_stereo<S: Copy>(samples: &Vec<S>, channels: usize) -> (tracks: (Vec<S>, Vec<S>))
    requires
        channels >= 1,
        channels > 1 ==> samples.len() % channels != 1,
    ensures
        tracks.0.len() == frame_count(samples.len() as int, channels as int),
        tracks.1.len() == frame_count(samples.len() as int, channels as int),
        forall|k: int|
            0 <= k < tracks.0.len() ==> #[trigger] tracks.0@[k] == samples@[k * channels],
        forall|k: int|
            0 <= k < tracks.1.len() ==> #[trigger] tracks.1@[k] == samples@[k * channels + right_channel(
                channels as int,
            )],
{
    let n = samples.len();
    let second: usize = if channels > 1 { 1 } else { 0 };
    proof {
        if channels == 1 {
            assert(n % channels == 0);
        } else if n >= 1 {
            assert(n / channels < n) by (nonlinear_arith)
                requires
                    channels >= 2,
                    n >= 1;
        }
    }
    let frames = n / channels + if n % channels != 0 { 1 } else { 0 };
    let mut left: Vec<S> = Vec::new();
    let mut right: Vec<S> = Vec::new();
    let mut k: usize = 0;
    while k < frames
        invariant
            channels >= 1,
            channels > 1 ==> n % channels != 1,
            n == samples.len(),
            second == right_channel(channels as int),
            frames == frame_count(n as int, channels as int),
            k <= frames,
            left.len() == k,
            right.len() == k,
            forall|j: int| 0 <= j < left.len() ==> #[trigger] left@[j] == samples@[j * channels],
            forall|j: int|
                0 <= j < right.len() ==> #[trigger] right@[j] == samples@[j * channels + second],
        decreases frames - k,
    {
        proof {
            lemma_frame_start(n as int, channels as int, k as int);
        }
        let pos = k * channels;
        left.push(samples[pos]);
        right.push(samples[pos + second]);
        k = k + 1;
    }
    (left, right)
}

/// Frame `k` of the input starts inside it, and holds its second sample too
/// when there are two channels or more.
proof fn lemma_frame_start(n: int, channels: int, k: int)
    requires
        channels >= 1,
        channels > 1 ==> n % channels != 1,
        n >= 0,
        0 <= k < frame_count(n, channels),
    ensures
        k * channels + right_channel(channels) < n,
{
    let q = n / channels;
    let r = n % channels;
    vstd::arithmetic::div_mod::lemma_fundamental_div_mod(n, channels);
    vstd::arithmetic::mul::lemma_mul_is_commutative(channels, q);
    if k < q {
        vstd::arithmetic::mul::lemma_mul_inequality(k + 1, q, channels);
        vstd::arithmetic::mul::lemma_mul_is_distributive_add_other_way(channels, k, 1);
        vstd::arithmetic::mul::lemma_mul_is_commutative(channels, k + 1);
        vstd::arithmetic::mul::lemma_mul_is_commutative(channels, k);
    } else {
        assert(k == q && r != 0);
        if channels > 1 {
            assert(r >= 2);
        }
    }
}

/// The frame count is the number of `channels`-sized blocks needed to cover
/// `len` samples: the frames before the last start inside the input, and all
/// of them together reach its end.
pub proof fn lemma_frame_count_covers(len: int, channels: int)
    requires
        len >= 0,
        channels >= 1,
    ensures
        frame_count(len, channels) >= 0,
        frame_count(len, channels) * channels >= len,
        len > 0 ==> (frame_count(len, channels) - 1) * channels < len,
        len == 0 ==> frame_count(len, channels) == 0,
{
    let q = len / channels;
    let r = len % channels;
    vstd::arithmetic::div_mod::lemma_fundamental_div_mod(len, channels);
    vstd::arithmetic::div_mod::lemma_div_pos_is_pos(len, channels);
    vstd::arithmetic::mul::lemma_mul_is_commutative(channels, q);
    vstd::arithmetic::mul::lemma_mul_is_distributive_add_other_way(channels, q, 1);
    vstd::arithmetic::mul::lemma_mul_is_commutative(channels, q + 1);
    vstd::arithmetic::mul::lemma_mul_is_distributive_sub_other_way(channels, q, 1);
    vstd::arithmetic::mul::lemma_mul_is_commutative(channels, q - 1);
    if len == 0 {
        vstd::arithmetic::div_mod::lemma_small_mod(0, channels as nat);
        assert(0int / channels == 0) by (nonlinear_arith)
            requires channels >= 1;
    }
}

} // verus!

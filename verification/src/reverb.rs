//! Room presets, output clip modes and the small pieces of per-buffer
//! bookkeeping of the effect chain.

use vstd::prelude::*;
use vstd::string::StringSliceAdditionalSpecFns;

verus! {

/// Number of room presets.
pub const PRESET_COUNT: usize = 29;

/// Names of the room presets, by room index.
pub const ROOM_NAMES: [&'static str; 29] = [
    "off",
    "generic",
    "metallic",
    "metallic2",
    "metallic3",
    "tunnel",
    "tunnel2",
    "tunnel3",
    "chamber",
    "chamber2",
    "chamber3",
    "bright",
    "bright2",
    "bright3",
    "water",
    "water2",
    "water3",
    "concrete",
    "concrete2",
    "concrete3",
    "outside",
    "outside2",
    "outside3",
    "cavern",
    "cavern2",
    "cavern3",
    "weirdo",
    "weirdo2",
    "weirdo3",
];

/// Index of the preset used for `room`: rooms past the last preset get the last one.
pub fn preset_index(room: usize) -> (i: usize)
    ensures
        i == (if room < PRESET_COUNT { room } else { (PRESET_COUNT - 1) as usize }),
{
    if room < PRESET_COUNT - 1 {
        room
    } else {
        PRESET_COUNT - 1
    }
}

/// Name of room `room`, or `"unknown"` past the last preset.
pub fn room_label(room: usize) -> (name: &'static str)
    ensures
        room < PRESET_COUNT ==> name@ == ROOM_NAMES@[room as int]@,
        room >= PRESET_COUNT ==> name@ == "unknown"@,
{
    if room < ROOM_NAMES.len() {
        ROOM_NAMES[room]
    } else {
        "unknown"
    }
}

/// Output limiter applied after the dry/wet mix.
#[derive(Debug, Clone, Copy, PartialEq, Eq, Structural)]
pub enum ClipMode {
    /// Clamp to `[-1, 1]`.
    Hard,
    /// Tanh saturation above the knee.
    Soft,
    /// No limiting: the mix passes through unchanged.
    Off,
}

/// The clip mode named on a command line: `"soft"` gives `Soft`, `"off"` gives
/// `Off`, anything else `Hard`.
pub fn parse_clip_mode(s: &str) -> (mode: ClipMode)
    ensures
        mode == (if s@ == "soft"@ {
            ClipMode::Soft
        } else if s@ == "off"@ {
            ClipMode::Off
        } else {
            ClipMode::Hard
        }),
{
    if str_is(s, "soft") {
        ClipMode::Soft
    } else if str_is(s, "off") {
        ClipMode::Off
    } else {
        ClipMode::Hard
    }
}

/// Whether two strings hold the same characters, compared byte by byte.
fn str_is(s: &str, word: &str) -> (same: bool)
    ensures
        same == (s@ == word@),
{
    let bytes = s.as_bytes();
    let expected = word.as_bytes();
    let mut same = bytes.len() == expected.len();
    let mut i: usize = 0;
    while same && i < bytes.len()
        invariant
            bytes@ == s.spec_bytes(),
            expected@ == word.spec_bytes(),
            same ==> bytes.len() == expected.len(),
            same ==> forall|j: int| 0 <= j < i ==> bytes@[j] == expected@[j],
            !same ==> bytes@ != expected@,
            i <= bytes.len(),
        decreases bytes.len() - i,
    {
        if bytes[i] != expected[i] {
            same = false;
        }
        i = i + 1;
    }
    proof {
        if same {
            assert(bytes@ =~= expected@);
        }
        vstd::utf8::encode_utf8_decode_utf8(s@);
        vstd::utf8::encode_utf8_decode_utf8(word@);
    }
    same
}

/// Whether a stereo block fits: both inputs equally long, and both outputs at
/// least that long.
pub fn buffers_fit(left_len: usize, right_len: usize, out_l_len: usize, out_r_len: usize) -> (fit: bool)
    ensures
        fit == (right_len == left_len && out_l_len >= left_len && out_r_len >= left_len),
{
    !(right_len != left_len || out_l_len < left_len || out_r_len < left_len)
}

/// Push one stereo sample into the lowpass history: the left taps are slots
/// 0..5 and the right taps slots 5..10. Each side first takes the new sample
/// as its newest tap and then shifts down by one, dropping its oldest tap, so
/// that the newest sample ends up in the last two taps of its side.
pub fn shift_lowpass_history<S: Copy>(history: &mut [S; 10], left: S, right: S)
    ensures
        final(history)@ == seq![
            old(history)@[1], old(history)@[2], old(history)@[3], left, left,
            old(history)@[6], old(history)@[7], old(history)@[8], right, right,
        ],
{
    history[4] = left;
    history[9] = right;
    let ghost mid = history@;
    let mut i: usize = 0;
    while i < 4
        invariant
            0 <= i <= 4,
            mid == old(history)@.update(4, left).update(9, right),
            history@.len() == 10,
            forall|j: int| 0 <= j < i ==> history@[j] == mid[j + 1],
            forall|j: int| 5 <= j < 5 + i ==> history@[j] == mid[j + 1],
            forall|j: int| i <= j < 5 ==> history@[j] == mid[j],
            forall|j: int| 5 + i <= j < 10 ==> history@[j] == mid[j],
        decreases 4 - i,
    {
        let a = history[i + 1];
        history[i] = a;
        let b = history[i + 6];
        history[i + 5] = b;
        i = i + 1;
    }
    proof {
        assert(history@[0] == old(history)@[1]);
        assert(history@[3] == left);
        assert(history@[4] == left);
        assert(history@[8] == right);
        assert(history@[9] == right);
        assert(history@ =~= seq![
            old(history)@[1], old(history)@[2], old(history)@[3], left, left,
            old(history)@[6], old(history)@[7], old(history)@[8], right, right,
        ]);
    }
}

} // verus!

# goldsrc_dsp

A GoldSrc-style reverb / echo / stereo-widening effect chain.

- `src/` is the verified library. Verus cannot reason about floating point, so
  it holds the parts of the chain that move samples rather than compute them:
  - `delay_line`: the circular delay buffer, generic over the sample type, with
    its write and read heads, read-head crossfade, wobble triggers and
    modulation timer; proofs that a sample comes back exactly `delay` steps
    after it was written, that advancing keeps the head distance, and that a
    crossfade lands the read head on the crossfade head.
  - `modulation`: the countdown timers (proved periodic) and the random byte
    draw behind the read-head wobble.
  - `reverb`: room presets' index and names, clip modes, block-size check and
    the lowpass history shift.
  - `frames`: splitting interleaved WAV frames into left and right tracks.
- `app/` is the `f32` signal path (`GoldSrcReverb`, presets, soft clipper) and
  the command-line WAV renderer built on the library.

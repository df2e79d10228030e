//! Circular delay buffer with a crossfading read head and a modulation timer.
//!
//! The buffer holds samples of any copyable type `S`; the line itself only moves
//! samples and heads around, so every arithmetic step on sample values is left to
//! the caller.

use crate::modulation::{countdown, countdown_next, draw_byte};
use rand::rngs::StdRng;
use vstd::arithmetic::div_mod::{
    lemma_add_mod_noop_right, lemma_mod_add_multiples_vanish, lemma_mod_equivalence, lemma_small_mod,
};
use vstd::prelude::*;

verus! {

/// Length, in samples, of the read-head crossfade of a reverb tap.
pub const REVERB_XFADE: i32 = 32;

/// Length, in samples, of the read-head crossfade of the stereo widener.
pub const STEREO_XFADE: i32 = 128;

/// Mathematical model of a [`DelayLine`]: the ring contents and the heads.
pub struct DelayState<S> {
    pub sample_rate: u32,
    pub samples: Seq<S>,
    pub size: int,
    pub input: int,
    pub output: int,
    pub crossfade_head: int,
    pub xfade: int,
    pub delay: int,
    pub feedback: S,
    pub lp_enabled: bool,
    pub lp0: S,
    pub lp1: S,
    pub lp2: S,
    pub modulation: int,
    pub mod_cur: int,
}

impl<S> DelayState<S> {
    pub open spec fn len(self) -> int {
        self.samples.len() as int
    }

    /// A non-empty ring with every head inside it, a crossfade counter within the
    /// longest crossfade and a modulation timer between zero and its period.
    pub open spec fn wf(self) -> bool {
        &&& self.size == self.len()
        &&& self.len() > 0
        &&& 0 <= self.input < self.len()
        &&& 0 <= self.output < self.len()
        &&& 0 <= self.crossfade_head < self.len()
        &&& 0 <= self.xfade <= STEREO_XFADE
        &&& 0 <= self.mod_cur <= self.modulation
    }

    /// Both heads advanced by one slot, wrapping at the end of the ring.
    pub open spec fn advanced(self) -> Self {
        DelayState { input: (self.input + 1) % self.len(), output: (self.output + 1) % self.len(), ..self }
    }

    /// The sample under the read head.
    pub open spec fn delayed(self) -> S {
        self.samples[self.output]
    }

    /// `s` stored under the write head.
    pub open spec fn written(self, s: S) -> Self {
        DelayState { samples: self.samples.update(self.input, s), ..self }
    }

    /// One sample of a plain delay: store `s` under the write head, then advance.
    pub open spec fn stepped(self, s: S) -> Self {
        self.written(s).advanced()
    }

    /// The line after feeding it `vals`, one sample per step, in order.
    pub open spec fn fed(self, vals: Seq<S>) -> Self
        decreases vals.len(),
    {
        if vals.len() == 0 {
            self
        } else {
            self.fed(vals.drop_last()).stepped(vals.last())
        }
    }

    /// How many slots the read head trails the write head.
    pub open spec fn gap(self) -> int {
        (self.input - self.output) % self.len()
    }

    /// Where the read head goes for a delay of `delay` samples: that many slots
    /// behind the write head, or onto it when the delay does not fit in the ring.
    pub open spec fn read_head_for(self, delay: int) -> int {
        if delay <= self.len() {
            (self.input + self.len() - delay) % self.len()
        } else {
            self.input
        }
    }

    /// The modulation timer after one tick.
    pub open spec fn ticked(self) -> Self {
        DelayState { mod_cur: countdown_next(self.mod_cur, self.modulation), ..self }
    }

    /// The modulation timer after `k` ticks.
    pub open spec fn ticked_times(self, k: nat) -> Self
        decreases k,
    {
        if k == 0 {
            self
        } else {
            self.ticked_times((k - 1) as nat).ticked()
        }
    }

    /// A modulated line whose timer has run down asks for a read-head wobble.
    pub open spec fn wobble_due(self) -> bool {
        self.mod_cur == 0 && self.modulation > 0
    }

    /// A crossfade of `length` samples towards the slot `offset` ahead of the read head.
    pub open spec fn crossfade_started(self, offset: int, length: int) -> Self {
        DelayState { crossfade_head: (self.output + offset) % self.len(), xfade: length, ..self }
    }

    /// How far a reverb wobble jumps for a raw offset: within one delay length.
    pub open spec fn reverb_offset(self, raw: int) -> int {
        raw % (if self.delay >= 1 { self.delay } else { 1 })
    }

    /// How far a stereo wobble jumps for a random byte: `byte / 512` of the delay.
    pub open spec fn stereo_offset(self, byte: int) -> int {
        (byte * self.delay) / 512
    }

    /// One crossfade sample: the crossfade head advances, the counter runs down,
    /// and when it reaches zero the read head jumps onto the crossfade head.
    pub open spec fn crossfade_stepped(self) -> Self {
        if self.xfade == 0 {
            self
        } else {
            let head = (self.crossfade_head + 1) % self.len();
            DelayState {
                crossfade_head: head,
                xfade: self.xfade - 1,
                output: if self.xfade == 1 { head } else { self.output },
                ..self
            }
        }
    }

    /// The line after `k` crossfade samples.
    pub open spec fn crossfaded(self, k: nat) -> Self
        decreases k,
    {
        if k == 0 {
            self
        } else {
            self.crossfaded((k - 1) as nat).crossfade_stepped()
        }
    }
}

/// Circular delay buffer.
#[derive(Clone)]
pub struct DelayLine<S> {
    pub sample_rate: u32,
    pub buffer: Vec<S>,
    pub buffer_size: usize,
    // Circular buffer pointers
    pub input_pos: usize,
    pub output_pos: usize,
    // Crossfade state
    pub output_pos_xf: usize,
    pub xfade: i32,
    // Delay settings
    pub delay_samples: usize,
    pub feedback: S,
    // Lowpass filter
    pub lp_enabled: bool,
    pub lp0: S,
    pub lp1: S,
    pub lp2: S,
    // Modulation
    pub modulation: i32,
    pub mod_cur: i32,
}

impl<S> View for DelayLine<S> {
    type V = DelayState<S>;

    open spec fn view(&self) -> DelayState<S> {
        DelayState {
            sample_rate: self.sample_rate,
            samples: self.buffer@,
            size: self.buffer_size as int,
            input: self.input_pos as int,
            output: self.output_pos as int,
            crossfade_head: self.output_pos_xf as int,
            xfade: self.xfade as int,
            delay: self.delay_samples as int,
            feedback: self.feedback,
            lp_enabled: self.lp_enabled,
            lp0: self.lp0,
            lp1: self.lp1,
            lp2: self.lp2,
            modulation: self.modulation as int,
            mod_cur: self.mod_cur as int,
        }
    }
}

impl<S: Copy> DelayLine<S> {
    /// The ring is non-empty, its recorded size is its length, every head points
    /// into it, the crossfade counter is within the longest crossfade and the
    /// modulation timer lies between zero and its period.
    pub open spec fn wf(&self) -> bool {
        self@.wf()
    }

    /// The ring is non-empty, its recorded size is its length, and the write and
    /// read heads point into it.
    pub open spec fn heads_in_ring(&self) -> bool {
        &&& self.buffer@.len() == self.buffer_size
        &&& self.buffer_size > 0
        &&& self.input_pos < self.buffer_size
        &&& self.output_pos < self.buffer_size
    }

    /// Create a delay line able to hold `max_delay_samples` samples of delay:
    /// a ring of `max_delay_samples + 1` slots, all `zero`.
    pub fn new(max_delay_samples: usize, sample_rate: u32, zero: S) -> (line: Self)
        requires
            max_delay_samples < usize::MAX,
        ensures
            line.wf(),
            line@ == (DelayState {
                sample_rate,
                samples: Seq::new((max_delay_samples + 1) as nat, |i: int| zero),
                size: max_delay_samples + 1,
                input: 0,
                output: 0,
                crossfade_head: 0,
                xfade: 0,
                delay: 0,
                feedback: zero,
                lp_enabled: true,
                lp0: zero,
                lp1: zero,
                lp2: zero,
                modulation: 0,
                mod_cur: 0,
            }),
    {
        let buffer_size = max_delay_samples + 1;
        let mut buffer: Vec<S> = Vec::new();
        while buffer.len() < buffer_size
            invariant
                buffer.len() <= buffer_size,
                forall|i: int| 0 <= i < buffer.len() ==> buffer@[i] == zero,
            decreases buffer_size - buffer.len(),
        {
            buffer.push(zero);
        }
        proof {
            assert(buffer@ =~= Seq::new(buffer_size as nat, |i: int| zero));
        }
        DelayLine {
            sample_rate,
            buffer,
            buffer_size,
            input_pos: 0,
            output_pos: 0,
            output_pos_xf: 0,
            xfade: 0,
            delay_samples: 0,
            feedback: zero,
            lp_enabled: true,
            lp0: zero,
            lp1: zero,
            lp2: zero,
            modulation: 0,
            mod_cur: 0,
        }
    }

    /// Advance both heads by one sample.
    pub fn move_pointer(&mut self)
        requires
            old(self).heads_in_ring(),
        ensures
            final(self).heads_in_ring(),
            old(self).wf() ==> final(self).wf(),
            final(self)@ == old(self)@.advanced(),
    {
        self.input_pos = (self.input_pos + 1) % self.buffer_size;
        self.output_pos = (self.output_pos + 1) % self.buffer_size;
    }

    /// Clear the buffer and the filter state: every slot and every lowpass tap
    /// becomes `zero`, and any crossfade in progress is dropped.
    pub fn reset(&mut self, zero: S)
        ensures
            old(self).wf() ==> final(self).wf(),
            final(self)@ == (DelayState {
                samples: Seq::new(old(self)@.len() as nat, |i: int| zero),
                xfade: 0,
                lp0: zero,
                lp1: zero,
                lp2: zero,
                ..old(self)@
            }),
    {
        let n = self.buffer.len();
        let mut i: usize = 0;
        while i < n
            invariant
                self.buffer.len() == n,
                n == old(self).buffer@.len(),
                i <= n,
                forall|j: int| 0 <= j < i ==> self.buffer@[j] == zero,
                self.buffer_size == old(self).buffer_size,
                self@ == (DelayState { samples: self.buffer@, ..old(self)@ }),
            decreases n - i,
        {
            self.buffer.set(i, zero);
            i = i + 1;
        }
        self.lp0 = zero;
        self.lp1 = zero;
        self.lp2 = zero;
        self.xfade = 0;
        proof {
            assert(self.buffer@ =~= Seq::new(n as nat, |i: int| zero));
        }
    }

    /// The sample under the read head.
    pub fn read_output(&self) -> (s: S)
        requires
            self.output_pos < self.buffer@.len(),
        ensures
            s == self@.delayed(),
    {
        self.buffer[self.output_pos]
    }

    /// Store `s` under the write head.
    pub fn write_input(&mut self, s: S)
        requires
            old(self).input_pos < old(self).buffer@.len(),
        ensures
            old(self).wf() ==> final(self).wf(),
            final(self)@ == old(self)@.written(s),
    {
        let pos = self.input_pos;
        self.buffer.set(pos, s);
    }

    /// One tick of the modulation timer.
    pub fn tick_modulation(&mut self)
        requires
            old(self).wf(),
        ensures
            final(self).wf(),
            final(self)@ == old(self)@.ticked(),
    {
        self.mod_cur = countdown(self.mod_cur, self.modulation);
    }

    /// One sample of the read-head crossfade. With no crossfade in progress
    /// nothing changes and `None` comes back; otherwise the result is the sample
    /// under the crossfade head together with the crossfade counter before this
    /// step, which weighs the old read head against the crossfade head.
    pub fn crossfade_step(&mut self) -> (r: Option<(S, i32)>)
        requires
            old(self).wf(),
        ensures
            final(self).wf(),
            final(self)@ == old(self)@.crossfade_stepped(),
            old(self).xfade == 0 ==> final(self)@ == old(self)@,
            r == (if old(self).xfade == 0 {
                None
            } else {
                Some((old(self)@.samples[old(self)@.crossfade_head], old(self).xfade))
            }),
    {
        if self.xfade == 0 {
            return None;
        }
        let weight = self.xfade;
        let sample = self.buffer[self.output_pos_xf];
        self.output_pos_xf = (self.output_pos_xf + 1) % self.buffer_size;
        self.xfade = self.xfade - 1;
        if self.xfade == 0 {
            self.output_pos = self.output_pos_xf;
        }
        Some((sample, weight))
    }

    /// Start a crossfade of `length` samples towards the slot `offset` ahead of the read head.
    fn start_crossfade(&mut self, offset: usize, length: i32)
        requires
            old(self).wf(),
            0 < length <= STEREO_XFADE,
        ensures
            final(self).wf(),
            final(self)@ == old(self)@.crossfade_started(offset as int, length as int),
    {
        let size = self.buffer_size;
        let step = offset % size;
        let head = if self.output_pos >= size - step {
            self.output_pos - (size - step)
        } else {
            self.output_pos + step
        };
        proof {
            let o = self.output_pos as int;
            let m = size as int;
            vstd::arithmetic::div_mod::lemma_add_mod_noop_right(o, offset as int, m);
            if o >= m - step {
                vstd::arithmetic::div_mod::lemma_mod_add_multiples_vanish(o + step - m, m);
                vstd::arithmetic::div_mod::lemma_small_mod((o + step - m) as nat, m as nat);
            } else {
                vstd::arithmetic::div_mod::lemma_small_mod((o + step) as nat, m as nat);
            }
        }
        self.output_pos_xf = head;
        self.xfade = length;
    }

    /// For a reverb tap: when the wobble is due, draw the random byte that
    /// scales its jump; otherwise draw nothing.
    pub fn reverb_wobble_byte(&self, rng: &mut StdRng) -> (r: Option<u32>)
        requires
            self.wf(),
        ensures
            r is Some <==> self@.wobble_due(),
            r is Some <==> (self.mod_cur == 0 && self.modulation > 0),
            r matches Some(b) ==> b <= 255,
    {
        if self.mod_cur == 0 && self.modulation > 0 {
            Some(draw_byte(rng))
        } else {
            None
        }
    }

    /// Start a reverb-tap wobble: a crossfade of `REVERB_XFADE` samples towards
    /// the slot `raw_offset mod max(delay_samples, 1)` ahead of the read head.
    pub fn start_reverb_crossfade(&mut self, raw_offset: usize)
        requires
            old(self).wf(),
        ensures
            final(self).wf(),
            final(self)@ == old(self)@.crossfade_started(
                old(self)@.reverb_offset(raw_offset as int),
                REVERB_XFADE as int,
            ),
    {
        let span = if self.delay_samples >= 1 { self.delay_samples } else { 1 };
        self.start_crossfade(raw_offset % span, REVERB_XFADE);
    }

    /// For the stereo widener: when no crossfade is running and the wobble is
    /// due, draw a random byte and start a crossfade of `STEREO_XFADE` samples
    /// towards the slot `byte * delay_samples / 512` ahead of the read head; the
    /// drawn byte comes back. Otherwise nothing changes and `None` comes back.
    pub fn trigger_stereo_wobble(&mut self, rng: &mut StdRng) -> (r: Option<u32>)
        requires
            old(self).wf(),
            old(self).xfade == 0 && old(self)@.wobble_due() ==> old(self).delay_samples * 255 <= usize::MAX,
        ensures
            final(self).wf(),
            r is Some <==> (old(self).xfade == 0 && old(self)@.wobble_due()),
            r is Some <==> (old(self).xfade == 0 && old(self).mod_cur == 0 && old(self).modulation > 0),
            r matches Some(b) ==> b <= 255 && final(self)@ == old(self)@.crossfade_started(
                old(self)@.stereo_offset(b as int),
                STEREO_XFADE as int,
            ),
            r is None ==> final(self)@ == old(self)@,
    {
        let mut drawn: Option<u32> = None;
        if self.xfade == 0 && self.mod_cur == 0 && self.modulation > 0 {
            let b = draw_byte(rng);
            proof {
                vstd::arithmetic::mul::lemma_mul_inequality(b as int, 255, self.delay_samples as int);
                vstd::arithmetic::mul::lemma_mul_is_commutative(255, self.delay_samples as int);
            }
            let offset = (b as usize * self.delay_samples) / 512;
            self.start_crossfade(offset, STEREO_XFADE);
            drawn = Some(b);
        }
        let head = self.output_pos_xf;
        proof {
            vstd::arithmetic::div_mod::lemma_small_mod(head as nat, self.buffer_size as nat);
        }
        self.output_pos_xf = head % self.buffer_size;
        drawn
    }

    /// Move the read head `delay` slots behind the write head, or onto it when
    /// the delay does not fit in the ring.
    fn place_read_head(&mut self, delay: usize)
        requires
            old(self).wf(),
        ensures
            final(self).wf(),
            final(self)@ == (DelayState { output: old(self)@.read_head_for(delay as int), ..old(self)@ }),
    {
        let size = self.buffer_size;
        if delay <= size {
            let back = size - delay;
            let head = if self.input_pos >= delay {
                self.input_pos - delay
            } else {
                self.input_pos + back
            };
            proof {
                let i = self.input_pos as int;
                let m = size as int;
                let d = delay as int;
                if i >= d {
                    vstd::arithmetic::div_mod::lemma_mod_add_multiples_vanish(i - d, m);
                    vstd::arithmetic::div_mod::lemma_small_mod((i - d) as nat, m as nat);
                } else {
                    vstd::arithmetic::div_mod::lemma_small_mod((i + m - d) as nat, m as nat);
                }
            }
            self.output_pos = head;
        } else {
            self.output_pos = self.input_pos;
        }
    }

    /// Retune a reverb tap without clearing its buffer, so the tail decays under
    /// the new settings: new delay, feedback, lowpass switch and modulation
    /// period, the timer reloaded, the read head placed for the new delay and
    /// any crossfade dropped.
    pub fn tune_reverb_tap(&mut self, delay_samples: usize, feedback: S, lp_enabled: bool, modulation: i32)
        requires
            old(self).wf(),
            modulation >= 0,
        ensures
            final(self).wf(),
            final(self)@ == (DelayState {
                delay: delay_samples as int,
                feedback,
                lp_enabled,
                modulation: modulation as int,
                mod_cur: modulation as int,
                output: old(self)@.read_head_for(delay_samples as int),
                xfade: 0,
                ..old(self)@
            }),
    {
        self.delay_samples = delay_samples;
        self.feedback = feedback;
        self.lp_enabled = lp_enabled;
        self.modulation = modulation;
        self.mod_cur = self.modulation;
        self.place_read_head(delay_samples);
        self.xfade = 0;
    }

    /// Retune the mono echo without clearing its buffer: new delay, feedback and
    /// lowpass switch, the read head placed for the new delay.
    pub fn tune_echo(&mut self, delay_samples: usize, feedback: S, lp_enabled: bool)
        requires
            old(self).wf(),
        ensures
            final(self).wf(),
            final(self)@ == (DelayState {
                delay: delay_samples as int,
                feedback,
                lp_enabled,
                output: old(self)@.read_head_for(delay_samples as int),
                ..old(self)@
            }),
    {
        self.delay_samples = delay_samples;
        self.feedback = feedback;
        self.lp_enabled = lp_enabled;
        self.place_read_head(delay_samples);
    }

    /// Retune the stereo widener without clearing its buffer: new delay, no
    /// modulation, no crossfade, the read head placed for the new delay.
    pub fn tune_widener(&mut self, delay_samples: usize)
        requires
            old(self).wf(),
        ensures
            final(self).wf(),
            final(self)@ == (DelayState {
                delay: delay_samples as int,
                modulation: 0,
                mod_cur: 0,
                xfade: 0,
                output: old(self)@.read_head_for(delay_samples as int),
                ..old(self)@
            }),
    {
        self.delay_samples = delay_samples;
        self.modulation = 0;
        self.mod_cur = 0;
        self.xfade = 0;
        self.place_read_head(delay_samples);
    }
}

/// Advancing the heads keeps the read head the same number of slots behind the
/// write head.
pub proof fn lemma_advance_keeps_gap<S>(st: DelayState<S>)
    requires
        st.wf(),
    ensures
        st.advanced().wf(),
        st.advanced().gap() == st.gap(),
{
    let m = st.len();
    lemma_add_mod_noop_right(1, st.input, m);
    lemma_add_mod_noop_right(1, st.output, m);
    let i2 = (st.input + 1) % m;
    let o2 = (st.output + 1) % m;
    // Both sides are the same residue: (i2 - o2) and (input - output) differ by a multiple of m.
    lemma_mod_equivalence(i2, st.input + 1, m);
    lemma_mod_equivalence(o2, st.output + 1, m);
    lemma_mod_equivalence(i2 - o2, st.input - st.output, m);
    lemma_residue_congruent(st.input + 1, m);
    lemma_residue_congruent(st.output + 1, m);
    lemma_mod_diff_of_multiples(i2 - (st.input + 1), o2 - (st.output + 1), m);
    assert((i2 - o2) - (st.input - st.output) == (i2 - (st.input + 1)) - (o2 - (st.output + 1)));
}

proof fn lemma_residue_congruent(x: int, m: int)
    requires
        m > 0,
    ensures
        (x % m - x) % m == 0,
{
    vstd::arithmetic::div_mod::lemma_fundamental_div_mod(x, m);
    vstd::arithmetic::mul::lemma_mul_unary_negation(m, x / m);
    vstd::arithmetic::div_mod::lemma_mod_multiples_basic(-(x / m), m);
    vstd::arithmetic::mul::lemma_mul_is_commutative(m, -(x / m));
}

proof fn lemma_mod_diff_of_multiples(a: int, b: int, m: int)
    requires
        m > 0,
        a % m == 0,
        b % m == 0,
    ensures
        (a - b) % m == 0,
{
    vstd::arithmetic::div_mod::lemma_fundamental_div_mod(a, m);
    vstd::arithmetic::div_mod::lemma_fundamental_div_mod(b, m);
    vstd::arithmetic::mul::lemma_mul_is_distributive_sub(m, a / m, b / m);
    vstd::arithmetic::div_mod::lemma_mod_multiples_basic(a / m - b / m, m);
    vstd::arithmetic::mul::lemma_mul_is_commutative(m, a / m - b / m);
}

/// Placing the read head for a delay that fits in the ring leaves it exactly
/// that many slots (modulo the ring size) behind the write head.
pub proof fn lemma_read_head_sets_gap<S>(st: DelayState<S>, delay: int)
    requires
        st.wf(),
        0 <= delay <= st.len(),
    ensures
        0 <= st.read_head_for(delay) < st.len(),
        (DelayState { output: st.read_head_for(delay), ..st }).gap() == delay % st.len(),
{
    let m = st.len();
    let o = st.read_head_for(delay);
    let x = st.input + m - delay;
    assert(o == x % m);
    lemma_mod_equivalence(o, x, m);
    lemma_residue_congruent(x, m);
    // input - o == delay - m + (x - o)
    lemma_mod_equivalence(st.input - o, delay, m);
    assert((st.input - o) - delay == (-m) - (o - x));
    vstd::arithmetic::div_mod::lemma_mod_multiples_basic(-1, m);
    assert(-1 * m == -m);
    lemma_mod_diff_of_multiples(-m, o - x, m);
}

/// Contents and heads of a plain delay after it has been fed `vals`: both heads
/// have moved on by `vals.len()` slots, and the last `len` samples fed sit in
/// the slots just behind the write head.
pub proof fn lemma_fed_contents<S>(st: DelayState<S>, vals: Seq<S>)
    requires
        st.wf(),
    ensures
        st.fed(vals).len() == st.len(),
        st.fed(vals).input == (st.input + vals.len()) % st.len(),
        st.fed(vals).output == (st.output + vals.len()) % st.len(),
        forall|k: int|
            vals.len() - st.len() <= k < vals.len() && 0 <= k ==> st.fed(vals).samples[(st.input + k)
                % st.len()] == #[trigger] vals[k],
    decreases vals.len(),
{
    let m = st.len();
    let n = vals.len() as int;
    if n == 0 {
        lemma_small_mod(st.input as nat, m as nat);
        lemma_small_mod(st.output as nat, m as nat);
    } else {
        let prev = vals.drop_last();
        lemma_fed_contents(st, prev);
        let t = st.fed(prev);
        let t2 = st.fed(vals);
        assert(t2 == t.stepped(vals.last()));
        let slot = (st.input + (n - 1)) % m;
        assert(t.input == slot);
        lemma_add_mod_noop_right(1, st.input + (n - 1), m);
        lemma_add_mod_noop_right(1, st.output + (n - 1), m);
        assert(t2.input == (st.input + n) % m);
        assert(t2.output == (st.output + n) % m);
        assert forall|k: int| n - m <= k < n && 0 <= k implies t2.samples[(st.input + k) % m] == #[trigger] vals[k] by {
            if k == n - 1 {
                assert(vals[k] == vals.last());
            } else {
                assert(prev[k] == vals[k]);
                assert(t.samples[(st.input + k) % m] == prev[k]);
                lemma_mod_equivalence(st.input + (n - 1), st.input + k, m);
                lemma_small_mod((n - 1 - k) as nat, m as nat);
                assert((st.input + k) % m != slot);
            }
        }
    }
}

/// A delay line whose read head trails the write head by `delay` slots
/// (`1 <= delay <= len`) hands back, once fed at least `delay` samples, the
/// sample that went in `delay` steps earlier.
pub proof fn lemma_delay_echo<S>(st: DelayState<S>, delay: int, vals: Seq<S>)
    requires
        st.wf(),
        1 <= delay <= st.len(),
        st.output == st.read_head_for(delay),
        delay <= vals.len(),
    ensures
        st.fed(vals).delayed() == vals[vals.len() - delay],
{
    let m = st.len();
    let n = vals.len() as int;
    lemma_fed_contents(st, vals);
    let x = st.input + m - delay;
    assert(st.output == x % m);
    lemma_add_mod_noop_right(n, x, m);
    assert(st.fed(vals).output == (n + x) % m);
    lemma_mod_add_multiples_vanish(st.input + (n - delay), m);
    assert(n + x == m + (st.input + (n - delay)));
    assert(st.fed(vals).output == (st.input + (n - delay)) % m);
}

/// A crossfade of `xfade` samples runs down one step per sample with the
/// crossfade head advancing alongside; the read head stays put until the last
/// step, which lands it on the crossfade head, `xfade` slots on from where that
/// head started. Nothing else changes.
pub proof fn lemma_crossfade_completes<S>(st: DelayState<S>, k: nat)
    requires
        st.wf(),
        k <= st.xfade,
    ensures
        st.crossfaded(k) == (DelayState {
            crossfade_head: (st.crossfade_head + k) % st.len(),
            xfade: st.xfade - k,
            output: if k > 0 && k == st.xfade {
                (st.crossfade_head + k) % st.len()
            } else {
                st.output
            },
            ..st
        }),
    decreases k,
{
    let m = st.len();
    if k == 0 {
        lemma_small_mod(st.crossfade_head as nat, m as nat);
    } else {
        lemma_crossfade_completes(st, (k - 1) as nat);
        lemma_add_mod_noop_right(1, st.crossfade_head + (k - 1), m);
    }
}

/// A wobble never jumps the crossfade head by a full delay: a reverb tap jumps
/// less than `max(delay, 1)` slots, the stereo widener at most half its delay.
pub proof fn lemma_wobble_within_delay<S>(st: DelayState<S>, raw: int, byte: int)
    requires
        st.wf(),
        st.delay >= 0,
        raw >= 0,
        0 <= byte <= 255,
    ensures
        0 <= st.reverb_offset(raw) < (if st.delay >= 1 { st.delay } else { 1 }),
        0 <= st.stereo_offset(byte) <= st.delay / 2,
{
    vstd::arithmetic::mul::lemma_mul_inequality(byte, 256, st.delay);
    vstd::arithmetic::mul::lemma_mul_nonnegative(byte, st.delay);
    vstd::arithmetic::div_mod::lemma_div_is_ordered(byte * st.delay, 256 * st.delay, 512);
    assert(256 * st.delay / 512 == st.delay / 2) by (nonlinear_arith)
        requires st.delay >= 0;
    vstd::arithmetic::div_mod::lemma_div_pos_is_pos(byte * st.delay, 512);
}

/// Advancing moves the write and read heads one slot on, wrapping at the end
/// of the ring, and leaves everything else alone: putting the two heads back
/// gives the line as it was.
pub proof fn lemma_advance_moves_only_heads<S>(st: DelayState<S>)
    requires
        st.wf(),
    ensures
        0 <= st.advanced().input < st.len(),
        0 <= st.advanced().output < st.len(),
        st.advanced().input == (if st.input + 1 == st.len() { 0 } else { st.input + 1 }),
        st.advanced().output == (if st.output + 1 == st.len() { 0 } else { st.output + 1 }),
        (DelayState { input: st.input, output: st.output, ..st.advanced() }) == st,
        st.advanced().crossfade_head == st.crossfade_head,
        st.advanced().samples == st.samples,
{
    let m = st.len();
    if st.input + 1 == m {
        vstd::arithmetic::div_mod::lemma_mod_self_0(m);
    } else {
        lemma_small_mod((st.input + 1) as nat, m as nat);
    }
    if st.output + 1 == m {
        vstd::arithmetic::div_mod::lemma_mod_self_0(m);
    } else {
        lemma_small_mod((st.output + 1) as nat, m as nat);
    }
}

/// With no crossfade running, a crossfade step changes nothing: the read head,
/// and with it the distance between the heads, stays where it was.
pub proof fn lemma_idle_crossfade_step_changes_nothing<S>(st: DelayState<S>)
    requires
        st.wf(),
        st.xfade == 0,
    ensures
        st.crossfade_stepped() == st,
        st.crossfade_stepped().output == st.output,
        st.crossfade_stepped().gap() == st.gap(),
{
}

/// Starting a crossfade `offset` slots ahead puts the crossfade head inside the
/// ring at a slot congruent to read head + `offset` modulo the ring size (so a
/// jump past the end wraps round to the start), sets the counter to `length`,
/// and touches nothing else.
pub proof fn lemma_crossfade_start_wraps<S>(st: DelayState<S>, offset: int, length: int)
    requires
        st.wf(),
        offset >= 0,
    ensures
        0 <= st.crossfade_started(offset, length).crossfade_head < st.len(),
        (st.crossfade_started(offset, length).crossfade_head - (st.output + offset)) % st.len() == 0,
        st.output + offset < st.len() ==> st.crossfade_started(offset, length).crossfade_head == st.output
            + offset,
        st.len() <= st.output + offset < 2 * st.len() ==> st.crossfade_started(offset, length).crossfade_head
            == st.output + offset - st.len(),
        st.crossfade_started(offset, length).xfade == length,
        (DelayState {
            crossfade_head: st.crossfade_head,
            xfade: st.xfade,
            ..st.crossfade_started(offset, length)
        }) == st,
{
    let m = st.len();
    let x = st.output + offset;
    lemma_residue_congruent(x, m);
    if x < m {
        lemma_small_mod(x as nat, m as nat);
    } else if x < 2 * m {
        lemma_mod_add_multiples_vanish(x - m, m);
        lemma_small_mod((x - m) as nat, m as nat);
    }
}

/// A reverb wobble jumps the crossfade head exactly `raw mod max(delay, 1)`
/// slots ahead of the read head, counted round the ring; when the delay fits in
/// the ring that is the distance from read head to crossfade head.
pub proof fn lemma_reverb_wobble_jump<S>(st: DelayState<S>, raw: int)
    requires
        st.wf(),
        raw >= 0,
        st.delay >= 0,
    ensures
        ({
            let span = if st.delay >= 1 { st.delay } else { 1 };
            let t = st.crossfade_started(st.reverb_offset(raw), REVERB_XFADE as int);
            &&& (t.crossfade_head - st.output - raw % span) % st.len() == 0
            &&& span <= st.len() ==> (t.crossfade_head - st.output) % st.len() == raw % span
            &&& t.xfade == REVERB_XFADE
        }),
{
    let span = if st.delay >= 1 { st.delay } else { 1 };
    let m = st.len();
    let j = raw % span;
    assert(st.reverb_offset(raw) == j);
    assert(0 <= j < span);
    lemma_crossfade_start_wraps(st, j, REVERB_XFADE as int);
    let h = st.crossfade_started(j, REVERB_XFADE as int).crossfade_head;
    assert((h - st.output - j) % m == 0);
    if span <= m {
        // h - output == j (mod m), and 0 <= j < m
        lemma_mod_equivalence(h - st.output, j, m);
        lemma_small_mod(j as nat, m as nat);
    }
}

/// A wobble is due exactly when the modulation timer stands at zero with a
/// positive period; so, counted from any state, a line modulated with period
/// `p > 0` asks for a draw on exactly one tick in every `p + 1`.
pub proof fn lemma_wobble_due_once_per_period<S>(st: DelayState<S>, k: nat)
    requires
        st.wf(),
    ensures
        st.wobble_due() <==> (st.mod_cur == 0 && st.modulation > 0),
        st.ticked_times(k).modulation == st.modulation,
        st.modulation > 0 ==> (st.ticked_times(k).wobble_due() <==> (st.mod_cur - k) % (st.modulation + 1)
            == 0),
    decreases k,
{
    lemma_ticked_times_is_countdown(st, k);
    crate::modulation::lemma_countdown_periodic(st.mod_cur, st.modulation, k);
}

proof fn lemma_ticked_times_is_countdown<S>(st: DelayState<S>, k: nat)
    ensures
        st.ticked_times(k) == (DelayState {
            mod_cur: crate::modulation::countdown_after(st.mod_cur, st.modulation, k),
            ..st
        }),
    decreases k,
{
    if k > 0 {
        lemma_ticked_times_is_countdown(st, (k - 1) as nat);
    }
}

/// Writing stores the sample in the write head's slot and nowhere else; the
/// ring keeps its length and every other part of the line is unchanged.
pub proof fn lemma_write_touches_one_slot<S>(st: DelayState<S>, s: S)
    requires
        st.wf(),
    ensures
        st.written(s).len() == st.len(),
        st.written(s).samples[st.input] == s,
        forall|i: int| 0 <= i < st.len() && i != st.input ==> st.written(s).samples[i] == st.samples[i],
        (DelayState { samples: st.samples, ..st.written(s) }) == st,
        st.written(s).wf(),
{
}

/// The read head placed for a delay longer than the ring sits on the write head;
/// for a delay that fits it sits inside the ring, `delay` slots back round it.
pub proof fn lemma_read_head_placement<S>(st: DelayState<S>, delay: int)
    requires
        st.wf(),
        delay >= 0,
    ensures
        delay > st.len() ==> st.read_head_for(delay) == st.input,
        delay <= st.len() && delay <= st.input ==> st.read_head_for(delay) == st.input - delay,
        delay <= st.len() && delay > st.input ==> st.read_head_for(delay) == st.input + st.len() - delay,
{
    let m = st.len();
    if delay <= m {
        if delay <= st.input {
            lemma_mod_add_multiples_vanish(st.input - delay, m);
            lemma_small_mod((st.input - delay) as nat, m as nat);
        } else {
            lemma_small_mod((st.input + m - delay) as nat, m as nat);
        }
    }
}

/// A stereo wobble jumps `byte * delay / 512` slots, rounded down: the largest
/// whole number of slots whose 512-fold does not pass `byte * delay`.
pub proof fn lemma_stereo_wobble_jump<S>(st: DelayState<S>, byte: int)
    requires
        st.wf(),
        st.delay >= 0,
        0 <= byte <= 255,
    ensures
        512 * st.stereo_offset(byte) <= byte * st.delay < 512 * (st.stereo_offset(byte) + 1),
        st.stereo_offset(byte) >= 0,
{
    vstd::arithmetic::mul::lemma_mul_nonnegative(byte, st.delay);
    vstd::arithmetic::div_mod::lemma_fundamental_div_mod(byte * st.delay, 512);
    vstd::arithmetic::div_mod::lemma_div_pos_is_pos(byte * st.delay, 512);
}

} // verus!

//! Output effects: soft saturation, echo, ring modulation and delayed fluctuation.
use vstd::prelude::*;
use crate::acoustic::{clamp, clamp_i32};
use crate::voice::VoiceSettings;

verus! {

/// Samples remembered by the echo: one more than the longest delay a voice accepts.
pub const ECHO_HISTORY: usize = 32768;

/// Samples remembered by the fluctuation: one more than the longest delay a voice accepts.
pub const FLUCTUATION_HISTORY: usize = 32768;

/// A delayed copy of the output mixed back in.
pub struct Echo {
    pub gain: i32,
    pub delay: usize,
    pub history: Vec<i16>,
    pub count: usize,
}

/// The echo's state as a value.
pub struct EchoState {
    pub gain: i32,
    pub delay: usize,
    pub history: Seq<i16>,
    pub count: usize,
}

impl View for Echo {
    type V = EchoState;

    open spec fn view(&self) -> EchoState {
        EchoState { gain: self.gain, delay: self.delay, history: self.history@, count: self.count }
    }
}

impl EchoState {
    /// The echo's output for a sample: the sample, plus the delayed sample times the
    /// gain over 256 once the delay has passed, clamped.
    pub open spec fn output(self, sample: i16) -> i32 {
        if self.count < self.delay {
            sample as i32
        } else {
            let old = self.history[((self.count - self.delay) % (ECHO_HISTORY as int))] as i32;
            clamp((sample as i32).wrapping_add(self.gain.wrapping_mul(old) >> 8) as int, -32768, 32764) as i32
        }
    }

    /// The echo after it has recorded a sample.
    pub open spec fn next(self, sample: i16) -> EchoState {
        EchoState {
            history: self.history.update((self.count as int) % (ECHO_HISTORY as int), sample),
            count: self.count.wrapping_add(1),
            ..self
        }
    }
}

impl EchoState {
    /// A silent echo that has recorded nothing yet.
    pub open spec fn fresh(gain: i32, delay: usize) -> EchoState {
        EchoState { gain, delay, history: Seq::new(ECHO_HISTORY as nat, |i: int| 0i16), count: 0 }
    }

    /// The echo after it has recorded each of `inputs` in turn.
    pub open spec fn fed(self, inputs: Seq<i16>) -> EchoState
        decreases inputs.len(),
    {
        if inputs.len() == 0 {
            self
        } else {
            self.fed(inputs.drop_last()).next(inputs.last())
        }
    }
}

/// The `n`-th output of an echo fed with `inputs`: the input, plus the input
/// `delay` samples earlier times the gain over 256 once there is one, clamped.
pub open spec fn echoed(gain: i32, delay: usize, inputs: Seq<i16>, n: int) -> i32 {
    if n < delay {
        inputs[n] as i32
    } else {
        let old = inputs[n - delay] as i32;
        clamp((inputs[n] as i32).wrapping_add(gain.wrapping_mul(old) >> 8) as int, -32768, 32764) as i32
    }
}

impl Echo {
    pub fn process(&mut self, sample: i16) -> (output: i32)
        requires
            old(self).history@.len() == ECHO_HISTORY,
        ensures
            output == old(self)@.output(sample),
            final(self)@ == old(self)@.next(sample),
    {
        let output: i32 = if self.count < self.delay {
            sample as i32
        } else {
            let old: i32 = self.history[(self.count - self.delay) % ECHO_HISTORY] as i32;
            clamp_i32((sample as i32).wrapping_add(self.gain.wrapping_mul(old) >> 8), -32768, 32764)
        };
        let slot = self.count % ECHO_HISTORY;
        self.history.set(slot, sample);
        self.count = self.count.wrapping_add(1);
        output
    }
}

/// A sine table lookup multiplied into the output.
pub struct RingModulation {
    pub increment: i64,
    pub count: i64,
    pub sine: [i16; 256],
}

impl RingModulation {
    /// The table index of the `count`-th sample.
    pub open spec fn index_of(increment: i64, count: i64) -> int {
        ((increment.wrapping_mul(count) >> 8) & 255) as int
    }

    /// The modulated sample after the counter has advanced.
    pub open spec fn output(&self, sample: i16) -> i32 {
        let count = self.count.wrapping_add(1);
        let sine = self.sine[Self::index_of(self.increment, count)] as i32;
        ((((sample as i32) * sine) as i32) >> 15) as i16 as i32
    }

    pub fn process(&mut self, sample: i16) -> (output: i32)
        ensures
            output == old(self).output(sample),
            final(self).count == old(self).count.wrapping_add(1),
            final(self).increment == old(self).increment,
            final(self).sine == old(self).sine,
    {
        self.count = self.count.wrapping_add(1);
        let phase: i64 = self.increment.wrapping_mul(self.count);
        assert(0 <= (phase >> 8) & 255 < 256) by (bit_vector);
        let index = ((phase >> 8) & 255) as usize;
        let sine: i32 = self.sine[index] as i32;
        assert(-0x4000_0000 <= (sample as i32) * sine <= 0x4000_0000) by (nonlinear_arith)
            requires
                -32768 <= sample <= 32767,
                -32768 <= sine <= 32767;
        ((((sample as i32) * sine) >> 15) as i16) as i32
    }
}

/// The high word of a Q16 product.
pub open spec fn multiply_word_half_spec(word: i32, half: i16) -> i32 {
    ((word as i64 * half as i64) as i64 >> 16) as i32
}

pub fn multiply_word_half(word: i32, half: i16) -> (result: i32)
    ensures
        result == multiply_word_half_spec(word, half),
{
    assert(-0x4000_0000_0000 <= word as i64 * half as i64 <= 0x4000_0000_0000) by (nonlinear_arith);
    ((word as i64 * half as i64) >> 16) as i32
}

/// A band-passed, delayed copy of the output that modulates later samples.
pub struct Fluctuation {
    pub depth: i16,
    pub delay: i16,
    pub state: [i32; 4],
    pub history: Vec<i32>,
    pub count: usize,
}

/// The fluctuation's state as a value.
pub struct FluctuationState {
    pub depth: i16,
    pub delay: i16,
    pub state: [i32; 4],
    pub history: Seq<i32>,
    pub count: usize,
}

impl View for Fluctuation {
    type V = FluctuationState;

    open spec fn view(&self) -> FluctuationState {
        FluctuationState {
            depth: self.depth,
            delay: self.delay,
            state: self.state,
            history: self.history@,
            count: self.count,
        }
    }
}

impl FluctuationState {
    /// The band-pass filter's output for a sample.
    pub open spec fn filtered(self, sample: i16) -> i32 {
        let input = (sample as i32) << 13;
        multiply_word_half_spec(self.state[0], 27574).wrapping_add(
            multiply_word_half_spec(self.state[1], -11407i16),
        ).wrapping_add(multiply_word_half_spec(input, 2488)).wrapping_add(
            multiply_word_half_spec(self.state[3], -2488i16),
        )
    }

    /// The delayed value that modulates the current sample.
    pub open spec fn delayed(self) -> i32 {
        if self.count >= self.delay as usize {
            self.history[((self.count - self.delay as usize) % (FLUCTUATION_HISTORY as int))]
        } else {
            0
        }
    }

    /// The output for a sample: the sample plus the delayed value over 4096, with the
    /// engine's asymmetric limits; a nonpositive delay passes samples through.
    pub open spec fn output(self, sample: i16) -> i32 {
        if self.delay <= 0 {
            sample as i32
        } else {
            let value = (sample as i32).wrapping_add(self.delayed() >> 12);
            if value > 32764 {
                32764
            } else if value < -32768 {
                -32767i32
            } else {
                value
            }
        }
    }

    /// The fluctuation after a sample.
    pub open spec fn next(self, sample: i16) -> FluctuationState {
        if self.delay <= 0 {
            self
        } else {
            let filtered = self.filtered(sample);
            let input = (sample as i32) << 13;
            FluctuationState {
                state: [filtered.wrapping_mul(4), self.state[0], input, self.state[2]],
                history: self.history.update(
                    (self.count as int) % (FLUCTUATION_HISTORY as int),
                    multiply_word_half_spec(filtered.wrapping_mul(2).wrapping_add(self.delayed()), self.depth).wrapping_shl(1),
                ),
                count: self.count.wrapping_add(1),
                ..self
            }
        }
    }
}

impl Fluctuation {
    pub fn process(&mut self, sample: i16) -> (output: i32)
        requires
            old(self).history@.len() == FLUCTUATION_HISTORY,
        ensures
            output == old(self)@.output(sample),
            final(self)@ == old(self)@.next(sample),
    {
        if self.delay <= 0 {
            return sample as i32;
        }
        let input: i32 = (sample as i32) << 13;
        let filtered: i32 = multiply_word_half(self.state[0], 27574).wrapping_add(
            multiply_word_half(self.state[1], -11407i16),
        ).wrapping_add(multiply_word_half(input, 2488)).wrapping_add(
            multiply_word_half(self.state[3], -2488i16),
        );
        self.state = [filtered.wrapping_mul(4), self.state[0], input, self.state[2]];
        let delay = self.delay as usize;
        let old: i32 = if self.count >= delay {
            self.history[(self.count - delay) % FLUCTUATION_HISTORY]
        } else {
            0
        };
        let slot = self.count % FLUCTUATION_HISTORY;
        self.history.set(
            slot,
            multiply_word_half(filtered.wrapping_mul(2).wrapping_add(old), self.depth).wrapping_shl(1),
        );
        let value: i32 = (sample as i32).wrapping_add(old >> 12);
        self.count = self.count.wrapping_add(1);
        if value > 32764 {
            32764
        } else if value < -32768 {
            -32767
        } else {
            value
        }
    }
}

/// Integer division rounding toward zero, as Rust's `/` does.
pub open spec fn truncating_div(numerator: int, denominator: int) -> int {
    if numerator >= 0 {
        numerator / denominator
    } else {
        -((-numerator) / denominator)
    }
}

/// Persistent output state, recreated for each utterance.
pub struct Effects {
    pub echo: Option<Echo>,
    pub ring: Option<RingModulation>,
    pub fluctuation: Option<Fluctuation>,
}

/// The effects' state as a value.
pub struct EffectsState {
    pub echo: Option<EchoState>,
    pub ring: Option<(i64, i64, [i16; 256])>,
    pub fluctuation: Option<FluctuationState>,
}

impl View for Effects {
    type V = EffectsState;

    open spec fn view(&self) -> EffectsState {
        EffectsState {
            echo: match self.echo {
                Some(e) => Some(e@),
                None => None,
            },
            ring: match self.ring {
                Some(r) => Some((r.increment, r.count, r.sine)),
                None => None,
            },
            fluctuation: match self.fluctuation {
                Some(f) => Some(f@),
                None => None,
            },
        }
    }
}

/// The output stage's soft saturation of a doubled sample.
pub open spec fn saturate(sample: i32) -> i32 {
    let doubled = sample * 2;
    if doubled > 27000 {
        let soft = 27000 + ((doubled - 27000) as i32 >> 1);
        if soft < 32767 {
            soft as i32
        } else {
            32767
        }
    } else if doubled < -27000 {
        let soft = -27000 + ((doubled + 27000) as i32 >> 1);
        if soft > -32767 {
            soft as i32
        } else {
            -32767i32
        }
    } else {
        doubled as i32
    }
}

impl EffectsState {
    /// The output for one sample.
    pub open spec fn output(self, sample: i32) -> i32 {
        let s1 = saturate(sample);
        let s2 = match self.echo {
            Some(e) => e.output(s1 as i16),
            None => s1,
        };
        let s3 = match self.ring {
            Some((increment, count, sine)) => {
                let ring = RingModulation { increment, count, sine };
                ring.output(s2 as i16)
            },
            None => s2,
        };
        match self.fluctuation {
            Some(f) => f.output(s3 as i16),
            None => s3,
        }
    }

    /// The state after one sample.
    pub open spec fn next(self, sample: i32) -> EffectsState {
        let s1 = saturate(sample);
        let s2 = match self.echo {
            Some(e) => e.output(s1 as i16),
            None => s1,
        };
        let s3 = match self.ring {
            Some((increment, count, sine)) => {
                let ring = RingModulation { increment, count, sine };
                ring.output(s2 as i16)
            },
            None => s2,
        };
        EffectsState {
            echo: match self.echo {
                Some(e) => Some(e.next(s1 as i16)),
                None => None,
            },
            ring: match self.ring {
                Some((increment, count, sine)) => Some((increment, count.wrapping_add(1), sine)),
                None => None,
            },
            fluctuation: match self.fluctuation {
                Some(f) => Some(f.next(s3 as i16)),
                None => None,
            },
        }
    }

    /// The state after the first `count` samples of a block.
    pub open spec fn after(self, block: Seq<i32>, count: nat) -> EffectsState
        decreases count,
    {
        if count == 0 {
            self
        } else {
            self.after(block, (count - 1) as nat).next(block[count - 1])
        }
    }

    /// A block after the output stage.
    pub open spec fn outputs(self, block: Seq<i32>) -> Seq<i32> {
        Seq::new(block.len(), |i: int| self.after(block, i as nat).output(block[i]))
    }

    pub open spec fn wf(self) -> bool {
        &&& self.echo matches Some(e) ==> e.history.len() == ECHO_HISTORY
        &&& self.fluctuation matches Some(f) ==> f.history.len() == FLUCTUATION_HISTORY
    }
}

/// The effects a voice enables: an echo for positive depth and delay, a ring
/// modulator for a nonzero rate, and a fluctuation for a positive delay and a
/// nonzero depth.
pub open spec fn effects_for(settings: VoiceSettings, sine: [i16; 256]) -> EffectsState {
    EffectsState {
        echo: if settings.echo_depth > 0 && settings.echo_delay > 0 {
            Some(
                EchoState::fresh(
                    truncating_div((settings.echo_depth << 8) as int, 100) as i32,
                    settings.echo_delay as usize,
                ),
            )
        } else {
            None
        },
        ring: if settings.ring_rate != 0 {
            Some(((((settings.ring_rate as i64) << 16) as int / 11000) as i64, 0i64, sine))
        } else {
            None
        },
        fluctuation: if settings.fluctuation_delay > 0 && settings.fluctuation_depth != 0 {
            Some(
                FluctuationState {
                    depth: (settings.fluctuation_depth as i16).wrapping_shl(8),
                    delay: settings.fluctuation_delay as i16,
                    state: [0i32, 0i32, 0i32, 0i32],
                    history: Seq::new(FLUCTUATION_HISTORY as nat, |i: int| 0i32),
                    count: 0,
                },
            )
        } else {
            None
        },
    }
}

impl Effects {
    pub fn new(settings: &VoiceSettings, sine: &[i16; 256]) -> (effects: Self)
        ensures
            effects@ == effects_for(*settings, *sine),
            effects@.wf(),
    {
        let echo = if settings.echo_depth > 0 && settings.echo_delay > 0 {
            let shifted: i32 = settings.echo_depth << 8;
            let gain: i32 = if shifted >= 0 {
                shifted / 100
            } else {
                -(((-(shifted as i64)) / 100) as i32)
            };
            let history: Vec<i16> = vec![0i16; ECHO_HISTORY];
            assert(history@ =~= Seq::new(ECHO_HISTORY as nat, |i: int| 0i16));
            Some(Echo { gain, delay: settings.echo_delay as usize, history, count: 0 })
        } else {
            None
        };
        let ring = if settings.ring_rate != 0 {
            let rate: i64 = settings.ring_rate as i64;
            let shifted: i64 = rate << 16;
            assert(-0x8000_0000_0000 <= rate << 16 <= 0x8000_0000_0000) by (bit_vector)
                requires
                    -0x8000_0000 <= rate < 0x8000_0000;
            let increment: i64 = if shifted >= 0 {
                shifted / 11000
            } else {
                -((-shifted + 10999) / 11000)
            };
            assert(increment == shifted as int / 11000) by (nonlinear_arith)
                requires
                    increment == if shifted >= 0 {
                        shifted as int / 11000
                    } else {
                        -((-shifted + 10999) / 11000)
                    };
            Some(RingModulation { increment, count: 0, sine: *sine })
        } else {
            None
        };
        let fluctuation = if settings.fluctuation_delay > 0 && settings.fluctuation_depth != 0 {
            let history: Vec<i32> = vec![0i32; FLUCTUATION_HISTORY];
            assert(history@ =~= Seq::new(FLUCTUATION_HISTORY as nat, |i: int| 0i32));
            Some(
                Fluctuation {
                    depth: (settings.fluctuation_depth as i16).wrapping_shl(8),
                    delay: settings.fluctuation_delay as i16,
                    state: [0i32, 0i32, 0i32, 0i32],
                    history,
                    count: 0,
                },
            )
        } else {
            None
        };
        Effects { echo, ring, fluctuation }
    }

    /// Applies the output stage to a block of mixed samples, in place.
    pub fn process(&mut self, block: &mut Vec<i32>)
        requires
            old(self)@.wf(),
            forall|i: int| 0 <= i < old(block)@.len() ==> -32767 <= #[trigger] old(block)@[i] <= 32767,
        ensures
            final(block)@ == old(self)@.outputs(old(block)@),
            final(self)@ == old(self)@.after(old(block)@, old(block)@.len()),
            final(self)@.wf(),
    {
        let ghost initial = block@;
        let ghost start = self@;
        let length = block.len();
        let mut index: usize = 0;
        while index < length
            invariant
                length == block@.len() == initial.len(),
                index <= length,
                self@ == start.after(initial, index as nat),
                self@.wf(),
                forall|i: int| 0 <= i < length ==> -32767 <= #[trigger] initial[i] <= 32767,
                forall|i: int| 0 <= i < index ==> #[trigger] block@[i] == start.after(initial, i as nat).output(initial[i]),
                forall|i: int| index <= i < length ==> #[trigger] block@[i] == initial[i],
            decreases length - index,
        {
            let sample: i32 = block[index];
            let doubled: i32 = sample * 2;
            assert(-0x10000 <= ((doubled - 27000) as i32) >> 1 <= 0x10000 && -0x10000 <= ((doubled + 27000) as i32) >> 1
                <= 0x10000) by (bit_vector)
                requires
                    -65534 <= doubled <= 65534;
            let mut value: i32 = if doubled > 27000 {
                let soft = 27000 + ((doubled - 27000) >> 1);
                if soft < 32767 { soft } else { 32767 }
            } else if doubled < -27000 {
                let soft = -27000 + ((doubled + 27000) >> 1);
                if soft > -32767 { soft } else { -32767 }
            } else {
                doubled
            };
            assert(value == saturate(sample));
            let ghost state = self@;
            if let Some(echo) = &mut self.echo {
                value = echo.process(value as i16);
            }
            if let Some(ring) = &mut self.ring {
                value = ring.process(value as i16);
            }
            if let Some(fluctuation) = &mut self.fluctuation {
                value = fluctuation.process(value as i16);
            }
            assert(value == state.output(sample));
            assert(self@ == state.next(sample));
            block.set(index, value);
            index += 1;
        }
        proof {
            assert(block@ =~= start.outputs(initial));
        }
    }
}

} // verus!

//! Period-synchronous synthesis into a 480-sample overlap buffer.
//!
//! Counters and prosodic quantities wrap on overflow, as in the engine's release build.
use vstd::prelude::*;
use crate::acoustic::{AcousticData, Frame, clamp, clamp_i32, clamp_i64};
use crate::dsp::{rounded_div, rounded_quotient};
use crate::dsp::effects::{Effects, EffectsState};
use crate::dsp::filter::{coefficients_with_order, excitation, noise, shift_spectrum};
use crate::dsp::schedule::{FramePolicy, Hold, schedule};
use crate::prosody;
use crate::utterance::{Segment, UnitGroup, UnitPosition, group_segments, phoneme_flags, phoneme_flags_table, segments_wf, PHONEME_COUNT, shaped};
use crate::voice::{VoiceSettings, valid_settings};

verus! {

/// Samples emitted at a time.
pub const BLOCK: usize = 240;
/// Length of the overlap ring.
pub const RING: usize = 480;
/// Pitch period used for unvoiced and silent frames.
pub const UNVOICED_PERIOD: usize = 55;

/// The overlap-add ring and the samples emitted so far.
pub struct Output {
    pub ring: Vec<i32>,
    pub write: usize,
    pub read: usize,
    pub written: usize,
    pub emitted: usize,
    pub samples: Vec<i16>,
    pub effects: Effects,
}

/// The output state as values.
pub struct OutputView {
    pub ring: Seq<i32>,
    pub write: usize,
    pub read: usize,
    pub written: usize,
    pub emitted: usize,
    pub samples: Seq<i16>,
    pub effects: EffectsState,
}

impl View for Output {
    type V = OutputView;

    open spec fn view(&self) -> OutputView {
        OutputView {
            ring: self.ring@,
            write: self.write,
            read: self.read,
            written: self.written,
            emitted: self.emitted,
            samples: self.samples@,
            effects: self.effects@,
        }
    }
}

/// The first `count` samples of the half of the ring from `start`, and the ring
/// with them cleared.
pub open spec fn drained(ring: Seq<i32>, start: int, count: int) -> (Seq<i32>, Seq<i32>)
    decreases count,
{
    if count <= 0 {
        (Seq::empty(), ring)
    } else {
        let (block, rest) = drained(ring, start, count - 1);
        let index = (start + count - 1) % (RING as int);
        (block.push(rest[index]), rest.update(index, 0))
    }
}

/// The state after emitting the half of the ring from `start` through the effects.
pub open spec fn emitted_from(state: OutputView, start: int) -> OutputView {
    let (block, ring) = drained(state.ring, start, BLOCK as int);
    OutputView {
        ring,
        samples: state.samples + state.effects.outputs(block).map_values(|v: i32| v as i16),
        effects: state.effects.after(block, BLOCK as nat),
        emitted: state.emitted.wrapping_add(BLOCK),
        ..state
    }
}

/// The state after advancing the write position by `count`.
pub open spec fn advanced(state: OutputView, count: usize) -> OutputView {
    let write = state.write + count;
    let moved = OutputView { written: state.written.wrapping_add(count), write: write as usize, ..state };
    let read = if state.read == 0 {
        if write >= BLOCK {
            OutputView { read: BLOCK, ..emitted_from(moved, 0) }
        } else {
            moved
        }
    } else if write < BLOCK || write > RING {
        OutputView { read: 0, ..emitted_from(moved, BLOCK as int) }
    } else {
        moved
    };
    if write >= RING {
        OutputView { write: (write - RING) as usize, ..read }
    } else {
        read
    }
}

/// The ring after overlap-adding the first `count` samples of a block at the write
/// position, clamping to the 16-bit range.
pub open spec fn added(ring: Seq<i32>, write: int, block: Seq<i32>, count: int) -> Seq<i32>
    decreases count,
{
    if count <= 0 {
        ring
    } else {
        let previous = added(ring, write, block, count - 1);
        let index = (write + (count - 1) % (RING as int)) % (RING as int);
        previous.update(index, clamp(previous[index].wrapping_add(block[count - 1]) as int, -32767, 32767) as i32)
    }
}

/// The state after emitting the pending half of the ring when samples remain unwritten.
pub open spec fn flushed(state: OutputView) -> OutputView {
    if state.emitted % RING < state.written % RING {
        emitted_from(state, state.read as int)
    } else {
        state
    }
}

impl Output {
    /// The ring holds 480 samples in the 16-bit range, the write position lies in
    /// the ring, and reading alternates between its halves.
    pub open spec fn wf(&self) -> bool {
        &&& self.buffers_wf()
        &&& self.write < RING
    }

    /// The ring and the effects are well formed and the samples are whole blocks.
    pub open spec fn buffers_wf(&self) -> bool {
        &&& self.ring@.len() == RING
        &&& (self.read == 0 || self.read == BLOCK)
        &&& forall|i: int| 0 <= i < RING ==> -32767 <= #[trigger] self.ring@[i] <= 32767
        &&& self.effects@.wf()
        &&& self.samples@.len() % (BLOCK as nat) == 0
    }

    pub fn new(settings: &VoiceSettings, sine: &[i16; 256]) -> (output: Self)
        ensures
            output.wf(),
            output.samples@.len() == 0,
            output@ == (OutputView {
                ring: Seq::new(RING as nat, |i: int| 0i32),
                write: 0,
                read: 0,
                written: 0,
                emitted: 0,
                samples: Seq::empty(),
                effects: crate::dsp::effects::effects_for(*settings, *sine),
            }),
    {
        let ring: Vec<i32> = vec![0i32; RING];
        assert(ring@ =~= Seq::new(RING as nat, |i: int| 0i32));
        Output {
            ring,
            write: 0,
            read: 0,
            written: 0,
            emitted: 0,
            samples: Vec::new(),
            effects: Effects::new(settings, sine),
        }
    }

    /// Takes the half of the ring that starts at `start`, runs it through the effects
    /// and appends it to the samples.
    #[verifier::rlimit(60)]
    pub fn emit(&mut self, start: usize)
        requires
            old(self).buffers_wf(),
            start < RING,
        ensures
            final(self).buffers_wf(),
            final(self).samples@.len() == old(self).samples@.len() + BLOCK,
            final(self).write == old(self).write,
            final(self).read == old(self).read,
            final(self).written == old(self).written,
            final(self)@ == emitted_from(old(self)@, start as int),
    {
        let mut block: Vec<i32> = Vec::new();
        let mut offset: usize = 0;
        while offset < BLOCK
            invariant
                self.buffers_wf(),
                offset <= BLOCK,
                start < RING,
                block@.len() == offset,
                forall|i: int| 0 <= i < offset ==> -32767 <= #[trigger] block@[i] <= 32767,
                self.samples@.len() == old(self).samples@.len(),
                self.write == old(self).write,
                self.read == old(self).read,
                self.written == old(self).written,
                (block@, self.ring@) == drained(old(self).ring@, start as int, offset as int),
                self.samples@ == old(self).samples@,
                self.effects@ == old(self).effects@,
                self.emitted == old(self).emitted,
            decreases BLOCK - offset,
        {
            let index = (start + offset) % RING;
            block.push(self.ring[index]);
            self.ring.set(index, 0);
            offset += 1;
        }
        let ghost taken = block@;
        self.effects.process(&mut block);
        let mut offset: usize = 0;
        let ghost before = self.samples@.len();
        while offset < BLOCK
            invariant
                offset <= BLOCK,
                block@.len() == BLOCK,
                self.samples@.len() == before + offset,
                before % (BLOCK as nat) == 0,
                self.ring@.len() == RING,
                self.read == 0 || self.read == BLOCK,
                forall|i: int| 0 <= i < RING ==> -32767 <= #[trigger] self.ring@[i] <= 32767,
                self.effects@.wf(),
                self.write == old(self).write,
                self.read == old(self).read,
                self.written == old(self).written,
                self.samples@ == old(self).samples@ + block@.take(offset as int).map_values(|v: i32| v as i16),
                block@ == old(self).effects@.outputs(taken),
                self.effects@ == old(self).effects@.after(taken, BLOCK as nat),
                self.ring@ == drained(old(self).ring@, start as int, BLOCK as int).1,
                self.emitted == old(self).emitted,
            decreases BLOCK - offset,
        {
            self.samples.push(block[offset] as i16);
            assert(block@.take(offset + 1).map_values(|v: i32| v as i16) =~= block@.take(offset as int).map_values(
                |v: i32| v as i16,
            ).push(block@[offset as int] as i16));
            offset += 1;
        }
        self.emitted = self.emitted.wrapping_add(BLOCK);
        assert(block@.take(BLOCK as int) =~= block@);
        assert(self.samples@.len() % (BLOCK as nat) == 0) by {
            assert(self.samples@.len() == before + BLOCK);
        }
    }

    /// Advances the write position by a pitch period, emitting a half of the ring
    /// whenever the write position crosses into the other half.
    pub fn advance(&mut self, count: usize)
        requires
            old(self).wf(),
            count <= BLOCK,
        ensures
            final(self).wf(),
            final(self).samples@.len() >= old(self).samples@.len(),
            final(self)@ == advanced(old(self)@, count),
    {
        self.written = self.written.wrapping_add(count);
        self.write = self.write + count;
        if self.read == 0 {
            if self.write >= BLOCK {
                self.emit(0);
                self.read = BLOCK;
            }
        } else if self.write < BLOCK || self.write > RING {
            self.emit(BLOCK);
            self.read = 0;
        }
        if self.write >= RING {
            self.write = self.write - RING;
        }
    }

    /// Overlap-adds a block at the write position, clamping to the 16-bit range.
    pub fn add(&mut self, block: &Vec<i32>)
        requires
            old(self).wf(),
        ensures
            final(self).wf(),
            final(self).samples@ == old(self).samples@,
            final(self).write == old(self).write,
            final(self)@ == (OutputView {
                ring: added(old(self).ring@, old(self).write as int, block@, block@.len() as int),
                ..old(self)@
            }),
    {
        let mut offset: usize = 0;
        while offset < block.len()
            invariant
                self.wf(),
                offset <= block@.len(),
                self.samples@ == old(self).samples@,
                self.write == old(self).write,
                self@ == (OutputView { ring: added(old(self).ring@, old(self).write as int, block@, offset as int), ..old(self)@ }),
            decreases block@.len() - offset,
        {
            let index = (self.write + offset % RING) % RING;
            let slot = self.ring[index];
            self.ring.set(index, clamp_i32(slot.wrapping_add(block[offset]), -32767, 32767));
            offset += 1;
        }
    }

    /// Emits the pending half of the ring when samples remain unwritten.
    pub fn flush(&mut self)
        requires
            old(self).wf(),
        ensures
            final(self).wf(),
            final(self).samples@.len() >= old(self).samples@.len(),
            final(self)@ == flushed(old(self)@),
    {
        if self.emitted % RING < self.written % RING {
            self.emit(self.read);
        }
    }

    /// Restarts the ring's positions, keeping its contents and the samples.
    pub fn reset_pointers(&mut self)
        requires
            old(self).wf(),
        ensures
            final(self).wf(),
            final(self).samples@ == old(self).samples@,
            final(self)@ == (OutputView { write: 0, read: 0, written: 0, emitted: 0, ..old(self)@ }),
    {
        self.write = 0;
        self.read = 0;
        self.written = 0;
        self.emitted = 0;
    }
}

/// The synthesis volume step of an envelope amplitude, in `0..=90`.
pub open spec fn amplitude_step(value: i32) -> int {
    clamp((value.wrapping_mul(3277).wrapping_add(16384) >> 15) as int, 0, 90)
}

pub fn amplitude_index(value: i32) -> (result: usize)
    ensures
        result == amplitude_step(value),
        result <= 90,
{
    clamp_i32(value.wrapping_mul(3277).wrapping_add(16384) >> 15, 0, 90) as usize
}

/// The predictor order for a spectral scale: `1000 / spectral` rounded, within `1..=10`.
pub open spec fn predictor_order(spectral: i32) -> int {
    if spectral != 100 {
        clamp(rounded_quotient(1000, spectral as int), 1, 10)
    } else {
        10
    }
}

/// The predictor of a frame, after spectral scaling.
pub open spec fn predictor_spec(data: &AcousticData, frame: Frame, settings: VoiceSettings) -> Seq<i16> {
    crate::dsp::filter::lsp_coefficients(
        if settings.spectral != 100 {
            crate::dsp::filter::shift_spectrum_spec(
                data.spectra@[frame.spectrum as int]@,
                (settings.spectral * 655) as i32 >> 6i32,
                settings.spectral,
            )
        } else {
            data.spectra@[frame.spectrum as int]@
        },
        predictor_order(settings.spectral),
        data.cosine,
    )
}

pub fn predictor(data: &AcousticData, frame: Frame, settings: &VoiceSettings) -> (coefficients: [i16; 10])
    requires
        data.wf(),
        frame.spectrum < data.spectra@.len(),
        valid_settings(*settings),
    ensures
        coefficients@ == predictor_spec(data, frame, *settings),
        coefficients@ == crate::dsp::filter::lsp_coefficients(
            if settings.spectral != 100 {
                crate::dsp::filter::shift_spectrum_spec(
                    data.spectra@[frame.spectrum as int]@,
                    (settings.spectral * 655) as i32 >> 6i32,
                    settings.spectral,
                )
            } else {
                data.spectra@[frame.spectrum as int]@
            },
            predictor_order(settings.spectral),
            data.cosine,
        ),
        forall|i: int| predictor_order(settings.spectral) <= i < 10 ==> #[trigger] coefficients[i] == 0,
{
    let mut spectrum = data.spectrum(frame);
    let order: usize = if settings.spectral != 100 {
        shift_spectrum(&mut spectrum, (settings.spectral * 655) >> 6, settings.spectral);
        clamp_i64(rounded_div(1000, settings.spectral as i64), 1, 10) as usize
    } else {
        10
    };
    coefficients_with_order(&spectrum, order, &data.cosine)
}

/// A block's samples, if there is a block.
pub open spec fn block_view(block: Option<Vec<i32>>) -> Option<Seq<i32>> {
    match block {
        Some(b) => Some(b@),
        None => None,
    }
}

/// The state and phase after mixing the block in and advancing by `step` for as
/// long as the phase stays positive.
pub open spec fn mixed(state: OutputView, block: Option<Seq<i32>>, step: usize, phase: int) -> (OutputView, int)
    decreases (if phase > 0 {
        phase
    } else {
        0
    }) as nat,
{
    if phase <= 0 || step == 0 {
        (state, phase)
    } else {
        let with_block = match block {
            Some(b) => OutputView { ring: added(state.ring, state.write as int, b, b.len() as int), ..state },
            None => state,
        };
        mixed(advanced(with_block, step), block, step, phase - step)
    }
}

/// The state and phase after one period: the phase gains the unvoiced period, the
/// block is mixed in per step, and the phase wraps below -32768.
pub open spec fn period_stepped(state: OutputView, block: Option<Seq<i32>>, step: usize, phase: i32) -> (OutputView, i32) {
    let (after, left) = mixed(state, block, step, phase + UNVOICED_PERIOD);
    (
        after,
        if left < -32768 {
            (left + 65536) as i32
        } else {
            left as i32
        },
    )
}

/// Mixes one period's excitation block (if any) into the output and advances by the
/// period, keeping the overlap phase in the engine's range.
fn step_period(output: &mut Output, block: &Option<Vec<i32>>, step: usize, phase: i32) -> (next: i32)
    requires
        old(output).wf(),
        1 <= step <= BLOCK,
        -240 < phase <= 0,
    ensures
        final(output).wf(),
        -240 < next <= 0,
        final(output).samples@.len() >= old(output).samples@.len(),
        (final(output)@, next) == period_stepped(old(output)@, block_view(*block), step, phase),
{
    let ghost initial_phase = phase;
    let mut phase: i32 = phase + UNVOICED_PERIOD as i32;
    let period: i32 = step as i32;
    assert(period == step);
    while phase > 0
        invariant
            output.wf(),
            1 <= step <= BLOCK,
            period == step,
            -240 < phase <= 55,
            output.samples@.len() >= old(output).samples@.len(),
            mixed(output@, block_view(*block), step, phase as int) == mixed(
                old(output)@,
                block_view(*block),
                step,
                initial_phase + UNVOICED_PERIOD,
            ),
        decreases phase + 300,
    {
        if let Some(block) = block {
            output.add(block);
        }
        output.advance(step);
        phase = phase - period;
    }
    if phase < -32768 {
        phase = phase + 65536;
    }
    phase
}

/// Division by 100 rounding toward zero, as Rust's `/` does.
pub open spec fn div_100(value: i32) -> i32 {
    if value >= 0 {
        (value / 100) as i32
    } else {
        (-((-value) / 100)) as i32
    }
}

pub fn truncating_div_100(value: i32) -> (result: i32)
    ensures
        result == div_100(value),
{
    if value >= 0 {
        value / 100
    } else {
        -(((-(value as i64)) / 100) as i32)
    }
}

/// A pause appended after a final voiced segment.
pub open spec fn tail_silence(periods: i32) -> Segment {
    Segment {
        phoneme: 0,
        periods,
        original_periods: periods,
        unit_start: 0,
        frames_start: 0,
        frames_end: 1,
        pitch: 0,
        amplitude: 0,
        devoiced: false,
        tail_periods: 200,
    }
}

/// The tables the synthesis reads: the unit groups, their pitch contours and
/// amplitude envelopes, each segment's group and pitch offset in it, and the
/// phoneme each frame was last chosen for.
pub struct Rendering {
    pub groups: Seq<UnitGroup>,
    pub contours: Seq<Seq<i32>>,
    pub envelopes: Seq<Seq<i32>>,
    pub group_of: Seq<usize>,
    pub pitch_offset: Seq<i32>,
    pub frame_phonemes: Seq<Option<usize>>,
}

/// The group of each segment and its offset in periods from the group's start,
/// after the segments of group `g` before `index` are entered.
pub open spec fn group_entries(
    segments: Seq<Segment>,
    groups: Seq<UnitGroup>,
    g: int,
    index: int,
    tables: (Seq<usize>, Seq<i32>),
) -> (Seq<usize>, Seq<i32>)
    decreases index - groups[g].segments_start,
{
    if index <= groups[g].segments_start {
        tables
    } else {
        let (group_of, offsets) = group_entries(segments, groups, g, index - 1, tables);
        (
            group_of.update(index - 1, g as usize),
            offsets.update(index - 1, prosody::period_sum(segments, groups[g].segments_start as int, index - 1)),
        )
    }
}

/// The segment tables after the first `g` groups are entered.
pub open spec fn group_tables(segments: Seq<Segment>, groups: Seq<UnitGroup>, g: int) -> (Seq<usize>, Seq<i32>)
    decreases g,
{
    if g <= 0 {
        (Seq::new(segments.len(), |i: int| 0usize), Seq::new(segments.len(), |i: int| 0i32))
    } else {
        group_entries(segments, groups, g - 1, groups[g - 1].segments_end as int, group_tables(segments, groups, g - 1))
    }
}

/// The frame table after the frames of a voiced, timed segment before `frame` are
/// marked with its phoneme.
pub open spec fn frames_marked(table: Seq<Option<usize>>, segment: Segment, frame: int) -> Seq<Option<usize>>
    decreases frame - segment.frames_start,
{
    if frame <= segment.frames_start || segment.phoneme == 0 || segment.periods <= 0 {
        table
    } else {
        frames_marked(table, segment, frame - 1).update(segment.unit_start + frame - 1, Some(segment.phoneme))
    }
}

/// The frame table after the first `count` segments.
pub open spec fn frame_table(segments: Seq<Segment>, frame_count: nat, count: int) -> Seq<Option<usize>>
    decreases count,
{
    if count <= 0 {
        Seq::new(frame_count, |i: int| None::<usize>)
    } else {
        frames_marked(frame_table(segments, frame_count, count - 1), segments[count - 1], segments[count - 1].frames_end as int)
    }
}

/// The tables of a segment list.
#[verifier::opaque]
pub open spec fn rendering(segments: Seq<Segment>, settings: VoiceSettings, data: &AcousticData) -> Rendering {
    let groups = crate::utterance::unit_groups(segments);
    let tables = group_tables(segments, groups, groups.len() as int);
    Rendering {
        groups,
        contours: Seq::new(
            groups.len(),
            |g: int| prosody::contours(segments, groups, prosody::modulation_on(settings.phrase_accent), groups.len() as int).0[g],
        ),
        envelopes: Seq::new(groups.len(), |g: int| prosody::envelope(segments, groups[g], data)),
        group_of: tables.0,
        pitch_offset: tables.1,
        frame_phonemes: frame_table(segments, data.frames@.len(), segments.len() as int),
    }
}

/// The segments to render: the given ones, and a pause of the last segment's tail
/// periods (scaled by the speed) after a final voiced segment.
pub open spec fn rendered_segments(segments: Seq<Segment>, settings: VoiceSettings) -> Seq<Segment> {
    let last = segments.last();
    if last.phoneme != 0 {
        let periods = if settings.speed != 100 {
            div_100(last.tail_periods.wrapping_mul(settings.speed).wrapping_add(50))
        } else {
            last.tail_periods
        };
        segments.push(tail_silence(periods))
    } else {
        segments
    }
}

/// The output of a pause's first `period` periods: the held frame's excitation
/// when the pause holds a unit, else plain advances.
pub open spec fn pause_periods(
    data: &AcousticData,
    settings: VoiceSettings,
    segment: Segment,
    state: (OutputView, i32),
    period: int,
) -> (OutputView, i32)
    decreases period,
{
    if period <= 0 {
        state
    } else {
        let (output, phase) = pause_periods(data, settings, segment, state, period - 1);
        if segment.unit_start != 0 && segment.amplitude != 0 {
            let last_frame = segment.frames_end - segment.frames_start - 1;
            let offset = if period - 1 < last_frame {
                period - 1
            } else {
                last_frame
            };
            let frame = data.frames@[segment.unit_start + segment.frames_start + offset];
            let block = if frame.excitable {
                Some(
                    crate::dsp::filter::excitation_block(
                        data.impulse@,
                        predictor_spec(data, frame, settings),
                        data.amplitude[amplitude_step(segment.amplitude)],
                        BLOCK as nat,
                        1564,
                    ),
                )
            } else {
                None
            };
            period_stepped(output, block, UNVOICED_PERIOD, phase)
        } else {
            (advanced(output, UNVOICED_PERIOD), phase)
        }
    }
}

/// The excitation block, pitch period and noise position of one period of voiced
/// segment `index`, whose schedule gives `scheduled`.
#[verifier::opaque]
pub open spec fn period_block(
    rendering: Rendering,
    data: &AcousticData,
    settings: VoiceSettings,
    pitch_scale: i32,
    segment: Segment,
    index: int,
    period: int,
    scheduled: Option<usize>,
    noise_count: usize,
) -> (Option<Seq<i32>>, usize, usize) {
    let group_index = rendering.group_of[index] as int;
    let group = rendering.groups[group_index];
    match scheduled {
        None => (None, UNVOICED_PERIOD, noise_count),
        Some(frame_offset) => {
            let absolute = segment.unit_start + segment.frames_start + frame_offset;
            if absolute >= data.frames@.len() {
                (None, UNVOICED_PERIOD, noise_count)
            } else {
                let frame = data.frames@[absolute];
                let envelope = rendering.envelopes[group_index];
                let relative = segment.frames_start.wrapping_sub(group.frames_start).wrapping_add(frame_offset);
                let amplitude_offset = if relative < envelope.len() - 1 {
                    relative as int
                } else {
                    envelope.len() - 1
                };
                let gain = data.amplitude[amplitude_step(envelope[amplitude_offset])];
                if !frame.voiced || segment.devoiced {
                    if frame.excitable {
                        (
                            Some(
                                crate::dsp::filter::noise_block(
                                    data.noise@,
                                    noise_count as nat,
                                    predictor_spec(data, frame, settings),
                                    gain,
                                    UNVOICED_PERIOD as nat,
                                    2048,
                                ),
                            ),
                            UNVOICED_PERIOD,
                            if noise_count == 5 {
                                0
                            } else {
                                (noise_count + 1) as usize
                            },
                        )
                    } else {
                        (None, UNVOICED_PERIOD, noise_count)
                    }
                } else {
                    let contour = rendering.contours[group_index];
                    let pitch = if contour.len() == 0 {
                        0
                    } else {
                        let position = (rendering.pitch_offset[index] as usize).wrapping_add(period as usize);
                        contour[if position < contour.len() - 1 {
                            position as int
                        } else {
                            contour.len() - 1
                        }]
                    };
                    let pitch_period = data.period_of(pitch, pitch_scale);
                    if pitch_period > 0 {
                        let phoneme = match rendering.frame_phonemes[absolute] {
                            Some(p) => p,
                            None => segment.phoneme,
                        };
                        let table = if phoneme_flags_table()[phoneme as int] & 132 != 0 {
                            data.pulse@
                        } else {
                            data.impulse@
                        };
                        (
                            Some(
                                crate::dsp::filter::excitation_block(
                                    table,
                                    predictor_spec(data, frame, settings),
                                    gain,
                                    BLOCK as nat,
                                    1564,
                                ),
                            ),
                            pitch_period as usize,
                            noise_count,
                        )
                    } else {
                        (None, UNVOICED_PERIOD, noise_count)
                    }
                }
            }
        },
    }
}

/// The output after the first `count` scheduled periods of voiced segment `index`.
#[verifier::opaque]
pub open spec fn voiced_periods(
    rendering: Rendering,
    data: &AcousticData,
    settings: VoiceSettings,
    pitch_scale: i32,
    segment: Segment,
    index: int,
    scheduled: Seq<Option<usize>>,
    state: (OutputView, i32, usize),
    count: int,
) -> (OutputView, i32, usize)
    decreases count,
{
    if count <= 0 {
        state
    } else {
        let (output, phase, noise_count) = voiced_periods(
            rendering,
            data,
            settings,
            pitch_scale,
            segment,
            index,
            scheduled,
            state,
            count - 1,
        );
        let (block, step, next_noise) = period_block(
            rendering,
            data,
            settings,
            pitch_scale,
            segment,
            index,
            count - 1,
            scheduled[count - 1],
            noise_count,
        );
        let (stepped, next_phase) = period_stepped(output, block, step, phase);
        (stepped, next_phase, next_noise)
    }
}

/// How a voiced segment's frames are held when stretched: the head for a group's
/// first segment outside a phrase start, else the tail; a stretched segment with
/// flags 64 and 128 holds its tail only at a group or phrase start.
pub open spec fn segment_hold(segments: Seq<Segment>, group: UnitGroup, segment: Segment, index: int) -> Hold {
    let first_of_group = index == group.segments_start;
    let phrase_first = index == 0 || segments[index - 1].phoneme == 0;
    let flags = phoneme_flags_table()[segment.phoneme as int];
    if segment.periods > segment.frames_end - segment.frames_start && flags & 64u8 != 0 && flags & 128u8 != 0 {
        if first_of_group || phrase_first {
            Hold::Tail
        } else {
            Hold::Neither
        }
    } else if first_of_group && group.position != UnitPosition::Initial {
        Hold::Head
    } else {
        Hold::Tail
    }
}

/// The output after segment `index` of the rendered segments.
pub open spec fn segment_rendered(
    rendering: Rendering,
    segments: Seq<Segment>,
    work: Seq<Segment>,
    data: &AcousticData,
    settings: VoiceSettings,
    pitch_scale: i32,
    index: int,
    state: (OutputView, i32, usize),
) -> (OutputView, i32, usize) {
    let segment = work[index];
    if segment.periods <= 0 {
        state
    } else if segment.phoneme == 0 {
        let (output, phase) = pause_periods(data, settings, segment, (state.0, state.1), segment.periods as int);
        let output = if index + 1 < work.len() {
            OutputView { write: 0, read: 0, written: 0, emitted: 0, ..flushed(output) }
        } else {
            output
        };
        (output, phase, state.2)
    } else {
        let group = rendering.groups[rendering.group_of[index] as int];
        let policy = FramePolicy {
            phoneme_flags: phoneme_flags_table()[segment.phoneme as int],
            hold: segment_hold(segments, group, segment, index),
            phrase_initial: group.position == UnitPosition::Initial,
        };
        let scheduled = crate::dsp::schedule::schedule_spec(prosody::voicing_of(segment, data), segment.periods as nat, policy);
        voiced_periods(rendering, data, settings, pitch_scale, segment, index, scheduled, state, scheduled.len() as int)
    }
}

/// The output after the first `count` rendered segments.
pub open spec fn rendered(
    rendering: Rendering,
    segments: Seq<Segment>,
    work: Seq<Segment>,
    data: &AcousticData,
    settings: VoiceSettings,
    pitch_scale: i32,
    count: int,
) -> (OutputView, i32, usize)
    decreases count,
{
    if count <= 0 {
        (
            OutputView {
                ring: Seq::new(RING as nat, |i: int| 0i32),
                write: 0,
                read: 0,
                written: 0,
                emitted: 0,
                samples: Seq::empty(),
                effects: crate::dsp::effects::effects_for(settings, data.ring_sine),
            },
            0,
            0,
        )
    } else {
        segment_rendered(
            rendering,
            segments,
            work,
            data,
            settings,
            pitch_scale,
            count - 1,
            rendered(rendering, segments, work, data, settings, pitch_scale, count - 1),
        )
    }
}

/// The PCM of a segment list: every rendered segment, then the pending half of the
/// ring.
pub open spec fn synthesized(segments: Seq<Segment>, settings: VoiceSettings, pitch_scale: i32, data: &AcousticData) -> Seq<i16> {
    if segments.len() == 0 {
        Seq::empty()
    } else {
        let work = rendered_segments(segments, settings);
        let rendering = rendering(segments, settings, data);
        flushed(rendered(rendering, segments, work, data, settings, pitch_scale, work.len() as int).0).samples
    }
}

/// The tables of a synthesis, as built.
struct SynthesisTables {
    groups: Vec<UnitGroup>,
    pitches: Vec<Vec<i32>>,
    amplitudes: Vec<Vec<i32>>,
    group_of: Vec<usize>,
    pitch_offset: Vec<i32>,
    frame_phonemes: Vec<Option<usize>>,
}

impl SynthesisTables {
    /// The built tables are those of the rendering, with in-range entries.
    spec fn holds(&self, rendering: Rendering, segment_count: int, frame_count: int) -> bool {
        &&& self.groups@ == rendering.groups
        &&& self.amplitudes@.len() == rendering.groups.len()
        &&& self.pitches@.len() == rendering.groups.len()
        &&& forall|h: int|
            0 <= h < rendering.groups.len() ==> #[trigger] self.amplitudes@[h]@ == rendering.envelopes[h]
                && 1 <= self.amplitudes@[h]@.len()
        &&& forall|h: int| 0 <= h < rendering.groups.len() ==> #[trigger] self.pitches@[h]@ == rendering.contours[h]
        &&& self.group_of@ == rendering.group_of
        &&& self.group_of@.len() == segment_count
        &&& forall|i: int| 0 <= i < segment_count ==> #[trigger] self.group_of@[i] < rendering.groups.len()
        &&& self.pitch_offset@ == rendering.pitch_offset
        &&& self.pitch_offset@.len() == segment_count
        &&& self.frame_phonemes@ == rendering.frame_phonemes
        &&& self.frame_phonemes@.len() == frame_count
        &&& forall|i: int|
            0 <= i < frame_count ==> (#[trigger] self.frame_phonemes@[i] matches Some(p) ==> p < PHONEME_COUNT)
    }
}

/// Renders the periods of a pause.
#[verifier::rlimit(60)]
fn pause_segment(output: &mut Output, segment: Segment, phase: i32, data: &AcousticData, settings: &VoiceSettings) -> (next: i32)
    requires
        data.wf(),
        valid_settings(*settings),
        old(output).wf(),
        -240 < phase <= 0,
        segment.periods > 0,
        segment.unit_start != 0 && segment.amplitude != 0 ==> segment.wf(data),
    ensures
        final(output).wf(),
        -240 < next <= 0,
        (final(output)@, next) == pause_periods(data, *settings, segment, (old(output)@, phase), segment.periods as int),
{
    let hold = segment.unit_start != 0 && segment.amplitude != 0;
    let ghost old_phase = phase;
    let mut phase = phase;
    let mut period: usize = 0;
    while period < segment.periods as usize
        invariant
            data.wf(),
            valid_settings(*settings),
            hold ==> segment.wf(data),
            output.wf(),
            -240 < phase <= 0,
            hold == (segment.unit_start != 0 && segment.amplitude != 0),
            segment.periods > 0,
            period <= segment.periods as usize,
            segment.periods as usize == segment.periods,
            (output@, phase) == pause_periods(data, *settings, segment, (old(output)@, old_phase), period as int),
        decreases segment.periods as usize - period,
    {
        if hold {
            let last_frame = segment.frames_end - segment.frames_start - 1;
            let offset = if period < last_frame { period } else { last_frame };
            let frame = data.frames[segment.unit_start + segment.frames_start + offset];
            let block = if frame.excitable {
                let coefficients = predictor(data, frame, settings);
                Some(excitation(&data.impulse, &coefficients, amplitude_index(segment.amplitude), BLOCK, 1564, &data.amplitude))
            } else {
                None
            };
            phase = step_period(output, &block, UNVOICED_PERIOD, phase);
        } else {
            output.advance(UNVOICED_PERIOD);
        }
        period += 1;
    }
    assert(period as int == segment.periods as int);
    phase
}

/// The excitation block, pitch period and next noise position of one scheduled
/// period of a voiced segment.
#[verifier::rlimit(60)]
fn period_excitation(
    tables: &SynthesisTables,
    segments: &Vec<Segment>,
    segment: Segment,
    index: usize,
    period: usize,
    scheduled: Option<usize>,
    noise_count: usize,
    data: &AcousticData,
    settings: &VoiceSettings,
    pitch_scale: i32,
) -> (result: (Option<Vec<i32>>, usize, usize))
    requires
        data.wf(),
        valid_settings(*settings),
        segments_wf(segments@, data),
        index < segments@.len(),
        segment == segments@[index as int],
        tables.holds(rendering(segments@, *settings, data), segments@.len() as int, data.frames@.len() as int),
        noise_count < 6,
        scheduled matches Some(f) ==> f <= segment.frames_end - segment.frames_start,
    ensures
        (block_view(result.0), result.1, result.2) == period_block(
            rendering(segments@, *settings, data),
            data,
            *settings,
            pitch_scale,
            segment,
            index as int,
            period as int,
            scheduled,
            noise_count,
        ),
        1 <= result.1 <= BLOCK,
        result.2 < 6,
{
    let ghost r = rendering(segments@, *settings, data);
    assert(segments@[index as int].wf(data));
    assert(tables.group_of@[index as int] < r.groups.len());
    let group_index = tables.group_of[index];
    let group = tables.groups[group_index];
    let mut step: usize = UNVOICED_PERIOD;
    let mut block: Option<Vec<i32>> = None;
    let mut noise_count = noise_count;
    if let Some(frame_offset) = scheduled {
        let absolute = segment.unit_start + segment.frames_start + frame_offset;
        // A lengthened unvoiced segment may repeat the frame just past its end.
        if absolute < data.frames.len() {
            let frame = data.frames[absolute];
            let envelope = &tables.amplitudes[group_index];
            let relative = segment.frames_start.wrapping_sub(group.frames_start).wrapping_add(frame_offset);
            let amplitude_offset = if relative < envelope.len() - 1 { relative } else { envelope.len() - 1 };
            let amplitude = amplitude_index(envelope[amplitude_offset]);
            if !frame.voiced || segment.devoiced {
                if frame.excitable {
                    let coefficients = predictor(data, frame, settings);
                    block = Some(noise(&data.noise, noise_count, &coefficients, amplitude, UNVOICED_PERIOD, 2048, &data.amplitude));
                    noise_count = if noise_count == 5 { 0 } else { noise_count + 1 };
                }
            } else {
                let contour = &tables.pitches[group_index];
                let pitch: i32 = if contour.len() == 0 {
                    0
                } else {
                    let position = (tables.pitch_offset[index] as usize).wrapping_add(period);
                    let last = contour.len() - 1;
                    contour[if position < last { position } else { last }]
                };
                let pitch_period = data.period(pitch, pitch_scale);
                if pitch_period > 0 {
                    assert(tables.frame_phonemes@[absolute as int] matches Some(p) ==> p < PHONEME_COUNT);
                    let phoneme = match tables.frame_phonemes[absolute] {
                        Some(p) => p,
                        None => segment.phoneme,
                    };
                    let coefficients = predictor(data, frame, settings);
                    block = Some(if phoneme_flags(phoneme) & 132 != 0 {
                        excitation(&data.pulse, &coefficients, amplitude, BLOCK, 1564, &data.amplitude)
                    } else {
                        excitation(&data.impulse, &coefficients, amplitude, BLOCK, 1564, &data.amplitude)
                    });
                    step = pitch_period;
                }
            }
        }
    }
    proof {
        reveal(period_block);
    }
    (block, step, noise_count)
}

/// Renders the scheduled periods of a voiced segment.
#[verifier::rlimit(60)]
fn voiced_segment(
    output: &mut Output,
    phase: i32,
    noise_count: usize,
    tables: &SynthesisTables,
    segments: &Vec<Segment>,
    index: usize,
    data: &AcousticData,
    settings: &VoiceSettings,
    pitch_scale: i32,
) -> (result: (i32, usize))
    requires
        data.wf(),
        valid_settings(*settings),
        segments_wf(segments@, data),
        index < segments@.len(),
        segments@[index as int].periods > 0,
        segments@[index as int].phoneme != 0,
        crate::utterance::groups_partition(segments@, tables.groups@),
        tables.holds(rendering(segments@, *settings, data), segments@.len() as int, data.frames@.len() as int),
        old(output).wf(),
        -240 < phase <= 0,
        noise_count < 6,
    ensures
        final(output).wf(),
        -240 < result.0 <= 0,
        result.1 < 6,
        (final(output)@, result.0, result.1) == segment_rendered(
            rendering(segments@, *settings, data),
            segments@,
            rendered_segments(segments@, *settings),
            data,
            *settings,
            pitch_scale,
            index as int,
            (old(output)@, phase, noise_count),
        ),
{
    let ghost r = rendering(segments@, *settings, data);
    let segment = segments[index];
    assert(segment.wf(data));
    let group_index = tables.group_of[index];
    let group = tables.groups[group_index];
    let first_of_group = index == group.segments_start;
    let phrase_first = index == 0 || segments[index - 1].phoneme == 0;
    let mut hold = if first_of_group && group.position != UnitPosition::Initial {
        Hold::Head
    } else {
        Hold::Tail
    };
    let flags = segment.flags();
    let frame_count = segment.frames_end - segment.frames_start;
    if (segment.periods as i64) > (frame_count as i64) && flags & 64 != 0 && flags & 128 != 0 {
        hold = if first_of_group || phrase_first {
            Hold::Tail
        } else {
            Hold::Neither
        };
    }
    assert(hold == segment_hold(segments@, group, segment, index as int));
    let mut voicing: Vec<bool> = Vec::new();
    let mut frame = segment.frames_start;
    while frame < segment.frames_end
        invariant
            segment.wf(data),
            data.frames@.len() < 0x8000_0000,
            segment.frames_start <= frame <= segment.frames_end,
            voicing@ == prosody::voicing_of(segment, data).take(frame - segment.frames_start),
        decreases segment.frames_end - frame,
    {
        voicing.push(!segment.devoiced && segment.pitch >= 0 && data.frames[segment.unit_start + frame].voiced);
        assert(prosody::voicing_of(segment, data).take(frame + 1 - segment.frames_start) =~= prosody::voicing_of(
            segment,
            data,
        ).take(frame - segment.frames_start).push(prosody::frame_voiced(segment, data, frame as int)));
        frame += 1;
    }
    assert(voicing@ =~= prosody::voicing_of(segment, data));
    let scheduled = schedule(
        &voicing,
        segment.periods as usize,
        FramePolicy {
            phoneme_flags: flags,
            hold,
            phrase_initial: group.position == UnitPosition::Initial,
        },
    );
    let ghost start = (output@, phase, noise_count);
    assert(segment.periods as usize == segment.periods);
    proof {
        reveal(voiced_periods);
    }
    let mut phase = phase;
    let mut noise_count = noise_count;
    let mut period: usize = 0;
    while period < scheduled.len()
        invariant
            data.wf(),
            valid_settings(*settings),
            segments_wf(segments@, data),
            index < segments@.len(),
            segment == segments@[index as int],
            tables.holds(r, segments@.len() as int, data.frames@.len() as int),
            r == rendering(segments@, *settings, data),
            output.wf(),
            -240 < phase <= 0,
            noise_count < 6,
            period <= scheduled@.len(),
            forall|i: int| 0 <= i < scheduled@.len() ==> (#[trigger] scheduled@[i] matches Some(f) ==> f <= voicing@.len()),
            voicing@.len() == segment.frames_end - segment.frames_start,
            (output@, phase, noise_count) == voiced_periods(
                r,
                data,
                *settings,
                pitch_scale,
                segment,
                index as int,
                scheduled@,
                start,
                period as int,
            ),
        decreases scheduled@.len() - period,
    {
        let (block, step, next_noise) = period_excitation(
            tables,
            segments,
            segment,
            index,
            period,
            scheduled[period],
            noise_count,
            data,
            settings,
            pitch_scale,
        );
        phase = step_period(output, &block, step, phase);
        noise_count = next_noise;
        proof {
            reveal(voiced_periods);
        }
        period += 1;
    }
    (phase, noise_count)
}

/// Renders analyzed segments as mono 16-bit PCM, in whole 240-sample blocks.
#[verifier::rlimit(60)]
pub fn synthesize(segments: &Vec<Segment>, settings: &VoiceSettings, pitch_scale: i32, data: &AcousticData) -> (pcm: Vec<i16>)
    requires
        data.wf(),
        valid_settings(*settings),
        segments_wf(segments@, data),
    ensures
        segments@.len() == 0 ==> pcm@.len() == 0,
        pcm@.len() % (BLOCK as nat) == 0,
        pcm@ == synthesized(segments@, *settings, pitch_scale, data),
{
    if segments.len() == 0 {
        return Vec::new();
    }
    assert forall|i: int| 0 <= i < segments@.len() implies shaped(#[trigger] segments@[i]) by {
        assert(segments@[i].wf(data));
    }
    let groups = group_segments(segments);
    let pitches = prosody::pitches(segments, &groups, settings);
    let ghost tables = rendering(segments@, *settings, data);
    let mut amplitudes: Vec<Vec<i32>> = Vec::new();
    let mut g: usize = 0;
    while g < groups.len()
        invariant
            data.wf(),
            segments_wf(segments@, data),
            crate::utterance::groups_partition(segments@, groups@),
            g <= groups@.len(),
            amplitudes@.len() == g,
            forall|h: int| 0 <= h < g ==> 1 <= #[trigger] amplitudes@[h]@.len(),
            groups@ == crate::utterance::unit_groups(segments@),
            forall|h: int| 0 <= h < g ==> #[trigger] amplitudes@[h]@ == prosody::envelope(segments@, groups@[h], data),
        decreases groups@.len() - g,
    {
        let group = groups[g];
        assert(group.segments_start < group.segments_end <= segments@.len());
        assert(group.frames_start == segments@[group.segments_start as int].frames_start);
        assert(segments@[group.segments_start as int].wf(data));
        assert forall|k: int| group.segments_start <= k < group.segments_end implies group.frames_start
            <= #[trigger] segments@[k].frames_start by {
            assert(segments@[k].unit_start == segments@[group.segments_start as int].unit_start);
        }
        let envelope = prosody::amplitudes(segments, &group, data);
        let ghost before = amplitudes@;
        amplitudes.push(envelope);
        proof {
            assert forall|h: int| 0 <= h < g + 1 implies #[trigger] amplitudes@[h]@ == prosody::envelope(
                segments@,
                groups@[h],
                data,
            ) by {
                if h < g {
                    assert(amplitudes@[h] == before[h]);
                }
            }
        }
        g += 1;
    }
    let mut group_of: Vec<usize> = vec![0usize; segments.len()];
    let mut pitch_offset: Vec<i32> = vec![0i32; segments.len()];
    let mut g: usize = 0;
    while g < groups.len()
        invariant
            crate::utterance::groups_partition(segments@, groups@),
            g <= groups@.len(),
            group_of@.len() == segments@.len(),
            pitch_offset@.len() == segments@.len(),
            forall|i: int| 0 <= i < segments@.len() ==> #[trigger] group_of@[i] < groups@.len(),
            (group_of@, pitch_offset@) == group_tables(segments@, groups@, g as int),
        decreases groups@.len() - g,
    {
        let group = groups[g];
        let mut offset: i32 = 0;
        let mut index = group.segments_start;
        let ghost entered = group_tables(segments@, groups@, g as int);
        assert(group.segments_start < group.segments_end);
        while index < group.segments_end
            invariant
                group.segments_end <= segments@.len(),
                g < groups@.len(),
                group == groups@[g as int],
                group.segments_start <= index <= group.segments_end,
                group_of@.len() == segments@.len(),
                pitch_offset@.len() == segments@.len(),
                forall|i: int| 0 <= i < segments@.len() ==> #[trigger] group_of@[i] < groups@.len(),
                (group_of@, pitch_offset@) == group_entries(segments@, groups@, g as int, index as int, entered),
                offset == prosody::period_sum(segments@, group.segments_start as int, index as int),
            decreases group.segments_end - index,
        {
            group_of.set(index, g);
            pitch_offset.set(index, offset);
            offset = offset.wrapping_add(segments[index].periods);
            index += 1;
        }
        g += 1;
    }
    let mut frame_phonemes: Vec<Option<usize>> = Vec::new();
    let mut f: usize = 0;
    while f < data.frames.len()
        invariant
            f <= data.frames@.len(),
            frame_phonemes@.len() == f,
            forall|i: int| 0 <= i < f ==> #[trigger] frame_phonemes@[i] is None,
        decreases data.frames@.len() - f,
    {
        frame_phonemes.push(None);
        f += 1;
    }
    assert(frame_phonemes@ =~= frame_table(segments@, data.frames@.len(), 0));
    let mut index: usize = 0;
    while index < segments.len()
        invariant
            data.wf(),
            segments_wf(segments@, data),
            index <= segments@.len(),
            frame_phonemes@.len() == data.frames@.len(),
            forall|i: int| 0 <= i < frame_phonemes@.len() ==> (#[trigger] frame_phonemes@[i] matches Some(p) ==> p < PHONEME_COUNT),
            frame_phonemes@ == frame_table(segments@, data.frames@.len(), index as int),
        decreases segments@.len() - index,
    {
        let segment = segments[index];
        assert(segment.wf(data));
        let ghost marked = frame_phonemes@;
        if segment.phoneme != 0 && segment.periods > 0 {
            let mut frame = segment.frames_start;
            while frame < segment.frames_end
                invariant
                    segment.wf(data),
                    data.frames@.len() < 0x8000_0000,
                    frame_phonemes@.len() == data.frames@.len(),
                    forall|i: int| 0 <= i < frame_phonemes@.len() ==> (#[trigger] frame_phonemes@[i] matches Some(p) ==> p < PHONEME_COUNT),
                    segment.phoneme != 0 && segment.periods > 0,
                    segment.frames_start <= frame <= segment.frames_end,
                    frame_phonemes@ == frames_marked(marked, segment, frame as int),
                decreases segment.frames_end - frame,
            {
                frame_phonemes.set(segment.unit_start + frame, Some(segment.phoneme));
                frame += 1;
            }
        }
        index += 1;
    }
    let mut work: Vec<Segment> = Vec::new();
    let mut index: usize = 0;
    while index < segments.len()
        invariant
            index <= segments@.len(),
            work@ =~= segments@.take(index as int),
        decreases segments@.len() - index,
    {
        work.push(segments[index]);
        index += 1;
    }
    let last = segments[segments.len() - 1];
    if last.phoneme != 0 {
        let mut periods = last.tail_periods;
        if settings.speed != 100 {
            periods = truncating_div_100(periods.wrapping_mul(settings.speed).wrapping_add(50));
        }
        work.push(Segment {
            phoneme: 0,
            periods,
            original_periods: periods,
            unit_start: 0,
            frames_start: 0,
            frames_end: 1,
            pitch: 0,
            amplitude: 0,
            devoiced: false,
            tail_periods: 200,
        });
    }
    assert(work@ =~= rendered_segments(segments@, *settings));
    let ghost with_tail = work@;
    assert(with_tail.len() == segments@.len() || (with_tail.len() == segments@.len() + 1
        && with_tail.last().phoneme == 0));
    assert(forall|i: int| 0 <= i < segments@.len() ==> #[trigger] with_tail[i] == segments@[i]);
    let tables_built = SynthesisTables {
        groups,
        pitches,
        amplitudes,
        group_of,
        pitch_offset,
        frame_phonemes,
    };
    assert(tables_built.holds(tables, segments@.len() as int, data.frames@.len() as int)) by {
        reveal(rendering);
    }
    let mut output = Output::new(settings, &data.ring_sine);
    let mut phase: i32 = 0;
    let mut noise_count: usize = 0;
    let mut index: usize = 0;
    while index < work.len()
        invariant
            data.wf(),
            valid_settings(*settings),
            segments_wf(segments@, data),
            segments@.len() <= usize::MAX,
            work@ == with_tail,
            with_tail.len() == segments@.len() || (with_tail.len() == segments@.len() + 1
                && with_tail.last().phoneme == 0 && with_tail.last().frames_start == 0
                && with_tail.last().frames_end == 1 && with_tail.last().unit_start == 0),
            forall|i: int| 0 <= i < segments@.len() ==> #[trigger] with_tail[i] == segments@[i],
            index <= work@.len(),
            output.wf(),
            -240 < phase <= 0,
            noise_count < 6,
            crate::utterance::groups_partition(segments@, tables_built.groups@),
            tables == rendering(segments@, *settings, data),
            with_tail == rendered_segments(segments@, *settings),
            tables_built.holds(tables, segments@.len() as int, data.frames@.len() as int),
            (output@, phase, noise_count) == rendered(
                tables,
                segments@,
                with_tail,
                data,
                *settings,
                pitch_scale,
                index as int,
            ),
        decreases work@.len() - index,
    {
        let segment = work[index];
        if segment.periods <= 0 {
            index += 1;
            continue;
        }
        if segment.phoneme == 0 {
            if segment.unit_start != 0 && segment.amplitude != 0 {
                assert(index < segments@.len());
                assert(segments@[index as int].wf(data));
            }
            phase = pause_segment(&mut output, segment, phase, data, settings);
            if index + 1 < work.len() {
                output.flush();
                output.reset_pointers();
            }
            index += 1;
            continue;
        }
        assert(index < segments@.len());
        let (next_phase, next_noise) = voiced_segment(
            &mut output,
            phase,
            noise_count,
            &tables_built,
            segments,
            index,
            data,
            settings,
            pitch_scale,
        );
        phase = next_phase;
        noise_count = next_noise;
        index += 1;
    }
    output.flush();
    output.samples
}


} // verus!

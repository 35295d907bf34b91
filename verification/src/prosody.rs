//! Per-period pitch and per-frame amplitude envelopes.
//!
//! Prosodic quantities wrap on overflow, as in the engine's release build.
use vstd::prelude::*;
use crate::acoustic::{AcousticData, clamp, clamp_i32, clamp_i64};
use crate::dsp::{pitch_div, pitch_quotient, rounded_div, rounded_quotient};
use crate::utterance::{Segment, UnitGroup, UnitPosition, groups_partition, known_phoneme, phoneme_flags_table, PHONEME_COUNT};
use crate::voice::{VoiceSettings, valid_settings};

verus! {

/// A linear ramp of `count` values from just after `previous` to about `target`,
/// with a Q6 step rounded by the pitch rule.
pub open spec fn ramp_spec(previous: i32, target: i32, count: i32) -> Seq<i32> {
    let step = pitch_quotient((target.wrapping_sub(previous) << 6) as int, count as int) as i32;
    Seq::new(
        if count > 0 {
            count as nat
        } else {
            0
        },
        |k: int| previous.wrapping_add(((k + 1) as i32).wrapping_mul(step) >> 6),
    )
}

pub fn ramp(previous: i32, target: i32, count: i32) -> (result: Vec<i32>)
    ensures
        result@ == ramp_spec(previous, target, count),
{
    let step = pitch_div(target.wrapping_sub(previous) << 6, count);
    let mut result: Vec<i32> = Vec::new();
    let mut index: i64 = 1;
    while index <= count as i64
        invariant
            1 <= index,
            count > 0 ==> index <= count + 1,
            count <= 0 ==> index == 1,
            step == pitch_quotient((target.wrapping_sub(previous) << 6) as int, count as int),
            result@ =~= ramp_spec(previous, target, count).take(index - 1),
        decreases count - index + 1,
    {
        result.push(previous.wrapping_add((index as i32).wrapping_mul(step) >> 6));
        index += 1;
    }
    result
}

/// Two ramps: `lead` values toward `middle`, then `tail` values toward `target`
/// from where the first ended.
pub open spec fn split_ramp_spec(start: i32, middle: i32, target: i32, lead: i32, tail: i32) -> Seq<i32> {
    let first = ramp_spec(start, middle, lead);
    let from = if first.len() > 0 {
        first.last()
    } else {
        start
    };
    first + ramp_spec(from, target, tail)
}

pub fn split_ramp(start: i32, middle: i32, target: i32, lead: i32, tail: i32) -> (result: Vec<i32>)
    ensures
        result@ == split_ramp_spec(start, middle, target, lead, tail),
{
    let mut result = ramp(start, middle, lead);
    let from = if result.len() > 0 {
        result[result.len() - 1]
    } else {
        start
    };
    let mut rest = ramp(from, target, tail);
    result.append(&mut rest);
    result
}

/// The magnitude of a segment's pitch, as `Segment::pitch` computes it, wrapping.
pub open spec fn pitch_of(segment: Segment) -> i32 {
    if segment.devoiced && segment.pitch < 0 {
        0i32.wrapping_sub(segment.pitch)
    } else {
        segment.pitch
    }
}

fn pitch_of_exec(segment: &Segment) -> (result: i32)
    ensures
        result == pitch_of(*segment),
{
    if segment.devoiced && segment.pitch < 0 {
        0i32.wrapping_sub(segment.pitch)
    } else {
        segment.pitch
    }
}

/// The total periods of a run of segments, accumulated with wrapping.
pub open spec fn period_sum(segments: Seq<Segment>, start: int, end: int) -> i32
    decreases end - start,
{
    if end <= start {
        0
    } else {
        period_sum(segments, start, end - 1).wrapping_add(segments[end - 1].periods)
    }
}

fn period_sum_exec(segments: &Vec<Segment>, start: usize, end: usize) -> (result: i32)
    requires
        start <= end <= segments@.len(),
    ensures
        result == period_sum(segments@, start as int, end as int),
{
    let mut sum: i32 = 0;
    let mut index = start;
    while index < end
        invariant
            start <= index <= end <= segments@.len(),
            sum == period_sum(segments@, start as int, index as int),
        decreases end - index,
    {
        sum = sum.wrapping_add(segments[index].periods);
        index += 1;
    }
    sum
}

/// Half a value, rounded toward zero.
pub open spec fn half_toward_zero(value: i32) -> i32 {
    if value >= 0 {
        (value / 2) as i32
    } else {
        (-((-value) / 2)) as i32
    }
}

fn half_toward_zero_exec(value: i32) -> (result: i32)
    ensures
        result == half_toward_zero(value),
{
    if value >= 0 {
        value / 2
    } else {
        -(((-(value as i64)) / 2) as i32)
    }
}

/// Whether a phrase-accent setting modulates pitch at all.
pub open spec fn modulation_on(phrase_accent: i32) -> bool {
    ((10 * phrase_accent * 655 + 32768) as i32 >> 16i32) != 0
}

/// The contour of one unit group and the carried state: the last pitch so far and
/// whether a medial group should continue an interpolation.
#[verifier::opaque]
pub open spec fn group_contour(
    segments: Seq<Segment>,
    group: UnitGroup,
    modulated: bool,
    previous: i32,
    pending: bool,
) -> (Seq<i32>, i32, bool) {
    let start = group.segments_start as int;
    let end = group.segments_end as int;
    let first = segments[start];
    let last = segments[end - 1];
    let count = period_sum(segments, start, end);
    if group.position == UnitPosition::Silence || count <= 0 {
        (Seq::empty(), previous, if group.position == UnitPosition::Silence {
            false
        } else {
            pending
        })
    } else {
        let current = pitch_of(last);
        let carry: i32 = if start > 0 && segments[start - 1].phoneme == 0 {
            segments[start - 1].periods
        } else {
            0
        };
        let has_next = end < segments.len() && segments[end].periods > 0;
        let next_pitch: i32 = if has_next {
            if segments[end].devoiced {
                0
            } else {
                pitch_of(segments[end])
            }
        } else {
            0
        };
        let next_count: i32 = if has_next {
            segments[end].original_periods
        } else {
            0
        };
        let interpolate = has_next && segments[end].phoneme == last.phoneme && next_pitch != current;
        let half = half_toward_zero(last.periods);
        let lead = count.wrapping_sub(half);
        let target = current.wrapping_add(
            pitch_quotient(
                last.periods.wrapping_mul(next_pitch.wrapping_sub(current)) as int,
                last.periods.wrapping_add(next_count) as int,
            ) as i32,
        );
        let onset = phoneme_flags_table()[first.phoneme as int] & 1 != 0;
        let (result, next_pending, base): (Seq<i32>, bool, i32) = if pending && group.position
            == UnitPosition::Medial {
            let first_half = half_toward_zero(first.periods.wrapping_add(1));
            (split_ramp_spec(previous, pitch_of(first), current, first_half, count.wrapping_sub(first_half)), false, previous)
        } else if group.position == UnitPosition::Initial {
            let slope: i32 = if modulated {
                15
            } else {
                0
            };
            if carry != 0 {
                if interpolate {
                    let start_pitch = previous.wrapping_add(
                        pitch_quotient(
                            carry.wrapping_mul(current.wrapping_sub(previous)) as int,
                            carry.wrapping_add(lead) as int,
                        ) as i32,
                    );
                    (split_ramp_spec(start_pitch, current, target, lead, half), true, previous)
                } else {
                    let start_pitch = previous.wrapping_add(
                        pitch_quotient(
                            carry.wrapping_mul(current.wrapping_sub(previous)) as int,
                            carry.wrapping_add(count) as int,
                        ) as i32,
                    );
                    (ramp_spec(start_pitch, current, count), pending, previous)
                }
            } else if interpolate {
                let start_pitch = if onset {
                    current
                } else {
                    current.wrapping_sub(lead.wrapping_mul(slope))
                };
                (split_ramp_spec(start_pitch, current, target, lead, half), true, previous)
            } else {
                let start_pitch = if onset {
                    current
                } else {
                    current.wrapping_sub(count.wrapping_mul(slope))
                };
                (ramp_spec(start_pitch, current, count), pending, previous)
            }
        } else if group.position == UnitPosition::Final {
            let fall: i32 = if modulated {
                10
            } else {
                0
            };
            (ramp_spec(previous, previous.wrapping_sub(count.wrapping_mul(fall)), count), pending, previous)
        } else if interpolate {
            (split_ramp_spec(previous, current, target, lead, half), true, previous)
        } else {
            let from = if previous <= 0 {
                pitch_of(first)
            } else {
                previous
            };
            (ramp_spec(from, current, count), pending, from)
        };
        (result, if result.len() > 0 {
            result.last()
        } else {
            base
        }, next_pending)
    }
}

/// The contours of the first `n` unit groups, and the state they leave.
pub open spec fn contours(segments: Seq<Segment>, groups: Seq<UnitGroup>, modulated: bool, n: int) -> (Seq<Seq<i32>>, i32, bool)
    decreases n,
{
    if n <= 0 {
        (Seq::empty(), 0, false)
    } else {
        let (before, previous, pending) = contours(segments, groups, modulated, n - 1);
        let (result, next_previous, next_pending) = group_contour(segments, groups[n - 1], modulated, previous, pending);
        (before.push(result), next_previous, next_pending)
    }
}

/// The pitch contour of one unit group, with the last pitch so far and whether a
/// medial group continues an interpolation.
fn group_pitches(
    segments: &Vec<Segment>,
    group: UnitGroup,
    modulated: bool,
    previous: i32,
    pending: bool,
) -> (result: (Vec<i32>, i32, bool))
    requires
        group.segments_start < group.segments_end <= segments@.len(),
        forall|i: int| 0 <= i < segments@.len() ==> known_phoneme(#[trigger] segments@[i]),
    ensures
        (result.0@, result.1, result.2) == group_contour(segments@, group, modulated, previous, pending),
{
    reveal(group_contour);
    let mut previous = previous;
    let mut pending = pending;
    let start = group.segments_start;
    let end = group.segments_end;
    let first = segments[start];
    let last = segments[end - 1];
    assert(known_phoneme(segments@[start as int]));
    let count = period_sum_exec(segments, start, end);
    if group.position == UnitPosition::Silence || count <= 0 {
        if group.position == UnitPosition::Silence {
            pending = false;
        }
        let empty: Vec<i32> = Vec::new();
        assert(empty@ =~= Seq::<i32>::empty());
        return (empty, previous, pending);
    }
    let current = pitch_of_exec(&last);
    let carry: i32 = if start > 0 && segments[start - 1].phoneme == 0 {
        segments[start - 1].periods
    } else {
        0
    };
    let has_next = end < segments.len() && segments[end].periods > 0;
    let (next_pitch, next_count, interpolate) = if has_next {
        let next = segments[end];
        let next_pitch = if next.devoiced {
            0
        } else {
            pitch_of_exec(&next)
        };
        (next_pitch, next.original_periods, next.phoneme == last.phoneme && next_pitch != current)
    } else {
        (0, 0, false)
    };
    let half = half_toward_zero_exec(last.periods);
    let lead = count.wrapping_sub(half);
    let target = current.wrapping_add(
        pitch_div(
            last.periods.wrapping_mul(next_pitch.wrapping_sub(current)),
            last.periods.wrapping_add(next_count),
        ),
    );
    let result = if pending && group.position == UnitPosition::Medial {
        pending = false;
        let half = half_toward_zero_exec(first.periods.wrapping_add(1));
        split_ramp(previous, pitch_of_exec(&first), current, half, count.wrapping_sub(half))
    } else if group.position == UnitPosition::Initial {
        let slope: i32 = if modulated { 15 } else { 0 };
        if carry != 0 {
            if interpolate {
                pending = true;
                let start_pitch = previous.wrapping_add(
                    pitch_div(
                        carry.wrapping_mul(current.wrapping_sub(previous)),
                        carry.wrapping_add(lead),
                    ),
                );
                split_ramp(start_pitch, current, target, lead, half)
            } else {
                let start_pitch = previous.wrapping_add(
                    pitch_div(
                        carry.wrapping_mul(current.wrapping_sub(previous)),
                        carry.wrapping_add(count),
                    ),
                );
                ramp(start_pitch, current, count)
            }
        } else if interpolate {
            pending = true;
            let start_pitch = if first.flags() & 1 != 0 {
                current
            } else {
                current.wrapping_sub(lead.wrapping_mul(slope))
            };
            split_ramp(start_pitch, current, target, lead, half)
        } else {
            let start_pitch = if first.flags() & 1 != 0 {
                current
            } else {
                current.wrapping_sub(count.wrapping_mul(slope))
            };
            ramp(start_pitch, current, count)
        }
    } else if group.position == UnitPosition::Final {
        let fall: i32 = if modulated { 10 } else { 0 };
        ramp(previous, previous.wrapping_sub(count.wrapping_mul(fall)), count)
    } else if interpolate {
        pending = true;
        split_ramp(previous, current, target, lead, half)
    } else {
        if previous <= 0 {
            previous = pitch_of_exec(&first);
        }
        ramp(previous, current, count)
    };
    if result.len() > 0 {
        previous = result[result.len() - 1];
    }
    (result, previous, pending)
}

proof fn lemma_contours_index(segments: Seq<Segment>, groups: Seq<UnitGroup>, modulated: bool, n: int, h: int)
    requires
        0 <= h < n <= groups.len(),
    ensures
        contours(segments, groups, modulated, n).0.len() == n,
        ({
            let prefix = contours(segments, groups, modulated, h);
            contours(segments, groups, modulated, n).0[h] == group_contour(segments, groups[h], modulated, prefix.1, prefix.2).0
        }),
    decreases n,
{
    if n > h + 1 {
        lemma_contours_index(segments, groups, modulated, n - 1, h);
    }
    lemma_contours_len(segments, groups, modulated, n);
}

proof fn lemma_silent_contour(segments: Seq<Segment>, group: UnitGroup, modulated: bool, previous: i32, pending: bool)
    ensures
        group.position == UnitPosition::Silence || period_sum(segments, group.segments_start as int, group.segments_end as int)
            <= 0 ==> group_contour(segments, group, modulated, previous, pending).0.len() == 0,
{
    reveal(group_contour);
}

proof fn lemma_contours_len(segments: Seq<Segment>, groups: Seq<UnitGroup>, modulated: bool, n: int)
    requires
        0 <= n,
    ensures
        contours(segments, groups, modulated, n).0.len() == n,
    decreases n,
{
    if n > 0 {
        lemma_contours_len(segments, groups, modulated, n - 1);
    }
}

/// The pitch contour of every unit group, one value per pitch period: groups
/// ramp between the pitches of consecutive groups, phrase-initial groups rise
/// into their first target, and phrase-final groups fall.
pub fn pitches(segments: &Vec<Segment>, groups: &Vec<UnitGroup>, settings: &VoiceSettings) -> (output: Vec<Vec<i32>>)
    requires
        valid_settings(*settings),
        groups_partition(segments@, groups@),
        forall|i: int| 0 <= i < segments@.len() ==> known_phoneme(#[trigger] segments@[i]),
    ensures
        output@.len() == groups@.len(),
        forall|g: int|
            0 <= g < groups@.len() ==> #[trigger] output@[g]@ == contours(
                segments@,
                groups@,
                modulation_on(settings.phrase_accent),
                groups@.len() as int,
            ).0[g],
        forall|g: int|
            0 <= g < groups@.len() && (groups@[g].position == UnitPosition::Silence || period_sum(
                segments@,
                groups@[g].segments_start as int,
                groups@[g].segments_end as int,
            ) <= 0) ==> #[trigger] output@[g]@.len() == 0,
{
    let mut output: Vec<Vec<i32>> = Vec::new();
    let mut previous: i32 = 0;
    let mut pending = false;
    let modulated = (10 * settings.phrase_accent * 655 + 32768) >> 16 != 0;
    let ghost on = modulation_on(settings.phrase_accent);
    assert(modulated == on);
    let mut g: usize = 0;
    while g < groups.len()
        invariant
            g <= groups@.len(),
            output@.len() == g,
            groups_partition(segments@, groups@),
            forall|i: int| 0 <= i < segments@.len() ==> known_phoneme(#[trigger] segments@[i]),
            modulated == on,
            forall|h: int| 0 <= h < g ==> #[trigger] output@[h]@ == contours(segments@, groups@, on, g as int).0[h],
            contours(segments@, groups@, on, g as int).0.len() == g,
            previous == contours(segments@, groups@, on, g as int).1,
            pending == contours(segments@, groups@, on, g as int).2,
        decreases groups@.len() - g,
    {
        let group = groups[g];
        assert(group.segments_start < group.segments_end <= segments@.len());
        let ghost before = output@;
        let ghost state = contours(segments@, groups@, on, g as int);
        let (result, next_previous, next_pending) = group_pitches(segments, group, modulated, previous, pending);
        assert(contours(segments@, groups@, on, g + 1) == (state.0.push(result@), next_previous, next_pending));
        output.push(result);
        previous = next_previous;
        pending = next_pending;
        proof {
            assert forall|h: int| 0 <= h < g + 1 implies #[trigger] output@[h]@ == contours(segments@, groups@, on, g + 1).0[h] by {
                if h < g {
                    assert(output@[h] == before[h]);
                }
            }
        }
        g += 1;
    }
    proof {
        assert forall|h: int|
            0 <= h < groups@.len() && (groups@[h].position == UnitPosition::Silence || period_sum(
                segments@,
                groups@[h].segments_start as int,
                groups@[h].segments_end as int,
            ) <= 0) implies #[trigger] output@[h]@.len() == 0 by {
            lemma_contours_index(segments@, groups@, on, groups@.len() as int, h);
            let prefix = contours(segments@, groups@, on, h);
            lemma_silent_contour(segments@, groups@[h], on, prefix.1, prefix.2);
        }
    }
    output
}

/// The amplitudes after shifting frames `0..index` from the last one down: frame
/// `i` moves by the current delta if voiced, else by the delta of the voiced frame
/// after it, and is limited to `0..=limit`; the delta falls by `increment` per frame.
pub open spec fn ramped_from(
    amplitudes: Seq<i32>,
    voiced: Seq<bool>,
    limit: i32,
    increment: i64,
    index: int,
    delta: i64,
    voiced_delta: i64,
) -> Seq<i32>
    decreases index,
{
    if index <= 0 {
        amplitudes
    } else {
        let i = index - 1;
        let shift = if voiced[i] {
            delta
        } else {
            voiced_delta
        };
        let shifted = amplitudes[i].wrapping_add((shift >> 16) as i32);
        let floored = if shifted < 0 {
            0
        } else {
            shifted
        };
        let value = if floored > limit {
            limit
        } else {
            floored
        };
        let next = (delta - increment) as i64;
        ramped_from(
            amplitudes.update(i, value),
            voiced,
            limit,
            increment,
            i,
            next,
            if voiced[i] {
                next
            } else {
                voiced_delta
            },
        )
    }
}

/// The amplitudes shifted by a delta moving linearly from `start` at the first
/// frame to `end` at the last, both within `-400..=400`.
pub open spec fn ramped(amplitudes: Seq<i32>, voiced: Seq<bool>, start: i32, end: i32) -> Seq<i32> {
    let length = amplitudes.len() as int;
    let start = clamp(start as int, -400, 400);
    let end = clamp(end as int, -400, 400);
    let first = amplitudes[0] + start;
    let last = amplitudes[length - 1] + end;
    let limit = if first >= last {
        first
    } else {
        last
    };
    let increment = if length > 1 {
        clamp(
            (rounded_quotient(((end - start) as i64 as int) * 2048, length - 1) as i64 as int) * 32,
            -6553600,
            6553600,
        )
    } else {
        0
    };
    ramped_from(amplitudes, voiced, limit as i32, increment as i64, length, (end * 65536) as i64, (end * 65536) as i64)
}

/// Shifts a group's frame amplitudes by a delta that moves linearly from `start` at
/// the first frame to `end` at the last; unvoiced frames keep the delta of the
/// voiced frame after them. Values are limited to `0..=limit`, where the limit is
/// the larger of the shifted end points.
#[verifier::rlimit(60)]
pub fn amplitude_ramp(amplitudes: &mut Vec<i32>, voiced: &Vec<bool>, start: i32, end: i32)
    requires
        old(amplitudes)@.len() >= 1,
        old(amplitudes)@.len() < 0x8000_0000,
        voiced@.len() == old(amplitudes)@.len(),
        forall|i: int| 0 <= i < old(amplitudes)@.len() ==> -32768 <= #[trigger] old(amplitudes)@[i] <= 32767,
    ensures
        final(amplitudes)@.len() == old(amplitudes)@.len(),
        forall|i: int| 0 <= i < final(amplitudes)@.len() ==> -33168 <= #[trigger] final(amplitudes)@[i] <= 33167,
        forall|i: int| 0 <= i < final(amplitudes)@.len() ==> #[trigger] final(amplitudes)@[i] <= clamp(start as int, -400, 400) + old(amplitudes)@[0]
            || final(amplitudes)@[i] <= clamp(end as int, -400, 400) + old(amplitudes)@.last(),
        final(amplitudes)@ == ramped(old(amplitudes)@, voiced@, start, end),
{
    let ghost requested = (start, end);
    let length = amplitudes.len();
    let start = clamp_i32(start, -400, 400);
    let end = clamp_i32(end, -400, 400);
    let first = amplitudes[0] + start;
    let final_value = amplitudes[length - 1] + end;
    let limit: i32 = if first >= final_value { first } else { final_value };
    let increment: i64 = if length > 1 {
        let span: i64 = (end - start) as i64;
        assert(span << 11 == span * 2048) by (bit_vector)
            requires
                -800 <= span <= 800;
        let quotient = rounded_div(span << 11, length as i64 - 1);
        assert(-0x100_0000 <= quotient <= 0x100_0000) by {
            let n = crate::dsp::abs(span * 2048);
            let d = length - 1;
            assert((n + d / 2) / d <= n + 1) by (nonlinear_arith)
                requires
                    0 <= n <= 1638400,
                    d >= 1;
        }
        assert(quotient << 5 == quotient * 32) by (bit_vector)
            requires
                -0x100_0000 <= quotient <= 0x100_0000;
        clamp_i64(quotient << 5, -6553600, 6553600)
    } else {
        0
    };
    let wide_end: i64 = end as i64;
    assert(wide_end << 16 == wide_end * 65536) by (bit_vector)
        requires
            -400 <= wide_end <= 400;
    let mut delta: i64 = wide_end << 16;
    let mut voiced_delta: i64 = delta;
    let mut index = length;
    while index > 0
        invariant
            0 <= index <= length == amplitudes@.len() == voiced@.len(),
            -6553600 <= increment <= 6553600,
            -400 <= end <= 400,
            delta == end * 65536 - (length - index) * increment,
            -0x100_0000_0000_0000 <= voiced_delta <= 0x100_0000_0000_0000,
            length < 0x8000_0000,
            -33168 <= limit <= 33167,
            forall|i: int| index <= i < length ==> -33168 <= #[trigger] amplitudes@[i] <= 33167 && amplitudes@[i] <= limit,
            ramped_from(amplitudes@, voiced@, limit, increment, index as int, delta, voiced_delta) == ramped(
                old(amplitudes)@,
                voiced@,
                requested.0,
                requested.1,
            ),
        decreases index,
    {
        let ghost before = (amplitudes@, delta, voiced_delta);
        index -= 1;
        let shift: i64 = if voiced[index] { delta } else { voiced_delta };
        let shifted: i32 = amplitudes[index].wrapping_add((shift >> 16) as i32);
        let value = if shifted < 0 { 0 } else { shifted };
        let value = if value > limit { limit } else { value };
        amplitudes.set(index, value);
        assert(-0x80_0000_0000_0000 <= (length - index) * increment <= 0x80_0000_0000_0000) by (nonlinear_arith)
            requires
                0 <= length - index <= 0x8000_0000,
                -6553600 <= increment <= 6553600;
        assert((length - index) * increment == (length - (index + 1)) * increment + increment) by (nonlinear_arith);
        delta = delta - increment;
        if voiced[index] {
            voiced_delta = delta;
        }
        assert(ramped_from(before.0, voiced@, limit, increment, index + 1, before.1, before.2) == ramped_from(
            amplitudes@,
            voiced@,
            limit,
            increment,
            index as int,
            delta,
            voiced_delta,
        ));
    }
}

/// Whether a segment's frame is voiced in synthesis: the frame is voiced and the
/// segment is neither devoiced nor unpitched.
pub open spec fn frame_voiced(segment: Segment, data: &AcousticData, offset: int) -> bool {
    !segment.devoiced && segment.pitch >= 0 && data.frames@[segment.unit_start + offset].voiced
}

/// The number of frames of a group's envelope: its frame span, at least one,
/// within the stored frames.
pub open spec fn envelope_length(segments: Seq<Segment>, group: UnitGroup, data: &AcousticData) -> int {
    let base = segments[group.segments_start as int].unit_start + group.frames_start;
    let span = group.frames_end - group.frames_start;
    let length = if span < 1 {
        1
    } else {
        span
    };
    if length > data.frames@.len() - base {
        data.frames@.len() - base
    } else {
        length
    }
}

/// The voicing marks after the frames of `segment` before `offset_end` are marked.
pub open spec fn marked_frames(marks: Seq<bool>, segment: Segment, group: UnitGroup, data: &AcousticData, offset_end: int) -> Seq<bool>
    decreases offset_end - segment.frames_start,
{
    if offset_end <= segment.frames_start {
        marks
    } else {
        let previous = marked_frames(marks, segment, group, data, offset_end - 1);
        let slot = offset_end - 1 - group.frames_start;
        if slot < previous.len() {
            previous.update(slot, frame_voiced(segment, data, offset_end - 1))
        } else {
            previous
        }
    }
}

/// The voicing of the group's frames as marked by its segments before `k`, later
/// segments overriding earlier ones.
pub open spec fn voicing_marks(segments: Seq<Segment>, group: UnitGroup, data: &AcousticData, length: int, k: int) -> Seq<bool>
    decreases k,
{
    if k <= group.segments_start {
        Seq::new(length as nat, |i: int| false)
    } else {
        marked_frames(
            voicing_marks(segments, group, data, length, k - 1),
            segments[k - 1],
            group,
            data,
            segments[k - 1].frames_end as int,
        )
    }
}

/// The envelope with the first `step` of six frames from `slot` lowered by
/// 240, 200, ..., 40, not below zero.
pub open spec fn faded_steps(amplitudes: Seq<i32>, slot: int, step: int) -> Seq<i32>
    decreases step,
{
    if step <= 0 {
        amplitudes
    } else {
        let previous = faded_steps(amplitudes, slot, step - 1);
        let at = slot + step - 1;
        if at < previous.len() {
            let lowered = previous[at] - (6 - (step - 1)) * 40;
            previous.update(
                at,
                if lowered < 0 {
                    0
                } else {
                    lowered as i32
                },
            )
        } else {
            previous
        }
    }
}

/// The frames of a segment as voiced in synthesis.
pub open spec fn voicing_of(segment: Segment, data: &AcousticData) -> Seq<bool> {
    Seq::new(
        (segment.frames_end - segment.frames_start) as nat,
        |o: int| frame_voiced(segment, data, segment.frames_start + o),
    )
}

/// The first unvoiced frame at or after `i`, or the frame count.
pub open spec fn first_unvoiced_from(voicing: Seq<bool>, i: int) -> int
    decreases voicing.len() - i,
{
    if 0 <= i < voicing.len() && voicing[i] {
        first_unvoiced_from(voicing, i + 1)
    } else {
        i
    }
}

/// The end of the unvoiced run from `end`, looking no further than `start` frames
/// before the end.
pub open spec fn unvoiced_end(voicing: Seq<bool>, start: int, end: int) -> int
    decreases voicing.len() - end,
{
    if 0 <= end < voicing.len() && !voicing[end] {
        if end + 1 >= voicing.len() - start {
            end + 1
        } else {
            unvoiced_end(voicing, start, end + 1)
        }
    } else {
        end
    }
}

/// The envelope with the onset of a long unvoiced stretch of a lengthened,
/// fricative-like segment faded in.
pub open spec fn segment_faded(amplitudes: Seq<i32>, segment: Segment, group: UnitGroup, data: &AcousticData) -> Seq<i32> {
    let flags = phoneme_flags_table()[segment.phoneme as int];
    if segment.phoneme == 0 || segment.periods <= segment.frames_end - segment.frames_start || flags & (128u8 | 4u8 | 8u8)
        != 0 || flags & 16u8 == 0 || flags & 2u8 == 0 {
        amplitudes
    } else {
        let voicing = voicing_of(segment, data);
        let start = first_unvoiced_from(voicing, 0);
        if start == voicing.len() {
            amplitudes
        } else {
            let end = if start < voicing.len() - start {
                unvoiced_end(voicing, start, start)
            } else {
                start
            };
            if end - start < 6 {
                amplitudes
            } else {
                faded_steps(amplitudes, segment.frames_start - group.frames_start + start, 6)
            }
        }
    }
}

/// The envelope after fading the segments before `k`.
pub open spec fn faded(amplitudes: Seq<i32>, segments: Seq<Segment>, group: UnitGroup, data: &AcousticData, k: int) -> Seq<i32>
    decreases k,
{
    if k <= group.segments_start {
        amplitudes
    } else {
        segment_faded(faded(amplitudes, segments, group, data, k - 1), segments[k - 1], group, data)
    }
}

/// The amplitude envelope of a unit group.
pub open spec fn envelope(segments: Seq<Segment>, group: UnitGroup, data: &AcousticData) -> Seq<i32> {
    let first = segments[group.segments_start as int];
    let last = segments[group.segments_end - 1];
    let base = first.unit_start + group.frames_start;
    let length = envelope_length(segments, group, data);
    let stored = Seq::new(length as nat, |i: int| data.frames@[base + i].amplitude);
    let marks = voicing_marks(segments, group, data, length, group.segments_end as int);
    let head = stored[0];
    let tail = stored[length - 1];
    let (start_delta, end_delta) = if group.position == UnitPosition::Initial || group.position
        == UnitPosition::AlternatingSecond {
        (last.amplitude.wrapping_sub(tail), last.amplitude.wrapping_sub(tail))
    } else if group.position != UnitPosition::Final && group.segments_end - group.segments_start > 1
        && crate::utterance::sonorant_phoneme(first.phoneme as int) && crate::utterance::sonorant_phoneme(
        last.phoneme as int,
    ) {
        (first.amplitude.wrapping_sub(head), last.amplitude.wrapping_sub(tail))
    } else {
        (first.amplitude.wrapping_sub(head), first.amplitude.wrapping_sub(head))
    };
    faded(ramped(stored, marks, start_delta, end_delta), segments, group, data, group.segments_end as int)
}

/// The amplitude envelope of a unit group, one value per frame: the stored frame
/// amplitudes ramped toward the segments' target amplitudes, with the onset of
/// long unvoiced stretches faded in.
#[verifier::rlimit(60)]
pub fn amplitudes(segments: &Vec<Segment>, group: &UnitGroup, data: &AcousticData) -> (result: Vec<i32>)
    requires
        data.wf(),
        group.segments_start < group.segments_end <= segments@.len(),
        group.frames_start == segments@[group.segments_start as int].frames_start,
        forall|k: int|
            group.segments_start <= k < group.segments_end ==> #[trigger] segments@[k].unit_start
                == segments@[group.segments_start as int].unit_start
                && segments@[k].frames_end <= group.frames_end
                && group.frames_start <= segments@[k].frames_start,
        forall|i: int| 0 <= i < segments@.len() ==> #[trigger] segments@[i].wf(data),
    ensures
        1 <= result@.len(),
        forall|i: int| 0 <= i < result@.len() ==> -33168 <= #[trigger] result@[i] <= 33167,
        result@ == envelope(segments@, *group, data),
{
    let first = segments[group.segments_start];
    let last = segments[group.segments_end - 1];
    assert(first.wf(data));
    assert(first.unit_start + first.frames_end <= data.frames@.len());
    let base = first.unit_start + group.frames_start;
    let span = group.frames_end - group.frames_start;
    let length: usize = if span < 1 { 1 } else { span };
    let length: usize = if length > data.frames.len() - base { data.frames.len() - base } else { length };
    let mut amplitudes: Vec<i32> = Vec::new();
    let mut voiced: Vec<bool> = Vec::new();
    let mut frame: usize = 0;
    while frame < length
        invariant
            data.wf(),
            base + length <= data.frames@.len(),
            frame <= length,
            amplitudes@.len() == frame,
            voiced@.len() == frame,
            forall|i: int| 0 <= i < frame ==> -32768 <= #[trigger] amplitudes@[i] <= 32767,
            forall|i: int| 0 <= i < frame ==> #[trigger] amplitudes@[i] == data.frames@[base + i].amplitude,
            forall|i: int| 0 <= i < frame ==> !#[trigger] voiced@[i],
        decreases length - frame,
    {
        amplitudes.push(data.frames[base + frame].amplitude);
        voiced.push(false);
        frame += 1;
    }
    let ghost stored = amplitudes@;
    assert(stored =~= Seq::new(length as nat, |i: int| data.frames@[base + i].amplitude));
    assert(voiced@ =~= voicing_marks(segments@, *group, data, length as int, group.segments_start as int));
    assert(length == envelope_length(segments@, *group, data));
    let mut index = group.segments_start;
    while index < group.segments_end
        invariant
            data.wf(),
            group.segments_start <= index <= group.segments_end <= segments@.len(),
            voiced@.len() == length,
            voiced@ == voicing_marks(segments@, *group, data, length as int, index as int),
            forall|k: int|
                group.segments_start <= k < group.segments_end ==> #[trigger] segments@[k].unit_start
                    == segments@[group.segments_start as int].unit_start
                    && segments@[k].frames_end <= group.frames_end
                    && group.frames_start <= segments@[k].frames_start,
            forall|i: int| 0 <= i < segments@.len() ==> #[trigger] segments@[i].wf(data),
        decreases group.segments_end - index,
    {
        let segment = segments[index];
        assert(segment.wf(data));
        assert(segment.unit_start + segment.frames_end <= data.frames@.len());
        let ghost marks = voiced@;
        let mut offset = segment.frames_start;
        while offset < segment.frames_end
            invariant
                segment.unit_start + segment.frames_end <= data.frames@.len() < 0x8000_0000,
                group.frames_start <= segment.frames_start <= offset <= segment.frames_end,
                voiced@.len() == length,
                voiced@ == marked_frames(marks, segment, *group, data, offset as int),
            decreases segment.frames_end - offset,
        {
            let slot = offset - group.frames_start;
            if slot < voiced.len() {
                voiced.set(slot, !segment.devoiced && segment.pitch >= 0 && data.frames[segment.unit_start + offset].voiced);
            }
            offset += 1;
        }
        index += 1;
    }
    assert(last.wf(data));
    let head = amplitudes[0];
    let tail = amplitudes[length - 1];
    let (start_delta, end_delta) = if group.position == UnitPosition::Initial || group.position
        == UnitPosition::AlternatingSecond {
        (last.amplitude.wrapping_sub(tail), last.amplitude.wrapping_sub(tail))
    } else if group.position != UnitPosition::Final && group.segments_end - group.segments_start
        > 1 && first.sonorant() && last.sonorant() {
        (first.amplitude.wrapping_sub(head), last.amplitude.wrapping_sub(tail))
    } else {
        (first.amplitude.wrapping_sub(head), first.amplitude.wrapping_sub(head))
    };
    amplitude_ramp(&mut amplitudes, &voiced, start_delta, end_delta);
    let ghost ramped_envelope = amplitudes@;
    assert(forall|k: int|
        group.segments_start <= k < group.segments_end ==> #[trigger] segments@[k].unit_start
            == segments@[group.segments_start as int].unit_start
            && segments@[k].frames_end <= group.frames_end
            && group.frames_start <= segments@[k].frames_start);
    let mut index = group.segments_start;
    while index < group.segments_end
        invariant
            data.wf(),
            group.segments_start <= index <= group.segments_end <= segments@.len(),
            amplitudes@.len() == length,
            forall|i: int| 0 <= i < length ==> -33168 <= #[trigger] amplitudes@[i] <= 33167,
            amplitudes@ == faded(ramped_envelope, segments@, *group, data, index as int),
            forall|k: int|
                group.segments_start <= k < group.segments_end ==> #[trigger] segments@[k].unit_start
                    == segments@[group.segments_start as int].unit_start
                    && segments@[k].frames_end <= group.frames_end
                    && group.frames_start <= segments@[k].frames_start,
            forall|i: int| 0 <= i < segments@.len() ==> #[trigger] segments@[i].wf(data),
        decreases group.segments_end - index,
    {
        let segment = segments[index];
        assert(segment.wf(data));
        assert(segment.unit_start + segment.frames_end <= data.frames@.len());
        let ghost before = amplitudes@;
        assert(faded(ramped_envelope, segments@, *group, data, index + 1) == segment_faded(before, segment, *group, data));
        index += 1;
        let flags = segment.flags();
        let frame_count = segment.frames_end - segment.frames_start;
        if segment.phoneme == 0 || (segment.periods as i64) <= (frame_count as i64) || flags & (128
            | 4 | 8) != 0 || flags & 16 == 0 || flags & 2 == 0 {
            continue;
        }
        let mut voicing: Vec<bool> = Vec::new();
        let mut offset = segment.frames_start;
        while offset < segment.frames_end
            invariant
                segment.unit_start + segment.frames_end <= data.frames@.len() < 0x8000_0000,
                segment.frames_start <= offset <= segment.frames_end,
                voicing@.len() == offset - segment.frames_start,
                voicing@ == voicing_of(segment, data).take(offset - segment.frames_start),
            decreases segment.frames_end - offset,
        {
            voicing.push(!segment.devoiced && segment.pitch >= 0 && data.frames[segment.unit_start + offset].voiced);
            assert(voicing_of(segment, data).take(offset + 1 - segment.frames_start) =~= voicing_of(segment, data).take(
                offset - segment.frames_start,
            ).push(frame_voiced(segment, data, offset as int)));
            offset += 1;
        }
        assert(voicing@ =~= voicing_of(segment, data));
        assert(voicing@.len() < 0x8000_0000);
        let mut start: usize = 0;
        while start < voicing.len() && voicing[start]
            invariant
                start <= voicing@.len(),
                first_unvoiced_from(voicing@, start as int) == first_unvoiced_from(voicing@, 0),
            decreases voicing@.len() - start,
        {
            start += 1;
        }
        if start == voicing.len() {
            continue;
        }
        let mut end = start;
        if start < voicing.len() - start {
            while !voicing[end]
                invariant_except_break
                    end < voicing@.len() - start,
                    unvoiced_end(voicing@, start as int, end as int) == unvoiced_end(voicing@, start as int, start as int),
                invariant
                    start <= end <= voicing@.len() - start,
                    start < voicing@.len() < 0x8000_0000,
                ensures
                    start <= end <= voicing@.len(),
                    end == unvoiced_end(voicing@, start as int, start as int),
                decreases voicing@.len() - end,
            {
                let ghost previous = end;
                end += 1;
                if end >= voicing.len() - start {
                    assert(unvoiced_end(voicing@, start as int, previous as int) == end);
                    break;
                }
            }
        }
        if end - start < 6 {
            continue;
        }
        let mut step: usize = 0;
        while step < 6
            invariant
                step <= 6,
                amplitudes@.len() == length,
                forall|i: int| 0 <= i < length ==> -33168 <= #[trigger] amplitudes@[i] <= 33167,
                amplitudes@ == faded_steps(before, segment.frames_start - group.frames_start + start, step as int),
                group.frames_start <= segment.frames_start,
                start < voicing@.len() == segment.frames_end - segment.frames_start,
                segment.unit_start + segment.frames_end <= data.frames@.len() < 0x8000_0000,
            decreases 6 - step,
        {
            let slot = segment.frames_start - group.frames_start + start + step;
            if slot < amplitudes.len() {
                let lowered = amplitudes[slot] - (6 - step as i32) * 40;
                amplitudes.set(slot, if lowered < 0 { 0 } else { lowered });
            }
            step += 1;
        }
    }
    amplitudes
}

} // verus!

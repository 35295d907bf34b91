//! Context-dependent unit lookup and duration allocation.
use vstd::prelude::*;
use super::{Entry, entries_wf, duration_total};
use crate::acoustic::{AcousticData, Unit, unit_fits};
use crate::utterance::{Segment, segments_wf};

verus! {

/// Which neighbours of a unit are part of its key.
#[derive(Clone, Copy, Debug, PartialEq, Eq, Structural)]
pub enum Boundary {
    Initial,
    Final,
    Medial,
    LeftOnly,
}

/// The phoneme key of a span: a leading pause for an initial unit, up to three
/// phonemes of the span, a trailing pause for a final unit, and 7 for unused places.
pub open spec fn key_spec(entries: Seq<Entry>, boundary: Boundary, start: int, end: int) -> Seq<usize> {
    let covered: Seq<usize> = if 0 <= start <= end <= entries.len() {
        entries.subrange(start, end).map_values(|e: Entry| e.phoneme)
    } else {
        Seq::empty()
    };
    let lead: Seq<usize> = if boundary == Boundary::Initial {
        seq![0usize]
    } else {
        Seq::empty()
    };
    let joined = lead + covered;
    let body = if joined.len() <= 3 { joined } else { joined.take(3) };
    let tail: Seq<usize> = if boundary == Boundary::Final && body.len() < 3 {
        seq![0usize]
    } else {
        Seq::empty()
    };
    let keyed = body + tail;
    Seq::new(3, |i: int| if i < keyed.len() { keyed[i] } else { 7usize })
}

pub fn key(entries: &Vec<Entry>, boundary: Boundary, start: usize, end: usize) -> (result: [usize; 3])
    ensures
        result@ == key_spec(entries@, boundary, start as int, end as int),
{
    let mut result: [usize; 3] = [7, 7, 7];
    let mut offset: usize = if boundary == Boundary::Initial {
        result[0] = 0;
        1
    } else {
        0
    };
    let ghost lead: Seq<usize> = if boundary == Boundary::Initial { seq![0usize] } else { Seq::empty() };
    let ghost covered: Seq<usize> = if start <= end && end <= entries@.len() {
        entries@.subrange(start as int, end as int).map_values(|e: Entry| e.phoneme)
    } else {
        Seq::empty()
    };
    if start <= end && end <= entries.len() {
        let mut index = start;
        while index < end && offset < 3
            invariant
                start <= index <= end <= entries@.len(),
                offset == lead.len() + (index - start),
                offset <= 3,
                covered == entries@.subrange(start as int, end as int).map_values(|e: Entry| e.phoneme),
                forall|i: int| 0 <= i < offset ==> result@[i] == (lead + covered)[i],
                forall|i: int| offset <= i < 3 ==> result@[i] == 7,
            decreases end - index,
        {
            result[offset] = entries[index].phoneme;
            offset += 1;
            index += 1;
        }
        assert(covered.len() == end - start);
    } else {
        assert(covered.len() == 0);
    }
    let ghost joined = lead + covered;
    assert(offset == if joined.len() <= 3 { joined.len() } else { 3 });
    if boundary == Boundary::Final && offset < 3 {
        result[offset] = 0;
    }
    assert(result@ =~= key_spec(entries@, boundary, start as int, end as int));
    result
}

/// The stored unit for a span, if any.
pub fn lookup(entries: &Vec<Entry>, boundary: Boundary, start: usize, end: usize, data: &AcousticData) -> (result: Option<Unit>)
    ensures
        ({
            let k = key_spec(entries@, boundary, start as int, end as int);
            result == data.unit_of(k[0] as int, k[1] as int, k[2] as int)
        }),
{
    let k = key(entries, boundary, start, end);
    data.unit(k[0], k[1], k[2])
}

} // verus!

verus! {

/// The frame ranges of a unit's boundaries from index `i` on: each boundary past
/// the previous end closes a range; the others are skipped.
pub open spec fn ranges_from(boundaries: Seq<u8>, i: int, previous: usize) -> Seq<(usize, usize)>
    decreases boundaries.len() - i,
{
    if i < 0 || i >= boundaries.len() {
        Seq::empty()
    } else if boundaries[i] as usize <= previous {
        ranges_from(boundaries, i + 1, previous)
    } else {
        seq![(previous, boundaries[i] as usize)] + ranges_from(boundaries, i + 1, boundaries[i] as usize)
    }
}

/// The frame ranges of a unit, relative to its first frame.
pub open spec fn unit_ranges(unit: Unit) -> Seq<(usize, usize)> {
    ranges_from(unit.boundaries@, 0, 0)
}

proof fn lemma_ranges_bounded(boundaries: Seq<u8>, i: int, previous: usize, bound: int)
    requires
        0 <= i,
        forall|j: int| i <= j < boundaries.len() ==> #[trigger] boundaries[j] <= bound,
    ensures
        forall|m: int|
            0 <= m < ranges_from(boundaries, i, previous).len() ==> previous <= (
            #[trigger] ranges_from(boundaries, i, previous)[m]).0 < ranges_from(boundaries, i, previous)[m].1 <= bound,
    decreases boundaries.len() - i,
{
    if i >= boundaries.len() {
        assert(ranges_from(boundaries, i, previous).len() == 0);
    } else {
        if boundaries[i] as usize <= previous {
            lemma_ranges_bounded(boundaries, i + 1, previous, bound);
            assert(ranges_from(boundaries, i, previous) == ranges_from(boundaries, i + 1, previous));
        } else {
            lemma_ranges_bounded(boundaries, i + 1, boundaries[i] as usize, bound);
            assert(boundaries[i] <= bound);
            let rest = ranges_from(boundaries, i + 1, boundaries[i] as usize);
            assert forall|m: int| 0 <= m < ranges_from(boundaries, i, previous).len() implies previous
                <= (#[trigger] ranges_from(boundaries, i, previous)[m]).0 < ranges_from(boundaries, i, previous)[m].1
                <= bound by {
                if m > 0 {
                    assert(ranges_from(boundaries, i, previous)[m] == rest[m - 1]);
                }
            }
        }
    }
}

/// The frame ranges of a unit.
fn ranges_of(unit: Unit) -> (ranges: Vec<(usize, usize)>)
    ensures
        ranges@ == unit_ranges(unit),
        ranges@.len() <= 4,
{
    let mut ranges: Vec<(usize, usize)> = Vec::new();
    let mut previous: usize = 0;
    let mut i: usize = 0;
    while i < 4
        invariant
            i <= 4,
            ranges@ + ranges_from(unit.boundaries@, i as int, previous) == unit_ranges(unit),
            ranges@.len() <= i,
        decreases 4 - i,
    {
        let end = unit.boundaries[i] as usize;
        if end > previous {
            let ghost before = ranges@;
            ranges.push((previous, end));
            assert(ranges@ + ranges_from(unit.boundaries@, i + 1, end) =~= before + ranges_from(
                unit.boundaries@,
                i as int,
                previous,
            ));
            previous = end;
        }
        i += 1;
    }
    assert(ranges_from(unit.boundaries@, 4, previous) =~= Seq::<(usize, usize)>::empty());
    assert(ranges@ =~= ranges@ + Seq::<(usize, usize)>::empty());
    ranges
}

/// Where the `k`-th of `count` near-equal shares of `len` items begins: the first
/// `len % count` shares hold one item more.
pub open spec fn share_start(len: int, count: int, k: int) -> int {
    k * (len / count) + if k < len % count {
        k
    } else {
        len % count
    }
}

proof fn lemma_share_bounds(len: int, count: int, k: int)
    requires
        0 < count <= len,
        0 <= k < count,
    ensures
        0 <= share_start(len, count, k) < share_start(len, count, k + 1) <= len,
        share_start(len, count, k + 1) == share_start(len, count, k) + len / count + if k < len % count {
            1int
        } else {
            0int
        },
{
    let base = len / count;
    let extra = len % count;
    assert(count * base + extra == len && 0 <= extra < count) by (nonlinear_arith)
        requires
            base == len / count,
            extra == len % count,
            0 < count,
    ;
    assert(base >= 1) by (nonlinear_arith)
        requires
            count * base + extra == len,
            0 <= extra < count,
            count <= len,
    ;
    assert((k + 1) * base == k * base + base) by (nonlinear_arith);
    assert(0 <= k * base) by (nonlinear_arith)
        requires
            0 <= k,
            base >= 1,
    ;
    assert((k + 1) * base <= count * base) by (nonlinear_arith)
        requires
            k + 1 <= count,
            base >= 1,
    ;
    if k + 1 < extra {
        assert((k + 1) * base + k + 1 <= count * base + extra);
    }
}

/// The end of a span once a left-only unit drops its last phoneme.
pub open spec fn covered_end(boundary: Boundary, end: int) -> int {
    if boundary == Boundary::LeftOnly && end > 0 {
        end - 1
    } else {
        end
    }
}

/// How many segments a unit yields over a span: one per frame range, but no more
/// than the span has phonemes.
pub open spec fn emitted_count(unit: Unit, boundary: Boundary, start: int, end: int) -> int {
    let len = covered_end(boundary, end) - start;
    let ranges = unit_ranges(unit).len() as int;
    if ranges < len {
        ranges
    } else {
        len
    }
}

/// The periods of the `k`-th of `count` segments of a unit whose phonemes last `value`.
pub open spec fn share_periods(value: i32, k: int, count: int, boundary: Boundary) -> i32 {
    let raw: i32 = if k == 0 && boundary != Boundary::Initial {
        value.wrapping_add(7).wrapping_mul(3277) >> 15i32
    } else if k == count - 1 && boundary != Boundary::Final && boundary != Boundary::LeftOnly {
        value.wrapping_add(3).wrapping_mul(3277) >> 15i32
    } else {
        value.wrapping_add(2).wrapping_mul(6554) >> 15i32
    };
    if raw < 1 {
        1
    } else {
        raw
    }
}

/// The `k`-th segment a unit yields over the span `start..end` of the entries: its
/// share of the span's phonemes, timed by their total duration and voiced with the
/// pitch of its last phoneme (the secondary pitch opening a non-initial unit, negated
/// for a devoiced vowel).
pub open spec fn emitted_segment(entries: Seq<Entry>, unit: Unit, boundary: Boundary, start: int, end: int, k: int) -> Segment {
    let len = covered_end(boundary, end) - start;
    let count = emitted_count(unit, boundary, start, end);
    let lo = start + share_start(len, count, k);
    let hi = start + share_start(len, count, k + 1);
    let entry = entries[hi - 1];
    let periods = share_periods(duration_total(entries.subrange(lo, hi)), k, count, boundary);
    let pitch = if k == 0 && boundary != Boundary::Initial && entry.secondary_pitch != 0 {
        entry.secondary_pitch
    } else {
        entry.pitch
    };
    let devoiced = entry.devoiced && 1 <= entry.phoneme <= 6;
    Segment {
        phoneme: entry.phoneme,
        periods,
        original_periods: periods,
        unit_start: unit.start,
        frames_start: unit_ranges(unit)[k].0,
        frames_end: unit_ranges(unit)[k].1,
        pitch: if devoiced {
            0i32.wrapping_sub(pitch)
        } else {
            pitch
        },
        amplitude: entry.amplitude,
        devoiced,
        tail_periods: 200,
    }
}

} // verus!

verus! {

/// Appends the segments a unit yields over the span `start..end` of the entries
/// (a left-only unit leaves out the span's last phoneme), and records them as one
/// group when there are any.
fn emit(
    segments: &mut Vec<Segment>,
    groups: &mut Vec<(usize, usize)>,
    entries: &Vec<Entry>,
    unit: Unit,
    boundary: Boundary,
    start: usize,
    end: usize,
)
    requires
        start <= covered_end(boundary, end as int) <= entries@.len(),
    ensures
        final(segments)@ == old(segments)@ + Seq::new(
            emitted_count(unit, boundary, start as int, end as int) as nat,
            |k: int| emitted_segment(entries@, unit, boundary, start as int, end as int, k),
        ),
        final(segments)@.len() <= usize::MAX,
        final(groups)@ == if emitted_count(unit, boundary, start as int, end as int) > 0 {
            old(groups)@.push((old(segments)@.len() as usize, final(segments)@.len() as usize))
        } else {
            old(groups)@
        },
{
    let stop = if boundary == Boundary::LeftOnly && end > 0 {
        end - 1
    } else {
        end
    };
    let len = stop - start;
    let first = segments.len();
    let ranges = ranges_of(unit);
    let count = if ranges.len() < len {
        ranges.len()
    } else {
        len
    };
    let ghost old_segments = segments@;
    let ghost target = Seq::new(
        count as nat,
        |k: int| emitted_segment(entries@, unit, boundary, start as int, end as int, k),
    );
    assert(count == emitted_count(unit, boundary, start as int, end as int));
    if count == 0 {
        assert(segments@ =~= old_segments + Seq::<Segment>::empty());
        return;
    }
    let base = len / count;
    let extra = len % count;
    let entries_len = entries.len();
    let mut offset: usize = 0;
    let mut index: usize = 0;
    while index < count
        invariant
            0 < count <= len,
            count <= ranges@.len(),
            ranges@ == unit_ranges(unit),
            start + len <= entries_len == entries@.len(),
            base == len / count,
            extra == len % count,
            index <= count,
            offset == share_start(len as int, count as int, index as int),
            first == old_segments.len(),
            len == covered_end(boundary, end as int) - start,
            count == emitted_count(unit, boundary, start as int, end as int),
            target == Seq::new(
                count as nat,
                |k: int| emitted_segment(entries@, unit, boundary, start as int, end as int, k),
            ),
            segments@ == old_segments + target.take(index as int),
        decreases count - index,
    {
        proof {
            lemma_share_bounds(len as int, count as int, index as int);
        }
        assert(offset < share_start(len as int, count as int, index + 1) <= len);
        let size = if index < extra {
            base + 1
        } else {
            base
        };
        let lo = start + offset;
        let hi = lo + size;
        let mut value: i32 = 0;
        let mut j = lo;
        while j < hi
            invariant
                lo <= j <= hi <= entries@.len(),
                value == duration_total(entries@.subrange(lo as int, j as int)),
            decreases hi - j,
        {
            assert(entries@.subrange(lo as int, j + 1).drop_last() =~= entries@.subrange(lo as int, j as int));
            value = value.wrapping_add(entries[j].duration);
            j += 1;
        }
        let entry = entries[hi - 1];
        let raw: i32 = if index == 0 && boundary != Boundary::Initial {
            value.wrapping_add(7).wrapping_mul(3277) >> 15i32
        } else if index == count - 1 && boundary != Boundary::Final && boundary != Boundary::LeftOnly {
            value.wrapping_add(3).wrapping_mul(3277) >> 15i32
        } else {
            value.wrapping_add(2).wrapping_mul(6554) >> 15i32
        };
        let periods = if raw < 1 {
            1
        } else {
            raw
        };
        let pitch = if index == 0 && boundary != Boundary::Initial && entry.secondary_pitch != 0 {
            entry.secondary_pitch
        } else {
            entry.pitch
        };
        let devoiced = entry.devoiced && 1 <= entry.phoneme && entry.phoneme <= 6;
        let (frames_start, frames_end) = ranges[index];
        segments.push(
            Segment {
                phoneme: entry.phoneme,
                periods,
                original_periods: periods,
                unit_start: unit.start,
                frames_start,
                frames_end,
                pitch: if devoiced {
                    0i32.wrapping_sub(pitch)
                } else {
                    pitch
                },
                amplitude: entry.amplitude,
                devoiced,
                tail_periods: 200,
            },
        );
        proof {
            assert(segments@.last() == target[index as int]);
            assert(target.take(index + 1) =~= target.take(index as int).push(target[index as int]));
        }
        offset = offset + size;
        index += 1;
    }
    proof {
        assert(target.take(count as int) =~= target);
    }
    groups.push((first, segments.len()));
}

} // verus!

verus! {

/// The low 16 bits of a value, sign-extended.
pub fn short(value: i32) -> (result: i32)
    ensures
        result == value as i16 as i32,
        -32768 <= result <= 32767,
{
    value as i16 as i32
}

/// Floor division by a positive divisor.
pub fn floor_div(numerator: i32, divisor: i32) -> (result: i32)
    requires
        divisor > 0,
    ensures
        result == numerator as int / divisor as int,
{
    if numerator >= 0 {
        numerator / divisor
    } else {
        let n: i64 = -(numerator as i64);
        let d: i64 = divisor as i64;
        let q: i64 = (n + d - 1) / d;
        assert(-q == numerator as int / d as int && 0 <= q <= n) by (nonlinear_arith)
            requires
                n == -(numerator as int),
                n > 0,
                d > 0,
                q == (n + d - 1) / (d as int),
        {
            let f = numerator as int / d as int;
            let r = numerator as int % d as int;
            assert(numerator == f * d + r && 0 <= r < d);
            assert(n + d - 1 == (-f) * d + (d - 1 - r));
            assert(0 <= d - 1 - r < d);
            vstd::arithmetic::div_mod::lemma_fundamental_div_mod_converse(n + d - 1, d as int, -f, d - 1 - r);
        }
        (-q) as i32
    }
}

/// The frame count of a segment.
pub open spec fn frame_count(segment: Segment) -> int {
    if segment.frames_end >= segment.frames_start {
        segment.frames_end - segment.frames_start
    } else {
        0
    }
}

fn frames_len(segment: &Segment) -> (result: usize)
    ensures
        result == frame_count(*segment),
{
    if segment.frames_end >= segment.frames_start {
        segment.frames_end - segment.frames_start
    } else {
        0
    }
}

} // verus!

verus! {

/// The segment with only its periods replaced.
pub open spec fn with_periods(segment: Segment, periods: i32) -> Segment {
    Segment { periods, ..segment }
}

/// The low 16 bits of a value, sign-extended.
pub open spec fn short_value(value: i32) -> i32 {
    value as i16 as i32
}

/// The 16-bit running total of the periods of `segments[start..i]`.
pub open spec fn short_total(segments: Seq<Segment>, start: int, i: int) -> i32
    decreases i - start,
{
    if i <= start {
        0
    } else {
        short_value(short_total(segments, start, i - 1).wrapping_add(segments[i - 1].periods))
    }
}

/// Where a run that starts at `index` of the group at `start` ends: a sonorant
/// absorbs each following one-frame segment, adding its periods.
pub open spec fn merge_end(segments: Seq<Segment>, start: int, count: int, index: int, periods: i32) -> (int, i32)
    decreases count - index,
{
    if 0 <= index && index + 1 < count && frame_count(segments[start + index + 1]) == 1
        && crate::utterance::phoneme_flags_table()[segments[start + index].phoneme as int] & 128 != 0 {
        merge_end(segments, start, count, index + 1, short_value(periods.wrapping_add(segments[start + index + 1].periods)))
    } else {
        (index, periods)
    }
}

/// A run ends within its group, at or after where it starts.
pub proof fn lemma_merge_end(segments: Seq<Segment>, start: int, count: int, index: int, periods: i32)
    requires
        0 <= index < count,
    ensures
        index <= merge_end(segments, start, count, index, periods).0 < count,
    decreases count - index,
{
    if index + 1 < count && frame_count(segments[start + index + 1]) == 1
        && crate::utterance::phoneme_flags_table()[segments[start + index].phoneme as int] & 128 != 0 {
        lemma_merge_end(segments, start, count, index + 1, short_value(periods.wrapping_add(segments[start + index + 1].periods)));
    }
}

/// The frame count of the first of the next three segments, among the `remaining`
/// ones after `at`, that does not have exactly one frame; zero if there is none.
pub open spec fn look_value(segments: Seq<Segment>, at: int, remaining: int, k: int) -> i32
    decreases 4 - k,
{
    if k > 3 {
        0
    } else if k < remaining && frame_count(segments[at + k]) != 1 {
        frame_count(segments[at + k]) as i32
    } else {
        look_value(segments, at, remaining, k + 1)
    }
}

/// The periods allotted to the run ending at `index` of the group at `start`, with
/// the carry, head and allocated total that follow it.
pub open spec fn allotment(
    segments: Seq<Segment>,
    start: int,
    count: int,
    index: int,
    periods: i32,
    carry: i32,
    head: i32,
    allocated: i32,
    total: i32,
    span: i32,
    special: bool,
) -> (i32, i32, i32, i32) {
    let at = start + index;
    let (shared, next_carry, next_head): (i32, i32, i32) = if special {
        let look = look_value(segments, at, count - index, 1);
        if span > total {
            if index == 0 && count > 1 {
                let length = frame_count(segments[at]) as i32;
                let p = ((periods.wrapping_add(segments[at + 1].periods).wrapping_mul(length) as int / length.wrapping_add(
                    look,
                ) as int) as i32).wrapping_add(periods).wrapping_add(1) >> 1i32;
                (p, carry, p)
            } else if index > 0 {
                if index <= 1 || carry == 0 {
                    let c = periods.wrapping_add(segments[at - 1].periods).wrapping_sub(head);
                    (c, c, head)
                } else {
                    (total.wrapping_sub(head).wrapping_sub(carry), carry, head)
                }
            } else {
                (periods, carry, head)
            }
        } else if index == 0 && count > 1 {
            let p = if crate::utterance::phoneme_flags_table()[segments[at + 1].phoneme as int] & 64 != 0 {
                segments[at].periods.wrapping_add(segments[at + 1].periods.wrapping_sub(look) >> 1i32)
            } else {
                periods
            };
            (p, carry, p)
        } else if index > 0 {
            if index <= 1 || carry == 0 {
                if crate::utterance::phoneme_flags_table()[segments[at].phoneme as int] & 64 != 0 {
                    let c = frame_count(segments[at]) as i32;
                    (c, c, head)
                } else {
                    (total.wrapping_sub(head), carry, head)
                }
            } else {
                (total.wrapping_sub(head).wrapping_sub(carry), carry, head)
            }
        } else {
            (periods, carry, head)
        }
    } else {
        (periods, carry, head)
    };
    let framed = if frame_count(segments[at]) == 0 {
        0
    } else {
        shared
    };
    let capped = if short_value(allocated.wrapping_add(framed)) >= 2559 {
        short_value(2559i32.wrapping_sub(allocated))
    } else {
        framed
    };
    let kept = if capped < 0 {
        0
    } else {
        capped
    };
    (kept, next_carry, next_head, short_value(allocated.wrapping_add(kept)))
}

/// The group's segments from `index` on with their periods redistributed.
pub open spec fn redistribute_from(
    segments: Seq<Segment>,
    start: int,
    count: int,
    index: int,
    carry: i32,
    head: i32,
    allocated: i32,
    total: i32,
    span: i32,
    special: bool,
) -> Seq<Segment>
    decreases count - index,
{
    if index < 0 || index >= count {
        segments
    } else {
        let periods = segments[start + index].periods;
        if periods >= 0 {
            let (last, merged) = merge_end(segments, start, count, index, periods);
            proof {
                lemma_merge_end(segments, start, count, index, periods);
            }
            let (p, c, h, a) = allotment(segments, start, count, last, merged, carry, head, allocated, total, span, special);
            redistribute_from(
                segments.update(start + last, with_periods(segments[start + last], p)),
                start,
                count,
                last + 1,
                c,
                h,
                a,
                total,
                span,
                special,
            )
        } else {
            redistribute_from(segments, start, count, index + 1, carry, head, allocated, total, span, special)
        }
    }
}

/// The segments with the group `start..end` redistributed.
pub open spec fn redistributed(segments: Seq<Segment>, start: int, end: int, medial: bool) -> Seq<Segment> {
    let total = short_total(segments, start, end);
    let span = (segments[end - 1].frames_end as i32).wrapping_sub(segments[start].frames_start as i32);
    let special = medial && start + 1 < end && crate::utterance::phoneme_flags_table()[segments[start
        + 1].phoneme as int] & 86 == 64;
    redistribute_from(segments, start, end - start, 0, 0, 0, 0, total, span, special)
}


/// The segments of a group keep their shape: a phoneme of the inventory and a
/// nonempty frame range below frame 256.
pub open spec fn group_shaped(segments: Seq<Segment>, start: int, end: int) -> bool {
    forall|i: int| start <= i < end ==> crate::utterance::shaped(#[trigger] segments[i]) && segments[i].frames_end <= 255
}

fn short_sum(segments: &Vec<Segment>, start: usize, end: usize) -> (total: i32)
    requires
        start <= end <= segments@.len(),
    ensures
        total == short_total(segments@, start as int, end as int),
{
    let mut total: i32 = 0;
    let mut i = start;
    while i < end
        invariant
            start <= i <= end <= segments@.len(),
            total == short_total(segments@, start as int, i as int),
        decreases end - i,
    {
        total = short(total.wrapping_add(segments[i].periods));
        i += 1;
    }
    total
}

fn merge_run(segments: &Vec<Segment>, start: usize, count: usize, first: usize, first_periods: i32) -> (result: (usize, i32))
    requires
        segments@.len() <= usize::MAX,
        first < count,
        start + count <= segments@.len(),
        group_shaped(segments@, start as int, start + count),
    ensures
        (result.0 as int, result.1) == merge_end(segments@, start as int, count as int, first as int, first_periods),
        first <= result.0 < count,
{
    let mut index = first;
    let mut periods = first_periods;
    while index + 1 < count && frames_len(&segments[start + index + 1]) == 1 && segments[start + index].flags() & 128 != 0
        invariant
            index < count,
            start + count <= segments@.len() <= usize::MAX,
            group_shaped(segments@, start as int, start + count),
            merge_end(segments@, start as int, count as int, index as int, periods) == merge_end(
                segments@,
                start as int,
                count as int,
                first as int,
                first_periods,
            ),
            first <= index,
        decreases count - index,
    {
        index += 1;
        periods = short(periods.wrapping_add(segments[start + index].periods));
    }
    (index, periods)
}

fn look_ahead(segments: &Vec<Segment>, at: usize, remaining: usize) -> (look: i32)
    requires
        segments@.len() <= usize::MAX,
        at + remaining <= segments@.len(),
        group_shaped(segments@, at as int, at + remaining),
    ensures
        look == look_value(segments@, at as int, remaining as int, 1),
        0 <= look <= 255,
{
    let mut k: usize = 1;
    while k <= 3
        invariant
            1 <= k <= 4,
            at + remaining <= segments@.len() <= usize::MAX,
            group_shaped(segments@, at as int, at + remaining),
            look_value(segments@, at as int, remaining as int, k as int) == look_value(segments@, at as int, remaining as int, 1),
        decreases 4 - k,
    {
        if k < remaining {
            let frames = frames_len(&segments[at + k]);
            assert(segments@[at + k].frames_end <= 255);
            if frames != 1 {
                return frames as i32;
            }
        }
        k += 1;
    }
    0
}

fn allot(
    segments: &Vec<Segment>,
    start: usize,
    count: usize,
    index: usize,
    periods: i32,
    carry: i32,
    head: i32,
    allocated: i32,
    total: i32,
    span: i32,
    special: bool,
) -> (result: (i32, i32, i32, i32))
    requires
        segments@.len() <= usize::MAX,
        index < count,
        start + count <= segments@.len(),
        group_shaped(segments@, start as int, start + count),
    ensures
        result == allotment(segments@, start as int, count as int, index as int, periods, carry, head, allocated, total, span, special),
{
    let at = start + index;
    assert(crate::utterance::shaped(segments@[at as int]) && segments@[at as int].frames_end <= 255);
    let mut periods = periods;
    let mut carry = carry;
    let mut head = head;
    if special {
        let look = look_ahead(segments, at, count - index);
        if span > total {
            if index == 0 && count > 1 {
                let length = frames_len(&segments[at]) as i32;
                periods = ((floor_div(
                    periods.wrapping_add(segments[at + 1].periods).wrapping_mul(length),
                    length.wrapping_add(look),
                )).wrapping_add(periods).wrapping_add(1)) >> 1i32;
                head = periods;
            } else if index > 0 {
                if index <= 1 || carry == 0 {
                    carry = periods.wrapping_add(segments[at - 1].periods).wrapping_sub(head);
                    periods = carry;
                } else {
                    periods = total.wrapping_sub(head).wrapping_sub(carry);
                }
            }
        } else if index == 0 && count > 1 {
            assert(crate::utterance::shaped(segments@[at + 1]));
            if segments[at + 1].flags() & 64 != 0 {
                periods = segments[at].periods.wrapping_add(segments[at + 1].periods.wrapping_sub(look) >> 1i32);
            }
            head = periods;
        } else if index > 0 {
            if index <= 1 || carry == 0 {
                if segments[at].flags() & 64 != 0 {
                    carry = frames_len(&segments[at]) as i32;
                    periods = carry;
                } else {
                    periods = total.wrapping_sub(head);
                }
            } else {
                periods = total.wrapping_sub(head).wrapping_sub(carry);
            }
        }
    }
    if frames_len(&segments[at]) == 0 {
        periods = 0;
    }
    if short(allocated.wrapping_add(periods)) >= 2559 {
        periods = short(2559i32.wrapping_sub(allocated));
    }
    if periods < 0 {
        periods = 0;
    }
    (periods, carry, head, short(allocated.wrapping_add(periods)))
}

/// Redistributes the periods of the unit group `start..end` over its segments so
/// that the group's total stays within 2559 periods; a medial group whose second
/// segment is a plain consonant shares its periods between its first segment, that
/// consonant and the rest.
pub fn redistribute(segments: &mut Vec<Segment>, start: usize, end: usize, medial: bool)
    requires
        start < end <= old(segments)@.len(),
        group_shaped(old(segments)@, start as int, end as int),
    ensures
        final(segments)@ == redistributed(old(segments)@, start as int, end as int, medial),
        final(segments)@.len() == old(segments)@.len(),
        forall|i: int|
            0 <= i < old(segments)@.len() && !(start <= i < end) ==> #[trigger] final(segments)@[i]
                == old(segments)@[i],
        forall|i: int|
            start <= i < end ==> #[trigger] final(segments)@[i] == with_periods(
                old(segments)@[i],
                final(segments)@[i].periods,
            ),
{
    let ghost initial = segments@;
    let length = segments.len();
    let total = short_sum(segments, start, end);
    let span: i32 = (segments[end - 1].frames_end as i32).wrapping_sub(segments[start].frames_start as i32);
    assert(crate::utterance::shaped(segments@[start as int]));
    let special = medial && start + 1 < end && {
        assert(crate::utterance::shaped(segments@[start + 1]));
        segments[start + 1].flags() & 86 == 64
    };
    let count = end - start;
    let ghost target = redistributed(initial, start as int, end as int, medial);
    let mut carry: i32 = 0;
    let mut head: i32 = 0;
    let mut allocated: i32 = 0;
    let mut index: usize = 0;
    while index < count
        invariant
            count == end - start,
            start < end <= segments@.len() == initial.len(),
            segments@.len() == length,
            group_shaped(initial, start as int, end as int),
            group_shaped(segments@, start as int, end as int),
            forall|i: int|
                0 <= i < initial.len() && !(start <= i < end) ==> #[trigger] segments@[i] == initial[i],
            forall|i: int| start <= i < end ==> #[trigger] segments@[i] == with_periods(initial[i], segments@[i].periods),
            index <= count,
            redistribute_from(segments@, start as int, count as int, index as int, carry, head, allocated, total, span, special)
                == target,
        decreases count - index,
    {
        let periods = segments[start + index].periods;
        if periods >= 0 {
            let (last, merged) = merge_run(segments, start, count, index, periods);
            let (value, next_carry, next_head, next_allocated) = allot(
                segments,
                start,
                count,
                last,
                merged,
                carry,
                head,
                allocated,
                total,
                span,
                special,
            );
            let at = start + last;
            let updated = Segment { periods: value, ..segments[at] };
            segments.set(at, updated);
            carry = next_carry;
            head = next_head;
            allocated = next_allocated;
            index = last + 1;
        } else {
            index += 1;
        }
    }
}
} // verus!

verus! {

/// Selected segments are well formed with unit-relative frames below 256, and each
/// group is a nonempty run of them.
pub open spec fn selection_wf(segments: Seq<Segment>, groups: Seq<(usize, usize)>, data: &AcousticData) -> bool {
    &&& segments_wf(segments, data)
    &&& forall|i: int| 0 <= i < segments.len() ==> #[trigger] segments[i].frames_end <= 255
    &&& forall|g: int| 0 <= g < groups.len() ==> #[trigger] groups[g].0 < groups[g].1 <= segments.len()
}

proof fn lemma_emit_keeps(
    before: Seq<Segment>,
    after: Seq<Segment>,
    groups_before: Seq<(usize, usize)>,
    groups_after: Seq<(usize, usize)>,
    entries: Seq<Entry>,
    unit: Unit,
    boundary: Boundary,
    start: int,
    end: int,
    data: &AcousticData,
)
    requires
        selection_wf(before, groups_before, data),
        entries_wf(entries),
        unit_fits(unit, data.frames@.len()),
        0 <= start <= covered_end(boundary, end) <= entries.len(),
        after == before + Seq::new(
            emitted_count(unit, boundary, start, end) as nat,
            |k: int| emitted_segment(entries, unit, boundary, start, end, k),
        ),
        groups_after == if emitted_count(unit, boundary, start, end) > 0 {
            groups_before.push((before.len() as usize, after.len() as usize))
        } else {
            groups_before
        },
        after.len() <= usize::MAX,
    ensures
        selection_wf(after, groups_after, data),
{
    let count = emitted_count(unit, boundary, start, end);
    let len = covered_end(boundary, end) - start;
    let bound = if data.frames@.len() - unit.start < 255 {
        data.frames@.len() - unit.start
    } else {
        255
    };
    assert forall|j: int| 0 <= j < unit.boundaries@.len() implies #[trigger] unit.boundaries@[j] <= bound by {
        assert(unit.start + unit.boundaries[j] <= data.frames@.len());
    }
    lemma_ranges_bounded(unit.boundaries@, 0, 0, bound);
    assert forall|i: int| 0 <= i < after.len() implies #[trigger] after[i].wf(data) && after[i].frames_end <= 255 by {
        if i >= before.len() {
            let k = i - before.len();
            lemma_share_bounds(len, count, k);
            let hi = start + share_start(len, count, k + 1);
            assert(entries[hi - 1].phoneme < crate::utterance::PHONEME_COUNT);
            assert(after[i] == emitted_segment(entries, unit, boundary, start, end, k));
            assert(0 <= unit_ranges(unit)[k].0 < unit_ranges(unit)[k].1 <= bound);
        } else {
            assert(after[i] == before[i]);
        }
    }
}

/// The segments and groups after a unit yields its segments over `start..end`.
pub open spec fn emitted(
    segments: Seq<Segment>,
    groups: Seq<(usize, usize)>,
    entries: Seq<Entry>,
    unit: Unit,
    boundary: Boundary,
    start: int,
    end: int,
) -> (Seq<Segment>, Seq<(usize, usize)>) {
    let count = emitted_count(unit, boundary, start, end);
    let after = segments + Seq::new(count as nat, |k: int| emitted_segment(entries, unit, boundary, start, end, k));
    (after, if count > 0 {
        groups.push((segments.len() as usize, after.len() as usize))
    } else {
        groups
    })
}

/// The segments and groups after a unit, if one was found.
pub open spec fn emitted_if(
    found: Option<Unit>,
    segments: Seq<Segment>,
    groups: Seq<(usize, usize)>,
    entries: Seq<Entry>,
    boundary: Boundary,
    start: int,
    end: int,
) -> (Seq<Segment>, Seq<(usize, usize)>) {
    match found {
        Some(unit) => emitted(segments, groups, entries, unit, boundary, start, end),
        None => (segments, groups),
    }
}

/// The stored unit keyed by a span.
pub open spec fn keyed_unit(data: &AcousticData, entries: Seq<Entry>, boundary: Boundary, start: int, end: int) -> Option<Unit> {
    let k = key_spec(entries, boundary, start, end);
    data.unit_of(k[0] as int, k[1] as int, k[2] as int)
}

/// Consonants after which a geminate ends a unit span.
pub open spec fn geminate_stop(phoneme: usize) -> bool {
    phoneme == 26 || phoneme == 25 || phoneme == 21 || phoneme == 19 || phoneme == 18 || phoneme == 15
        || phoneme == 20 || phoneme == 23 || phoneme == 24
}

/// The related phoneme tried when a left-only unit is missing.
pub open spec fn substitute_phoneme(phoneme: usize) -> usize {
    if phoneme == 18 {
        2
    } else if phoneme == 20 {
        3
    } else if phoneme == 16 {
        15
    } else {
        phoneme
    }
}

/// One selection step at a vowel-class phoneme `current`: the span from `previous`
/// through it takes its unit; failing that, a repeated vowel merges into one, or the
/// span's left part and the pair ending at `current` are keyed separately.
pub open spec fn selection_step(
    entries: Seq<Entry>,
    data: &AcousticData,
    segments: Seq<Segment>,
    groups: Seq<(usize, usize)>,
    previous: int,
    boundary: Boundary,
    current: int,
) -> (Seq<Entry>, Seq<Segment>, Seq<(usize, usize)>) {
    let phoneme = entries[current].phoneme;
    let abort = boundary != Boundary::Initial && previous != current && entries[current].follows_geminate
        && geminate_stop(entries[current - 1].phoneme);
    let found = if abort {
        None
    } else {
        keyed_unit(data, entries, boundary, previous, current + 1)
    };
    match found {
        Some(unit) => {
            let (s, g) = emitted(segments, groups, entries, unit, boundary, previous, current + 1);
            (entries, s, g)
        },
        None => if boundary != Boundary::Initial {
            if entries[previous].phoneme == phoneme && previous + 1 == current {
                let sum = entries[previous].duration.wrapping_add(entries[current].duration);
                let merged = entries.update(
                    current,
                    Entry {
                        duration: if sum < 32767 {
                            sum
                        } else {
                            32767
                        },
                        ..entries[current]
                    },
                );
                let (s, g) = emitted_if(
                    keyed_unit(data, merged, boundary, current, current + 1),
                    segments,
                    groups,
                    merged,
                    boundary,
                    current,
                    current + 1,
                );
                (merged, s, g)
            } else {
                let before = entries[current - 1];
                let substituted = entries.update(current - 1, Entry { phoneme: substitute_phoneme(before.phoneme), ..before });
                let direct = keyed_unit(data, entries, Boundary::LeftOnly, previous, current);
                let left = if direct is Some {
                    direct
                } else {
                    keyed_unit(data, substituted, Boundary::LeftOnly, previous, current)
                };
                let (s1, g1) = match left {
                    Some(unit) => emitted(segments, groups, entries, unit, Boundary::LeftOnly, previous, current),
                    None => emitted_if(
                        keyed_unit(data, entries, Boundary::Final, previous, previous + 1),
                        segments,
                        groups,
                        entries,
                        Boundary::Final,
                        previous,
                        previous + 1,
                    ),
                };
                let (s2, g2) = emitted_if(
                    keyed_unit(data, entries, Boundary::Initial, current - 1, current + 1),
                    s1,
                    g1,
                    entries,
                    Boundary::Initial,
                    current - 1,
                    current + 1,
                );
                (entries, s2, g2)
            }
        } else {
            (entries, segments, groups)
        },
    }
}

/// The segments and unit groups selected from entry `current` on, until the end mark
/// or the closing pause.
pub open spec fn selection_from(
    entries: Seq<Entry>,
    data: &AcousticData,
    segments: Seq<Segment>,
    groups: Seq<(usize, usize)>,
    previous: int,
    boundary: Boundary,
    current: int,
) -> (Seq<Segment>, Seq<(usize, usize)>)
    decreases entries.len() - current,
{
    if current < 0 || current >= entries.len() {
        (segments, groups)
    } else {
        let phoneme = entries[current].phoneme;
        if phoneme == 7 {
            (segments, groups)
        } else if phoneme == 0 {
            if current > 0 {
                let last = entries[current - 1].phoneme;
                let left = if 1 <= last <= 6 {
                    last
                } else {
                    0
                };
                emitted_if(data.unit_of(left as int, 0, 7), segments, groups, entries, Boundary::Final, previous, current)
            } else {
                (segments, groups)
            }
        } else if phoneme > 6 {
            selection_from(entries, data, segments, groups, previous, boundary, current + 1)
        } else {
            let (e, s, g) = selection_step(entries, data, segments, groups, previous, boundary, current);
            if e.len() == entries.len() {
                selection_from(e, data, s, g, current, Boundary::Medial, current + 1)
            } else {
                (s, g)
            }
        }
    }
}

/// Whether a unit group lies between others and starts and ends with sonorants.
pub open spec fn medial_group(segments: Seq<Segment>, start: int, end: int) -> bool {
    start != 0 && end != segments.len() && end - start > 1 && crate::utterance::sonorant_phoneme(segments[start].phoneme as int)
        && crate::utterance::sonorant_phoneme(segments[end - 1].phoneme as int)
}

/// The segments after the first `g` unit groups have their periods redistributed.
pub open spec fn redistribute_groups(segments: Seq<Segment>, groups: Seq<(usize, usize)>, g: int) -> Seq<Segment>
    decreases g,
{
    if g <= 0 {
        segments
    } else {
        let before = redistribute_groups(segments, groups, g - 1);
        let (start, end) = groups[g - 1];
        redistributed(before, start as int, end as int, medial_group(before, start as int, end as int))
    }
}

/// The segments selected for a phrase's entries.
pub open spec fn selected(entries: Seq<Entry>, data: &AcousticData) -> Seq<Segment> {
    let (segments, groups) = selection_from(entries, data, Seq::empty(), Seq::empty(), 0, Boundary::Initial, 0);
    redistribute_groups(segments, groups, groups.len() as int)
}

/// Emits the unit found for a span, if any.
fn emit_found(
    found: Option<Unit>,
    segments: &mut Vec<Segment>,
    groups: &mut Vec<(usize, usize)>,
    entries: &Vec<Entry>,
    boundary: Boundary,
    start: usize,
    end: usize,
    data: &AcousticData,
)
    requires
        start <= covered_end(boundary, end as int) <= entries@.len(),
        selection_wf(old(segments)@, old(groups)@, data),
        entries_wf(entries@),
        data.wf(),
        found matches Some(u) ==> unit_fits(u, data.frames@.len()),
    ensures
        (final(segments)@, final(groups)@) == emitted_if(found, old(segments)@, old(groups)@, entries@, boundary, start as int, end as int),
        selection_wf(final(segments)@, final(groups)@, data),
{
    if let Some(unit) = found {
        let ghost (s0, g0) = (segments@, groups@);
        emit(segments, groups, entries, unit, boundary, start, end);
        proof {
            lemma_emit_keeps(s0, segments@, g0, groups@, entries@, unit, boundary, start as int, end as int, data);
        }
    }
}

/// One selection step at a vowel-class phoneme.
fn select_step(
    entries: &mut Vec<Entry>,
    segments: &mut Vec<Segment>,
    groups: &mut Vec<(usize, usize)>,
    data: &AcousticData,
    previous: usize,
    boundary: Boundary,
    current: usize,
)
    requires
        data.wf(),
        entries_wf(old(entries)@),
        current < old(entries)@.len(),
        previous <= current,
        boundary != Boundary::LeftOnly && boundary != Boundary::Final,
        boundary != Boundary::Initial ==> previous < current,
        selection_wf(old(segments)@, old(groups)@, data),
    ensures
        (final(entries)@, final(segments)@, final(groups)@) == selection_step(
            old(entries)@,
            data,
            old(segments)@,
            old(groups)@,
            previous as int,
            boundary,
            current as int,
        ),
        final(entries)@.len() == old(entries)@.len(),
        entries_wf(final(entries)@),
        selection_wf(final(segments)@, final(groups)@, data),
        forall|i: int| 0 <= i < old(entries)@.len() ==> (#[trigger] final(entries)@[i]).phoneme == old(entries)@[i].phoneme,
{
    let length = entries.len();
    assert(current + 1 <= length);
    let phoneme = entries[current].phoneme;
    let abort = boundary != Boundary::Initial && previous != current && entries[current].follows_geminate
        && {
        let before = entries[current - 1].phoneme;
        before == 26 || before == 25 || before == 21 || before == 19 || before == 18 || before == 15
            || before == 20 || before == 23 || before == 24
    };
    let found = if abort {
        None
    } else {
        lookup(entries, boundary, previous, current + 1, data)
    };
    if let Some(unit) = found {
        let ghost (s0, g0) = (segments@, groups@);
        emit(segments, groups, entries, unit, boundary, previous, current + 1);
        proof {
            lemma_emit_keeps(s0, segments@, g0, groups@, entries@, unit, boundary, previous as int, current + 1, data);
        }
    } else if boundary != Boundary::Initial {
        if entries[previous].phoneme == phoneme && previous + 1 == current {
            let mut merged = entries[current];
            let sum = entries[previous].duration.wrapping_add(merged.duration);
            merged.duration = if sum < 32767 {
                sum
            } else {
                32767
            };
            entries.set(current, merged);
            let found = lookup(entries, boundary, current, current + 1, data);
            emit_found(found, segments, groups, entries, boundary, current, current + 1, data);
        } else {
            let mut left = lookup(entries, Boundary::LeftOnly, previous, current, data);
            if left.is_none() {
                let before = entries[current - 1];
                let substitute = if before.phoneme == 18 {
                    2
                } else if before.phoneme == 20 {
                    3
                } else if before.phoneme == 16 {
                    15
                } else {
                    before.phoneme
                };
                entries.set(current - 1, Entry { phoneme: substitute, ..before });
                left = lookup(entries, Boundary::LeftOnly, previous, current, data);
                entries.set(current - 1, before);
                assert(entries@ =~= old(entries)@);
            }
            match left {
                Some(unit) => {
                    let ghost (s0, g0) = (segments@, groups@);
                    emit(segments, groups, entries, unit, Boundary::LeftOnly, previous, current);
                    proof {
                        lemma_emit_keeps(s0, segments@, g0, groups@, entries@, unit, Boundary::LeftOnly, previous as int, current as int, data);
                    }
                },
                None => {
                    let found = lookup(entries, Boundary::Final, previous, previous + 1, data);
                    emit_found(found, segments, groups, entries, Boundary::Final, previous, previous + 1, data);
                },
            }
            let found = lookup(entries, Boundary::Initial, current - 1, current + 1, data);
            emit_found(found, segments, groups, entries, Boundary::Initial, current - 1, current + 1, data);
        }
    }
}

/// Segments of silence and vowels' phonemes split into keyed spans, each replaced
/// by the stored unit of its context; a span without a unit falls back to its left
/// part and the following phoneme pair. Each unit group then has its periods
/// redistributed, medially between sonorants.
pub fn select(entries: Vec<Entry>, data: &AcousticData) -> (segments: Vec<Segment>)
    requires
        data.wf(),
        entries_wf(entries@),
    ensures
        segments@ == selected(entries@, data),
        segments_wf(segments@, data),
        forall|i: int| 0 <= i < segments@.len() ==> #[trigger] segments@[i].frames_end <= 255,
        entries@.len() == 0 || entries@[0].phoneme == 0 || entries@[0].phoneme == 7 ==> segments@.len() == 0,
{
    let mut entries = entries;
    let mut segments: Vec<Segment> = Vec::new();
    let mut groups: Vec<(usize, usize)> = Vec::new();
    let mut previous: usize = 0;
    let mut boundary = Boundary::Initial;
    let mut current: usize = 0;
    let ghost first = entries@;
    let ghost target = selection_from(entries@, data, segments@, groups@, 0, Boundary::Initial, 0);
    while current < entries.len()
        invariant_except_break
            current <= entries@.len(),
            selection_from(entries@, data, segments@, groups@, previous as int, boundary, current as int) == target,
        invariant
            data.wf(),
            entries_wf(entries@),
            previous <= current,
            boundary != Boundary::LeftOnly && boundary != Boundary::Final,
            boundary != Boundary::Initial ==> previous < current,
            selection_wf(segments@, groups@, data),
            current == 0 ==> segments@.len() == 0,
            first.len() == 0 ==> segments@.len() == 0,
            first.len() > 0 && (first[0].phoneme == 0 || first[0].phoneme == 7) ==> current == 0,
            entries@.len() == first.len(),
            entries@.len() > 0 ==> entries@[0].phoneme == first[0].phoneme,
        ensures
            (segments@, groups@) == target,
        decreases entries@.len() - current,
    {
        let phoneme = entries[current].phoneme;
        if phoneme == 7 {
            break;
        }
        if phoneme == 0 {
            if current > 0 {
                let last = entries[current - 1].phoneme;
                let left = if 1 <= last && last <= 6 {
                    last
                } else {
                    0
                };
                let found = data.unit(left, 0, 7);
                emit_found(found, &mut segments, &mut groups, &entries, Boundary::Final, previous, current, data);
            }
            break;
        }
        if phoneme > 6 {
            current += 1;
            continue;
        }
        let ghost before = entries@;
        select_step(&mut entries, &mut segments, &mut groups, data, previous, boundary, current);
        previous = current;
        boundary = Boundary::Medial;
        current += 1;
    }
    let ghost chosen = segments@;
    let mut g: usize = 0;
    while g < groups.len()
        invariant
            selection_wf(segments@, groups@, data),
            g <= groups@.len(),
            groups@ == target.1,
            chosen == target.0,
            segments@ == redistribute_groups(chosen, groups@, g as int),
            first.len() == 0 || first[0].phoneme == 0 || first[0].phoneme == 7 ==> segments@.len() == 0,
        decreases groups@.len() - g,
    {
        let (start, end) = groups[g];
        assert(start < end <= segments@.len());
        assert(segments@[start as int].wf(data) && segments@[end - 1].wf(data));
        assert forall|i: int| start <= i < end implies crate::utterance::shaped(#[trigger] segments@[i])
            && segments@[i].frames_end <= 255 by {
            assert(segments@[i].wf(data));
        }
        let medial = start != 0 && end != segments.len() && end - start > 1 && segments[start].sonorant()
            && segments[end - 1].sonorant();
        let ghost before = segments@;
        redistribute(&mut segments, start, end, medial);
        proof {
            assert forall|i: int| 0 <= i < segments@.len() implies #[trigger] segments@[i].wf(data)
                && segments@[i].frames_end <= 255 by {
                assert(before[i].wf(data) && before[i].frames_end <= 255);
            }
        }
        g += 1;
    }
    segments
}

} // verus!

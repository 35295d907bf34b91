//! Typed intermediate representation between linguistic analysis and the vocoder.
use vstd::prelude::*;
use crate::acoustic::AcousticData;

verus! {

/// Articulatory flags of each phoneme: bit 7 marks a sonorant, bit 0 a vowel-like onset.
pub open spec fn phoneme_flags_table() -> Seq<u8> {
    seq![
        0x00u8, 0x80, 0x80, 0x80, 0x80, 0x80, 0x84, 0x00, 0x53, 0x59, 0x01, 0x53, 0x53, 0x53, 0x44,
        0x58, 0x58, 0x44, 0x40, 0x40, 0xc0, 0x42, 0x00, 0x48, 0x40, 0x42, 0x42, 0x52, 0x32, 0x24,
        0x38, 0x24, 0x20, 0x22, 0x22, 0x62, 0x32, 0x72,
    ]
}

/// Number of phonemes in the inventory.
pub const PHONEME_COUNT: usize = 38;

/// Articulatory flags of a phoneme.
pub fn phoneme_flags(phoneme: usize) -> (flags: u8)
    requires
        phoneme < PHONEME_COUNT,
    ensures
        flags == phoneme_flags_table()[phoneme as int],
{
    let table: [u8; 38] = [
        0x00, 0x80, 0x80, 0x80, 0x80, 0x80, 0x84, 0x00, 0x53, 0x59, 0x01, 0x53, 0x53, 0x53, 0x44,
        0x58, 0x58, 0x44, 0x40, 0x40, 0xc0, 0x42, 0x00, 0x48, 0x40, 0x42, 0x42, 0x52, 0x32, 0x24,
        0x38, 0x24, 0x20, 0x22, 0x22, 0x62, 0x32, 0x72,
    ];
    assert(table@ =~= phoneme_flags_table());
    table[phoneme]
}

/// One phoneme's share of an acoustic unit, with its timing and prosody.
#[derive(Clone, Copy, Debug)]
pub struct Segment {
    pub phoneme: usize,
    pub periods: i32,
    pub original_periods: i32,
    pub unit_start: usize,
    /// First frame of the segment, relative to the unit.
    pub frames_start: usize,
    /// End of the segment's frames, relative to the unit.
    pub frames_end: usize,
    pub pitch: i32,
    pub amplitude: i32,
    pub devoiced: bool,
    pub tail_periods: i32,
}

/// Whether a phoneme is sonorant: flag bit 7, except the syllabic nasal's variant 20.
pub open spec fn sonorant_phoneme(phoneme: int) -> bool {
    phoneme != 20 && phoneme_flags_table()[phoneme] & 128 != 0
}

impl Segment {
    /// Articulatory flags of the segment's phoneme.
    pub fn flags(&self) -> (flags: u8)
        requires
            self.phoneme < PHONEME_COUNT,
        ensures
            flags == phoneme_flags_table()[self.phoneme as int],
    {
        phoneme_flags(self.phoneme)
    }

    /// Whether the segment is sonorant.
    pub fn sonorant(&self) -> (result: bool)
        requires
            self.phoneme < PHONEME_COUNT,
        ensures
            result == sonorant_phoneme(self.phoneme as int),
    {
        self.phoneme != 20 && self.flags() & 128 != 0
    }

    /// The pitch a devoiced segment keeps in magnitude only.
    pub open spec fn pitch_value(&self) -> int {
        if self.devoiced && self.pitch < 0 {
            -self.pitch
        } else {
            self.pitch as int
        }
    }

    /// The segment's pitch; a devoiced segment stores it negated.
    pub fn pitch(&self) -> (result: i32)
        requires
            self.pitch > i32::MIN,
        ensures
            result == self.pitch_value(),
    {
        if self.devoiced && self.pitch < 0 {
            -self.pitch
        } else {
            self.pitch
        }
    }

    /// A well-formed segment names a phoneme of the inventory and a nonempty frame
    /// range within the stored frames.
    pub open spec fn wf(&self, data: &AcousticData) -> bool {
        &&& self.phoneme < PHONEME_COUNT
        &&& self.frames_start < self.frames_end
        &&& self.unit_start + self.frames_end <= data.frames@.len()
    }
}

/// Every segment is well formed.
pub open spec fn segments_wf(segments: Seq<Segment>, data: &AcousticData) -> bool {
    forall|i: int| 0 <= i < segments.len() ==> #[trigger] segments[i].wf(data)
}

/// Where a unit group stands within its phrase.
#[derive(Clone, Copy, Debug, PartialEq, Eq, Structural)]
pub enum UnitPosition {
    Initial,
    Final,
    Medial,
    AlternatingFirst,
    AlternatingSecond,
    Silence,
}

/// Consecutive segments drawn from one stored unit.
#[derive(Clone, Copy, Debug)]
pub struct UnitGroup {
    pub segments_start: usize,
    pub segments_end: usize,
    pub frames_start: usize,
    pub frames_end: usize,
    pub position: UnitPosition,
}

/// Two groups cover the same segments and frames.
pub open spec fn same_layout(a: UnitGroup, b: UnitGroup) -> bool {
    a.segments_start == b.segments_start && a.segments_end == b.segments_end && a.frames_start
        == b.frames_start && a.frames_end == b.frames_end
}

proof fn lemma_partition_layout(segments: Seq<Segment>, a: Seq<UnitGroup>, b: Seq<UnitGroup>)
    requires
        groups_partition(segments, a),
        a.len() == b.len(),
        forall|g: int| 0 <= g < a.len() ==> same_layout(#[trigger] b[g], a[g]),
    ensures
        groups_partition(segments, b),
{
    assert forall|g: int, k: int|
        0 <= g < b.len() && b[g].segments_start <= k < b[g].segments_end
            implies #[trigger] segments[k].unit_start == #[trigger] segments[b[g].segments_start as int].unit_start
        && segments[k].frames_end <= b[g].frames_end && (ordered(segments[b[g].segments_start as int])
        ==> b[g].frames_start <= segments[k].frames_start) by {
        assert(same_layout(b[g], a[g]));
        assert(segments[a[g].segments_start as int].unit_start == segments[k].unit_start);
    }
    if b.len() > 0 {
        assert(same_layout(b[b.len() - 1], a[a.len() - 1]));
    }
    assert forall|g: int| 0 <= g < b.len() - 1 implies #[trigger] b[g].segments_end == b[g
        + 1].segments_start by {
        assert(same_layout(b[g], a[g]));
        assert(same_layout(b[g + 1], a[g + 1]));
    }
    assert forall|g: int| 0 <= g < b.len() implies #[trigger] b[g].frames_start
        == segments[b[g].segments_start as int].frames_start by {
        assert(same_layout(b[g], a[g]));
    }
    assert forall|g: int| 0 <= g < b.len() implies #[trigger] b[g].segments_start
        < b[g].segments_end <= segments.len() by {
        assert(same_layout(b[g], a[g]));
    }
}

/// A group is silent when its first and last segments are pauses.
pub open spec fn silent_group(segments: Seq<Segment>, group: UnitGroup) -> bool {
    segments[group.segments_start as int].phoneme == 0 && segments[group.segments_end - 1].phoneme
        == 0
}

/// The groups cover the segments in order, each a nonempty run of one unit whose
/// frame range starts at its first segment's and ends at or after every member's;
/// where the first segment's own range does not run backwards, the group's range
/// also starts at or before every member's.
pub open spec fn groups_partition(segments: Seq<Segment>, groups: Seq<UnitGroup>) -> bool {
    &&& (segments.len() == 0 <==> groups.len() == 0)
    &&& groups.len() > 0 ==> groups[0].segments_start == 0 && groups.last().segments_end
        == segments.len()
    &&& forall|g: int|
        0 <= g < groups.len() ==> #[trigger] groups[g].segments_start < groups[g].segments_end
            <= segments.len()
    &&& forall|g: int|
        0 <= g < groups.len() - 1 ==> #[trigger] groups[g].segments_end == groups[g
            + 1].segments_start
    &&& forall|g: int|
        0 <= g < groups.len() ==> #[trigger] groups[g].frames_start
            == segments[groups[g].segments_start as int].frames_start
    &&& forall|g: int, k: int|
        0 <= g < groups.len() && groups[g].segments_start <= k < groups[g].segments_end
            ==> #[trigger] segments[k].unit_start == #[trigger] segments[groups[g].segments_start as int].unit_start
            && segments[k].frames_end <= groups[g].frames_end
            && (ordered(segments[groups[g].segments_start as int]) ==> groups[g].frames_start
            <= segments[k].frames_start)
}

/// A segment whose frame range does not run backwards.
pub open spec fn ordered(segment: Segment) -> bool {
    segment.frames_start <= segment.frames_end
}

fn max_usize(a: usize, b: usize) -> (r: usize)
    ensures
        r == if a >= b {
            a
        } else {
            b
        },
{
    if a >= b {
        a
    } else {
        b
    }
}

/// A segment's shape as synthesis needs it: a phoneme of the inventory and a nonempty frame range.
pub open spec fn shaped(segment: Segment) -> bool {
    segment.phoneme < PHONEME_COUNT && segment.frames_start < segment.frames_end
}

/// A segment names a phoneme of the inventory, as grouping and pitch contours need.
pub open spec fn known_phoneme(segment: Segment) -> bool {
    segment.phoneme < PHONEME_COUNT
}

proof fn lemma_partition_merge(s: Seq<Segment>, before: Seq<UnitGroup>, after: Seq<UnitGroup>, index: int)
    requires
        0 <= index < s.len(),
        groups_partition(s.take(index), before),
        before.len() > 0,
        after.len() == before.len(),
        forall|g: int| 0 <= g < before.len() - 1 ==> #[trigger] after[g] == before[g],
        after.last().segments_start == before.last().segments_start,
        after.last().frames_start == before.last().frames_start,
        after.last().segments_end == index + 1,
        after.last().frames_end >= before.last().frames_end,
        after.last().frames_end >= s[index].frames_end,
        s[before.last().segments_start as int].unit_start == s[index].unit_start,
        s[index].frames_start == before.last().frames_end,
    ensures
        groups_partition(s.take(index + 1), after),
{
    let t = s.take(index + 1);
    let p = s.take(index);
    let n = before.len() - 1;
    if n > 0 {
        assert(after[0] == before[0]);
    }
    assert(before[n].segments_start < before[n].segments_end);
    assert(before[n].frames_start == p[before[n].segments_start as int].frames_start);
    assert(p[before[n].segments_start as int].frames_end <= before[n].frames_end);
    assert forall|g: int, k: int|
        0 <= g < after.len() && after[g].segments_start <= k < after[g].segments_end
            implies #[trigger] t[k].unit_start == #[trigger] t[after[g].segments_start as int].unit_start
        && t[k].frames_end <= after[g].frames_end && (ordered(t[after[g].segments_start as int])
        ==> after[g].frames_start <= t[k].frames_start) by {
        assert(before[g].segments_start < before[g].segments_end);
        if g == n && k == index {
        } else {
            assert(t[k] == p[k]);
            assert(p[before[g].segments_start as int].unit_start == p[k].unit_start);
        }
    }
    assert forall|g: int| 0 <= g < after.len() - 1 implies #[trigger] after[g].segments_end
        == after[g + 1].segments_start by {
        assert(before[g].segments_end == before[g + 1].segments_start);
    }
    assert forall|g: int| 0 <= g < after.len() implies #[trigger] after[g].frames_start
        == t[after[g].segments_start as int].frames_start by {
        assert(before[g].frames_start == p[before[g].segments_start as int].frames_start);
        assert(before[g].segments_start < before[g].segments_end);
    }
    assert forall|g: int| 0 <= g < after.len() implies #[trigger] after[g].segments_start
        < after[g].segments_end <= t.len() by {
        assert(before[g].segments_start < before[g].segments_end);
    }
    assert(t.len() > 0 && after.len() > 0);
    assert(after[0].segments_start == 0);
    assert(after.last().segments_end == t.len());
}

proof fn lemma_partition_push(s: Seq<Segment>, before: Seq<UnitGroup>, after: Seq<UnitGroup>, index: int)
    requires
        0 <= index < s.len(),
        groups_partition(s.take(index), before),
        after.len() == before.len() + 1,
        forall|g: int| 0 <= g < before.len() ==> #[trigger] after[g] == before[g],
        after.last().segments_start == index,
        after.last().segments_end == index + 1,
        after.last().frames_start == s[index].frames_start,
        after.last().frames_end == s[index].frames_end,
    ensures
        groups_partition(s.take(index + 1), after),
{
    let t = s.take(index + 1);
    let p = s.take(index);
    let n = before.len();
    if n == 0 {
        assert(p.len() == 0);
    } else {
        assert(after[0] == before[0]);
    }
    assert forall|g: int, k: int|
        0 <= g < after.len() && after[g].segments_start <= k < after[g].segments_end
            implies #[trigger] t[k].unit_start == #[trigger] t[after[g].segments_start as int].unit_start
        && t[k].frames_end <= after[g].frames_end && (ordered(t[after[g].segments_start as int])
        ==> after[g].frames_start <= t[k].frames_start) by {
        if g < n {
            assert(before[g].segments_start < before[g].segments_end);
            assert(t[k] == p[k]);
            assert(p[before[g].segments_start as int].unit_start == p[k].unit_start);
        }
    }
    assert forall|g: int| 0 <= g < after.len() - 1 implies #[trigger] after[g].segments_end
        == after[g + 1].segments_start by {
        if g < n - 1 {
            assert(before[g].segments_end == before[g + 1].segments_start);
        }
    }
    assert forall|g: int| 0 <= g < after.len() implies #[trigger] after[g].frames_start
        == t[after[g].segments_start as int].frames_start by {
        if g < n {
            assert(before[g].frames_start == p[before[g].segments_start as int].frames_start);
            assert(before[g].segments_start < before[g].segments_end);
        }
    }
    assert forall|g: int| 0 <= g < after.len() implies #[trigger] after[g].segments_start
        < after[g].segments_end <= t.len() by {
        if g < n {
            assert(before[g].segments_start < before[g].segments_end);
        }
    }
}

/// The groups after segment `index`: it extends the last group when it continues
/// the same stored unit from where that group's frames end, else starts a group.
pub open spec fn group_step(segments: Seq<Segment>, groups: Seq<UnitGroup>, index: int) -> Seq<UnitGroup> {
    let segment = segments[index];
    if groups.len() > 0 && segments[groups.last().segments_start as int].unit_start == segment.unit_start
        && segment.frames_start == groups.last().frames_end {
        let last = groups.last();
        groups.update(
            groups.len() - 1,
            UnitGroup {
                frames_end: if last.frames_end >= segment.frames_end {
                    last.frames_end
                } else {
                    segment.frames_end
                },
                segments_end: (index + 1) as usize,
                ..last
            },
        )
    } else {
        groups.push(
            UnitGroup {
                segments_start: index as usize,
                segments_end: (index + 1) as usize,
                frames_start: segment.frames_start,
                frames_end: segment.frames_end,
                position: UnitPosition::Silence,
            },
        )
    }
}

/// The groups of the first `count` segments, all marked as silence.
pub open spec fn grouped(segments: Seq<Segment>, count: int) -> Seq<UnitGroup>
    decreases count,
{
    if count <= 0 {
        Seq::empty()
    } else {
        group_step(segments, grouped(segments, count - 1), count - 1)
    }
}

/// The position of group `offset` of a phrase of `length` groups, after a group at
/// `previous`: initial, final, medial for a sonorant run, else alternating.
pub open spec fn phrase_position(segments: Seq<Segment>, group: UnitGroup, offset: int, length: int, previous: UnitPosition) -> UnitPosition {
    if offset == 0 {
        UnitPosition::Initial
    } else if offset == length - 1 {
        UnitPosition::Final
    } else if group.segments_end - group.segments_start > 1 && sonorant_phoneme(
        segments[group.segments_start as int].phoneme as int,
    ) && sonorant_phoneme(segments[group.segments_end - 1].phoneme as int) {
        UnitPosition::Medial
    } else if previous == UnitPosition::AlternatingFirst {
        UnitPosition::AlternatingSecond
    } else {
        UnitPosition::AlternatingFirst
    }
}

/// The groups with the positions of a phrase's groups from `offset` on assigned.
pub open spec fn positioned_run(
    segments: Seq<Segment>,
    groups: Seq<UnitGroup>,
    phrase_start: int,
    length: int,
    offset: int,
    previous: UnitPosition,
) -> Seq<UnitGroup>
    decreases length - offset,
{
    if offset >= length {
        groups
    } else {
        let group = groups[phrase_start + offset];
        let position = phrase_position(segments, group, offset, length, previous);
        positioned_run(
            segments,
            groups.update(phrase_start + offset, UnitGroup { position, ..group }),
            phrase_start,
            length,
            offset + 1,
            position,
        )
    }
}

/// The groups with the positions of every phrase from `index` on assigned, a
/// phrase running from `phrase_start` to the next silent group or the end.
pub open spec fn positioned(segments: Seq<Segment>, groups: Seq<UnitGroup>, phrase_start: int, index: int) -> Seq<UnitGroup>
    decreases groups.len() + 1 - index,
{
    if index > groups.len() || index < phrase_start || phrase_start < 0 {
        groups
    } else if index < groups.len() && !silent_group(segments, groups[index]) {
        positioned(segments, groups, phrase_start, index + 1)
    } else {
        let run = positioned_run(segments, groups, phrase_start, index - phrase_start, 0, UnitPosition::Medial);
        proof {
            lemma_positioned_run_len(segments, groups, phrase_start, index - phrase_start, 0, UnitPosition::Medial);
        }
        if index == groups.len() {
            run
        } else {
            positioned(segments, run, index + 1, index + 1)
        }
    }
}

/// The unit groups of a segment list with their phrase positions.
pub open spec fn unit_groups(segments: Seq<Segment>) -> Seq<UnitGroup> {
    positioned(segments, grouped(segments, segments.len() as int), 0, 0)
}

pub proof fn lemma_positioned_run_len(segments: Seq<Segment>, groups: Seq<UnitGroup>, phrase_start: int, length: int, offset: int, previous: UnitPosition)
    requires
        0 <= phrase_start,
        phrase_start + length <= groups.len(),
        0 <= offset,
    ensures
        positioned_run(segments, groups, phrase_start, length, offset, previous).len() == groups.len(),
    decreases length - offset,
{
    if offset < length {
        let group = groups[phrase_start + offset];
        let position = phrase_position(segments, group, offset, length, previous);
        lemma_positioned_run_len(
            segments,
            groups.update(phrase_start + offset, UnitGroup { position, ..group }),
            phrase_start,
            length,
            offset + 1,
            position,
        );
    }
}

/// Groups consecutive segments that continue the same stored unit, then marks each
/// group's position within its phrase; pause groups separate phrases.
#[verifier::rlimit(80)]
pub fn group_segments(segments: &Vec<Segment>) -> (groups: Vec<UnitGroup>)
    requires
        forall|i: int| 0 <= i < segments@.len() ==> known_phoneme(#[trigger] segments@[i]),
    ensures
        groups_partition(segments@, groups@),
        forall|g: int|
            0 <= g < groups@.len() ==> (#[trigger] groups@[g].position == UnitPosition::Silence
                <==> silent_group(segments@, groups@[g])),
        forall|g: int|
            0 <= g < groups@.len() && !silent_group(segments@, groups@[g]) && (g == 0
                || silent_group(segments@, groups@[g - 1])) ==> #[trigger] groups@[g].position
                == UnitPosition::Initial,
        groups@ == unit_groups(segments@),
{
    let mut groups: Vec<UnitGroup> = Vec::new();
    let mut index: usize = 0;
    while index < segments.len()
        invariant
            index <= segments@.len(),
            forall|i: int| 0 <= i < segments@.len() ==> known_phoneme(#[trigger] segments@[i]),
            groups_partition(segments@.take(index as int), groups@),
            groups@ == grouped(segments@, index as int),
            forall|g: int|
                0 <= g < groups@.len() ==> #[trigger] groups@[g].position
                    == UnitPosition::Silence,
        decreases segments@.len() - index,
    {
        let segment = segments[index];
        let count = groups.len();
        proof {
            assert(segments@.take(index + 1).take(index as int) =~= segments@.take(index as int));
        }
        if count > 0 {
            let last = groups[count - 1];
            if segments[last.segments_start].unit_start == segment.unit_start
                && segment.frames_start == last.frames_end {
                let updated = UnitGroup {
                    frames_end: max_usize(last.frames_end, segment.frames_end),
                    segments_end: index + 1,
                    ..last
                };
                let ghost previous_groups = groups@;
                groups.set(count - 1, updated);
                proof {
                    lemma_partition_merge(segments@, previous_groups, groups@, index as int);
                }
                index += 1;
                continue;
            }
        }
        let ghost previous_groups = groups@;
        groups.push(
            UnitGroup {
                segments_start: index,
                segments_end: index + 1,
                frames_start: segment.frames_start,
                frames_end: segment.frames_end,
                position: UnitPosition::Silence,
            },
        );
        proof {
            lemma_partition_push(segments@, previous_groups, groups@, index as int);
        }
        index += 1;
    }
    proof {
        assert(segments@.take(index as int) =~= segments@);
    }
    let ghost partitioned = groups@;
    let group_count = groups.len();
    let mut phrase_start: usize = 0;
    let mut index: usize = 0;
    loop
        invariant_except_break
            forall|g: int|
                phrase_start <= g < group_count ==> #[trigger] groups@[g].position
                    == UnitPosition::Silence,
            positioned(segments@, groups@, phrase_start as int, index as int) == unit_groups(segments@),
        invariant
            group_count == groups@.len() == partitioned.len(),
            phrase_start <= index <= group_count,
            groups_partition(segments@, partitioned),
            forall|i: int| 0 <= i < segments@.len() ==> known_phoneme(#[trigger] segments@[i]),
            forall|g: int| 0 <= g < group_count ==> same_layout(#[trigger] groups@[g], partitioned[g]),
            forall|g: int|
                0 <= g < phrase_start && g < group_count ==> (#[trigger] groups@[g].position
                    == UnitPosition::Silence <==> silent_group(segments@, groups@[g])),
            forall|g: int|
                0 <= g < phrase_start && g < group_count && !silent_group(segments@, groups@[g])
                    && (g == 0 || silent_group(segments@, groups@[g - 1])) ==> #[trigger] groups@[g].position
                    == UnitPosition::Initial,
            forall|g: int|
                0 <= g < index && g < group_count && g >= phrase_start ==> !silent_group(
                    segments@,
                    #[trigger] groups@[g],
                ),
            phrase_start > 0 && phrase_start <= group_count ==> silent_group(
                segments@,
                groups@[phrase_start - 1],
            ),
        ensures
            groups@ == unit_groups(segments@),
            forall|g: int| 0 <= g < group_count ==> same_layout(#[trigger] groups@[g], partitioned[g]),
            forall|g: int|
                0 <= g < group_count ==> (#[trigger] groups@[g].position
                    == UnitPosition::Silence <==> silent_group(segments@, groups@[g])),
            forall|g: int|
                0 <= g < group_count && !silent_group(segments@, groups@[g])
                    && (g == 0 || silent_group(segments@, groups@[g - 1])) ==> #[trigger] groups@[g].position
                    == UnitPosition::Initial,
        decreases group_count + 1 - index,
    {
        let silence = if index == group_count {
            true
        } else {
            let group = groups[index];
            segments[group.segments_start].phoneme == 0 && segments[group.segments_end
                - 1].phoneme == 0
        };
        if !silence {
            index += 1;
            continue;
        }
        let phrase_len = index - phrase_start;
        let mut previous = UnitPosition::Medial;
        let mut offset: usize = 0;
        let ghost entry_groups = groups@;
        while offset < phrase_len
            invariant
                positioned_run(segments@, groups@, phrase_start as int, phrase_len as int, offset as int, previous)
                    == positioned_run(segments@, entry_groups, phrase_start as int, phrase_len as int, 0, UnitPosition::Medial),
                group_count == groups@.len() == partitioned.len(),
                phrase_start <= index <= group_count,
                phrase_len == index - phrase_start,
                offset <= phrase_len,
                groups_partition(segments@, partitioned),
                forall|i: int| 0 <= i < segments@.len() ==> known_phoneme(#[trigger] segments@[i]),
                forall|g: int|
                    0 <= g < group_count ==> same_layout(#[trigger] groups@[g], partitioned[g]),
                forall|g: int|
                    phrase_start + offset <= g < group_count ==> #[trigger] groups@[g].position
                        == UnitPosition::Silence,
                forall|g: int|
                    phrase_start <= g < phrase_start + offset ==> #[trigger] groups@[g].position
                        != UnitPosition::Silence,
                offset > 0 ==> groups@[phrase_start as int].position == UnitPosition::Initial,
                forall|g: int|
                    0 <= g < phrase_start && g < group_count ==> (#[trigger] groups@[g].position
                        == UnitPosition::Silence <==> silent_group(segments@, groups@[g])),
                forall|g: int|
                    0 <= g < phrase_start && g < group_count && !silent_group(
                        segments@,
                        groups@[g],
                    ) && (g == 0 || silent_group(segments@, groups@[g - 1]))
                        ==> #[trigger] groups@[g].position == UnitPosition::Initial,
                forall|g: int|
                    0 <= g < index && g < group_count && g >= phrase_start ==> !silent_group(
                        segments@,
                        #[trigger] groups@[g],
                    ),
                phrase_start > 0 && phrase_start <= group_count ==> silent_group(
                    segments@,
                    groups@[phrase_start - 1],
                ),
            decreases phrase_len - offset,
        {
            let group = groups[phrase_start + offset];
            let position = if offset == 0 {
                UnitPosition::Initial
            } else if offset == phrase_len - 1 {
                UnitPosition::Final
            } else if group.segments_end - group.segments_start > 1
                && segments[group.segments_start].sonorant()
                && segments[group.segments_end - 1].sonorant() {
                UnitPosition::Medial
            } else if previous == UnitPosition::AlternatingFirst {
                UnitPosition::AlternatingSecond
            } else {
                UnitPosition::AlternatingFirst
            };
            groups.set(phrase_start + offset, UnitGroup { position, ..group });
            previous = position;
            offset += 1;
        }
        if index == group_count {
            break;
        }
        phrase_start = index + 1;
        index += 1;
    }
    proof {
        lemma_partition_layout(segments@, partitioned, groups@);
    }
    groups
}

} // verus!

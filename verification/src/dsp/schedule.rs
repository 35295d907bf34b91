//! Select acoustic frames when a segment is shortened or lengthened.
use vstd::prelude::*;

verus! {

/// Which end of a segment keeps its frames when the segment is stretched.
#[derive(Clone, Copy, Debug, PartialEq, Eq, Structural)]
pub enum Hold {
    Head,
    Tail,
    Neither,
}

/// How a segment's frames may be repeated or skipped.
#[derive(Clone, Copy, Debug)]
pub struct FramePolicy {
    pub phoneme_flags: u8,
    pub hold: Hold,
    pub phrase_initial: bool,
}

/// The first unvoiced frame at or after `from`.
pub open spec fn first_unvoiced(voicing: Seq<bool>, from: int) -> Option<int>
    decreases voicing.len() - from,
{
    if from < 0 || from >= voicing.len() {
        None
    } else if !voicing[from] {
        Some(from)
    } else {
        first_unvoiced(voicing, from + 1)
    }
}

/// The length of the unvoiced run starting at `from`, scanning no further than `end`.
pub open spec fn unvoiced_run(voicing: Seq<bool>, from: int, end: int) -> nat
    decreases end - from,
{
    if from < 0 || from >= end || from >= voicing.len() || voicing[from] {
        0
    } else {
        1 + unvoiced_run(voicing, from + 1, end)
    }
}

/// The unvoiced onset of a segment and the length of its run. The run is bounded
/// by the onset's distance from the end, measured from the start of the segment.
pub open spec fn onset_run(voicing: Seq<bool>) -> (int, nat) {
    match first_unvoiced(voicing, 0) {
        Some(start) => (start, unvoiced_run(voicing, start, voicing.len() - start)),
        None => (0, 0),
    }
}

/// Frames kept before inserted silence or a skipped stretch: the unvoiced onset,
/// when its run is nonempty.
pub open spec fn onset_prefix(voicing: Seq<bool>) -> int {
    let (start, run) = onset_run(voicing);
    if run > 0 {
        start
    } else {
        0
    }
}

/// A lengthened segment that doubles its frames after the onset run: frames before
/// `prefix` once, the frame at `prefix` repeated while too few frames remain, then
/// each following frame twice until the extra periods are used, then the rest once.
pub open spec fn paired_frame(length: int, periods: int, prefix: int, i: int) -> Option<usize> {
    let remaining = length - prefix;
    let extra = periods - length;
    let fill = if remaining >= extra {
        0
    } else {
        extra - remaining
    };
    let repeats = if remaining >= extra {
        extra
    } else {
        remaining
    };
    if i < prefix {
        Some(i as usize)
    } else if i < prefix + fill {
        Some(prefix as usize)
    } else if i - prefix - fill < 2 * repeats {
        Some((prefix + (i - prefix - fill) / 2) as usize)
    } else {
        Some((prefix + repeats + (i - prefix - fill - 2 * repeats)) as usize)
    }
}

/// The frame of period `i` in a segment without voiced or nasal flags.
pub open spec fn unvoiced_frame(voicing: Seq<bool>, periods: int, flags: u8, i: int) -> Option<usize> {
    let length = voicing.len() as int;
    let prefix = onset_prefix(voicing);
    if periods == length {
        Some(i as usize)
    } else if periods > length {
        if flags & 16 == 0 || flags & 2 == 0 {
            paired_frame(length, periods, onset_run(voicing).1 as int, i)
        } else if i < prefix {
            Some(i as usize)
        } else if i < prefix + periods - length {
            None
        } else {
            Some((i - (periods - length)) as usize)
        }
    } else if i < prefix {
        Some(i as usize)
    } else {
        Some(
            (if i + length - periods < length - 1 {
                i + length - periods
            } else {
                length - 1
            }) as usize,
        )
    }
}

/// The frame of period `i` of a segment with `voicing.len()` frames spread over
/// `periods` pitch periods; `None` is an inserted silent frame.
pub open spec fn scheduled_frame(voicing: Seq<bool>, periods: int, policy: FramePolicy, i: int) -> Option<usize> {
    let length = voicing.len() as int;
    let flags = policy.phoneme_flags;
    if length == 0 {
        None
    } else if flags & (128u8 | 4u8 | 8u8) == 0 {
        unvoiced_frame(voicing, periods, flags, i)
    } else if periods == length {
        Some(i as usize)
    } else if periods > length && flags & 128 != 0 && policy.hold == Hold::Head {
        Some(
            (if i < periods - length {
                0
            } else {
                i - (periods - length)
            }) as usize,
        )
    } else if periods > length && flags & 128 != 0 && policy.hold == Hold::Tail {
        Some(
            (if i < length {
                i
            } else {
                length - 1
            }) as usize,
        )
    } else if periods < length && flags & 128 != 0 && policy.phrase_initial && length - periods
        <= periods && policy.hold != Hold::Neither {
        // Skip up to two frames per period until the surplus is used, walking from
        // the held end.
        if policy.hold == Hold::Head {
            let skipped = if 2 * i < length - periods {
                2 * i
            } else {
                length - periods
            };
            Some((i + skipped) as usize)
        } else {
            let step = periods - 1 - i;
            let skipped = if 2 * step < length - periods {
                2 * step
            } else {
                length - periods
            };
            Some((length - 1 - step - skipped) as usize)
        }
    } else {
        Some((i * length / periods) as usize)
    }
}

/// The frame schedule of a segment.
pub open spec fn schedule_spec(voicing: Seq<bool>, periods: nat, policy: FramePolicy) -> Seq<
    Option<usize>,
> {
    Seq::new(periods, |i: int| scheduled_frame(voicing, periods as int, policy, i))
}

fn first_unvoiced_exec(voicing: &Vec<bool>) -> (result: Option<usize>)
    ensures
        result matches Some(i) ==> first_unvoiced(voicing@, 0) == Some(i as int),
        result is None ==> first_unvoiced(voicing@, 0) is None,
{
    let mut index: usize = 0;
    while index < voicing.len()
        invariant
            index <= voicing@.len(),
            first_unvoiced(voicing@, 0) == first_unvoiced(voicing@, index as int),
        decreases voicing@.len() - index,
    {
        if !voicing[index] {
            return Some(index);
        }
        index += 1;
    }
    None
}

fn onset_run_exec(voicing: &Vec<bool>) -> (result: (usize, usize))
    ensures
        result.0 as int == onset_run(voicing@).0,
        result.1 as nat == onset_run(voicing@).1,
        result.0 + result.1 <= voicing@.len(),
        onset_run(voicing@).1 > 0 ==> onset_run(voicing@).0 < voicing@.len(),
{
    let length = voicing.len();
    match first_unvoiced_exec(voicing) {
        Some(start) => {
            proof {
                lemma_first_unvoiced_bound(voicing@, 0);
            }
            let end = length - start;
            let mut index = start;
            while index < end && !voicing[index]
                invariant
                    start <= index,
                    start < length == voicing@.len(),
                    end == length - start,
                    index <= end || index == start,
                    unvoiced_run(voicing@, start as int, end as int) == (index - start) + unvoiced_run(
                        voicing@,
                        index as int,
                        end as int,
                    ),
                decreases length - index,
            {
                index += 1;
            }
            (start, index - start)
        },
        None => (0, 0),
    }
}

proof fn lemma_first_unvoiced_bound(voicing: Seq<bool>, from: int)
    ensures
        first_unvoiced(voicing, from) matches Some(i) ==> from <= i < voicing.len()
            && !voicing[i],
    decreases voicing.len() - from,
{
    if from >= 0 && from < voicing.len() && voicing[from] {
        lemma_first_unvoiced_bound(voicing, from + 1);
    }
}

/// Lengthens a segment of `length` frames to `periods` by doubling its frames after
/// the first `prefix`, as `paired_frame` describes.
fn pairs(length: usize, periods: usize, prefix: usize) -> (result: Vec<Option<usize>>)
    requires
        prefix <= length < periods < 0x8000_0000,
    ensures
        result@ == Seq::new(periods as nat, |i: int| paired_frame(length as int, periods as int, prefix as int, i)),
        forall|i: int| 0 <= i < result@.len() ==> (#[trigger] result@[i] matches Some(f) ==> f <= length),
{
    let remaining = length - prefix;
    let extra = periods - length;
    let fill = if remaining >= extra { 0 } else { extra - remaining };
    let repeats = if remaining >= extra { extra } else { remaining };
    let mut result: Vec<Option<usize>> = Vec::new();
    let mut i: usize = 0;
    while i < periods
        invariant
            prefix <= length < periods < 0x8000_0000,
            i <= periods,
            remaining == length - prefix,
            extra == periods - length,
            fill == (if remaining >= extra { 0 } else { extra - remaining }),
            repeats == (if remaining >= extra { extra } else { remaining }),
            result@ =~= Seq::new(periods as nat, |j: int| paired_frame(length as int, periods as int, prefix as int, j)).take(
                i as int,
            ),
            forall|k: int| 0 <= k < result@.len() ==> (#[trigger] result@[k] matches Some(f) ==> f <= length),
        decreases periods - i,
    {
        let entry = if i < prefix {
            Some(i)
        } else if i < prefix + fill {
            Some(prefix)
        } else if i - prefix - fill < 2 * repeats {
            Some(prefix + (i - prefix - fill) / 2)
        } else {
            Some(prefix + repeats + (i - prefix - fill - 2 * repeats))
        };
        assert(entry == paired_frame(length as int, periods as int, prefix as int, i as int));
        result.push(entry);
        i += 1;
    }
    result
}

/// The frame schedule of a segment without voiced or nasal flags: frames are
/// paired, or silence is inserted after the unvoiced onset, or frames are skipped.
fn unvoiced(voicing: &Vec<bool>, periods: usize, flags: u8) -> (result: Vec<Option<usize>>)
    requires
        0 < voicing@.len() < 0x8000_0000,
        periods < 0x8000_0000,
    ensures
        result@ == Seq::new(periods as nat, |i: int| unvoiced_frame(voicing@, periods as int, flags, i)),
        forall|i: int| 0 <= i < result@.len() ==> (#[trigger] result@[i] matches Some(f) ==> f <= voicing@.len()),
{
    let length = voicing.len();
    let (start, run) = onset_run_exec(voicing);
    if periods > length && (flags & 16 == 0 || flags & 2 == 0) {
        let result = pairs(length, periods, run);
        assert(result@ =~= Seq::new(periods as nat, |i: int| unvoiced_frame(voicing@, periods as int, flags, i)));
        return result;
    }
    let prefix: usize = if run > 0 { start } else { 0 };
    let mut result: Vec<Option<usize>> = Vec::new();
    let mut i: usize = 0;
    while i < periods
        invariant
            i <= periods < 0x8000_0000,
            0 < length == voicing@.len() < 0x8000_0000,
            !(periods > length && (flags & 16 == 0 || flags & 2 == 0)),
            prefix as int == onset_prefix(voicing@),
            prefix <= length,
            result@ =~= Seq::new(periods as nat, |j: int| unvoiced_frame(voicing@, periods as int, flags, j)).take(
                i as int,
            ),
            forall|k: int| 0 <= k < result@.len() ==> (#[trigger] result@[k] matches Some(f) ==> f <= voicing@.len()),
        decreases periods - i,
    {
        let entry = if periods == length {
            Some(i)
        } else if periods > length {
            if i < prefix {
                Some(i)
            } else if i < prefix + periods - length {
                None
            } else {
                Some(i - (periods - length))
            }
        } else if i < prefix {
            Some(i)
        } else if i + length - periods < length - 1 {
            Some(i + length - periods)
        } else {
            Some(length - 1)
        };
        assert(entry == unvoiced_frame(voicing@, periods as int, flags, i as int));
        result.push(entry);
        i += 1;
    }
    result
}

/// Spreads a segment's frames over its pitch periods, repeating or skipping frames
/// by the segment's policy.
pub fn schedule(voicing: &Vec<bool>, periods: usize, policy: FramePolicy) -> (result: Vec<Option<usize>>)
    requires
        periods < 0x8000_0000,
        voicing@.len() < 0x8000_0000,
    ensures
        result@ == schedule_spec(voicing@, periods as nat, policy),
        forall|i: int| 0 <= i < result@.len() ==> (#[trigger] result@[i] matches Some(f) ==> f
            <= voicing@.len()),
{
    let length = voicing.len();
    let flags = policy.phoneme_flags;
    if length > 0 && flags & (128u8 | 4u8 | 8u8) == 0 {
        let result = unvoiced(voicing, periods, flags);
        assert(result@ =~= schedule_spec(voicing@, periods as nat, policy));
        return result;
    }
    let mut result: Vec<Option<usize>> = Vec::new();
    let mut i: usize = 0;
    while i < periods
        invariant
            i <= periods < 0x8000_0000,
            length == voicing@.len() < 0x8000_0000,
            flags == policy.phoneme_flags,
            length == 0 || flags & (128u8 | 4u8 | 8u8) != 0,
            result@ =~= schedule_spec(voicing@, periods as nat, policy).take(i as int),
            forall|k: int| 0 <= k < result@.len() ==> (#[trigger] result@[k] matches Some(f) ==> f
                <= voicing@.len()),
        decreases periods - i,
    {
        let entry: Option<usize> = if length == 0 {
            None
        } else if periods == length {
            Some(i)
        } else if periods > length && flags & 128 != 0 && policy.hold == Hold::Head {
            if i < periods - length {
                Some(0)
            } else {
                Some(i - (periods - length))
            }
        } else if periods > length && flags & 128 != 0 && policy.hold == Hold::Tail {
            if i < length {
                Some(i)
            } else {
                Some(length - 1)
            }
        } else if periods < length && flags & 128 != 0 && policy.phrase_initial && length - periods
            <= periods && policy.hold != Hold::Neither {
            if policy.hold == Hold::Head {
                let skipped = if 2 * i < length - periods { 2 * i } else { length - periods };
                Some(i + skipped)
            } else {
                let step = periods - 1 - i;
                let skipped = if 2 * step < length - periods { 2 * step } else { length - periods };
                Some(length - 1 - step - skipped)
            }
        } else {
            assert(i * length / (periods as int) < length) by (nonlinear_arith)
                requires
                    i < periods,
                    0 < length;
            assert(i * length <= 0x4000_0000_0000_0000) by (nonlinear_arith)
                requires
                    i < 0x8000_0000,
                    length < 0x8000_0000;
            Some(((i as u64 * length as u64) / periods as u64) as usize)
        };
        assert(entry == scheduled_frame(voicing@, periods as int, policy, i as int));
        result.push(entry);
        i += 1;
    }
    result
}

} // verus!

//! Phrase accent: pitch contours over the moras of a phrase.
use vstd::prelude::*;
use super::{Entry, Node, entries_wf, nodes_fit, sum_durations, duration_total, contains_index};
use crate::dsp::{rounded_div, rounded_quotient};
use crate::dsp::effects::truncating_div;
use crate::utterance::{phoneme_flags, phoneme_flags_table};
use crate::voice::VoiceSettings;

verus! {

/// Breakpoints of the accent curve.
pub open spec fn curve_x() -> Seq<i32> {
    seq![0i32, 2000, 4000, 16000, 24000]
}

/// Values of the accent curve at its breakpoints.
pub open spec fn curve_y() -> Seq<i32> {
    seq![0i32, 5003, 5886, 1177, 235]
}

/// The accent curve between breakpoints `index - 1` and `index`.
pub open spec fn curve_piece(position: i32, index: int) -> i32 {
    let x0 = curve_x()[index - 1];
    let x1 = curve_x()[index];
    let y0 = curve_y()[index - 1];
    let y1 = curve_y()[index];
    let numerator = (((position - x0) * (y1 - y0)) as i32) >> 4i32;
    ((y0 >> 4i32) + rounded_quotient(numerator as int, (x1 - x0) as int)) as i32
}

/// The accent curve: a rise and a slow fall, piecewise linear, zero outside `0..24000`.
pub open spec fn curve_value(position: i32) -> i32 {
    if position <= 0 {
        0
    } else if position < 2000 {
        curve_piece(position, 1)
    } else if position < 4000 {
        curve_piece(position, 2)
    } else if position < 16000 {
        curve_piece(position, 3)
    } else if position < 24000 {
        curve_piece(position, 4)
    } else {
        0
    }
}

/// The accent curve at a position.
pub fn curve(position: i32) -> (result: i32)
    ensures
        result == curve_value(position),
{
    let x: [i32; 5] = [0, 2000, 4000, 16000, 24000];
    let y: [i32; 5] = [0, 5003, 5886, 1177, 235];
    assert(x@ =~= curve_x() && y@ =~= curve_y());
    if position <= 0 {
        return 0;
    }
    let mut index: usize = 1;
    while index < 5
        invariant
            1 <= index <= 5,
            x@ == curve_x(),
            y@ == curve_y(),
            position >= x[index - 1],
            position > 0,
        decreases 5 - index,
    {
        if position < x[index] {
            let dx = position - x[index - 1];
            let dy = y[index] - y[index - 1];
            assert(0 <= dx < 12000 && -4710 <= dy <= 5003 && x[index as int] - x[index - 1] >= 2000) by {
                assert(index == 1 || index == 2 || index == 3 || index == 4);
            }
            assert(-60_000_000 <= dx * dy <= 60_036_000) by (nonlinear_arith)
                requires
                    0 <= dx < 12000,
                    -4710 <= dy <= 5003;
            let product = dx * dy;
            assert(-0x8000000 <= product >> 4i32 <= 0x8000000) by (bit_vector)
                requires
                    -60_000_000 <= product <= 60_036_000;
            let numerator = product >> 4i32;
            let quotient = rounded_div(numerator as i64, (x[index] - x[index - 1]) as i64);
            assert(-0x8000000 <= quotient <= 0x8000000) by (nonlinear_arith)
                requires
                    quotient == rounded_quotient(numerator as int, (x[index as int] - x[index - 1]) as int),
                    -0x8000000 <= numerator <= 0x8000000,
                    x[index as int] - x[index - 1] >= 2000;
            let start = y[index - 1];
            assert(0 <= start <= 6000) by {
                assert(index == 1 || index == 2 || index == 3 || index == 4);
            }
            assert(0 <= start >> 4i32 <= 375) by (bit_vector)
                requires
                    0 <= start <= 6000;
            return (start >> 4i32) + quotient as i32;
        }
        index += 1;
    }
    0
}

/// The accent rate of a stretch of speech of the given duration: fixed for short
/// stretches, otherwise inversely proportional to the duration.
pub open spec fn rate_value(duration: i32) -> i32 {
    if duration <= 400 {
        6301
    } else {
        let total = duration.wrapping_add(250);
        if total > 0 {
            (4096000int / total as int) as i32
        } else {
            0
        }
    }
}

/// The accent rate of a duration.
pub fn rate(duration: i32) -> (result: i32)
    ensures
        result == rate_value(duration),
{
    if duration <= 400 {
        6301
    } else {
        let total = duration.wrapping_add(250);
        if total > 0 {
            4096000 / total
        } else {
            0
        }
    }
}

/// The curve offset of a node at a rate.
pub open spec fn offset_value(rate: i32, node: Node) -> i32 {
    (rounded_quotient(1024000, rate as int) as i32).wrapping_sub(83).wrapping_sub(node.consonant).wrapping_sub(
        node.vowel.wrapping_add(1) >> 1i32,
    )
}

/// The curve offset of a node at a rate.
pub fn offset(rate: i32, node: &Node) -> (result: i32)
    ensures
        result == offset_value(rate, *node),
{
    let quotient = rounded_div(1024000, rate as i64);
    assert(-1024000 <= quotient <= 1024000) by (nonlinear_arith)
        requires
            quotient == rounded_quotient(1024000, rate as int),
    {
        if rate != 0 {
            let d = crate::dsp::abs(rate as int);
            assert((1024000 + d / 2) / d <= 1024000);
        }
    }
    (quotient as i32).wrapping_sub(83).wrapping_sub(node.consonant).wrapping_sub(node.vowel.wrapping_add(1) >> 1i32)
}

/// The pitch modulation of an amplitude at a curve value.
pub open spec fn modulation_value(amplitude: i32, curve: i32) -> i32 {
    amplitude.wrapping_mul(3).wrapping_mul(curve).wrapping_add(1024) >> 11i32
}

/// The pitch modulation of an amplitude at a curve value.
pub fn modulation(amplitude: i32, curve: i32) -> (result: i32)
    ensures
        result == modulation_value(amplitude, curve),
{
    amplitude.wrapping_mul(3).wrapping_mul(curve).wrapping_add(1024) >> 11i32
}

/// Division rounding toward zero by a positive divisor.
pub fn divide_toward_zero(numerator: i64, divisor: i64) -> (result: i64)
    requires
        divisor > 0,
    ensures
        result == truncating_div(numerator as int, divisor as int),
        -crate::dsp::abs(numerator as int) <= result <= crate::dsp::abs(numerator as int),
{
    if numerator >= 0 {
        assert(numerator / divisor <= numerator) by (nonlinear_arith)
            requires
                numerator >= 0,
                divisor > 0;
        numerator / divisor
    } else {
        let magnitude: i128 = -(numerator as i128);
        let quotient: i128 = magnitude / (divisor as i128);
        assert(0 <= quotient <= magnitude) by (nonlinear_arith)
            requires
                magnitude >= 0,
                divisor > 0,
                quotient == (magnitude as int) / (divisor as int);
        (-quotient) as i64
    }
}

} // verus!

verus! {

/// The accent parameters of one phrase.
pub struct Accent {
    pub settings: VoiceSettings,
    pub nasal: bool,
    pub initial_geminate: bool,
    pub marker: i32,
    /// Numerator and positive denominator of the initial accent scale.
    pub initial_scale: (i32, i32),
    /// Word lengths in moras.
    pub words: Vec<usize>,
    /// Accented moras.
    pub accents: Vec<usize>,
    /// Accent groups as mora ranges.
    pub groups: Vec<(usize, usize)>,
    pub nasal_words: Vec<bool>,
    pub duration_override: Option<i32>,
    pub half_amplitude: bool,
    pub zero_amplitude: bool,
    pub sentence_ending: bool,
}

/// The sum of word lengths.
pub open spec fn word_total(words: Seq<usize>) -> int
    decreases words.len(),
{
    if words.len() == 0 {
        0
    } else {
        word_total(words.drop_last()) + words.last()
    }
}

/// The scaled initial accent amplitude: the first modulation times the nasal or
/// plain factor times the initial scale.
pub open spec fn scaled_initial_value(first_mod: i32, nasal: bool, scale: (i32, i32)) -> i32 {
    truncating_div(
        first_mod.wrapping_mul(if nasal {
            33974i32
        } else {
            37749i32
        }).wrapping_mul(scale.0) as int,
        scale.1 as int,
    ) as i32
}

fn scaled_initial(first_mod: i32, nasal: bool, scale: (i32, i32)) -> (result: i32)
    requires
        scale.1 > 0,
    ensures
        result == scaled_initial_value(first_mod, nasal, scale),
{
    let factor: i32 = if nasal {
        33974
    } else {
        37749
    };
    let product = first_mod.wrapping_mul(factor).wrapping_mul(scale.0);
    let quotient = divide_toward_zero(product as i64, scale.1 as i64);
    quotient as i32
}

/// Word lengths from word `i` on, clipped to the `n` moras left after `total`, with
/// the moras no word covers forming a last word.
pub open spec fn clipped_from(words: Seq<usize>, i: int, total: int, n: int) -> Seq<usize>
    decreases words.len() - i,
{
    if i < 0 || i >= words.len() {
        if total < n {
            seq![(n - total) as usize]
        } else {
            Seq::empty()
        }
    } else {
        let w = if words[i] < n - total {
            words[i] as int
        } else {
            n - total
        };
        if w > 0 {
            seq![w as usize] + clipped_from(words, i + 1, total + w, n)
        } else {
            clipped_from(words, i + 1, total, n)
        }
    }
}

/// The first mora from `i` on, of the word of `length` moras at `start`, that carries
/// an accent.
pub open spec fn first_accent_from(accents: Seq<usize>, start: int, length: int, i: int) -> Option<usize>
    decreases length - i,
{
    if i < 0 || i >= length {
        None
    } else if accents.contains((start + i) as usize) {
        Some(i as usize)
    } else {
        first_accent_from(accents, start, length, i + 1)
    }
}

impl Accent {
    /// The initial scale has a positive denominator and every accent group is a
    /// nonempty run of the phrase's moras.
    pub open spec fn wf(&self, node_count: int) -> bool {
        &&& self.initial_scale.1 > 0
        &&& forall|g: int|
            0 <= g < self.groups@.len() ==> #[trigger] self.groups@[g].0 < self.groups@[g].1
                <= node_count
    }

    /// Whether the mora at `index` holds the syllabic nasal.
    pub open spec fn nasal_at(nodes: Seq<Node>, entries: Seq<Entry>, index: int) -> bool {
        exists|e: int| nodes[index].entries_start <= e < nodes[index].entries_end && #[trigger] entries[e].phoneme == 6
    }

    /// The initial pitches of a word of `length` moras: a rise on its first moras up
    /// to an accent (or over the whole word), a fall after the accent, and the
    /// rise `carried` over from an unaccented previous word on its first mora.
    #[verifier::opaque]
    pub open spec fn word_rise(
        &self,
        nodes: Seq<Node>,
        entries: Seq<Entry>,
        length: int,
        accent: Option<usize>,
        marker: i32,
        threshold: i32,
        carried: i32,
        word_initial: i32,
        first_mod: i32,
        initial: i32,
    ) -> Seq<i32> {
        match accent {
            Some(a) => {
                let next_nasal = self.nasal && a + 1 < nodes.len() && Self::nasal_at(nodes, entries, a + 1);
                let accent_base = if next_nasal {
                    first_mod.wrapping_mul(37749)
                } else {
                    initial
                };
                let distance = length - a;
                if a == 0 {
                    let scaled: i32 = if marker <= threshold || length >= 3 {
                        accent_base
                    } else {
                        truncating_div(accent_base as int, 4) as i32
                    };
                    let base = scaled.wrapping_sub(scaled >> 2i32);
                    Seq::new(
                        length as nat,
                        |index: int|
                            if index == 0 {
                                base.wrapping_add(512) >> 10i32
                            } else if length >= 3 && index == 1 {
                                base.wrapping_add(1024) >> 11i32
                            } else {
                                0i32
                            },
                    )
                } else {
                    let base: i32 = if marker <= threshold || distance >= 3 {
                        accent_base
                    } else {
                        ((truncating_div(accent_base as int * 5, 4) * 1638) as i64 >> 12i64) as i32
                    };
                    Seq::new(
                        length as nat,
                        |index: int|
                            if index == 0 {
                                carried
                            } else if index <= a && index == 1 && !self.initial_geminate {
                                base.wrapping_mul(3).wrapping_add(2048) >> 12i32
                            } else if index <= a {
                                base.wrapping_add(512) >> 10i32
                            } else if distance >= 3 && index == a + 1 {
                                base.wrapping_add(1024) >> 11i32
                            } else {
                                0i32
                            },
                    )
                }
            },
            None => Seq::new(
                length as nat,
                |index: int|
                    if index == 0 {
                        carried
                    } else if index == 1 && !self.initial_geminate {
                        word_initial.wrapping_mul(3).wrapping_add(2048) >> 12i32
                    } else {
                        word_initial.wrapping_add(512) >> 10i32
                    },
            ),
        }
    }

    /// The second-pass modulation of each mora over the whole phrase, zero without
    /// accent groups.
    pub open spec fn second_pass_values(&self, entries: Seq<Entry>, nodes: Seq<Node>, amplitude: i32) -> Seq<i32> {
        if self.groups@.len() == 0 {
            Seq::new(nodes.len(), |i: int| 0i32)
        } else {
            let second_rate = second_rate_value(duration_total(entries));
            let second_offset = offset_value(second_rate, nodes[0]);
            Seq::new(
                nodes.len(),
                |i: int|
                    modulation_value(
                        amplitude,
                        curve_value(second_rate.wrapping_mul(mora_time(nodes, i).wrapping_add(second_offset)) >> 8i32),
                    ),
            )
        }
    }

    /// The accent rate and curve offset of each mora after the first `g` accent
    /// groups: the phrase's, or those of the last group that covers the mora.
    pub open spec fn group_rates(&self, entries: Seq<Entry>, nodes: Seq<Node>, phrase_rate: i32, g: int) -> (Seq<i32>, Seq<i32>)
        decreases g,
    {
        if g <= 0 {
            (Seq::new(nodes.len(), |i: int| phrase_rate), Seq::new(nodes.len(), |i: int| offset_value(phrase_rate, nodes[0])))
        } else {
            let (rates, offsets) = self.group_rates(entries, nodes, phrase_rate, g - 1);
            let (first, last) = self.groups@[g - 1];
            let start = nodes[first as int].entries_start as int;
            let end = nodes[last - 1].entries_end as int;
            let group_rate = rate_value(duration_total(entries.subrange(start, end)));
            let group_offset = offset_value(group_rate, nodes[first as int]);
            (
                Seq::new(nodes.len(), |i: int| if first <= i < last { group_rate } else { rates[i] }),
                Seq::new(nodes.len(), |i: int| if first <= i < last { group_offset } else { offsets[i] }),
            )
        }
    }

    /// The pitch of mora `index` and the accent time after it, from the time before
    /// it: the base pitch, the mora's initial rise, and the curve modulation (the
    /// second-pass one with accent groups, raised in every group after the first).
    pub open spec fn pitch_step(
        &self,
        nodes: Seq<Node>,
        initial_pitch: Seq<i32>,
        second_pass: Seq<i32>,
        rates: Seq<i32>,
        offsets: Seq<i32>,
        phrase_rate: i32,
        amplitude: i32,
        next_mod: i32,
        index: int,
        time: i32,
    ) -> (i32, i32) {
        let grouped = self.groups@.len() > 0;
        let start: i32 = if grouped && rates[index] != phrase_rate && (index == 0 || rates[index - 1] != rates[index]) {
            0
        } else {
            time
        };
        let node = nodes[index];
        let middle = start.wrapping_add(node.consonant).wrapping_add(node.vowel.wrapping_add(1) >> 1i32);
        let value = curve_value(rates[index].wrapping_mul(middle.wrapping_add(offsets[index])) >> 8i32);
        let variation = if grouped {
            match first_group_from(self.groups@, index, 0) {
                Some((g, range)) => if g >= 1 {
                    let first = initial_pitch[range.0 as int].wrapping_add(second_pass[range.0 as int]);
                    let raised = 105i32.wrapping_mul(next_mod >> 1i32).wrapping_sub(first);
                    second_pass[index].wrapping_add(modulation_value(if raised > 0 { raised } else { 0 }, value))
                } else {
                    second_pass[index]
                },
                None => second_pass[index],
            }
        } else {
            modulation_value(amplitude, value)
        };
        (self.settings.pitch.wrapping_add(initial_pitch[index]).wrapping_add(variation), middle.wrapping_add(node.vowel >> 1i32))
    }

    /// The pitches of the first `k` moras and the accent time after them.
    pub open spec fn pitch_values(
        &self,
        nodes: Seq<Node>,
        initial_pitch: Seq<i32>,
        second_pass: Seq<i32>,
        rates: Seq<i32>,
        offsets: Seq<i32>,
        phrase_rate: i32,
        amplitude: i32,
        next_mod: i32,
        k: int,
    ) -> (Seq<i32>, i32)
        decreases k,
    {
        if k <= 0 {
            (Seq::empty(), 0)
        } else {
            let (before, time) = self.pitch_values(nodes, initial_pitch, second_pass, rates, offsets, phrase_rate, amplitude, next_mod, k - 1);
            let (pitch, after) = self.pitch_step(nodes, initial_pitch, second_pass, rates, offsets, phrase_rate, amplitude, next_mod, k - 1, time);
            (before.push(pitch), after)
        }
    }

    /// The accent pitch of each mora of the phrase: the contour from the phrase's
    /// (or override) duration and accent settings, with the last mora lowered at a
    /// plain phrase end.
    pub open spec fn contour_values(&self, entries: Seq<Entry>, nodes: Seq<Node>) -> Seq<i32> {
        self.contour_from(entries, nodes, self.first_pass(entries, nodes))
    }

    /// The first pass of the contour: each mora's initial pitch, modulated by the
    /// initial accent setting.
    pub open spec fn first_pass(&self, entries: Seq<Entry>, nodes: Seq<Node>) -> Seq<i32> {
        let first_mod = modulation_factor(self.settings.accent);
        self.initial_pitch_values(nodes, entries, first_mod, scaled_initial_value(first_mod, self.nasal, self.initial_scale))
    }

    /// The contour built on a first pass: the phrase modulation, from the phrase
    /// accent setting, the group rates and the phrase-end lowering.
    pub open spec fn contour_from(&self, entries: Seq<Entry>, nodes: Seq<Node>, initial_pitch: Seq<i32>) -> Seq<i32> {
        let duration = match self.duration_override {
            Some(d) => d,
            None => duration_total(entries),
        };
        let phrase_rate = rate_value(duration);
        let next_mod = modulation_factor(self.settings.phrase_accent);
        let effective_mod: i32 = if self.zero_amplitude {
            0
        } else if self.half_amplitude {
            next_mod >> 1i32
        } else {
            next_mod
        };
        let amplitude = 105i32.wrapping_mul(effective_mod);
        let second_pass = self.second_pass_values(entries, nodes, amplitude);
        let (rates, offsets) = self.group_rates(entries, nodes, phrase_rate, self.groups@.len() as int);
        let pitches = self.pitch_values(
            nodes,
            initial_pitch,
            second_pass,
            rates,
            offsets,
            phrase_rate,
            amplitude,
            next_mod,
            nodes.len() as int,
        ).0;
        let lowering = (truncating_div(effective_mod as int, 10) as i32).wrapping_mul(170);
        let speed = self.settings.speed;
        if !self.sentence_ending && self.groups@.len() == 0 && speed.wrapping_sub(1).wrapping_mul(10) < self.marker
            && self.marker < speed.wrapping_add(1).wrapping_mul(10) && self.settings.phrase_accent >= 100 && lowering
            != 0 {
            pitches.update(pitches.len() - 1, pitches.last().wrapping_sub(lowering))
        } else {
            pitches
        }
    }

    /// The accented entries of a phrase: unvoiced phonemes silenced, each mora's
    /// contour pitch written on its last phoneme, and an unvoiced first phoneme left
    /// without pitch.
    pub open spec fn accented(&self, entries: Seq<Entry>, nodes: Seq<Node>) -> Seq<Entry> {
        if entries.len() == 0 || nodes.len() == 0 {
            entries
        } else {
            let marked = written(silenced(entries), nodes, self.contour_values(entries, nodes), nodes.len() as int);
            if phoneme_flags_table()[entries[0].phoneme as int] & 128 == 0 {
                marked.update(0, Entry { pitch: 0, ..marked[0] })
            } else {
                marked
            }
        }
    }

    /// The initial pitches of word `w` starting at mora `start`, and the state the next
    /// word reads: this word's marker, initial amplitude, length, and whether it had
    /// an accent before its last mora.
    pub open spec fn word_step(
        &self,
        nodes: Seq<Node>,
        entries: Seq<Entry>,
        first_mod: i32,
        initial: i32,
        words: Seq<usize>,
        w: int,
        start: int,
        state: (Option<i32>, i32, usize, bool),
    ) -> (Seq<i32>, (Option<i32>, i32, usize, bool)) {
        let threshold = self.settings.speed.wrapping_mul(3);
        let length = words[w];
        let marker: i32 = if w + 1 == words.len() {
            self.marker
        } else {
            0
        };
        let base = if w == 0 {
            initial
        } else if w < self.nasal_words@.len() {
            scaled_initial_value(first_mod, self.nasal_words@[w], self.initial_scale)
        } else if self.nasal {
            first_mod.wrapping_mul(37749)
        } else {
            initial
        };
        let word_initial: i32 = if marker > threshold {
            ((base as i64 * 1638) as i64 >> 12i64) as i32
        } else {
            base
        };
        let accent = first_accent_from(self.accents@, start, length as int, 0);
        let carried: i32 = if state.0 == Some(0i32) && state.2 > 1 && !state.3 {
            state.1.wrapping_add(2048) >> 12i32
        } else {
            0
        };
        (
            self.word_rise(nodes, entries, length as int, accent, marker, threshold, carried, word_initial, first_mod, initial),
            (Some(marker), word_initial, length, match accent {
                Some(a) => a != length - 1,
                None => false,
            }),
        )
    }

    /// The initial pitches of the first `w` words, and the state after them.
    pub open spec fn rises(
        &self,
        nodes: Seq<Node>,
        entries: Seq<Entry>,
        first_mod: i32,
        initial: i32,
        words: Seq<usize>,
        w: int,
    ) -> (Seq<i32>, (Option<i32>, i32, usize, bool))
        decreases w,
    {
        if w <= 0 {
            (Seq::empty(), (None, 0, 0, false))
        } else {
            let (before, state) = self.rises(nodes, entries, first_mod, initial, words, w - 1);
            let (rise, next) = self.word_step(nodes, entries, first_mod, initial, words, w - 1, before.len() as int, state);
            (before + rise, next)
        }
    }

    /// The initial pitch of each mora of the phrase.
    pub open spec fn initial_pitch_values(&self, nodes: Seq<Node>, entries: Seq<Entry>, first_mod: i32, initial: i32) -> Seq<i32> {
        let words = clipped_from(self.words@, 0, 0, nodes.len() as int);
        self.rises(nodes, entries, first_mod, initial, words, words.len() as int).0
    }

    /// Word lengths clipped to the phrase's moras, the rest forming a last word.
    fn word_lengths(&self, node_count: usize) -> (words: Vec<usize>)
        ensures
            word_total(words@) == node_count,
            forall|w: int| 0 <= w < words@.len() ==> #[trigger] words@[w] > 0,
            words@ == clipped_from(self.words@, 0, 0, node_count as int),
    {
        let mut words: Vec<usize> = Vec::new();
        let mut total: usize = 0;
        let mut w: usize = 0;
        while w < self.words.len()
            invariant
                total <= node_count,
                word_total(words@) == total,
                forall|k: int| 0 <= k < words@.len() ==> #[trigger] words@[k] > 0,
                words@ + clipped_from(self.words@, w as int, total as int, node_count as int)
                    == clipped_from(self.words@, 0, 0, node_count as int),
            decreases self.words@.len() - w,
        {
            let requested = self.words[w];
            let word = if requested < node_count - total {
                requested
            } else {
                node_count - total
            };
            if word > 0 {
                let ghost before = words@;
                words.push(word);
                assert(words@.drop_last() =~= before);
                assert(words@ + clipped_from(self.words@, w + 1, total + word, node_count as int) =~= before
                    + clipped_from(self.words@, w as int, total as int, node_count as int));
                total += word;
            }
            w += 1;
        }
        let ghost before = words@;
        if total < node_count {
            words.push(node_count - total);
            assert(words@.drop_last() =~= before);
        }
        assert(words@ =~= before + clipped_from(self.words@, w as int, total as int, node_count as int));
        words
    }

    /// The first mora of the word at `start` that carries an accent.
    fn find_accent(&self, start: usize, length: usize) -> (accent: Option<usize>)
        requires
            start + length <= usize::MAX,
        ensures
            accent matches Some(a) ==> a < length && self.accents@.contains((start + a) as usize),
            accent == first_accent_from(self.accents@, start as int, length as int, 0),
    {
        let mut i: usize = 0;
        while i < length
            invariant
                i <= length,
                start + length <= usize::MAX,
                first_accent_from(self.accents@, start as int, length as int, i as int) == first_accent_from(
                    self.accents@,
                    start as int,
                    length as int,
                    0,
                ),
            decreases length - i,
        {
            if contains_index(&self.accents, start + i) {
                return Some(i);
            }
            i += 1;
        }
        None
    }

    /// Whether the mora at `index` holds the syllabic nasal.
    fn nasal_mora(nodes: &Vec<Node>, entries: &Vec<Entry>, index: usize) -> (result: bool)
        requires
            index < nodes@.len(),
            nodes_fit(nodes@, entries@.len() as int),
        ensures
            result == exists|e: int|
                nodes@[index as int].entries_start <= e < nodes@[index as int].entries_end
                    && #[trigger] entries@[e].phoneme == 6,
    {
        let node = nodes[index];
        assert(nodes_fit(nodes@, entries@.len() as int));
        assert(0 <= index < nodes@.len());
        assert(nodes@[index as int].entries_start < nodes@[index as int].entries_end);
        assert(nodes@[index as int].entries_end <= entries@.len());
        let mut e = node.entries_start;
        while e < node.entries_end
            invariant
                node == nodes@[index as int],
                node.entries_start <= e <= node.entries_end <= entries@.len(),
                forall|f: int| node.entries_start <= f < e ==> #[trigger] entries@[f].phoneme != 6,
            decreases node.entries_end - e,
        {
            if entries[e].phoneme == 6 {
                return true;
            }
            e += 1;
        }
        false
    }

    /// Appends the initial pitches of one word of `length` moras.
    fn push_word(
        &self,
        output: &mut Vec<i32>,
        nodes: &Vec<Node>,
        entries: &Vec<Entry>,
        length: usize,
        accent: Option<usize>,
        marker: i32,
        threshold: i32,
        carried: i32,
        word_initial: i32,
        first_mod: i32,
        initial: i32,
    )
        requires
            accent matches Some(a) ==> a < length,
            nodes_fit(nodes@, entries@.len() as int),
        ensures
            final(output)@.len() == old(output)@.len() + length,
            final(output)@ == old(output)@ + self.word_rise(
                nodes@,
                entries@,
                length as int,
                accent,
                marker,
                threshold,
                carried,
                word_initial,
                first_mod,
                initial,
            ),
    {
        reveal(Accent::word_rise);
        let ghost before = output@;
        let ghost rise = self.word_rise(
            nodes@,
            entries@,
            length as int,
            accent,
            marker,
            threshold,
            carried,
            word_initial,
            first_mod,
            initial,
        );
        match accent {
            Some(accent) => {
                let next_nasal = self.nasal && accent + 1 < nodes.len() && Self::nasal_mora(nodes, entries, accent + 1);
                let accent_base = if next_nasal {
                    first_mod.wrapping_mul(37749)
                } else {
                    initial
                };
                let distance = length - accent;
                if accent == 0 {
                    let scaled = if marker <= threshold || length >= 3 {
                        accent_base
                    } else {
                        divide_toward_zero(accent_base as i64, 4) as i32
                    };
                    let base = scaled.wrapping_sub(scaled >> 2i32);
                    let ghost values = Seq::new(
                        length as nat,
                        |index: int|
                            if index == 0 {
                                base.wrapping_add(512) >> 10i32
                            } else if length >= 3 && index == 1 {
                                base.wrapping_add(1024) >> 11i32
                            } else {
                                0i32
                            },
                    );
                    assert(rise =~= values);
                    let mut index: usize = 0;
                    while index < length
                        invariant
                            index <= length,
                            output@ == before + rise.take(index as int),
                            rise == Seq::new(
                                length as nat,
                                |index: int|
                                    if index == 0 {
                                        base.wrapping_add(512) >> 10i32
                                    } else if length >= 3 && index == 1 {
                                        base.wrapping_add(1024) >> 11i32
                                    } else {
                                        0i32
                                    },
                            ),
                            rise.len() == length,
                        decreases length - index,
                    {
                        output.push(
                            if index == 0 {
                                base.wrapping_add(512) >> 10i32
                            } else if length >= 3 && index == 1 {
                                base.wrapping_add(1024) >> 11i32
                            } else {
                                0
                            },
                        );
                        assert(rise.take(index + 1) =~= rise.take(index as int).push(rise[index as int]));
                        index += 1;
                    }
                } else {
                    let base = if marker <= threshold || distance >= 3 {
                        accent_base
                    } else {
                        let quarter = divide_toward_zero(accent_base as i64 * 5, 4);
                        ((quarter * 1638) >> 12i64) as i32
                    };
                    let ghost values = Seq::new(
                        length as nat,
                        |index: int|
                            if index == 0 {
                                carried
                            } else if index <= accent && index == 1 && !self.initial_geminate {
                                base.wrapping_mul(3).wrapping_add(2048) >> 12i32
                            } else if index <= accent {
                                base.wrapping_add(512) >> 10i32
                            } else if distance >= 3 && index == accent + 1 {
                                base.wrapping_add(1024) >> 11i32
                            } else {
                                0i32
                            },
                    );
                    assert(rise =~= values);
                    let mut index: usize = 0;
                    while index < length
                        invariant
                            index <= length,
                            output@ == before + rise.take(index as int),
                            rise == Seq::new(
                                length as nat,
                                |index: int|
                                    if index == 0 {
                                        carried
                                    } else if index <= accent && index == 1 && !self.initial_geminate {
                                        base.wrapping_mul(3).wrapping_add(2048) >> 12i32
                                    } else if index <= accent {
                                        base.wrapping_add(512) >> 10i32
                                    } else if distance >= 3 && index == accent + 1 {
                                        base.wrapping_add(1024) >> 11i32
                                    } else {
                                        0i32
                                    },
                            ),
                            rise.len() == length,
                        decreases length - index,
                    {
                        output.push(
                            if index == 0 {
                                carried
                            } else if index <= accent && index == 1 && !self.initial_geminate {
                                base.wrapping_mul(3).wrapping_add(2048) >> 12i32
                            } else if index <= accent {
                                base.wrapping_add(512) >> 10i32
                            } else if distance >= 3 && index == accent + 1 {
                                base.wrapping_add(1024) >> 11i32
                            } else {
                                0
                            },
                        );
                        assert(rise.take(index + 1) =~= rise.take(index as int).push(rise[index as int]));
                        index += 1;
                    }
                }
            },
            None => {
                let mut index: usize = 0;
                while index < length
                    invariant
                        index <= length,
                        output@ == before + rise.take(index as int),
                        rise == Seq::new(
                            length as nat,
                            |index: int|
                                if index == 0 {
                                    carried
                                } else if index == 1 && !self.initial_geminate {
                                    word_initial.wrapping_mul(3).wrapping_add(2048) >> 12i32
                                } else {
                                    word_initial.wrapping_add(512) >> 10i32
                                },
                        ),
                        rise.len() == length,
                    decreases length - index,
                {
                    output.push(
                        if index == 0 {
                            carried
                        } else if index == 1 && !self.initial_geminate {
                            word_initial.wrapping_mul(3).wrapping_add(2048) >> 12i32
                        } else {
                            word_initial.wrapping_add(512) >> 10i32
                        },
                    );
                    assert(rise.take(index + 1) =~= rise.take(index as int).push(rise[index as int]));
                    index += 1;
                }
            },
        }
        assert(rise.take(length as int) =~= rise);
    }

    /// The initial pitch rise of each mora, word by word: a rise that holds up to
    /// the accented mora, or over the whole word when it has none.
    #[verifier::rlimit(40)]
    fn initial_pitches(&self, nodes: &Vec<Node>, entries: &Vec<Entry>, first_mod: i32, initial: i32) -> (output: Vec<i32>)
        requires
            self.wf(nodes@.len() as int),
            nodes_fit(nodes@, entries@.len() as int),
        ensures
            output@.len() == nodes@.len(),
            output@ == self.initial_pitch_values(nodes@, entries@, first_mod, initial),
    {
        let node_count = nodes.len();
        let words = self.word_lengths(node_count);
        let threshold = self.settings.speed.wrapping_mul(3);
        let mut output: Vec<i32> = Vec::new();
        let mut previous_marker: Option<i32> = None;
        let mut previous_initial: i32 = 0;
        let mut previous_length: usize = 0;
        let mut previous_accent = false;
        let mut word_index: usize = 0;
        while word_index < words.len()
            invariant
                word_index <= words@.len(),
                word_total(words@) == node_count == nodes@.len(),
                forall|w: int| 0 <= w < words@.len() ==> #[trigger] words@[w] > 0,
                output@.len() == word_total(words@.take(word_index as int)),
                nodes_fit(nodes@, entries@.len() as int),
                self.wf(nodes@.len() as int),
                threshold == self.settings.speed.wrapping_mul(3),
                (output@, (previous_marker, previous_initial, previous_length, previous_accent)) == self.rises(
                    nodes@,
                    entries@,
                    first_mod,
                    initial,
                    words@,
                    word_index as int,
                ),
            decreases words@.len() - word_index,
        {
            proof {
                lemma_word_total_prefix(words@, word_index as int + 1);
            }
            let length = words[word_index];
            let start = output.len();
            let marker = if word_index + 1 == words.len() {
                self.marker
            } else {
                0
            };
            let base = if word_index == 0 {
                initial
            } else if word_index < self.nasal_words.len() {
                scaled_initial(first_mod, self.nasal_words[word_index], self.initial_scale)
            } else if self.nasal {
                first_mod.wrapping_mul(37749)
            } else {
                initial
            };
            let word_initial = if marker > threshold {
                ((base as i64 * 1638) >> 12i64) as i32
            } else {
                base
            };
            let accent = self.find_accent(start, length);
            let carried = if (match previous_marker {
                Some(m) => m == 0,
                None => false,
            }) && previous_length > 1 && !previous_accent {
                previous_initial.wrapping_add(2048) >> 12i32
            } else {
                0
            };
            let ghost before = output@;
            proof {
                let state = (previous_marker, previous_initial, previous_length, previous_accent);
                assert(carried == (if state.0 == Some(0i32) && state.2 > 1 && !state.3 {
                    state.1.wrapping_add(2048) >> 12i32
                } else {
                    0i32
                }));
            }
            self.push_word(&mut output, nodes, entries, length, accent, marker, threshold, carried, word_initial, first_mod, initial);
            previous_marker = Some(marker);
            previous_initial = word_initial;
            previous_length = length;
            previous_accent = match accent {
                Some(a) => a != length - 1,
                None => false,
            };
            word_index += 1;
        }
        proof {
            assert(words@.take(words@.len() as int) =~= words@);
        }
        output
    }
}

proof fn lemma_word_total_prefix(words: Seq<usize>, k: int)
    requires
        0 < k <= words.len(),
    ensures
        word_total(words.take(k)) == word_total(words.take(k - 1)) + words[k - 1],
        word_total(words.take(k)) <= word_total(words),
    decreases words.len() - k,
{
    assert(words.take(k).drop_last() =~= words.take(k - 1));
    if k < words.len() {
        lemma_word_total_prefix(words, k + 1);
    } else {
        assert(words.take(k) =~= words);
    }
}

} // verus!

verus! {

/// The accent time before mora `i`: each mora adds its consonant and its vowel.
pub open spec fn time_before(nodes: Seq<Node>, i: int) -> i32
    decreases i,
{
    if i <= 0 {
        0
    } else {
        let node = nodes[i - 1];
        time_before(nodes, i - 1).wrapping_add(node.consonant).wrapping_add(node.vowel.wrapping_add(1) >> 1i32).wrapping_add(
            node.vowel >> 1i32,
        )
    }
}

/// The accent time at the middle of mora `i`'s vowel.
pub open spec fn mora_time(nodes: Seq<Node>, i: int) -> i32 {
    time_before(nodes, i).wrapping_add(nodes[i].consonant).wrapping_add(nodes[i].vowel.wrapping_add(1) >> 1i32)
}

/// The first accent group from `g` on that covers mora `index`, with its index.
pub open spec fn first_group_from(groups: Seq<(usize, usize)>, index: int, g: int) -> Option<(usize, (usize, usize))>
    decreases groups.len() - g,
{
    if g < 0 || g >= groups.len() {
        None
    } else if groups[g].0 <= index < groups[g].1 {
        Some((g as usize, groups[g]))
    } else {
        first_group_from(groups, index, g + 1)
    }
}

/// The accent rate over a whole phrase for the second pass.
pub open spec fn second_rate_value(total: i32) -> i32 {
    if total <= 1080 {
        2662
    } else {
        let shifted = total.wrapping_add(250);
        if shifted > 0 {
            (3532800int / shifted as int) as i32
        } else {
            0
        }
    }
}

/// A phoneme the accent leaves sounding: a sonorant other than the syllabic nasal's variant.
pub open spec fn voiced_phoneme(phoneme: usize) -> bool {
    phoneme_flags_table()[phoneme as int] & 128 != 0 && phoneme != 20
}

/// Two entries agree on everything the accent leaves alone.
pub open spec fn same_timing(a: Entry, b: Entry) -> bool {
    &&& a.phoneme == b.phoneme
    &&& a.duration == b.duration
    &&& a.unscaled_duration == b.unscaled_duration
    &&& a.secondary_pitch == b.secondary_pitch
    &&& a.devoiced == b.devoiced
    &&& a.follows_geminate == b.follows_geminate
    &&& a.no_merge == b.no_merge
    &&& a.merged == b.merged
}

/// The pitch modulation factor of an accent setting.
pub open spec fn modulation_factor(accent: i32) -> i32 {
    10i32.wrapping_mul(accent).wrapping_mul(655).wrapping_add(32768) >> 16i32
}

fn factor(accent: i32) -> (result: i32)
    ensures
        result == modulation_factor(accent),
{
    10i32.wrapping_mul(accent).wrapping_mul(655).wrapping_add(32768) >> 16i32
}

/// The entries with every unvoiced phoneme silenced, and the pitch of an unvoiced
/// first phoneme cleared.
pub open spec fn silenced(entries: Seq<Entry>) -> Seq<Entry> {
    Seq::new(
        entries.len(),
        |i: int|
            if voiced_phoneme(entries[i].phoneme) {
                entries[i]
            } else {
                Entry {
                    amplitude: 0,
                    pitch: if i == 0 {
                        0
                    } else {
                        entries[i].pitch
                    },
                    ..entries[i]
                }
            },
    )
}

/// The entries with the pitches of the first `n` moras written: each mora's last
/// phoneme takes its pitch and is marked accented, and the first phoneme of a
/// longer mora loses its pitch.
pub open spec fn written(entries: Seq<Entry>, nodes: Seq<Node>, pitches: Seq<i32>, n: int) -> Seq<Entry>
    decreases n,
{
    if n <= 0 {
        entries
    } else {
        let before = written(entries, nodes, pitches, n - 1);
        let node = nodes[n - 1];
        let last = node.entries_end - 1;
        let marked = before.update(last, Entry { pitch: pitches[n - 1], accent_pitch: true, ..before[last] });
        if node.entries_end - node.entries_start > 1 {
            marked.update(node.entries_start as int, Entry { pitch: 0, ..marked[node.entries_start as int] })
        } else {
            marked
        }
    }
}

/// Silences every phoneme that is not voiced, and the pitch of such a first phoneme.
fn silence_unvoiced(entries: &mut Vec<Entry>)
    requires
        entries_wf(old(entries)@),
    ensures
        final(entries)@ == silenced(old(entries)@),
        final(entries)@.len() == old(entries)@.len(),
        forall|i: int|
            0 <= i < old(entries)@.len() ==> same_timing(#[trigger] final(entries)@[i], old(entries)@[i])
                && final(entries)@[i].accent_pitch == old(entries)@[i].accent_pitch
                && final(entries)@[i].amplitude == if voiced_phoneme(old(entries)@[i].phoneme) {
                old(entries)@[i].amplitude
            } else {
                0
            } && (i != 0 ==> final(entries)@[i].pitch == old(entries)@[i].pitch),
{
    let ghost initial = entries@;
    let mut index: usize = 0;
    while index < entries.len()
        invariant
            entries_wf(initial),
            entries@.len() == initial.len(),
            index <= entries@.len(),
            forall|i: int|
                0 <= i < initial.len() ==> same_timing(#[trigger] entries@[i], initial[i])
                    && entries@[i].accent_pitch == initial[i].accent_pitch
                    && (i != 0 ==> entries@[i].pitch == initial[i].pitch),
            forall|i: int| index <= i < initial.len() ==> #[trigger] entries@[i] == initial[i],
            forall|i: int| 0 <= i < index ==> #[trigger] entries@[i] == silenced(initial)[i],
            forall|i: int|
                0 <= i < index ==> #[trigger] entries@[i].amplitude == if voiced_phoneme(initial[i].phoneme) {
                    initial[i].amplitude
                } else {
                    0
                },
        decreases initial.len() - index,
    {
        let entry = entries[index];
        assert(entry.phoneme < crate::utterance::PHONEME_COUNT);
        if phoneme_flags(entry.phoneme) & 128 == 0 || entry.phoneme == 20 {
            let quiet = Entry {
                amplitude: 0,
                pitch: if index == 0 {
                    0
                } else {
                    entry.pitch
                },
                ..entry
            };
            entries.set(index, quiet);
        }
        index += 1;
    }
    assert(entries@ =~= silenced(initial));
}

impl Accent {
    /// The second-pass modulation of each mora over the whole phrase, when the
    /// phrase has accent groups.
    fn second_pass(&self, entries: &Vec<Entry>, nodes: &Vec<Node>, amplitude: i32) -> (pass: Vec<i32>)
        requires
            nodes@.len() > 0,
        ensures
            pass@.len() == nodes@.len(),
            pass@ == self.second_pass_values(entries@, nodes@, amplitude),
    {
        let count = nodes.len();
        let mut pass: Vec<i32> = vec![0; count];
        if self.groups.len() > 0 {
            let total = sum_durations(entries, 0, entries.len());
            let second_rate: i32 = if total <= 1080 {
                2662
            } else {
                let shifted = total.wrapping_add(250);
                if shifted > 0 {
                    3532800 / shifted
                } else {
                    0
                }
            };
            assert(entries@.subrange(0, entries@.len() as int) =~= entries@);
            let second_offset = offset(second_rate, &nodes[0]);
            let ghost values = self.second_pass_values(entries@, nodes@, amplitude);
            let mut time: i32 = 0;
            let mut index: usize = 0;
            while index < count
                invariant
                    count == nodes@.len(),
                    pass@.len() == count,
                    index <= count,
                    self.groups@.len() > 0,
                    time == time_before(nodes@, index as int),
                    values == Seq::new(
                        count as nat,
                        |i: int|
                            modulation_value(
                                amplitude,
                                curve_value(second_rate.wrapping_mul(mora_time(nodes@, i).wrapping_add(second_offset)) >> 8i32),
                            ),
                    ),
                    forall|i: int| 0 <= i < index ==> #[trigger] pass@[i] == values[i],
                decreases count - index,
            {
                let node = nodes[index];
                time = time.wrapping_add(node.consonant).wrapping_add(node.vowel.wrapping_add(1) >> 1i32);
                let position = second_rate.wrapping_mul(time.wrapping_add(second_offset)) >> 8i32;
                pass.set(index, modulation(amplitude, curve(position)));
                time = time.wrapping_add(node.vowel >> 1i32);
                index += 1;
            }
            assert(pass@ =~= values);
        } else {
            assert(pass@ =~= self.second_pass_values(entries@, nodes@, amplitude));
        }
        pass
    }

    /// The accent rate and curve offset of each mora: the phrase's, or its group's.
    fn rates_and_offsets(&self, entries: &Vec<Entry>, nodes: &Vec<Node>, phrase_rate: i32) -> (result: (Vec<i32>, Vec<i32>))
        requires
            nodes@.len() > 0,
            self.wf(nodes@.len() as int),
            nodes_fit(nodes@, entries@.len() as int),
        ensures
            result.0@.len() == nodes@.len(),
            result.1@.len() == nodes@.len(),
            (result.0@, result.1@) == self.group_rates(entries@, nodes@, phrase_rate, self.groups@.len() as int),
    {
        let count = nodes.len();
        let mut rates: Vec<i32> = vec![phrase_rate; count];
        let mut offsets: Vec<i32> = vec![offset(phrase_rate, &nodes[0]); count];
        let mut g: usize = 0;
        while g < self.groups.len()
            invariant
                count == nodes@.len(),
                rates@.len() == count,
                offsets@.len() == count,
                self.wf(nodes@.len() as int),
                nodes_fit(nodes@, entries@.len() as int),
                g <= self.groups@.len(),
                (rates@, offsets@) == self.group_rates(entries@, nodes@, phrase_rate, g as int),
            decreases self.groups@.len() - g,
        {
            let (first, last) = self.groups[g];
            assert(first < last <= count);
            assert(nodes@[first as int].entries_start < nodes@[first as int].entries_end);
            assert(nodes@[last - 1].entries_start < nodes@[last - 1].entries_end);
            assert(nodes@[last - 1].entries_end <= entries@.len());
            if first < last - 1 {
                assert(nodes@[first as int].entries_start <= nodes@[last - 1].entries_end);
            }
            let start = nodes[first].entries_start;
            let end = nodes[last - 1].entries_end;
            let group_rate = rate(sum_durations(entries, start, end));
            let group_offset = offset(group_rate, &nodes[first]);
            let ghost previous = (rates@, offsets@);
            let ghost next = self.group_rates(entries@, nodes@, phrase_rate, g + 1);
            let mut index = first;
            while index < last
                invariant
                    first <= index <= last <= count,
                    rates@.len() == count,
                    offsets@.len() == count,
                    previous.0.len() == count && previous.1.len() == count,
                    next == (
                        Seq::new(count as nat, |i: int| if first <= i < last { group_rate } else { previous.0[i] }),
                        Seq::new(count as nat, |i: int| if first <= i < last { group_offset } else { previous.1[i] }),
                    ),
                    forall|i: int| 0 <= i < count && !(first <= i < index) ==> #[trigger] rates@[i] == previous.0[i],
                    forall|i: int| 0 <= i < count && !(first <= i < index) ==> #[trigger] offsets@[i] == previous.1[i],
                    forall|i: int| first <= i < index ==> #[trigger] rates@[i] == group_rate,
                    forall|i: int| first <= i < index ==> #[trigger] offsets@[i] == group_offset,
                decreases last - index,
            {
                rates.set(index, group_rate);
                offsets.set(index, group_offset);
                index += 1;
            }
            assert(rates@ =~= next.0);
            assert(offsets@ =~= next.1);
            g += 1;
        }
        (rates, offsets)
    }

    /// The first accent group that contains a mora, with its index.
    fn group_of(&self, index: usize) -> (result: Option<(usize, (usize, usize))>)
        ensures
            result matches Some((g, range)) ==> g < self.groups@.len() && range == self.groups@[g as int],
            result == first_group_from(self.groups@, index as int, 0),
    {
        let mut g: usize = 0;
        while g < self.groups.len()
            invariant
                g <= self.groups@.len(),
                first_group_from(self.groups@, index as int, g as int) == first_group_from(self.groups@, index as int, 0),
            decreases self.groups@.len() - g,
        {
            let range = self.groups[g];
            if range.0 <= index && index < range.1 {
                return Some((g, range));
            }
            g += 1;
        }
        None
    }

    /// The pitch of each mora: the base pitch, the mora's initial rise and its
    /// accent-curve modulation.
    fn mora_pitches(
        &self,
        nodes: &Vec<Node>,
        initial_pitch: &Vec<i32>,
        second_pass: &Vec<i32>,
        rates: &Vec<i32>,
        offsets: &Vec<i32>,
        phrase_rate: i32,
        amplitude: i32,
        next_mod: i32,
    ) -> (pitches: Vec<i32>)
        requires
            self.wf(nodes@.len() as int),
            initial_pitch@.len() == nodes@.len(),
            second_pass@.len() == nodes@.len(),
            rates@.len() == nodes@.len(),
            offsets@.len() == nodes@.len(),
        ensures
            pitches@.len() == nodes@.len(),
            pitches@ == self.pitch_values(
                nodes@,
                initial_pitch@,
                second_pass@,
                rates@,
                offsets@,
                phrase_rate,
                amplitude,
                next_mod,
                nodes@.len() as int,
            ).0,
    {
        let count = nodes.len();
        let grouped = self.groups.len() > 0;
        let mut time: i32 = 0;
        let mut pitches: Vec<i32> = Vec::new();
        let mut index: usize = 0;
        while index < count
            invariant
                count == nodes@.len() == initial_pitch@.len() == second_pass@.len() == rates@.len()
                    == offsets@.len(),
                self.wf(nodes@.len() as int),
                index <= count,
                pitches@.len() == index,
                (pitches@, time) == self.pitch_values(
                    nodes@,
                    initial_pitch@,
                    second_pass@,
                    rates@,
                    offsets@,
                    phrase_rate,
                    amplitude,
                    next_mod,
                    index as int,
                ),
                grouped == (self.groups@.len() > 0),
            decreases count - index,
        {
            if grouped && rates[index] != phrase_rate && (index == 0 || rates[index - 1] != rates[index]) {
                time = 0;
            }
            let node = nodes[index];
            time = time.wrapping_add(node.consonant).wrapping_add(node.vowel.wrapping_add(1) >> 1i32);
            let value = curve(rates[index].wrapping_mul(time.wrapping_add(offsets[index])) >> 8i32);
            let mut variation = modulation(amplitude, value);
            if grouped {
                variation = second_pass[index];
                if let Some((g, range)) = self.group_of(index) {
                    if g >= 1 {
                        assert(range.0 < range.1 <= count);
                        let first = initial_pitch[range.0].wrapping_add(second_pass[range.0]);
                        let raised = 105i32.wrapping_mul(next_mod >> 1i32).wrapping_sub(first);
                        let amplitude = if raised > 0 {
                            raised
                        } else {
                            0
                        };
                        variation = variation.wrapping_add(modulation(amplitude, value));
                    }
                }
            }
            pitches.push(self.settings.pitch.wrapping_add(initial_pitch[index]).wrapping_add(variation));
            time = time.wrapping_add(node.vowel >> 1i32);
            index += 1;
        }
        pitches
    }
}

} // verus!

verus! {

/// No node of the phrase ends at entry `i`.
pub open spec fn ends_no_node(nodes: Seq<Node>, i: int) -> bool {
    forall|n: int| 0 <= n < nodes.len() ==> #[trigger] nodes[n].entries_end - 1 != i
}

/// No node of the phrase starts or ends at entry `i`.
pub open spec fn bounds_no_node(nodes: Seq<Node>, i: int) -> bool {
    forall|n: int|
        0 <= n < nodes.len() ==> #[trigger] nodes[n].entries_end - 1 != i && nodes[n].entries_start != i
}


/// Writes each mora's pitch on its last phoneme, marks that phoneme as accented and
/// clears the pitch of a longer mora's first phoneme.
fn write_pitches(entries: &mut Vec<Entry>, nodes: &Vec<Node>, pitches: &Vec<i32>)
    requires
        pitches@.len() == nodes@.len(),
        nodes_fit(nodes@, old(entries)@.len() as int),
    ensures
        final(entries)@ == written(old(entries)@, nodes@, pitches@, nodes@.len() as int),
        final(entries)@.len() == old(entries)@.len(),
        forall|i: int|
            0 <= i < old(entries)@.len() ==> same_timing(#[trigger] final(entries)@[i], old(entries)@[i])
                && final(entries)@[i].amplitude == old(entries)@[i].amplitude,
        forall|m: int| 0 <= m < nodes@.len() ==> final(entries)@[#[trigger] nodes@[m].entries_end - 1].accent_pitch,
        forall|i: int|
            0 <= i < old(entries)@.len() && ends_no_node(nodes@, i) ==> #[trigger] final(entries)@[i].accent_pitch
                == old(entries)@[i].accent_pitch,
        forall|i: int|
            0 <= i < old(entries)@.len() && bounds_no_node(nodes@, i) ==> #[trigger] final(entries)@[i].pitch
                == old(entries)@[i].pitch,
{
    let ghost initial = entries@;
    let ghost start = entries@;
    let count = nodes.len();
        let mut n: usize = 0;
        while n < count
            invariant
                count == nodes@.len() == pitches@.len(),
                n <= count,
                entries@ == written(initial, nodes@, pitches@, n as int),
                nodes_fit(nodes@, initial.len() as int),
                entries@.len() == start.len() == initial.len(),
                forall|i: int|
                    0 <= i < initial.len() ==> same_timing(#[trigger] entries@[i], start[i])
                        && entries@[i].amplitude == start[i].amplitude,
                forall|m: int| 0 <= m < n ==> entries@[#[trigger] nodes@[m].entries_end - 1].accent_pitch,
                forall|i: int|
                    0 <= i < initial.len() && (forall|m: int| 0 <= m < n ==> #[trigger] nodes@[m].entries_end - 1 != i)
                        ==> #[trigger] entries@[i].accent_pitch == start[i].accent_pitch,
                forall|i: int|
                    0 <= i < initial.len() && (forall|m: int|
                        0 <= m < n ==> #[trigger] nodes@[m].entries_end - 1 != i && nodes@[m].entries_start != i)
                        ==> #[trigger] entries@[i].pitch == start[i].pitch,
            decreases count - n,
        {
            let node = nodes[n];
            assert(nodes@[n as int].entries_start < nodes@[n as int].entries_end);
            assert(nodes@[n as int].entries_end <= initial.len());
            let last = node.entries_end - 1;
            let ghost before = entries@;
            let updated = Entry { pitch: pitches[n], accent_pitch: true, ..entries[last] };
            entries.set(last, updated);
            if node.entries_end - node.entries_start > 1 {
                let first = Entry { pitch: 0, ..entries[node.entries_start] };
                entries.set(node.entries_start, first);
            }
            proof {
                assert forall|m: int| 0 <= m < n + 1 implies entries@[#[trigger] nodes@[m].entries_end - 1].accent_pitch by {
                    if m < n {
                        assert(nodes@[m].entries_start < nodes@[m].entries_end);
                        assert(before[nodes@[m].entries_end - 1].accent_pitch);
                    }
                }
                assert forall|i: int|
                    0 <= i < initial.len() && (forall|m: int| 0 <= m < n + 1 ==> #[trigger] nodes@[m].entries_end - 1 != i)
                        implies #[trigger] entries@[i].accent_pitch == start[i].accent_pitch by {
                    assert(nodes@[n as int].entries_end - 1 != i);
                    assert(forall|m: int| 0 <= m < n ==> #[trigger] nodes@[m].entries_end - 1 != i);
                }
                assert forall|i: int|
                    0 <= i < initial.len() && (forall|m: int|
                        0 <= m < n + 1 ==> #[trigger] nodes@[m].entries_end - 1 != i && nodes@[m].entries_start != i)
                        implies #[trigger] entries@[i].pitch == start[i].pitch by {
                    assert(nodes@[n as int].entries_end - 1 != i && nodes@[n as int].entries_start != i);
                    assert(forall|m: int| 0 <= m < n ==> #[trigger] nodes@[m].entries_end - 1 != i && nodes@[m].entries_start != i);
                }
            }
            n += 1;
        }
    proof {
        assert forall|i: int|
            0 <= i < initial.len() && ends_no_node(nodes@, i) implies #[trigger] entries@[i].accent_pitch
            == initial[i].accent_pitch by {
            assert(forall|m: int| 0 <= m < count ==> #[trigger] nodes@[m].entries_end - 1 != i);
        }
        assert forall|i: int|
            0 <= i < initial.len() && bounds_no_node(nodes@, i) implies #[trigger] entries@[i].pitch
            == initial[i].pitch by {
            assert(forall|m: int| 0 <= m < count ==> #[trigger] nodes@[m].entries_end - 1 != i && nodes@[m].entries_start != i);
        }
    }
}

impl Accent {
    /// The accent pitch of each mora of the phrase.
    fn contour(&self, entries: &Vec<Entry>, nodes: &Vec<Node>) -> (pitches: Vec<i32>)
        requires
            nodes@.len() > 0,
            self.wf(nodes@.len() as int),
            nodes_fit(nodes@, entries@.len() as int),
        ensures
            pitches@.len() == nodes@.len(),
            pitches@ == self.contour_values(entries@, nodes@),
    {
        let duration = match self.duration_override {
            Some(duration) => duration,
            None => sum_durations(entries, 0, entries.len()),
        };
        assert(entries@.subrange(0, entries@.len() as int) =~= entries@);
        let phrase_rate = rate(duration);
        let first_mod = factor(self.settings.accent);
        let next_mod = factor(self.settings.phrase_accent);
        let initial = scaled_initial(first_mod, self.nasal, self.initial_scale);
        let effective_mod = if self.zero_amplitude {
            0
        } else if self.half_amplitude {
            next_mod >> 1i32
        } else {
            next_mod
        };
        let amplitude = 105i32.wrapping_mul(effective_mod);
        let initial_pitch = self.initial_pitches(nodes, entries, first_mod, initial);
        let second_pass = self.second_pass(entries, nodes, amplitude);
        let (rates, offsets) = self.rates_and_offsets(entries, nodes, phrase_rate);
        let mut pitches = self.mora_pitches(
            nodes,
            &initial_pitch,
            &second_pass,
            &rates,
            &offsets,
            phrase_rate,
            amplitude,
            next_mod,
        );
        let lowering = (divide_toward_zero(effective_mod as i64, 10) as i32).wrapping_mul(170);
        let speed = self.settings.speed;
        if !self.sentence_ending && self.groups.len() == 0 && speed.wrapping_sub(1).wrapping_mul(10)
            < self.marker && self.marker < speed.wrapping_add(1).wrapping_mul(10) && self.settings.phrase_accent
            >= 100 && lowering != 0 {
            let last = pitches.len() - 1;
            let lowered = pitches[last].wrapping_sub(lowering);
            pitches.set(last, lowered);
        }
        pitches
    }

    /// Applies the phrase accent: unvoiced phonemes are silenced, and each mora's
    /// last phoneme takes the mora's accent pitch while the first phoneme of a
    /// longer mora loses its own.
    pub fn apply(&self, entries: &mut Vec<Entry>, nodes: &Vec<Node>)
        requires
            self.wf(nodes@.len() as int),
            entries_wf(old(entries)@),
            nodes_fit(nodes@, old(entries)@.len() as int),
        ensures
            final(entries)@ == self.accented(old(entries)@, nodes@),
            final(entries)@.len() == old(entries)@.len(),
            forall|i: int|
                0 <= i < old(entries)@.len() ==> same_timing(#[trigger] final(entries)@[i], old(entries)@[i]),
            old(entries)@.len() == 0 || nodes@.len() == 0 ==> final(entries)@ == old(entries)@,
            old(entries)@.len() > 0 && nodes@.len() > 0 ==> {
                &&& forall|i: int|
                    0 <= i < old(entries)@.len() ==> #[trigger] final(entries)@[i].amplitude == if voiced_phoneme(
                        old(entries)@[i].phoneme,
                    ) {
                        old(entries)@[i].amplitude
                    } else {
                        0
                    }
                &&& forall|n: int|
                    0 <= n < nodes@.len() ==> final(entries)@[#[trigger] nodes@[n].entries_end - 1].accent_pitch
                &&& phoneme_flags_table()[old(entries)@[0].phoneme as int] & 128 == 0 ==> final(entries)@[0].pitch == 0
                &&& forall|i: int|
                    0 <= i < old(entries)@.len() && ends_no_node(nodes@, i)
                        ==> #[trigger] final(entries)@[i].accent_pitch == old(entries)@[i].accent_pitch
                &&& forall|i: int|
                    0 < i < old(entries)@.len() && bounds_no_node(nodes@, i)
                        ==> #[trigger] final(entries)@[i].pitch == old(entries)@[i].pitch
            },
    {
        if entries.len() == 0 || nodes.len() == 0 {
            return;
        }
        let ghost initial = entries@;
        let pitches = self.contour(entries, nodes);
        silence_unvoiced(entries);
        let ghost quiet = entries@;
        write_pitches(entries, nodes, &pitches);
        let ghost written = entries@;
        assert(same_timing(entries@[0], quiet[0]));
        if phoneme_flags(entries[0].phoneme) & 128 == 0 {
            let first = Entry { pitch: 0, ..entries[0] };
            entries.set(0, first);
        }
        proof {
            assert(entries@.len() == initial.len());
            assert forall|i: int| 0 <= i < initial.len() implies same_timing(#[trigger] entries@[i], initial[i])
                && entries@[i].amplitude == written[i].amplitude && entries@[i].accent_pitch == written[i].accent_pitch
                && (i != 0 ==> entries@[i] == written[i]) by {
                assert(same_timing(written[i], quiet[i]));
                assert(same_timing(quiet[i], initial[i]));
            }
            assert forall|i: int|
                0 <= i < initial.len() implies #[trigger] entries@[i].amplitude == if voiced_phoneme(
                    initial[i].phoneme,
                ) {
                    initial[i].amplitude
                } else {
                    0
                } by {
                assert(written[i].amplitude == quiet[i].amplitude);
                assert(same_timing(entries@[i], initial[i]));
            }
            assert forall|n: int| 0 <= n < nodes@.len() implies entries@[#[trigger] nodes@[n].entries_end - 1].accent_pitch by {
                assert(written[nodes@[n].entries_end - 1].accent_pitch);
                assert(nodes@[n].entries_start < nodes@[n].entries_end);
            }
            assert forall|i: int|
                0 <= i < initial.len() && ends_no_node(nodes@, i) implies #[trigger] entries@[i].accent_pitch
                == initial[i].accent_pitch by {
                assert(written[i].accent_pitch == quiet[i].accent_pitch);
                assert(quiet[i].accent_pitch == initial[i].accent_pitch);
            }
            assert forall|i: int|
                0 < i < initial.len() && bounds_no_node(nodes@, i) implies #[trigger] entries@[i].pitch
                == initial[i].pitch by {
                assert(entries@[i] == written[i]);
                assert(written[i].pitch == quiet[i].pitch);
            }
        }
    }
}

} // verus!

//! Linguistic analysis of one phrase: kana to timed and accented phonemes.
use vstd::prelude::*;
use super::{AnalysisOptions, Entry, Node, contains_index, entries_wf, nodes_fit};
use super::accent::Accent;
use super::duration::{ConsonantContext, DurationTables, Position, VowelContext, position_spec};
use super::lexicon::{DurationFeatures, Kana, Lexicon, VowelFeature, split, split_spec, vowel_features_exec};
use super::parse::{DEVOICE, EXCLAMATION, LONG_MARK, MORAIC_N, QUESTION, SMALL_TSU, spelled};
use crate::dsp::effects::truncating_div;
use crate::utterance::PHONEME_COUNT;
use crate::voice::VoiceSettings;

verus! {

/// The lexicon's entries are analysable with the duration tables: every kana's
/// consonant group names a consonant table.
pub open spec fn analysable(lexicon: &Lexicon, tables: &DurationTables) -> bool {
    &&& lexicon.wf()
    &&& forall|k: int|
        0 <= k < lexicon.kana@.len() ==> ((#[trigger] lexicon.kana@[k]).features matches Some(f)
            ==> 0 <= f.consonant_group < tables.consonants@.len())
    &&& forall|k: int, m: int|
        0 <= k < lexicon.kana@.len() && 0 <= m < lexicon.kana@[k].moras@.len()
            ==> #[trigger] lexicon.kana@[k].moras@[m].phonemes@.len() >= 1
}

/// Every listed kana is an entry of the lexicon.
pub open spec fn kana_wf(lexicon: &Lexicon, kana: Seq<usize>) -> bool {
    forall|i: int| 0 <= i < kana.len() ==> #[trigger] kana[i] < lexicon.kana@.len()
}

/// Every phoneme of the list is in the inventory.
pub open spec fn phonemes_wf(phonemes: Seq<usize>) -> bool {
    forall|i: int| 0 <= i < phonemes.len() ==> #[trigger] phonemes[i] < PHONEME_COUNT
}

/// Whether a kana is the long-vowel mark.
fn is_long_mark(lexicon: &Lexicon, k: usize) -> (result: bool)
    requires
        k < lexicon.kana@.len(),
    ensures
        result == (lexicon.kana@[k as int].text@ == seq![LONG_MARK]),
{
    spelled(&lexicon.kana[k].text, LONG_MARK)
}

/// The phonemes of the first `m` moras.
pub open spec fn mora_phonemes(moras: Seq<super::lexicon::Mora>, m: int) -> Seq<usize>
    decreases m,
{
    if m <= 0 {
        Seq::empty()
    } else {
        mora_phonemes(moras, m - 1) + moras[m - 1].phonemes@
    }
}

/// The phonemes of kana `lo + index` of `kana[lo..hi]`: those of its first mora, or
/// of all its moras; a long-vowel mark reads as phoneme 27 followed by the phonemes
/// of the kana before it.
pub open spec fn phonemes_of(lexicon: &Lexicon, kana: Seq<usize>, lo: int, hi: int, index: int, all: bool) -> Seq<usize>
    decreases index,
{
    if index < 0 || index >= hi - lo {
        Seq::empty()
    } else {
        let token = lexicon.kana@[kana[lo + index] as int];
        if token.text@ == seq![LONG_MARK] {
            seq![27usize] + if index > 0 {
                phonemes_of(lexicon, kana, lo, hi, index - 1, all)
            } else {
                Seq::empty()
            }
        } else {
            mora_phonemes(
                token.moras@,
                if all || token.moras@.len() < 1 {
                    token.moras@.len() as int
                } else {
                    1
                },
            )
        }
    }
}

fn phonemes(lexicon: &Lexicon, kana: &Vec<usize>, lo: usize, hi: usize, index: usize, all: bool) -> (result: Vec<usize>)
    requires
        lexicon.wf(),
        lo <= hi <= kana@.len(),
        kana_wf(lexicon, kana@),
    ensures
        phonemes_wf(result@),
        result@ == phonemes_of(lexicon, kana@, lo as int, hi as int, index as int, all),
    decreases index,
{
    if index >= hi - lo {
        return Vec::new();
    }
    let k = kana[lo + index];
    if is_long_mark(lexicon, k) {
        let mut result: Vec<usize> = Vec::new();
        result.push(27);
        if index > 0 {
            let before = phonemes(lexicon, kana, lo, hi, index - 1, all);
            let mut i: usize = 0;
            while i < before.len()
                invariant
                    phonemes_wf(result@),
                    phonemes_wf(before@),
                    i <= before@.len(),
                    result@ == seq![27usize] + before@.take(i as int),
                decreases before@.len() - i,
            {
                result.push(before[i]);
                assert(before@.take(i + 1) =~= before@.take(i as int).push(before@[i as int]));
                i += 1;
            }
            assert(before@.take(before@.len() as int) =~= before@);
        } else {
            assert(result@ =~= seq![27usize] + Seq::<usize>::empty());
        }
        return result;
    }
    let token = &lexicon.kana[k];
    assert(lexicon.kana@[k as int] == *token);
    let limit: usize = if all || token.moras.len() < 1 {
        token.moras.len()
    } else {
        1
    };
    let mut result: Vec<usize> = Vec::new();
    let mut m: usize = 0;
    while m < limit
        invariant
            lexicon.wf(),
            k < lexicon.kana@.len(),
            lexicon.kana@[k as int] == *token,
            limit <= token.moras@.len(),
            m <= limit,
            phonemes_wf(result@),
            result@ == mora_phonemes(token.moras@, m as int),
        decreases limit - m,
    {
        let mora = &token.moras[m];
        let ghost before = result@;
        let mut p: usize = 0;
        while p < mora.phonemes.len()
            invariant
                lexicon.wf(),
                k < lexicon.kana@.len(),
                lexicon.kana@[k as int] == *token,
                m < token.moras@.len(),
                *mora == token.moras@[m as int],
                phonemes_wf(result@),
                p <= mora.phonemes@.len(),
                result@ == before + mora.phonemes@.take(p as int),
                before == mora_phonemes(token.moras@, m as int),
            decreases mora.phonemes@.len() - p,
        {
            proof {
                lexicon.lemma_phoneme(k as int, m as int, p as int);
            }
            result.push(mora.phonemes[p]);
            assert(mora.phonemes@.take(p + 1) =~= mora.phonemes@.take(p as int).push(mora.phonemes@[p as int]));
            p += 1;
        }
        assert(mora.phonemes@.take(mora.phonemes@.len() as int) =~= mora.phonemes@);
        assert(mora_phonemes(token.moras@, m + 1) == mora_phonemes(token.moras@, m as int) + token.moras@[m as int].phonemes@);
        m += 1;
    }
    result
}

} // verus!

verus! {

/// The kana after kana `index`, if any.
pub open spec fn next_kana(kana: Seq<usize>, index: int) -> Option<usize> {
    if 0 <= index + 1 < kana.len() {
        Some(kana[index + 1])
    } else {
        None
    }
}

/// The first phoneme of a kana's first mora, if it has one.
pub open spec fn first_phoneme(lexicon: &Lexicon, k: usize) -> Option<usize> {
    let token = lexicon.kana@[k as int];
    if token.moras@.len() > 0 && token.moras@[0].phonemes@.len() > 0 {
        Some(token.moras@[0].phonemes@[0])
    } else {
        None
    }
}

/// The vowel class after phoneme `position` of kana `index`: the vowel itself before
/// a long-vowel mark, the next phoneme's vowel, the next kana's left class, or 12.
pub open spec fn next_vowel_spec(lexicon: &Lexicon, kana: Seq<usize>, index: int, phonemes: Seq<usize>, position: int) -> i32 {
    let next = next_kana(kana, index);
    if next matches Some(k) && lexicon.kana@[k as int].text@ == seq![LONG_MARK] && 0 <= position < phonemes.len()
        && 1 <= phonemes[position] <= 6 {
        (phonemes[position] - 1) as i32
    } else {
        let next_phoneme = if 0 <= position && position + 1 < phonemes.len() {
            Some(phonemes[position + 1])
        } else {
            match next {
                Some(k) => first_phoneme(lexicon, k),
                None => None,
            }
        };
        match next_phoneme {
            Some(p) => if 1 <= p <= 6 {
                (p - 1) as i32
            } else {
                match next {
                    Some(k) => match lexicon.kana@[k as int].features {
                        Some(f) => f.vowel_left,
                        None => 12,
                    },
                    None => 12,
                }
            },
            None => 12,
        }
    }
}

fn next_vowel(lexicon: &Lexicon, kana: &Vec<usize>, index: usize, phonemes: &Vec<usize>, position: usize) -> (result: i32)
    requires
        lexicon.wf(),
        kana_wf(lexicon, kana@),
    ensures
        result == next_vowel_spec(lexicon, kana@, index as int, phonemes@, position as int),
{
    let next: Option<usize> = if index < kana.len() && index + 1 < kana.len() {
        Some(kana[index + 1])
    } else {
        None
    };
    if let Some(k) = next {
        if is_long_mark(lexicon, k) && position < phonemes.len() {
            let current = phonemes[position];
            if 1 <= current && current <= 6 {
                return current as i32 - 1;
            }
        }
    }
    let next_phoneme: Option<usize> = if position < phonemes.len() && position + 1 < phonemes.len() {
        Some(phonemes[position + 1])
    } else {
        match next {
            Some(k) => {
                let token = &lexicon.kana[k];
                if token.moras.len() > 0 && token.moras[0].phonemes.len() > 0 {
                    Some(token.moras[0].phonemes[0])
                } else {
                    None
                }
            },
            None => None,
        }
    };
    match next_phoneme {
        Some(p) => {
            if 1 <= p && p <= 6 {
                p as i32 - 1
            } else {
                match next {
                    Some(k) => match lexicon.kana[k].features {
                        Some(f) => f.vowel_left,
                        None => 12,
                    },
                    None => 12,
                }
            }
        },
        None => 12,
    }
}

/// The vowel class before kana `index`: 26 at the start, the vowel ending the
/// previous kana, or that kana's vowel class.
pub open spec fn previous_vowel_spec(lexicon: &Lexicon, kana: Seq<usize>, index: int) -> i32 {
    if index == 0 {
        26
    } else {
        let before = phonemes_of(lexicon, kana, 0, kana.len() as int, index - 1, true);
        if before.len() > 0 && 1 <= before.last() <= 6 {
            (before.last() - 1) as i32
        } else {
            match lexicon.kana@[kana[index - 1] as int].features {
                Some(f) => f.vowel_kind,
                None => 26,
            }
        }
    }
}

fn previous_vowel(lexicon: &Lexicon, kana: &Vec<usize>, index: usize) -> (result: i32)
    requires
        lexicon.wf(),
        kana_wf(lexicon, kana@),
        index <= kana@.len(),
    ensures
        result == previous_vowel_spec(lexicon, kana@, index as int),
{
    if index == 0 {
        return 26;
    }
    let before = phonemes(lexicon, kana, 0, kana.len(), index - 1, true);
    if before.len() > 0 {
        let last = before[before.len() - 1];
        if 1 <= last && last <= 6 {
            return last as i32 - 1;
        }
    }
    match lexicon.kana[kana[index - 1]].features {
        Some(f) => f.vowel_kind,
        None => 26,
    }
}

/// Whether `kana[lo..hi]` opens with a one-mora kana followed by the moraic nasal, a
/// small tsu, a long-vowel mark, or a lone repetition of its final vowel.
pub open spec fn moraic_pair_spec(lexicon: &Lexicon, kana: Seq<usize>, lo: int, hi: int) -> bool {
    if hi - lo < 2 || lexicon.kana@[kana[lo] as int].moras@.len() > 1 {
        false
    } else {
        let second = lexicon.kana@[kana[lo + 1] as int].text@;
        if second == seq![MORAIC_N] || second == seq![SMALL_TSU] || second == seq![LONG_MARK] {
            true
        } else {
            let first = phonemes_of(lexicon, kana, lo, hi, 0, false);
            let second = phonemes_of(lexicon, kana, lo, hi, 1, false);
            second.len() == 1 && first.len() > 0 && 1 <= first.last() <= 5 && first.last() == second[0]
        }
    }
}

fn moraic_pair(lexicon: &Lexicon, kana: &Vec<usize>, lo: usize, hi: usize) -> (result: bool)
    requires
        lexicon.wf(),
        kana_wf(lexicon, kana@),
        lo <= hi <= kana@.len(),
    ensures
        result == moraic_pair_spec(lexicon, kana@, lo as int, hi as int),
{
    if hi - lo < 2 || lexicon.kana[kana[lo]].moras.len() > 1 {
        return false;
    }
    let second = &lexicon.kana[kana[lo + 1]].text;
    if spelled(second, MORAIC_N) || spelled(second, SMALL_TSU) || spelled(second, LONG_MARK) {
        return true;
    }
    let first = phonemes(lexicon, kana, lo, hi, 0, false);
    let second = phonemes(lexicon, kana, lo, hi, 1, false);
    second.len() == 1 && first.len() > 0 && {
        let last = first[first.len() - 1];
        1 <= last && last <= 5 && last == second[0]
    }
}

/// A new entry of the analysis.
pub open spec fn new_entry(phoneme: usize, value: i32, unscaled: i32, amplitude: i32, pitch: i32) -> Entry {
    Entry {
        phoneme,
        duration: value,
        unscaled_duration: unscaled,
        amplitude,
        pitch,
        secondary_pitch: 0,
        devoiced: false,
        follows_geminate: false,
        accent_pitch: false,
        no_merge: false,
        merged: 1,
    }
}

fn entry(phoneme: usize, value: i32, unscaled: i32, amplitude: i32, pitch: i32) -> (result: Entry)
    ensures
        result == new_entry(phoneme, value, unscaled, amplitude, pitch),
{
    Entry {
        phoneme,
        duration: value,
        unscaled_duration: unscaled,
        amplitude,
        pitch,
        secondary_pitch: 0,
        devoiced: false,
        follows_geminate: false,
        accent_pitch: false,
        no_merge: false,
        merged: 1,
    }
}

} // verus!

verus! {

/// What the analysis of a phrase knows of its kana before it starts.
pub struct PhraseContext {
    /// The phrase's kana, as lexicon indices, without small tsu and stray long-vowel marks.
    pub kana: Vec<usize>,
    /// Kana that follow a small tsu.
    pub geminates: Vec<usize>,
    /// Kana marked as devoiced, counted among all tokens of the text.
    pub devoiced: Vec<usize>,
    /// Moras before each kana; the last element is the phrase's mora total.
    pub mora_before: Vec<usize>,
    /// The mora length of each kana's word.
    pub word_lengths: Vec<usize>,
    pub total: usize,
    pub initial_geminate: bool,
    pub nasal: bool,
}

impl PhraseContext {
    /// The context lists lexicon kana with a nondecreasing mora count before each.
    pub open spec fn wf(&self, lexicon: &Lexicon) -> bool {
        &&& kana_wf(lexicon, self.kana@)
        &&& self.mora_before@.len() == self.kana@.len() + 1
        &&& self.word_lengths@.len() == self.kana@.len()
        &&& self.mora_before@[0] == 0
        &&& self.total == self.mora_before@.last()
        &&& forall|i: int, j: int|
            0 <= i <= j < self.mora_before@.len() ==> #[trigger] self.mora_before@[i] <= #[trigger] self.mora_before@[j]
        &&& self.kana@.len() > 0 ==> self.total >= 1
    }
}

/// The first `end` characters of a text.
fn head(text: &Vec<char>, end: usize) -> (result: Vec<char>)
    requires
        end <= text@.len(),
    ensures
        result@ == text@.take(end as int),
{
    let mut result: Vec<char> = Vec::new();
    let mut i: usize = 0;
    while i < end
        invariant
            i <= end <= text@.len(),
            result@ == text@.take(i as int),
        decreases end - i,
    {
        result.push(text[i]);
        assert(text@.take(i + 1) =~= text@.take(i as int).push(text@[i as int]));
        i += 1;
    }
    result
}

/// Whether the first mora of a kana ends in one of the five vowels.
pub open spec fn first_mora_vowel_spec(lexicon: &Lexicon, k: usize) -> bool {
    let token = lexicon.kana@[k as int];
    token.moras@.len() > 0 && token.moras@[0].phonemes@.len() > 0 && 1 <= token.moras@[0].phonemes@.last() <= 5
}

fn first_mora_vowel(lexicon: &Lexicon, k: usize) -> (result: bool)
    requires
        k < lexicon.kana@.len(),
    ensures
        result == first_mora_vowel_spec(lexicon, k),
{
    let token = &lexicon.kana[k];
    if token.moras.len() == 0 || token.moras[0].phonemes.len() == 0 {
        return false;
    }
    let last = token.moras[0].phonemes[token.moras[0].phonemes.len() - 1];
    1 <= last && last <= 5
}

/// Whether a kana's reading ends in `-`.
pub open spec fn reading_lengthened_spec(lexicon: &Lexicon, k: usize) -> bool {
    let phonetic = lexicon.kana@[k as int].phonetic@;
    phonetic.len() > 0 && phonetic.last() == '-'
}

fn reading_lengthened(lexicon: &Lexicon, k: usize) -> (result: bool)
    requires
        k < lexicon.kana@.len(),
    ensures
        result == reading_lengthened_spec(lexicon, k),
{
    let phonetic = &lexicon.kana[k].phonetic;
    phonetic.len() > 0 && phonetic[phonetic.len() - 1] == '-'
}

/// Tokenizes a phrase: small tsu mark the next kana as geminate, a long-vowel mark
/// is kept only after a vowel-final first mora, and `％` devoices the token before
/// it; then counts moras and word lengths.
/// The kana marked devoiced by the `％` signs among the first `i` characters: the
/// last kana before each sign.
pub open spec fn devoiced_marks(lexicon: &Lexicon, text: Seq<char>, i: int) -> Seq<usize>
    decreases i,
{
    if i <= 0 {
        Seq::empty()
    } else {
        let marks = devoiced_marks(lexicon, text, i - 1);
        let count = split_spec(lexicon, text.take(i - 1)).len();
        if text[i - 1] == DEVOICE && count > 0 {
            marks.push((count - 1) as usize)
        } else {
            marks
        }
    }
}

/// The kana kept from the first `t` tokens, and the positions that follow a small
/// tsu: small tsu are dropped, and a long-vowel mark is kept only after a kana whose
/// first mora ends in a vowel.
pub open spec fn kept_kana(lexicon: &Lexicon, tokens: Seq<int>, t: int) -> (Seq<usize>, Seq<usize>)
    decreases t,
{
    if t <= 0 {
        (Seq::empty(), Seq::empty())
    } else {
        let (kana, geminates) = kept_kana(lexicon, tokens, t - 1);
        let token = tokens[t - 1] as usize;
        let text = lexicon.kana@[token as int].text@;
        if text == seq![SMALL_TSU] {
            (
                kana,
                if kana.len() > 0 {
                    geminates.push(kana.len() as usize)
                } else {
                    geminates
                },
            )
        } else if text == seq![LONG_MARK] && !(kana.len() > 0 && first_mora_vowel_spec(lexicon, kana.last())) {
            (kana, geminates)
        } else {
            (kana.push(token), geminates)
        }
    }
}

/// The moras before each of the first `i` kana and after them, saturating.
pub open spec fn moras_before(lexicon: &Lexicon, kana: Seq<usize>, i: int) -> Seq<usize>
    decreases i,
{
    if i <= 0 {
        seq![0usize]
    } else {
        let before = moras_before(lexicon, kana, i - 1);
        let sum = before.last() + lexicon.kana@[kana[i - 1] as int].mora_count_spec();
        before.push(
            if sum > usize::MAX {
                usize::MAX
            } else {
                sum as usize
            },
        )
    }
}

/// The word lengths after the words from break `b` on are filled, the previous
/// bound at `previous`: each kana gets the moras of its word, at least one.
pub open spec fn word_lengths_from(
    lengths: Seq<usize>,
    mora_before: Seq<usize>,
    breaks: Seq<usize>,
    count: int,
    b: int,
    previous: int,
) -> Seq<usize>
    decreases breaks.len() + 1 - b,
{
    if b < 0 || b > breaks.len() {
        lengths
    } else {
        let requested = if b < breaks.len() {
            breaks[b] as int
        } else {
            count
        };
        let bound = if requested < count {
            requested
        } else {
            count
        };
        let (filled, next) = if bound >= previous {
            let span = mora_before[bound] - mora_before[previous];
            let length = if span > 1 {
                span
            } else {
                1
            };
            (Seq::new(lengths.len(), |w: int| if previous <= w < bound {
                length as usize
            } else {
                lengths[w]
            }), bound)
        } else {
            (lengths, previous)
        };
        word_lengths_from(filled, mora_before, breaks, count, b + 1, next)
    }
}

/// The phrase context of a text: its kana, geminates and devoiced kana, the moras
/// before each kana, its word lengths, and whether it opens geminated or nasally.
pub open spec fn prepared(lexicon: &Lexicon, text: Seq<char>, options: &AnalysisOptions, context: &PhraseContext) -> bool {
    let (kana, geminates) = kept_kana(lexicon, split_spec(lexicon, text), split_spec(lexicon, text).len() as int);
    let count = kana.len() as int;
    let mora_before = moras_before(lexicon, kana, count);
    let total = mora_before.last();
    let initial_geminate = geminates.contains(1usize) && (count == 0 || lexicon.kana@[kana[0] as int].mora_count_spec()
        == 1);
    &&& context.devoiced@ == devoiced_marks(lexicon, text, text.len() as int)
    &&& context.kana@ == kana
    &&& context.geminates@ == geminates
    &&& context.mora_before@ == mora_before
    &&& context.total == total
    &&& context.word_lengths@ == if options.word_breaks@.len() > 0 {
        word_lengths_from(Seq::new(count as nat, |i: int| total), mora_before, options.word_breaks@, count, 0, 0)
    } else {
        Seq::new(count as nat, |i: int| total)
    }
    &&& context.initial_geminate == initial_geminate
    &&& context.nasal == (initial_geminate || moraic_pair_spec(lexicon, kana, 0, count) || (count > 0
        && lexicon.kana@[kana[0] as int].text@ != seq![LONG_MARK] && reading_lengthened_spec(lexicon, kana[0])))
}

fn prepare(lexicon: &Lexicon, text: &Vec<char>, options: &AnalysisOptions) -> (context: PhraseContext)
    requires
        lexicon.wf(),
    ensures
        context.wf(lexicon),
        prepared(lexicon, text@, options, &context),
{
    let mut devoiced: Vec<usize> = Vec::new();
    let mut i: usize = 0;
    while i < text.len()
        invariant
            lexicon.wf(),
            i <= text@.len(),
            devoiced@ == devoiced_marks(lexicon, text@, i as int),
        decreases text@.len() - i,
    {
        if text[i] == DEVOICE {
            let before = head(text, i);
            let count = split(lexicon, &before).len();
            if count > 0 {
                devoiced.push(count - 1);
            }
        }
        i += 1;
    }
    let tokens = split(lexicon, text);
    let ghost all = split_spec(lexicon, text@);
    let mut kana: Vec<usize> = Vec::new();
    let mut geminates: Vec<usize> = Vec::new();
    let mut t: usize = 0;
    while t < tokens.len()
        invariant
            lexicon.wf(),
            t <= tokens@.len(),
            forall|i: int| 0 <= i < tokens@.len() ==> #[trigger] tokens@[i] < lexicon.kana@.len(),
            kana_wf(lexicon, kana@),
            kana@.len() <= t,
            all == split_spec(lexicon, text@),
            tokens@.len() == all.len(),
            forall|i: int| 0 <= i < tokens@.len() ==> #[trigger] tokens@[i] as int == all[i],
            (kana@, geminates@) == kept_kana(lexicon, all, t as int),
        decreases tokens@.len() - t,
    {
        let token = tokens[t];
        t += 1;
        if spelled(&lexicon.kana[token].text, SMALL_TSU) {
            if kana.len() > 0 {
                geminates.push(kana.len());
            }
            continue;
        }
        if is_long_mark(lexicon, token) && !(kana.len() > 0 && first_mora_vowel(lexicon, kana[kana.len() - 1])) {
            continue;
        }
        kana.push(token);
    }
    let count = kana.len();
    let mut mora_before: Vec<usize> = Vec::new();
    mora_before.push(0);
    let mut running: usize = 0;
    let mut index: usize = 0;
    while index < count
        invariant
            lexicon.wf(),
            count == kana@.len(),
            kana_wf(lexicon, kana@),
            index <= count,
            mora_before@.len() == index + 1,
            mora_before@[0] == 0,
            running == mora_before@.last(),
            index > 0 ==> running >= 1,
            forall|i: int, j: int|
                0 <= i <= j < mora_before@.len() ==> #[trigger] mora_before@[i] <= #[trigger] mora_before@[j],
            mora_before@ == moras_before(lexicon, kana@, index as int),
        decreases count - index,
    {
        let token = &lexicon.kana[kana[index]];
        proof {
            if token.moras@.len() > 0 {
                lexicon.lemma_text(kana@[index as int] as int);
            }
            lexicon.lemma_text(kana@[index as int] as int);
        }
        let moras = token.mora_count();
        running = running.saturating_add(moras);
        let ghost before = mora_before@;
        mora_before.push(running);
        proof {
            assert forall|i: int, j: int| 0 <= i <= j < mora_before@.len() implies #[trigger] mora_before@[i]
                <= #[trigger] mora_before@[j] by {
                if j == mora_before@.len() - 1 && i < j {
                    assert(before[i] <= before[index as int]);
                }
            }
        }
        index += 1;
    }
    let total = running;
    let mut word_lengths: Vec<usize> = vec![total; count];
    let ghost uniform = word_lengths@;
    assert(uniform =~= Seq::new(count as nat, |i: int| total));
    if options.word_breaks.len() > 0 {
        let mut previous: usize = 0;
        let mut b: usize = 0;
        let breaks = options.word_breaks.len();
        loop
            invariant_except_break
                word_lengths_from(word_lengths@, mora_before@, options.word_breaks@, count as int, b as int, previous as int)
                    == word_lengths_from(uniform, mora_before@, options.word_breaks@, count as int, 0, 0),
            invariant
                breaks == options.word_breaks@.len(),
                b <= breaks,
                count == kana@.len(),
                mora_before@.len() == count + 1,
                word_lengths@.len() == count,
                previous <= count,
                forall|i: int, j: int|
                    0 <= i <= j < mora_before@.len() ==> #[trigger] mora_before@[i] <= #[trigger] mora_before@[j],
            ensures
                word_lengths@ == word_lengths_from(uniform, mora_before@, options.word_breaks@, count as int, 0, 0),
            decreases breaks - b,
        {
            let ghost at_start = (word_lengths@, previous);
            let requested = if b < breaks {
                options.word_breaks[b]
            } else {
                count
            };
            let bound = if requested < count {
                requested
            } else {
                count
            };
            // The parser gives its breaks in order; a break before the previous
            // one would describe no kana.
            if bound >= previous {
                let span = mora_before[bound] - mora_before[previous];
                let length = if span > 1 {
                    span
                } else {
                    1
                };
                let mut w = previous;
                let ghost unfilled = word_lengths@;
                while w < bound
                    invariant
                        previous <= w <= bound <= count == word_lengths@.len(),
                        unfilled.len() == count,
                        forall|v: int| 0 <= v < count ==> #[trigger] word_lengths@[v] == if previous <= v < w {
                            length
                        } else {
                            unfilled[v]
                        },
                    decreases bound - w,
                {
                    word_lengths.set(w, length);
                    w += 1;
                }
                assert(word_lengths@ =~= Seq::new(unfilled.len(), |v: int| if previous <= v < bound {
                    length
                } else {
                    unfilled[v]
                }));
                previous = bound;
            }
            if b == breaks {
                assert(word_lengths_from(at_start.0, mora_before@, options.word_breaks@, count as int, b as int, at_start.1 as int)
                    == word_lengths_from(word_lengths@, mora_before@, options.word_breaks@, count as int, b + 1, previous as int));
                break;
            }
            b += 1;
        }
    }
    let initial_geminate = contains_index(&geminates, 1) && (count == 0 || {
        let token = &lexicon.kana[kana[0]];
        proof {
            lexicon.lemma_text(kana@[0] as int);
        }
        token.mora_count() == 1
    });
    let nasal = initial_geminate || moraic_pair(lexicon, &kana, 0, count) || (count > 0 && !is_long_mark(
        lexicon,
        kana[0],
    ) && reading_lengthened(lexicon, kana[0]));
    PhraseContext {
        kana,
        geminates,
        devoiced,
        mora_before,
        word_lengths,
        total,
        initial_geminate,
        nasal,
    }
}

} // verus!

verus! {

/// The phonemes of a kana laid out by mora.
pub struct MoraLayout {
    /// The phonemes of all moras, in order.
    pub ids: Vec<usize>,
    /// The mora of each phoneme.
    pub owners: Vec<usize>,
    /// The last phoneme of each mora.
    pub ends: Vec<usize>,
    /// The kana's duration features; a bare vowel without features has the vowel's.
    pub features: Option<DurationFeatures>,
    /// The classes of the vowels of the second and later moras.
    pub extra_vowels: Vec<VowelFeature>,
}

/// The number of phonemes in the first `m` moras.
pub open spec fn phonemes_before(moras: Seq<super::lexicon::Mora>, m: int) -> int
    decreases m,
{
    if m <= 0 {
        0
    } else {
        phonemes_before(moras, m - 1) + moras[m - 1].phonemes@.len()
    }
}

impl MoraLayout {
    /// The layout lists the kana's phonemes, each owned by a mora whose last phoneme
    /// it precedes or is, the first mora's phonemes coming first.
    pub open spec fn wf(&self, token: &Kana) -> bool {
        &&& phonemes_wf(self.ids@)
        &&& self.owners@.len() == self.ids@.len()
        &&& self.ends@.len() == token.moras@.len()
        &&& token.moras@.len() >= 1 ==> self.ids@.len() >= token.moras@[0].phonemes@.len()
        &&& forall|p: int|
            0 <= p < self.ids@.len() ==> #[trigger] self.owners@[p] < token.moras@.len()
                && (self.owners@[p] == 0 <==> p < token.moras@[0].phonemes@.len())
        &&& forall|m: int| 0 <= m < self.ends@.len() ==> #[trigger] self.ends@[m] < self.ids@.len()
        &&& self.ids@.len() == phonemes_before(token.moras@, token.moras@.len() as int)
        &&& forall|m: int|
            0 <= m < self.ends@.len() ==> #[trigger] self.ends@[m] == phonemes_before(token.moras@, m + 1) - 1
        &&& self.features == if token.features is None && self.ids@.len() == 1 {
            Some(super::lexicon::vowel_features())
        } else {
            token.features
        }
    }

    /// The layout is that of the kana: its phonemes in order, each owned by the mora
    /// it belongs to, with the kana's extra vowel classes unless it is a bare vowel.
    pub open spec fn of(&self, token: &Kana) -> bool {
        &&& self.wf(token)
        &&& self.ids@ == mora_phonemes(token.moras@, token.moras@.len() as int)
        &&& forall|p: int|
            0 <= p < self.owners@.len() ==> phonemes_before(token.moras@, #[trigger] self.owners@[p] as int) <= p
                < phonemes_before(token.moras@, self.owners@[p] + 1)
        &&& self.extra_vowels@ == if token.features is None && self.ids@.len() == 1 {
            Seq::empty()
        } else {
            token.extra_vowels@
        }
    }

    #[verifier::rlimit(60)]
    pub fn new(lexicon: &Lexicon, tables: &DurationTables, k: usize) -> (layout: Self)
        requires
            analysable(lexicon, tables),
            k < lexicon.kana@.len(),
        ensures
            layout.wf(&lexicon.kana@[k as int]),
            layout.of(&lexicon.kana@[k as int]),
    {
        let token = &lexicon.kana[k];
        let ghost t = lexicon.kana@[k as int];
        proof {
            lexicon.lemma_text(k as int);
        }
        let mut ids: Vec<usize> = Vec::new();
        let mut owners: Vec<usize> = Vec::new();
        let mut ends: Vec<usize> = Vec::new();
        let mut m: usize = 0;
        while m < token.moras.len()
            invariant
                analysable(lexicon, tables),
                k < lexicon.kana@.len(),
                t == lexicon.kana@[k as int],
                *token == t,
                m <= t.moras@.len(),
                phonemes_wf(ids@),
                owners@.len() == ids@.len(),
                ends@.len() == m,
                m >= 1 ==> ids@.len() >= t.moras@[0].phonemes@.len(),
                forall|p: int|
                    0 <= p < ids@.len() ==> #[trigger] owners@[p] < m && (owners@[p] == 0 <==> p
                        < t.moras@[0].phonemes@.len()),
                m == 0 ==> ids@.len() == 0,
                forall|q: int| 0 <= q < ends@.len() ==> #[trigger] ends@[q] < ids@.len(),
                ids@.len() == phonemes_before(t.moras@, m as int),
                forall|q: int| 0 <= q < ends@.len() ==> #[trigger] ends@[q] == phonemes_before(t.moras@, q + 1) - 1,
                ids@ == mora_phonemes(t.moras@, m as int),
                forall|q: int|
                    0 <= q < owners@.len() ==> phonemes_before(t.moras@, #[trigger] owners@[q] as int) <= q
                        < phonemes_before(t.moras@, owners@[q] + 1),
            decreases t.moras@.len() - m,
        {
            let mora = &token.moras[m];
            assert(t.moras@[m as int].phonemes@.len() >= 1);
            let first_len = ids.len();
            let mut p: usize = 0;
            while p < mora.phonemes.len()
                invariant
                    analysable(lexicon, tables),
                    k < lexicon.kana@.len(),
                    t == lexicon.kana@[k as int],
                    *token == t,
                    m < t.moras@.len(),
                    *mora == t.moras@[m as int],
                    p <= mora.phonemes@.len(),
                    phonemes_wf(ids@),
                    owners@.len() == ids@.len() == first_len + p,
                    m >= 1 ==> first_len >= t.moras@[0].phonemes@.len(),
                    m == 0 ==> first_len == 0,
                    forall|q: int|
                        0 <= q < ids@.len() ==> #[trigger] owners@[q] <= m && (owners@[q] == 0 <==> q
                            < t.moras@[0].phonemes@.len()),
                    forall|q: int| 0 <= q < ends@.len() ==> #[trigger] ends@[q] < ids@.len(),
                    first_len == phonemes_before(t.moras@, m as int),
                    ends@.len() == m,
                    forall|q: int| 0 <= q < ends@.len() ==> #[trigger] ends@[q] == phonemes_before(t.moras@, q + 1) - 1,
                    ids@ == mora_phonemes(t.moras@, m as int) + mora.phonemes@.take(p as int),
                    phonemes_before(t.moras@, m + 1) == first_len + mora.phonemes@.len(),
                    forall|q: int|
                        0 <= q < owners@.len() ==> phonemes_before(t.moras@, #[trigger] owners@[q] as int) <= q
                            < phonemes_before(t.moras@, owners@[q] + 1),
                decreases mora.phonemes@.len() - p,
            {
                proof {
                    lexicon.lemma_phoneme(k as int, m as int, p as int);
                }
                ids.push(mora.phonemes[p]);
                owners.push(m);
                assert(mora.phonemes@.take(p + 1) =~= mora.phonemes@.take(p as int).push(mora.phonemes@[p as int]));
                p += 1;
            }
            assert(mora.phonemes@.take(p as int) =~= mora.phonemes@);
            ends.push(ids.len() - 1);
            m += 1;
        }
        let features = if token.features.is_none() && ids.len() == 1 {
            Some(vowel_features_exec())
        } else {
            token.features
        };
        let extra_vowels: Vec<VowelFeature> = if token.features.is_none() && ids.len() == 1 {
            Vec::new()
        } else {
            let mut copy: Vec<VowelFeature> = Vec::new();
            let mut e: usize = 0;
            while e < token.extra_vowels.len()
                invariant
                    e <= token.extra_vowels@.len(),
                    copy@ == token.extra_vowels@.take(e as int),
                decreases token.extra_vowels@.len() - e,
            {
                copy.push(token.extra_vowels[e]);
                assert(token.extra_vowels@.take(e + 1) =~= token.extra_vowels@.take(e as int).push(token.extra_vowels@[e as int]));
                e += 1;
            }
            assert(token.extra_vowels@.take(e as int) =~= token.extra_vowels@);
            copy
        };
        MoraLayout { ids, owners, ends, features, extra_vowels }
    }
}

} // verus!

verus! {

/// Whether a kana's consonant is palatalized: it ends in `y`, or is `kw`.
pub open spec fn palatalized_spec(lexicon: &Lexicon, k: usize) -> bool {
    let consonant = lexicon.kana@[k as int].consonant_spec();
    (consonant.len() > 0 && consonant.last() == 'y') || (consonant.len() == 2 && consonant[0] == 'k'
        && consonant[1] == 'w')
}

fn palatalized(lexicon: &Lexicon, k: usize) -> (result: bool)
    requires
        k < lexicon.kana@.len(),
    ensures
        result == palatalized_spec(lexicon, k),
{
    let consonant = lexicon.kana[k].consonant();
    let n = consonant.len();
    (n > 0 && consonant[n - 1] == 'y') || (n == 2 && consonant[0] == 'k' && consonant[1] == 'w')
}

/// `value * speed / 100`, rounded half up by floor division, in wrapping arithmetic.
pub open spec fn speed_periods_spec(value: i32, speed: i32) -> i32 {
    (value.wrapping_mul(speed).wrapping_add(50) as int / 100) as i32
}

fn speed_periods(value: i32, speed: i32) -> (result: i32)
    ensures
        result == speed_periods_spec(value, speed),
{
    crate::text::units::floor_div(value.wrapping_mul(speed).wrapping_add(50), 100)
}

/// The phrase-level parameters of an analysis.
pub struct Phrasing<'a> {
    pub lexicon: &'a Lexicon,
    pub tables: &'a DurationTables,
    pub context: &'a PhraseContext,
    pub speed: i32,
    pub volume: i32,
}

impl<'a> Phrasing<'a> {
    pub open spec fn wf(&self) -> bool {
        &&& analysable(self.lexicon, self.tables)
        &&& self.context.wf(self.lexicon)
    }

    /// The position of mora `offset` of kana `index`, the mora count saturating.
    pub open spec fn position_at(&self, index: int, offset: int) -> Position {
        let before = self.context.mora_before@[index];
        let mora = if before + offset > usize::MAX {
            usize::MAX as int
        } else {
            before + offset
        };
        position_spec(mora, self.context.total as int, self.context.word_lengths@[index] as int)
    }

    /// The timing (duration, unscaled duration) of phoneme `p` of kana `index`, where
    /// `left` is the vowel class of the entry before it.
    #[verifier::opaque]
    pub open spec fn phoneme_timing(&self, index: int, layout: &MoraLayout, left: i32, p: int) -> (i32, i32) {
        let lexicon = self.lexicon;
        let tables = self.tables;
        let kana = self.context.kana@;
        let k = kana[index];
        let token = lexicon.kana@[k as int];
        let first = token.moras@[0];
        let ids = layout.ids@;
        let phoneme = ids[p];
        let position = self.position_at(index, 0);
        let right = next_vowel_spec(lexicon, kana, index, ids, p);
        let base = if p == 0 && ids.len() > 1 {
            first.consonant_duration
        } else {
            first.vowel_duration
        };
        let owner_index = layout.owners@[p];
        let owner = token.moras@[owner_index as int];
        let extra = if layout.features is Some && owner_index - 1 < layout.extra_vowels@.len()
            && p == layout.ends@[owner_index as int] {
            Some(layout.extra_vowels@[owner_index - 1])
        } else {
            None
        };
        let (value, unscaled, completed) = if p >= first.phonemes@.len() {
            match extra {
                Some(extra) => {
                    let vowel_context = VowelContext {
                        left: extra.left,
                        vowel: extra.vowel,
                        right,
                        position: self.position_at(index, owner_index as int),
                    };
                    (
                        vowel_context.duration_of(tables, self.speed) as i32,
                        vowel_context.duration_of(tables, 100) as i32,
                        true,
                    )
                },
                None => (speed_periods_spec(owner.vowel_duration, self.speed), owner.vowel_duration, false),
            }
        } else {
            (base, base, false)
        };
        match layout.features {
            Some(features) if !completed => {
                let vowel = if 1 <= phoneme <= 5 {
                    (phoneme - 1) as i32
                } else {
                    features.vowel_kind
                };
                if phoneme == 6 {
                    let vowel_context = VowelContext { left, vowel: 5, right, position };
                    (
                        vowel_context.nasal_duration_of(tables, self.speed) as i32,
                        vowel_context.nasal_duration_of(tables, 100) as i32,
                    )
                } else if p == 0 && ids.len() == 1 {
                    let vowel_context = VowelContext {
                        left: previous_vowel_spec(lexicon, kana, index),
                        vowel,
                        right,
                        position,
                    };
                    (vowel_context.duration_of(tables, self.speed) as i32, unscaled)
                } else if p == 0 {
                    let geminate = self.context.geminates@.contains(index as usize);
                    let consonant_context = ConsonantContext {
                        group: features.consonant_group,
                        category: features.consonant_category,
                        previous_phoneme: left,
                        vowel: (ids[1] - 1) as i32,
                        position,
                        palatalized: palatalized_spec(lexicon, k),
                        geminate,
                        phoneme,
                    };
                    (
                        consonant_context.duration_of(tables, self.speed) as i32,
                        if geminate {
                            consonant_context.duration_of(tables, 100) as i32
                        } else {
                            ConsonantContext { geminate: false, ..consonant_context }.duration_of(tables, 100) as i32
                        },
                    )
                } else {
                    let next = if p + 1 < ids.len() {
                        Some(ids[p + 1])
                    } else {
                        let following = phonemes_of(lexicon, kana, 0, kana.len() as int, index + 1, false);
                        if following.len() > 0 {
                            Some(following[0])
                        } else {
                            None
                        }
                    };
                    let right = if token.long_marker_spec() && p == ids.len() - 1 && 1 <= phoneme <= 5 {
                        (phoneme - 1) as i32
                    } else {
                        match next {
                            Some(q) => if 1 <= q <= 6 {
                                (q - 1) as i32
                            } else {
                                right
                            },
                            None => right,
                        }
                    };
                    let vowel_context = VowelContext { left: features.vowel_left, vowel, right, position };
                    (
                        vowel_context.duration_of(tables, self.speed) as i32,
                        vowel_context.duration_of(tables, 100) as i32,
                    )
                }
            },
            _ => (value, unscaled),
        }
    }

    /// The entry of phoneme `p` of kana `index`, after `previous` entries.
    pub open spec fn phoneme_entry(&self, index: int, layout: &MoraLayout, previous: Seq<Entry>, p: int) -> Entry {
        let token = self.lexicon.kana@[self.context.kana@[index] as int];
        let ids = layout.ids@;
        let left = if p > 0 {
            (ids[p - 1] - 1) as i32
        } else if previous.len() > 0 {
            (previous.last().phoneme - 1) as i32
        } else {
            26
        };
        let timing = self.phoneme_timing(index, layout, left, p);
        let owner = token.moras@[layout.owners@[p] as int];
        new_entry(ids[p], timing.0, timing.1, owner.amplitude, owner.pitch)
    }

    /// The position of mora `offset` of kana `index`.
    fn position(&self, index: usize, offset: usize) -> (position: Position)
        requires
            self.wf(),
            index < self.context.kana@.len(),
        ensures
            position == self.position_at(index as int, offset as int),
    {
        let context = self.context;
        let mora = context.mora_before[index].saturating_add(offset);
        Position::new(mora, context.total, context.word_lengths[index])
    }

    /// Appends one entry per phoneme of kana `index`, each timed by its context.
    #[verifier::rlimit(60)]
    fn append_phonemes(&self, index: usize, output: &mut Vec<Entry>, layout: &MoraLayout)
        requires
            self.wf(),
            index < self.context.kana@.len(),
            layout.wf(&self.lexicon.kana@[self.context.kana@[index as int] as int]),
            self.lexicon.kana@[self.context.kana@[index as int] as int].moras@.len() >= 1,
            entries_wf(old(output)@),
        ensures
            entries_wf(final(output)@),
            final(output)@.len() == old(output)@.len() + layout.ids@.len(),
            forall|i: int| 0 <= i < old(output)@.len() ==> #[trigger] final(output)@[i] == old(output)@[i],
            forall|p: int|
                0 <= p < layout.ids@.len() ==> (#[trigger] final(output)@[old(output)@.len() + p]).phoneme
                    == layout.ids@[p] && !final(output)@[old(output)@.len() + p].devoiced
                    && !final(output)@[old(output)@.len() + p].follows_geminate,
            final(output)@ == old(output)@ + Seq::new(
                layout.ids@.len(),
                |p: int| self.phoneme_entry(index as int, layout, old(output)@, p),
            ),
    {
        let lexicon = self.lexicon;
        let tables = self.tables;
        let context = self.context;
        let kana = &context.kana;
        let k = kana[index];
        let token = &lexicon.kana[k];
        let first = &token.moras[0];
        let position = self.position(index, 0);
        let ids = &layout.ids;
        let ghost start = output@.len();
        let mut phoneme_index: usize = 0;
        while phoneme_index < ids.len()
            invariant
                self.wf(),
                lexicon == self.lexicon,
                tables == self.tables,
                context == self.context,
                kana@ == context.kana@,
                index < context.kana@.len(),
                k == context.kana@[index as int],
                *token == lexicon.kana@[k as int],
                *first == token.moras@[0],
                layout.wf(token),
                ids@ == layout.ids@,
                entries_wf(output@),
                token.moras@.len() >= 1,
                phoneme_index <= ids@.len(),
                output@.len() == start + phoneme_index,
                forall|i: int| 0 <= i < start ==> #[trigger] output@[i] == old(output)@[i],
                old(output)@.len() == start,
                forall|p: int|
                    0 <= p < phoneme_index ==> (#[trigger] output@[start + p]).phoneme == ids@[p]
                        && !output@[start + p].devoiced && !output@[start + p].follows_geminate,
                forall|p: int|
                    0 <= p < phoneme_index ==> #[trigger] output@[start + p] == self.phoneme_entry(
                        index as int,
                        layout,
                        old(output)@,
                        p,
                    ),
                position == self.position_at(index as int, 0),
            decreases ids@.len() - phoneme_index,
        {
            let phoneme = ids[phoneme_index];
            let mut value = if phoneme_index == 0 && ids.len() > 1 {
                first.consonant_duration
            } else {
                first.vowel_duration
            };
            let mut unscaled = value;
            let mut completed = false;
            assert(layout.owners@[phoneme_index as int] < token.moras@.len());
            let owner_index = layout.owners[phoneme_index];
            let owner = &token.moras[owner_index];
            if phoneme_index >= first.phonemes.len() {
                assert(owner_index != 0);
                let extra = if layout.features.is_some() && owner_index - 1 < layout.extra_vowels.len()
                    && phoneme_index == layout.ends[owner_index] {
                    Some(layout.extra_vowels[owner_index - 1])
                } else {
                    None
                };
                match extra {
                    Some(extra) => {
                        let vowel_context = VowelContext {
                            left: extra.left,
                            vowel: extra.vowel,
                            right: next_vowel(lexicon, kana, index, ids, phoneme_index),
                            position: self.position(index, owner_index),
                        };
                        value = vowel_context.duration(tables, self.speed);
                        unscaled = vowel_context.duration(tables, 100);
                        completed = true;
                    },
                    None => {
                        unscaled = owner.vowel_duration;
                        value = speed_periods(unscaled, self.speed);
                    },
                }
            }
            if let Some(features) = layout.features {
                if !completed {
                    let left_of_output = if output.len() > 0 {
                        output[output.len() - 1].phoneme as i32 - 1
                    } else {
                        26
                    };
                    if phoneme == 6 {
                        let vowel_context = VowelContext {
                            left: left_of_output,
                            vowel: 5,
                            right: next_vowel(lexicon, kana, index, ids, phoneme_index),
                            position,
                        };
                        value = vowel_context.nasal_duration(tables, self.speed);
                        unscaled = vowel_context.nasal_duration(tables, 100);
                    } else if phoneme_index == 0 && ids.len() == 1 {
                        let vowel_context = VowelContext {
                            left: previous_vowel(lexicon, kana, index),
                            vowel: if 1 <= phoneme && phoneme <= 5 {
                                phoneme as i32 - 1
                            } else {
                                features.vowel_kind
                            },
                            right: next_vowel(lexicon, kana, index, ids, phoneme_index),
                            position,
                        };
                        value = vowel_context.duration(tables, self.speed);
                    } else if phoneme_index == 0 {
                        assert(token.features == Some(features));
                        assert(0 <= features.consonant_group < tables.consonants@.len());
                        let geminate = contains_index(&context.geminates, index);
                        let consonant_context = ConsonantContext {
                            group: features.consonant_group,
                            category: features.consonant_category,
                            previous_phoneme: left_of_output,
                            vowel: ids[1] as i32 - 1,
                            position,
                            palatalized: palatalized(lexicon, k),
                            geminate,
                            phoneme,
                        };
                        value = consonant_context.duration(tables, self.speed);
                        unscaled = ConsonantContext { geminate: false, ..consonant_context }.duration(tables, 100);
                        // The unscaled estimate still includes the geminate offset.
                        if geminate {
                            unscaled = consonant_context.duration(tables, 100);
                        }
                    } else {
                        let vowel = if 1 <= phoneme && phoneme <= 5 {
                            phoneme as i32 - 1
                        } else {
                            features.vowel_kind
                        };
                        let next: Option<usize> = if phoneme_index + 1 < ids.len() {
                            Some(ids[phoneme_index + 1])
                        } else {
                            let following = phonemes(lexicon, kana, 0, kana.len(), index + 1, false);
                            if following.len() > 0 {
                                Some(following[0])
                            } else {
                                None
                            }
                        };
                        let right = if token.long_marker() && phoneme_index == ids.len() - 1 && 1 <= phoneme
                            && phoneme <= 5 {
                            phoneme as i32 - 1
                        } else {
                            match next {
                                Some(p) => {
                                    if 1 <= p && p <= 6 {
                                        p as i32 - 1
                                    } else {
                                        next_vowel(lexicon, kana, index, ids, phoneme_index)
                                    }
                                },
                                None => next_vowel(lexicon, kana, index, ids, phoneme_index),
                            }
                        };
                        let vowel_context = VowelContext { left: features.vowel_left, vowel, right, position };
                        value = vowel_context.duration(tables, self.speed);
                        unscaled = vowel_context.duration(tables, 100);
                    }
                }
            }
            proof {
                reveal(Phrasing::phoneme_timing);
                let left = if phoneme_index > 0 {
                    (ids@[phoneme_index - 1] - 1) as i32
                } else if start > 0 {
                    (old(output)@.last().phoneme - 1) as i32
                } else {
                    26
                };
                if phoneme_index > 0 {
                    let q = phoneme_index - 1;
                    assert(output@[start + q].phoneme == ids@[q]);
                    assert(output@.last() == output@[start + q]);
                } else if start > 0 {
                    assert(output@.last() == output@[start - 1]);
                    assert(old(output)@.last() == old(output)@[start - 1]);
                }
                assert(self.phoneme_timing(index as int, layout, left, phoneme_index as int) == (value, unscaled));
            }
            output.push(entry(phoneme, value, unscaled, owner.amplitude, owner.pitch));
            phoneme_index += 1;
        }
        proof {
            let expected = old(output)@ + Seq::new(
                layout.ids@.len(),
                |p: int| self.phoneme_entry(index as int, layout, old(output)@, p),
            );
            assert forall|i: int| 0 <= i < output@.len() implies output@[i] == expected[i] by {
                if i >= start {
                    assert(output@[start + (i - start)] == self.phoneme_entry(index as int, layout, old(output)@, i - start));
                }
            }
            assert(output@ =~= expected);
        }
    }
}

} // verus!

verus! {

/// The entry with only its amplitude replaced.
pub open spec fn with_amplitude(entry: Entry, amplitude: i32) -> Entry {
    Entry { amplitude, ..entry }
}

proof fn lemma_phonemes_before_monotone(moras: Seq<super::lexicon::Mora>, a: int, b: int)
    requires
        0 <= a <= b,
    ensures
        phonemes_before(moras, a) <= phonemes_before(moras, b),
    decreases b - a,
{
    if a < b {
        lemma_phonemes_before_monotone(moras, a, b - 1);
    }
}

impl<'a> Phrasing<'a> {
    /// The amplitude of a vowel in context: at least 70, plus the volume offset.
    pub open spec fn vowel_amplitude_spec(&self, context: VowelContext) -> i32 {
        let amplitude = context.amplitude_of(self.tables, self.context.total) as i32;
        let floor = if amplitude > 70 {
            amplitude
        } else {
            70
        };
        floor.wrapping_add(self.volume)
    }

    /// The amplitude of the last vowel of a one-mora or lengthened kana `index`.
    pub open spec fn single_amplitude(
        &self,
        index: int,
        layout: &MoraLayout,
        start: int,
        long_start: Option<usize>,
        entries: Seq<Entry>,
    ) -> Seq<Entry> {
        let token = self.lexicon.kana@[self.context.kana@[index] as int];
        let ids = layout.ids@;
        let long_marker = token.long_marker_spec();
        let target = if long_marker && long_start is Some {
            start + token.moras@[0].phonemes@.len() - 1
        } else {
            entries.len() - 1
        };
        let phoneme = entries[target].phoneme;
        let vowel = if 1 <= phoneme <= 6 {
            (phoneme - 1) as i32
        } else {
            0
        };
        let has_consonant = ids.len() > 1;
        let before = if start > 0 {
            (entries[start - 1].phoneme - 1) as i32
        } else {
            26
        };
        let left = if index == 0 {
            match token.amplitude_class {
                Some(c) if has_consonant => c,
                _ => 26,
            }
        } else {
            match token.amplitude_class {
                Some(c) if has_consonant => c,
                _ => before,
            }
        };
        let right = if long_marker && 1 <= phoneme <= 5 {
            (phoneme - 1) as i32
        } else {
            next_vowel_spec(self.lexicon, self.context.kana@, index, ids, ids.len() - 1)
        };
        let amplitude = self.vowel_amplitude_spec(VowelContext { left, vowel, right, position: self.position_at(index, 0) });
        entries.update(target, with_amplitude(entries[target], amplitude))
    }

    /// The entries after setting the amplitudes of the first `m` moras of kana
    /// `index` that have their own vowel classes.
    pub open spec fn mora_amplitudes(&self, index: int, layout: &MoraLayout, start: int, entries: Seq<Entry>, m: int) -> Seq<Entry>
        decreases m,
    {
        if m <= 0 {
            entries
        } else {
            let previous = self.mora_amplitudes(index, layout, start, entries, m - 1);
            let mora = m - 1;
            if mora > 0 && mora - 1 >= layout.extra_vowels@.len() {
                previous
            } else {
                let token = self.lexicon.kana@[self.context.kana@[index] as int];
                let features = layout.features.unwrap();
                let (left, vowel, right) = if mora == 0 {
                    (features.vowel_left, features.vowel_kind, layout.extra_vowels@[0].vowel)
                } else {
                    let extra = layout.extra_vowels@[mora - 1];
                    (
                        extra.left,
                        extra.vowel,
                        next_vowel_spec(
                            self.lexicon,
                            self.context.kana@,
                            index,
                            layout.ids@,
                            layout.ends@[mora] as int,
                        ),
                    )
                };
                let amplitude = self.vowel_amplitude_spec(
                    VowelContext { left, vowel, right, position: self.position_at(index, mora) },
                );
                let at = start + phonemes_before(token.moras@, mora + 1) - 1;
                previous.update(at, with_amplitude(previous[at], amplitude))
            }
        }
    }

    /// The entries after setting the vowel amplitudes of kana `index`.
    pub open spec fn amplitudes_set(
        &self,
        index: int,
        layout: &MoraLayout,
        start: int,
        long_start: Option<usize>,
        entries: Seq<Entry>,
    ) -> Seq<Entry> {
        let token = self.lexicon.kana@[self.context.kana@[index] as int];
        if entries.len() > start && (token.moras@.len() == 1 || token.long_marker_spec()) {
            self.single_amplitude(index, layout, start, long_start, entries)
        } else if entries.len() > start && token.moras@.len() > 1 && layout.features is Some
            && layout.extra_vowels@.len() > 0 {
            self.mora_amplitudes(index, layout, start, entries, token.moras@.len() as int)
        } else {
            entries
        }
    }

    fn vowel_amplitude(&self, context: VowelContext) -> (result: i32)
        ensures
            result == self.vowel_amplitude_spec(context),
    {
        let amplitude = context.amplitude(self.tables, self.context.total);
        let floor = if amplitude > 70 {
            amplitude
        } else {
            70
        };
        floor.wrapping_add(self.volume)
    }

    /// Sets the amplitude of the vowels of kana `index`, whose entries start at
    /// `start`: the last vowel of a one-mora or lengthened kana, or the last phoneme
    /// of each mora that has its own vowel classes.
    #[verifier::rlimit(60)]
    fn set_amplitudes(&self, index: usize, output: &mut Vec<Entry>, start: usize, long_start: Option<usize>, layout: &MoraLayout)
        requires
            self.wf(),
            index < self.context.kana@.len(),
            layout.wf(&self.lexicon.kana@[self.context.kana@[index as int] as int]),
            self.lexicon.kana@[self.context.kana@[index as int] as int].moras@.len() >= 1,
            start + layout.ids@.len() <= old(output)@.len(),
            entries_wf(old(output)@),
        ensures
            final(output)@.len() == old(output)@.len(),
            forall|i: int|
                0 <= i < old(output)@.len() ==> #[trigger] final(output)@[i] == with_amplitude(
                    old(output)@[i],
                    final(output)@[i].amplitude,
                ),
            final(output)@ == self.amplitudes_set(index as int, layout, start as int, long_start, old(output)@),
    {
        let lexicon = self.lexicon;
        let context = self.context;
        let kana = &context.kana;
        let k = kana[index];
        let token = &lexicon.kana[k];
        let first_len = token.moras[0].phonemes.len();
        let position = self.position(index, 0);
        let ids = &layout.ids;
        let long_marker = token.long_marker();
        let ghost initial = output@;
        assert(first_len <= ids@.len());
        if output.len() > start && (token.moras.len() == 1 || long_marker) {
            let target = if long_marker && long_start.is_some() {
                start + first_len - 1
            } else {
                output.len() - 1
            };
            let phoneme = output[target].phoneme;
            let vowel = if 1 <= phoneme && phoneme <= 6 {
                phoneme as i32 - 1
            } else {
                0
            };
            let has_consonant = ids.len() > 1;
            let left = if index == 0 {
                if has_consonant {
                    match token.amplitude_class {
                        Some(c) => c,
                        None => 26,
                    }
                } else {
                    26
                }
            } else {
                match token.amplitude_class {
                    Some(c) if has_consonant => c,
                    _ => if start > 0 {
                        output[start - 1].phoneme as i32 - 1
                    } else {
                        26
                    },
                }
            };
            let right = if long_marker && 1 <= phoneme && phoneme <= 5 {
                phoneme as i32 - 1
            } else {
                next_vowel(lexicon, kana, index, ids, ids.len() - 1)
            };
            let amplitude = self.vowel_amplitude(VowelContext { left, vowel, right, position });
            let updated = Entry { amplitude, ..output[target] };
            output.set(target, updated);
        } else if output.len() > start && token.moras.len() > 1 && layout.features.is_some()
            && layout.extra_vowels.len() > 0 {
            let features = layout.features.unwrap();
            let output_len = output.len();
            let mut target = start;
            let mut mora_index: usize = 0;
            while mora_index < token.moras.len()
                invariant
                    self.wf(),
                    lexicon == self.lexicon,
                    context == self.context,
                    kana@ == context.kana@,
                    index < context.kana@.len(),
                    k == context.kana@[index as int],
                    *token == lexicon.kana@[k as int],
                    layout.wf(token),
                    ids@ == layout.ids@,
                    layout.extra_vowels@.len() > 0,
                    mora_index <= token.moras@.len(),
                    target == start + phonemes_before(token.moras@, mora_index as int),
                    layout.features == Some(features),
                    output@ == self.mora_amplitudes(index as int, layout, start as int, initial, mora_index as int),
                    start + ids@.len() <= initial.len() == output_len,
                    entries_wf(initial),
                    output@.len() == initial.len(),
                    forall|i: int|
                        0 <= i < initial.len() ==> #[trigger] output@[i] == with_amplitude(
                            initial[i],
                            output@[i].amplitude,
                        ),
                decreases token.moras@.len() - mora_index,
            {
                proof {
                    lemma_phonemes_before_monotone(token.moras@, mora_index + 1, token.moras@.len() as int);
                    assert(analysable(lexicon, self.tables));
                    assert(token.moras@[mora_index as int].phonemes@.len() >= 1);
                }
                let mora_len = token.moras[mora_index].phonemes.len();
                assert(phonemes_before(token.moras@, mora_index + 1) == phonemes_before(token.moras@, mora_index as int) + mora_len);
                let extra_index = if mora_index > 0 {
                    mora_index - 1
                } else {
                    0
                };
                let has_extra = extra_index < layout.extra_vowels.len();
                if mora_index > 0 && !has_extra {
                    target = target + mora_len;
                } else {
                    let (left, vowel, right) = if mora_index == 0 {
                        (features.vowel_left, features.vowel_kind, layout.extra_vowels[0].vowel)
                    } else {
                        let extra = layout.extra_vowels[extra_index];
                        (extra.left, extra.vowel, next_vowel(lexicon, kana, index, ids, layout.ends[mora_index]))
                    };
                    let amplitude = self.vowel_amplitude(
                        VowelContext { left, vowel, right, position: self.position(index, mora_index) },
                    );
                    let at = target + mora_len - 1;
                    let updated = Entry { amplitude, ..output[at] };
                    output.set(at, updated);
                    target = target + mora_len;
                }
                mora_index += 1;
            }
        }
    }
}

} // verus!

verus! {

/// The entries, mora nodes and pending pitches of a phrase analysis.
pub struct Analysis {
    pub output: Vec<Entry>,
    pub nodes: Vec<Node>,
    /// The kana of each node, and of each long-vowel mark that made none.
    pub node_kana: Vec<usize>,
    /// Entries that take the pitch of their kana's first mora unless accented.
    pub multi_pitch: Vec<(usize, i32)>,
}

impl Analysis {
    /// Entries name phonemes of the inventory, nodes fit the entries and pending
    /// pitches name entries.
    pub open spec fn wf(&self) -> bool {
        &&& entries_wf(self.output@)
        &&& nodes_fit(self.nodes@, self.output@.len() as int)
        &&& forall|m: int| 0 <= m < self.multi_pitch@.len() ==> #[trigger] self.multi_pitch@[m].0 < self.output@.len()
    }
}

proof fn lemma_nodes_push(nodes: Seq<Node>, node: Node, count: int)
    requires
        nodes_fit(nodes, count),
        node.entries_start < node.entries_end <= count,
        forall|i: int| 0 <= i < nodes.len() ==> #[trigger] nodes[i].entries_start <= node.entries_end,
    ensures
        nodes_fit(nodes.push(node), count),
{
    let pushed = nodes.push(node);
    assert forall|i: int, j: int| 0 <= i < j < pushed.len() implies #[trigger] pushed[i].entries_start
        <= #[trigger] pushed[j].entries_end by {
        if j == nodes.len() {
            assert(pushed[i] == nodes[i]);
        } else {
            assert(pushed[i] == nodes[i] && pushed[j] == nodes[j]);
        }
    }
    assert forall|i: int| 0 <= i < pushed.len() implies #[trigger] pushed[i].entries_start
        < pushed[i].entries_end <= count by {
        if i < nodes.len() {
            assert(pushed[i] == nodes[i]);
        }
    }
}

proof fn lemma_nodes_grow(nodes: Seq<Node>, count: int, larger: int)
    requires
        nodes_fit(nodes, count),
        count <= larger,
    ensures
        nodes_fit(nodes, larger),
{
}

impl<'a> Phrasing<'a> {
    /// The entries and nodes after a long-vowel mark at kana `index` that repeats a
    /// final vowel `1..=5` as a mora of its own.
    pub open spec fn long_mark_appended(&self, index: int, output: Seq<Entry>, nodes: Seq<Node>) -> (Seq<Entry>, Seq<Node>) {
        let count = output.len();
        if count == 0 || !(1 <= output.last().phoneme <= 5) {
            (output, nodes)
        } else {
            let last = output.last();
            let phoneme = last.phoneme;
            let vowel_context = VowelContext {
                left: previous_vowel_spec(self.lexicon, self.context.kana@, index),
                vowel: (phoneme - 1) as i32,
                right: next_vowel_spec(self.lexicon, self.context.kana@, index, seq![phoneme], 0),
                position: self.position_at(index, 0),
            };
            let value = vowel_context.duration_of(self.tables, self.speed) as i32;
            let amplitude = self.vowel_amplitude_spec(VowelContext { left: (phoneme - 1) as i32, ..vowel_context });
            (
                output.push(
                    new_entry(phoneme, value, vowel_context.duration_of(self.tables, 100) as i32, amplitude, last.pitch),
                ),
                nodes.push(Node { entries_start: count as usize, entries_end: (count + 1) as usize, consonant: 0, vowel: value }),
            )
        }
    }

    /// Appends a long-vowel mark that repeats the previous vowel, as a mora of its own.
    fn append_long_mark(&self, index: usize, analysis: &mut Analysis)
        requires
            self.wf(),
            index < self.context.kana@.len(),
            old(analysis).wf(),
        ensures
            final(analysis).wf(),
            final(analysis).output@.len() >= old(analysis).output@.len(),
            (final(analysis).output@, final(analysis).nodes@) == self.long_mark_appended(
                index as int,
                old(analysis).output@,
                old(analysis).nodes@,
            ),
            final(analysis).node_kana@ == old(analysis).node_kana@,
            final(analysis).multi_pitch@ == old(analysis).multi_pitch@,
    {
        let lexicon = self.lexicon;
        let context = self.context;
        let kana = &context.kana;
        let count = analysis.output.len();
        if count == 0 {
            return;
        }
        let last = analysis.output[count - 1];
        let phoneme = last.phoneme;
        if !(1 <= phoneme && phoneme <= 5) {
            return;
        }
        let mut single: Vec<usize> = Vec::new();
        single.push(phoneme);
        assert(single@ =~= seq![phoneme]);
        let position = self.position(index, 0);
        let vowel_context = VowelContext {
            left: previous_vowel(lexicon, kana, index),
            vowel: phoneme as i32 - 1,
            right: next_vowel(lexicon, kana, index, &single, 0),
            position,
        };
        let value = vowel_context.duration(self.tables, self.speed);
        let amplitude = self.vowel_amplitude(VowelContext { left: phoneme as i32 - 1, ..vowel_context });
        let ghost before = analysis.nodes@;
        analysis.output.push(entry(phoneme, value, vowel_context.duration(self.tables, 100), amplitude, last.pitch));
        let node = Node { entries_start: count, entries_end: analysis.output.len(), consonant: 0, vowel: value };
        proof {
            lemma_nodes_grow(before, count as int, count + 1);
            assert forall|i: int| 0 <= i < before.len() implies #[trigger] before[i].entries_start <= node.entries_end by {
                assert(before[i].entries_start < before[i].entries_end);
            }
            lemma_nodes_push(before, node, count + 1);
        }
        analysis.nodes.push(node);
    }
}

} // verus!

verus! {

impl<'a> Phrasing<'a> {
    /// Shortens the last vowel of a devoiced kana whose entries start at `start`,
    /// moving the excess to its first phoneme; gives the consonant and vowel
    /// durations of the devoiced mora.
    pub open spec fn devoiced(&self, output: Seq<Entry>, start: int) -> (Seq<Entry>, (i32, i32)) {
        let last = output.len() - 1;
        let unscaled = output[last].unscaled_duration.wrapping_mul(22938) >> 15i32;
        let value = speed_periods_spec(unscaled, self.speed);
        let lengthened = if value > 20 {
            output.update(start, Entry { duration: output[start].duration.wrapping_add((value - 20) as i32), ..output[start] })
        } else {
            output
        };
        let quieter = output[last].amplitude.wrapping_sub(30);
        let shortened = Entry {
            unscaled_duration: unscaled,
            duration: if value < 20 {
                value
            } else {
                20
            },
            amplitude: if quieter > 0 {
                quieter
            } else {
                0
            },
            devoiced: true,
            ..output[last]
        };
        (lengthened.update(last, shortened), (output[start].duration, value))
    }

    fn devoice(&self, output: &mut Vec<Entry>, start: usize) -> (durations: (i32, i32))
        requires
            start + 1 < old(output)@.len(),
            entries_wf(old(output)@),
        ensures
            entries_wf(final(output)@),
            final(output)@.len() == old(output)@.len(),
            (final(output)@, durations) == self.devoiced(old(output)@, start as int),
    {
        let last = output.len() - 1;
        let unscaled = output[last].unscaled_duration.wrapping_mul(22938) >> 15i32;
        let value = speed_periods(unscaled, self.speed);
        let durations = (output[start].duration, value);
        if value > 20 {
            let lengthened = Entry { duration: output[start].duration.wrapping_add(value - 20), ..output[start] };
            output.set(start, lengthened);
        }
        let quieter = output[last].amplitude.wrapping_sub(30);
        let shortened = Entry {
            unscaled_duration: unscaled,
            duration: if value < 20 {
                value
            } else {
                20
            },
            amplitude: if quieter > 0 {
                quieter
            } else {
                0
            },
            devoiced: true,
            ..output[last]
        };
        output.set(last, shortened);
        durations
    }

    /// The nodes of kana `index` whose entries run from `start` in `output`: its
    /// first mora (timed by the devoiced durations if any), each later mora, and a
    /// long-vowel mark.
    pub open spec fn kana_nodes(
        &self,
        index: int,
        output: Seq<Entry>,
        start: int,
        long_start: Option<usize>,
        devoiced: Option<(i32, i32)>,
    ) -> Seq<Node> {
        let token = self.lexicon.kana@[self.context.kana@[index] as int];
        let moras = token.moras@;
        let count = output.len();
        let first_len = moras[0].phonemes@.len();
        let last = if start + first_len - 1 < count - 1 {
            start + first_len - 1
        } else {
            count - 1
        };
        let (consonant, vowel) = match devoiced {
            Some(durations) => durations,
            None => (
                if count > start + 1 {
                    output[start].duration
                } else {
                    0
                },
                output[match long_start {
                    Some(s) => s - 1,
                    None => last,
                }].duration,
            ),
        };
        let first = Node { entries_start: start as usize, entries_end: (last + 1) as usize, consonant, vowel };
        let later = Seq::new(
            (moras.len() - 1) as nat,
            |j: int|
                Node {
                    entries_start: (start + phonemes_before(moras, j + 1)) as usize,
                    entries_end: (start + phonemes_before(moras, j + 2)) as usize,
                    consonant: 0,
                    vowel: output[start + phonemes_before(moras, j + 1)].duration,
                },
        );
        let long = match long_start {
            Some(s) => seq![Node { entries_start: s, entries_end: count as usize, consonant: 0, vowel: output[s as int].duration }],
            None => Seq::empty(),
        };
        seq![first] + later + long
    }

    /// Appends the nodes of kana `index` whose entries run from `start`: its first
    /// mora, each later mora, and a long-vowel mark.
    #[verifier::rlimit(60)]
    fn push_nodes(
        &self,
        index: usize,
        analysis: &mut Analysis,
        start: usize,
        long_start: Option<usize>,
        devoiced: Option<(i32, i32)>,
        layout: &MoraLayout,
    )
        requires
            self.wf(),
            index < self.context.kana@.len(),
            layout.wf(&self.lexicon.kana@[self.context.kana@[index as int] as int]),
            self.lexicon.kana@[self.context.kana@[index as int] as int].moras@.len() >= 1,
            start + layout.ids@.len() <= old(analysis).output@.len(),
            long_start matches Some(s) ==> s == start + self.lexicon.kana@[self.context.kana@[index as int] as int].moras@[0].phonemes@.len()
                && s < old(analysis).output@.len(),
            old(analysis).wf(),
            forall|i: int| 0 <= i < old(analysis).nodes@.len() ==> #[trigger] old(analysis).nodes@[i].entries_start < start,
        ensures
            final(analysis).wf(),
            final(analysis).output@ == old(analysis).output@,
            final(analysis).multi_pitch@ == old(analysis).multi_pitch@,
            final(analysis).nodes@ == old(analysis).nodes@ + self.kana_nodes(
                index as int,
                old(analysis).output@,
                start as int,
                long_start,
                devoiced,
            ),
            final(analysis).node_kana@ == old(analysis).node_kana@ + Seq::new(
                self.kana_nodes(index as int, old(analysis).output@, start as int, long_start, devoiced).len(),
                |i: int| index,
            ),
    {
        let lexicon = self.lexicon;
        let k = self.context.kana[index];
        let token = &lexicon.kana[k];
        let first_len = token.moras[0].phonemes.len();
        let count = analysis.output.len();
        proof {
            assert(analysable(lexicon, self.tables));
            assert(token.moras@[0].phonemes@.len() >= 1);
            assert(layout.ids@.len() >= first_len);
        }
        let last = if start + first_len - 1 < count - 1 {
            start + first_len - 1
        } else {
            count - 1
        };
        let (consonant, vowel) = match devoiced {
            Some(durations) => durations,
            None => {
                let consonant = if count > start + 1 {
                    analysis.output[start].duration
                } else {
                    0
                };
                let vowel_at = match long_start {
                    Some(s) => s - 1,
                    None => last,
                };
                (consonant, analysis.output[vowel_at].duration)
            },
        };
        let first_node = Node { entries_start: start, entries_end: last + 1, consonant, vowel };
        let ghost all_nodes = self.kana_nodes(index as int, old(analysis).output@, start as int, long_start, devoiced);
        assert(all_nodes[0] == first_node);
        let ghost before = analysis.nodes@;
        proof {
            assert forall|i: int| 0 <= i < before.len() implies #[trigger] before[i].entries_start <= first_node.entries_end by {
            }
            lemma_nodes_push(before, first_node, count as int);
        }
        analysis.nodes.push(first_node);
        analysis.node_kana.push(index);
        assert(analysis.node_kana@ =~= old(analysis).node_kana@ + Seq::new(1, |i: int| index));
        assert(all_nodes.subrange(1, 1) =~= Seq::<Node>::empty());
        assert(analysis.nodes@ =~= old(analysis).nodes@ + seq![first_node] + all_nodes.subrange(1, 1));
        let mut next = start + first_len;
        proof {
            assert(phonemes_before(token.moras@, 0) == 0);
            assert(phonemes_before(token.moras@, 1) == first_len);
        }
        let mut m: usize = 1;
        while m < token.moras.len()
            invariant
                self.wf(),
                lexicon == self.lexicon,
                k < lexicon.kana@.len(),
                *token == lexicon.kana@[k as int],
                analysable(lexicon, self.tables),
                layout.wf(token),
                1 <= m <= token.moras@.len(),
                next == start + phonemes_before(token.moras@, m as int),
                start + layout.ids@.len() <= count == analysis.output@.len(),
                analysis.wf(),
                analysis.output@ == old(analysis).output@,
                forall|i: int| 0 <= i < analysis.nodes@.len() ==> #[trigger] analysis.nodes@[i].entries_start <= next,
                analysis.multi_pitch@ == old(analysis).multi_pitch@,
                k == self.context.kana@[index as int],
                index < self.context.kana@.len(),
                analysis.nodes@ == old(analysis).nodes@ + seq![first_node] + all_nodes.subrange(1, m as int),
                analysis.node_kana@ == old(analysis).node_kana@ + Seq::new(m as nat, |i: int| index),
                all_nodes.len() >= token.moras@.len(),
                all_nodes == self.kana_nodes(index as int, old(analysis).output@, start as int, long_start, devoiced),
            decreases token.moras@.len() - m,
        {
            proof {
                lemma_phonemes_before_monotone(token.moras@, m + 1, token.moras@.len() as int);
                assert(token.moras@[m as int].phonemes@.len() >= 1);
                assert(phonemes_before(token.moras@, m + 1) == phonemes_before(token.moras@, m as int) + token.moras@[m as int].phonemes@.len());
            }
            let mora_len = token.moras[m].phonemes.len();
            let end = if next + mora_len < count {
                next + mora_len
            } else {
                count
            };
            let node = Node { entries_start: next, entries_end: end, consonant: 0, vowel: analysis.output[next].duration };
            let ghost before = analysis.nodes@;
            proof {
                lemma_nodes_push(before, node, count as int);
            }
            analysis.nodes.push(node);
            analysis.node_kana.push(index);
            next = end;
            proof {
                assert(next == start + phonemes_before(token.moras@, m + 1));
                assert(all_nodes[m as int] == node);
                assert(all_nodes.subrange(1, m + 1) =~= all_nodes.subrange(1, m as int).push(node));
                assert(analysis.node_kana@ =~= old(analysis).node_kana@ + Seq::new((m + 1) as nat, |i: int| index));
            }
            m += 1;
        }
        if let Some(s) = long_start {
            let node = Node { entries_start: s, entries_end: count, consonant: 0, vowel: analysis.output[s].duration };
            let ghost before = analysis.nodes@;
            proof {
                assert forall|i: int| 0 <= i < before.len() implies #[trigger] before[i].entries_start <= node.entries_end by {
                    assert(before[i].entries_start < before[i].entries_end);
                }
                lemma_nodes_push(before, node, count as int);
            }
            analysis.nodes.push(node);
            analysis.node_kana.push(index);
            assert(all_nodes.len() == m + 1);
            assert(all_nodes[m as int] == node);
            assert(analysis.nodes@ =~= old(analysis).nodes@ + all_nodes);
            assert(analysis.node_kana@ =~= old(analysis).node_kana@ + Seq::new(all_nodes.len(), |i: int| index));
        } else {
            assert(all_nodes.len() == m);
            assert(analysis.nodes@ =~= old(analysis).nodes@ + all_nodes);
        }
    }
}

} // verus!

verus! {

/// The analysis parts as values: entries, nodes, node kana and pending pitches.
pub open spec fn parts_of(analysis: &Analysis) -> (Seq<Entry>, Seq<Node>, Seq<usize>, Seq<(usize, i32)>) {
    (analysis.output@, analysis.nodes@, analysis.node_kana@, analysis.multi_pitch@)
}

impl<'a> Phrasing<'a> {
    /// The analysis parts after kana `index` of one or more moras, laid out by
    /// `layout`: its phonemes, a repeated vowel for a lengthened reading, the vowel
    /// amplitudes, a pending first-mora pitch, devoicing, its nodes and the geminate
    /// mark.
    #[verifier::opaque]
    pub open spec fn kana_appended(
        &self,
        index: int,
        layout: &MoraLayout,
        parts: (Seq<Entry>, Seq<Node>, Seq<usize>, Seq<(usize, i32)>),
    ) -> (Seq<Entry>, Seq<Node>, Seq<usize>, Seq<(usize, i32)>) {
        let (output, nodes, node_kana, multi_pitch) = parts;
        let token = self.lexicon.kana@[self.context.kana@[index] as int];
        let start = output.len() as int;
        let first_len = token.moras@[0].phonemes@.len() as int;
        let timed = output + Seq::new(layout.ids@.len(), |p: int| self.phoneme_entry(index, layout, output, p));
        let lengthen = token.long_marker_spec() && timed.len() > start;
        let grown = if lengthen {
            let last = timed.last();
            let phoneme = last.phoneme;
            let vowel_context = VowelContext {
                left: (phoneme - 1) as i32,
                vowel: (phoneme - 1) as i32,
                right: next_vowel_spec(self.lexicon, self.context.kana@, index, seq![phoneme], 0),
                position: self.position_at(index, 1),
            };
            timed.push(
                new_entry(
                    phoneme,
                    vowel_context.duration_of(self.tables, self.speed) as i32,
                    vowel_context.duration_of(self.tables, 100) as i32,
                    last.amplitude,
                    last.pitch,
                ),
            )
        } else {
            timed
        };
        let long_start: Option<usize> = if lengthen {
            Some((start + first_len) as usize)
        } else {
            None
        };
        let voiced = self.amplitudes_set(index, layout, start, long_start, grown);
        let pending = if token.moras@.len() > 1 {
            multi_pitch.push(((start + first_len - 1) as usize, token.moras@[0].pitch))
        } else {
            multi_pitch
        };
        let devoicing = voiced.len() > start + 1 && self.context.devoiced@.contains(index as usize);
        let devoiced_output = if devoicing {
            self.devoiced(voiced, start).0
        } else {
            voiced
        };
        let durations: Option<(i32, i32)> = if devoicing {
            Some(self.devoiced(voiced, start).1)
        } else {
            None
        };
        let added = self.kana_nodes(index, devoiced_output, start, long_start, durations);
        let marked = if self.context.geminates@.contains(index as usize) {
            Seq::new(
                devoiced_output.len(),
                |e: int|
                    if e >= start {
                        Entry { follows_geminate: true, ..devoiced_output[e] }
                    } else {
                        devoiced_output[e]
                    },
            )
        } else {
            devoiced_output
        };
        (marked, nodes + added, node_kana + Seq::new(added.len(), |i: int| index as usize), pending)
    }

    /// Appends the entries and nodes of kana `index`.
    #[verifier::rlimit(60)]
    fn append_kana(&self, index: usize, analysis: &mut Analysis)
        requires
            self.wf(),
            index < self.context.kana@.len(),
            old(analysis).wf(),
        ensures
            final(analysis).wf(),
            self.lexicon.kana@[self.context.kana@[index as int] as int].moras@.len() == 0 ==> {
                let (output, nodes) = if self.lexicon.kana@[self.context.kana@[index as int] as int].text@ == seq![LONG_MARK] {
                    self.long_mark_appended(index as int, old(analysis).output@, old(analysis).nodes@)
                } else {
                    (old(analysis).output@, old(analysis).nodes@)
                };
                parts_of(final(analysis)) == (output, nodes, old(analysis).node_kana@.push(index), old(analysis).multi_pitch@)
            },
            self.lexicon.kana@[self.context.kana@[index as int] as int].moras@.len() > 0 ==> exists|layout: MoraLayout|
                #[trigger] layout.of(&self.lexicon.kana@[self.context.kana@[index as int] as int])
                    && parts_of(final(analysis)) == self.kana_appended(index as int, &layout, parts_of(old(analysis))),
    {
        let lexicon = self.lexicon;
        let context = self.context;
        let k = context.kana[index];
        let token = &lexicon.kana[k];
        let start = analysis.output.len();
        if token.moras.len() == 0 {
            if is_long_mark(lexicon, k) {
                self.append_long_mark(index, analysis);
            }
            analysis.node_kana.push(index);
            return;
        }
        let first_len = token.moras[0].phonemes.len();
        let layout = MoraLayout::new(lexicon, self.tables, k);
        let ghost initial = parts_of(analysis);
        let ghost expected = self.kana_appended(index as int, &layout, initial);
        proof {
            reveal(Phrasing::kana_appended);
        }
        let ghost nodes_before = analysis.nodes@;
        self.append_phonemes(index, &mut analysis.output, &layout);
        let appended = analysis.output.len();
        proof {
            assert(analysable(lexicon, self.tables));
            assert(token.moras@[0].phonemes@.len() >= 1);
            assert(layout.ids@.len() >= first_len);
            lemma_nodes_grow(nodes_before, start as int, analysis.output@.len() as int);
        }
        let mut long_start: Option<usize> = None;
        if token.long_marker() && analysis.output.len() > start {
            let count = analysis.output.len();
            let last = analysis.output[count - 1];
            let phoneme = last.phoneme;
            let mut single: Vec<usize> = Vec::new();
            single.push(phoneme);
            assert(single@ =~= seq![phoneme]);
            let vowel_context = VowelContext {
                left: phoneme as i32 - 1,
                vowel: phoneme as i32 - 1,
                right: next_vowel(lexicon, &context.kana, index, &single, 0),
                position: self.position(index, 1),
            };
            analysis.output.push(
                entry(
                    phoneme,
                    vowel_context.duration(self.tables, self.speed),
                    vowel_context.duration(self.tables, 100),
                    last.amplitude,
                    last.pitch,
                ),
            );
            proof {
                lemma_nodes_grow(nodes_before, start as int, analysis.output@.len() as int);
            }
            long_start = Some(start + first_len);
        }
        let ghost grown = analysis.output@;
        self.set_amplitudes(index, &mut analysis.output, start, long_start, &layout);
        proof {
            assert forall|i: int| 0 <= i < analysis.output@.len() implies #[trigger] analysis.output@[i].phoneme
                < crate::utterance::PHONEME_COUNT by {
                assert(analysis.output@[i] == with_amplitude(grown[i], analysis.output@[i].amplitude));
            }
        }
        if token.moras.len() > 1 {
            assert(start + first_len - 1 < appended);
            analysis.multi_pitch.push((start + first_len - 1, token.moras[0].pitch));
        }
        let mut devoiced: Option<(i32, i32)> = None;
        if analysis.output.len() > start + 1 && contains_index(&context.devoiced, index) {
            devoiced = Some(self.devoice(&mut analysis.output, start));
        }
        self.push_nodes(index, analysis, start, long_start, devoiced, &layout);
        let ghost unmarked = analysis.output@;
        if contains_index(&context.geminates, index) {
            let mut e = start;
            while e < analysis.output.len()
                invariant
                    start <= e,
                    analysis.wf(),
                    analysis.output@.len() == unmarked.len(),
                    analysis.nodes@ == expected.1,
                    analysis.node_kana@ == expected.2,
                    analysis.multi_pitch@ == expected.3,
                    forall|i: int|
                        0 <= i < unmarked.len() ==> #[trigger] analysis.output@[i] == if start <= i < e {
                            Entry { follows_geminate: true, ..unmarked[i] }
                        } else {
                            unmarked[i]
                        },
                decreases analysis.output@.len() - e,
            {
                let marked = Entry { follows_geminate: true, ..analysis.output[e] };
                analysis.output.set(e, marked);
                e += 1;
            }
            assert(analysis.output@ =~= expected.0);
        }
        assert(layout.of(&lexicon.kana@[k as int]));
        assert(parts_of(analysis) == expected);
    }
}

} // verus!

verus! {

/// Division rounding toward zero by a nonzero divisor, negating in wrapping arithmetic.
pub open spec fn quotient_toward_zero_spec(numerator: i64, divisor: i64) -> i64 {
    if divisor > 0 {
        truncating_div(numerator as int, divisor as int) as i64
    } else {
        0i64.wrapping_sub(truncating_div(numerator as int, -divisor) as i64)
    }
}

fn quotient_toward_zero(numerator: i64, divisor: i64) -> (result: i64)
    requires
        divisor != 0,
        divisor > i64::MIN,
    ensures
        result == quotient_toward_zero_spec(numerator, divisor),
{
    if divisor > 0 {
        super::accent::divide_toward_zero(numerator, divisor)
    } else {
        let q = super::accent::divide_toward_zero(numerator, -divisor);
        0i64.wrapping_sub(q)
    }
}

/// A duration shortened to four fifths `times` times.
pub open spec fn shortened(duration: i32, times: int) -> i32
    decreases times,
{
    if times <= 0 {
        duration
    } else {
        four_fifths_spec(shortened(duration, times - 1))
    }
}

fn shorten(duration: i32, times: i32) -> (result: i32)
    ensures
        result == shortened(duration, times as int),
{
    let mut result = duration;
    let mut q: i32 = 0;
    while q < times
        invariant
            q >= 0,
            q <= times || q == 0,
            result == shortened(duration, q as int),
        decreases times - q,
    {
        result = four_fifths(result);
        q += 1;
    }
    assert(shortened(duration, 0) == duration);
    result
}

/// Four fifths of a duration, rounded toward zero.
pub open spec fn four_fifths_spec(duration: i32) -> i32 {
    truncating_div(duration * 4, 5) as i32
}

fn four_fifths(duration: i32) -> (result: i32)
    ensures
        result == four_fifths_spec(duration),
{
    super::accent::divide_toward_zero(duration as i64 * 4, 5) as i32
}

/// The highest pitch among the last entries of the first `n` nodes.
pub open spec fn peak_pitch(entries: Seq<Entry>, nodes: Seq<Node>, n: int) -> i32
    decreases n,
{
    if n <= 0 {
        i32::MIN
    } else {
        let peak = peak_pitch(entries, nodes, n - 1);
        let pitch = entries[nodes[n - 1].entries_end - 1].pitch;
        if pitch > peak {
            pitch
        } else {
            peak
        }
    }
}

/// The question marks among the first `c` characters, at most three.
pub open spec fn question_count(ending: Seq<char>, c: int) -> i32
    decreases c,
{
    if c <= 0 {
        0
    } else {
        let questions = question_count(ending, c - 1);
        if ending[c - 1] == QUESTION && questions < 3 {
            (questions + 1) as i32
        } else {
            questions
        }
    }
}

/// The entries with a sentence ending marked on the last mora.
pub open spec fn ended(entries: Seq<Entry>, nodes: Seq<Node>, ending: Seq<char>) -> Seq<Entry> {
    if nodes.len() == 0 || ending.len() == 0 {
        entries
    } else {
        let peak = peak_pitch(entries, nodes, nodes.len() as int);
        let questions = question_count(ending, ending.len() as int);
        let at = nodes.last().entries_end - 1;
        let mora_end = entries[at];
        let last = if ending.contains(EXCLAMATION) {
            Entry {
                duration: four_fifths_spec(mora_end.duration),
                amplitude: mora_end.amplitude.wrapping_add(30),
                pitch: mora_end.pitch.wrapping_add(100),
                ..mora_end
            }
        } else {
            mora_end
        };
        if questions > 0 {
            let third = truncating_div(peak.wrapping_sub(last.pitch) as int, 3) as i32;
            let candidate = last.pitch.wrapping_add(third);
            let quieter = last.amplitude.wrapping_sub(90);
            let short = Entry { duration: shortened(last.duration, questions as int), ..last };
            let duplicate = Entry {
                duration: truncating_div(last.duration as int, 2) as i32,
                amplitude: if quieter > 0 {
                    quieter
                } else {
                    0
                },
                pitch: candidate.wrapping_add((110 * questions) as i32),
                secondary_pitch: 0,
                no_merge: true,
                ..short
            };
            entries.update(at, Entry { pitch: candidate.wrapping_sub((110 * questions) as i32), ..short }).push(
                duplicate,
            )
        } else {
            entries.update(at, last)
        }
    }
}

/// Marks a sentence ending on the phrase's last mora: an exclamation shortens it and
/// raises its amplitude and pitch; questions (up to three) shorten it further, lower
/// it and append a raised, quieter copy that is never merged.
#[verifier::rlimit(60)]
fn sentence_ending(entries: &mut Vec<Entry>, nodes: &Vec<Node>, ending: &Vec<char>)
    requires
        entries_wf(old(entries)@),
        nodes_fit(nodes@, old(entries)@.len() as int),
    ensures
        entries_wf(final(entries)@),
        old(entries)@.len() <= final(entries)@.len() <= old(entries)@.len() + 1,
        forall|i: int|
            0 <= i < old(entries)@.len() ==> (#[trigger] final(entries)@[i]).phoneme == old(entries)@[i].phoneme
                && final(entries)@[i].accent_pitch == old(entries)@[i].accent_pitch,
        final(entries)@ == ended(old(entries)@, nodes@, ending@),
{
    if nodes.len() == 0 || ending.len() == 0 {
        return;
    }
    let mut peak: i32 = i32::MIN;
    let mut n: usize = 0;
    while n < nodes.len()
        invariant
            n <= nodes@.len(),
            nodes_fit(nodes@, entries@.len() as int),
            peak == peak_pitch(entries@, nodes@, n as int),
        decreases nodes@.len() - n,
    {
        assert(nodes@[n as int].entries_start < nodes@[n as int].entries_end);
        assert(nodes@[n as int].entries_end <= entries@.len());
        let pitch = entries[nodes[n].entries_end - 1].pitch;
        if pitch > peak {
            peak = pitch;
        }
        n += 1;
    }
    let mut exclaimed = false;
    let mut questions: i32 = 0;
    let mut c: usize = 0;
    while c < ending.len()
        invariant
            c <= ending@.len(),
            0 <= questions <= 3,
            questions == question_count(ending@, c as int),
            exclaimed == ending@.take(c as int).contains(EXCLAMATION),
        decreases ending@.len() - c,
    {
        proof {
            let before = ending@.take(c as int);
            let after = ending@.take(c + 1);
            assert(after =~= before.push(ending@[c as int]));
            if ending@[c as int] == EXCLAMATION {
                assert(after[c as int] == EXCLAMATION);
            }
            if after.contains(EXCLAMATION) && ending@[c as int] != EXCLAMATION {
                let j = choose|j: int| 0 <= j < after.len() && after[j] == EXCLAMATION;
                assert(before[j] == EXCLAMATION);
            }
            if before.contains(EXCLAMATION) {
                let j = choose|j: int| 0 <= j < before.len() && before[j] == EXCLAMATION;
                assert(after[j] == EXCLAMATION);
            }
        }
        if ending[c] == EXCLAMATION {
            exclaimed = true;
        }
        if ending[c] == QUESTION && questions < 3 {
            questions += 1;
        }
        c += 1;
    }
    assert(ending@.take(c as int) =~= ending@);
    let node = nodes[nodes.len() - 1];
    assert(nodes@[nodes@.len() - 1].entries_start < nodes@[nodes@.len() - 1].entries_end);
    assert(nodes@[nodes@.len() - 1].entries_end <= entries@.len());
    let at = node.entries_end - 1;
    let mut last = entries[at];
    if exclaimed {
        last.duration = four_fifths(last.duration);
        last.amplitude = last.amplitude.wrapping_add(30);
        last.pitch = last.pitch.wrapping_add(100);
    }
    if questions > 0 {
        let duration = last.duration;
        let amplitude = last.amplitude;
        last.duration = shorten(last.duration, questions);
        let third = super::accent::divide_toward_zero(peak.wrapping_sub(last.pitch) as i64, 3) as i32;
        let candidate = last.pitch.wrapping_add(third);
        let quieter = amplitude.wrapping_sub(90);
        let duplicate = Entry {
            duration: super::accent::divide_toward_zero(duration as i64, 2) as i32,
            amplitude: if quieter > 0 {
                quieter
            } else {
                0
            },
            pitch: candidate.wrapping_add(110 * questions),
            secondary_pitch: 0,
            no_merge: true,
            ..last
        };
        last.pitch = candidate.wrapping_sub(110 * questions);
        entries.set(at, last);
        entries.push(duplicate);
    } else {
        entries.set(at, last);
    }
}

/// The entries with `current` appended, or merged into an identical preceding
/// vowel that has not absorbed one yet unless it is marked unmergeable.
pub open spec fn merge_step(merged: Seq<Entry>, current: Entry) -> Seq<Entry> {
    if merged.len() > 0 {
        let last = merged.last();
        let absorbed = if last.merged > 1 {
            last.merged
        } else {
            1
        };
        if last.phoneme == current.phoneme && 1 <= current.phoneme <= 5 && !current.no_merge && absorbed < 2 {
            let sum = last.duration.wrapping_add(current.duration);
            merged.update(
                merged.len() - 1,
                Entry {
                    duration: if sum < 32767 {
                        sum
                    } else {
                        32767
                    },
                    merged: (absorbed + 1) as usize,
                    secondary_pitch: if current.pitch != 0 {
                        current.pitch
                    } else {
                        last.secondary_pitch
                    },
                    ..last
                },
            )
        } else {
            merged.push(current)
        }
    } else {
        merged.push(current)
    }
}

/// The first `i` entries with identical vowels merged.
pub open spec fn merged_vowels(entries: Seq<Entry>, i: int) -> Seq<Entry>
    decreases i,
{
    if i <= 0 {
        Seq::empty()
    } else {
        merge_step(merged_vowels(entries, i - 1), entries[i - 1])
    }
}

/// The entries with entry `index` given a pitch interpolated between its
/// neighbours when it has none and follows a voiced entry.
pub open spec fn interpolate_step(merged: Seq<Entry>, index: int) -> Seq<Entry> {
    let previous = merged[index - 1];
    let current = merged[index];
    let next = merged[index + 1];
    let denominator = next.duration.wrapping_add(previous.duration).wrapping_add(2i32.wrapping_mul(current.duration));
    if current.pitch == 0 && previous.phoneme != 0 && denominator != 0 {
        let span = previous.duration.wrapping_add(current.duration) as int;
        let fall = previous.pitch.wrapping_sub(next.pitch) as int;
        let step = quotient_toward_zero_spec((span * fall) as i64, denominator as i64);
        merged.update(index, Entry { pitch: next.pitch.wrapping_add(step as i32), ..current })
    } else {
        merged
    }
}

/// The entries after interpolating entries `1..index`, in order.
pub open spec fn interpolated(merged: Seq<Entry>, index: int) -> Seq<Entry>
    decreases index,
{
    if index <= 1 {
        merged
    } else {
        interpolate_step(interpolated(merged, index - 1), index - 1)
    }
}

/// The entries merged, interpolated and closed with a pause and the end mark.
pub open spec fn merged_and_closed(entries: Seq<Entry>) -> Seq<Entry> {
    let merged = merged_vowels(entries, entries.len() as int);
    let smooth = if merged.len() >= 2 {
        interpolated(merged, merged.len() - 1)
    } else {
        merged
    };
    smooth.push(new_entry(0, 1000, 1000, 0, 0)).push(new_entry(7, 0, 0, 0, 0))
}

/// Merges a vowel into an identical preceding vowel that has not absorbed one yet,
/// unless it is marked unmergeable; fills each unpitched entry with a pitch
/// interpolated between its neighbours; and closes the phrase with a pause and the
/// end mark.
#[verifier::rlimit(60)]
fn merge_vowels_and_interpolate(output: Vec<Entry>) -> (merged: Vec<Entry>)
    requires
        entries_wf(output@),
    ensures
        entries_wf(merged@),
        2 <= merged@.len() <= output@.len() + 2,
        merged@[merged@.len() - 2] == new_entry(0, 1000, 1000, 0, 0),
        merged@[merged@.len() - 1] == new_entry(7, 0, 0, 0, 0),
        merged@ == merged_and_closed(output@),
{
    let mut merged: Vec<Entry> = Vec::new();
    let mut i: usize = 0;
    while i < output.len()
        invariant
            entries_wf(output@),
            entries_wf(merged@),
            i <= output@.len(),
            merged@.len() <= i,
            merged@ == merged_vowels(output@, i as int),
        decreases output@.len() - i,
    {
        let current = output[i];
        i += 1;
        let count = merged.len();
        if count > 0 {
            let last = merged[count - 1];
            let absorbed = if last.merged > 1 {
                last.merged
            } else {
                1
            };
            if last.phoneme == current.phoneme && 1 <= current.phoneme && current.phoneme <= 5 && !current.no_merge
                && absorbed < 2 {
                let sum = last.duration.wrapping_add(current.duration);
                let combined = Entry {
                    duration: if sum < 32767 {
                        sum
                    } else {
                        32767
                    },
                    merged: absorbed + 1,
                    secondary_pitch: if current.pitch != 0 {
                        current.pitch
                    } else {
                        last.secondary_pitch
                    },
                    ..last
                };
                merged.set(count - 1, combined);
                continue;
            }
        }
        merged.push(current);
    }
    let count = merged.len();
    let ghost combined = merged@;
    if count >= 2 {
        let mut index: usize = 1;
        while index < count - 1
            invariant
                count == merged@.len() == combined.len(),
                count >= 2,
                1 <= index <= count - 1,
                entries_wf(merged@),
                merged@ == interpolated(combined, index as int),
            decreases count - 1 - index,
        {
            if merged[index].pitch == 0 && merged[index - 1].phoneme != 0 {
                let previous = merged[index - 1];
                let current = merged[index];
                let next = merged[index + 1];
                let denominator = next.duration.wrapping_add(previous.duration).wrapping_add(
                    2i32.wrapping_mul(current.duration),
                );
                if denominator != 0 {
                    let span = previous.duration.wrapping_add(current.duration) as i64;
                    let fall = previous.pitch.wrapping_sub(next.pitch) as i64;
                    assert(-0x4000_0000_0000_0000 <= span * fall <= 0x4000_0000_0000_0000) by (nonlinear_arith)
                        requires
                            -0x8000_0000 <= span <= 0x7fff_ffff,
                            -0x8000_0000 <= fall <= 0x7fff_ffff;
                    let numerator = span * fall;
                    let step = quotient_toward_zero(numerator, denominator as i64);
                    let interpolated = Entry { pitch: next.pitch.wrapping_add(step as i32), ..current };
                    merged.set(index, interpolated);
                }
            }
            index += 1;
        }
    }
    merged.push(entry(0, 1000, 1000, 0, 0));
    merged.push(entry(7, 0, 0, 0, 0));
    merged
}

} // verus!

verus! {

/// The first node from `p` on whose kana is at or after `bound`, or the node count.
pub open spec fn node_at(node_kana: Seq<usize>, bound: int, p: int) -> int
    decreases node_kana.len() - p,
{
    if 0 <= p < node_kana.len() && node_kana[p] < bound {
        node_at(node_kana, bound, p + 1)
    } else {
        p
    }
}

/// The first node whose kana is at or after `bound`, or the node count.
fn to_node(node_kana: &Vec<usize>, bound: usize) -> (result: usize)
    ensures
        result <= node_kana@.len(),
        result == node_at(node_kana@, bound as int, 0),
{
    let mut p: usize = 0;
    while p < node_kana.len()
        invariant
            p <= node_kana@.len(),
            node_at(node_kana@, bound as int, p as int) == node_at(node_kana@, bound as int, 0),
        decreases node_kana@.len() - p,
    {
        if node_kana[p] >= bound {
            return p;
        }
        p += 1;
    }
    node_kana.len()
}

/// Whether a list of characters holds a character.
fn holds(text: &Vec<char>, c: char) -> (result: bool)
    ensures
        result == text@.contains(c),
{
    let mut i: usize = 0;
    while i < text.len()
        invariant
            i <= text@.len(),
            forall|j: int| 0 <= j < i ==> text@[j] != c,
        decreases text@.len() - i,
    {
        if text[i] == c {
            return true;
        }
        i += 1;
    }
    false
}

impl<'a> Phrasing<'a> {
    /// The breaks that delimit nasal words: the accent groups, or the word breaks
    /// when there are none.
    pub open spec fn nasal_breaks(options: &AnalysisOptions) -> Seq<usize> {
        if options.accent_groups@.len() == 0 {
            options.word_breaks@
        } else {
            options.accent_groups@
        }
    }

    /// Whether the kana from `previous` to `bound` open nasally.
    pub open spec fn opens_nasally(&self, previous: int, bound: int) -> bool {
        let kana = self.context.kana@;
        let pair = previous <= bound && moraic_pair_spec(self.lexicon, kana, previous, bound);
        let geminate = previous < usize::MAX && self.context.geminates@.contains((previous + 1) as usize);
        let lengthened = previous < bound && self.lexicon.kana@[kana[previous] as int].text@ != seq![LONG_MARK]
            && reading_lengthened_spec(self.lexicon, kana[previous]);
        pair || geminate || lengthened
    }

    /// The nasal flags of the words from break `b` on, the previous bound at `previous`.
    pub open spec fn nasal_flags(&self, breaks: Seq<usize>, b: int, previous: int) -> Seq<bool>
        decreases breaks.len() + 1 - b,
    {
        if b < 0 || b > breaks.len() {
            Seq::empty()
        } else {
            let count = self.context.kana@.len() as int;
            let requested = if b < breaks.len() {
                breaks[b] as int
            } else {
                count
            };
            let bound = if requested < count {
                requested
            } else {
                count
            };
            seq![self.opens_nasally(previous, bound)] + self.nasal_flags(breaks, b + 1, bound)
        }
    }

    /// Whether each word or accent group opens nasally: with a moraic pair, a
    /// geminate second kana, or a lengthened reading.
    #[verifier::rlimit(60)]
    fn nasal_words(&self, options: &AnalysisOptions) -> (nasal_words: Vec<bool>)
        requires
            self.wf(),
        ensures
            nasal_words@ == self.nasal_flags(Self::nasal_breaks(options), 0, 0),
    {
        let lexicon = self.lexicon;
        let context = self.context;
        let kana = &context.kana;
        let count = kana.len();
        let breaks = if options.accent_groups.len() == 0 {
            &options.word_breaks
        } else {
            &options.accent_groups
        };
        let mut nasal_words: Vec<bool> = Vec::new();
        let mut previous: usize = 0;
        let mut b: usize = 0;
        let total = breaks.len();
        loop
            invariant_except_break
                nasal_words@ + self.nasal_flags(breaks@, b as int, previous as int) == self.nasal_flags(
                    breaks@,
                    0,
                    0,
                ),
            invariant
                self.wf(),
                lexicon == self.lexicon,
                context == self.context,
                kana@ == context.kana@,
                count == kana@.len(),
                total == breaks@.len(),
                b <= total,
                previous <= count,
                breaks@ == Self::nasal_breaks(options),
            ensures
                nasal_words@ == self.nasal_flags(breaks@, 0, 0),
            decreases total - b,
        {
            let requested = if b < total {
                breaks[b]
            } else {
                count
            };
            let bound = if requested < count {
                requested
            } else {
                count
            };
            // The parser gives its breaks in order; a break before the previous one
            // spans no kana.
            let pair = previous <= bound && moraic_pair(lexicon, kana, previous, bound);
            let geminate = previous < usize::MAX && contains_index(&context.geminates, previous + 1);
            let lengthened = previous < bound && !is_long_mark(lexicon, kana[previous]) && reading_lengthened(
                lexicon,
                kana[previous],
            );
            proof {
                let rest = self.nasal_flags(breaks@, b + 1, bound as int);
                assert(self.nasal_flags(breaks@, b as int, previous as int) == seq![pair || geminate || lengthened]
                    + rest);
                assert(nasal_words@.push(pair || geminate || lengthened) + rest =~= nasal_words@
                    + self.nasal_flags(breaks@, b as int, previous as int));
            }
            nasal_words.push(pair || geminate || lengthened);
            previous = bound;
            if b == total {
                assert(self.nasal_flags(breaks@, b + 1, previous as int) =~= Seq::empty());
                assert(nasal_words@ =~= nasal_words@ + Seq::<bool>::empty());
                break;
            }
            b += 1;
        }
        nasal_words
    }
}

/// The runs from bound `b` on, the previous run ending at node `previous`.
pub open spec fn node_runs(node_kana: Seq<usize>, bounds: Seq<usize>, node_count: int, b: int, previous: int) -> Seq<(usize, usize)>
    decreases bounds.len() + 1 - b,
{
    if b < 0 || b > bounds.len() {
        Seq::empty()
    } else {
        let requested = if b < bounds.len() {
            bounds[b] as int
        } else {
            node_count
        };
        let found = node_at(node_kana, requested, 0);
        let bound = if found < node_count {
            found
        } else {
            node_count
        };
        if bound > previous {
            seq![(previous as usize, bound as usize)] + node_runs(node_kana, bounds, node_count, b + 1, bound)
        } else {
            node_runs(node_kana, bounds, node_count, b + 1, previous)
        }
    }
}

/// Consecutive runs of nodes cut at the given kana bounds and at the node count,
/// empty runs left out.
#[verifier::rlimit(60)]
fn runs(node_kana: &Vec<usize>, bounds: &Vec<usize>, node_count: usize) -> (result: Vec<(usize, usize)>)
    ensures
        forall|g: int| 0 <= g < result@.len() ==> #[trigger] result@[g].0 < result@[g].1 <= node_count,
        result@ == node_runs(node_kana@, bounds@, node_count as int, 0, 0),
{
    let mut result: Vec<(usize, usize)> = Vec::new();
    let mut previous: usize = 0;
    let mut b: usize = 0;
    let total = bounds.len();
    loop
        invariant_except_break
            result@ + node_runs(node_kana@, bounds@, node_count as int, b as int, previous as int) == node_runs(
                node_kana@,
                bounds@,
                node_count as int,
                0,
                0,
            ),
        invariant
            total == bounds@.len(),
            b <= total,
            forall|g: int| 0 <= g < result@.len() ==> #[trigger] result@[g].0 < result@[g].1 <= node_count,
        ensures
            forall|g: int| 0 <= g < result@.len() ==> #[trigger] result@[g].0 < result@[g].1 <= node_count,
            result@ == node_runs(node_kana@, bounds@, node_count as int, 0, 0),
        decreases total - b,
    {
        let requested = if b < total {
            bounds[b]
        } else {
            node_count
        };
        let found = to_node(node_kana, requested);
        // A bound past the last node describes no further mora.
        let bound = if found < node_count {
            found
        } else {
            node_count
        };
        let ghost rest = node_runs(node_kana@, bounds@, node_count as int, b + 1, if bound > previous {
            bound as int
        } else {
            previous as int
        });
        if bound > previous {
            let ghost before = result@;
            result.push((previous, bound));
            assert forall|g: int| 0 <= g < result@.len() implies #[trigger] result@[g].0 < result@[g].1 <= node_count by {
                if g < before.len() {
                    assert(result@[g] == before[g]);
                }
            }
            assert(before + (seq![(previous, bound)] + rest) =~= result@ + rest);
            previous = bound;
        }
        if b == total {
            assert(rest =~= Seq::empty());
            assert(result@ + rest =~= result@);
            break;
        }
        b += 1;
    }
    result
}

/// The entries with the first-mora pitch restored on the first `m` pending entries
/// that carry no accent pitch.
pub open spec fn restored(entries: Seq<Entry>, pending: Seq<(usize, i32)>, m: int) -> Seq<Entry>
    decreases m,
{
    if m <= 0 {
        entries
    } else {
        let previous = restored(entries, pending, m - 1);
        let (index, pitch) = pending[m - 1];
        if !previous[index as int].accent_pitch {
            previous.update(index as int, Entry { pitch, secondary_pitch: 0, ..previous[index as int] })
        } else {
            previous
        }
    }
}

/// The mora lengths of node runs.
pub open spec fn run_lengths(runs: Seq<(usize, usize)>) -> Seq<usize> {
    runs.map_values(|run: (usize, usize)| (run.1 - run.0) as usize)
}

/// The node before the first node at or after `bound`, or node 0.
pub open spec fn node_before(node_kana: Seq<usize>, bound: int) -> usize {
    let node = node_at(node_kana, bound, 0);
    if node > 0 {
        (node - 1) as usize
    } else {
        0
    }
}

/// The accented nodes of the first `a` accent marks: the node before each mark after
/// the first kana.
pub open spec fn accent_nodes(node_kana: Seq<usize>, marks: Seq<usize>, a: int) -> Seq<usize>
    decreases a,
{
    if a <= 0 {
        Seq::empty()
    } else {
        let previous = accent_nodes(node_kana, marks, a - 1);
        if marks[a - 1] >= 1 {
            previous.push(node_before(node_kana, marks[a - 1] as int))
        } else {
            previous
        }
    }
}

impl<'a> Phrasing<'a> {
    /// Whether `accent` is the phrase accent of an analysis with these nodes: word
    /// lengths and accent groups as node runs, accents on the nodes before the marks
    /// (and on the last node for the (5, 4) initial scale, which then becomes 1),
    /// and the options and voice carried over.
    pub open spec fn accent_for(
        &self,
        settings: &VoiceSettings,
        options: &AnalysisOptions,
        node_count: int,
        node_kana: Seq<usize>,
        accent: Accent,
    ) -> bool {
        let scaled = options.initial_scale.0 == 5 && options.initial_scale.1 == 4;
        let listed = accent_nodes(node_kana, options.accents@, options.accents@.len() as int);
        &&& accent.settings == *settings
        &&& accent.nasal == self.context.nasal
        &&& accent.initial_geminate == self.context.initial_geminate
        &&& accent.marker == match options.marker {
            Some(m) => m,
            None => 10i32.wrapping_mul(settings.speed),
        }
        &&& accent.initial_scale == if scaled {
            (1i32, 1i32)
        } else {
            options.initial_scale
        }
        &&& accent.words@ == if options.word_breaks@.len() > 0 {
            run_lengths(node_runs(node_kana, options.word_breaks@, node_count, 0, 0))
        } else {
            Seq::empty()
        }
        &&& accent.accents@ == if scaled {
            listed.push(node_before(node_kana, self.context.kana@.len() as int))
        } else {
            listed
        }
        &&& accent.groups@ == if options.accent_groups@.len() > 0 {
            node_runs(node_kana, options.accent_groups@, node_count, 0, 0)
        } else {
            Seq::empty()
        }
        &&& accent.nasal_words@ == self.nasal_flags(Self::nasal_breaks(options), 0, 0)
        &&& accent.duration_override == options.duration_override
        &&& accent.half_amplitude == options.half_amplitude
        &&& accent.zero_amplitude == options.zero_amplitude
        &&& accent.sentence_ending == (options.ending@.contains(EXCLAMATION) || options.ending@.contains(QUESTION))
    }

    /// Applies the phrase accent and the sentence ending, restores the first-mora
    /// pitch of unaccented multi-mora entries, and merges and interpolates.
    #[verifier::rlimit(60)]
    fn finish_accent(&self, settings: &VoiceSettings, options: &AnalysisOptions, analysis: Analysis) -> (entries: Vec<Entry>)
        requires
            self.wf(),
            analysis.wf(),
            options.initial_scale.1 > 0,
        ensures
            entries_wf(entries@),
            2 <= entries@.len(),
            entries@[entries@.len() - 2] == new_entry(0, 1000, 1000, 0, 0),
            entries@[entries@.len() - 1] == new_entry(7, 0, 0, 0, 0),
            exists|accent: Accent|
                #![trigger self.accent_for(settings, options, analysis.nodes@.len() as int, analysis.node_kana@, accent)]
                self.accent_for(settings, options, analysis.nodes@.len() as int, analysis.node_kana@, accent)
                    && entries@ == merged_and_closed(
                    restored(
                        ended(accent.accented(analysis.output@, analysis.nodes@), analysis.nodes@, options.ending@),
                        analysis.multi_pitch@,
                        analysis.multi_pitch@.len() as int,
                    ),
                ),
    {
        let context = self.context;
        let Analysis { mut output, nodes, node_kana, multi_pitch } = analysis;
        let node_count = nodes.len();
        let nasal_words = self.nasal_words(options);
        let words: Vec<usize> = if options.word_breaks.len() > 0 {
            let word_runs = runs(&node_kana, &options.word_breaks, node_count);
            let mut lengths: Vec<usize> = Vec::new();
            let mut w: usize = 0;
            while w < word_runs.len()
                invariant
                    w <= word_runs@.len(),
                    forall|g: int| 0 <= g < word_runs@.len() ==> #[trigger] word_runs@[g].0 < word_runs@[g].1 <= node_count,
                    lengths@ == run_lengths(word_runs@).take(w as int),
                decreases word_runs@.len() - w,
            {
                lengths.push(word_runs[w].1 - word_runs[w].0);
                assert(run_lengths(word_runs@).take(w + 1) =~= run_lengths(word_runs@).take(w as int).push(
                    (word_runs@[w as int].1 - word_runs@[w as int].0) as usize,
                ));
                w += 1;
            }
            assert(run_lengths(word_runs@).take(w as int) =~= run_lengths(word_runs@));
            lengths
        } else {
            Vec::new()
        };
        let groups: Vec<(usize, usize)> = if options.accent_groups.len() > 0 {
            runs(&node_kana, &options.accent_groups, node_count)
        } else {
            Vec::new()
        };
        let mut accents: Vec<usize> = Vec::new();
        let mut a: usize = 0;
        while a < options.accents.len()
            invariant
                a <= options.accents@.len(),
                accents@ == accent_nodes(node_kana@, options.accents@, a as int),
            decreases options.accents@.len() - a,
        {
            let bound = options.accents[a];
            if bound >= 1 {
                let node = to_node(&node_kana, bound);
                accents.push(if node > 0 {
                    node - 1
                } else {
                    0
                });
            }
            a += 1;
        }
        let mut initial_scale = options.initial_scale;
        if initial_scale.0 == 5 && initial_scale.1 == 4 {
            let node = to_node(&node_kana, context.kana.len());
            accents.push(if node > 0 {
                node - 1
            } else {
                0
            });
            initial_scale = (1, 1);
        }
        let accent = Accent {
            settings: *settings,
            nasal: context.nasal,
            initial_geminate: context.initial_geminate,
            marker: match options.marker {
                Some(m) => m,
                None => 10i32.wrapping_mul(settings.speed),
            },
            initial_scale,
            words,
            accents,
            groups,
            nasal_words,
            duration_override: options.duration_override,
            half_amplitude: options.half_amplitude,
            zero_amplitude: options.zero_amplitude,
            sentence_ending: holds(&options.ending, EXCLAMATION) || holds(&options.ending, QUESTION),
        };
        let ghost before_accent = output@;
        accent.apply(&mut output, &nodes);
        proof {
            assert forall|i: int| 0 <= i < output@.len() implies #[trigger] output@[i].phoneme
                < crate::utterance::PHONEME_COUNT by {
                assert(super::accent::same_timing(output@[i], before_accent[i]));
            }
        }
        sentence_ending(&mut output, &nodes, &options.ending);
        let ghost ending_done = output@;
        let mut m: usize = 0;
        while m < multi_pitch.len()
            invariant
                m <= multi_pitch@.len(),
                entries_wf(output@),
                output@.len() >= before_accent.len(),
                forall|q: int| 0 <= q < multi_pitch@.len() ==> #[trigger] multi_pitch@[q].0 < before_accent.len(),
                output@ == restored(ending_done, multi_pitch@, m as int),
            decreases multi_pitch@.len() - m,
        {
            let (index, pitch) = multi_pitch[m];
            if !output[index].accent_pitch {
                let restored = Entry { pitch, secondary_pitch: 0, ..output[index] };
                output.set(index, restored);
            }
            m += 1;
        }
        let entries = merge_vowels_and_interpolate(output);
        assert(self.accent_for(settings, options, nodes@.len() as int, node_kana@, accent));
        entries
    }
}

/// Analyzes one phrase of kana: each kana becomes timed phonemes in mora nodes,
/// which the phrase accent then pitches; identical vowels merge and the phrase
/// closes with a pause and the end mark.
impl<'a> Phrasing<'a> {
    /// The analysis parts after kana `index`, laid out by `layout` when it has moras;
    /// a kana without moras is a long-vowel mark or nothing.
    pub open spec fn kana_step(
        &self,
        index: int,
        layout: &MoraLayout,
        parts: (Seq<Entry>, Seq<Node>, Seq<usize>, Seq<(usize, i32)>),
    ) -> (Seq<Entry>, Seq<Node>, Seq<usize>, Seq<(usize, i32)>) {
        let token = self.lexicon.kana@[self.context.kana@[index] as int];
        if token.moras@.len() == 0 {
            let (output, nodes) = if token.text@ == seq![LONG_MARK] {
                self.long_mark_appended(index, parts.0, parts.1)
            } else {
                (parts.0, parts.1)
            };
            (output, nodes, parts.2.push(index as usize), parts.3)
        } else {
            self.kana_appended(index, layout, parts)
        }
    }

    /// The analysis parts after the first `count` kana.
    pub open spec fn kana_folded(&self, layouts: Seq<MoraLayout>, count: int) -> (
        Seq<Entry>,
        Seq<Node>,
        Seq<usize>,
        Seq<(usize, i32)>,
    )
        decreases count,
    {
        if count <= 0 {
            (Seq::empty(), Seq::empty(), Seq::empty(), Seq::empty())
        } else {
            self.kana_step(count - 1, &layouts[count - 1], self.kana_folded(layouts, count - 1))
        }
    }

    /// The layouts are those of the phrase's kana that have moras.
    pub open spec fn layouts_of(&self, layouts: Seq<MoraLayout>) -> bool {
        &&& layouts.len() == self.context.kana@.len()
        &&& forall|i: int|
            0 <= i < layouts.len() && self.lexicon.kana@[self.context.kana@[i] as int].moras@.len() > 0
                ==> #[trigger] layouts[i].of(&self.lexicon.kana@[self.context.kana@[i] as int])
    }
}

/// Whether `entries` is the analysis of a text whose phrase context is `context`,
/// whose kana are laid out by `layouts` and whose phrase accent is `accent`: each
/// kana in turn, then the accent, the sentence ending, the restored first-mora
/// pitches, and the merging, interpolation and closing pause and end mark.
pub open spec fn analysis_of(
    lexicon: &Lexicon,
    tables: &DurationTables,
    text: Seq<char>,
    settings: &VoiceSettings,
    options: &AnalysisOptions,
    context: PhraseContext,
    layouts: Seq<MoraLayout>,
    accent: Accent,
    entries: Seq<Entry>,
) -> bool {
    let phrasing = Phrasing { lexicon, tables, context: &context, speed: settings.speed, volume: settings.volume };
    let (output, nodes, node_kana, multi_pitch) = phrasing.kana_folded(layouts, context.kana@.len() as int);
    &&& prepared(lexicon, text, options, &context)
    &&& phrasing.layouts_of(layouts)
    &&& phrasing.accent_for(settings, options, nodes.len() as int, node_kana, accent)
    &&& entries == merged_and_closed(
        restored(ended(accent.accented(output, nodes), nodes, options.ending@), multi_pitch, multi_pitch.len() as int),
    )
}

pub fn analyze(
    lexicon: &Lexicon,
    tables: &DurationTables,
    text: &Vec<char>,
    settings: &VoiceSettings,
    options: &AnalysisOptions,
) -> (entries: Vec<Entry>)
    requires
        analysable(lexicon, tables),
        options.initial_scale.1 > 0,
    ensures
        entries_wf(entries@),
        2 <= entries@.len(),
        entries@[entries@.len() - 2] == new_entry(0, 1000, 1000, 0, 0),
        entries@[entries@.len() - 1] == new_entry(7, 0, 0, 0, 0),
        exists|context: PhraseContext, layouts: Seq<MoraLayout>, accent: Accent|
            #[trigger] analysis_of(lexicon, tables, text@, settings, options, context, layouts, accent, entries@),
{
    let context = prepare(lexicon, text, options);
    let phrasing = Phrasing { lexicon, tables, context: &context, speed: settings.speed, volume: settings.volume };
    let mut analysis = Analysis { output: Vec::new(), nodes: Vec::new(), node_kana: Vec::new(), multi_pitch: Vec::new() };
    let mut index: usize = 0;
    let ghost mut layouts: Seq<MoraLayout> = Seq::empty();
    while index < context.kana.len()
        invariant
            phrasing.wf(),
            phrasing == (Phrasing { lexicon, tables, context: &context, speed: settings.speed, volume: settings.volume }),
            analysis.wf(),
            index <= context.kana@.len(),
            layouts.len() == index,
            forall|i: int|
                0 <= i < index && lexicon.kana@[context.kana@[i] as int].moras@.len() > 0
                    ==> #[trigger] layouts[i].of(&lexicon.kana@[context.kana@[i] as int]),
            parts_of(&analysis) == phrasing.kana_folded(layouts, index as int),
        decreases context.kana@.len() - index,
    {
        let ghost before = parts_of(&analysis);
        phrasing.append_kana(index, &mut analysis);
        proof {
            let token = lexicon.kana@[context.kana@[index as int] as int];
            let layout = if token.moras@.len() > 0 {
                choose|l: MoraLayout| #[trigger] l.of(&token) && parts_of(&analysis) == phrasing.kana_appended(index as int, &l, before)
            } else {
                vstd::pervasive::arbitrary()
            };
            if token.moras@.len() > 0 {
                assert(layout.of(&token));
                assert(parts_of(&analysis) == phrasing.kana_appended(index as int, &layout, before));
            }
            assert(parts_of(&analysis) == phrasing.kana_step(index as int, &layout, before));
            let grown = layouts.push(layout);
            assert(phrasing.kana_folded(grown, index as int) == phrasing.kana_folded(layouts, index as int)) by {
                lemma_fold_prefix(&phrasing, layouts, grown, index as int);
            }
            assert forall|i: int|
                0 <= i < index + 1 && lexicon.kana@[context.kana@[i] as int].moras@.len() > 0
                    implies #[trigger] grown[i].of(&lexicon.kana@[context.kana@[i] as int]) by {
                if i < index {
                    assert(grown[i] == layouts[i]);
                }
            }
            assert(parts_of(&analysis) == phrasing.kana_folded(grown, index + 1));
            layouts = grown;
        }
        index += 1;
    }
    let entries = phrasing.finish_accent(settings, options, analysis);
    proof {
        let accent = choose|accent: Accent|
            #![trigger phrasing.accent_for(settings, options, analysis.nodes@.len() as int, analysis.node_kana@, accent)]
            phrasing.accent_for(settings, options, analysis.nodes@.len() as int, analysis.node_kana@, accent)
                && entries@ == merged_and_closed(
                restored(
                    ended(accent.accented(analysis.output@, analysis.nodes@), analysis.nodes@, options.ending@),
                    analysis.multi_pitch@,
                    analysis.multi_pitch@.len() as int,
                ),
            );
        assert(analysis_of(lexicon, tables, text@, settings, options, context, layouts, accent, entries@));
    }
    entries
}


/// The fold over the first `count` kana reads only the first `count` layouts.
proof fn lemma_fold_prefix(phrasing: &Phrasing, a: Seq<MoraLayout>, b: Seq<MoraLayout>, count: int)
    requires
        0 <= count <= a.len(),
        count <= b.len(),
        forall|i: int| 0 <= i < count ==> a[i] == b[i],
    ensures
        phrasing.kana_folded(a, count) == phrasing.kana_folded(b, count),
    decreases count,
{
    if count > 0 {
        lemma_fold_prefix(phrasing, a, b, count - 1);
    }
}

} // verus!

verus! {

/// Checks that a lexicon is analysable with the duration tables.
pub fn is_analysable(lexicon: &Lexicon, tables: &DurationTables) -> (result: bool)
    ensures
        result == analysable(lexicon, tables),
{
    if !lexicon.is_valid() {
        return false;
    }
    let groups = tables.consonants.len();
    let mut k: usize = 0;
    while k < lexicon.kana.len()
        invariant
            groups == tables.consonants@.len(),
            k <= lexicon.kana@.len(),
            forall|a: int|
                0 <= a < k ==> ((#[trigger] lexicon.kana@[a]).features matches Some(f) ==> 0 <= f.consonant_group
                    < tables.consonants@.len()),
            forall|a: int, m: int|
                0 <= a < k && 0 <= m < lexicon.kana@[a].moras@.len() ==> #[trigger] lexicon.kana@[a].moras@[m].phonemes@.len()
                    >= 1,
        decreases lexicon.kana@.len() - k,
    {
        let token = &lexicon.kana[k];
        if let Some(f) = token.features {
            if f.consonant_group < 0 || f.consonant_group as usize >= groups {
                return false;
            }
        }
        let mut m: usize = 0;
        while m < token.moras.len()
            invariant
                k < lexicon.kana@.len(),
                *token == lexicon.kana@[k as int],
                m <= token.moras@.len(),
                forall|a: int, q: int|
                    (0 <= a < k && 0 <= q < lexicon.kana@[a].moras@.len()) || (a == k && 0 <= q < m)
                        ==> #[trigger] lexicon.kana@[a].moras@[q].phonemes@.len() >= 1,
            decreases token.moras@.len() - m,
        {
            if token.moras[m].phonemes.len() == 0 {
                return false;
            }
            m += 1;
        }
        k += 1;
    }
    true
}

} // verus!

//! The kana lexicon: spellings, phonemes and duration features.
use vstd::prelude::*;

verus! {

/// One mora of a kana: its phonemes and stored prosody.
pub struct Mora {
    pub phonemes: Vec<usize>,
    pub consonant_duration: i32,
    pub vowel_duration: i32,
    pub amplitude: i32,
    pub pitch: i32,
}

/// Context classes of a following vowel.
#[derive(Clone, Copy, Debug)]
pub struct VowelFeature {
    pub left: i32,
    pub vowel: i32,
}

/// Duration-model classes of a kana.
#[derive(Clone, Copy, Debug)]
pub struct DurationFeatures {
    pub consonant_group: i32,
    pub consonant_category: i32,
    pub vowel_left: i32,
    pub vowel_kind: i32,
}

/// The classes of a bare vowel.
pub open spec fn vowel_features() -> DurationFeatures {
    DurationFeatures { consonant_group: 26, consonant_category: 26, vowel_left: 26, vowel_kind: 0 }
}

pub fn vowel_features_exec() -> (features: DurationFeatures)
    ensures
        features == vowel_features(),
{
    DurationFeatures { consonant_group: 26, consonant_category: 26, vowel_left: 26, vowel_kind: 0 }
}

/// A lexicon entry: a spelling of one or two characters and its moras.
pub struct Kana {
    pub text: Vec<char>,
    pub phonetic: Vec<char>,
    pub features: Option<DurationFeatures>,
    /// Classes of the vowels of the second and later moras.
    pub extra_vowels: Vec<VowelFeature>,
    pub amplitude_class: Option<i32>,
    pub moras: Vec<Mora>,
}

/// Whether a phoneme is one of the five vowels.
pub open spec fn is_vowel(phoneme: int) -> bool {
    1 <= phoneme <= 5
}

impl Kana {
    /// A long vowel written inside a two-character spelling whose reading ends in `-`.
    pub open spec fn long_marker_spec(&self) -> bool {
        &&& self.text@.len() > 1
        &&& self.phonetic@.len() > 0 && self.phonetic@.last() == '-'
        &&& self.moras@.len() > 0
        &&& self.moras@.last().phonemes@.len() > 0
        &&& is_vowel(self.moras@.last().phonemes@.last() as int)
    }

    pub fn long_marker(&self) -> (result: bool)
        ensures
            result == self.long_marker_spec(),
    {
        if self.text.len() <= 1 || self.phonetic.len() == 0 || self.phonetic[self.phonetic.len() - 1] != '-' {
            return false;
        }
        if self.moras.len() == 0 {
            return false;
        }
        let last = &self.moras[self.moras.len() - 1];
        if last.phonemes.len() == 0 {
            return false;
        }
        let phoneme = last.phonemes[last.phonemes.len() - 1];
        1 <= phoneme && phoneme <= 5
    }

    /// Moras of the kana: at least one, plus one for a long-vowel marker.
    pub open spec fn mora_count_spec(&self) -> nat {
        (if self.moras@.len() > 1 {
            self.moras@.len()
        } else {
            1
        }) + if self.long_marker_spec() {
            1nat
        } else {
            0
        }
    }

    pub fn mora_count(&self) -> (result: usize)
        requires
            self.moras@.len() < 0x8000_0000,
        ensures
            result == self.mora_count_spec(),
    {
        let count = if self.moras.len() > 1 { self.moras.len() } else { 1 };
        if self.long_marker() {
            count + 1
        } else {
            count
        }
    }

    /// The reading without its trailing `-` marks and then without its trailing vowels.
    pub open spec fn consonant_spec(&self) -> Seq<char> {
        strip_vowels(strip_dashes(self.phonetic@))
    }

    pub fn consonant(&self) -> (result: Vec<char>)
        ensures
            result@ == self.consonant_spec(),
    {
        let mut end = self.phonetic.len();
        assert(self.phonetic@.take(end as int) =~= self.phonetic@);
        while end > 0 && self.phonetic[end - 1] == '-'
            invariant
                end <= self.phonetic@.len(),
                strip_dashes(self.phonetic@) == strip_dashes(self.phonetic@.take(end as int)),
            decreases end,
        {
            proof {
                assert(self.phonetic@.take(end as int).drop_last() =~= self.phonetic@.take(end - 1));
            }
            end -= 1;
        }
        let ghost dashless = self.phonetic@.take(end as int);
        assert(strip_dashes(self.phonetic@) == dashless);
        while end > 0 && is_vowel_letter(self.phonetic[end - 1])
            invariant
                end <= dashless.len(),
                dashless.len() <= self.phonetic@.len(),
                dashless == self.phonetic@.take(dashless.len() as int),
                strip_vowels(dashless) == strip_vowels(self.phonetic@.take(end as int)),
            decreases end,
        {
            proof {
                assert(self.phonetic@.take(end as int).drop_last() =~= self.phonetic@.take(end - 1));
            }
            end -= 1;
        }
        let mut result: Vec<char> = Vec::new();
        let mut i: usize = 0;
        while i < end
            invariant
                end <= self.phonetic@.len(),
                i <= end,
                result@ =~= self.phonetic@.take(i as int),
            decreases end - i,
        {
            result.push(self.phonetic[i]);
            i += 1;
        }
        proof {
            assert(self.phonetic@.take(end as int) == strip_vowels(self.phonetic@.take(end as int)));
        }
        result
    }
}

/// A sequence without its trailing dashes.
pub open spec fn strip_dashes(s: Seq<char>) -> Seq<char>
    decreases s.len(),
{
    if s.len() > 0 && s.last() == '-' {
        strip_dashes(s.drop_last())
    } else {
        s
    }
}

/// Whether a letter is one of the five vowel letters of a reading.
pub open spec fn vowel_letter(c: char) -> bool {
    c == 'a' || c == 'i' || c == 'u' || c == 'e' || c == 'o'
}

fn is_vowel_letter(c: char) -> (result: bool)
    ensures
        result == vowel_letter(c),
{
    c == 'a' || c == 'i' || c == 'u' || c == 'e' || c == 'o'
}

/// A sequence without its trailing vowel letters.
pub open spec fn strip_vowels(s: Seq<char>) -> Seq<char>
    decreases s.len(),
{
    if s.len() > 0 && vowel_letter(s.last()) {
        strip_vowels(s.drop_last())
    } else {
        s
    }
}

/// The kana lexicon.
pub struct Lexicon {
    pub kana: Vec<Kana>,
}

impl Lexicon {
    /// Spellings are nonempty and distinct, each kana has fewer than 2^31 moras, and
    /// every phoneme lies in the inventory.
    pub open spec fn wf(&self) -> bool {
        &&& self.kana@.len() < 0x8000_0000
        &&& forall|i: int, j: int|
            0 <= i < j < self.kana@.len() ==> #[trigger] self.kana@[i].text@ != #[trigger] self.kana@[j].text@
        &&& forall|i: int|
            0 <= i < self.kana@.len() ==> {
                &&& #[trigger] self.kana@[i].text@.len() >= 1
                &&& self.kana@[i].moras@.len() < 0x8000_0000
                &&& forall|m: int, p: int|
                    0 <= m < self.kana@[i].moras@.len() && 0 <= p
                        < self.kana@[i].moras@[m].phonemes@.len() ==> #[trigger] self.kana@[i].moras@[m].phonemes@[p]
                        < crate::utterance::PHONEME_COUNT
            }
    }

    /// Each phoneme of each stored kana is in the inventory.
    pub proof fn lemma_phoneme(&self, k: int, m: int, p: int)
        requires
            self.wf(),
            0 <= k < self.kana@.len(),
            0 <= m < self.kana@[k].moras@.len(),
            0 <= p < self.kana@[k].moras@[m].phonemes@.len(),
        ensures
            self.kana@[k].moras@[m].phonemes@[p] < crate::utterance::PHONEME_COUNT,
            self.kana@[k].text@.len() >= 1,
            self.kana@[k].moras@.len() < 0x8000_0000,
    {
        assert(self.kana@[k].text@.len() >= 1);
    }

    /// Every stored kana has a nonempty spelling and fewer than 2^31 moras.
    pub proof fn lemma_text(&self, k: int)
        requires
            self.wf(),
            0 <= k < self.kana@.len(),
        ensures
            self.kana@[k].text@.len() >= 1,
            self.kana@[k].moras@.len() < 0x8000_0000,
    {
        assert(self.kana@[k].text@.len() >= 1);
    }

    /// The entry spelled `text`, if any.
    pub open spec fn lookup_spec(&self, text: Seq<char>) -> Option<int> {
        if exists|i: int| 0 <= i < self.kana@.len() && #[trigger] self.kana@[i].text@ == text {
            Some(choose|i: int| 0 <= i < self.kana@.len() && #[trigger] self.kana@[i].text@ == text)
        } else {
            None
        }
    }

    /// Looks up the entry spelled `text[start..end]`.
    pub fn lookup(&self, text: &Vec<char>, start: usize, end: usize) -> (result: Option<usize>)
        requires
            self.wf(),
            start <= end <= text@.len(),
        ensures
            result matches Some(i) ==> self.lookup_spec(text@.subrange(start as int, end as int)) == Some(i as int),
            result is None ==> self.lookup_spec(text@.subrange(start as int, end as int)) is None,
    {
        let ghost key = text@.subrange(start as int, end as int);
        let mut i: usize = 0;
        while i < self.kana.len()
            invariant
                self.wf(),
                start <= end <= text@.len(),
                key == text@.subrange(start as int, end as int),
                i <= self.kana@.len(),
                forall|j: int| 0 <= j < i ==> #[trigger] self.kana@[j].text@ != key,
            decreases self.kana@.len() - i,
        {
            let candidate = &self.kana[i].text;
            if candidate.len() == end - start {
                let mut k: usize = 0;
                while k < candidate.len() && candidate[k] == text[start + k]
                    invariant
                        k <= candidate@.len() == end - start,
                        start + candidate@.len() <= text@.len(),
                        forall|m: int| 0 <= m < k ==> candidate@[m] == text@[start + m],
                    decreases candidate@.len() - k,
                {
                    k += 1;
                }
                if k == candidate.len() {
                    proof {
                        assert(self.kana@[i as int].text@ =~= key);
                        let chosen = choose|j: int| 0 <= j < self.kana@.len() && #[trigger] self.kana@[j].text@ == key;
                        if chosen != i {
                            if chosen < i {
                                assert(self.kana@[chosen].text@ != self.kana@[i as int].text@);
                            } else {
                                assert(self.kana@[i as int].text@ != self.kana@[chosen].text@);
                            }
                        }
                    }
                    return Some(i);
                }
                proof {
                    assert(candidate@[k as int] != key[k as int]);
                }
            }
            i += 1;
        }
        None
    }
}

/// The kana of a text, left to right: at each position the two-character spelling
/// is preferred, then the single one; characters without an entry are skipped.
pub open spec fn split_from(lexicon: &Lexicon, text: Seq<char>, position: int) -> Seq<int>
    decreases text.len() - position,
{
    if position < 0 || position >= text.len() {
        Seq::empty()
    } else {
        let double = if position + 2 <= text.len() {
            position + 2
        } else {
            text.len() as int
        };
        let found = match lexicon.lookup_spec(text.subrange(position, double)) {
            Some(k) => Some(k),
            None => lexicon.lookup_spec(text.subrange(position, position + 1)),
        };
        match found {
            Some(k) => {
                let next = position + lexicon.kana@[k].text@.len();
                if next > position {
                    seq![k] + split_from(lexicon, text, next)
                } else {
                    seq![k]
                }
            },
            None => split_from(lexicon, text, position + 1),
        }
    }
}

/// The kana of `text[start..end]`.
pub open spec fn split_spec(lexicon: &Lexicon, text: Seq<char>) -> Seq<int> {
    split_from(lexicon, text, 0)
}

proof fn lemma_lookup_found(lexicon: &Lexicon, key: Seq<char>, k: int)
    requires
        lexicon.lookup_spec(key) == Some(k),
    ensures
        0 <= k < lexicon.kana@.len(),
        lexicon.kana@[k].text@ == key,
{
}

/// Splits a text into lexicon entries.
pub fn split(lexicon: &Lexicon, text: &Vec<char>) -> (result: Vec<usize>)
    requires
        lexicon.wf(),
    ensures
        result@.len() == split_spec(lexicon, text@).len(),
        forall|i: int| 0 <= i < result@.len() ==> #[trigger] result@[i] as int == split_spec(lexicon, text@)[i],
        forall|i: int| 0 <= i < result@.len() ==> #[trigger] result@[i] < lexicon.kana@.len(),
{
    let mut result: Vec<usize> = Vec::new();
    let mut position: usize = 0;
    while position < text.len()
        invariant
            lexicon.wf(),
            position <= text@.len(),
            split_spec(lexicon, text@) == result@.map_values(|k: usize| k as int) + split_from(lexicon, text@, position as int),
            forall|i: int| 0 <= i < result@.len() ==> #[trigger] result@[i] < lexicon.kana@.len(),
        decreases text@.len() - position,
    {
        let double = if text.len() - position >= 2 { position + 2 } else { text.len() };
        let found = match lexicon.lookup(text, position, double) {
            Some(k) => Some(k),
            None => lexicon.lookup(text, position, position + 1),
        };
        let ghost before = result@;
        match found {
            Some(k) => {
                proof {
                    if lexicon.lookup_spec(text@.subrange(position as int, double as int)) == Some(k as int) {
                        lemma_lookup_found(lexicon, text@.subrange(position as int, double as int), k as int);
                    } else {
                        lemma_lookup_found(lexicon, text@.subrange(position as int, position + 1), k as int);
                    }
                }
                result.push(k);
                let length = lexicon.kana[k].text.len();
                assert(result@.map_values(|k: usize| k as int) =~= before.map_values(|k: usize| k as int) + seq![k as int]);
                position = position + length;
            },
            None => {
                position = position + 1;
            },
        }
    }
    assert(result@.map_values(|k: usize| k as int) + split_from(lexicon, text@, position as int) =~= result@.map_values(|k: usize| k as int));
    result
}

/// Each kana takes at least one character.
pub proof fn lemma_split_len(lexicon: &Lexicon, text: Seq<char>, position: int)
    requires
        lexicon.wf(),
        0 <= position,
    ensures
        split_from(lexicon, text, position).len() <= if position <= text.len() {
            text.len() - position
        } else {
            0
        },
    decreases text.len() - position,
{
    if position < text.len() {
        let double = if position + 2 <= text.len() {
            position + 2
        } else {
            text.len() as int
        };
        let found = match lexicon.lookup_spec(text.subrange(position, double)) {
            Some(k) => Some(k),
            None => lexicon.lookup_spec(text.subrange(position, position + 1)),
        };
        match found {
            Some(k) => {
                if lexicon.lookup_spec(text.subrange(position, double)) == Some(k) {
                    lemma_lookup_found(lexicon, text.subrange(position, double), k);
                } else {
                    lemma_lookup_found(lexicon, text.subrange(position, position + 1), k);
                }
                assert(lexicon.kana@[k].text@.len() >= 1);
                lemma_split_len(lexicon, text, position + lexicon.kana@[k].text@.len());
            },
            None => {
                lemma_split_len(lexicon, text, position + 1);
            },
        }
    }
}

} // verus!

verus! {

/// Whether two spellings are equal.
fn same_text(a: &Vec<char>, b: &Vec<char>) -> (result: bool)
    ensures
        result == (a@ == b@),
{
    if a.len() != b.len() {
        return false;
    }
    let mut i: usize = 0;
    while i < a.len()
        invariant
            a@.len() == b@.len(),
            i <= a@.len(),
            forall|j: int| 0 <= j < i ==> a@[j] == b@[j],
        decreases a@.len() - i,
    {
        if a[i] != b[i] {
            return false;
        }
        i += 1;
    }
    assert(a@ =~= b@);
    true
}

/// A stored kana is well formed: a nonempty spelling, fewer than 2^31 moras, and
/// phonemes of the inventory.
pub open spec fn kana_entry_wf(kana: Kana) -> bool {
    &&& kana.text@.len() >= 1
    &&& kana.moras@.len() < 0x8000_0000
    &&& forall|m: int, p: int|
        0 <= m < kana.moras@.len() && 0 <= p < kana.moras@[m].phonemes@.len() ==> #[trigger] kana.moras@[m].phonemes@[p]
            < crate::utterance::PHONEME_COUNT
}

fn kana_entry_valid(kana: &Kana) -> (result: bool)
    ensures
        result == kana_entry_wf(*kana),
{
    if kana.text.len() < 1 || kana.moras.len() >= 0x8000_0000 {
        return false;
    }
    let mut m: usize = 0;
    while m < kana.moras.len()
        invariant
            m <= kana.moras@.len(),
            forall|a: int, p: int|
                0 <= a < m && 0 <= p < kana.moras@[a].phonemes@.len() ==> #[trigger] kana.moras@[a].phonemes@[p]
                    < crate::utterance::PHONEME_COUNT,
        decreases kana.moras@.len() - m,
    {
        let mut p: usize = 0;
        while p < kana.moras[m].phonemes.len()
            invariant
                m < kana.moras@.len(),
                p <= kana.moras@[m as int].phonemes@.len(),
                forall|a: int, q: int|
                    (0 <= a < m && 0 <= q < kana.moras@[a].phonemes@.len()) || (a == m && 0 <= q < p)
                        ==> #[trigger] kana.moras@[a].phonemes@[q] < crate::utterance::PHONEME_COUNT,
            decreases kana.moras@[m as int].phonemes@.len() - p,
        {
            if kana.moras[m].phonemes[p] >= crate::utterance::PHONEME_COUNT {
                return false;
            }
            p += 1;
        }
        m += 1;
    }
    true
}

impl Lexicon {
    /// Checks the lexicon's well-formedness.
    pub fn is_valid(&self) -> (result: bool)
        ensures
            result == self.wf(),
    {
        let count = self.kana.len();
        if count >= 0x8000_0000 {
            return false;
        }
        let mut i: usize = 0;
        while i < count
            invariant
                count == self.kana@.len(),
                i <= count,
                forall|a: int| 0 <= a < i ==> kana_entry_wf(#[trigger] self.kana@[a]),
                forall|a: int, b: int| 0 <= a < b < count && a < i ==> #[trigger] self.kana@[a].text@ != #[trigger] self.kana@[b].text@,
            decreases count - i,
        {
            if !kana_entry_valid(&self.kana[i]) {
                return false;
            }
            let mut j = i + 1;
            while j < count
                invariant
                    count == self.kana@.len(),
                    i < j <= count,
                    forall|b: int| i < b < j ==> self.kana@[i as int].text@ != #[trigger] self.kana@[b].text@,
                decreases count - j,
            {
                if same_text(&self.kana[i].text, &self.kana[j].text) {
                    return false;
                }
                j += 1;
            }
            i += 1;
        }
        assert forall|a: int| 0 <= a < count implies {
            &&& #[trigger] self.kana@[a].text@.len() >= 1
            &&& self.kana@[a].moras@.len() < 0x8000_0000
            &&& forall|m: int, p: int|
                0 <= m < self.kana@[a].moras@.len() && 0 <= p < self.kana@[a].moras@[m].phonemes@.len()
                    ==> #[trigger] self.kana@[a].moras@[m].phonemes@[p] < crate::utterance::PHONEME_COUNT
        } by {
            assert(kana_entry_wf(self.kana@[a]));
        }
        true
    }
}

} // verus!

//! Context-dependent duration and amplitude estimates.
use vstd::prelude::*;
use crate::dsp::{rounded_div, rounded_quotient};

verus! {

/// Additive corrections of vowel durations, by context.
pub struct VowelTable {
    pub vowel: Vec<i16>,
    pub left: Vec<i16>,
    pub right: Vec<i16>,
    pub word: Vec<i16>,
    pub phrase: Vec<i16>,
}

/// Additive corrections of syllabic-nasal durations, by context.
pub struct NasalTable {
    pub left: Vec<i16>,
    pub right: Vec<i16>,
    pub word: Vec<i16>,
    pub phrase: Vec<i16>,
}

/// Additive corrections of vowel amplitudes, by context.
pub struct AmplitudeTable {
    pub left: Vec<i16>,
    pub right: Vec<i16>,
    pub mora_count: [i16; 11],
    pub word: Vec<i16>,
    pub phrase: Vec<i16>,
    pub vowel: Vec<i16>,
}

/// Duration model of one consonant group.
pub struct ConsonantTable {
    /// Base lengths of a single and a geminate consonant.
    pub length: [i16; 2],
    pub vowel: Vec<i16>,
    pub base: i16,
    pub previous: Vec<i16>,
    pub phrase: Vec<i16>,
    pub category: Vec<i16>,
    pub word: Vec<i16>,
}

/// The duration and amplitude models.
pub struct DurationTables {
    pub vowels: VowelTable,
    pub nasals: NasalTable,
    pub amplitudes: AmplitudeTable,
    pub consonants: Vec<ConsonantTable>,
}

/// A table entry, or zero when the index lies outside the table.
pub open spec fn correction_of(table: Seq<i16>, index: i32) -> int {
    if 0 <= index < table.len() {
        table[index as int] as int
    } else {
        0
    }
}

pub fn correction(table: &Vec<i16>, index: i32) -> (result: i32)
    ensures
        result == correction_of(table@, index),
        -32768 <= result <= 32767,
{
    if index >= 0 && (index as usize) < table.len() {
        table[index as usize] as i32
    } else {
        0
    }
}

/// A duration scaled by the speed percentage, rounded half away from zero.
pub open spec fn speed_scaled(value: i32, speed: i32) -> int {
    rounded_quotient(value * speed, 100) as i64 as i32 as int
}

pub fn scale(value: i32, speed: i32) -> (result: i32)
    ensures
        result == speed_scaled(value, speed),
{
    assert(-0x4000_0000_0000_0000 <= value as i64 * speed as i64 <= 0x4000_0000_0000_0000) by (nonlinear_arith);
    rounded_div(value as i64 * speed as i64, 100) as i32
}

/// A mora's place in its phrase and word: 0 initial, 1 medial, 2 final.
#[derive(Clone, Copy, Debug)]
pub struct Position {
    pub phrase: i32,
    pub word: i32,
}

/// The position of mora `index` among `total`: phrase-final before phrase-initial,
/// and word-final only for a one-mora final word of a longer phrase.
pub open spec fn position_spec(index: int, total: int, word_length: int) -> Position {
    Position {
        phrase: if index == total - 1 {
            2
        } else if index == 0 {
            0
        } else {
            1
        },
        word: if index == 0 && total > 1 {
            0
        } else if index == total - 1 && word_length == 1 && total > 1 {
            2
        } else {
            1
        },
    }
}

impl Position {
    /// The position of mora `index` among `total`: phrase-final before phrase-initial,
    /// and word-final only for a one-mora final word of a longer phrase.
    pub fn new(index: usize, total: usize, word_length: usize) -> (position: Self)
        requires
            total >= 1,
        ensures
            position == position_spec(index as int, total as int, word_length as int),
            position.phrase == if index == total - 1 {
                2int
            } else if index == 0 {
                0
            } else {
                1
            },
            position.word == if index == 0 && total > 1 {
                0int
            } else if index == total - 1 && word_length == 1 && total > 1 {
                2
            } else {
                1
            },
    {
        Position {
            phrase: if index == total - 1 {
                2
            } else if index == 0 {
                0
            } else {
                1
            },
            word: if index == 0 && total > 1 {
                0
            } else if index == total - 1 && word_length == 1 && total > 1 {
                2
            } else {
                1
            },
        }
    }
}

/// A vowel with its neighbours, as indices into the correction tables.
#[derive(Clone, Copy, Debug)]
pub struct VowelContext {
    pub left: i32,
    pub vowel: i32,
    pub right: i32,
    pub position: Position,
}

/// The class of a phrase's mora count in the amplitude model.
pub open spec fn mora_count_class(mora_count: usize) -> int {
    if mora_count <= 3 {
        0
    } else if mora_count <= 8 {
        mora_count - 3
    } else if mora_count <= 10 {
        6
    } else if mora_count <= 13 {
        7
    } else if mora_count <= 16 {
        8
    } else if mora_count <= 25 {
        9
    } else {
        10
    }
}

impl VowelContext {
    /// Vowel duration in periods: a base of 4860/64 plus the context corrections,
    /// at least 70, scaled by the speed.
    pub open spec fn duration_of(self, tables: &DurationTables, speed: i32) -> int {
        let v = tables.vowels;
        let sum = correction_of(v.vowel@, self.vowel) + 4860 + correction_of(v.left@, self.left)
            + correction_of(v.right@, self.right) + correction_of(v.word@, self.position.word)
            + correction_of(v.phrase@, self.position.phrase);
        let base = if (sum as i32 >> 6) > 70 {
            (sum as i32 >> 6) as i32
        } else {
            70i32
        };
        speed_scaled(base, speed)
    }

    pub fn duration(self, tables: &DurationTables, speed: i32) -> (result: i32)
        ensures
            result == self.duration_of(tables, speed),
    {
        let v = &tables.vowels;
        let sum: i32 = correction(&v.vowel, self.vowel) + 4860 + correction(&v.left, self.left)
            + correction(&v.right, self.right) + correction(&v.word, self.position.word)
            + correction(&v.phrase, self.position.phrase);
        let base: i32 = if (sum >> 6) > 70 { sum >> 6 } else { 70 };
        scale(base, speed)
    }

    /// Syllabic-nasal duration in periods: a base of 7680/64 plus the context
    /// corrections, scaled by the speed.
    pub open spec fn nasal_duration_of(self, tables: &DurationTables, speed: i32) -> int {
        let n = tables.nasals;
        let sum = correction_of(n.left@, self.left) + 7680 + correction_of(n.right@, self.right)
            + correction_of(n.word@, self.position.word) + correction_of(n.phrase@, self.position.phrase);
        speed_scaled((sum as i32 >> 6) as i32, speed)
    }

    pub fn nasal_duration(self, tables: &DurationTables, speed: i32) -> (result: i32)
        ensures
            result == self.nasal_duration_of(tables, speed),
    {
        let n = &tables.nasals;
        let sum: i32 = correction(&n.left, self.left) + 7680 + correction(&n.right, self.right)
            + correction(&n.word, self.position.word) + correction(&n.phrase, self.position.phrase);
        scale(sum >> 6, speed)
    }

    /// Vowel amplitude: 600 plus the context corrections in Q6, where the vowel's own
    /// correction is left out for the syllabic nasal.
    pub open spec fn amplitude_of(self, tables: &DurationTables, mora_count: usize) -> int {
        let a = tables.amplitudes;
        let sum = correction_of(a.left@, self.left) + correction_of(a.right@, self.right)
            + a.mora_count[mora_count_class(mora_count)] + correction_of(a.word@, self.position.word)
            + correction_of(a.phrase@, self.position.phrase) + if self.vowel != 5 {
            correction_of(a.vowel@, self.vowel)
        } else {
            0
        };
        600 + (((sum * 1024) as i32) >> 16)
    }

    pub fn amplitude(self, tables: &DurationTables, mora_count: usize) -> (result: i32)
        ensures
            result == self.amplitude_of(tables, mora_count),
    {
        let count_index: usize = if mora_count <= 3 {
            0
        } else if mora_count <= 8 {
            mora_count - 3
        } else if mora_count <= 10 {
            6
        } else if mora_count <= 13 {
            7
        } else if mora_count <= 16 {
            8
        } else if mora_count <= 25 {
            9
        } else {
            10
        };
        let a = &tables.amplitudes;
        let mut sum: i32 = correction(&a.left, self.left) + correction(&a.right, self.right)
            + a.mora_count[count_index] as i32 + correction(&a.word, self.position.word)
            + correction(&a.phrase, self.position.phrase);
        if self.vowel != 5 {
            sum = sum + correction(&a.vowel, self.vowel);
        }
        let product: i32 = sum * 1024;
        assert(-0x1_0000 <= product >> 16 <= 0x1_0000) by (bit_vector)
            requires
                -0x1000_0000 <= product <= 0x1000_0000;
        600 + (product >> 16)
    }
}

/// A consonant with its context.
#[derive(Clone, Copy, Debug)]
pub struct ConsonantContext {
    pub group: i32,
    pub category: i32,
    pub previous_phoneme: i32,
    pub vowel: i32,
    pub position: Position,
    pub palatalized: bool,
    pub geminate: bool,
    pub phoneme: usize,
}

/// The palatalization offset of a consonant category.
pub open spec fn palatal_offset(category: i32) -> int {
    if category == 6 {
        1651
    } else if category == 8 {
        2573
    } else if category == 9 {
        3648
    } else if category == 10 {
        2560
    } else if category == 11 {
        2246
    } else if category == 12 {
        2176
    } else if category == 13 {
        2995
    } else if category == 15 {
        1760
    } else if category == 19 {
        2624
    } else {
        0
    }
}

impl ConsonantContext {
    /// Consonant duration in periods: the group's base length and context corrections,
    /// a palatalization offset, the geminate's extra length, at least 25; scaled by
    /// the speed for phonemes 14 to 26 and for geminates.
    pub open spec fn duration_of(&self, tables: &DurationTables, speed: i32) -> int {
        let c = tables.consonants@[self.group as int];
        let sum = c.length[0] + correction_of(c.vowel@, self.vowel) + c.base + correction_of(
            c.previous@,
            self.previous_phoneme,
        ) + correction_of(c.phrase@, self.position.phrase) + correction_of(c.category@, self.category)
            + correction_of(c.word@, self.position.word) + if self.palatalized {
            palatal_offset(self.category)
        } else {
            0
        } + if self.geminate {
            c.length[1] - c.length[0]
        } else {
            0
        };
        let result = if (sum as i32 >> 6) > 25 {
            (sum as i32 >> 6) as i32
        } else {
            25i32
        };
        if (14 <= self.phoneme < 27) || self.geminate {
            speed_scaled(result, speed)
        } else {
            result as int
        }
    }

    pub fn duration(&self, tables: &DurationTables, speed: i32) -> (result: i32)
        requires
            0 <= self.group < tables.consonants@.len(),
        ensures
            result == self.duration_of(tables, speed),
    {
        let c = &tables.consonants[self.group as usize];
        let mut sum: i32 = c.length[0] as i32 + correction(&c.vowel, self.vowel) + c.base as i32
            + correction(&c.previous, self.previous_phoneme) + correction(&c.phrase, self.position.phrase)
            + correction(&c.category, self.category) + correction(&c.word, self.position.word);
        if self.palatalized {
            sum = sum + match self.category {
                6 => 1651,
                8 => 2573,
                9 => 3648,
                10 => 2560,
                11 => 2246,
                12 => 2176,
                13 => 2995,
                15 => 1760,
                19 => 2624,
                _ => 0,
            };
        }
        if self.geminate {
            sum = sum + (c.length[1] as i32 - c.length[0] as i32);
        }
        let result: i32 = if (sum >> 6) > 25 { sum >> 6 } else { 25 };
        if (14 <= self.phoneme && self.phoneme < 27) || self.geminate {
            scale(result, speed)
        } else {
            result
        }
    }
}

} // verus!

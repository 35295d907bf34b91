use shtts::acoustic::{AcousticData, Frame, Unit};
use shtts::text::duration::{AmplitudeTable, ConsonantTable, DurationTables, NasalTable, VowelTable};
use shtts::text::lexicon::{DurationFeatures, Kana, Lexicon, Mora};
use shtts::text::parse::{kana_count, parse, split_chunks};
use shtts::{synthesize, EngineData, Voice, VoiceSettings};

fn kana(text: &str, phonetic: &str, phonemes: Vec<Vec<usize>>, features: Option<DurationFeatures>) -> Kana {
    Kana {
        text: text.chars().collect(),
        phonetic: phonetic.chars().collect(),
        features,
        extra_vowels: Vec::new(),
        amplitude_class: None,
        moras: phonemes
            .into_iter()
            .map(|phonemes| Mora { phonemes, consonant_duration: 60, vowel_duration: 90, amplitude: 300, pitch: 0 })
            .collect(),
    }
}

fn small_engine() -> EngineData {
    let unit = Unit { start: 0, boundaries: [3, 6, 0, 0] };
    let mut units = vec![vec![vec![None; 8]; 38]; 38];
    for left in 0..38 {
        for center in 0..38 {
            for right in 0..8 {
                units[left][center][right] = Some(unit);
            }
        }
    }
    let frames = (0..12)
        .map(|i| Frame { voiced: i % 4 != 3, amplitude: 200 + i, spectrum: (i % 2) as usize, excitable: true })
        .collect();
    let mut cosine = [0i32; 129];
    for (i, value) in cosine.iter_mut().enumerate() {
        *value = (32768.0 * (std::f64::consts::PI * i as f64 / 128.0).cos()).round() as i32;
    }
    let mut ring_sine = [0i16; 256];
    for (i, value) in ring_sine.iter_mut().enumerate() {
        *value = (32000.0 * (2.0 * std::f64::consts::PI * i as f64 / 256.0).sin()).round() as i16;
    }
    let mut noise = [0i16; 360];
    for (i, value) in noise.iter_mut().enumerate() {
        *value = ((i * 7919) % 4001) as i16 - 2000;
    }
    let mut amplitude = [0i32; 91];
    for (i, value) in amplitude.iter_mut().enumerate() {
        *value = 64 * (i as i32 + 1);
    }
    EngineData {
        acoustic: AcousticData {
            frames,
            spectra: vec![
                [3000, 6000, 9000, 12000, 15000, 18000, 21000, 24000, 27000, 30000],
                [2500, 5500, 8500, 11500, 14500, 17500, 20500, 23500, 26500, 29500],
            ],
            units,
            coarse_pitch: [16384; 50],
            fine_pitch: [16384; 128],
            pulse: [1000; 35],
            impulse: [2000, -1000, 500, -250, 125, -60, 30, -15],
            noise,
            ring_sine,
            amplitude,
            cosine,
        },
        durations: DurationTables {
            vowels: VowelTable { vowel: vec![0; 6], left: vec![0; 27], right: vec![0; 13], word: vec![0; 3], phrase: vec![0; 3] },
            nasals: NasalTable { left: vec![0; 27], right: vec![0; 13], word: vec![0; 3], phrase: vec![0; 3] },
            amplitudes: AmplitudeTable {
                left: vec![0; 27],
                right: vec![0; 13],
                mora_count: [0; 11],
                word: vec![0; 3],
                phrase: vec![0; 3],
                vowel: vec![0; 6],
            },
            consonants: vec![ConsonantTable {
                length: [3000, 5000],
                vowel: vec![0; 6],
                base: 0,
                previous: vec![0; 27],
                phrase: vec![0; 3],
                category: vec![0; 27],
                word: vec![0; 3],
            }],
        },
        lexicon: Lexicon {
            kana: vec![
                kana("ア", "a", vec![vec![1]], None),
                kana("イ", "i", vec![vec![2]], None),
                kana(
                    "カ",
                    "ka",
                    vec![vec![14, 1]],
                    Some(DurationFeatures { consonant_group: 0, consonant_category: 0, vowel_left: 0, vowel_kind: 0 }),
                ),
                kana("ン", "N", vec![vec![6]], None),
                kana("ッ", "Q", Vec::new(), None),
                kana("ー", "-", Vec::new(), None),
            ],
        },
    }
}

#[test]
fn small_engine_tables_are_valid() {
    assert!(small_engine().is_valid());
}

#[test]
fn synthesized_speech_comes_in_whole_blocks() {
    let engine = small_engine();
    let settings = VoiceSettings::default();
    for text in ["ア", "アイ", "カイ", "アンカ", "カッカ", "アー", "ア．イ", "アイ？", "カ！", "ア／イ｜カ", "２アイ", "ア’イ"] {
        let pcm = synthesize(text, &settings, &engine).unwrap();
        assert_eq!(pcm.len() % 240, 0, "{text}");
        assert!(!pcm.is_empty(), "{text}");
    }
}

#[test]
fn synthesis_is_repeatable() {
    let engine = small_engine();
    let settings = VoiceSettings::from(Voice::Sisters);
    let first = synthesize("アイカ", &settings, &engine).unwrap();
    let second = synthesize("アイカ", &settings, &engine).unwrap();
    assert_eq!(first, second);
    let other = VoiceSettings::from(Voice::Space);
    assert!(!synthesize("カ", &other, &engine).unwrap().is_empty());
    assert_eq!(synthesize("アイカ", &settings, &engine).unwrap(), first);
}

#[test]
fn unknown_characters_are_skipped() {
    let engine = small_engine();
    let settings = VoiceSettings::default();
    let plain = synthesize("アイ", &settings, &engine).unwrap();
    let noisy = synthesize("アxyzイ", &settings, &engine).unwrap();
    assert_eq!(plain, noisy);
}

#[test]
fn markup_splits_phrases() {
    let engine = small_engine();
    let text: Vec<char> = "アイ．カ".chars().collect();
    let phrases = parse(&engine.lexicon, &text);
    assert_eq!(phrases.len(), 2);
    assert_eq!(phrases[0].text, vec!['ア', 'イ']);
    assert_eq!(phrases[1].text, vec!['カ']);
}

#[test]
fn small_tsu_is_not_counted_as_kana() {
    let engine = small_engine();
    let text: Vec<char> = "カッカ".chars().collect();
    assert_eq!(kana_count(&engine.lexicon, &text), 2);
}

#[test]
fn long_text_is_cut_into_chunks_of_32_moras() {
    let engine = small_engine();
    let text: Vec<char> = std::iter::repeat('ア').take(40).collect();
    let parts = split_chunks(&engine.lexicon, &text, &Vec::new());
    assert_eq!(parts, vec![(0, 32), (32, 40)]);
    let short: Vec<char> = "アイカ".chars().collect();
    assert_eq!(split_chunks(&engine.lexicon, &short, &Vec::new()), vec![(0, 3)]);
}

#[test]
fn long_text_is_synthesized_chunk_by_chunk() {
    let engine = small_engine();
    let settings = VoiceSettings::default();
    let text: String = std::iter::repeat("アイ").take(20).collect();
    let pcm = synthesize(&text, &settings, &engine).unwrap();
    assert_eq!(pcm.len() % 240, 0);
    assert!(!pcm.is_empty());
}

#[test]
fn pauses_and_breaks_are_recorded_on_their_phrase() {
    let engine = small_engine();
    let paused: Vec<char> = "ア＿イ".chars().collect();
    let phrases = parse(&engine.lexicon, &paused);
    assert_eq!(phrases.len(), 2);
    assert_eq!(phrases[0].pauses, 1);
    assert_eq!(phrases[1].text, vec!['イ']);
    let broken: Vec<char> = "ア／イ｜カ".chars().collect();
    let phrases = parse(&engine.lexicon, &broken);
    assert_eq!(phrases.len(), 1);
    assert_eq!(phrases[0].text, vec!['ア', 'イ', 'カ']);
    assert_eq!(phrases[0].word_breaks, vec![1, 2]);
    assert_eq!(phrases[0].accent_groups, vec![2]);
    let ended: Vec<char> = "アイ？".chars().collect();
    let phrases = parse(&engine.lexicon, &ended);
    assert_eq!(phrases.len(), 1);
    assert_eq!(phrases[0].endings, vec!['？']);
}

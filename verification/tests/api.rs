use shtts::acoustic::{AcousticData, Frame};
use shtts::text::duration::{AmplitudeTable, DurationTables, NasalTable, VowelTable};
use shtts::text::lexicon::Lexicon;
use shtts::{synthesize, EngineData, Emotion, Voice, VoiceSettings, SAMPLE_RATE};

fn empty_engine() -> EngineData {
    EngineData {
        acoustic: AcousticData {
            frames: vec![Frame { voiced: false, amplitude: 0, spectrum: 0, excitable: false }],
            spectra: vec![[0; 10]],
            units: Vec::new(),
            coarse_pitch: [0; 50],
            fine_pitch: [0; 128],
            pulse: [0; 35],
            impulse: [0; 8],
            noise: [0; 360],
            ring_sine: [0; 256],
            amplitude: [0; 91],
            cosine: [0; 129],
        },
        durations: DurationTables {
            vowels: VowelTable { vowel: Vec::new(), left: Vec::new(), right: Vec::new(), word: Vec::new(), phrase: Vec::new() },
            nasals: NasalTable { left: Vec::new(), right: Vec::new(), word: Vec::new(), phrase: Vec::new() },
            amplitudes: AmplitudeTable {
                left: Vec::new(),
                right: Vec::new(),
                mora_count: [0; 11],
                word: Vec::new(),
                phrase: Vec::new(),
                vowel: Vec::new(),
            },
            consonants: Vec::new(),
        },
        lexicon: Lexicon { kana: Vec::new() },
    }
}

#[test]
fn emotion_keeps_speaker_speed_unless_overridden() {
    let shout = VoiceSettings::from(Voice::Male).with_emotion(Emotion::Shout);
    assert_eq!(shout.pitch, 5800);
    assert_eq!(shout.speed, 90);
    assert_eq!(shout.spectral, 90);
    let angry = VoiceSettings::from(Voice::Female).with_emotion(Emotion::Angry);
    assert_eq!(angry.speed, 80);
    assert_eq!(angry.pitch, 5450);
}

#[test]
fn invalid_properties_return_named_errors() {
    let engine = empty_engine();
    for (speed, spectral, name) in [
        (0, 100, "speed"),
        (100, 0, "spectral"),
        (40000, 100, "speed"),
    ] {
        let settings = VoiceSettings {
            speed,
            spectral,
            ..VoiceSettings::default()
        };
        assert_eq!(synthesize("ア", &settings, &engine).unwrap_err().name, name);
    }
}

#[test]
fn invalid_parameter_reports_its_value() {
    let engine = empty_engine();
    let settings = VoiceSettings { pitch: 40000, speed: 0, ..VoiceSettings::default() };
    let error = synthesize("ア", &settings, &engine).unwrap_err();
    assert_eq!(error.name, "pitch");
    assert_eq!(error.value, 40000);
}

#[test]
fn unknown_text_synthesizes_to_silence() {
    let engine = empty_engine();
    let pcm = synthesize("コンニチハ", &VoiceSettings::default(), &engine).unwrap();
    assert!(pcm.is_empty());
    let pcm = synthesize("", &VoiceSettings::default(), &engine).unwrap();
    assert!(pcm.is_empty());
}

#[test]
fn sample_rate_is_11025_hz() {
    assert_eq!(SAMPLE_RATE, 11025);
}

#[test]
fn default_settings_are_neutral() {
    let settings = VoiceSettings::default();
    assert_eq!(settings.pitch, 5058);
    assert_eq!(settings.accent, 100);
    assert_eq!(settings.phrase_accent, 100);
    assert_eq!(settings.speed, 100);
    assert_eq!(settings.spectral, 100);
    assert_eq!(settings.echo_depth, 0);
    assert!(settings.validate().is_ok());
}

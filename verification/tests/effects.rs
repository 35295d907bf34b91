use shtts::dsp::effects::Effects;
use shtts::utterance::{group_segments, Segment, UnitPosition};
use shtts::{InvalidParameter, Voice, VoiceSettings};

fn processed(settings: &VoiceSettings, block: Vec<i32>) -> Vec<i32> {
    let mut effects = Effects::new(settings, &[0i16; 256]);
    let mut block = block;
    effects.process(&mut block);
    block
}

#[test]
fn zero_fluctuation_depth_leaves_samples_untouched() {
    let settings = VoiceSettings { fluctuation_depth: 0, fluctuation_delay: 500, ..VoiceSettings::default() };
    assert_eq!(processed(&settings, vec![20000]), vec![32767]);
    assert_eq!(processed(&VoiceSettings::default(), vec![20000]), vec![32767]);
}

#[test]
fn nonzero_fluctuation_depth_limits_samples() {
    let settings = VoiceSettings { fluctuation_depth: 20, fluctuation_delay: 500, ..VoiceSettings::default() };
    assert_eq!(processed(&settings, vec![20000]), vec![32764]);
}

#[test]
fn echo_repeats_a_sample_after_a_long_delay() {
    let settings = VoiceSettings { echo_depth: 100, echo_delay: 1002, ..VoiceSettings::default() };
    let mut block = vec![0i32; 1003];
    block[0] = 100;
    let output = processed(&settings, block);
    assert_eq!(output[0], 200);
    assert_eq!(output[1002], 200);
    assert!(output[1..1002].iter().all(|&sample| sample == 0));
}

#[test]
fn echo_repeats_a_sample_after_the_longest_delay() {
    let settings = VoiceSettings { echo_depth: 50, echo_delay: 32767, ..VoiceSettings::default() };
    let mut block = vec![0i32; 32768];
    block[0] = 1000;
    let output = processed(&settings, block);
    assert_eq!(output[0], 2000);
    assert_eq!(output[32767], (128 * 2000) >> 8);
    assert!(output[1..32767].iter().all(|&sample| sample == 0));
}

#[test]
fn processing_in_two_blocks_matches_one_block() {
    for voice in [Voice::Sisters, Voice::Space, Voice::Giant] {
        let settings = VoiceSettings::from(voice);
        let sine: Vec<i16> = (0..256).map(|i| ((i * 97) % 511 - 255) as i16 * 100).collect();
        let mut table = [0i16; 256];
        table.copy_from_slice(&sine);
        let stream: Vec<i32> = (0..3000).map(|i| ((i * 7919) % 65535) - 32767).collect();
        let mut whole = stream.clone();
        let mut one = Effects::new(&settings, &table);
        one.process(&mut whole);
        let mut first = stream[..1234].to_vec();
        let mut second = stream[1234..].to_vec();
        let mut two = Effects::new(&settings, &table);
        two.process(&mut first);
        two.process(&mut second);
        first.extend(second);
        assert_eq!(first, whole);
    }
}

#[test]
fn refusal_message_names_the_parameter_and_value() {
    let error = InvalidParameter { name: "speed", value: 0 };
    assert_eq!(error.message(), "invalid speed parameter: 0");
    let error = InvalidParameter { name: "pitch", value: -40000 };
    assert_eq!(error.message(), "invalid pitch parameter: -40000");
    let error = InvalidParameter { name: "ring_rate", value: i32::MIN };
    assert_eq!(error.message(), "invalid ring_rate parameter: -2147483648");
    assert_eq!(error.clone(), error);
}

fn segment(phoneme: usize, unit_start: usize, frames_start: usize, frames_end: usize) -> Segment {
    Segment {
        phoneme,
        periods: 4,
        original_periods: 4,
        unit_start,
        frames_start,
        frames_end,
        pitch: 100,
        amplitude: 500,
        devoiced: false,
        tail_periods: 0,
    }
}

#[test]
fn segments_with_empty_frame_ranges_are_grouped() {
    let segments = vec![
        segment(0, 0, 0, 0),
        segment(5, 10, 2, 2),
        segment(6, 10, 2, 5),
        segment(7, 20, 0, 0),
        segment(0, 30, 1, 1),
    ];
    let groups = group_segments(&segments);
    assert_eq!(groups.len(), 4);
    assert_eq!((groups[0].segments_start, groups[0].segments_end), (0, 1));
    assert_eq!((groups[1].segments_start, groups[1].segments_end), (1, 3));
    assert_eq!((groups[1].frames_start, groups[1].frames_end), (2, 5));
    assert_eq!((groups[2].segments_start, groups[2].segments_end), (3, 4));
    assert_eq!((groups[3].segments_start, groups[3].segments_end), (4, 5));
    assert_eq!(groups[0].position, UnitPosition::Silence);
    assert_eq!(groups[1].position, UnitPosition::Initial);
    assert_eq!(groups[2].position, UnitPosition::Final);
    assert_eq!(groups[3].position, UnitPosition::Silence);
}

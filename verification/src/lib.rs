//! SHTTS speech synthesis with deterministic, fixed-point processing.
use vstd::prelude::*;
use vstd::string::StrSliceExecFns;

pub mod acoustic;
pub mod dsp;
pub mod laws;
pub mod prosody;
pub mod text;
pub mod utterance;
pub mod vocoder;
pub mod voice;

pub use voice::{Emotion, InvalidParameter, Voice, VoiceSettings};

verus! {

/// Playback rate of the PCM, in samples per second.
pub const SAMPLE_RATE: u32 = 11025;

/// The engine's tables: the acoustic inventory, the duration and amplitude model,
/// and the kana lexicon.
pub struct EngineData {
    pub acoustic: acoustic::AcousticData,
    pub durations: text::duration::DurationTables,
    pub lexicon: text::lexicon::Lexicon,
}

impl EngineData {
    /// Tables the engine can synthesize from.
    pub open spec fn wf(&self) -> bool {
        &&& self.acoustic.wf()
        &&& text::analyze::analysable(&self.lexicon, &self.durations)
    }

    /// Checks that the engine can synthesize from these tables.
    pub fn is_valid(&self) -> (result: bool)
        ensures
            result == self.wf(),
    {
        self.acoustic.is_valid() && text::analyze::is_analysable(&self.lexicon, &self.durations)
    }
}

/// The characters of a string.
pub fn characters(text: &str) -> (result: Vec<char>)
    ensures
        result@ == text@,
{
    let length = text.unicode_len();
    let mut result: Vec<char> = Vec::new();
    let mut i: usize = 0;
    while i < length
        invariant
            length == text@.len(),
            i <= length,
            result@ == text@.take(i as int),
        decreases length - i,
    {
        result.push(text.get_char(i));
        assert(text@.take(i + 1) =~= text@.take(i as int).push(text@[i as int]));
        i += 1;
    }
    assert(text@.take(length as int) =~= text@);
    result
}

/// Synthesizes a kana string as mono, signed 16-bit PCM at the playback rate,
/// in whole blocks of 240 samples.
///
/// Unknown characters are skipped; the engine has no kanji reading dictionary.
/// Settings outside the engine's domain are refused with the first offending
/// parameter, in declaration order: a value outside the signed 16-bit range, or a
/// nonpositive speed or spectral scale.
pub fn synthesize(text: &str, settings: &VoiceSettings, data: &EngineData) -> (result: Result<Vec<i16>, InvalidParameter>)
    requires
        data.wf(),
        text@.len() < 0x8000_0000,
    ensures
        match result {
            Ok(pcm) => voice::valid_settings(*settings) && pcm@.len() % (vocoder::BLOCK as nat) == 0 && exists|
                segments: Seq<utterance::Segment>,
            |
                #![trigger vocoder::synthesized(segments, *settings, 11000, &data.acoustic)]
                utterance::segments_wf(segments, &data.acoustic) && text::text_segments(
                    &data.lexicon,
                    &data.durations,
                    &data.acoustic,
                    text@,
                    settings,
                    segments,
                ) && pcm@ == vocoder::synthesized(segments, *settings, 11000, &data.acoustic),
            Err(e) => voice::first_invalid(*settings) == Some((e.name, e.value)),
        },
{
    match settings.validate() {
        Err(e) => Err(e),
        Ok(()) => {
            let chars = characters(text);
            let segments = text::analyze(&data.lexicon, &data.durations, &data.acoustic, &chars, settings);
            let pcm = vocoder::synthesize(&segments, settings, 11000, &data.acoustic);
            assert(vocoder::synthesized(segments@, *settings, 11000, &data.acoustic) == pcm@);
            Ok(pcm)
        },
    }
}

} // verus!

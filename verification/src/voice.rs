//! Voice presets and their parameter overrides.
use vstd::prelude::*;
use vstd::string::StringExecFns;

verus! {

/// A speaker preset from the SHTTS voice table.
#[derive(Clone, Copy, Debug, PartialEq, Eq, Structural)]
pub enum Voice {
    Male,
    Female,
    AdultMale,
    AdultFemale,
    ElderlyMale,
    ElderlyFemale,
    Boy,
    Girl,
    Sisters,
    Meimu,
    Space,
    Giant,
}

/// An emotion modifies the selected speaker before explicit overrides are applied.
#[derive(Clone, Copy, Debug, PartialEq, Eq, Structural)]
pub enum Emotion {
    Angry,
    Business,
    Calm,
    Depressed,
    Excited,
    Falsetto,
    Happy,
    Loud,
    Monotone,
    Perky,
    Quiet,
    Sarcastic,
    Scared,
    Shout,
    Tense,
    Whisper,
}

/// Synthesis parameters in the engine's native integer units.
///
/// The default uses the engine's neutral initialization, without a speaker preset.
#[derive(Clone, Copy, Debug, PartialEq, Eq, Structural)]
pub struct VoiceSettings {
    /// Base pitch code. Larger values produce shorter periods.
    pub pitch: i32,
    /// Initial accent modulation, with 100 as the neutral setting.
    pub accent: i32,
    /// Subsequent accent modulation, with 100 as the neutral setting.
    pub phrase_accent: i32,
    /// Additive amplitude offset in the engine's logarithmic scale.
    pub volume: i32,
    /// Duration percentage. A larger value makes speech slower; must be positive.
    pub speed: i32,
    /// Depth of the delayed pitch-fluctuation effect, zero to disable.
    pub fluctuation_depth: i32,
    /// Delay of the pitch-fluctuation effect in samples, zero to disable.
    pub fluctuation_delay: i32,
    /// Echo delay in samples.
    pub echo_delay: i32,
    /// Spectral scale percentage, with 100 as neutral; must be positive.
    pub spectral: i32,
    /// Echo mix percentage, zero to disable.
    pub echo_depth: i32,
    /// Ring-modulator rate in the engine's native units, zero to disable.
    pub ring_rate: i32,
}

/// The neutral initialization: no speaker preset, no effects.
pub open spec fn neutral_settings() -> VoiceSettings {
    VoiceSettings {
        pitch: 5058,
        accent: 100,
        phrase_accent: 100,
        volume: 0,
        speed: 100,
        fluctuation_depth: 0,
        fluctuation_delay: 0,
        echo_delay: 0,
        spectral: 100,
        echo_depth: 0,
        ring_rate: 0,
    }
}

impl Default for VoiceSettings {
    fn default() -> (settings: Self)
        ensures
            settings == neutral_settings(),
    {
        VoiceSettings {
            pitch: 5058,
            accent: 100,
            phrase_accent: 100,
            volume: 0,
            speed: 100,
            fluctuation_depth: 0,
            fluctuation_delay: 0,
            echo_delay: 0,
            spectral: 100,
            echo_depth: 0,
            ring_rate: 0,
        }
    }
}

/// Base pitch, speed and spectral scale of each speaker.
pub open spec fn speaker_base(voice: Voice) -> (i32, i32, i32) {
    match voice {
        Voice::Male => (4800, 90, 90),
        Voice::Female => (5250, 90, 103),
        Voice::AdultMale => (4800, 100, 97),
        Voice::AdultFemale => (5100, 100, 100),
        Voice::ElderlyMale => (4300, 120, 85),
        Voice::ElderlyFemale => (5250, 130, 95),
        Voice::Boy => (5400, 80, 107),
        Voice::Girl => (5650, 75, 115),
        Voice::Sisters => (5250, 90, 103),
        Voice::Meimu => (5700, 100, 120),
        Voice::Space => (5300, 100, 100),
        Voice::Giant => (4200, 130, 84),
    }
}

/// The settings of a speaker preset: the neutral settings with the speaker's pitch,
/// speed and spectral scale, a mild fluctuation, and the speaker's own effects.
pub open spec fn voice_preset(voice: Voice) -> VoiceSettings {
    let (pitch, speed, spectral) = speaker_base(voice);
    let base = VoiceSettings {
        pitch,
        speed,
        spectral,
        fluctuation_depth: 20,
        fluctuation_delay: 500,
        ..neutral_settings()
    };
    match voice {
        Voice::Sisters => VoiceSettings { echo_delay: 700, echo_depth: 80, ..base },
        Voice::Space => VoiceSettings {
            fluctuation_depth: 30,
            fluctuation_delay: 2000,
            ring_rate: 1000,
            ..base
        },
        Voice::Giant => VoiceSettings { fluctuation_depth: 60, fluctuation_delay: 1500, ..base },
        _ => base,
    }
}

impl VoiceSettings {
    /// Builds the settings of a speaker preset.
    pub fn from_voice(voice: Voice) -> (settings: Self)
        ensures
            settings == voice_preset(voice),
    {
        let (pitch, speed, spectral): (i32, i32, i32) = match voice {
            Voice::Male => (4800, 90, 90),
            Voice::Female => (5250, 90, 103),
            Voice::AdultMale => (4800, 100, 97),
            Voice::AdultFemale => (5100, 100, 100),
            Voice::ElderlyMale => (4300, 120, 85),
            Voice::ElderlyFemale => (5250, 130, 95),
            Voice::Boy => (5400, 80, 107),
            Voice::Girl => (5650, 75, 115),
            Voice::Sisters => (5250, 90, 103),
            Voice::Meimu => (5700, 100, 120),
            Voice::Space => (5300, 100, 100),
            Voice::Giant => (4200, 130, 84),
        };
        let mut settings = VoiceSettings {
            pitch,
            speed,
            spectral,
            fluctuation_depth: 20,
            fluctuation_delay: 500,
            ..VoiceSettings::default()
        };
        match voice {
            Voice::Sisters => {
                settings.echo_delay = 700;
                settings.echo_depth = 80;
            },
            Voice::Space => {
                settings.fluctuation_depth = 30;
                settings.fluctuation_delay = 2000;
                settings.ring_rate = 1000;
            },
            Voice::Giant => {
                settings.fluctuation_depth = 60;
                settings.fluctuation_delay = 1500;
            },
            _ => {},
        }
        settings
    }
}

impl From<Voice> for VoiceSettings {
    fn from(voice: Voice) -> (settings: Self) {
        VoiceSettings::from_voice(voice)
    }
}

impl vstd::std_specs::convert::FromSpecImpl<Voice> for VoiceSettings {
    open spec fn obeys_from_spec() -> bool {
        true
    }

    open spec fn from_spec(voice: Voice) -> VoiceSettings {
        voice_preset(voice)
    }
}

/// Pitch offset, accent, phrase accent, volume and speed of each emotion.
pub open spec fn emotion_table(emotion: Emotion) -> (int, int, int, int, int) {
    match emotion {
        Emotion::Angry => (200, 130, 60, 30, 80),
        Emotion::Business => (0, 90, 90, 0, 90),
        Emotion::Calm => (0, 90, 90, 0, 110),
        Emotion::Depressed => (-200, 90, 90, 0, 110),
        Emotion::Excited => (200, 120, 120, 0, 90),
        Emotion::Falsetto => (700, 100, 100, 0, 100),
        Emotion::Happy => (100, 140, 100, 0, 100),
        Emotion::Loud => (0, 100, 100, 60, 100),
        Emotion::Monotone => (500, 0, 0, 0, 100),
        Emotion::Perky => (0, 140, 140, 0, 100),
        Emotion::Quiet => (0, 100, 100, -60, 100),
        Emotion::Sarcastic => (-100, 100, 70, 0, 80),
        Emotion::Scared => (500, 60, 90, 0, 80),
        Emotion::Shout => (1000, 40, 40, 60, 100),
        Emotion::Tense => (400, 60, 60, 0, 100),
        Emotion::Whisper => (0, 100, 100, -200, 100),
    }
}

/// The settings after an emotion: the pitch shifted, accents and volume replaced,
/// the speed replaced unless the emotion keeps it (100), and the fluctuation and
/// spectral overrides of the happy and scared emotions.
pub open spec fn emotion_applied(settings: VoiceSettings, emotion: Emotion) -> VoiceSettings {
    let (pitch, accent, phrase, volume, speed) = emotion_table(emotion);
    let fluctuating = emotion == Emotion::Happy || emotion == Emotion::Scared;
    VoiceSettings {
        pitch: (settings.pitch + pitch) as i32,
        accent: accent as i32,
        phrase_accent: phrase as i32,
        volume: volume as i32,
        speed: if speed != 100 {
            speed as i32
        } else {
            settings.speed
        },
        fluctuation_depth: if fluctuating {
            50
        } else {
            settings.fluctuation_depth
        },
        fluctuation_delay: if fluctuating {
            500
        } else {
            settings.fluctuation_delay
        },
        spectral: if emotion == Emotion::Happy {
            105
        } else {
            settings.spectral
        },
        ..settings
    }
}

/// A parameter is representable when it fits the native signed 16-bit domain,
/// and speed and spectral scaling are also positive.
pub open spec fn in_domain(value: i32) -> bool {
    i16::MIN <= value <= i16::MAX
}

impl VoiceSettings {
    /// Applies an emotion; the pitch offset must not overflow.
    pub fn with_emotion(self, emotion: Emotion) -> (result: Self)
        requires
            i32::MIN <= self.pitch + emotion_table(emotion).0 <= i32::MAX,
        ensures
            result == emotion_applied(self, emotion),
    {
        let mut settings = self;
        let (pitch, accent, phrase, volume, speed): (i32, i32, i32, i32, i32) = match emotion {
            Emotion::Angry => (200, 130, 60, 30, 80),
            Emotion::Business => (0, 90, 90, 0, 90),
            Emotion::Calm => (0, 90, 90, 0, 110),
            Emotion::Depressed => (-200, 90, 90, 0, 110),
            Emotion::Excited => (200, 120, 120, 0, 90),
            Emotion::Falsetto => (700, 100, 100, 0, 100),
            Emotion::Happy => (100, 140, 100, 0, 100),
            Emotion::Loud => (0, 100, 100, 60, 100),
            Emotion::Monotone => (500, 0, 0, 0, 100),
            Emotion::Perky => (0, 140, 140, 0, 100),
            Emotion::Quiet => (0, 100, 100, -60, 100),
            Emotion::Sarcastic => (-100, 100, 70, 0, 80),
            Emotion::Scared => (500, 60, 90, 0, 80),
            Emotion::Shout => (1000, 40, 40, 60, 100),
            Emotion::Tense => (400, 60, 60, 0, 100),
            Emotion::Whisper => (0, 100, 100, -200, 100),
        };
        settings.pitch = settings.pitch + pitch;
        settings.accent = accent;
        settings.phrase_accent = phrase;
        settings.volume = volume;
        if speed != 100 {
            settings.speed = speed;
        }
        if matches!(emotion, Emotion::Happy | Emotion::Scared) {
            settings.fluctuation_depth = 50;
            settings.fluctuation_delay = 500;
        }
        if matches!(emotion, Emotion::Happy) {
            settings.spectral = 105;
        }
        settings
    }
}

} // verus!

verus! {

/// A synthesis property that cannot be represented by the engine.
#[derive(Clone, Debug, PartialEq, Eq)]
pub struct InvalidParameter {
    pub name: &'static str,
    pub value: i32,
}

/// A decimal digit.
pub open spec fn digit_char(digit: nat) -> char {
    seq!['0', '1', '2', '3', '4', '5', '6', '7', '8', '9'][digit as int]
}

/// The decimal digits of a natural number, most significant first.
pub open spec fn digits(n: nat) -> Seq<char>
    decreases n,
{
    if n < 10 {
        seq![digit_char(n)]
    } else {
        digits(n / 10).push(digit_char(n % 10))
    }
}

/// An integer in decimal, with a leading minus sign when it is negative.
pub open spec fn decimal(value: int) -> Seq<char> {
    if value < 0 {
        seq!['-'] + digits((-value) as nat)
    } else {
        digits(value as nat)
    }
}

fn digit_text(digit: u32) -> (text: &'static str)
    requires
        digit < 10,
    ensures
        text@ == seq![digit_char(digit as nat)],
{
    match digit {
        0 => {
            proof { reveal_strlit("0"); }
            "0"
        },
        1 => {
            proof { reveal_strlit("1"); }
            "1"
        },
        2 => {
            proof { reveal_strlit("2"); }
            "2"
        },
        3 => {
            proof { reveal_strlit("3"); }
            "3"
        },
        4 => {
            proof { reveal_strlit("4"); }
            "4"
        },
        5 => {
            proof { reveal_strlit("5"); }
            "5"
        },
        6 => {
            proof { reveal_strlit("6"); }
            "6"
        },
        7 => {
            proof { reveal_strlit("7"); }
            "7"
        },
        8 => {
            proof { reveal_strlit("8"); }
            "8"
        },
        _ => {
            proof { reveal_strlit("9"); }
            "9"
        },
    }
}

fn append_digits(text: &mut String, n: u32)
    ensures
        final(text)@ == old(text)@ + digits(n as nat),
    decreases n,
{
    let ghost start = text@;
    if n >= 10 {
        append_digits(text, n / 10);
    }
    text.append(digit_text(n % 10));
    proof {
        if n >= 10 {
            assert(start + digits((n / 10) as nat) + seq![digit_char((n % 10) as nat)] =~= start + digits(
                n as nat,
            ));
        } else {
            assert(start + seq![digit_char((n % 10) as nat)] =~= start + digits(n as nat));
        }
    }
}

impl InvalidParameter {
    /// The refusal in words: `invalid <name> parameter: <value>`.
    pub fn message(&self) -> (text: String)
        ensures
            text@ == "invalid "@ + self.name@ + " parameter: "@ + decimal(self.value as int),
    {
        let mut text = String::from_str("invalid ");
        text.append(self.name);
        text.append(" parameter: ");
        let ghost prefix = text@;
        if self.value < 0 {
            text.append("-");
            proof { reveal_strlit("-"); }
            let magnitude: u32 = (-(self.value as i64)) as u32;
            append_digits(&mut text, magnitude);
            assert(text@ =~= prefix + decimal(self.value as int));
        } else {
            append_digits(&mut text, self.value as u32);
        }
        text
    }
}

/// Whether a named value is out of the engine's domain: outside the signed 16-bit
/// range, or nonpositive for the two scaling percentages.
pub open spec fn rejected(value: i32, must_be_positive: bool) -> bool {
    !in_domain(value) || (must_be_positive && value <= 0)
}

/// The first parameter, in declaration order, that the engine cannot represent.
pub open spec fn first_invalid(s: VoiceSettings) -> Option<(&'static str, i32)> {
    if rejected(s.pitch, false) {
        Some(("pitch", s.pitch))
    } else if rejected(s.accent, false) {
        Some(("accent", s.accent))
    } else if rejected(s.phrase_accent, false) {
        Some(("phrase_accent", s.phrase_accent))
    } else if rejected(s.volume, false) {
        Some(("volume", s.volume))
    } else if rejected(s.speed, true) {
        Some(("speed", s.speed))
    } else if rejected(s.fluctuation_depth, false) {
        Some(("fluctuation_depth", s.fluctuation_depth))
    } else if rejected(s.fluctuation_delay, false) {
        Some(("fluctuation_delay", s.fluctuation_delay))
    } else if rejected(s.echo_delay, false) {
        Some(("echo_delay", s.echo_delay))
    } else if rejected(s.spectral, true) {
        Some(("spectral", s.spectral))
    } else if rejected(s.echo_depth, false) {
        Some(("echo_depth", s.echo_depth))
    } else if rejected(s.ring_rate, false) {
        Some(("ring_rate", s.ring_rate))
    } else {
        None
    }
}

/// Settings the engine accepts: every parameter in the signed 16-bit domain,
/// with positive speed and spectral scaling.
pub open spec fn valid_settings(s: VoiceSettings) -> bool {
    first_invalid(s) is None
}

fn check(name: &'static str, value: i32, must_be_positive: bool) -> (result: Result<(), InvalidParameter>)
    ensures
        result is Ok <==> !rejected(value, must_be_positive),
        result matches Err(e) ==> e.name == name && e.value == value,
{
    if value < -32768 || value > 32767 || (must_be_positive && value <= 0) {
        Err(InvalidParameter { name, value })
    } else {
        Ok(())
    }
}

impl VoiceSettings {
    /// Checks every parameter in declaration order and names the first one
    /// that the engine cannot represent.
    pub fn validate(&self) -> (result: Result<(), InvalidParameter>)
        ensures
            result is Ok <==> first_invalid(*self) is None,
            result matches Err(e) ==> first_invalid(*self) == Some((e.name, e.value)),
    {
        check("pitch", self.pitch, false)?;
        check("accent", self.accent, false)?;
        check("phrase_accent", self.phrase_accent, false)?;
        check("volume", self.volume, false)?;
        check("speed", self.speed, true)?;
        check("fluctuation_depth", self.fluctuation_depth, false)?;
        check("fluctuation_delay", self.fluctuation_delay, false)?;
        check("echo_delay", self.echo_delay, false)?;
        check("spectral", self.spectral, true)?;
        check("echo_depth", self.echo_depth, false)?;
        check("ring_rate", self.ring_rate, false)?;
        Ok(())
    }
}

} // verus!

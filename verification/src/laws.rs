//! Properties of the engine that hold across its operations.
use vstd::prelude::*;
use crate::dsp::{abs, pitch_quotient, rounded_quotient};
use crate::dsp::effects::{ECHO_HISTORY, EchoState, EffectsState, echoed};
use crate::text::accent::{Accent, modulation_factor, scaled_initial_value};
use crate::text::{Entry, Node};
use crate::text::analyze::Phrasing;
use crate::text::duration::{ConsonantContext, DurationTables, VowelContext, correction_of, palatal_offset};
use crate::text::lexicon::{Lexicon, split_from};
use crate::voice::{Emotion, Voice, VoiceSettings, emotion_applied, emotion_table, first_invalid, neutral_settings, valid_settings, voice_preset};
use crate::dsp::effects::effects_for;

verus! {

/// An emotion that keeps the speaker's speed leaves the speed as the speaker set
/// it; any other emotion sets its own speed.
pub proof fn emotion_keeps_speaker_speed_unless_overridden(settings: VoiceSettings, emotion: Emotion)
    requires
        i32::MIN <= settings.pitch + emotion_table(emotion).0 <= i32::MAX,
    ensures
        emotion_table(emotion).4 == 100 ==> emotion_applied(settings, emotion).speed == settings.speed,
        emotion_table(emotion).4 != 100 ==> emotion_applied(settings, emotion).speed == emotion_table(emotion).4,
        emotion_applied(settings, emotion).pitch == settings.pitch + emotion_table(emotion).0,
{
}

/// Applying the same emotion twice shifts the pitch twice but otherwise changes
/// nothing more.
pub proof fn emotion_settles_after_one_application(settings: VoiceSettings, emotion: Emotion)
    requires
        i32::MIN <= settings.pitch + 2 * emotion_table(emotion).0 <= i32::MAX,
        i32::MIN <= settings.pitch + emotion_table(emotion).0 <= i32::MAX,
    ensures
        ({
            let once = emotion_applied(settings, emotion);
            let twice = emotion_applied(once, emotion);
            twice == VoiceSettings { pitch: (once.pitch + emotion_table(emotion).0) as i32, ..once }
        }),
{
}

/// Settings are refused exactly when some parameter lies outside the engine's
/// domain, and the refusal names a parameter with its value.
pub proof fn refusal_names_an_invalid_parameter(settings: VoiceSettings)
    ensures
        valid_settings(settings) <==> first_invalid(settings) is None,
        first_invalid(settings) matches Some((name, value)) ==> (value < -32768 || value > 32767 || ((name
            == "speed" || name == "spectral") && value <= 0)),
{
}

/// Rounding half away from zero is symmetric: negating the numerator or the
/// denominator negates the quotient.
pub proof fn rounding_is_symmetric(numerator: int, denominator: int)
    ensures
        rounded_quotient(-numerator, denominator) == -rounded_quotient(numerator, denominator),
        rounded_quotient(numerator, -denominator) == -rounded_quotient(numerator, denominator),
{
    if denominator != 0 {
        let d = abs(denominator);
        assert(0 <= (d / 2) / d < 1) by (nonlinear_arith)
            requires
                d > 0;
        assert(abs(-numerator) == abs(numerator));
        assert(abs(-denominator) == d);
    }
}

/// Pitch quotients saturate to the signed 15-bit range.
pub proof fn pitch_quotient_saturates(numerator: int, denominator: int)
    ensures
        -32767 <= pitch_quotient(numerator, denominator) <= 32767,
{
}

/// A character that neither starts a two-character spelling nor is a spelling is
/// skipped when text is split into kana.
pub proof fn unknown_characters_are_skipped(lexicon: &Lexicon, text: Seq<char>, position: int)
    requires
        lexicon.wf(),
        0 <= position < text.len(),
        lexicon.lookup_spec(
            text.subrange(
                position,
                if position + 2 <= text.len() {
                    position + 2
                } else {
                    text.len() as int
                },
            ),
        ) is None,
        lexicon.lookup_spec(text.subrange(position, position + 1)) is None,
    ensures
        split_from(lexicon, text, position) == split_from(lexicon, text, position + 1),
{
}

/// Text in which no character is spelled by the lexicon, alone or with the next
/// character, holds no kana.
pub proof fn unknown_text_has_no_kana(lexicon: &Lexicon, text: Seq<char>, position: int)
    requires
        lexicon.wf(),
        0 <= position,
        forall|p: int|
            position <= p < text.len() ==> #[trigger] lexicon.lookup_spec(text.subrange(p, p + 1)) is None
                && lexicon.lookup_spec(
                text.subrange(
                    p,
                    if p + 2 <= text.len() {
                        p + 2
                    } else {
                        text.len() as int
                    },
                ),
            ) is None,
    ensures
        split_from(lexicon, text, position).len() == 0,
    decreases text.len() - position,
{
    if position < text.len() {
        assert(lexicon.lookup_spec(text.subrange(position, position + 1)) is None);
        unknown_text_has_no_kana(lexicon, text, position + 1);
    }
}

/// What an echo has recorded after the first `m` inputs: the count, its
/// parameters, and each of the last `ECHO_HISTORY - 1` inputs in its slot.
proof fn echo_remembers_recent_inputs(gain: i32, delay: usize, inputs: Seq<i16>, m: int)
    requires
        0 <= m <= inputs.len(),
        m <= usize::MAX,
    ensures
        ({
            let state = EchoState::fresh(gain, delay).fed(inputs.take(m));
            &&& state.gain == gain
            &&& state.delay == delay
            &&& state.count == m
            &&& state.history.len() == ECHO_HISTORY
            &&& forall|t: int|
                0 <= t < m && m - (ECHO_HISTORY as int) < t ==> #[trigger] state.history[t % (ECHO_HISTORY as int)]
                    == inputs[t]
        }),
    decreases m,
{
    if m > 0 {
        echo_remembers_recent_inputs(gain, delay, inputs, m - 1);
        let previous = EchoState::fresh(gain, delay).fed(inputs.take(m - 1));
        assert(inputs.take(m).drop_last() =~= inputs.take(m - 1));
        assert(inputs.take(m).last() == inputs[m - 1]);
        let state = EchoState::fresh(gain, delay).fed(inputs.take(m));
        assert(state == previous.next(inputs[m - 1]));
        assert forall|t: int|
            0 <= t < m && m - (ECHO_HISTORY as int) < t implies #[trigger] state.history[t % (ECHO_HISTORY as int)]
                == inputs[t] by {
            if t < m - 1 {
                assert(t % (ECHO_HISTORY as int) != (m - 1) % (ECHO_HISTORY as int));
                assert(previous.history[t % (ECHO_HISTORY as int)] == inputs[t]);
            }
        }
    } else {
        assert(inputs.take(0) =~= Seq::<i16>::empty());
    }
}

/// Once the delay has passed, each output of an echo is the input plus the
/// input `delay` samples earlier, scaled by the gain; before that the input
/// passes through.
pub proof fn echo_repeats_each_input_delay_samples_later(gain: i32, delay: usize, inputs: Seq<i16>, n: int)
    requires
        0 < delay < ECHO_HISTORY,
        0 <= n < inputs.len(),
        n < usize::MAX,
    ensures
        EchoState::fresh(gain, delay).fed(inputs.take(n)).output(inputs[n]) == echoed(gain, delay, inputs, n),
{
    echo_remembers_recent_inputs(gain, delay, inputs, n);
    let state = EchoState::fresh(gain, delay).fed(inputs.take(n));
    if n >= delay {
        let t = n - delay;
        assert(state.history[t % (ECHO_HISTORY as int)] == inputs[t]);
    }
}

/// The output stage's state after a prefix of a stream depends on that prefix alone.
proof fn effects_state_depends_on_prefix(state: EffectsState, first: Seq<i32>, second: Seq<i32>, count: nat)
    requires
        count <= first.len(),
    ensures
        state.after(first + second, count) == state.after(first, count),
    decreases count,
{
    if count > 0 {
        effects_state_depends_on_prefix(state, first, second, (count - 1) as nat);
        assert((first + second)[count - 1] == first[count - 1]);
    }
}

/// The output stage's state within the second of two blocks continues from its
/// state after the first.
proof fn effects_state_continues_across_blocks(state: EffectsState, first: Seq<i32>, second: Seq<i32>, count: nat)
    requires
        count <= second.len(),
    ensures
        state.after(first + second, first.len() + count) == state.after(first, first.len()).after(second, count),
    decreases count,
{
    if count == 0 {
        effects_state_depends_on_prefix(state, first, second, first.len());
    } else {
        effects_state_continues_across_blocks(state, first, second, (count - 1) as nat);
        assert((first + second)[first.len() + count - 1] == second[count - 1]);
        assert((first.len() + count - 1) as nat == (first.len() + (count - 1)) as nat);
    }
}

/// Feeding the output stage a stream in two consecutive blocks gives the same
/// samples, and leaves it in the same state, as feeding it the stream in one block.
pub proof fn processing_in_blocks_matches_one_block(state: EffectsState, first: Seq<i32>, second: Seq<i32>)
    ensures
        state.outputs(first + second) == state.outputs(first) + state.after(first, first.len()).outputs(second),
        state.after(first + second, (first + second).len()) == state.after(first, first.len()).after(
            second,
            second.len(),
        ),
{
    let whole = first + second;
    let middle = state.after(first, first.len());
    assert forall|i: int| 0 <= i < whole.len() implies #[trigger] state.outputs(whole)[i] == (state.outputs(first)
        + middle.outputs(second))[i] by {
        if i < first.len() {
            effects_state_depends_on_prefix(state, first, second, i as nat);
        } else {
            effects_state_continues_across_blocks(state, first, second, (i - first.len()) as nat);
            assert((first.len() + (i - first.len())) as nat == i as nat);
        }
    }
    assert(state.outputs(whole) =~= state.outputs(first) + middle.outputs(second));
    effects_state_continues_across_blocks(state, first, second, second.len());
}

/// An accent setting's modulation factor is 10 × setting × 655 / 65536, rounded
/// to the nearest integer (halves up).
pub proof fn modulation_factor_scales_the_setting(setting: i32)
    requires
        -32768 <= setting <= 32767,
    ensures
        modulation_factor(setting) == (6550 * setting + 32768) / 65536,
{
    let x = 10i32.wrapping_mul(setting).wrapping_mul(655).wrapping_add(32768);
    assert(x == 6550 * setting + 32768);
    assert((x >> 16i32) * 65536 <= x < (x >> 16i32) * 65536 + 65536) by (bit_vector);
}

/// The accent with another initial accent setting.
pub open spec fn with_accent_setting(accent: Accent, setting: i32) -> Accent {
    Accent { settings: VoiceSettings { accent: setting, ..accent.settings }, ..accent }
}

/// The accent with another phrase accent setting.
pub open spec fn with_phrase_accent_setting(accent: Accent, setting: i32) -> Accent {
    Accent { settings: VoiceSettings { phrase_accent: setting, ..accent.settings }, ..accent }
}

proof fn group_rates_ignore_accent_setting(
    accent: Accent,
    setting: i32,
    entries: Seq<Entry>,
    nodes: Seq<Node>,
    phrase_rate: i32,
    g: int,
)
    ensures
        with_accent_setting(accent, setting).group_rates(entries, nodes, phrase_rate, g) == accent.group_rates(
            entries,
            nodes,
            phrase_rate,
            g,
        ),
    decreases g,
{
    if g > 0 {
        group_rates_ignore_accent_setting(accent, setting, entries, nodes, phrase_rate, g - 1);
    }
}

proof fn pitch_values_ignore_accent_setting(
    accent: Accent,
    setting: i32,
    nodes: Seq<Node>,
    initial_pitch: Seq<i32>,
    second_pass: Seq<i32>,
    rates: Seq<i32>,
    offsets: Seq<i32>,
    phrase_rate: i32,
    amplitude: i32,
    next_mod: i32,
    k: int,
)
    ensures
        with_accent_setting(accent, setting).pitch_values(
            nodes,
            initial_pitch,
            second_pass,
            rates,
            offsets,
            phrase_rate,
            amplitude,
            next_mod,
            k,
        ) == accent.pitch_values(nodes, initial_pitch, second_pass, rates, offsets, phrase_rate, amplitude, next_mod, k),
    decreases k,
{
    if k > 0 {
        pitch_values_ignore_accent_setting(
            accent,
            setting,
            nodes,
            initial_pitch,
            second_pass,
            rates,
            offsets,
            phrase_rate,
            amplitude,
            next_mod,
            k - 1,
        );
    }
}

proof fn rises_ignore_phrase_accent_setting(
    accent: Accent,
    setting: i32,
    nodes: Seq<Node>,
    entries: Seq<Entry>,
    first_mod: i32,
    initial: i32,
    words: Seq<usize>,
    w: int,
)
    ensures
        with_phrase_accent_setting(accent, setting).rises(nodes, entries, first_mod, initial, words, w)
            == accent.rises(nodes, entries, first_mod, initial, words, w),
    decreases w,
{
    if w > 0 {
        rises_ignore_phrase_accent_setting(accent, setting, nodes, entries, first_mod, initial, words, w - 1);
        reveal(Accent::word_rise);
    }
}

/// The initial accent setting shapes only the contour's first pass: the
/// rest of the contour, built on a given first pass, is the same whatever
/// that setting is.
pub proof fn only_the_first_pass_follows_the_accent_setting(
    accent: Accent,
    setting: i32,
    entries: Seq<Entry>,
    nodes: Seq<Node>,
    initial_pitch: Seq<i32>,
)
    ensures
        with_accent_setting(accent, setting).contour_from(entries, nodes, initial_pitch) == accent.contour_from(
            entries,
            nodes,
            initial_pitch,
        ),
{
    let other = with_accent_setting(accent, setting);
    let duration = match accent.duration_override {
        Some(d) => d,
        None => crate::text::duration_total(entries),
    };
    let phrase_rate = crate::text::accent::rate_value(duration);
    group_rates_ignore_accent_setting(accent, setting, entries, nodes, phrase_rate, accent.groups@.len() as int);
    let (rates, offsets) = accent.group_rates(entries, nodes, phrase_rate, accent.groups@.len() as int);
    let next_mod = modulation_factor(accent.settings.phrase_accent);
    let effective_mod: i32 = if accent.zero_amplitude {
        0
    } else if accent.half_amplitude {
        next_mod >> 1i32
    } else {
        next_mod
    };
    let amplitude = 105i32.wrapping_mul(effective_mod);
    let second_pass = accent.second_pass_values(entries, nodes, amplitude);
    pitch_values_ignore_accent_setting(
        accent,
        setting,
        nodes,
        initial_pitch,
        second_pass,
        rates,
        offsets,
        phrase_rate,
        amplitude,
        next_mod,
        nodes.len() as int,
    );
}

/// The contour is built on a first pass whose initial pitches are modulated by
/// the initial accent setting alone, at 10 × setting × 655 / 65536 rounded: the
/// phrase accent setting does not enter the first pass.
pub proof fn first_pass_is_modulated_by_the_accent_setting(
    accent: Accent,
    phrase_setting: i32,
    entries: Seq<Entry>,
    nodes: Seq<Node>,
)
    requires
        -32768 <= accent.settings.accent <= 32767,
    ensures
        ({
            let factor = ((6550 * accent.settings.accent + 32768) / 65536) as i32;
            &&& accent.first_pass(entries, nodes) == accent.initial_pitch_values(
                nodes,
                entries,
                factor,
                scaled_initial_value(factor, accent.nasal, accent.initial_scale),
            )
            &&& accent.contour_values(entries, nodes) == accent.contour_from(
                entries,
                nodes,
                accent.first_pass(entries, nodes),
            )
            &&& with_phrase_accent_setting(accent, phrase_setting).first_pass(entries, nodes) == accent.first_pass(
                entries,
                nodes,
            )
        }),
{
    modulation_factor_scales_the_setting(accent.settings.accent);
    let words = crate::text::accent::clipped_from(accent.words@, 0, 0, nodes.len() as int);
    let factor = modulation_factor(accent.settings.accent);
    rises_ignore_phrase_accent_setting(
        accent,
        phrase_setting,
        nodes,
        entries,
        factor,
        scaled_initial_value(factor, accent.nasal, accent.initial_scale),
        words,
        words.len() as int,
    );
}

/// A vowel's duration at neutral speed (100) is at least 70 periods, and at any
/// other speed it is that duration times the speed percentage, rounded half up:
/// so a slower speed setting never shortens a vowel.
pub proof fn vowel_duration_scales_with_speed(
    context: VowelContext,
    tables: &DurationTables,
    speed: i32,
    slower: i32,
)
    requires
        1 <= speed <= slower <= 32767,
    ensures
        context.duration_of(tables, 100) >= 70,
        context.duration_of(tables, speed) == (context.duration_of(tables, 100) * speed + 50) / 100,
        context.duration_of(tables, speed) <= context.duration_of(tables, slower),
{
    let v = tables.vowels;
    let sum = correction_of(v.vowel@, context.vowel) + 4860 + correction_of(v.left@, context.left)
        + correction_of(v.right@, context.right) + correction_of(v.word@, context.position.word)
        + correction_of(v.phrase@, context.position.phrase);
    assert(-200000 <= sum <= 200000);
    let x = sum as i32;
    assert(-4000 <= x >> 6i32 <= 4000) by (bit_vector)
        requires
            -200000 <= x <= 200000;
    let base: i32 = if (x >> 6i32) > 70 {
        (x >> 6i32) as i32
    } else {
        70i32
    };
    assert(70 <= base <= 4000);
    assert(0 <= base * speed <= base * slower <= 4000 * 32767) by (nonlinear_arith)
        requires
            70 <= base <= 4000,
            1 <= speed <= slower <= 32767;
    assert((base * 100 + 50) / 100 == base) by (nonlinear_arith)
        requires
            70 <= base <= 4000;
    assert(abs(base * 100) == base * 100 && abs(100) == 100);
    assert(rounded_quotient(base * 100, 100) == base);
    assert(rounded_quotient(base * speed, 100) == (base * speed + 50) / 100);
    assert(rounded_quotient(base * slower, 100) == (base * slower + 50) / 100);
}

/// The output stage's soft knee on a mixed sample: the sample doubled, with the
/// part beyond ±27000 halved, and the result kept within ±32767.
pub open spec fn soft_knee(sample: int) -> int {
    let doubled = 2 * sample;
    if doubled > 27000 {
        let soft = 27000 + (doubled - 27000) / 2;
        if soft < 32767 {
            soft
        } else {
            32767
        }
    } else if doubled < -27000 {
        let soft = -27000 + (doubled + 27000) / 2;
        if soft > -32767 {
            soft
        } else {
            -32767
        }
    } else {
        doubled
    }
}

/// The output stage with no effect enabled.
pub open spec fn plain(state: EffectsState) -> bool {
    state.echo is None && state.ring is None && state.fluctuation is None
}

proof fn plain_stage_stays_plain(state: EffectsState, block: Seq<i32>, count: nat)
    requires
        plain(state),
    ensures
        plain(state.after(block, count)),
    decreases count,
{
    if count > 0 {
        plain_stage_stays_plain(state, block, (count - 1) as nat);
    }
}

/// With no effect enabled, the output stage only compresses: each sample comes
/// out doubled, with the part beyond ±27000 halved (a soft knee) and the
/// result within ±32767.
pub proof fn plain_output_stage_applies_a_soft_knee(state: EffectsState, block: Seq<i32>)
    requires
        plain(state),
        forall|i: int| 0 <= i < block.len() ==> -32767 <= #[trigger] block[i] <= 32767,
    ensures
        state.outputs(block).len() == block.len(),
        forall|i: int| 0 <= i < block.len() ==> #[trigger] state.outputs(block)[i] == soft_knee(block[i] as int),
{
    assert forall|i: int| 0 <= i < block.len() implies #[trigger] state.outputs(block)[i] == soft_knee(
        block[i] as int,
    ) by {
        plain_stage_stays_plain(state, block, i as nat);
        let d = (block[i] * 2) as i32;
        let up = (d - 27000) as i32;
        let down = (d + 27000) as i32;
        assert(2 * (up >> 1) <= up < 2 * (up >> 1) + 2 && 2 * (down >> 1) <= down < 2 * (down >> 1) + 2)
            by (bit_vector)
            requires
                -100000 <= up <= 100000,
                -100000 <= down <= 100000;
    }
}

/// Neutral settings enable no output effect.
pub proof fn neutral_settings_enable_no_effect(sine: [i16; 256])
    ensures
        plain(effects_for(neutral_settings(), sine)),
{
}

/// Each speaker preset: neutral accents and volume; the speaker's pitch, speed and
/// spectral scale; a mild fluctuation (20 deep, 500 samples) except the space
/// voice's (30, 2000) and the giant's (60, 1500); an echo (700 samples, 80%) for
/// the sisters only, and ring modulation (rate 1000) for the space voice only.
/// Every preset is valid.
pub proof fn speaker_presets_are_the_documented_voices(voice: Voice, sine: [i16; 256])
    ensures
        ({
            let s = voice_preset(voice);
            &&& s.accent == 100 && s.phrase_accent == 100 && s.volume == 0
            &&& (s.pitch, s.speed, s.spectral) == match voice {
                Voice::Male => (4800i32, 90i32, 90i32),
                Voice::Female => (5250, 90, 103),
                Voice::AdultMale => (4800, 100, 97),
                Voice::AdultFemale => (5100, 100, 100),
                Voice::ElderlyMale => (4300, 120, 85),
                Voice::ElderlyFemale => (5250, 130, 95),
                Voice::Boy => (5400, 80, 107),
                Voice::Girl => (5650, 75, 115),
                Voice::Sisters => (5250, 90, 103),
                Voice::Meimu => (5700, 100, 120),
                Voice::Space => (5300, 100, 100),
                Voice::Giant => (4200, 130, 84),
            }
            &&& (s.fluctuation_depth, s.fluctuation_delay) == match voice {
                Voice::Space => (30i32, 2000i32),
                Voice::Giant => (60, 1500),
                _ => (20, 500),
            }
            &&& (s.echo_delay, s.echo_depth) == if voice == Voice::Sisters {
                (700i32, 80i32)
            } else {
                (0, 0)
            }
            &&& s.ring_rate == if voice == Voice::Space {
                1000i32
            } else {
                0
            }
            &&& valid_settings(s)
            &&& (effects_for(s, sine).echo is Some <==> voice == Voice::Sisters)
            &&& (effects_for(s, sine).ring is Some <==> voice == Voice::Space)
            &&& effects_for(s, sine).fluctuation is Some
        }),
{
}

/// Each emotion: the pitch shifted by its offset; the accent, phrase accent and
/// volume replaced by its own (none at all for monotone speech); the speed
/// replaced only by the emotions that set one; a stronger fluctuation (50 deep,
/// 500 samples) for happy and scared speech, a brighter spectrum (105) for happy
/// speech, and everything else kept.
pub proof fn emotions_are_the_documented_adjustments(settings: VoiceSettings, emotion: Emotion)
    requires
        i32::MIN <= settings.pitch + emotion_table(emotion).0 <= i32::MAX,
    ensures
        ({
            let r = emotion_applied(settings, emotion);
            &&& (r.pitch - settings.pitch, r.accent as int, r.phrase_accent as int, r.volume as int) == match emotion {
                Emotion::Angry => (200int, 130int, 60int, 30int),
                Emotion::Business => (0, 90, 90, 0),
                Emotion::Calm => (0, 90, 90, 0),
                Emotion::Depressed => (-200, 90, 90, 0),
                Emotion::Excited => (200, 120, 120, 0),
                Emotion::Falsetto => (700, 100, 100, 0),
                Emotion::Happy => (100, 140, 100, 0),
                Emotion::Loud => (0, 100, 100, 60),
                Emotion::Monotone => (500, 0, 0, 0),
                Emotion::Perky => (0, 140, 140, 0),
                Emotion::Quiet => (0, 100, 100, -60),
                Emotion::Sarcastic => (-100, 100, 70, 0),
                Emotion::Scared => (500, 60, 90, 0),
                Emotion::Shout => (1000, 40, 40, 60),
                Emotion::Tense => (400, 60, 60, 0),
                Emotion::Whisper => (0, 100, 100, -200),
            }
            &&& r.speed == match emotion {
                Emotion::Angry => 80i32,
                Emotion::Business => 90,
                Emotion::Calm => 110,
                Emotion::Depressed => 110,
                Emotion::Excited => 90,
                Emotion::Sarcastic => 80,
                Emotion::Scared => 80,
                _ => settings.speed,
            }
            &&& (r.fluctuation_depth, r.fluctuation_delay) == if emotion == Emotion::Happy || emotion
                == Emotion::Scared {
                (50i32, 500i32)
            } else {
                (settings.fluctuation_depth, settings.fluctuation_delay)
            }
            &&& r.spectral == if emotion == Emotion::Happy {
                105i32
            } else {
                settings.spectral
            }
            &&& r.echo_delay == settings.echo_delay && r.echo_depth == settings.echo_depth && r.ring_rate
                == settings.ring_rate
        }),
{
}

/// A syllabic nasal's duration at any speed is its duration at neutral speed
/// times the speed percentage, rounded half away from zero.
pub proof fn nasal_duration_scales_with_speed(context: VowelContext, tables: &DurationTables, speed: i32)
    requires
        1 <= speed <= 32767,
    ensures
        ({
            let neutral = context.nasal_duration_of(tables, 100);
            context.nasal_duration_of(tables, speed) == if neutral >= 0 {
                (neutral * speed + 50) / 100
            } else {
                -((-neutral * speed + 50) / 100)
            }
        }),
{
    let n = tables.nasals;
    let sum = correction_of(n.left@, context.left) + 7680 + correction_of(n.right@, context.right)
        + correction_of(n.word@, context.position.word) + correction_of(n.phrase@, context.position.phrase);
    assert(-200000 <= sum <= 200000);
    let x = sum as i32;
    assert(-4000 <= x >> 6i32 <= 4000) by (bit_vector)
        requires
            -200000 <= x <= 200000;
    let base = (x >> 6i32) as i32;
    assert(-4000 * 32767 <= base * speed <= 4000 * 32767) by (nonlinear_arith)
        requires
            -4000 <= base <= 4000,
            1 <= speed <= 32767;
    assert((base * 100 + 50) / 100 == base) by (nonlinear_arith)
        requires
            -4000 <= base <= 4000;
    assert(abs(base * 100) == if base >= 0 { base * 100 } else { -base * 100 });
    if base >= 0 {
        assert(rounded_quotient(base * 100, 100) == base);
        assert(rounded_quotient(base * speed, 100) == (base * speed + 50) / 100);
    } else {
        assert((-base * 100 + 50) / 100 == -base) by (nonlinear_arith)
            requires
                -4000 <= base < 0;
        assert(rounded_quotient(base * 100, 100) == base);
        assert(base * speed < 0) by (nonlinear_arith)
            requires
                base < 0,
                speed >= 1;
        assert(abs(base * speed) == -(base * speed));
        assert(rounded_quotient(base * speed, 100) == -((-(base * speed) + 50) / 100));
        assert(-base * speed == -(base * speed)) by (nonlinear_arith);
    }
}

/// A consonant's duration is at least 25 periods at neutral speed. For the
/// phonemes 14 to 26 and for geminates it is that duration times the speed
/// percentage, rounded half up; any other consonant keeps it at every speed.
pub proof fn consonant_duration_scales_with_speed(context: ConsonantContext, tables: &DurationTables, speed: i32)
    requires
        1 <= speed <= 32767,
        0 <= context.group < tables.consonants@.len(),
    ensures
        context.duration_of(tables, 100) >= 25,
        context.duration_of(tables, speed) == if (14 <= context.phoneme < 27) || context.geminate {
            (context.duration_of(tables, 100) * speed + 50) / 100
        } else {
            context.duration_of(tables, 100)
        },
{
    let c = tables.consonants@[context.group as int];
    let sum = c.length[0] + correction_of(c.vowel@, context.vowel) + c.base + correction_of(
        c.previous@,
        context.previous_phoneme,
    ) + correction_of(c.phrase@, context.position.phrase) + correction_of(c.category@, context.category)
        + correction_of(c.word@, context.position.word) + if context.palatalized {
        palatal_offset(context.category)
    } else {
        0
    } + if context.geminate {
        c.length[1] - c.length[0]
    } else {
        0
    };
    assert(-500000 <= sum <= 500000);
    let x = sum as i32;
    assert(-8000 <= x >> 6i32 <= 8000) by (bit_vector)
        requires
            -500000 <= x <= 500000;
    let base: i32 = if (x >> 6i32) > 25 {
        (x >> 6i32) as i32
    } else {
        25i32
    };
    assert(0 <= base * speed <= 8000 * 32767) by (nonlinear_arith)
        requires
            25 <= base <= 8000,
            1 <= speed <= 32767;
    assert((base * 100 + 50) / 100 == base) by (nonlinear_arith)
        requires
            25 <= base <= 8000;
    assert(abs(base * 100) == base * 100 && abs(100) == 100);
    assert(rounded_quotient(base * 100, 100) == base);
    assert(rounded_quotient(base * speed, 100) == (base * speed + 50) / 100);
}

/// The output effects a voice enables: an echo of gain depth × 256 / 100 at its
/// delay for a positive depth and delay; a ring modulator stepping rate × 65536 /
/// 11000 (rounded down) for a nonzero rate; a fluctuation of depth × 256 at its
/// delay for a positive delay and a nonzero depth that fits a byte.
pub proof fn enabled_effects_follow_the_settings(settings: VoiceSettings, sine: [i16; 256])
    requires
        valid_settings(settings),
    ensures
        ({
            let effects = effects_for(settings, sine);
            &&& effects.echo == if settings.echo_depth > 0 && settings.echo_delay > 0 {
                Some(EchoState::fresh((settings.echo_depth * 256 / 100) as i32, settings.echo_delay as usize))
            } else {
                None
            }
            &&& effects.ring == if settings.ring_rate != 0 {
                Some((((settings.ring_rate * 65536) / 11000) as i64, 0i64, sine))
            } else {
                None
            }
            &&& (effects.fluctuation is Some <==> settings.fluctuation_delay > 0 && settings.fluctuation_depth != 0)
            &&& (effects.fluctuation matches Some(f) ==> f.delay == settings.fluctuation_delay && f.count == 0
                && (-128 <= settings.fluctuation_depth <= 127 ==> f.depth == settings.fluctuation_depth * 256))
        }),
{
    let depth = settings.echo_depth;
    assert(-32768 <= depth <= 32767 ==> depth << 8i32 == depth * 256) by (bit_vector);
    let rate = settings.ring_rate as i64;
    assert(-32768 <= rate <= 32767 ==> rate << 16i64 == rate * 65536) by (bit_vector);
    let f = settings.fluctuation_depth;
    assert(-128 <= f <= 127 ==> (f as i16) << 8u32 == f * 256) by (bit_vector);
}

/// A vowel's amplitude is its context amplitude, at least 70, shifted by the
/// volume setting: raising the volume raises every vowel by the same amount.
pub proof fn vowel_amplitude_shifts_with_volume(phrasing: Phrasing, context: VowelContext, volume: i32)
    requires
        -32768 <= phrasing.volume <= 32767,
        -32768 <= volume <= 32767,
    ensures
        ({
            let amplitude = context.amplitude_of(phrasing.tables, phrasing.context.total);
            let louder = Phrasing { volume, ..phrasing };
            &&& phrasing.vowel_amplitude_spec(context) == (if amplitude > 70 { amplitude } else { 70 })
                + phrasing.volume
            &&& louder.vowel_amplitude_spec(context) - phrasing.vowel_amplitude_spec(context) == volume
                - phrasing.volume
        }),
{
    let a = phrasing.tables.amplitudes;
    let c = context;
    let sum = correction_of(a.left@, c.left) + correction_of(a.right@, c.right)
        + a.mora_count[crate::text::duration::mora_count_class(phrasing.context.total)] + correction_of(
        a.word@,
        c.position.word,
    ) + correction_of(a.phrase@, c.position.phrase) + if c.vowel != 5 {
        correction_of(a.vowel@, c.vowel)
    } else {
        0
    };
    assert(-300000 <= sum <= 300000);
    let x = (sum * 1024) as i32;
    assert(-0x1_0000 <= x >> 16i32 <= 0x1_0000) by (bit_vector)
        requires
            -0x1000_0000 <= x <= 0x1000_0000;
}

} // verus!

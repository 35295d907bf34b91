# shtts

Deterministic fixed-point Japanese speech synthesis from katakana, verified with
Verus. The engine renders mono signed 16-bit PCM at 11,025 Hz in whole blocks of
240 samples; its acoustic, duration and lexicon tables are supplied by the caller
as an `EngineData` value.

## Layout

- `src/lib.rs`: `synthesize`, the engine data and its validity check.
- `src/voice.rs`: voice settings, speaker and emotion presets, validation.
- `src/text/`: markup parsing, chunking, kana analysis (durations, amplitudes,
  phrase accent) and unit selection, from text to segments.
- `src/prosody.rs`, `src/utterance.rs`: unit groups, pitch contours and amplitude
  envelopes of the segments.
- `src/dsp/`: frame scheduling, LSP filtering, excitation and output effects.
- `src/vocoder.rs`: period-synchronous rendering of segments into PCM.
- `src/laws.rs`: properties that relate several functions.
- `tests/`: tests on concrete values, with a small synthetic engine.
- `app/`: WebAssembly bindings (settings objects, presets, `synthesize`).

Every public function states its result in terms of spec functions; the
top-level `synthesize` states its PCM as the rendering of the segments that the
analysis of the text determines.

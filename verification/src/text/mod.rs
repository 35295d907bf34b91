//! Kana tokenization, linguistic analysis and acoustic unit selection.
use vstd::prelude::*;
use crate::acoustic::AcousticData;
use crate::utterance::{Segment, segments_wf};
use crate::voice::VoiceSettings;
use self::analyze::analysable;
use self::duration::DurationTables;
use self::lexicon::Lexicon;

pub mod accent;
pub mod analyze;
pub mod duration;
pub mod lexicon;
pub mod parse;
pub mod units;

verus! {

/// A pause of the given periods.
pub open spec fn silence_segment(periods: i32) -> Segment {
    Segment {
        phoneme: 0,
        periods,
        original_periods: periods,
        unit_start: 0,
        frames_start: 0,
        frames_end: 1,
        pitch: 0,
        amplitude: 0,
        devoiced: false,
        tail_periods: 200,
    }
}

/// A pause of the given periods.
pub fn silence(periods: i32) -> (segment: Segment)
    ensures
        segment == silence_segment(periods),
{
    Segment {
        phoneme: 0,
        periods,
        original_periods: periods,
        unit_start: 0,
        frames_start: 0,
        frames_end: 1,
        pitch: 0,
        amplitude: 0,
        devoiced: false,
        tail_periods: 200,
    }
}

/// Markup-derived options of one phrase's analysis.
pub struct AnalysisOptions {
    pub marker: Option<i32>,
    pub ending: Vec<char>,
    pub initial_scale: (i32, i32),
    pub word_breaks: Vec<usize>,
    pub accents: Vec<usize>,
    pub accent_groups: Vec<usize>,
    pub duration_override: Option<i32>,
    pub half_amplitude: bool,
    pub zero_amplitude: bool,
}

/// Analysis options as values.
#[verifier::ext_equal]
pub struct OptionsView {
    pub marker: Option<i32>,
    pub ending: Seq<char>,
    pub initial_scale: (i32, i32),
    pub word_breaks: Seq<usize>,
    pub accents: Seq<usize>,
    pub accent_groups: Seq<usize>,
    pub duration_override: Option<i32>,
    pub half_amplitude: bool,
    pub zero_amplitude: bool,
}

impl View for AnalysisOptions {
    type V = OptionsView;

    open spec fn view(&self) -> OptionsView {
        OptionsView {
            marker: self.marker,
            ending: self.ending@,
            initial_scale: self.initial_scale,
            word_breaks: self.word_breaks@,
            accents: self.accents@,
            accent_groups: self.accent_groups@,
            duration_override: self.duration_override,
            half_amplitude: self.half_amplitude,
            zero_amplitude: self.zero_amplitude,
        }
    }
}

impl AnalysisOptions {
    /// Plain options: no marker, ending, breaks or accents, and an initial scale of one.
    pub open spec fn is_plain(&self) -> bool {
        &&& self.marker is None
        &&& self.ending@.len() == 0
        &&& self.initial_scale == (1i32, 1i32)
        &&& self.word_breaks@.len() == 0
        &&& self.accents@.len() == 0
        &&& self.accent_groups@.len() == 0
        &&& self.duration_override is None
        &&& !self.half_amplitude
        &&& !self.zero_amplitude
    }

    pub fn plain() -> (options: Self)
        ensures
            options.is_plain(),
    {
        AnalysisOptions {
            marker: None,
            ending: Vec::new(),
            initial_scale: (1, 1),
            word_breaks: Vec::new(),
            accents: Vec::new(),
            accent_groups: Vec::new(),
            duration_override: None,
            half_amplitude: false,
            zero_amplitude: false,
        }
    }
}

impl Default for AnalysisOptions {
    fn default() -> (options: Self)
        ensures
            options.is_plain(),
    {
        AnalysisOptions::plain()
    }
}

/// One phoneme of an analyzed phrase, with its duration and prosody.
#[derive(Clone, Copy, Debug)]
pub struct Entry {
    pub phoneme: usize,
    pub duration: i32,
    pub unscaled_duration: i32,
    pub amplitude: i32,
    pub pitch: i32,
    pub secondary_pitch: i32,
    pub devoiced: bool,
    pub follows_geminate: bool,
    pub accent_pitch: bool,
    pub no_merge: bool,
    pub merged: usize,
}

/// The entries of one mora and its consonant and vowel durations.
#[derive(Clone, Copy, Debug)]
pub struct Node {
    pub entries_start: usize,
    pub entries_end: usize,
    pub consonant: i32,
    pub vowel: i32,
}

/// Every entry names a phoneme of the inventory.
pub open spec fn entries_wf(entries: Seq<Entry>) -> bool {
    forall|i: int| 0 <= i < entries.len() ==> #[trigger] entries[i].phoneme < crate::utterance::PHONEME_COUNT
}

/// The wrapping sum of the entries' durations.
pub open spec fn duration_total(entries: Seq<Entry>) -> i32
    decreases entries.len(),
{
    if entries.len() == 0 {
        0
    } else {
        duration_total(entries.drop_last()).wrapping_add(entries.last().duration)
    }
}

/// The wrapping sum of the durations of `entries[start..end]`.
pub fn sum_durations(entries: &Vec<Entry>, start: usize, end: usize) -> (total: i32)
    requires
        start <= end <= entries@.len(),
    ensures
        total == duration_total(entries@.subrange(start as int, end as int)),
{
    let mut total: i32 = 0;
    let mut j = start;
    while j < end
        invariant
            start <= j <= end <= entries@.len(),
            total == duration_total(entries@.subrange(start as int, j as int)),
        decreases end - j,
    {
        assert(entries@.subrange(start as int, j + 1).drop_last() =~= entries@.subrange(start as int, j as int));
        total = total.wrapping_add(entries[j].duration);
        j += 1;
    }
    total
}

/// Whether a list of indices holds a value.
pub fn contains_index(values: &Vec<usize>, value: usize) -> (result: bool)
    ensures
        result == values@.contains(value),
{
    let mut i: usize = 0;
    while i < values.len()
        invariant
            i <= values@.len(),
            forall|j: int| 0 <= j < i ==> values@[j] != value,
        decreases values@.len() - i,
    {
        if values[i] == value {
            return true;
        }
        i += 1;
    }
    false
}

/// The nodes cover nonempty runs of `count` entries, and no node starts after a
/// later node ends.
pub open spec fn nodes_fit(nodes: Seq<Node>, count: int) -> bool {
    &&& forall|i: int|
        0 <= i < nodes.len() ==> #[trigger] nodes[i].entries_start < nodes[i].entries_end <= count
    &&& forall|i: int, j: int|
        0 <= i < j < nodes.len() ==> #[trigger] nodes[i].entries_start <= #[trigger] nodes[j].entries_end
}

/// A copy of `text[start..end]`.
fn copy_span(text: &Vec<char>, start: usize, end: usize) -> (result: Vec<char>)
    requires
        start <= end <= text@.len(),
    ensures
        result@ == text@.subrange(start as int, end as int),
{
    let mut result: Vec<char> = Vec::new();
    let mut i = start;
    while i < end
        invariant
            start <= i <= end <= text@.len(),
            result@ == text@.subrange(start as int, i as int),
        decreases end - i,
    {
        result.push(text[i]);
        assert(text@.subrange(start as int, i + 1) =~= text@.subrange(start as int, i as int).push(text@[i as int]));
        i += 1;
    }
    result
}

/// A copy of a list of indices.
fn copy_list(values: &Vec<usize>) -> (result: Vec<usize>)
    ensures
        result@ == values@,
{
    let mut result: Vec<usize> = Vec::new();
    let mut i: usize = 0;
    while i < values.len()
        invariant
            i <= values@.len(),
            result@ == values@.take(i as int),
        decreases values@.len() - i,
    {
        result.push(values[i]);
        assert(values@.take(i + 1) =~= values@.take(i as int).push(values@[i as int]));
        i += 1;
    }
    assert(values@.take(values@.len() as int) =~= values@);
    result
}

/// A copy of a list of characters.
fn copy_chars(values: &Vec<char>) -> (result: Vec<char>)
    ensures
        result@ == values@,
{
    copy_span(values, 0, values.len())
}

/// The bounds that fall within a chunk of `count` kana starting after `offset`
/// kana, made relative to the chunk; a bound at the chunk's start is left out.
pub open spec fn relative_bounds(values: Seq<usize>, offset: usize, count: usize) -> Seq<usize>
    decreases values.len(),
{
    if values.len() == 0 {
        Seq::empty()
    } else {
        let rest = relative_bounds(values.drop_last(), offset, count);
        let v = values.last();
        if v >= offset && 0 < v - offset <= count {
            rest.push((v - offset) as usize)
        } else {
            rest
        }
    }
}

fn relative(values: &Vec<usize>, offset: usize, count: usize) -> (result: Vec<usize>)
    ensures
        result@ == relative_bounds(values@, offset, count),
{
    let mut result: Vec<usize> = Vec::new();
    let mut i: usize = 0;
    while i < values.len()
        invariant
            i <= values@.len(),
            result@ == relative_bounds(values@.take(i as int), offset, count),
        decreases values@.len() - i,
    {
        assert(values@.take(i + 1).drop_last() =~= values@.take(i as int));
        let v = values[i];
        if v >= offset && v - offset > 0 && v - offset <= count {
            result.push(v - offset);
        }
        i += 1;
    }
    assert(values@.take(values@.len() as int) =~= values@);
    result
}

/// The values not listed in `excluded`.
/// The first `count` values that are not excluded, in order.
pub open spec fn kept_values(values: Seq<usize>, excluded: Seq<usize>, count: int) -> Seq<usize>
    decreases count,
{
    if count <= 0 {
        Seq::empty()
    } else if excluded.contains(values[count - 1]) {
        kept_values(values, excluded, count - 1)
    } else {
        kept_values(values, excluded, count - 1).push(values[count - 1])
    }
}

fn without(values: &Vec<usize>, excluded: &Vec<usize>) -> (result: Vec<usize>)
    ensures
        forall|i: int| 0 <= i < result@.len() ==> values@.contains(#[trigger] result@[i]) && !excluded@.contains(result@[i]),
        result@ == kept_values(values@, excluded@, values@.len() as int),
{
    let mut result: Vec<usize> = Vec::new();
    let mut i: usize = 0;
    while i < values.len()
        invariant
            i <= values@.len(),
            forall|j: int| 0 <= j < result@.len() ==> values@.contains(#[trigger] result@[j]) && !excluded@.contains(result@[j]),
            result@ == kept_values(values@, excluded@, i as int),
        decreases values@.len() - i,
    {
        let v = values[i];
        if !contains_index(excluded, v) {
            result.push(v);
        }
        i += 1;
    }
    result
}

/// The wrapping sum of the durations of the spoken entries among the first `count`:
/// all but pauses and the end mark.
pub open spec fn spoken_total(entries: Seq<Entry>, count: int) -> i32
    decreases count,
{
    if count <= 0 {
        0
    } else {
        let total = spoken_total(entries, count - 1);
        let entry = entries[count - 1];
        if entry.phoneme != 0 && entry.phoneme != 7 {
            total.wrapping_add(entry.duration)
        } else {
            total
        }
    }
}

fn spoken_duration(entries: &Vec<Entry>) -> (total: i32)
    ensures
        total == spoken_total(entries@, entries@.len() as int),
{
    let mut total: i32 = 0;
    let mut i: usize = 0;
    while i < entries.len()
        invariant
            i <= entries@.len(),
            total == spoken_total(entries@, i as int),
        decreases entries@.len() - i,
    {
        let phoneme = entries[i].phoneme;
        if phoneme != 0 && phoneme != 7 {
            total = total.wrapping_add(entries[i].duration);
        }
        i += 1;
    }
    total
}

/// Whether `entries` is the analysis of a phrase's text.
pub open spec fn analyzed(
    lexicon: &Lexicon,
    tables: &DurationTables,
    text: Seq<char>,
    settings: &VoiceSettings,
    options: &AnalysisOptions,
    entries: Seq<Entry>,
) -> bool {
    exists|context: analyze::PhraseContext, layouts: Seq<analyze::MoraLayout>, accent: accent::Accent|
        #[trigger] analyze::analysis_of(lexicon, tables, text, settings, options, context, layouts, accent, entries)
}

/// Whether `segments` are the units selected for the analysis of a phrase's text.
pub open spec fn phrase_units(
    lexicon: &Lexicon,
    tables: &DurationTables,
    data: &AcousticData,
    text: Seq<char>,
    settings: &VoiceSettings,
    options: &AnalysisOptions,
    segments: Seq<Segment>,
) -> bool {
    exists|entries: Seq<Entry>|
        #[trigger] analyzed(lexicon, tables, text, settings, options, entries) && segments == units::selected(entries, data)
}

/// Analyzes a phrase and selects its units.
fn analyze_phrase(
    lexicon: &Lexicon,
    tables: &DurationTables,
    data: &AcousticData,
    text: &Vec<char>,
    settings: &VoiceSettings,
    options: &AnalysisOptions,
) -> (segments: Vec<Segment>)
    requires
        analysable(lexicon, tables),
        data.wf(),
        options.initial_scale.1 > 0,
    ensures
        segments_wf(segments@, data),
        phrase_units(lexicon, tables, data, text@, settings, options, segments@),
{
    let entries = analyze::analyze(lexicon, tables, text, settings, options);
    let segments = units::select(entries, data);
    assert(analyzed(lexicon, tables, text@, settings, options, entries@));
    segments
}

/// Appends segments to the output.
fn extend(output: &mut Vec<Segment>, segments: Vec<Segment>, data: &AcousticData)
    requires
        segments_wf(old(output)@, data),
        segments_wf(segments@, data),
    ensures
        segments_wf(final(output)@, data),
        final(output)@ == old(output)@ + segments@,
{
    let ghost before = output@;
    let mut i: usize = 0;
    while i < segments.len()
        invariant
            i <= segments@.len(),
            segments_wf(segments@, data),
            output@ == before + segments@.take(i as int),
            segments_wf(before, data),
        decreases segments@.len() - i,
    {
        output.push(segments[i]);
        assert(segments@.take(i + 1) =~= segments@.take(i as int).push(segments@[i as int]));
        i += 1;
    }
    assert(segments@.take(segments@.len() as int) =~= segments@);
    assert forall|k: int| 0 <= k < output@.len() implies #[trigger] output@[k].wf(data) by {
        if k < before.len() {
            assert(before[k].wf(data));
        } else {
            assert(segments@[k - before.len()].wf(data));
        }
    }
}

/// Sets the tail of the last segment, if any.
fn set_tail(output: &mut Vec<Segment>, periods: i32, data: &AcousticData)
    requires
        segments_wf(old(output)@, data),
    ensures
        segments_wf(final(output)@, data),
        final(output)@.len() == old(output)@.len(),
        old(output)@.len() > 0 ==> final(output)@ == old(output)@.update(
            old(output)@.len() - 1,
            Segment { tail_periods: periods, ..old(output)@.last() },
        ),
        old(output)@.len() == 0 ==> final(output)@ == old(output)@,
{
    let count = output.len();
    if count > 0 {
        assert(output@[count - 1].wf(data));
        let last = Segment { tail_periods: periods, ..output[count - 1] };
        output.set(count - 1, last);
    }
}

/// The silence between phrases or chunks, in periods scaled by the speed.
pub open spec fn pause_segment(periods: i32, speed: i32) -> Segment {
    silence_segment((periods.wrapping_mul(speed).wrapping_add(50) as int / 100) as i32)
}

fn pause(periods: i32, speed: i32) -> (segment: Segment)
    ensures
        segment.phoneme == 0 && segment.unit_start == 0 && segment.frames_start == 0 && segment.frames_end == 1,
        segment == pause_segment(periods, speed),
{
    silence(units::floor_div(periods.wrapping_mul(speed).wrapping_add(50), 100))
}

/// Whether `entries` is the analysis of a text with options of these values.
pub open spec fn analyzed_as(
    lexicon: &Lexicon,
    tables: &DurationTables,
    text: Seq<char>,
    settings: &VoiceSettings,
    options: OptionsView,
    entries: Seq<Entry>,
) -> bool {
    exists|o: AnalysisOptions| o@ == options && #[trigger] analyzed(lexicon, tables, text, settings, &o, entries)
}

/// Whether `segments` are the units selected for a text with options of these values.
pub open spec fn units_as(
    lexicon: &Lexicon,
    tables: &DurationTables,
    data: &AcousticData,
    text: Seq<char>,
    settings: &VoiceSettings,
    options: OptionsView,
    segments: Seq<Segment>,
) -> bool {
    exists|o: AnalysisOptions| o@ == options && #[trigger] phrase_units(lexicon, tables, data, text, settings, &o, segments)
}

/// The text of chunk `k`.
pub open spec fn chunk_text(text: Seq<char>, parts: Seq<(usize, usize)>, k: int) -> Seq<char> {
    text.subrange(parts[k].0 as int, parts[k].1 as int)
}

/// The kana before chunk `k`.
pub open spec fn chunk_offset(lexicon: &Lexicon, text: Seq<char>, parts: Seq<(usize, usize)>, k: int) -> int
    decreases k,
{
    if k <= 0 {
        0
    } else {
        chunk_offset(lexicon, text, parts, k - 1) + parse::kana_count_spec(lexicon, chunk_text(text, parts, k - 1))
    }
}

/// The breaks of `values` that fall in chunk `k`, relative to it.
pub open spec fn chunk_share(lexicon: &Lexicon, text: Seq<char>, parts: Seq<(usize, usize)>, values: Seq<usize>, k: int) -> Seq<
    usize,
> {
    relative_bounds(
        values,
        chunk_offset(lexicon, text, parts, k) as usize,
        parse::kana_count_spec(lexicon, chunk_text(text, parts, k)) as usize,
    )
}

/// Whether a chunk before `k` holds an accent-group break.
pub open spec fn groups_before(lexicon: &Lexicon, text: Seq<char>, parts: Seq<(usize, usize)>, options: OptionsView, k: int) -> bool
    decreases k,
{
    if k <= 0 {
        false
    } else {
        groups_before(lexicon, text, parts, options, k - 1) || chunk_share(
            lexicon,
            text,
            parts,
            options.accent_groups,
            k - 1,
        ).len() > 0
    }
}

/// Whether a chunk before `k` holds a word break that is no accent-group break.
pub open spec fn words_before(lexicon: &Lexicon, text: Seq<char>, parts: Seq<(usize, usize)>, options: OptionsView, k: int) -> bool
    decreases k,
{
    if k <= 0 {
        false
    } else {
        words_before(lexicon, text, parts, options, k - 1) || chunk_share(
            lexicon,
            text,
            parts,
            kept_values(options.word_breaks, options.accent_groups, options.word_breaks.len() as int),
            k - 1,
        ).len() > 0
    }
}

/// The options of a chunk's trial analysis, which times the whole: the phrase's
/// marker and ending on the last chunk only, and no breaks or accents.
pub open spec fn trial_options(options: OptionsView, speed: i32, last: bool) -> OptionsView {
    OptionsView {
        marker: if last {
            options.marker
        } else {
            Some(speed)
        },
        ending: if last {
            options.ending
        } else {
            Seq::empty()
        },
        initial_scale: options.initial_scale,
        word_breaks: Seq::empty(),
        accents: Seq::empty(),
        accent_groups: Seq::empty(),
        duration_override: None,
        half_amplitude: false,
        zero_amplitude: false,
    }
}

/// The trial options of chunk `k` of `count`.
pub open spec fn chunk_trial(options: OptionsView, speed: i32, count: int, k: int) -> OptionsView {
    trial_options(options, speed, k + 1 == count)
}

/// The options of chunk `k`: its share of the breaks and accents, timed to `sum`,
/// and quieter after earlier group or word breaks.
pub open spec fn chunk_options(
    lexicon: &Lexicon,
    text: Seq<char>,
    parts: Seq<(usize, usize)>,
    options: OptionsView,
    speed: i32,
    k: int,
    sum: i32,
) -> OptionsView {
    let group = groups_before(lexicon, text, parts, options, k);
    let word = words_before(lexicon, text, parts, options, k);
    OptionsView {
        word_breaks: chunk_share(lexicon, text, parts, options.word_breaks, k),
        accents: chunk_share(lexicon, text, parts, options.accents, k),
        accent_groups: chunk_share(lexicon, text, parts, options.accent_groups, k),
        duration_override: Some(sum),
        half_amplitude: group && !word,
        zero_amplitude: word,
        ..trial_options(options, speed, k + 1 == parts.len())
    }
}

/// The segments of the first `k` chunks, separated by short pauses.
pub open spec fn joined_chunks(subs: Seq<Seq<Segment>>, speed: i32, k: int) -> Seq<Segment>
    decreases k,
{
    if k <= 0 {
        Seq::empty()
    } else {
        let joined = joined_chunks(subs, speed, k - 1);
        let spaced = if k - 1 > 0 && joined.len() > 0 {
            joined.push(pause_segment(20, speed))
        } else {
            joined
        };
        spaced + subs[k - 1]
    }
}

/// The segments with the last one's tail set.
pub open spec fn with_tail(segments: Seq<Segment>, periods: i32) -> Seq<Segment> {
    if segments.len() > 0 {
        segments.update(segments.len() - 1, Segment { tail_periods: periods, ..segments.last() })
    } else {
        segments
    }
}

/// Whether `sum` is the spoken duration of the trial analysis of chunk `k`.
pub open spec fn trial_sum(
    lexicon: &Lexicon,
    tables: &DurationTables,
    text: Seq<char>,
    settings: &VoiceSettings,
    options: OptionsView,
    parts: Seq<(usize, usize)>,
    k: int,
    sum: i32,
) -> bool {
    exists|entries: Seq<Entry>|
        #[trigger] analyzed_as(
            lexicon,
            tables,
            chunk_text(text, parts, k),
            settings,
            chunk_trial(options, settings.speed, parts.len() as int, k),
            entries,
        ) && sum == spoken_total(entries, entries.len() as int)
}

/// Whether `segments` are those of a phrase cut into `parts`, with `sums` the
/// durations of the chunks' trial analyses and `subs` the chunks' units.
pub open spec fn chunked(
    lexicon: &Lexicon,
    tables: &DurationTables,
    data: &AcousticData,
    text: Seq<char>,
    settings: &VoiceSettings,
    options: OptionsView,
    parts: Seq<(usize, usize)>,
    sums: Seq<i32>,
    subs: Seq<Seq<Segment>>,
    segments: Seq<Segment>,
) -> bool {
    &&& sums.len() == parts.len()
    &&& subs.len() == parts.len()
    &&& forall|k: int|
        0 <= k < parts.len() ==> #[trigger] trial_sum(lexicon, tables, text, settings, options, parts, k, sums[k])
    &&& forall|k: int|
        0 <= k < parts.len() ==> #[trigger] units_as(
            lexicon,
            tables,
            data,
            chunk_text(text, parts, k),
            settings,
            chunk_options(lexicon, text, parts, options, settings.speed, k, sums[k]),
            subs[k],
        )
    &&& segments == with_tail(joined_chunks(subs, settings.speed, parts.len() as int), 200)
}

/// Whether `segments` are the units of a phrase: of its text as a whole when it is
/// one chunk, else of its chunks.
pub open spec fn phrase_segments(
    lexicon: &Lexicon,
    tables: &DurationTables,
    data: &AcousticData,
    text: Seq<char>,
    settings: &VoiceSettings,
    options: OptionsView,
    segments: Seq<Segment>,
) -> bool {
    let parts = parse::chunks(lexicon, text, options.accent_groups + options.word_breaks);
    if parts.len() <= 1 {
        units_as(lexicon, tables, data, text, settings, options, segments)
    } else {
        exists|sums: Seq<i32>, subs: Seq<Seq<Segment>>|
            #[trigger] chunked(lexicon, tables, data, text, settings, options, parts, sums, subs, segments)
    }
}

/// Synthesizes the segments of one phrase: a phrase longer than a chunk is analyzed
/// chunk by chunk, each with its share of the breaks and accents, timed against the
/// duration of the whole, and joined by short pauses.
pub fn phrase(
    lexicon: &Lexicon,
    tables: &DurationTables,
    data: &AcousticData,
    text: &Vec<char>,
    settings: &VoiceSettings,
    options: &AnalysisOptions,
) -> (segments: Vec<Segment>)
    requires
        analysable(lexicon, tables),
        data.wf(),
        text@.len() < 0x8000_0000,
        options.initial_scale.1 > 0,
    ensures
        segments_wf(segments@, data),
        phrase_segments(lexicon, tables, data, text@, settings, options@, segments@),
{
    let mut bars = copy_list(&options.accent_groups);
    let mut w: usize = 0;
    while w < options.word_breaks.len()
        invariant
            w <= options.word_breaks@.len(),
            bars@ == options.accent_groups@ + options.word_breaks@.take(w as int),
        decreases options.word_breaks@.len() - w,
    {
        bars.push(options.word_breaks[w]);
        assert(options.word_breaks@.take(w + 1) =~= options.word_breaks@.take(w as int).push(options.word_breaks@[w as int]));
        w += 1;
    }
    assert(options.word_breaks@.take(w as int) =~= options.word_breaks@);
    let parts = parse::split_chunks(lexicon, text, &bars);
    if parts.len() <= 1 {
        let segments = analyze_phrase(lexicon, tables, data, text, settings, options);
        assert(phrase_units(lexicon, tables, data, text@, settings, options, segments@));
        return segments;
    }
    let ghost pieces = parts@;
    let part_count = parts.len();
    let mut sums: Vec<i32> = Vec::new();
    let mut index: usize = 0;
    while index < part_count
        invariant
            analysable(lexicon, tables),
            part_count == parts@.len(),
            index <= part_count,
            sums@.len() == index,
            parse::consecutive_spans(parts@, text@.len()),
            options.initial_scale.1 > 0,
            pieces == parts@,
            forall|k: int|
                0 <= k < index ==> #[trigger] trial_sum(lexicon, tables, text@, settings, options@, pieces, k, sums@[k]),
        decreases part_count - index,
    {
        let (start, end) = parts[index];
        let part = copy_span(text, start, end);
        let last = index + 1 == part_count;
        let opts = AnalysisOptions {
            marker: if last {
                options.marker
            } else {
                Some(settings.speed)
            },
            ending: if last {
                copy_chars(&options.ending)
            } else {
                Vec::new()
            },
            initial_scale: options.initial_scale,
            word_breaks: Vec::new(),
            accents: Vec::new(),
            accent_groups: Vec::new(),
            duration_override: None,
            half_amplitude: false,
            zero_amplitude: false,
        };
        let entries = analyze::analyze(lexicon, tables, &part, settings, &opts);
        let ghost before = sums@;
        sums.push(spoken_duration(&entries));
        proof {
            assert(opts@ =~= chunk_trial(options@, settings.speed, pieces.len() as int, index as int));
            assert(analyzed(lexicon, tables, part@, settings, &opts, entries@));
            assert(analyzed_as(
                lexicon,
                tables,
                chunk_text(text@, pieces, index as int),
                settings,
                chunk_trial(options@, settings.speed, pieces.len() as int, index as int),
                entries@,
            ));
            assert forall|k: int|
                0 <= k < index + 1 implies #[trigger] trial_sum(lexicon, tables, text@, settings, options@, pieces, k, sums@[k]) by {
                if k < index {
                    assert(sums@[k] == before[k]);
                }
            }
        }
        index += 1;
    }
    let slash = without(&options.word_breaks, &options.accent_groups);
    let mut output: Vec<Segment> = Vec::new();
    let mut offset: usize = 0;
    let mut later_group = false;
    let mut later_word = false;
    let mut index: usize = 0;
    let ghost mut subs: Seq<Seq<Segment>> = Seq::empty();
    while index < part_count
        invariant
            analysable(lexicon, tables),
            data.wf(),
            part_count == parts@.len() == sums@.len(),
            index <= part_count,
            parse::consecutive_spans(parts@, text@.len()),
            text@.len() < 0x8000_0000,
            index < part_count ==> offset <= parts@[index as int].0,
            offset <= text@.len(),
            options.initial_scale.1 > 0,
            segments_wf(output@, data),
            pieces == parts@,
            slash@ == kept_values(options.word_breaks@, options.accent_groups@, options.word_breaks@.len() as int),
            offset == chunk_offset(lexicon, text@, pieces, index as int),
            later_group == groups_before(lexicon, text@, pieces, options@, index as int),
            later_word == words_before(lexicon, text@, pieces, options@, index as int),
            subs.len() == index,
            forall|k: int|
                0 <= k < index ==> #[trigger] units_as(
                    lexicon,
                    tables,
                    data,
                    chunk_text(text@, pieces, k),
                    settings,
                    chunk_options(lexicon, text@, pieces, options@, settings.speed, k, sums@[k]),
                    subs[k],
                ),
            output@ == joined_chunks(subs, settings.speed, index as int),
        decreases part_count - index,
    {
        let (start, end) = parts[index];
        let part = copy_span(text, start, end);
        let count = parse::kana_count(lexicon, &part);
        let last = index + 1 == part_count;
        let opts = AnalysisOptions {
            marker: if last {
                options.marker
            } else {
                Some(settings.speed)
            },
            ending: if last {
                copy_chars(&options.ending)
            } else {
                Vec::new()
            },
            initial_scale: options.initial_scale,
            word_breaks: relative(&options.word_breaks, offset, count),
            accents: relative(&options.accents, offset, count),
            accent_groups: relative(&options.accent_groups, offset, count),
            duration_override: Some(sums[index]),
            half_amplitude: later_group && !later_word,
            zero_amplitude: later_word,
        };
        let sub = analyze_phrase(lexicon, tables, data, &part, settings, &opts);
        proof {
            assert(opts@ =~= chunk_options(lexicon, text@, pieces, options@, settings.speed, index as int, sums@[index as int]));
            assert(phrase_units(lexicon, tables, data, part@, settings, &opts, sub@));
        }
        let ghost spaced = if index > 0 && output@.len() > 0 {
            output@.push(pause_segment(20, settings.speed))
        } else {
            output@
        };
        if opts.accent_groups.len() > 0 {
            later_group = true;
        }
        if relative(&slash, offset, count).len() > 0 {
            later_word = true;
        }
        if index > 0 && output.len() > 0 {
            let gap = pause(20, settings.speed);
            assert(gap.wf(data));
            let ghost before = output@;
            output.push(gap);
            assert forall|k: int| 0 <= k < output@.len() implies #[trigger] output@[k].wf(data) by {
                if k < before.len() {
                    assert(before[k].wf(data));
                }
            }
        }
        assert(output@ == spaced);
        let ghost sub_view = sub@;
        extend(&mut output, sub, data);
        proof {
            let grown = subs.push(sub_view);
            assert(joined_chunks(grown, settings.speed, index as int) == joined_chunks(subs, settings.speed, index as int)) by {
                lemma_joined_prefix(subs, grown, settings.speed, index as int);
            }
            assert forall|k: int|
                0 <= k < index + 1 implies #[trigger] units_as(
                    lexicon,
                    tables,
                    data,
                    chunk_text(text@, pieces, k),
                    settings,
                    chunk_options(lexicon, text@, pieces, options@, settings.speed, k, sums@[k]),
                    grown[k],
                ) by {
                if k < index {
                    assert(grown[k] == subs[k]);
                }
            }
            subs = grown;
        }
        offset = offset + count;
        index += 1;
    }
    set_tail(&mut output, 200, data);
    assert(chunked(lexicon, tables, data, text@, settings, options@, pieces, sums@, subs, output@));
    output
}

/// The chunks joined so far read only the segments of those chunks.
proof fn lemma_joined_prefix(a: Seq<Seq<Segment>>, b: Seq<Seq<Segment>>, speed: i32, count: int)
    requires
        0 <= count <= a.len(),
        count <= b.len(),
        forall|i: int| 0 <= i < count ==> a[i] == b[i],
    ensures
        joined_chunks(a, speed, count) == joined_chunks(b, speed, count),
    decreases count,
{
    if count > 0 {
        lemma_joined_prefix(a, b, speed, count - 1);
    }
}


/// The accent marker of a phrase: long after a sentence ending (more with each
/// pause it absorbed), short after trailing breaks, and otherwise by its pauses.
pub open spec fn phrase_marker(p: parse::PhraseView, speed: i32) -> i32 {
    if p.endings.len() > 0 {
        10i32.wrapping_mul(speed).wrapping_add(2i32.wrapping_mul(speed).wrapping_mul(p.absorbed_pauses))
    } else if p.trailing_breaks > 0 {
        if p.pauses > 0 {
            2i32.wrapping_mul(speed).wrapping_mul(p.pauses)
        } else {
            speed
        }
    } else if p.pauses > 0 {
        2i32.wrapping_mul(speed).wrapping_mul(p.pauses)
    } else {
        10i32.wrapping_mul(speed)
    }
}

fn marker_of(p: &parse::Phrase, speed: i32) -> (marker: i32)
    ensures
        marker == phrase_marker(p@, speed),
{
    if p.endings.len() > 0 {
        10i32.wrapping_mul(speed).wrapping_add(2i32.wrapping_mul(speed).wrapping_mul(p.absorbed_pauses))
    } else if p.trailing_breaks > 0 {
        if p.pauses > 0 {
            2i32.wrapping_mul(speed).wrapping_mul(p.pauses)
        } else {
            speed
        }
    } else if p.pauses > 0 {
        2i32.wrapping_mul(speed).wrapping_mul(p.pauses)
    } else {
        10i32.wrapping_mul(speed)
    }
}

/// The initial accent scale of the last phrase from its start mark: raised,
/// lowered, or accented at the start when it has no pause.
pub open spec fn initial_scale_of(p: parse::PhraseView) -> (i32, i32) {
    match p.initial_mark {
        Some(c) => if c == parse::RAISED {
            (3i32, 2i32)
        } else if c == parse::LOWERED {
            (1i32, 2i32)
        } else if c == parse::ACCENT && p.pauses == 0 {
            (5i32, 4i32)
        } else {
            (1i32, 1i32)
        },
        None => (1i32, 1i32),
    }
}

fn scale_of(p: &parse::Phrase) -> (scale: (i32, i32))
    ensures
        scale == initial_scale_of(p@),
{
    match p.initial_mark {
        Some(c) => if c == parse::RAISED {
            (3, 2)
        } else if c == parse::LOWERED {
            (1, 2)
        } else if c == parse::ACCENT && p.pauses == 0 {
            (5, 4)
        } else {
            (1, 1)
        },
        None => (1, 1),
    }
}

/// The pause after a phrase, in periods at normal speed.
pub open spec fn gap_periods(p: parse::PhraseView) -> i32 {
    if p.endings.len() > 0 {
        200i32.wrapping_add(40i32.wrapping_mul(p.absorbed_pauses))
    } else if p.trailing_breaks > 0 {
        if p.pauses > 0 {
            40i32.wrapping_mul(p.pauses)
        } else {
            20
        }
    } else {
        40i32.wrapping_mul(p.pauses)
    }
}

/// The tail of the last phrase, in periods.
pub open spec fn tail_of(p: parse::PhraseView) -> i32 {
    if p.endings.len() > 0 {
        200i32.wrapping_add(40i32.wrapping_mul(p.absorbed_pauses))
    } else if p.pauses > 0 {
        40i32.wrapping_mul(p.pauses)
    } else if p.trailing_breaks > 0 {
        20
    } else {
        200
    }
}

/// Whether a phrase carries no markup at all.
pub open spec fn unmarked(p: parse::PhraseView) -> bool {
    &&& p.pauses == 0
    &&& p.endings.len() == 0
    &&& p.trailing_breaks == 0
    &&& p.initial_mark is None
    &&& p.word_breaks.len() == 0
    &&& p.accents.len() == 0
}

/// The phrases of a text: those parsed, or one blank phrase when there are none.
pub open spec fn text_phrases(lexicon: &Lexicon, text: Seq<char>) -> Seq<parse::PhraseView> {
    let parsed = parse::parsed(lexicon, text);
    if parsed.len() == 0 {
        seq![parse::blank()]
    } else {
        parsed
    }
}

/// Plain options as values.
pub open spec fn plain_view() -> OptionsView {
    OptionsView {
        marker: None,
        ending: Seq::empty(),
        initial_scale: (1i32, 1i32),
        word_breaks: Seq::empty(),
        accents: Seq::empty(),
        accent_groups: Seq::empty(),
        duration_override: None,
        half_amplitude: false,
        zero_amplitude: false,
    }
}

/// The options of phrase `k`: its marker, ending, breaks and accents, and the start
/// mark's scale on the last phrase.
pub open spec fn phrase_options(phrases: Seq<parse::PhraseView>, k: int, speed: i32) -> OptionsView {
    let p = phrases[k];
    OptionsView {
        marker: Some(phrase_marker(p, speed)),
        ending: p.endings,
        initial_scale: if k + 1 == phrases.len() {
            initial_scale_of(p)
        } else {
            (1i32, 1i32)
        },
        word_breaks: p.word_breaks,
        accents: p.accents,
        accent_groups: p.accent_groups,
        duration_override: None,
        half_amplitude: false,
        zero_amplitude: false,
    }
}

/// The segments of the first `k` phrases, each but the last followed by its pause.
pub open spec fn joined_phrases(subs: Seq<Seq<Segment>>, phrases: Seq<parse::PhraseView>, speed: i32, k: int) -> Seq<Segment>
    decreases k,
{
    if k <= 0 {
        Seq::empty()
    } else {
        let joined = joined_phrases(subs, phrases, speed, k - 1) + subs[k - 1];
        if k < phrases.len() {
            joined.push(pause_segment(gap_periods(phrases[k - 1]), speed))
        } else {
            joined
        }
    }
}

/// Whether `segments` are those of the phrases of a text, with `subs` the units of
/// each phrase.
pub open spec fn phrased(
    lexicon: &Lexicon,
    tables: &DurationTables,
    data: &AcousticData,
    settings: &VoiceSettings,
    phrases: Seq<parse::PhraseView>,
    subs: Seq<Seq<Segment>>,
    segments: Seq<Segment>,
) -> bool {
    &&& subs.len() == phrases.len()
    &&& forall|k: int|
        0 <= k < phrases.len() ==> #[trigger] phrase_segments(
            lexicon,
            tables,
            data,
            phrases[k].text,
            settings,
            phrase_options(phrases, k, settings.speed),
            subs[k],
        )
    &&& segments == with_tail(joined_phrases(subs, phrases, settings.speed, phrases.len() as int), tail_of(phrases.last()))
}

/// Whether `segments` are the units of a marked-up text: of the text as one plain
/// phrase when it carries no markup, else of each of its phrases.
pub open spec fn text_segments(
    lexicon: &Lexicon,
    tables: &DurationTables,
    data: &AcousticData,
    text: Seq<char>,
    settings: &VoiceSettings,
    segments: Seq<Segment>,
) -> bool {
    let phrases = text_phrases(lexicon, text);
    if phrases.len() == 1 && unmarked(phrases[0]) {
        phrase_segments(lexicon, tables, data, text, settings, plain_view(), segments)
    } else {
        exists|subs: Seq<Seq<Segment>>| #[trigger] phrased(lexicon, tables, data, settings, phrases, subs, segments)
    }
}

/// Synthesizes the segments of marked-up kana text: phrase by phrase, each with its
/// marker, ending and start mark, separated by pauses; unmarked text is one phrase.
pub fn analyze(
    lexicon: &Lexicon,
    tables: &DurationTables,
    data: &AcousticData,
    text: &Vec<char>,
    settings: &VoiceSettings,
) -> (segments: Vec<Segment>)
    requires
        analysable(lexicon, tables),
        data.wf(),
        text@.len() < 0x8000_0000,
    ensures
        segments_wf(segments@, data),
        text_segments(lexicon, tables, data, text@, settings, segments@),
{
    let mut phrases = parse::parse(lexicon, text);
    proof {
        parse::lemma_spoken_len(text@, text@.len() as int);
    }
    let ghost parsed = phrases@;
    if phrases.len() == 0 {
        phrases.push(parse::Phrase::empty());
        assert(phrases@.drop_last() =~= parsed);
        assert(parse::joined_texts(phrases@) =~= parse::joined_texts(parsed) + phrases@[0].text@);
        assert(parse::views(phrases@) =~= seq![parse::blank()]);
    }
    let ghost phrase_views = parse::views(phrases@);
    assert(phrase_views == text_phrases(lexicon, text@));
    let ghost joined = parse::joined_texts(phrases@);
    assert(joined.len() <= text@.len());
    if phrases.len() == 1 {
        let p = &phrases[0];
        if p.pauses == 0 && p.endings.len() == 0 && p.trailing_breaks == 0 && p.initial_mark.is_none()
            && p.word_breaks.len() == 0 && p.accents.len() == 0 {
            let options = AnalysisOptions::plain();
            assert(options@ =~= plain_view());
            assert(unmarked(phrase_views[0]));
            return phrase(lexicon, tables, data, text, settings, &options);
        }
    }
    let count = phrases.len();
    let mut output: Vec<Segment> = Vec::new();
    let mut index: usize = 0;
    let ghost mut subs: Seq<Seq<Segment>> = Seq::empty();
    while index < count
        invariant
            analysable(lexicon, tables),
            data.wf(),
            count == phrases@.len() > 0,
            index <= count,
            joined == parse::joined_texts(phrases@),
            joined.len() <= text@.len() < 0x8000_0000,
            segments_wf(output@, data),
            phrase_views == parse::views(phrases@),
            subs.len() == index,
            forall|k: int|
                0 <= k < index ==> #[trigger] phrase_segments(
                    lexicon,
                    tables,
                    data,
                    phrase_views[k].text,
                    settings,
                    phrase_options(phrase_views, k, settings.speed),
                    subs[k],
                ),
            output@ == joined_phrases(subs, phrase_views, settings.speed, index as int),
        decreases count - index,
    {
        let p = &phrases[index];
        proof {
            parse::lemma_joined_part(phrases@, index as int);
        }
        let last = index + 1 == count;
        let options = AnalysisOptions {
            marker: Some(marker_of(p, settings.speed)),
            ending: copy_chars(&p.endings),
            initial_scale: if last {
                scale_of(p)
            } else {
                (1, 1)
            },
            word_breaks: copy_list(&p.word_breaks),
            accents: copy_list(&p.accents),
            accent_groups: copy_list(&p.accent_groups),
            duration_override: None,
            half_amplitude: false,
            zero_amplitude: false,
        };
        let segments = phrase(lexicon, tables, data, &p.text, settings, &options);
        proof {
            assert(phrase_views[index as int] == p@);
            assert(options@ =~= phrase_options(phrase_views, index as int, settings.speed));
        }
        let ghost sub_view = segments@;
        let ghost joined_before = output@;
        extend(&mut output, segments, data);
        proof {
            let grown = subs.push(sub_view);
            assert(joined_phrases(grown, phrase_views, settings.speed, index as int) == joined_phrases(
                subs,
                phrase_views,
                settings.speed,
                index as int,
            )) by {
                lemma_phrases_prefix(subs, grown, phrase_views, settings.speed, index as int);
            }
            assert forall|k: int|
                0 <= k < index + 1 implies #[trigger] phrase_segments(
                    lexicon,
                    tables,
                    data,
                    phrase_views[k].text,
                    settings,
                    phrase_options(phrase_views, k, settings.speed),
                    grown[k],
                ) by {
                if k < index {
                    assert(grown[k] == subs[k]);
                }
            }
            subs = grown;
        }
        if !last {
            let periods: i32 = if p.endings.len() > 0 {
                200i32.wrapping_add(40i32.wrapping_mul(p.absorbed_pauses))
            } else if p.trailing_breaks > 0 {
                if p.pauses > 0 {
                    40i32.wrapping_mul(p.pauses)
                } else {
                    20
                }
            } else {
                40i32.wrapping_mul(p.pauses)
            };
            assert(periods == gap_periods(phrase_views[index as int]));
            let gap = pause(periods, settings.speed);
            let ghost before = output@;
            output.push(gap);
            assert forall|k: int| 0 <= k < output@.len() implies #[trigger] output@[k].wf(data) by {
                if k < before.len() {
                    assert(before[k].wf(data));
                }
            }
        }
        index += 1;
    }
    let p = &phrases[count - 1];
    let tail: i32 = if p.endings.len() > 0 {
        200i32.wrapping_add(40i32.wrapping_mul(p.absorbed_pauses))
    } else if p.pauses > 0 {
        40i32.wrapping_mul(p.pauses)
    } else if p.trailing_breaks > 0 {
        20
    } else {
        200
    };
    assert(tail == tail_of(phrase_views.last()));
    set_tail(&mut output, tail, data);
    assert(phrased(lexicon, tables, data, settings, phrase_views, subs, output@));
    output
}

/// The phrases joined so far read only the segments of those phrases.
proof fn lemma_phrases_prefix(
    a: Seq<Seq<Segment>>,
    b: Seq<Seq<Segment>>,
    phrases: Seq<parse::PhraseView>,
    speed: i32,
    count: int,
)
    requires
        0 <= count <= a.len(),
        count <= b.len(),
        forall|i: int| 0 <= i < count ==> a[i] == b[i],
    ensures
        joined_phrases(a, phrases, speed, count) == joined_phrases(b, phrases, speed, count),
    decreases count,
{
    if count > 0 {
        lemma_phrases_prefix(a, b, phrases, speed, count - 1);
    }
}

} // verus!

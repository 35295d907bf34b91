//! Phrase markup: pauses, sentence endings, word and accent-group breaks, accents.
use vstd::prelude::*;
use super::lexicon::{Lexicon, split, split_spec};

verus! {

/// Full-width low line: a pause.
pub const PAUSE: char = '\u{ff3f}';
/// Full-width solidus: a word break.
pub const WORD_BREAK: char = '\u{ff0f}';
/// Full-width vertical line: an accent-group break.
pub const GROUP_BREAK: char = '\u{ff5c}';
/// Right single quotation mark: an accent.
pub const ACCENT: char = '\u{2019}';
/// Full-width digit two: a raised phrase start.
pub const RAISED: char = '\u{ff12}';
/// Full-width digit zero: a lowered phrase start.
pub const LOWERED: char = '\u{ff10}';
/// Full-width full stop.
pub const PERIOD: char = '\u{ff0e}';
/// Full-width exclamation mark.
pub const EXCLAMATION: char = '\u{ff01}';
/// Full-width question mark.
pub const QUESTION: char = '\u{ff1f}';
/// Small tsu: a geminate.
pub const SMALL_TSU: char = '\u{30c3}';
/// The moraic nasal.
pub const MORAIC_N: char = '\u{30f3}';
/// The long-vowel mark.
pub const LONG_MARK: char = '\u{30fc}';
/// Full-width percent sign: devoices the preceding kana.
pub const DEVOICE: char = '\u{ff05}';

/// One phrase of marked-up text and its markup.
pub struct Phrase {
    pub text: Vec<char>,
    pub pauses: i32,
    pub endings: Vec<char>,
    pub absorbed_pauses: i32,
    pub trailing_breaks: i32,
    pub initial_mark: Option<char>,
    pub word_breaks: Vec<usize>,
    pub accent_groups: Vec<usize>,
    pub accents: Vec<usize>,
}

/// A phrase as values.
#[verifier::ext_equal]
pub struct PhraseView {
    pub text: Seq<char>,
    pub pauses: i32,
    pub endings: Seq<char>,
    pub absorbed_pauses: i32,
    pub trailing_breaks: i32,
    pub initial_mark: Option<char>,
    pub word_breaks: Seq<usize>,
    pub accent_groups: Seq<usize>,
    pub accents: Seq<usize>,
}

impl View for Phrase {
    type V = PhraseView;

    open spec fn view(&self) -> PhraseView {
        PhraseView {
            text: self.text@,
            pauses: self.pauses,
            endings: self.endings@,
            absorbed_pauses: self.absorbed_pauses,
            trailing_breaks: self.trailing_breaks,
            initial_mark: self.initial_mark,
            word_breaks: self.word_breaks@,
            accent_groups: self.accent_groups@,
            accents: self.accents@,
        }
    }
}

/// A phrase with no text and no markup.
pub open spec fn blank() -> PhraseView {
    PhraseView {
        text: Seq::empty(),
        pauses: 0,
        endings: Seq::empty(),
        absorbed_pauses: 0,
        trailing_breaks: 0,
        initial_mark: None,
        word_breaks: Seq::empty(),
        accent_groups: Seq::empty(),
        accents: Seq::empty(),
    }
}

/// Phrases as values.
pub open spec fn views(phrases: Seq<Phrase>) -> Seq<PhraseView> {
    phrases.map_values(|p: Phrase| p@)
}

impl Phrase {
    pub fn empty() -> (phrase: Phrase)
        ensures
            phrase.text@.len() == 0,
            phrase.pauses == 0,
            phrase.endings@.len() == 0,
            phrase.absorbed_pauses == 0,
            phrase.trailing_breaks == 0,
            phrase.initial_mark is None,
            phrase.word_breaks@.len() == 0,
            phrase.accent_groups@.len() == 0,
            phrase.accents@.len() == 0,
            phrase@ == blank(),
    {
        Phrase {
            text: Vec::new(),
            pauses: 0,
            endings: Vec::new(),
            absorbed_pauses: 0,
            trailing_breaks: 0,
            initial_mark: None,
            word_breaks: Vec::new(),
            accent_groups: Vec::new(),
            accents: Vec::new(),
        }
    }
}

/// Whether a kana entry is the small tsu.
pub open spec fn is_small_tsu(lexicon: &Lexicon, k: int) -> bool {
    lexicon.kana@[k].text@ == seq![SMALL_TSU]
}

pub fn spelled(text: &Vec<char>, c: char) -> (result: bool)
    ensures
        result == (text@ == seq![c]),
{
    let result = text.len() == 1 && text[0] == c;
    proof {
        if text@.len() == 1 && text@[0] == c {
            assert(text@ =~= seq![c]);
        }
    }
    result
}

/// The number of entries of a kana sequence other than small tsu.
pub open spec fn count_kana(lexicon: &Lexicon, tokens: Seq<int>) -> nat
    decreases tokens.len(),
{
    if tokens.len() == 0 {
        0
    } else {
        count_kana(lexicon, tokens.drop_last()) + if is_small_tsu(lexicon, tokens.last()) {
            0nat
        } else {
            1
        }
    }
}

/// The number of kana of a text, not counting small tsu.
pub open spec fn kana_count_spec(lexicon: &Lexicon, text: Seq<char>) -> nat {
    count_kana(lexicon, split_spec(lexicon, text))
}

pub fn kana_count(lexicon: &Lexicon, text: &Vec<char>) -> (count: usize)
    requires
        lexicon.wf(),
    ensures
        count == kana_count_spec(lexicon, text@),
        count <= text@.len(),
{
    let tokens = split(lexicon, text);
    proof {
        crate::text::lexicon::lemma_split_len(lexicon, text@, 0);
    }
    let ghost all = split_spec(lexicon, text@);
    assert(tokens@.map_values(|k: usize| k as int) =~= all);
    let mut count: usize = 0;
    let mut i: usize = 0;
    while i < tokens.len()
        invariant
            lexicon.wf(),
            i <= tokens@.len() == all.len(),
            forall|j: int| 0 <= j < tokens@.len() ==> #[trigger] tokens@[j] as int == all[j],
            forall|j: int| 0 <= j < tokens@.len() ==> #[trigger] tokens@[j] < lexicon.kana@.len(),
            count == count_kana(lexicon, all.take(i as int)),
            count <= i,
        decreases tokens@.len() - i,
    {
        proof {
            assert(all.take(i + 1).drop_last() =~= all.take(i as int));
        }
        if !spelled(&lexicon.kana[tokens[i]].text, SMALL_TSU) {
            count += 1;
        }
        i += 1;
    }
    assert(all.take(i as int) =~= all);
    count
}

/// The characters that end a phrase or mark it up.
pub open spec fn sentence_marker(c: char) -> bool {
    c == PAUSE || c == WORD_BREAK || c == GROUP_BREAK || c == PERIOD || c == EXCLAMATION || c
        == QUESTION
}

/// Whether every character after `index` is a phrase-final marker, or one of
/// `extra` when `marks` allows the start marks too.
pub open spec fn only_markers_after(text: Seq<char>, index: int, marks: bool) -> bool {
    forall|j: int|
        index < j < text.len() ==> sentence_marker(#[trigger] text[j]) || (marks && (text[j]
            == RAISED || text[j] == LOWERED || text[j] == ACCENT))
}

fn only_markers(text: &Vec<char>, index: usize, marks: bool) -> (result: bool)
    requires
        index < text@.len() < 0x8000_0000,
    ensures
        result == only_markers_after(text@, index as int, marks),
{
    let mut j = index + 1;
    while j < text.len()
        invariant
            index < j <= text@.len() < 0x8000_0000,
            forall|k: int| index < k < j ==> sentence_marker(#[trigger] text@[k]) || (marks && (text@[k]
                == RAISED || text@[k] == LOWERED || text@[k] == ACCENT)),
        decreases text@.len() - j,
    {
        let c = text[j];
        let allowed = c == PAUSE || c == WORD_BREAK || c == GROUP_BREAK || c == PERIOD || c
            == EXCLAMATION || c == QUESTION || (marks && (c == RAISED || c == LOWERED || c == ACCENT));
        if !allowed {
            return false;
        }
        j += 1;
    }
    true
}

/// Whether the character at `index` is spoken text rather than markup: the markers
/// are removed, and so are start marks followed only by markers.
pub open spec fn spoken(text: Seq<char>, index: int) -> bool {
    let c = text[index];
    !(sentence_marker(c) || c == ACCENT || ((c == RAISED || c == LOWERED) && only_markers_after(
        text,
        index,
        true,
    )))
}

/// The spoken characters among the first `count` of a text.
pub open spec fn spoken_text(text: Seq<char>, count: int) -> Seq<char>
    decreases count,
{
    if count <= 0 {
        Seq::empty()
    } else if spoken(text, count - 1) {
        spoken_text(text, count - 1).push(text[count - 1])
    } else {
        spoken_text(text, count - 1)
    }
}

/// Every phrase but the last has no trailing breaks and no start mark.
pub open spec fn marks_on_last(phrases: Seq<Phrase>) -> bool {
    forall|i: int| 0 <= i < phrases.len() - 1 ==> #[trigger] phrases[i].trailing_breaks == 0
        && phrases[i].initial_mark is None
}

/// The texts of phrases, concatenated.
pub open spec fn joined_texts(phrases: Seq<Phrase>) -> Seq<char>
    decreases phrases.len(),
{
    if phrases.len() == 0 {
        Seq::empty()
    } else {
        joined_texts(phrases.drop_last()) + phrases.last().text@
    }
}

proof fn lemma_joined_push(phrases: Seq<Phrase>, phrase: Phrase)
    ensures
        joined_texts(phrases.push(phrase)) == joined_texts(phrases) + phrase.text@,
{
    assert(phrases.push(phrase).drop_last() =~= phrases);
}

/// The phrases with `text` appended to the last one, a blank one started when there is none.
pub open spec fn appended(phrases: Seq<PhraseView>, text: Seq<char>) -> Seq<PhraseView> {
    let last = if phrases.len() > 0 {
        phrases.last()
    } else {
        blank()
    };
    let rest = if phrases.len() > 0 {
        phrases.drop_last()
    } else {
        Seq::empty()
    };
    rest.push(PhraseView { text: last.text + text, ..last })
}

/// Appends `current` to the last phrase (creating one if there is none).
fn append_to_last(phrases: &mut Vec<Phrase>, current: &mut Vec<char>)
    ensures
        joined_texts(final(phrases)@) == joined_texts(old(phrases)@) + old(current)@,
        final(phrases)@.len() == if old(phrases)@.len() == 0 { 1 } else { old(phrases)@.len() },
        final(current)@.len() == 0,
        marks_on_last(old(phrases)@) ==> marks_on_last(final(phrases)@),
        final(phrases)@.len() > 0,
        views(final(phrases)@) == appended(views(old(phrases)@), old(current)@),
{
    let mut last = match phrases.pop() {
        Some(p) => p,
        None => Phrase::empty(),
    };
    let ghost rest = phrases@;
    let ghost before = last.text@;
    let ghost last_view = last@;
    let mut index: usize = 0;
    while index < current.len()
        invariant
            index <= current@.len(),
            last.text@ =~= before + current@.take(index as int),
            last@ == (PhraseView { text: before + current@.take(index as int), ..last_view }),
        decreases current@.len() - index,
    {
        last.text.push(current[index]);
        index += 1;
    }
    assert(current@.take(index as int) =~= current@);
    current.clear();
    phrases.push(last);
    proof {
        if old(phrases)@.len() > 0 {
            assert(views(rest) =~= views(old(phrases)@).drop_last());
            assert(last_view == views(old(phrases)@).last());
        } else {
            assert(last_view == blank());
        }
        assert(views(phrases@) =~= appended(views(old(phrases)@), old(current)@));
        if marks_on_last(old(phrases)@) {
            assert forall|i: int| 0 <= i < phrases@.len() - 1 implies #[trigger] phrases@[i].trailing_breaks == 0
                && phrases@[i].initial_mark is None by {
                assert(phrases@[i] == old(phrases)@[i]);
            }
        }
        lemma_joined_push(rest, last);
        if old(phrases)@.len() > 0 {
            assert(old(phrases)@ =~= rest.push(old(phrases)@.last()));
            lemma_joined_push(rest, old(phrases)@.last());
        } else {
            assert(rest =~= Seq::<Phrase>::empty());
            assert(joined_texts(rest) =~= Seq::<char>::empty());
        }
    }
}

/// The phrases and join flag after the collected text ends: it joins the last
/// phrase after an in-phrase break, else starts a new phrase and the phrase before
/// loses its end marks.
pub open spec fn flushed_text(phrases: Seq<PhraseView>, current: Seq<char>, join: bool) -> (Seq<PhraseView>, bool) {
    if current.len() == 0 {
        (phrases, join)
    } else if join && phrases.len() > 0 {
        (appended(phrases, current), false)
    } else {
        let unmarked = if phrases.len() > 0 {
            phrases.update(
                phrases.len() - 1,
                PhraseView { trailing_breaks: 0, initial_mark: None, ..phrases.last() },
            )
        } else {
            phrases
        };
        (unmarked.push(PhraseView { text: current, ..blank() }), join)
    }
}

/// Ends the text collected so far: it joins the last phrase after an in-phrase
/// break, else starts a new phrase.
fn flush(current: &mut Vec<char>, phrases: &mut Vec<Phrase>, join: &mut bool)
    ensures
        joined_texts(final(phrases)@) == joined_texts(old(phrases)@) + old(current)@,
        final(current)@.len() == 0,
        final(phrases)@.len() >= old(phrases)@.len(),
        old(phrases)@.len() > 0 ==> final(phrases)@.len() > 0,
        marks_on_last(old(phrases)@) ==> marks_on_last(final(phrases)@),
        (views(final(phrases)@), *final(join)) == flushed_text(views(old(phrases)@), old(current)@, *old(join)),
{
    if current.len() == 0 {
        assert(joined_texts(phrases@) + current@ =~= joined_texts(phrases@));
        return;
    }
    let ghost initial = views(phrases@);
    if *join && phrases.len() > 0 {
        append_to_last(phrases, current);
        *join = false;
    } else {
        let mut phrase = Phrase::empty();
        let mut index: usize = 0;
        assert(current@.take(0) =~= Seq::<char>::empty());
        while index < current.len()
            invariant
                index <= current@.len(),
                phrase.text@ =~= current@.take(index as int),
                phrase@ == (PhraseView { text: current@.take(index as int), ..blank() }),
            decreases current@.len() - index,
        {
            phrase.text.push(current[index]);
            index += 1;
        }
        assert(current@.take(index as int) =~= current@);
        // The previous phrase is no longer the last one: its end marks are dropped.
        let ghost pre = phrases@;
        if let Some(mut previous) = phrases.pop() {
            let ghost old_phrases = phrases@.push(previous);
            assert(old_phrases =~= pre);
            previous.trailing_breaks = 0;
            previous.initial_mark = None;
            phrases.push(previous);
            proof {
                lemma_joined_replace_last(old_phrases, previous);
                assert(old_phrases.drop_last().push(previous) =~= phrases@);
            }
        }
        let ghost before = phrases@;
        phrases.push(phrase);
        proof {
            lemma_joined_push(before, phrase);
            let unmarked = if initial.len() > 0 {
                initial.update(
                    initial.len() - 1,
                    PhraseView { trailing_breaks: 0, initial_mark: None, ..initial.last() },
                )
            } else {
                initial
            };
            assert(views(before) =~= unmarked);
            assert(views(phrases@) =~= unmarked.push(PhraseView { text: old(current)@, ..blank() }));
            if marks_on_last(old(phrases)@) {
                assert forall|i: int| 0 <= i < phrases@.len() - 1 implies #[trigger] phrases@[i].trailing_breaks == 0
                    && phrases@[i].initial_mark is None by {
                    assert(phrases@[i] == before[i]);
                    if i < before.len() - 1 {
                        assert(before[i] == old(phrases)@[i]);
                    }
                }
            }
        }
        current.clear();
    }
}

proof fn lemma_views_replace_last(phrases: Seq<Phrase>, phrase: Phrase)
    requires
        phrases.len() > 0,
    ensures
        views(phrases.drop_last().push(phrase)) == on_last(views(phrases), phrase@),
{
    assert(views(phrases.drop_last().push(phrase)) =~= on_last(views(phrases), phrase@));
}

proof fn lemma_joined_replace_last(phrases: Seq<Phrase>, phrase: Phrase)
    requires
        phrases.len() > 0,
        phrase.text@ == phrases.last().text@,
    ensures
        joined_texts(phrases.drop_last().push(phrase)) == joined_texts(phrases),
        marks_on_last(phrases) ==> marks_on_last(phrases.drop_last().push(phrase)),
{
    lemma_joined_push(phrases.drop_last(), phrase);
    assert(phrases =~= phrases.drop_last().push(phrases.last()));
    lemma_joined_push(phrases.drop_last(), phrases.last());
    if marks_on_last(phrases) {
        assert forall|i: int| 0 <= i < phrases.drop_last().push(phrase).len() - 1 implies #[trigger] phrases.drop_last().push(phrase)[i].trailing_breaks == 0
            && phrases.drop_last().push(phrase)[i].initial_mark is None by {
            assert(phrases.drop_last().push(phrase)[i] == phrases[i]);
        }
    }
}

/// The parser's state: the phrases so far, the text collected since, whether it
/// joins the last phrase, and whether a break came just before.
#[verifier::ext_equal]
pub struct Parsing {
    pub phrases: Seq<PhraseView>,
    pub current: Seq<char>,
    pub join: bool,
    pub after_slash: bool,
}

/// The phrases with the last one, if any, replaced by `update(last)`.
pub open spec fn on_last(phrases: Seq<PhraseView>, last: PhraseView) -> Seq<PhraseView> {
    if phrases.len() > 0 {
        phrases.update(phrases.len() - 1, last)
    } else {
        phrases
    }
}

/// The state after the collected text ends.
pub open spec fn flushed_state(state: Parsing) -> Parsing {
    let (phrases, join) = flushed_text(state.phrases, state.current, state.join);
    Parsing { phrases, current: Seq::empty(), join, after_slash: state.after_slash }
}

/// The state after character `index` of a text.
pub open spec fn parse_step(lexicon: &Lexicon, text: Seq<char>, index: int, state: Parsing) -> Parsing {
    let ch = text[index];
    if ch == PAUSE {
        if state.after_slash {
            Parsing { after_slash: false, ..state }
        } else {
            let f = flushed_state(state);
            let last = f.phrases.last();
            Parsing {
                phrases: on_last(f.phrases, PhraseView { pauses: last.pauses.wrapping_add(1), ..last }),
                join: false,
                ..f
            }
        }
    } else if (ch == WORD_BREAK || ch == GROUP_BREAK) && only_markers_after(text, index, false) {
        let f = flushed_state(state);
        let last = f.phrases.last();
        Parsing {
            phrases: on_last(f.phrases, PhraseView { trailing_breaks: last.trailing_breaks.wrapping_add(1), ..last }),
            after_slash: true,
            ..f
        }
    } else if ch == WORD_BREAK || ch == GROUP_BREAK {
        let phrases = appended(state.phrases, state.current);
        let last = phrases.last();
        let count = kana_count_spec(lexicon, last.text) as usize;
        Parsing {
            phrases: on_last(
                phrases,
                PhraseView {
                    word_breaks: last.word_breaks.push(count),
                    accent_groups: if ch == GROUP_BREAK {
                        last.accent_groups.push(count)
                    } else {
                        last.accent_groups
                    },
                    ..last
                },
            ),
            current: Seq::empty(),
            join: true,
            after_slash: true,
        }
    } else if (ch == ACCENT || ch == RAISED || ch == LOWERED) && only_markers_after(text, index, true) {
        let f = flushed_state(state);
        Parsing { phrases: on_last(f.phrases, PhraseView { initial_mark: Some(ch), ..f.phrases.last() }), ..f }
    } else if ch == ACCENT {
        let phrases = if state.current.len() > 0 {
            appended(state.phrases, state.current)
        } else {
            state.phrases
        };
        let last = phrases.last();
        Parsing {
            phrases: on_last(
                phrases,
                PhraseView { accents: last.accents.push(kana_count_spec(lexicon, last.text) as usize), ..last },
            ),
            current: if state.current.len() > 0 {
                Seq::empty()
            } else {
                state.current
            },
            join: true,
            ..state
        }
    } else if ch == PERIOD || ch == EXCLAMATION || ch == QUESTION {
        let f = flushed_state(state);
        let last = f.phrases.last();
        let absorbed = if last.endings.len() == 0 {
            PhraseView { absorbed_pauses: last.pauses, pauses: 0, ..last }
        } else {
            last
        };
        Parsing { phrases: on_last(f.phrases, PhraseView { endings: absorbed.endings.push(ch), ..absorbed }), ..f }
    } else {
        Parsing { current: state.current.push(ch), ..state }
    }
}

/// The state after the first `count` characters of a text.
pub open spec fn parse_state(lexicon: &Lexicon, text: Seq<char>, count: int) -> Parsing
    decreases count,
{
    if count <= 0 {
        Parsing { phrases: Seq::empty(), current: Seq::empty(), join: false, after_slash: false }
    } else {
        parse_step(lexicon, text, count - 1, parse_state(lexicon, text, count - 1))
    }
}

/// The phrases of a marked-up text.
pub open spec fn parsed(lexicon: &Lexicon, text: Seq<char>) -> Seq<PhraseView> {
    flushed_state(parse_state(lexicon, text, text.len() as int)).phrases
}

/// Reads character `index` of a text into the parser's state.
#[verifier::rlimit(100)]
fn parse_char(
    lexicon: &Lexicon,
    text: &Vec<char>,
    index: usize,
    phrases: &mut Vec<Phrase>,
    current: &mut Vec<char>,
    join: &mut bool,
    after_slash: &mut bool,
)
    requires
        lexicon.wf(),
        index < text@.len() < 0x8000_0000,
        marks_on_last(old(phrases)@),
    ensures
        joined_texts(final(phrases)@) + final(current)@ == if spoken(text@, index as int) {
            (joined_texts(old(phrases)@) + old(current)@).push(text@[index as int])
        } else {
            joined_texts(old(phrases)@) + old(current)@
        },
        marks_on_last(final(phrases)@),
        (Parsing { phrases: views(final(phrases)@), current: final(current)@, join: *final(join), after_slash: *final(after_slash) })
            == parse_step(
            lexicon,
            text@,
            index as int,
            Parsing { phrases: views(old(phrases)@), current: old(current)@, join: *old(join), after_slash: *old(after_slash) },
        ),
{
    let ch = text[index];
    if ch == PAUSE {
        if *after_slash {
            *after_slash = false;
            return;
        }
        flush(current, phrases, join);
        *join = false;
        let ghost pre = phrases@;
        if let Some(mut last) = phrases.pop() {
            let ghost old_phrases = phrases@.push(last);
            assert(old_phrases =~= pre);
            last.pauses = last.pauses.wrapping_add(1);
            phrases.push(last);
            proof {
                lemma_joined_replace_last(old_phrases, last);
                lemma_views_replace_last(old_phrases, last);
                assert(old_phrases.drop_last().push(last) =~= phrases@);
            }
        }
    } else if (ch == WORD_BREAK || ch == GROUP_BREAK) && only_markers(text, index, false) {
        flush(current, phrases, join);
        let ghost pre = phrases@;
        if let Some(mut last) = phrases.pop() {
            let ghost old_phrases = phrases@.push(last);
            assert(old_phrases =~= pre);
            last.trailing_breaks = last.trailing_breaks.wrapping_add(1);
            phrases.push(last);
            proof {
                lemma_joined_replace_last(old_phrases, last);
                lemma_views_replace_last(old_phrases, last);
                assert(old_phrases.drop_last().push(last) =~= phrases@);
            }
        }
        *after_slash = true;
    } else if ch == WORD_BREAK || ch == GROUP_BREAK {
        append_to_last(phrases, current);
        let ghost pre = phrases@;
        let mut last = phrases.pop().unwrap();
        let ghost old_phrases = phrases@.push(last);
        assert(old_phrases =~= pre);
        let count = kana_count(lexicon, &last.text);
        last.word_breaks.push(count);
        if ch == GROUP_BREAK {
            last.accent_groups.push(count);
        }
        phrases.push(last);
        proof {
            lemma_joined_replace_last(old_phrases, last);
                lemma_views_replace_last(old_phrases, last);
            assert(old_phrases.drop_last().push(last) =~= phrases@);
        }
        *join = true;
        *after_slash = true;
    } else if (ch == ACCENT || ch == RAISED || ch == LOWERED) && only_markers(text, index, true) {
        flush(current, phrases, join);
        let ghost pre = phrases@;
        if let Some(mut last) = phrases.pop() {
            let ghost old_phrases = phrases@.push(last);
            assert(old_phrases =~= pre);
            last.initial_mark = Some(ch);
            phrases.push(last);
            proof {
                lemma_joined_replace_last(old_phrases, last);
                lemma_views_replace_last(old_phrases, last);
                assert(old_phrases.drop_last().push(last) =~= phrases@);
            }
        }
    } else if ch == ACCENT {
        if current.len() > 0 {
            append_to_last(phrases, current);
        }
        // A leading accent marker has no preceding mora to mark.
        let ghost pre = phrases@;
        if let Some(mut last) = phrases.pop() {
            let ghost old_phrases = phrases@.push(last);
            assert(old_phrases =~= pre);
            let count = kana_count(lexicon, &last.text);
            last.accents.push(count);
            phrases.push(last);
            proof {
                lemma_joined_replace_last(old_phrases, last);
                lemma_views_replace_last(old_phrases, last);
                assert(old_phrases.drop_last().push(last) =~= phrases@);
            }
        }
        *join = true;
    } else if ch == PERIOD || ch == EXCLAMATION || ch == QUESTION {
        flush(current, phrases, join);
        let ghost pre = phrases@;
        if let Some(mut last) = phrases.pop() {
            let ghost old_phrases = phrases@.push(last);
            assert(old_phrases =~= pre);
            if last.endings.len() == 0 {
                last.absorbed_pauses = last.pauses;
                last.pauses = 0;
            }
            last.endings.push(ch);
            phrases.push(last);
            proof {
                lemma_joined_replace_last(old_phrases, last);
                lemma_views_replace_last(old_phrases, last);
                assert(old_phrases.drop_last().push(last) =~= phrases@);
            }
        }
    } else {
        current.push(ch);
    }
}

/// Splits marked-up text into phrases. Pauses (`＿`), sentence endings (`．！？`),
/// word and accent-group breaks (`／｜`) followed only by markers end a phrase; inner
/// breaks and accents (`’`) are recorded at their kana position; a trailing `’`, `２`
/// or `０` marks the phrase start. Only the last phrase keeps its trailing breaks and
/// start mark.
pub fn parse(lexicon: &Lexicon, text: &Vec<char>) -> (phrases: Vec<Phrase>)
    requires
        lexicon.wf(),
        text@.len() < 0x8000_0000,
    ensures
        joined_texts(phrases@) == spoken_text(text@, text@.len() as int),
        marks_on_last(phrases@),
        views(phrases@) == parsed(lexicon, text@),
{
    let mut phrases: Vec<Phrase> = Vec::new();
    let mut current: Vec<char> = Vec::new();
    let mut join = false;
    let mut after_slash = false;
    let mut index: usize = 0;
    assert(views(phrases@) =~= Seq::<PhraseView>::empty());
    while index < text.len()
        invariant
            lexicon.wf(),
            text@.len() < 0x8000_0000,
            index <= text@.len(),
            joined_texts(phrases@) + current@ == spoken_text(text@, index as int),
            marks_on_last(phrases@),
            (Parsing { phrases: views(phrases@), current: current@, join, after_slash }) == parse_state(
                lexicon,
                text@,
                index as int,
            ),
        decreases text@.len() - index,
    {
        let ghost before = joined_texts(phrases@) + current@;
        assert(spoken_text(text@, index + 1) == if spoken(text@, index as int) {
            before.push(text@[index as int])
        } else {
            before
        });
        parse_char(lexicon, text, index, &mut phrases, &mut current, &mut join, &mut after_slash);
        index += 1;
    }
    flush(&mut current, &mut phrases, &mut join);
    assert(joined_texts(phrases@) =~= spoken_text(text@, text@.len() as int));
    phrases
}

/// The entry spelled at `position`: the two-character spelling first, then one.
pub open spec fn prefix_spec(lexicon: &Lexicon, text: Seq<char>, position: int) -> Option<int> {
    let double = if position + 2 <= text.len() {
        position + 2
    } else {
        text.len() as int
    };
    match lexicon.lookup_spec(text.subrange(position, double)) {
        Some(k) => Some(k),
        None => lexicon.lookup_spec(text.subrange(position, position + 1)),
    }
}

/// The entry spelled at `position`, whose spelling then starts the rest of the text.
pub fn prefix(lexicon: &Lexicon, text: &Vec<char>, position: usize) -> (result: Option<usize>)
    requires
        lexicon.wf(),
        position < text@.len(),
    ensures
        result matches Some(k) ==> prefix_spec(lexicon, text@, position as int) == Some(k as int)
            && k < lexicon.kana@.len() && position + lexicon.kana@[k as int].text@.len() <= text@.len()
            && lexicon.kana@[k as int].text@.len() >= 1,
        result is None ==> prefix_spec(lexicon, text@, position as int) is None,
{
    let double = if text.len() - position >= 2 { position + 2 } else { text.len() };
    let found = match lexicon.lookup(text, position, double) {
        Some(k) => Some(k),
        None => lexicon.lookup(text, position, position + 1),
    };
    proof {
        if let Some(k) = found {
            assert(lexicon.kana@[k as int].text@.len() >= 1);
        }
    }
    found
}

/// Mora count of a kana, counting a small tsu as one mora.
pub open spec fn chunk_moras_spec(lexicon: &Lexicon, k: usize) -> nat {
    if lexicon.kana@[k as int].text@ == seq![SMALL_TSU] {
        1
    } else {
        lexicon.kana@[k as int].mora_count_spec()
    }
}

fn chunk_moras(lexicon: &Lexicon, k: usize) -> (count: usize)
    requires
        lexicon.wf(),
        k < lexicon.kana@.len(),
    ensures
        count == chunk_moras_spec(lexicon, k),
        1 <= count <= 0x8000_0001,
{
    assert(lexicon.kana@[k as int].text@.len() >= 1);
    if spelled(&lexicon.kana[k].text, SMALL_TSU) {
        1
    } else {
        lexicon.kana[k].mora_count()
    }
}

/// The most moras in a chunk.
pub const CHUNK_LIMIT: usize = 32;

/// Whether a bar of the text falls before kana `kana_index` of the chunk, counting
/// `done` kana before the chunk.
pub open spec fn bar_before(bars: Seq<usize>, done: int, kana_index: int) -> bool {
    exists|b: int| 0 <= b < bars.len() && #[trigger] bars[b] > done && bars[b] - done == kana_index
}

/// The candidate chunk ends found scanning from `offset`, each as (end offset, moras
/// so far, the kana's moras, the kana): the scan stops after the first kana that
/// takes the moras over the limit. The count restarts at a bar.
pub open spec fn chunk_bounds(
    lexicon: &Lexicon,
    text: Seq<char>,
    bars: Seq<usize>,
    done: int,
    offset: int,
    moras: int,
    kana_index: int,
    bounds: Seq<(usize, usize, usize, usize)>,
) -> Seq<(usize, usize, usize, usize)>
    decreases text.len() - offset,
{
    if offset < 0 || offset >= text.len() {
        bounds
    } else {
        match prefix_spec(lexicon, text, offset) {
            None => chunk_bounds(lexicon, text, bars, done, offset + 1, moras, kana_index, bounds),
            Some(k) => {
                let count = chunk_moras_spec(lexicon, k as usize);
                let start = if bar_before(bars, done, kana_index) {
                    0
                } else {
                    moras
                };
                let end = offset + lexicon.kana@[k].text@.len();
                let total = start + count;
                let grown = bounds.push((end as usize, total as usize, count as usize, k as usize));
                if total > CHUNK_LIMIT || end <= offset {
                    grown
                } else {
                    chunk_bounds(lexicon, text, bars, done, end, total, kana_index + 1, grown)
                }
            },
        }
    }
}

/// The first bound at or after `i` whose moras exceed the limit, or the bound count.
pub open spec fn first_over(bounds: Seq<(usize, usize, usize, usize)>, i: int) -> int
    decreases bounds.len() - i,
{
    if 0 <= i < bounds.len() && bounds[i].1 <= CHUNK_LIMIT {
        first_over(bounds, i + 1)
    } else {
        i
    }
}

/// Whether a cut moves back over a kana: a one-mora kana that starts with a
/// consonant, after a two-mora kana, a small tsu or the moraic nasal.
pub open spec fn moves_back_spec(lexicon: &Lexicon, bound: (usize, usize, usize, usize), before: (usize, usize, usize, usize)) -> bool {
    let kana = lexicon.kana@[bound.3 as int];
    let previous = lexicon.kana@[before.3 as int].text@;
    bound.2 == 1 && kana.moras@.len() > 0 && kana.moras@[0].phonemes@.len() > 1 && (before.2 == 2 || previous
        == seq![SMALL_TSU] || previous == seq![MORAIC_N])
}

/// The cut after moving back from bound `cut` while the limit is met exactly.
pub open spec fn cut_back(lexicon: &Lexicon, bounds: Seq<(usize, usize, usize, usize)>, cut: int) -> int
    decreases cut,
{
    if cut > 0 && bounds[cut].1 == CHUNK_LIMIT && moves_back_spec(lexicon, bounds[cut], bounds[cut - 1]) {
        cut_back(lexicon, bounds, cut - 1)
    } else {
        cut
    }
}

/// The end of the chunk that starts at `rest`, or `None` when the first kana alone
/// exceeds the limit.
pub open spec fn chunk_end(lexicon: &Lexicon, text: Seq<char>, bars: Seq<usize>, rest: int, done: int) -> Option<int> {
    let bounds = chunk_bounds(lexicon, text, bars, done, rest, 0, 0, Seq::empty());
    let cut = first_over(bounds, 0);
    if cut < bounds.len() {
        if cut == 0 {
            None
        } else {
            Some(bounds[cut_back(lexicon, bounds, cut - 1)].0 as int)
        }
    } else {
        Some(text.len() as int)
    }
}

/// The chunks cut from `rest` on, after `parts`, with `done` kana before `rest`.
pub open spec fn limited_chunks(
    lexicon: &Lexicon,
    text: Seq<char>,
    bars: Seq<usize>,
    rest: int,
    done: int,
    parts: Seq<(usize, usize)>,
) -> Seq<(usize, usize)>
    decreases text.len() - rest,
{
    if rest < 0 || rest >= text.len() {
        parts
    } else {
        match chunk_end(lexicon, text, bars, rest, done) {
            None => parts,
            Some(end) => if end <= rest || end > text.len() {
                parts
            } else {
                limited_chunks(
                    lexicon,
                    text,
                    bars,
                    end,
                    done + kana_count_spec(lexicon, text.subrange(rest, end)),
                    parts.push((rest as usize, end as usize)),
                )
            },
        }
    }
}

/// Plain chunks of the text from `offset` on: a new chunk starts at the first kana
/// once the current one has reached the limit; small tsu count no mora, and the
/// count saturates.
pub open spec fn plain_chunks(
    lexicon: &Lexicon,
    text: Seq<char>,
    offset: int,
    start: int,
    count: int,
    parts: Seq<(usize, usize)>,
) -> Seq<(usize, usize)>
    decreases text.len() - offset,
{
    if offset < 0 || offset >= text.len() {
        let parts = if start < text.len() {
            parts.push((start as usize, text.len() as usize))
        } else {
            parts
        };
        if parts.len() == 0 {
            seq![(0usize, text.len() as usize)]
        } else {
            parts
        }
    } else {
        match prefix_spec(lexicon, text, offset) {
            None => plain_chunks(lexicon, text, offset + 1, start, count, parts),
            Some(k) => {
                let full = count >= CHUNK_LIMIT;
                let parts = if full {
                    parts.push((start as usize, offset as usize))
                } else {
                    parts
                };
                let start = if full {
                    offset
                } else {
                    start
                };
                let count = if full {
                    0
                } else {
                    count
                };
                let end = offset + lexicon.kana@[k].text@.len();
                let count = if lexicon.kana@[k].text@ == seq![SMALL_TSU] {
                    count
                } else {
                    let moras = lexicon.kana@[k].mora_count_spec();
                    if count > 0x8000_0000 - moras {
                        0x8000_0000
                    } else {
                        count + moras
                    }
                };
                if end <= offset {
                    parts
                } else {
                    plain_chunks(lexicon, text, end, start, count, parts)
                }
            },
        }
    }
}

/// The chunks of a text: limited chunks when there are several, plain chunks
/// otherwise.
pub open spec fn chunks(lexicon: &Lexicon, text: Seq<char>, bars: Seq<usize>) -> Seq<(usize, usize)> {
    let limited = limited_chunks(lexicon, text, bars, 0, 0, Seq::empty());
    if limited.len() > 1 {
        limited
    } else {
        plain_chunks(lexicon, text, 0, 0, 0, Seq::empty())
    }
}

fn moves_back(lexicon: &Lexicon, bound: (usize, usize, usize, usize), before: (usize, usize, usize, usize)) -> (result: bool)
    requires
        lexicon.wf(),
        bound.3 < lexicon.kana@.len(),
        before.3 < lexicon.kana@.len(),
    ensures
        result == moves_back_spec(lexicon, bound, before),
{
    let kana = &lexicon.kana[bound.3];
    let previous = &lexicon.kana[before.3];
    bound.2 == 1 && kana.moras.len() > 0 && kana.moras[0].phonemes.len() > 1 && (before.2 == 2 || spelled(
        &previous.text,
        SMALL_TSU,
    ) || spelled(&previous.text, MORAIC_N))
}

/// Character spans that follow one another from the start of the text, each
/// within the text.
pub open spec fn consecutive_spans(spans: Seq<(usize, usize)>, length: nat) -> bool {
    &&& spans.len() > 0 ==> spans[0].0 == 0
    &&& forall|i: int| 0 <= i < spans.len() ==> #[trigger] spans[i].0 <= spans[i].1 <= length
    &&& forall|i: int| 0 <= i < spans.len() - 1 ==> #[trigger] spans[i].1 == spans[i + 1].0
}

/// Whether a bar falls before kana `kana_index` of the chunk.
fn bar_before_exec(bars: &Vec<usize>, done: usize, kana_index: usize) -> (result: bool)
    ensures
        result == bar_before(bars@, done as int, kana_index as int),
{
    let mut b: usize = 0;
    while b < bars.len()
        invariant
            b <= bars@.len(),
            forall|j: int| 0 <= j < b ==> !(#[trigger] bars@[j] > done && bars@[j] - done == kana_index),
        decreases bars@.len() - b,
    {
        if bars[b] > done && bars[b] - done == kana_index {
            return true;
        }
        b += 1;
    }
    false
}

/// Splits text into chunks of at most 32 moras, cutting before a kana that would
/// exceed the limit (moras counted from the last accent-group or word bar), and
/// moving a cut back over a one-mora kana with a consonant when it follows a
/// two-mora kana, a small tsu or the moraic nasal. Falls back to plain 32-mora
/// chunks when that gives a single chunk.
#[verifier::rlimit(60)]
pub fn split_chunks(lexicon: &Lexicon, text: &Vec<char>, bars: &Vec<usize>) -> (parts: Vec<(usize, usize)>)
    requires
        lexicon.wf(),
        text@.len() < 0x8000_0000,
    ensures
        parts@ == chunks(lexicon, text@, bars@),
        parts@.len() >= 1,
        consecutive_spans(parts@, text@.len()),
{
    let limit: usize = CHUNK_LIMIT;
    let length = text.len();
    let mut parts: Vec<(usize, usize)> = Vec::new();
    let mut rest: usize = 0;
    let mut done: usize = 0;
    while rest < length
        invariant
            lexicon.wf(),
            length == text@.len() < 0x8000_0000,
            rest <= length,
            done <= rest,
            consecutive_spans(parts@, length as nat),
            parts@.len() > 0 ==> parts@.last().1 == rest,
            parts@.len() == 0 ==> rest == 0,
            limit == CHUNK_LIMIT,
            limited_chunks(lexicon, text@, bars@, rest as int, done as int, parts@) == limited_chunks(
                lexicon,
                text@,
                bars@,
                0,
                0,
                Seq::empty(),
            ),
        ensures
            limited_chunks(lexicon, text@, bars@, rest as int, done as int, parts@) == parts@,
        decreases length - rest,
    {
        let mut bounds: Vec<(usize, usize, usize, usize)> = Vec::new();
        let mut offset: usize = rest;
        let mut moras: usize = 0;
        let mut kana_index: usize = 0;
        let ghost scanned = chunk_bounds(lexicon, text@, bars@, done as int, rest as int, 0, 0, Seq::empty());
        while offset < length
            invariant_except_break
                chunk_bounds(lexicon, text@, bars@, done as int, offset as int, moras as int, kana_index as int, bounds@)
                    == scanned,
            invariant
                lexicon.wf(),
                length == text@.len() < 0x8000_0000,
                rest <= offset <= length,
                kana_index == bounds@.len() <= offset - rest,
                limit == CHUNK_LIMIT,
                moras <= limit,
                forall|i: int| 0 <= i < bounds@.len() ==> rest < (#[trigger] bounds@[i]).0 <= offset
                    && bounds@[i].3 < lexicon.kana@.len(),
            ensures
                bounds@ == scanned,
            decreases length - offset,
        {
            match prefix(lexicon, text, offset) {
                None => {
                    offset += 1;
                },
                Some(k) => {
                    let count = chunk_moras(lexicon, k);
                    if bar_before_exec(bars, done, kana_index) {
                        moras = 0;
                    }
                    offset = offset + lexicon.kana[k].text.len();
                    let total = moras + count;
                    bounds.push((offset, total, count, k));
                    kana_index += 1;
                    if total > limit {
                        break;
                    }
                    moras = total;
                },
            }
        }
        let mut cut: usize = 0;
        while cut < bounds.len() && bounds[cut].1 <= limit
            invariant
                cut <= bounds@.len(),
                limit == CHUNK_LIMIT,
                first_over(bounds@, cut as int) == first_over(bounds@, 0),
            decreases bounds@.len() - cut,
        {
            cut += 1;
        }
        let end = if cut < bounds.len() {
            if cut == 0 {
                assert(chunk_end(lexicon, text@, bars@, rest as int, done as int) is None);
                break;
            }
            let mut cut = cut - 1;
            let ghost from = cut as int;
            assert(bounds@[cut as int].0 > rest);
            while cut > 0 && bounds[cut].1 == limit && moves_back(lexicon, bounds[cut], bounds[cut - 1])
                invariant
                    lexicon.wf(),
                    cut < bounds@.len(),
                    limit == CHUNK_LIMIT,
                    forall|i: int| 0 <= i < bounds@.len() ==> rest < (#[trigger] bounds@[i]).0 <= length
                        && bounds@[i].3 < lexicon.kana@.len(),
                    cut_back(lexicon, bounds@, cut as int) == cut_back(lexicon, bounds@, from),
                decreases cut,
            {
                cut -= 1;
            }
            bounds[cut].0
        } else {
            length
        };
        assert(chunk_end(lexicon, text@, bars@, rest as int, done as int) == Some(end as int));
        if end == rest {
            break;
        }
        parts.push((rest, end));
        let mut head: Vec<char> = Vec::new();
        let mut i = rest;
        while i < end
            invariant
                rest <= i <= end <= length == text@.len(),
                head@ == text@.subrange(rest as int, i as int),
            decreases end - i,
        {
            head.push(text[i]);
            assert(text@.subrange(rest as int, i + 1) =~= text@.subrange(rest as int, i as int).push(text@[i as int]));
            i += 1;
        }
        let counted = kana_count(lexicon, &head);
        done = done + counted;
        rest = end;
    }
    if parts.len() > 1 {
        return parts;
    }
    let mut parts: Vec<(usize, usize)> = Vec::new();
    let mut start: usize = 0;
    let mut offset: usize = 0;
    let mut count: usize = 0;
    while offset < length
        invariant
            lexicon.wf(),
            length == text@.len() < 0x8000_0000,
            start <= offset <= length,
            count <= 0x8000_0000,
            limit == CHUNK_LIMIT,
            consecutive_spans(parts@, length as nat),
            parts@.len() > 0 ==> parts@.last().1 == start,
            parts@.len() == 0 ==> start == 0,
            plain_chunks(lexicon, text@, offset as int, start as int, count as int, parts@) == plain_chunks(
                lexicon,
                text@,
                0,
                0,
                0,
                Seq::empty(),
            ),
        decreases length - offset,
    {
        match prefix(lexicon, text, offset) {
            Some(k) => {
                if count >= limit {
                    parts.push((start, offset));
                    start = offset;
                    count = 0;
                }
                offset = offset + lexicon.kana[k].text.len();
                if !spelled(&lexicon.kana[k].text, SMALL_TSU) {
                    // Only the comparison with the limit reads the count, so it
                    // may saturate far above it.
                    assert(lexicon.kana@[k as int].text@.len() >= 1);
                    let moras = lexicon.kana[k].mora_count();
                    count = if count > 0x8000_0000 - moras { 0x8000_0000 } else { count + moras };
                }
            },
            None => {
                offset += 1;
            },
        }
    }
    let ghost before = parts@;
    if start < length {
        parts.push((start, length));
    }
    if parts.len() == 0 {
        parts.push((0, length));
    }
    assert(plain_chunks(lexicon, text@, offset as int, start as int, count as int, before) == parts@);
    parts
}

} // verus!

verus! {

/// The spoken text of a prefix is no longer than the prefix.
pub proof fn lemma_spoken_len(text: Seq<char>, count: int)
    ensures
        spoken_text(text, count).len() <= if count > 0 {
            count
        } else {
            0
        },
    decreases count,
{
    if count > 0 {
        lemma_spoken_len(text, count - 1);
    }
}

/// Each phrase's text is part of the joined texts.
pub proof fn lemma_joined_part(phrases: Seq<Phrase>, i: int)
    requires
        0 <= i < phrases.len(),
    ensures
        phrases[i].text@.len() <= joined_texts(phrases).len(),
    decreases phrases.len(),
{
    if i < phrases.len() - 1 {
        lemma_joined_part(phrases.drop_last(), i);
        assert(phrases.drop_last()[i] == phrases[i]);
    }
}

} // verus!

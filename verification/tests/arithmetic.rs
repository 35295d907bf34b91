use shtts::dsp::{pitch_div, rounded_div};
use shtts::prosody::ramp;
use shtts::text::accent::{curve, modulation, rate};
use shtts::text::duration::Position;
use shtts::text::units::{floor_div, short};

#[test]
fn rounded_division_rounds_halves_away_from_zero() {
    assert_eq!(rounded_div(7, 2), 4);
    assert_eq!(rounded_div(-7, 2), -4);
    assert_eq!(rounded_div(5, -3), -2);
    assert_eq!(rounded_div(4, 3), 1);
    assert_eq!(rounded_div(7, 0), 0);
}

#[test]
fn pitch_division_rounds_negative_halves_toward_zero_and_saturates() {
    assert_eq!(pitch_div(7, 2), 4);
    assert_eq!(pitch_div(-7, 2), -3);
    assert_eq!(pitch_div(1, 0), 0);
    assert_eq!(pitch_div(100000, 1), 32767);
    assert_eq!(pitch_div(-100000, 1), -32767);
}

#[test]
fn pitch_ramp_reaches_its_target() {
    assert_eq!(ramp(0, 100, 4), vec![25, 50, 75, 100]);
    assert!(ramp(0, 100, 0).is_empty());
}

#[test]
fn accent_curve_rises_then_falls() {
    assert_eq!(curve(0), 0);
    assert_eq!(curve(-5), 0);
    assert_eq!(curve(1000), 156);
    assert_eq!(curve(2000), 312);
    assert_eq!(curve(30000), 0);
}

#[test]
fn accent_rate_depends_on_duration() {
    assert_eq!(rate(400), 6301);
    assert_eq!(rate(750), 4096);
    assert_eq!(modulation(10, 100), 1);
}

#[test]
fn positions_mark_phrase_and_word_ends() {
    let first = Position::new(0, 5, 1);
    assert_eq!((first.phrase, first.word), (0, 0));
    let last = Position::new(4, 5, 1);
    assert_eq!((last.phrase, last.word), (2, 2));
    let middle = Position::new(2, 5, 3);
    assert_eq!((middle.phrase, middle.word), (1, 1));
    let only = Position::new(0, 1, 1);
    assert_eq!((only.phrase, only.word), (2, 1));
}

#[test]
fn short_values_wrap_to_sixteen_bits() {
    assert_eq!(short(40000), -25536);
    assert_eq!(short(-5), -5);
    assert_eq!(floor_div(-7, 2), -4);
    assert_eq!(floor_div(7, 2), 3);
}

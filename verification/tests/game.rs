use phira::config::{Mods, INSTANT_DEATH_AP, INSTANT_DEATH_FC};
use phira::game::{combo_heal_step, Judgement, infer_chart_format, judge_line_tint, play_over, BestRecord, ChartFormat, GameMode, LineTint, UIElement};

#[test]
fn chart_format_from_the_file() {
    assert_eq!(infer_chart_format(Some(ChartFormat::Pec), b"{\"META\":{}}"), ChartFormat::Pec);
    assert_eq!(infer_chart_format(None, b"{\"META\":{},\"judgeLineList\":[]}"), ChartFormat::Rpe);
    assert_eq!(infer_chart_format(None, b"{\"formatVersion\":3}"), ChartFormat::Pgr);
    assert_eq!(infer_chart_format(None, b"offset 0\nbp 0 120"), ChartFormat::Pec);
    assert_eq!(infer_chart_format(None, b""), ChartFormat::Pec);
    assert_eq!(infer_chart_format(None, &[0x7b, 0xff, 0xfe]), ChartFormat::Pbc);
    assert_eq!(infer_chart_format(None, "{\"名\":\"META\"}".as_bytes()), ChartFormat::Rpe);
}

#[test]
fn ui_elements_by_number() {
    assert_eq!(UIElement::from_u8(1), Some(UIElement::Pause));
    assert_eq!(UIElement::from_u8(7), Some(UIElement::Level));
    assert_eq!(UIElement::from_u8(0), None);
    assert_eq!(UIElement::from_u8(8), None);
}

#[test]
fn judge_line_tints() {
    assert_eq!(judge_line_tint([10, 0, 0, 0], true), LineTint::Perfect);
    assert_eq!(judge_line_tint([10, 2, 0, 0], true), LineTint::Good);
    assert_eq!(judge_line_tint([10, 2, 1, 0], true), LineTint::Plain);
    assert_eq!(judge_line_tint([10, 0, 0, 1], true), LineTint::Plain);
    assert_eq!(judge_line_tint([10, 0, 0, 0], false), LineTint::Plain);
}

#[test]
fn early_end_of_a_play() {
    let ap = Mods { bits: INSTANT_DEATH_AP };
    let fc = Mods { bits: INSTANT_DEATH_FC };
    let none = Mods::empty();
    assert!(play_over(false, true, ap, [5, 1, 0, 0], false, false, GameMode::Normal));
    assert!(!play_over(false, true, fc, [5, 1, 0, 0], false, false, GameMode::Normal));
    assert!(play_over(false, true, fc, [5, 0, 0, 1], false, false, GameMode::Normal));
    assert!(!play_over(true, true, ap, [5, 1, 0, 0], false, false, GameMode::Normal));
    assert!(!play_over(false, false, ap, [5, 1, 0, 0], false, false, GameMode::Normal));
    assert!(play_over(false, true, none, [0, 0, 0, 0], true, true, GameMode::NoRetry));
    assert!(!play_over(false, true, none, [0, 0, 0, 0], true, true, GameMode::Exercise));
    assert!(!play_over(false, true, none, [0, 0, 0, 0], true, true, GameMode::TweakOffset));
    assert!(!play_over(false, true, none, [0, 0, 0, 0], false, true, GameMode::Normal));
}

#[test]
fn best_record_keeps_each_best_part() {
    let mut best = BestRecord { score: 900_000, accuracy_bits: 0.95f32.to_bits(), full_combo: false };
    let other = BestRecord { score: 800_000, accuracy_bits: 0.97f32.to_bits(), full_combo: true };
    assert!(best.update(&other));
    assert_eq!(best, BestRecord { score: 900_000, accuracy_bits: 0.97f32.to_bits(), full_combo: true });
    assert!(!best.update(&other));
    let worse = BestRecord { score: 1, accuracy_bits: 0.1f32.to_bits(), full_combo: false };
    assert!(!best.update(&worse));
}

#[test]
fn combo_heals_every_ten() {
    assert_eq!(combo_heal_step(0, Judgement::Perfect, 9), (0, false));
    assert_eq!(combo_heal_step(0, Judgement::Perfect, 10), (10, true));
    assert_eq!(combo_heal_step(10, Judgement::Good, 15), (10, false));
    assert_eq!(combo_heal_step(10, Judgement::Perfect, 20), (20, true));
    assert_eq!(combo_heal_step(20, Judgement::Bad, 27), (20, false));
    assert_eq!(combo_heal_step(20, Judgement::Miss, 0), (0, false));
    assert_eq!(combo_heal_step(5, Judgement::Miss, 12), (12, true));
}

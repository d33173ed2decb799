use phira::config::{Mods, HEALTH_MODE, NIGHTCORE};
use phira::daily::{
    challenge_for, day_of, local_day_of, hash, on_finished, path, record_of, start, take_pending_override, today, today_challenge, Challenge, Constraint,
    DailyState, DayRecord, PlaySettings,
};

fn settings() -> PlaySettings {
    PlaySettings {
        speed_permille: 1000,
        judge_window_ms: 80,
        judge_window_good_ms: Some(160),
        judge_window_bad_ms: Some(180),
        mods: Mods { bits: NIGHTCORE },
        early_late_hint: true,
        hud: true,
        judge_text: true,
    }
}

#[test]
fn hash_is_splitmix64() {
    assert_eq!(hash(0, 1), 16481712997681181849);
    assert_eq!(hash(0, 2), 392536317241979068);
    assert_eq!(hash(20000, 1), 5167293897037078792);
    assert_eq!(hash(-1, 2), 14877580214204953293);
}

#[test]
fn challenge_of_a_day() {
    assert_eq!(challenge_for(0, 7), Some(Challenge { day: 0, chart_index: 4, constraint: Constraint::SpeedUp }));
    assert_eq!(challenge_for(19000, 7), Some(Challenge { day: 19000, chart_index: 5, constraint: Constraint::HealthMode }));
    assert_eq!(challenge_for(20000, 7), Some(Challenge { day: 20000, chart_index: 6, constraint: Constraint::StrictJudge }));
    assert_eq!(challenge_for(20000, 0), None);
    assert_eq!(challenge_for(20000, 7), challenge_for(20000, 7));
}

#[test]
fn days_round_down() {
    assert_eq!(day_of(0), 0);
    assert_eq!(day_of(86_399), 0);
    assert_eq!(day_of(86_400), 1);
    assert_eq!(day_of(-1), -1);
    assert_eq!(day_of(-86_400), -1);
    assert_eq!(day_of(-86_401), -2);
}

#[test]
fn today_is_after_2020() {
    // 2020-01-01 is day 18262.
    assert!(today() > 18_262);
    let c = today_challenge(3).unwrap();
    assert!(c.chart_index < 3);
    assert_eq!(Some(c), challenge_for(c.day, 3));
    assert_eq!(today_challenge(0), None);
}

#[test]
fn constraints_change_a_copy() {
    let base = settings();
    let mut c = base;
    Constraint::SpeedUp.apply(&mut c);
    assert_eq!(c, PlaySettings { speed_permille: 1100, ..base });
    let mut c = base;
    Constraint::StrictJudge.apply(&mut c);
    assert_eq!(c, PlaySettings { judge_window_ms: 60, judge_window_good_ms: None, judge_window_bad_ms: None, ..base });
    let mut c = base;
    Constraint::HealthMode.apply(&mut c);
    assert_eq!(c.mods, Mods { bits: NIGHTCORE | HEALTH_MODE });
    let mut c = base;
    Constraint::NoHints.apply(&mut c);
    assert_eq!(c, PlaySettings { early_late_hint: false, hud: false, judge_text: false, ..base });
    assert_eq!(Constraint::all(), [Constraint::SpeedUp, Constraint::StrictJudge, Constraint::HealthMode, Constraint::NoHints]);
}

#[test]
fn pending_override_is_taken_once() {
    let mut state = DailyState::new();
    assert_eq!(take_pending_override(&mut state), None);
    let ch = Challenge { day: 20000, chart_index: 0, constraint: Constraint::SpeedUp };
    start(&mut state, &ch, settings());
    assert_eq!(take_pending_override(&mut state), Some(PlaySettings { speed_permille: 1100, ..settings() }));
    assert_eq!(take_pending_override(&mut state), None);
}

#[test]
fn finishing_records_the_best() {
    let mut state = DailyState::new();
    assert_eq!(record_of(&state, 20000), DayRecord { done: false, score: 0, accuracy_bits: 0 });
    // A play that is not the challenge changes nothing.
    assert!(!on_finished(&mut state, 900_000, 0.9f64.to_bits()));
    assert_eq!(record_of(&state, 20000).done, false);

    let ch = Challenge { day: 20000, chart_index: 0, constraint: Constraint::NoHints };
    start(&mut state, &ch, settings());
    assert!(on_finished(&mut state, 900_000, 0.95f64.to_bits()));
    assert_eq!(record_of(&state, 20000), DayRecord { done: true, score: 900_000, accuracy_bits: 0.95f64.to_bits() });
    // Only once per start.
    assert!(!on_finished(&mut state, 1_000_000, 1.0f64.to_bits()));

    start(&mut state, &ch, settings());
    assert!(on_finished(&mut state, 800_000, 0.99f64.to_bits()));
    assert_eq!(record_of(&state, 20000), DayRecord { done: true, score: 900_000, accuracy_bits: 0.99f64.to_bits() });
    assert_eq!(record_of(&state, 19999).done, false);
    assert_eq!(state.entries(), vec![(20000, DayRecord { done: true, score: 900_000, accuracy_bits: 0.99f64.to_bits() })]);
}

#[test]
fn loading_days() {
    let mut state = DailyState::new();
    state.load_day(1, DayRecord { done: true, score: 5, accuracy_bits: 0 });
    state.load_day(2, DayRecord { done: false, score: 0, accuracy_bits: 0 });
    state.load_day(1, DayRecord { done: true, score: 6, accuracy_bits: 0 });
    assert_eq!(record_of(&state, 1).score, 6);
    assert_eq!(state.entries().len(), 2);
}

#[test]
fn daily_file_path() {
    assert_eq!(path("/data"), "/data/daily.json");
}

#[test]
fn local_days() {
    assert_eq!(local_day_of(0, 3600), 0);
    assert_eq!(local_day_of(-1, 3600), 0);
    assert_eq!(local_day_of(86_399, 1), 1);
    assert_eq!(local_day_of(3600, -7200), -1);
    // 2024-01-01 00:30 in UTC+8 is still 2023-12-31 16:30 in UTC.
    assert_eq!(local_day_of(1_704_040_200, 8 * 3600), 19_723);
}

use chrono::TimeZone;
use phira::history::{all, ensure_loaded, for_chart, import_records, latest_per_chart, path, push, record_key, record_play, Record, EARLIEST_MILLIS, LATEST_MILLIS, MAX_RECORDS};
use phira::history_page::{chart_name, personal_best, row_keys, score_tier, HistoryFilter};

fn rec(time: i64, key: &str, score: u32) -> Record {
    Record {
        time,
        key: key.to_string(),
        name: format!("song {key}"),
        level: "IN 12".to_string(),
        difficulty_bits: 12.5f32.to_bits(),
        score,
        accuracy_bits: 0.98f64.to_bits(),
        max_combo: 100,
        num_of_notes: if score >= 900_000 { 100 } else { 200 },
        counts: [90, 10, 0, 0],
        hist: vec![1, 2, 3],
    }
}

fn times(v: &[Record]) -> Vec<i64> {
    v.iter().map(|r| r.time).collect()
}

#[test]
fn full_combo_and_all_perfect() {
    let r = rec(1, "a", 950_000);
    assert!(r.is_full_combo());
    assert!(!r.is_all_perfect());
    let mut p = rec(1, "a", 1_000_000);
    p.counts = [100, 0, 0, 0];
    assert!(p.is_all_perfect());
    let mut empty = rec(1, "a", 0);
    empty.num_of_notes = 0;
    assert!(!empty.is_full_combo() && !empty.is_all_perfect());
}

#[test]
fn all_is_newest_first_and_stable() {
    let v = vec![rec(3, "a", 1), rec(5, "b", 2), rec(3, "c", 3), rec(9, "a", 4)];
    let sorted = all(&v);
    assert_eq!(times(&sorted), vec![9, 5, 3, 3]);
    assert_eq!(sorted[2].key, "a");
    assert_eq!(sorted[3].key, "c");
}

#[test]
fn records_of_one_chart_oldest_first() {
    let v = vec![rec(9, "a", 1), rec(5, "b", 2), rec(3, "a", 3), rec(7, "a", 4)];
    let mine = for_chart(&v, "a");
    assert_eq!(times(&mine), vec![3, 7, 9]);
    assert!(for_chart(&v, "zzz").is_empty());
}

#[test]
fn latest_of_each_chart() {
    let v = vec![rec(1, "a", 1), rec(5, "b", 2), rec(3, "a", 3), rec(2, "b", 4), rec(4, "c", 5)];
    let latest = latest_per_chart(&v);
    let got: Vec<(i64, String)> = latest.iter().map(|r| (r.time, r.key.clone())).collect();
    assert_eq!(got, vec![(5, "b".to_string()), (4, "c".to_string()), (3, "a".to_string())]);
}

#[test]
fn push_keeps_the_newest() {
    let mut v: Vec<Record> = Vec::new();
    for i in 0..(MAX_RECORDS as i64 + 5) {
        push(&mut v, rec(i, "a", 1));
    }
    assert_eq!(v.len(), MAX_RECORDS);
    assert_eq!(v[0].time, 5);
    assert_eq!(v.last().unwrap().time, MAX_RECORDS as i64 + 4);
}

#[test]
fn import_skips_plays_already_there() {
    let mut v = vec![rec(5, "a", 900_000), rec(1, "b", 800_000)];
    let incoming = vec![rec(5, "a", 900_000), rec(3, "c", 700_000), rec(3, "c", 700_000), rec(5, "a", 910_000)];
    assert_eq!(import_records(&mut v, &incoming), 2);
    assert_eq!(times(&v), vec![1, 3, 5, 5]);
    assert_eq!(v[2].score, 900_000);
    assert_eq!(v[3].score, 910_000);
    // A second import of the same file adds nothing.
    assert_eq!(import_records(&mut v, &incoming), 0);
    assert_eq!(v.len(), 4);
}

#[test]
fn chart_keys() {
    assert_eq!(record_key(Some(42), Some("x"), "n", "1.00"), "id:42");
    assert_eq!(record_key(Some(-7), None, "n", "1.00"), "id:-7");
    assert_eq!(record_key(None, Some("charts/abc"), "n", "1.00"), "local:charts/abc");
    assert_eq!(record_key(None, None, "Song", "12.50"), "name:Song|12.50");
}

#[test]
fn recording_a_play() {
    let mut v: Vec<Record> = Vec::new();
    record_play(&mut v, Some(3), None, "Song", "IN 13", 13.2f32.to_bits(), "13.20", 987_654, 0.99f64.to_bits(), 500, 500, [480, 20, 0, 0], &[0, 4, 0]);
    assert_eq!(v.len(), 1);
    let r = &v[0];
    assert_eq!(r.key, "id:3");
    assert_eq!((r.name.as_str(), r.level.as_str(), r.score, r.max_combo), ("Song", "IN 13", 987_654, 500));
    assert_eq!(r.hist, vec![0, 4, 0]);
    // 2020-01-01 in milliseconds.
    assert!(r.time > 1_577_836_800_000);
}

#[test]
fn time_text_shape() {
    let r = rec(1_700_000_000_000, "a", 1);
    let t = r.time_text();
    assert_eq!(t.chars().count(), 16);
    assert_eq!(t.as_bytes()[4], b'-');
    assert_eq!(t.as_bytes()[13], b':');
    assert_eq!(rec(i64::MAX, "a", 1).time_text(), "-");
    assert_eq!(rec(i64::MIN, "a", 1).time_text(), "-");
}

#[test]
fn time_text_range_ends() {
    assert_ne!(rec(EARLIEST_MILLIS, "a", 1).time_text(), "-");
    assert_ne!(rec(LATEST_MILLIS, "a", 1).time_text(), "-");
    assert_eq!(rec(EARLIEST_MILLIS - 1, "a", 1).time_text(), "-");
    assert_eq!(rec(LATEST_MILLIS + 1, "a", 1).time_text(), "-");
}

#[test]
fn time_text_is_the_local_time_of_the_play() {
    for t in [0i64, 1_700_000_000_000, -86_400_000 * 365 * 50, 253_402_214_399_999] {
        let expected = chrono::Local.timestamp_millis_opt(t).unwrap().format("%Y-%m-%d %H:%M").to_string();
        assert_eq!(rec(t, "a", 1).time_text(), expected);
    }
    assert_ne!(rec(0, "a", 1).time_text(), rec(1_700_000_000_000, "a", 1).time_text());
}

#[test]
fn loading_happens_once() {
    let mut cache: Option<Vec<Record>> = None;
    ensure_loaded(&mut cache, || vec![rec(1, "a", 1)]);
    assert_eq!(cache.as_ref().map(|v| v.len()), Some(1));
    ensure_loaded(&mut cache, || vec![rec(1, "a", 1), rec(2, "b", 2)]);
    assert_eq!(cache.as_ref().map(|v| v.len()), Some(1));
}

#[test]
fn history_file_path() {
    assert_eq!(path("/data"), "/data/history.json");
}

#[test]
fn score_tiers() {
    assert_eq!(score_tier(1_000_000), 5);
    assert_eq!(score_tier(960_000), 4);
    assert_eq!(score_tier(959_999), 3);
    assert_eq!(score_tier(920_000), 3);
    assert_eq!(score_tier(880_000), 2);
    assert_eq!(score_tier(820_000), 1);
    assert_eq!(score_tier(819_999), 0);
}

#[test]
fn page_filters() {
    let v = vec![rec(9, "a", 950_000), rec(5, "b", 800_000), rec(3, "a", 800_000), rec(7, "a", 990_000)];
    let mut f = HistoryFilter::new();
    assert_eq!(times(&f.filtered(&v)), vec![3, 5, 7, 9]);
    f.toggle_full_combo();
    assert_eq!(times(&f.filtered(&v)), vec![7, 9]);
    let keys = row_keys(&f.filtered(&v));
    assert_eq!(keys, vec!["a".to_string(), "a".to_string()]);
    f.toggle_full_combo();
    let rows = row_keys(&f.filtered(&v));
    assert_eq!(rows, vec!["a", "a", "b", "a"]);
    f.select_row(&rows, 2);
    assert_eq!(f.selected.as_deref(), Some("b"));
    assert_eq!(times(&f.filtered(&v)), vec![5]);
    f.select_row(&rows, 2);
    assert_eq!(f.selected, None);
    f.select_row(&rows, 10);
    assert_eq!(f.selected, None);
    f.select_row(&rows, 0);
    f.select_all();
    assert_eq!(f.selected, None);
}

#[test]
fn personal_best_is_the_last_highest() {
    let v = vec![rec(1, "a", 900), rec(2, "a", 950), rec(3, "a", 950), rec(4, "a", 10)];
    assert_eq!(personal_best(&v), Some(2));
    assert_eq!(personal_best(&Vec::new()), None);
    assert_eq!(chart_name(&v, "a").as_deref(), Some("song a"));
    assert_eq!(chart_name(&v, "b"), None);
}

#[test]
fn row_keys_are_capped() {
    let v: Vec<Record> = (0..350).map(|i| rec(i, &format!("k{i}"), 1)).collect();
    let rows = row_keys(&v);
    assert_eq!(rows.len(), 300);
    assert_eq!(rows[0], "k349");
    assert_eq!(rows[299], "k50");
}

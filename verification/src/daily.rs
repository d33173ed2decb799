//! The daily challenge: one chart and one constraint per day, chosen from
//! the day number alone (so every start of the game on one day picks the
//! same), and the record of which days were completed.

use vstd::prelude::*;
use std::collections::HashMap;
use vstd::std_specs::hash::spec_hash_map_iter;
use vstd::std_specs::iter::IteratorSpec;
use crate::config::{Mods, HEALTH_MODE};
use crate::text::push_str;

verus! {

broadcast use vstd::std_specs::hash::group_hash_axioms;

/// Seconds in a day.
pub const SECS_PER_DAY: i64 = 86400;

/// The part of the play settings that a daily constraint changes.
#[derive(Clone, Copy, Debug, PartialEq, Eq, Structural)]
pub struct PlaySettings {
    /// Chart speed, in thousandths (1000 is the normal speed).
    pub speed_permille: u32,
    /// The perfect judge window, in milliseconds.
    pub judge_window_ms: u32,
    /// The good judge window; `None` follows the perfect window.
    pub judge_window_good_ms: Option<u32>,
    /// The bad judge window; `None` follows the perfect window.
    pub judge_window_bad_ms: Option<u32>,
    pub mods: Mods,
    /// Show "early" / "late" under the judgements.
    pub early_late_hint: bool,
    /// Show the score, combo and progress display.
    pub hud: bool,
    /// Show the judgement texts.
    pub judge_text: bool,
}

/// The constraint of a daily challenge.
#[derive(Clone, Copy, Debug, PartialEq, Eq, Structural)]
pub enum Constraint {
    /// The chart runs at 1.1 times its speed.
    SpeedUp,
    /// The judge window narrows to 60 ms.
    StrictJudge,
    /// The health bar is on.
    HealthMode,
    /// Early/late hints, the HUD and the judgement texts are off.
    NoHints,
}

impl Constraint {
    pub open spec fn spec_index(self) -> nat {
        match self {
            Constraint::SpeedUp => 0,
            Constraint::StrictJudge => 1,
            Constraint::HealthMode => 2,
            Constraint::NoHints => 3,
        }
    }

    /// All constraints, in the order the challenge picks from.
    pub fn all() -> (r: [Constraint; 4])
        ensures
            forall|i: int| 0 <= i < 4 ==> (#[trigger] r@[i]).spec_index() == i,
    {
        [Constraint::SpeedUp, Constraint::StrictJudge, Constraint::HealthMode, Constraint::NoHints]
    }

    /// The settings with this constraint applied.
    pub open spec fn applied(self, c: PlaySettings) -> PlaySettings {
        match self {
            Constraint::SpeedUp => PlaySettings { speed_permille: 1100, ..c },
            Constraint::StrictJudge => PlaySettings {
                judge_window_ms: 60,
                judge_window_good_ms: None,
                judge_window_bad_ms: None,
                ..c
            },
            Constraint::HealthMode => PlaySettings { mods: Mods { bits: c.mods.bits | HEALTH_MODE }, ..c },
            Constraint::NoHints => PlaySettings { early_late_hint: false, hud: false, judge_text: false, ..c },
        }
    }

    /// Applies the constraint to a copy of the settings (the saved settings
    /// are not touched).
    pub fn apply(&self, config: &mut PlaySettings)
        ensures
            *final(config) == self.applied(*old(config)),
    {
        match self {
            Constraint::SpeedUp => {
                config.speed_permille = 1100;
            },
            Constraint::StrictJudge => {
                config.judge_window_ms = 60;
                config.judge_window_good_ms = None;
                config.judge_window_bad_ms = None;
            },
            Constraint::HealthMode => {
                config.mods.insert(Mods { bits: HEALTH_MODE });
            },
            Constraint::NoHints => {
                config.early_late_hint = false;
                config.hud = false;
                config.judge_text = false;
            },
        }
    }
}

/// A day's challenge.
#[derive(Clone, Copy, Debug, PartialEq, Eq, Structural)]
pub struct Challenge {
    /// Days since the Unix epoch: the seed and the key of the record.
    pub day: i64,
    /// Index of the chart in the local chart list.
    pub chart_index: usize,
    pub constraint: Constraint,
}

/// The file the records are kept in, under the data directory `root`.
pub fn path(root: &str) -> (r: String)
    ensures
        r@ == root@ + "/daily.json"@,
{
    let mut s = String::new();
    push_str(&mut s, root);
    push_str(&mut s, "/daily.json");
    proof {
        assert(s@ =~= root@ + "/daily.json"@);
    }
    s
}

/// SplitMix64 of the day with a salt: a stable hash, the same on every
/// machine and every start of the game.
pub open spec fn spec_hash(day: i64, salt: u64) -> u64 {
    let z0 = vstd::wrapping::u64_specs::wrapping_add(
        vstd::wrapping::u64_specs::wrapping_add(day as u64, 0x9E37_79B9_7F4A_7C15u64),
        vstd::wrapping::u64_specs::wrapping_mul(salt, 0xBF58_476D_1CE4_E5B9u64),
    );
    let z1 = vstd::wrapping::u64_specs::wrapping_mul(z0 ^ (z0 >> 30u64), 0xBF58_476D_1CE4_E5B9u64);
    let z2 = vstd::wrapping::u64_specs::wrapping_mul(z1 ^ (z1 >> 27u64), 0x94D0_49BB_1331_11EBu64);
    z2 ^ (z2 >> 31u64)
}

/// The stable hash of a day (see [`spec_hash`]).
pub fn hash(day: i64, salt: u64) -> (r: u64)
    ensures
        r == spec_hash(day, salt),
{
    let mut z = (day as u64).wrapping_add(0x9E37_79B9_7F4A_7C15).wrapping_add(salt.wrapping_mul(0xBF58_476D_1CE4_E5B9));
    z = (z ^ (z >> 30)).wrapping_mul(0xBF58_476D_1CE4_E5B9);
    z = (z ^ (z >> 27)).wrapping_mul(0x94D0_49BB_1331_11EB);
    z ^ (z >> 31)
}

pub open spec fn constraint_at(i: u64) -> Constraint {
    if i == 0 {
        Constraint::SpeedUp
    } else if i == 1 {
        Constraint::StrictJudge
    } else if i == 2 {
        Constraint::HealthMode
    } else {
        Constraint::NoHints
    }
}

/// The challenge of `day` among `chart_count` charts.
pub open spec fn spec_challenge(day: i64, chart_count: usize) -> Challenge {
    Challenge {
        day,
        chart_index: (spec_hash(day, 1) % (chart_count as u64)) as usize,
        constraint: constraint_at(spec_hash(day, 2) % 4),
    }
}

/// The challenge of a day; `None` when there are no charts.
pub fn challenge_for(day: i64, chart_count: usize) -> (r: Option<Challenge>)
    ensures
        r is None <==> chart_count == 0,
        r matches Some(c) ==> c == spec_challenge(day, chart_count) && c.chart_index < chart_count,
{
    if chart_count == 0 {
        return None;
    }
    let all = Constraint::all();
    let h1 = hash(day, 1);
    let h2 = hash(day, 2);
    let k = h2 % 4;
    let c = all[k as usize];
    assert(c == constraint_at(k)) by {
        assert(all@[k as int].spec_index() == k);
    }
    Some(Challenge { day, chart_index: (h1 % (chart_count as u64)) as usize, constraint: c })
}

/// `chrono::Local::now()`: its `timestamp()`, the current time in whole
/// seconds since the Unix epoch, and its offset's `local_minus_utc()`, the
/// seconds the local time zone is ahead of UTC. Which time it is depends on
/// the clock and the machine's time zone, and is not stated; chrono keeps
/// every offset strictly within one day (`FixedOffset::east_opt`) and every
/// time within its years -262142 to 262142.
#[verifier::external_body]
fn local_now() -> (r: (i64, i32))
    ensures
        -86_400 < r.1 < 86_400,
        -9_000_000_000_000 <= r.0 <= 9_000_000_000_000,
{
    let now = chrono::Local::now();
    (now.timestamp(), now.offset().local_minus_utc())
}

/// The day (since the Unix epoch) of a time in seconds since the epoch,
/// rounded down: times before the epoch fall on negative days.
pub fn day_of(timestamp: i64) -> (r: i64)
    ensures
        r == timestamp / SECS_PER_DAY,
{
    if timestamp >= 0 {
        timestamp / SECS_PER_DAY
    } else {
        let u: i64 = -(timestamp + 1);
        let q: i64 = u / SECS_PER_DAY;
        assert(q * 86400 <= u < q * 86400 + 86400);
        assert(-q - 1 == timestamp / 86400) by (nonlinear_arith)
            requires
                q * 86400 <= u < q * 86400 + 86400,
                u == -(timestamp + 1),
        ;
        -q - 1
    }
}

/// The day (since the Unix epoch) on the local calendar of a time in
/// seconds since the epoch, for a time zone `offset_secs` ahead of UTC.
pub fn local_day_of(timestamp: i64, offset_secs: i32) -> (r: i64)
    requires
        -86_400 < offset_secs < 86_400,
        i64::MIN + 86_400 <= timestamp <= i64::MAX - 86_400,
    ensures
        r == (timestamp + offset_secs) / (SECS_PER_DAY as int),
{
    day_of(timestamp + offset_secs as i64)
}

/// Today's day number on the local calendar.
pub fn today() -> (r: i64)
    ensures
        -104_166_668 <= r <= 104_166_667,
{
    let (t, off) = local_now();
    let d = local_day_of(t, off);
    assert(-104_166_668 <= (t + off) / 86400 <= 104_166_667) by (nonlinear_arith)
        requires
            -9_000_000_086_399 <= t + off <= 9_000_000_086_399,
    ;
    d
}

/// Today's challenge; `None` when there are no charts.
pub fn today_challenge(chart_count: usize) -> (r: Option<Challenge>)
    ensures
        r is None <==> chart_count == 0,
        r matches Some(c) ==> c == spec_challenge(c.day, chart_count) && c.chart_index < chart_count,
{
    challenge_for(today(), chart_count)
}


// ------------------------------------------------------------------ day records

/// How a day's challenge went.
#[derive(Clone, Copy, Debug, PartialEq, Eq, Structural)]
pub struct DayRecord {
    pub done: bool,
    /// Best score.
    pub score: u32,
    /// Best accuracy, as the bit pattern of the non-negative `f64` value
    /// (for non-negative values the order of the bit patterns is the order
    /// of the values).
    pub accuracy_bits: u64,
}

impl DayRecord {
    pub open spec fn none() -> DayRecord {
        DayRecord { done: false, score: 0, accuracy_bits: 0 }
    }

    /// The record after a finished play with `score` and `accuracy_bits`:
    /// done, keeping the better score and the better accuracy.
    pub open spec fn finished(self, score: u32, accuracy_bits: u64) -> DayRecord {
        DayRecord {
            done: true,
            score: if self.score < score { score } else { self.score },
            accuracy_bits: if self.accuracy_bits < accuracy_bits { accuracy_bits } else { self.accuracy_bits },
        }
    }
}

/// The daily challenge's state: the record of each day, the day of the
/// challenge being played, and the settings waiting for the next play.
pub struct DailyState {
    days: HashMap<i64, DayRecord>,
    active: Option<i64>,
    pending: Option<PlaySettings>,
}

pub struct DailyView {
    pub days: Map<i64, DayRecord>,
    pub active: Option<i64>,
    pub pending: Option<PlaySettings>,
}

pub open spec fn days_map(s: Seq<(i64, DayRecord)>) -> Map<i64, DayRecord>
    decreases s.len(),
{
    if s.len() == 0 {
        Map::empty()
    } else {
        days_map(s.drop_last()).insert(s.last().0, s.last().1)
    }
}

pub open spec fn keys_distinct(s: Seq<(i64, DayRecord)>) -> bool {
    forall|i: int, j: int| 0 <= i < j < s.len() ==> (#[trigger] s[i]).0 != (#[trigger] s[j]).0
}

/// The record of `day` in `days` (no record: not done, nothing scored).
pub open spec fn record_in(days: Map<i64, DayRecord>, day: i64) -> DayRecord {
    if days.contains_key(day) { days[day] } else { DayRecord::none() }
}

/// The state after starting `challenge` with the saved settings `config`.
pub open spec fn spec_start(v: DailyView, challenge: Challenge, config: PlaySettings) -> DailyView {
    DailyView { days: v.days, active: Some(challenge.day), pending: Some(challenge.constraint.applied(config)) }
}

/// The state after the pending settings were taken.
pub open spec fn spec_taken(v: DailyView) -> DailyView {
    DailyView { days: v.days, active: v.active, pending: None }
}

/// The state after a play finished with `score` and `accuracy_bits`.
pub open spec fn spec_finished(v: DailyView, score: u32, accuracy_bits: u64) -> DailyView {
    match v.active {
        None => v,
        Some(day) => DailyView {
            days: v.days.insert(day, record_in(v.days, day).finished(score, accuracy_bits)),
            active: None,
            pending: v.pending,
        },
    }
}

proof fn lemma_days_map_contains(s: Seq<(i64, DayRecord)>, i: int)
    requires
        keys_distinct(s),
        0 <= i < s.len(),
    ensures
        days_map(s).contains_key(s[i].0),
        days_map(s)[s[i].0] == s[i].1,
    decreases s.len(),
{
    if i < s.len() - 1 {
        lemma_days_map_contains(s.drop_last(), i);
    }
}

proof fn lemma_days_map_absent(s: Seq<(i64, DayRecord)>, day: i64)
    requires
        forall|i: int| 0 <= i < s.len() ==> (#[trigger] s[i]).0 != day,
    ensures
        !days_map(s).contains_key(day),
    decreases s.len(),
{
    if s.len() > 0 {
        lemma_days_map_absent(s.drop_last(), day);
    }
}

impl DailyState {
    pub closed spec fn view(&self) -> DailyView {
        DailyView { days: self.days@, active: self.active, pending: self.pending }
    }

    /// No record, no challenge under way.
    pub fn new() -> (r: DailyState)
        ensures
            r.view().days == Map::<i64, DayRecord>::empty(),
            r.view().active is None,
            r.view().pending is None,
    {
        DailyState { days: HashMap::new(), active: None, pending: None }
    }

    /// Sets the record of `day` (as read back from the saved file).
    pub fn load_day(&mut self, day: i64, rec: DayRecord)
        ensures
            final(self).view().days == old(self).view().days.insert(day, rec),
            final(self).view().active == old(self).view().active,
            final(self).view().pending == old(self).view().pending,
    {
        self.days.insert(day, rec);
    }

    /// All records, each day once, to be saved.
    pub fn entries(&self) -> (r: Vec<(i64, DayRecord)>)
        ensures
            keys_distinct(r@),
            days_map(r@) == self.view().days,
    {
        let mut r: Vec<(i64, DayRecord)> = Vec::new();
        let ghost all = spec_hash_map_iter(&self.days).remaining();
        for (day, rec) in it: self.days.iter()
            invariant
                it.seq() == all,
                r@.len() == it.index(),
                forall|j: int| 0 <= j < r@.len() ==> r@[j] == (*all[j].0, *all[j].1),
        {
            r.push((*day, *rec));
        }
        proof {
            let m = self.days@;
            assert(r@.len() == all.len());
            assert forall|i: int| 0 <= i < r@.len() implies m.contains_key(#[trigger] r@[i].0) && m[r@[i].0] == r@[i].1 by {
                assert(m.contains_key(*all[i].0) && m[*all[i].0] == *all[i].1);
            }
            assert forall|i: int, j: int| 0 <= i < j < r@.len() implies (#[trigger] r@[i]).0 != (#[trigger] r@[j]).0 by {
                if r@[i].0 == r@[j].0 {
                    assert(all[i] == all[j]);
                }
            }
            assert forall|k: i64| #[trigger] m.contains_key(k) implies days_map(r@).contains_key(k) && days_map(r@)[k] == m[k] by {
                assert(all.contains((&k, &m[k])));
                let i = choose|i: int| 0 <= i < all.len() && all[i] == (&k, &m[k]);
                lemma_days_map_contains(r@, i);
            }
            assert forall|k: i64| #[trigger] days_map(r@).contains_key(k) implies m.contains_key(k) by {
                if !m.contains_key(k) {
                    lemma_days_map_absent(r@, k);
                }
            }
            assert(days_map(r@) =~= m);
        }
        r
    }
}

/// The record of a day (a day without one: not done, nothing scored).
pub fn record_of(state: &DailyState, day: i64) -> (r: DayRecord)
    ensures
        r == record_in(state.view().days, day),
{
    match state.days.get(&day) {
        Some(rec) => *rec,
        None => DayRecord { done: false, score: 0, accuracy_bits: 0 },
    }
}

/// Starts a challenge: sets aside the saved settings `config` with the
/// challenge's constraint applied, for the next play to take, and remembers
/// which day is being played.
pub fn start(state: &mut DailyState, challenge: &Challenge, config: PlaySettings)
    ensures
        final(state).view() == spec_start(old(state).view(), *challenge, config),
{
    let mut c = config;
    challenge.constraint.apply(&mut c);
    state.pending = Some(c);
    state.active = Some(challenge.day);
}

/// Takes the settings set aside for the challenge (only once).
pub fn take_pending_override(state: &mut DailyState) -> (r: Option<PlaySettings>)
    ensures
        r == old(state).view().pending,
        final(state).view() == spec_taken(old(state).view()),
{
    state.pending.take()
}

/// A play finished: when it was the daily challenge, marks its day done
/// and keeps the better score and accuracy. Returns whether the records
/// changed (and are to be saved).
pub fn on_finished(state: &mut DailyState, score: u32, accuracy_bits: u64) -> (r: bool)
    ensures
        r == old(state).view().active is Some,
        final(state).view() == spec_finished(old(state).view(), score, accuracy_bits),
{
    match state.active.take() {
        None => false,
        Some(day) => {
            let old_rec = record_of(state, day);
            let best_score = if old_rec.score < score { score } else { old_rec.score };
            let best_acc = if old_rec.accuracy_bits < accuracy_bits { accuracy_bits } else { old_rec.accuracy_bits };
            state.load_day(day, DayRecord { done: true, score: best_score, accuracy_bits: best_acc });
            true
        },
    }
}

/// Starting a challenge and then taking the pending settings gives the
/// saved settings with the constraint applied, once: a second take gives
/// nothing; the saved records are untouched.
pub proof fn lemma_override_taken_once(v: DailyView, challenge: Challenge, config: PlaySettings)
    ensures
        spec_start(v, challenge, config).pending == Some(challenge.constraint.applied(config)),
        spec_taken(spec_start(v, challenge, config)).pending is None,
        spec_taken(spec_start(v, challenge, config)).days == v.days,
{
}

/// Finishing the day's challenge marks the day done, with a score and
/// accuracy no lower than before nor than the play's; finishing a play
/// that was not a challenge changes nothing; records of other days stay.
pub proof fn lemma_finish_records_best(v: DailyView, challenge: Challenge, config: PlaySettings, score: u32, accuracy_bits: u64, other: i64)
    requires
        other != challenge.day,
    ensures
        ({
            let after = spec_finished(spec_start(v, challenge, config), score, accuracy_bits);
            let rec = record_in(after.days, challenge.day);
            let before = record_in(v.days, challenge.day);
            &&& rec.done
            &&& rec.score >= score && rec.score >= before.score
            &&& (rec.score == score || rec.score == before.score)
            &&& rec.accuracy_bits >= accuracy_bits && rec.accuracy_bits >= before.accuracy_bits
            &&& after.active is None
            &&& record_in(after.days, other) == record_in(v.days, other)
            &&& spec_finished(after, score, accuracy_bits) == after
        }),
{
}

} // verus!

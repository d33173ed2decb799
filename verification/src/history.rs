//! The local play history: one record per finished play, at most
//! [`MAX_RECORDS`] of them (the oldest go first), listed newest first or per
//! chart, and merged with an imported history without duplicates.

use vstd::prelude::*;
use crate::text::{push_str, push_char, push_decimal, decimal};
use crate::text::text_eq;

verus! {

/// How many records are kept.
pub const MAX_RECORDS: usize = 3000;

/// One finished play.
pub struct Record {
    /// End of the play, in milliseconds since the Unix epoch.
    pub time: i64,
    /// The chart: `id:<id>` for charts of the server, `local:<path>` for
    /// imported ones, else `name:<name>|<difficulty>`; plays of one chart
    /// are grouped by it.
    pub key: String,
    pub name: String,
    pub level: String,
    /// The chart's difficulty, as the bit pattern of its `f32` value.
    pub difficulty_bits: u32,
    pub score: u32,
    /// The accuracy, as the bit pattern of its `f64` value.
    pub accuracy_bits: u64,
    pub max_combo: u32,
    pub num_of_notes: u32,
    /// Perfect, good, bad and miss counts.
    pub counts: [u32; 4],
    /// Histogram of the timing errors, early to late.
    pub hist: Vec<u32>,
}

pub struct RecordView {
    pub time: i64,
    pub key: Seq<char>,
    pub name: Seq<char>,
    pub level: Seq<char>,
    pub difficulty_bits: u32,
    pub score: u32,
    pub accuracy_bits: u64,
    pub max_combo: u32,
    pub num_of_notes: u32,
    pub counts: [u32; 4],
    pub hist: Seq<u32>,
}

impl View for Record {
    type V = RecordView;

    open spec fn view(&self) -> RecordView {
        RecordView {
            time: self.time,
            key: self.key@,
            name: self.name@,
            level: self.level@,
            difficulty_bits: self.difficulty_bits,
            score: self.score,
            accuracy_bits: self.accuracy_bits,
            max_combo: self.max_combo,
            num_of_notes: self.num_of_notes,
            counts: self.counts,
            hist: self.hist@,
        }
    }
}

/// The records as values.
pub open spec fn views(s: Seq<Record>) -> Seq<RecordView> {
    s.map_values(|r: Record| r@)
}

fn copy_counts(v: &Vec<u32>) -> (r: Vec<u32>)
    ensures
        r@ == v@,
{
    let mut r: Vec<u32> = Vec::new();
    let mut i: usize = 0;
    while i < v.len()
        invariant
            i <= v@.len(),
            r@ == v@.subrange(0, i as int),
        decreases v@.len() - i,
    {
        r.push(v[i]);
        i = i + 1;
    }
    assert(r@ =~= v@);
    r
}

impl Record {
    /// A copy of the record.
    pub fn copy(&self) -> (r: Record)
        ensures
            r@ == self@,
    {
        Record {
            time: self.time,
            key: self.key.clone(),
            name: self.name.clone(),
            level: self.level.clone(),
            difficulty_bits: self.difficulty_bits,
            score: self.score,
            accuracy_bits: self.accuracy_bits,
            max_combo: self.max_combo,
            num_of_notes: self.num_of_notes,
            counts: self.counts,
            hist: copy_counts(&self.hist),
        }
    }

    /// Full combo: the chart has notes and the best combo reached them all.
    pub fn is_full_combo(&self) -> (r: bool)
        ensures
            r == (self.num_of_notes > 0 && self.max_combo >= self.num_of_notes),
    {
        self.num_of_notes > 0 && self.max_combo >= self.num_of_notes
    }

    /// All perfect: the chart has notes and every one was a perfect.
    pub fn is_all_perfect(&self) -> (r: bool)
        ensures
            r == (self.num_of_notes > 0 && self.counts[0] >= self.num_of_notes),
    {
        self.num_of_notes > 0 && self.counts[0] >= self.num_of_notes
    }

    /// The end of the play as `YYYY-MM-DD HH:MM` in the local time zone, or
    /// `-` when the time is beyond the dates that can be represented. The
    /// text is that of the instant shifted by the machine's offset from UTC
    /// at that instant, which lies within a day.
    pub fn time_text(&self) -> (r: String)
        ensures
            !millis_representable(self.time) ==> r@ == seq!['-'],
            millis_representable(self.time) ==> exists|off: i32|
                -86_400 < off < 86_400
                && r@ == minute_text_of(self.time, off, "%Y-%m-%d %H:%M"@)
                && r@.len() >= 16
                && (FIRST_YEAR_ZERO_MILLIS <= self.time + off * 1000 <= LAST_YEAR_9999_MILLIS ==> is_minute_text(r@)),
            FIRST_MINUTE_TEXT_MILLIS <= self.time <= LAST_MINUTE_TEXT_MILLIS ==> is_minute_text(r@),
    {
        match local_offset_secs(self.time) {
            Some(off) => match offset_minute_text(self.time, off, "%Y-%m-%d %H:%M") {
                Some(t) => t,
                None => dash(),
            },
            None => dash(),
        }
    }
}

fn dash() -> (r: String)
    ensures
        r@ == seq!['-'],
{
    let mut s = String::new();
    push_char(&mut s, '-');
    s
}

/// The first time (in milliseconds since the Unix epoch) that chrono
/// represents: the start of the year -262143.
pub const EARLIEST_MILLIS: i64 = -8_334_601_228_800_000;

/// The last time (in milliseconds since the Unix epoch) that chrono
/// represents: the end of the year 262142.
pub const LATEST_MILLIS: i64 = 8_210_266_876_799_999;

/// The start of the year 0, in milliseconds since the Unix epoch.
pub const FIRST_YEAR_ZERO_MILLIS: i64 = -62_167_219_200_000;

/// The end of the year 9999, in milliseconds since the Unix epoch.
pub const LAST_YEAR_9999_MILLIS: i64 = 253_402_300_799_999;

/// The first time whose local date, in any time zone, lies in the year 0
/// or later: the start of that year plus one day.
pub const FIRST_MINUTE_TEXT_MILLIS: i64 = -62_167_132_800_000;

/// The last time whose local date, in any time zone, still lies in the
/// year 9999: the end of that year less one day.
pub const LAST_MINUTE_TEXT_MILLIS: i64 = 253_402_214_399_999;

pub open spec fn is_ascii_digit(c: char) -> bool {
    '0' <= c <= '9'
}

/// Text of the shape `dddd-dd-dd dd:dd`, `d` a decimal digit.
pub open spec fn is_minute_text(t: Seq<char>) -> bool {
    &&& t.len() == 16
    &&& t[4] == '-' && t[7] == '-' && t[10] == ' ' && t[13] == ':'
    &&& forall|i: int| 0 <= i < 16 && i != 4 && i != 7 && i != 10 && i != 13 ==> is_ascii_digit(#[trigger] t[i])
}

/// Whether chrono represents the instant `millis` milliseconds after the
/// Unix epoch (`DateTime::from_timestamp_millis` gives a time).
pub open spec fn millis_representable(millis: i64) -> bool {
    EARLIEST_MILLIS <= millis <= LATEST_MILLIS
}

/// The text that chrono formats from the instant `millis` (milliseconds
/// since the Unix epoch) seen at the offset `offset_secs` east of UTC, with
/// the strftime pattern `pattern`. It depends on its arguments alone.
pub uninterp spec fn minute_text_of(millis: i64, offset_secs: i32, pattern: Seq<char>) -> Seq<char>;

/// The offset east of UTC, in seconds, of the machine's time zone at the
/// instant `millis` (`chrono::DateTime::from_timestamp_millis`, then
/// `with_timezone(&Local)` and the offset's `local_minus_utc`). There is an
/// offset exactly when chrono represents the instant; it is less than a
/// day either way (a `FixedOffset` cannot hold more). Which offset it is
/// depends on the machine's time zone, and is not stated.
#[verifier::external_body]
fn local_offset_secs(millis: i64) -> (r: Option<i32>)
    ensures
        r is Some <==> millis_representable(millis),
        r matches Some(off) ==> -86_400 < off < 86_400,
{
    match chrono::DateTime::from_timestamp_millis(millis) {
        Some(t) => Some(t.with_timezone(&chrono::Local).offset().local_minus_utc()),
        None => None,
    }
}

/// `chrono::DateTime::from_timestamp_millis(millis)` seen at the
/// `FixedOffset` of `offset_secs` and formatted with `pattern`, which is the
/// history page's `%Y-%m-%d %H:%M`: the date and time at that offset. There
/// is a text exactly when chrono represents the instant; it is
/// [`minute_text_of`] of the arguments. The year is written with at least
/// four digits (with a sign outside 0..=9999), month, day, hour and minute
/// with two digits each, so the text has at least 16 characters, and
/// exactly the shape `dddd-dd-dd dd:dd` when the shifted time lies in the
/// years 0 to 9999.
#[verifier::external_body]
fn offset_minute_text(millis: i64, offset_secs: i32, pattern: &str) -> (r: Option<String>)
    requires
        -86_400 < offset_secs < 86_400,
        pattern@ == "%Y-%m-%d %H:%M"@,
    ensures
        r is Some <==> millis_representable(millis),
        r matches Some(t) ==> {
            &&& t@ == minute_text_of(millis, offset_secs, pattern@)
            &&& t@.len() >= 16
            &&& FIRST_YEAR_ZERO_MILLIS <= millis + offset_secs * 1000 <= LAST_YEAR_9999_MILLIS ==> is_minute_text(t@)
        },
{
    match (chrono::DateTime::from_timestamp_millis(millis), chrono::FixedOffset::east_opt(offset_secs)) {
        (Some(t), Some(off)) => Some(t.with_timezone(&off).format(pattern).to_string()),
        _ => None,
    }
}

/// `chrono::Utc::now().timestamp_millis()`: the current time in
/// milliseconds since the Unix epoch. It depends on the clock, so nothing
/// is stated of the value.
#[verifier::external_body]
fn now_millis() -> (r: i64) {
    chrono::Utc::now().timestamp_millis()
}

/// The file the history is kept in, under the data directory `root`.
pub fn path(root: &str) -> (r: String)
    ensures
        r@ == root@ + "/history.json"@,
{
    let mut s = String::new();
    push_str(&mut s, root);
    push_str(&mut s, "/history.json");
    proof {
        assert(s@ =~= root@ + "/history.json"@);
    }
    s
}

/// Loads the history on first use: when nothing is loaded yet, `load` is
/// called once and its records kept; afterwards the records in memory are
/// used.
pub fn ensure_loaded<F: FnOnce() -> Vec<Record>>(cache: &mut Option<Vec<Record>>, load: F)
    requires
        call_requires(load, ()),
    ensures
        *old(cache) is Some ==> *final(cache) == *old(cache),
        *old(cache) is None ==> (*final(cache) matches Some(v) && call_ensures(load, (), v)),
{
    if cache.is_none() {
        *cache = Some(load());
    }
}

/// The newest [`MAX_RECORDS`] of `s`.
pub open spec fn capped(s: Seq<RecordView>) -> Seq<RecordView> {
    if s.len() > MAX_RECORDS {
        s.subrange((s.len() - MAX_RECORDS) as int, s.len() as int)
    } else {
        s
    }
}

fn cap(records: &mut Vec<Record>)
    ensures
        views(final(records)@) == capped(views(old(records)@)),
{
    if records.len() > MAX_RECORDS {
        let extra = records.len() - MAX_RECORDS;
        let tail = records.split_off(extra);
        *records = tail;
        assert(views(records@) =~= capped(views(old(records)@)));
    }
}

/// Adds a record after the others; when there are then more than
/// [`MAX_RECORDS`], the oldest go.
pub fn push(records: &mut Vec<Record>, record: Record)
    ensures
        views(final(records)@) == capped(views(old(records)@).push(record@)),
{
    let ghost rv = record@;
    records.push(record);
    assert(views(records@) =~= views(old(records)@).push(rv));
    cap(records);
}

/// The chart key of a play: `id:<id>` for a chart of the server,
/// `local:<path>` for an imported chart, else `name:<name>|<difficulty>`.
pub open spec fn spec_record_key(chart_id: Option<i32>, local_path: Option<Seq<char>>, name: Seq<char>, difficulty_text: Seq<char>) -> Seq<char> {
    match chart_id {
        Some(id) => "id:"@ + signed_decimal(id as int),
        None => match local_path {
            Some(p) => "local:"@ + p,
            None => "name:"@ + name + "|"@ + difficulty_text,
        },
    }
}

/// The decimal representation of an integer, with `-` before a negative one.
pub open spec fn signed_decimal(n: int) -> Seq<char> {
    if n < 0 { seq!['-'] + decimal((-n) as nat) } else { decimal(n as nat) }
}

/// The chart key of a play (see [`spec_record_key`]); `difficulty_text` is
/// the difficulty with two decimals.
pub fn record_key(chart_id: Option<i32>, local_path: Option<&str>, name: &str, difficulty_text: &str) -> (r: String)
    ensures
        r@ == spec_record_key(chart_id, match local_path { Some(p) => Some(p@), None => None }, name@, difficulty_text@),
{
    let mut s = String::new();
    match chart_id {
        Some(id) => {
            push_str(&mut s, "id:");
            if id < 0 {
                push_char(&mut s, '-');
                let m: i64 = -(id as i64);
                push_decimal(&mut s, m as u64);
            } else {
                push_decimal(&mut s, id as u64);
            }
        },
        None => match local_path {
            Some(p) => {
                push_str(&mut s, "local:");
                push_str(&mut s, p);
            },
            None => {
                push_str(&mut s, "name:");
                push_str(&mut s, name);
                push_str(&mut s, "|");
                push_str(&mut s, difficulty_text);
            },
        },
    }
    proof {
        reveal_strlit("id:");
        reveal_strlit("local:");
        reveal_strlit("name:");
        reveal_strlit("|");
        assert(s@ =~= spec_record_key(chart_id, match local_path { Some(p) => Some(p@), None => None }, name@, difficulty_text@));
    }
    s
}


// ------------------------------------------------------------------ orderings

/// Whether time `a` comes before time `b`: the newer first, or the older
/// first.
pub open spec fn time_before(a: i64, b: i64, newest_first: bool) -> bool {
    if newest_first { a > b } else { a < b }
}

/// `r` lists each index of `times` once, in time order, ties in their
/// order in `times`: the order of a stable sort.
pub open spec fn time_ranked(times: Seq<i64>, newest_first: bool, r: Seq<usize>) -> bool {
    &&& r.len() == times.len()
    &&& forall|p: int| 0 <= p < r.len() ==> (#[trigger] r[p]) < times.len()
    &&& forall|p: int, q: int| 0 <= p < q < r.len() ==> r[p] != r[q]
    &&& forall|p: int, q: int| 0 <= p < q < r.len() ==>
            time_before(times[r[p] as int], times[r[q] as int], newest_first)
            || (times[r[p] as int] == times[r[q] as int] && r[p] < r[q])
}

pub open spec fn times_of(s: Seq<RecordView>) -> Seq<i64> {
    s.map_values(|v: RecordView| v.time)
}

/// `out` is `src` sorted by time (stably): newest first, or oldest first.
pub open spec fn is_time_order(src: Seq<RecordView>, newest_first: bool, out: Seq<RecordView>) -> bool {
    exists|r: Seq<usize>|
        #[trigger] time_ranked(times_of(src), newest_first, r)
        && out.len() == r.len()
        && forall|k: int| 0 <= k < r.len() ==> out[k] == src[r[k] as int]
}

fn comes_before(a: i64, b: i64, newest_first: bool) -> (r: bool)
    ensures
        r == time_before(a, b, newest_first),
{
    if newest_first { a > b } else { a < b }
}

/// The stable time order of `times` (see [`time_ranked`]).
fn rank_times(times: &Vec<i64>, newest_first: bool) -> (r: Vec<usize>)
    ensures
        time_ranked(times@, newest_first, r@),
{
    let n = times.len();
    let mut r: Vec<usize> = Vec::new();
    let mut i: usize = 0;
    while i < n
        invariant
            i <= n,
            n == times@.len(),
            r@.len() == i,
            forall|p: int| 0 <= p < r@.len() ==> (#[trigger] r@[p]) < i,
            forall|p: int, q: int| 0 <= p < q < r@.len() ==> r@[p] != r@[q],
            forall|p: int, q: int| 0 <= p < q < r@.len() ==>
                time_before(times@[r@[p] as int], times@[r@[q] as int], newest_first)
                || (times@[r@[p] as int] == times@[r@[q] as int] && r@[p] < r@[q]),
        decreases n - i,
    {
        let ti = times[i];
        let mut j: usize = 0;
        while j < r.len() && !comes_before(ti, times[r[j]], newest_first)
            invariant
                j <= r@.len(),
                n == times@.len(),
                i < n,
                ti == times@[i as int],
                forall|p: int| 0 <= p < r@.len() ==> (#[trigger] r@[p]) < i,
                forall|p: int| 0 <= p < j ==> !time_before(ti, times@[(#[trigger] r@[p]) as int], newest_first),
            decreases r@.len() - j,
        {
            j = j + 1;
        }
        let ghost prev = r@;
        assert forall|p: int| j <= p < prev.len() implies time_before(ti, times@[(#[trigger] prev[p]) as int], newest_first) by {
            assert(time_before(ti, times@[prev[j as int] as int], newest_first));
            if p > j {
                let a = times@[prev[j as int] as int];
                let b = times@[prev[p] as int];
                assert(time_before(a, b, newest_first) || a == b);
            }
        }
        r.insert(j, i);
        assert forall|p: int, q: int| 0 <= p < q < r@.len() implies
            time_before(times@[r@[p] as int], times@[r@[q] as int], newest_first)
            || (times@[r@[p] as int] == times@[r@[q] as int] && r@[p] < r@[q]) by {
            if q < j {
                assert(r@[p] == prev[p] && r@[q] == prev[q]);
            } else if q == j {
                assert(r@[p] == prev[p]);
                assert(!time_before(ti, times@[prev[p] as int], newest_first));
            } else if p < j {
                assert(r@[q] == prev[q - 1] && r@[p] == prev[p]);
            } else if p == j {
                assert(r@[q] == prev[q - 1]);
            } else {
                assert(r@[p] == prev[p - 1] && r@[q] == prev[q - 1]);
            }
        }
        assert forall|p: int, q: int| 0 <= p < q < r@.len() implies r@[p] != r@[q] by {
            if q < j {
                assert(r@[p] == prev[p] && r@[q] == prev[q]);
            } else if q == j {
                assert(r@[p] == prev[p]);
            } else if p < j {
                assert(r@[q] == prev[q - 1] && r@[p] == prev[p]);
            } else if p == j {
                assert(r@[q] == prev[q - 1]);
            } else {
                assert(r@[p] == prev[p - 1] && r@[q] == prev[q - 1]);
            }
        }
        assert forall|p: int| 0 <= p < r@.len() implies (#[trigger] r@[p]) < i + 1 by {
            if p < j {
                assert(r@[p] == prev[p]);
            } else if p > j {
                assert(r@[p] == prev[p - 1]);
            }
        }
        i = i + 1;
    }
    r
}

fn record_times(records: &Vec<Record>) -> (r: Vec<i64>)
    ensures
        r@ == times_of(views(records@)),
{
    let mut r: Vec<i64> = Vec::new();
    let mut i: usize = 0;
    while i < records.len()
        invariant
            i <= records@.len(),
            r@.len() == i,
            forall|k: int| 0 <= k < i ==> r@[k] == (#[trigger] records@[k]).time,
        decreases records@.len() - i,
    {
        r.push(records[i].time);
        i = i + 1;
    }
    assert(r@ =~= times_of(views(records@)));
    r
}

/// Copies of the records at the positions `rank`, in that order.
fn pick(records: &Vec<Record>, rank: &Vec<usize>) -> (r: Vec<Record>)
    requires
        forall|p: int| 0 <= p < rank@.len() ==> (#[trigger] rank@[p]) < records@.len(),
    ensures
        r@.len() == rank@.len(),
        forall|k: int| 0 <= k < rank@.len() ==> views(r@)[k] == views(records@)[rank@[k] as int],
{
    let mut r: Vec<Record> = Vec::new();
    let mut i: usize = 0;
    while i < rank.len()
        invariant
            i <= rank@.len(),
            r@.len() == i,
            forall|p: int| 0 <= p < rank@.len() ==> (#[trigger] rank@[p]) < records@.len(),
            forall|k: int| 0 <= k < i ==> (#[trigger] r@[k])@ == records@[rank@[k] as int]@,
        decreases rank@.len() - i,
    {
        r.push(records[rank[i]].copy());
        i = i + 1;
    }
    r
}

/// Copies of the records sorted by time (stably).
pub fn sorted_by_time(records: &Vec<Record>, newest_first: bool) -> (r: Vec<Record>)
    ensures
        is_time_order(views(records@), newest_first, views(r@)),
{
    let times = record_times(records);
    let rank = rank_times(&times, newest_first);
    let r = pick(records, &rank);
    assert(time_ranked(times_of(views(records@)), newest_first, rank@));
    assert(forall|k: int| 0 <= k < rank@.len() ==> views(r@)[k] == views(records@)[rank@[k] as int]);
    r
}

/// All records, newest first (records of one time keep their order).
pub fn all(records: &Vec<Record>) -> (r: Vec<Record>)
    ensures
        is_time_order(views(records@), true, views(r@)),
{
    sorted_by_time(records, true)
}

/// The records of one chart, oldest first (for the trend graph).
pub fn for_chart(records: &Vec<Record>, key: &str) -> (r: Vec<Record>)
    ensures
        is_time_order(views(records@).filter(|v: RecordView| v.key == key@), false, views(r@)),
{
    let ghost pred = |v: RecordView| v.key == key@;
    let mut mine: Vec<Record> = Vec::new();
    let mut i: usize = 0;
    while i < records.len()
        invariant
            i <= records@.len(),
            pred == (|v: RecordView| v.key == key@),
            views(mine@) == views(records@).take(i as int).filter(pred),
        decreases records@.len() - i,
    {
        proof {
            reveal(Seq::filter);
            assert(views(records@).take(i + 1).drop_last() =~= views(records@).take(i as int));
        }
        if text_eq(records[i].key.as_str(), key) {
            let ghost before = mine@;
            mine.push(records[i].copy());
            assert(views(mine@) =~= views(before).push(views(records@)[i as int]));
        }
        i = i + 1;
    }
    assert(views(records@).take(records@.len() as int) =~= views(records@));
    sorted_by_time(&mine, false)
}

/// Whether some record of `s` has the chart key `key`.
pub open spec fn key_seen(s: Seq<RecordView>, key: Seq<char>) -> bool {
    exists|i: int| 0 <= i < s.len() && (#[trigger] s[i]).key == key
}

/// The records of `s` whose chart key no earlier record has.
pub open spec fn first_per_key(s: Seq<RecordView>) -> Seq<RecordView>
    decreases s.len(),
{
    if s.len() == 0 {
        s
    } else {
        let d = first_per_key(s.drop_last());
        if key_seen(s.drop_last(), s.last().key) { d } else { d.push(s.last()) }
    }
}

proof fn lemma_first_per_key_seen(s: Seq<RecordView>, key: Seq<char>)
    ensures
        key_seen(first_per_key(s), key) == key_seen(s, key),
    decreases s.len(),
{
    if s.len() > 0 {
        let t = s.drop_last();
        lemma_first_per_key_seen(t, key);
        if key_seen(s, key) && !key_seen(t, key) {
            assert(s.last().key == key) by {
                let i = choose|i: int| 0 <= i < s.len() && (#[trigger] s[i]).key == key;
                if i < t.len() {
                    assert(t[i] == s[i]);
                }
            }
            assert(first_per_key(s).last() == s.last());
        }
        if key_seen(t, key) {
            let i = choose|i: int| 0 <= i < t.len() && (#[trigger] t[i]).key == key;
            assert(s[i] == t[i]);
        }
        if key_seen(first_per_key(t), key) {
            let i = choose|i: int| 0 <= i < first_per_key(t).len() && (#[trigger] first_per_key(t)[i]).key == key;
            assert(first_per_key(s)[i] == first_per_key(t)[i]);
        }
        if key_seen(first_per_key(s), key) && !key_seen(first_per_key(t), key) {
            let i = choose|i: int| 0 <= i < first_per_key(s).len() && (#[trigger] first_per_key(s)[i]).key == key;
            if i < first_per_key(t).len() {
                assert(first_per_key(s)[i] == first_per_key(t)[i]);
            }
        }
    }
}

fn key_among(records: &Vec<Record>, key: &str) -> (r: bool)
    ensures
        r == key_seen(views(records@), key@),
{
    let mut i: usize = 0;
    while i < records.len()
        invariant
            i <= records@.len(),
            forall|k: int| 0 <= k < i ==> (#[trigger] records@[k]).key@ != key@,
        decreases records@.len() - i,
    {
        if text_eq(records[i].key.as_str(), key) {
            assert(views(records@)[i as int].key == key@);
            return true;
        }
        i = i + 1;
    }
    proof {
        if key_seen(views(records@), key@) {
            let k = choose|k: int| 0 <= k < views(records@).len() && (#[trigger] views(records@)[k]).key == key@;
            assert(records@[k].key@ == key@);
        }
    }
    false
}

/// The latest record of each chart, newest first.
pub fn latest_per_chart(records: &Vec<Record>) -> (r: Vec<Record>)
    ensures
        exists|sorted: Seq<RecordView>| is_time_order(views(records@), true, sorted) && views(r@) == first_per_key(sorted),
{
    let sorted = all(records);
    let mut out: Vec<Record> = Vec::new();
    let mut i: usize = 0;
    while i < sorted.len()
        invariant
            i <= sorted@.len(),
            views(out@) == first_per_key(views(sorted@).take(i as int)),
        decreases sorted@.len() - i,
    {
        let ghost prefix = views(sorted@).take(i as int);
        proof {
            assert(views(sorted@).take(i + 1).drop_last() =~= prefix);
            lemma_first_per_key_seen(prefix, sorted@[i as int].key@);
        }
        if !key_among(&out, sorted[i].key.as_str()) {
            let ghost before = out@;
            out.push(sorted[i].copy());
            assert(views(out@) =~= views(before).push(views(sorted@)[i as int]));
        }
        i = i + 1;
    }
    assert(views(sorted@).take(sorted@.len() as int) =~= views(sorted@));
    out
}

// ------------------------------------------------------------------ import

/// Two records of the same play: same time, same chart, same score.
pub open spec fn same_play(a: RecordView, b: RecordView) -> bool {
    a.time == b.time && a.key == b.key && a.score == b.score
}

pub open spec fn play_seen(s: Seq<RecordView>, rec: RecordView) -> bool {
    exists|i: int| 0 <= i < s.len() && same_play(#[trigger] s[i], rec)
}

/// `existing` followed by each record of `incoming` that is not a play
/// already there (counting those added before it).
pub open spec fn merged(existing: Seq<RecordView>, incoming: Seq<RecordView>) -> Seq<RecordView>
    decreases incoming.len(),
{
    if incoming.len() == 0 {
        existing
    } else {
        let m = merged(existing, incoming.drop_last());
        if play_seen(m, incoming.last()) { m } else { m.push(incoming.last()) }
    }
}

proof fn lemma_merged_grows(existing: Seq<RecordView>, incoming: Seq<RecordView>)
    ensures
        existing.len() <= merged(existing, incoming).len() <= existing.len() + incoming.len(),
    decreases incoming.len(),
{
    if incoming.len() > 0 {
        lemma_merged_grows(existing, incoming.drop_last());
    }
}

fn play_among(records: &Vec<Record>, rec: &Record) -> (r: bool)
    ensures
        r == play_seen(views(records@), rec@),
{
    let mut i: usize = 0;
    while i < records.len()
        invariant
            i <= records@.len(),
            forall|k: int| 0 <= k < i ==> !same_play((#[trigger] records@[k])@, rec@),
        decreases records@.len() - i,
    {
        let x = &records[i];
        if x.time == rec.time && x.score == rec.score && text_eq(x.key.as_str(), rec.key.as_str()) {
            assert(same_play(views(records@)[i as int], rec@));
            return true;
        }
        i = i + 1;
    }
    proof {
        if play_seen(views(records@), rec@) {
            let k = choose|k: int| 0 <= k < views(records@).len() && same_play(#[trigger] views(records@)[k], rec@);
            assert(records@[k]@ == views(records@)[k]);
        }
    }
    false
}

/// Merges an imported history: each imported record that is not a play
/// already there (same time, chart and score) is added; then the records
/// are sorted oldest first (stably) and the oldest beyond [`MAX_RECORDS`]
/// dropped. Returns how many were added.
pub fn import_records(records: &mut Vec<Record>, incoming: &Vec<Record>) -> (added: usize)
    ensures
        added == merged(views(old(records)@), views(incoming@)).len() - views(old(records)@).len(),
        exists|sorted: Seq<RecordView>|
            is_time_order(merged(views(old(records)@), views(incoming@)), false, sorted)
            && views(final(records)@) == capped(sorted),
{
    let ghost start = views(records@);
    let mut added: usize = 0;
    let mut i: usize = 0;
    while i < incoming.len()
        invariant
            i <= incoming@.len(),
            views(records@) == merged(start, views(incoming@).take(i as int)),
            added == views(records@).len() - start.len(),
            added <= i,
        decreases incoming@.len() - i,
    {
        proof {
            assert(views(incoming@).take(i + 1).drop_last() =~= views(incoming@).take(i as int));
            assert(views(incoming@).take(i + 1).last() == incoming@[i as int]@);
        }
        if !play_among(records, &incoming[i]) {
            let ghost before = records@;
            records.push(incoming[i].copy());
            assert(views(records@) =~= views(before).push(incoming@[i as int]@));
            added = added + 1;
        }
        i = i + 1;
    }
    assert(views(incoming@).take(incoming@.len() as int) =~= views(incoming@));
    let mut sorted = sorted_by_time(records, false);
    let ghost sv = views(sorted@);
    cap(&mut sorted);
    *records = sorted;
    added
}

/// Records a finished play at the current time (see [`push`] and
/// [`spec_record_key`]); `difficulty_bits` is the bit pattern of the
/// difficulty and `difficulty_text` the difficulty with two decimals.
pub fn record_play(
    records: &mut Vec<Record>,
    chart_id: Option<i32>,
    local_path: Option<&str>,
    name: &str,
    level: &str,
    difficulty_bits: u32,
    difficulty_text: &str,
    score: u32,
    accuracy_bits: u64,
    max_combo: u32,
    num_of_notes: u32,
    counts: [u32; 4],
    hist: &[u32],
)
    ensures
        final(records)@.len() > 0,
        views(final(records)@) == capped(views(old(records)@).push(RecordView {
            time: final(records)@.last().time,
            key: spec_record_key(chart_id, match local_path { Some(p) => Some(p@), None => None }, name@, difficulty_text@),
            name: name@,
            level: level@,
            difficulty_bits,
            score,
            accuracy_bits,
            max_combo,
            num_of_notes,
            counts,
            hist: hist@,
        })),
{
    let key = record_key(chart_id, local_path, name, difficulty_text);
    let mut h: Vec<u32> = Vec::new();
    let mut i: usize = 0;
    while i < hist.len()
        invariant
            i <= hist@.len(),
            h@ == hist@.subrange(0, i as int),
        decreases hist@.len() - i,
    {
        h.push(hist[i]);
        i = i + 1;
    }
    assert(h@ =~= hist@);
    let time = now_millis();
    let rec = Record {
        time,
        key,
        name: crate::text::to_string(name),
        level: crate::text::to_string(level),
        difficulty_bits,
        score,
        accuracy_bits,
        max_combo,
        num_of_notes,
        counts,
        hist: h,
    };
    let ghost rv = rec@;
    let ghost grown = views(old(records)@).push(rv);
    push(records, rec);
    proof {
        assert(capped(grown).last() == rv);
        assert(views(records@).last() == records@.last()@);
    }
}


// ------------------------------------------------------------------ laws

/// Adding a record keeps at most [`MAX_RECORDS`], the new one last; only
/// when the history was full does the oldest go.
pub proof fn lemma_push_keeps_newest(s: Seq<RecordView>, rec: RecordView)
    ensures
        capped(s.push(rec)).len() <= MAX_RECORDS,
        capped(s.push(rec)).last() == rec,
        s.len() < MAX_RECORDS ==> capped(s.push(rec)) == s.push(rec),
        s.len() >= MAX_RECORDS ==> capped(s.push(rec)) == s.subrange(s.len() - MAX_RECORDS + 1, s.len() as int).push(rec),
{
    if s.len() >= MAX_RECORDS {
        assert(capped(s.push(rec)) =~= s.subrange(s.len() - MAX_RECORDS + 1, s.len() as int).push(rec));
    }
}

/// A time order lists the same records, each as often, with the times in
/// order: newest first or oldest first.
pub proof fn lemma_time_order_sorted(src: Seq<RecordView>, newest_first: bool, out: Seq<RecordView>)
    requires
        is_time_order(src, newest_first, out),
    ensures
        out.len() == src.len(),
        forall|p: int, q: int| 0 <= p < q < out.len() ==>
            time_before(out[p].time, out[q].time, newest_first) || out[p].time == out[q].time,
        forall|i: int| 0 <= i < src.len() ==> seen_in(out, #[trigger] src[i]),
{
    let r = choose|r: Seq<usize>|
        #[trigger] time_ranked(times_of(src), newest_first, r)
        && out.len() == r.len()
        && forall|k: int| 0 <= k < r.len() ==> out[k] == src[r[k] as int];
    assert forall|p: int, q: int| 0 <= p < q < out.len() implies
        time_before(out[p].time, out[q].time, newest_first) || out[p].time == out[q].time by {
        assert(times_of(src)[r[p] as int] == out[p].time);
        assert(times_of(src)[r[q] as int] == out[q].time);
    }
    assert forall|i: int| 0 <= i < src.len() implies seen_in(out, #[trigger] src[i]) by {
        lemma_rank_onto(r, src.len() as int, i);
        let k = choose|k: int| 0 <= k < r.len() && r[k] as int == i;
        assert(out[k] == src[i]);
    }
}

/// Whether `x` is among the records of `s`.
pub open spec fn seen_in(s: Seq<RecordView>, x: RecordView) -> bool {
    exists|k: int| 0 <= k < s.len() && s[k] == x
}

/// A one-to-one ranking of `0..n` reaches every index.
proof fn lemma_rank_onto(r: Seq<usize>, n: int, i: int)
    requires
        r.len() == n,
        forall|p: int| 0 <= p < r.len() ==> (#[trigger] r[p]) < n,
        forall|p: int, q: int| 0 <= p < q < r.len() ==> r[p] != r[q],
        0 <= i < n,
    ensures
        exists|k: int| 0 <= k < r.len() && r[k] as int == i,
{
    let f = |k: int| r[k] as int;
    vstd::set_lib::lemma_int_range(0, n);
    let dom = Set::new(|k: int| 0 <= k < n);
    assert(dom =~= vstd::set_lib::set_int_range(0, n));
    let img = dom.map(f);
    assert(vstd::relations::injective_on(f, dom)) by {
        assert forall|a: int, b: int| dom.contains(a) && dom.contains(b) && #[trigger] f(a) == #[trigger] f(b) implies a == b by {
            if a < b {
                assert(r[a] != r[b]);
            } else if b < a {
                assert(r[b] != r[a]);
            }
        }
    }
    vstd::set_lib::lemma_map_size(dom, img, f);
    assert(img.subset_of(dom)) by {
        assert forall|x: int| img.contains(x) implies dom.contains(x) by {
            let k = choose|k: int| dom.contains(k) && f(k) == x;
            assert(r[k] < n);
        }
    }
    vstd::set_lib::lemma_subset_equality(img, dom);
    assert(img.contains(i));
    let k = choose|k: int| dom.contains(k) && f(k) == i;
    assert(0 <= k < r.len() && r[k] as int == i);
}

/// No two records that `first_per_key` keeps share a chart, and every
/// chart of `s` has one.
pub proof fn lemma_first_per_key_distinct(s: Seq<RecordView>)
    ensures
        forall|i: int, j: int| 0 <= i < j < first_per_key(s).len() ==> (#[trigger] first_per_key(s)[i]).key != (#[trigger] first_per_key(s)[j]).key,
        forall|i: int| 0 <= i < s.len() ==> key_seen(first_per_key(s), (#[trigger] s[i]).key),
    decreases s.len(),
{
    if s.len() > 0 {
        let t = s.drop_last();
        lemma_first_per_key_distinct(t);
        lemma_first_per_key_seen(t, s.last().key);
        let d = first_per_key(t);
        if !key_seen(t, s.last().key) {
            assert forall|i: int, j: int| 0 <= i < j < first_per_key(s).len() implies (#[trigger] first_per_key(s)[i]).key != (#[trigger] first_per_key(s)[j]).key by {
                if j == d.len() {
                    assert(first_per_key(s)[i] == d[i]);
                    if d[i].key == s.last().key {
                        assert(key_seen(d, s.last().key));
                    }
                } else {
                    assert(first_per_key(s)[i] == d[i] && first_per_key(s)[j] == d[j]);
                }
            }
        }
        assert forall|i: int| 0 <= i < s.len() implies key_seen(first_per_key(s), (#[trigger] s[i]).key) by {
            if i < t.len() {
                assert(t[i] == s[i]);
                assert(key_seen(d, t[i].key));
                let k = choose|k: int| 0 <= k < d.len() && (#[trigger] d[k]).key == t[i].key;
                assert(first_per_key(s)[k] == d[k]);
            } else {
                if key_seen(t, s.last().key) {
                    let k = choose|k: int| 0 <= k < d.len() && (#[trigger] d[k]).key == s.last().key;
                    assert(first_per_key(s)[k] == d[k]);
                } else {
                    assert(first_per_key(s)[d.len() as int] == s.last());
                }
            }
        }
    }
}

proof fn lemma_merged_keeps(existing: Seq<RecordView>, incoming: Seq<RecordView>, rec: RecordView)
    requires
        play_seen(existing, rec),
    ensures
        play_seen(merged(existing, incoming), rec),
    decreases incoming.len(),
{
    if incoming.len() > 0 {
        lemma_merged_keeps(existing, incoming.drop_last(), rec);
        let m = merged(existing, incoming.drop_last());
        let k = choose|k: int| 0 <= k < m.len() && same_play(#[trigger] m[k], rec);
        if !play_seen(m, incoming.last()) {
            assert(m.push(incoming.last())[k] == m[k]);
        }
    }
}

/// After merging, every imported play is in the history.
pub proof fn lemma_merged_has_all(existing: Seq<RecordView>, incoming: Seq<RecordView>)
    ensures
        forall|i: int| 0 <= i < incoming.len() ==> play_seen(merged(existing, incoming), #[trigger] incoming[i]),
    decreases incoming.len(),
{
    if incoming.len() > 0 {
        let t = incoming.drop_last();
        lemma_merged_has_all(existing, t);
        let m = merged(existing, t);
        assert forall|i: int| 0 <= i < incoming.len() implies play_seen(merged(existing, incoming), #[trigger] incoming[i]) by {
            if i < t.len() {
                assert(t[i] == incoming[i]);
                let k = choose|k: int| 0 <= k < m.len() && same_play(#[trigger] m[k], t[i]);
                if !play_seen(m, incoming.last()) {
                    assert(m.push(incoming.last())[k] == m[k]);
                }
            } else {
                if !play_seen(m, incoming.last()) {
                    assert(same_play(m.push(incoming.last())[m.len() as int], incoming.last()));
                }
            }
        }
    }
}

proof fn lemma_merge_seen_unchanged(existing: Seq<RecordView>, incoming: Seq<RecordView>)
    requires
        forall|i: int| 0 <= i < incoming.len() ==> play_seen(existing, #[trigger] incoming[i]),
    ensures
        merged(existing, incoming) == existing,
    decreases incoming.len(),
{
    if incoming.len() > 0 {
        let t = incoming.drop_last();
        assert forall|i: int| 0 <= i < t.len() implies play_seen(existing, #[trigger] t[i]) by {
            assert(t[i] == incoming[i]);
        }
        lemma_merge_seen_unchanged(existing, t);
        assert(play_seen(existing, incoming[incoming.len() - 1]));
    }
}

/// Importing the same history twice adds nothing the second time.
pub proof fn lemma_import_idempotent(existing: Seq<RecordView>, incoming: Seq<RecordView>)
    ensures
        merged(merged(existing, incoming), incoming) == merged(existing, incoming),
{
    lemma_merged_has_all(existing, incoming);
    lemma_merge_seen_unchanged(merged(existing, incoming), incoming);
}


proof fn lemma_increasing_from(r: Seq<usize>, k: int)
    requires
        forall|p: int, q: int| 0 <= p < q < r.len() ==> r[p] < r[q],
        0 <= k < r.len(),
    ensures
        r[k] >= k,
    decreases k,
{
    if k > 0 {
        lemma_increasing_from(r, k - 1);
        assert(r[k - 1] < r[k]);
    }
}

proof fn lemma_increasing_to(r: Seq<usize>, n: int, k: int)
    requires
        r.len() == n,
        forall|p: int| 0 <= p < r.len() ==> (#[trigger] r[p]) < n,
        forall|p: int, q: int| 0 <= p < q < r.len() ==> r[p] < r[q],
        0 <= k < n,
    ensures
        r[k] <= k,
    decreases n - k,
{
    if k < n - 1 {
        lemma_increasing_to(r, n, k + 1);
        assert(r[k] < r[k + 1]);
    } else {
        assert(r[k] < n);
    }
}

/// Sorting records that are already in time order changes nothing.
proof fn lemma_sorted_stays(src: Seq<RecordView>, out: Seq<RecordView>)
    requires
        forall|p: int, q: int| 0 <= p < q < src.len() ==> src[p].time <= src[q].time,
        is_time_order(src, false, out),
    ensures
        out == src,
{
    let r = choose|r: Seq<usize>|
        #[trigger] time_ranked(times_of(src), false, r)
        && out.len() == r.len()
        && forall|k: int| 0 <= k < r.len() ==> out[k] == src[r[k] as int];
    let t = times_of(src);
    assert forall|p: int, q: int| 0 <= p < q < r.len() implies r[p] < r[q] by {
        assert(r[p] != r[q]);
        assert(r[p] < src.len() && r[q] < src.len());
        assert(t[r[p] as int] == src[r[p] as int].time);
        assert(t[r[q] as int] == src[r[q] as int].time);
        if r[p] > r[q] {
            assert(src[r[q] as int].time <= src[r[p] as int].time);
            assert(time_before(t[r[p] as int], t[r[q] as int], false) || (t[r[p] as int] == t[r[q] as int] && r[p] < r[q]));
        }
    }
    assert forall|k: int| 0 <= k < r.len() implies r[k] == k by {
        lemma_increasing_from(r, k);
        lemma_increasing_to(r, r.len() as int, k);
    }
    assert(out =~= src);
}

/// Importing the same history twice in a row (when nothing has to be
/// dropped for room): whatever the first import leaves (`s1`, a time order
/// of the merged records), the second adds nothing and leaves the records
/// as they were.
pub proof fn lemma_import_twice(s0: Seq<RecordView>, inc: Seq<RecordView>, s1: Seq<RecordView>, s2: Seq<RecordView>)
    requires
        s0.len() + inc.len() <= MAX_RECORDS,
        is_time_order(merged(s0, inc), false, s1),
        is_time_order(merged(capped(s1), inc), false, s2),
    ensures
        capped(s1) == s1,
        merged(capped(s1), inc).len() - capped(s1).len() == 0,
        capped(s2) == capped(s1),
{
    let m = merged(s0, inc);
    lemma_merged_grows(s0, inc);
    lemma_time_order_sorted(m, false, s1);
    assert(capped(s1) == s1);
    lemma_merged_has_all(s0, inc);
    assert forall|i: int| 0 <= i < inc.len() implies play_seen(s1, #[trigger] inc[i]) by {
        let j = choose|j: int| 0 <= j < m.len() && same_play(#[trigger] m[j], inc[i]);
        assert(seen_in(s1, m[j]));
        let k = choose|k: int| 0 <= k < s1.len() && s1[k] == m[j];
        assert(same_play(s1[k], inc[i]));
    }
    lemma_merge_seen_unchanged(s1, inc);
    assert forall|p: int, q: int| 0 <= p < q < s1.len() implies s1[p].time <= s1[q].time by {
        assert(time_before(s1[p].time, s1[q].time, false) || s1[p].time == s1[q].time);
    }
    lemma_sorted_stays(s1, s2);
}


/// Everything the merge holds comes from the existing records or from the
/// incoming ones.
proof fn lemma_merged_from(existing: Seq<RecordView>, incoming: Seq<RecordView>, k: int)
    requires
        0 <= k < merged(existing, incoming).len(),
    ensures
        seen_in(existing, merged(existing, incoming)[k]) || seen_in(incoming, merged(existing, incoming)[k]),
    decreases incoming.len(),
{
    if incoming.len() > 0 {
        let t = incoming.drop_last();
        let m = merged(existing, t);
        if k < m.len() {
            lemma_merged_from(existing, t, k);
            assert(merged(existing, incoming)[k] == m[k]);
            if seen_in(t, m[k]) {
                let q = choose|q: int| 0 <= q < t.len() && t[q] == m[k];
                assert(incoming[q] == t[q]);
            }
        } else {
            assert(merged(existing, incoming)[k] == incoming[incoming.len() - 1]);
        }
    }
}

/// Plays at different times are never the same play: an incoming record
/// whose time is that of no existing record and of no record imported
/// before it is always added, at the end of the merge.
pub proof fn lemma_new_time_is_added(existing: Seq<RecordView>, incoming: Seq<RecordView>, x: RecordView)
    requires
        forall|i: int| 0 <= i < existing.len() ==> (#[trigger] existing[i]).time != x.time,
        forall|i: int| 0 <= i < incoming.len() ==> (#[trigger] incoming[i]).time != x.time,
    ensures
        merged(existing, incoming.push(x)) == merged(existing, incoming).push(x),
        merged(existing, incoming.push(x)).len() == merged(existing, incoming).len() + 1,
{
    let m = merged(existing, incoming);
    assert(incoming.push(x).drop_last() =~= incoming);
    assert forall|k: int| 0 <= k < m.len() implies !same_play(#[trigger] m[k], x) by {
        lemma_merged_from(existing, incoming, k);
        if seen_in(existing, m[k]) {
            let q = choose|q: int| 0 <= q < existing.len() && existing[q] == m[k];
            assert(existing[q].time != x.time);
        } else {
            let q = choose|q: int| 0 <= q < incoming.len() && incoming[q] == m[k];
            assert(incoming[q].time != x.time);
        }
    }
}

} // verus!

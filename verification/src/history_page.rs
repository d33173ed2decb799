//! What the history page shows: the records picked by its filters, the
//! rows it lists, the personal best and the color tier of a score.

use vstd::prelude::*;
use crate::history::{Record, RecordView, views, is_time_order, sorted_by_time};
use crate::text::text_eq;

verus! {

/// Most rows the page lists.
pub const MAX_ROWS: usize = 300;

/// The color tier of a score: 5 from 1 000 000, 4 from 960 000, 3 from
/// 920 000, 2 from 880 000, 1 from 820 000, else 0.
pub fn score_tier(score: u32) -> (r: u8)
    ensures
        r == (if score >= 1_000_000 { 5u8 } else if score >= 960_000 { 4u8 } else if score >= 920_000 { 3u8 }
            else if score >= 880_000 { 2u8 } else if score >= 820_000 { 1u8 } else { 0u8 }),
{
    if score >= 1_000_000 {
        5
    } else if score >= 960_000 {
        4
    } else if score >= 920_000 {
        3
    } else if score >= 880_000 {
        2
    } else if score >= 820_000 {
        1
    } else {
        0
    }
}

pub open spec fn full_combo_view(v: RecordView) -> bool {
    v.num_of_notes > 0 && v.max_combo >= v.num_of_notes
}

/// The filters of the history page: one chart or all, and only full
/// combos or all.
pub struct HistoryFilter {
    /// `None`: all charts; `Some(key)`: only the chart with that key.
    pub selected: Option<String>,
    pub only_fc: bool,
}

/// Whether a record passes the filters.
pub open spec fn passes(selected: Option<Seq<char>>, only_fc: bool, v: RecordView) -> bool {
    (match selected {
        Some(k) => v.key == k,
        None => true,
    }) && (!only_fc || full_combo_view(v))
}

impl HistoryFilter {
    pub open spec fn selected_view(&self) -> Option<Seq<char>> {
        match self.selected {
            Some(k) => Some(k@),
            None => None,
        }
    }

    /// All charts, all plays.
    pub fn new() -> (r: HistoryFilter)
        ensures
            r.selected is None,
            !r.only_fc,
    {
        HistoryFilter { selected: None, only_fc: false }
    }

    fn admits(&self, rec: &Record) -> (r: bool)
        ensures
            r == passes(self.selected_view(), self.only_fc, rec@),
    {
        let key_ok = match &self.selected {
            Some(k) => text_eq(rec.key.as_str(), k.as_str()),
            None => true,
        };
        key_ok && (!self.only_fc || rec.is_full_combo())
    }

    /// The records that pass the filters, oldest first (records of one time
    /// keep their order).
    pub fn filtered(&self, records: &Vec<Record>) -> (r: Vec<Record>)
        ensures
            is_time_order(views(records@).filter(|v: RecordView| passes(self.selected_view(), self.only_fc, v)), false, views(r@)),
    {
        let ghost pred = |v: RecordView| passes(self.selected_view(), self.only_fc, v);
        let mut kept: Vec<Record> = Vec::new();
        let mut i: usize = 0;
        while i < records.len()
            invariant
                i <= records@.len(),
                pred == (|v: RecordView| passes(self.selected_view(), self.only_fc, v)),
                views(kept@) == views(records@).take(i as int).filter(pred),
            decreases records@.len() - i,
        {
            proof {
                reveal(Seq::filter);
                assert(views(records@).take(i + 1).drop_last() =~= views(records@).take(i as int));
            }
            if self.admits(&records[i]) {
                let ghost before = kept@;
                kept.push(records[i].copy());
                assert(views(kept@) =~= views(before).push(views(records@)[i as int]));
            }
            i = i + 1;
        }
        assert(views(records@).take(records@.len() as int) =~= views(records@));
        sorted_by_time(&kept, false)
    }

    /// Back to all charts.
    pub fn select_all(&mut self)
        ensures
            final(self).selected is None,
            final(self).only_fc == old(self).only_fc,
    {
        self.selected = None;
    }

    /// Turns the full-combo filter on or off.
    pub fn toggle_full_combo(&mut self)
        ensures
            final(self).only_fc == !old(self).only_fc,
            final(self).selected_view() == old(self).selected_view(),
    {
        self.only_fc = !self.only_fc;
    }

    /// A tap on row `i` of the list whose chart keys are `keys`: shows only
    /// that chart, or all charts again when it was already the one shown.
    /// A row past the list changes nothing.
    pub fn select_row(&mut self, keys: &Vec<String>, i: usize)
        ensures
            final(self).only_fc == old(self).only_fc,
            i >= keys@.len() ==> final(self).selected_view() == old(self).selected_view(),
            i < keys@.len() ==> final(self).selected_view() == (if old(self).selected_view() == Some(keys@[i as int]@) {
                None::<Seq<char>>
            } else {
                Some(keys@[i as int]@)
            }),
    {
        if i < keys.len() {
            let same = match &self.selected {
                Some(k) => text_eq(k.as_str(), keys[i].as_str()),
                None => false,
            };
            if same {
                self.selected = None;
            } else {
                self.selected = Some(keys[i].clone());
            }
        }
    }
}

/// The chart keys of the listed rows: the newest [`MAX_ROWS`] of the
/// filtered records (which are oldest first), newest first.
pub fn row_keys(filtered: &Vec<Record>) -> (r: Vec<String>)
    ensures
        r@.len() == (if filtered@.len() < MAX_ROWS { filtered@.len() } else { MAX_ROWS as nat }),
        forall|k: int| 0 <= k < r@.len() ==> (#[trigger] r@[k])@ == filtered@[filtered@.len() - 1 - k].key@,
{
    let n = filtered.len();
    let m = if n < MAX_ROWS { n } else { MAX_ROWS };
    let mut r: Vec<String> = Vec::new();
    let mut k: usize = 0;
    while k < m
        invariant
            k <= m,
            m <= n,
            n == filtered@.len(),
            r@.len() == k,
            forall|j: int| 0 <= j < k ==> (#[trigger] r@[j])@ == filtered@[n - 1 - j].key@,
        decreases m - k,
    {
        r.push(filtered[n - 1 - k].key.clone());
        k = k + 1;
    }
    r
}

/// The position of the personal best: the highest score, the last of
/// equal ones; `None` when there is no record.
pub fn personal_best(records: &Vec<Record>) -> (r: Option<usize>)
    ensures
        r is None <==> records@.len() == 0,
        r matches Some(i) ==> i < records@.len()
            && (forall|j: int| 0 <= j < records@.len() ==> (#[trigger] records@[j]).score <= records@[i as int].score)
            && (forall|j: int| i < j < records@.len() ==> (#[trigger] records@[j]).score < records@[i as int].score),
{
    if records.len() == 0 {
        return None;
    }
    let mut best: usize = 0;
    let mut i: usize = 1;
    while i < records.len()
        invariant
            1 <= i <= records@.len(),
            best < i,
            forall|j: int| 0 <= j < i ==> (#[trigger] records@[j]).score <= records@[best as int].score,
            forall|j: int| best < j < i ==> (#[trigger] records@[j]).score < records@[best as int].score,
        decreases records@.len() - i,
    {
        if records[i].score >= records[best].score {
            best = i;
        }
        i = i + 1;
    }
    Some(best)
}

/// The name of the chart with key `key`: that of its first record; `None`
/// when no record has that key.
pub fn chart_name(records: &Vec<Record>, key: &str) -> (r: Option<String>)
    ensures
        r is None <==> forall|j: int| 0 <= j < records@.len() ==> (#[trigger] records@[j]).key@ != key@,
        r matches Some(name) ==> exists|i: int|
            0 <= i < records@.len() && (#[trigger] records@[i]).key@ == key@ && name@ == records@[i].name@
            && forall|j: int| 0 <= j < i ==> (#[trigger] records@[j]).key@ != key@,
{
    let mut i: usize = 0;
    while i < records.len()
        invariant
            i <= records@.len(),
            forall|j: int| 0 <= j < i ==> (#[trigger] records@[j]).key@ != key@,
        decreases records@.len() - i,
    {
        if text_eq(records[i].key.as_str(), key) {
            let name = records[i].name.clone();
            assert(records@[i as int].key@ == key@ && name@ == records@[i as int].name@);
            return Some(name);
        }
        i = i + 1;
    }
    None
}

} // verus!

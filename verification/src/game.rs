//! Decisions of the play scene: which parser a chart file needs, the
//! judge-line tint, when a play is over early, and keeping the best result.

use vstd::prelude::*;
use crate::config::{Mods, has_bits, INSTANT_DEATH_AP, INSTANT_DEATH_FC};

verus! {

/// The chart file formats.
#[derive(Clone, Copy, Debug, PartialEq, Eq, Structural)]
pub enum ChartFormat {
    /// RePhiEdit JSON.
    Rpe,
    /// PhiEdit text.
    Pec,
    /// Phigros JSON.
    Pgr,
    /// Binary chart.
    Pbc,
}

/// `std::str::from_utf8(bytes).is_ok()`: whether the bytes are valid
/// UTF-8.
#[verifier::external_body]
fn is_utf8(bytes: &[u8]) -> (r: bool)
    ensures
        r == vstd::utf8::valid_utf8(bytes@),
{
    std::str::from_utf8(bytes).is_ok()
}

/// Whether `needle` occurs in `s` at position `at`.
pub open spec fn occurs_at(s: Seq<u8>, needle: Seq<u8>, at: int) -> bool {
    0 <= at && at + needle.len() <= s.len() && s.subrange(at, at + needle.len()) == needle
}

/// Whether `needle` occurs in `s`.
pub open spec fn occurs(s: Seq<u8>, needle: Seq<u8>) -> bool {
    exists|at: int| #[trigger] occurs_at(s, needle, at)
}

/// The bytes of `"META"`, quotes included (the key that only RePhiEdit
/// charts have).
pub open spec fn meta_key() -> Seq<u8> {
    seq![0x22u8, 0x4Du8, 0x45u8, 0x54u8, 0x41u8, 0x22u8]
}

/// The format of a chart file: the one its info names; else binary when
/// the file is not UTF-8 text, JSON when it begins with `{` (RePhiEdit when
/// it has a `"META"` key, else Phigros), and PhiEdit text otherwise.
pub open spec fn spec_chart_format(format: Option<ChartFormat>, bytes: Seq<u8>) -> ChartFormat {
    match format {
        Some(f) => f,
        None => if !vstd::utf8::valid_utf8(bytes) {
            ChartFormat::Pbc
        } else if bytes.len() > 0 && bytes[0] == 0x7Bu8 {
            if occurs(bytes, meta_key()) { ChartFormat::Rpe } else { ChartFormat::Pgr }
        } else {
            ChartFormat::Pec
        },
    }
}

fn has_meta_key(bytes: &[u8]) -> (r: bool)
    ensures
        r == occurs(bytes@, meta_key()),
{
    let n = bytes.len();
    if n < 6 {
        assert forall|at: int| !#[trigger] occurs_at(bytes@, meta_key(), at) by {}
        return false;
    }
    let mut i: usize = 0;
    while i <= n - 6
        invariant
            n == bytes@.len(),
            n >= 6,
            i <= n - 5,
            forall|at: int| 0 <= at < i ==> !#[trigger] occurs_at(bytes@, meta_key(), at),
        decreases n - 5 - i,
    {
        if bytes[i] == 0x22 && bytes[i + 1] == 0x4D && bytes[i + 2] == 0x45 && bytes[i + 3] == 0x54
            && bytes[i + 4] == 0x41 && bytes[i + 5] == 0x22 {
            assert(bytes@.subrange(i as int, i + 6) =~= meta_key());
            assert(occurs_at(bytes@, meta_key(), i as int));
            return true;
        }
        assert(!occurs_at(bytes@, meta_key(), i as int)) by {
            if occurs_at(bytes@, meta_key(), i as int) {
                let w = bytes@.subrange(i as int, i + 6);
                assert(w[0] == bytes@[i as int] && w[1] == bytes@[i + 1] && w[2] == bytes@[i + 2]);
                assert(w[3] == bytes@[i + 3] && w[4] == bytes@[i + 4] && w[5] == bytes@[i + 5]);
            }
        }
        i = i + 1;
    }
    false
}

/// The parser a chart file needs (see [`spec_chart_format`]).
pub fn infer_chart_format(format: Option<ChartFormat>, bytes: &[u8]) -> (r: ChartFormat)
    ensures
        r == spec_chart_format(format, bytes@),
{
    match format {
        Some(f) => f,
        None => {
            if !is_utf8(bytes) {
                ChartFormat::Pbc
            } else if bytes.len() > 0 && bytes[0] == 0x7B {
                if has_meta_key(bytes) {
                    ChartFormat::Rpe
                } else {
                    ChartFormat::Pgr
                }
            } else {
                ChartFormat::Pec
            }
        },
    }
}

/// Parts of the play screen that a judge line can carry.
#[derive(Clone, Copy, Debug, PartialEq, Eq, Structural)]
pub enum UIElement {
    Pause,
    ComboNumber,
    Combo,
    Score,
    Bar,
    Name,
    Level,
}

impl UIElement {
    /// The element's number in chart files.
    pub open spec fn code(self) -> u8 {
        match self {
            UIElement::Pause => 1,
            UIElement::ComboNumber => 2,
            UIElement::Combo => 3,
            UIElement::Score => 4,
            UIElement::Bar => 5,
            UIElement::Name => 6,
            UIElement::Level => 7,
        }
    }

    /// The element with number `val` (1 to 7), if any.
    pub fn from_u8(val: u8) -> (r: Option<UIElement>)
        ensures
            r is Some <==> 1 <= val <= 7,
            r matches Some(e) ==> e.code() == val,
    {
        match val {
            1 => Some(UIElement::Pause),
            2 => Some(UIElement::ComboNumber),
            3 => Some(UIElement::Combo),
            4 => Some(UIElement::Score),
            5 => Some(UIElement::Bar),
            6 => Some(UIElement::Name),
            7 => Some(UIElement::Level),
            _ => None,
        }
    }
}

/// How the play was started.
#[derive(Clone, Copy, Debug, PartialEq, Eq, Structural)]
pub enum GameMode {
    Normal,
    TweakOffset,
    Exercise,
    NoRetry,
    View,
}

/// The tint of the judge lines.
#[derive(Clone, Copy, Debug, PartialEq, Eq, Structural)]
pub enum LineTint {
    /// All perfect so far.
    Perfect,
    /// Full combo so far, with some goods.
    Good,
    /// Plain white.
    Plain,
}

/// The judge-line tint for the perfect, good, bad and miss counts so far:
/// with the indicator on and no bad or miss yet, perfect while there is no
/// good either, else good; otherwise plain.
pub fn judge_line_tint(counts: [u32; 4], ap_fc_indicator: bool) -> (r: LineTint)
    ensures
        r == (if counts[2] as int + counts[3] as int == 0 && ap_fc_indicator {
            if counts[1] == 0 { LineTint::Perfect } else { LineTint::Good }
        } else {
            LineTint::Plain
        }),
{
    if counts[2] == 0 && counts[3] == 0 && ap_fc_indicator {
        if counts[1] == 0 {
            LineTint::Perfect
        } else {
            LineTint::Good
        }
    } else {
        LineTint::Plain
    }
}

/// Whether the play ends now: it is still on (not over yet, in the
/// playing state) and an instant-death mod was broken (all-perfect with a
/// good, bad or miss; full-combo with a bad or miss), or the health bar ran
/// out in a mode that shows it (normal, no-retry, view).
pub open spec fn spec_play_over(dead: bool, playing: bool, mods: Mods, counts: [u32; 4], health_mode: bool, health_failed: bool, mode: GameMode) -> bool {
    !dead && playing && (
        (has_bits(mods.bits, INSTANT_DEATH_AP) && counts[1] as int + counts[2] as int + counts[3] as int > 0)
        || (has_bits(mods.bits, INSTANT_DEATH_FC) && counts[2] as int + counts[3] as int > 0)
        || (health_mode && health_failed && (mode == GameMode::Normal || mode == GameMode::NoRetry || mode == GameMode::View))
    )
}

/// Whether the play ends now (see [`spec_play_over`]).
pub fn play_over(dead: bool, playing: bool, mods: Mods, counts: [u32; 4], health_mode: bool, health_failed: bool, mode: GameMode) -> (r: bool)
    ensures
        r == spec_play_over(dead, playing, mods, counts, health_mode, health_failed, mode),
{
    let shows_health = match mode {
        GameMode::Normal | GameMode::NoRetry | GameMode::View => true,
        _ => false,
    };
    !dead && playing && (
        (mods.contains(Mods { bits: INSTANT_DEATH_AP }) && (counts[1] > 0 || counts[2] > 0 || counts[3] > 0))
        || (mods.contains(Mods { bits: INSTANT_DEATH_FC }) && (counts[2] > 0 || counts[3] > 0))
        || (health_mode && health_failed && shows_health)
    )
}

/// The best result of a chart so far.
#[derive(Clone, Copy, Debug, PartialEq, Eq, Structural)]
pub struct BestRecord {
    pub score: i32,
    /// The accuracy, as the bit pattern of its non-negative `f32` value
    /// (for non-negative values the order of the bit patterns is the order
    /// of the values).
    pub accuracy_bits: u32,
    pub full_combo: bool,
}

impl BestRecord {
    /// The better of two results, part by part.
    pub open spec fn best_of(self, other: BestRecord) -> BestRecord {
        BestRecord {
            score: if other.score > self.score { other.score } else { self.score },
            accuracy_bits: if other.accuracy_bits > self.accuracy_bits { other.accuracy_bits } else { self.accuracy_bits },
            full_combo: self.full_combo || other.full_combo,
        }
    }

    /// Takes over from `other` each part that is better: a higher score, a
    /// higher accuracy, a full combo. Returns whether anything changed.
    pub fn update(&mut self, other: &BestRecord) -> (changed: bool)
        ensures
            *final(self) == old(self).best_of(*other),
            changed == (*final(self) != *old(self)),
    {
        let mut changed = false;
        if other.score > self.score {
            self.score = other.score;
            changed = true;
        }
        if other.accuracy_bits > self.accuracy_bits {
            self.accuracy_bits = other.accuracy_bits;
            changed = true;
        }
        if other.full_combo && !self.full_combo {
            self.full_combo = other.full_combo;
            changed = true;
        }
        changed
    }
}

/// Keeping the best is order-free and settles: the best of two results
/// does not depend on their order, takes the best of three in any
/// grouping, and a second update with the same result changes nothing.
pub proof fn lemma_best_of_laws(a: BestRecord, b: BestRecord, c: BestRecord)
    ensures
        a.best_of(b) == b.best_of(a),
        a.best_of(b).best_of(c) == a.best_of(b.best_of(c)),
        a.best_of(b).best_of(b) == a.best_of(b),
        a.best_of(a) == a,
{
}


// ------------------------------------------------------------------ health bar

/// How a note was hit.
#[derive(Clone, Copy, Debug, PartialEq, Eq, Structural)]
pub enum Judgement {
    Perfect,
    Good,
    Bad,
    Miss,
}

/// Every how many combo the health bar heals.
pub const COMBO_HEAL_INTERVAL: u32 = 10;

/// The combo bookkeeping of the health bar after a judgement at `combo`:
/// a bad falls back to the last full ten reached, a miss to zero; then a
/// heal is due when the combo has reached a ten beyond the last heal's,
/// which moves the mark to the combo. Returns the new mark and whether
/// the heal is due.
pub open spec fn spec_heal_step(last: u32, what: Judgement, combo: u32) -> (u32, bool) {
    let mark = match what {
        Judgement::Bad => (combo / COMBO_HEAL_INTERVAL * COMBO_HEAL_INTERVAL) as u32,
        Judgement::Miss => 0u32,
        _ => last,
    };
    if combo >= COMBO_HEAL_INTERVAL && combo / COMBO_HEAL_INTERVAL > mark / COMBO_HEAL_INTERVAL {
        (combo, true)
    } else {
        (mark, false)
    }
}

/// The combo bookkeeping of the health bar (see [`spec_heal_step`]).
pub fn combo_heal_step(last: u32, what: Judgement, combo: u32) -> (r: (u32, bool))
    ensures
        r == spec_heal_step(last, what, combo),
{
    let mark = match what {
        Judgement::Bad => combo / COMBO_HEAL_INTERVAL * COMBO_HEAL_INTERVAL,
        Judgement::Miss => 0,
        _ => last,
    };
    if combo >= COMBO_HEAL_INTERVAL && combo / COMBO_HEAL_INTERVAL > mark / COMBO_HEAL_INTERVAL {
        (combo, true)
    } else {
        (mark, false)
    }
}

/// A heal is given at most once per ten of combo: right after a heal at
/// `combo`, another judgement at the same combo gives none.
pub proof fn lemma_heal_once_per_ten(last: u32, what: Judgement, combo: u32, next: Judgement)
    requires
        spec_heal_step(last, what, combo).1,
        next == Judgement::Perfect || next == Judgement::Good,
    ensures
        !spec_heal_step(spec_heal_step(last, what, combo).0, next, combo).1,
{
}


/// A RePhiEdit chart is told by its `"META"` key wherever the key stands:
/// UTF-8 text that begins with `{` and has the six bytes `"META"` at any
/// position is read as RePhiEdit; without them at every position it is
/// read as Phigros.
pub proof fn lemma_meta_key_anywhere(bytes: Seq<u8>, at: int)
    requires
        vstd::utf8::valid_utf8(bytes),
        bytes.len() > 0,
        bytes[0] == 0x7Bu8,
    ensures
        0 <= at && at + 6 <= bytes.len() && bytes[at] == 0x22u8 && bytes[at + 1] == 0x4Du8 && bytes[at + 2] == 0x45u8
            && bytes[at + 3] == 0x54u8 && bytes[at + 4] == 0x41u8 && bytes[at + 5] == 0x22u8
            ==> spec_chart_format(None, bytes) == ChartFormat::Rpe,
        (forall|p: int| 0 <= p && p + 6 <= bytes.len() ==> !(bytes[p] == 0x22u8 && bytes[p + 1] == 0x4Du8 && bytes[p + 2] == 0x45u8
            && bytes[p + 3] == 0x54u8 && bytes[p + 4] == 0x41u8 && #[trigger] bytes[p + 5] == 0x22u8))
            ==> spec_chart_format(None, bytes) == ChartFormat::Pgr,
{
    if 0 <= at && at + 6 <= bytes.len() && bytes[at] == 0x22u8 && bytes[at + 1] == 0x4Du8 && bytes[at + 2] == 0x45u8
        && bytes[at + 3] == 0x54u8 && bytes[at + 4] == 0x41u8 && bytes[at + 5] == 0x22u8 {
        assert(bytes.subrange(at, at + 6) =~= meta_key());
        assert(occurs_at(bytes, meta_key(), at));
    }
    if forall|p: int| 0 <= p && p + 6 <= bytes.len() ==> !(bytes[p] == 0x22u8 && bytes[p + 1] == 0x4Du8 && bytes[p + 2] == 0x45u8
        && bytes[p + 3] == 0x54u8 && bytes[p + 4] == 0x41u8 && #[trigger] bytes[p + 5] == 0x22u8) {
        assert forall|p: int| !#[trigger] occurs_at(bytes, meta_key(), p) by {
            if occurs_at(bytes, meta_key(), p) {
                let w = bytes.subrange(p, p + 6);
                assert(w[0] == bytes[p] && w[1] == bytes[p + 1] && w[2] == bytes[p + 2]);
                assert(w[3] == bytes[p + 3] && w[4] == bytes[p + 4] && w[5] == bytes[p + 5]);
            }
        }
    }
}

/// Instant death: in a live play (not yet over, in the playing state)
/// with the full-combo mod on, any bad or miss ends the play; with the
/// all-perfect mod on, any good, bad or miss does. A play that has ended
/// or is not in the playing state never ends again, and without either
/// mod and without a failed health bar a play is never ended early.
pub proof fn lemma_instant_death(mods: Mods, counts: [u32; 4], health_mode: bool, health_failed: bool, mode: GameMode, dead: bool, playing: bool)
    ensures
        has_bits(mods.bits, INSTANT_DEATH_FC) && (counts[2] > 0 || counts[3] > 0)
            ==> spec_play_over(false, true, mods, counts, health_mode, health_failed, mode),
        has_bits(mods.bits, INSTANT_DEATH_AP) && (counts[1] > 0 || counts[2] > 0 || counts[3] > 0)
            ==> spec_play_over(false, true, mods, counts, health_mode, health_failed, mode),
        spec_play_over(dead, playing, mods, counts, health_mode, health_failed, mode) ==> !dead && playing,
        !has_bits(mods.bits, INSTANT_DEATH_FC) && !has_bits(mods.bits, INSTANT_DEATH_AP) && !(health_mode && health_failed)
            ==> !spec_play_over(dead, playing, mods, counts, health_mode, health_failed, mode),
        !has_bits(mods.bits, INSTANT_DEATH_AP) && counts[2] == 0 && counts[3] == 0 && !(health_mode && health_failed)
            ==> !spec_play_over(dead, playing, mods, counts, health_mode, health_failed, mode),
{
}

/// A bad ends no heal and sets the heal mark back to the last full ten
/// the combo has reached, whatever the mark was before: the mark is a
/// multiple of ten, at most the combo and less than ten below it. A miss
/// sets the mark to zero. So after a bad or a miss, a heal is due again as
/// soon as the combo reaches the next ten.
pub proof fn lemma_bad_resets_heal_mark(last: u32, other: u32, combo: u32)
    ensures
        !spec_heal_step(last, Judgement::Bad, combo).1,
        spec_heal_step(last, Judgement::Bad, combo).0 % COMBO_HEAL_INTERVAL == 0,
        spec_heal_step(last, Judgement::Bad, combo).0 <= combo < spec_heal_step(last, Judgement::Bad, combo).0 + COMBO_HEAL_INTERVAL,
        spec_heal_step(last, Judgement::Bad, combo) == spec_heal_step(other, Judgement::Bad, combo),
        combo < COMBO_HEAL_INTERVAL ==> spec_heal_step(last, Judgement::Miss, combo) == (0u32, false),
        spec_heal_step(last, Judgement::Miss, combo).1 <==> combo >= COMBO_HEAL_INTERVAL,
{
}

} // verus!

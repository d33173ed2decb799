//! Play configuration: the mod flags, the option cycles of the settings
//! screen, and the integer settings with their ranges.

use vstd::prelude::*;
use crate::net::trimmed;
use crate::net::trim;

verus! {

/// A set of mod flags (bit set).
#[derive(Clone, Copy, Debug, PartialEq, Eq, Structural, Hash)]
pub struct Mods {
    pub bits: i32,
}

pub open spec fn has_bits(bits: i32, flag: i32) -> bool {
    bits & flag == flag
}

/// Flag bits of the single mods, and of the set under which a play is not rated.
pub const AUTOPLAY: i32 = 0x0001;
pub const FLIP_X: i32 = 0x0002;
pub const FADE_OUT: i32 = 0x0004;
pub const FADE_IN: i32 = 0x0008;
pub const NIGHTCORE: i32 = 0x0010;
pub const RAINBOW: i32 = 0x0020;
pub const NO_SHADER: i32 = 0x0040;
pub const INSTANT_DEATH_AP: i32 = 0x0080;
pub const INSTANT_DEATH_FC: i32 = 0x0100;
/// Combo no longer counts: the score is the accuracy times 1 000 000.
pub const NO_COMBO_SCORE: i32 = 0x0200;
/// The whole screen judges.
pub const FULL_SCREEN_JUDGE: i32 = 0x0400;
/// Health bar: hits heal, misses hurt, the play fails at zero.
pub const HEALTH_MODE: i32 = 0x0800;
/// The mods under which a play is not rated.
pub const UNRATED: i32 = 0x0001 | 0x0040 | 0x0200 | 0x0400 | 0x0800;

impl Mods {
    /// No flag set.
    pub fn empty() -> (r: Mods)
        ensures
            r.bits == 0,
    {
        Mods { bits: 0 }
    }

    /// Whether every flag of `flag` is set.
    pub fn contains(&self, flag: Mods) -> (r: bool)
        ensures
            r == has_bits(self.bits, flag.bits),
    {
        self.bits & flag.bits == flag.bits
    }

    /// Whether some flag of `flag` is set.
    pub fn intersects(&self, flag: Mods) -> (r: bool)
        ensures
            r == (self.bits & flag.bits != 0),
    {
        self.bits & flag.bits != 0
    }

    /// Sets the flags of `flag`.
    pub fn insert(&mut self, flag: Mods)
        ensures
            final(self).bits == old(self).bits | flag.bits,
    {
        self.bits = self.bits | flag.bits;
    }

    /// Clears the flags of `flag`.
    pub fn remove(&mut self, flag: Mods)
        ensures
            final(self).bits == old(self).bits & !flag.bits,
    {
        self.bits = self.bits & !flag.bits;
    }

    /// Sets or clears the flags of `flag`.
    pub fn set(&mut self, flag: Mods, value: bool)
        ensures
            value ==> final(self).bits == old(self).bits | flag.bits,
            !value ==> final(self).bits == old(self).bits & !flag.bits,
    {
        if value {
            self.insert(flag);
        } else {
            self.remove(flag);
        }
    }

    pub open spec fn spec_conflicts(flag: i32) -> Seq<i32> {
        if flag == 0x0008 {
            seq![0x0004]
        } else if flag == 0x0004 {
            seq![0x0008]
        } else if flag == 0x0080 {
            seq![0x0100]
        } else if flag == 0x0100 {
            seq![0x0080]
        } else {
            seq![]
        }
    }

    /// The mods that cannot be on together with `flag`: the two fades, and
    /// the two instant-death modes.
    fn conflicts(flag: Mods) -> (r: Vec<Mods>)
        ensures
            r@.map_values(|m: Mods| m.bits) == Self::spec_conflicts(flag.bits),
    {
        let mut r: Vec<Mods> = Vec::new();
        if flag.bits == 0x0008 {
            r.push(Mods { bits: 0x0004 });
        } else if flag.bits == 0x0004 {
            r.push(Mods { bits: 0x0008 });
        } else if flag.bits == 0x0080 {
            r.push(Mods { bits: 0x0100 });
        } else if flag.bits == 0x0100 {
            r.push(Mods { bits: 0x0080 });
        }
        assert(r@.map_values(|m: Mods| m.bits) =~= Self::spec_conflicts(flag.bits));
        r
    }

    /// The flags after toggling `flag`: cleared when set; otherwise set,
    /// clearing the flags that conflict with it.
    pub open spec fn spec_toggle(bits: i32, flag: i32) -> i32 {
        if has_bits(bits, flag) {
            bits & !flag
        } else {
            let c = Self::spec_conflicts(flag);
            let cleared = if c.len() == 0 { bits } else { bits & !c[0] };
            cleared | flag
        }
    }

    /// Toggles `flag` (see [`Mods::spec_toggle`]).
    pub fn toggle_mod(&mut self, flag: Mods)
        ensures
            final(self).bits == Self::spec_toggle(old(self).bits, flag.bits),
    {
        if self.contains(flag) {
            self.remove(flag);
        } else {
            let conflicts = Mods::conflicts(flag);
            let mut i: usize = 0;
            let ghost start = self.bits;
            assert(conflicts@.len() == Self::spec_conflicts(flag.bits).len());
            while i < conflicts.len()
                invariant
                    i <= conflicts@.len(),
                    conflicts@.len() <= 1,
                    conflicts@.map_values(|m: Mods| m.bits) == Self::spec_conflicts(flag.bits),
                    i == 0 ==> self.bits == start,
                    i == 1 ==> self.bits == start & !conflicts@[0].bits,
                decreases conflicts@.len() - i,
            {
                self.remove(conflicts[i]);
                i = i + 1;
            }
            assert(conflicts@.len() == 1 ==> conflicts@[0].bits == Self::spec_conflicts(flag.bits)[0]);
            self.insert(flag);
        }
    }

    /// Clears the mods under which a play is not rated; returns how many of
    /// them were set.
    pub fn clear_unrated(&mut self) -> (r: usize)
        ensures
            final(self).bits == old(self).bits & !0x0ec1i32,
            r == (if has_bits(old(self).bits, 0x0001) { 1nat } else { 0 }) + (if has_bits(old(self).bits, 0x0040) { 1nat } else { 0 })
                + (if has_bits(old(self).bits, 0x0200) { 1nat } else { 0 }) + (if has_bits(old(self).bits, 0x0400) { 1nat } else { 0 })
                + (if has_bits(old(self).bits, 0x0800) { 1nat } else { 0 }),
    {
        let b = self.bits;
        let mut turned: usize = 0;
        if self.contains(Mods { bits: AUTOPLAY }) {
            turned = turned + 1;
        }
        if self.contains(Mods { bits: NO_SHADER }) {
            turned = turned + 1;
        }
        if self.contains(Mods { bits: NO_COMBO_SCORE }) {
            turned = turned + 1;
        }
        if self.contains(Mods { bits: FULL_SCREEN_JUDGE }) {
            turned = turned + 1;
        }
        if self.contains(Mods { bits: HEALTH_MODE }) {
            turned = turned + 1;
        }
        self.bits = b & !0x0ec1i32;
        turned
    }
}

/// The single flags of the mods screen.
pub open spec fn is_single_flag(f: i32) -> bool {
    f == 0x0001 || f == 0x0002 || f == 0x0004 || f == 0x0008 || f == 0x0010 || f == 0x0020 || f == 0x0040
        || f == 0x0080 || f == 0x0100 || f == 0x0200 || f == 0x0400 || f == 0x0800
}

/// No two conflicting mods are on.
pub open spec fn conflict_free(bits: i32) -> bool {
    !(has_bits(bits, 0x0004) && has_bits(bits, 0x0008)) && !(has_bits(bits, 0x0080) && has_bits(bits, 0x0100))
}

/// Toggling a single mod: a mod that was on is off afterwards and the
/// others are unchanged; a mod that was off is on afterwards; toggling
/// never turns on two conflicting mods; and toggling twice gives back the
/// set it started from when nothing conflicting was on.
pub proof fn lemma_toggle_laws(bits: i32, flag: i32)
    requires
        is_single_flag(flag),
    ensures
        has_bits(bits, flag) ==> !has_bits(Mods::spec_toggle(bits, flag), flag),
        has_bits(bits, flag) ==> Mods::spec_toggle(bits, flag) | flag == bits,
        !has_bits(bits, flag) ==> has_bits(Mods::spec_toggle(bits, flag), flag),
        conflict_free(bits) ==> conflict_free(Mods::spec_toggle(bits, flag)),
        !has_bits(bits, flag) && (Mods::spec_conflicts(flag).len() == 0 || !has_bits(bits, Mods::spec_conflicts(flag)[0]))
            ==> Mods::spec_toggle(Mods::spec_toggle(bits, flag), flag) == bits,
{
    assert(forall|b: i32, f: i32| #![auto] has_bits(b, f) ==> !has_bits(b & !f, f) || f == 0) by (bit_vector);
    assert(forall|b: i32, f: i32| #![auto] has_bits(b, f) ==> (b & !f) | f == b) by (bit_vector);
    assert(forall|b: i32, f: i32| #![auto] has_bits(b | f, f)) by (bit_vector);
    assert(forall|b: i32, f: i32, g: i32| #![auto] has_bits((b & !g) | f, f)) by (bit_vector);
    assert(forall|b: i32, f: i32| #![auto] !has_bits(b, f) && f != 0 ==> (b | f) & !f == b & !f) by (bit_vector);
    assert(forall|b: i32, f: i32| #![auto] !has_bits(b, f) && (f == 1 || f == 2 || f == 4 || f == 8 || f == 16 || f == 32 || f == 64
        || f == 128 || f == 256 || f == 512 || f == 1024 || f == 2048) ==> b & !f == b) by (bit_vector);
    assert(forall|b: i32, f: i32, g: i32| #![auto] !has_bits(b, f) && !has_bits(b, g) && (f == 1 || f == 2 || f == 4 || f == 8 || f == 16 || f == 32 || f == 64
        || f == 128 || f == 256 || f == 512 || f == 1024 || f == 2048) && (g == 4 || g == 8 || g == 128 || g == 256)
        ==> (((b & !g) | f) & !f) == b) by (bit_vector);
    assert(forall|b: i32, f: i32| #![auto] (f == 1 || f == 2 || f == 4 || f == 8 || f == 16 || f == 32 || f == 64
        || f == 128 || f == 256 || f == 512 || f == 1024 || f == 2048) && conflict_free(b) ==> conflict_free(b & !f)) by (bit_vector);
    assert(forall|b: i32, f: i32| #![auto] (f == 1 || f == 2 || f == 16 || f == 32 || f == 64
        || f == 512 || f == 1024 || f == 2048) && conflict_free(b) ==> conflict_free(b | f)) by (bit_vector);
    assert(forall|b: i32| #![auto] conflict_free(b) ==> conflict_free((b & !4i32) | 8i32)) by (bit_vector);
    assert(forall|b: i32| #![auto] conflict_free(b) ==> conflict_free((b & !8i32) | 4i32)) by (bit_vector);
    assert(forall|b: i32| #![auto] conflict_free(b) ==> conflict_free((b & !256i32) | 128i32)) by (bit_vector);
    assert(forall|b: i32| #![auto] conflict_free(b) ==> conflict_free((b & !128i32) | 256i32)) by (bit_vector);
}

// ------------------------------------------------------------------ option cycles

/// Color of the challenge-mode badge.
#[derive(Clone, Copy, Debug, PartialEq, Eq, Structural)]
pub enum ChallengeColor {
    White,
    Green,
    Blue,
    Red,
    Golden,
    Rainbow,
}

impl ChallengeColor {
    pub open spec fn spec_index(self) -> nat {
        match self {
            ChallengeColor::White => 0,
            ChallengeColor::Green => 1,
            ChallengeColor::Blue => 2,
            ChallengeColor::Red => 3,
            ChallengeColor::Golden => 4,
            ChallengeColor::Rainbow => 5,
        }
    }

    /// All colors, in cycle order.
    pub fn all() -> (r: [ChallengeColor; 6])
        ensures
            forall|i: int| 0 <= i < 6 ==> (#[trigger] r@[i]).spec_index() == i,
    {
        [ChallengeColor::White, ChallengeColor::Green, ChallengeColor::Blue, ChallengeColor::Red, ChallengeColor::Golden, ChallengeColor::Rainbow]
    }

    /// The color of a fresh installation.
    pub fn initial() -> (r: ChallengeColor)
        ensures
            r == ChallengeColor::Golden,
    {
        ChallengeColor::Golden
    }

    /// The next color (tapping the setting cycles through them).
    pub fn next(self) -> (r: ChallengeColor)
        ensures
            r.spec_index() == (self.spec_index() + 1) % 6,
    {
        match self {
            ChallengeColor::White => ChallengeColor::Green,
            ChallengeColor::Green => ChallengeColor::Blue,
            ChallengeColor::Blue => ChallengeColor::Red,
            ChallengeColor::Red => ChallengeColor::Golden,
            ChallengeColor::Golden => ChallengeColor::Rainbow,
            ChallengeColor::Rainbow => ChallengeColor::White,
        }
    }
}

impl Default for ChallengeColor {
    fn default() -> (r: ChallengeColor)
        ensures
            r == ChallengeColor::Golden,
    {
        ChallengeColor::Golden
    }
}

/// Color of the health bar.
#[derive(Clone, Copy, Debug, PartialEq, Eq, Structural)]
pub enum HealthBarColor {
    White,
    Green,
    Blue,
    Red,
    Gold,
    Purple,
}

impl HealthBarColor {
    pub open spec fn spec_index(self) -> nat {
        match self {
            HealthBarColor::White => 0,
            HealthBarColor::Green => 1,
            HealthBarColor::Blue => 2,
            HealthBarColor::Red => 3,
            HealthBarColor::Gold => 4,
            HealthBarColor::Purple => 5,
        }
    }

    /// All colors, in cycle order.
    pub fn all() -> (r: [HealthBarColor; 6])
        ensures
            forall|i: int| 0 <= i < 6 ==> (#[trigger] r@[i]).spec_index() == i,
    {
        [HealthBarColor::White, HealthBarColor::Green, HealthBarColor::Blue, HealthBarColor::Red, HealthBarColor::Gold, HealthBarColor::Purple]
    }

    /// The next color.
    pub fn next(self) -> (r: HealthBarColor)
        ensures
            r.spec_index() == (self.spec_index() + 1) % 6,
    {
        match self {
            HealthBarColor::White => HealthBarColor::Green,
            HealthBarColor::Green => HealthBarColor::Blue,
            HealthBarColor::Blue => HealthBarColor::Red,
            HealthBarColor::Red => HealthBarColor::Gold,
            HealthBarColor::Gold => HealthBarColor::Purple,
            HealthBarColor::Purple => HealthBarColor::White,
        }
    }
}

impl Default for HealthBarColor {
    fn default() -> (r: HealthBarColor)
        ensures
            r == HealthBarColor::White,
    {
        HealthBarColor::White
    }
}

/// How the judgement text (PERFECT / GOOD / BAD / MISS) appears.
#[derive(Clone, Copy, Debug, PartialEq, Eq, Structural)]
pub enum JudgeTextStyle {
    /// Fades in place.
    Fade,
    /// Rises while fading.
    Rise,
    /// Pops from small to large, then fades.
    Pop,
    /// Rises and pops.
    RisePop,
}

impl JudgeTextStyle {
    pub open spec fn spec_index(self) -> nat {
        match self {
            JudgeTextStyle::Fade => 0,
            JudgeTextStyle::Rise => 1,
            JudgeTextStyle::Pop => 2,
            JudgeTextStyle::RisePop => 3,
        }
    }

    /// All styles, in cycle order.
    pub fn all() -> (r: [JudgeTextStyle; 4])
        ensures
            forall|i: int| 0 <= i < 4 ==> (#[trigger] r@[i]).spec_index() == i,
    {
        [JudgeTextStyle::Fade, JudgeTextStyle::Rise, JudgeTextStyle::Pop, JudgeTextStyle::RisePop]
    }

    /// The next style.
    pub fn next(self) -> (r: JudgeTextStyle)
        ensures
            r.spec_index() == (self.spec_index() + 1) % 4,
    {
        match self {
            JudgeTextStyle::Fade => JudgeTextStyle::Rise,
            JudgeTextStyle::Rise => JudgeTextStyle::Pop,
            JudgeTextStyle::Pop => JudgeTextStyle::RisePop,
            JudgeTextStyle::RisePop => JudgeTextStyle::Fade,
        }
    }
}

impl Default for JudgeTextStyle {
    fn default() -> (r: JudgeTextStyle)
        ensures
            r == JudgeTextStyle::RisePop,
    {
        JudgeTextStyle::RisePop
    }
}

/// What the touch markers are drawn with.
#[derive(Clone, Copy, Debug, PartialEq, Eq, Structural)]
pub enum TouchMarkerStyle {
    Circle,
    HitFx,
    Avatar,
}

impl TouchMarkerStyle {
    pub open spec fn spec_index(self) -> nat {
        match self {
            TouchMarkerStyle::Circle => 0,
            TouchMarkerStyle::HitFx => 1,
            TouchMarkerStyle::Avatar => 2,
        }
    }

    /// All styles, in cycle order.
    pub fn all() -> (r: [TouchMarkerStyle; 3])
        ensures
            forall|i: int| 0 <= i < 3 ==> (#[trigger] r@[i]).spec_index() == i,
    {
        [TouchMarkerStyle::Circle, TouchMarkerStyle::HitFx, TouchMarkerStyle::Avatar]
    }

    /// The next style.
    pub fn next(self) -> (r: TouchMarkerStyle)
        ensures
            r.spec_index() == (self.spec_index() + 1) % 3,
    {
        match self {
            TouchMarkerStyle::Circle => TouchMarkerStyle::HitFx,
            TouchMarkerStyle::HitFx => TouchMarkerStyle::Avatar,
            TouchMarkerStyle::Avatar => TouchMarkerStyle::Circle,
        }
    }
}

impl Default for TouchMarkerStyle {
    fn default() -> (r: TouchMarkerStyle)
        ensures
            r == TouchMarkerStyle::Circle,
    {
        TouchMarkerStyle::Circle
    }
}

/// Color of the touch markers.
#[derive(Clone, Copy, Debug, PartialEq, Eq, Structural)]
pub enum TouchMarkerColor {
    White,
    Red,
    Green,
    Blue,
    Gold,
    Purple,
}

impl TouchMarkerColor {
    pub open spec fn spec_index(self) -> nat {
        match self {
            TouchMarkerColor::White => 0,
            TouchMarkerColor::Red => 1,
            TouchMarkerColor::Green => 2,
            TouchMarkerColor::Blue => 3,
            TouchMarkerColor::Gold => 4,
            TouchMarkerColor::Purple => 5,
        }
    }

    /// All colors, in cycle order.
    pub fn all() -> (r: [TouchMarkerColor; 6])
        ensures
            forall|i: int| 0 <= i < 6 ==> (#[trigger] r@[i]).spec_index() == i,
    {
        [TouchMarkerColor::White, TouchMarkerColor::Red, TouchMarkerColor::Green, TouchMarkerColor::Blue, TouchMarkerColor::Gold, TouchMarkerColor::Purple]
    }

    /// The next color.
    pub fn next(self) -> (r: TouchMarkerColor)
        ensures
            r.spec_index() == (self.spec_index() + 1) % 6,
    {
        match self {
            TouchMarkerColor::White => TouchMarkerColor::Red,
            TouchMarkerColor::Red => TouchMarkerColor::Green,
            TouchMarkerColor::Green => TouchMarkerColor::Blue,
            TouchMarkerColor::Blue => TouchMarkerColor::Gold,
            TouchMarkerColor::Gold => TouchMarkerColor::Purple,
            TouchMarkerColor::Purple => TouchMarkerColor::White,
        }
    }
}

impl Default for TouchMarkerColor {
    fn default() -> (r: TouchMarkerColor)
        ensures
            r == TouchMarkerColor::Red,
    {
        TouchMarkerColor::Red
    }
}

/// Where the live HUD sits on a 3×3 grid.
#[derive(Clone, Copy, Debug, PartialEq, Eq, Structural)]
pub enum HudCorner {
    TopLeft,
    TopCenter,
    TopRight,
    LeftCenter,
    Center,
    RightCenter,
    BottomLeft,
    BottomCenter,
    BottomRight,
}

impl HudCorner {
    pub open spec fn spec_index(self) -> nat {
        match self {
            HudCorner::TopLeft => 0,
            HudCorner::TopCenter => 1,
            HudCorner::TopRight => 2,
            HudCorner::LeftCenter => 3,
            HudCorner::Center => 4,
            HudCorner::RightCenter => 5,
            HudCorner::BottomLeft => 6,
            HudCorner::BottomCenter => 7,
            HudCorner::BottomRight => 8,
        }
    }

    /// All positions, in cycle order.
    pub fn all() -> (r: [HudCorner; 9])
        ensures
            forall|i: int| 0 <= i < 9 ==> (#[trigger] r@[i]).spec_index() == i,
    {
        [
            HudCorner::TopLeft,
            HudCorner::TopCenter,
            HudCorner::TopRight,
            HudCorner::LeftCenter,
            HudCorner::Center,
            HudCorner::RightCenter,
            HudCorner::BottomLeft,
            HudCorner::BottomCenter,
            HudCorner::BottomRight,
        ]
    }

    /// The next position.
    pub fn next(self) -> (r: HudCorner)
        ensures
            r.spec_index() == (self.spec_index() + 1) % 9,
    {
        match self {
            HudCorner::TopLeft => HudCorner::TopCenter,
            HudCorner::TopCenter => HudCorner::TopRight,
            HudCorner::TopRight => HudCorner::LeftCenter,
            HudCorner::LeftCenter => HudCorner::Center,
            HudCorner::Center => HudCorner::RightCenter,
            HudCorner::RightCenter => HudCorner::BottomLeft,
            HudCorner::BottomLeft => HudCorner::BottomCenter,
            HudCorner::BottomCenter => HudCorner::BottomRight,
            HudCorner::BottomRight => HudCorner::TopLeft,
        }
    }

    /// The anchor of the HUD block: horizontal and vertical, each -1, 0
    /// or 1 (left/bottom, center, right/top).
    pub fn anchor_steps(self) -> (r: (i8, i8))
        ensures
            r.0 == (self.spec_index() % 3) as int - 1,
            r.1 == 1 - (self.spec_index() / 3) as int,
    {
        match self {
            HudCorner::TopLeft => (-1, 1),
            HudCorner::TopCenter => (0, 1),
            HudCorner::TopRight => (1, 1),
            HudCorner::LeftCenter => (-1, 0),
            HudCorner::Center => (0, 0),
            HudCorner::RightCenter => (1, 0),
            HudCorner::BottomLeft => (-1, -1),
            HudCorner::BottomCenter => (0, -1),
            HudCorner::BottomRight => (1, -1),
        }
    }
}

impl Default for HudCorner {
    fn default() -> (r: HudCorner)
        ensures
            r == HudCorner::LeftCenter,
    {
        HudCorner::LeftCenter
    }
}

/// Each option cycle visits every option once and comes back: `next` is
/// one step along the cycle, so as many steps as there are options lead
/// back to the start and different options have different successors.
pub proof fn lemma_cycles_return(c: ChallengeColor, h: HealthBarColor, j: JudgeTextStyle, t: TouchMarkerStyle, m: TouchMarkerColor, k: HudCorner)
    ensures
        c.spec_index() < 6 && h.spec_index() < 6 && j.spec_index() < 4 && t.spec_index() < 3 && m.spec_index() < 6 && k.spec_index() < 9,
        forall|a: ChallengeColor, b: ChallengeColor| a.spec_index() == b.spec_index() ==> a == b,
        forall|a: HealthBarColor, b: HealthBarColor| a.spec_index() == b.spec_index() ==> a == b,
        forall|a: JudgeTextStyle, b: JudgeTextStyle| a.spec_index() == b.spec_index() ==> a == b,
        forall|a: TouchMarkerStyle, b: TouchMarkerStyle| a.spec_index() == b.spec_index() ==> a == b,
        forall|a: TouchMarkerColor, b: TouchMarkerColor| a.spec_index() == b.spec_index() ==> a == b,
        forall|a: HudCorner, b: HudCorner| a.spec_index() == b.spec_index() ==> a == b,
{
}

// ------------------------------------------------------------------ integer settings

/// Largest number of afterimages per note or judge line.
pub const AFTERIMAGE_COUNT_MAX: u32 = 255;
/// Longest custom combo text, in characters.
pub const COMBO_TEXT_MAX_CHARS: usize = 16;

/// An afterimage count brought into 1..=255.
pub fn afterimage_count(v: u32) -> (r: u32)
    ensures
        r == if v < 1 { 1 } else if v > AFTERIMAGE_COUNT_MAX { AFTERIMAGE_COUNT_MAX } else { v },
{
    if v < 1 {
        1
    } else if v > AFTERIMAGE_COUNT_MAX {
        AFTERIMAGE_COUNT_MAX
    } else {
        v
    }
}

/// The label under the combo counter: `AUTOPLAY` under autoplay, else the
/// custom text, or `COMBO` when it is empty.
pub fn combo_label<'a>(mods: Mods, combo_text: &'a str) -> (r: &'a str)
    ensures
        has_bits(mods.bits, 0x0001) ==> r@ == "AUTOPLAY"@,
        !has_bits(mods.bits, 0x0001) && combo_text@.len() == 0 ==> r@ == "COMBO"@,
        !has_bits(mods.bits, 0x0001) && combo_text@.len() > 0 ==> r@ == combo_text@,
{
    if mods.contains(Mods { bits: AUTOPLAY }) {
        "AUTOPLAY"
    } else if combo_text.is_empty() {
        "COMBO"
    } else {
        combo_text
    }
}

/// A custom combo text as entered: trimmed, then cut to at most
/// [`COMBO_TEXT_MAX_CHARS`] characters.
pub fn combo_text_input(text: &str) -> (r: String)
    ensures
        r@ == trimmed(text@).take(if trimmed(text@).len() < COMBO_TEXT_MAX_CHARS { trimmed(text@).len() as int } else { COMBO_TEXT_MAX_CHARS as int }),
{
    let t_text = trim(text);
    let t = t_text.as_str();
    let n = t.unicode_len();
    let k = if n < COMBO_TEXT_MAX_CHARS { n } else { COMBO_TEXT_MAX_CHARS };
    let mut out = String::new();
    let mut i: usize = 0;
    while i < k
        invariant
            i <= k,
            k <= n,
            n == t@.len(),
            out@ == t@.take(i as int),
        decreases k - i,
    {
        crate::text::push_char(&mut out, t.get_char(i));
        i = i + 1;
        assert(out@ =~= t@.take(i as int));
    }
    out
}

/// The multisampling setting after tapping it: 1 becomes 2, anything else 1.
pub fn toggle_sample_count(count: u32) -> (r: u32)
    ensures
        r == if count == 1 { 2u32 } else { 1u32 },
{
    if count == 1 { 2 } else { 1 }
}

pub open spec fn sample_rate_options() -> Seq<Option<u32>> {
    seq![None, Some(44100u32), Some(48000u32), Some(88200u32), Some(96000u32), Some(192000u32)]
}

/// Where `current` stands among [`sample_rate_options`]; a value that is
/// not among them counts as the first (automatic).
pub open spec fn sample_rate_position(current: Option<u32>) -> int {
    match current {
        Some(44100u32) => 1,
        Some(48000u32) => 2,
        Some(88200u32) => 3,
        Some(96000u32) => 4,
        Some(192000u32) => 5,
        _ => 0,
    }
}

/// The preferred sample rate after tapping the setting: the next of
/// automatic, 44100, 48000, 88200, 96000, 192000 (cyclically); an unknown
/// value counts as automatic.
pub fn next_sample_rate(current: Option<u32>) -> (r: Option<u32>)
    ensures
        r == sample_rate_options()[(sample_rate_position(current) + 1) % 6],
{
    match current {
        None => Some(44100),
        Some(44100) => Some(48000),
        Some(48000) => Some(88200),
        Some(88200) => Some(96000),
        Some(96000) => Some(192000),
        Some(192000) => None,
        Some(_) => Some(44100),
    }
}

/// The audio buffer size after tapping the setting: the next of 128, 256,
/// 512 (cyclically); unset counts as 256 and an unknown size as 256 too.
pub fn next_audio_buffer(current: Option<u32>) -> (r: Option<u32>)
    ensures
        r == Some(match current {
            Some(128u32) => 256u32,
            Some(512u32) => 128u32,
            _ => 512u32,
        }),
{
    let cur = match current {
        Some(v) => v,
        None => 256,
    };
    if cur == 128 {
        Some(256)
    } else if cur == 256 {
        Some(512)
    } else if cur == 512 {
        Some(128)
    } else {
        Some(512)
    }
}


// ------------------------------------------------------------------ text inputs

/// Highest challenge rank that can be entered.
pub const CHALLENGE_RANK_MAX: u32 = 999;

pub open spec fn is_digit(c: char) -> bool {
    '0' <= c <= '9'
}

/// The number written by the decimal digits `s`.
pub open spec fn digits_value(s: Seq<char>) -> int
    decreases s.len(),
{
    if s.len() == 0 {
        0
    } else {
        digits_value(s.drop_last()) * 10 + (s.last() as int - '0' as int)
    }
}

/// What `str::parse::<u32>` reads from `s` when the value is at most
/// [`CHALLENGE_RANK_MAX`]: an optional `+`, then one or more decimal
/// digits.
/// Whether every character of `d` is a decimal digit.
pub open spec fn all_digits(d: Seq<char>) -> bool {
    forall|i: int| 0 <= i < d.len() ==> is_digit(#[trigger] d[i])
}

pub open spec fn rank_digits(s: Seq<char>) -> Seq<char> {
    if s.len() > 0 && s[0] == '+' { s.drop_first() } else { s }
}

pub open spec fn spec_rank_input(s: Seq<char>) -> Option<u32> {
    let d = rank_digits(s);
    if d.len() > 0 && all_digits(d) && digits_value(d) <= CHALLENGE_RANK_MAX {
        Some(digits_value(d) as u32)
    } else {
        None
    }
}

proof fn lemma_digits_nonneg(s: Seq<char>)
    requires
        forall|i: int| 0 <= i < s.len() ==> is_digit(#[trigger] s[i]),
    ensures
        digits_value(s) >= 0,
    decreases s.len(),
{
    if s.len() > 0 {
        lemma_digits_nonneg(s.drop_last());
    }
}

proof fn lemma_digits_grow(s: Seq<char>, i: int)
    requires
        forall|k: int| 0 <= k < s.len() ==> is_digit(#[trigger] s[k]),
        0 <= i <= s.len(),
    ensures
        digits_value(s.take(i)) <= digits_value(s),
    decreases s.len() - i,
{
    if i < s.len() {
        lemma_digits_grow(s, i + 1);
        assert(s.take(i + 1).drop_last() =~= s.take(i));
        lemma_digits_nonneg(s.take(i));
    } else {
        assert(s.take(i) =~= s);
    }
}

/// The challenge rank typed in the settings (trimmed): `None` when it is
/// not a number from 0 to [`CHALLENGE_RANK_MAX`].
pub fn challenge_rank_input(text: &str) -> (r: Option<u32>)
    ensures
        r == spec_rank_input(trimmed(text@)),
{
    let t_text = trim(text);
    let t = t_text.as_str();
    let n = t.unicode_len();
    let start: usize = if n > 0 && t.get_char(0) == '+' { 1 } else { 0 };
    let ghost d = rank_digits(t@);
    assert(d =~= t@.subrange(start as int, n as int));
    if start == n {
        return None;
    }
    let mut value: u32 = 0;
    let mut i: usize = start;
    while i < n
        invariant
            start <= i <= n,
            n == t@.len(),
            d == t@.subrange(start as int, n as int),
            d == rank_digits(t@),
            t@ == trimmed(text@),
            forall|k: int| 0 <= k < i - start ==> is_digit(#[trigger] d[k]),
            value as int == digits_value(d.take(i - start)),
            value <= CHALLENGE_RANK_MAX,
        decreases n - i,
    {
        let c = t.get_char(i);
        if !('0' <= c && c <= '9') {
            proof {
                assert(d[i - start] == c);
                assert(!is_digit(d[i - start]));
                assert(0 <= i - start < d.len());
                assert(!all_digits(d));
                assert(spec_rank_input(t@) is None);
            }
            return None;
        }
        let digit = (c as u32) - ('0' as u32);
        assert(d.take(i + 1 - start).drop_last() =~= d.take(i - start));
        assert(d[i - start] == c);
        let next = value * 10 + digit;
        if next > CHALLENGE_RANK_MAX {
            proof {
                assert forall|k: int| 0 <= k < i + 1 - start implies is_digit(#[trigger] d[k]) by {}
                if all_digits(d) {
                    lemma_digits_grow(d, i + 1 - start);
                    assert(digits_value(d) > CHALLENGE_RANK_MAX);
                }
                assert(spec_rank_input(t@) is None);
            }
            return None;
        }
        value = next;
        i = i + 1;
    }
    assert(d.take(n - start) =~= d);
    Some(value)
}

/// What the score-upload switch does when tapped.
#[derive(Clone, Copy, Debug, PartialEq, Eq, Structural)]
pub enum UploadTap {
    /// Uploading was on: turn it off.
    TurnOff,
    /// The terms were accepted before: turn it on.
    TurnOn,
    /// First time: show the terms; uploading goes on once accepted.
    AskConsent,
}

/// What tapping the score-upload switch does.
pub fn upload_tap(upload_record: bool, upload_agreed: bool) -> (r: UploadTap)
    ensures
        r == (if upload_record { UploadTap::TurnOff } else if upload_agreed { UploadTap::TurnOn } else { UploadTap::AskConsent }),
{
    if upload_record {
        UploadTap::TurnOff
    } else if upload_agreed {
        UploadTap::TurnOn
    } else {
        UploadTap::AskConsent
    }
}

} // verus!

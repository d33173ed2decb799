//! The duel server's room: two seats, a best-of-three match whose first two
//! charts are chosen by ban/pick, and interference paid for with energy.
//!
//! The room is a state machine.  Each handler takes the current state and
//! one event (a player's message, a connection closing) and gives the next
//! state together with the messages to deliver, in order.  Delivering them,
//! reading the clock and talking to sockets is left to the caller.
//!
//! Energy is kept in thousandths of an energy unit.

use vstd::prelude::*;
use std::collections::{HashSet, VecDeque};
use crate::proto::{Accuracy, BpAction, Interference, NextStep, PlayerInfo, RoundScore};
use crate::text::{decimal, push_char, push_decimal, push_str, to_string};

verus! {

broadcast use {vstd::seq_lib::group_seq_properties, vstd::std_specs::hash::group_hash_axioms};

/// Number of seats in a room.
pub const SLOTS: usize = 2;
/// Number of recent events the room keeps for display.
pub const EVENT_LINES: usize = 200;

/// Server settings.
#[derive(Clone, Copy, Debug, PartialEq, Eq, Structural)]
pub struct ServerConfig {
    /// For how long after a round starts no interference may be cast.
    pub cast_lock_ms: u64,
    /// Largest energy a player may hold, in whole units.
    pub energy_max: u32,
    /// Cooldown of each interference kind.
    pub cooldown_ms: u64,
    /// Delay between the announcement of a round and its start.
    pub start_delay_ms: u64,
}

impl ServerConfig {
    /// The settings the launcher runs with.
    pub fn standard() -> (r: ServerConfig)
        ensures
            r == (ServerConfig { cast_lock_ms: 10000, energy_max: 100, cooldown_ms: 8000, start_delay_ms: 3000 }),
    {
        ServerConfig { cast_lock_ms: 10000, energy_max: 100, cooldown_ms: 8000, start_delay_ms: 3000 }
    }

    /// Whether `now` leaves room for the lock and cooldown periods to be
    /// added to it without overflow.
    pub fn accepts_time(&self, now: u64) -> (r: bool)
        ensures
            r == time_ok(*self, now),
    {
        now <= u64::MAX - self.cast_lock_ms && now <= u64::MAX - self.cooldown_ms
    }
}

impl Default for ServerConfig {
    fn default() -> (r: ServerConfig)
        ensures
            r == (ServerConfig { cast_lock_ms: 10000, energy_max: 100, cooldown_ms: 8000, start_delay_ms: 3000 }),
    {
        ServerConfig::standard()
    }
}

pub open spec fn time_ok(cfg: ServerConfig, now: u64) -> bool {
    &&& now + cfg.cast_lock_ms <= u64::MAX
    &&& now + cfg.cooldown_ms <= u64::MAX
}

/// Where the match stands.
#[derive(Clone, Copy, Debug, PartialEq, Eq, Structural)]
pub enum Phase {
    /// Waiting for both seats to be taken.
    Lobby,
    /// Ban/pick: `actor` is to perform `action`; `decider` marks the pick
    /// of the third, deciding round.
    Bp { actor: u8, action: BpAction, decider: bool },
    /// A round is being played; `started` is when it was announced.
    Round { index: u8, started: u64 },
    /// The match is over.
    Done,
}

/// Why a cast was refused.
#[derive(Clone, Copy, Debug, PartialEq, Eq, Structural)]
pub enum DenyReason {
    /// No round is being played.
    NotInRound,
    /// The round started too recently; casting opens in `left_ms`.
    Locked { left_ms: u64 },
    /// Not enough energy: `need` whole units, `have_milli` thousandths held.
    LowEnergy { need: u32, have_milli: u64 },
    /// This kind was cast too recently; it is available again in `left_ms`.
    Cooldown { left_ms: u64 },
}

/// A message from the server to a client.
#[derive(Clone, Debug)]
pub enum ServerMsg {
    Welcome { you: u8, room: String, players: Vec<PlayerInfo> },
    PeerJoined { player: u8, name: String },
    PeerLeft { player: u8, name: String },
    /// The charts both players have.
    Pool { charts: Vec<u32> },
    /// Whose turn it is to ban or pick, among the charts still selectable.
    BpTurn { actor: u8, action: BpAction, pool: Vec<u32>, decider: bool },
    /// Ban/pick done: round one plays `chart_a`, round two `chart_b`.
    BpDone { chart_a: u32, chart_b: u32 },
    RoundStart { index: u8, chart: u32, starts_in_ms: u64 },
    /// The other player's progress.
    PeerProgress { player: u8, score: u32, accuracy: Accuracy, combo: u32, energy_milli: u64 },
    CastOk { kind: Interference, energy_milli: u64 },
    CastDenied { kind: Interference, reason: DenyReason },
    /// Sent to the player being interfered with only.
    Attacked { kind: Interference, from: u8, duration_ms: u64 },
    RoundEnd { index: u8, winner: Option<u8>, scores: Vec<RoundScore>, next: NextStep },
    MatchEnd { winner: u8, scores: Vec<RoundScore>, reason: String },
    /// Information (who banned what), not an error.
    Notice { message: String },
    Error { message: String },
    Pong { at: u64 },
}

/// The content of a [`ServerMsg`].
pub ghost enum MsgView {
    Welcome { you: u8, room: Seq<char>, players: Seq<Seq<char>> },
    PeerJoined { player: u8, name: Seq<char> },
    PeerLeft { player: u8, name: Seq<char> },
    Pool { charts: Seq<u32> },
    BpTurn { actor: u8, action: BpAction, pool: Seq<u32>, decider: bool },
    BpDone { chart_a: u32, chart_b: u32 },
    RoundStart { index: u8, chart: u32, starts_in_ms: u64 },
    PeerProgress { player: u8, score: u32, accuracy: Accuracy, combo: u32, energy_milli: u64 },
    CastOk { kind: Interference, energy_milli: u64 },
    CastDenied { kind: Interference, reason: DenyReason },
    Attacked { kind: Interference, from: u8, duration_ms: u64 },
    RoundEnd { index: u8, winner: Option<u8>, scores: Seq<RoundScore>, next: NextStep },
    MatchEnd { winner: u8, scores: Seq<RoundScore>, reason: Seq<char> },
    Notice { message: Seq<char> },
    Error { message: Seq<char> },
    Pong { at: u64 },
}

pub open spec fn names_view(players: Seq<PlayerInfo>) -> Seq<Seq<char>> {
    players.map_values(|p: PlayerInfo| p.name@)
}

impl View for ServerMsg {
    type V = MsgView;

    open spec fn view(&self) -> MsgView {
        match *self {
            ServerMsg::Welcome { you, room, players } => MsgView::Welcome { you, room: room@, players: names_view(players@) },
            ServerMsg::PeerJoined { player, name } => MsgView::PeerJoined { player, name: name@ },
            ServerMsg::PeerLeft { player, name } => MsgView::PeerLeft { player, name: name@ },
            ServerMsg::Pool { charts } => MsgView::Pool { charts: charts@ },
            ServerMsg::BpTurn { actor, action, pool, decider } => MsgView::BpTurn { actor, action, pool: pool@, decider },
            ServerMsg::BpDone { chart_a, chart_b } => MsgView::BpDone { chart_a, chart_b },
            ServerMsg::RoundStart { index, chart, starts_in_ms } => MsgView::RoundStart { index, chart, starts_in_ms },
            ServerMsg::PeerProgress { player, score, accuracy, combo, energy_milli } => MsgView::PeerProgress { player, score, accuracy, combo, energy_milli },
            ServerMsg::CastOk { kind, energy_milli } => MsgView::CastOk { kind, energy_milli },
            ServerMsg::CastDenied { kind, reason } => MsgView::CastDenied { kind, reason },
            ServerMsg::Attacked { kind, from, duration_ms } => MsgView::Attacked { kind, from, duration_ms },
            ServerMsg::RoundEnd { index, winner, scores, next } => MsgView::RoundEnd { index, winner, scores: scores@, next },
            ServerMsg::MatchEnd { winner, scores, reason } => MsgView::MatchEnd { winner, scores: scores@, reason: reason@ },
            ServerMsg::Notice { message } => MsgView::Notice { message: message@ },
            ServerMsg::Error { message } => MsgView::Error { message: message@ },
            ServerMsg::Pong { at } => MsgView::Pong { at },
        }
    }
}

/// A message together with the seat it is for.
#[derive(Clone, Debug)]
pub struct Outgoing {
    pub to: u8,
    pub msg: ServerMsg,
}

pub ghost struct OutView {
    pub to: u8,
    pub msg: MsgView,
}

pub open spec fn outs_view(s: Seq<Outgoing>) -> Seq<OutView> {
    s.map_values(|o: Outgoing| OutView { to: o.to, msg: o.msg@ })
}

/// A seated player.
pub struct Player {
    name: String,
    charts: Vec<u32>,
    /// Energy held, in thousandths.
    energy: u64,
    /// When each interference kind was last cast.
    cooldown: [u64; 4],
    /// Whether the player handed in the result of the current round.
    finished: bool,
    score: u32,
    accuracy: Accuracy,
    max_combo: u32,
}

#[verifier::ext_equal]
pub ghost struct PlayerView {
    pub name: Seq<char>,
    pub charts: Seq<u32>,
    pub energy: u64,
    pub cooldown: Seq<u64>,
    pub finished: bool,
    pub score: u32,
    pub accuracy: Accuracy,
    pub max_combo: u32,
}

impl View for Player {
    type V = PlayerView;

    closed spec fn view(&self) -> PlayerView {
        PlayerView {
            name: self.name@,
            charts: self.charts@,
            energy: self.energy,
            cooldown: self.cooldown@,
            finished: self.finished,
            score: self.score,
            accuracy: self.accuracy,
            max_combo: self.max_combo,
        }
    }
}

pub open spec fn seat_view(p: Option<Player>) -> Option<PlayerView> {
    match p {
        Some(p) => Some(p@),
        None => None,
    }
}

/// The room.
pub struct Room {
    cfg: ServerConfig,
    code: Option<String>,
    players: Vec<Option<Player>>,
    pool: Vec<u32>,
    banned: Vec<u32>,
    picks: Vec<u32>,
    decider: Option<u32>,
    played: Vec<u32>,
    phase: Phase,
    round: u8,
    outcomes: Vec<RoundScore>,
    wins: [u8; 2],
    events: VecDeque<String>,
    logged: u64,
}

#[verifier::ext_equal]
pub ghost struct RoomView {
    pub cfg: ServerConfig,
    pub code: Option<Seq<char>>,
    pub players: Seq<Option<PlayerView>>,
    pub pool: Seq<u32>,
    pub banned: Seq<u32>,
    pub picks: Seq<u32>,
    pub decider: Option<u32>,
    pub played: Seq<u32>,
    pub phase: Phase,
    pub round: u8,
    pub outcomes: Seq<RoundScore>,
    pub wins: Seq<u8>,
    pub events: Seq<Seq<char>>,
    /// How many events the room has recorded since it was made (stopping
    /// at `u64::MAX`).
    pub logged: u64,
}

pub open spec fn opt_string_view(s: Option<String>) -> Option<Seq<char>> {
    match s {
        Some(s) => Some(s@),
        None => None,
    }
}

impl View for Room {
    type V = RoomView;

    closed spec fn view(&self) -> RoomView {
        RoomView {
            cfg: self.cfg,
            code: opt_string_view(self.code),
            players: self.players@.map_values(|p: Option<Player>| seat_view(p)),
            pool: self.pool@,
            banned: self.banned@,
            picks: self.picks@,
            decider: self.decider,
            played: self.played@,
            phase: self.phase,
            round: self.round,
            outcomes: self.outcomes@,
            wins: self.wins@,
            events: self.events@.map_values(|e: String| e@),
            logged: self.logged,
        }
    }
}

// ------------------------------------------------------------------ the model

/// Shape of a room state that every handler keeps.
pub open spec fn wf(v: RoomView) -> bool {
    &&& v.players.len() == 2
    &&& v.wins.len() == 2
    &&& v.events.len() <= EVENT_LINES
    &&& v.events.len() == if v.logged < EVENT_LINES { v.logged as nat } else { EVENT_LINES as nat }
    &&& v.round <= 2
    &&& forall|i: int| 0 <= i < 2 && (#[trigger] v.players[i]) is Some ==> {
        &&& v.players[i]->0.cooldown.len() == 4
        &&& v.players[i]->0.energy <= v.cfg.energy_max * 1000
        &&& forall|k: int| 0 <= k < 4 ==> v.players[i]->0.cooldown[k] + v.cfg.cooldown_ms <= u64::MAX
    }
    &&& (v.phase matches Phase::Round { started, .. } ==> started + v.cfg.cast_lock_ms <= u64::MAX)
}

pub open spec fn to_player(v: RoomView, p: u8, m: MsgView) -> Seq<OutView> {
    if v.players[p as int] is Some {
        seq![OutView { to: p, msg: m }]
    } else {
        seq![]
    }
}

/// A message for every seated player, in seat order.
pub open spec fn broadcast(v: RoomView, m: MsgView) -> Seq<OutView> {
    to_player(v, 0, m) + to_player(v, 1, m)
}

/// A message for every seated player other than `from`, in seat order.
pub open spec fn to_other(v: RoomView, from: u8, m: MsgView) -> Seq<OutView> {
    (if from != 0 { to_player(v, 0, m) } else { seq![] }) + (if from != 1 { to_player(v, 1, m) } else { seq![] })
}

/// The last `n` items of `s` (all of them when there are fewer).
pub open spec fn keep_last<A>(s: Seq<A>, n: nat) -> Seq<A> {
    if s.len() > n {
        s.subrange(s.len() - n, s.len() as int)
    } else {
        s
    }
}

/// Records a line of the event stream, forgetting the oldest beyond
/// [`EVENT_LINES`].
pub open spec fn log(v: RoomView, text: Seq<char>) -> RoomView {
    RoomView {
        events: keep_last(v.events.push(text), EVENT_LINES as nat),
        logged: if v.logged == u64::MAX { v.logged } else { (v.logged + 1) as u64 },
        ..v
    }
}

pub open spec fn action_name(a: BpAction) -> Seq<char> {
    match a {
        BpAction::Ban => "禁用"@,
        BpAction::Pick => "选曲"@,
    }
}

pub open spec fn kind_name(k: Interference) -> Seq<char> {
    match k {
        Interference::Fog => "迷雾"@,
        Interference::Shake => "抖线"@,
        Interference::Noise => "噪点"@,
        Interference::Dim => "压暗"@,
    }
}

pub open spec fn seat_text(slot: u8) -> Seq<char> {
    "玩家"@ + decimal(slot as nat + 1)
}

pub open spec fn join_text(slot: u8, name: Seq<char>, n: nat) -> Seq<char> {
    seat_text(slot) + "（"@ + name + "）进房，带 "@ + decimal(n) + " 张谱面"@
}

pub open spec fn left_text(slot: u8, name: Seq<char>) -> Seq<char> {
    seat_text(slot) + "（"@ + name + "）离开了"@
}

pub open spec fn bp_text(player: u8, a: BpAction, chart: u32) -> Seq<char> {
    seat_text(player) + " "@ + action_name(a) + "了谱面 "@ + decimal(chart as nat)
}

pub open spec fn round_start_text(index: u8, chart: u32) -> Seq<char> {
    "第 "@ + decimal(index as nat + 1) + " 局开始：谱面 "@ + decimal(chart as nat)
}

pub open spec fn round_end_text(index: u8, winner: Option<u8>) -> Seq<char> {
    match winner {
        Some(w) => "第 "@ + decimal(index as nat + 1) + " 局结束："@ + seat_text(w) + " 胜"@,
        None => "第 "@ + decimal(index as nat + 1) + " 局结束：平局"@,
    }
}

pub open spec fn cast_text(player: u8, k: Interference) -> Seq<char> {
    seat_text(player) + " 对玩家"@ + decimal((2 - player) as nat) + " 使用了"@ + kind_name(k) + "（消耗 "@
        + decimal(k.spec_cost() as nat) + " 能量）"@
}

pub open spec fn score_text(wins: Seq<u8>) -> Seq<char> {
    decimal(wins[0] as nat) + ":"@ + decimal(wins[1] as nat)
}

/// A sequence whose items strictly increase.
pub open spec fn strictly_sorted(s: Seq<u32>) -> bool {
    forall|i: int, j: int| 0 <= i < j < s.len() ==> s[i] < s[j]
}

/// The charts both players own, in increasing order, each once.
pub open spec fn common_charts(a: Seq<u32>, b: Seq<u32>) -> Seq<u32> {
    choose|s: Seq<u32>| strictly_sorted(s) && forall|x: u32| s.contains(x) <==> (a.contains(x) && b.contains(x))
}

pub open spec fn charts_of(v: RoomView, i: int) -> Seq<u32> {
    match v.players[i] {
        Some(p) => p.charts,
        None => seq![],
    }
}

/// Whether `c` may still be banned or picked.
pub open spec fn is_selectable(v: RoomView, c: u32) -> bool {
    !v.banned.contains(c) && !v.picks.contains(c) && v.decider != Some(c)
}

/// The charts of the pool that may still be banned or picked, in pool order.
pub open spec fn selectable(v: RoomView) -> Seq<u32> {
    v.pool.filter(|c: u32| is_selectable(v, c))
}

pub open spec fn announce(v: RoomView) -> Seq<OutView> {
    match v.phase {
        Phase::Bp { actor, action, decider } => broadcast(v, MsgView::BpTurn { actor, action, pool: selectable(v), decider }),
        _ => seq![],
    }
}

/// Both seats taken: the pool becomes the common charts and player 0 bans
/// first.
pub open spec fn spec_begin_bp(v: RoomView) -> (RoomView, Seq<OutView>) {
    let pool = common_charts(charts_of(v, 0), charts_of(v, 1));
    let v1 = RoomView { pool, phase: Phase::Bp { actor: 0, action: BpAction::Ban, decider: false }, ..v };
    (v1, broadcast(v, MsgView::Pool { charts: pool }) + announce(v1))
}

pub open spec fn fresh_seat(p: Option<PlayerView>) -> Option<PlayerView> {
    match p {
        Some(p) => Some(PlayerView { finished: false, energy: 0, ..p }),
        None => None,
    }
}

/// The round index to play next and its chart: round one plays the first
/// pick, round two the second, round three the deciding pick.
pub open spec fn round_chart(v: RoomView) -> (u8, Option<u32>) {
    if v.round == 0 {
        (0, if v.picks.len() > 0 { Some(v.picks[0]) } else { None })
    } else if v.round == 1 {
        (1, if v.picks.len() > 1 { Some(v.picks[1]) } else { None })
    } else {
        (2, v.decider)
    }
}

pub open spec fn spec_start_round(v: RoomView, now: u64) -> (RoomView, Seq<OutView>) {
    let (index, chart) = round_chart(v);
    match chart {
        None => (
            RoomView { phase: Phase::Done, ..v },
            broadcast(v, MsgView::Error { message: "没有可用的谱面，比赛中断"@ }),
        ),
        Some(c) => {
            let v1 = RoomView {
                played: v.played.push(c),
                players: v.players.map_values(|p: Option<PlayerView>| fresh_seat(p)),
                phase: Phase::Round { index, started: now },
                ..v
            };
            let v2 = log(v1, round_start_text(index, c));
            (v2, broadcast(v2, MsgView::RoundStart { index, chart: c, starts_in_ms: v.cfg.start_delay_ms }))
        },
    }
}

pub open spec fn score_of(v: RoomView, i: u8) -> Seq<RoundScore> {
    match v.players[i as int] {
        Some(p) => seq![RoundScore { player: i, score: p.score, accuracy: p.accuracy, max_combo: p.max_combo }],
        None => seq![],
    }
}

/// The results of the round, seat by seat.
pub open spec fn round_scores(v: RoomView) -> Seq<RoundScore> {
    score_of(v, 0) + score_of(v, 1)
}

/// The higher score wins; equal scores are decided by accuracy; a round
/// with equal scores and accuracies, or with an empty seat, has no winner.
pub open spec fn round_winner(v: RoomView) -> Option<u8> {
    match (v.players[0], v.players[1]) {
        (Some(a), Some(b)) => {
            if a.score > b.score || (a.score == b.score && a.accuracy.ten_thousandths > b.accuracy.ten_thousandths) {
                Some(0u8)
            } else if a.score < b.score || (a.score == b.score && a.accuracy.ten_thousandths < b.accuracy.ten_thousandths) {
                Some(1u8)
            } else {
                None
            }
        },
        _ => None,
    }
}

pub open spec fn add_win(wins: Seq<u8>, winner: Option<u8>) -> Seq<u8> {
    match winner {
        Some(w) => wins.update(w as int, (wins[w as int] + 1) as u8),
        None => wins,
    }
}

/// What follows round `index` given the wins after it: two wins, or the
/// third round played, end the match; after round one comes round two;
/// at one win each the loser of round two (on a draw the player with
/// fewer wins, player 0 when even) picks the deciding chart.
pub open spec fn next_step(index: u8, winner: Option<u8>, wins: Seq<u8>) -> NextStep {
    if wins[0] >= 2 || wins[1] >= 2 || index >= 2 {
        NextStep::End
    } else if index == 0 {
        NextStep::Round { index: 1 }
    } else {
        NextStep::Bp {
            actor: match winner {
                Some(w) => (1 - w) as u8,
                None => if wins[0] <= wins[1] { 0u8 } else { 1u8 },
            },
        }
    }
}

/// The match winner once it is over: the player with more wins, player 0
/// on equal wins.
pub open spec fn match_winner(wins: Seq<u8>) -> u8 {
    if wins[0] >= wins[1] { 0 } else { 1 }
}

pub open spec fn spec_finish_round(v: RoomView, now: u64) -> (RoomView, Seq<OutView>) {
    let index = v.round;
    let scores = round_scores(v);
    let winner = round_winner(v);
    let wins = add_win(v.wins, winner);
    let next = next_step(index, winner, wins);
    let v1 = log(RoomView { wins, outcomes: v.outcomes + scores, ..v }, round_end_text(index, winner));
    let out1 = broadcast(v1, MsgView::RoundEnd { index, winner, scores, next });
    match next {
        NextStep::Round { index: i } => {
            let (v2, out2) = spec_start_round(RoomView { round: i, ..v1 }, now);
            (v2, out1 + out2)
        },
        NextStep::Bp { actor } => {
            let v2 = RoomView { round: 2, phase: Phase::Bp { actor, action: BpAction::Pick, decider: true }, ..v1 };
            (v2, out1 + announce(v2))
        },
        NextStep::End => {
            let v2 = RoomView { phase: Phase::Done, ..v1 };
            (v2, out1 + broadcast(v2, MsgView::MatchEnd { winner: match_winner(wins), scores: v1.outcomes, reason: score_text(wins) }))
        },
    }
}

/// The next ban/pick turn of the first two picks, from how many charts
/// have been picked and banned: ban 0, ban 1, pick 0, pick 1; `None` once
/// both picks are made.
pub open spec fn next_bp_turn(picks: nat, bans: nat) -> Option<Phase> {
    if picks == 0 && bans == 1 {
        Some(Phase::Bp { actor: 1, action: BpAction::Ban, decider: false })
    } else if picks == 0 && bans == 2 {
        Some(Phase::Bp { actor: 0, action: BpAction::Pick, decider: false })
    } else if picks == 1 {
        Some(Phase::Bp { actor: 1, action: BpAction::Pick, decider: false })
    } else if picks == 2 {
        None
    } else {
        Some(Phase::Bp { actor: 1, action: BpAction::Ban, decider: false })
    }
}

pub open spec fn spec_on_bp(v: RoomView, player: u8, action: BpAction, chart: u32, is_ban_msg: bool, now: u64) -> (RoomView, Seq<OutView>) {
    match v.phase {
        Phase::Bp { actor, action: want, decider } => {
            if actor != player || (want == BpAction::Ban) != is_ban_msg || want != action {
                (v, to_player(v, player, MsgView::Error { message: "还没轮到你"@ + action_name(want) }))
            } else if !selectable(v).contains(chart) {
                (v, to_player(v, player, MsgView::Error { message: "这张谱面不在可选范围里"@ }))
            } else {
                let text = bp_text(player, want, chart);
                let v0 = log(v, text);
                let v1 = if want == BpAction::Ban {
                    RoomView { banned: v0.banned.push(chart), ..v0 }
                } else if decider {
                    RoomView { decider: Some(chart), ..v0 }
                } else {
                    RoomView { picks: v0.picks.push(chart), ..v0 }
                };
                let out1 = broadcast(v1, MsgView::Notice { message: text });
                if decider {
                    let (v2, out2) = spec_start_round(v1, now);
                    (v2, out1 + out2)
                } else {
                    match next_bp_turn(v1.picks.len(), v1.banned.len()) {
                        Some(phase) => {
                            let v2 = RoomView { phase, ..v1 };
                            (v2, out1 + announce(v2))
                        },
                        None => {
                            let out2 = broadcast(v1, MsgView::BpDone { chart_a: v1.picks[0], chart_b: v1.picks[1] });
                            let (v3, out3) = spec_start_round(RoomView { round: 0, ..v1 }, now);
                            (v3, out1 + out2 + out3)
                        },
                    }
                }
            }
        },
        _ => (v, to_player(v, player, MsgView::Error { message: "现在不是 BP 阶段"@ })),
    }
}

pub open spec fn spec_on_progress(v: RoomView, player: u8, score: u32, accuracy: Accuracy, combo: u32, energy_milli: u64) -> (RoomView, Seq<OutView>) {
    match v.players[player as int] {
        None => (v, seq![]),
        Some(p) => {
            let cap = v.cfg.energy_max * 1000;
            let energy = if energy_milli > cap { cap as u64 } else { energy_milli };
            let v1 = RoomView { players: v.players.update(player as int, Some(PlayerView { energy, score, accuracy, ..p })), ..v };
            (v1, to_other(v1, player, MsgView::PeerProgress { player, score, accuracy, combo, energy_milli: energy }))
        },
    }
}

pub open spec fn spec_on_cast(v: RoomView, player: u8, kind: Interference, now: u64) -> (RoomView, Seq<OutView>) {
    match v.phase {
        Phase::Round { started, .. } => match v.players[player as int] {
            None => (v, seq![]),
            Some(p) => {
                let cost = kind.spec_cost() * 1000;
                let last = p.cooldown[kind.spec_index() as int];
                if now < started + v.cfg.cast_lock_ms {
                    (v, seq![OutView { to: player, msg: MsgView::CastDenied { kind, reason: DenyReason::Locked { left_ms: (started + v.cfg.cast_lock_ms - now) as u64 } } }])
                } else if p.energy < cost {
                    (v, seq![OutView { to: player, msg: MsgView::CastDenied { kind, reason: DenyReason::LowEnergy { need: kind.spec_cost(), have_milli: p.energy } } }])
                } else if now < last + v.cfg.cooldown_ms {
                    (v, seq![OutView { to: player, msg: MsgView::CastDenied { kind, reason: DenyReason::Cooldown { left_ms: (last + v.cfg.cooldown_ms - now) as u64 } } }])
                } else {
                    let energy = (p.energy - cost) as u64;
                    let p1 = PlayerView { energy, cooldown: p.cooldown.update(kind.spec_index() as int, now), ..p };
                    let v1 = RoomView { players: v.players.update(player as int, Some(p1)), ..v };
                    let v2 = log(v1, cast_text(player, kind));
                    (
                        v2,
                        seq![OutView { to: player, msg: MsgView::CastOk { kind, energy_milli: energy } }]
                            + to_other(v2, player, MsgView::Attacked { kind, from: player, duration_ms: kind.spec_duration_ms() }),
                    )
                }
            },
        },
        _ => (v, to_player(v, player, MsgView::CastDenied { kind, reason: DenyReason::NotInRound })),
    }
}

pub open spec fn all_finished(v: RoomView) -> bool {
    forall|i: int| 0 <= i < 2 && (#[trigger] v.players[i]) is Some ==> v.players[i]->0.finished
}

pub open spec fn spec_on_finish(v: RoomView, player: u8, score: u32, accuracy: Accuracy, max_combo: u32, now: u64) -> (RoomView, Seq<OutView>) {
    let v1 = match v.players[player as int] {
        Some(p) => RoomView { players: v.players.update(player as int, Some(PlayerView { finished: true, score, accuracy, max_combo, ..p })), ..v },
        None => v,
    };
    if all_finished(v1) {
        spec_finish_round(v1, now)
    } else {
        (v1, seq![])
    }
}

/// The room as a fresh one: no code, pool, picks, results; back to the lobby.
pub open spec fn spec_reset(v: RoomView) -> RoomView {
    RoomView {
        code: None,
        pool: seq![],
        banned: seq![],
        picks: seq![],
        decider: None,
        played: seq![],
        outcomes: seq![],
        wins: seq![0u8, 0u8],
        round: 0,
        phase: Phase::Lobby,
        ..v
    }
}

pub open spec fn spec_on_disconnect(v: RoomView, player: u8) -> (RoomView, Seq<OutView>) {
    let name = match v.players[player as int] {
        Some(p) => p.name,
        None => seq![],
    };
    let v1 = log(RoomView { players: v.players.update(player as int, None), ..v }, left_text(player, name));
    let (v2, out) = match v.phase {
        Phase::Lobby => (v1, broadcast(v1, MsgView::PeerLeft { player, name })),
        Phase::Done => (v1, seq![]),
        _ => {
            let v2 = RoomView { phase: Phase::Done, ..v1 };
            (v2, broadcast(v2, MsgView::MatchEnd { winner: if player == 0 { 1u8 } else { 0u8 }, scores: v.outcomes, reason: name + " 掉线了"@ }))
        },
    };
    if v2.players[0] is None && v2.players[1] is None {
        (spec_reset(v2), out)
    } else {
        (v2, out)
    }
}

pub open spec fn first_free(v: RoomView) -> Option<u8> {
    if v.players[0] is None {
        Some(0u8)
    } else if v.players[1] is None {
        Some(1u8)
    } else {
        None
    }
}

pub open spec fn names_of(v: RoomView) -> Seq<Seq<char>> {
    (if v.players[0] is Some { seq![v.players[0]->0.name] } else { seq![] })
        + (if v.players[1] is Some { seq![v.players[1]->0.name] } else { seq![] })
}

pub open spec fn new_seat(name: Seq<char>, charts: Seq<u32>) -> PlayerView {
    PlayerView {
        name,
        charts,
        energy: 0,
        cooldown: seq![0u64, 0u64, 0u64, 0u64],
        finished: false,
        score: 0,
        accuracy: Accuracy { bits: 0, ten_thousandths: 0 },
        max_combo: 0,
    }
}

/// Someone says hello with a room code: the first code sets the room's
/// code and later ones must equal it; the first free seat is taken, the
/// newcomer is welcomed, the other player told, and once both seats are
/// taken ban/pick begins.  A refusal is the text sent to the connection.
pub open spec fn spec_join(v: RoomView, code: Seq<char>, name: Seq<char>, charts: Seq<u32>) -> (RoomView, Result<u8, Seq<char>>, Seq<OutView>) {
    if v.code is Some && v.code->0 != code {
        (v, Err("房间码不对（现在是 "@ + v.code->0 + "）"@), seq![])
    } else {
        let v0 = RoomView { code: Some(code), ..v };
        match first_free(v0) {
            None => (v0, Err("房间满了（v1 一台服务器同时只开一桌）"@), seq![]),
            Some(slot) => {
                let v1 = log(RoomView { players: v0.players.update(slot as int, Some(new_seat(name, charts))), ..v0 }, join_text(slot, name, charts.len()));
                let out1 = seq![OutView { to: slot, msg: MsgView::Welcome { you: slot, room: code, players: names_of(v1) } }]
                    + to_other(v1, slot, MsgView::PeerJoined { player: slot, name });
                if v1.players[0] is Some && v1.players[1] is Some {
                    let (v2, out2) = spec_begin_bp(v1);
                    (v2, Ok(slot), out1 + out2)
                } else {
                    (v1, Ok(slot), out1)
                }
            },
        }
    }
}

// ------------------------------------------------------------------ helpers

/// Two strictly increasing sequences with the same items are equal.
pub proof fn lemma_sorted_unique(s: Seq<u32>, t: Seq<u32>)
    requires
        strictly_sorted(s),
        strictly_sorted(t),
        forall|x: u32| s.contains(x) <==> t.contains(x),
    ensures
        s == t,
    decreases s.len(),
{
    if s.len() == 0 {
        if t.len() > 0 {
            assert(t.contains(t[0]));
        }
        assert(s =~= t);
    } else if t.len() == 0 {
        assert(s.contains(s[0]));
    } else {
        assert(s.contains(s[0]));
        assert(t.contains(t[0]));
        let j = choose|j: int| #![auto] 0 <= j < t.len() && t[j] == s[0];
        let k = choose|k: int| #![auto] 0 <= k < s.len() && s[k] == t[0];
        if j > 0 {
            assert(t[0] < t[j]);
        }
        if k > 0 {
            assert(s[0] < s[k]);
        }
        assert(s[0] == t[0]);
        let s1 = s.drop_first();
        let t1 = t.drop_first();
        assert forall|x: u32| s1.contains(x) <==> t1.contains(x) by {
            if s1.contains(x) {
                let a = choose|a: int| #![auto] 0 <= a < s1.len() && s1[a] == x;
                assert(s[a + 1] == x);
                assert(s[0] < s[a + 1]);
                assert(s.contains(x));
                let b = choose|b: int| #![auto] 0 <= b < t.len() && t[b] == x;
                assert(b != 0);
                assert(t1[b - 1] == x);
            }
            if t1.contains(x) {
                let a = choose|a: int| #![auto] 0 <= a < t1.len() && t1[a] == x;
                assert(t[a + 1] == x);
                assert(t[0] < t[a + 1]);
                assert(t.contains(x));
                let b = choose|b: int| #![auto] 0 <= b < s.len() && s[b] == x;
                assert(b != 0);
                assert(s1[b - 1] == x);
            }
        }
        lemma_sorted_unique(s1, t1);
        assert(s =~= seq![s[0]] + s1);
        assert(t =~= seq![t[0]] + t1);
    }
}

/// Whether `v` holds `x`.
pub fn vec_contains(v: &Vec<u32>, x: u32) -> (r: bool)
    ensures
        r == v@.contains(x),
{
    let mut i: usize = 0;
    while i < v.len()
        invariant
            i <= v@.len(),
            forall|k: int| 0 <= k < i ==> v@[k] != x,
        decreases v@.len() - i,
    {
        if v[i] == x {
            assert(v@[i as int] == x);
            return true;
        }
        i = i + 1;
    }
    false
}

/// The set of the items of `v`.
fn chart_set(v: &Vec<u32>) -> (r: HashSet<u32>)
    ensures
        forall|x: u32| r@.contains(x) <==> v@.contains(x),
{
    let mut s: HashSet<u32> = HashSet::new();
    let mut i: usize = 0;
    while i < v.len()
        invariant
            i <= v@.len(),
            forall|x: u32| s@.contains(x) <==> v@.subrange(0, i as int).contains(x),
        decreases v@.len() - i,
    {
        let ghost pre = v@.subrange(0, i as int);
        let ghost cur = v@.subrange(0, i + 1);
        assert(cur =~= pre.push(v@[i as int]));
        s.insert(v[i]);
        i = i + 1;
    }
    assert(v@.subrange(0, v@.len() as int) =~= v@);
    s
}

/// The items both `a` and `b` hold, in increasing order, each once.
pub fn sorted_common(a: &Vec<u32>, b: &Vec<u32>) -> (r: Vec<u32>)
    ensures
        strictly_sorted(r@),
        forall|x: u32| r@.contains(x) <==> (a@.contains(x) && b@.contains(x)),
        r@ == common_charts(a@, b@),
{
    let b_set = chart_set(b);
    let mut out: Vec<u32> = Vec::new();
    let mut i: usize = 0;
    while i < a.len()
        invariant
            i <= a@.len(),
            forall|x: u32| b_set@.contains(x) <==> b@.contains(x),
            strictly_sorted(out@),
            forall|x: u32| out@.contains(x) <==> (a@.subrange(0, i as int).contains(x) && b@.contains(x)),
        decreases a@.len() - i,
    {
        let x = a[i];
        let ghost prev = out@;
        let ghost pre = a@.subrange(0, i as int);
        let ghost cur = a@.subrange(0, i + 1);
        assert forall|y: u32| cur.contains(y) <==> (pre.contains(y) || y == x) by {
            if cur.contains(y) {
                let k = choose|k: int| #![auto] 0 <= k < cur.len() && cur[k] == y;
                if k < i {
                    assert(pre[k] == y);
                }
            }
            if pre.contains(y) {
                let k = choose|k: int| #![auto] 0 <= k < pre.len() && pre[k] == y;
                assert(cur[k] == y);
            }
            if y == x {
                assert(cur[i as int] == y);
            }
        }
        let inb = b_set.contains(&x);
        let inout = vec_contains(&out, x);
        if inb && !inout {
            let mut j: usize = 0;
            while j < out.len() && out[j] < x
                invariant
                    j <= out@.len(),
                    out@ == prev,
                    forall|k: int| 0 <= k < j ==> out@[k] < x,
                decreases out@.len() - j,
            {
                j = j + 1;
            }
            assert forall|k: int| j <= k < prev.len() implies prev[k] > x by {
                assert(prev[j as int] >= x);
                assert(prev[j as int] != x) by {
                    assert(!prev.contains(x));
                }
                if k > j {
                    assert(prev[j as int] < prev[k]);
                }
            }
            out.insert(j, x);
            assert(out@ == prev.insert(j as int, x));
            assert forall|p: int, q: int| 0 <= p < q < out@.len() implies out@[p] < out@[q] by {
                if q < j {
                    assert(out@[p] == prev[p] && out@[q] == prev[q]);
                } else if q == j {
                    assert(out@[p] == prev[p]);
                } else if p < j {
                    assert(out@[q] == prev[q - 1]);
                } else if p == j {
                    assert(out@[q] == prev[q - 1]);
                } else {
                    assert(out@[p] == prev[p - 1] && out@[q] == prev[q - 1]);
                }
            }
            assert forall|y: u32| out@.contains(y) <==> (prev.contains(y) || y == x) by {
                if out@.contains(y) {
                    let k = choose|k: int| #![auto] 0 <= k < out@.len() && out@[k] == y;
                    if k < j {
                        assert(prev[k] == y);
                    } else if k > j {
                        assert(prev[k - 1] == y);
                    }
                }
                if prev.contains(y) {
                    let k = choose|k: int| #![auto] 0 <= k < prev.len() && prev[k] == y;
                    if k < j {
                        assert(out@[k] == y);
                    } else {
                        assert(out@[k + 1] == y);
                    }
                }
                if y == x {
                    assert(out@[j as int] == x);
                }
            }
            assert forall|y: u32| out@.contains(y) <==> (cur.contains(y) && b@.contains(y)) by {
                if y != x {
                    assert(out@.contains(y) <==> prev.contains(y));
                    assert(cur.contains(y) <==> pre.contains(y));
                }
            }
        } else {
            assert forall|y: u32| out@.contains(y) <==> (cur.contains(y) && b@.contains(y)) by {
                assert(out@.contains(y) <==> prev.contains(y));
                if y == x {
                    if inb && inout {
                        assert(prev.contains(x));
                    }
                } else {
                    assert(cur.contains(y) <==> pre.contains(y));
                }
            }
        }
        i = i + 1;
    }
    assert(a@.subrange(0, a@.len() as int) == a@);
    proof {
        let r = out@;
        assert(strictly_sorted(r) && forall|x: u32| r.contains(x) <==> (a@.contains(x) && b@.contains(x)));
        let c = common_charts(a@, b@);
        assert(strictly_sorted(c) && forall|x: u32| c.contains(x) <==> (a@.contains(x) && b@.contains(x)));
        lemma_sorted_unique(r, c);
    }
    out
}

// ------------------------------------------------------------------ messages

fn emit(out: &mut Vec<Outgoing>, to: u8, msg: ServerMsg)
    ensures
        outs_view(final(out)@) == outs_view(old(out)@).push(OutView { to, msg: msg@ }),
{
    let ghost o = out@;
    out.push(Outgoing { to, msg });
    assert(outs_view(out@) =~= outs_view(o).push(OutView { to, msg: msg@ }));
}

/// A copy of a list of chart ids.
pub fn copy_ids(v: &Vec<u32>) -> (r: Vec<u32>)
    ensures
        r@ == v@,
{
    let mut r: Vec<u32> = Vec::new();
    let mut i: usize = 0;
    while i < v.len()
        invariant
            i <= v@.len(),
            r@ == v@.subrange(0, i as int),
        decreases v@.len() - i,
    {
        r.push(v[i]);
        i = i + 1;
    }
    assert(r@ =~= v@);
    r
}

fn copy_scores(v: &Vec<RoundScore>) -> (r: Vec<RoundScore>)
    ensures
        r@ == v@,
{
    let mut r: Vec<RoundScore> = Vec::new();
    let mut i: usize = 0;
    while i < v.len()
        invariant
            i <= v@.len(),
            r@ == v@.subrange(0, i as int),
        decreases v@.len() - i,
    {
        r.push(v[i]);
        i = i + 1;
    }
    assert(r@ =~= v@);
    r
}

fn copy_infos(v: &Vec<PlayerInfo>) -> (r: Vec<PlayerInfo>)
    ensures
        names_view(r@) == names_view(v@),
{
    let mut r: Vec<PlayerInfo> = Vec::new();
    let mut i: usize = 0;
    while i < v.len()
        invariant
            i <= v@.len(),
            r@.len() == i,
            forall|k: int| 0 <= k < i ==> (#[trigger] r@[k]).name@ == v@[k].name@,
        decreases v@.len() - i,
    {
        r.push(PlayerInfo { name: v[i].name.clone() });
        i = i + 1;
    }
    assert(names_view(r@) =~= names_view(v@));
    r
}

impl ServerMsg {
    /// A copy of the message.
    pub fn copy(&self) -> (r: ServerMsg)
        ensures
            r@ == self@,
    {
        match self {
            ServerMsg::Welcome { you, room, players } => ServerMsg::Welcome { you: *you, room: room.clone(), players: copy_infos(players) },
            ServerMsg::PeerJoined { player, name } => ServerMsg::PeerJoined { player: *player, name: name.clone() },
            ServerMsg::PeerLeft { player, name } => ServerMsg::PeerLeft { player: *player, name: name.clone() },
            ServerMsg::Pool { charts } => ServerMsg::Pool { charts: copy_ids(charts) },
            ServerMsg::BpTurn { actor, action, pool, decider } => ServerMsg::BpTurn { actor: *actor, action: *action, pool: copy_ids(pool), decider: *decider },
            ServerMsg::BpDone { chart_a, chart_b } => ServerMsg::BpDone { chart_a: *chart_a, chart_b: *chart_b },
            ServerMsg::RoundStart { index, chart, starts_in_ms } => ServerMsg::RoundStart { index: *index, chart: *chart, starts_in_ms: *starts_in_ms },
            ServerMsg::PeerProgress { player, score, accuracy, combo, energy_milli } => ServerMsg::PeerProgress {
                player: *player,
                score: *score,
                accuracy: *accuracy,
                combo: *combo,
                energy_milli: *energy_milli,
            },
            ServerMsg::CastOk { kind, energy_milli } => ServerMsg::CastOk { kind: *kind, energy_milli: *energy_milli },
            ServerMsg::CastDenied { kind, reason } => ServerMsg::CastDenied { kind: *kind, reason: *reason },
            ServerMsg::Attacked { kind, from, duration_ms } => ServerMsg::Attacked { kind: *kind, from: *from, duration_ms: *duration_ms },
            ServerMsg::RoundEnd { index, winner, scores, next } => ServerMsg::RoundEnd { index: *index, winner: *winner, scores: copy_scores(scores), next: *next },
            ServerMsg::MatchEnd { winner, scores, reason } => ServerMsg::MatchEnd { winner: *winner, scores: copy_scores(scores), reason: reason.clone() },
            ServerMsg::Notice { message } => ServerMsg::Notice { message: message.clone() },
            ServerMsg::Error { message } => ServerMsg::Error { message: message.clone() },
            ServerMsg::Pong { at } => ServerMsg::Pong { at: *at },
        }
    }
}

// ------------------------------------------------------------------ the room

pub open spec fn spec_new(cfg: ServerConfig) -> RoomView {
    RoomView {
        cfg,
        code: None,
        players: seq![None, None],
        pool: seq![],
        banned: seq![],
        picks: seq![],
        decider: None,
        played: seq![],
        phase: Phase::Lobby,
        round: 0,
        outcomes: seq![],
        wins: seq![0u8, 0u8],
        events: seq![],
        logged: 0,
    }
}

impl Room {
    /// An empty room waiting for players.
    pub fn new(cfg: ServerConfig) -> (r: Room)
        ensures
            r@ == spec_new(cfg),
            wf(r@),
    {
        let mut players: Vec<Option<Player>> = Vec::new();
        players.push(None);
        players.push(None);
        let r = Room {
            cfg,
            code: None,
            players,
            pool: Vec::new(),
            banned: Vec::new(),
            picks: Vec::new(),
            decider: None,
            played: Vec::new(),
            phase: Phase::Lobby,
            round: 0,
            outcomes: Vec::new(),
            wins: [0, 0],
            events: VecDeque::new(),
            logged: 0,
        };
        assert(r@.players =~= seq![None, None]);
        assert(r@.events =~= Seq::<Seq<char>>::empty());
        assert(r@ =~= spec_new(cfg));
        r
    }

    /// The settings the room runs with.
    pub fn config(&self) -> (r: ServerConfig)
        ensures
            r == self@.cfg,
    {
        self.cfg
    }

    /// Whether nobody is seated.
    pub fn is_empty(&self) -> (r: bool)
        requires
            wf(self@),
        ensures
            r == (self@.players[0] is None && self@.players[1] is None),
    {
        self.players[0].is_none() && self.players[1].is_none()
    }

    /// Whether another round result may be counted without a win counter
    /// overflowing.
    pub fn wins_below_cap(&self) -> (r: bool)
        requires
            wf(self@),
        ensures
            r == (self@.wins[0] < 255 && self@.wins[1] < 255),
    {
        self.wins[0] < 255 && self.wins[1] < 255
    }

    fn seated(&self, p: u8) -> (r: bool)
        requires
            wf(self@),
            p < 2,
        ensures
            r == (self@.players[p as int] is Some),
    {
        self.players[p as usize].is_some()
    }

    fn send_to(&self, out: &mut Vec<Outgoing>, p: u8, msg: ServerMsg)
        requires
            wf(self@),
            p < 2,
        ensures
            outs_view(final(out)@) == outs_view(old(out)@) + to_player(self@, p, msg@),
    {
        let ghost o = outs_view(out@);
        if self.seated(p) {
            emit(out, p, msg);
            assert(outs_view(out@) =~= o + to_player(self@, p, msg@));
        } else {
            assert(o + to_player(self@, p, msg@) =~= o);
        }
    }

    fn broadcast_msg(&self, out: &mut Vec<Outgoing>, msg: ServerMsg)
        requires
            wf(self@),
        ensures
            outs_view(final(out)@) == outs_view(old(out)@) + broadcast(self@, msg@),
    {
        let ghost o = outs_view(out@);
        self.send_to(out, 0, msg.copy());
        self.send_to(out, 1, msg);
        assert(outs_view(out@) =~= o + broadcast(self@, msg@));
    }

    fn to_other_msg(&self, out: &mut Vec<Outgoing>, from: u8, msg: ServerMsg)
        requires
            wf(self@),
        ensures
            outs_view(final(out)@) == outs_view(old(out)@) + to_other(self@, from, msg@),
    {
        let ghost o = outs_view(out@);
        if from != 0 {
            self.send_to(out, 0, msg.copy());
        }
        let ghost mid = outs_view(out@);
        if from != 1 {
            self.send_to(out, 1, msg);
        }
        assert(outs_view(out@) =~= o + to_other(self@, from, msg@));
    }

    fn log_text(&mut self, text: String)
        requires
            wf(old(self)@),
        ensures
            final(self)@ == log(old(self)@, text@),
            wf(final(self)@),
    {
        let ghost e = old(self)@.events;
        let ghost raw = self.events@;
        self.events.push_back(text);
        assert(self.events@ == raw.push(text));
        assert(self.events@.map_values(|e: String| e@) =~= e.push(text@));
        if self.events.len() > EVENT_LINES {
            let ghost full = self.events@;
            self.events.pop_front();
            assert(self.events@ == full.subrange(1, full.len() as int));
            assert(self.events@.map_values(|e: String| e@) =~= keep_last(e.push(text@), EVENT_LINES as nat));
        }
        if self.logged < u64::MAX {
            self.logged = self.logged + 1;
        }
        assert(self@ =~= log(old(self)@, text@));
    }

    /// The charts of the pool that may still be banned or picked.
    pub fn selectable(&self) -> (r: Vec<u32>)
        ensures
            r@ == selectable(self@),
    {
        let mut r: Vec<u32> = Vec::new();
        let mut i: usize = 0;
        let ghost pred = |c: u32| is_selectable(self@, c);
        while i < self.pool.len()
            invariant
                i <= self.pool@.len(),
                pred == (|c: u32| is_selectable(self@, c)),
                r@ == self.pool@.subrange(0, i as int).filter(pred),
            decreases self.pool@.len() - i,
        {
            let c = self.pool[i];
            proof {
                assert(self.pool@.subrange(0, i + 1) =~= self.pool@.subrange(0, i as int).push(c));
                self.pool@.subrange(0, i as int).lemma_filter_push(c, pred);
            }
            let is_decider = match self.decider {
                Some(d) => d == c,
                None => false,
            };
            if !vec_contains(&self.banned, c) && !vec_contains(&self.picks, c) && !is_decider {
                r.push(c);
            }
            i = i + 1;
        }
        assert(self.pool@.subrange(0, self.pool@.len() as int) =~= self.pool@);
        r
    }

    fn announce_bp_turn(&self, out: &mut Vec<Outgoing>)
        requires
            wf(self@),
        ensures
            outs_view(final(out)@) == outs_view(old(out)@) + announce(self@),
    {
        match self.phase {
            Phase::Bp { actor, action, decider } => {
                let pool = self.selectable();
                self.broadcast_msg(out, ServerMsg::BpTurn { actor, action, pool, decider });
            },
            _ => {
                assert(outs_view(out@) + announce(self@) =~= outs_view(out@));
            },
        }
    }

    fn charts_copy(&self, i: usize) -> (r: Vec<u32>)
        requires
            wf(self@),
            i < 2,
        ensures
            r@ == charts_of(self@, i as int),
    {
        match &self.players[i] {
            Some(p) => copy_ids(&p.charts),
            None => Vec::new(),
        }
    }

    fn begin_bp(&mut self, out: &mut Vec<Outgoing>)
        requires
            wf(old(self)@),
        ensures
            wf(final(self)@),
            final(self)@ == spec_begin_bp(old(self)@).0,
            outs_view(final(out)@) == outs_view(old(out)@) + spec_begin_bp(old(self)@).1,
    {
        let ghost o = outs_view(out@);
        let a = self.charts_copy(0);
        let b = self.charts_copy(1);
        let pool = sorted_common(&a, &b);
        self.broadcast_msg(out, ServerMsg::Pool { charts: copy_ids(&pool) });
        self.pool = pool;
        self.phase = Phase::Bp { actor: 0, action: BpAction::Ban, decider: false };
        assert(self@ =~= spec_begin_bp(old(self)@).0);
        self.announce_bp_turn(out);
        assert(outs_view(out@) =~= o + spec_begin_bp(old(self)@).1);
    }
}

// ------------------------------------------------------------------ texts

fn push_seat(s: &mut String, slot: u8)
    ensures
        final(s)@ == old(s)@ + seat_text(slot),
{
    push_str(s, "玩家");
    push_decimal(s, slot as u64 + 1);
    assert(final(s)@ =~= old(s)@ + seat_text(slot));
}

fn action_name_string(a: BpAction) -> (r: &'static str)
    ensures
        r@ == action_name(a),
{
    a.name()
}

fn kind_name_string(k: Interference) -> (r: &'static str)
    ensures
        r@ == kind_name(k),
{
    k.name()
}

fn make_bp_text(player: u8, a: BpAction, chart: u32) -> (r: String)
    ensures
        r@ == bp_text(player, a, chart),
{
    let mut s = String::new();
    push_seat(&mut s, player);
    push_str(&mut s, " ");
    push_str(&mut s, action_name_string(a));
    push_str(&mut s, "了谱面 ");
    push_decimal(&mut s, chart as u64);
    assert(s@ =~= bp_text(player, a, chart));
    s
}

fn make_round_start_text(index: u8, chart: u32) -> (r: String)
    ensures
        r@ == round_start_text(index, chart),
{
    let mut s = String::new();
    push_str(&mut s, "第 ");
    push_decimal(&mut s, index as u64 + 1);
    push_str(&mut s, " 局开始：谱面 ");
    push_decimal(&mut s, chart as u64);
    assert(s@ =~= round_start_text(index, chart));
    s
}

fn make_round_end_text(index: u8, winner: Option<u8>) -> (r: String)
    ensures
        r@ == round_end_text(index, winner),
{
    let mut s = String::new();
    push_str(&mut s, "第 ");
    push_decimal(&mut s, index as u64 + 1);
    match winner {
        Some(w) => {
            push_str(&mut s, " 局结束：");
            push_seat(&mut s, w);
            push_str(&mut s, " 胜");
        },
        None => {
            push_str(&mut s, " 局结束：平局");
        },
    }
    assert(s@ =~= round_end_text(index, winner));
    s
}

fn make_cast_text(player: u8, k: Interference) -> (r: String)
    requires
        player < 2,
    ensures
        r@ == cast_text(player, k),
{
    let mut s = String::new();
    push_seat(&mut s, player);
    push_str(&mut s, " 对玩家");
    push_decimal(&mut s, (2 - player) as u64);
    push_str(&mut s, " 使用了");
    push_str(&mut s, kind_name_string(k));
    push_str(&mut s, "（消耗 ");
    push_decimal(&mut s, k.cost() as u64);
    push_str(&mut s, " 能量）");
    assert(s@ =~= cast_text(player, k));
    s
}

fn make_score_text(w0: u8, w1: u8) -> (r: String)
    ensures
        r@ == score_text(seq![w0, w1]),
{
    let mut s = String::new();
    push_decimal(&mut s, w0 as u64);
    push_str(&mut s, ":");
    push_decimal(&mut s, w1 as u64);
    assert(s@ =~= score_text(seq![w0, w1]));
    s
}

fn make_not_your_turn(want: BpAction) -> (r: String)
    ensures
        r@ == "还没轮到你"@ + action_name(want),
{
    let mut s = String::new();
    push_str(&mut s, "还没轮到你");
    push_str(&mut s, action_name_string(want));
    assert(s@ =~= "还没轮到你"@ + action_name(want));
    s
}

/// What follows a round: see [`next_step`].
fn decide_next(index: u8, winner: Option<u8>, w0: u8, w1: u8) -> (r: NextStep)
    requires
        winner matches Some(w) ==> w < 2,
    ensures
        r == next_step(index, winner, seq![w0, w1]),
{
    if w0 >= 2 || w1 >= 2 || index >= 2 {
        NextStep::End
    } else if index == 0 {
        NextStep::Round { index: 1 }
    } else {
        let actor = match winner {
            Some(w) => 1 - w,
            None => if w0 <= w1 { 0 } else { 1 },
        };
        NextStep::Bp { actor }
    }
}

/// The next ban/pick turn of the first two picks: see [`next_bp_turn`].
fn bp_turn_after(picks: usize, bans: usize) -> (r: Option<Phase>)
    ensures
        r == next_bp_turn(picks as nat, bans as nat),
{
    if picks == 0 && bans == 1 {
        Some(Phase::Bp { actor: 1, action: BpAction::Ban, decider: false })
    } else if picks == 0 && bans == 2 {
        Some(Phase::Bp { actor: 0, action: BpAction::Pick, decider: false })
    } else if picks == 1 {
        Some(Phase::Bp { actor: 1, action: BpAction::Pick, decider: false })
    } else if picks == 2 {
        None
    } else {
        Some(Phase::Bp { actor: 1, action: BpAction::Ban, decider: false })
    }
}

impl Room {
    fn refresh_seat(&mut self, i: usize)
        requires
            wf(old(self)@),
            i < 2,
        ensures
            final(self)@ == (RoomView { players: old(self)@.players.update(i as int, fresh_seat(old(self)@.players[i as int])), ..old(self)@ }),
    {
        let mut tmp: Option<Player> = None;
        self.players.set_and_swap(i, &mut tmp);
        match tmp {
            Some(mut p) => {
                p.finished = false;
                p.energy = 0;
                self.players.set(i, Some(p));
            },
            None => {
                self.players.set(i, None);
            },
        }
        assert(self@.players =~= old(self)@.players.update(i as int, fresh_seat(old(self)@.players[i as int])));
        assert(self@ =~= (RoomView { players: old(self)@.players.update(i as int, fresh_seat(old(self)@.players[i as int])), ..old(self)@ }));
    }

    fn start_round(&mut self, now: u64, out: &mut Vec<Outgoing>)
        requires
            wf(old(self)@),
            time_ok(old(self)@.cfg, now),
        ensures
            wf(final(self)@),
            final(self)@ == spec_start_round(old(self)@, now).0,
            outs_view(final(out)@) == outs_view(old(out)@) + spec_start_round(old(self)@, now).1,
    {
        let ghost v = self@;
        let ghost o = outs_view(out@);
        let (index, chart): (u8, Option<u32>) = if self.round == 0 {
            (0, if self.picks.len() > 0 { Some(self.picks[0]) } else { None })
        } else if self.round == 1 {
            (1, if self.picks.len() > 1 { Some(self.picks[1]) } else { None })
        } else {
            (2, self.decider)
        };
        assert((index, chart) == round_chart(v));
        match chart {
            None => {
                self.broadcast_msg(out, ServerMsg::Error { message: to_string("没有可用的谱面，比赛中断") });
                self.phase = Phase::Done;
                assert(self@ =~= spec_start_round(v, now).0);
            },
            Some(c) => {
                self.played.push(c);
                self.refresh_seat(0);
                self.refresh_seat(1);
                self.phase = Phase::Round { index, started: now };
                assert(self@.players =~= v.players.map_values(|p: Option<PlayerView>| fresh_seat(p)));
                self.log_text(make_round_start_text(index, c));
                assert(self@ =~= spec_start_round(v, now).0);
                self.broadcast_msg(out, ServerMsg::RoundStart { index, chart: c, starts_in_ms: self.cfg.start_delay_ms });
            },
        }
        assert(outs_view(out@) =~= o + spec_start_round(v, now).1);
    }

    fn score_list(&self) -> (r: Vec<RoundScore>)
        requires
            wf(self@),
        ensures
            r@ == round_scores(self@),
    {
        let mut r: Vec<RoundScore> = Vec::new();
        match &self.players[0] {
            Some(p) => r.push(RoundScore { player: 0, score: p.score, accuracy: p.accuracy, max_combo: p.max_combo }),
            None => {},
        }
        match &self.players[1] {
            Some(p) => r.push(RoundScore { player: 1, score: p.score, accuracy: p.accuracy, max_combo: p.max_combo }),
            None => {},
        }
        assert(r@ =~= round_scores(self@));
        r
    }

    fn winner_of_round(&self) -> (r: Option<u8>)
        requires
            wf(self@),
        ensures
            r == round_winner(self@),
    {
        match (&self.players[0], &self.players[1]) {
            (Some(a), Some(b)) => {
                let ka = a.accuracy.ten_thousandths;
                let kb = b.accuracy.ten_thousandths;
                if a.score > b.score || (a.score == b.score && ka > kb) {
                    Some(0)
                } else if a.score < b.score || (a.score == b.score && ka < kb) {
                    Some(1)
                } else {
                    None
                }
            },
            _ => None,
        }
    }

    fn append_outcomes(&mut self, scores: &Vec<RoundScore>)
        ensures
            final(self)@ == (RoomView { outcomes: old(self)@.outcomes + scores@, ..old(self)@ }),
    {
        let mut i: usize = 0;
        let ghost v = self@;
        while i < scores.len()
            invariant
                i <= scores@.len(),
                self@ == (RoomView { outcomes: v.outcomes + scores@.subrange(0, i as int), ..v }),
            decreases scores@.len() - i,
        {
            self.outcomes.push(scores[i]);
            i = i + 1;
            assert(self@ =~= (RoomView { outcomes: v.outcomes + scores@.subrange(0, i as int), ..v }));
        }
        assert(scores@.subrange(0, scores@.len() as int) =~= scores@);
    }

    fn finish_round(&mut self, now: u64, out: &mut Vec<Outgoing>)
        requires
            wf(old(self)@),
            time_ok(old(self)@.cfg, now),
            old(self)@.wins[0] < 255,
            old(self)@.wins[1] < 255,
        ensures
            wf(final(self)@),
            final(self)@ == spec_finish_round(old(self)@, now).0,
            outs_view(final(out)@) == outs_view(old(out)@) + spec_finish_round(old(self)@, now).1,
    {
        let ghost v = self@;
        let ghost o = outs_view(out@);
        let index = self.round;
        let scores = self.score_list();
        let winner = self.winner_of_round();
        match winner {
            Some(w) => {
                if w == 0 {
                    self.wins = [self.wins[0] + 1, self.wins[1]];
                } else {
                    self.wins = [self.wins[0], self.wins[1] + 1];
                }
            },
            None => {},
        }
        assert(self.wins@ =~= add_win(v.wins, winner));
        self.append_outcomes(&scores);
        let w0 = self.wins[0];
        let w1 = self.wins[1];
        let next = decide_next(index, winner, w0, w1);
        assert(seq![w0, w1] =~= add_win(v.wins, winner));
        self.log_text(make_round_end_text(index, winner));
        let ghost v1 = self@;
        assert(v1 =~= log(RoomView { wins: add_win(v.wins, winner), outcomes: v.outcomes + round_scores(v), ..v }, round_end_text(index, winner)));
        self.broadcast_msg(out, ServerMsg::RoundEnd { index, winner, scores, next });
        match next {
            NextStep::Round { index: i } => {
                self.round = i;
                self.start_round(now, out);
            },
            NextStep::Bp { actor } => {
                self.round = 2;
                self.phase = Phase::Bp { actor, action: BpAction::Pick, decider: true };
                self.announce_bp_turn(out);
            },
            NextStep::End => {
                self.phase = Phase::Done;
                let mw: u8 = if w0 >= w1 { 0 } else { 1 };
                let reason = make_score_text(w0, w1);
                let all = copy_scores(&self.outcomes);
                self.broadcast_msg(out, ServerMsg::MatchEnd { winner: mw, scores: all, reason });
            },
        }
        assert(self@ =~= spec_finish_round(v, now).0);
        assert(outs_view(out@) =~= o + spec_finish_round(v, now).1);
    }
}

// ------------------------------------------------------------------ events

pub open spec fn phase_label(p: Phase) -> Seq<char> {
    match p {
        Phase::Lobby => "等待玩家"@,
        Phase::Bp { .. } => "BP 选曲"@,
        Phase::Round { .. } => "对局中"@,
        Phase::Done => "已结束"@,
    }
}

pub open spec fn bp_turn_label(p: Phase) -> Option<Seq<char>> {
    match p {
        Phase::Bp { actor, action, decider } => Some(
            seat_text(actor) + " "@ + action_name(action) + (if decider { "（决胜局）"@ } else { Seq::<char>::empty() }),
        ),
        _ => None,
    }
}

pub open spec fn energy_of(v: RoomView, i: int) -> u64 {
    match v.players[i] {
        Some(p) => p.energy,
        None => 0,
    }
}

/// A snapshot of the room for display.
#[derive(Debug)]
pub struct RoomState {
    pub code: Option<String>,
    /// Label of the phase.
    pub phase: String,
    /// During ban/pick: who is to do what.
    pub bp_turn: Option<String>,
    pub players: Vec<String>,
    pub round: u8,
    pub wins: [u8; 2],
    pub pool: Vec<u32>,
    pub banned: Vec<u32>,
    pub picks: Vec<u32>,
    pub decider: Option<u32>,
    /// Energy of each seat in thousandths, 0 for an empty seat.
    pub energies_milli: Vec<u64>,
    /// The recent events, oldest first.
    pub events: Vec<String>,
    /// How many events the room has recorded in all; the last
    /// `events.len()` of them are in `events`.
    pub event_count: u64,
}

pub open spec fn opt_text(s: Option<String>) -> Option<Seq<char>> {
    match s {
        Some(s) => Some(s@),
        None => None,
    }
}

/// The room's event text when the first message of a connection is not
/// the duel protocol.
pub open spec fn foreign_hello_text() -> Seq<char> {
    "有人连进来但第一条消息不是对战协议 —— 检查是不是把「多人游戏服务器」填成了对战端口（那个要填 phira-mp 服务器，例如 mp2.phira.cn:12345）"@
}

pub open spec fn unreadable_hello_text(err: Seq<char>) -> Seq<char> {
    "有人连进来但读不出对战协议（"@ + err + "）—— 检查是不是把「多人游戏服务器」填成了对战端口"@
}

impl Room {
    fn update_seat(&mut self, i: usize, p: Player)
        requires
            wf(old(self)@),
            i < 2,
        ensures
            final(self)@ == (RoomView { players: old(self)@.players.update(i as int, Some(p@)), ..old(self)@ }),
    {
        self.players.set(i, Some(p));
        assert(self@ =~= (RoomView { players: old(self)@.players.update(i as int, Some(p@)), ..old(self)@ }));
    }

    fn take_seat(&mut self, i: usize) -> (r: Option<Player>)
        requires
            wf(old(self)@),
            i < 2,
        ensures
            seat_view(r) == old(self)@.players[i as int],
            final(self)@ == (RoomView { players: old(self)@.players.update(i as int, None), ..old(self)@ }),
    {
        let mut tmp: Option<Player> = None;
        self.players.set_and_swap(i, &mut tmp);
        assert(self@ =~= (RoomView { players: old(self)@.players.update(i as int, None), ..old(self)@ }));
        tmp
    }

    /// A player's ban (`is_ban_msg`) or pick message.
    pub fn on_bp(&mut self, player: u8, action: BpAction, chart: u32, is_ban_msg: bool, now: u64) -> (r: Vec<Outgoing>)
        requires
            wf(old(self)@),
            player < 2,
            time_ok(old(self)@.cfg, now),
        ensures
            wf(final(self)@),
            final(self)@ == spec_on_bp(old(self)@, player, action, chart, is_ban_msg, now).0,
            outs_view(r@) == spec_on_bp(old(self)@, player, action, chart, is_ban_msg, now).1,
    {
        let ghost v = self@;
        let mut out: Vec<Outgoing> = Vec::new();
        match self.phase {
            Phase::Bp { actor, action: want, decider } => {
                let expect_ban = match want {
                    BpAction::Ban => true,
                    BpAction::Pick => false,
                };
                if actor != player || expect_ban != is_ban_msg || want != action {
                    self.send_to(&mut out, player, ServerMsg::Error { message: make_not_your_turn(want) });
                    assert(outs_view(out@) =~= spec_on_bp(v, player, action, chart, is_ban_msg, now).1);
                    return out;
                }
                let sel = self.selectable();
                if !vec_contains(&sel, chart) {
                    self.send_to(&mut out, player, ServerMsg::Error { message: to_string("这张谱面不在可选范围里") });
                    assert(outs_view(out@) =~= spec_on_bp(v, player, action, chart, is_ban_msg, now).1);
                    return out;
                }
                let text = make_bp_text(player, want, chart);
                self.log_text(text.clone());
                match want {
                    BpAction::Ban => self.banned.push(chart),
                    BpAction::Pick => {
                        if decider {
                            self.decider = Some(chart);
                        } else {
                            self.picks.push(chart);
                        }
                    },
                }
                self.broadcast_msg(&mut out, ServerMsg::Notice { message: text });
                if decider {
                    self.start_round(now, &mut out);
                    assert(outs_view(out@) =~= spec_on_bp(v, player, action, chart, is_ban_msg, now).1);
                    return out;
                }
                match bp_turn_after(self.picks.len(), self.banned.len()) {
                    Some(phase) => {
                        self.phase = phase;
                        self.announce_bp_turn(&mut out);
                    },
                    None => {
                        self.broadcast_msg(&mut out, ServerMsg::BpDone { chart_a: self.picks[0], chart_b: self.picks[1] });
                        self.round = 0;
                        self.start_round(now, &mut out);
                    },
                }
            },
            _ => {
                self.send_to(&mut out, player, ServerMsg::Error { message: to_string("现在不是 BP 阶段") });
            },
        }
        assert(outs_view(out@) =~= spec_on_bp(v, player, action, chart, is_ban_msg, now).1);
        out
    }

    /// A player's progress report; `energy_milli` is the reported energy
    /// in thousandths, which the room caps at the configured maximum.
    pub fn on_progress(&mut self, player: u8, score: u32, accuracy: Accuracy, combo: u32, energy_milli: u64) -> (r: Vec<Outgoing>)
        requires
            wf(old(self)@),
            player < 2,
        ensures
            wf(final(self)@),
            final(self)@ == spec_on_progress(old(self)@, player, score, accuracy, combo, energy_milli).0,
            outs_view(r@) == spec_on_progress(old(self)@, player, score, accuracy, combo, energy_milli).1,
    {
        let ghost v = self@;
        let mut out: Vec<Outgoing> = Vec::new();
        if !self.seated(player) {
            assert(outs_view(out@) =~= seq![]);
            return out;
        }
        let cap: u64 = self.cfg.energy_max as u64 * 1000;
        let energy = if energy_milli > cap { cap } else { energy_milli };
        let taken = self.take_seat(player as usize);
        match taken {
            Some(mut p) => {
                p.energy = energy;
                p.score = score;
                p.accuracy = accuracy;
                self.update_seat(player as usize, p);
            },
            None => {},
        }
        assert(self@ =~= spec_on_progress(v, player, score, accuracy, combo, energy_milli).0);
        self.to_other_msg(&mut out, player, ServerMsg::PeerProgress { player, score, accuracy, combo, energy_milli: energy });
        assert(outs_view(out@) =~= spec_on_progress(v, player, score, accuracy, combo, energy_milli).1);
        out
    }

    /// A player casts an interference on the other.
    pub fn on_cast(&mut self, player: u8, kind: Interference, now: u64) -> (r: Vec<Outgoing>)
        requires
            wf(old(self)@),
            player < 2,
            time_ok(old(self)@.cfg, now),
        ensures
            wf(final(self)@),
            final(self)@ == spec_on_cast(old(self)@, player, kind, now).0,
            outs_view(r@) == spec_on_cast(old(self)@, player, kind, now).1,
    {
        let ghost v = self@;
        let mut out: Vec<Outgoing> = Vec::new();
        let started = match self.phase {
            Phase::Round { started, .. } => started,
            _ => {
                self.send_to(&mut out, player, ServerMsg::CastDenied { kind, reason: DenyReason::NotInRound });
                assert(outs_view(out@) =~= spec_on_cast(v, player, kind, now).1);
                return out;
            },
        };
        if !self.seated(player) {
            assert(outs_view(out@) =~= seq![]);
            return out;
        }
        let taken = self.take_seat(player as usize);
        let mut p = match taken {
            Some(p) => p,
            None => {
                return out;
            },
        };
        let cost: u64 = kind.cost() as u64 * 1000;
        let k = kind.index();
        let last = p.cooldown[k];
        let lock_end = started + self.cfg.cast_lock_ms;
        let cool_end = last + self.cfg.cooldown_ms;
        if now < lock_end {
            self.update_seat(player as usize, p);
            assert(self@ =~= v);
            emit(&mut out, player, ServerMsg::CastDenied { kind, reason: DenyReason::Locked { left_ms: lock_end - now } });
            assert(outs_view(out@) =~= spec_on_cast(v, player, kind, now).1);
            return out;
        }
        if p.energy < cost {
            let have = p.energy;
            self.update_seat(player as usize, p);
            assert(self@ =~= v);
            emit(&mut out, player, ServerMsg::CastDenied { kind, reason: DenyReason::LowEnergy { need: kind.cost(), have_milli: have } });
            assert(outs_view(out@) =~= spec_on_cast(v, player, kind, now).1);
            return out;
        }
        if now < cool_end {
            self.update_seat(player as usize, p);
            assert(self@ =~= v);
            emit(&mut out, player, ServerMsg::CastDenied { kind, reason: DenyReason::Cooldown { left_ms: cool_end - now } });
            assert(outs_view(out@) =~= spec_on_cast(v, player, kind, now).1);
            return out;
        }
        p.energy = p.energy - cost;
        p.cooldown[k] = now;
        let energy = p.energy;
        self.update_seat(player as usize, p);
        self.log_text(make_cast_text(player, kind));
        assert(self@ =~= spec_on_cast(v, player, kind, now).0);
        emit(&mut out, player, ServerMsg::CastOk { kind, energy_milli: energy });
        self.to_other_msg(&mut out, player, ServerMsg::Attacked { kind, from: player, duration_ms: kind.duration_ms() });
        assert(outs_view(out@) =~= spec_on_cast(v, player, kind, now).1);
        out
    }

    fn seat_done(&self, i: usize) -> (r: bool)
        requires
            wf(self@),
            i < 2,
        ensures
            r == (self@.players[i as int] is None || self@.players[i as int]->0.finished),
    {
        match &self.players[i] {
            Some(p) => p.finished,
            None => true,
        }
    }

    /// A player hands in the result of the round; once every seated
    /// player has, the round is decided.
    pub fn on_finish(&mut self, player: u8, score: u32, accuracy: Accuracy, max_combo: u32, now: u64) -> (r: Vec<Outgoing>)
        requires
            wf(old(self)@),
            player < 2,
            time_ok(old(self)@.cfg, now),
            old(self)@.wins[0] < 255,
            old(self)@.wins[1] < 255,
        ensures
            wf(final(self)@),
            final(self)@ == spec_on_finish(old(self)@, player, score, accuracy, max_combo, now).0,
            outs_view(r@) == spec_on_finish(old(self)@, player, score, accuracy, max_combo, now).1,
    {
        let ghost v = self@;
        let mut out: Vec<Outgoing> = Vec::new();
        if self.seated(player) {
            let taken = self.take_seat(player as usize);
            match taken {
                Some(mut p) => {
                    p.finished = true;
                    p.score = score;
                    p.accuracy = accuracy;
                    p.max_combo = max_combo;
                    self.update_seat(player as usize, p);
                },
                None => {},
            }
        }
        let ghost v1 = self@;
        assert(v1 =~= match v.players[player as int] {
            Some(p) => RoomView { players: v.players.update(player as int, Some(PlayerView { finished: true, score, accuracy, max_combo, ..p })), ..v },
            None => v,
        });
        let f0 = self.seat_done(0);
        let f1 = self.seat_done(1);
        if f0 && f1 {
            assert(all_finished(v1));
            self.finish_round(now, &mut out);
        } else {
            assert(!all_finished(v1)) by {
                if !f0 {
                    assert(v1.players[0] is Some && !v1.players[0]->0.finished);
                } else {
                    assert(v1.players[1] is Some && !v1.players[1]->0.finished);
                }
            }
        }
        assert(outs_view(out@) =~= spec_on_finish(v, player, score, accuracy, max_combo, now).1);
        out
    }

    /// Clears the match: no code, pool, picks or results, back to the lobby.
    pub fn reset(&mut self)
        requires
            wf(old(self)@),
        ensures
            wf(final(self)@),
            final(self)@ == spec_reset(old(self)@),
    {
        self.code = None;
        self.pool.clear();
        self.banned.clear();
        self.picks.clear();
        self.decider = None;
        self.played.clear();
        self.outcomes.clear();
        self.wins = [0, 0];
        self.round = 0;
        self.phase = Phase::Lobby;
        assert(self@ =~= spec_reset(old(self)@));
    }

    /// A player's connection is gone (left, closed or failed).
    pub fn on_disconnect(&mut self, player: u8) -> (r: Vec<Outgoing>)
        requires
            wf(old(self)@),
            player < 2,
        ensures
            wf(final(self)@),
            final(self)@ == spec_on_disconnect(old(self)@, player).0,
            outs_view(r@) == spec_on_disconnect(old(self)@, player).1,
    {
        let ghost v = self@;
        let mut out: Vec<Outgoing> = Vec::new();
        let taken = self.take_seat(player as usize);
        let name = match taken {
            Some(p) => p.name,
            None => String::new(),
        };
        let mut text = String::new();
        push_seat(&mut text, player);
        push_str(&mut text, "（");
        push_str(&mut text, name.as_str());
        push_str(&mut text, "）离开了");
        assert(text@ =~= left_text(player, name@));
        self.log_text(text);
        match self.phase {
            Phase::Lobby => {
                self.broadcast_msg(&mut out, ServerMsg::PeerLeft { player, name });
            },
            Phase::Done => {},
            _ => {
                let winner: u8 = if player == 0 { 1 } else { 0 };
                self.phase = Phase::Done;
                let mut reason = name.clone();
                push_str(&mut reason, " 掉线了");
                let scores = copy_scores(&self.outcomes);
                self.broadcast_msg(&mut out, ServerMsg::MatchEnd { winner, scores, reason });
            },
        }
        if self.is_empty() {
            self.reset();
        }
        assert(outs_view(out@) =~= spec_on_disconnect(v, player).1);
        out
    }

    fn names(&self) -> (r: Vec<PlayerInfo>)
        requires
            wf(self@),
        ensures
            names_view(r@) == names_of(self@),
    {
        let mut r: Vec<PlayerInfo> = Vec::new();
        match &self.players[0] {
            Some(p) => r.push(PlayerInfo { name: p.name.clone() }),
            None => {},
        }
        match &self.players[1] {
            Some(p) => r.push(PlayerInfo { name: p.name.clone() }),
            None => {},
        }
        assert(names_view(r@) =~= names_of(self@));
        r
    }

    /// Someone says hello: see [`spec_join`].  On success the seat taken;
    /// on refusal the text for the connection.
    pub fn join(&mut self, code: String, name: String, charts: Vec<u32>) -> (r: (Result<u8, String>, Vec<Outgoing>))
        requires
            wf(old(self)@),
        ensures
            wf(final(self)@),
            final(self)@ == spec_join(old(self)@, code@, name@, charts@).0,
            match r.0 {
                Ok(slot) => spec_join(old(self)@, code@, name@, charts@).1 == Ok::<u8, Seq<char>>(slot),
                Err(e) => spec_join(old(self)@, code@, name@, charts@).1 == Err::<u8, Seq<char>>(e@),
            },
            outs_view(r.1@) == spec_join(old(self)@, code@, name@, charts@).2,
    {
        let ghost v = self@;
        let mut out: Vec<Outgoing> = Vec::new();
        match &self.code {
            Some(existing) => {
                if !existing.eq(&code) {
                    let mut msg = String::new();
                    push_str(&mut msg, "房间码不对（现在是 ");
                    push_str(&mut msg, existing.as_str());
                    push_str(&mut msg, "）");
                    assert(msg@ =~= "房间码不对（现在是 "@ + v.code->0 + "）"@);
                    assert(outs_view(out@) =~= seq![]);
                    return (Err(msg), out);
                }
            },
            None => {},
        }
        self.code = Some(code.clone());
        let slot: u8 = if self.players[0].is_none() {
            0
        } else if self.players[1].is_none() {
            1
        } else {
            assert(outs_view(out@) =~= seq![]);
            return (Err(to_string("房间满了（v1 一台服务器同时只开一桌）")), out);
        };
        let n = charts.len();
        let seat = Player {
            name: name.clone(),
            charts,
            energy: 0,
            cooldown: [0, 0, 0, 0],
            finished: false,
            score: 0,
            accuracy: Accuracy { bits: 0, ten_thousandths: 0 },
            max_combo: 0,
        };
        assert(seat@ =~= new_seat(name@, charts@));
        self.update_seat(slot as usize, seat);
        let mut text = String::new();
        push_seat(&mut text, slot);
        push_str(&mut text, "（");
        push_str(&mut text, name.as_str());
        push_str(&mut text, "）进房，带 ");
        push_decimal(&mut text, n as u64);
        push_str(&mut text, " 张谱面");
        assert(text@ =~= join_text(slot, name@, charts@.len()));
        self.log_text(text);
        let players = self.names();
        emit(&mut out, slot, ServerMsg::Welcome { you: slot, room: code, players });
        self.to_other_msg(&mut out, slot, ServerMsg::PeerJoined { player: slot, name });
        if self.players[0].is_some() && self.players[1].is_some() {
            self.begin_bp(&mut out);
        }
        assert(outs_view(out@) =~= spec_join(v, code@, name@, charts@).2);
        (Ok(slot), out)
    }

    /// A seated player says hello again.
    pub fn hello_again(&self, player: u8) -> (r: Vec<Outgoing>)
        requires
            wf(self@),
            player < 2,
        ensures
            outs_view(r@) == to_player(self@, player, MsgView::Error { message: "你已经进房了"@ }),
    {
        let mut out: Vec<Outgoing> = Vec::new();
        self.send_to(&mut out, player, ServerMsg::Error { message: to_string("你已经进房了") });
        assert(outs_view(out@) =~= to_player(self@, player, MsgView::Error { message: "你已经进房了"@ }));
        out
    }

    /// A seated player pings.
    pub fn ping(&self, player: u8, at: u64) -> (r: Vec<Outgoing>)
        requires
            wf(self@),
            player < 2,
        ensures
            outs_view(r@) == to_player(self@, player, MsgView::Pong { at }),
    {
        let mut out: Vec<Outgoing> = Vec::new();
        self.send_to(&mut out, player, ServerMsg::Pong { at });
        assert(outs_view(out@) =~= to_player(self@, player, MsgView::Pong { at }));
        out
    }

    /// A connection's first message is not a hello of this protocol: the
    /// room notes it, and the text for that connection is returned.
    pub fn note_foreign_hello(&mut self) -> (r: String)
        requires
            wf(old(self)@),
        ensures
            wf(final(self)@),
            final(self)@ == log(old(self)@, foreign_hello_text()),
            r@ == "这不是对战协议：请用 App 的「对战」入口，别用「多人游戏」连这个端口"@,
    {
        self.log_text(to_string("有人连进来但第一条消息不是对战协议 —— 检查是不是把「多人游戏服务器」填成了对战端口（那个要填 phira-mp 服务器，例如 mp2.phira.cn:12345）"));
        to_string("这不是对战协议：请用 App 的「对战」入口，别用「多人游戏」连这个端口")
    }

    /// A connection's first message cannot be read as this protocol.
    pub fn note_unreadable_hello(&mut self, err: &str)
        requires
            wf(old(self)@),
        ensures
            wf(final(self)@),
            final(self)@ == log(old(self)@, unreadable_hello_text(err@)),
    {
        let mut text = String::new();
        push_str(&mut text, "有人连进来但读不出对战协议（");
        push_str(&mut text, err);
        push_str(&mut text, "）—— 检查是不是把「多人游戏服务器」填成了对战端口");
        assert(text@ =~= unreadable_hello_text(err@));
        self.log_text(text);
    }

    /// The snapshot shown by the launcher.
    pub fn state(&self) -> (r: RoomState)
        requires
            wf(self@),
        ensures
            opt_text(r.code) == self@.code,
            r.phase@ == phase_label(self@.phase),
            opt_text(r.bp_turn) == bp_turn_label(self@.phase),
            r.players@.map_values(|s: String| s@) == names_of(self@),
            r.round == self@.round,
            r.wins@ == self@.wins,
            r.pool@ == self@.pool,
            r.banned@ == self@.banned,
            r.picks@ == self@.picks,
            r.decider == self@.decider,
            r.energies_milli@ == seq![energy_of(self@, 0), energy_of(self@, 1)],
            r.events@.map_values(|s: String| s@) == self@.events,
            r.event_count == self@.logged,
    {
        let phase = match self.phase {
            Phase::Lobby => to_string("等待玩家"),
            Phase::Bp { .. } => to_string("BP 选曲"),
            Phase::Round { .. } => to_string("对局中"),
            Phase::Done => to_string("已结束"),
        };
        let bp_turn = match self.phase {
            Phase::Bp { actor, action, decider } => {
                let mut s = String::new();
                push_seat(&mut s, actor);
                push_str(&mut s, " ");
                push_str(&mut s, action_name_string(action));
                if decider {
                    push_str(&mut s, "（决胜局）");
                }
                assert(s@ =~= bp_turn_label(self.phase)->0);
                Some(s)
            },
            _ => None,
        };
        let code = match &self.code {
            Some(c) => Some(c.clone()),
            None => None,
        };
        let infos = self.names();
        let mut players: Vec<String> = Vec::new();
        let mut i: usize = 0;
        while i < infos.len()
            invariant
                i <= infos@.len(),
                players@.len() == i,
                forall|k: int| 0 <= k < i ==> (#[trigger] players@[k])@ == infos@[k].name@,
            decreases infos@.len() - i,
        {
            players.push(infos[i].name.clone());
            i = i + 1;
        }
        assert(players@.map_values(|s: String| s@) =~= names_view(infos@));
        let mut energies: Vec<u64> = Vec::new();
        energies.push(match &self.players[0] {
            Some(p) => p.energy,
            None => 0,
        });
        energies.push(match &self.players[1] {
            Some(p) => p.energy,
            None => 0,
        });
        assert(energies@ =~= seq![energy_of(self@, 0), energy_of(self@, 1)]);
        let mut events: Vec<String> = Vec::new();
        let mut j: usize = 0;
        while j < self.events.len()
            invariant
                j <= self.events@.len(),
                events@.len() == j,
                forall|k: int| 0 <= k < j ==> (#[trigger] events@[k])@ == self.events@[k]@,
            decreases self.events@.len() - j,
        {
            events.push(self.events[j].clone());
            j = j + 1;
        }
        assert(events@.map_values(|s: String| s@) =~= self@.events);
        RoomState {
            code,
            phase,
            bp_turn,
            players,
            round: self.round,
            wins: self.wins,
            pool: copy_ids(&self.pool),
            banned: copy_ids(&self.banned),
            picks: copy_ids(&self.picks),
            decider: self.decider,
            energies_milli: energies,
            events,
            event_count: self.logged,
        }
    }
}

// ------------------------------------------------------------------ room codes

/// The characters of room codes: upper-case letters and digits without
/// the easily confused `I`, `O`, `0` and `1`.
pub open spec fn code_alphabet() -> Seq<char> {
    seq!['A', 'B', 'C', 'D', 'E', 'F', 'G', 'H', 'J', 'K', 'L', 'M', 'N', 'P', 'Q', 'R',
         'S', 'T', 'U', 'V', 'W', 'X', 'Y', 'Z', '2', '3', '4', '5', '6', '7', '8', '9']
}

/// One step of the 64-bit linear congruential generator of room codes:
/// `n * 6364136223846793005 + 1442695040888963407`, wrapping.
pub open spec fn lcg_step(n: u64) -> u64 {
    let m = (n as nat * 6364136223846793005nat) % 18446744073709551616nat;
    if m + 1442695040888963407nat > u64::MAX {
        (m + 1442695040888963407nat - 18446744073709551616nat) as u64
    } else {
        (m + 1442695040888963407nat) as u64
    }
}

pub open spec fn lcg_iter(seed: u64, k: nat) -> u64
    decreases k,
{
    if k == 0 { seed } else { lcg_step(lcg_iter(seed, (k - 1) as nat)) }
}

pub open spec fn code_char(n: u64) -> char {
    code_alphabet()[((n >> 33u64) % 32) as int]
}

/// The room code drawn from `seed`: four characters, the k-th taken from
/// the k-th state of the generator.
pub open spec fn room_code(seed: u64) -> Seq<char> {
    seq![code_char(lcg_iter(seed, 1)), code_char(lcg_iter(seed, 2)), code_char(lcg_iter(seed, 3)), code_char(lcg_iter(seed, 4))]
}

fn lcg_next(n: u64) -> (r: u64)
    ensures
        r == lcg_step(n),
{
    n.wrapping_mul(6364136223846793005).wrapping_add(1442695040888963407)
}

fn code_char_of(n: u64) -> (c: char)
    ensures
        c == code_char(n),
{
    let alphabet: [char; 32] = ['A', 'B', 'C', 'D', 'E', 'F', 'G', 'H', 'J', 'K', 'L', 'M', 'N', 'P', 'Q', 'R',
                                'S', 'T', 'U', 'V', 'W', 'X', 'Y', 'Z', '2', '3', '4', '5', '6', '7', '8', '9'];
    assert(alphabet@ == code_alphabet());
    let i = ((n >> 33u64) % 32) as usize;
    alphabet[i]
}

/// A four-character room code derived from `seed`.
pub fn make_room_code(seed: u64) -> (r: String)
    ensures
        r@ == room_code(seed),
{
    let mut out = String::new();
    let mut n = seed;
    let mut k: usize = 0;
    while k < 4
        invariant
            k <= 4,
            n == lcg_iter(seed, k as nat),
            out@ == room_code(seed).subrange(0, k as int),
        decreases 4 - k,
    {
        n = lcg_next(n);
        push_char(&mut out, code_char_of(n));
        k = k + 1;
        assert(out@ =~= room_code(seed).subrange(0, k as int));
    }
    assert(room_code(seed).subrange(0, 4) =~= room_code(seed));
    out
}

/// Room codes are four characters long, drawn from an alphabet without
/// the easily confused `I`, `O`, `0` and `1`.
pub proof fn lemma_room_code_alphabet(seed: u64)
    ensures
        room_code(seed).len() == 4,
        forall|i: int| 0 <= i < 4 ==> code_alphabet().contains(#[trigger] room_code(seed)[i]),
        !code_alphabet().contains('I'),
        !code_alphabet().contains('O'),
        !code_alphabet().contains('0'),
        !code_alphabet().contains('1'),
{
    assert forall|i: int| 0 <= i < 4 implies code_alphabet().contains(#[trigger] room_code(seed)[i]) by {
        let n = lcg_iter(seed, (i + 1) as nat);
        let j = ((n >> 33u64) % 32) as int;
        assert(room_code(seed)[i] == code_alphabet()[j]);
    }
    let a = code_alphabet();
    assert forall|c: char| c == 'I' || c == 'O' || c == '0' || c == '1' implies !a.contains(c) by {
        if a.contains(c) {
            let k = choose|k: int| 0 <= k < a.len() && a[k] == c;
            assert(0 <= k < 32);
        }
    }
}

/// `names` joined with `sep` between consecutive items.
pub open spec fn joined_names(names: Seq<Seq<char>>, sep: Seq<char>) -> Seq<char>
    decreases names.len(),
{
    if names.len() == 0 {
        seq![]
    } else if names.len() == 1 {
        names[0]
    } else {
        joined_names(names.drop_last(), sep) + sep + names.last()
    }
}

/// A one-line summary of who is in the room: the count, then the names
/// separated by " vs ".
pub fn room_summary(players: &[PlayerInfo]) -> (r: String)
    ensures
        r@ == decimal(players@.len()) + " 人："@ + joined_names(names_view(players@), " vs "@),
{
    let mut joined = String::new();
    let ghost names = names_view(players@);
    let mut i: usize = 0;
    while i < players.len()
        invariant
            i <= players@.len(),
            names == names_view(players@),
            joined@ == joined_names(names.take(i as int), " vs "@),
        decreases players@.len() - i,
    {
        assert(names.take(i + 1).drop_last() =~= names.take(i as int));
        if i != 0 {
            push_str(&mut joined, " vs ");
        }
        push_str(&mut joined, players[i].name.as_str());
        assert(names.take(i + 1).last() == players@[i as int].name@);
        if i == 0 {
            assert(joined@ =~= joined_names(names.take(1), " vs "@));
        }
        i = i + 1;
    }
    assert(names.take(players@.len() as int) =~= names);
    let mut out = String::new();
    push_decimal(&mut out, players.len() as u64);
    push_str(&mut out, " 人：");
    push_str(&mut out, joined.as_str());
    assert(out@ =~= decimal(players@.len()) + " 人："@ + joined_names(names, " vs "@));
    out
}

// ------------------------------------------------------------------ laws

/// Where `x` goes in a strictly increasing sequence that lacks it: every
/// item before the returned position is smaller, every item from it on is
/// larger.
pub proof fn lemma_split_point(s: Seq<u32>, x: u32) -> (j: int)
    requires
        strictly_sorted(s),
        !s.contains(x),
    ensures
        0 <= j <= s.len(),
        forall|k: int| 0 <= k < j ==> s[k] < x,
        forall|k: int| j <= k < s.len() ==> s[k] > x,
    decreases s.len(),
{
    if s.len() == 0 {
        0
    } else if s.last() < x {
        assert forall|k: int| 0 <= k < s.len() implies s[k] < x by {
            if k < s.len() - 1 {
                assert(s[k] < s[s.len() - 1]);
            }
        }
        s.len() as int
    } else {
        let t = s.drop_last();
        assert(s.last() != x) by {
            assert(s[s.len() - 1] == s.last());
        }
        assert(!t.contains(x)) by {
            if t.contains(x) {
                let k = choose|k: int| #![auto] 0 <= k < t.len() && t[k] == x;
                assert(s[k] == x);
            }
        }
        let j = lemma_split_point(t, x);
        assert forall|k: int| 0 <= k < j implies s[k] < x by {
            assert(s[k] == t[k]);
        }
        assert forall|k: int| j <= k < s.len() implies s[k] > x by {
            if k < s.len() - 1 {
                assert(s[k] == t[k]);
            } else {
                assert(s[k] == s.last());
            }
        }
        j
    }
}

/// Inserting `x` at its place keeps a sequence strictly increasing and
/// adds exactly `x`.
pub proof fn lemma_insert_sorted(s: Seq<u32>, x: u32, j: int)
    requires
        strictly_sorted(s),
        0 <= j <= s.len(),
        forall|k: int| 0 <= k < j ==> s[k] < x,
        forall|k: int| j <= k < s.len() ==> s[k] > x,
    ensures
        strictly_sorted(s.insert(j, x)),
        forall|y: u32| s.insert(j, x).contains(y) <==> (s.contains(y) || y == x),
{
    let t = s.insert(j, x);
    assert forall|p: int, q: int| 0 <= p < q < t.len() implies t[p] < t[q] by {
        if q < j {
        } else if q == j {
        } else if p < j {
            assert(t[q] == s[q - 1]);
        } else if p == j {
            assert(t[q] == s[q - 1]);
        } else {
            assert(t[p] == s[p - 1] && t[q] == s[q - 1]);
        }
    }
    assert forall|y: u32| t.contains(y) <==> (s.contains(y) || y == x) by {
        if t.contains(y) {
            let k = choose|k: int| #![auto] 0 <= k < t.len() && t[k] == y;
            if k < j {
                assert(s[k] == y);
            } else if k > j {
                assert(s[k - 1] == y);
            }
        }
        if s.contains(y) {
            let k = choose|k: int| #![auto] 0 <= k < s.len() && s[k] == y;
            if k < j {
                assert(t[k] == y);
            } else {
                assert(t[k + 1] == y);
            }
        }
        if y == x {
            assert(t[j] == x);
        }
    }
}

/// For any two chart lists there is an increasing list of exactly their
/// common charts.
pub proof fn lemma_common_exists(a: Seq<u32>, b: Seq<u32>)
    ensures
        exists|s: Seq<u32>| strictly_sorted(s) && forall|x: u32| s.contains(x) <==> (a.contains(x) && b.contains(x)),
    decreases a.len(),
{
    if a.len() == 0 {
        let s = Seq::<u32>::empty();
        assert(strictly_sorted(s) && forall|x: u32| s.contains(x) <==> (a.contains(x) && b.contains(x)));
    } else {
        let a1 = a.drop_last();
        let x = a.last();
        lemma_common_exists(a1, b);
        let s = choose|s: Seq<u32>| strictly_sorted(s) && forall|y: u32| s.contains(y) <==> (a1.contains(y) && b.contains(y));
        assert forall|y: u32| a.contains(y) <==> (a1.contains(y) || y == x) by {
            if a.contains(y) {
                let k = choose|k: int| #![auto] 0 <= k < a.len() && a[k] == y;
                if k < a.len() - 1 {
                    assert(a1[k] == y);
                }
            }
            if a1.contains(y) {
                let k = choose|k: int| #![auto] 0 <= k < a1.len() && a1[k] == y;
                assert(a[k] == y);
            }
            if y == x {
                assert(a[a.len() - 1] == y);
            }
        }
        if b.contains(x) && !s.contains(x) {
            let j = lemma_split_point(s, x);
            lemma_insert_sorted(s, x, j);
            let t = s.insert(j, x);
            assert(strictly_sorted(t) && forall|y: u32| t.contains(y) <==> (a.contains(y) && b.contains(y)));
        } else {
            assert(strictly_sorted(s) && forall|y: u32| s.contains(y) <==> (a.contains(y) && b.contains(y)));
        }
    }
}

/// When ban/pick begins, the pool holds exactly the charts that both
/// players own, each once, in increasing order, and player 0 is to ban.
pub proof fn lemma_pool_is_common(v: RoomView)
    ensures
        strictly_sorted(spec_begin_bp(v).0.pool),
        forall|x: u32| spec_begin_bp(v).0.pool.contains(x) <==> (charts_of(v, 0).contains(x) && charts_of(v, 1).contains(x)),
        spec_begin_bp(v).0.phase == (Phase::Bp { actor: 0, action: BpAction::Ban, decider: false }),
{
    lemma_common_exists(charts_of(v, 0), charts_of(v, 1));
}

/// The event stream never holds more than [`EVENT_LINES`] lines: recording
/// a line keeps the last of the earlier lines followed by the new one, in
/// order, dropping the oldest first, and changes nothing else of the room
/// but the count of lines recorded.
pub proof fn lemma_log_keeps_recent(v: RoomView, text: Seq<char>)
    requires
        v.events.len() <= EVENT_LINES,
    ensures
        log(v, text).events.len() <= EVENT_LINES,
        log(v, text).events.last() == text,
        log(v, text).events.len() == if v.events.len() < EVENT_LINES { v.events.len() + 1 } else { EVENT_LINES as nat },
        forall|i: int| 0 <= i < log(v, text).events.len() - 1 ==>
            #[trigger] log(v, text).events[i] == v.events[v.events.len() + 1 - log(v, text).events.len() + i],
        (RoomView { events: v.events, logged: v.logged, ..log(v, text) }) == v,
{
}

/// A ban or pick that is not the player's turn, or names a chart that is
/// not selectable, or comes outside ban/pick changes nothing and is
/// answered with an error to that player only.
pub proof fn lemma_refused_bp_changes_nothing(v: RoomView, player: u8, action: BpAction, chart: u32, is_ban_msg: bool, now: u64)
    requires
        wf(v),
        player < 2,
        !(v.phase matches Phase::Bp { actor, action: want, .. } && actor == player && want == action
            && (want == BpAction::Ban) == is_ban_msg && selectable(v).contains(chart)),
    ensures
        spec_on_bp(v, player, action, chart, is_ban_msg, now).0 == v,
        spec_on_bp(v, player, action, chart, is_ban_msg, now).1.len() <= 1,
        forall|i: int| 0 <= i < spec_on_bp(v, player, action, chart, is_ban_msg, now).1.len() ==> {
            let o = #[trigger] spec_on_bp(v, player, action, chart, is_ban_msg, now).1[i];
            o.to == player && o.msg is Error
        },
{
}

/// An accepted ban or pick takes a selectable chart and leaves it
/// unselectable: no chart is banned or picked twice.
pub proof fn lemma_accepted_bp_consumes_chart(v: RoomView, player: u8, action: BpAction, chart: u32, is_ban_msg: bool)
    requires
        wf(v),
        player < 2,
        v.phase matches Phase::Bp { actor, action: want, decider } && actor == player && want == action
            && (want == BpAction::Ban) == is_ban_msg,
        selectable(v).contains(chart),
    ensures
        v.pool.contains(chart),
        is_selectable(v, chart),
        ({
            let v0 = log(v, bp_text(player, action, chart));
            let v1 = if action == BpAction::Ban {
                RoomView { banned: v0.banned.push(chart), ..v0 }
            } else if v.phase->decider {
                RoomView { decider: Some(chart), ..v0 }
            } else {
                RoomView { picks: v0.picks.push(chart), ..v0 }
            };
            !is_selectable(v1, chart)
        }),
{
    let pred = |c: u32| is_selectable(v, c);
    let k = choose|k: int| #![auto] 0 <= k < selectable(v).len() && selectable(v)[k] == chart;
    v.pool.lemma_filter_pred(pred, k);
    v.pool.lemma_filter_contains_rev(pred, chart);
}

/// The first ban/pick follows ban by player 0, ban by player 1, pick by
/// player 0, pick by player 1; after the second pick the first round
/// starts on player 0's pick and the second round on player 1's.
pub proof fn lemma_bp_order()
    ensures
        next_bp_turn(0, 1) == Some(Phase::Bp { actor: 1, action: BpAction::Ban, decider: false }),
        next_bp_turn(0, 2) == Some(Phase::Bp { actor: 0, action: BpAction::Pick, decider: false }),
        next_bp_turn(1, 2) == Some(Phase::Bp { actor: 1, action: BpAction::Pick, decider: false }),
        next_bp_turn(2, 2) is None,
        forall|v: RoomView| v.round == 0 && v.picks.len() == 2 ==> #[trigger] round_chart(v) == (0u8, Some(v.picks[0])),
        forall|v: RoomView| v.round == 1 && v.picks.len() == 2 ==> #[trigger] round_chart(v) == (1u8, Some(v.picks[1])),
        forall|v: RoomView| v.round == 2 ==> #[trigger] round_chart(v) == (2u8, v.decider),
{
}

/// A match is best of three: it ends as soon as a player has two wins or
/// three rounds are played, the winner being the player with more wins;
/// otherwise round two follows round one, and after round two the loser
/// of that round (on a draw the player with fewer wins, player 0 when
/// even) picks the deciding chart.
pub proof fn lemma_best_of_three(index: u8, winner: Option<u8>, wins: Seq<u8>)
    requires
        wins.len() == 2,
        winner matches Some(w) ==> w < 2,
    ensures
        next_step(index, winner, wins) == NextStep::End <==> (wins[0] >= 2 || wins[1] >= 2 || index >= 2),
        index == 0 && wins[0] < 2 && wins[1] < 2 ==> next_step(index, winner, wins) == (NextStep::Round { index: 1 }),
        index == 1 && wins[0] < 2 && wins[1] < 2 ==> next_step(index, winner, wins) == (NextStep::Bp {
            actor: match winner {
                Some(w) => (1 - w) as u8,
                None => if wins[0] <= wins[1] { 0u8 } else { 1u8 },
            },
        }),
        wins[0] >= 2 && wins[1] < 2 ==> match_winner(wins) == 0,
        wins[1] >= 2 && wins[0] < 2 ==> match_winner(wins) == 1,
{
}

/// The higher score wins a round; at equal scores the higher accuracy;
/// the result does not depend on which seat is which.
pub proof fn lemma_round_winner_symmetric(v: RoomView)
    requires
        wf(v),
        (v.players[0] is Some),
        (v.players[1] is Some),
    ensures
        v.players[0]->0.score > v.players[1]->0.score ==> round_winner(v) == Some(0u8),
        v.players[0]->0.score < v.players[1]->0.score ==> round_winner(v) == Some(1u8),
        round_winner(v) is None <==> (v.players[0]->0.score == v.players[1]->0.score
            && v.players[0]->0.accuracy.ten_thousandths == v.players[1]->0.accuracy.ten_thousandths),
        round_winner(RoomView { players: seq![v.players[1], v.players[0]], ..v }) == match round_winner(v) {
            Some(w) => Some((1 - w) as u8),
            None => None,
        },
{
}

/// A cast that is refused (no round, locked, too little energy, cooling
/// down) changes nothing and is answered to the caster only.
pub proof fn lemma_refused_cast_changes_nothing(v: RoomView, player: u8, kind: Interference, now: u64)
    requires
        wf(v),
        player < 2,
        spec_on_cast(v, player, kind, now).1.len() > 0,
        spec_on_cast(v, player, kind, now).1[0].msg is CastDenied,
    ensures
        spec_on_cast(v, player, kind, now).0 == v,
        spec_on_cast(v, player, kind, now).1 == seq![spec_on_cast(v, player, kind, now).1[0]],
        spec_on_cast(v, player, kind, now).1[0].to == player,
{
}

/// An accepted cast takes its cost from the caster's energy, tells the
/// caster the energy left and tells the other player, if seated, that it
/// is hit and for how long.
pub proof fn lemma_cast_pays_cost(v: RoomView, player: u8, kind: Interference, now: u64)
    requires
        wf(v),
        player < 2,
        spec_on_cast(v, player, kind, now).1.len() > 0,
        spec_on_cast(v, player, kind, now).1[0].msg is CastOk,
    ensures
        v.players[player as int] is Some,
        ({
            let v2 = spec_on_cast(v, player, kind, now).0;
            let p = v.players[player as int]->0;
            &&& v2.players[player as int] is Some
            &&& v2.players[player as int]->0.energy == p.energy - kind.spec_cost() * 1000
            &&& v2.players[player as int]->0.cooldown[kind.spec_index() as int] == now
            &&& spec_on_cast(v, player, kind, now).1[0] == OutView {
                to: player,
                msg: MsgView::CastOk { kind, energy_milli: (p.energy - kind.spec_cost() * 1000) as u64 },
            }
            &&& spec_on_cast(v, player, kind, now).1.subrange(1, spec_on_cast(v, player, kind, now).1.len() as int)
                == to_other(v2, player, MsgView::Attacked { kind, from: player, duration_ms: kind.spec_duration_ms() })
        }),
{
    let out = spec_on_cast(v, player, kind, now).1;
    assert(out.subrange(1, out.len() as int) =~= to_other(spec_on_cast(v, player, kind, now).0, player, MsgView::Attacked { kind, from: player, duration_ms: kind.spec_duration_ms() }));
}

/// Right after an accepted cast, the same player casting the same kind
/// again within the cooldown is refused.
pub proof fn lemma_cooldown_blocks_repeat(v: RoomView, player: u8, kind: Interference, now: u64, later: u64)
    requires
        wf(v),
        player < 2,
        spec_on_cast(v, player, kind, now).1.len() > 0,
        spec_on_cast(v, player, kind, now).1[0].msg is CastOk,
        now <= later < now + v.cfg.cooldown_ms,
    ensures
        spec_on_cast(spec_on_cast(v, player, kind, now).0, player, kind, later).0 == spec_on_cast(v, player, kind, now).0,
        spec_on_cast(spec_on_cast(v, player, kind, now).0, player, kind, later).1[0].msg is CastDenied,
{
}

/// Leaving during ban/pick or a round ends the match at once in favour of
/// the other player; when the last player leaves, the room is back to a
/// fresh room (no code, pool, picks or results) so that a new match with
/// any code can be opened.
pub proof fn lemma_leaving_ends_match(v: RoomView, player: u8)
    requires
        wf(v),
        player < 2,
    ensures
        (v.phase is Bp || v.phase is Round) ==> {
            let (v2, out) = spec_on_disconnect(v, player);
            &&& v2.phase == Phase::Done || v2.phase == Phase::Lobby
            &&& out == broadcast(
                log(RoomView { players: v.players.update(player as int, None), ..v }, left_text(player, match v.players[player as int] { Some(p) => p.name, None => seq![] })),
                MsgView::MatchEnd {
                    winner: if player == 0 { 1u8 } else { 0u8 },
                    scores: v.outcomes,
                    reason: match v.players[player as int] { Some(p) => p.name, None => seq![] } + " 掉线了"@,
                },
            )
        },
        v.players[1 - player] is None ==> {
            let v2 = spec_on_disconnect(v, player).0;
            &&& v2.code is None
            &&& v2.phase == Phase::Lobby
            &&& v2.pool.len() == 0 && v2.banned.len() == 0 && v2.picks.len() == 0
            &&& v2.wins == seq![0u8, 0u8]
            &&& v2.players == seq![None::<PlayerView>, None::<PlayerView>]
        },
{
    let name = match v.players[player as int] { Some(p) => p.name, None => seq![] };
    let v1 = log(RoomView { players: v.players.update(player as int, None), ..v }, left_text(player, name));
    if v.players[1 - player] is None {
        assert(v1.players =~= seq![None::<PlayerView>, None::<PlayerView>]);
    }
}

/// The first hello sets the room code; a hello with another code is
/// refused and changes nothing; the first two players to join take seats
/// 0 and 1, and a third one is refused.
pub proof fn lemma_join_seats(v: RoomView, code: Seq<char>, name: Seq<char>, charts: Seq<u32>)
    requires
        wf(v),
    ensures
        v.code is Some && v.code->0 != code ==> spec_join(v, code, name, charts).0 == v && spec_join(v, code, name, charts).1 is Err
            && spec_join(v, code, name, charts).2.len() == 0,
        v.code is None && v.players[0] is None ==> spec_join(v, code, name, charts).1 == Ok::<u8, Seq<char>>(0)
            && spec_join(v, code, name, charts).0.code == Some(code),
        (v.code is None || v.code->0 == code) && v.players[0] is Some && v.players[1] is None
            ==> spec_join(v, code, name, charts).1 == Ok::<u8, Seq<char>>(1),
        v.players[0] is Some && v.players[1] is Some ==> spec_join(v, code, name, charts).1 is Err,
{
}

// ------------------------------------------------------------------ dispatch

/// A message from a client, as the room reads it.
#[derive(Clone, Debug)]
pub enum ClientMsg {
    /// Joining: room code, name and the ids of the charts owned.
    Hello { room: String, name: String, charts: Vec<u32> },
    Ban { chart: u32 },
    Pick { chart: u32 },
    /// Progress during a round; the energy in thousandths.
    Progress { score: u32, accuracy: Accuracy, combo: u32, energy_milli: u64 },
    Cast { kind: Interference },
    /// The result of the round; `counts` are the Perfect/Good/Bad/Miss counts.
    Finish { score: u32, accuracy: Accuracy, max_combo: u32, counts: [u32; 4] },
    Ping { at: u64 },
    Leave,
}

/// Whether a connection goes on after a message.
#[derive(Clone, Copy, Debug, PartialEq, Eq, Structural)]
pub enum Flow {
    Continue,
    /// The player leaves; the caller closes the connection and reports the
    /// disconnect.
    Leave,
}

/// What the room does with a message from the player in seat `slot`.
pub open spec fn spec_dispatch(v: RoomView, slot: u8, msg: ClientMsg, now: u64) -> (RoomView, Seq<OutView>, Flow) {
    match msg {
        ClientMsg::Hello { .. } => (v, to_player(v, slot, MsgView::Error { message: "你已经进房了"@ }), Flow::Continue),
        ClientMsg::Ban { chart } => {
            let (v1, out) = spec_on_bp(v, slot, BpAction::Ban, chart, true, now);
            (v1, out, Flow::Continue)
        },
        ClientMsg::Pick { chart } => {
            let (v1, out) = spec_on_bp(v, slot, BpAction::Pick, chart, false, now);
            (v1, out, Flow::Continue)
        },
        ClientMsg::Progress { score, accuracy, combo, energy_milli } => {
            let (v1, out) = spec_on_progress(v, slot, score, accuracy, combo, energy_milli);
            (v1, out, Flow::Continue)
        },
        ClientMsg::Cast { kind } => {
            let (v1, out) = spec_on_cast(v, slot, kind, now);
            (v1, out, Flow::Continue)
        },
        ClientMsg::Finish { score, accuracy, max_combo, .. } => {
            let (v1, out) = spec_on_finish(v, slot, score, accuracy, max_combo, now);
            (v1, out, Flow::Continue)
        },
        ClientMsg::Ping { at } => (v, to_player(v, slot, MsgView::Pong { at }), Flow::Continue),
        ClientMsg::Leave => (v, seq![], Flow::Leave),
    }
}

impl Room {
    /// Handles one message of a seated player.
    pub fn dispatch(&mut self, slot: u8, msg: ClientMsg, now: u64) -> (r: (Vec<Outgoing>, Flow))
        requires
            wf(old(self)@),
            slot < 2,
            time_ok(old(self)@.cfg, now),
            old(self)@.wins[0] < 255,
            old(self)@.wins[1] < 255,
        ensures
            wf(final(self)@),
            final(self)@ == spec_dispatch(old(self)@, slot, msg, now).0,
            outs_view(r.0@) == spec_dispatch(old(self)@, slot, msg, now).1,
            r.1 == spec_dispatch(old(self)@, slot, msg, now).2,
    {
        match msg {
            ClientMsg::Hello { .. } => (self.hello_again(slot), Flow::Continue),
            ClientMsg::Ban { chart } => (self.on_bp(slot, BpAction::Ban, chart, true, now), Flow::Continue),
            ClientMsg::Pick { chart } => (self.on_bp(slot, BpAction::Pick, chart, false, now), Flow::Continue),
            ClientMsg::Progress { score, accuracy, combo, energy_milli } => (self.on_progress(slot, score, accuracy, combo, energy_milli), Flow::Continue),
            ClientMsg::Cast { kind } => (self.on_cast(slot, kind, now), Flow::Continue),
            ClientMsg::Finish { score, accuracy, max_combo, .. } => (self.on_finish(slot, score, accuracy, max_combo, now), Flow::Continue),
            ClientMsg::Ping { at } => (self.ping(slot, at), Flow::Continue),
            ClientMsg::Leave => {
                let out: Vec<Outgoing> = Vec::new();
                assert(outs_view(out@) =~= seq![]);
                (out, Flow::Leave)
            },
        }
    }
}


/// The room after recording the events `es`, in order.
pub open spec fn log_all(v: RoomView, es: Seq<Seq<char>>) -> RoomView
    decreases es.len(),
{
    if es.len() == 0 {
        v
    } else {
        log(log_all(v, es.drop_last()), es.last())
    }
}

proof fn lemma_keep_last_push<A>(s: Seq<A>, x: A, n: nat)
    requires
        n > 0,
    ensures
        keep_last(keep_last(s, n).push(x), n) == keep_last(s.push(x), n),
{
    assert(keep_last(keep_last(s, n).push(x), n) =~= keep_last(s.push(x), n));
}

/// Recording events counts each of them once and keeps the most recent
/// [`EVENT_LINES`] of all, oldest first.
pub proof fn lemma_log_all(v: RoomView, es: Seq<Seq<char>>)
    requires
        v.logged + es.len() <= u64::MAX,
        v.events.len() <= EVENT_LINES,
    ensures
        log_all(v, es).logged == v.logged + es.len(),
        log_all(v, es).events == keep_last(v.events + es, EVENT_LINES as nat),
        log_all(v, es).events.len() == (if v.events.len() + es.len() <= EVENT_LINES {
            (v.events.len() + es.len()) as int
        } else {
            EVENT_LINES as int
        }),
    decreases es.len(),
{
    if es.len() == 0 {
        assert(v.events + es =~= v.events);
    } else {
        let es1 = es.drop_last();
        lemma_log_all(v, es1);
        let w1 = log_all(v, es1);
        lemma_keep_last_push(v.events + es1, es.last(), EVENT_LINES as nat);
        assert((v.events + es1).push(es.last()) =~= v.events + es);
        assert(log_all(v, es) == log(w1, es.last()));
        assert(log(w1, es.last()).events == keep_last(w1.events.push(es.last()), EVENT_LINES as nat));
    }
}


/// An accepted cast puts only its own kind on cooldown: the caster's
/// cooldown slot of that kind becomes the cast's time, the slots of the
/// other kinds keep their times, and the energy drops by the kind's cost.
/// So a cast of another kind that was not cooling down before is not
/// refused for cooldown right after.
pub proof fn lemma_cast_cools_only_its_kind(v: RoomView, player: u8, kind: Interference, now: u64, other: Interference, later: u64)
    requires
        wf(v),
        player < 2,
        v.phase is Round,
        v.players[player as int] is Some,
        spec_on_cast(v, player, kind, now).1.len() > 0,
        spec_on_cast(v, player, kind, now).1[0].msg is CastOk,
    ensures
        ({
            let p0 = v.players[player as int]->0;
            let v1 = spec_on_cast(v, player, kind, now).0;
            let p1 = v1.players[player as int]->0;
            &&& v1.players[player as int] is Some
            &&& p1.cooldown.len() == 4
            &&& p1.cooldown[kind.spec_index() as int] == now
            &&& forall|j: int| 0 <= j < 4 && j != kind.spec_index() ==> #[trigger] p1.cooldown[j] == p0.cooldown[j]
            &&& p1.energy == p0.energy - kind.spec_cost() * 1000
            &&& (other != kind && later as int >= p0.cooldown[other.spec_index() as int] + v.cfg.cooldown_ms ==> {
                let out2 = spec_on_cast(v1, player, other, later).1;
                out2.len() > 0 && !(out2[0].msg matches MsgView::CastDenied { reason: DenyReason::Cooldown { .. }, .. })
            })
        }),
{
}

} // verus!

use phira::proto::{Accuracy, BpAction, Interference, NextStep};
use phira::server::{ClientMsg, DenyReason, Flow, Outgoing, Room, ServerConfig, ServerMsg};

/// A time in milliseconds since the Unix epoch (November 2023).
const T: u64 = 1_700_000_000_000;

fn cfg() -> ServerConfig {
    ServerConfig {
        cast_lock_ms: 0,
        cooldown_ms: 8_000,
        start_delay_ms: 0,
        ..ServerConfig::standard()
    }
}

fn acc(v: f32) -> Accuracy {
    Accuracy { bits: v.to_bits(), ten_thousandths: (v * 10000.0) as u32 }
}

fn to(out: &[Outgoing], seat: u8) -> Vec<ServerMsg> {
    out.iter().filter(|o| o.to == seat).map(|o| o.msg.clone()).collect()
}

fn join(room: &mut Room, code: &str, name: &str, charts: &[u32]) -> (Result<u8, String>, Vec<Outgoing>) {
    room.join(code.to_string(), name.to_string(), charts.to_vec())
}

fn send(room: &mut Room, seat: u8, msg: ClientMsg, now: u64) -> Vec<Outgoing> {
    let (out, flow) = room.dispatch(seat, msg, now);
    assert_eq!(flow, Flow::Continue);
    out
}

fn turn(out: &[Outgoing], seat: u8) -> Option<(u8, BpAction, Vec<u32>, bool)> {
    to(out, seat).into_iter().rev().find_map(|m| match m {
        ServerMsg::BpTurn { actor, action, pool, decider } => Some((actor, action, pool, decider)),
        _ => None,
    })
}

fn round_start(out: &[Outgoing], seat: u8) -> Option<(u8, u32)> {
    to(out, seat).into_iter().find_map(|m| match m {
        ServerMsg::RoundStart { index, chart, .. } => Some((index, chart)),
        _ => None,
    })
}

fn round_end(out: &[Outgoing], seat: u8) -> Option<(Option<u8>, NextStep)> {
    to(out, seat).into_iter().find_map(|m| match m {
        ServerMsg::RoundEnd { winner, next, .. } => Some((winner, next)),
        _ => None,
    })
}

fn play_round(room: &mut Room, score_a: u32, score_b: u32, now: u64) -> Vec<Outgoing> {
    send(room, 0, ClientMsg::Progress { score: score_a / 2, accuracy: acc(0.99), combo: 100, energy_milli: 60_000 }, now);
    let out = send(room, 1, ClientMsg::Progress { score: score_b / 2, accuracy: acc(0.97), combo: 80, energy_milli: 20_000 }, now);
    assert!(to(&out, 0).iter().any(|m| matches!(m, ServerMsg::PeerProgress { player: 1, .. })));
    send(room, 0, ClientMsg::Finish { score: score_a, accuracy: acc(0.99), max_combo: 300, counts: [500, 10, 2, 1] }, now);
    send(room, 1, ClientMsg::Finish { score: score_b, accuracy: acc(0.97), max_combo: 200, counts: [400, 50, 20, 40] }, now)
}

#[test]
fn full_match() {
    let mut room = Room::new(cfg());

    // Joining, and the pool is what both players have.
    let (a, out_a) = join(&mut room, "TEST", "小明", &[1, 2, 3, 4, 5, 6]);
    assert_eq!(a, Ok(0));
    assert!(to(&out_a, 0).iter().any(|m| matches!(m, ServerMsg::Welcome { you: 0, .. })));
    let (b, out) = join(&mut room, "TEST", "小红", &[4, 5, 6, 7, 8]);
    assert_eq!(b, Ok(1));
    assert!(to(&out, 1).iter().any(|m| matches!(m, ServerMsg::Welcome { you: 1, .. })));
    assert!(to(&out, 0).iter().any(|m| matches!(m, ServerMsg::PeerJoined { player: 1, .. })));
    let pool = to(&out, 0).into_iter().find_map(|m| match m {
        ServerMsg::Pool { charts } => Some(charts),
        _ => None,
    });
    assert_eq!(pool, Some(vec![4, 5, 6]));
    assert!(to(&out, 1).iter().any(|m| matches!(m, ServerMsg::Pool { .. })));

    // Ban / ban / pick / pick.
    assert_eq!(turn(&out, 0), Some((0, BpAction::Ban, vec![4, 5, 6], false)));
    let out = send(&mut room, 0, ClientMsg::Ban { chart: 4 }, T + 1_000);
    assert_eq!(turn(&out, 1), Some((1, BpAction::Ban, vec![5, 6], false)));
    let out = send(&mut room, 1, ClientMsg::Ban { chart: 5 }, T + 1_000);
    assert_eq!(turn(&out, 0), Some((0, BpAction::Pick, vec![6], false)));
    let out = send(&mut room, 0, ClientMsg::Pick { chart: 6 }, T + 1_000);
    assert_eq!(turn(&out, 1).map(|t| (t.0, t.1)), Some((1, BpAction::Pick)));
    let out = send(&mut room, 1, ClientMsg::Pick { chart: 6 }, T + 1_000);
    assert!(to(&out, 1).iter().any(|m| matches!(m, ServerMsg::Error { .. })));

    // Both leave: the room starts over.
    room.on_disconnect(0);
    room.on_disconnect(1);
    assert!(room.is_empty());

    // The real match, with a larger pool.
    let (a, _) = join(&mut room, "R2", "小明", &[1, 2, 3, 4, 5, 6, 7, 8]);
    let (b, out) = join(&mut room, "R2", "小红", &[3, 4, 5, 6, 7, 8, 9, 10]);
    assert_eq!((a, b), (Ok(0), Ok(1)));
    let pool = to(&out, 0).into_iter().find_map(|m| match m {
        ServerMsg::Pool { charts } => Some(charts),
        _ => None,
    });
    assert_eq!(pool, Some(vec![3, 4, 5, 6, 7, 8]));
    send(&mut room, 0, ClientMsg::Ban { chart: 3 }, T + 1_000);
    send(&mut room, 1, ClientMsg::Ban { chart: 4 }, T + 1_000);
    send(&mut room, 0, ClientMsg::Pick { chart: 5 }, T + 1_000);
    let out = send(&mut room, 1, ClientMsg::Pick { chart: 6 }, T + 1_000);
    let done = to(&out, 0).into_iter().find_map(|m| match m {
        ServerMsg::BpDone { chart_a, chart_b } => Some((chart_a, chart_b)),
        _ => None,
    });
    assert_eq!(done, Some((5, 6)));

    // Round one.
    assert_eq!(round_start(&out, 0), Some((0, 5)));
    assert_eq!(round_start(&out, 1), Some((0, 5)));

    // Too little energy: refused.
    let out = send(&mut room, 1, ClientMsg::Cast { kind: Interference::Dim }, T + 2_000);
    assert!(to(&out, 1).iter().any(|m| matches!(m, ServerMsg::CastDenied { kind: Interference::Dim, reason: DenyReason::LowEnergy { .. } })));

    // With energy the cast goes through, and only the other player is hit.
    let out = send(&mut room, 0, ClientMsg::Progress { score: 100, accuracy: acc(0.99), combo: 10, energy_milli: 80_000 }, T + 2_000);
    assert!(to(&out, 1).iter().any(|m| matches!(m, ServerMsg::PeerProgress { player: 0, .. })));
    let out = send(&mut room, 0, ClientMsg::Cast { kind: Interference::Fog }, T + 2_000);
    assert!(to(&out, 0).iter().any(|m| matches!(m, ServerMsg::CastOk { kind: Interference::Fog, energy_milli: 50_000 })));
    let hit = to(&out, 1).into_iter().find_map(|m| match m {
        ServerMsg::Attacked { kind, from, duration_ms } => Some((kind, from, duration_ms)),
        _ => None,
    });
    assert_eq!(hit, Some((Interference::Fog, 0, Interference::Fog.duration_ms())));
    assert!(!to(&out, 0).iter().any(|m| matches!(m, ServerMsg::Attacked { .. })));

    // The same kind again at once: cooling down.
    let out = send(&mut room, 0, ClientMsg::Cast { kind: Interference::Fog }, T + 2_000);
    assert!(to(&out, 0).iter().any(|m| matches!(m, ServerMsg::CastDenied { reason: DenyReason::Cooldown { .. }, .. })));

    let out = play_round(&mut room, 900_000, 800_000, T + 3_000);
    assert_eq!(round_end(&out, 0), Some((Some(0), NextStep::Round { index: 1 })));
    assert!(round_end(&out, 1).is_some());

    // Round two: B's chart, B wins.
    assert_eq!(round_start(&out, 0), Some((1, 6)));
    let out = play_round(&mut room, 700_000, 950_000, T + 20_000);
    assert_eq!(round_end(&out, 0), Some((Some(1), NextStep::Bp { actor: 0 })));

    // The deciding pick, from what is left of the pool.
    let t = to(&out, 0).into_iter().find_map(|m| match m {
        ServerMsg::BpTurn { pool, decider: true, .. } => Some(pool),
        _ => None,
    });
    assert_eq!(t, Some(vec![7, 8]));
    let out = send(&mut room, 0, ClientMsg::Pick { chart: 7 }, T + 21_000);
    assert_eq!(round_start(&out, 0), Some((2, 7)));
    assert_eq!(round_start(&out, 1), Some((2, 7)));

    let out = play_round(&mut room, 999_000, 500_000, T + 40_000);
    assert_eq!(round_end(&out, 0), Some((Some(0), NextStep::End)));
    let end = to(&out, 0).into_iter().find_map(|m| match m {
        ServerMsg::MatchEnd { winner, scores, reason } => Some((winner, scores.len(), reason)),
        _ => None,
    });
    assert_eq!(end, Some((0, 6, "2:1".to_string())));
    assert!(to(&out, 1).iter().any(|m| matches!(m, ServerMsg::MatchEnd { winner: 0, .. })));
}

#[test]
fn room_state_for_launcher_ui() {
    let mut room = Room::new(cfg());
    let state = room.state();
    assert_eq!(state.phase, "等待玩家");
    assert!(state.players.is_empty());
    assert!(room.is_empty());

    let (a, _) = join(&mut room, "UI", "甲", &[1, 2, 3, 4]);
    assert_eq!(a, Ok(0));
    let state = room.state();
    assert_eq!(state.code.as_deref(), Some("UI"));
    assert_eq!(state.players, vec!["甲".to_string()]);
    assert!(state.events.iter().any(|e| e.contains("甲") && e.contains("进房")));
    assert_eq!(state.event_count, state.events.len() as u64);

    let (b, _) = join(&mut room, "UI", "乙", &[3, 4, 5]);
    assert_eq!(b, Ok(1));
    let state = room.state();
    assert_eq!(state.phase, "BP 选曲");
    assert_eq!(state.players, vec!["甲".to_string(), "乙".to_string()]);
    assert_eq!(state.pool, vec![3, 4]);
    assert_eq!(state.bp_turn.as_deref(), Some("玩家1 禁用"));

    let out = send(&mut room, 0, ClientMsg::Ban { chart: 3 }, T + 1_000);
    assert!(to(&out, 0).iter().any(|m| matches!(m, ServerMsg::Notice { .. })));
    let state = room.state();
    assert_eq!(state.banned, vec![3]);
    assert!(state.events.iter().any(|e| e.contains("禁用")));
}

#[test]
fn rejects_wrong_room_code() {
    let mut room = Room::new(cfg());
    let (a, _) = join(&mut room, "AAAA", "甲", &[1, 2]);
    assert_eq!(a, Ok(0));
    let (b, out) = join(&mut room, "BBBB", "乙", &[1, 2]);
    match b {
        Err(message) => assert!(message.contains("房间码")),
        Ok(_) => panic!("a wrong room code must be refused"),
    }
    assert!(out.is_empty());
}

#[test]
fn leave_mid_match_ends_it() {
    let mut room = Room::new(cfg());
    join(&mut room, "LEAVE", "甲", &[1, 2, 3, 4]);
    join(&mut room, "LEAVE", "乙", &[1, 2, 3, 4]);
    send(&mut room, 0, ClientMsg::Ban { chart: 1 }, T + 1_000);
    send(&mut room, 1, ClientMsg::Ban { chart: 2 }, T + 1_000);
    send(&mut room, 0, ClientMsg::Pick { chart: 3 }, T + 1_000);
    let out = send(&mut room, 1, ClientMsg::Pick { chart: 4 }, T + 1_000);
    assert!(round_start(&out, 0).is_some());

    let out = room.on_disconnect(1);
    let end = to(&out, 0).into_iter().find_map(|m| match m {
        ServerMsg::MatchEnd { winner, reason, .. } => Some((winner, reason)),
        _ => None,
    });
    let (winner, reason) = end.expect("the match ends when a player drops");
    assert_eq!(winner, 0);
    assert!(reason.contains("掉线"));
}

#[test]
fn leave_message_closes_the_connection() {
    let mut room = Room::new(cfg());
    join(&mut room, "X", "甲", &[1]);
    let (out, flow) = room.dispatch(0, ClientMsg::Leave, 0);
    assert!(out.is_empty());
    assert_eq!(flow, Flow::Leave);
}

#[test]
fn ping_is_answered_to_the_sender() {
    let mut room = Room::new(cfg());
    join(&mut room, "X", "甲", &[1]);
    let out = send(&mut room, 0, ClientMsg::Ping { at: 42 }, T + 0);
    assert_eq!(out.len(), 1);
    assert_eq!(out[0].to, 0);
    assert!(matches!(out[0].msg, ServerMsg::Pong { at: 42 }));
}

#[test]
fn third_player_is_refused() {
    let mut room = Room::new(cfg());
    join(&mut room, "X", "甲", &[1]);
    join(&mut room, "X", "乙", &[1]);
    let (c, out) = join(&mut room, "X", "丙", &[1]);
    assert!(matches!(c, Err(ref m) if m.contains("房间满了")));
    assert!(out.is_empty());
}

#[test]
fn cast_outside_a_round_is_refused() {
    let mut room = Room::new(cfg());
    join(&mut room, "X", "甲", &[1, 2, 3, 4]);
    join(&mut room, "X", "乙", &[1, 2, 3, 4]);
    let out = send(&mut room, 0, ClientMsg::Cast { kind: Interference::Shake }, T + 0);
    assert!(to(&out, 0).iter().any(|m| matches!(m, ServerMsg::CastDenied { reason: DenyReason::NotInRound, .. })));
}

#[test]
fn cast_during_the_lock_is_refused() {
    let mut room = Room::new(ServerConfig::standard());
    join(&mut room, "X", "甲", &[1, 2, 3, 4]);
    join(&mut room, "X", "乙", &[1, 2, 3, 4]);
    send(&mut room, 0, ClientMsg::Ban { chart: 1 }, T + 1_000);
    send(&mut room, 1, ClientMsg::Ban { chart: 2 }, T + 1_000);
    send(&mut room, 0, ClientMsg::Pick { chart: 3 }, T + 1_000);
    send(&mut room, 1, ClientMsg::Pick { chart: 4 }, T + 1_000);
    send(&mut room, 0, ClientMsg::Progress { score: 1, accuracy: acc(1.0), combo: 1, energy_milli: 100_000 }, T + 1_500);
    let out = send(&mut room, 0, ClientMsg::Cast { kind: Interference::Noise }, T + 4_000);
    assert!(to(&out, 0).iter().any(|m| matches!(m, ServerMsg::CastDenied { reason: DenyReason::Locked { left_ms: 7_000 }, .. })));
}

#[test]
fn standard_config_values() {
    let c = ServerConfig::standard();
    assert_eq!((c.cast_lock_ms, c.energy_max, c.cooldown_ms, c.start_delay_ms), (10_000, 100, 8_000, 3_000));
    assert_eq!(ServerConfig::default(), c);
}

#[test]
fn event_count_keeps_growing_past_the_buffer() {
    let mut room = Room::new(cfg());
    for i in 0..150 {
        join(&mut room, "X", "甲", &[1]);
        room.on_disconnect(0);
        let _ = i;
    }
    let state = room.state();
    assert_eq!(state.events.len(), 200);
    assert_eq!(state.event_count, 300);
    assert!(state.events.last().unwrap().contains("甲"));
}

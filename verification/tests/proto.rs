use phira::proto::{encode_frame, check_header, frame_header, header_len, BpAction, FrameError, Interference, PlayerInfo, MAX_FRAME};
use phira::server::{make_room_code, room_summary};

#[test]
fn interference_table() {
    let all = Interference::all();
    assert_eq!(all, [Interference::Fog, Interference::Shake, Interference::Noise, Interference::Dim]);
    let costs: Vec<u32> = all.iter().map(|k| k.cost()).collect();
    assert_eq!(costs, vec![30, 35, 25, 40]);
    let durations: Vec<u64> = all.iter().map(|k| k.duration_ms()).collect();
    assert_eq!(durations, vec![2500, 2500, 2000, 2500]);
    let names: Vec<&str> = all.iter().map(|k| k.name()).collect();
    assert_eq!(names, vec!["迷雾", "抖线", "噪点", "压暗"]);
    for (i, k) in all.iter().enumerate() {
        assert_eq!(k.index(), i);
    }
}

#[test]
fn bp_action_names() {
    assert_eq!(BpAction::Ban.name(), "禁用");
    assert_eq!(BpAction::Pick.name(), "选曲");
}

#[test]
fn frame_header_is_little_endian() {
    assert_eq!(frame_header(0x0102_0304), [4, 3, 2, 1]);
    assert_eq!(header_len([4, 3, 2, 1]), 0x0102_0304);
    assert_eq!(header_len(frame_header(12345)), 12345);
}

#[test]
fn frame_roundtrip_of_a_payload() {
    let payload = b"{\"type\":\"ping\"}";
    let frame = encode_frame(payload).unwrap();
    assert_eq!(frame.len(), payload.len() + 4);
    let header = [frame[0], frame[1], frame[2], frame[3]];
    assert_eq!(check_header(header), Ok(payload.len() as u32));
    assert_eq!(&frame[4..], &payload[..]);
}

#[test]
fn oversized_frames_are_refused() {
    let big = vec![0u8; MAX_FRAME as usize + 1];
    assert_eq!(encode_frame(&big), Err(FrameError::TooLarge { len: MAX_FRAME as u64 + 1 }));
    let header = frame_header(MAX_FRAME + 1);
    assert_eq!(check_header(header), Err(FrameError::TooLarge { len: MAX_FRAME as u64 + 1 }));
    assert_eq!(check_header(frame_header(MAX_FRAME)), Ok(MAX_FRAME));
    assert!(encode_frame(&vec![1u8; MAX_FRAME as usize]).is_ok());
}

#[test]
fn room_codes_are_stable() {
    assert_eq!(make_room_code(0), "9JTW");
    assert_eq!(make_room_code(1), "Y3NG");
    assert_eq!(make_room_code(12345), "2ZCF");
    let code = make_room_code(987654321);
    assert_eq!(code.chars().count(), 4);
    assert!(code.chars().all(|c| "ABCDEFGHJKLMNPQRSTUVWXYZ23456789".contains(c)));
}

#[test]
fn room_summary_lists_names() {
    let players = vec![PlayerInfo { name: "甲".to_string() }, PlayerInfo { name: "乙".to_string() }];
    assert_eq!(room_summary(&players), "2 人：甲 vs 乙");
    assert_eq!(room_summary(&[]), "0 人：");
}

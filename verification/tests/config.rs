use phira::config::{
    challenge_rank_input, upload_tap, UploadTap,
    afterimage_count, combo_label, combo_text_input, next_audio_buffer, next_sample_rate, toggle_sample_count, ChallengeColor, HealthBarColor,
    HudCorner, JudgeTextStyle, Mods, TouchMarkerColor, TouchMarkerStyle, AUTOPLAY, FADE_IN, FADE_OUT, FULL_SCREEN_JUDGE, HEALTH_MODE,
    INSTANT_DEATH_AP, INSTANT_DEATH_FC, NIGHTCORE, NO_COMBO_SCORE, NO_SHADER,
};

fn m(bits: i32) -> Mods {
    Mods { bits }
}

#[test]
fn toggling_a_mod_turns_it_on_and_off() {
    let mut mods = Mods::empty();
    mods.toggle_mod(m(NIGHTCORE));
    assert!(mods.contains(m(NIGHTCORE)));
    mods.toggle_mod(m(NIGHTCORE));
    assert_eq!(mods, Mods::empty());
}

#[test]
fn fades_exclude_each_other() {
    let mut mods = Mods::empty();
    mods.toggle_mod(m(FADE_IN));
    mods.toggle_mod(m(FADE_OUT));
    assert!(mods.contains(m(FADE_OUT)));
    assert!(!mods.contains(m(FADE_IN)));
    mods.toggle_mod(m(FADE_IN));
    assert!(mods.contains(m(FADE_IN)));
    assert!(!mods.contains(m(FADE_OUT)));
}

#[test]
fn instant_deaths_exclude_each_other() {
    let mut mods = m(INSTANT_DEATH_AP | AUTOPLAY);
    mods.toggle_mod(m(INSTANT_DEATH_FC));
    assert_eq!(mods, m(INSTANT_DEATH_FC | AUTOPLAY));
}

#[test]
fn set_insert_remove() {
    let mut mods = Mods::empty();
    mods.set(m(AUTOPLAY), true);
    mods.insert(m(HEALTH_MODE));
    assert!(mods.intersects(m(HEALTH_MODE | NO_SHADER)));
    mods.remove(m(HEALTH_MODE));
    assert_eq!(mods, m(AUTOPLAY));
    mods.set(m(AUTOPLAY), false);
    assert_eq!(mods, Mods::empty());
}

#[test]
fn unrated_mods_are_cleared() {
    let mut mods = m(AUTOPLAY | NO_COMBO_SCORE | NIGHTCORE | FULL_SCREEN_JUDGE);
    assert_eq!(mods.clear_unrated(), 3);
    assert_eq!(mods, m(NIGHTCORE));
}

#[test]
fn option_cycles() {
    assert_eq!(ChallengeColor::default(), ChallengeColor::Golden);
    assert_eq!(ChallengeColor::Golden.next(), ChallengeColor::Rainbow);
    assert_eq!(ChallengeColor::Rainbow.next(), ChallengeColor::White);
    let mut c = ChallengeColor::White;
    for _ in 0..6 {
        c = c.next();
    }
    assert_eq!(c, ChallengeColor::White);

    assert_eq!(HealthBarColor::default(), HealthBarColor::White);
    assert_eq!(HealthBarColor::Purple.next(), HealthBarColor::White);
    assert_eq!(JudgeTextStyle::default(), JudgeTextStyle::RisePop);
    let mut j = JudgeTextStyle::default();
    for _ in 0..4 {
        j = j.next();
    }
    assert_eq!(j, JudgeTextStyle::RisePop);
    assert_eq!(TouchMarkerStyle::default(), TouchMarkerStyle::Circle);
    assert_eq!(TouchMarkerColor::default(), TouchMarkerColor::Red);
    assert_eq!(HudCorner::default(), HudCorner::LeftCenter);
    assert_eq!(HudCorner::BottomRight.next(), HudCorner::TopLeft);
    assert_eq!(HudCorner::TopLeft.anchor_steps(), (-1, 1));
    assert_eq!(HudCorner::Center.anchor_steps(), (0, 0));
    assert_eq!(HudCorner::BottomRight.anchor_steps(), (1, -1));
}

#[test]
fn integer_settings() {
    assert_eq!(afterimage_count(0), 1);
    assert_eq!(afterimage_count(7), 7);
    assert_eq!(afterimage_count(1000), 255);
    assert_eq!(toggle_sample_count(1), 2);
    assert_eq!(toggle_sample_count(4), 1);
    assert_eq!(next_sample_rate(None), Some(44100));
    assert_eq!(next_sample_rate(Some(96000)), Some(192000));
    assert_eq!(next_sample_rate(Some(192000)), None);
    assert_eq!(next_sample_rate(Some(12345)), Some(44100));
    assert_eq!(next_audio_buffer(None), Some(512));
    assert_eq!(next_audio_buffer(Some(512)), Some(128));
    assert_eq!(next_audio_buffer(Some(128)), Some(256));
    assert_eq!(next_audio_buffer(Some(7)), Some(512));
}

#[test]
fn combo_texts() {
    assert_eq!(combo_label(m(AUTOPLAY), "x"), "AUTOPLAY");
    assert_eq!(combo_label(Mods::empty(), ""), "COMBO");
    assert_eq!(combo_label(Mods::empty(), "连击"), "连击");
    assert_eq!(combo_text_input("  一二三四五六七八九十一二三四五六七八  "), "一二三四五六七八九十一二三四五六");
    assert_eq!(combo_text_input(" abc "), "abc");
}

#[test]
fn challenge_rank_text() {
    assert_eq!(challenge_rank_input("12"), Some(12));
    assert_eq!(challenge_rank_input(" +7 "), Some(7));
    assert_eq!(challenge_rank_input("999"), Some(999));
    assert_eq!(challenge_rank_input("0000999"), Some(999));
    assert_eq!(challenge_rank_input("0"), Some(0));
    assert_eq!(challenge_rank_input("1000"), None);
    assert_eq!(challenge_rank_input("99999999999"), None);
    assert_eq!(challenge_rank_input(""), None);
    assert_eq!(challenge_rank_input("+"), None);
    assert_eq!(challenge_rank_input("-1"), None);
    assert_eq!(challenge_rank_input("1a"), None);
}

#[test]
fn upload_switch() {
    assert_eq!(upload_tap(true, true), UploadTap::TurnOff);
    assert_eq!(upload_tap(false, true), UploadTap::TurnOn);
    assert_eq!(upload_tap(false, false), UploadTap::AskConsent);
}

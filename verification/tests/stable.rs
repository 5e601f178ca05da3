//! Text becomes final only when the recognizer says so.
use voice_keyboard_core::stable::StableText;

fn code<T>(r: Result<T, voice_keyboard_core::CoreError>) -> String {
    match r {
        Ok(_) => "ok".to_owned(),
        Err(e) => e.code().to_owned(),
    }
}

#[test]
fn draft_can_be_revised() {
    let mut s = StableText::default();
    assert!(s.observe(0, 10, 0, "登陆".into()).unwrap().is_empty());
    assert!(s.observe(0, 10, 0, "登录".into()).unwrap().is_empty());
    assert_eq!(s.draft(), "登录");
    assert_eq!(s.observe(0, 10, 10, "登录".into()).unwrap(), vec!["登录"]);
    assert!(s.draft().is_empty());
}

#[test]
fn finality_flushes_prior_volatile_ranges() {
    let mut s = StableText::default();
    s.observe(0, 10, 0, "中文".into()).unwrap();
    assert_eq!(s.observe(10, 20, 20, " English 👩🏽\u{200d}💻".into()).unwrap(), vec!["中文", " English 👩🏽\u{200d}💻"]);
}

#[test]
fn committed_text_is_never_retracted() {
    let mut s = StableText::default();
    s.observe(0, 10, 10, "登陆".into()).unwrap();
    assert!(s.observe(0, 10, 10, "登录".into()).unwrap().is_empty());
    assert!(s.observe(5, 20, 20, "replacement".into()).is_err());
}

#[test]
fn silence_is_not_finality() {
    let mut s = StableText::default();
    for _ in 0..100 {
        assert!(s.observe(0, 10, 0, "一句话。".into()).unwrap().is_empty());
    }
}

#[test]
fn empty_final_result_advances_range_without_chunk() {
    let mut s = StableText::default();
    s.observe(0, 10, 0, "撤回".into()).unwrap();
    assert!(s.observe(0, 10, 10, String::new()).unwrap().is_empty());
    assert_eq!(s.observe(10, 20, 20, "保留".into()).unwrap(), vec!["保留"]);
}

#[test]
fn ranges_that_make_no_sense_are_refused() {
    let mut s = StableText::default();
    assert_eq!(code(s.observe(-1, 10, 0, "a".into())), "invalid_audio_range");
    assert_eq!(code(s.observe(10, 9, 0, "a".into())), "invalid_audio_range");
    assert_eq!(code(s.observe(0, 10, -1, "a".into())), "invalid_audio_range");
    assert_eq!(code(s.observe(0, 10, 0, "a".repeat(16385))), "invalid_audio_range");
    assert_eq!(code(s.observe(0, 10, 0, "a".repeat(16384))), "ok");
}

#[test]
fn text_that_was_given_out_cannot_be_reached_again() {
    let mut s = StableText::default();
    assert_eq!(s.observe(0, 10, 10, "one".into()).unwrap(), vec!["one"]);
    assert_eq!(code(s.observe(5, 20, 20, "two".into())), "finalized_revision");
    assert!(s.observe(0, 10, 10, "three".into()).unwrap().is_empty());
    assert_eq!(s.observe(10, 20, 20, "four".into()).unwrap(), vec!["four"]);
}

#[test]
fn overlapping_drafts_replace_each_other_in_the_order_of_the_audio() {
    let mut s = StableText::default();
    s.observe(20, 30, 0, "c".into()).unwrap();
    s.observe(0, 10, 0, "a".into()).unwrap();
    s.observe(10, 20, 0, "b".into()).unwrap();
    assert_eq!(s.draft(), "abc");
    s.observe(5, 15, 0, "x".into()).unwrap();
    assert_eq!(s.draft(), "xc");
}

#[test]
fn what_is_given_out_and_what_is_left_is_what_was_heard() {
    let mut s = StableText::default();
    s.observe(0, 10, 0, "one ".into()).unwrap();
    s.observe(10, 20, 0, "".into()).unwrap();
    s.observe(20, 30, 0, "two ".into()).unwrap();
    let ready = s.observe(30, 40, 25, "three".into()).unwrap();
    assert_eq!(ready, vec!["one "]);
    assert_eq!(s.draft(), "two three");
}

use openless::learner::{candidate, streak};

#[test]
fn extracts_word_inside_chinese_sentence() {
    assert_eq!(
        candidate("我在青语 聊天。", "我在轻羽 聊天。"),
        Some(("青语".into(), "轻羽".into()))
    );
}

#[test]
fn latin_words_remain_whole() {
    assert_eq!(
        candidate("use openles now", "use openless now"),
        Some(("openles".into(), "openless".into()))
    );
}

#[test]
fn ignores_non_word_changes() {
    for (a, b) in [
        ("青语", "青语 "),
        ("明天交付", "下周交付"),
        ("付100元", "付200元"),
        ("你好", ""),
        ("", "轻羽"),
        ("甲，乙。", "丙，丁。"),
        ("大江", "大疆"),
    ] {
        assert!(candidate(a, b).is_none(), "{a} -> {b}");
    }
}

#[test]
fn conflicts_break_streak() {
    let pair = |a: &str, b: &str| (a.to_string(), b.to_string());
    assert_eq!(
        streak("青语", "轻羽", &[pair("青语", "轻羽"), pair("青语", "轻羽")]),
        2
    );
    assert_eq!(
        streak(
            "青语",
            "轻羽",
            &[pair("青语", "轻羽"), pair("轻羽", "青语"), pair("青语", "轻羽")]
        ),
        1
    );
    assert_eq!(
        streak(
            "青语",
            "轻羽",
            &[pair("青语", "轻羽"), pair("青语", "清雨"), pair("青语", "轻羽")]
        ),
        1
    );
}

#[test]
fn unchanged_text_teaches_nothing() {
    assert!(candidate("我在青语聊天", "我在青语聊天").is_none());
}

#[test]
fn reverse_edit_gives_reverse_pair() {
    assert_eq!(
        candidate("我在轻羽 聊天。", "我在青语 聊天。"),
        Some(("轻羽".into(), "青语".into()))
    );
    assert_eq!(
        candidate("use openless now", "use openles now"),
        Some(("openless".into(), "openles".into()))
    );
}

#[test]
fn surrounding_white_space_is_ignored() {
    assert_eq!(
        candidate("  我在青语 聊天。\n", "我在轻羽 聊天。"),
        Some(("青语".into(), "轻羽".into()))
    );
}

#[test]
fn words_longer_than_twelve_are_ignored() {
    assert!(candidate("abcdefghijklm", "abcdefghijklx").is_none());
    assert_eq!(
        candidate("abcdefghijkl", "abcdefghijkx"),
        Some(("abcdefghijkl".into(), "abcdefghijkx".into()))
    );
}

#[test]
fn words_with_negations_or_numerals_are_ignored() {
    assert!(candidate("可以走", "那边走").is_none());
    assert!(candidate("三角", "圆圈").is_none());
    assert_eq!(candidate("方块", "圆圈"), Some(("方块".into(), "圆圈".into())));
}

#[test]
fn unrelated_corrections_do_not_break_streak() {
    let pair = |a: &str, b: &str| (a.to_string(), b.to_string());
    assert_eq!(
        streak("青语", "轻羽", &[pair("青语", "轻羽"), pair("大江", "大疆"), pair("青语", "轻羽")]),
        2
    );
    assert_eq!(streak("青语", "轻羽", &[]), 0);
    assert_eq!(streak("青语", "轻羽", &[pair("青语", "清雨")]), 0);
}

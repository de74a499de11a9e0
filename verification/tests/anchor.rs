use openless::anchor::Anchor;

#[test]
fn tracks_only_inserted_region() {
    let a = Anchor::new("前文你好后文", "你好").unwrap();
    assert_eq!(a.extract("前文您好后文"), Some("您好".into()));
    assert!(a.extract("改了前文您好后文").is_none());
}

#[test]
fn rejects_ambiguous_and_missing_baseline() {
    assert!(Anchor::new("你好你好", "你好").is_none());
    assert!(Anchor::new("别的文字", "你好").is_none());
    assert!(Anchor::new("文字", "").is_none());
}

#[test]
fn supports_unicode_and_insertion() {
    let a = Anchor::new("[🚀大疆]", "🚀大疆").unwrap();
    assert_eq!(a.extract("[🚀大疆麦克风]"), Some("🚀大疆麦克风".into()));
}

#[test]
fn handles_empty_and_oversized_edits() {
    let a = Anchor::new("[文字]", "文字").unwrap();
    assert_eq!(a.extract("[]"), Some(String::new()));
    assert!(a.extract(&format!("[{}]", "字".repeat(4001))).is_none());
}

#[test]
fn overlapping_occurrences_are_ambiguous() {
    assert!(Anchor::new("aaa", "aa").is_none());
}

#[test]
fn unchanged_document_reads_back_the_insertion() {
    let a = Anchor::new("hello world", "world").unwrap();
    assert_eq!(a.extract("hello world"), Some("world".into()));
}

#[test]
fn any_edit_between_the_surroundings_is_read_back() {
    let a = Anchor::new("<<abc>>", "abc").unwrap();
    assert_eq!(a.extract("<<xyz123>>"), Some("xyz123".into()));
    assert_eq!(a.extract("<<>>"), Some(String::new()));
}

#[test]
fn changes_after_the_region_are_rejected() {
    let a = Anchor::new("<<abc>>", "abc").unwrap();
    assert!(a.extract("<<abc>>!").is_none());
    assert!(a.extract("<<abc>").is_none());
}

#[test]
fn edit_of_exactly_the_limit_is_accepted() {
    let a = Anchor::new("[文字]", "文字").unwrap();
    let edit = "字".repeat(4000);
    assert_eq!(a.extract(&format!("[{}]", edit)), Some(edit));
}

#[test]
fn whole_document_insertion() {
    let a = Anchor::new("abc", "abc").unwrap();
    assert_eq!(a.extract("x"), Some("x".into()));
}

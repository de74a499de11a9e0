use openless::capture::CaptureState;
use openless::field::{
    app_name, check_app, check_legacy_state, field_snapshot, field_too_long, focus_moved, has_word_token,
    check_runtime_ids, is_qq, is_qq_editor_class, is_text_control, runtime_id_ok, ElementFacts, FieldFacts,
    LegacyFacts, RuntimeIdFacts, ValueFacts, DOCUMENT_CONTROL, EDIT_CONTROL, GROUP_CONTROL,
};
use openless::text::{char_is_whitespace, decimal_text, is_blank, normalize_newlines};

#[test]
fn app_name_is_the_file_name() {
    assert_eq!(app_name("C:\\Program Files\\Tencent\\QQ.exe"), "QQ.exe");
    assert_eq!(app_name("notepad.exe"), "notepad.exe");
    assert_eq!(app_name("C:\\dir\\"), "");
}

#[test]
fn sensitive_apps_are_refused() {
    assert!(check_app("KeePassXC.exe").is_err());
    assert!(check_app("WindowsTerminal.exe").is_err());
    assert_eq!(check_app("cmd.exe"), Err("未捕获：密码管理器、终端或敏感系统窗口".to_string()));
    assert_eq!(check_app("notepad.exe"), Ok(()));
    assert!(is_qq("QQ.exe"));
    assert!(!is_qq("qqmusic.exe"));
}

#[test]
fn qq_composer_class_names() {
    assert!(is_qq_editor_class("ProseMirror ExEditor-qq-msg-editor other"));
    assert!(!is_qq_editor_class("ProseMirror-x ExEditor-qq-msg-editor"));
    assert!(!is_qq_editor_class("ProseMirror"));
    assert!(has_word_token("a  b\tc", "b"));
    assert!(!has_word_token("abc", "b"));
    assert!(!has_word_token("a b", ""));
}

#[test]
fn text_controls() {
    assert!(is_text_control(EDIT_CONTROL, false, false));
    assert!(is_text_control(DOCUMENT_CONTROL, false, false));
    assert!(!is_text_control(GROUP_CONTROL, false, false));
    assert!(is_text_control(GROUP_CONTROL, false, true));
    assert!(is_text_control(GROUP_CONTROL, true, false));
}

#[test]
fn legacy_states() {
    assert_eq!(check_legacy_state(0x2000_0000, false), Err("未捕获：密码输入框".to_string()));
    assert_eq!(check_legacy_state(0x40, true), Err("未捕获：只读控件".to_string()));
    assert_eq!(check_legacy_state(0x40, false), Ok(()));
    assert_eq!(check_legacy_state(0, true), Ok(()));
}

#[test]
fn runtime_ids_and_focus() {
    assert!(runtime_id_ok(0, 3));
    assert!(runtime_id_ok(0, 128));
    assert!(!runtime_id_ok(0, 129));
    assert!(!runtime_id_ok(3, 0));
    assert!(focus_moved(&Some(vec![1, 2]), &vec![1, 3]));
    assert!(!focus_moved(&Some(vec![1, 2]), &vec![1, 2]));
    assert!(!focus_moved(&None, &vec![1, 2]));
}

#[test]
fn field_length_in_utf16_units() {
    assert!(!field_too_long(&"a".repeat(20000)));
    assert!(field_too_long(&"a".repeat(20001)));
    assert!(field_too_long(&"🚀".repeat(10001)));
    assert!(!field_too_long(&"🚀".repeat(10000)));
}

#[test]
fn line_endings_are_normalized() {
    assert_eq!(normalize_newlines("a\r\nb\r\r\n\n"), "a\nb\r\n\n");
    assert_eq!(normalize_newlines(""), "");
    let _ = CaptureState::initial(true);
}

fn units(s: &str) -> Vec<u16> {
    s.encode_utf16().collect()
}

fn edit_element(text: &str) -> ElementFacts {
    ElementFacts {
        is_password: Some(false),
        control: Ok(EDIT_CONTROL),
        keyboard_focusable: true,
        class_name: None,
        text_pattern: Some(Some(text.to_string())),
        value_pattern: None,
        legacy: None,
        runtime_id: Ok(Some(RuntimeIdFacts { lower: Ok(0), upper: Ok(1), ids: Ok(vec![42, 7]) })),
    }
}

fn facts(path: &str, element: Result<ElementFacts, String>) -> FieldFacts {
    FieldFacts { process_path: units(path), element }
}

fn snapshot_of(f: FieldFacts, expected: Option<Vec<i32>>) -> Result<(String, Vec<i32>, String), String> {
    assert!(check_runtime_ids(&f));
    field_snapshot(f, expected).map(|s| (s.app, s.focus, s.text))
}

#[test]
fn a_readable_edit_field_is_captured() {
    let r = snapshot_of(facts("C:\\Apps\\notepad.exe", Ok(edit_element("a\r\nb"))), Some(vec![42, 7]));
    assert_eq!(r, Ok(("notepad.exe".to_string(), vec![42, 7], "a\nb".to_string())));
}

#[test]
fn field_refusals_in_order() {
    assert_eq!(
        snapshot_of(facts("C:\\x\\KeePass.exe", Err("unreachable".into())), None),
        Err("未捕获：密码管理器、终端或敏感系统窗口".to_string())
    );
    assert_eq!(
        snapshot_of(facts("C:\\x\\app.exe", Err("此应用未提供可访问的输入框".into())), None),
        Err("此应用未提供可访问的输入框".to_string())
    );
    let mut e = edit_element("x");
    e.is_password = None;
    assert_eq!(snapshot_of(facts("app.exe", Ok(e)), None), Err("无法确认输入框是否安全".to_string()));
    let mut e = edit_element("x");
    e.is_password = Some(true);
    assert_eq!(snapshot_of(facts("app.exe", Ok(e)), None), Err("未捕获：密码输入框".to_string()));
    let mut e = edit_element("x");
    e.control = Err("boom".into());
    assert_eq!(snapshot_of(facts("app.exe", Ok(e)), None), Err("boom".to_string()));
    let mut e = edit_element("x");
    e.legacy = Some(LegacyFacts { role_is_text: false, state: None, value: None });
    assert_eq!(snapshot_of(facts("app.exe", Ok(e)), None), Err("无法确认旧式输入框状态".to_string()));
    let mut e = edit_element("x");
    e.legacy = Some(LegacyFacts { role_is_text: true, state: Some(0x40), value: None });
    assert_eq!(snapshot_of(facts("app.exe", Ok(e)), None), Err("未捕获：只读控件".to_string()));
    let mut e = edit_element("x");
    e.control = Ok(-50000);
    assert_eq!(
        snapshot_of(facts("C:\\p\\app.exe", Ok(e)), None),
        Err("app.exe：焦点未暴露为可编辑文本控件（控件类型 -50000）".to_string())
    );
    let mut e = edit_element("x");
    e.runtime_id = Ok(None);
    assert_eq!(snapshot_of(facts("app.exe", Ok(e)), None), Err("输入框没有稳定标识".to_string()));
    let mut e = edit_element("x");
    e.runtime_id = Ok(Some(RuntimeIdFacts { lower: Ok(0), upper: Ok(129), ids: Ok(vec![0; 130]) }));
    assert_eq!(snapshot_of(facts("app.exe", Ok(e)), None), Err("输入框标识异常".to_string()));
    let e = edit_element("x");
    assert_eq!(
        snapshot_of(facts("app.exe", Ok(e)), Some(vec![1])),
        Err("已停止：焦点移到了另一个输入框".to_string())
    );
    let mut e = edit_element("x");
    e.text_pattern = Some(None);
    assert_eq!(snapshot_of(facts("app.exe", Ok(e)), None), Err("此输入框无法读取文本".to_string()));
    let e = edit_element(&"a".repeat(20001));
    assert_eq!(snapshot_of(facts("app.exe", Ok(e)), None), Err("未捕获：输入框文字超过 20000 字符".to_string()));
}

#[test]
fn other_text_interfaces() {
    let mut e = edit_element("x");
    e.text_pattern = None;
    e.value_pattern = Some(ValueFacts { read_only: Ok(true), value: Some("v".into()) });
    assert_eq!(snapshot_of(facts("app.exe", Ok(e)), None), Err("未捕获：只读控件".to_string()));
    let mut e = edit_element("x");
    e.text_pattern = None;
    e.value_pattern = Some(ValueFacts { read_only: Ok(false), value: Some("v".into()) });
    assert_eq!(snapshot_of(facts("app.exe", Ok(e)), None).map(|s| s.2), Ok("v".to_string()));
    let mut e = edit_element("x");
    e.control = Ok(50000);
    e.text_pattern = None;
    e.legacy = Some(LegacyFacts { role_is_text: true, state: Some(0), value: None });
    assert_eq!(snapshot_of(facts("app.exe", Ok(e)), None), Err("旧式辅助功能接口无法读取输入框文本".to_string()));
    let mut e = edit_element("x");
    e.text_pattern = None;
    assert_eq!(
        snapshot_of(facts("app.exe", Ok(e)), None),
        Err("app.exe：输入框未提供可读文本接口（Text / Value / MSAA，控件类型 50004）".to_string())
    );
}

#[test]
fn qq_composer_group_is_a_text_field() {
    let mut e = edit_element("你好");
    e.control = Ok(GROUP_CONTROL);
    e.class_name = Some("ProseMirror ExEditor-qq-msg-editor".into());
    assert_eq!(snapshot_of(facts("D:\\QQ\\QQ.exe", Ok(e)), None).map(|s| s.2), Ok("你好".to_string()));
    let mut e = edit_element("你好");
    e.control = Ok(GROUP_CONTROL);
    e.class_name = Some("ProseMirror".into());
    assert!(snapshot_of(facts("D:\\QQ\\QQ.exe", Ok(e)), None).is_err());
}

#[test]
fn overflowing_id_bounds_are_detected() {
    let mut e = edit_element("x");
    e.runtime_id = Ok(Some(RuntimeIdFacts { lower: Ok(i32::MIN), upper: Ok(i32::MAX), ids: Ok(vec![]) }));
    assert!(!check_runtime_ids(&facts("app.exe", Ok(e))));
    let mut e = edit_element("x");
    e.runtime_id = Ok(Some(RuntimeIdFacts { lower: Ok(i32::MIN), upper: Ok(i32::MAX), ids: Ok(vec![]) }));
    e.is_password = Some(true);
    assert!(check_runtime_ids(&facts("app.exe", Ok(e))), "bounds that are never checked do not matter");
    let mut e = edit_element("x");
    e.runtime_id = Ok(Some(RuntimeIdFacts { lower: Ok(0), upper: Ok(1), ids: Ok(vec![42]) }));
    assert!(!check_runtime_ids(&facts("app.exe", Ok(e))), "one id per index of the bounds");
}

#[test]
fn a_captured_focus_has_one_to_129_ids() {
    let mut e = edit_element("x");
    e.runtime_id = Ok(Some(RuntimeIdFacts { lower: Ok(5), upper: Ok(133), ids: Ok((0..129).collect()) }));
    assert_eq!(snapshot_of(facts("app.exe", Ok(e)), None).map(|s| s.1.len()), Ok(129));
    let mut e = edit_element("x");
    e.runtime_id = Ok(Some(RuntimeIdFacts { lower: Ok(-3), upper: Ok(-3), ids: Ok(vec![9]) }));
    assert_eq!(snapshot_of(facts("app.exe", Ok(e)), None).map(|s| s.1), Ok(vec![9]));
}

#[test]
fn decimal_numbers() {
    assert_eq!(decimal_text(0), "0");
    assert_eq!(decimal_text(50004), "50004");
    assert_eq!(decimal_text(-7), "-7");
    assert_eq!(decimal_text(i32::MIN), "-2147483648");
    assert_eq!(decimal_text(i32::MAX), "2147483647");
}

#[test]
fn white_space_is_the_unicode_set() {
    for c in ['\t', '\n', '\r', ' ', '\u{85}', '\u{a0}', '\u{1680}', '\u{2000}', '\u{200a}', '\u{2028}', '\u{3000}'] {
        assert!(char_is_whitespace(c));
    }
    for c in ['a', '\u{200b}', '\u{180e}', '好'] {
        assert!(!char_is_whitespace(c));
    }
    assert!(is_blank(" \u{3000}\n"));
    assert!(!is_blank(" x "));
}

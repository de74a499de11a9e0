//! Rules for reading the focused text field of another application.
use vstd::prelude::*;
use crate::devices::{contains_text, has_text};
use crate::devices::decode_utf16_lossy;
use crate::devices::utf16_lossy;
use crate::text::{
    char_is_whitespace, chars_of, crlf_to_lf, decimal, decimal_text, is_white_space, literal, normalize_newlines, string_of,
    text_eq,
};
use crate::watch::{copy_focus, Snapshot};
use vstd::string::*;

verus! {

/// UI Automation control type of an edit box.
pub const EDIT_CONTROL: i32 = 50004;

/// UI Automation control type of a document.
pub const DOCUMENT_CONTROL: i32 = 50030;

/// UI Automation control type of a group.
pub const GROUP_CONTROL: i32 = 50026;

/// MSAA state bit of a protected (password) field.
pub const STATE_PROTECTED: u32 = 0x2000_0000;

/// MSAA state bit of a read-only field.
pub const STATE_READONLY: u32 = 0x40;

/// The largest runtime id accepted, as `upper bound - lower bound`.
pub const MAX_RUNTIME_ID_SPAN: i32 = 128;

/// The largest text read from a field, in UTF-16 code units.
pub const MAX_FIELD_UNITS: usize = 20000;

/// `s` in lower case (`str::to_lowercase`).
pub uninterp spec fn lowercase(s: Seq<char>) -> Seq<char>;

/// `str::to_lowercase`: the result is [`lowercase`] of `s`; which characters
/// it maps is not stated.
#[verifier::external_body]
fn to_lowercase(s: &str) -> (r: String)
    ensures
        r@ == lowercase(s@),
{
    s.to_lowercase()
}

/// The file name at the end of a Windows path: what follows the last `\`.
pub open spec fn file_name(path: Seq<char>) -> Seq<char> {
    if exists|i: int| 0 <= i < path.len() && path[i] == '\\' {
        let i = choose|i: int| 0 <= i < path.len() && path[i] == '\\' && forall|j: int| i < j < path.len() ==> path[j] != '\\';
        path.skip(i + 1)
    } else {
        path
    }
}

/// Applications whose fields are never read: password managers, terminals,
/// remote desktops and sign-in screens (compared in lower case).
pub open spec fn is_sensitive(lower: Seq<char>) -> bool {
    ||| contains_text(lower, "keepass"@)
    ||| contains_text(lower, "1password"@)
    ||| contains_text(lower, "bitwarden"@)
    ||| contains_text(lower, "lastpass"@)
    ||| contains_text(lower, "credential"@)
    ||| contains_text(lower, "mstsc"@)
    ||| contains_text(lower, "logonui"@)
    ||| contains_text(lower, "windowsterminal"@)
    ||| contains_text(lower, "powershell"@)
    ||| contains_text(lower, "pwsh"@)
    ||| contains_text(lower, "cmd.exe"@)
    ||| contains_text(lower, "conhost"@)
    ||| contains_text(lower, "wezterm"@)
    ||| contains_text(lower, "mintty"@)
    ||| contains_text(lower, "putty"@)
}

/// `token` is one of the white-space separated words of `text`.
pub open spec fn has_word(text: Seq<char>, token: Seq<char>) -> bool {
    exists|i: int|
        0 <= i && i + token.len() <= text.len() && #[trigger] text.subrange(i, i + token.len()) == token
            && token.len() > 0 && (i == 0 || is_white_space(text[i - 1])) && (i + token.len()
            == text.len() || is_white_space(text[i + token.len()])) && forall|k: int|
            i <= k < i + token.len() ==> !is_white_space(text[k])
}

/// The number of UTF-16 code units that encode `s`.
pub open spec fn utf16_units(s: Seq<char>) -> nat
    decreases s.len(),
{
    if s.len() == 0 {
        0
    } else {
        utf16_units(s.drop_last()) + if s.last() as u32 >= 0x10000 {
            2nat
        } else {
            1nat
        }
    }
}

/// The application named by the executable `path`.
pub fn app_name(path: &str) -> (r: String)
    ensures
        r@ == file_name(path@),
{
    let v = chars_of(path);
    let mut i = v.len();
    while i > 0 && v[i - 1] != '\\'
        invariant
            i <= v.len(),
            v@ == path@,
            forall|j: int| i <= j < v.len() ==> v@[j] != '\\',
        decreases i,
    {
        i -= 1;
    }
    proof {
        if i > 0 {
            let c = choose|c: int| 0 <= c < path@.len() && path@[c] == '\\' && forall|j: int| c < j < path@.len() ==> path@[j] != '\\';
            assert(c == i - 1) by {
                if c < i - 1 {
                    assert(path@[i - 1] == '\\');
                }
            }
            assert(v@.subrange(i as int, v.len() as int) =~= path@.skip(i as int));
        } else {
            assert(v@.subrange(0, v.len() as int) =~= path@);
        }
    }
    string_of(&v, i, v.len())
}

/// Refuses to read fields of sensitive applications (see [`is_sensitive`]).
pub fn check_app(app: &str) -> (r: Result<(), String>)
    ensures
        r is Ok <==> !is_sensitive(lowercase(app@)),
        r matches Err(e) ==> e@ == "未捕获：密码管理器、终端或敏感系统窗口"@,
{
    let lower = to_lowercase(app);
    let l = lower.as_str();
    if has_text(l, "keepass") || has_text(l, "1password") || has_text(l, "bitwarden") || has_text(l, "lastpass")
        || has_text(l, "credential") || has_text(l, "mstsc") || has_text(l, "logonui") || has_text(l, "windowsterminal")
        || has_text(l, "powershell") || has_text(l, "pwsh") || has_text(l, "cmd.exe") || has_text(l, "conhost")
        || has_text(l, "wezterm") || has_text(l, "mintty") || has_text(l, "putty")
    {
        Err(literal("未捕获：密码管理器、终端或敏感系统窗口"))
    } else {
        Ok(())
    }
}

/// Whether the application is QQ.
pub fn is_qq(app: &str) -> (r: bool)
    ensures
        r == (lowercase(app@) == "qq.exe"@),
{
    let lower = to_lowercase(app);
    text_eq(lower.as_str(), "qq.exe")
}

/// Whether `token` is one of the white-space separated words of `text`.
pub fn has_word_token(text: &str, token: &str) -> (r: bool)
    ensures
        r == has_word(text@, token@),
{
    let t = chars_of(text);
    let p = chars_of(token);
    if p.len() == 0 || p.len() > t.len() {
        return false;
    }
    let last = t.len() - p.len();
    let mut i: usize = 0;
    loop
        invariant
            last == t.len() - p.len(),
            0 < p.len() <= t.len(),
            t@ == text@,
            p@ == token@,
            i <= last,
            forall|j: int|
                0 <= j < i ==> !(#[trigger] t@.subrange(j, j + p@.len()) == p@ && (j == 0 || is_white_space(t@[j - 1])) && (j + p@.len() == t@.len() || is_white_space(t@[j + p@.len()])) && forall|k: int|
                    j <= k < j + p@.len() ==> !is_white_space(t@[k])),
        decreases last - i,
    {
        let mut ok = i == 0 || char_is_whitespace(t[i - 1]);
        if ok && i + p.len() < t.len() {
            ok = char_is_whitespace(t[i + p.len()]);
        }
        let mut k: usize = 0;
        while ok && k < p.len()
            invariant
                i + p.len() <= t.len(),
                k <= p.len(),
                ok ==> forall|kk: int| i <= kk < i + k ==> t@[kk] == p@[kk - i] && !is_white_space(t@[kk]),
                ok ==> (i == 0 || is_white_space(t@[i - 1])) && (i + p@.len() == t@.len() || is_white_space(t@[i + p@.len()])),
                !ok ==> !(t@.subrange(i as int, i + p@.len()) == p@ && (i == 0 || is_white_space(t@[i - 1])) && (i + p@.len() == t@.len() || is_white_space(t@[i + p@.len()])) && forall|kk: int|
                    i <= kk < i + p@.len() ==> !is_white_space(t@[kk])),
            decreases p.len() - k,
        {
            if t[i + k] != p[k] {
                assert(t@.subrange(i as int, i + p@.len())[k as int] != p@[k as int]);
                ok = false;
            } else if char_is_whitespace(t[i + k]) {
                ok = false;
            }
            k += 1;
        }
        if ok {
            assert(t@.subrange(i as int, i + p@.len()) =~= p@);
            assert(k == p.len());
            return true;
        }
        if i == last {
            return false;
        }
        i += 1;
    }
}

/// Whether a class name is that of QQ's message composer.
pub fn is_qq_editor_class(class_name: &str) -> (r: bool)
    ensures
        r == (has_word(class_name@, "ProseMirror"@) && has_word(class_name@, "ExEditor-qq-msg-editor"@)),
{
    has_word_token(class_name, "ProseMirror") && has_word_token(class_name, "ExEditor-qq-msg-editor")
}

/// Whether a field of control type `control` can be read as text: an edit
/// box, a document, a legacy text field, or QQ's composer.
pub fn is_text_control(control: i32, legacy_text: bool, qq_composer: bool) -> (r: bool)
    ensures
        r == (control == EDIT_CONTROL || control == DOCUMENT_CONTROL || legacy_text || qq_composer),
{
    control == EDIT_CONTROL || control == DOCUMENT_CONTROL || legacy_text || qq_composer
}

/// Refuses password fields and read-only legacy text fields, from their
/// MSAA `state`.
pub fn check_legacy_state(state: u32, legacy_text: bool) -> (r: Result<(), String>)
    ensures
        (state & STATE_PROTECTED) != 0 ==> (r matches Err(e) && e@ == "未捕获：密码输入框"@),
        (state & STATE_PROTECTED) == 0 && legacy_text && (state & STATE_READONLY) != 0 ==> (r matches Err(
            e,
        ) && e@ == "未捕获：只读控件"@),
        (state & STATE_PROTECTED) == 0 && !(legacy_text && (state & STATE_READONLY) != 0) ==> r is Ok,
{
    if state & STATE_PROTECTED != 0 {
        return Err(literal("未捕获：密码输入框"));
    }
    if legacy_text && state & STATE_READONLY != 0 {
        return Err(literal("未捕获：只读控件"));
    }
    Ok(())
}

/// Whether the runtime id bounds `lo..=hi` describe a plausible field id.
pub fn runtime_id_ok(lo: i32, hi: i32) -> (r: bool)
    requires
        hi < lo || hi - lo <= i32::MAX,
    ensures
        r == !(hi < lo || hi - lo > MAX_RUNTIME_ID_SPAN),
{
    !(hi < lo || hi - lo > MAX_RUNTIME_ID_SPAN)
}

/// Whether the focus moved away from the `expected` field.
pub fn focus_moved(expected: &Option<Vec<i32>>, focus: &Vec<i32>) -> (r: bool)
    ensures
        r == match expected {
            Some(e) => e@ != focus@,
            None => false,
        },
{
    match expected {
        Some(e) => !crate::watch::same_focus(e, focus),
        None => false,
    }
}

/// Counting more characters never decreases the number of code units.
proof fn lemma_utf16_units_prefix(s: Seq<char>, k: int)
    requires
        0 <= k <= s.len(),
    ensures
        utf16_units(s.take(k)) <= utf16_units(s),
    decreases s.len() - k,
{
    if k < s.len() {
        lemma_utf16_units_prefix(s, k + 1);
        assert(s.take(k + 1).drop_last() =~= s.take(k));
    } else {
        assert(s.take(k) =~= s);
    }
}

/// Whether the text of a field is too long to be captured: more than
/// [`MAX_FIELD_UNITS`] UTF-16 code units.
pub fn field_too_long(text: &str) -> (r: bool)
    ensures
        r == (utf16_units(text@) > MAX_FIELD_UNITS),
{
    let v = chars_of(text);
    let mut n: usize = 0;
    let mut i: usize = 0;
    assert(v@.take(0) =~= Seq::<char>::empty());
    while i < v.len()
        invariant
            i <= v.len(),
            v@ == text@,
            n == utf16_units(v@.take(i as int)),
            n <= MAX_FIELD_UNITS,
        decreases v.len() - i,
    {
        assert(v@.take(i + 1).drop_last() =~= v@.take(i as int));
        let c = v[i];
        if c as u32 >= 0x10000 {
            n += 2;
        } else {
            n += 1;
        }
        i += 1;
        if n > MAX_FIELD_UNITS {
            proof {
                lemma_utf16_units_prefix(v@, i as int);
            }
            return true;
        }
    }
    assert(v@.take(i as int) =~= v@);
    false
}

/// What the legacy (MSAA) accessibility pattern of a field reports.
pub struct LegacyFacts {
    /// Whether its role could be read and is that of a text field.
    pub role_is_text: bool,
    /// Its state bits, or `None` when they could not be read.
    pub state: Option<u32>,
    /// Its value, or `None` when it could not be read.
    pub value: Option<String>,
}

/// What the value pattern of a field reports.
pub struct ValueFacts {
    /// Whether the value is read-only, or why that could not be read.
    pub read_only: Result<bool, String>,
    /// The value, or `None` when it could not be read.
    pub value: Option<String>,
}

/// The runtime id array of a field.
pub struct RuntimeIdFacts {
    /// The lower bound of the array, or why it could not be read.
    pub lower: Result<i32, String>,
    /// The upper bound of the array, or why it could not be read.
    pub upper: Result<i32, String>,
    /// The elements from the lower to the upper bound, or the first error
    /// in reading them.
    pub ids: Result<Vec<i32>, String>,
}

/// What the accessibility interface reports about the focused element.
pub struct ElementFacts {
    /// Whether it is a password field, or `None` when that could not be read.
    pub is_password: Option<bool>,
    /// Its control type, or why that could not be read.
    pub control: Result<i32, String>,
    /// Whether it could be read as focusable by the keyboard and is.
    pub keyboard_focusable: bool,
    /// Its class name, or `None` when that could not be read.
    pub class_name: Option<String>,
    /// `None` when it has no text pattern; else the text of its document
    /// range, or `None` inside when reading that failed.
    pub text_pattern: Option<Option<String>>,
    /// Its value pattern, if it has one.
    pub value_pattern: Option<ValueFacts>,
    /// Its legacy pattern, if it has one.
    pub legacy: Option<LegacyFacts>,
    /// Its runtime id: the array, no array (`Ok(None)`), or why it could not
    /// be read.
    pub runtime_id: Result<Option<RuntimeIdFacts>, String>,
}

/// What the system reports about the focused field of a window.
pub struct FieldFacts {
    /// The path of the executable that owns the window, in UTF-16.
    pub process_path: Vec<u16>,
    /// The focused element, or why it could not be reached.
    pub element: Result<ElementFacts, String>,
}

/// A snapshot as plain values: its application, field and text, or the
/// reason it was not taken.
pub open spec fn snapshot_result(r: Result<Snapshot, String>) -> Result<(Seq<char>, Seq<i32>, Seq<char>), Seq<char>> {
    match r {
        Ok(s) => Ok((s.app@, s.focus@, s.text@)),
        Err(e) => Err(e@),
    }
}

/// Whether QQ's message composer has the focus: a keyboard-focusable group
/// of QQ with the composer's class names and a text pattern.
pub open spec fn is_qq_composer(lower: Seq<char>, control: i32, el: ElementFacts) -> bool {
    &&& lower == "qq.exe"@
    &&& control == GROUP_CONTROL
    &&& el.keyboard_focusable
    &&& el.class_name matches Some(c) && has_word(c@, "ProseMirror"@) && has_word(c@, "ExEditor-qq-msg-editor"@)
    &&& el.text_pattern is Some
}

/// Whether the element is a legacy text field.
pub open spec fn is_legacy_text(el: ElementFacts) -> bool {
    el.legacy matches Some(l) && l.role_is_text
}

/// Why the legacy state refuses the field, if it does.
pub open spec fn legacy_refusal(el: ElementFacts) -> Option<Seq<char>> {
    match el.legacy {
        None => None,
        Some(l) => match l.state {
            None => Some("无法确认旧式输入框状态"@),
            Some(state) => if (state & STATE_PROTECTED) != 0 {
                Some("未捕获：密码输入框"@)
            } else if is_legacy_text(el) && (state & STATE_READONLY) != 0 {
                Some("未捕获：只读控件"@)
            } else {
                None
            },
        },
    }
}

/// `message` about the field of `app` with control type `control`.
pub open spec fn control_message(app: Seq<char>, message: Seq<char>, control: i32) -> Seq<char> {
    app + message + decimal(control as int) + "）"@
}

/// The text of the element, read through its text pattern, else its value
/// pattern, else its legacy pattern when it is a legacy text field.
pub open spec fn field_text(app: Seq<char>, control: i32, el: ElementFacts) -> Result<Seq<char>, Seq<char>> {
    match el.text_pattern {
        Some(read) => match read {
            Some(t) => Ok(t@),
            None => Err("此输入框无法读取文本"@),
        },
        None => match el.value_pattern {
            Some(v) => match v.read_only {
                Err(e) => Err(e@),
                Ok(true) => Err("未捕获：只读控件"@),
                Ok(false) => match v.value {
                    Some(t) => Ok(t@),
                    None => Err("此输入框无法读取文本"@),
                },
            },
            None => if is_legacy_text(el) {
                match el.legacy.unwrap().value {
                    Some(t) => Ok(t@),
                    None => Err("旧式辅助功能接口无法读取输入框文本"@),
                }
            } else {
                Err(control_message(app, "：输入框未提供可读文本接口（Text / Value / MSAA，控件类型 "@, control))
            },
        },
    }
}

/// The snapshot of the field `ids` once it was identified: its text, when
/// the focus has not moved away from `expected` and the text is not too long.
pub open spec fn identified_snapshot(
    app: Seq<char>,
    control: i32,
    el: ElementFacts,
    ids: Seq<i32>,
    expected: Option<Vec<i32>>,
) -> Result<(Seq<char>, Seq<i32>, Seq<char>), Seq<char>> {
    if expected matches Some(e) && e@ != ids {
        Err("已停止：焦点移到了另一个输入框"@)
    } else {
        match field_text(app, control, el) {
            Err(e) => Err(e),
            Ok(t) => if utf16_units(t) > MAX_FIELD_UNITS {
                Err("未捕获：输入框文字超过 20000 字符"@)
            } else {
                Ok((app, ids, crlf_to_lf(t)))
            },
        }
    }
}

/// The snapshot of an element of control type `control` that is a text
/// field: first its runtime id is read and checked.
pub open spec fn text_field_snapshot(
    app: Seq<char>,
    control: i32,
    el: ElementFacts,
    expected: Option<Vec<i32>>,
) -> Result<(Seq<char>, Seq<i32>, Seq<char>), Seq<char>> {
    match el.runtime_id {
        Err(e) => Err(e@),
        Ok(None) => Err("输入框没有稳定标识"@),
        Ok(Some(rid)) => match rid.lower {
            Err(e) => Err(e@),
            Ok(lo) => match rid.upper {
                Err(e) => Err(e@),
                Ok(hi) => if hi < lo || hi - lo > MAX_RUNTIME_ID_SPAN {
                    Err("输入框标识异常"@)
                } else {
                    match rid.ids {
                        Err(e) => Err(e@),
                        Ok(ids) => identified_snapshot(app, control, el, ids@, expected),
                    }
                },
            },
        },
    }
}

/// The checks of the focused element of `app` made before its runtime id is
/// read: its control type when it is a text field that is not a password
/// field, else the refusal.
pub open spec fn element_precheck(app: Seq<char>, el: ElementFacts) -> Result<i32, Seq<char>> {
    match el.is_password {
        None => Err("无法确认输入框是否安全"@),
        Some(true) => Err("未捕获：密码输入框"@),
        Some(false) => match el.control {
            Err(e) => Err(e@),
            Ok(control) => match legacy_refusal(el) {
                Some(e) => Err(e),
                None => if !(control == EDIT_CONTROL || control == DOCUMENT_CONTROL || is_legacy_text(el)
                    || is_qq_composer(lowercase(app), control, el)) {
                    Err(control_message(app, "：焦点未暴露为可编辑文本控件（控件类型 "@, control))
                } else {
                    Ok(control)
                },
            },
        },
    }
}

/// The application named by the executable path of `facts`.
pub open spec fn facts_app(facts: FieldFacts) -> Seq<char> {
    file_name(utf16_lossy(facts.process_path@))
}

/// The snapshot of the focused field described by `facts`, in the order the
/// checks are made: the application is not a sensitive one, the element is
/// reachable and not a password field, it is a text field, it has a
/// plausible runtime id, the focus has not moved away from `expected`, and
/// its text can be read and is not too long. The text comes with `\r\n`
/// turned into `\n`.
pub open spec fn field_snapshot_of(
    facts: FieldFacts,
    expected: Option<Vec<i32>>,
) -> Result<(Seq<char>, Seq<i32>, Seq<char>), Seq<char>> {
    let app = facts_app(facts);
    if is_sensitive(lowercase(app)) {
        Err("未捕获：密码管理器、终端或敏感系统窗口"@)
    } else {
        match facts.element {
            Err(e) => Err(e@),
            Ok(el) => match element_precheck(app, el) {
                Err(e) => Err(e),
                Ok(control) => text_field_snapshot(app, control, el, expected),
            },
        }
    }
}

/// The runtime id facts of the element are consistent: the span of its
/// bounds fits in an `i32` (the check of the bounds subtracts them), and the
/// ids read are the elements from the lower to the upper bound, one per
/// index.
pub open spec fn element_ids_fit(el: ElementFacts) -> bool {
    match el.runtime_id {
        Ok(Some(rid)) => match rid.lower {
            Ok(lo) => match rid.upper {
                Ok(hi) => {
                    &&& hi < lo || hi - lo <= i32::MAX
                    &&& rid.ids matches Ok(ids) ==> (lo <= hi ==> ids.len() == hi - lo + 1)
                },
                Err(_) => true,
            },
            Err(_) => true,
        },
        _ => true,
    }
}

/// When the checks reach the runtime id of the focused element, its facts
/// are consistent (see [`element_ids_fit`]).
pub open spec fn runtime_ids_fit(facts: FieldFacts) -> bool {
    match facts.element {
        Ok(el) => !is_sensitive(lowercase(facts_app(facts))) && element_precheck(facts_app(facts), el) is Ok
            ==> element_ids_fit(el),
        Err(_) => true,
    }
}

/// An edit box or a document is read: for an application that is not a
/// sensitive one, a focused element that is not a password field, has
/// control type [`EDIT_CONTROL`] or [`DOCUMENT_CONTROL`], no legacy pattern,
/// a readable text pattern with at most [`MAX_FIELD_UNITS`] code units, a
/// runtime id of 1 to 129 ids and the expected focus, is captured: the
/// snapshot holds the application's file name, those ids and the text with
/// `\r\n` turned into `\n`.
pub proof fn lemma_edit_and_document_fields_are_read(
    facts: FieldFacts,
    expected: Option<Vec<i32>>,
    el: ElementFacts,
    rid: RuntimeIdFacts,
    control: i32,
    text: String,
    lo: i32,
    hi: i32,
    ids: Vec<i32>,
)
    requires
        !is_sensitive(lowercase(file_name(utf16_lossy(facts.process_path@)))),
        facts.element == Ok::<ElementFacts, String>(el),
        el.is_password == Some(false),
        el.control == Ok::<i32, String>(control),
        control == EDIT_CONTROL || control == DOCUMENT_CONTROL,
        el.legacy is None,
        el.text_pattern == Some(Some(text)),
        el.runtime_id == Ok::<Option<RuntimeIdFacts>, String>(Some(rid)),
        rid.lower == Ok::<i32, String>(lo),
        rid.upper == Ok::<i32, String>(hi),
        rid.ids == Ok::<Vec<i32>, String>(ids),
        lo <= hi <= lo + 128,
        expected matches Some(e) ==> e@ == ids@,
        utf16_units(text@) <= MAX_FIELD_UNITS,
    ensures
        field_snapshot_of(facts, expected) == Ok::<(Seq<char>, Seq<i32>, Seq<char>), Seq<char>>(
            (file_name(utf16_lossy(facts.process_path@)), ids@, crlf_to_lf(text@)),
        ),
{
}

/// A text read as plain values.
pub open spec fn text_result(r: Result<String, String>) -> Result<Seq<char>, Seq<char>> {
    match r {
        Ok(t) => Ok(t@),
        Err(e) => Err(e@),
    }
}

/// `message` about the field of `app` (see [`control_message`]).
fn control_message_text(app: &str, message: &str, control: i32) -> (r: String)
    ensures
        r@ == control_message(app@, message@, control),
{
    let mut s = literal(app);
    s.append(message);
    let d = decimal_text(control);
    s.append(d.as_str());
    s.append("）");
    s
}

/// Applies the legacy state checks (see [`legacy_refusal`]).
fn check_legacy(el: &ElementFacts) -> (r: Result<(), String>)
    ensures
        match legacy_refusal(*el) {
            Some(e) => r matches Err(x) && x@ == e,
            None => r is Ok,
        },
{
    let legacy_text = match &el.legacy {
        Some(l) => l.role_is_text,
        None => false,
    };
    match &el.legacy {
        None => Ok(()),
        Some(l) => match l.state {
            None => Err(literal("无法确认旧式输入框状态")),
            Some(state) => check_legacy_state(state, legacy_text),
        },
    }
}

/// Reads the text of the element (see [`field_text`]).
fn read_text(app: &str, control: i32, el: &ElementFacts) -> (r: Result<String, String>)
    ensures
        text_result(r) == field_text(app@, control, *el),
{
    match &el.text_pattern {
        Some(read) => match read {
            Some(t) => Ok(t.clone()),
            None => Err(literal("此输入框无法读取文本")),
        },
        None => match &el.value_pattern {
            Some(v) => match &v.read_only {
                Err(e) => Err(e.clone()),
                Ok(read_only) => if *read_only {
                    Err(literal("未捕获：只读控件"))
                } else {
                    match &v.value {
                        Some(t) => Ok(t.clone()),
                        None => Err(literal("此输入框无法读取文本")),
                    }
                },
            },
            None => match &el.legacy {
                Some(l) => if l.role_is_text {
                    match &l.value {
                        Some(t) => Ok(t.clone()),
                        None => Err(literal("旧式辅助功能接口无法读取输入框文本")),
                    }
                } else {
                    Err(control_message_text(app, "：输入框未提供可读文本接口（Text / Value / MSAA，控件类型 ", control))
                },
                None => Err(control_message_text(app, "：输入框未提供可读文本接口（Text / Value / MSAA，控件类型 ", control)),
            },
        },
    }
}

/// The snapshot of the identified field `ids` (see [`identified_snapshot`]).
fn identified(app: String, control: i32, el: &ElementFacts, ids: &Vec<i32>, expected: &Option<Vec<i32>>) -> (r: Result<Snapshot, String>)
    ensures
        snapshot_result(r) == identified_snapshot(app@, control, *el, ids@, *expected),
{
    if focus_moved(expected, ids) {
        return Err(literal("已停止：焦点移到了另一个输入框"));
    }
    match read_text(app.as_str(), control, el) {
        Err(e) => Err(e),
        Ok(t) => if field_too_long(t.as_str()) {
            Err(literal("未捕获：输入框文字超过 20000 字符"))
        } else {
            Ok(Snapshot { app, focus: copy_focus(ids), text: normalize_newlines(t.as_str()) })
        },
    }
}

/// The snapshot of a text field (see [`text_field_snapshot`]).
fn text_field(app: String, control: i32, el: &ElementFacts, expected: &Option<Vec<i32>>) -> (r: Result<Snapshot, String>)
    requires
        element_ids_fit(*el),
    ensures
        snapshot_result(r) == text_field_snapshot(app@, control, *el, *expected),
        r matches Ok(snap) ==> 1 <= snap.focus@.len() <= MAX_RUNTIME_ID_SPAN + 1,
{
    match &el.runtime_id {
        Err(e) => Err(e.clone()),
        Ok(None) => Err(literal("输入框没有稳定标识")),
        Ok(Some(rid)) => match &rid.lower {
            Err(e) => Err(e.clone()),
            Ok(lo) => match &rid.upper {
                Err(e) => Err(e.clone()),
                Ok(hi) => if !runtime_id_ok(*lo, *hi) {
                    Err(literal("输入框标识异常"))
                } else {
                    match &rid.ids {
                        Err(e) => Err(e.clone()),
                        Ok(ids) => identified(app, control, el, ids, expected),
                    }
                },
            },
        },
    }
}

/// The checks of the focused element of `app` before its runtime id is read
/// (see [`element_precheck`]).
fn check_element(app: &str, el: &ElementFacts) -> (r: Result<i32, String>)
    ensures
        match r {
            Ok(c) => element_precheck(app@, *el) == Ok::<i32, Seq<char>>(c),
            Err(e) => element_precheck(app@, *el) == Err::<i32, Seq<char>>(e@),
        },
{
    match el.is_password {
        None => return Err(literal("无法确认输入框是否安全")),
        Some(password) => if password {
            return Err(literal("未捕获：密码输入框"));
        },
    }
    let control = match &el.control {
        Err(e) => return Err(e.clone()),
        Ok(c) => *c,
    };
    match check_legacy(el) {
        Err(e) => return Err(e),
        Ok(()) => {},
    }
    let legacy_text = match &el.legacy {
        Some(l) => l.role_is_text,
        None => false,
    };
    let composer_class = match &el.class_name {
        Some(c) => is_qq_editor_class(c.as_str()),
        None => false,
    };
    let qq_composer = is_qq(app) && control == GROUP_CONTROL && el.keyboard_focusable && composer_class
        && el.text_pattern.is_some();
    if !is_text_control(control, legacy_text, qq_composer) {
        return Err(control_message_text(app, "：焦点未暴露为可编辑文本控件（控件类型 ", control));
    }
    Ok(control)
}

/// The snapshot of the focused field described by `facts` (see
/// [`field_snapshot_of`]).
pub fn field_snapshot(facts: FieldFacts, expected_focus: Option<Vec<i32>>) -> (r: Result<Snapshot, String>)
    requires
        runtime_ids_fit(facts),
    ensures
        snapshot_result(r) == field_snapshot_of(facts, expected_focus),
        r matches Ok(snap) ==> 1 <= snap.focus@.len() <= MAX_RUNTIME_ID_SPAN + 1,
{
    let path = decode_utf16_lossy(facts.process_path.as_slice());
    let app = app_name(path.as_str());
    match check_app(app.as_str()) {
        Err(e) => return Err(e),
        Ok(()) => {},
    }
    match &facts.element {
        Err(e) => Err(e.clone()),
        Ok(el) => match check_element(app.as_str(), el) {
            Err(e) => Err(e),
            Ok(control) => text_field(app, control, el, &expected_focus),
        },
    }
}

/// Whether the runtime id facts of `facts` are consistent where the checks
/// reach them (see [`runtime_ids_fit`]).
pub fn check_runtime_ids(facts: &FieldFacts) -> (r: bool)
    ensures
        r == runtime_ids_fit(*facts),
{
    let path = decode_utf16_lossy(facts.process_path.as_slice());
    let app = app_name(path.as_str());
    if check_app(app.as_str()).is_err() {
        return true;
    }
    match &facts.element {
        Ok(el) => {
            if check_element(app.as_str(), el).is_err() {
                return true;
            }
            match &el.runtime_id {
                Ok(Some(rid)) => match &rid.lower {
                    Ok(lo) => match &rid.upper {
                        Ok(hi) => {
                            let lo: i32 = *lo;
                            let hi: i32 = *hi;
                            if hi < lo {
                                true
                            } else {
                                let span: i64 = (hi as i64) - (lo as i64);
                                span <= 0x7fff_ffffi64 && match &rid.ids {
                                    Ok(ids) => ids.len() == (span + 1) as usize,
                                    Err(_) => true,
                                }
                            }
                        },
                        Err(_) => true,
                    },
                    Err(_) => true,
                },
                _ => true,
            }
        },
        Err(_) => true,
    }
}

} // verus!

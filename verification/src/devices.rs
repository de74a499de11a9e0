//! Rules for the user's personal devices: the Bluetooth remote and the DJI
//! microphone receiver.
use vstd::prelude::*;
use crate::text::{chars_of, literal, push_char, text_eq};

verus! {

/// How long the remote's state is reused before it is read again.
pub const REMOTE_CACHE_MS: u64 = 30000;

/// The highest battery level the remote reports.
pub const MAX_BATTERY: u8 = 100;

/// One transmitter paired with the receiver.
pub struct Transmitter {
    pub product_name: Option<String>,
    pub voice_tone: Option<String>,
}

/// What the receiver reports about itself. `settings` maps each setting name
/// to its value (see [`setting_names_unique`]).
pub struct DeviceStatus {
    pub connected: bool,
    pub settings: Vec<(String, String)>,
    pub transmitters: [Option<Transmitter>; 2],
}

/// Where a setting is applied.
pub enum SettingTarget {
    /// On the receiver.
    Receiver,
    /// On the transmitter in this slot.
    Transmitter(usize),
}

/// The view of an optional string.
pub open spec fn opt_text(s: Option<String>) -> Option<Seq<char>> {
    match s {
        Some(s) => Some(s@),
        None => None,
    }
}

/// The settings the app may change.
pub open spec fn is_supported_setting(setting: Seq<char>) -> bool {
    ||| setting == "noise-cancel-power"@
    ||| setting == "noise-cancel"@
    ||| setting == "low-cut"@
    ||| setting == "clip-limiter"@
    ||| setting == "stereo"@
    ||| setting == "voice-tone"@
}

/// `k` is the position of the first setting named `name`.
pub open spec fn is_setting_at(settings: Seq<(String, String)>, name: Seq<char>, k: int) -> bool {
    &&& 0 <= k < settings.len()
    &&& settings[k].0@ == name
    &&& forall|j: int| 0 <= j < k ==> #[trigger] settings[j].0@ != name
}

/// The value of the setting `name`, if reported.
pub open spec fn setting_value(settings: Seq<(String, String)>, name: Seq<char>) -> Option<Seq<char>> {
    if exists|k: int| is_setting_at(settings, name, k) {
        Some(settings[choose|k: int| is_setting_at(settings, name, k)].1@)
    } else {
        None
    }
}

/// No setting name occurs twice: the receiver reports its settings as a map
/// from name to value.
pub open spec fn setting_names_unique(settings: Seq<(String, String)>) -> bool {
    forall|i: int, j: int|
        #![trigger settings[i], settings[j]]
        0 <= i < j < settings.len() ==> settings[i].0@ != settings[j].0@
}

/// With unique names, the value of a setting is the one reported with its
/// name.
pub proof fn lemma_setting_value_of_entry(settings: Seq<(String, String)>, k: int)
    requires
        setting_names_unique(settings),
        0 <= k < settings.len(),
    ensures
        setting_value(settings, settings[k].0@) == Some(settings[k].1@),
{
    let name = settings[k].0@;
    assert(is_setting_at(settings, name, k));
    let c = choose|c: int| is_setting_at(settings, name, c);
    assert(c == k) by {
        if c < k {
            assert(settings[c].0@ != settings[k].0@);
        } else if c > k {
            assert(settings[k].0@ != name);
        }
    }
}

/// Stereo is refused on a connected receiver exactly when the receiver
/// reports its safety track as `on`; otherwise stereo is planned for the
/// receiver.
pub proof fn lemma_stereo_refused_only_with_safety_track(status: DeviceStatus)
    requires
        status.connected,
        setting_names_unique(status.settings@),
    ensures
        setting_plan("stereo"@, "stereo"@, None, status) == if exists|k: int|
            0 <= k < status.settings@.len() && #[trigger] status.settings@[k].0@ == "safety-track"@
                && status.settings@[k].1@ == "on"@ {
            Err::<SettingTarget, Seq<char>>("当前已启用安全音轨，不能同时启用立体声"@)
        } else {
            Ok::<SettingTarget, Seq<char>>(SettingTarget::Receiver)
        },
{
    reveal_strlit("stereo");
    reveal_strlit("voice-tone");
    assert("stereo"@ != "voice-tone"@) by {
        assert("stereo"@.len() != "voice-tone"@.len());
    }
    let settings = status.settings@;
    if exists|k: int| 0 <= k < settings.len() && #[trigger] settings[k].0@ == "safety-track"@ && settings[k].1@ == "on"@ {
        let k = choose|k: int| 0 <= k < settings.len() && #[trigger] settings[k].0@ == "safety-track"@ && settings[k].1@ == "on"@;
        lemma_setting_value_of_entry(settings, k);
    } else {
        if setting_value(settings, "safety-track"@) is Some {
            let c = choose|c: int| is_setting_at(settings, "safety-track"@, c);
            assert(settings[c].0@ == "safety-track"@);
            assert(setting_value(settings, "safety-track"@) != Some("on"@));
        }
    }
}

/// Whether no setting name occurs twice (see [`setting_names_unique`]).
pub fn settings_unique(settings: &Vec<(String, String)>) -> (r: bool)
    ensures
        r == setting_names_unique(settings@),
{
    let n = settings.len();
    let mut j: usize = 0;
    while j < n
        invariant
            n == settings.len(),
            j <= n,
            forall|a: int, b: int|
                #![trigger settings@[a], settings@[b]]
                0 <= a < b < j ==> settings@[a].0@ != settings@[b].0@,
        decreases n - j,
    {
        let mut i: usize = 0;
        while i < j
            invariant
                n == settings.len(),
                i <= j < n,
                forall|a: int, b: int|
                    #![trigger settings@[a], settings@[b]]
                    0 <= a < b < j ==> settings@[a].0@ != settings@[b].0@,
                forall|a: int| 0 <= a < i ==> #[trigger] settings@[a].0@ != settings@[j as int].0@,
            decreases j - i,
        {
            if text_eq(settings[i].0.as_str(), settings[j].0.as_str()) {
                return false;
            }
            i += 1;
        }
        j += 1;
    }
    true
}

/// `text` contains `part`.
pub open spec fn contains_text(text: Seq<char>, part: Seq<char>) -> bool {
    exists|i: int| 0 <= i && i + part.len() <= text.len() && #[trigger] text.subrange(i, i + part.len()) == part
}

/// Where a change of `setting` to `value` goes on a receiver reporting
/// `status`, or why it is refused.
pub open spec fn setting_plan(
    setting: Seq<char>,
    value: Seq<char>,
    tx: Option<usize>,
    status: DeviceStatus,
) -> Result<SettingTarget, Seq<char>> {
    if !status.connected {
        Err("麦克风已断开，请重新连接后再试"@)
    } else if setting == "stereo"@ && value == "stereo"@ && setting_value(status.settings@, "safety-track"@) == Some("on"@) {
        Err("当前已启用安全音轨，不能同时启用立体声"@)
    } else if setting == "voice-tone"@ {
        match tx {
            Some(slot) => if slot < 2 {
                match status.transmitters[slot as int] {
                    Some(t) => match t.product_name {
                        Some(name) => if contains_text(name@, "Mini 2"@) {
                            Ok(SettingTarget::Transmitter(slot))
                        } else {
                            Err("音色设置仅支持 DJI Mic Mini 2"@)
                        },
                        None => Err("音色设置仅支持 DJI Mic Mini 2"@),
                    },
                    None => Err("发射器未连接"@),
                }
            } else {
                Err("请选择有效的发射器"@)
            },
            None => Err("请选择有效的发射器"@),
        }
    } else if tx is Some {
        Err("此设置不支持单独指定发射器"@)
    } else {
        Ok(SettingTarget::Receiver)
    }
}

/// The view of a planned target.
pub open spec fn plan_view(r: Result<SettingTarget, String>) -> Result<SettingTarget, Seq<char>> {
    match r {
        Ok(t) => Ok(t),
        Err(e) => Err(e@),
    }
}

/// Whether the receiver's report `status` confirms that `setting` now has
/// `value` on `target`; an error when the receiver went away.
pub open spec fn confirmation(
    setting: Seq<char>,
    value: Seq<char>,
    target: SettingTarget,
    status: DeviceStatus,
) -> Result<bool, Seq<char>> {
    if !status.connected {
        Err("设置过程中设备断开"@)
    } else {
        let actual = match target {
            SettingTarget::Transmitter(slot) => if slot < 2 {
                match status.transmitters[slot as int] {
                    Some(t) => opt_text(t.voice_tone),
                    None => None,
                }
            } else {
                None
            },
            SettingTarget::Receiver => setting_value(status.settings@, setting),
        };
        Ok(actual == Some(value))
    }
}

/// Device controls are only available to the main window.
pub fn ensure_main(label: &str) -> (r: Result<(), String>)
    ensures
        r is Ok <==> label@ == "main"@,
        r matches Err(e) ==> e@ == "Device controls are only available in the main window"@,
{
    if text_eq(label, "main") {
        Ok(())
    } else {
        Err(literal("Device controls are only available in the main window"))
    }
}

/// Checks that `setting` is one the app may change.
pub fn check_setting(setting: &str) -> (r: Result<(), String>)
    ensures
        r is Ok <==> is_supported_setting(setting@),
        r matches Err(e) ==> e@ == "Unsupported microphone setting"@,
{
    if text_eq(setting, "noise-cancel-power") || text_eq(setting, "noise-cancel") || text_eq(setting, "low-cut")
        || text_eq(setting, "clip-limiter") || text_eq(setting, "stereo") || text_eq(setting, "voice-tone")
    {
        Ok(())
    } else {
        Err(literal("Unsupported microphone setting"))
    }
}

/// Whether `text` contains `part`.
pub fn has_text(text: &str, part: &str) -> (r: bool)
    ensures
        r == contains_text(text@, part@),
{
    let t = chars_of(text);
    let p = chars_of(part);
    if p.len() > t.len() {
        return false;
    }
    let last = t.len() - p.len();
    let mut i: usize = 0;
    loop
        invariant
            last == t.len() - p.len(),
            p.len() <= t.len(),
            t@ == text@,
            p@ == part@,
            i <= last,
            forall|j: int| 0 <= j < i ==> #[trigger] t@.subrange(j, j + p@.len()) != p@,
        decreases last - i,
    {
        let mut k: usize = 0;
        let mut same = true;
        while k < p.len()
            invariant
                i + p.len() <= t.len(),
                k <= p.len(),
                same ==> forall|m: int| 0 <= m < k ==> t@[i + m] == p@[m],
                !same ==> t@.subrange(i as int, i + p@.len()) != p@,
            decreases p.len() - k,
        {
            if t[i + k] != p[k] {
                assert(t@.subrange(i as int, i + p@.len())[k as int] != p@[k as int]);
                same = false;
            }
            k += 1;
        }
        if same {
            assert(t@.subrange(i as int, i + p@.len()) =~= p@);
            return true;
        }
        if i == last {
            assert forall|j: int| 0 <= j && j + p@.len() <= t@.len() implies #[trigger] t@.subrange(j, j + p@.len()) != p@ by {
                assert(j <= i);
            }
            return false;
        }
        i += 1;
    }
}

/// The value of the setting `name`, if reported.
fn find_setting<'a>(settings: &'a Vec<(String, String)>, name: &str) -> (r: Option<&'a String>)
    ensures
        match r {
            Some(v) => setting_value(settings@, name@) == Some(v@),
            None => setting_value(settings@, name@) is None,
        },
{
    let mut k: usize = 0;
    while k < settings.len()
        invariant
            k <= settings.len(),
            forall|j: int| 0 <= j < k ==> #[trigger] settings@[j].0@ != name@,
        decreases settings.len() - k,
    {
        if text_eq(settings[k].0.as_str(), name) {
            assert(is_setting_at(settings@, name@, k as int));
            proof {
                let c = choose|c: int| is_setting_at(settings@, name@, c);
                assert(c == k as int) by {
                    if c > k {
                        assert(settings@[k as int].0@ == name@);
                    }
                }
            }
            return Some(&settings[k].1);
        }
        k += 1;
    }
    assert(!exists|c: int| is_setting_at(settings@, name@, c));
    None
}

/// Where a change of `setting` to `value` goes (see [`setting_plan`]), or why
/// it is refused.
pub fn plan_setting(setting: &str, value: &str, tx: Option<usize>, status: &DeviceStatus) -> (r: Result<SettingTarget, String>)
    requires
        setting_names_unique(status.settings@),
    ensures
        plan_view(r) == setting_plan(setting@, value@, tx, *status),
{
    if !status.connected {
        return Err(literal("麦克风已断开，请重新连接后再试"));
    }
    if text_eq(setting, "stereo") && text_eq(value, "stereo") {
        if let Some(v) = find_setting(&status.settings, "safety-track") {
            if text_eq(v.as_str(), "on") {
                return Err(literal("当前已启用安全音轨，不能同时启用立体声"));
            }
        }
    }
    if text_eq(setting, "voice-tone") {
        let slot = match tx {
            Some(s) => {
                if s < 2 {
                    s
                } else {
                    return Err(literal("请选择有效的发射器"));
                }
            },
            None => return Err(literal("请选择有效的发射器")),
        };
        match &status.transmitters[slot] {
            Some(t) => match &t.product_name {
                Some(name) => {
                    if has_text(name.as_str(), "Mini 2") {
                        Ok(SettingTarget::Transmitter(slot))
                    } else {
                        Err(literal("音色设置仅支持 DJI Mic Mini 2"))
                    }
                },
                None => Err(literal("音色设置仅支持 DJI Mic Mini 2")),
            },
            None => Err(literal("发射器未连接")),
        }
    } else if tx.is_some() {
        Err(literal("此设置不支持单独指定发射器"))
    } else {
        Ok(SettingTarget::Receiver)
    }
}

/// Whether `status` confirms the new value (see [`confirmation`]).
pub fn confirm_setting(setting: &str, value: &str, target: &SettingTarget, status: &DeviceStatus) -> (r: Result<bool, String>)
    requires
        setting_names_unique(status.settings@),
    ensures
        match r {
            Ok(b) => confirmation(setting@, value@, *target, *status) == Ok::<bool, Seq<char>>(b),
            Err(e) => confirmation(setting@, value@, *target, *status) == Err::<bool, Seq<char>>(e@),
        },
{
    if !status.connected {
        return Err(literal("设置过程中设备断开"));
    }
    let actual: Option<&String> = match target {
        SettingTarget::Transmitter(slot) => {
            if *slot < 2 {
                match &status.transmitters[*slot] {
                    Some(t) => match &t.voice_tone {
                        Some(v) => Some(v),
                        None => None,
                    },
                    None => None,
                }
            } else {
                None
            }
        },
        SettingTarget::Receiver => find_setting(&status.settings, setting),
    };
    match actual {
        Some(v) => Ok(text_eq(v.as_str(), value)),
        None => Ok(false),
    }
}

/// A UTF-16 high (leading) surrogate.
pub open spec fn is_high_surrogate(u: u16) -> bool {
    0xD800 <= u && u < 0xDC00
}

/// A UTF-16 low (trailing) surrogate.
pub open spec fn is_low_surrogate(u: u16) -> bool {
    0xDC00 <= u && u < 0xE000
}

/// The character that the surrogate pair `hi`, `lo` encodes.
pub open spec fn pair_char(hi: u16, lo: u16) -> char {
    ((0x10000 + (hi - 0xD800) * 0x400 + (lo - 0xDC00)) as u32) as char
}

/// The text decoded from the UTF-16 code units `units`, as
/// `String::from_utf16_lossy` decodes it: a high surrogate followed by a low
/// one is the character the pair encodes, any other surrogate becomes U+FFFD,
/// and every other unit is the character of that number.
pub open spec fn utf16_lossy(units: Seq<u16>) -> Seq<char>
    decreases units.len(),
{
    if units.len() == 0 {
        Seq::empty()
    } else if is_high_surrogate(units[0]) && units.len() >= 2 && is_low_surrogate(units[1]) {
        seq![pair_char(units[0], units[1])] + utf16_lossy(units.skip(2))
    } else if is_high_surrogate(units[0]) || is_low_surrogate(units[0]) {
        seq!['\u{FFFD}'] + utf16_lossy(units.skip(1))
    } else {
        seq![(units[0] as u32) as char] + utf16_lossy(units.skip(1))
    }
}

/// `char::from_u32`: the character numbered `v`, or none when `v` is a
/// surrogate or beyond U+10FFFF.
#[verifier::external_body]
fn char_from_u32(v: u32) -> (r: Option<char>)
    ensures
        r == (if v < 0xD800 || (0xE000 <= v && v <= 0x10FFFF) {
            Some(v as char)
        } else {
            None
        }),
{
    char::from_u32(v)
}

/// The character numbered `v`, a Unicode scalar value.
fn scalar(v: u32) -> (r: char)
    requires
        v < 0xD800 || (0xE000 <= v && v <= 0x10FFFF),
    ensures
        r == v as char,
{
    match char_from_u32(v) {
        Some(c) => c,
        None => '\u{FFFD}',
    }
}

/// Decodes the UTF-16 code units `units` (see [`utf16_lossy`]).
pub fn decode_utf16_lossy(units: &[u16]) -> (r: String)
    ensures
        r@ == utf16_lossy(units@),
{
    let mut s = String::new();
    let n = units.len();
    let mut i: usize = 0;
    assert(units@.skip(0) =~= units@);
    while i < n
        invariant
            n == units@.len(),
            i <= n,
            s@ + utf16_lossy(units@.skip(i as int)) == utf16_lossy(units@),
        decreases n - i,
    {
        let rest = Ghost(units@.skip(i as int));
        let u = units[i];
        assert(rest@[0] == u);
        if 0xD800 <= u && u < 0xDC00 && i + 1 < n && 0xDC00 <= units[i + 1] && units[i + 1] < 0xE000 {
            let lo = units[i + 1];
            assert(rest@[1] == lo);
            let v: u32 = 0x10000 + ((u - 0xD800) as u32) * 0x400 + ((lo - 0xDC00) as u32);
            let c = scalar(v);
            let ghost before = s@;
            push_char(&mut s, c);
            assert(rest@.skip(2) =~= units@.skip(i + 2));
            assert(s@ + utf16_lossy(units@.skip(i + 2)) =~= before + (seq![c] + utf16_lossy(rest@.skip(2))));
            i += 2;
        } else {
            let c = if 0xD800 <= u && u < 0xE000 {
                '\u{FFFD}'
            } else {
                scalar(u as u32)
            };
            let ghost before = s@;
            push_char(&mut s, c);
            assert(rest@.skip(1) =~= units@.skip(i + 1));
            assert(s@ + utf16_lossy(units@.skip(i + 1)) =~= before + (seq![c] + utf16_lossy(rest@.skip(1))));
            i += 1;
        }
    }
    assert(units@.skip(n as int) =~= Seq::<u16>::empty());
    assert(s@ + Seq::<char>::empty() =~= s@);
    s
}

/// The little-endian UTF-16 code unit at position `i` of `bytes`.
pub open spec fn le_unit(bytes: Seq<u8>, i: int) -> u16 {
    (bytes[2 * i] + 256 * bytes[2 * i + 1]) as u16
}

/// The code units of `bytes` read as little-endian UTF-16 from unit `i` on,
/// up to the first NUL unit or the last complete unit.
pub open spec fn units_from(bytes: Seq<u8>, i: int) -> Seq<u16>
    decreases bytes.len() - 2 * i,
{
    if 0 <= i && 2 * i + 1 < bytes.len() && le_unit(bytes, i) != 0 {
        seq![le_unit(bytes, i)] + units_from(bytes, i + 1)
    } else {
        Seq::empty()
    }
}

/// The little-endian UTF-16 code unit at position `i` of `bytes`.
fn unit_at(bytes: &[u8], i: usize) -> (r: u16)
    requires
        2 * i + 1 < bytes.len(),
    ensures
        r == le_unit(bytes@, i as int),
{
    bytes[2 * i] as u16 + (bytes[2 * i + 1] as u16) * 256
}

/// The NUL-terminated UTF-16 string stored in the device property `bytes`.
pub fn wide(bytes: &[u8]) -> (r: String)
    ensures
        r@ == utf16_lossy(units_from(bytes@, 0)),
{
    let mut units: Vec<u16> = Vec::new();
    let mut i: usize = 0;
    let n = bytes.len();
    assert(units@ + units_from(bytes@, 0) =~= units_from(bytes@, 0));
    while i < n / 2 && unit_at(bytes, i) != 0
        invariant
            n == bytes.len(),
            i <= n / 2,
            units@ + units_from(bytes@, i as int) == units_from(bytes@, 0),
        decreases n / 2 - i,
    {
        let u = unit_at(bytes, i);
        let ghost before = units@;
        units.push(u);
        assert(units@ + units_from(bytes@, i + 1) =~= before + units_from(bytes@, i as int));
        i += 1;
    }
    decode_utf16_lossy(units.as_slice())
}

/// The battery level in the device property `bytes`: its first byte, when
/// that is a percentage.
pub fn battery_level(bytes: &[u8]) -> (r: Option<u8>)
    ensures
        r == (if bytes@.len() > 0 && bytes@[0] <= MAX_BATTERY {
            Some(bytes@[0])
        } else {
            None
        }),
{
    if bytes.len() > 0 && bytes[0] <= MAX_BATTERY {
        Some(bytes[0])
    } else {
        None
    }
}

/// The name under which the Bluetooth remote is listed.
pub fn is_remote_name(name: &str) -> (r: bool)
    ensures
        r == (name@ == "IINE_keyboard"@),
{
    text_eq(name, "IINE_keyboard")
}

/// Whether the cached remote state, read `age_ms` ago (none: never read),
/// must be read again.
pub fn remote_cache_expired(age_ms: Option<u64>) -> (r: bool)
    ensures
        r == match age_ms {
            Some(a) => a >= REMOTE_CACHE_MS,
            None => true,
        },
{
    match age_ms {
        Some(a) => a >= REMOTE_CACHE_MS,
        None => true,
    }
}

/// The value of a hexadecimal digit, if `c` is one.
pub open spec fn hex_digit(c: char) -> Option<nat> {
    if '0' <= c && c <= '9' {
        Some((c as nat - '0' as nat) as nat)
    } else if 'a' <= c && c <= 'f' {
        Some((c as nat - 'a' as nat + 10) as nat)
    } else if 'A' <= c && c <= 'F' {
        Some((c as nat - 'A' as nat + 10) as nat)
    } else {
        None
    }
}

/// The number written in hexadecimal by `digits`, if they are all digits.
pub open spec fn hex_value(digits: Seq<char>) -> Option<nat>
    decreases digits.len(),
{
    if digits.len() == 0 {
        Some(0)
    } else {
        match (hex_value(digits.drop_last()), hex_digit(digits.last())) {
            (Some(v), Some(d)) => Some(16 * v + d),
            _ => None,
        }
    }
}

/// `u64::from_str_radix(s, 16)`: an optional `+`, then at least one
/// hexadecimal digit, for a value that fits in 64 bits.
pub open spec fn parse_hex_u64(s: Seq<char>) -> Option<u64> {
    let digits = if s.len() > 0 && s[0] == '+' {
        s.drop_first()
    } else {
        s
    };
    if digits.len() == 0 {
        None
    } else {
        match hex_value(digits) {
            Some(v) => if v <= u64::MAX {
                Some(v as u64)
            } else {
                None
            },
            None => None,
        }
    }
}

/// The second field of `s` split at `\`, if `s` has one.
pub open spec fn second_field(s: Seq<char>) -> Option<Seq<char>> {
    if exists|i: int| 0 <= i < s.len() && s[i] == '\\' {
        let i = choose|i: int| 0 <= i < s.len() && s[i] == '\\' && forall|j: int| 0 <= j < i ==> s[j] != '\\';
        let rest = s.skip(i + 1);
        if exists|k: int| 0 <= k < rest.len() && rest[k] == '\\' {
            let k = choose|k: int| 0 <= k < rest.len() && rest[k] == '\\' && forall|j: int| 0 <= j < k ==> rest[j] != '\\';
            Some(rest.take(k))
        } else {
            Some(rest)
        }
    } else {
        None
    }
}

/// The Bluetooth address in a device instance id such as
/// `BTHLE\DEV_A1B2C3D4E5F6\...`: the second field, after `DEV_`, in hexadecimal.
pub open spec fn address_of(instance_id: Seq<char>) -> Option<u64> {
    match second_field(instance_id) {
        Some(f) => if f.len() >= 4 && f.take(4) == "DEV_"@ {
            parse_hex_u64(f.skip(4))
        } else {
            None
        },
        None => None,
    }
}

/// The numbers of hexadecimal prefixes never exceed that of the whole.
proof fn lemma_hex_prefix(s: Seq<char>, k: int)
    requires
        0 <= k <= s.len(),
        hex_value(s) is Some,
    ensures
        hex_value(s.take(k)) is Some,
        hex_value(s.take(k)).unwrap() <= hex_value(s).unwrap(),
    decreases s.len() - k,
{
    if k == s.len() {
        assert(s.take(k) =~= s);
    } else {
        let t = s.take(k + 1);
        assert(t.drop_last() =~= s.take(k));
        lemma_hex_prefix(s, k + 1);
    }
}

/// The value of `c` as a hexadecimal digit.
fn hex_digit_value(c: char) -> (r: Option<u64>)
    ensures
        match r {
            Some(d) => hex_digit(c) == Some(d as nat) && d < 16,
            None => hex_digit(c) is None,
        },
{
    if '0' <= c && c <= '9' {
        Some((c as u32 - '0' as u32) as u64)
    } else if 'a' <= c && c <= 'f' {
        Some((c as u32 - 'a' as u32 + 10) as u64)
    } else if 'A' <= c && c <= 'F' {
        Some((c as u32 - 'A' as u32 + 10) as u64)
    } else {
        None
    }
}

/// `u64::from_str_radix(text[from..], 16)` (see [`parse_hex_u64`]).
fn parse_hex(v: &Vec<char>, from: usize) -> (r: Option<u64>)
    requires
        from <= v.len(),
    ensures
        r == parse_hex_u64(v@.skip(from as int)),
{
    let ghost s = v@.skip(from as int);
    let mut start = from;
    if start < v.len() && v[start] == '+' {
        start += 1;
    }
    let ghost digits = v@.skip(start as int);
    assert(digits =~= (if s.len() > 0 && s[0] == '+' { s.drop_first() } else { s }));
    if start == v.len() {
        return None;
    }
    let mut value: u64 = 0;
    let mut i = start;
    assert(digits.take(0) =~= Seq::<char>::empty());
    while i < v.len()
        invariant
            start <= i <= v.len(),
            digits == v@.skip(start as int),
            s == v@.skip(from as int),
            digits == (if s.len() > 0 && s[0] == '+' { s.drop_first() } else { s }),
            digits.len() > 0,
            hex_value(digits.take(i - start)) == Some(value as nat),
        decreases v.len() - i,
    {
        assert(digits.take(i - start + 1).drop_last() =~= digits.take(i - start));
        assert(digits.take(i - start + 1).last() == v@[i as int]);
        let d = match hex_digit_value(v[i]) {
            Some(d) => d,
            None => {
                proof {
                    assert(hex_value(digits.take(i - start + 1)) is None);
                    if hex_value(digits) is Some {
                        lemma_hex_prefix(digits, i - start + 1);
                    }
                }
                return None;
            },
        };
        if value > 0x0fff_ffff_ffff_ffff {
            proof {
                assert(hex_value(digits.take(i - start + 1)) == Some((16 * (value as nat) + d) as nat));
                if hex_value(digits) is Some {
                    lemma_hex_prefix(digits, i - start + 1);
                }
            }
            return None;
        }
        value = value * 16 + d;
        i += 1;
    }
    assert(digits.take(i - start) =~= digits);
    Some(value)
}

/// The Bluetooth address in a device instance id (see [`address_of`]).
pub fn bluetooth_address(instance_id: &str) -> (r: Option<u64>)
    ensures
        r == address_of(instance_id@),
{
    let v = chars_of(instance_id);
    let ghost s = v@;
    let mut i: usize = 0;
    while i < v.len() && v[i] != '\\'
        invariant
            i <= v.len(),
            s == v@,
            forall|j: int| 0 <= j < i ==> s[j] != '\\',
        decreases v.len() - i,
    {
        i += 1;
    }
    if i == v.len() {
        return None;
    }
    let start = i + 1;
    let ghost rest = s.skip(start as int);
    let mut k: usize = start;
    while k < v.len() && v[k] != '\\'
        invariant
            start <= k <= v.len(),
            s == v@,
            rest == s.skip(start as int),
            forall|j: int| start <= j < k ==> s[j] != '\\',
        decreases v.len() - k,
    {
        k += 1;
    }
    proof {
        let c = choose|c: int| 0 <= c < s.len() && s[c] == '\\' && forall|j: int| 0 <= j < c ==> s[j] != '\\';
        assert(c == i) by {
            if c < i {
            } else if c > i {
            }
        }
        if k < v.len() {
            assert(rest[k - start] == '\\');
            let c2 = choose|c2: int| 0 <= c2 < rest.len() && rest[c2] == '\\' && forall|j: int| 0 <= j < c2 ==> rest[j] != '\\';
            assert(c2 == k - start) by {
                if c2 < k - start {
                    assert(rest[c2] == s[start + c2]);
                } else if c2 > k - start {
                }
            }
        } else {
            assert forall|j: int| 0 <= j < rest.len() implies rest[j] != '\\' by {
                assert(rest[j] == s[start + j]);
            }
        }
    }
    let ghost field = s.subrange(start as int, k as int);
    assert(second_field(s) == Some(field)) by {
        if k < v.len() {
            assert(rest.take(k - start) =~= field);
        } else {
            assert(rest =~= field);
        }
    }
    if k - start < 4 || v[start] != 'D' || v[start + 1] != 'E' || v[start + 2] != 'V' || v[start + 3] != '_' {
        proof {
            reveal_strlit("DEV_");
            if field.len() >= 4 && field.take(4) == "DEV_"@ {
                assert(field.take(4)[0] == 'D');
                assert(field.take(4)[1] == 'E');
                assert(field.take(4)[2] == 'V');
                assert(field.take(4)[3] == '_');
            }
        }
        return None;
    }
    proof {
        reveal_strlit("DEV_");
        assert(field.take(4) =~= "DEV_"@);
    }
    let mut digits: Vec<char> = Vec::new();
    let mut m = start + 4;
    while m < k
        invariant
            start + 4 <= m <= k <= v.len(),
            digits@ == s.subrange(start + 4, m as int),
            s == v@,
        decreases k - m,
    {
        digits.push(v[m]);
        assert(s.subrange(start + 4, m + 1) =~= s.subrange(start + 4, m as int).push(s[m as int]));
        m += 1;
    }
    assert(digits@.skip(0) =~= field.skip(4));
    parse_hex(&digits, 0)
}

/// How many Bluetooth LE devices are looked at when searching for the remote.
pub const MAX_BLE_DEVICES: usize = 256;

/// A friendly-name property (`None`: unreadable) that names the remote.
pub open spec fn names_remote(name: Option<Vec<u8>>) -> bool {
    name matches Some(bytes) && utf16_lossy(units_from(bytes@, 0)) == "IINE_keyboard"@
}

/// `k` is the position of the first device, among the first
/// [`MAX_BLE_DEVICES`], whose name is that of the remote.
pub open spec fn is_first_remote(names: Seq<Option<Vec<u8>>>, k: int) -> bool {
    &&& 0 <= k < names.len()
    &&& k < MAX_BLE_DEVICES
    &&& names_remote(names[k])
    &&& forall|j: int| 0 <= j < k ==> !names_remote(#[trigger] names[j])
}

/// The position of the remote among the devices with the friendly names
/// `names`, in enumeration order, if one of the first [`MAX_BLE_DEVICES`] is
/// the remote.
pub open spec fn first_remote(names: Seq<Option<Vec<u8>>>) -> Option<int> {
    if exists|k: int| is_first_remote(names, k) {
        Some(choose|k: int| is_first_remote(names, k))
    } else {
        None
    }
}

/// Finds the remote among the devices with the friendly-name properties
/// `names` (see [`first_remote`]).
pub fn find_remote(names: &Vec<Option<Vec<u8>>>) -> (r: Option<usize>)
    ensures
        match r {
            Some(k) => first_remote(names@) == Some(k as int),
            None => first_remote(names@) is None,
        },
{
    let mut i: usize = 0;
    while i < names.len() && i < MAX_BLE_DEVICES
        invariant
            i <= names.len(),
            i <= MAX_BLE_DEVICES,
            forall|j: int| 0 <= j < i ==> !names_remote(#[trigger] names@[j]),
        decreases names.len() - i,
    {
        let found = match &names[i] {
            Some(bytes) => {
                let name = wide(bytes.as_slice());
                is_remote_name(name.as_str())
            },
            None => false,
        };
        if found {
            assert(is_first_remote(names@, i as int));
            proof {
                let c = choose|c: int| is_first_remote(names@, c);
                assert(c == i as int) by {
                    if c > i {
                        assert(!names_remote(names@[i as int]));
                    }
                }
            }
            return Some(i);
        }
        i += 1;
    }
    assert(!exists|k: int| is_first_remote(names@, k));
    None
}

/// The code units of `units` before the first NUL unit.
pub open spec fn until_nul(units: Seq<u16>) -> Seq<u16>
    decreases units.len(),
{
    if units.len() == 0 || units[0] == 0 {
        Seq::empty()
    } else {
        seq![units[0]] + until_nul(units.skip(1))
    }
}

/// The battery level reported in the battery property `battery` (`None`:
/// unreadable): its first byte, when that is a percentage.
pub open spec fn battery_of(battery: Option<Vec<u8>>) -> Option<u8> {
    match battery {
        Some(b) => if b@.len() > 0 && b@[0] <= MAX_BATTERY {
            Some(b@[0])
        } else {
            None
        },
        None => None,
    }
}

/// What is reported of the found remote: its battery level, from its battery
/// property, and its Bluetooth address, from the NUL-terminated instance id
/// `instance_id`.
pub fn remote_state(battery: &Option<Vec<u8>>, instance_id: &[u16]) -> (r: (Option<u8>, Option<u64>))
    ensures
        r.0 == battery_of(*battery),
        r.1 == address_of(utf16_lossy(until_nul(instance_id@))),
{
    let level = match battery {
        Some(b) => battery_level(b.as_slice()),
        None => None,
    };
    let mut units: Vec<u16> = Vec::new();
    let mut i: usize = 0;
    let n = instance_id.len();
    assert(instance_id@.skip(0) =~= instance_id@);
    assert(units@ + until_nul(instance_id@) =~= until_nul(instance_id@));
    while i < n && instance_id[i] != 0
        invariant
            n == instance_id@.len(),
            i <= n,
            units@ + until_nul(instance_id@.skip(i as int)) == until_nul(instance_id@),
        decreases n - i,
    {
        let ghost rest = instance_id@.skip(i as int);
        assert(rest[0] == instance_id@[i as int]);
        let ghost before = units@;
        units.push(instance_id[i]);
        assert(rest.skip(1) =~= instance_id@.skip(i + 1));
        assert(units@ + until_nul(instance_id@.skip(i + 1)) =~= before + until_nul(rest));
        i += 1;
    }
    proof {
        let rest = instance_id@.skip(i as int);
        if i < n {
            assert(rest[0] == 0);
        }
        assert(until_nul(rest) =~= Seq::<u16>::empty());
        assert(units@ + Seq::<u16>::empty() =~= units@);
    }
    let id = decode_utf16_lossy(units.as_slice());
    (level, bluetooth_address(id.as_str()))
}

} // verus!

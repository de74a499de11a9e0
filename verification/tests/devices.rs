use openless::devices::{
    battery_level, bluetooth_address, check_setting, confirm_setting, decode_utf16_lossy, ensure_main, find_remote,
    has_text, is_remote_name, plan_setting, remote_cache_expired, remote_state, settings_unique, wide, DeviceStatus,
    SettingTarget, Transmitter,
};

fn status(connected: bool, settings: &[(&str, &str)], tx0: Option<&str>) -> DeviceStatus {
    DeviceStatus {
        connected,
        settings: settings.iter().map(|(a, b)| (a.to_string(), b.to_string())).collect(),
        transmitters: [
            tx0.map(|n| Transmitter { product_name: Some(n.to_string()), voice_tone: Some("warm".into()) }),
            None,
        ],
    }
}

#[test]
fn only_known_settings_are_accepted() {
    assert_eq!(check_setting("low-cut"), Ok(()));
    assert_eq!(check_setting("voice-tone"), Ok(()));
    assert_eq!(check_setting("volume"), Err("Unsupported microphone setting".to_string()));
}

#[test]
fn setting_plans() {
    let s = status(true, &[("safety-track", "on")], Some("DJI Mic Mini 2 TX"));
    assert!(matches!(plan_setting("low-cut", "on", None, &s), Ok(SettingTarget::Receiver)));
    assert_eq!(
        plan_setting("stereo", "stereo", None, &s).err(),
        Some("当前已启用安全音轨，不能同时启用立体声".to_string())
    );
    assert!(plan_setting("stereo", "mono", None, &s).is_ok());
    assert!(matches!(plan_setting("voice-tone", "warm", Some(0), &s), Ok(SettingTarget::Transmitter(0))));
    assert_eq!(plan_setting("voice-tone", "warm", Some(1), &s).err(), Some("发射器未连接".to_string()));
    assert_eq!(plan_setting("voice-tone", "warm", Some(2), &s).err(), Some("请选择有效的发射器".to_string()));
    assert_eq!(plan_setting("voice-tone", "warm", None, &s).err(), Some("请选择有效的发射器".to_string()));
    assert_eq!(plan_setting("low-cut", "on", Some(0), &s).err(), Some("此设置不支持单独指定发射器".to_string()));
    let other = status(true, &[], Some("DJI Mic 2"));
    assert_eq!(
        plan_setting("voice-tone", "warm", Some(0), &other).err(),
        Some("音色设置仅支持 DJI Mic Mini 2".to_string())
    );
    let off = status(false, &[], None);
    assert_eq!(plan_setting("low-cut", "on", None, &off).err(), Some("麦克风已断开，请重新连接后再试".to_string()));
}

#[test]
fn confirmation_reads_the_new_value() {
    let s = status(true, &[("low-cut", "on")], Some("DJI Mic Mini 2"));
    assert_eq!(confirm_setting("low-cut", "on", &SettingTarget::Receiver, &s), Ok(true));
    assert_eq!(confirm_setting("low-cut", "off", &SettingTarget::Receiver, &s), Ok(false));
    assert_eq!(confirm_setting("voice-tone", "warm", &SettingTarget::Transmitter(0), &s), Ok(true));
    assert_eq!(confirm_setting("voice-tone", "warm", &SettingTarget::Transmitter(1), &s), Ok(false));
    let off = status(false, &[], None);
    assert_eq!(
        confirm_setting("low-cut", "on", &SettingTarget::Receiver, &off),
        Err("设置过程中设备断开".to_string())
    );
}

#[test]
fn wide_strings_stop_at_nul() {
    assert_eq!(wide(&[0x49, 0, 0x49, 0, 0x4e, 0, 0x45, 0, 0, 0, 0x41, 0]), "IINE");
    assert_eq!(wide(&[0x41, 0, 0x42]), "A");
    assert_eq!(wide(&[0x27, 0x59]), "大");
    assert_eq!(wide(&[]), "");
}

#[test]
fn battery_is_a_percentage() {
    assert_eq!(battery_level(&[87, 1]), Some(87));
    assert_eq!(battery_level(&[100]), Some(100));
    assert_eq!(battery_level(&[101]), None);
    assert_eq!(battery_level(&[]), None);
}

#[test]
fn bluetooth_address_from_instance_id() {
    assert_eq!(bluetooth_address("BTHLE\\DEV_A1B2C3D4E5F6\\7&1"), Some(0xA1B2C3D4E5F6));
    assert_eq!(bluetooth_address("BTHLE\\DEV_ff"), Some(0xff));
    assert_eq!(bluetooth_address("BTHLE\\DEV_+10"), Some(16));
    assert_eq!(bluetooth_address("BTHLE\\DEV_"), None);
    assert_eq!(bluetooth_address("BTHLE\\DEV_xyz"), None);
    assert_eq!(bluetooth_address("BTHLE\\XYZ_12"), None);
    assert_eq!(bluetooth_address("BTHLE"), None);
    assert_eq!(bluetooth_address("BTHLE\\DEV_1ffffffffffffffff"), None);
    assert_eq!(bluetooth_address("BTHLE\\DEV_ffffffffffffffff"), Some(u64::MAX));
}

#[test]
fn remote_name_and_cache() {
    assert!(is_remote_name("IINE_keyboard"));
    assert!(!is_remote_name("keyboard"));
    assert!(remote_cache_expired(None));
    assert!(remote_cache_expired(Some(30_000)));
    assert!(!remote_cache_expired(Some(29_999)));
}

#[test]
fn text_search_and_main_window() {
    assert!(has_text("DJI Mic Mini 2 TX", "Mini 2"));
    assert!(!has_text("DJI Mic 2", "Mini 2"));
    assert!(has_text("abc", ""));
    assert_eq!(ensure_main("main"), Ok(()));
    assert!(ensure_main("other").is_err());
}

#[test]
fn setting_names_are_unique() {
    let s = status(true, &[("low-cut", "on"), ("stereo", "mono")], None);
    assert!(settings_unique(&s.settings));
    let s = status(true, &[("low-cut", "on"), ("low-cut", "off")], None);
    assert!(!settings_unique(&s.settings));
    assert!(settings_unique(&Vec::new()));
}

#[test]
fn utf16_decoding_matches_the_standard_library() {
    let cases: Vec<Vec<u16>> = vec![
        vec![],
        "DJI Mic 2 🎤 发射器".encode_utf16().collect(),
        vec![0xD800],
        vec![0xDC00, 0x41],
        vec![0xD83C, 0x41, 0xDFA4],
        vec![0xD83C, 0xDFA4, 0xD83C],
        vec![0xFFFF, 0xE000, 0xD7FF],
    ];
    for units in cases {
        assert_eq!(decode_utf16_lossy(&units), String::from_utf16_lossy(&units), "{units:?}");
    }
}

fn property(name: &str) -> Option<Vec<u8>> {
    let mut bytes: Vec<u8> = name.encode_utf16().flat_map(|u| u.to_le_bytes()).collect();
    bytes.extend([0, 0]);
    Some(bytes)
}

#[test]
fn the_remote_is_the_first_device_with_its_name() {
    let names = vec![property("Mouse"), None, property("IINE_keyboard"), property("IINE_keyboard")];
    assert_eq!(find_remote(&names), Some(2));
    assert_eq!(find_remote(&vec![property("IINE"), None]), None);
    let mut many: Vec<Option<Vec<u8>>> = vec![None; 256];
    many.push(property("IINE_keyboard"));
    assert_eq!(find_remote(&many), None, "only the first 256 devices are looked at");
    many[255] = property("IINE_keyboard");
    assert_eq!(find_remote(&many), Some(255));
}

#[test]
fn remote_battery_and_address() {
    let id: Vec<u16> = "BTHLE\\DEV_A4C138F00D11\\7&1\0garbage".encode_utf16().collect();
    assert_eq!(remote_state(&Some(vec![87, 1]), &id), (Some(87), Some(0xA4C138F00D11)));
    assert_eq!(remote_state(&Some(vec![101]), &id).0, None, "a battery above 100 is dropped");
    assert_eq!(remote_state(&None, &id).0, None);
    let bad: Vec<u16> = "BTHLE\\XYZ\\1".encode_utf16().collect();
    assert_eq!(remote_state(&Some(vec![]), &bad), (None, None));
}

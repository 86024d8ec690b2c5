use dmvop::device::{
    choose_device, find_device_or_first, match_default_device, DefaultMatch, DeviceChoice,
    DeviceInfo,
};

fn devices() -> Vec<DeviceInfo> {
    vec![
        DeviceInfo { id: "{0.0.1.00000000}.{abc-123}".to_string(), name: "Headset Mic".to_string() },
        DeviceInfo { id: "hw:1,0".to_string(), name: "USB Microphone".to_string() },
    ]
}

#[test]
fn device_by_id_or_name() {
    let d = devices();
    assert_eq!(choose_device(Some("hw:1,0"), &d), DeviceChoice::Listed(1));
    assert_eq!(choose_device(Some("Headset Mic"), &d), DeviceChoice::Listed(0));
    assert_eq!(choose_device(Some("headset mic"), &d), DeviceChoice::NotFound);
}

#[test]
fn device_auto_or_missing() {
    let d = devices();
    assert_eq!(choose_device(Some("auto"), &d), DeviceChoice::SystemDefault);
    assert_eq!(choose_device(Some(""), &d), DeviceChoice::SystemDefault);
    assert_eq!(choose_device(None, &d), DeviceChoice::Unspecified);
}

#[test]
fn default_device_by_id_ignoring_braces() {
    let d = devices();
    assert_eq!(match_default_device(&d, "0.0.1.00000000}.{abc-123", "x"), DefaultMatch::ById(0));
    assert_eq!(match_default_device(&d, "{hw:1,0}", "x"), DefaultMatch::ById(1));
}

#[test]
fn default_device_by_name_ignoring_case() {
    let d = devices();
    assert_eq!(
        match_default_device(&d, "zzz", "ALSA: usb microphone (card 1)"),
        DefaultMatch::ByName(1)
    );
    assert_eq!(match_default_device(&d, "zzz", "nothing"), DefaultMatch::Unmatched);
}

#[test]
fn capture_device_or_first() {
    let d = devices();
    assert_eq!(find_device_or_first(&d, "USB Microphone"), Some(1));
    assert_eq!(find_device_or_first(&d, "missing"), Some(0));
    assert_eq!(find_device_or_first(&[], "missing"), None);
}

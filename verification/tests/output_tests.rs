use dmvop::output::{
    compute_broadcast_address, format_dotted_quad, frame_message, keep_delivered, parse_u32,
    socket_address,
};

#[test]
fn messages_end_with_a_line_feed() {
    assert_eq!(frame_message("80,hello"), "80,hello\n");
    assert_eq!(frame_message(""), "\n");
}

#[test]
fn socket_addresses() {
    assert_eq!(socket_address("0.0.0.0", 5117), "0.0.0.0:5117");
    assert_eq!(socket_address("192.168.1.255", 0), "192.168.1.255:0");
    assert_eq!(socket_address("::", 65535), ":::65535");
}

#[test]
fn clients_that_failed_are_dropped_in_order() {
    let kept = keep_delivered(vec!["a", "b", "c", "d"], &vec![true, false, true, false]);
    assert_eq!(kept, vec!["a", "c"]);
    let none: Vec<u8> = keep_delivered(vec![], &vec![]);
    assert!(none.is_empty());
}

#[test]
fn u32_numerals() {
    assert_eq!(parse_u32("0"), Some(0));
    assert_eq!(parse_u32("+5"), Some(5));
    assert_eq!(parse_u32("007"), Some(7));
    assert_eq!(parse_u32("4294967295"), Some(4294967295));
    assert_eq!(parse_u32("4294967296"), None);
    assert_eq!(parse_u32("99999999999999999999"), None);
    assert_eq!(parse_u32(""), None);
    assert_eq!(parse_u32("+"), None);
    assert_eq!(parse_u32("-1"), None);
    assert_eq!(parse_u32("1a"), None);
    assert_eq!(parse_u32(" 1"), None);
}

#[test]
fn u32_numerals_agree_with_std() {
    for s in ["12", "+0", "++1", "256", "4294967295", "4294967296", "", "x", "00000000000000000001"] {
        assert_eq!(parse_u32(s), s.parse::<u32>().ok(), "{}", s);
    }
}

#[test]
fn dotted_quads() {
    assert_eq!(format_dotted_quad(0xC0A8_01FF), "192.168.1.255");
    assert_eq!(format_dotted_quad(0), "0.0.0.0");
    assert_eq!(format_dotted_quad(u32::MAX), "255.255.255.255");
}

#[test]
fn broadcast_address_of_a_class_c_subnet() {
    assert_eq!(
        compute_broadcast_address("255.255.255.0", Some("192.168.1.23")),
        "192.168.1.255"
    );
    assert_eq!(
        compute_broadcast_address("255.255.0.0", Some("10.1.2.3")),
        "10.1.255.255"
    );
}

#[test]
fn broadcast_address_falls_back() {
    assert_eq!(compute_broadcast_address("255.255.255.0", None), "255.255.255.255");
    assert_eq!(compute_broadcast_address("0.0.0.0", Some("10.1.2.3")), "255.255.255.255");
    assert_eq!(compute_broadcast_address("255.255.255.0", Some("10.1.2")), "255.255.255.255");
}

#[test]
fn broadcast_address_skips_unreadable_mask_numbers() {
    // "x" is skipped, so the mask packs to 0x00FFFF00.
    assert_eq!(
        compute_broadcast_address("255.x.255.0", Some("10.1.2.3")),
        "255.1.2.255"
    );
}

#[test]
fn broadcast_address_reads_back() {
    let text = compute_broadcast_address("255.255.240.0", Some("172.16.33.4"));
    let parts: Vec<u32> = text.split('.').map(|p| p.parse().unwrap()).collect();
    let packed = parts.iter().fold(0u32, |acc, o| (acc << 8) | o);
    assert_eq!(packed, 0xAC10_2104 | !0xFFFF_F000u32);
}

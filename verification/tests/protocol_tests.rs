use shardgrid::protocol::{
    build_admin_connect, build_route, build_routed, read_route, Broadcast, CrossingAlertData,
    PAYLOAD_CROSSING_ALERT, TAG_ADMIN_CONNECT, TAG_ADMIN_ROUTE_RECEIVE, TAG_ADMIN_ROUTE_SEND,
};
use shardgrid::text::{
    parse_unsigned, read_name_field, remove_matches, shard_topic_string, str_eq,
    trim_nul_chars, u32_to_decimal, u64_to_decimal,
};
use shardgrid::wire::{push_u16_le, push_u32_le, read_u16_le, read_u32_le, slice_to_vec};

#[test]
fn u32_is_written_least_significant_first() {
    let mut out = Vec::new();
    push_u32_le(&mut out, 0x1234_5678);
    assert_eq!(out, vec![0x78, 0x56, 0x34, 0x12]);
    assert_eq!(read_u32_le(&out, 0), 0x1234_5678);
    let mut out = Vec::new();
    push_u16_le(&mut out, 0xbeef);
    assert_eq!(out, vec![0xef, 0xbe]);
    assert_eq!(read_u16_le(&out, 0), 0xbeef);
    assert_eq!(slice_to_vec(&[1, 2, 3, 4], 1, 3), vec![2, 3]);
}

#[test]
fn crossing_alert_is_read_from_its_bytes() {
    let data = [PAYLOAD_CROSSING_ALERT, 7, 0, 0, 0, 2, 1, 0, 0, 0, 2, 0, 0, 0];
    let alert = CrossingAlertData::from_bytes(&data).expect("a valid alert");
    assert_eq!(alert.client_id, 7);
    assert_eq!(alert.involved_shards, vec![1, 2]);
}

#[test]
fn crossing_alert_with_no_shard_is_valid() {
    let data = [PAYLOAD_CROSSING_ALERT, 1, 0, 0, 0, 0];
    let alert = CrossingAlertData::from_bytes(&data).expect("a valid alert");
    assert_eq!(alert.client_id, 1);
    assert!(alert.involved_shards.is_empty());
}

#[test]
fn crossing_alert_refuses_bad_bytes() {
    assert!(CrossingAlertData::from_bytes(&[]).is_none());
    assert!(CrossingAlertData::from_bytes(&[0x98, 7, 0, 0, 0, 0]).is_none());
    assert!(CrossingAlertData::from_bytes(&[PAYLOAD_CROSSING_ALERT, 7, 0, 0, 0]).is_none());
    // Announces two shards, carries one.
    assert!(CrossingAlertData::from_bytes(&[PAYLOAD_CROSSING_ALERT, 7, 0, 0, 0, 2, 1, 0, 0, 0]).is_none());
}

#[test]
fn admin_connect_pads_the_name_to_32_bytes() {
    let frame = build_admin_connect("spatial");
    assert_eq!(frame.len(), 33);
    assert_eq!(frame[0], TAG_ADMIN_CONNECT);
    assert_eq!(&frame[1..8], b"spatial");
    assert!(frame[8..].iter().all(|b| *b == 0));
    assert_eq!(read_name_field(&frame, 1), "spatial");
}

#[test]
fn a_long_name_is_cut_after_32_bytes() {
    let name = "a".repeat(40);
    let frame = build_admin_connect(&name);
    assert_eq!(frame.len(), 33);
    assert_eq!(read_name_field(&frame, 1), "a".repeat(32));
}

#[test]
fn route_frames_read_back() {
    let frame = build_route("orchestrator", &[9, 8, 7]);
    assert_eq!(frame[0], TAG_ADMIN_ROUTE_SEND);
    assert_eq!(frame.len(), 1 + 32 + 2 + 3);
    assert_eq!(&frame[33..35], &[3, 0]);
    let (name, payload) = read_route(&frame[1..]).expect("a complete route");
    assert_eq!(name, "orchestrator");
    assert_eq!(payload, vec![9, 8, 7]);
    // Cut short.
    assert!(read_route(&frame[1..frame.len() - 1]).is_none());
    assert!(read_route(&frame[1..20]).is_none());
    assert_eq!(build_routed(&[5, 6]), vec![TAG_ADMIN_ROUTE_RECEIVE, 5, 6]);
}

#[test]
fn broadcast_frames_read_back() {
    let b = Broadcast::new(&[1, 2, 3]);
    assert_eq!(b.playload_len, 3);
    let frame = b.to_frame();
    assert_eq!(frame, vec![0x04, 3, 0, 1, 2, 3]);
    let back = Broadcast::from_frame(&frame[1..]).expect("a complete broadcast");
    assert_eq!(back.playload, vec![1, 2, 3]);
    assert!(Broadcast::from_frame(&[5, 0, 1]).is_none());
    assert!(Broadcast::from_frame(&[1]).is_none());
}

#[test]
fn decimal_text() {
    assert_eq!(u32_to_decimal(0), "0");
    assert_eq!(u32_to_decimal(4294967295), "4294967295");
    assert_eq!(u64_to_decimal(22555), "22555");
    assert_eq!(u64_to_decimal(u64::MAX), u64::MAX.to_string());
    assert_eq!(shard_topic_string(12), "shard:12");
}

#[test]
fn parse_unsigned_reads_digits_up_to_a_limit() {
    assert_eq!(parse_unsigned("8080", 65535), Some(8080));
    assert_eq!(parse_unsigned("65536", 65535), None);
    assert_eq!(parse_unsigned("", 65535), None);
    assert_eq!(parse_unsigned("12a", 65535), None);
    assert_eq!(parse_unsigned("+7", 65535), Some(7));
    assert_eq!(parse_unsigned("-7", 65535), None);
}

#[test]
fn text_helpers() {
    assert!(str_eq("idle", "idle"));
    assert!(!str_eq("idle", "idl"));
    assert_eq!(trim_nul_chars("\0\0ab\0c\0"), "ab\0c");
    assert_eq!(trim_nul_chars("\0\0"), "");
    let mut field = [0u8; 32];
    field[..3].copy_from_slice(&[0x66, 0xff, 0x67]);
    assert_eq!(read_name_field(&field, 0), "f\u{fffd}g");
    assert_eq!(remove_matches("server:abc", "server:"), "abc");
    assert_eq!(remove_matches("xserver:yserver:", "server:"), "xy");
    assert_eq!(remove_matches("serve", "server:"), "serve");
    assert_eq!(remove_matches("abc", ""), "abc");
}

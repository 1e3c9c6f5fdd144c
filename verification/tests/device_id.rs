use pulsar_proto::DeviceId;

#[test]
fn device_id_groups_and_parses_round_trip() {
    let id = DeviceId::new(482_913_056).unwrap();
    assert_eq!(id.grouped(), "482 913 056");
    assert_eq!(DeviceId::parse("482 913 056"), Some(id));
    assert_eq!(DeviceId::parse("482913056"), Some(id));
    assert_eq!(DeviceId::parse("ID 482-913-056!"), Some(id));
}

#[test]
fn grouped_survives_out_of_range_wire_ids() {
    // Decoding doesn't validate the range, so a crafted datagram can produce
    // e.g. DeviceId(5) — grouped()/Debug must fall back, not panic on slicing.
    assert_eq!(DeviceId(5).grouped(), "5");
    assert_eq!(DeviceId(1_000_000_000).grouped(), "1000000000");
    assert_eq!(format!("{:?}", DeviceId(5)), "DeviceId(5)");
}

#[test]
fn device_id_rejects_out_of_range() {
    assert_eq!(DeviceId::new(99_999_999), None); // 8 digits
    assert_eq!(DeviceId::new(1_000_000_000), None); // 10 digits
    assert!(DeviceId::new(DeviceId::MIN).is_some());
    assert!(DeviceId::new(DeviceId::MAX).is_some());
}

#[test]
fn random_device_id_is_always_nine_digits() {
    let mut rng = rand::thread_rng();
    for _ in 0..1000 {
        let id = DeviceId::random(&mut rng);
        assert_eq!(id.0.to_string().len(), 9);
        assert!(DeviceId::new(id.0).is_some());
    }
}

#[test]
fn random_device_ids_differ() {
    let mut rng = rand::thread_rng();
    let first = DeviceId::random(&mut rng);
    assert!((0..100).any(|_| DeviceId::random(&mut rng) != first));
}

#[test]
fn new_keeps_the_number() {
    assert_eq!(DeviceId::new(100_000_000), Some(DeviceId(100_000_000)));
    assert_eq!(DeviceId::new(999_999_999), Some(DeviceId(999_999_999)));
    assert_eq!(DeviceId::new(0), None);
    assert_eq!(DeviceId::new(u32::MAX), None);
}

#[test]
fn text_forms_of_edge_numbers() {
    assert_eq!(DeviceId(0).grouped(), "0");
    assert_eq!(DeviceId(99_999_999).grouped(), "99999999");
    assert_eq!(DeviceId(u32::MAX).grouped(), "4294967295");
    assert_eq!(DeviceId(100_000_000).grouped(), "100 000 000");
    assert_eq!(DeviceId(999_999_999).grouped(), "999 999 999");
    assert_eq!(DeviceId(482_913_056).to_string(), "482913056");
    assert_eq!(format!("{}", DeviceId(0)), "0");
    assert_eq!(format!("{:?}", DeviceId(482_913_056)), "DeviceId(482 913 056)");
    assert_eq!(DeviceId(482_913_056).debug_text(), "DeviceId(482 913 056)");
    assert_eq!(DeviceId(482_913_056).display_text(), "482913056");
}

#[test]
fn parse_reads_ascii_digits_only() {
    assert_eq!(DeviceId::parse(""), None);
    assert_eq!(DeviceId::parse("no digits"), None);
    assert_eq!(DeviceId::parse("12345678"), None);
    assert_eq!(DeviceId::parse("1234567890"), None);
    assert_eq!(DeviceId::parse("99999999999999999999999999"), None);
    // Leading zeros do not count.
    assert_eq!(DeviceId::parse("000 482 913 056"), Some(DeviceId(482_913_056)));
    assert_eq!(DeviceId::parse("012345678"), None);
    // Digits of other scripts are no digits here.
    assert_eq!(DeviceId::parse("٤٨٢٩١٣٠٥٦"), None);
    assert_eq!(DeviceId::parse("４ 482 913 056"), Some(DeviceId(482_913_056)));
}

#[test]
fn both_text_forms_parse_back() {
    for n in [100_000_000u32, 123_456_789, 482_913_056, 999_999_999] {
        let id = DeviceId::new(n).unwrap();
        assert_eq!(DeviceId::parse(&id.grouped()), Some(id));
        assert_eq!(DeviceId::parse(&id.to_string()), Some(id));
        assert_eq!(id.to_string().len(), 9);
        assert_eq!(id.grouped().len(), 11);
    }
}

#[test]
fn texts_with_the_same_digits_parse_alike() {
    assert_eq!(DeviceId::parse("4-8-2 913056"), DeviceId::parse("482913056"));
    assert_eq!(DeviceId::parse("4x"), DeviceId::parse("y4"));
}

#[test]
fn formatting_appends_to_what_was_written() {
    let id = DeviceId(482_913_056);
    assert_eq!(format!("from {} to {:?}.", id, id), "from 482913056 to DeviceId(482 913 056).");
    assert_eq!(format!("{:#?}", Some(id)), "Some(\n    DeviceId(482 913 056),\n)");
}

use domus::discovery::{
    accessory_from_advertisement, insert_accessory, parse_dec_u32, parse_feature_flags,
    parse_hex_u32, parse_status_flags, AccessoryCategory, Advertisement, DiscoveryAttributeError,
    HapAccessory, HostAddress, PairingFeatureFlag, StatusFlag, TxtKey,
};

fn full_advertisement() -> Advertisement {
    Advertisement {
        addresses: vec![
            HostAddress { is_ipv4: false, text: String::from("fe80::1") },
            HostAddress { is_ipv4: true, text: String::from("192.168.1.40") },
        ],
        port: 8080,
        id: Some(String::from("AA:BB:CC:DD:EE:FF")),
        model: Some(String::from("PS-S02D")),
        configuration_number: Some(String::from("7")),
        current_state_number: Some(String::from("1")),
        pairing_feature_flags: Some(String::from("01")),
        status_flags: Some(String::from("03")),
        setup_hash: Some(String::from("abcd")),
        category: Some(String::from("5")),
        protocol_version: Some(String::from("1.1")),
    }
}

#[test]
fn test_accessory_built_from_full_advertisement() {
    let adv = full_advertisement();
    let acc = accessory_from_advertisement(&adv).unwrap();
    // prefers the IPv4 address over the earlier IPv6 one
    assert!(acc.address.is_ipv4);
    assert_eq!(acc.address.text, "192.168.1.40");
    assert_eq!(acc.port, 8080);
    assert_eq!(acc.id, "AA:BB:CC:DD:EE:FF");
    assert_eq!(acc.model, "PS-S02D");
    assert_eq!(acc.configuration_number, 7);
    assert_eq!(acc.current_state_number, 1);
    assert_eq!(acc.category, AccessoryCategory::Lighting);
    assert_eq!(acc.protocol_version, "1.1");
    assert_eq!(acc.setup_hash.as_deref(), Some("abcd"));
    assert!(acc.pairing_feature_flags.contains(PairingFeatureFlag::AppleAuthenticationCoprocessor));
    assert!(!acc.pairing_feature_flags.contains(PairingFeatureFlag::SoftwareAuthentication));
}

#[test]
fn test_advertisement_without_id_is_rejected() {
    let mut adv = full_advertisement();
    adv.id = None;
    assert_eq!(
        accessory_from_advertisement(&adv).unwrap_err(),
        DiscoveryAttributeError::Missing(TxtKey::Id)
    );
}

#[test]
fn test_advertisement_without_any_address_is_rejected() {
    let mut adv = full_advertisement();
    adv.addresses = Vec::new();
    assert_eq!(
        accessory_from_advertisement(&adv).unwrap_err(),
        DiscoveryAttributeError::NoAddress
    );
}

#[test]
fn test_ipv6_fallback_when_no_ipv4() {
    let mut adv = full_advertisement();
    adv.addresses = vec![HostAddress { is_ipv4: false, text: String::from("fe80::1") }];
    let acc = accessory_from_advertisement(&adv).unwrap();
    assert!(!acc.address.is_ipv4);
    assert_eq!(acc.address.text, "fe80::1");
}

#[test]
fn test_category_code_out_of_range_is_rejected() {
    let mut adv = full_advertisement();
    adv.category = Some(String::from("33"));
    assert_eq!(
        accessory_from_advertisement(&adv).unwrap_err(),
        DiscoveryAttributeError::Malformed(TxtKey::Category)
    );
    adv.category = Some(String::from("0"));
    assert_eq!(
        accessory_from_advertisement(&adv).unwrap_err(),
        DiscoveryAttributeError::Malformed(TxtKey::Category)
    );
}

#[test]
fn test_malformed_configuration_number_is_rejected() {
    let mut adv = full_advertisement();
    adv.configuration_number = Some(String::from("seven"));
    assert_eq!(
        accessory_from_advertisement(&adv).unwrap_err(),
        DiscoveryAttributeError::Malformed(TxtKey::ConfigurationNumber)
    );
}

#[test]
fn test_status_flags_hex_03_sets_both_bits() {
    let flags = parse_status_flags(Some("03")).unwrap();
    assert!(flags.contains(StatusFlag::NotPaired));
    assert!(flags.contains(StatusFlag::NotConfiguredForWiFi));
    assert!(!flags.contains(StatusFlag::ProblemDetected));
}

#[test]
fn test_absent_status_flags_mean_empty_set() {
    let flags = parse_status_flags(None).unwrap();
    assert!(!flags.contains(StatusFlag::NotPaired));
    assert!(!flags.contains(StatusFlag::NotConfiguredForWiFi));
    assert!(!flags.contains(StatusFlag::ProblemDetected));
}

#[test]
fn test_status_flags_with_unknown_bit_are_rejected() {
    assert!(parse_status_flags(Some("08")).is_none());
    assert!(parse_status_flags(Some("100")).is_none());
    assert!(parse_status_flags(Some("zz")).is_none());
    assert!(parse_status_flags(Some("")).is_none());
}

#[test]
fn test_feature_flags_parsing() {
    let flags = parse_feature_flags(Some("02")).unwrap();
    assert!(!flags.contains(PairingFeatureFlag::AppleAuthenticationCoprocessor));
    assert!(flags.contains(PairingFeatureFlag::SoftwareAuthentication));
    assert!(parse_feature_flags(Some("04")).is_none());
    let empty = parse_feature_flags(None).unwrap();
    assert!(!empty.contains(PairingFeatureFlag::SoftwareAuthentication));
}

#[test]
fn test_accessory_status_queries() {
    let adv = full_advertisement();
    // sf = 03: not paired and not configured, no problem
    let acc = accessory_from_advertisement(&adv).unwrap();
    assert!(!acc.is_paired());
    assert!(!acc.is_configured_for_wifi());
    assert!(!acc.has_problem_detected());

    let mut adv2 = full_advertisement();
    adv2.status_flags = Some(String::from("04"));
    let acc2 = accessory_from_advertisement(&adv2).unwrap();
    assert!(acc2.is_paired());
    assert!(acc2.is_configured_for_wifi());
    assert!(acc2.has_problem_detected());
}

#[test]
fn test_hex_and_dec_parsers() {
    assert_eq!(parse_hex_u32("03"), Some(3));
    assert_eq!(parse_hex_u32("ff"), Some(255));
    assert_eq!(parse_hex_u32("FF"), Some(255));
    assert_eq!(parse_hex_u32("ffffffff"), Some(u32::MAX));
    assert_eq!(parse_hex_u32("100000000"), None);
    assert_eq!(parse_hex_u32(""), None);
    assert_eq!(parse_hex_u32("1g"), None);

    assert_eq!(parse_dec_u32("0"), Some(0));
    assert_eq!(parse_dec_u32("4294967295"), Some(u32::MAX));
    assert_eq!(parse_dec_u32("4294967296"), None);
    assert_eq!(parse_dec_u32("12a"), None);
    assert_eq!(parse_dec_u32(""), None);
}

#[test]
fn test_category_codes() {
    assert_eq!(AccessoryCategory::from_code(5), Some(AccessoryCategory::Lighting));
    assert_eq!(AccessoryCategory::from_code(1), Some(AccessoryCategory::Other));
    assert_eq!(AccessoryCategory::from_code(32), Some(AccessoryCategory::Remotes));
    assert_eq!(AccessoryCategory::from_code(0), None);
    assert_eq!(AccessoryCategory::from_code(33), None);
    assert_eq!(AccessoryCategory::Lighting.code(), 5);
}

fn named(id: &str, config: u32) -> HapAccessory {
    let mut adv = full_advertisement();
    adv.id = Some(String::from(id));
    adv.configuration_number = Some(config.to_string());
    accessory_from_advertisement(&adv).unwrap()
}

#[test]
fn test_insert_keyed_by_id_overwrites_and_appends() {
    let mut list: Vec<HapAccessory> = Vec::new();
    insert_accessory(&mut list, named("one", 1));
    insert_accessory(&mut list, named("two", 2));
    assert_eq!(list.len(), 2);
    // same id: the later resolution overwrites the earlier one in place
    insert_accessory(&mut list, named("one", 9));
    assert_eq!(list.len(), 2);
    assert_eq!(list[0].id, "one");
    assert_eq!(list[0].configuration_number, 9);
    assert_eq!(list[1].id, "two");
    // a new id is appended
    insert_accessory(&mut list, named("three", 3));
    assert_eq!(list.len(), 3);
    assert_eq!(list[2].id, "three");
}

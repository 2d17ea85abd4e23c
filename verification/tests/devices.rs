use domus::client::HapClient;
use domus::devices::{
    fp2_from_advertisement, matches_model, AqaraFP2Driver, DiscoveryInfo,
};
use domus::discovery::{Advertisement, HostAddress};

fn fp2_advertisement() -> Advertisement {
    Advertisement {
        addresses: vec![HostAddress { is_ipv4: true, text: String::from("10.0.0.9") }],
        port: 80,
        id: Some(String::from("0x00158d0001d82996")),
        model: Some(String::from("PS-S02D")),
        configuration_number: Some(String::from("1")),
        current_state_number: Some(String::from("1")),
        pairing_feature_flags: None,
        status_flags: None,
        setup_hash: None,
        category: Some(String::from("10")),
        protocol_version: Some(String::from("1.1")),
    }
}

#[test]
fn test_matches_model() {
    assert!(matches_model("PS-S02D", "PS-S02D"));
    assert!(!matches_model("PS-S02", "PS-S02D"));
    assert!(!matches_model("ps-s02d", "PS-S02D"));
    assert!(matches_model("", ""));
}

#[test]
fn test_fp2_selection_accepts_matching_model() {
    let adv = fp2_advertisement();
    let d = fp2_from_advertisement(&adv, "PS-S02D").unwrap();
    assert_eq!(d.id(), "0x00158d0001d82996");
    assert_eq!(d.name(), "PS-S02D");
}

#[test]
fn test_fp2_selection_rejects_other_models() {
    let mut adv = fp2_advertisement();
    adv.model = Some(String::from("OTHER"));
    assert!(fp2_from_advertisement(&adv, "PS-S02D").is_none());
    let mut adv2 = fp2_advertisement();
    adv2.id = None;
    assert!(fp2_from_advertisement(&adv2, "PS-S02D").is_none());
    let mut adv3 = fp2_advertisement();
    adv3.addresses = Vec::new();
    assert!(fp2_from_advertisement(&adv3, "PS-S02D").is_none());
}

#[test]
fn test_handles_construct() {
    let _client = HapClient::new();
    let _driver = AqaraFP2Driver::new();
}

use diameter_interface::dictionary::Dictionary;
use diameter_interface::model::AvpType;

#[test]
fn lookup_of_absent_key_is_unknown() {
    let d = Dictionary::new();
    assert_eq!(d.get_avp_type(263, None), AvpType::Unknown);
    assert_eq!(d.get_avp_name(263, None), None);
}

#[test]
fn vendor_is_part_of_the_key() {
    let mut d = Dictionary::new();
    d.add(1, Some(10415), "Vendor-AVP".to_string(), AvpType::Unsigned32);
    assert_eq!(d.get_avp_type(1, Some(10415)), AvpType::Unsigned32);
    assert_eq!(d.get_avp_type(1, None), AvpType::Unknown);
    assert_eq!(d.get_avp_type(1, Some(0)), AvpType::Unknown);
}

#[test]
fn later_declaration_wins() {
    let mut d = Dictionary::new();
    d.add(263, None, "Session-Id".to_string(), AvpType::OctetString);
    d.add(264, None, "Origin-Host".to_string(), AvpType::Identity);
    d.add(263, None, "Session-Id".to_string(), AvpType::UTF8String);
    assert_eq!(d.get_avp_type(263, None), AvpType::UTF8String);
    assert_eq!(d.get_avp_type(264, None), AvpType::Identity);
    assert_eq!(d.get_avp_name(264, None), Some("Origin-Host".to_string()));
}

#[test]
fn merge_prefers_the_later_source() {
    let mut base = Dictionary::new();
    base.add(263, None, "Session-Id".to_string(), AvpType::OctetString);
    base.add(268, None, "Result-Code".to_string(), AvpType::Unsigned32);
    let mut extra = Dictionary::new();
    extra.add(263, None, "Session-Id-2".to_string(), AvpType::UTF8String);
    extra.add(416, None, "CC-Request-Type".to_string(), AvpType::Enumerated);
    base.merge(&extra);
    assert_eq!(base.get_avp_type(263, None), AvpType::UTF8String);
    assert_eq!(base.get_avp_name(263, None), Some("Session-Id-2".to_string()));
    assert_eq!(base.get_avp_type(268, None), AvpType::Unsigned32);
    assert_eq!(base.get_avp_type(416, None), AvpType::Enumerated);
    assert_eq!(base.get_avp_type(999, None), AvpType::Unknown);
}

#[test]
fn source_vendor_zero_means_no_vendor() {
    let mut d = Dictionary::new();
    d.add_source_entry(263, 0, "Session-Id".to_string(), AvpType::UTF8String);
    d.add_source_entry(1001, 10415, "Charging-Rule-Install".to_string(), AvpType::Grouped);
    assert_eq!(d.get_avp_type(263, None), AvpType::UTF8String);
    assert_eq!(d.get_avp_type(263, Some(0)), AvpType::Unknown);
    assert_eq!(d.get_avp_type(1001, Some(10415)), AvpType::Grouped);
}

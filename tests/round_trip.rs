use diameter_interface::avp::{Avp, AvpFlags, AvpValue, Grouped};
use diameter_interface::values::{AvpData, Binary32, Binary64, OctetString, UTF8String, Unsigned32, Unsigned64, UnixTime};
use diameter_interface::dictionary::Dictionary;
use diameter_interface::message::{ApplicationId, CommandCode, CommandFlag, DiameterMessage};
use diameter_interface::model::AvpType;

fn all_types_dictionary() -> Dictionary {
    let mut d = Dictionary::new();
    let entries = [
        (1u32, AvpType::AddressIPv4),
        (2, AvpType::AddressIPv6),
        (3, AvpType::Identity),
        (4, AvpType::DiameterURI),
        (5, AvpType::Enumerated),
        (6, AvpType::Float32),
        (7, AvpType::Float64),
        (8, AvpType::Grouped),
        (9, AvpType::Integer32),
        (10, AvpType::Integer64),
        (11, AvpType::OctetString),
        (12, AvpType::Time),
        (13, AvpType::Unsigned32),
        (14, AvpType::Unsigned64),
        (15, AvpType::UTF8String),
    ];
    for (code, t) in entries {
        d.add(code, None, format!("avp-{}", code), t);
    }
    d.add(1, Some(10415), "vendor-avp".to_string(), AvpType::Unsigned64);
    d
}

fn one_of_each() -> Vec<Avp> {
    let mut inner: Grouped = AvpData::new(Vec::new());
    inner.add(Avp::new(13, AvpFlags::M, None, AvpValue::Unsigned32(Unsigned32::new(7))));
    inner.add_avp(15, None, AvpFlags::O, AvpValue::UTF8String(UTF8String::from_str("xy")));
    vec![
        Avp::new(1, AvpFlags::M, None, AvpValue::AddressIPv4(AvpData::new([192, 168, 0, 1]))),
        Avp::new(2, AvpFlags::M, None, AvpValue::AddressIPv6(AvpData::new([0xfe; 16]))),
        Avp::new(3, AvpFlags::M, None, AvpValue::Identity(UTF8String::from_str("host.example"))),
        Avp::new(4, AvpFlags::O, None, AvpValue::DiameterURI(UTF8String::from_str("aaa://h"))),
        Avp::new(5, AvpFlags::M, None, AvpValue::Enumerated(AvpData::new(-3))),
        Avp::new(
            6,
            AvpFlags::M,
            None,
            AvpValue::Float32(AvpData::new(Binary32 { bits: 1.5f32.to_bits() })),
        ),
        Avp::new(
            7,
            AvpFlags::M,
            None,
            AvpValue::Float64(AvpData::new(Binary64 { bits: (-2.25f64).to_bits() })),
        ),
        Avp::new(8, AvpFlags::M, None, AvpValue::Grouped(inner)),
        Avp::new(9, AvpFlags::M, None, AvpValue::Integer32(AvpData::new(i32::MIN))),
        Avp::new(10, AvpFlags::M, None, AvpValue::Integer64(AvpData::new(-1))),
        Avp::new(11, AvpFlags::M, None, AvpValue::OctetString(OctetString::new(vec![0, 1, 2]))),
        Avp::new(
            12,
            AvpFlags::M,
            None,
            AvpValue::Time(AvpData::new(UnixTime { seconds: 1_700_000_000 })),
        ),
        Avp::new(13, AvpFlags::M, None, AvpValue::Unsigned32(Unsigned32::new(u32::MAX))),
        Avp::new(14, AvpFlags::M, None, AvpValue::Unsigned64(Unsigned64::new(u64::MAX))),
        Avp::new(15, AvpFlags::M, None, AvpValue::UTF8String(UTF8String::from_str("héllo"))),
        Avp::new(1, AvpFlags::M, Some(10415), AvpValue::Unsigned64(Unsigned64::new(42))),
    ]
}

#[test]
fn every_value_type_round_trips() {
    let dict = all_types_dictionary();
    for avp in one_of_each() {
        let mut bytes = Vec::new();
        avp.encode_to(&mut bytes).unwrap();
        assert_eq!(bytes.len() % 4, 0);
        assert_eq!(
            bytes.len() as u32,
            avp.get_length() + avp.get_padding()
        );
        let (decoded, next) = Avp::decode_from(&bytes, 0, &dict).unwrap();
        assert_eq!(next, bytes.len());
        assert_eq!(decoded, avp);
        let mut again = Vec::new();
        decoded.encode_to(&mut again).unwrap();
        assert_eq!(again, bytes);
    }
}

#[test]
fn vendor_avp_sets_v_bit_and_length() {
    let avp = Avp::new(1, AvpFlags::M, Some(10415), AvpValue::Unsigned32(Unsigned32::new(5)));
    assert_eq!(avp.get_flags(), 0xC0);
    assert_eq!(avp.get_length(), 16);
    assert_eq!(avp.get_vendor_id(), Some(10415));
    let mut bytes = Vec::new();
    avp.encode_to(&mut bytes).unwrap();
    assert_eq!(
        bytes,
        vec![0, 0, 0, 1, 0xC0, 0, 0, 16, 0, 0, 0x28, 0xAF, 0, 0, 0, 5]
    );
}

#[test]
fn optional_flag_clears_m_bit() {
    let avp = Avp::new(13, AvpFlags::O, None, AvpValue::Unsigned32(Unsigned32::new(5)));
    assert_eq!(avp.get_flags(), 0);
    assert_eq!(AvpFlags::M.value(), 0x40);
    assert_eq!(AvpFlags::M.with_vendor_bit(), 0xC0);
    assert!(AvpFlags::has_vendor_bit(0x80));
    assert!(!AvpFlags::has_vendor_bit(0x40));
}

#[test]
fn decode_positions_advance_by_multiples_of_four() {
    let dict = all_types_dictionary();
    let mut bytes = Vec::new();
    let avps = one_of_each();
    for avp in &avps {
        avp.encode_to(&mut bytes).unwrap();
    }
    let mut pos = 0;
    let mut count = 0;
    while pos < bytes.len() {
        let (avp, next) = Avp::decode_from(&bytes, pos, &dict).unwrap();
        assert_eq!((next - pos) % 4, 0);
        assert_eq!(avp, avps[count]);
        pos = next;
        count += 1;
    }
    assert_eq!(count, avps.len());
}

#[test]
fn message_round_trip_preserves_order() {
    let dict = all_types_dictionary();
    let mut m = DiameterMessage::new(
        CommandFlag::Proxyable,
        CommandCode::Accounting,
        ApplicationId::Accounting,
        0x01020304,
        0x05060708,
    );
    for avp in one_of_each() {
        m.add(avp);
    }
    let mut bytes = Vec::new();
    m.encode_to(&mut bytes).unwrap();
    assert_eq!(bytes.len() as u32, m.header().message_length);
    let decoded = DiameterMessage::decode_from(&bytes, &dict).unwrap();
    assert_eq!(decoded, m);
    let codes: Vec<u32> = decoded.avps().iter().map(|a| a.get_code()).collect();
    assert_eq!(codes, vec![1, 2, 3, 4, 5, 6, 7, 8, 9, 10, 11, 12, 13, 14, 15, 1]);
    let mut again = Vec::new();
    decoded.encode_to(&mut again).unwrap();
    assert_eq!(again, bytes);
}

#[test]
fn message_decode_ignores_trailing_octets() {
    let dict = all_types_dictionary();
    let mut m = DiameterMessage::new(
        CommandFlag::Request,
        CommandCode::ReAuth,
        ApplicationId::Rx,
        9,
        10,
    );
    m.add(Avp::new(13, AvpFlags::M, None, AvpValue::Unsigned32(Unsigned32::new(3))));
    let mut bytes = Vec::new();
    m.encode_to(&mut bytes).unwrap();
    bytes.extend_from_slice(&[0xAA, 0xBB]);
    let decoded = DiameterMessage::decode_from(&bytes, &dict).unwrap();
    assert_eq!(decoded, m);
}

#[test]
fn grouped_length_sums_children_with_padding() {
    let mut g: Grouped = AvpData::new(Vec::new());
    assert_eq!(g.len(), 0);
    g.add(Avp::new(15, AvpFlags::M, None, AvpValue::UTF8String(UTF8String::from_str("a"))));
    g.add(Avp::new(11, AvpFlags::M, None, AvpValue::OctetString(OctetString::new(vec![1, 2]))));
    assert_eq!(g.len(), (9 + 3) + (10 + 2));
    let avp = Avp::new(8, AvpFlags::M, None, AvpValue::Grouped(g));
    assert_eq!(avp.get_length(), 8 + 24);
}

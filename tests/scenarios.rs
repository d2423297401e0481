use diameter_interface::avp::{Avp, AvpFlags, AvpValue, Grouped};
use diameter_interface::values::{AvpData, OctetString, Time, UTF8String, Unsigned32, UnixTime};
use diameter_interface::dictionary::Dictionary;
use diameter_interface::errors::Error;
use diameter_interface::message::{ApplicationId, CommandCode, CommandFlag, DiameterMessage};
use diameter_interface::model::AvpType;

fn encode_avp(avp: &Avp) -> Vec<u8> {
    let mut buf = Vec::new();
    avp.encode_to(&mut buf).unwrap();
    buf
}

fn test_dictionary() -> Dictionary {
    let mut d = Dictionary::new();
    d.add(263, None, "Session-Id".to_string(), AvpType::UTF8String);
    d.add(416, None, "CC-Request-Type".to_string(), AvpType::Unsigned32);
    d.add(456, None, "Multiple-Services-Credit-Control".to_string(), AvpType::Grouped);
    d
}

#[test]
fn empty_ccr_header() {
    let m = DiameterMessage::new(
        CommandFlag::Request,
        CommandCode::CreditControl,
        ApplicationId::Gx,
        0x42F3AB13,
        0xB8E8AB9B,
    );
    let mut buf = Vec::new();
    m.encode_to(&mut buf).unwrap();
    assert_eq!(
        buf,
        vec![
            0x01, 0x00, 0x00, 0x14, 0x80, 0x00, 0x01, 0x10, 0x01, 0x00, 0x00, 0x16, 0x42, 0xF3,
            0xAB, 0x13, 0xB8, 0xE8, 0xAB, 0x9B
        ]
    );
}

#[test]
fn zero_avp_message_is_twenty_octets() {
    let m = DiameterMessage::new(
        CommandFlag::Request,
        CommandCode::DeviceWatchdog,
        ApplicationId::Common,
        1,
        2,
    );
    assert_eq!(m.header().message_length, 20);
    let mut buf = Vec::new();
    m.encode_to(&mut buf).unwrap();
    assert_eq!(buf.len(), 20);
}

#[test]
fn single_unsigned32_avp() {
    let avp = Avp::new(416, AvpFlags::M, None, AvpValue::Unsigned32(Unsigned32::new(1)));
    assert_eq!(
        encode_avp(&avp),
        vec![0x00, 0x00, 0x01, 0xA0, 0x40, 0x00, 0x00, 0x0C, 0x00, 0x00, 0x00, 0x01]
    );
    assert_eq!(avp.get_length(), 12);
    assert_eq!(avp.get_padding(), 0);
}

#[test]
fn single_utf8_avp_a() {
    let avp = Avp::new(263, AvpFlags::M, None, AvpValue::UTF8String(UTF8String::from_str("a")));
    assert_eq!(
        encode_avp(&avp),
        vec![0x00, 0x00, 0x01, 0x07, 0x40, 0x00, 0x00, 0x09, 0x61, 0x00, 0x00, 0x00]
    );
    assert_eq!(avp.get_length(), 9);
    assert_eq!(avp.get_padding(), 3);
}

#[test]
fn utf8_session_id_without_padding() {
    let avp = Avp::new(
        263,
        AvpFlags::M,
        None,
        AvpValue::UTF8String(UTF8String::from_str("ses;12345888")),
    );
    let bytes = encode_avp(&avp);
    assert_eq!(avp.get_length(), 20);
    assert_eq!(bytes.len(), 20);
    assert_eq!(&bytes[0..8], &[0x00, 0x00, 0x01, 0x07, 0x40, 0x00, 0x00, 0x14]);
    assert_eq!(&bytes[8..], b"ses;12345888");
}

#[test]
fn grouped_avp_round_trip() {
    let mut g: Grouped = AvpData::new(Vec::new());
    g.add(Avp::new(416, AvpFlags::M, None, AvpValue::Unsigned32(Unsigned32::new(1))));
    g.add(Avp::new(263, AvpFlags::M, None, AvpValue::UTF8String(UTF8String::from_str("a"))));
    assert_eq!(g.len(), 24);
    let group = Avp::new(456, AvpFlags::M, None, AvpValue::Grouped(g));
    assert_eq!(group.get_length(), 32);
    let bytes = encode_avp(&group);
    assert_eq!(bytes.len(), 32);
    let dict = test_dictionary();
    let (decoded, next) = Avp::decode_from(&bytes, 0, &dict).unwrap();
    assert_eq!(next, 32);
    assert_eq!(decoded, group);
    match decoded.get_value() {
        AvpValue::Grouped(kids) => {
            assert_eq!(kids.avps().len(), 2);
            assert_eq!(kids.avps()[0].get_code(), 416);
            assert_eq!(kids.avps()[1].get_code(), 263);
        }
        other => panic!("expected a grouped value, got {:?}", other),
    }
}

#[test]
fn unknown_code_strict_and_lenient() {
    let avp = Avp::new(
        99999,
        AvpFlags::M,
        None,
        AvpValue::OctetString(OctetString::new(vec![1, 2, 3, 4, 5])),
    );
    let bytes = encode_avp(&avp);
    let dict = test_dictionary();
    match Avp::decode_from(&bytes, 0, &dict) {
        Err(Error::DecodeError(m)) => assert_eq!(m, "unknown AVP code"),
        other => panic!("expected unknown AVP code, got {:?}", other),
    }
    let (lenient, next) = Avp::decode_lenient_from(&bytes, 0, &dict).unwrap();
    assert_eq!(next, 16);
    assert_eq!(lenient.get_code(), 99999);
    assert_eq!(
        lenient.get_value(),
        &AvpValue::OctetString(OctetString::new(vec![1, 2, 3, 4, 5]))
    );
}

#[test]
fn padding_by_value_length() {
    let expected = [0u32, 3, 2, 1, 0, 3];
    for (n, pad) in expected.iter().enumerate() {
        let avp = Avp::new(
            1,
            AvpFlags::O,
            None,
            AvpValue::OctetString(OctetString::new(vec![7u8; n])),
        );
        assert_eq!(avp.get_padding(), *pad);
        let bytes = encode_avp(&avp);
        assert_eq!(bytes.len() as u32, 8 + n as u32 + pad);
        assert_eq!(bytes.len() % 4, 0);
    }
}

#[test]
fn time_at_diameter_epoch_is_zero() {
    let t: Time = AvpData::new(UnixTime { seconds: -2208988800 });
    let mut buf = Vec::new();
    t.encode_to(&mut buf).unwrap();
    assert_eq!(buf, vec![0, 0, 0, 0]);
}

#[test]
fn message_length_matches_encoding() {
    let mut m = DiameterMessage::new(
        CommandFlag::Request,
        CommandCode::CreditControl,
        ApplicationId::Gx,
        1123158611,
        3102381851,
    );
    m.add(Avp::new(263, AvpFlags::M, None, AvpValue::UTF8String(UTF8String::from_str("a"))));
    m.add_avp(
        264,
        AvpFlags::M,
        None,
        AvpValue::Identity(UTF8String::from_str("host.example.com")),
    );
    m.add(Avp::new(416, AvpFlags::M, None, AvpValue::Enumerated(AvpData::new(1))));
    m.add(Avp::new(415, AvpFlags::M, None, AvpValue::Unsigned32(Unsigned32::new(1000))));
    assert_eq!(m.header().message_length, 20 + 12 + 24 + 12 + 12);
    let mut buf = Vec::new();
    m.encode_to(&mut buf).unwrap();
    assert_eq!(buf.len() as u32, m.header().message_length);
}

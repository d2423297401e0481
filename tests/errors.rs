use diameter_interface::avp::{Avp, AvpFlags, AvpHeader, AvpValue, Grouped};
use diameter_interface::values::{AvpData, Integer32, IPv4, OctetString, Time, UTF8String, Unsigned32, UnixTime};
use diameter_interface::dictionary::Dictionary;
use diameter_interface::errors::Error;
use diameter_interface::message::{
    ApplicationId, CommandCode, CommandFlag, DiameterMessage,
};
use diameter_interface::model::AvpType;

fn dict() -> Dictionary {
    let mut d = Dictionary::new();
    d.add(263, None, "Session-Id".to_string(), AvpType::UTF8String);
    d.add(416, None, "CC-Request-Type".to_string(), AvpType::Unsigned32);
    d.add(456, None, "Multiple-Services-Credit-Control".to_string(), AvpType::Grouped);
    d.add(55, None, "Event-Timestamp".to_string(), AvpType::Time);
    d
}

fn decode_error(result: Result<(Avp, usize), Error>) -> &'static str {
    match result {
        Err(Error::DecodeError(m)) => m,
        other => panic!("expected a decode error, got {:?}", other),
    }
}

fn message_error(result: Result<DiameterMessage, Error>) -> &'static str {
    match result {
        Err(Error::DecodeError(m)) => m,
        other => panic!("expected a decode error, got {:?}", other),
    }
}

#[test]
fn invalid_utf8_is_rejected() {
    let bytes = [0, 0, 1, 7, 0x40, 0, 0, 10, 0xC3, 0x28, 0, 0];
    assert_eq!(decode_error(Avp::decode_from(&bytes, 0, &dict())), "invalid UTF-8");
}

#[test]
fn multibyte_utf8_is_decoded() {
    let bytes = [0, 0, 1, 7, 0x40, 0, 0, 10, 0xC3, 0xA9, 0, 0];
    let (avp, _) = Avp::decode_from(&bytes, 0, &dict()).unwrap();
    assert_eq!(avp.get_value(), &AvpValue::UTF8String(UTF8String::from_str("é")));
}

#[test]
fn nonzero_padding_is_rejected() {
    let bytes = [0, 0, 1, 7, 0x40, 0, 0, 9, 0x61, 0, 1, 0];
    assert_eq!(decode_error(Avp::decode_from(&bytes, 0, &dict())), "nonzero padding");
}

#[test]
fn reserved_flag_bits_are_rejected() {
    let bytes = [0, 0, 1, 0xA0, 0x41, 0, 0, 12, 0, 0, 0, 1];
    assert_eq!(decode_error(Avp::decode_from(&bytes, 0, &dict())), "invalid AVP flags");
}

#[test]
fn wrong_fixed_length_is_rejected() {
    let bytes = [0, 0, 1, 0xA0, 0x40, 0, 0, 10, 0, 1, 0, 0];
    assert_eq!(decode_error(Avp::decode_from(&bytes, 0, &dict())), "invalid AVP length");
    let short = [0, 0, 1, 0xA0, 0x40, 0, 0, 4];
    assert_eq!(decode_error(Avp::decode_from(&short, 0, &dict())), "invalid AVP length");
}

#[test]
fn truncated_avp_is_rejected() {
    let bytes = [0, 0, 1, 0xA0, 0x40, 0];
    assert_eq!(decode_error(Avp::decode_from(&bytes, 0, &dict())), "AVP truncated");
    let bytes = [0, 0, 1, 0xA0, 0x40, 0, 0, 12, 0, 0];
    assert_eq!(decode_error(Avp::decode_from(&bytes, 0, &dict())), "AVP truncated");
}

#[test]
fn header_decode_reads_fields() {
    let bytes = [0, 0, 1, 0xA0, 0xC0, 0, 0, 16, 0, 0, 0x28, 0xAF];
    let h = AvpHeader::decode_from(&bytes, 0, bytes.len()).unwrap();
    assert_eq!(h.code, 416);
    assert_eq!(h.flags, 0xC0);
    assert_eq!(h.length, 16);
    assert_eq!(h.vendor_id, Some(10415));
    match AvpHeader::decode_from(&bytes, 0, 8) {
        Err(Error::DecodeError(m)) => assert_eq!(m, "AVP header truncated"),
        other => panic!("unexpected {:?}", other),
    }
}

#[test]
fn grouped_child_overrun_is_rejected() {
    // A grouped AVP of 20 octets whose only child claims 16 octets of value.
    let bytes = [
        0, 0, 1, 0xC8, 0x40, 0, 0, 20, 0, 0, 1, 0xA0, 0x40, 0, 0, 16, 0, 0, 0, 1,
    ];
    assert_eq!(decode_error(Avp::decode_from(&bytes, 0, &dict())), "grouped AVP truncated");
}

#[test]
fn unknown_code_inside_group_is_rejected_even_when_lenient() {
    let mut g: Grouped = AvpData::new(Vec::new());
    g.add(Avp::new(777, AvpFlags::M, None, AvpValue::Unsigned32(Unsigned32::new(1))));
    let avp = Avp::new(456, AvpFlags::M, None, AvpValue::Grouped(g));
    let mut bytes = Vec::new();
    avp.encode_to(&mut bytes).unwrap();
    assert_eq!(
        decode_error(Avp::decode_lenient_from(&bytes, 0, &dict())),
        "unknown AVP code"
    );
}

#[test]
fn time_out_of_range_is_an_encode_error() {
    let late: Time = AvpData::new(UnixTime { seconds: 2_085_978_496 });
    let mut buf = Vec::new();
    match late.encode_to(&mut buf) {
        Err(Error::EncodeError(m)) => assert_eq!(m, "time out of range"),
        other => panic!("unexpected {:?}", other),
    }
    assert!(buf.is_empty());
    let early: Time = AvpData::new(UnixTime { seconds: -2_208_988_801 });
    assert!(early.encode_to(&mut buf).is_err());
    let last: Time = AvpData::new(UnixTime { seconds: 2_085_978_495 });
    last.encode_to(&mut buf).unwrap();
    assert_eq!(buf, vec![0xFF, 0xFF, 0xFF, 0xFF]);
    let avp = Avp::new(55, AvpFlags::M, None, AvpValue::Time(late));
    let mut out = Vec::new();
    assert!(matches!(avp.encode_to(&mut out), Err(Error::EncodeError("time out of range"))));
}

#[test]
fn time_decodes_from_diameter_seconds() {
    let bytes = [0, 0, 0, 55, 0x40, 0, 0, 12, 0x83, 0xAA, 0x7E, 0x80];
    let (avp, _) = Avp::decode_from(&bytes, 0, &dict()).unwrap();
    assert_eq!(
        avp.get_value(),
        &AvpValue::Time(AvpData::new(UnixTime { seconds: 0 }))
    );
    let epoch = [0, 0, 0, 55, 0x40, 0, 0, 12, 0, 0, 0, 0];
    let (avp, _) = Avp::decode_from(&epoch, 0, &dict()).unwrap();
    assert_eq!(
        avp.get_value(),
        &AvpValue::Time(AvpData::new(UnixTime { seconds: -2208988800 }))
    );
}

#[test]
fn primitive_decoders_check_length() {
    let bytes = [1u8, 2, 3, 4, 5];
    assert!(Integer32::decode_from(&bytes, 0, 3).is_err());
    assert_eq!(Integer32::decode_from(&bytes, 0, 4).unwrap(), AvpData::new(0x01020304));
    assert_eq!(IPv4::decode_from(&bytes, 1, 4).unwrap(), AvpData::new([2, 3, 4, 5]));
    assert_eq!(
        OctetString::decode_from(&bytes, 1, 2).unwrap(),
        OctetString::new(vec![2, 3])
    );
}

fn header_bytes(version: u8, length: u32, code: u32, app: u32) -> Vec<u8> {
    let mut b = vec![version];
    b.extend_from_slice(&length.to_be_bytes()[1..]);
    b.push(0x80);
    b.extend_from_slice(&code.to_be_bytes()[1..]);
    b.extend_from_slice(&app.to_be_bytes());
    b.extend_from_slice(&[0, 0, 0, 1, 0, 0, 0, 2]);
    b
}

#[test]
fn message_errors() {
    let d = dict();
    assert_eq!(message_error(DiameterMessage::decode_from(&[1, 0, 0], &d)), "message truncated");
    assert_eq!(
        message_error(DiameterMessage::decode_from(&header_bytes(2, 20, 272, 4), &d)),
        "unsupported version"
    );
    assert_eq!(
        message_error(DiameterMessage::decode_from(&header_bytes(1, 24, 272, 4), &d)),
        "message length mismatch"
    );
    assert_eq!(
        message_error(DiameterMessage::decode_from(&header_bytes(1, 19, 272, 4), &d)),
        "message length mismatch"
    );
    assert_eq!(
        message_error(DiameterMessage::decode_from(&header_bytes(1, 20, 999, 4), &d)),
        "Undefined command code"
    );
    assert_eq!(
        message_error(DiameterMessage::decode_from(&header_bytes(1, 20, 272, 77), &d)),
        "Undefined application id"
    );
    let mut overrun = header_bytes(1, 28, 272, 4);
    overrun.extend_from_slice(&[0, 0, 1, 0xA0, 0x40, 0, 0, 12, 0, 0, 0, 1]);
    assert_eq!(
        message_error(DiameterMessage::decode_from(&overrun, &d)),
        "message length mismatch"
    );
    let ok = DiameterMessage::decode_from(&header_bytes(1, 20, 272, 4), &d).unwrap();
    assert_eq!(ok.header().command_code, CommandCode::CreditControl);
    assert_eq!(ok.header().application_id, ApplicationId::CreditControl);
    assert_eq!(ok.header().command_flags, 0x80);
}

#[test]
fn framed_length_reads_the_header() {
    assert_eq!(DiameterMessage::framed_length(&header_bytes(1, 36, 272, 4)).unwrap(), 36);
    assert!(matches!(
        DiameterMessage::framed_length(&header_bytes(1, 12, 272, 4)),
        Err(Error::DecodeError("message length mismatch"))
    ));
    assert!(matches!(
        DiameterMessage::framed_length(&[1, 0, 0]),
        Err(Error::DecodeError("message truncated"))
    ));
    assert!(matches!(
        DiameterMessage::framed_length(&header_bytes(3, 36, 272, 4)),
        Err(Error::DecodeError("unsupported version"))
    ));
}

#[test]
fn codes_and_flags() {
    assert_eq!(CommandCode::CreditControl.get_code(), 272);
    assert_eq!(CommandCode::CreditControl.get_name(), "Credit-Control");
    assert_eq!(CommandCode::DisconnectPeer.get_code(), 282);
    assert_eq!(CommandCode::from_code(280).unwrap(), CommandCode::DeviceWatchdog);
    assert_eq!(ApplicationId::Sy.value(), 16777302);
    assert_eq!(ApplicationId::Rx.get_code(), 16777236);
    assert_eq!(ApplicationId::from_code(16777238).unwrap(), ApplicationId::Gx);
    assert_eq!(CommandFlag::Request.value(), 0x80);
    assert_eq!(CommandFlag::Proxyable.value(), 0x40);
    assert_eq!(CommandFlag::Error.value(), 0x20);
    assert_eq!(CommandFlag::Retransmit.value(), 0x10);
}

#[test]
fn error_messages_and_io_conversion() {
    assert_eq!(Error::DecodeError("x").message(), "x");
    assert_eq!(Error::ClientError("y").message(), "y");
    let e: Error = std::io::Error::new(std::io::ErrorKind::Other, "boom").into();
    assert!(matches!(e, Error::IoError(_)));
}

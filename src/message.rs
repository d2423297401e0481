//! Diameter messages: the 20-octet header, the ordered AVPs, and their wire form.
use vstd::prelude::*;
use crate::avp::{avps_view, lemma_avps_view, new_model, Avp, AvpFlags, AvpValue};
use crate::dictionary::Dictionary;
use crate::errors::{DiameterResult, Error};
use crate::model::{
    avp_encodable, avp_typed, avp_wf, avps_encodable, avps_valid, avps_wf,
    encode_avps, encode_value, header_len, lemma_avp_at_shift, lemma_avps_next,
    lemma_avps_unique, lemma_encode_avp_len, lemma_encode_avps_push, value_wf, AvpModel, AvpType,
};
use crate::wire::{
    be24, be32, lemma_u24_bytes, lemma_u24_round_trip, lemma_u32_bytes, lemma_u32_round_trip,
    padding_for, push_u24, push_u32, read_u24, read_u32, slice_len_fits, u24_at, u32_at,
};

verus! {

/// Octets in the message header.
pub const HEADER_LENGTH: u32 = 20;

/// Whether `value` is the code of a command that this library names.
pub open spec fn is_command_code(value: u32) -> bool {
    value == 257 || value == 258 || value == 271 || value == 272 || value == 274 || value == 275
        || value == 280 || value == 282
}

/// Whether `value` is the id of an application that this library names.
pub open spec fn is_application_id(value: u32) -> bool {
    value == 0 || value == 3 || value == 4 || value == 16777236 || value == 16777238 || value
        == 16777302
}

/// The commands that this library names, by their 24-bit command code.
#[derive(Debug, Clone, Copy, PartialEq, Eq, Structural)]
pub enum CommandCode {
    CapabilitiesExchange,
    ReAuth,
    Accounting,
    CreditControl,
    AbortSession,
    SessionTermination,
    DeviceWatchdog,
    DisconnectPeer,
}

impl CommandCode {
    pub open spec fn spec_code(&self) -> u32 {
        match self {
            CommandCode::CapabilitiesExchange => 257,
            CommandCode::ReAuth => 258,
            CommandCode::Accounting => 271,
            CommandCode::CreditControl => 272,
            CommandCode::AbortSession => 274,
            CommandCode::SessionTermination => 275,
            CommandCode::DeviceWatchdog => 280,
            CommandCode::DisconnectPeer => 282,
        }
    }

    pub fn get_code(&self) -> (r: u32)
        ensures
            r == self.spec_code(),
    {
        match self {
            CommandCode::CapabilitiesExchange => 257,
            CommandCode::ReAuth => 258,
            CommandCode::Accounting => 271,
            CommandCode::CreditControl => 272,
            CommandCode::AbortSession => 274,
            CommandCode::SessionTermination => 275,
            CommandCode::DeviceWatchdog => 280,
            CommandCode::DisconnectPeer => 282,
        }
    }

    pub open spec fn spec_name(&self) -> &'static str {
        match self {
            CommandCode::CapabilitiesExchange => "Capabilities-Exchange",
            CommandCode::ReAuth => "Re-Auth",
            CommandCode::Accounting => "Accounting",
            CommandCode::CreditControl => "Credit-Control",
            CommandCode::AbortSession => "Abort-Session",
            CommandCode::SessionTermination => "Session-Termination",
            CommandCode::DeviceWatchdog => "Device-Watchdog",
            CommandCode::DisconnectPeer => "Disconnect-Peer",
        }
    }

    /// The command's name, without the Request/Answer suffix.
    pub fn get_name(&self) -> (r: &'static str)
        ensures
            r == self.spec_name(),
    {
        match self {
            CommandCode::CapabilitiesExchange => "Capabilities-Exchange",
            CommandCode::ReAuth => "Re-Auth",
            CommandCode::Accounting => "Accounting",
            CommandCode::CreditControl => "Credit-Control",
            CommandCode::AbortSession => "Abort-Session",
            CommandCode::SessionTermination => "Session-Termination",
            CommandCode::DeviceWatchdog => "Device-Watchdog",
            CommandCode::DisconnectPeer => "Disconnect-Peer",
        }
    }

    /// The command with code `value`; an error for a code this library does not name.
    pub fn from_code(value: u32) -> (r: DiameterResult<CommandCode>)
        ensures
            r is Ok <==> is_command_code(value),
            r matches Ok(c) ==> c.spec_code() == value,
            r matches Err(e) ==> e == Error::DecodeError("Undefined command code"),
    {
        match value {
            257 => Ok(CommandCode::CapabilitiesExchange),
            258 => Ok(CommandCode::ReAuth),
            271 => Ok(CommandCode::Accounting),
            272 => Ok(CommandCode::CreditControl),
            274 => Ok(CommandCode::AbortSession),
            275 => Ok(CommandCode::SessionTermination),
            280 => Ok(CommandCode::DeviceWatchdog),
            282 => Ok(CommandCode::DisconnectPeer),
            _ => Err(Error::DecodeError("Undefined command code")),
        }
    }
}

/// The applications that this library names, by their 32-bit application id.
#[derive(Debug, Clone, Copy, PartialEq, Eq, Structural)]
pub enum ApplicationId {
    Common,
    Accounting,
    CreditControl,
    Gx,
    Rx,
    Sy,
}

impl ApplicationId {
    pub open spec fn spec_value(&self) -> u32 {
        match self {
            ApplicationId::Common => 0,
            ApplicationId::Accounting => 3,
            ApplicationId::CreditControl => 4,
            ApplicationId::Rx => 16777236,
            ApplicationId::Gx => 16777238,
            ApplicationId::Sy => 16777302,
        }
    }

    pub fn value(&self) -> (r: u32)
        ensures
            r == self.spec_value(),
    {
        match self {
            ApplicationId::Common => 0,
            ApplicationId::Accounting => 3,
            ApplicationId::CreditControl => 4,
            ApplicationId::Rx => 16777236,
            ApplicationId::Gx => 16777238,
            ApplicationId::Sy => 16777302,
        }
    }

    pub fn get_code(&self) -> (r: u32)
        ensures
            r == self.spec_value(),
    {
        self.value()
    }

    /// The application with id `value`; an error for an id this library does not name.
    pub fn from_code(value: u32) -> (r: DiameterResult<ApplicationId>)
        ensures
            r is Ok <==> is_application_id(value),
            r matches Ok(a) ==> a.spec_value() == value,
            r matches Err(e) ==> e == Error::DecodeError("Undefined application id"),
    {
        match value {
            0 => Ok(ApplicationId::Common),
            3 => Ok(ApplicationId::Accounting),
            4 => Ok(ApplicationId::CreditControl),
            16777236 => Ok(ApplicationId::Rx),
            16777238 => Ok(ApplicationId::Gx),
            16777302 => Ok(ApplicationId::Sy),
            _ => Err(Error::DecodeError("Undefined application id")),
        }
    }
}

/// One of the command-flag bits R, P, E, T.
#[derive(Debug, Clone, Copy, PartialEq, Eq, Structural)]
pub enum CommandFlag {
    Request,
    Proxyable,
    Error,
    Retransmit,
}

impl CommandFlag {
    pub open spec fn spec_value(&self) -> u8 {
        match self {
            CommandFlag::Request => 0x80,
            CommandFlag::Proxyable => 0x40,
            CommandFlag::Error => 0x20,
            CommandFlag::Retransmit => 0x10,
        }
    }

    pub fn value(&self) -> (r: u8)
        ensures
            r == self.spec_value(),
    {
        match self {
            CommandFlag::Request => 0x80,
            CommandFlag::Proxyable => 0x40,
            CommandFlag::Error => 0x20,
            CommandFlag::Retransmit => 0x10,
        }
    }
}

/// The fixed 20-octet message header.
#[derive(Debug, Clone, Copy, PartialEq, Eq, Structural)]
pub struct DiameterHeader {
    pub version: u8,
    /// 24 bits: the whole message, header and AVPs with their padding.
    pub message_length: u32,
    pub command_flags: u8,
    pub command_code: CommandCode,
    pub application_id: ApplicationId,
    pub hop_by_hop: u32,
    pub end_to_end: u32,
}

/// A message, as mathematics.
pub ghost struct MessageModel {
    pub header: DiameterHeader,
    pub avps: Seq<AvpModel>,
}

pub open spec fn encode_message_header(h: DiameterHeader) -> Seq<u8> {
    seq![h.version] + be24(h.message_length) + seq![h.command_flags] + be24(
        h.command_code.spec_code(),
    ) + be32(h.application_id.spec_value()) + be32(h.hop_by_hop) + be32(h.end_to_end)
}

/// A message on the wire: the header, then each AVP in order.
pub open spec fn encode_message(m: MessageModel) -> Seq<u8> {
    encode_message_header(m.header) + encode_avps(m.avps)
}

/// Version 1, a length field that counts the header and every AVP with its padding, and
/// valid AVPs.
pub open spec fn message_wf(m: MessageModel) -> bool {
    &&& m.header.version == 1
    &&& m.header.message_length == HEADER_LENGTH + encode_avps(m.avps).len()
    &&& m.header.message_length < 0x100_0000
    &&& avps_wf(m.avps)
}

/// A message that the decoder, with dictionary `d`, can read back.
pub open spec fn message_valid(m: MessageModel, d: Map<(u32, Option<u32>), AvpType>) -> bool {
    message_wf(m) && avps_valid(m.avps, d)
}

/// The message `m` is written at the start of `b`.
pub open spec fn message_at(b: Seq<u8>, m: MessageModel) -> bool {
    encode_message(m).len() <= b.len() && b.subrange(0, encode_message(m).len() as int)
        == encode_message(m)
}

/// A message: header and ordered AVPs.
#[derive(Debug, PartialEq)]
pub struct DiameterMessage {
    header: DiameterHeader,
    avps: Vec<Avp>,
}

impl View for DiameterMessage {
    type V = MessageModel;

    closed spec fn view(&self) -> MessageModel {
        MessageModel { header: self.header, avps: avps_view(self.avps@) }
    }
}

impl DiameterMessage {
    /// A message with no AVPs: version 1 and a length of 20.
    pub fn new(
        command_flag: CommandFlag,
        command_code: CommandCode,
        application_id: ApplicationId,
        hop_by_hop: u32,
        end_to_end: u32,
    ) -> (r: DiameterMessage)
        ensures
            r@.header == (DiameterHeader {
                version: 1,
                message_length: 20,
                command_flags: command_flag.spec_value(),
                command_code,
                application_id,
                hop_by_hop,
                end_to_end,
            }),
            r@.avps == Seq::<AvpModel>::empty(),
            message_wf(r@),
    {
        let r = DiameterMessage {
            header: DiameterHeader {
                version: 1,
                message_length: HEADER_LENGTH,
                command_flags: command_flag.value(),
                command_code,
                application_id,
                hop_by_hop,
                end_to_end,
            },
            avps: Vec::new(),
        };
        assert(r@.avps =~= Seq::<AvpModel>::empty());
        r
    }

    pub fn header(&self) -> (r: DiameterHeader)
        ensures
            r == self@.header,
    {
        self.header
    }

    pub fn avps(&self) -> (r: &Vec<Avp>)
        ensures
            avps_view(r@) == self@.avps,
    {
        &self.avps
    }

    /// Appends an AVP; the length field grows by the AVP's length and padding.
    pub fn add(&mut self, avp: Avp)
        requires
            message_wf(old(self)@),
            avp_wf(avp@),
            old(self)@.header.message_length + avp@.length + padding_for(avp@.length as int)
                < 0x100_0000,
        ensures
            message_wf(final(self)@),
            final(self)@.avps == old(self)@.avps.push(avp@),
            final(self)@.header == (DiameterHeader {
                message_length: (old(self)@.header.message_length + avp@.length + padding_for(
                    avp@.length as int,
                )) as u32,
                ..old(self)@.header
            }),
    {
        proof {
            lemma_encode_avp_len(avp@);
            lemma_encode_avps_push(avps_view(self.avps@), avp@);
            assert(self.avps@.push(avp).subrange(0, self.avps@.len() as int) =~= self.avps@);
            lemma_avps_view(self.avps@.push(avp));
            lemma_avps_view(self.avps@);
        }
        self.header.message_length = self.header.message_length + avp.get_length()
            + avp.get_padding();
        self.avps.push(avp);
    }

    /// Builds an AVP as `Avp::new` does and appends it.
    pub fn add_avp(&mut self, code: u32, flags: AvpFlags, vendor_id: Option<u32>, value: AvpValue)
        requires
            message_wf(old(self)@),
            value_wf(value@),
            old(self)@.header.message_length + header_len(vendor_id) + encode_value(value@).len()
                + 3 < 0x100_0000,
        ensures
            message_wf(final(self)@),
            final(self)@.avps == old(self)@.avps.push(new_model(code, flags, vendor_id, value@)),
    {
        let avp = Avp::new(code, flags, vendor_id, value);
        self.add(avp);
    }

    /// Appends the message's octets: header, then every AVP in order. Fails only on a Time
    /// without a 32-bit Diameter timestamp.
    pub fn encode_to(&self, buf: &mut Vec<u8>) -> (r: DiameterResult<()>)
        requires
            message_wf(self@),
        ensures
            r is Ok <==> avps_encodable(self@.avps),
            r is Ok ==> final(buf)@ == old(buf)@ + encode_message(self@),
            r is Ok ==> final(buf)@.len() == old(buf)@.len() + self@.header.message_length,
            r matches Err(e) ==> e == Error::EncodeError("time out of range"),
    {
        let h = &self.header;
        buf.push(h.version);
        push_u24(buf, h.message_length);
        buf.push(h.command_flags);
        push_u24(buf, h.command_code.get_code());
        push_u32(buf, h.application_id.value());
        push_u32(buf, h.hop_by_hop);
        push_u32(buf, h.end_to_end);
        let ghost after_header = buf@;
        assert(after_header =~= old(buf)@ + encode_message_header(self@.header));
        let ghost v = avps_view(self.avps@);
        let mut i: usize = 0;
        proof {
            lemma_avps_view(self.avps@);
            assert(v.subrange(0, 0) =~= Seq::<AvpModel>::empty());
            assert(after_header + encode_avps(v.subrange(0, 0)) =~= after_header);
        }
        while i < self.avps.len()
            invariant
                v == avps_view(self.avps@),
                v.len() == self.avps@.len(),
                avps_wf(v),
                i <= self.avps@.len(),
                buf@ == after_header + encode_avps(v.subrange(0, i as int)),
                forall|j: int| 0 <= j < i ==> avp_encodable(#[trigger] v[j]),
            decreases self.avps@.len() - i,
        {
            let a = &self.avps[i];
            proof {
                lemma_avps_view(self.avps@);
                assert(v.subrange(0, i + 1) =~= v.subrange(0, i as int).push(a@));
                lemma_encode_avps_push(v.subrange(0, i as int), a@);
                assert(v[i as int] == a@);
            }
            match a.encode_to(buf) {
                Ok(()) => {},
                Err(e) => {
                    assert(!avp_encodable(v[i as int]));
                    return Err(e);
                },
            }
            i = i + 1;
        }
        proof {
            assert(v.subrange(0, i as int) =~= v);
            assert(buf@ =~= old(buf)@ + encode_message(self@));
        }
        Ok(())
    }

    /// The total length of the message whose header is `head[0..20]`, so that a reader of a
    /// stream knows how many octets to wait for.
    pub fn framed_length(head: &[u8]) -> (r: DiameterResult<usize>)
        ensures
            head@.len() < 20 ==> r == Err::<usize, Error>(Error::DecodeError("message truncated")),
            head@.len() >= 20 && head@[0] != 1 ==> r == Err::<usize, Error>(
                Error::DecodeError("unsupported version"),
            ),
            head@.len() >= 20 && head@[0] == 1 && u24_at(head@, 1) < 20 ==> r == Err::<
                usize,
                Error,
            >(Error::DecodeError("message length mismatch")),
            head@.len() >= 20 && head@[0] == 1 && u24_at(head@, 1) >= 20 ==> r == Ok::<
                usize,
                Error,
            >(u24_at(head@, 1) as usize),
    {
        if head.len() < 20 {
            return Err(Error::DecodeError("message truncated"));
        }
        if head[0] != 1 {
            return Err(Error::DecodeError("unsupported version"));
        }
        let length = read_u24(head, 1);
        if length < HEADER_LENGTH {
            return Err(Error::DecodeError("message length mismatch"));
        }
        Ok(length as usize)
    }

    /// Reads the message at the start of `b`: the header, then AVPs until the length field is
    /// used up. Octets after the message are left alone.
    #[verifier::rlimit(60)]
    pub fn decode_from(b: &[u8], dict: &Dictionary) -> (r: DiameterResult<DiameterMessage>)
        requires
            dict.wf(),
        ensures
            r matches Ok(m) ==> message_valid(m@, dict@) && message_at(b@, m@),
            r is Err ==> forall|mm: MessageModel|
                message_valid(mm, dict@) ==> !message_at(b@, mm),
            forall|mm: MessageModel|
                message_valid(mm, dict@) && message_at(b@, mm) ==> (r matches Ok(m) && m@ == mm),
            b@.len() < 20 ==> r == Err::<DiameterMessage, Error>(
                Error::DecodeError("message truncated"),
            ),
            b@.len() >= 20 && b@[0] != 1 ==> r == Err::<DiameterMessage, Error>(
                Error::DecodeError("unsupported version"),
            ),
            b@.len() >= 20 && b@[0] == 1 && (u24_at(b@, 1) < 20 || u24_at(b@, 1) > b@.len()) ==> r
                == Err::<DiameterMessage, Error>(Error::DecodeError("message length mismatch")),
            b@.len() >= 20 && b@[0] == 1 && 20 <= u24_at(b@, 1) <= b@.len() && !is_command_code(
                u24_at(b@, 5),
            ) ==> r == Err::<DiameterMessage, Error>(Error::DecodeError("Undefined command code")),
            b@.len() >= 20 && b@[0] == 1 && 20 <= u24_at(b@, 1) <= b@.len() && is_command_code(
                u24_at(b@, 5),
            ) && !is_application_id(u32_at(b@, 8)) ==> r == Err::<DiameterMessage, Error>(
                Error::DecodeError("Undefined application id"),
            ),
            r matches Err(e) ==> e is DecodeError,
    {
        slice_len_fits(b);
        if b.len() < 20 {
            proof {
                assert forall|mm: MessageModel| message_valid(mm, dict@) implies !message_at(
                    b@,
                    mm,
                ) by {}
            }
            return Err(Error::DecodeError("message truncated"));
        }
        let version = b[0];
        let message_length = read_u24(b, 1);
        let command_flags = b[4];
        let code = read_u24(b, 5);
        let application = read_u32(b, 8);
        let hop_by_hop = read_u32(b, 12);
        let end_to_end = read_u32(b, 16);
        if version != 1 {
            proof {
                assert forall|mm: MessageModel| message_valid(mm, dict@) implies !message_at(
                    b@,
                    mm,
                ) by {
                    if message_at(b@, mm) {
                        lemma_message_at_fields(b@, mm);
                    }
                }
            }
            return Err(Error::DecodeError("unsupported version"));
        }
        if message_length < HEADER_LENGTH || message_length as usize > b.len() {
            proof {
                assert forall|mm: MessageModel| message_valid(mm, dict@) implies !message_at(
                    b@,
                    mm,
                ) by {
                    if message_at(b@, mm) {
                        lemma_message_at_fields(b@, mm);
                    }
                }
            }
            return Err(Error::DecodeError("message length mismatch"));
        }
        let command_code = match CommandCode::from_code(code) {
            Ok(c) => c,
            Err(e) => {
                proof {
                    assert forall|mm: MessageModel| message_valid(mm, dict@) implies !message_at(
                        b@,
                        mm,
                    ) by {
                        if message_at(b@, mm) {
                            lemma_message_at_fields(b@, mm);
                            assert(mm.header.command_code.spec_code() == code);
                        }
                    }
                }
                return Err(e);
            },
        };
        let application_id = match ApplicationId::from_code(application) {
            Ok(a) => a,
            Err(e) => {
                proof {
                    assert forall|mm: MessageModel| message_valid(mm, dict@) implies !message_at(
                        b@,
                        mm,
                    ) by {
                        if message_at(b@, mm) {
                            lemma_message_at_fields(b@, mm);
                            assert(mm.header.application_id.spec_value() == application);
                        }
                    }
                }
                return Err(e);
            },
        };
        let header = DiameterHeader {
            version,
            message_length,
            command_flags,
            command_code,
            application_id,
            hop_by_hop,
            end_to_end,
        };
        let end = message_length as usize;
        let ghost x = b@.subrange(20, end as int);
        let mut avps: Vec<Avp> = Vec::new();
        let mut p: usize = 20;
        proof {
            assert(avps_view(avps@) =~= Seq::<AvpModel>::empty());
            assert(b@.subrange(20, 20) =~= Seq::<u8>::empty());
        }
        while p < end
            invariant
                20 <= p <= end <= b@.len(),
                end == message_length,
                message_length == u24_at(b@, 1),
                b@[0] == 1,
                is_command_code(u24_at(b@, 5)),
                is_application_id(u32_at(b@, 8)),
                dict.wf(),
                x == b@.subrange(20, end as int),
                avps_valid(avps_view(avps@), dict@),
                encode_avps(avps_view(avps@)) == b@.subrange(20, p as int),
            decreases end - p,
        {
            match crate::avp::decode_avp_in(b, p, end, dict) {
                Ok((a, n)) => {
                    proof {
                        let v = avps_view(avps@);
                        lemma_avps_view(avps@);
                        assert(avps@.push(a).subrange(0, avps@.len() as int) =~= avps@);
                        lemma_encode_avps_push(v, a@);
                        lemma_encode_avp_len(a@);
                        assert(b@.subrange(20, n as int) =~= b@.subrange(20, p as int) + b@.subrange(
                            p as int,
                            n as int,
                        ));
                        let w = v.push(a@);
                        assert forall|i: int| 0 <= i < w.len() implies avp_wf(#[trigger] w[i])
                            && avp_encodable(w[i]) && avp_typed(w[i], dict@, false) by {
                            if i < v.len() {
                                assert(w[i] == v[i]);
                            }
                        }
                    }
                    avps.push(a);
                    p = n;
                },
                Err(e) => {
                    proof {
                        let v = avps_view(avps@);
                        assert forall|mm: MessageModel| message_valid(mm, dict@) implies !message_at(
                            b@,
                            mm,
                        ) by {
                            if message_at(b@, mm) {
                                lemma_message_at_fields(b@, mm);
                                let s = mm.avps;
                                assert(encode_avps(s) == x);
                                assert(encode_avps(v) =~= x.subrange(
                                    0,
                                    encode_avps(v).len() as int,
                                ));
                                lemma_avps_next(s, v, dict@, x);
                                lemma_avp_at_shift(b@, 20, end as int, p - 20, s[v.len() as int]);
                            }
                        }
                    }
                    return Err(e);
                },
            }
        }
        let m = DiameterMessage { header, avps };
        proof {
            lemma_u24_bytes(b@, 1);
            lemma_u24_bytes(b@, 5);
            lemma_u32_bytes(b@, 8);
            lemma_u32_bytes(b@, 12);
            lemma_u32_bytes(b@, 16);
            assert(encode_message_header(header) =~= b@.subrange(0, 20));
            assert(encode_message(m@) =~= b@.subrange(0, end as int));
            assert forall|mm: MessageModel| message_valid(mm, dict@) && message_at(b@, mm) implies mm
                == m@ by {
                lemma_message_at_fields(b@, mm);
                lemma_avps_unique(mm.avps, m@.avps, dict@);
            }
        }
        Ok(m)
    }
}

/// The header fields and AVP octets of a message written at the start of `b`.
proof fn lemma_message_at_fields(b: Seq<u8>, mm: MessageModel)
    requires
        message_wf(mm),
        message_at(b, mm),
    ensures
        b.len() >= 20,
        b[0] == mm.header.version,
        u24_at(b, 1) == mm.header.message_length,
        b[4] == mm.header.command_flags,
        u24_at(b, 5) == mm.header.command_code.spec_code(),
        u32_at(b, 8) == mm.header.application_id.spec_value(),
        u32_at(b, 12) == mm.header.hop_by_hop,
        u32_at(b, 16) == mm.header.end_to_end,
        encode_message(mm).len() == mm.header.message_length,
        b.subrange(20, mm.header.message_length as int) == encode_avps(mm.avps),
{
    let h = mm.header;
    let e = encode_message(mm);
    assert(forall|k: int| 0 <= k < e.len() ==> b[k] == #[trigger] e[k]) by {
        assert forall|k: int| 0 <= k < e.len() implies b[k] == #[trigger] e[k] by {
            assert(b.subrange(0, e.len() as int)[k] == b[k]);
        }
    }
    assert(e[0] == h.version);
    assert(e[4] == h.command_flags);
    let c = h.command_code.spec_code();
    let a = h.application_id.spec_value();
    assert(e[1] == be24(h.message_length)[0] && e[2] == be24(h.message_length)[1] && e[3] == be24(
        h.message_length,
    )[2]);
    lemma_u24_round_trip(h.message_length);
    assert(u24_at(b, 1) == u24_at(be24(h.message_length), 0));
    assert(e[5] == be24(c)[0] && e[6] == be24(c)[1] && e[7] == be24(c)[2]);
    lemma_u24_round_trip(c);
    assert(u24_at(b, 5) == u24_at(be24(c), 0));
    assert(e[8] == be32(a)[0] && e[9] == be32(a)[1] && e[10] == be32(a)[2] && e[11] == be32(a)[3]);
    lemma_u32_round_trip(a);
    assert(u32_at(b, 8) == u32_at(be32(a), 0));
    assert(e[12] == be32(h.hop_by_hop)[0] && e[13] == be32(h.hop_by_hop)[1] && e[14] == be32(
        h.hop_by_hop,
    )[2] && e[15] == be32(h.hop_by_hop)[3]);
    lemma_u32_round_trip(h.hop_by_hop);
    assert(u32_at(b, 12) == u32_at(be32(h.hop_by_hop), 0));
    assert(e[16] == be32(h.end_to_end)[0] && e[17] == be32(h.end_to_end)[1] && e[18] == be32(
        h.end_to_end,
    )[2] && e[19] == be32(h.end_to_end)[3]);
    lemma_u32_round_trip(h.end_to_end);
    assert(u32_at(b, 16) == u32_at(be32(h.end_to_end), 0));
    let ea = encode_avps(mm.avps);
    assert(b.subrange(20, mm.header.message_length as int) =~= ea) by {
        assert forall|k: int| 0 <= k < ea.len() implies b.subrange(
            20,
            mm.header.message_length as int,
        )[k] == ea[k] by {
            assert(e[20 + k] == ea[k]);
        }
    }
}

} // verus!

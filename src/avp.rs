//! AVPs: the value sum type, construction, length accounting, encoding and the
//! dictionary-driven decoder.
use vstd::prelude::*;
use vstd::utf8::valid_utf8;
use crate::dictionary::Dictionary;
use crate::errors::{DiameterResult, Error};
use crate::model::{
    avp_at, avp_encodable, avp_typed, avp_valid, avp_wf, avps_encodable, avps_valid, avps_wf,
    encode_avp, encode_avps, encode_value, header_bytes, header_len, lemma_avp_at_fields,
    lemma_avp_at_shift, lemma_avp_unique, lemma_avps_next, lemma_encode_avp_len,
    lemma_encode_avps_push, lookup_type, reserved_bits, type_of, value_encodable, value_wf,
    vendor_bit, AvpModel, AvpType, ValueModel,
};
use crate::values::{
    AvpData, DiameterURI, Enumerated, Float32, Float64, IPv4, IPv6, Identity, Integer32, Integer64,
    OctetString, Time, UTF8String, Unsigned32, Unsigned64,
};
use crate::wire::{
    all_zero, lemma_u24_bytes, lemma_u32_bytes, padding_for, push_u24, push_u32, push_zeros,
    read_u24, read_u32, slice_len_fits, u24_at, u32_at, zeros,
};

verus! {

pub type Grouped = AvpData<Vec<Avp>>;

/// The value of an AVP, one variant per semantic type.
#[derive(Debug, PartialEq)]
pub enum AvpValue {
    AddressIPv4(IPv4),
    AddressIPv6(IPv6),
    Identity(Identity),
    DiameterURI(DiameterURI),
    Enumerated(Enumerated),
    Float32(Float32),
    Float64(Float64),
    Grouped(Grouped),
    Integer32(Integer32),
    Integer64(Integer64),
    OctetString(OctetString),
    Time(Time),
    Unsigned32(Unsigned32),
    Unsigned64(Unsigned64),
    UTF8String(UTF8String),
}

/// The header of an AVP: code, flags, 24-bit length and optional vendor id.
#[derive(Debug, PartialEq)]
pub struct AvpHeader {
    pub code: u32,
    pub flags: u8,
    pub length: u32,
    pub vendor_id: Option<u32>,
}

/// An AVP: a header and the value it describes.
#[derive(Debug, PartialEq)]
pub struct Avp {
    header: AvpHeader,
    value: AvpValue,
}

/// Whether the M (mandatory) bit is set on a new AVP.
#[derive(Debug, Clone, Copy, PartialEq, Eq)]
pub enum AvpFlags {
    /// Mandatory: the M bit is set.
    M,
    /// Optional: the M bit is clear.
    O,
}

pub open spec fn value_view(v: AvpValue) -> ValueModel
    decreases v,
{
    match v {
        AvpValue::AddressIPv4(d) => ValueModel::AddressIPv4(d.0@),
        AvpValue::AddressIPv6(d) => ValueModel::AddressIPv6(d.0@),
        AvpValue::Identity(d) => ValueModel::Identity(d.0@),
        AvpValue::DiameterURI(d) => ValueModel::DiameterURI(d.0@),
        AvpValue::Enumerated(d) => ValueModel::Enumerated(d.0),
        AvpValue::Float32(d) => ValueModel::Float32(d.0.bits),
        AvpValue::Float64(d) => ValueModel::Float64(d.0.bits),
        AvpValue::Grouped(d) => ValueModel::Grouped(avps_view(d.0@)),
        AvpValue::Integer32(d) => ValueModel::Integer32(d.0),
        AvpValue::Integer64(d) => ValueModel::Integer64(d.0),
        AvpValue::OctetString(d) => ValueModel::OctetString(d.0@),
        AvpValue::Time(d) => ValueModel::Time(d.0.seconds),
        AvpValue::Unsigned32(d) => ValueModel::Unsigned32(d.0),
        AvpValue::Unsigned64(d) => ValueModel::Unsigned64(d.0),
        AvpValue::UTF8String(d) => ValueModel::UTF8String(d.0@),
    }
}

pub closed spec fn avp_view(a: Avp) -> AvpModel
    decreases a,
{
    AvpModel {
        code: a.header.code,
        flags: a.header.flags,
        length: a.header.length,
        vendor_id: a.header.vendor_id,
        value: value_view(a.value),
    }
}

/// The models of a sequence of AVPs, in order.
pub open spec fn avps_view(s: Seq<Avp>) -> Seq<AvpModel>
    decreases s,
{
    if s.len() == 0 {
        Seq::empty()
    } else {
        avps_view(s.subrange(0, s.len() - 1)).push(avp_view(s[s.len() - 1]))
    }
}

impl View for AvpValue {
    type V = ValueModel;

    open spec fn view(&self) -> ValueModel {
        value_view(*self)
    }
}

impl View for Avp {
    type V = AvpModel;

    open spec fn view(&self) -> AvpModel {
        avp_view(*self)
    }
}

/// The models of a sequence of AVPs have its length and, at each index, the model of the AVP there.
pub proof fn lemma_avps_view(s: Seq<Avp>)
    ensures
        avps_view(s).len() == s.len(),
        forall|i: int| 0 <= i < s.len() ==> #[trigger] avps_view(s)[i] == s[i]@,
    decreases s.len(),
{
    if s.len() > 0 {
        lemma_avps_view(s.subrange(0, s.len() - 1));
    }
}

proof fn lemma_avps_view_push(s: Seq<Avp>, a: Avp)
    ensures
        avps_view(s.push(a)) == avps_view(s).push(a@),
{
    assert(s.push(a).subrange(0, s.len() as int) =~= s);
}

impl AvpFlags {
    pub const VENDOR_FLAG_BIT: u8 = 0b1000_0000;

    pub open spec fn spec_value(&self) -> u8 {
        match self {
            AvpFlags::M => 0b0100_0000u8,
            AvpFlags::O => 0u8,
        }
    }

    /// The flags octet without the V bit.
    pub fn value(&self) -> (r: u8)
        ensures
            r == self.spec_value(),
    {
        match self {
            AvpFlags::M => 0b0100_0000,
            AvpFlags::O => 0,
        }
    }

    /// The flags octet with the V bit.
    pub fn with_vendor_bit(&self) -> (r: u8)
        ensures
            r == self.spec_value() | 0x80u8,
    {
        self.value() | Self::VENDOR_FLAG_BIT
    }

    /// Whether the V bit of `flag` is set.
    pub fn has_vendor_bit(flag: u8) -> (r: bool)
        ensures
            r == vendor_bit(flag),
    {
        assert((0x80u8 & flag == 0x80u8) == (flag & 0x80u8 != 0)) by (bit_vector);
        Self::VENDOR_FLAG_BIT & flag == Self::VENDOR_FLAG_BIT
    }
}

proof fn lemma_view_prefix(s: Seq<Avp>, i: int)
    requires
        0 <= i < s.len(),
    ensures
        avps_view(s).subrange(0, i + 1) == avps_view(s).subrange(0, i).push(s[i]@),
        avps_view(s).len() == s.len(),
        avps_view(s)[i] == s[i]@,
{
    lemma_avps_view(s);
    assert(avps_view(s).subrange(0, i + 1) =~= avps_view(s).subrange(0, i).push(s[i]@));
}

proof fn lemma_prefix_len_bound(v: Seq<AvpModel>, i: int)
    requires
        0 <= i <= v.len(),
    ensures
        encode_avps(v.subrange(0, i)).len() <= encode_avps(v).len(),
{
    assert(v =~= v.subrange(0, i) + v.subrange(i, v.len() as int));
    crate::model::lemma_encode_avps_append(v.subrange(0, i), v.subrange(i, v.len() as int));
}

impl Grouped {
    /// Octets of the nested AVPs, padding included.
    pub fn len(&self) -> (r: u32)
        requires
            avps_wf(avps_view(self.0@)),
            encode_avps(avps_view(self.0@)).len() <= u32::MAX,
        ensures
            r == encode_avps(avps_view(self.0@)).len(),
            r == crate::laws::avps_wire_len(avps_view(self.0@)),
    {
        proof {
            crate::laws::law_grouped_len(avps_view(self.0@));
        }
        let ghost v = avps_view(self.0@);
        let mut total: u32 = 0;
        let mut i: usize = 0;
        proof {
            lemma_avps_view(self.0@);
            assert(v.subrange(0, 0) =~= Seq::<AvpModel>::empty());
        }
        while i < self.0.len()
            invariant
                v == avps_view(self.0@),
                v.len() == self.0@.len(),
                avps_wf(v),
                encode_avps(v).len() <= u32::MAX,
                i <= self.0@.len(),
                total == encode_avps(v.subrange(0, i as int)).len(),
            decreases self.0@.len() - i,
        {
            let a = &self.0[i];
            proof {
                lemma_view_prefix(self.0@, i as int);
                lemma_encode_avps_push(v.subrange(0, i as int), a@);
                lemma_encode_avp_len(a@);
                lemma_prefix_len_bound(v, i + 1);
            }
            total = total + a.get_length() + a.get_padding();
            i = i + 1;
        }
        proof {
            assert(v.subrange(0, i as int) =~= v);
        }
        total
    }

    /// Encodes the nested AVPs in order.
    pub fn encode_to(&self, buf: &mut Vec<u8>) -> (r: DiameterResult<()>)
        requires
            avps_wf(avps_view(self.0@)),
        ensures
            r is Ok <==> avps_encodable(avps_view(self.0@)),
            r is Ok ==> final(buf)@ == old(buf)@ + encode_avps(avps_view(self.0@)),
            r matches Err(e) ==> e == Error::EncodeError("time out of range"),
        decreases self,
    {
        let ghost v = avps_view(self.0@);
        let mut i: usize = 0;
        proof {
            lemma_avps_view(self.0@);
            assert(v.subrange(0, 0) =~= Seq::<AvpModel>::empty());
            assert(old(buf)@ + encode_avps(v.subrange(0, 0)) =~= old(buf)@);
        }
        while i < self.0.len()
            invariant
                v == avps_view(self.0@),
                v.len() == self.0@.len(),
                avps_wf(v),
                i <= self.0@.len(),
                buf@ == old(buf)@ + encode_avps(v.subrange(0, i as int)),
                forall|j: int| 0 <= j < i ==> avp_encodable(#[trigger] v[j]),
            decreases self.0@.len() - i,
        {
            let a = &self.0[i];
            proof {
                lemma_view_prefix(self.0@, i as int);
                lemma_encode_avps_push(v.subrange(0, i as int), a@);
            }
            match a.encode_to(buf) {
                Ok(()) => {},
                Err(e) => {
                    return Err(e);
                },
            }
            i = i + 1;
        }
        proof {
            assert(v.subrange(0, i as int) =~= v);
        }
        Ok(())
    }

    pub fn avps(&self) -> (r: &Vec<Avp>)
        ensures
            *r == self.0,
    {
        &self.0
    }

    /// Appends an AVP.
    pub fn add(&mut self, avp: Avp)
        ensures
            final(self).0@ == old(self).0@.push(avp),
            avps_view(final(self).0@) == avps_view(old(self).0@).push(avp@),
    {
        proof {
            lemma_avps_view_push(self.0@, avp);
        }
        self.0.push(avp);
    }

    /// Builds an AVP as `Avp::new` does and appends it.
    pub fn add_avp(&mut self, code: u32, vendor_id: Option<u32>, flags: AvpFlags, value: AvpValue)
        requires
            value_wf(value@),
            header_len(vendor_id) + encode_value(value@).len() < 0x100_0000,
        ensures
            avps_view(final(self).0@) == avps_view(old(self).0@).push(
                new_model(code, flags, vendor_id, value@),
            ),
    {
        let avp = Avp::new(code, flags, vendor_id, value);
        self.add(avp);
    }
}

impl AvpValue {
    /// Octets of the value on the wire, before padding.
    pub fn len(&self) -> (r: u32)
        requires
            value_wf(self@),
            encode_value(self@).len() <= u32::MAX,
        ensures
            r == encode_value(self@).len(),
    {
        match self {
            AvpValue::AddressIPv4(d) => d.len(),
            AvpValue::AddressIPv6(d) => d.len(),
            AvpValue::Identity(d) => d.len(),
            AvpValue::DiameterURI(d) => d.len(),
            AvpValue::Enumerated(d) => d.len(),
            AvpValue::Float32(d) => d.len(),
            AvpValue::Float64(d) => d.len(),
            AvpValue::Grouped(d) => d.len(),
            AvpValue::Integer32(d) => d.len(),
            AvpValue::Integer64(d) => d.len(),
            AvpValue::OctetString(d) => d.len(),
            AvpValue::Time(d) => d.len(),
            AvpValue::Unsigned32(d) => d.len(),
            AvpValue::Unsigned64(d) => d.len(),
            AvpValue::UTF8String(d) => d.len(),
        }
    }

    /// Writes the value's octets; fails only on a Time without a 32-bit Diameter timestamp.
    pub fn encode_to(&self, buf: &mut Vec<u8>) -> (r: DiameterResult<()>)
        requires
            value_wf(self@),
        ensures
            r is Ok <==> value_encodable(self@),
            r is Ok ==> final(buf)@ == old(buf)@ + encode_value(self@),
            r matches Err(e) ==> e == Error::EncodeError("time out of range"),
        decreases self,
    {
        match self {
            AvpValue::AddressIPv4(d) => d.encode_to(buf),
            AvpValue::AddressIPv6(d) => d.encode_to(buf),
            AvpValue::Identity(d) => d.encode_to(buf),
            AvpValue::DiameterURI(d) => d.encode_to(buf),
            AvpValue::Enumerated(d) => d.encode_to(buf),
            AvpValue::Float32(d) => d.encode_to(buf),
            AvpValue::Float64(d) => d.encode_to(buf),
            AvpValue::Grouped(d) => {
                return d.encode_to(buf);
            },
            AvpValue::Integer32(d) => d.encode_to(buf),
            AvpValue::Integer64(d) => d.encode_to(buf),
            AvpValue::OctetString(d) => d.encode_to(buf),
            AvpValue::Time(d) => {
                return d.encode_to(buf);
            },
            AvpValue::Unsigned32(d) => d.encode_to(buf),
            AvpValue::Unsigned64(d) => d.encode_to(buf),
            AvpValue::UTF8String(d) => d.encode_to(buf),
        }
        Ok(())
    }
}

/// The flags octet of a new AVP: the M bit as asked, the V bit when a vendor id is given.
pub open spec fn new_flags(flags: AvpFlags, vendor_id: Option<u32>) -> u8 {
    if vendor_id is Some {
        flags.spec_value() | 0x80u8
    } else {
        flags.spec_value()
    }
}

/// The AVP that `Avp::new` builds.
pub open spec fn new_model(code: u32, flags: AvpFlags, vendor_id: Option<u32>, value: ValueModel) -> AvpModel {
    AvpModel {
        code,
        flags: new_flags(flags, vendor_id),
        length: (header_len(vendor_id) + encode_value(value).len()) as u32,
        vendor_id,
        value,
    }
}

impl AvpHeader {
    pub fn encode_to(&self, buf: &mut Vec<u8>)
        ensures
            final(buf)@ == old(buf)@ + header_bytes(
                self.code,
                self.flags,
                self.length,
                self.vendor_id,
            ),
    {
        push_u32(buf, self.code);
        buf.push(self.flags);
        push_u24(buf, self.length);
        match self.vendor_id {
            Some(v) => push_u32(buf, v),
            None => {},
        }
        assert(buf@ =~= old(buf)@ + header_bytes(self.code, self.flags, self.length, self.vendor_id));
    }
}

impl Avp {
    /// A new AVP whose length is computed from its value, with the V bit set exactly when a
    /// vendor id is given.
    pub fn new(code: u32, flags: AvpFlags, vendor_id: Option<u32>, value: AvpValue) -> (r: Avp)
        requires
            value_wf(value@),
            header_len(vendor_id) + encode_value(value@).len() < 0x100_0000,
        ensures
            r@ == new_model(code, flags, vendor_id, value@),
            avp_wf(r@),
    {
        proof {
            assert((0x40u8 | 0x80u8) & 0x80u8 != 0 && (0x40u8 | 0x80u8) & 0x1fu8 == 0 && 0x40u8
                & 0x80u8 == 0 && 0x40u8 & 0x1fu8 == 0) by (bit_vector);
            assert((0u8 | 0x80u8) & 0x80u8 != 0 && (0u8 | 0x80u8) & 0x1fu8 == 0 && 0u8 & 0x80u8
                == 0 && 0u8 & 0x1fu8 == 0) by (bit_vector);
        }
        let (length, avp_flags) = match vendor_id {
            Some(_) => (12 + value.len(), flags.with_vendor_bit()),
            None => (8 + value.len(), flags.value()),
        };
        Avp { header: AvpHeader { code, flags: avp_flags, length, vendor_id }, value }
    }

    pub fn get_code(&self) -> (r: u32)
        ensures
            r == self@.code,
    {
        self.header.code
    }

    pub fn get_flags(&self) -> (r: u8)
        ensures
            r == self@.flags,
    {
        self.header.flags
    }

    pub fn get_vendor_id(&self) -> (r: Option<u32>)
        ensures
            r == self@.vendor_id,
    {
        self.header.vendor_id
    }

    pub fn get_value(&self) -> (r: &AvpValue)
        ensures
            r@ == self@.value,
    {
        &self.value
    }

    /// The length field: header plus value octets, padding excluded.
    pub fn get_length(&self) -> (r: u32)
        ensures
            r == self@.length,
    {
        self.header.length
    }

    /// Zero octets that follow the value so that the AVP fills a multiple of four octets.
    pub fn get_padding(&self) -> (r: u32)
        ensures
            r == padding_for(self@.length as int),
    {
        let remainder = self.header.length % 4;
        if remainder != 0 {
            4 - remainder
        } else {
            0
        }
    }

    /// Appends the AVP's octets, padding included; fails only on a Time without a 32-bit
    /// Diameter timestamp.
    pub fn encode_to(&self, buf: &mut Vec<u8>) -> (r: DiameterResult<()>)
        requires
            avp_wf(self@),
        ensures
            r is Ok <==> avp_encodable(self@),
            r is Ok ==> final(buf)@ == old(buf)@ + encode_avp(self@),
            r is Ok ==> (final(buf)@.len() - old(buf)@.len()) % 4 == 0,
            r matches Err(e) ==> e == Error::EncodeError("time out of range"),
        decreases self,
    {
        proof {
            lemma_encode_avp_len(self@);
        }
        self.header.encode_to(buf);
        match self.value.encode_to(buf) {
            Ok(()) => {},
            Err(e) => {
                return Err(e);
            },
        }
        let pad = self.get_padding();
        push_zeros(buf, pad);
        assert(buf@ =~= old(buf)@ + encode_avp(self@));
        Ok(())
    }
}


/// The V bit of the flags octet at `b[pos + 4]`, and the vendor id that follows when it is set.
pub open spec fn wire_vendor_id(b: Seq<u8>, pos: int) -> Option<u32> {
    if vendor_bit(b[pos + 4]) {
        Some(u32_at(b, pos + 8))
    } else {
        None
    }
}

/// The AVP header at `b[pos..]` fits before `end`: 8 octets, or 12 when the V bit is set.
pub open spec fn header_fits(b: Seq<u8>, pos: int, end: int) -> bool {
    end - pos >= 8 && (vendor_bit(b[pos + 4]) ==> end - pos >= 12)
}

/// The length field of the AVP header at `b[pos..]`.
pub open spec fn wire_length(b: Seq<u8>, pos: int) -> u32 {
    u24_at(b, pos + 5)
}

/// The AVP header at `b[pos..]` fits, has its reserved bits clear, a length that covers the
/// header, and an AVP that, padded, ends no later than `end`.
pub open spec fn frame_fits(b: Seq<u8>, pos: int, end: int) -> bool {
    &&& header_fits(b, pos, end)
    &&& reserved_bits(b[pos + 4]) == 0
    &&& wire_length(b, pos) >= header_len(wire_vendor_id(b, pos))
    &&& pos + wire_length(b, pos) + padding_for(wire_length(b, pos) as int) <= end
}

/// The error that the header of the AVP at `b[pos..]` alone decides, checked in this order:
/// a header that does not fit (`overrun`), reserved flag bits, a length shorter than the
/// header, an AVP that runs past `end` (`overrun`), and, unless `lenient`, a code that the
/// dictionary lacks.
pub open spec fn header_error(
    b: Seq<u8>,
    pos: int,
    end: int,
    d: Map<(u32, Option<u32>), AvpType>,
    lenient: bool,
    overrun: &'static str,
) -> Option<&'static str> {
    if !header_fits(b, pos, end) {
        Some(overrun)
    } else if reserved_bits(b[pos + 4]) != 0 {
        Some("invalid AVP flags")
    } else if wire_length(b, pos) < header_len(wire_vendor_id(b, pos)) {
        Some("invalid AVP length")
    } else if !frame_fits(b, pos, end) {
        Some(overrun)
    } else if !lenient && lookup_type(d, u32_at(b, pos), wire_vendor_id(b, pos)) == AvpType::Unknown {
        Some("unknown AVP code")
    } else {
        None
    }
}

impl AvpHeader {
    /// Reads the header at `b[pos..]`, which must fit before `end`.
    pub fn decode_from(b: &[u8], pos: usize, end: usize) -> (r: DiameterResult<AvpHeader>)
        requires
            pos <= end <= b@.len(),
        ensures
            r is Ok <==> end - pos >= 8 && (vendor_bit(b@[pos + 4]) ==> end - pos >= 12),
            r matches Ok(h) ==> h.code == u32_at(b@, pos as int) && h.flags == b@[pos + 4]
                && h.length == u24_at(b@, pos + 5) && h.vendor_id == wire_vendor_id(b@, pos as int),
            r matches Err(e) ==> e == Error::DecodeError("AVP header truncated"),
    {
        if end - pos < 8 {
            return Err(Error::DecodeError("AVP header truncated"));
        }
        let code = read_u32(b, pos);
        let flags = b[pos + 4];
        let length = read_u24(b, pos + 5);
        let vendor_id = if AvpFlags::has_vendor_bit(flags) {
            if end - pos < 12 {
                return Err(Error::DecodeError("AVP header truncated"));
            }
            Some(read_u32(b, pos + 8))
        } else {
            None
        };
        Ok(AvpHeader { code, flags, length, vendor_id })
    }
}

/// Reads a value of type `t`, neither `Unknown` nor `Grouped`, from `b[start..start + len]`.
fn decode_value(b: &[u8], start: usize, len: usize, t: AvpType) -> (r: DiameterResult<AvpValue>)
    requires
        start + len <= b@.len(),
        t != AvpType::Unknown,
        t != AvpType::Grouped,
    ensures
        r matches Ok(v) ==> type_of(v@) == t && value_wf(v@) && value_encodable(v@)
            && encode_value(v@) == b@.subrange(start as int, start + len),
        r is Err ==> forall|w: ValueModel|
            type_of(w) == t && value_wf(w) && value_encodable(w) ==> encode_value(w) != b@.subrange(
                start as int,
                start + len,
            ),
        r matches Err(e) ==> e is DecodeError,
{
    let r = match t {
        AvpType::AddressIPv4 => match IPv4::decode_from(b, start, len) {
            Ok(d) => Ok(AvpValue::AddressIPv4(d)),
            Err(e) => Err(e),
        },
        AvpType::AddressIPv6 => match IPv6::decode_from(b, start, len) {
            Ok(d) => Ok(AvpValue::AddressIPv6(d)),
            Err(e) => Err(e),
        },
        AvpType::Identity => match UTF8String::decode_from(b, start, len) {
            Ok(d) => Ok(AvpValue::Identity(d)),
            Err(e) => Err(e),
        },
        AvpType::DiameterURI => match UTF8String::decode_from(b, start, len) {
            Ok(d) => Ok(AvpValue::DiameterURI(d)),
            Err(e) => Err(e),
        },
        AvpType::UTF8String => match UTF8String::decode_from(b, start, len) {
            Ok(d) => Ok(AvpValue::UTF8String(d)),
            Err(e) => Err(e),
        },
        AvpType::Enumerated => match Integer32::decode_from(b, start, len) {
            Ok(d) => Ok(AvpValue::Enumerated(d)),
            Err(e) => Err(e),
        },
        AvpType::Integer32 => match Integer32::decode_from(b, start, len) {
            Ok(d) => Ok(AvpValue::Integer32(d)),
            Err(e) => Err(e),
        },
        AvpType::Integer64 => match Integer64::decode_from(b, start, len) {
            Ok(d) => Ok(AvpValue::Integer64(d)),
            Err(e) => Err(e),
        },
        AvpType::Unsigned32 => match Unsigned32::decode_from(b, start, len) {
            Ok(d) => Ok(AvpValue::Unsigned32(d)),
            Err(e) => Err(e),
        },
        AvpType::Unsigned64 => match Unsigned64::decode_from(b, start, len) {
            Ok(d) => Ok(AvpValue::Unsigned64(d)),
            Err(e) => Err(e),
        },
        AvpType::Float32 => match Float32::decode_from(b, start, len) {
            Ok(d) => Ok(AvpValue::Float32(d)),
            Err(e) => Err(e),
        },
        AvpType::Float64 => match Float64::decode_from(b, start, len) {
            Ok(d) => Ok(AvpValue::Float64(d)),
            Err(e) => Err(e),
        },
        AvpType::Time => match Time::decode_from(b, start, len) {
            Ok(d) => Ok(AvpValue::Time(d)),
            Err(e) => Err(e),
        },
        _ => match OctetString::decode_from(b, start, len) {
            Ok(d) => Ok(AvpValue::OctetString(d)),
            Err(e) => Err(e),
        },
    };
    proof {
        assert forall|w: ValueModel| #[trigger] type_of(w) == t && value_wf(w) implies
            is_value_encoding(t, encode_value(w)) by {
            lemma_value_encoding(w);
        }
    }
    r
}

/// What the octets of any value of type `t` look like: fixed-size types have their size,
/// text is valid UTF-8.
pub open spec fn is_value_encoding(t: AvpType, o: Seq<u8>) -> bool {
    match t {
        AvpType::AddressIPv4 | AvpType::Enumerated | AvpType::Integer32 | AvpType::Unsigned32
        | AvpType::Float32 | AvpType::Time => o.len() == 4,
        AvpType::Integer64 | AvpType::Unsigned64 | AvpType::Float64 => o.len() == 8,
        AvpType::AddressIPv6 => o.len() == 16,
        AvpType::Identity | AvpType::DiameterURI | AvpType::UTF8String => valid_utf8(o),
        _ => true,
    }
}

proof fn lemma_value_encoding(w: ValueModel)
    requires
        value_wf(w),
    ensures
        is_value_encoding(type_of(w), encode_value(w)),
{
    match w {
        ValueModel::Identity(s) => vstd::utf8::encode_utf8_valid_utf8(s),
        ValueModel::DiameterURI(s) => vstd::utf8::encode_utf8_valid_utf8(s),
        ValueModel::UTF8String(s) => vstd::utf8::encode_utf8_valid_utf8(s),
        _ => {},
    }
}

/// What a valid AVP at `b[pos..]` must agree with: the header fields on the wire.
proof fn lemma_read_header(b: Seq<u8>, pos: int, end: int, m: AvpModel)
    requires
        avp_wf(m),
        avp_at(b, pos, end, m),
    ensures
        end - pos >= encode_avp(m).len() >= 8,
        m.code == u32_at(b, pos),
        m.flags == b[pos + 4],
        m.length == u24_at(b, pos + 5),
        m.vendor_id == wire_vendor_id(b, pos),
        m.vendor_id is Some ==> end - pos >= 12,
        m.length >= header_len(m.vendor_id),
        encode_avp(m).len() == m.length + padding_for(m.length as int),
        b.subrange(pos + header_len(m.vendor_id), pos + m.length) == encode_value(m.value),
        b.subrange(pos + m.length, pos + m.length + padding_for(m.length as int)) == zeros(
            padding_for(m.length as int),
        ),
{
    lemma_avp_at_fields(b, pos, end, m);
    lemma_encode_avp_len(m);
}

#[verifier::rlimit(100)]
/// Reads the AVP at `b[pos..]`, which must end no later than `end`. With `lenient`, an AVP whose
/// code the dictionary lacks keeps its value octets as an OctetString; otherwise it is an
/// error. `overrun` is the error for an AVP that runs past `end`.
fn decode_avp_at(
    b: &[u8],
    pos: usize,
    end: usize,
    dict: &Dictionary,
    lenient: bool,
    overrun: &'static str,
) -> (r: DiameterResult<(Avp, usize)>)
    requires
        pos <= end <= b@.len(),
        dict.wf(),
    ensures
        r matches Ok((a, n)) ==> n == pos + encode_avp(a@).len() && avp_at(
            b@,
            pos as int,
            end as int,
            a@,
        ) && avp_valid(a@, dict@, lenient),
        r is Err ==> forall|m: AvpModel|
            avp_valid(m, dict@, lenient) ==> !avp_at(b@, pos as int, end as int, m),
        header_error(b@, pos as int, end as int, dict@, lenient, overrun) matches Some(msg) ==> r
            == Err::<(Avp, usize), Error>(Error::DecodeError(msg)),
        r matches Err(e) ==> e is DecodeError,
    decreases end - pos, 0int,
{
    slice_len_fits(b);
    let header = match AvpHeader::decode_from(b, pos, end) {
        Ok(h) => h,
        Err(_) => {
            proof {
                assert forall|m: AvpModel| avp_valid(m, dict@, lenient) implies !avp_at(
                    b@,
                    pos as int,
                    end as int,
                    m,
                ) by {
                    if avp_at(b@, pos as int, end as int, m) {
                        lemma_read_header(b@, pos as int, end as int, m);
                    }
                }
            }
            return Err(Error::DecodeError(overrun));
        },
    };
    let code = header.code;
    let flags = header.flags;
    let length = header.length;
    let vendor_id = header.vendor_id;
    let hlen: usize = if vendor_id.is_some() {
        12
    } else {
        8
    };
    proof {
        lemma_u24_bytes(b@, pos + 5);
    }
    if flags & 0x1f != 0 {
        proof {
            assert forall|m: AvpModel| avp_valid(m, dict@, lenient) implies !avp_at(
                b@,
                pos as int,
                end as int,
                m,
            ) by {
                if avp_at(b@, pos as int, end as int, m) {
                    lemma_read_header(b@, pos as int, end as int, m);
                }
            }
        }
        return Err(Error::DecodeError("invalid AVP flags"));
    }
    if (length as usize) < hlen {
        proof {
            assert forall|m: AvpModel| avp_valid(m, dict@, lenient) implies !avp_at(
                b@,
                pos as int,
                end as int,
                m,
            ) by {
                if avp_at(b@, pos as int, end as int, m) {
                    lemma_read_header(b@, pos as int, end as int, m);
                }
            }
        }
        return Err(Error::DecodeError("invalid AVP length"));
    }
    let pad: u32 = (4 - length % 4) % 4;
    if end - pos < length as usize + pad as usize {
        proof {
            assert forall|m: AvpModel| avp_valid(m, dict@, lenient) implies !avp_at(
                b@,
                pos as int,
                end as int,
                m,
            ) by {
                if avp_at(b@, pos as int, end as int, m) {
                    lemma_read_header(b@, pos as int, end as int, m);
                }
            }
        }
        return Err(Error::DecodeError(overrun));
    }
    let vlen = length as usize - hlen;
    let vstart = pos + hlen;
    let ghost vbytes = b@.subrange(vstart as int, vstart + vlen);
    let t = dict.get_avp_type(code, vendor_id);
    let value = if t == AvpType::Unknown {
        if lenient {
            match OctetString::decode_from(b, vstart, vlen) {
                Ok(d) => AvpValue::OctetString(d),
                Err(e) => {
                    return Err(e);
                },
            }
        } else {
            proof {
                assert forall|m: AvpModel| avp_valid(m, dict@, lenient) implies !avp_at(
                    b@,
                    pos as int,
                    end as int,
                    m,
                ) by {
                    if avp_at(b@, pos as int, end as int, m) {
                        lemma_read_header(b@, pos as int, end as int, m);
                    }
                }
            }
            return Err(Error::DecodeError("unknown AVP code"));
        }
    } else if t == AvpType::Grouped {
        match Grouped::decode_from(b, vstart, vlen, dict) {
            Ok(g) => AvpValue::Grouped(g),
            Err(e) => {
                proof {
                    assert forall|m: AvpModel| avp_valid(m, dict@, lenient) implies !avp_at(
                        b@,
                        pos as int,
                        end as int,
                        m,
                    ) by {
                        if avp_at(b@, pos as int, end as int, m) {
                            lemma_read_header(b@, pos as int, end as int, m);
                            assert(lookup_type(dict@, m.code, m.vendor_id) == t);
                            assert(type_of(m.value) == AvpType::Grouped);
                            let kids = m.value->Grouped_0;
                            assert(m.value == ValueModel::Grouped(kids));
                            assert(avps_valid(kids, dict@));
                            assert(encode_avps(kids) == vbytes);
                        }
                    }
                }
                return Err(e);
            },
        }
    } else {
        match decode_value(b, vstart, vlen, t) {
            Ok(v) => v,
            Err(e) => {
                proof {
                    assert forall|m: AvpModel| avp_valid(m, dict@, lenient) implies !avp_at(
                        b@,
                        pos as int,
                        end as int,
                        m,
                    ) by {
                        if avp_at(b@, pos as int, end as int, m) {
                            lemma_read_header(b@, pos as int, end as int, m);
                        }
                    }
                }
                return Err(e);
            },
        }
    };
    let tail = pos + length as usize;
    if !all_zero(b, tail, pad as usize) {
        proof {
            assert forall|m: AvpModel| avp_valid(m, dict@, lenient) implies !avp_at(
                b@,
                pos as int,
                end as int,
                m,
            ) by {
                if avp_at(b@, pos as int, end as int, m) {
                    lemma_read_header(b@, pos as int, end as int, m);
                }
            }
        }
        return Err(Error::DecodeError("nonzero padding"));
    }
    let avp = Avp { header: AvpHeader { code, flags, length, vendor_id }, value };
    let n = tail + pad as usize;
    proof {
        let hb = header_bytes(code, flags, length, vendor_id);
        lemma_u32_bytes(b@, pos as int);
        if vendor_id is Some {
            lemma_u32_bytes(b@, pos + 8);
        }
        assert(hb =~= b@.subrange(pos as int, vstart as int));
        assert(encode_avp(avp@) =~= b@.subrange(pos as int, n as int));
        lemma_encode_avp_len(avp@);
    }
    Ok((avp, n))
}

/// Reads one top-level AVP of a message that ends at `end`.
pub(crate) fn decode_avp_in(b: &[u8], pos: usize, end: usize, dict: &Dictionary) -> (r:
    DiameterResult<(Avp, usize)>)
    requires
        pos <= end <= b@.len(),
        dict.wf(),
    ensures
        r matches Ok((a, n)) ==> n == pos + encode_avp(a@).len() && avp_at(
            b@,
            pos as int,
            end as int,
            a@,
        ) && avp_valid(a@, dict@, false),
        r is Err ==> forall|m: AvpModel|
            avp_valid(m, dict@, false) ==> !avp_at(b@, pos as int, end as int, m),
        r matches Err(e) ==> e is DecodeError,
{
    decode_avp_at(b, pos, end, dict, false, "message length mismatch")
}

proof fn lemma_avp_at_unshift(b: Seq<u8>, pos: int, end: int, m: AvpModel)
    requires
        avp_at(b, pos, end, m),
    ensures
        avp_at(b.subrange(pos, end), 0, end - pos, m),
{
    let e = encode_avp(m);
    assert(b.subrange(pos, end).subrange(0, e.len() as int) =~= b.subrange(pos, pos + e.len()));
}

impl Grouped {
    /// Reads the AVPs that fill `b[start..start + length]` exactly, in order.
    pub fn decode_from(b: &[u8], start: usize, length: usize, dict: &Dictionary) -> (r:
        DiameterResult<Grouped>)
        requires
            start + length <= b@.len(),
            dict.wf(),
        ensures
            r matches Ok(g) ==> avps_valid(avps_view(g.0@), dict@) && encode_avps(avps_view(g.0@))
                == b@.subrange(start as int, start + length),
            r is Err ==> forall|s: Seq<AvpModel>|
                avps_valid(s, dict@) ==> encode_avps(s) != b@.subrange(
                    start as int,
                    start + length,
                ),
            r matches Err(e) ==> e is DecodeError,
        decreases length, 1int,
    {
        slice_len_fits(b);
        let end = start + length;
        let ghost x = b@.subrange(start as int, end as int);
        let mut avps: Vec<Avp> = Vec::new();
        let mut p = start;
        proof {
            assert(avps_view(avps@) =~= Seq::<AvpModel>::empty());
            assert(b@.subrange(start as int, p as int) =~= Seq::<u8>::empty());
        }
        while p < end
            invariant
                start <= p <= end <= b@.len(),
                end == start + length,
                dict.wf(),
                x == b@.subrange(start as int, end as int),
                avps_valid(avps_view(avps@), dict@),
                encode_avps(avps_view(avps@)) == b@.subrange(start as int, p as int),
            decreases end - p,
        {
            match decode_avp_at(b, p, end, dict, false, "grouped AVP truncated") {
                Ok((a, n)) => {
                    proof {
                        let v = avps_view(avps@);
                        lemma_avps_view_push(avps@, a);
                        lemma_encode_avps_push(v, a@);
                        lemma_encode_avp_len(a@);
                        assert(b@.subrange(start as int, n as int) =~= b@.subrange(
                            start as int,
                            p as int,
                        ) + b@.subrange(p as int, n as int));
                        let w = v.push(a@);
                        assert forall|i: int| 0 <= i < w.len() implies avp_wf(#[trigger] w[i])
                            && avp_encodable(w[i]) && avp_typed(w[i], dict@, false) by {
                            if i < v.len() {
                                assert(w[i] == v[i]);
                            }
                        }
                    }
                    avps.push(a);
                    p = n;
                },
                Err(e) => {
                    proof {
                        let v = avps_view(avps@);
                        assert forall|s: Seq<AvpModel>| avps_valid(s, dict@) implies encode_avps(s)
                            != x by {
                            if encode_avps(s) == x {
                                assert(encode_avps(v) =~= x.subrange(
                                    0,
                                    encode_avps(v).len() as int,
                                ));
                                lemma_avps_next(s, v, dict@, x);
                                lemma_avp_at_shift(
                                    b@,
                                    start as int,
                                    end as int,
                                    p - start,
                                    s[v.len() as int],
                                );
                            }
                        }
                    }
                    return Err(e);
                },
            }
        }
        Ok(AvpData(avps))
    }
}

impl Avp {
    /// Reads the AVP at `b[pos..]` and returns it with the offset just past its padding. A code
    /// that the dictionary lacks is an error.
    pub fn decode_from(b: &[u8], pos: usize, dict: &Dictionary) -> (r: DiameterResult<(Avp, usize)>)
        requires
            pos <= b@.len(),
            dict.wf(),
        ensures
            r matches Ok((a, n)) ==> avp_valid(a@, dict@, false) && avp_at(
                b@,
                pos as int,
                b@.len() as int,
                a@,
            ) && n == pos + encode_avp(a@).len() && (n - pos) % 4 == 0,
            r is Err ==> forall|m: AvpModel|
                avp_valid(m, dict@, false) ==> !avp_at(b@, pos as int, b@.len() as int, m),
            header_error(b@, pos as int, b@.len() as int, dict@, false, "AVP truncated") matches Some(
                msg,
            ) ==> r == Err::<(Avp, usize), Error>(Error::DecodeError(msg)),
            r matches Err(e) ==> e is DecodeError,
            forall|m: AvpModel|
                avp_valid(m, dict@, false) && avp_at(b@, pos as int, b@.len() as int, m) ==> (
                r matches Ok((a, n)) && a@ == m && n == pos + encode_avp(m).len()),
    {
        let r = decode_avp_at(b, pos, b.len(), dict, false, "AVP truncated");
        proof {
            if r is Ok {
                lemma_encode_avp_len(r->Ok_0.0@);
            }
            lemma_decode_determined(b@, pos as int, dict@, false, r);
        }
        r
    }

    /// As `decode_from`, but an AVP whose code the dictionary lacks keeps its value octets as an
    /// OctetString.
    pub fn decode_lenient_from(b: &[u8], pos: usize, dict: &Dictionary) -> (r: DiameterResult<(Avp, usize)>)
        requires
            pos <= b@.len(),
            dict.wf(),
        ensures
            r matches Ok((a, n)) ==> avp_valid(a@, dict@, true) && avp_at(
                b@,
                pos as int,
                b@.len() as int,
                a@,
            ) && n == pos + encode_avp(a@).len() && (n - pos) % 4 == 0,
            r is Err ==> forall|m: AvpModel|
                avp_valid(m, dict@, true) ==> !avp_at(b@, pos as int, b@.len() as int, m),
            header_error(b@, pos as int, b@.len() as int, dict@, true, "AVP truncated") matches Some(
                msg,
            ) ==> r == Err::<(Avp, usize), Error>(Error::DecodeError(msg)),
            r matches Err(e) ==> e is DecodeError,
            forall|m: AvpModel|
                avp_valid(m, dict@, true) && avp_at(b@, pos as int, b@.len() as int, m) ==> (
                r matches Ok((a, n)) && a@ == m && n == pos + encode_avp(m).len()),
    {
        let r = decode_avp_at(b, pos, b.len(), dict, true, "AVP truncated");
        proof {
            if r is Ok {
                lemma_encode_avp_len(r->Ok_0.0@);
            }
            lemma_decode_determined(b@, pos as int, dict@, true, r);
        }
        r
    }
}

proof fn lemma_decode_determined(
    b: Seq<u8>,
    pos: int,
    d: Map<(u32, Option<u32>), AvpType>,
    lenient: bool,
    r: DiameterResult<(Avp, usize)>,
)
    requires
        0 <= pos <= b.len(),
        r matches Ok((a, n)) ==> avp_valid(a@, d, lenient) && avp_at(b, pos, b.len() as int, a@),
        r is Err ==> forall|m: AvpModel|
            avp_valid(m, d, lenient) ==> !avp_at(b, pos, b.len() as int, m),
    ensures
        forall|m: AvpModel|
            avp_valid(m, d, lenient) && avp_at(b, pos, b.len() as int, m) ==> (r matches Ok((a, n))
                && a@ == m),
{
    assert forall|m: AvpModel|
        avp_valid(m, d, lenient) && avp_at(b, pos, b.len() as int, m) implies (r matches Ok((a, n))
        && a@ == m) by {
        if let Ok((a, n)) = r {
            lemma_avp_at_unshift(b, pos, b.len() as int, m);
            lemma_avp_at_unshift(b, pos, b.len() as int, a@);
            lemma_avp_unique(a@, m, d, lenient, b.subrange(pos, b.len() as int));
        }
    }
}

} // verus!

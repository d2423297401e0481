//! Mathematical model of AVPs and their wire form.
use vstd::prelude::*;
use vstd::utf8::{encode_utf8, encode_utf8_decode_utf8};
use crate::wire::{
    be24, be32, be64, lemma_be32_injective, lemma_be64_injective, lemma_i32_u32, lemma_i64_u64,
    lemma_u24_round_trip, lemma_u32_round_trip, padding_for, u24_at, u32_at, zeros,
};

verus! {

/// Seconds between 1900-01-01T00:00:00Z (the Diameter epoch) and the Unix epoch.
pub const RFC868_OFFSET: u32 = 2208988800;

/// The semantic type that a dictionary gives to an AVP code.
#[derive(Debug, Clone, Copy, PartialEq, Eq, Structural)]
pub enum AvpType {
    Unknown,
    AddressIPv4,
    AddressIPv6,
    Identity,
    DiameterURI,
    Enumerated,
    Float32,
    Float64,
    Grouped,
    Integer32,
    Integer64,
    OctetString,
    Time,
    Unsigned32,
    Unsigned64,
    UTF8String,
}

/// The value of an AVP, as mathematics.
pub ghost enum ValueModel {
    AddressIPv4(Seq<u8>),
    AddressIPv6(Seq<u8>),
    Identity(Seq<char>),
    DiameterURI(Seq<char>),
    Enumerated(i32),
    Float32(u32),
    Float64(u64),
    Grouped(Seq<AvpModel>),
    Integer32(i32),
    Integer64(i64),
    OctetString(Seq<u8>),
    /// Seconds since the Unix epoch.
    Time(i64),
    Unsigned32(u32),
    Unsigned64(u64),
    UTF8String(Seq<char>),
}

/// An AVP, as mathematics: its header fields and its value.
pub ghost struct AvpModel {
    pub code: u32,
    pub flags: u8,
    pub length: u32,
    pub vendor_id: Option<u32>,
    pub value: ValueModel,
}

pub open spec fn type_of(v: ValueModel) -> AvpType {
    match v {
        ValueModel::AddressIPv4(_) => AvpType::AddressIPv4,
        ValueModel::AddressIPv6(_) => AvpType::AddressIPv6,
        ValueModel::Identity(_) => AvpType::Identity,
        ValueModel::DiameterURI(_) => AvpType::DiameterURI,
        ValueModel::Enumerated(_) => AvpType::Enumerated,
        ValueModel::Float32(_) => AvpType::Float32,
        ValueModel::Float64(_) => AvpType::Float64,
        ValueModel::Grouped(_) => AvpType::Grouped,
        ValueModel::Integer32(_) => AvpType::Integer32,
        ValueModel::Integer64(_) => AvpType::Integer64,
        ValueModel::OctetString(_) => AvpType::OctetString,
        ValueModel::Time(_) => AvpType::Time,
        ValueModel::Unsigned32(_) => AvpType::Unsigned32,
        ValueModel::Unsigned64(_) => AvpType::Unsigned64,
        ValueModel::UTF8String(_) => AvpType::UTF8String,
    }
}

/// Octets in the AVP header: 12 with a vendor id, 8 without.
pub open spec fn header_len(vendor_id: Option<u32>) -> int {
    if vendor_id is Some {
        12
    } else {
        8
    }
}

/// The Diameter timestamp of an instant given in Unix seconds.
pub open spec fn diameter_seconds(unix: i64) -> int {
    unix + RFC868_OFFSET
}

/// Whether an instant has a 32-bit Diameter timestamp.
pub open spec fn time_in_range(unix: i64) -> bool {
    0 <= diameter_seconds(unix) <= u32::MAX
}

/// The value's octets on the wire, before padding.
pub open spec fn encode_value(v: ValueModel) -> Seq<u8>
    decreases v,
{
    match v {
        ValueModel::AddressIPv4(o) => o,
        ValueModel::AddressIPv6(o) => o,
        ValueModel::Identity(s) => encode_utf8(s),
        ValueModel::DiameterURI(s) => encode_utf8(s),
        ValueModel::Enumerated(x) => be32(x as u32),
        ValueModel::Float32(b) => be32(b),
        ValueModel::Float64(b) => be64(b),
        ValueModel::Grouped(kids) => encode_avps(kids),
        ValueModel::Integer32(x) => be32(x as u32),
        ValueModel::Integer64(x) => be64(x as u64),
        ValueModel::OctetString(o) => o,
        ValueModel::Time(t) => be32(diameter_seconds(t) as u32),
        ValueModel::Unsigned32(x) => be32(x),
        ValueModel::Unsigned64(x) => be64(x),
        ValueModel::UTF8String(s) => encode_utf8(s),
    }
}

/// The AVPs of a sequence encoded one after the other, in order.
pub open spec fn encode_avps(s: Seq<AvpModel>) -> Seq<u8>
    decreases s,
{
    if s.len() == 0 {
        Seq::empty()
    } else {
        encode_avp(s[0]) + encode_avps(s.subrange(1, s.len() as int))
    }
}

/// Code, flags, 24-bit length and, when present, the vendor id.
pub open spec fn header_bytes(code: u32, flags: u8, length: u32, vendor_id: Option<u32>) -> Seq<u8> {
    be32(code) + seq![flags] + be24(length) + match vendor_id {
        Some(v) => be32(v),
        None => Seq::empty(),
    }
}

pub open spec fn encode_header(m: AvpModel) -> Seq<u8> {
    header_bytes(m.code, m.flags, m.length, m.vendor_id)
}

/// An AVP on the wire: header, value octets, then zero padding to a multiple of four.
pub open spec fn encode_avp(m: AvpModel) -> Seq<u8>
    decreases m,
{
    encode_header(m) + encode_value(m.value) + zeros(padding_for(m.length as int))
}

/// The V bit of the AVP flags.
pub open spec fn vendor_bit(flags: u8) -> bool {
    flags & 0x80u8 != 0
}

/// The five reserved bits of the AVP flags.
pub open spec fn reserved_bits(flags: u8) -> u8 {
    flags & 0x1fu8
}

/// Structural validity: the length field is the header plus the value octets, the V bit
/// matches the presence of a vendor id, reserved bits are clear, addresses have their size,
/// and every nested AVP is valid too.
pub open spec fn avp_wf(m: AvpModel) -> bool
    decreases m,
{
    &&& m.length as int == header_len(m.vendor_id) + encode_value(m.value).len()
    &&& m.length < 0x100_0000
    &&& vendor_bit(m.flags) == (m.vendor_id is Some)
    &&& reserved_bits(m.flags) == 0
    &&& value_wf(m.value)
}

pub open spec fn value_wf(v: ValueModel) -> bool
    decreases v,
{
    match v {
        ValueModel::AddressIPv4(o) => o.len() == 4,
        ValueModel::AddressIPv6(o) => o.len() == 16,
        ValueModel::Grouped(kids) => avps_wf(kids),
        _ => true,
    }
}

pub open spec fn avps_wf(s: Seq<AvpModel>) -> bool
    decreases s,
{
    forall|i: int| 0 <= i < s.len() ==> avp_wf(#[trigger] s[i])
}

/// Every Time inside the AVP has a 32-bit Diameter timestamp.
pub open spec fn avp_encodable(m: AvpModel) -> bool
    decreases m,
{
    value_encodable(m.value)
}

pub open spec fn value_encodable(v: ValueModel) -> bool
    decreases v,
{
    match v {
        ValueModel::Time(t) => time_in_range(t),
        ValueModel::Grouped(kids) => avps_encodable(kids),
        _ => true,
    }
}

pub open spec fn avps_encodable(s: Seq<AvpModel>) -> bool
    decreases s,
{
    forall|i: int| 0 <= i < s.len() ==> avp_encodable(#[trigger] s[i])
}

/// The type that a dictionary, as a map, gives to a key; `Unknown` when the key is absent.
pub open spec fn lookup_type(d: Map<(u32, Option<u32>), AvpType>, code: u32, vendor_id: Option<u32>) -> AvpType {
    if d.contains_key((code, vendor_id)) {
        d[(code, vendor_id)]
    } else {
        AvpType::Unknown
    }
}

/// The dictionary gives the AVP the type of its value, and likewise for nested AVPs.
/// With `lenient`, an AVP whose code the dictionary lacks may also hold an OctetString
/// (at the top level only).
pub open spec fn avp_typed(m: AvpModel, d: Map<(u32, Option<u32>), AvpType>, lenient: bool) -> bool
    decreases m,
{
    let t = lookup_type(d, m.code, m.vendor_id);
    if t == AvpType::Unknown {
        lenient && m.value is OctetString
    } else {
        t == type_of(m.value) && value_typed(m.value, d)
    }
}

pub open spec fn value_typed(v: ValueModel, d: Map<(u32, Option<u32>), AvpType>) -> bool
    decreases v,
{
    match v {
        ValueModel::Grouped(kids) => avps_typed(kids, d),
        _ => true,
    }
}

pub open spec fn avps_typed(s: Seq<AvpModel>, d: Map<(u32, Option<u32>), AvpType>) -> bool
    decreases s,
{
    forall|i: int| 0 <= i < s.len() ==> avp_typed(#[trigger] s[i], d, false)
}

/// An AVP that the decoder, with dictionary `d`, can read back.
pub open spec fn avp_valid(m: AvpModel, d: Map<(u32, Option<u32>), AvpType>, lenient: bool) -> bool {
    avp_wf(m) && avp_encodable(m) && avp_typed(m, d, lenient)
}

pub open spec fn avps_valid(s: Seq<AvpModel>, d: Map<(u32, Option<u32>), AvpType>) -> bool {
    avps_wf(s) && avps_encodable(s) && avps_typed(s, d)
}

/// The AVP `m` is written at `b[pos..]` and ends no later than `end`.
pub open spec fn avp_at(b: Seq<u8>, pos: int, end: int, m: AvpModel) -> bool {
    &&& 0 <= pos
    &&& pos + encode_avp(m).len() <= end
    &&& end <= b.len()
    &&& b.subrange(pos, pos + encode_avp(m).len()) == encode_avp(m)
}

/// Encoding two sequences of AVPs one after the other encodes their concatenation.
pub proof fn lemma_encode_avps_append(s: Seq<AvpModel>, t: Seq<AvpModel>)
    ensures
        encode_avps(s + t) == encode_avps(s) + encode_avps(t),
    decreases s.len(),
{
    if s.len() == 0 {
        assert(s + t =~= t);
        assert(encode_avps(s) + encode_avps(t) =~= encode_avps(t));
    } else {
        let rest = s.subrange(1, s.len() as int);
        assert((s + t).subrange(1, (s + t).len() as int) =~= rest + t);
        assert((s + t)[0] == s[0]);
        lemma_encode_avps_append(rest, t);
        assert(encode_avps(s + t) =~= encode_avps(s) + encode_avps(t));
    }
}

/// Encoding one more AVP appends its octets.
pub proof fn lemma_encode_avps_push(s: Seq<AvpModel>, m: AvpModel)
    ensures
        encode_avps(s.push(m)) == encode_avps(s) + encode_avp(m),
{
    let one = seq![m];
    assert(s.push(m) =~= s + one);
    lemma_encode_avps_append(s, one);
    assert(one.subrange(1, 1) =~= Seq::<AvpModel>::empty());
    assert(encode_avps(one.subrange(1, 1)) == Seq::<u8>::empty());
    assert(one[0] == m);
    assert(encode_avps(one) =~= encode_avp(m));
}

/// A valid AVP occupies its length plus its padding on the wire.
pub proof fn lemma_encode_avp_len(m: AvpModel)
    requires
        avp_wf(m),
    ensures
        encode_avp(m).len() == m.length + padding_for(m.length as int),
        encode_avp(m).len() % 4 == 0,
        encode_avp(m).len() >= 8,
{
}


/// The header fields, value octets and padding of an AVP written at `b[pos..]` can be read
/// from the octets there.
pub proof fn lemma_avp_at_fields(b: Seq<u8>, pos: int, end: int, m: AvpModel)
    requires
        avp_wf(m),
        avp_at(b, pos, end, m),
    ensures
        u32_at(b, pos) == m.code,
        b[pos + 4] == m.flags,
        u24_at(b, pos + 5) == m.length,
        m.vendor_id matches Some(v) ==> u32_at(b, pos + 8) == v,
        encode_avp(m).len() == m.length + padding_for(m.length as int),
        b.subrange(pos + header_len(m.vendor_id), pos + m.length) == encode_value(m.value),
        b.subrange(pos + m.length, pos + m.length + padding_for(m.length as int)) == zeros(
            padding_for(m.length as int),
        ),
{
    let e = encode_avp(m);
    let h = header_len(m.vendor_id);
    let pad = padding_for(m.length as int);
    assert(forall|k: int| 0 <= k < e.len() ==> b[pos + k] == #[trigger] e[k]) by {
        assert forall|k: int| 0 <= k < e.len() implies b[pos + k] == #[trigger] e[k] by {
            assert(b.subrange(pos, pos + e.len())[k] == b[pos + k]);
        }
    }
    let hb = encode_header(m);
    assert(hb.len() == h);
    assert(forall|k: int| 0 <= k < h ==> #[trigger] e[k] == hb[k]);
    assert(e[0] == be32(m.code)[0] && e[1] == be32(m.code)[1] && e[2] == be32(m.code)[2] && e[3]
        == be32(m.code)[3]);
    lemma_u32_round_trip(m.code);
    assert(u32_at(b, pos) == u32_at(be32(m.code), 0));
    assert(e[4] == m.flags);
    assert(e[5] == be24(m.length)[0] && e[6] == be24(m.length)[1] && e[7] == be24(m.length)[2]);
    lemma_u24_round_trip(m.length);
    assert(u24_at(b, pos + 5) == u24_at(be24(m.length), 0));
    if let Some(v) = m.vendor_id {
        assert(e[8] == be32(v)[0] && e[9] == be32(v)[1] && e[10] == be32(v)[2] && e[11] == be32(
            v,
        )[3]);
        lemma_u32_round_trip(v);
        assert(u32_at(b, pos + 8) == u32_at(be32(v), 0));
    }
    let ev = encode_value(m.value);
    assert(forall|k: int| 0 <= k < ev.len() ==> #[trigger] e[h + k] == ev[k]);
    assert(b.subrange(pos + h, pos + m.length) =~= ev) by {
        assert forall|k: int| 0 <= k < ev.len() implies b.subrange(pos + h, pos + m.length)[k]
            == ev[k] by {
            assert(e[h + k] == ev[k]);
        }
    }
    assert(forall|k: int| 0 <= k < pad ==> #[trigger] e[m.length + k] == 0u8);
    assert(b.subrange(pos + m.length, pos + m.length + pad) =~= zeros(pad)) by {
        assert forall|k: int| 0 <= k < pad implies b.subrange(pos + m.length, pos + m.length + pad)[k]
            == zeros(pad)[k] by {
            assert(e[m.length + k] == 0u8);
        }
    }
}

/// An AVP at `x[i..]` inside `b[a..c]` is an AVP at `b[a + i..]`.
pub proof fn lemma_avp_at_shift(b: Seq<u8>, a: int, c: int, i: int, m: AvpModel)
    requires
        0 <= a <= c <= b.len(),
        avp_at(b.subrange(a, c), i, c - a, m),
    ensures
        avp_at(b, a + i, c, m),
{
    let e = encode_avp(m);
    assert(b.subrange(a + i, a + i + e.len()) =~= b.subrange(a, c).subrange(i, i + e.len()));
}

/// Two values of one type with the same octets are the same value.
pub proof fn lemma_value_unique(
    v1: ValueModel,
    v2: ValueModel,
    d: Map<(u32, Option<u32>), AvpType>,
)
    requires
        type_of(v1) == type_of(v2),
        value_wf(v1) && value_encodable(v1) && value_typed(v1, d),
        value_wf(v2) && value_encodable(v2) && value_typed(v2, d),
        encode_value(v1) == encode_value(v2),
    ensures
        v1 == v2,
    decreases v1,
{
    match v1 {
        ValueModel::Identity(s1) => {
            encode_utf8_decode_utf8(s1);
            encode_utf8_decode_utf8(v2->Identity_0);
        },
        ValueModel::DiameterURI(s1) => {
            encode_utf8_decode_utf8(s1);
            encode_utf8_decode_utf8(v2->DiameterURI_0);
        },
        ValueModel::UTF8String(s1) => {
            encode_utf8_decode_utf8(s1);
            encode_utf8_decode_utf8(v2->UTF8String_0);
        },
        ValueModel::Grouped(c1) => {
            let c2 = v2->Grouped_0;
            assert(v2 == ValueModel::Grouped(c2));
            assert(avps_valid(c1, d));
            assert(avps_valid(c2, d));
            lemma_avps_unique(c1, c2, d);
        },
        ValueModel::Enumerated(x1) => {
            let x2 = v2->Enumerated_0;
            lemma_be32_injective(x1 as u32, x2 as u32);
            lemma_i32_u32(x1, 0);
            lemma_i32_u32(x2, 0);
        },
        ValueModel::Integer32(x1) => {
            let x2 = v2->Integer32_0;
            lemma_be32_injective(x1 as u32, x2 as u32);
            lemma_i32_u32(x1, 0);
            lemma_i32_u32(x2, 0);
        },
        ValueModel::Integer64(x1) => {
            let x2 = v2->Integer64_0;
            lemma_be64_injective(x1 as u64, x2 as u64);
            lemma_i64_u64(x1, 0);
            lemma_i64_u64(x2, 0);
        },
        ValueModel::Float32(x1) => {
            lemma_be32_injective(x1, v2->Float32_0);
        },
        ValueModel::Float64(x1) => {
            lemma_be64_injective(x1, v2->Float64_0);
        },
        ValueModel::Unsigned32(x1) => {
            lemma_be32_injective(x1, v2->Unsigned32_0);
        },
        ValueModel::Unsigned64(x1) => {
            lemma_be64_injective(x1, v2->Unsigned64_0);
        },
        ValueModel::Time(t1) => {
            let t2 = v2->Time_0;
            lemma_be32_injective(diameter_seconds(t1) as u32, diameter_seconds(t2) as u32);
        },
        _ => {},
    }
}

/// Two valid AVPs written at the start of the same octets are the same AVP.
pub proof fn lemma_avp_unique(
    m1: AvpModel,
    m2: AvpModel,
    d: Map<(u32, Option<u32>), AvpType>,
    lenient: bool,
    x: Seq<u8>,
)
    requires
        avp_valid(m1, d, lenient),
        avp_valid(m2, d, lenient),
        avp_at(x, 0, x.len() as int, m1),
        avp_at(x, 0, x.len() as int, m2),
    ensures
        m1 == m2,
    decreases m1,
{
    lemma_avp_at_fields(x, 0, x.len() as int, m1);
    lemma_avp_at_fields(x, 0, x.len() as int, m2);
    if let Some(v1) = m1.vendor_id {
        assert(m2.vendor_id == Some(v1));
    } else {
        assert(m2.vendor_id is None);
    }
    let t = lookup_type(d, m1.code, m1.vendor_id);
    assert(type_of(m1.value) == type_of(m2.value));
    if t == AvpType::Unknown {
        assert(m1.value == m2.value);
    } else {
        lemma_value_unique(m1.value, m2.value, d);
    }
}

/// Two valid sequences of AVPs with the same octets are the same sequence.
pub proof fn lemma_avps_unique(s1: Seq<AvpModel>, s2: Seq<AvpModel>, d: Map<(u32, Option<u32>), AvpType>)
    requires
        avps_valid(s1, d),
        avps_valid(s2, d),
        encode_avps(s1) == encode_avps(s2),
    ensures
        s1 == s2,
    decreases s1,
{
    if s1.len() == 0 {
        if s2.len() > 0 {
            lemma_encode_avp_len(s2[0]);
        }
        assert(s1 =~= s2);
    } else {
        lemma_encode_avp_len(s1[0]);
        if s2.len() == 0 {
            assert(false);
        }
        let x = encode_avps(s1);
        let t1 = s1.subrange(1, s1.len() as int);
        let t2 = s2.subrange(1, s2.len() as int);
        let e1 = encode_avp(s1[0]);
        let e2 = encode_avp(s2[0]);
        assert(x.subrange(0, e1.len() as int) =~= e1);
        assert(x.subrange(0, e2.len() as int) =~= e2);
        assert(avp_valid(s1[0], d, false));
        assert(avp_valid(s2[0], d, false));
        lemma_avp_unique(s1[0], s2[0], d, false, x);
        assert(encode_avps(t1) =~= x.subrange(e1.len() as int, x.len() as int));
        assert(encode_avps(t2) =~= x.subrange(e1.len() as int, x.len() as int));
        assert(avps_valid(t1, d)) by {
            assert forall|i: int| 0 <= i < t1.len() implies avp_wf(#[trigger] t1[i]) && avp_encodable(t1[i])
                && avp_typed(t1[i], d, false) by {
                assert(t1[i] == s1[i + 1]);
            }
        }
        assert(avps_valid(t2, d)) by {
            assert forall|i: int| 0 <= i < t2.len() implies avp_wf(#[trigger] t2[i]) && avp_encodable(t2[i])
                && avp_typed(t2[i], d, false) by {
                assert(t2[i] == s2[i + 1]);
            }
        }
        lemma_avps_unique(t1, t2, d);
        assert(s1 =~= s2) by {
            assert forall|i: int| 0 <= i < s1.len() implies s1[i] == s2[i] by {
                if i > 0 {
                    assert(s1[i] == t1[i - 1]);
                    assert(s2[i] == t2[i - 1]);
                }
            }
        }
    }
}

/// When valid AVPs `acc` encode a proper prefix of the octets `x` of a valid sequence `s`,
/// the next AVP of `s` is written right after that prefix.
pub proof fn lemma_avps_next(
    s: Seq<AvpModel>,
    acc: Seq<AvpModel>,
    d: Map<(u32, Option<u32>), AvpType>,
    x: Seq<u8>,
)
    requires
        avps_valid(s, d),
        avps_valid(acc, d),
        encode_avps(s) == x,
        encode_avps(acc).len() < x.len(),
        encode_avps(acc) == x.subrange(0, encode_avps(acc).len() as int),
    ensures
        acc.len() < s.len(),
        avp_valid(s[acc.len() as int], d, false),
        avp_at(x, encode_avps(acc).len() as int, x.len() as int, s[acc.len() as int]),
    decreases acc.len(),
{
    if s.len() == 0 {
        assert(false);
    }
    let e0 = encode_avp(s[0]);
    assert(x.subrange(0, e0.len() as int) =~= e0);
    assert(avp_valid(s[0], d, false));
    if acc.len() == 0 {
        assert(encode_avps(acc).len() == 0);
    } else {
        let a0 = encode_avp(acc[0]);
        let p = encode_avps(acc);
        assert(p.subrange(0, a0.len() as int) =~= a0);
        assert(x.subrange(0, a0.len() as int) =~= a0);
        assert(avp_valid(acc[0], d, false));
        lemma_avp_unique(s[0], acc[0], d, false, x);
        let st = s.subrange(1, s.len() as int);
        let at = acc.subrange(1, acc.len() as int);
        let l = e0.len() as int;
        let xt = x.subrange(l, x.len() as int);
        assert(encode_avps(st) =~= xt);
        assert(encode_avps(at) =~= p.subrange(l, p.len() as int));
        assert(encode_avps(at) =~= xt.subrange(0, encode_avps(at).len() as int));
        assert(avps_valid(st, d)) by {
            assert forall|i: int| 0 <= i < st.len() implies avp_wf(#[trigger] st[i]) && avp_encodable(st[i])
                && avp_typed(st[i], d, false) by {
                assert(st[i] == s[i + 1]);
            }
        }
        assert(avps_valid(at, d)) by {
            assert forall|i: int| 0 <= i < at.len() implies avp_wf(#[trigger] at[i]) && avp_encodable(at[i])
                && avp_typed(at[i], d, false) by {
                assert(at[i] == acc[i + 1]);
            }
        }
        lemma_avps_next(st, at, d, xt);
        assert(st[at.len() as int] == s[acc.len() as int]);
        let m = s[acc.len() as int];
        let q = encode_avps(at).len() as int;
        assert(x.subrange(l + q, l + q + encode_avp(m).len()) =~= xt.subrange(q, q + encode_avp(m).len()));
    }
}

} // verus!

//! The leaf value types of AVPs and their wire codecs.
use vstd::prelude::*;
use vstd::array::array_as_slice;
use vstd::utf8::{decode_utf8, encode_utf8, valid_utf8};
use crate::errors::{DiameterResult, Error};
use crate::model::{diameter_seconds, time_in_range, RFC868_OFFSET};
use crate::wire::{
    be32, be64, copy_range, lemma_i32_u32, lemma_i64_u64, lemma_u32_bytes, lemma_u64_bytes,
    push_bytes, push_u32, push_u64, read_u32, read_u64, slice_len_fits,
};
use chrono::TimeZone;

verus! {

/// The payload of one AVP value type.
#[derive(Debug, PartialEq)]
pub struct AvpData<T>(pub T);

impl<T> AvpData<T> {
    pub fn new(data: T) -> (r: Self)
        ensures
            r.0 == data,
    {
        AvpData(data)
    }

    pub fn value(&self) -> (r: &T)
        ensures
            *r == self.0,
    {
        &self.0
    }
}

/// An IEEE 754 single-precision number, held as its bit pattern.
#[derive(Debug, Clone, Copy, PartialEq, Eq)]
pub struct Binary32 {
    pub bits: u32,
}

/// An IEEE 754 double-precision number, held as its bit pattern.
#[derive(Debug, Clone, Copy, PartialEq, Eq)]
pub struct Binary64 {
    pub bits: u64,
}

/// An instant, in whole seconds since 1970-01-01T00:00:00Z.
#[derive(Debug, Clone, Copy, PartialEq, Eq)]
pub struct UnixTime {
    pub seconds: i64,
}

pub type OctetString = AvpData<Vec<u8>>;

pub type UTF8String = AvpData<String>;

pub type Identity = UTF8String;

pub type DiameterURI = UTF8String;

pub type Integer32 = AvpData<i32>;

pub type Enumerated = Integer32;

pub type Integer64 = AvpData<i64>;

pub type Unsigned32 = AvpData<u32>;

pub type Unsigned64 = AvpData<u64>;

pub type Float32 = AvpData<Binary32>;

pub type Float64 = AvpData<Binary64>;

pub type IPv4 = AvpData<[u8; 4]>;

pub type IPv6 = AvpData<[u8; 16]>;

pub type Time = AvpData<UnixTime>;

impl OctetString {
    /// Octets on the wire.
    pub fn len(&self) -> (r: u32)
        requires
            self.0@.len() <= u32::MAX,
        ensures
            r == self.0@.len(),
    {
        self.0.len() as u32
    }

    pub fn encode_to(&self, buf: &mut Vec<u8>)
        ensures
            final(buf)@ == old(buf)@ + self.0@,
    {
        push_bytes(buf, self.0.as_slice());
    }
}

impl UTF8String {
    pub fn from_str(value: &'static str) -> (r: Self)
        ensures
            r.0@ == value@,
    {
        AvpData(value.to_string())
    }

    /// Octets of the UTF-8 form.
    pub fn len(&self) -> (r: u32)
        requires
            encode_utf8(self.0@).len() <= u32::MAX,
        ensures
            r == encode_utf8(self.0@).len(),
    {
        self.0.as_str().len() as u32
    }

    pub fn encode_to(&self, buf: &mut Vec<u8>)
        ensures
            final(buf)@ == old(buf)@ + encode_utf8(self.0@),
    {
        push_bytes(buf, self.0.as_str().as_bytes());
    }
}

impl Integer32 {
    pub fn len(&self) -> (r: u32)
        ensures
            r == 4,
    {
        4
    }

    pub fn encode_to(&self, buf: &mut Vec<u8>)
        ensures
            final(buf)@ == old(buf)@ + be32(self.0 as u32),
    {
        push_u32(buf, self.0 as u32);
    }
}

impl Integer64 {
    pub fn len(&self) -> (r: u32)
        ensures
            r == 8,
    {
        8
    }

    pub fn encode_to(&self, buf: &mut Vec<u8>)
        ensures
            final(buf)@ == old(buf)@ + be64(self.0 as u64),
    {
        push_u64(buf, self.0 as u64);
    }
}

impl Unsigned32 {
    pub fn len(&self) -> (r: u32)
        ensures
            r == 4,
    {
        4
    }

    pub fn encode_to(&self, buf: &mut Vec<u8>)
        ensures
            final(buf)@ == old(buf)@ + be32(self.0),
    {
        push_u32(buf, self.0);
    }
}

impl Unsigned64 {
    pub fn len(&self) -> (r: u32)
        ensures
            r == 8,
    {
        8
    }

    pub fn encode_to(&self, buf: &mut Vec<u8>)
        ensures
            final(buf)@ == old(buf)@ + be64(self.0),
    {
        push_u64(buf, self.0);
    }
}

impl Float32 {
    pub fn len(&self) -> (r: u32)
        ensures
            r == 4,
    {
        4
    }

    pub fn encode_to(&self, buf: &mut Vec<u8>)
        ensures
            final(buf)@ == old(buf)@ + be32(self.0.bits),
    {
        push_u32(buf, self.0.bits);
    }
}

impl Float64 {
    pub fn len(&self) -> (r: u32)
        ensures
            r == 8,
    {
        8
    }

    pub fn encode_to(&self, buf: &mut Vec<u8>)
        ensures
            final(buf)@ == old(buf)@ + be64(self.0.bits),
    {
        push_u64(buf, self.0.bits);
    }
}

impl IPv4 {
    pub fn len(&self) -> (r: u32)
        ensures
            r == 4,
    {
        4
    }

    pub fn encode_to(&self, buf: &mut Vec<u8>)
        ensures
            final(buf)@ == old(buf)@ + self.0@,
    {
        push_bytes(buf, array_as_slice(&self.0));
    }
}

impl IPv6 {
    pub fn len(&self) -> (r: u32)
        ensures
            r == 16,
    {
        16
    }

    pub fn encode_to(&self, buf: &mut Vec<u8>)
        ensures
            final(buf)@ == old(buf)@ + self.0@,
    {
        push_bytes(buf, array_as_slice(&self.0));
    }
}

impl Time {
    pub fn len(&self) -> (r: u32)
        ensures
            r == 4,
    {
        4
    }

    /// Writes the seconds since 1900-01-01T00:00:00Z as a 32-bit word; an instant before
    /// 1900 or after 2036-02-07T06:28:15Z has no such word.
    pub fn encode_to(&self, buf: &mut Vec<u8>) -> (r: DiameterResult<()>)
        ensures
            r is Ok <==> time_in_range(self.0.seconds),
            r is Ok ==> final(buf)@ == old(buf)@ + be32(diameter_seconds(self.0.seconds) as u32),
            r matches Err(e) ==> e == Error::EncodeError("time out of range"),
            r is Err ==> final(buf)@ == old(buf)@,
    {
        let secs = self.0.seconds;
        if secs < -(RFC868_OFFSET as i64) || secs > u32::MAX as i64 - RFC868_OFFSET as i64 {
            return Err(Error::EncodeError("time out of range"));
        }
        push_u32(buf, (secs + RFC868_OFFSET as i64) as u32);
        Ok(())
    }
}


/// Relies on `String::from_utf8`: it accepts exactly the valid UTF-8 sequences, and the
/// string it returns holds the characters those octets encode.
#[verifier::external_body]
fn string_from_utf8(bytes: Vec<u8>) -> (r: Option<String>)
    ensures
        r is Some <==> valid_utf8(bytes@),
        r matches Some(s) ==> s@ == decode_utf8(bytes@),
{
    String::from_utf8(bytes).ok()
}

/// Relies on chrono's `Utc.timestamp_opt(secs, 0).single()`: chrono represents every instant
/// between the years -262143 and 262142, which holds every instant within 2^40 seconds of the
/// Unix epoch.
#[verifier::external_body]
fn utc_instant_exists(secs: i64) -> (r: bool)
    ensures
        -0x100_0000_0000 <= secs <= 0x100_0000_0000 ==> r,
{
    chrono::Utc.timestamp_opt(secs, 0).single().is_some()
}

impl OctetString {
    /// The `length` octets at `b[pos..]`.
    pub fn decode_from(b: &[u8], pos: usize, length: usize) -> (r: DiameterResult<Self>)
        requires
            pos + length <= b@.len(),
        ensures
            r matches Ok(v) && v.0@ == b@.subrange(pos as int, pos + length),
    {
        Ok(AvpData(copy_range(b, pos, length)))
    }
}

impl UTF8String {
    /// The text whose UTF-8 form is the `length` octets at `b[pos..]`.
    pub fn decode_from(b: &[u8], pos: usize, length: usize) -> (r: DiameterResult<Self>)
        requires
            pos + length <= b@.len(),
        ensures
            r is Ok <==> valid_utf8(b@.subrange(pos as int, pos + length)),
            r matches Ok(v) ==> encode_utf8(v.0@) == b@.subrange(pos as int, pos + length),
            r matches Err(e) ==> e == Error::DecodeError("invalid UTF-8"),
    {
        let bytes = copy_range(b, pos, length);
        match string_from_utf8(bytes) {
            Some(text) => {
                proof {
                    vstd::utf8::decode_utf8_encode_utf8(b@.subrange(pos as int, pos + length));
                }
                Ok(AvpData(text))
            },
            None => Err(Error::DecodeError("invalid UTF-8")),
        }
    }
}

impl Integer32 {
    pub fn decode_from(b: &[u8], pos: usize, length: usize) -> (r: DiameterResult<Self>)
        requires
            pos + length <= b@.len(),
        ensures
            r is Ok <==> length == 4,
            r matches Ok(v) ==> be32(v.0 as u32) == b@.subrange(pos as int, pos + length),
            r matches Err(e) ==> e == Error::DecodeError("invalid AVP length"),
    {
        if length != 4 {
            return Err(Error::DecodeError("invalid AVP length"));
        }
        let u = read_u32(b, pos);
        proof {
            lemma_u32_bytes(b@, pos as int);
            lemma_i32_u32(0, u);
        }
        Ok(AvpData(u as i32))
    }
}

impl Integer64 {
    pub fn decode_from(b: &[u8], pos: usize, length: usize) -> (r: DiameterResult<Self>)
        requires
            pos + length <= b@.len(),
        ensures
            r is Ok <==> length == 8,
            r matches Ok(v) ==> be64(v.0 as u64) == b@.subrange(pos as int, pos + length),
            r matches Err(e) ==> e == Error::DecodeError("invalid AVP length"),
    {
        if length != 8 {
            return Err(Error::DecodeError("invalid AVP length"));
        }
        let u = read_u64(b, pos);
        proof {
            lemma_u64_bytes(b@, pos as int);
            lemma_i64_u64(0, u);
        }
        Ok(AvpData(u as i64))
    }
}

impl Unsigned32 {
    pub fn decode_from(b: &[u8], pos: usize, length: usize) -> (r: DiameterResult<Self>)
        requires
            pos + length <= b@.len(),
        ensures
            r is Ok <==> length == 4,
            r matches Ok(v) ==> be32(v.0) == b@.subrange(pos as int, pos + length),
            r matches Err(e) ==> e == Error::DecodeError("invalid AVP length"),
    {
        if length != 4 {
            return Err(Error::DecodeError("invalid AVP length"));
        }
        proof {
            lemma_u32_bytes(b@, pos as int);
        }
        Ok(AvpData(read_u32(b, pos)))
    }
}

impl Unsigned64 {
    pub fn decode_from(b: &[u8], pos: usize, length: usize) -> (r: DiameterResult<Self>)
        requires
            pos + length <= b@.len(),
        ensures
            r is Ok <==> length == 8,
            r matches Ok(v) ==> be64(v.0) == b@.subrange(pos as int, pos + length),
            r matches Err(e) ==> e == Error::DecodeError("invalid AVP length"),
    {
        if length != 8 {
            return Err(Error::DecodeError("invalid AVP length"));
        }
        proof {
            lemma_u64_bytes(b@, pos as int);
        }
        Ok(AvpData(read_u64(b, pos)))
    }
}

impl Float32 {
    pub fn decode_from(b: &[u8], pos: usize, length: usize) -> (r: DiameterResult<Self>)
        requires
            pos + length <= b@.len(),
        ensures
            r is Ok <==> length == 4,
            r matches Ok(v) ==> be32(v.0.bits) == b@.subrange(pos as int, pos + length),
            r matches Err(e) ==> e == Error::DecodeError("invalid AVP length"),
    {
        if length != 4 {
            return Err(Error::DecodeError("invalid AVP length"));
        }
        proof {
            lemma_u32_bytes(b@, pos as int);
        }
        Ok(AvpData(Binary32 { bits: read_u32(b, pos) }))
    }
}

impl Float64 {
    pub fn decode_from(b: &[u8], pos: usize, length: usize) -> (r: DiameterResult<Self>)
        requires
            pos + length <= b@.len(),
        ensures
            r is Ok <==> length == 8,
            r matches Ok(v) ==> be64(v.0.bits) == b@.subrange(pos as int, pos + length),
            r matches Err(e) ==> e == Error::DecodeError("invalid AVP length"),
    {
        if length != 8 {
            return Err(Error::DecodeError("invalid AVP length"));
        }
        proof {
            lemma_u64_bytes(b@, pos as int);
        }
        Ok(AvpData(Binary64 { bits: read_u64(b, pos) }))
    }
}

impl IPv4 {
    pub fn decode_from(b: &[u8], pos: usize, length: usize) -> (r: DiameterResult<Self>)
        requires
            pos + length <= b@.len(),
        ensures
            r is Ok <==> length == 4,
            r matches Ok(v) ==> v.0@ == b@.subrange(pos as int, pos + length),
            r matches Err(e) ==> e == Error::DecodeError("invalid AVP length"),
    {
        if length != 4 {
            return Err(Error::DecodeError("invalid AVP length"));
        }
        let octets: [u8; 4] = [b[pos], b[pos + 1], b[pos + 2], b[pos + 3]];
        assert(octets@ =~= b@.subrange(pos as int, pos + length));
        Ok(AvpData(octets))
    }
}

impl IPv6 {
    pub fn decode_from(b: &[u8], pos: usize, length: usize) -> (r: DiameterResult<Self>)
        requires
            pos + length <= b@.len(),
        ensures
            r is Ok <==> length == 16,
            r matches Ok(v) ==> v.0@ == b@.subrange(pos as int, pos + length),
            r matches Err(e) ==> e == Error::DecodeError("invalid AVP length"),
    {
        if length != 16 {
            return Err(Error::DecodeError("invalid AVP length"));
        }
        slice_len_fits(b);
        let mut octets: [u8; 16] = [0u8; 16];
        let mut i: usize = 0;
        while i < 16
            invariant
                i <= 16,
                pos + 16 <= b@.len() <= usize::MAX,
                octets@.len() == 16,
                forall|j: int| 0 <= j < i ==> octets@[j] == b@[pos + j],
            decreases 16 - i,
        {
            octets[i] = b[pos + i];
            i = i + 1;
        }
        assert(octets@ =~= b@.subrange(pos as int, pos + length));
        Ok(AvpData(octets))
    }
}

impl Time {
    /// The instant whose Diameter timestamp is the 32-bit word at `b[pos..]`.
    pub fn decode_from(b: &[u8], pos: usize, length: usize) -> (r: DiameterResult<Self>)
        requires
            pos + length <= b@.len(),
        ensures
            r is Ok <==> length == 4,
            r matches Ok(v) ==> time_in_range(v.0.seconds) && be32(
                diameter_seconds(v.0.seconds) as u32,
            ) == b@.subrange(pos as int, pos + length),
            r matches Err(e) ==> e == Error::DecodeError("invalid AVP length"),
    {
        if length != 4 {
            return Err(Error::DecodeError("invalid AVP length"));
        }
        let stamp = read_u32(b, pos);
        let unix = stamp as i64 - RFC868_OFFSET as i64;
        if !utc_instant_exists(unix) {
            return Err(Error::DecodeError("invalid time"));
        }
        proof {
            lemma_u32_bytes(b@, pos as int);
        }
        Ok(AvpData(UnixTime { seconds: unix }))
    }
}


} // verus!

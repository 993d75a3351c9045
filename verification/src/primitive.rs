//! Values of a fixed-size type, decoded from their stored bytes.

use vstd::prelude::*;
use crate::channel_data::{all_sized, not_found_message, mismatch_message, raw_values_view, segments_values};
use crate::endian::{
    le_bytes_u16, le_bytes_u32, le_bytes_u64, lemma_le_u16_roundtrip, lemma_le_u32_roundtrip,
    lemma_le_u64_roundtrip, push_u16_le, push_u32_le, push_u64_le, read_u16_at, read_u32_at, read_u64_at,
    u16_at, u32_at, u64_at,
};
use crate::error::TdmsError;
use crate::file::{segments_view, TdmsFile};
use crate::types::{DataType, TdmsTimestamp};

verus! {

/// A type whose values a channel can hold, each in a fixed number of bytes.
pub trait TdmsPrimitive: Sized {
    /// The stored type of the values.
    spec fn spec_data_type() -> DataType;

    /// The value that `bytes` store in the given byte order.
    spec fn spec_decode(bytes: Seq<u8>, big_endian: bool) -> Self;

    fn data_type() -> (r: DataType)
        ensures
            r == Self::spec_data_type(),
            r.spec_element_size() matches Some(n) && n > 0;

    fn decode(bytes: &[u8], big_endian: bool) -> (r: Self)
        requires
            Self::spec_data_type().spec_element_size() matches Some(n) && bytes@.len() == n,
        ensures
            r == Self::spec_decode(bytes@, big_endian);

    /// The little-endian bytes that store `x`.
    spec fn spec_encode(x: Self) -> Seq<u8>;

    /// Appends the little-endian bytes that store the value.
    fn push_le(&self, out: &mut Vec<u8>)
        ensures
            final(out)@ == old(out)@ + Self::spec_encode(*self);

    /// A value's stored bytes are as many as the type's size, and decode to it.
    proof fn lemma_encode_decode(x: Self)
        ensures
            Self::spec_data_type().spec_element_size() matches Some(n) && n > 0 && Self::spec_encode(x).len() == n,
            Self::spec_decode(Self::spec_encode(x), false) == x;
}

impl TdmsPrimitive for u8 {
    open spec fn spec_data_type() -> DataType { DataType::U8 }
    open spec fn spec_decode(bytes: Seq<u8>, big_endian: bool) -> u8 { bytes[0] }
    fn data_type() -> (r: DataType) { DataType::U8 }
    fn decode(bytes: &[u8], big_endian: bool) -> (r: u8) { bytes[0] }
    open spec fn spec_encode(x: u8) -> Seq<u8> { seq![x] }
    fn push_le(&self, out: &mut Vec<u8>) {
        out.push(*self);
        proof {
            assert(out@ =~= old(out)@ + Self::spec_encode(*self));
        }
    }
    proof fn lemma_encode_decode(x: u8) {
        
    }
}

impl TdmsPrimitive for i8 {
    open spec fn spec_data_type() -> DataType { DataType::I8 }
    open spec fn spec_decode(bytes: Seq<u8>, big_endian: bool) -> i8 { bytes[0] as i8 }
    fn data_type() -> (r: DataType) { DataType::I8 }
    fn decode(bytes: &[u8], big_endian: bool) -> (r: i8) { bytes[0] as i8 }
    open spec fn spec_encode(x: i8) -> Seq<u8> { seq![x as u8] }
    fn push_le(&self, out: &mut Vec<u8>) {
        out.push(*self as u8);
        proof {
            assert(out@ =~= old(out)@ + Self::spec_encode(*self));
        }
    }
    proof fn lemma_encode_decode(x: i8) {
        assert((x as u8) as i8 == x) by (bit_vector);
    }
}

impl TdmsPrimitive for bool {
    open spec fn spec_data_type() -> DataType { DataType::Boolean }
    open spec fn spec_decode(bytes: Seq<u8>, big_endian: bool) -> bool { bytes[0] != 0 }
    fn data_type() -> (r: DataType) { DataType::Boolean }
    fn decode(bytes: &[u8], big_endian: bool) -> (r: bool) { bytes[0] != 0 }
    open spec fn spec_encode(x: bool) -> Seq<u8> { seq![if x { 1u8 } else { 0u8 }] }
    fn push_le(&self, out: &mut Vec<u8>) {
        out.push(if *self { 1 } else { 0 });
        proof {
            assert(out@ =~= old(out)@ + Self::spec_encode(*self));
        }
    }
    proof fn lemma_encode_decode(x: bool) {
        
    }
}

impl TdmsPrimitive for u16 {
    open spec fn spec_data_type() -> DataType { DataType::U16 }
    open spec fn spec_decode(bytes: Seq<u8>, big_endian: bool) -> u16 { u16_at(bytes, 0, big_endian) }
    fn data_type() -> (r: DataType) { DataType::U16 }
    fn decode(bytes: &[u8], big_endian: bool) -> (r: u16) { read_u16_at(bytes, 0, big_endian) }
    open spec fn spec_encode(x: u16) -> Seq<u8> { le_bytes_u16(x) }
    fn push_le(&self, out: &mut Vec<u8>) {
        push_u16_le(out, *self);
        proof {
            assert(out@ =~= old(out)@ + Self::spec_encode(*self));
        }
    }
    proof fn lemma_encode_decode(x: u16) {
        lemma_le_u16_roundtrip(Seq::empty(), x, Seq::empty());
        assert(Seq::<u8>::empty() + le_bytes_u16(x) + Seq::<u8>::empty() =~= le_bytes_u16(x));
    }
}

impl TdmsPrimitive for i16 {
    open spec fn spec_data_type() -> DataType { DataType::I16 }
    open spec fn spec_decode(bytes: Seq<u8>, big_endian: bool) -> i16 { u16_at(bytes, 0, big_endian) as i16 }
    fn data_type() -> (r: DataType) { DataType::I16 }
    fn decode(bytes: &[u8], big_endian: bool) -> (r: i16) { read_u16_at(bytes, 0, big_endian) as i16 }
    open spec fn spec_encode(x: i16) -> Seq<u8> { le_bytes_u16(x as u16) }
    fn push_le(&self, out: &mut Vec<u8>) {
        push_u16_le(out, *self as u16);
        proof {
            assert(out@ =~= old(out)@ + Self::spec_encode(*self));
        }
    }
    proof fn lemma_encode_decode(x: i16) {
        lemma_le_u16_roundtrip(Seq::empty(), x as u16, Seq::empty());
        assert(Seq::<u8>::empty() + le_bytes_u16(x as u16) + Seq::<u8>::empty() =~= le_bytes_u16(x as u16));
        assert((x as u16) as i16 == x) by (bit_vector);
    }
}

impl TdmsPrimitive for u32 {
    open spec fn spec_data_type() -> DataType { DataType::U32 }
    open spec fn spec_decode(bytes: Seq<u8>, big_endian: bool) -> u32 { u32_at(bytes, 0, big_endian) }
    fn data_type() -> (r: DataType) { DataType::U32 }
    fn decode(bytes: &[u8], big_endian: bool) -> (r: u32) { read_u32_at(bytes, 0, big_endian) }
    open spec fn spec_encode(x: u32) -> Seq<u8> { le_bytes_u32(x) }
    fn push_le(&self, out: &mut Vec<u8>) {
        push_u32_le(out, *self);
        proof {
            assert(out@ =~= old(out)@ + Self::spec_encode(*self));
        }
    }
    proof fn lemma_encode_decode(x: u32) {
        lemma_le_u32_roundtrip(Seq::empty(), x, Seq::empty());
        assert(Seq::<u8>::empty() + le_bytes_u32(x) + Seq::<u8>::empty() =~= le_bytes_u32(x));
    }
}

impl TdmsPrimitive for i32 {
    open spec fn spec_data_type() -> DataType { DataType::I32 }
    open spec fn spec_decode(bytes: Seq<u8>, big_endian: bool) -> i32 { u32_at(bytes, 0, big_endian) as i32 }
    fn data_type() -> (r: DataType) { DataType::I32 }
    fn decode(bytes: &[u8], big_endian: bool) -> (r: i32) { read_u32_at(bytes, 0, big_endian) as i32 }
    open spec fn spec_encode(x: i32) -> Seq<u8> { le_bytes_u32(x as u32) }
    fn push_le(&self, out: &mut Vec<u8>) {
        push_u32_le(out, *self as u32);
        proof {
            assert(out@ =~= old(out)@ + Self::spec_encode(*self));
        }
    }
    proof fn lemma_encode_decode(x: i32) {
        lemma_le_u32_roundtrip(Seq::empty(), x as u32, Seq::empty());
        assert(Seq::<u8>::empty() + le_bytes_u32(x as u32) + Seq::<u8>::empty() =~= le_bytes_u32(x as u32));
        assert((x as u32) as i32 == x) by (bit_vector);
    }
}

impl TdmsPrimitive for u64 {
    open spec fn spec_data_type() -> DataType { DataType::U64 }
    open spec fn spec_decode(bytes: Seq<u8>, big_endian: bool) -> u64 { u64_at(bytes, 0, big_endian) }
    fn data_type() -> (r: DataType) { DataType::U64 }
    fn decode(bytes: &[u8], big_endian: bool) -> (r: u64) { read_u64_at(bytes, 0, big_endian) }
    open spec fn spec_encode(x: u64) -> Seq<u8> { le_bytes_u64(x) }
    fn push_le(&self, out: &mut Vec<u8>) {
        push_u64_le(out, *self);
        proof {
            assert(out@ =~= old(out)@ + Self::spec_encode(*self));
        }
    }
    proof fn lemma_encode_decode(x: u64) {
        lemma_le_u64_roundtrip(Seq::empty(), x, Seq::empty());
        assert(Seq::<u8>::empty() + le_bytes_u64(x) + Seq::<u8>::empty() =~= le_bytes_u64(x));
    }
}

impl TdmsPrimitive for i64 {
    open spec fn spec_data_type() -> DataType { DataType::I64 }
    open spec fn spec_decode(bytes: Seq<u8>, big_endian: bool) -> i64 { u64_at(bytes, 0, big_endian) as i64 }
    fn data_type() -> (r: DataType) { DataType::I64 }
    fn decode(bytes: &[u8], big_endian: bool) -> (r: i64) { read_u64_at(bytes, 0, big_endian) as i64 }
    open spec fn spec_encode(x: i64) -> Seq<u8> { le_bytes_u64(x as u64) }
    fn push_le(&self, out: &mut Vec<u8>) {
        push_u64_le(out, *self as u64);
        proof {
            assert(out@ =~= old(out)@ + Self::spec_encode(*self));
        }
    }
    proof fn lemma_encode_decode(x: i64) {
        lemma_le_u64_roundtrip(Seq::empty(), x as u64, Seq::empty());
        assert(Seq::<u8>::empty() + le_bytes_u64(x as u64) + Seq::<u8>::empty() =~= le_bytes_u64(x as u64));
        assert((x as u64) as i64 == x) by (bit_vector);
    }
}

impl TdmsPrimitive for TdmsTimestamp {
    open spec fn spec_data_type() -> DataType { DataType::Timestamp }
    /// The fraction, then the seconds.
    open spec fn spec_decode(bytes: Seq<u8>, big_endian: bool) -> TdmsTimestamp {
        TdmsTimestamp { fraction: u64_at(bytes, 0, big_endian), seconds: u64_at(bytes, 8, big_endian) as i64 }
    }
    fn data_type() -> (r: DataType) { DataType::Timestamp }
    fn decode(bytes: &[u8], big_endian: bool) -> (r: TdmsTimestamp) {
        TdmsTimestamp {
            fraction: read_u64_at(bytes, 0, big_endian),
            seconds: read_u64_at(bytes, 8, big_endian) as i64,
        }
    }
    /// The fraction, then the seconds.
    open spec fn spec_encode(x: TdmsTimestamp) -> Seq<u8> {
        le_bytes_u64(x.fraction) + le_bytes_u64(x.seconds as u64)
    }
    fn push_le(&self, out: &mut Vec<u8>) {
        push_u64_le(out, self.fraction);
        push_u64_le(out, self.seconds as u64);
    }
    proof fn lemma_encode_decode(x: TdmsTimestamp) {
        let a = le_bytes_u64(x.fraction);
        let b = le_bytes_u64(x.seconds as u64);
        lemma_le_u64_roundtrip(Seq::empty(), x.fraction, b);
        assert(Seq::<u8>::empty() + a + b =~= a + b);
        lemma_le_u64_roundtrip(a, x.seconds as u64, Seq::empty());
        assert(a + b + Seq::<u8>::empty() =~= a + b);
        let sec = x.seconds;
        assert((sec as u64) as i64 == sec) by (bit_vector);
    }
}

/// The number that the `n` bytes from `p` make, most significant first.
pub open spec fn bytes_be(b: Seq<u8>, p: int, n: nat) -> int
    decreases n,
{
    if n == 0 { 0 } else { bytes_be(b, p, (n - 1) as nat) * 0x100 + b[p + n - 1] }
}

/// The number that the `n` bytes from `p` make, least significant first.
pub open spec fn bytes_le(b: Seq<u8>, p: int, n: nat) -> int
    decreases n,
{
    if n == 0 { 0 } else { b[p] + 0x100 * bytes_le(b, p + 1, (n - 1) as nat) }
}

proof fn lemma_bytes_2(b: Seq<u8>, p: int)
    ensures
        bytes_be(b, p, 2) == b[p] * 0x100 + b[p + 1],
        bytes_le(b, p, 2) == b[p] + b[p + 1] * 0x100,
{
    reveal_with_fuel(bytes_be, 3);
    reveal_with_fuel(bytes_le, 3);
}

proof fn lemma_bytes_4(b: Seq<u8>, p: int)
    ensures
        bytes_be(b, p, 4) == b[p] * 0x100_0000 + b[p + 1] * 0x1_0000 + b[p + 2] * 0x100 + b[p + 3],
        bytes_le(b, p, 4) == b[p] + b[p + 1] * 0x100 + b[p + 2] * 0x1_0000 + b[p + 3] * 0x100_0000,
{
    reveal_with_fuel(bytes_be, 5);
    reveal_with_fuel(bytes_le, 5);
}

proof fn lemma_bytes_8(b: Seq<u8>, p: int)
    ensures
        bytes_be(b, p, 8) == bytes_be(b, p, 4) * 0x1_0000_0000 + bytes_be(b, p + 4, 4),
        bytes_le(b, p, 8) == bytes_le(b, p, 4) + bytes_le(b, p + 4, 4) * 0x1_0000_0000,
{
    reveal_with_fuel(bytes_be, 9);
    reveal_with_fuel(bytes_le, 9);
    lemma_bytes_4(b, p);
    lemma_bytes_4(b, p + 4);
}

/// Decoding reads the bytes in the byte order of their segment: most
/// significant first where it is big-endian, least significant first where it
/// is little-endian; a signed value is the same bits read as signed; a
/// timestamp is its fraction, then its seconds, each so read; a boolean is
/// true where its byte is not zero.
pub proof fn lemma_decode_byte_order(b: Seq<u8>)
    ensures
        b.len() >= 1 ==> <u8 as TdmsPrimitive>::spec_decode(b, true) == b[0]
            && <u8 as TdmsPrimitive>::spec_decode(b, false) == b[0],
        b.len() >= 1 ==> <i8 as TdmsPrimitive>::spec_decode(b, true) == b[0] as i8
            && <i8 as TdmsPrimitive>::spec_decode(b, false) == b[0] as i8,
        b.len() >= 1 ==> <bool as TdmsPrimitive>::spec_decode(b, true) == (b[0] != 0)
            && <bool as TdmsPrimitive>::spec_decode(b, false) == (b[0] != 0),
        b.len() >= 2 ==> <u16 as TdmsPrimitive>::spec_decode(b, true) == bytes_be(b, 0, 2)
            && <u16 as TdmsPrimitive>::spec_decode(b, false) == bytes_le(b, 0, 2),
        b.len() >= 2 ==> <i16 as TdmsPrimitive>::spec_decode(b, true) == bytes_be(b, 0, 2) as i16
            && <i16 as TdmsPrimitive>::spec_decode(b, false) == bytes_le(b, 0, 2) as i16,
        b.len() >= 4 ==> <u32 as TdmsPrimitive>::spec_decode(b, true) == bytes_be(b, 0, 4)
            && <u32 as TdmsPrimitive>::spec_decode(b, false) == bytes_le(b, 0, 4),
        b.len() >= 4 ==> <i32 as TdmsPrimitive>::spec_decode(b, true) == bytes_be(b, 0, 4) as i32
            && <i32 as TdmsPrimitive>::spec_decode(b, false) == bytes_le(b, 0, 4) as i32,
        b.len() >= 8 ==> <u64 as TdmsPrimitive>::spec_decode(b, true) == bytes_be(b, 0, 8)
            && <u64 as TdmsPrimitive>::spec_decode(b, false) == bytes_le(b, 0, 8),
        b.len() >= 8 ==> <i64 as TdmsPrimitive>::spec_decode(b, true) == bytes_be(b, 0, 8) as i64
            && <i64 as TdmsPrimitive>::spec_decode(b, false) == bytes_le(b, 0, 8) as i64,
        b.len() >= 16 ==> <TdmsTimestamp as TdmsPrimitive>::spec_decode(b, true)
            == (TdmsTimestamp { fraction: bytes_be(b, 0, 8) as u64, seconds: bytes_be(b, 8, 8) as i64 }),
        b.len() >= 16 ==> <TdmsTimestamp as TdmsPrimitive>::spec_decode(b, false)
            == (TdmsTimestamp { fraction: bytes_le(b, 0, 8) as u64, seconds: bytes_le(b, 8, 8) as i64 }),
{
    lemma_bytes_2(b, 0);
    lemma_bytes_4(b, 0);
    lemma_bytes_8(b, 0);
    lemma_bytes_4(b, 4);
    lemma_bytes_8(b, 8);
    lemma_bytes_4(b, 8);
    lemma_bytes_4(b, 12);
}

/// The values that stored bytes decode to.
pub open spec fn decoded<T: TdmsPrimitive>(vs: Seq<(Seq<u8>, bool)>) -> Seq<T> {
    vs.map_values(|v: (Seq<u8>, bool)| T::spec_decode(v.0, v.1))
}

impl TdmsFile {
    /// Read raw data for a specific channel as a vector of typed primitives.
    pub fn read_channel_data<T: TdmsPrimitive>(&self, group_name: &str, channel_name: &str) -> (r: Result<Vec<T>, TdmsError>)
        ensures
            !(self.groups@.dom().contains(group_name@)
                && self.groups@[group_name@].channels.dom().contains(channel_name@))
                ==> (r matches Err(TdmsError::CorruptedMetadata { offset, reason })
                    && offset == 0 && reason@ == not_found_message(group_name@, channel_name@)),
            (self.groups@.dom().contains(group_name@)
                && self.groups@[group_name@].channels.dom().contains(channel_name@))
                ==> ({
                    let ch = self.groups@[group_name@].channels[channel_name@];
                    let dtype = T::spec_data_type();
                    if ch.data_type matches Some(d) && d != dtype {
                        r matches Err(TdmsError::CorruptedMetadata { offset, reason })
                            && offset == 0 && reason@ == mismatch_message(dtype, ch.data_type->0)
                    } else {
                        match segments_values(segments_view(self.segments@), self.bytes(),
                            group_name@, channel_name@, dtype.spec_element_size()->0 as int, self.segments@.len()) {
                            Ok(vs) => r matches Ok(v) && v@ == decoded::<T>(vs),
                            Err(x) => r matches Err(y) && y == x,
                        }
                    }
                }),
    {
        let dtype = T::data_type();
        let values = self.read_channel_values(group_name, channel_name, dtype)?;
        let ghost e = dtype.spec_element_size()->0 as int;
        let mut out: Vec<T> = Vec::new();
        let mut i: usize = 0;
        while i < values.len()
            invariant
                i <= values@.len(),
                all_sized(raw_values_view(values@), e),
                dtype == T::spec_data_type(),
                dtype.spec_element_size() matches Some(n) && n == e,
                out@ == decoded::<T>(raw_values_view(values@)).take(i as int),
            decreases values@.len() - i,
        {
            let v = &values[i];
            assert(raw_values_view(values@)[i as int].0 == v.bytes@);
            let x = T::decode(v.bytes.as_slice(), v.big_endian);
            out.push(x);
            i = i + 1;
            assert(out@ =~= decoded::<T>(raw_values_view(values@)).take(i as int));
        }
        assert(out@ =~= decoded::<T>(raw_values_view(values@)));
        Ok(out)
    }
}

} // verus!

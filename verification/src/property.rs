//! Property values: their grammar on disk, how they are read and how they are written.

use vstd::prelude::*;
use vstd::utf8::{decode_utf8, encode_utf8, valid_utf8};
use crate::endian::{
    le_bytes_u16, le_bytes_u32, le_bytes_u64, lemma_le_u16_roundtrip, lemma_le_u32_roundtrip,
    lemma_le_u64_roundtrip, push_bytes, push_u16_le, push_u32_le, push_u64_le,
};
use crate::error::TdmsError;
use crate::reader::{spec_data_type, spec_string, spec_u16, spec_u32, spec_u64, spec_u8, SliceReader};
use crate::types::{DataType, TdmsTimestamp};

verus! {

/// A property value whose strings are of type `S`. Float values are held as
/// their IEEE-754 bit patterns.
#[derive(Debug)]
pub enum PropertyValueOf<S> {
    Void,
    I8(i8),
    I16(i16),
    I32(i32),
    I64(i64),
    U8(u8),
    U16(u16),
    U32(u32),
    U64(u64),
    /// The bits of an `f32`.
    SingleFloat(u32),
    /// The bits of an `f64`.
    DoubleFloat(u64),
    String(S),
    Boolean(bool),
    Timestamp(TdmsTimestamp),
}

/// A property value as the library holds it.
pub type PropertyValue = PropertyValueOf<String>;

/// A property value as contracts speak of it.
pub type PropertyValueModel = PropertyValueOf<Seq<char>>;

impl View for PropertyValueOf<String> {
    type V = PropertyValueOf<Seq<char>>;

    open spec fn view(&self) -> PropertyValueOf<Seq<char>> {
        match self {
            PropertyValueOf::Void => PropertyValueOf::Void,
            PropertyValueOf::I8(v) => PropertyValueOf::I8(*v),
            PropertyValueOf::I16(v) => PropertyValueOf::I16(*v),
            PropertyValueOf::I32(v) => PropertyValueOf::I32(*v),
            PropertyValueOf::I64(v) => PropertyValueOf::I64(*v),
            PropertyValueOf::U8(v) => PropertyValueOf::U8(*v),
            PropertyValueOf::U16(v) => PropertyValueOf::U16(*v),
            PropertyValueOf::U32(v) => PropertyValueOf::U32(*v),
            PropertyValueOf::U64(v) => PropertyValueOf::U64(*v),
            PropertyValueOf::SingleFloat(v) => PropertyValueOf::SingleFloat(*v),
            PropertyValueOf::DoubleFloat(v) => PropertyValueOf::DoubleFloat(*v),
            PropertyValueOf::String(s) => PropertyValueOf::String(s@),
            PropertyValueOf::Boolean(b) => PropertyValueOf::Boolean(*b),
            PropertyValueOf::Timestamp(t) => PropertyValueOf::Timestamp(*t),
        }
    }
}

impl<S> PropertyValueOf<S> {
    /// The data type under which the value is stored.
    pub open spec fn spec_data_type(&self) -> DataType {
        match self {
            PropertyValueOf::Void => DataType::Void,
            PropertyValueOf::I8(_) => DataType::I8,
            PropertyValueOf::I16(_) => DataType::I16,
            PropertyValueOf::I32(_) => DataType::I32,
            PropertyValueOf::I64(_) => DataType::I64,
            PropertyValueOf::U8(_) => DataType::U8,
            PropertyValueOf::U16(_) => DataType::U16,
            PropertyValueOf::U32(_) => DataType::U32,
            PropertyValueOf::U64(_) => DataType::U64,
            PropertyValueOf::SingleFloat(_) => DataType::SingleFloat,
            PropertyValueOf::DoubleFloat(_) => DataType::DoubleFloat,
            PropertyValueOf::String(_) => DataType::String,
            PropertyValueOf::Boolean(_) => DataType::Boolean,
            PropertyValueOf::Timestamp(_) => DataType::Timestamp,
        }
    }
}

/// A stored property value: a data type code, then the value in that type.
/// Booleans are one byte, true when not zero; timestamps are the fraction, then
/// the seconds. Types that a property cannot hold are refused.
pub open spec fn spec_property_value(s: Seq<u8>, be: bool, p: int) -> Result<(PropertyValueModel, int), TdmsError> {
    match spec_data_type(s, be, p) {
        Err(e) => Err(e),
        Ok((d, p1)) => spec_property_payload(s, be, d, p1),
    }
}

/// The value of type `d` stored at `p1`.
#[verifier::opaque]
pub open spec fn spec_property_payload(s: Seq<u8>, be: bool, d: DataType, p1: int) -> Result<(PropertyValueModel, int), TdmsError> {
    match d {
            DataType::Void => Ok((PropertyValueOf::Void, p1)),
            DataType::I8 => match spec_u8(s, p1) {
                Ok((v, p2)) => Ok((PropertyValueOf::I8(v as i8), p2)),
                Err(e) => Err(e),
            },
            DataType::U8 => match spec_u8(s, p1) {
                Ok((v, p2)) => Ok((PropertyValueOf::U8(v), p2)),
                Err(e) => Err(e),
            },
            DataType::Boolean => match spec_u8(s, p1) {
                Ok((v, p2)) => Ok((PropertyValueOf::Boolean(v != 0), p2)),
                Err(e) => Err(e),
            },
            DataType::I16 => match spec_u16(s, be, p1) {
                Ok((v, p2)) => Ok((PropertyValueOf::I16(v as i16), p2)),
                Err(e) => Err(e),
            },
            DataType::U16 => match spec_u16(s, be, p1) {
                Ok((v, p2)) => Ok((PropertyValueOf::U16(v), p2)),
                Err(e) => Err(e),
            },
            DataType::I32 => match spec_u32(s, be, p1) {
                Ok((v, p2)) => Ok((PropertyValueOf::I32(v as i32), p2)),
                Err(e) => Err(e),
            },
            DataType::U32 => match spec_u32(s, be, p1) {
                Ok((v, p2)) => Ok((PropertyValueOf::U32(v), p2)),
                Err(e) => Err(e),
            },
            DataType::SingleFloat => match spec_u32(s, be, p1) {
                Ok((v, p2)) => Ok((PropertyValueOf::SingleFloat(v), p2)),
                Err(e) => Err(e),
            },
            DataType::I64 => match spec_u64(s, be, p1) {
                Ok((v, p2)) => Ok((PropertyValueOf::I64(v as i64), p2)),
                Err(e) => Err(e),
            },
            DataType::U64 => match spec_u64(s, be, p1) {
                Ok((v, p2)) => Ok((PropertyValueOf::U64(v), p2)),
                Err(e) => Err(e),
            },
            DataType::DoubleFloat => match spec_u64(s, be, p1) {
                Ok((v, p2)) => Ok((PropertyValueOf::DoubleFloat(v), p2)),
                Err(e) => Err(e),
            },
            DataType::String => match spec_string(s, be, p1) {
                Ok((v, p2)) => Ok((PropertyValueOf::String(v), p2)),
                Err(e) => Err(e),
            },
            DataType::Timestamp => match spec_u64(s, be, p1) {
                Err(e) => Err(e),
                Ok((f, p2)) => match spec_u64(s, be, p2) {
                    Err(e) => Err(e),
                    Ok((sec, p3)) => Ok((
                        PropertyValueOf::Timestamp(TdmsTimestamp { fraction: f, seconds: sec as i64 }),
                        p3,
                    )),
                },
            },
            _ => Err(TdmsError::InvalidDataType(d.spec_code())),
    }
}

/// The bytes of a string: its UTF-8 byte count as a `u32` (cut to 32 bits),
/// then its UTF-8 bytes.
pub open spec fn spec_string_bytes(s: Seq<char>) -> Seq<u8> {
    le_bytes_u32(encode_utf8(s).len() as u32) + encode_utf8(s)
}

/// The little-endian bytes of a property value, its type code first.
pub open spec fn spec_property_value_bytes(v: PropertyValueModel) -> Seq<u8> {
    le_bytes_u32(v.spec_data_type().spec_code()) + match v {
        PropertyValueOf::Void => Seq::empty(),
        PropertyValueOf::I8(x) => seq![x as u8],
        PropertyValueOf::I16(x) => le_bytes_u16(x as u16),
        PropertyValueOf::I32(x) => le_bytes_u32(x as u32),
        PropertyValueOf::I64(x) => le_bytes_u64(x as u64),
        PropertyValueOf::U8(x) => seq![x],
        PropertyValueOf::U16(x) => le_bytes_u16(x),
        PropertyValueOf::U32(x) => le_bytes_u32(x),
        PropertyValueOf::U64(x) => le_bytes_u64(x),
        PropertyValueOf::SingleFloat(x) => le_bytes_u32(x),
        PropertyValueOf::DoubleFloat(x) => le_bytes_u64(x),
        PropertyValueOf::String(s) => spec_string_bytes(s),
        PropertyValueOf::Boolean(b) => seq![if b { 1u8 } else { 0u8 }],
        PropertyValueOf::Timestamp(t) => le_bytes_u64(t.fraction) + le_bytes_u64(t.seconds as u64),
    }
}

/// The strings in a value are short enough for their byte count to be stored.
pub open spec fn value_fits(v: PropertyValueModel) -> bool {
    match v {
        PropertyValueOf::String(s) => encode_utf8(s).len() <= u32::MAX,
        _ => true,
    }
}

impl PropertyValueOf<String> {
    /// The data type under which the value is stored.
    pub fn data_type(&self) -> (r: DataType)
        ensures
            r == self.spec_data_type(),
    {
        match self {
            PropertyValueOf::Void => DataType::Void,
            PropertyValueOf::I8(_) => DataType::I8,
            PropertyValueOf::I16(_) => DataType::I16,
            PropertyValueOf::I32(_) => DataType::I32,
            PropertyValueOf::I64(_) => DataType::I64,
            PropertyValueOf::U8(_) => DataType::U8,
            PropertyValueOf::U16(_) => DataType::U16,
            PropertyValueOf::U32(_) => DataType::U32,
            PropertyValueOf::U64(_) => DataType::U64,
            PropertyValueOf::SingleFloat(_) => DataType::SingleFloat,
            PropertyValueOf::DoubleFloat(_) => DataType::DoubleFloat,
            PropertyValueOf::String(_) => DataType::String,
            PropertyValueOf::Boolean(_) => DataType::Boolean,
            PropertyValueOf::Timestamp(_) => DataType::Timestamp,
        }
    }

    /// An equal copy of the value.
    pub fn copy_value(&self) -> (r: Self)
        ensures
            r == *self,
            r@ == self@,
    {
        match self {
            PropertyValueOf::Void => PropertyValueOf::Void,
            PropertyValueOf::I8(v) => PropertyValueOf::I8(*v),
            PropertyValueOf::I16(v) => PropertyValueOf::I16(*v),
            PropertyValueOf::I32(v) => PropertyValueOf::I32(*v),
            PropertyValueOf::I64(v) => PropertyValueOf::I64(*v),
            PropertyValueOf::U8(v) => PropertyValueOf::U8(*v),
            PropertyValueOf::U16(v) => PropertyValueOf::U16(*v),
            PropertyValueOf::U32(v) => PropertyValueOf::U32(*v),
            PropertyValueOf::U64(v) => PropertyValueOf::U64(*v),
            PropertyValueOf::SingleFloat(v) => PropertyValueOf::SingleFloat(*v),
            PropertyValueOf::DoubleFloat(v) => PropertyValueOf::DoubleFloat(*v),
            PropertyValueOf::String(s) => PropertyValueOf::String(s.clone()),
            PropertyValueOf::Boolean(b) => PropertyValueOf::Boolean(*b),
            PropertyValueOf::Timestamp(t) => PropertyValueOf::Timestamp(*t),
        }
    }

    /// Reads a stored property value.
    pub fn parse(reader: &mut SliceReader) -> (r: Result<Self, TdmsError>)
        requires
            old(reader).wf(),
        ensures
            final(reader).wf(),
            final(reader).bytes() == old(reader).bytes(),
            final(reader).is_big_endian() == old(reader).is_big_endian(),
            match spec_property_value(old(reader).bytes(), old(reader).is_big_endian(), old(reader).position()) {
                Ok((v, p)) => r matches Ok(x) && x@ == v && final(reader).position() == p,
                Err(e) => r matches Err(x) && x == e,
            },
    {
        reveal(spec_property_payload);
        let d = reader.read_data_type()?;
        match d {
            DataType::Void => Ok(PropertyValueOf::Void),
            DataType::I8 => {
                let v = reader.read_u8()?;
                Ok(PropertyValueOf::I8(v as i8))
            },
            DataType::U8 => {
                let v = reader.read_u8()?;
                Ok(PropertyValueOf::U8(v))
            },
            DataType::Boolean => {
                let v = reader.read_u8()?;
                Ok(PropertyValueOf::Boolean(v != 0))
            },
            DataType::I16 => {
                let v = reader.read_u16()?;
                Ok(PropertyValueOf::I16(v as i16))
            },
            DataType::U16 => {
                let v = reader.read_u16()?;
                Ok(PropertyValueOf::U16(v))
            },
            DataType::I32 => {
                let v = reader.read_u32()?;
                Ok(PropertyValueOf::I32(v as i32))
            },
            DataType::U32 => {
                let v = reader.read_u32()?;
                Ok(PropertyValueOf::U32(v))
            },
            DataType::SingleFloat => {
                let v = reader.read_u32()?;
                Ok(PropertyValueOf::SingleFloat(v))
            },
            DataType::I64 => {
                let v = reader.read_u64()?;
                Ok(PropertyValueOf::I64(v as i64))
            },
            DataType::U64 => {
                let v = reader.read_u64()?;
                Ok(PropertyValueOf::U64(v))
            },
            DataType::DoubleFloat => {
                let v = reader.read_u64()?;
                Ok(PropertyValueOf::DoubleFloat(v))
            },
            DataType::String => {
                let v = reader.read_string()?;
                Ok(PropertyValueOf::String(v))
            },
            DataType::Timestamp => {
                let fraction = reader.read_u64()?;
                let seconds = reader.read_u64()?;
                Ok(PropertyValueOf::Timestamp(TdmsTimestamp { fraction, seconds: seconds as i64 }))
            },
            _ => Err(TdmsError::InvalidDataType(d.code())),
        }
    }
}

/// Appends the bytes of a string: its UTF-8 length as a `u32` (cut to 32 bits),
/// then its UTF-8 bytes.
pub fn write_string(buffer: &mut Vec<u8>, s: &str)
    ensures
        final(buffer)@ == old(buffer)@ + spec_string_bytes(s@),
{
    let b = s.as_bytes();
    push_u32_le(buffer, b.len() as u32);
    push_bytes(buffer, b);
}

/// Appends the stored form of a property value.
pub fn write_property_value(buffer: &mut Vec<u8>, val: &PropertyValue)
    ensures
        final(buffer)@ == old(buffer)@ + spec_property_value_bytes(val@),
{
    push_u32_le(buffer, val.data_type().code());
    match val {
        PropertyValueOf::Void => {},
        PropertyValueOf::I8(v) => buffer.push(*v as u8),
        PropertyValueOf::I16(v) => push_u16_le(buffer, *v as u16),
        PropertyValueOf::I32(v) => push_u32_le(buffer, *v as u32),
        PropertyValueOf::I64(v) => push_u64_le(buffer, *v as u64),
        PropertyValueOf::U8(v) => buffer.push(*v),
        PropertyValueOf::U16(v) => push_u16_le(buffer, *v),
        PropertyValueOf::U32(v) => push_u32_le(buffer, *v),
        PropertyValueOf::U64(v) => push_u64_le(buffer, *v),
        PropertyValueOf::SingleFloat(v) => push_u32_le(buffer, *v),
        PropertyValueOf::DoubleFloat(v) => push_u64_le(buffer, *v),
        PropertyValueOf::String(s) => write_string(buffer, s.as_str()),
        PropertyValueOf::Boolean(b) => buffer.push(if *b { 1 } else { 0 }),
        PropertyValueOf::Timestamp(ts) => {
            push_u64_le(buffer, ts.fraction);
            push_u64_le(buffer, ts.seconds as u64);
        },
    }
    proof {
        assert(final(buffer)@ =~= old(buffer)@ + spec_property_value_bytes(val@));
    }
}

/// A written string is read back as itself, and the read ends right after it.
pub proof fn lemma_string_roundtrip(pre: Seq<u8>, s: Seq<char>, post: Seq<u8>)
    requires
        encode_utf8(s).len() <= u32::MAX,
    ensures
        spec_string(pre + spec_string_bytes(s) + post, false, pre.len() as int)
            == Ok::<(Seq<char>, int), TdmsError>((s, pre.len() + spec_string_bytes(s).len() as int)),
{
    let b = encode_utf8(s);
    let n = b.len() as u32;
    let all = pre + spec_string_bytes(s) + post;
    assert(all =~= pre + le_bytes_u32(n) + (b + post));
    lemma_le_u32_roundtrip(pre, n, b + post);
    let p1: int = pre.len() as int + 4;
    assert(all.subrange(p1, p1 + n) =~= b);
    vstd::utf8::encode_utf8_valid_utf8(s);
    vstd::utf8::encode_utf8_decode_utf8(s);
}

/// The payload of a written value is read back as the value.
#[verifier::rlimit(80)]
#[verifier::spinoff_prover]
proof fn lemma_payload_roundtrip(q: Seq<u8>, v: PropertyValueModel, post: Seq<u8>)
    requires
        value_fits(v),
    ensures
        ({
            let payload = spec_property_value_bytes(v).subrange(4, spec_property_value_bytes(v).len() as int);
            spec_property_payload(q + payload + post, false, v.spec_data_type(), q.len() as int)
                == Ok::<(PropertyValueModel, int), TdmsError>((v, q.len() + payload.len() as int))
        }),
{
    reveal(spec_property_payload);
    let payload = spec_property_value_bytes(v).subrange(4, spec_property_value_bytes(v).len() as int);
    let all = q + payload + post;
    let p1: int = q.len() as int;
    match v {
        PropertyValueOf::I8(x) => {
            assert(payload =~= seq![x as u8]);
            assert(all[p1] == x as u8);
            assert((x as u8) as i8 == x) by (bit_vector);
        },
        PropertyValueOf::U8(x) => {
            assert(payload =~= seq![x]);
            assert(all[p1] == x);
        },
        PropertyValueOf::Boolean(b) => {
            assert(payload =~= seq![if b { 1u8 } else { 0u8 }]);
            assert(all[p1] == if b { 1u8 } else { 0u8 });
        },
        PropertyValueOf::I16(x) => {
            assert(payload =~= le_bytes_u16(x as u16));
            lemma_le_u16_roundtrip(q, x as u16, post);
            assert((x as u16) as i16 == x) by (bit_vector);
        },
        PropertyValueOf::U16(x) => {
            assert(payload =~= le_bytes_u16(x));
            lemma_le_u16_roundtrip(q, x, post);
        },
        PropertyValueOf::I32(x) => {
            assert(payload =~= le_bytes_u32(x as u32));
            lemma_le_u32_roundtrip(q, x as u32, post);
            assert((x as u32) as i32 == x) by (bit_vector);
        },
        PropertyValueOf::U32(x) => {
            assert(payload =~= le_bytes_u32(x));
            lemma_le_u32_roundtrip(q, x, post);
        },
        PropertyValueOf::SingleFloat(x) => {
            assert(payload =~= le_bytes_u32(x));
            lemma_le_u32_roundtrip(q, x, post);
        },
        PropertyValueOf::I64(x) => {
            assert(payload =~= le_bytes_u64(x as u64));
            lemma_le_u64_roundtrip(q, x as u64, post);
            assert((x as u64) as i64 == x) by (bit_vector);
        },
        PropertyValueOf::U64(x) => {
            assert(payload =~= le_bytes_u64(x));
            lemma_le_u64_roundtrip(q, x, post);
        },
        PropertyValueOf::DoubleFloat(x) => {
            assert(payload =~= le_bytes_u64(x));
            lemma_le_u64_roundtrip(q, x, post);
        },
        PropertyValueOf::String(st) => {
            assert(payload =~= spec_string_bytes(st));
            lemma_string_roundtrip(q, st, post);
        },
        PropertyValueOf::Timestamp(t) => {
            assert(payload =~= le_bytes_u64(t.fraction) + le_bytes_u64(t.seconds as u64));
            assert(all =~= q + le_bytes_u64(t.fraction) + (le_bytes_u64(t.seconds as u64) + post));
            lemma_le_u64_roundtrip(q, t.fraction, le_bytes_u64(t.seconds as u64) + post);
            assert(all =~= q + le_bytes_u64(t.fraction) + le_bytes_u64(t.seconds as u64) + post);
            lemma_le_u64_roundtrip(q + le_bytes_u64(t.fraction), t.seconds as u64, post);
            let sec: i64 = t.seconds;
            assert((sec as u64) as i64 == sec) by (bit_vector);
        },
        PropertyValueOf::Void => {
            assert(payload =~= Seq::<u8>::empty());
        },
    }
}

/// What is written of a property value is read back as that value: reading at the
/// start of its bytes, in little-endian order, gives the value and stops at its end.
pub proof fn lemma_property_value_roundtrip(pre: Seq<u8>, v: PropertyValueModel, post: Seq<u8>)
    requires
        value_fits(v),
    ensures
        spec_property_value(pre + spec_property_value_bytes(v) + post, false, pre.len() as int)
            == Ok::<(PropertyValueModel, int), TdmsError>((v, pre.len() + spec_property_value_bytes(v).len() as int)),
{
    let code = v.spec_data_type().spec_code();
    let payload = spec_property_value_bytes(v).subrange(4, spec_property_value_bytes(v).len() as int);
    let all = pre + spec_property_value_bytes(v) + post;
    assert(spec_property_value_bytes(v) =~= le_bytes_u32(code) + payload);
    assert(all =~= pre + le_bytes_u32(code) + (payload + post));
    lemma_le_u32_roundtrip(pre, code, payload + post);
    crate::types::lemma_code_from_u32_roundtrip(v.spec_data_type());
    let q = pre + le_bytes_u32(code);
    assert(all =~= q + payload + post);
    lemma_payload_roundtrip(q, v, post);
}

} // verus!

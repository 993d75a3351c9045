use vstd::prelude::*;
use crate::error::TdmsError;

verus! {

/// The data type codes of the TDMS format.
#[derive(Debug, Clone, Copy, PartialEq, Eq, Structural, Hash)]
pub enum DataType {
    Void,
    I8,
    I16,
    I32,
    I64,
    U8,
    U16,
    U32,
    U64,
    SingleFloat,
    DoubleFloat,
    ExtendedFloat,
    SingleFloatComplex,
    DoubleFloatComplex,
    ExtendedFloatComplex,
    String,
    Boolean,
    Timestamp,
    FixedPoint,
    DAQmxRawData,
}

impl DataType {
    /// The code under which the type is stored in a file.
    pub open spec fn spec_code(self) -> u32 {
        match self {
            DataType::Void => 0x00,
            DataType::I8 => 0x01,
            DataType::I16 => 0x02,
            DataType::I32 => 0x03,
            DataType::I64 => 0x04,
            DataType::U8 => 0x05,
            DataType::U16 => 0x06,
            DataType::U32 => 0x07,
            DataType::U64 => 0x08,
            DataType::SingleFloat => 0x09,
            DataType::DoubleFloat => 0x0A,
            DataType::ExtendedFloat => 0x0B,
            DataType::SingleFloatComplex => 0x0001_0009,
            DataType::DoubleFloatComplex => 0x0001_000A,
            DataType::ExtendedFloatComplex => 0x0001_000B,
            DataType::String => 0x20,
            DataType::Boolean => 0x21,
            DataType::Timestamp => 0x44,
            DataType::FixedPoint => 0x4F,
            DataType::DAQmxRawData => 0xFFFF_FFFF,
        }
    }

    /// The code under which the type is stored in a file.
    pub fn code(&self) -> (r: u32)
        ensures
            r == self.spec_code(),
    {
        match self {
            DataType::Void => 0x00,
            DataType::I8 => 0x01,
            DataType::I16 => 0x02,
            DataType::I32 => 0x03,
            DataType::I64 => 0x04,
            DataType::U8 => 0x05,
            DataType::U16 => 0x06,
            DataType::U32 => 0x07,
            DataType::U64 => 0x08,
            DataType::SingleFloat => 0x09,
            DataType::DoubleFloat => 0x0A,
            DataType::ExtendedFloat => 0x0B,
            DataType::SingleFloatComplex => 0x0001_0009,
            DataType::DoubleFloatComplex => 0x0001_000A,
            DataType::ExtendedFloatComplex => 0x0001_000B,
            DataType::String => 0x20,
            DataType::Boolean => 0x21,
            DataType::Timestamp => 0x44,
            DataType::FixedPoint => 0x4F,
            DataType::DAQmxRawData => 0xFFFF_FFFF,
        }
    }

    /// The type that a stored code denotes; the codes 0x19, 0x1A and 0x1B are
    /// accepted as the unit-carrying variants of the three float types.
    pub open spec fn spec_from_u32(value: u32) -> Option<DataType> {
        if value == 0x00 { Some(DataType::Void) }
        else if value == 0x01 { Some(DataType::I8) }
        else if value == 0x02 { Some(DataType::I16) }
        else if value == 0x03 { Some(DataType::I32) }
        else if value == 0x04 { Some(DataType::I64) }
        else if value == 0x05 { Some(DataType::U8) }
        else if value == 0x06 { Some(DataType::U16) }
        else if value == 0x07 { Some(DataType::U32) }
        else if value == 0x08 { Some(DataType::U64) }
        else if value == 0x09 || value == 0x19 { Some(DataType::SingleFloat) }
        else if value == 0x0A || value == 0x1A { Some(DataType::DoubleFloat) }
        else if value == 0x0B || value == 0x1B { Some(DataType::ExtendedFloat) }
        else if value == 0x0001_0009 { Some(DataType::SingleFloatComplex) }
        else if value == 0x0001_000A { Some(DataType::DoubleFloatComplex) }
        else if value == 0x0001_000B { Some(DataType::ExtendedFloatComplex) }
        else if value == 0x20 { Some(DataType::String) }
        else if value == 0x21 { Some(DataType::Boolean) }
        else if value == 0x44 { Some(DataType::Timestamp) }
        else if value == 0x4F { Some(DataType::FixedPoint) }
        else if value == 0xFFFF_FFFF { Some(DataType::DAQmxRawData) }
        else { None }
    }

    /// Decodes a stored type code.
    pub fn from_u32(value: u32) -> (r: Result<DataType, TdmsError>)
        ensures
            match Self::spec_from_u32(value) {
                Some(d) => r == Ok::<DataType, TdmsError>(d),
                None => r matches Err(TdmsError::InvalidDataType(v)) && v == value,
            },
    {
        match value {
            0x00 => Ok(DataType::Void),
            0x01 => Ok(DataType::I8),
            0x02 => Ok(DataType::I16),
            0x03 => Ok(DataType::I32),
            0x04 => Ok(DataType::I64),
            0x05 => Ok(DataType::U8),
            0x06 => Ok(DataType::U16),
            0x07 => Ok(DataType::U32),
            0x08 => Ok(DataType::U64),
            0x09 | 0x19 => Ok(DataType::SingleFloat),
            0x0A | 0x1A => Ok(DataType::DoubleFloat),
            0x0B | 0x1B => Ok(DataType::ExtendedFloat),
            0x0001_0009 => Ok(DataType::SingleFloatComplex),
            0x0001_000A => Ok(DataType::DoubleFloatComplex),
            0x0001_000B => Ok(DataType::ExtendedFloatComplex),
            0x20 => Ok(DataType::String),
            0x21 => Ok(DataType::Boolean),
            0x44 => Ok(DataType::Timestamp),
            0x4F => Ok(DataType::FixedPoint),
            0xFFFF_FFFF => Ok(DataType::DAQmxRawData),
            _ => Err(TdmsError::InvalidDataType(value)),
        }
    }

    /// The fixed size in bytes of one value, or `None` for the types whose
    /// values have no fixed size.
    pub open spec fn spec_element_size(self) -> Option<usize> {
        match self {
            DataType::Void => Some(0),
            DataType::I8 | DataType::U8 | DataType::Boolean => Some(1),
            DataType::I16 | DataType::U16 => Some(2),
            DataType::I32 | DataType::U32 | DataType::SingleFloat => Some(4),
            DataType::I64 | DataType::U64 | DataType::DoubleFloat
            | DataType::SingleFloatComplex => Some(8),
            DataType::ExtendedFloat | DataType::DoubleFloatComplex => Some(16),
            DataType::Timestamp => Some(16),
            DataType::ExtendedFloatComplex => Some(32),
            DataType::String | DataType::FixedPoint | DataType::DAQmxRawData => None,
        }
    }

    /// Returns fixed element size in bytes if fixed-size, or None for dynamic types (like String).
    pub fn element_size(&self) -> (r: Option<usize>)
        ensures
            r == self.spec_element_size(),
    {
        match self {
            DataType::Void => Some(0),
            DataType::I8 | DataType::U8 | DataType::Boolean => Some(1),
            DataType::I16 | DataType::U16 => Some(2),
            DataType::I32 | DataType::U32 | DataType::SingleFloat => Some(4),
            DataType::I64 | DataType::U64 | DataType::DoubleFloat
            | DataType::SingleFloatComplex => Some(8),
            DataType::ExtendedFloat | DataType::DoubleFloatComplex => Some(16),
            DataType::Timestamp => Some(16),
            DataType::ExtendedFloatComplex => Some(32),
            DataType::String | DataType::FixedPoint | DataType::DAQmxRawData => None,
        }
    }
}

/// The codes of the TDMS format, each type's fixed number: signed integers of
/// 1, 2, 4 and 8 bytes are 0x01 to 0x04, unsigned ones 0x05 to 0x08, the
/// floats 0x09 to 0x0B (with their unit-carrying variants 0x19 to 0x1B), the
/// complex floats 0x10009 to 0x1000B, strings 0x20, booleans 0x21, timestamps
/// 0x44, fixed-point values 0x4F and DAQmx raw data 0xFFFFFFFF; each type is
/// stored under its code and the code is read as the type, and each value
/// takes the number of bytes its type fixes.
pub proof fn lemma_type_codes()
    ensures
        DataType::Void.spec_code() == 0x00u32,
        DataType::spec_from_u32(0x00u32) == Some(DataType::Void),
        DataType::I8.spec_code() == 0x01u32,
        DataType::spec_from_u32(0x01u32) == Some(DataType::I8),
        DataType::I16.spec_code() == 0x02u32,
        DataType::spec_from_u32(0x02u32) == Some(DataType::I16),
        DataType::I32.spec_code() == 0x03u32,
        DataType::spec_from_u32(0x03u32) == Some(DataType::I32),
        DataType::I64.spec_code() == 0x04u32,
        DataType::spec_from_u32(0x04u32) == Some(DataType::I64),
        DataType::U8.spec_code() == 0x05u32,
        DataType::spec_from_u32(0x05u32) == Some(DataType::U8),
        DataType::U16.spec_code() == 0x06u32,
        DataType::spec_from_u32(0x06u32) == Some(DataType::U16),
        DataType::U32.spec_code() == 0x07u32,
        DataType::spec_from_u32(0x07u32) == Some(DataType::U32),
        DataType::U64.spec_code() == 0x08u32,
        DataType::spec_from_u32(0x08u32) == Some(DataType::U64),
        DataType::SingleFloat.spec_code() == 0x09u32,
        DataType::spec_from_u32(0x09u32) == Some(DataType::SingleFloat),
        DataType::DoubleFloat.spec_code() == 0x0Au32,
        DataType::spec_from_u32(0x0Au32) == Some(DataType::DoubleFloat),
        DataType::ExtendedFloat.spec_code() == 0x0Bu32,
        DataType::spec_from_u32(0x0Bu32) == Some(DataType::ExtendedFloat),
        DataType::SingleFloatComplex.spec_code() == 0x0001_0009u32,
        DataType::spec_from_u32(0x0001_0009u32) == Some(DataType::SingleFloatComplex),
        DataType::DoubleFloatComplex.spec_code() == 0x0001_000Au32,
        DataType::spec_from_u32(0x0001_000Au32) == Some(DataType::DoubleFloatComplex),
        DataType::ExtendedFloatComplex.spec_code() == 0x0001_000Bu32,
        DataType::spec_from_u32(0x0001_000Bu32) == Some(DataType::ExtendedFloatComplex),
        DataType::String.spec_code() == 0x20u32,
        DataType::spec_from_u32(0x20u32) == Some(DataType::String),
        DataType::Boolean.spec_code() == 0x21u32,
        DataType::spec_from_u32(0x21u32) == Some(DataType::Boolean),
        DataType::Timestamp.spec_code() == 0x44u32,
        DataType::spec_from_u32(0x44u32) == Some(DataType::Timestamp),
        DataType::FixedPoint.spec_code() == 0x4Fu32,
        DataType::spec_from_u32(0x4Fu32) == Some(DataType::FixedPoint),
        DataType::DAQmxRawData.spec_code() == 0xFFFF_FFFFu32,
        DataType::spec_from_u32(0xFFFF_FFFFu32) == Some(DataType::DAQmxRawData),
        DataType::spec_from_u32(0x19u32) == Some(DataType::SingleFloat),
        DataType::spec_from_u32(0x1Au32) == Some(DataType::DoubleFloat),
        DataType::spec_from_u32(0x1Bu32) == Some(DataType::ExtendedFloat),
        DataType::Void.spec_element_size() == Some(0usize),
        DataType::I8.spec_element_size() == Some(1usize),
        DataType::I16.spec_element_size() == Some(2usize),
        DataType::I32.spec_element_size() == Some(4usize),
        DataType::I64.spec_element_size() == Some(8usize),
        DataType::U8.spec_element_size() == Some(1usize),
        DataType::U16.spec_element_size() == Some(2usize),
        DataType::U32.spec_element_size() == Some(4usize),
        DataType::U64.spec_element_size() == Some(8usize),
        DataType::SingleFloat.spec_element_size() == Some(4usize),
        DataType::DoubleFloat.spec_element_size() == Some(8usize),
        DataType::ExtendedFloat.spec_element_size() == Some(16usize),
        DataType::SingleFloatComplex.spec_element_size() == Some(8usize),
        DataType::DoubleFloatComplex.spec_element_size() == Some(16usize),
        DataType::ExtendedFloatComplex.spec_element_size() == Some(32usize),
        DataType::String.spec_element_size() is None,
        DataType::Boolean.spec_element_size() == Some(1usize),
        DataType::Timestamp.spec_element_size() == Some(16usize),
        DataType::FixedPoint.spec_element_size() is None,
        DataType::DAQmxRawData.spec_element_size() is None,
        forall|v: u32| 0x0C <= v < 0x19 ==> DataType::spec_from_u32(v) is None,
        forall|v: u32| 0x21 < v < 0x44 ==> DataType::spec_from_u32(v) is None,
{
}

impl DataType {
    /// The name of the type.
    pub open spec fn spec_name(self) -> Seq<char> {
        match self {
            DataType::Void => "Void"@,
            DataType::I8 => "I8"@,
            DataType::I16 => "I16"@,
            DataType::I32 => "I32"@,
            DataType::I64 => "I64"@,
            DataType::U8 => "U8"@,
            DataType::U16 => "U16"@,
            DataType::U32 => "U32"@,
            DataType::U64 => "U64"@,
            DataType::SingleFloat => "SingleFloat"@,
            DataType::DoubleFloat => "DoubleFloat"@,
            DataType::ExtendedFloat => "ExtendedFloat"@,
            DataType::SingleFloatComplex => "SingleFloatComplex"@,
            DataType::DoubleFloatComplex => "DoubleFloatComplex"@,
            DataType::ExtendedFloatComplex => "ExtendedFloatComplex"@,
            DataType::String => "String"@,
            DataType::Boolean => "Boolean"@,
            DataType::Timestamp => "Timestamp"@,
            DataType::FixedPoint => "FixedPoint"@,
            DataType::DAQmxRawData => "DAQmxRawData"@,
        }
    }

    /// The name of the type.
    pub fn name(&self) -> (r: &'static str)
        ensures
            r@ == self.spec_name(),
    {
        match self {
            DataType::Void => "Void",
            DataType::I8 => "I8",
            DataType::I16 => "I16",
            DataType::I32 => "I32",
            DataType::I64 => "I64",
            DataType::U8 => "U8",
            DataType::U16 => "U16",
            DataType::U32 => "U32",
            DataType::U64 => "U64",
            DataType::SingleFloat => "SingleFloat",
            DataType::DoubleFloat => "DoubleFloat",
            DataType::ExtendedFloat => "ExtendedFloat",
            DataType::SingleFloatComplex => "SingleFloatComplex",
            DataType::DoubleFloatComplex => "DoubleFloatComplex",
            DataType::ExtendedFloatComplex => "ExtendedFloatComplex",
            DataType::String => "String",
            DataType::Boolean => "Boolean",
            DataType::Timestamp => "Timestamp",
            DataType::FixedPoint => "FixedPoint",
            DataType::DAQmxRawData => "DAQmxRawData",
        }
    }
}

/// Decoding a type's own code gives the type back: `from_u32` inverts `code`.
pub proof fn lemma_code_from_u32_roundtrip(d: DataType)
    ensures
        DataType::spec_from_u32(d.spec_code()) == Some(d),
{
}

/// A type whose code is accepted decodes to a type of at most 32 bytes per value.
pub proof fn lemma_element_size_bounded(d: DataType)
    ensures
        d.spec_element_size() matches Some(n) ==> n <= 32,
{
}

/// Seconds between 1904-01-01 (the epoch of the format) and 1970-01-01 (the Unix epoch).
pub const NI_TO_UNIX_SECONDS: i64 = 2_082_844_800;

/// National Instruments 128-bit timestamp (64-bit seconds since 1904-01-01 + 64-bit fractional seconds)
#[derive(Debug, Clone, Copy, PartialEq, Eq, Structural, PartialOrd, Ord, Hash)]
pub struct TdmsTimestamp {
    pub fraction: u64,
    pub seconds: i64,
}

impl TdmsTimestamp {
    pub fn new(seconds: i64, fraction: u64) -> (r: Self)
        ensures
            r.seconds == seconds,
            r.fraction == fraction,
    {
        Self { seconds, fraction }
    }

    /// Convert to Unix seconds (seconds since 1970-01-01)
    pub fn unix_seconds(&self) -> (r: i64)
        requires
            self.seconds >= i64::MIN + NI_TO_UNIX_SECONDS,
        ensures
            r == self.seconds - NI_TO_UNIX_SECONDS,
    {
        self.seconds - NI_TO_UNIX_SECONDS
    }

    /// The whole nanoseconds in the fractional part: `fraction * 10^9 / 2^64`, rounded down.
    pub open spec fn spec_nanoseconds(self) -> int {
        (self.fraction * 1_000_000_000) / 0x1_0000_0000_0000_0000int
    }

    /// Convert fractional part to nanoseconds
    pub fn nanoseconds(&self) -> (r: u32)
        ensures
            r == self.spec_nanoseconds(),
            r < 1_000_000_000,
    {
        let f: u64 = self.fraction;
        assert(f as u128 * 1_000_000_000u128 <= 0xffff_ffff_ffff_ffff_u128 * 1_000_000_000u128)
            by (nonlinear_arith);
        let p: u128 = f as u128 * 1_000_000_000u128;
        let q: u128 = p >> 64u128;
        assert(q == p / 0x1_0000_0000_0000_0000u128) by (bit_vector)
            requires
                q == p >> 64u128,
        ;
        assert(p / 0x1_0000_0000_0000_0000u128 < 1_000_000_000) by (nonlinear_arith)
            requires
                p == f as u128 * 1_000_000_000u128,
                f < 0x1_0000_0000_0000_0000u128,
        ;
        q as u32
    }
}

} // verus!

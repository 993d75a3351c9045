use vstd::prelude::*;

verus! {

/// Everything that can go wrong while indexing, reading or writing a TDMS file.
#[derive(Debug, Clone)]
pub enum TdmsError {
    /// The first four bytes of a segment are not `TDSm`.
    InvalidLeadIn([u8; 4]),
    /// A data type code that the format does not define.
    InvalidDataType(u32),
    /// A read needed `required` bytes where only `available` were present.
    UnexpectedEof { required: usize, available: usize },
    /// Metadata that cannot be interpreted.
    CorruptedMetadata { offset: u64, reason: String },
    /// A length-prefixed string whose bytes, starting at `offset`, are not UTF-8.
    InvalidString { offset: usize },
    /// An operating-system error reported while opening, mapping or writing a file.
    Io(String),
}

} // verus!

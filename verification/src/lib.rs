//! Reading and writing of National Instruments TDMS files.

pub mod error;
pub mod types;
pub mod endian;
pub mod header;
pub mod reader;
pub mod property;
pub mod namemap;
pub mod segment;
pub mod path;
pub mod model;
pub mod file;
pub mod channel_data;
pub mod primitive;
pub mod writer;
pub mod defrag;
pub mod chunk;
pub mod readback;
pub mod defrag_read;
pub mod defrag_values;
pub mod indexed;
pub mod defrag_written;
pub mod successive;
pub mod counts;
pub mod merge;
pub mod chunked;
pub mod trailing;
pub mod strings;
pub mod defrag_strings;

pub use error::TdmsError;
pub use types::{DataType, TdmsTimestamp};
pub use header::{SegmentHeader, HEADER_SIZE, TDMS_LEAD_IN};
pub use reader::SliceReader;
pub use property::{PropertyValue, PropertyValueOf};
pub use namemap::{NameMap, PropertyMap};
pub use segment::{ObjectMetadata, ObjectRawDataIndex, SegmentIndex};
pub use path::parse_object_path;
pub use model::{TdmsChannel, TdmsGroup};
pub use file::TdmsFile;
pub use channel_data::RawValue;
pub use primitive::TdmsPrimitive;
pub use defrag::Defragmenter;
pub use chunk::ChunkIterator;

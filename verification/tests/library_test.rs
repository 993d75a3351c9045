use memmap2::{Mmap, MmapMut};
use xptdms::chunk::ChunkIterator;
use xptdms::defrag::write_properties;
use xptdms::namemap::NameMap;
use xptdms::property::{write_property_value, PropertyValueOf};
use xptdms::segment::parse_properties;
use xptdms::writer::{channel_segment, encode_values, values_segment};
use xptdms::TdmsPrimitive;
use xptdms::{
    parse_object_path, DataType, Defragmenter, ObjectRawDataIndex, PropertyMap, PropertyValue, SegmentHeader,
    SegmentIndex, SliceReader, TdmsError, TdmsFile, TdmsTimestamp, HEADER_SIZE,
};

fn mmap_of(bytes: &[u8]) -> Mmap {
    let mut m = MmapMut::map_anon(bytes.len().max(1)).unwrap();
    m[..bytes.len()].copy_from_slice(bytes);
    let m = m.make_read_only().unwrap();
    if bytes.is_empty() {
        // An anonymous map cannot be empty; callers with no bytes use `parse_bytes` instead.
        panic!("empty map");
    }
    m
}

fn parse_bytes(bytes: &[u8]) -> Result<TdmsFile, TdmsError> {
    TdmsFile::from_mmap(mmap_of(bytes))
}

fn header_bytes(toc: u32, next: u64, raw: u64, big_endian: bool) -> [u8; 28] {
    let mut b = [0u8; 28];
    b[0..4].copy_from_slice(b"TDSm");
    b[4..8].copy_from_slice(&toc.to_le_bytes());
    b[8..12].copy_from_slice(&4713u32.to_le_bytes());
    if big_endian {
        b[12..20].copy_from_slice(&next.to_be_bytes());
        b[20..28].copy_from_slice(&raw.to_be_bytes());
    } else {
        b[12..20].copy_from_slice(&next.to_le_bytes());
        b[20..28].copy_from_slice(&raw.to_le_bytes());
    }
    b
}

fn put_str(buf: &mut Vec<u8>, s: &str) {
    buf.extend_from_slice(&(s.len() as u32).to_le_bytes());
    buf.extend_from_slice(s.as_bytes());
}

#[test]
fn data_type_codes() {
    let all = [
        DataType::Void, DataType::I8, DataType::I16, DataType::I32, DataType::I64, DataType::U8,
        DataType::U16, DataType::U32, DataType::U64, DataType::SingleFloat, DataType::DoubleFloat,
        DataType::ExtendedFloat, DataType::SingleFloatComplex, DataType::DoubleFloatComplex,
        DataType::ExtendedFloatComplex, DataType::String, DataType::Boolean, DataType::Timestamp,
        DataType::FixedPoint, DataType::DAQmxRawData,
    ];
    for d in all {
        assert_eq!(DataType::from_u32(d.code()).unwrap(), d);
    }
    assert_eq!(DataType::DoubleFloat.code(), 0x0A);
    assert_eq!(DataType::DoubleFloatComplex.code(), 0x0001_000A);
    assert_eq!(DataType::from_u32(0x19).unwrap(), DataType::SingleFloat);
    assert_eq!(DataType::from_u32(0x1A).unwrap(), DataType::DoubleFloat);
    assert_eq!(DataType::from_u32(0x1B).unwrap(), DataType::ExtendedFloat);
    assert!(matches!(DataType::from_u32(0x0C), Err(TdmsError::InvalidDataType(0x0C))));
    assert!(matches!(DataType::from_u32(0x1C), Err(TdmsError::InvalidDataType(0x1C))));
}

#[test]
fn data_type_sizes() {
    assert_eq!(DataType::Void.element_size(), Some(0));
    assert_eq!(DataType::Boolean.element_size(), Some(1));
    assert_eq!(DataType::I16.element_size(), Some(2));
    assert_eq!(DataType::SingleFloat.element_size(), Some(4));
    assert_eq!(DataType::SingleFloatComplex.element_size(), Some(8));
    assert_eq!(DataType::ExtendedFloat.element_size(), Some(16));
    assert_eq!(DataType::Timestamp.element_size(), Some(16));
    assert_eq!(DataType::ExtendedFloatComplex.element_size(), Some(32));
    assert_eq!(DataType::String.element_size(), None);
    assert_eq!(DataType::FixedPoint.element_size(), None);
    assert_eq!(DataType::DAQmxRawData.element_size(), None);
    assert_eq!(DataType::DoubleFloat.name(), "DoubleFloat");
}

#[test]
fn timestamp_conversions() {
    let t = TdmsTimestamp::new(2_082_844_800 + 10, 1u64 << 63);
    assert_eq!(t.seconds, 2_082_844_810);
    assert_eq!(t.fraction, 1u64 << 63);
    assert_eq!(t.unix_seconds(), 10);
    assert_eq!(t.nanoseconds(), 500_000_000);
    assert_eq!(TdmsTimestamp::new(0, 0).nanoseconds(), 0);
    assert_eq!(TdmsTimestamp::new(0, u64::MAX).nanoseconds(), 999_999_999);
    assert_eq!(TdmsTimestamp::new(0, 0).unix_seconds(), -2_082_844_800);
    assert!(TdmsTimestamp::new(2, 7) > TdmsTimestamp::new(1, 7));
    assert_eq!(TdmsTimestamp::new(1, 7), TdmsTimestamp::new(1, 7));
}

#[test]
fn header_little_endian() {
    let b = header_bytes(0x0e, 1000, 200, false);
    let h = SegmentHeader::parse(&b).unwrap();
    assert_eq!(h.toc_flags, 0x0e);
    assert_eq!(h.version, 4713);
    assert_eq!(h.next_segment_offset, 1000);
    assert_eq!(h.raw_data_offset, 200);
    assert!(h.has_metadata && h.is_new_object_list && h.has_raw_data);
    assert!(!h.is_interleaved && !h.is_big_endian && !h.has_daqmx);
}

#[test]
fn header_big_endian_offsets() {
    let b = header_bytes(0x40 | 0x20 | 0x80 | 0x02, 0x0102_0304, 0x0506, true);
    let h = SegmentHeader::parse(&b).unwrap();
    assert!(h.is_big_endian && h.is_interleaved && h.has_daqmx && h.has_metadata);
    assert!(!h.has_raw_data && !h.is_new_object_list);
    assert_eq!(h.next_segment_offset, 0x0102_0304);
    assert_eq!(h.raw_data_offset, 0x0506);
}

#[test]
fn header_bad_lead_in() {
    let mut b = header_bytes(0x0e, 0, 0, false);
    b[0..4].copy_from_slice(b"TDSh");
    match SegmentHeader::parse(&b) {
        Err(TdmsError::InvalidLeadIn(x)) => assert_eq!(&x, b"TDSh"),
        other => panic!("unexpected {:?}", other),
    }
    assert_eq!(HEADER_SIZE, 28);
}

#[test]
fn object_paths() {
    assert_eq!(parse_object_path("/"), (None, None));
    assert_eq!(parse_object_path("'/'"), (None, None));
    assert_eq!(parse_object_path(""), (None, None));
    assert_eq!(parse_object_path("   "), (None, None));
    assert_eq!(parse_object_path("/'Group'"), (Some("Group".to_string()), None));
    assert_eq!(parse_object_path("  /'Group'/'Chan'  "), (Some("Group".to_string()), Some("Chan".to_string())));
    assert_eq!(parse_object_path("/\"G\"/\"C\""), (Some("G".to_string()), Some("C".to_string())));
    assert_eq!(parse_object_path("/'G'/'C'/'X'"), (Some("G".to_string()), Some("C".to_string())));
    assert_eq!(parse_object_path("//"), (None, None));
    assert_eq!(parse_object_path("/'  G  '"), (Some("G".to_string()), None));
    assert_eq!(parse_object_path("/''/'C'"), (Some("C".to_string()), None));
    assert_eq!(parse_object_path("/'\u{3000}Ü\u{3000}'"), (Some("Ü".to_string()), None));
}

#[test]
fn reader_numbers_and_eof() {
    let data = [1u8, 0, 0, 0, 0, 0, 0, 0, 2];
    let mut r = SliceReader::new(&data, false);
    assert_eq!(r.read_u32().unwrap(), 1);
    assert_eq!(r.pos(), 4);
    let mut b = SliceReader::new(&data[1..], true);
    assert_eq!(b.read_u64().unwrap(), 2);
    assert_eq!(b.remaining(), 0);
    assert!(matches!(b.read_u8(), Err(TdmsError::UnexpectedEof { required: 1, available: 0 })));
    assert!(matches!(r.read_u64(), Err(TdmsError::UnexpectedEof { required: 8, available: 5 })));
}

#[test]
fn reader_strings() {
    let mut buf = Vec::new();
    put_str(&mut buf, "héllo");
    buf.extend_from_slice(&2u32.to_le_bytes());
    buf.extend_from_slice(&[0xff, 0xfe]);
    let mut r = SliceReader::new(&buf, false);
    assert_eq!(r.read_string().unwrap(), "héllo");
    assert!(matches!(r.read_string(), Err(TdmsError::InvalidString { offset: 14 })));
}

fn sample_values() -> Vec<PropertyValue> {
    vec![
        PropertyValueOf::Void,
        PropertyValueOf::I8(-5),
        PropertyValueOf::I16(-300),
        PropertyValueOf::I32(-70000),
        PropertyValueOf::I64(-5_000_000_000),
        PropertyValueOf::U8(200),
        PropertyValueOf::U16(60000),
        PropertyValueOf::U32(4_000_000_000),
        PropertyValueOf::U64(u64::MAX),
        PropertyValueOf::SingleFloat(1.5f32.to_bits()),
        PropertyValueOf::DoubleFloat((-2.25f64).to_bits()),
        PropertyValueOf::String("xpTDMS Developer".to_string()),
        PropertyValueOf::Boolean(true),
        PropertyValueOf::Timestamp(TdmsTimestamp::new(-7, 12345)),
    ]
}

fn same_value(a: &PropertyValue, b: &PropertyValue) -> bool {
    format!("{:?}", a) == format!("{:?}", b)
}

#[test]
fn property_values_read_back() {
    for v in sample_values() {
        let mut buf = vec![7u8];
        write_property_value(&mut buf, &v);
        let mut r = SliceReader::new(&buf[1..], false);
        let back = PropertyValue::parse(&mut r).unwrap();
        assert!(same_value(&v, &back), "{:?} vs {:?}", v, back);
        assert_eq!(r.remaining(), 0);
    }
}

#[test]
fn property_value_bytes() {
    let mut buf = Vec::new();
    write_property_value(&mut buf, &PropertyValueOf::I16(-2));
    assert_eq!(buf, vec![0x02, 0, 0, 0, 0xfe, 0xff]);
    let mut buf = Vec::new();
    write_property_value(&mut buf, &PropertyValueOf::String("ab".to_string()));
    assert_eq!(buf, vec![0x20, 0, 0, 0, 2, 0, 0, 0, b'a', b'b']);
    let mut buf = Vec::new();
    write_property_value(&mut buf, &PropertyValueOf::Boolean(true));
    assert_eq!(buf, vec![0x21, 0, 0, 0, 1]);
}

#[test]
fn property_boolean_and_unsupported() {
    let buf = [0x21u8, 0, 0, 0, 7];
    let mut r = SliceReader::new(&buf, false);
    assert!(matches!(PropertyValue::parse(&mut r), Ok(PropertyValueOf::Boolean(true))));
    let buf = [0x0Bu8, 0, 0, 0];
    let mut r = SliceReader::new(&buf, false);
    assert!(matches!(PropertyValue::parse(&mut r), Err(TdmsError::InvalidDataType(0x0B))));
    let buf = [0, 0, 0, 0x03u8, 0xff, 0xff, 0xff, 0xfe];
    let mut r = SliceReader::new(&buf, true);
    assert!(matches!(PropertyValue::parse(&mut r), Ok(PropertyValueOf::I32(-2))));
}

#[test]
fn name_map_insert_get_extend() {
    let mut m: PropertyMap = NameMap::new();
    m.insert("a".to_string(), PropertyValueOf::U8(1));
    m.insert("b".to_string(), PropertyValueOf::U8(2));
    m.insert("a".to_string(), PropertyValueOf::U8(3));
    assert_eq!(m.len(), 2);
    assert!(matches!(m.get("a"), Some(PropertyValueOf::U8(3))));
    assert!(m.get("c").is_none());
    assert_eq!(m.key_at(0), "a");
    let mut n: PropertyMap = NameMap::new();
    n.insert("b".to_string(), PropertyValueOf::U8(9));
    n.insert("c".to_string(), PropertyValueOf::U8(8));
    m.extend_from(&n);
    assert_eq!(m.len(), 3);
    assert!(matches!(m.get("b"), Some(PropertyValueOf::U8(9))));
    assert!(matches!(m.get("c"), Some(PropertyValueOf::U8(8))));
    assert!(matches!(m.get("a"), Some(PropertyValueOf::U8(3))));
}

#[test]
fn properties_read_back() {
    let mut m: PropertyMap = NameMap::new();
    for (i, v) in sample_values().into_iter().enumerate() {
        m.insert(format!("p{}", i), v);
    }
    let mut buf = Vec::new();
    write_properties(&mut buf, &m);
    let mut r = SliceReader::new(&buf, false);
    let n = r.read_u32().unwrap();
    let back = parse_properties(&mut r, n).unwrap();
    assert_eq!(back.len(), m.len());
    for i in 0..m.len() {
        let k = m.key_at(i);
        assert!(same_value(m.value_at(i), back.get(k).unwrap()));
    }
}

fn metadata_with_inheritance(first: bool) -> Vec<u8> {
    let mut m = Vec::new();
    m.extend_from_slice(&2u32.to_le_bytes());
    put_str(&mut m, "/'G'/'A'");
    if first {
        m.extend_from_slice(&20u32.to_le_bytes());
        m.extend_from_slice(&DataType::I32.code().to_le_bytes());
        m.extend_from_slice(&1u32.to_le_bytes());
        m.extend_from_slice(&7u64.to_le_bytes());
        m.extend_from_slice(&[0xAA; 4]);
    } else {
        m.extend_from_slice(&0u32.to_le_bytes());
    }
    m.extend_from_slice(&1u32.to_le_bytes());
    put_str(&mut m, "unit");
    m.extend_from_slice(&DataType::String.code().to_le_bytes());
    put_str(&mut m, "V");
    put_str(&mut m, "/'G'/'B'");
    m.extend_from_slice(&0xFFFF_FFFFu32.to_le_bytes());
    m.extend_from_slice(&0u32.to_le_bytes());
    m
}

#[test]
fn metadata_index_inheritance() {
    let header = SegmentHeader::parse(&header_bytes(0x0e, 0xFFFF_FFFF_FFFF_FFFF, 0, false)).unwrap();
    let mut prev: NameMap<ObjectRawDataIndex> = NameMap::new();
    let m1 = metadata_with_inheritance(true);
    let mut r = SliceReader::new(&m1, false);
    let s1 = SegmentIndex::parse_metadata(&mut r, &header, 100, 500, &mut prev).unwrap();
    assert_eq!(r.remaining(), 0);
    assert_eq!(s1.metadata_offset, 128);
    assert_eq!(s1.raw_data_offset, 128);
    assert_eq!(s1.segment_total_size, 400);
    assert_eq!(s1.objects.len(), 2);
    let idx = s1.objects[0].raw_data_index.unwrap();
    assert_eq!(idx.data_type, DataType::I32);
    assert_eq!(idx.number_of_values, 7);
    assert!(s1.objects[1].raw_data_index.is_none());
    assert!(matches!(s1.objects[0].properties.get("unit"), Some(PropertyValueOf::String(s)) if s == "V"));

    let m2 = metadata_with_inheritance(false);
    let mut r = SliceReader::new(&m2, false);
    let s2 = SegmentIndex::parse_metadata(&mut r, &header, 0, 10, &mut prev).unwrap();
    assert_eq!(s2.objects[0].raw_data_index.unwrap().number_of_values, 7);
    assert_eq!(s2.segment_total_size, 10);
}

#[test]
fn metadata_truncated() {
    let header = SegmentHeader::parse(&header_bytes(0x0e, 10, 0, false)).unwrap();
    let mut prev: NameMap<ObjectRawDataIndex> = NameMap::new();
    let m1 = metadata_with_inheritance(true);
    let mut r = SliceReader::new(&m1[..10], false);
    assert!(matches!(
        SegmentIndex::parse_metadata(&mut r, &header, 0, 10, &mut prev),
        Err(TdmsError::UnexpectedEof { .. })
    ));
}

#[test]
fn written_channel_read_back() {
    let values: Vec<i32> = vec![1, -2, 3, i32::MAX, i32::MIN];
    let mut raw = Vec::new();
    for v in &values {
        raw.extend_from_slice(&v.to_le_bytes());
    }
    let bytes = channel_segment("Grp", "Ch", DataType::I32, values.len() as u64, &raw);
    let file = parse_bytes(&bytes).unwrap();
    assert_eq!(file.segments.len(), 1);
    let ch = file.channel("Grp", "Ch").unwrap();
    assert_eq!(ch.data_type, Some(DataType::I32));
    assert_eq!(ch.number_of_values, 5);
    assert_eq!(ch.path, "/'Grp'/'Ch'");
    assert_eq!(file.group("Grp").unwrap().path, "/'Grp'");
    assert_eq!(file.read_channel_data::<i32>("Grp", "Ch").unwrap(), values);
    assert_eq!(file.mmap().len(), bytes.len());
}

#[test]
fn channel_not_found_and_type_mismatch() {
    let bytes = channel_segment("G", "C", DataType::U16, 2, &[1, 0, 2, 0]);
    let file = parse_bytes(&bytes).unwrap();
    assert_eq!(file.read_channel_data::<u16>("G", "C").unwrap(), vec![1, 2]);
    match file.read_channel_data::<u16>("G", "X") {
        Err(TdmsError::CorruptedMetadata { offset, reason }) => {
            assert_eq!(offset, 0);
            assert_eq!(reason, "Channel '/\"G\"/\"X\"' not found");
        }
        other => panic!("unexpected {:?}", other),
    }
    match file.read_channel_data::<i64>("G", "C") {
        Err(TdmsError::CorruptedMetadata { offset, reason }) => {
            assert_eq!(offset, 0);
            assert_eq!(reason, "Channel data type mismatch: expected I64, found U16");
        }
        other => panic!("unexpected {:?}", other),
    }
}

#[test]
fn big_endian_segment_values() {
    let mut meta = Vec::new();
    meta.extend_from_slice(&1u32.to_be_bytes());
    let path = "/'B'/'V'";
    meta.extend_from_slice(&(path.len() as u32).to_be_bytes());
    meta.extend_from_slice(path.as_bytes());
    meta.extend_from_slice(&20u32.to_be_bytes());
    meta.extend_from_slice(&DataType::U16.code().to_be_bytes());
    meta.extend_from_slice(&1u32.to_be_bytes());
    meta.extend_from_slice(&2u64.to_be_bytes());
    meta.extend_from_slice(&0u32.to_be_bytes());
    meta.extend_from_slice(&0u32.to_be_bytes());
    let raw = [0x01u8, 0x02, 0x03, 0x04];
    let mut bytes = header_bytes(0x4a, (meta.len() + raw.len()) as u64, meta.len() as u64, true).to_vec();
    bytes.extend_from_slice(&meta);
    bytes.extend_from_slice(&raw);
    let file = parse_bytes(&bytes).unwrap();
    assert_eq!(file.read_channel_data::<u16>("B", "V").unwrap(), vec![0x0102, 0x0304]);
    let vals = file.read_channel_values("B", "V", DataType::U16).unwrap();
    assert!(vals.iter().all(|v| v.big_endian && v.bytes.len() == 2));
}

#[test]
fn file_errors() {
    let mut bytes = channel_segment("G", "C", DataType::U8, 1, &[5]);
    let good_len = bytes.len();
    bytes[0] = b'X';
    assert!(matches!(parse_bytes(&bytes), Err(TdmsError::InvalidLeadIn(_))));

    // A bad second lead-in ends the index.
    let mut two = channel_segment("G", "C", DataType::U8, 1, &[5]);
    two.extend_from_slice(&[0u8; 40]);
    let file = parse_bytes(&two).unwrap();
    assert_eq!(file.segments.len(), 1);
    assert_eq!(file.read_channel_data::<u8>("G", "C").unwrap(), vec![5]);

    // Metadata past the end of the file.
    let short = header_bytes(0x0e, 100, 100, false);
    match parse_bytes(&short) {
        Err(TdmsError::UnexpectedEof { required, available }) => {
            assert_eq!(required, 128);
            assert_eq!(available, 28);
        }
        other => panic!("unexpected {:?}", other),
    }
    assert!(good_len > HEADER_SIZE);
}

#[test]
fn segments_follow_each_other() {
    let mut bytes = channel_segment("G", "C", DataType::U32, 2, &[1, 0, 0, 0, 2, 0, 0, 0]);
    bytes.extend_from_slice(&channel_segment("G", "C", DataType::U32, 1, &[3, 0, 0, 0]));
    let file = parse_bytes(&bytes).unwrap();
    assert_eq!(file.segments.len(), 2);
    assert_eq!(file.channel("G", "C").unwrap().number_of_values, 3);
    assert_eq!(file.read_channel_data::<u32>("G", "C").unwrap(), vec![1, 2, 3]);
    assert_eq!(file.segments[1].header_offset, file.segments[0].segment_total_size);
}

#[test]
fn defragmented_file_reads_the_same() {
    let mut bytes = channel_segment("G", "C", DataType::I16, 2, &[1, 0, 0xff, 0xff]);
    bytes.extend_from_slice(&channel_segment("G", "C", DataType::I16, 1, &[7, 0]));
    bytes.extend_from_slice(&channel_segment("H", "D", DataType::Boolean, 2, &[0, 9]));
    let file = parse_bytes(&bytes).unwrap();
    let defrag = Defragmenter::defragmented_bytes(&file);
    let back = parse_bytes(&defrag).unwrap();
    assert_eq!(back.segments.len(), 1);
    assert_eq!(back.read_channel_data::<i16>("G", "C").unwrap(), vec![1, -1, 7]);
    assert_eq!(back.read_channel_data::<bool>("H", "D").unwrap(), vec![false, true]);
    assert_eq!(back.channel("H", "D").unwrap().number_of_values, 2);
    assert_eq!(&defrag[0..4], b"TDSm");
    assert_eq!(u64::from_le_bytes(defrag[12..20].try_into().unwrap()) as usize, defrag.len() - 28);
}

#[test]
fn interleaved_two_channels() {
    let mut meta = Vec::new();
    meta.extend_from_slice(&2u32.to_le_bytes());
    for p in ["/'G'/'A'", "/'G'/'B'"] {
        put_str(&mut meta, p);
        meta.extend_from_slice(&16u32.to_le_bytes());
        meta.extend_from_slice(&DataType::U8.code().to_le_bytes());
        meta.extend_from_slice(&1u32.to_le_bytes());
        meta.extend_from_slice(&3u64.to_le_bytes());
        meta.extend_from_slice(&0u32.to_le_bytes());
    }
    let raw = [1u8, 10, 2, 20, 3, 30, 99];
    let mut bytes = header_bytes(0x2e, (meta.len() + raw.len()) as u64, meta.len() as u64, false).to_vec();
    bytes.extend_from_slice(&meta);
    bytes.extend_from_slice(&raw);
    let file = parse_bytes(&bytes).unwrap();
    assert_eq!(file.read_channel_data::<u8>("G", "A").unwrap(), vec![1, 2, 3]);
    assert_eq!(file.read_channel_data::<u8>("G", "B").unwrap(), vec![10, 20, 30]);
}

#[test]
fn chunks_of_values() {
    let data: Vec<u32> = (0..7).collect();
    let mut it = ChunkIterator::new(&data, 3);
    assert_eq!(it.next_chunk().unwrap(), &[0, 1, 2]);
    assert_eq!(it.next_chunk().unwrap(), &[3, 4, 5]);
    assert_eq!(it.next_chunk().unwrap(), &[6]);
    assert!(it.next_chunk().is_none());
    let all = ChunkIterator::new(&data, 7).collect_chunks();
    assert_eq!(all.len(), 1);
    let none = ChunkIterator::new(&data[..0], 4).collect_chunks();
    assert!(none.is_empty());
    for n in 1..9 {
        let joined: Vec<u32> = ChunkIterator::new(&data, n).collect_chunks().concat();
        assert_eq!(joined, data);
    }
}

#[test]
fn timestamps_and_root_properties() {
    let mut meta = Vec::new();
    meta.extend_from_slice(&1u32.to_le_bytes());
    put_str(&mut meta, "/");
    meta.extend_from_slice(&0xFFFF_FFFFu32.to_le_bytes());
    meta.extend_from_slice(&1u32.to_le_bytes());
    put_str(&mut meta, "when");
    meta.extend_from_slice(&DataType::Timestamp.code().to_le_bytes());
    meta.extend_from_slice(&5u64.to_le_bytes());
    meta.extend_from_slice(&(-1i64).to_le_bytes());
    let mut bytes = header_bytes(0x02, meta.len() as u64, meta.len() as u64, false).to_vec();
    bytes.extend_from_slice(&meta);
    let file = parse_bytes(&bytes).unwrap();
    match file.properties.get("when") {
        Some(PropertyValueOf::Timestamp(t)) => {
            assert_eq!(t.fraction, 5);
            assert_eq!(t.seconds, -1);
        }
        other => panic!("unexpected {:?}", other),
    }
    assert_eq!(file.groups.len(), 0);
}

fn put_str_be(buf: &mut Vec<u8>, s: &str) {
    buf.extend_from_slice(&(s.len() as u32).to_be_bytes());
    buf.extend_from_slice(s.as_bytes());
}

#[test]
fn defragmented_file_keeps_description_and_rewrites_values() {
    let mut meta = Vec::new();
    meta.extend_from_slice(&3u32.to_be_bytes());
    put_str_be(&mut meta, "/");
    meta.extend_from_slice(&0xFFFF_FFFFu32.to_be_bytes());
    meta.extend_from_slice(&1u32.to_be_bytes());
    put_str_be(&mut meta, "author");
    meta.extend_from_slice(&DataType::String.code().to_be_bytes());
    put_str_be(&mut meta, "me");
    put_str_be(&mut meta, "/'G'");
    meta.extend_from_slice(&0xFFFF_FFFFu32.to_be_bytes());
    meta.extend_from_slice(&1u32.to_be_bytes());
    put_str_be(&mut meta, "n");
    meta.extend_from_slice(&DataType::I32.code().to_be_bytes());
    meta.extend_from_slice(&5i32.to_be_bytes());
    put_str_be(&mut meta, "/'G'/'C'");
    meta.extend_from_slice(&16u32.to_be_bytes());
    meta.extend_from_slice(&DataType::U16.code().to_be_bytes());
    meta.extend_from_slice(&1u32.to_be_bytes());
    meta.extend_from_slice(&2u64.to_be_bytes());
    meta.extend_from_slice(&1u32.to_be_bytes());
    put_str_be(&mut meta, "unit");
    meta.extend_from_slice(&DataType::String.code().to_be_bytes());
    put_str_be(&mut meta, "V");
    let raw = [0x01u8, 0x02, 0x03, 0x04];
    let mut bytes = header_bytes(0x4e, (meta.len() + raw.len()) as u64, meta.len() as u64, true).to_vec();
    bytes.extend_from_slice(&meta);
    bytes.extend_from_slice(&raw);
    let file = parse_bytes(&bytes).unwrap();
    let defrag = Defragmenter::defragmented_bytes(&file);
    // The consolidated segment is little-endian: its values are rewritten.
    assert_eq!(&defrag[defrag.len() - 4..], &[0x02, 0x01, 0x04, 0x03]);
    let back = parse_bytes(&defrag).unwrap();
    assert_eq!(back.segments.len(), 1);
    assert!(matches!(back.properties.get("author"), Some(PropertyValueOf::String(s)) if s == "me"));
    let g = back.group("G").unwrap();
    assert_eq!(g.path, "/'G'");
    assert!(matches!(g.properties.get("n"), Some(PropertyValueOf::I32(5))));
    let c = back.channel("G", "C").unwrap();
    assert_eq!(c.path, "/'G'/'C'");
    assert_eq!(c.group_name, "G");
    assert_eq!(c.data_type, Some(DataType::U16));
    assert_eq!(c.number_of_values, 2);
    assert!(matches!(c.properties.get("unit"), Some(PropertyValueOf::String(s)) if s == "V"));
    assert_eq!(back.groups.len(), file.groups.len());
    assert_eq!(back.read_channel_data::<u16>("G", "C").unwrap(), vec![0x0102, 0x0304]);
    let vals = back.read_channel_values("G", "C", DataType::U16).unwrap();
    assert!(vals.iter().all(|v| !v.big_endian && v.bytes.len() == 2));
}

#[test]
fn defragmented_file_declares_only_what_it_holds() {
    let mut meta = Vec::new();
    meta.extend_from_slice(&3u32.to_le_bytes());
    put_str(&mut meta, "/'G'/'X'");
    meta.extend_from_slice(&16u32.to_le_bytes());
    meta.extend_from_slice(&DataType::SingleFloatComplex.code().to_le_bytes());
    meta.extend_from_slice(&1u32.to_le_bytes());
    meta.extend_from_slice(&2u64.to_le_bytes());
    meta.extend_from_slice(&0u32.to_le_bytes());
    put_str(&mut meta, "/'G'/'S'");
    meta.extend_from_slice(&24u32.to_le_bytes());
    meta.extend_from_slice(&DataType::String.code().to_le_bytes());
    meta.extend_from_slice(&1u32.to_le_bytes());
    meta.extend_from_slice(&2u64.to_le_bytes());
    meta.extend_from_slice(&11u64.to_le_bytes());
    meta.extend_from_slice(&0u32.to_le_bytes());
    put_str(&mut meta, "/'G'/'Y'");
    meta.extend_from_slice(&16u32.to_le_bytes());
    meta.extend_from_slice(&DataType::U8.code().to_le_bytes());
    meta.extend_from_slice(&1u32.to_le_bytes());
    meta.extend_from_slice(&3u64.to_le_bytes());
    meta.extend_from_slice(&0u32.to_le_bytes());
    let mut raw = vec![0xAAu8; 16];
    raw.extend_from_slice(&[2, 0, 0, 0, 3, 0, 0, 0, b'a', b'b', b'c']);
    raw.extend_from_slice(&[7, 8, 9]);
    let mut bytes = header_bytes(0x0e, (meta.len() + raw.len()) as u64, meta.len() as u64, false).to_vec();
    bytes.extend_from_slice(&meta);
    bytes.extend_from_slice(&raw);
    let file = parse_bytes(&bytes).unwrap();
    assert_eq!(file.read_channel_data::<u8>("G", "Y").unwrap(), vec![7, 8, 9]);
    let defrag = Defragmenter::defragmented_bytes(&file);
    let back = parse_bytes(&defrag).unwrap();
    // The complex channel's values are copied.
    let x = back.channel("G", "X").unwrap();
    assert_eq!(x.data_type, Some(DataType::SingleFloatComplex));
    assert_eq!(x.number_of_values, 2);
    // So are the string channel's strings.
    let s = back.channel("G", "S").unwrap();
    assert_eq!(s.data_type, Some(DataType::String));
    assert_eq!(s.number_of_values, 2);
    let blocks = back.string_blocks("G", "S");
    assert_eq!(blocks.len(), 1);
    assert_eq!(blocks[0].bytes, vec![2, 0, 0, 0, 3, 0, 0, 0, b'a', b'b', b'c']);
    assert_eq!(blocks[0].count, 2);
    assert_eq!(back.read_channel_data::<u8>("G", "Y").unwrap(), vec![7, 8, 9]);
    assert_eq!(back.channel("G", "Y").unwrap().number_of_values, 3);
    assert_eq!(&defrag[defrag.len() - 3..], &[7, 8, 9]);
}

#[test]
fn primitive_values_encode_and_decode() {
    let mut v = Vec::new();
    (-2i16).push_le(&mut v);
    assert_eq!(v, vec![0xfe, 0xff]);
    assert_eq!(<i16 as TdmsPrimitive>::decode(&v, false), -2);
    let mut w = Vec::new();
    0x0102_0304u32.push_le(&mut w);
    assert_eq!(w, vec![4, 3, 2, 1]);
    let mut t = Vec::new();
    TdmsTimestamp::new(-1, 5).push_le(&mut t);
    assert_eq!(t.len(), 16);
    assert_eq!(<TdmsTimestamp as TdmsPrimitive>::decode(&t, false), TdmsTimestamp::new(-1, 5));
    let mut b = Vec::new();
    true.push_le(&mut b);
    assert_eq!(b, vec![1]);
}

#[test]
fn defragmenting_a_written_file_gives_its_bytes() {
    let bytes = channel_segment("G", "C", DataType::I32, 3, &[1, 0, 0, 0, 0xfe, 0xff, 0xff, 0xff, 9, 0, 0, 0]);
    let file = parse_bytes(&bytes).unwrap();
    assert_eq!(Defragmenter::defragmented_bytes(&file), bytes);
    let flags = channel_segment("G", "B", DataType::Boolean, 2, &[1, 0]);
    let file = parse_bytes(&flags).unwrap();
    assert_eq!(Defragmenter::defragmented_bytes(&file), flags);
}

#[test]
fn trailing_bytes_leave_the_index() {
    let one = channel_segment("G", "C", DataType::U16, 2, &[1, 0, 2, 0]);
    let plain = parse_bytes(&one).unwrap();
    let mut short_tail = one.clone();
    short_tail.extend_from_slice(b"TDSm12");
    let mut bad_tail = one.clone();
    bad_tail.extend_from_slice(&[7u8; 30]);
    for bytes in [short_tail, bad_tail] {
        let file = parse_bytes(&bytes).unwrap();
        assert_eq!(file.segments.len(), 1);
        assert_eq!(file.segments[0].segment_total_size, plain.segments[0].segment_total_size);
        assert_eq!(file.channel("G", "C").unwrap().number_of_values, 2);
        assert_eq!(file.read_channel_data::<u16>("G", "C").unwrap(), vec![1, 2]);
    }
}

#[test]
fn channel_type_is_the_last_declared() {
    let mut bytes = channel_segment("G", "C", DataType::U8, 3, &[1, 2, 3]);
    bytes.extend_from_slice(&channel_segment("G", "C", DataType::U16, 2, &[4, 0, 5, 0]));
    let file = parse_bytes(&bytes).unwrap();
    let ch = file.channel("G", "C").unwrap();
    assert_eq!(ch.data_type, Some(DataType::U16));
    assert_eq!(ch.number_of_values, 5);
}

#[test]
fn remaining_chunks_are_collected() {
    let data: Vec<u32> = (0..8).collect();
    let mut it = ChunkIterator::new(&data, 3);
    assert_eq!(it.next_chunk().unwrap(), &[0, 1, 2]);
    let rest = it.collect_chunks();
    assert_eq!(rest, vec![&[3u32, 4, 5][..], &[6, 7][..]]);
}

#[test]
fn values_segment_reads_back() {
    let data: Vec<i16> = vec![1, -2, 300];
    let bytes = values_segment("G", "C", &data);
    assert_eq!(encode_values(&data), vec![1, 0, 0xfe, 0xff, 0x2c, 0x01]);
    assert_eq!(bytes, channel_segment("G", "C", DataType::I16, 3, &[1, 0, 0xfe, 0xff, 0x2c, 0x01]));
    let file = parse_bytes(&bytes).unwrap();
    assert_eq!(file.channel("G", "C").unwrap().number_of_values, 3);
    assert_eq!(file.read_channel_data::<i16>("G", "C").unwrap(), data);
    let stamps = vec![TdmsTimestamp { seconds: 5, fraction: 7 }];
    let back = parse_bytes(&values_segment("G", "T", &stamps)).unwrap();
    assert_eq!(back.read_channel_data::<TdmsTimestamp>("G", "T").unwrap(), stamps);
}

#[test]
fn defragmenting_keeps_types_it_does_not_decode() {
    // A complex channel (two big-endian f32 halves per value), a fixed-point
    // channel and an i32 channel.
    let mut meta = Vec::new();
    meta.extend_from_slice(&4u32.to_be_bytes());
    let put_str = |m: &mut Vec<u8>, s: &str| {
        m.extend_from_slice(&(s.len() as u32).to_be_bytes());
        m.extend_from_slice(s.as_bytes());
    };
    put_str(&mut meta, "/'G'");
    meta.extend_from_slice(&0xFFFF_FFFFu32.to_be_bytes());
    meta.extend_from_slice(&0u32.to_be_bytes());
    for (name, code, count) in [("/'G'/'Z'", 0x0001_0009u32, 2u64), ("/'G'/'F'", 0x4Fu32, 3u64), ("/'G'/'I'", 3u32, 1u64)] {
        put_str(&mut meta, name);
        meta.extend_from_slice(&16u32.to_be_bytes());
        meta.extend_from_slice(&code.to_be_bytes());
        meta.extend_from_slice(&1u32.to_be_bytes());
        meta.extend_from_slice(&count.to_be_bytes());
        meta.extend_from_slice(&0u32.to_be_bytes());
    }
    let mut raw = Vec::new();
    for x in [1u32, 2, 3, 4] {
        raw.extend_from_slice(&x.to_be_bytes());
    }
    raw.extend_from_slice(&(-5i32).to_be_bytes());
    let mut bytes = header_bytes(0x0e | 0x40, (meta.len() + raw.len()) as u64, meta.len() as u64, true).to_vec();
    bytes.extend_from_slice(&meta);
    bytes.extend_from_slice(&raw);
    let file = parse_bytes(&bytes).unwrap();
    assert_eq!(file.channel("G", "Z").unwrap().data_type, Some(DataType::SingleFloatComplex));
    let defrag = Defragmenter::defragmented_bytes(&file);
    let back = parse_bytes(&defrag).unwrap();
    let z = back.channel("G", "Z").unwrap();
    assert_eq!(z.data_type, Some(DataType::SingleFloatComplex));
    assert_eq!(z.number_of_values, 2);
    let zs = back.read_channel_values("G", "Z", DataType::SingleFloatComplex).unwrap();
    assert_eq!(zs[0].bytes, vec![1, 0, 0, 0, 2, 0, 0, 0]);
    assert_eq!(zs[1].bytes, vec![3, 0, 0, 0, 4, 0, 0, 0]);
    let f = back.channel("G", "F").unwrap();
    assert_eq!(f.data_type, Some(DataType::FixedPoint));
    assert_eq!(f.number_of_values, 3);
    assert_eq!(back.read_channel_data::<i32>("G", "I").unwrap(), vec![-5]);
}

fn string_segment(strings: &[&str], big_endian: bool) -> Vec<u8> {
    let u32b = |x: u32| if big_endian { x.to_be_bytes() } else { x.to_le_bytes() };
    let u64b = |x: u64| if big_endian { x.to_be_bytes() } else { x.to_le_bytes() };
    let mut raw = Vec::new();
    let mut end = 0u32;
    for s in strings {
        end += s.len() as u32;
        raw.extend_from_slice(&u32b(end));
    }
    for s in strings {
        raw.extend_from_slice(s.as_bytes());
    }
    let mut meta = Vec::new();
    meta.extend_from_slice(&u32b(1));
    let path = "/'G'/'S'";
    meta.extend_from_slice(&u32b(path.len() as u32));
    meta.extend_from_slice(path.as_bytes());
    meta.extend_from_slice(&u32b(24));
    meta.extend_from_slice(&u32b(DataType::String.code()));
    meta.extend_from_slice(&u32b(1));
    meta.extend_from_slice(&u64b(strings.len() as u64));
    meta.extend_from_slice(&u64b(raw.len() as u64));
    meta.extend_from_slice(&u32b(0));
    let toc = if big_endian { 0x0e | 0x40 } else { 0x0e };
    let mut bytes = header_bytes(toc, (meta.len() + raw.len()) as u64, meta.len() as u64, big_endian).to_vec();
    bytes.extend_from_slice(&meta);
    bytes.extend_from_slice(&raw);
    bytes
}

#[test]
fn defragmenting_joins_strings() {
    let mut bytes = string_segment(&["ab", "c"], false);
    bytes.extend_from_slice(&string_segment(&["de"], true));
    let file = parse_bytes(&bytes).unwrap();
    assert_eq!(file.channel("G", "S").unwrap().number_of_values, 3);
    let blocks = file.string_blocks("G", "S");
    assert_eq!(blocks.len(), 2);
    assert_eq!(blocks[1].bytes, vec![0, 0, 0, 2, b'd', b'e']);
    assert!(blocks[1].big_endian);
    let defrag = Defragmenter::defragmented_bytes(&file);
    let back = parse_bytes(&defrag).unwrap();
    let s = back.channel("G", "S").unwrap();
    assert_eq!(s.data_type, Some(DataType::String));
    assert_eq!(s.number_of_values, 3);
    let joined = back.string_blocks("G", "S");
    assert_eq!(joined.len(), 1);
    assert_eq!(joined[0].count, 3);
    assert_eq!(joined[0].bytes, vec![2, 0, 0, 0, 3, 0, 0, 0, 5, 0, 0, 0, b'a', b'b', b'c', b'd', b'e']);
}

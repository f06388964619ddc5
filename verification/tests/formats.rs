use binform::{
    BigEndian, ByteReader, CPEntry, CPIndex, CPType, ClassFile, ClassInfo, ConstantPool,
    Container, Endian, FieldInfo, FromBytes, IoError, LittleEndian, ReadError, ToBytes,
    UTF8Info, WriteError,
};

fn read<T: FromBytes<BigEndian, ()>>(bytes: &[u8]) -> (Result<T, ReadError>, usize) {
    let mut r = ByteReader::new(bytes.to_vec());
    let v = T::from_bytes(&mut r);
    (v, r.position())
}

fn write<T: ToBytes<BigEndian, ()>>(v: &T) -> (Result<(), WriteError>, Vec<u8>) {
    let mut out = Vec::new();
    let r = v.to_bytes(&mut out);
    (r, out)
}

const POOL_BYTES: [u8; 17] = [
    0xCA, 0xFE, 0xBA, 0xBE, // magic
    0x00, 0x03, // count
    0x01, // UTF8
    0x00, 0x02, // len = 2
    0x01, 0x01, // 01 01
    0x07, // ClassInfo
    0x00, 0x01, //
    0x07, // ClassInfo
    0x00, 0x02,
];

#[test]
fn constant_pool_from_program_input() {
    let (pool, pos) = read::<ConstantPool>(&POOL_BYTES);
    let pool = pool.unwrap();
    assert_eq!(pos, POOL_BYTES.len());
    let entries = pool.entries();
    assert_eq!(entries.len(), 3);
    match &entries[0] {
        CPEntry::UTF8(info) => assert_eq!(info.data(), &vec![1u8, 1]),
        other => panic!("unexpected entry {:?}", other),
    }
    match &entries[1] {
        CPEntry::Class(info) => assert_eq!(info.name_index().index(), 1),
        other => panic!("unexpected entry {:?}", other),
    }
    match &entries[2] {
        CPEntry::Class(info) => assert_eq!(info.name_index().index(), 2),
        other => panic!("unexpected entry {:?}", other),
    }
    let (r, out) = write(&pool);
    assert!(r.is_ok());
    assert_eq!(out, POOL_BYTES.to_vec());
}

#[test]
fn container_from_program_input() {
    let mut r = ByteReader::new(vec![0x01, 0x05]);
    let c = <Container as FromBytes<LittleEndian, ()>>::from_bytes(&mut r).unwrap();
    assert_eq!(c.value, vec![5u8]);
    assert_eq!(r.position(), 2);
}

#[test]
fn container_runs_out() {
    let mut r = ByteReader::new(vec![0x02, 0x05]);
    let c = <Container as FromBytes<BigEndian, ()>>::from_bytes(&mut r);
    assert!(matches!(c, Err(ReadError::IO(IoError::UnexpectedEof))));
    assert_eq!(r.position(), 2);
}

#[test]
fn integers_in_both_orders() {
    let mut r = ByteReader::new(vec![0x12, 0x34, 0x12, 0x34]);
    assert_eq!(<u16 as FromBytes<BigEndian, ()>>::from_bytes(&mut r).unwrap(), 0x1234);
    assert_eq!(<u16 as FromBytes<LittleEndian, ()>>::from_bytes(&mut r).unwrap(), 0x3412);
    assert!(matches!(
        <u16 as FromBytes<LittleEndian, ()>>::from_bytes(&mut r),
        Err(ReadError::IO(IoError::UnexpectedEof))
    ));

    let mut out = Vec::new();
    <u32 as ToBytes<BigEndian, ()>>::to_bytes(&0x0102_0304, &mut out).unwrap();
    <u32 as ToBytes<LittleEndian, ()>>::to_bytes(&0x0102_0304, &mut out).unwrap();
    assert_eq!(out, vec![1, 2, 3, 4, 4, 3, 2, 1]);

    let mut out = Vec::new();
    <u64 as ToBytes<BigEndian, ()>>::to_bytes(&0x0102_0304_0506_0708, &mut out).unwrap();
    assert_eq!(out, vec![1, 2, 3, 4, 5, 6, 7, 8]);
    let mut r = ByteReader::new(out);
    assert_eq!(
        <u64 as FromBytes<LittleEndian, ()>>::from_bytes(&mut r).unwrap(),
        0x0807_0605_0403_0201
    );
}

#[test]
fn signed_integers() {
    let mut out = Vec::new();
    <i16 as ToBytes<BigEndian, ()>>::to_bytes(&-2, &mut out).unwrap();
    <i32 as ToBytes<LittleEndian, ()>>::to_bytes(&-1000, &mut out).unwrap();
    <i64 as ToBytes<BigEndian, ()>>::to_bytes(&i64::MIN, &mut out).unwrap();
    <i8 as ToBytes<BigEndian, ()>>::to_bytes(&-128, &mut out).unwrap();
    assert_eq!(&out[..2], &[0xFF, 0xFE]);
    assert_eq!(&out[2..6], &(-1000i32).to_le_bytes());
    assert_eq!(&out[6..14], &[0x80, 0, 0, 0, 0, 0, 0, 0]);
    assert_eq!(out[14], 0x80);
    let mut r = ByteReader::new(out);
    assert_eq!(<i16 as FromBytes<BigEndian, ()>>::from_bytes(&mut r).unwrap(), -2);
    assert_eq!(<i32 as FromBytes<LittleEndian, ()>>::from_bytes(&mut r).unwrap(), -1000);
    assert_eq!(<i64 as FromBytes<BigEndian, ()>>::from_bytes(&mut r).unwrap(), i64::MIN);
    assert_eq!(<i8 as FromBytes<BigEndian, ()>>::from_bytes(&mut r).unwrap(), -128);
    assert_eq!(r.position(), 15);
}

#[test]
fn bool_reads_any_nonzero_as_true_and_writes_one() {
    let mut r = ByteReader::new(vec![0, 1, 2]);
    assert_eq!(<bool as FromBytes<BigEndian, ()>>::from_bytes(&mut r).unwrap(), false);
    assert_eq!(<bool as FromBytes<BigEndian, ()>>::from_bytes(&mut r).unwrap(), true);
    let b = <bool as FromBytes<BigEndian, ()>>::from_bytes(&mut r).unwrap();
    assert!(b);
    let mut out = Vec::new();
    <bool as ToBytes<BigEndian, ()>>::to_bytes(&b, &mut out).unwrap();
    <bool as ToBytes<BigEndian, ()>>::to_bytes(&false, &mut out).unwrap();
    assert_eq!(out, vec![1, 0]);
}

#[test]
fn phantom_data_takes_no_bytes() {
    let mut r = ByteReader::new(vec![7]);
    let _p = <std::marker::PhantomData<u32> as FromBytes<BigEndian, ()>>::from_bytes(&mut r)
        .unwrap();
    assert_eq!(r.position(), 0);
    let mut out = vec![9];
    <std::marker::PhantomData<u32> as ToBytes<BigEndian, ()>>::to_bytes(
        &std::marker::PhantomData,
        &mut out,
    )
    .unwrap();
    assert_eq!(out, vec![9]);
}

#[test]
fn sequences_with_prefixes() {
    let v: Vec<u16> = vec![1, 2, 0x0300];
    let mut out = Vec::new();
    <Vec<u16> as ToBytes<BigEndian, u8>>::to_bytes(&v, &mut out).unwrap();
    assert_eq!(out, vec![3, 0, 1, 0, 2, 3, 0]);
    <Vec<u16> as ToBytes<LittleEndian, u16>>::to_bytes(&v, &mut out).unwrap();
    assert_eq!(&out[7..], &[3, 0, 1, 0, 2, 0, 0, 3]);
    let mut r = ByteReader::new(out);
    assert_eq!(<Vec<u16> as FromBytes<BigEndian, u8>>::from_bytes(&mut r).unwrap(), v);
    assert_eq!(<Vec<u16> as FromBytes<LittleEndian, u16>>::from_bytes(&mut r).unwrap(), v);
}

#[test]
fn sequence_too_long_for_prefix() {
    let v: Vec<u8> = vec![0; 256];
    let mut out = vec![42];
    let r = <Vec<u8> as ToBytes<BigEndian, u8>>::to_bytes(&v, &mut out);
    assert!(matches!(r, Err(WriteError::TooLarge(256))));
    assert_eq!(out, vec![42]);
    let v: Vec<u8> = vec![0; 255];
    let mut out = Vec::new();
    assert!(<Vec<u8> as ToBytes<BigEndian, u8>>::to_bytes(&v, &mut out).is_ok());
    assert_eq!(out.len(), 256);
    assert_eq!(out[0], 255);
}

#[test]
fn wrong_magic_is_refused_after_reading_it() {
    let mut bytes = POOL_BYTES.to_vec();
    bytes[3] = 0xBF;
    let (pool, pos) = read::<ConstantPool>(&bytes);
    assert!(matches!(pool, Err(ReadError::InvalidExpectation)));
    assert_eq!(pos, 4);
}

#[test]
fn unknown_tag_is_refused_after_reading_it() {
    let (e, pos) = read::<CPEntry>(&[9, 0, 0]);
    assert!(matches!(e, Err(ReadError::UnknownTag)));
    assert_eq!(pos, 1);
    let (e, pos) = read::<CPEntry>(&[9]);
    assert!(matches!(e, Err(ReadError::UnknownTag)));
    assert_eq!(pos, 1);
}

#[test]
fn entry_variants_round_trip() {
    let entries = vec![
        CPEntry::Value,
        CPEntry::UTF8(UTF8Info::new(b"abc".to_vec())),
        CPEntry::Class(ClassInfo::new(CPIndex::new(0x0102))),
        CPEntry::Other { value: 0x0A0B, extra: 0x0C0D },
    ];
    let mut out = Vec::new();
    for e in &entries {
        e.to_bytes(&mut out).unwrap();
    }
    assert_eq!(
        out,
        vec![2, 1, 0, 3, b'a', b'b', b'c', 7, 1, 2, 3, 0x0A, 0x0B, 0x0C, 0x0D]
    );
    let mut r = ByteReader::new(out);
    for _ in 0..4 {
        let e = <CPEntry as FromBytes<BigEndian, ()>>::from_bytes(&mut r).unwrap();
        let _ = e;
    }
    assert_eq!(r.position(), 15);
    assert!(<CPEntry as FromBytes<BigEndian, ()>>::from_bytes(&mut r).is_err());
}

#[test]
fn fetch_picks_the_matching_kind() {
    let class = CPEntry::Class(ClassInfo::new(CPIndex::new(5)));
    let utf8 = CPEntry::UTF8(UTF8Info::new(vec![1, 2]));
    assert_eq!(ClassInfo::fetch(&class).unwrap().name_index().index(), 5);
    assert!(ClassInfo::fetch(&utf8).is_none());
    assert_eq!(UTF8Info::fetch(&utf8).unwrap().data(), &vec![1u8, 2]);
    assert!(UTF8Info::fetch(&class).is_none());
    assert!(UTF8Info::fetch(&CPEntry::Value).is_none());
}

#[test]
fn class_file_round_trip() {
    let mut cf = ClassFile::default();
    cf.minor_version = 3;
    cf.major_version = 52;
    cf.constant_pool = ConstantPool::new(vec![
        CPEntry::UTF8(UTF8Info::new(b"Main".to_vec())),
        CPEntry::Class(ClassInfo::new(CPIndex::new(1))),
    ]);
    cf.access_flags = 0x0021;
    cf.this_class = 2;
    cf.super_class = 0;
    cf.interfaces = vec![CPIndex::new(2), CPIndex::new(7)];
    cf.fields = vec![FieldInfo::new(), FieldInfo::new()];
    let (r, out) = write(&cf);
    assert!(r.is_ok());
    let expected: Vec<u8> = vec![
        0xCA, 0xFE, 0xBA, 0xBE, 0, 3, 0, 52, // magic, versions
        0xCA, 0xFE, 0xBA, 0xBE, 0, 2, // pool magic, count
        1, 0, 4, b'M', b'a', b'i', b'n', 7, 0, 1, // entries
        0, 0x21, 0, 2, 0, 0, // flags, this, super
        0, 2, 0, 2, 0, 7, // interfaces
        0, 2, // fields
        0, 0, // methods
        0, 0, // attributes
    ];
    assert_eq!(out, expected);
    let (back, pos) = read::<ClassFile>(&out);
    let back = back.unwrap();
    assert_eq!(pos, out.len());
    assert_eq!(back.minor_version, 3);
    assert_eq!(back.major_version, 52);
    assert_eq!(back.constant_pool.entries().len(), 2);
    assert_eq!(back.access_flags, 0x21);
    assert_eq!(back.this_class, 2);
    assert_eq!(back.interfaces.len(), 2);
    assert_eq!(back.interfaces[1].index(), 7);
    assert_eq!(back.fields.len(), 2);
    assert_eq!(back.methods.len(), 0);
    let (_, again) = write(&back);
    assert_eq!(again, out);
}

#[test]
fn class_file_truncated() {
    let (cf, pos) = read::<ClassFile>(&[0xCA, 0xFE, 0xBA, 0xBE, 0, 3, 0]);
    assert!(matches!(cf, Err(ReadError::IO(IoError::UnexpectedEof))));
    assert_eq!(pos, 6);
}

#[test]
fn default_endian_is_one_of_the_two() {
    let e = Endian::default();
    assert!(e == Endian::Big || e == Endian::Little);
    if u16::from_ne_bytes([1, 0]) == 1 {
        assert_eq!(e, Endian::Little);
    } else {
        assert_eq!(e, Endian::Big);
    }
}

#[test]
fn reader_take_and_into_inner() {
    let mut r = ByteReader::new(vec![1, 2, 3]);
    assert_eq!(r.take(2).unwrap(), vec![1, 2]);
    assert!(matches!(r.take(2), Err(ReadError::IO(IoError::UnexpectedEof))));
    assert_eq!(r.position(), 2);
    assert_eq!(r.into_inner(), vec![1, 2, 3]);
}

fn write_in<T: ToBytes<BigEndian, ()> + ToBytes<LittleEndian, ()>>(v: &T) -> (Vec<u8>, Vec<u8>) {
    let mut be = Vec::new();
    <T as ToBytes<BigEndian, ()>>::to_bytes(v, &mut be).unwrap();
    let mut le = Vec::new();
    <T as ToBytes<LittleEndian, ()>>::to_bytes(v, &mut le).unwrap();
    (be, le)
}

#[test]
fn every_width_in_both_orders() {
    let (be, le) = write_in(&0xA1B2u16);
    assert_eq!(be, 0xA1B2u16.to_be_bytes().to_vec());
    assert_eq!(le, 0xA1B2u16.to_le_bytes().to_vec());
    let (be, le) = write_in(&0xA1B2_C3D4u32);
    assert_eq!(be, 0xA1B2_C3D4u32.to_be_bytes().to_vec());
    assert_eq!(le, 0xA1B2_C3D4u32.to_le_bytes().to_vec());
    let (be, le) = write_in(&0xA1B2_C3D4_E5F6_0718u64);
    assert_eq!(be, 0xA1B2_C3D4_E5F6_0718u64.to_be_bytes().to_vec());
    assert_eq!(le, 0xA1B2_C3D4_E5F6_0718u64.to_le_bytes().to_vec());
    let (be, le) = write_in(&-12345i16);
    assert_eq!(be, (-12345i16).to_be_bytes().to_vec());
    assert_eq!(le, (-12345i16).to_le_bytes().to_vec());
    let (be, le) = write_in(&-123_456_789i32);
    assert_eq!(be, (-123_456_789i32).to_be_bytes().to_vec());
    assert_eq!(le, (-123_456_789i32).to_le_bytes().to_vec());
    let (be, le) = write_in(&-1_234_567_890_123i64);
    assert_eq!(be, (-1_234_567_890_123i64).to_be_bytes().to_vec());
    assert_eq!(le, (-1_234_567_890_123i64).to_le_bytes().to_vec());

    let bytes: Vec<u8> = vec![0xF1, 0x02, 0x03, 0x04, 0x05, 0x06, 0x07, 0x08];
    let mut r = ByteReader::new(bytes.clone());
    assert_eq!(<u32 as FromBytes<BigEndian, ()>>::from_bytes(&mut r).unwrap(), 0xF102_0304);
    assert_eq!(<u32 as FromBytes<LittleEndian, ()>>::from_bytes(&mut r).unwrap(), 0x0807_0605);
    let mut r = ByteReader::new(bytes.clone());
    assert_eq!(<u64 as FromBytes<BigEndian, ()>>::from_bytes(&mut r).unwrap(), 0xF102_0304_0506_0708);
    let mut r = ByteReader::new(bytes.clone());
    assert_eq!(<i16 as FromBytes<BigEndian, ()>>::from_bytes(&mut r).unwrap(), i16::from_be_bytes([0xF1, 0x02]));
    assert_eq!(<i16 as FromBytes<LittleEndian, ()>>::from_bytes(&mut r).unwrap(), 0x0403);
    let mut r = ByteReader::new(bytes.clone());
    assert_eq!(<i32 as FromBytes<BigEndian, ()>>::from_bytes(&mut r).unwrap(), i32::from_be_bytes([0xF1, 2, 3, 4]));
    assert_eq!(<i32 as FromBytes<LittleEndian, ()>>::from_bytes(&mut r).unwrap(), 0x0807_0605);
    let mut r = ByteReader::new(bytes.clone());
    assert_eq!(<i64 as FromBytes<LittleEndian, ()>>::from_bytes(&mut r).unwrap(), 0x0807_0605_0403_02F1);
    let mut r = ByteReader::new(bytes);
    assert_eq!(<i64 as FromBytes<BigEndian, ()>>::from_bytes(&mut r).unwrap(), i64::from_be_bytes([0xF1, 2, 3, 4, 5, 6, 7, 8]));
}

#[test]
fn big_endian_is_little_endian_reversed() {
    for v in [0u32, 1, 0x0102_0304, u32::MAX, 0xDEAD_BEEF] {
        let (be, mut le) = write_in(&v);
        le.reverse();
        assert_eq!(be, le);
    }
}

#[test]
fn reading_ignores_what_follows() {
    let mut bytes = POOL_BYTES.to_vec();
    bytes.extend_from_slice(&[0xAA, 0xBB]);
    let (pool, pos) = read::<ConstantPool>(&bytes);
    assert_eq!(pool.unwrap().entries().len(), 3);
    assert_eq!(pos, POOL_BYTES.len());
}

#[test]
fn every_value_written_is_read_back() {
    for v in [0u16, 1, 255, 256, 0x8000, u16::MAX] {
        let (be, le) = write_in(&v);
        let mut r = ByteReader::new(be);
        assert_eq!(<u16 as FromBytes<BigEndian, ()>>::from_bytes(&mut r).unwrap(), v);
        let mut r = ByteReader::new(le);
        assert_eq!(<u16 as FromBytes<LittleEndian, ()>>::from_bytes(&mut r).unwrap(), v);
    }
    let v: Vec<u32> = (0..300).map(|i| i * 1_000_003).collect();
    let mut out = Vec::new();
    <Vec<u32> as ToBytes<LittleEndian, u16>>::to_bytes(&v, &mut out).unwrap();
    assert_eq!(out.len(), 2 + 4 * 300);
    out.push(0x77);
    let mut r = ByteReader::new(out);
    assert_eq!(<Vec<u32> as FromBytes<LittleEndian, u16>>::from_bytes(&mut r).unwrap(), v);
    assert_eq!(r.position(), 2 + 4 * 300);
}

#[test]
fn wide_prefixes_are_written() {
    let v: Vec<u8> = vec![9, 8];
    let mut out = Vec::new();
    <Vec<u8> as ToBytes<BigEndian, u32>>::to_bytes(&v, &mut out).unwrap();
    <Vec<u8> as ToBytes<LittleEndian, u64>>::to_bytes(&v, &mut out).unwrap();
    assert_eq!(out, vec![0, 0, 0, 2, 9, 8, 2, 0, 0, 0, 0, 0, 0, 0, 9, 8]);
}

#[test]
fn endian_names() {
    assert_eq!(Endian::Big.as_ident(), "BigEndian");
    assert_eq!(Endian::Little.as_ident(), "LittleEndian");
}

#[test]
fn default_class_file_and_pool() {
    let cf = ClassFile::default();
    assert_eq!(cf.minor_version, 0);
    assert!(cf.constant_pool.entries().is_empty());
    assert!(cf.interfaces.is_empty());
    let pool = ConstantPool::default();
    let (r, out) = write(&pool);
    assert!(r.is_ok());
    assert_eq!(out, vec![0xCA, 0xFE, 0xBA, 0xBE, 0, 0]);
}

#[test]
fn error_conversions() {
    let e: ReadError = IoError::UnexpectedEof.into();
    assert!(matches!(e, ReadError::IO(IoError::UnexpectedEof)));
    let e: WriteError = IoError::WriteZero.into();
    assert!(matches!(e, WriteError::IO(IoError::WriteZero)));
}

#[test]
fn index_copies() {
    let i: CPIndex<ClassInfo> = CPIndex::new(42);
    let j = i.clone();
    let k = i;
    assert_eq!(i.index(), 42);
    assert_eq!(j.index(), 42);
    assert_eq!(k.index(), 42);
}

#[test]
fn every_cut_of_an_encoding_runs_out() {
    for k in 0..POOL_BYTES.len() {
        let (pool, _) = read::<ConstantPool>(&POOL_BYTES[..k]);
        assert!(matches!(pool, Err(ReadError::IO(IoError::UnexpectedEof))), "cut at {}", k);
    }
    let entry = CPEntry::Other { value: 1, extra: 2 };
    let (_, out) = write(&entry);
    for k in 0..out.len() {
        let (e, _) = read::<CPEntry>(&out[..k]);
        assert!(matches!(e, Err(ReadError::IO(IoError::UnexpectedEof))));
    }
}

use classfile::error::DecodeError;
use classfile::reader::ClassFile;

#[test]
fn reads_are_big_endian() {
    let mut f = ClassFile::new(vec![0x12, 0x34, 0xCA, 0xFE, 0xBA, 0xBE, 0x7F]);
    assert_eq!(f.read_u16(), Ok(0x1234));
    assert_eq!(f.read_u32(), Ok(0xCAFEBABE));
    assert_eq!(f.read_u8(), Ok(0x7F));
    assert_eq!(f.offset(), 7);
    assert_eq!(f.remaining(), 0);
}

#[test]
fn read_u16_takes_the_high_byte_first() {
    let mut f = ClassFile::new(vec![0x01, 0x00]);
    assert_eq!(f.read_u16(), Ok(256));
    let mut g = ClassFile::new(vec![0x00, 0x01]);
    assert_eq!(g.read_u16(), Ok(1));
}

#[test]
fn read_u32_reaches_the_largest_value() {
    let mut f = ClassFile::new(vec![0xFF, 0xFF, 0xFF, 0xFF]);
    assert_eq!(f.read_u32(), Ok(u32::MAX));
}

#[test]
fn read_bytes_returns_the_run_and_advances() {
    let mut f = ClassFile::new(vec![1, 2, 3, 4, 5]);
    assert_eq!(f.read_u8(), Ok(1));
    assert_eq!(f.read_bytes(3), Ok(vec![2, 3, 4]));
    assert_eq!(f.offset(), 4);
    assert_eq!(f.read_bytes(0), Ok(vec![]));
    assert_eq!(f.offset(), 4);
}

#[test]
fn a_short_read_fails_and_leaves_the_cursor() {
    let mut f = ClassFile::new(vec![9, 8, 7]);
    assert_eq!(f.read_u32(), Err(DecodeError::IoError));
    assert_eq!(f.offset(), 0);
    assert_eq!(f.read_u16(), Ok(0x0908));
    assert_eq!(f.read_u16(), Err(DecodeError::IoError));
    assert_eq!(f.offset(), 2);
    assert_eq!(f.read_bytes(2), Err(DecodeError::IoError));
    assert_eq!(f.offset(), 2);
    assert_eq!(f.read_u8(), Ok(7));
    assert_eq!(f.read_u8(), Err(DecodeError::IoError));
    assert_eq!(f.offset(), 3);
}

#[test]
fn an_empty_source_has_nothing_to_read() {
    let mut f = ClassFile::new(Vec::new());
    assert_eq!(f.remaining(), 0);
    assert_eq!(f.read_u8(), Err(DecodeError::IoError));
    assert_eq!(f.read_bytes(0), Ok(vec![]));
}

#[test]
fn a_huge_length_is_refused_without_reading() {
    let mut f = ClassFile::new(vec![0; 16]);
    assert_eq!(f.read_bytes(usize::MAX), Err(DecodeError::IoError));
    assert_eq!(f.offset(), 0);
}

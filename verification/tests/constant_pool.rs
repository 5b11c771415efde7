use classfile::constant_pool::{ConstantPool, ConstantPoolItem};
use classfile::error::DecodeError;
use classfile::reader::ClassFile;

fn utf8(text: &str) -> Vec<u8> {
    let mut out = vec![1, (text.len() >> 8) as u8, text.len() as u8];
    out.extend_from_slice(text.as_bytes());
    out
}

fn pool_bytes(count: u16, entries: &[Vec<u8>]) -> Vec<u8> {
    let mut out = vec![(count >> 8) as u8, count as u8];
    for e in entries {
        out.extend_from_slice(e);
    }
    out
}

fn read_pool(bytes: Vec<u8>) -> (Result<ConstantPool, DecodeError>, usize) {
    let mut f = ClassFile::new(bytes);
    let r = ConstantPool::new(&mut f);
    (r, f.offset())
}

fn sample() -> ConstantPool {
    // 1: Class -> 2, 2: "Sample", 3: Class -> 4, 4: "java/lang/Object", 5: Class -> 1,
    // 6: Class -> 9, 7: "main", 8: "Sample"
    let bytes = pool_bytes(
        9,
        &[
            vec![7, 0, 2],
            utf8("Sample"),
            vec![7, 0, 4],
            utf8("java/lang/Object"),
            vec![7, 0, 1],
            vec![7, 0, 9],
            utf8("main"),
            utf8("Sample"),
        ],
    );
    read_pool(bytes).0.unwrap()
}

#[test]
fn every_modelled_constant_is_decoded() {
    let bytes = pool_bytes(
        7,
        &[
            vec![7, 0x01, 0x02],
            vec![10, 0, 3, 0, 4],
            vec![11, 0, 5, 0, 6],
            vec![15, 6, 0, 7],
            vec![12, 0, 8, 0, 9],
            utf8("hi"),
        ],
    );
    let len = bytes.len();
    let (pool, end) = read_pool(bytes);
    assert_eq!(end, len);
    assert_eq!(
        pool.unwrap().items,
        vec![
            ConstantPoolItem::Class { name_index: 0x0102 },
            ConstantPoolItem::Methodref { class_index: 3, name_and_type_index: 4 },
            ConstantPoolItem::InterfaceMethodref { class_index: 5, name_and_type_index: 6 },
            ConstantPoolItem::MethodHandle { reference_kind: 6, reference_index: 7 },
            ConstantPoolItem::NameAndType { name_index: 8, descriptor_index: 9 },
            ConstantPoolItem::UTF8 { string: String::from("hi") },
        ]
    );
}

#[test]
fn the_pool_has_one_slot_less_than_its_count() {
    let (pool, end) = read_pool(pool_bytes(3, &[utf8("a"), utf8("b"), utf8("never read")]));
    assert_eq!(pool.unwrap().items.len(), 2);
    assert_eq!(end, 2 + 4 + 4);
}

#[test]
fn a_count_of_zero_or_one_is_an_empty_pool() {
    let (pool, end) = read_pool(pool_bytes(1, &[]));
    assert_eq!(pool.unwrap().items, vec![]);
    assert_eq!(end, 2);
    let (pool, end) = read_pool(pool_bytes(0, &[utf8("x")]));
    assert_eq!(pool.unwrap().items, vec![]);
    assert_eq!(end, 2);
}

#[test]
fn unmodelled_constants_keep_their_bytes_and_their_width() {
    let bytes = pool_bytes(
        8,
        &[
            vec![3, 1, 2, 3, 4],
            vec![4, 5, 6, 7, 8],
            vec![8, 0, 9],
            vec![9, 0, 1, 0, 2],
            vec![16, 0, 3],
            vec![18, 0, 4, 0, 5],
            utf8("end"),
        ],
    );
    let (pool, _) = read_pool(bytes);
    assert_eq!(
        pool.unwrap().items,
        vec![
            ConstantPoolItem::Unmodeled { tag: 3, bytes: vec![1, 2, 3, 4] },
            ConstantPoolItem::Unmodeled { tag: 4, bytes: vec![5, 6, 7, 8] },
            ConstantPoolItem::Unmodeled { tag: 8, bytes: vec![0, 9] },
            ConstantPoolItem::Unmodeled { tag: 9, bytes: vec![0, 1, 0, 2] },
            ConstantPoolItem::Unmodeled { tag: 16, bytes: vec![0, 3] },
            ConstantPoolItem::Unmodeled { tag: 18, bytes: vec![0, 4, 0, 5] },
            ConstantPoolItem::UTF8 { string: String::from("end") },
        ]
    );
}

#[test]
fn an_eight_byte_constant_takes_two_slots() {
    let bytes = pool_bytes(
        6,
        &[
            vec![5, 1, 2, 3, 4, 5, 6, 7, 8],
            utf8("after"),
            vec![6, 8, 7, 6, 5, 4, 3, 2, 1],
        ],
    );
    let len = bytes.len();
    let (pool, end) = read_pool(bytes);
    let pool = pool.unwrap();
    assert_eq!(end, len);
    assert_eq!(
        pool.items,
        vec![
            ConstantPoolItem::Unmodeled { tag: 5, bytes: vec![1, 2, 3, 4, 5, 6, 7, 8] },
            ConstantPoolItem::Unusable,
            ConstantPoolItem::UTF8 { string: String::from("after") },
            ConstantPoolItem::Unmodeled { tag: 6, bytes: vec![8, 7, 6, 5, 4, 3, 2, 1] },
            ConstantPoolItem::Unusable,
        ]
    );
    assert_eq!(pool.utf8(3), Ok(&String::from("after")));
    assert_eq!(pool.utf8(2), Err(DecodeError::InvalidConstantReference));
}

#[test]
fn an_eight_byte_constant_in_the_last_slot_takes_that_slot_only() {
    let (pool, _) = read_pool(pool_bytes(2, &[vec![6, 0, 0, 0, 0, 0, 0, 0, 1]]));
    assert_eq!(
        pool.unwrap().items,
        vec![ConstantPoolItem::Unmodeled { tag: 6, bytes: vec![0, 0, 0, 0, 0, 0, 0, 1] }]
    );
}

#[test]
fn an_unknown_tag_is_reported_with_the_tag() {
    let (pool, end) = read_pool(pool_bytes(3, &[utf8("ok"), vec![2, 0, 0]]));
    assert_eq!(pool, Err(DecodeError::UnsupportedConstantTag(2)));
    assert_eq!(end, 2 + 5 + 1);
    assert_eq!(
        read_pool(pool_bytes(2, &[vec![0]])).0,
        Err(DecodeError::UnsupportedConstantTag(0))
    );
    assert_eq!(
        read_pool(pool_bytes(2, &[vec![19, 0, 1]])).0,
        Err(DecodeError::UnsupportedConstantTag(19))
    );
    assert_eq!(
        read_pool(pool_bytes(2, &[vec![255]])).0,
        Err(DecodeError::UnsupportedConstantTag(255))
    );
}

#[test]
fn a_string_that_is_not_modified_utf8_is_reported() {
    let (pool, end) = read_pool(pool_bytes(2, &[vec![1, 0, 2, 0x41, 0xFF]]));
    assert_eq!(pool, Err(DecodeError::Utf8DecodeError));
    assert_eq!(end, 7);
}

#[test]
fn a_string_constant_is_decoded_from_modified_utf8() {
    let (pool, _) = read_pool(pool_bytes(
        2,
        &[vec![1, 0, 9, 0x61, 0xC0, 0x80, 0xED, 0xA0, 0xBD, 0xED, 0xB8, 0x80]],
    ));
    assert_eq!(
        pool.unwrap().items,
        vec![ConstantPoolItem::UTF8 { string: String::from("a\0\u{1F600}") }]
    );
}

#[test]
fn a_pool_cut_short_is_an_io_error() {
    let whole = pool_bytes(4, &[vec![7, 0, 2], utf8("Name"), vec![12, 0, 1, 0, 2]]);
    for m in 0..whole.len() {
        let (pool, end) = read_pool(whole[..m].to_vec());
        assert_eq!(pool, Err(DecodeError::IoError));
        assert!(end <= m);
    }
    assert!(read_pool(whole).0.is_ok());
}

#[test]
fn one_constant_at_a_time() {
    let mut f = ClassFile::new(vec![12, 0, 1, 0, 2, 7, 0, 9]);
    assert_eq!(
        ConstantPoolItem::new(&mut f),
        Ok(ConstantPoolItem::NameAndType { name_index: 1, descriptor_index: 2 })
    );
    assert_eq!(f.offset(), 5);
    let item = ConstantPoolItem::new(&mut f).unwrap();
    assert_eq!(item, ConstantPoolItem::Class { name_index: 9 });
    assert!(!item.is_wide());
    assert_eq!(ConstantPoolItem::new(&mut f), Err(DecodeError::IoError));
    assert!(ConstantPoolItem::Unmodeled { tag: 5, bytes: vec![0; 8] }.is_wide());
    assert!(ConstantPoolItem::Unmodeled { tag: 6, bytes: vec![0; 8] }.is_wide());
    assert!(!ConstantPoolItem::Unmodeled { tag: 3, bytes: vec![0; 4] }.is_wide());
}

#[test]
fn class_name_follows_the_class_constant_to_its_string() {
    let pool = sample();
    assert_eq!(pool.class_name(1), Ok(&String::from("Sample")));
    assert_eq!(pool.class_name(3), Ok(&String::from("java/lang/Object")));
}

#[test]
fn index_zero_and_indices_past_the_pool_are_invalid() {
    let pool = sample();
    assert_eq!(pool.items.len(), 8);
    for index in [0u16, 9, 10, 255, 256, u16::MAX] {
        assert_eq!(pool.class_name(index), Err(DecodeError::InvalidConstantReference));
        assert_eq!(pool.utf8(index), Err(DecodeError::InvalidConstantReference));
    }
    assert!(pool.utf8(8).is_ok());
}

#[test]
fn a_reference_to_the_wrong_kind_is_invalid() {
    let pool = sample();
    // slot 2 is a string, not a class
    assert_eq!(pool.class_name(2), Err(DecodeError::InvalidConstantReference));
    // slot 5 is a class whose name index points at a class
    assert_eq!(pool.class_name(5), Err(DecodeError::InvalidConstantReference));
    // slot 6 is a class whose name index points past the pool
    assert_eq!(pool.class_name(6), Err(DecodeError::InvalidConstantReference));
    // slot 1 is a class, not a string
    assert_eq!(pool.utf8(1), Err(DecodeError::InvalidConstantReference));
}

#[test]
fn utf8_index_by_name_finds_the_first_equal_string() {
    let pool = sample();
    assert_eq!(pool.utf8_item_index_by_name("Sample"), Some(2));
    assert_eq!(pool.utf8_item_index_by_name("java/lang/Object"), Some(4));
    assert_eq!(pool.utf8_item_index_by_name("main"), Some(7));
    assert_eq!(pool.utf8_item_index_by_name("Main"), None);
    assert_eq!(pool.utf8_item_index_by_name(""), None);
    assert_eq!(ConstantPool { items: vec![] }.utf8_item_index_by_name("x"), None);
}

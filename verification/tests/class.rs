use classfile::attributes::{AttributeItem, Attributes, LineNumberTable};
use classfile::class::{Class, FieldOrMethodItem, FieldOrMethods, Version, MAGIC};
use classfile::constant_pool::{ConstantPool, ConstantPoolItem};
use classfile::error::DecodeError;
use classfile::reader::ClassFile;

fn utf8(text: &str) -> Vec<u8> {
    let mut out = vec![1, (text.len() >> 8) as u8, text.len() as u8];
    out.extend_from_slice(text.as_bytes());
    out
}

fn record(name_index: u16, payload: &[u8]) -> Vec<u8> {
    let mut out = vec![(name_index >> 8) as u8, name_index as u8];
    out.extend_from_slice(&(payload.len() as u32).to_be_bytes());
    out.extend_from_slice(payload);
    out
}

fn code(max_stack: u16, max_locals: u16, code: &[u8], line: u16) -> Vec<u8> {
    let mut payload = Vec::new();
    payload.extend_from_slice(&max_stack.to_be_bytes());
    payload.extend_from_slice(&max_locals.to_be_bytes());
    payload.extend_from_slice(&(code.len() as u32).to_be_bytes());
    payload.extend_from_slice(code);
    payload.extend_from_slice(&[0, 0]);
    payload.extend_from_slice(&[0, 1]);
    let mut rows = vec![0, 1, 0, 0];
    rows.extend_from_slice(&line.to_be_bytes());
    payload.extend_from_slice(&record(7, &rows));
    record(6, &payload)
}

fn member(flags: u16, name: u16, descriptor: u16, attributes: &[Vec<u8>]) -> Vec<u8> {
    let mut out = Vec::new();
    out.extend_from_slice(&flags.to_be_bytes());
    out.extend_from_slice(&name.to_be_bytes());
    out.extend_from_slice(&descriptor.to_be_bytes());
    out.extend_from_slice(&(attributes.len() as u16).to_be_bytes());
    for a in attributes {
        out.extend_from_slice(a);
    }
    out
}

// A class `Return55` with a constructor and `static int main()` that returns 55, an interface,
// and a constant field with an attribute of a name the decoder does not know.
fn return55_with(super_class: u16) -> Vec<u8> {
    let mut out = vec![0xCA, 0xFE, 0xBA, 0xBE, 0x00, 0x03, 0x00, 0x34];
    let constants: Vec<Vec<u8>> = vec![
        vec![10, 0, 3, 0, 10],     // 1
        vec![7, 0, 11],            // 2
        vec![7, 0, 12],            // 3
        utf8("<init>"),            // 4
        utf8("()V"),               // 5
        utf8("Code"),              // 6
        utf8("LineNumberTable"),   // 7
        utf8("main"),              // 8
        utf8("()I"),               // 9
        vec![12, 0, 4, 0, 5],      // 10
        utf8("Return55"),          // 11
        utf8("java/lang/Object"),  // 12
        utf8("Deprecated"),        // 13
        utf8("ConstantValue"),     // 14
        vec![3, 0, 0, 0, 55],      // 15
        utf8("ANSWER"),            // 16
        utf8("I"),                 // 17
        vec![7, 0, 19],            // 18
        utf8("java/lang/Runnable"),// 19
    ];
    out.extend_from_slice(&(constants.len() as u16 + 1).to_be_bytes());
    for c in &constants {
        out.extend_from_slice(c);
    }
    out.extend_from_slice(&[0x00, 0x21]);
    out.extend_from_slice(&[0x00, 0x02]);
    out.extend_from_slice(&super_class.to_be_bytes());
    out.extend_from_slice(&[0, 1, 0, 18]);
    out.extend_from_slice(&[0, 1]);
    out.extend_from_slice(&member(
        0x0019,
        16,
        17,
        &[record(13, &[]), record(14, &[0, 15])],
    ));
    out.extend_from_slice(&[0, 2]);
    out.extend_from_slice(&member(1, 4, 5, &[code(1, 1, &[0x2A, 0xB7, 0x00, 0x01, 0xB1], 1)]));
    out.extend_from_slice(&member(
        9,
        8,
        9,
        &[record(13, &[]), code(1, 0, &[0x10, 0x37, 0xAC], 3)],
    ));
    out
}

fn return55() -> Vec<u8> {
    return55_with(3)
}

fn decode(bytes: Vec<u8>) -> (Result<Class, DecodeError>, usize) {
    let mut f = ClassFile::new(bytes);
    let r = f.read_class();
    (r, f.offset())
}

fn line_numbers(line: u16) -> AttributeItem {
    AttributeItem::LineNumberTable {
        line_number_table: vec![LineNumberTable { start_pc: 0, line_number: line }],
    }
}

fn deprecated() -> AttributeItem {
    AttributeItem::Opaque { name: String::from("Deprecated"), bytes: vec![] }
}

#[test]
fn the_magic_number() {
    assert_eq!(MAGIC, 0xCAFEBABE);
}

#[test]
fn a_whole_class_is_decoded() {
    let bytes = return55();
    let len = bytes.len();
    let (class, end) = decode(bytes);
    let class = class.unwrap();
    assert_eq!(end, len);
    assert_eq!(class.version, Version { minor: 3, major: 52 });
    assert_eq!(class.access_flags, 0x21);
    assert_eq!(class.this_class, 2);
    assert_eq!(class.super_class, 3);
    assert_eq!(class.interfaces, vec![18]);
    assert_eq!(class.constant_pool.items.len(), 19);
    assert_eq!(
        class.constant_pool.items[0],
        ConstantPoolItem::Methodref { class_index: 3, name_and_type_index: 10 }
    );
    assert_eq!(
        class.constant_pool.items[14],
        ConstantPoolItem::Unmodeled { tag: 3, bytes: vec![0, 0, 0, 55] }
    );
    assert_eq!(
        class.fields,
        FieldOrMethods {
            items: vec![FieldOrMethodItem {
                access_flags: 0x19,
                name_index: 16,
                descriptor_index: 17,
                attributes: Attributes {
                    items: vec![
                        deprecated(),
                        AttributeItem::ConstantValue { constantvalue_index: 15 },
                    ],
                },
            }],
        }
    );
    assert_eq!(
        class.methods,
        FieldOrMethods {
            items: vec![
                FieldOrMethodItem {
                    access_flags: 1,
                    name_index: 4,
                    descriptor_index: 5,
                    attributes: Attributes {
                        items: vec![AttributeItem::Code {
                            max_stack: 1,
                            max_locals: 1,
                            code: vec![0x2A, 0xB7, 0x00, 0x01, 0xB1],
                            exception_table: vec![],
                            attributes: Attributes { items: vec![line_numbers(1)] },
                        }],
                    },
                },
                FieldOrMethodItem {
                    access_flags: 9,
                    name_index: 8,
                    descriptor_index: 9,
                    attributes: Attributes {
                        items: vec![
                            deprecated(),
                            AttributeItem::Code {
                                max_stack: 1,
                                max_locals: 0,
                                code: vec![0x10, 0x37, 0xAC],
                                exception_table: vec![],
                                attributes: Attributes { items: vec![line_numbers(3)] },
                            },
                        ],
                    },
                },
            ],
        }
    );
}

#[test]
fn the_class_knows_its_name() {
    let class = decode(return55()).0.unwrap();
    assert_eq!(class.this_class_name(), Ok(&String::from("Return55")));
    assert!(!class.this_class_name().unwrap().is_empty());
}

#[test]
fn the_super_class_is_named_unless_its_index_is_zero() {
    let class = decode(return55()).0.unwrap();
    assert!(class.has_super_class());
    assert_eq!(class.super_class_name(), Some(Ok(&String::from("java/lang/Object"))));
    let root = decode(return55_with(0)).0.unwrap();
    assert!(!root.has_super_class());
    assert_eq!(root.super_class_name(), None);
}

#[test]
fn a_super_class_index_that_resolves_to_nothing_is_reported() {
    let dangling = decode(return55_with(20)).0.unwrap();
    assert!(dangling.has_super_class());
    assert_eq!(dangling.super_class_name(), Some(Err(DecodeError::InvalidConstantReference)));
    let wrong_kind = decode(return55_with(4)).0.unwrap();
    assert_eq!(wrong_kind.super_class_name(), Some(Err(DecodeError::InvalidConstantReference)));
}

#[test]
fn a_this_class_index_that_resolves_to_nothing_is_reported() {
    let mut class = decode(return55()).0.unwrap();
    for index in [0u16, 20, 21, 4000, u16::MAX] {
        class.this_class = index;
        assert_eq!(class.this_class_name(), Err(DecodeError::InvalidConstantReference));
    }
    class.this_class = 11;
    assert_eq!(class.this_class_name(), Err(DecodeError::InvalidConstantReference));
    class.this_class = 18;
    assert_eq!(class.this_class_name(), Ok(&String::from("java/lang/Runnable")));
}

#[test]
fn a_method_is_found_by_its_name() {
    let class = decode(return55()).0.unwrap();
    let main = class.field_or_method_by_name("main").unwrap();
    assert_eq!(main.name_index, 8);
    assert_eq!(main.descriptor_index, 9);
    assert_eq!(main.access_flags, 9);
    let init = class.field_or_method_by_name("<init>").unwrap();
    assert_eq!(init.name_index, 4);
    // in the pool, but the name of no method
    assert_eq!(class.field_or_method_by_name("Return55"), None);
    // a field, not a method
    assert_eq!(class.field_or_method_by_name("ANSWER"), None);
    // not in the pool
    assert_eq!(class.field_or_method_by_name("run"), None);
}

#[test]
fn by_name_index_takes_the_first_match() {
    let class = decode(return55()).0.unwrap();
    assert_eq!(class.methods.by_name_index(8).map(|m| m.descriptor_index), Some(9));
    assert_eq!(class.methods.by_name_index(4).map(|m| m.descriptor_index), Some(5));
    assert_eq!(class.methods.by_name_index(5), None);
    assert_eq!(class.methods.by_name_index(65536 + 8), None);
    assert_eq!(class.fields.by_name_index(16).map(|m| m.descriptor_index), Some(17));
    let twice = FieldOrMethods {
        items: vec![
            FieldOrMethodItem {
                access_flags: 0,
                name_index: 1,
                descriptor_index: 10,
                attributes: Attributes { items: vec![] },
            },
            FieldOrMethodItem {
                access_flags: 0,
                name_index: 2,
                descriptor_index: 20,
                attributes: Attributes { items: vec![] },
            },
            FieldOrMethodItem {
                access_flags: 0,
                name_index: 2,
                descriptor_index: 30,
                attributes: Attributes { items: vec![] },
            },
        ],
    };
    assert_eq!(twice.by_name_index(2).map(|m| m.descriptor_index), Some(20));
}

#[test]
fn the_code_of_main() {
    let class = decode(return55()).0.unwrap();
    assert_eq!(class.main_func_code(), Some(&vec![0x10, 0x37, 0xAC]));
}

#[test]
fn the_code_of_a_method() {
    let class = decode(return55()).0.unwrap();
    let init = class.field_or_method_by_name("<init>").unwrap();
    assert_eq!(class.code_of(init), Some(&vec![0x2A, 0xB7, 0x00, 0x01, 0xB1]));
    // a field has no code
    assert_eq!(class.code_of(&class.fields.items[0]), None);
}

#[test]
fn a_class_without_main_has_no_main_code() {
    let mut class = decode(return55()).0.unwrap();
    class.methods.items.pop();
    assert_eq!(class.main_func_code(), None);
    let empty = Class {
        version: Version { minor: 0, major: 52 },
        constant_pool: ConstantPool { items: vec![] },
        access_flags: 0,
        this_class: 0,
        super_class: 0,
        interfaces: vec![],
        fields: FieldOrMethods { items: vec![] },
        methods: FieldOrMethods { items: vec![] },
    };
    assert_eq!(empty.main_func_code(), None);
    assert_eq!(empty.this_class_name(), Err(DecodeError::InvalidConstantReference));
    assert_eq!(empty.super_class_name(), None);
}

#[test]
fn a_wrong_magic_number_stops_decoding_after_four_bytes() {
    let mut bytes = return55();
    bytes[3] = 0xBF;
    let (r, end) = decode(bytes);
    assert_eq!(r, Err(DecodeError::MagicMismatch));
    assert_eq!(end, 4);
    let (r, end) = decode(vec![0xCA, 0xFE, 0xBA, 0xBF]);
    assert_eq!(r, Err(DecodeError::MagicMismatch));
    assert_eq!(end, 4);
    let (r, end) = decode(vec![0, 0, 0, 0, 1, 2, 3]);
    assert_eq!(r, Err(DecodeError::MagicMismatch));
    assert_eq!(end, 4);
}

#[test]
fn a_file_cut_short_anywhere_is_an_io_error() {
    let whole = return55();
    for m in 0..whole.len() {
        let (r, end) = decode(whole[..m].to_vec());
        assert_eq!(r, Err(DecodeError::IoError));
        assert!(end <= m);
    }
}

#[test]
fn an_empty_file_is_an_io_error() {
    let (r, end) = decode(Vec::new());
    assert_eq!(r, Err(DecodeError::IoError));
    assert_eq!(end, 0);
}

#[test]
fn bytes_after_the_methods_are_left_unread() {
    let mut bytes = return55();
    let len = bytes.len();
    let expected = decode(bytes.clone()).0.unwrap();
    bytes.extend_from_slice(&[0, 1, 0, 13, 0, 0, 0, 0]);
    let (r, end) = decode(bytes);
    assert_eq!(r, Ok(expected));
    assert_eq!(end, len);
}

#[test]
fn an_unknown_constant_tag_fails_the_class() {
    let mut bytes = return55();
    // the tag of the first constant
    bytes[10] = 17;
    let (r, end) = decode(bytes);
    assert_eq!(r, Err(DecodeError::UnsupportedConstantTag(17)));
    assert_eq!(end, 11);
}

#[test]
fn an_attribute_named_by_a_class_constant_fails_the_class() {
    let mut bytes = vec![0xCA, 0xFE, 0xBA, 0xBE, 0, 0, 0, 52];
    bytes.extend_from_slice(&[0, 3]);
    bytes.extend_from_slice(&[7, 0, 2]);
    bytes.extend_from_slice(&utf8("A"));
    bytes.extend_from_slice(&[0, 1, 0, 1, 0, 0]);
    bytes.extend_from_slice(&[0, 0]);
    bytes.extend_from_slice(&[0, 1]);
    bytes.extend_from_slice(&member(0, 2, 2, &[record(1, &[])]));
    bytes.extend_from_slice(&[0, 0]);
    let (r, _) = decode(bytes);
    assert_eq!(r, Err(DecodeError::InvalidConstantReference));
}

#[test]
fn a_wrong_attribute_length_fails_the_class() {
    let mut bytes = vec![0xCA, 0xFE, 0xBA, 0xBE, 0, 0, 0, 52];
    bytes.extend_from_slice(&[0, 3]);
    bytes.extend_from_slice(&utf8("ConstantValue"));
    bytes.extend_from_slice(&utf8("x"));
    bytes.extend_from_slice(&[0, 1, 0, 0, 0, 0]);
    bytes.extend_from_slice(&[0, 0]);
    bytes.extend_from_slice(&[0, 1]);
    let mut attribute = vec![0, 1, 0, 0, 0, 3];
    attribute.extend_from_slice(&[0, 2, 0]);
    bytes.extend_from_slice(&member(0, 2, 2, &[attribute]));
    bytes.extend_from_slice(&[0, 0]);
    let (r, _) = decode(bytes);
    assert_eq!(r, Err(DecodeError::AttributeLengthMismatch { expected: 3, actual: 2 }));
}

#[test]
fn a_string_constant_that_does_not_decode_fails_the_class() {
    let mut bytes = vec![0xCA, 0xFE, 0xBA, 0xBE, 0, 0, 0, 52];
    bytes.extend_from_slice(&[0, 2, 1, 0, 1, 0x80]);
    bytes.extend_from_slice(&[0, 0, 0, 0, 0, 0, 0, 0, 0, 0, 0, 0]);
    let (r, _) = decode(bytes);
    assert_eq!(r, Err(DecodeError::Utf8DecodeError));
}

#[test]
fn the_smallest_class() {
    let mut bytes = vec![0xCA, 0xFE, 0xBA, 0xBE, 0, 0, 0, 45];
    bytes.extend_from_slice(&[0, 1]);
    bytes.extend_from_slice(&[0, 0, 0, 0, 0, 0]);
    bytes.extend_from_slice(&[0, 0, 0, 0, 0, 0]);
    let (r, end) = decode(bytes);
    assert_eq!(end, 22);
    assert_eq!(
        r,
        Ok(Class {
            version: Version { minor: 0, major: 45 },
            constant_pool: ConstantPool { items: vec![] },
            access_flags: 0,
            this_class: 0,
            super_class: 0,
            interfaces: vec![],
            fields: FieldOrMethods { items: vec![] },
            methods: FieldOrMethods { items: vec![] },
        })
    );
}

#[test]
fn the_version_alone() {
    let mut f = ClassFile::new(vec![0, 3, 0, 52]);
    assert_eq!(Version::new(&mut f), Ok(Version { minor: 3, major: 52 }));
    let mut f = ClassFile::new(vec![0, 3, 0]);
    assert_eq!(Version::new(&mut f), Err(DecodeError::IoError));
    assert_eq!(f.offset(), 2);
}

#[test]
fn a_class_name_that_is_empty_in_the_file_is_empty() {
    let mut bytes = vec![0xCA, 0xFE, 0xBA, 0xBE, 0, 0, 0, 52];
    bytes.extend_from_slice(&[0, 3, 7, 0, 2, 1, 0, 0]);
    bytes.extend_from_slice(&[0, 0, 0, 1, 0, 0]);
    bytes.extend_from_slice(&[0, 0, 0, 0, 0, 0]);
    let class = decode(bytes).0.unwrap();
    assert_eq!(class.this_class_name(), Ok(&String::new()));
}

#[test]
fn decode_reads_a_class_from_its_bytes() {
    let class = classfile::class::decode(return55()).unwrap();
    assert_eq!(class.this_class_name(), Ok(&String::from("Return55")));
    assert_eq!(Ok(class), decode(return55()).0);
    assert_eq!(classfile::class::decode(vec![1, 2, 3]), Err(DecodeError::IoError));
    assert_eq!(
        classfile::class::decode(vec![1, 2, 3, 4, 5]),
        Err(DecodeError::MagicMismatch)
    );
}

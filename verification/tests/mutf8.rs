use classfile::error::DecodeError;
use classfile::mutf8::decode;

#[test]
fn ascii_decodes_to_itself() {
    assert_eq!(decode(b"java/lang/Object"), Ok(String::from("java/lang/Object")));
}

#[test]
fn one_character_is_appended_not_dropped() {
    assert_eq!(decode(b"A"), Ok(String::from("A")));
    assert_eq!(decode(b"AB"), Ok(String::from("AB")));
}

#[test]
fn empty_bytes_are_the_empty_string() {
    assert_eq!(decode(&[]), Ok(String::new()));
}

#[test]
fn two_and_three_byte_forms() {
    assert_eq!(decode(&[0xC3, 0xA9]), Ok(String::from("\u{e9}")));
    assert_eq!(decode(&[0xDF, 0xBF]), Ok(String::from("\u{7ff}")));
    assert_eq!(decode(&[0xE2, 0x82, 0xAC]), Ok(String::from("\u{20ac}")));
    assert_eq!(decode(&[0xE0, 0xA0, 0x80]), Ok(String::from("\u{800}")));
    assert_eq!(decode(&[0xEF, 0xBF, 0xBF]), Ok(String::from("\u{ffff}")));
}

#[test]
fn nul_is_written_in_two_bytes() {
    assert_eq!(decode(&[0x61, 0xC0, 0x80, 0x62]), Ok(String::from("a\0b")));
}

#[test]
fn a_zero_byte_is_refused() {
    assert_eq!(decode(&[0x61, 0x00]), Err(DecodeError::Utf8DecodeError));
}

#[test]
fn a_surrogate_pair_is_one_character() {
    // U+1F600 is the pair D83D DE00.
    assert_eq!(
        decode(&[0xED, 0xA0, 0xBD, 0xED, 0xB8, 0x80]),
        Ok(String::from("\u{1F600}"))
    );
    // U+10000 is the pair D800 DC00, U+10FFFF the pair DBFF DFFF.
    assert_eq!(
        decode(&[0xED, 0xA0, 0x80, 0xED, 0xB0, 0x80]),
        Ok(String::from("\u{10000}"))
    );
    assert_eq!(
        decode(&[0xED, 0xAF, 0xBF, 0xED, 0xBF, 0xBF]),
        Ok(String::from("\u{10FFFF}"))
    );
}

#[test]
fn a_surrogate_pair_between_other_characters() {
    assert_eq!(
        decode(&[0x78, 0xED, 0xA0, 0xBD, 0xED, 0xB8, 0x80, 0x79]),
        Ok(String::from("x\u{1F600}y"))
    );
}

#[test]
fn a_lone_surrogate_is_refused() {
    assert_eq!(decode(&[0xED, 0xA0, 0xBD]), Err(DecodeError::Utf8DecodeError));
    assert_eq!(decode(&[0xED, 0xB8, 0x80]), Err(DecodeError::Utf8DecodeError));
    assert_eq!(
        decode(&[0xED, 0xA0, 0xBD, 0x41, 0x42, 0x43]),
        Err(DecodeError::Utf8DecodeError)
    );
    assert_eq!(
        decode(&[0xED, 0xA0, 0xBD, 0xED, 0xA0, 0xBD]),
        Err(DecodeError::Utf8DecodeError)
    );
}

#[test]
fn a_four_byte_form_is_refused() {
    assert_eq!(decode(&[0xF0, 0x9F, 0x98, 0x80]), Err(DecodeError::Utf8DecodeError));
}

#[test]
fn overlong_forms_are_refused() {
    assert_eq!(decode(&[0xC1, 0x81]), Err(DecodeError::Utf8DecodeError));
    assert_eq!(decode(&[0xC0, 0x81]), Err(DecodeError::Utf8DecodeError));
    assert_eq!(decode(&[0xE0, 0x80, 0x80]), Err(DecodeError::Utf8DecodeError));
    assert_eq!(decode(&[0xE0, 0x9F, 0xBF]), Err(DecodeError::Utf8DecodeError));
}

#[test]
fn broken_sequences_are_refused() {
    assert_eq!(decode(&[0x80]), Err(DecodeError::Utf8DecodeError));
    assert_eq!(decode(&[0xC3]), Err(DecodeError::Utf8DecodeError));
    assert_eq!(decode(&[0xC3, 0x41]), Err(DecodeError::Utf8DecodeError));
    assert_eq!(decode(&[0xE2, 0x82]), Err(DecodeError::Utf8DecodeError));
    assert_eq!(decode(&[0xE2, 0x41, 0xAC]), Err(DecodeError::Utf8DecodeError));
    assert_eq!(decode(&[0xFF]), Err(DecodeError::Utf8DecodeError));
}

#[test]
fn plain_utf8_decodes_as_utf8_does() {
    let text = "Grüße, мир, 世界";
    assert_eq!(decode(text.as_bytes()), Ok(String::from(text)));
}

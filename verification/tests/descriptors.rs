use classfile::descriptor::{read_type, Type};
use classfile::error::{DescriptorSyntaxError, SyntaxErrorReason};

fn fault(position: usize, reason: SyntaxErrorReason) -> Result<Type, DescriptorSyntaxError> {
    Err(DescriptorSyntaxError { position, reason })
}

fn class(name: &str) -> Type {
    Type::ClassInstance { name: String::from(name) }
}

#[test]
fn method_with_three_parameters() {
    assert_eq!(
        read_type("(IZI)I"),
        Ok(Type::Method {
            return_type: Box::new(Type::Int),
            arguments: vec![Type::Int, Type::Boolean, Type::Int],
        })
    );
}

#[test]
fn array_of_two_dimensions() {
    assert_eq!(
        read_type("[[I"),
        Ok(Type::Array { dimensions: 2, element: Box::new(Type::Int) })
    );
}

#[test]
fn class_instance() {
    assert_eq!(read_type("Ljava/lang/String;"), Ok(class("java/lang/String")));
}

#[test]
fn method_without_parameters_returning_nothing() {
    assert_eq!(
        read_type("()V"),
        Ok(Type::Method { return_type: Box::new(Type::Void), arguments: vec![] })
    );
}

#[test]
fn unterminated_method_is_rejected() {
    assert_eq!(read_type("(I"), fault(2, SyntaxErrorReason::UnexpectedEnd));
}

#[test]
fn every_primitive_letter() {
    assert_eq!(read_type("B"), Ok(Type::Byte));
    assert_eq!(read_type("C"), Ok(Type::Char));
    assert_eq!(read_type("D"), Ok(Type::Double));
    assert_eq!(read_type("F"), Ok(Type::Float));
    assert_eq!(read_type("I"), Ok(Type::Int));
    assert_eq!(read_type("J"), Ok(Type::Long));
    assert_eq!(read_type("S"), Ok(Type::Short));
    assert_eq!(read_type("Z"), Ok(Type::Boolean));
}

#[test]
fn main_signature() {
    assert_eq!(
        read_type("([Ljava/lang/String;)V"),
        Ok(Type::Method {
            return_type: Box::new(Type::Void),
            arguments: vec![Type::Array {
                dimensions: 1,
                element: Box::new(class("java/lang/String")),
            }],
        })
    );
}

#[test]
fn method_with_mixed_parameters() {
    assert_eq!(
        read_type("(JLjava/util/List;[[DS)[Ljava/lang/Object;"),
        Ok(Type::Method {
            return_type: Box::new(Type::Array {
                dimensions: 1,
                element: Box::new(class("java/lang/Object")),
            }),
            arguments: vec![
                Type::Long,
                class("java/util/List"),
                Type::Array { dimensions: 2, element: Box::new(Type::Double) },
                Type::Short,
            ],
        })
    );
}

#[test]
fn class_names_may_hold_any_character() {
    assert_eq!(read_type("Lpäckchen/Größe;"), Ok(class("päckchen/Größe")));
    assert_eq!(read_type("L;"), Ok(class("")));
}

#[test]
fn empty_text_is_rejected() {
    assert_eq!(read_type(""), fault(0, SyntaxErrorReason::UnexpectedEnd));
}

#[test]
fn unknown_letter_is_rejected() {
    assert_eq!(read_type("Q"), fault(0, SyntaxErrorReason::UnexpectedCharacter));
    assert_eq!(read_type("(IQ)V"), fault(2, SyntaxErrorReason::UnexpectedCharacter));
    assert_eq!(read_type(")"), fault(0, SyntaxErrorReason::UnexpectedCharacter));
}

#[test]
fn void_is_a_return_type_only() {
    assert_eq!(read_type("V"), fault(0, SyntaxErrorReason::UnexpectedCharacter));
    assert_eq!(read_type("[V"), fault(1, SyntaxErrorReason::UnexpectedCharacter));
    assert_eq!(read_type("(V)I"), fault(1, SyntaxErrorReason::UnexpectedCharacter));
}

#[test]
fn unterminated_class_name_is_rejected() {
    assert_eq!(
        read_type("Ljava/lang/String"),
        fault(0, SyntaxErrorReason::UnterminatedClassName)
    );
    assert_eq!(read_type("(ILfoo"), fault(2, SyntaxErrorReason::UnterminatedClassName));
    assert_eq!(read_type("L"), fault(0, SyntaxErrorReason::UnterminatedClassName));
}

#[test]
fn trailing_characters_are_rejected() {
    assert_eq!(read_type("II"), fault(1, SyntaxErrorReason::TrailingCharacters));
    assert_eq!(read_type("()VV"), fault(3, SyntaxErrorReason::TrailingCharacters));
    assert_eq!(read_type("Lfoo;;"), fault(5, SyntaxErrorReason::TrailingCharacters));
    assert_eq!(read_type("(I)I)"), fault(4, SyntaxErrorReason::TrailingCharacters));
}

#[test]
fn missing_parts_are_rejected() {
    assert_eq!(read_type("("), fault(1, SyntaxErrorReason::UnexpectedEnd));
    assert_eq!(read_type("()"), fault(2, SyntaxErrorReason::UnexpectedEnd));
    assert_eq!(read_type("[["), fault(2, SyntaxErrorReason::UnexpectedEnd));
    assert_eq!(read_type("(["), fault(2, SyntaxErrorReason::UnexpectedEnd));
}

#[test]
fn a_method_is_no_parameter_and_no_return_type() {
    assert_eq!(read_type("(()V)V"), fault(1, SyntaxErrorReason::UnexpectedCharacter));
    assert_eq!(read_type("()()V"), fault(2, SyntaxErrorReason::UnexpectedCharacter));
    assert_eq!(read_type("[()V"), fault(1, SyntaxErrorReason::UnexpectedCharacter));
}

#[test]
fn up_to_255_dimensions() {
    let mut text = "[".repeat(255);
    text.push('J');
    assert_eq!(
        read_type(&text),
        Ok(Type::Array { dimensions: 255, element: Box::new(Type::Long) })
    );
    let mut text = "[".repeat(256);
    text.push('J');
    assert_eq!(read_type(&text), fault(255, SyntaxErrorReason::TooManyDimensions));
    let mut text = String::from("(I");
    text.push_str(&"[".repeat(300));
    text.push_str("I)V");
    assert_eq!(read_type(&text), fault(257, SyntaxErrorReason::TooManyDimensions));
}

#[test]
fn positions_count_characters_not_bytes() {
    assert_eq!(read_type("(Lä;Q"), fault(4, SyntaxErrorReason::UnexpectedCharacter));
}

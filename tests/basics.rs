use smart_read::basics::{
    plain_answer, BoolInput, CharInput, I128Input, I16Input, I32Input, I64Input, I8Input,
    IsizeInput, NonEmptyInput, NonWhitespaceInput, U128Input, U16Input, U32Input, U64Input,
    U8Input, UsizeInput, YesNoInput,
};

#[test]
fn plain_text_takes_default_on_empty_line() {
    assert_eq!(plain_answer(String::new(), Some("x".to_string())), "x");
    assert_eq!(plain_answer("abc".to_string(), Some("x".to_string())), "abc");
    assert_eq!(plain_answer(String::new(), None), "");
}

#[test]
fn non_empty_input() {
    assert!(NonEmptyInput.accepts(" "));
    assert!(!NonEmptyInput.accepts(""));
}

#[test]
fn non_whitespace_input() {
    assert!(NonWhitespaceInput.accepts(" a "));
    assert!(!NonWhitespaceInput.accepts(" \t\r\n"));
    assert!(!NonWhitespaceInput.accepts("\u{3000}\u{a0}"));
    assert!(!NonWhitespaceInput.accepts(""));
}

#[test]
fn bool_input() {
    assert_eq!(BoolInput.interpret("TRUE", None), Some(true));
    assert_eq!(BoolInput.interpret("t", None), Some(true));
    assert_eq!(BoolInput.interpret("False", None), Some(false));
    assert_eq!(BoolInput.interpret("F", Some(true)), Some(false));
    assert_eq!(BoolInput.interpret("", Some(true)), Some(true));
    assert_eq!(BoolInput.interpret("", None), None);
    assert_eq!(BoolInput.interpret("yes", None), None);
    assert_eq!(BoolInput.interpret_lowered("true", None), Some(true));
    assert_eq!(BoolInput.interpret_lowered("TRUE", None), None);
}

#[test]
fn yes_no_input() {
    assert_eq!(YesNoInput.interpret("Yes", None), Some(true));
    assert_eq!(YesNoInput.interpret("Y", None), Some(true));
    assert_eq!(YesNoInput.interpret("NO", None), Some(false));
    assert_eq!(YesNoInput.interpret("n", Some(true)), Some(false));
    assert_eq!(YesNoInput.interpret("", Some(false)), Some(false));
    assert_eq!(YesNoInput.interpret("true", None), None);
}

#[test]
fn char_input() {
    assert_eq!(CharInput.interpret("x", None), Some('x'));
    assert_eq!(CharInput.interpret("é", None), Some('é'));
    assert_eq!(CharInput.interpret("xy", None), None);
    assert_eq!(CharInput.interpret("", Some('d')), Some('d'));
    assert_eq!(CharInput.interpret("", None), None);
}

#[test]
fn unsigned_inputs() {
    assert_eq!(U8Input.interpret("255", None), Some(255));
    assert_eq!(U8Input.interpret("256", None), None);
    assert_eq!(U8Input.interpret("+7", None), Some(7));
    assert_eq!(U8Input.interpret("-0", None), None);
    assert_eq!(U8Input.interpret("+", None), None);
    assert_eq!(U8Input.interpret(" 1", None), None);
    assert_eq!(U8Input.interpret("", Some(3)), Some(3));
    assert_eq!(U8Input.interpret("", None), None);
    assert_eq!(U16Input.interpret("65535", None), Some(65535));
    assert_eq!(U16Input.interpret("65536", None), None);
    assert_eq!(U32Input.interpret("4294967295", None), Some(u32::MAX));
    assert_eq!(U64Input.interpret("18446744073709551615", None), Some(u64::MAX));
    assert_eq!(U128Input.interpret("340282366920938463463374607431768211455", None), Some(u128::MAX));
    assert_eq!(U128Input.interpret("340282366920938463463374607431768211456", None), None);
    assert_eq!(UsizeInput.interpret("42", None), Some(42));
    assert_eq!(UsizeInput.interpret("4x", None), None);
}

#[test]
fn signed_inputs() {
    assert_eq!(I8Input.interpret("-128", None), Some(-128));
    assert_eq!(I8Input.interpret("-129", None), None);
    assert_eq!(I8Input.interpret("127", None), Some(127));
    assert_eq!(I8Input.interpret("+127", None), Some(127));
    assert_eq!(I8Input.interpret("-", None), None);
    assert_eq!(I8Input.interpret("", Some(-1)), Some(-1));
    assert_eq!(I16Input.interpret("-32768", None), Some(i16::MIN));
    assert_eq!(I32Input.interpret("-42", None), Some(-42));
    assert_eq!(I64Input.interpret("9223372036854775807", None), Some(i64::MAX));
    assert_eq!(I128Input.interpret("-170141183460469231731687303715884105728", None), Some(i128::MIN));
    assert_eq!(IsizeInput.interpret("-3", None), Some(-3));
    assert_eq!(IsizeInput.interpret("three", None), None);
}

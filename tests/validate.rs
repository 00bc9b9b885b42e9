use smart_read::validate::{SimpleValidate, TransformValidate};

fn long_enough(s: &str) -> Result<(), String> {
    if s.len() >= 3 {
        Ok(())
    } else {
        Err("too short".to_string())
    }
}

#[test]
fn simple_validate_checks_line() {
    let v = SimpleValidate(long_enough);
    assert_eq!(v.check("abcd".to_string(), None), Ok("abcd".to_string()));
    assert_eq!(v.check("ab".to_string(), None), Err("too short".to_string()));
    assert_eq!(v.check(String::new(), Some("dflt".to_string())), Ok("dflt".to_string()));
    assert_eq!(v.check(String::new(), None), Err("too short".to_string()));
}

#[test]
fn transform_validate_turns_line_into_value() {
    let v = TransformValidate::new(|s: String| s.parse::<i32>().map_err(|_| "not a number".to_string()));
    assert_eq!(v.check("12".to_string(), None), Ok(12));
    assert_eq!(v.check("x".to_string(), None), Err("not a number".to_string()));
    assert_eq!(v.check(String::new(), Some(5)), Ok(5));
}

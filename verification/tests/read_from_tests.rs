use lpp::literal::Literal;
use lpp::read_from::ReadFrom;

#[test]
fn read_u32_ok() {
    let source = "1234sdf";
    let (len, val) = u32::read_from(source).unwrap();
    assert_eq!(len, 4);
    assert_eq!(val, 1234);
}

#[test]
fn read_u32_wrong() {
    assert!(u32::read_from(" 1234").is_none());
    assert!(u32::read_from("hola1234").is_none());
}

#[test]
fn read_u32_wraps_past_max() {
    let (len, val) = u32::read_from("4294967296").unwrap();
    assert_eq!(len, 10);
    assert_eq!(val, 0);
}

#[test]
fn read_literal_ok() {
    let source = "hola_\u{f1}andu12 chau";
    let (len, lit) = Literal::read_from(source).unwrap();
    assert_eq!(len, 13);
    assert_eq!(lit.as_ref(), "hola_\u{f1}andu12");

    let source = "_12hola=";
    let (len, lit) = Literal::read_from(source).unwrap();
    assert_eq!(len, 7);
    assert_eq!(lit.as_ref(), "_12hola");
}

#[test]
fn read_literal_wrong() {
    let source = "12hola_\u{f1}andu chau";
    assert!(Literal::read_from(source).is_none());
}

#[test]
fn read_string_ok() {
    let source = "\"Hello World\"";
    let (len, result) = String::read_from(source).unwrap();
    assert_eq!(len, 13);
    let string = result.unwrap();
    assert_eq!(string, "Hello World");
    assert_eq!(string.len(), 11);
}

#[test]
fn read_string_unterminated() {
    let source = "\"abc";
    let (len, result) = String::read_from(source).unwrap();
    assert_eq!(len, 4);
    assert!(result.is_err());
}

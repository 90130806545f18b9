use quadratic_inequality::error::{Error, ErrorKind};
use quadratic_inequality::parser::parse;
use quadratic_inequality::types::Sign;

#[test]
fn error_in_words() {
    assert_eq!(
        Error::InvalidIneqSign("=".to_string()).message(),
        "= is not an inequality sign"
    );
    assert_eq!(Error::InvalidQuadratic.message(), "invalid quadratic");
    assert_eq!(
        Error::InvalidCharacter {
            expected: "x".to_string(),
            found: "y".to_string()
        }
        .message(),
        "invalid character: expected x, found y"
    );
    assert_eq!(
        Error::Nom("=0", ErrorKind::Tag).message(),
        "parser error: input: =0, kind: Tag"
    );
    assert_eq!(
        Error::Nom("", ErrorKind::Alpha).message(),
        "parser error: input: , kind: Alpha"
    );
    assert_eq!(
        Error::Nom("x", ErrorKind::TakeWhile1).message(),
        "parser error: input: x, kind: TakeWhile1"
    );
    assert_eq!(
        Error::Overflow.message(),
        "a coefficient does not fit in 32 bits"
    );
}

#[test]
fn rule_names() {
    for kind in [ErrorKind::TakeWhile1, ErrorKind::Alpha, ErrorKind::Tag] {
        assert_eq!(kind.as_str(), format!("{:?}", kind));
    }
}

#[test]
fn errors_of_reading() {
    let message = |input| parse(input).unwrap_err().message();
    assert_eq!(message("x^2=0"), "parser error: input: =0, kind: Tag");
    assert_eq!(message("x^2 > 0"), "parser error: input:  > 0, kind: Tag");
    assert_eq!(message("x^2>"), "parser error: input: , kind: Alpha");
    assert_eq!(message("≤1"), "parser error: input: ≤1, kind: Alpha");
    assert_eq!(message("x^4>0"), "invalid quadratic");
    assert_eq!(message("x+1>y+x"), "invalid character: expected y, found x");
    assert_eq!(
        message("2147483647+1>0"),
        "a coefficient does not fit in 32 bits"
    );
    assert_eq!(
        Sign::new("=>").unwrap_err().message(),
        "=> is not an inequality sign"
    );
}

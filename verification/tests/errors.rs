use bullfinch::errors::{decimal_string, BfError};
use bullfinch::link::{Link, UrlParseError};

#[test]
fn error_message_domain_not_registered() {
    assert_eq!(
        BfError::DomainNotRegistered(42).message(),
        "(Domain Not Registered. Domain id: 42)"
    );
    assert_eq!(
        BfError::DomainNotRegistered(0).message(),
        "(Domain Not Registered. Domain id: 0)"
    );
}

#[test]
fn error_message_url_error() {
    let e = Link::parse("mypage").unwrap_err();
    assert_eq!(BfError::UrlError(e).message(), "(UrlError relative URL without a base)");
    assert_eq!(
        BfError::UrlError(UrlParseError::InvalidPort).message(),
        "(UrlError invalid port number)"
    );
}

#[test]
fn error_message_other() {
    assert_eq!(BfError::PageNotExist.message(), "(Other bullfinch error)");
    assert_eq!(BfError::UnexpectedCommandType.message(), "(Other bullfinch error)");
    assert_eq!(BfError::Parse("x".to_string()).message(), "(Other bullfinch error)");
    assert_eq!(BfError::CliError("bad".to_string()).message(), "(Other bullfinch error)");
    let io = std::io::Error::new(std::io::ErrorKind::Other, "disk");
    assert_eq!(BfError::Io(io).message(), "(Other bullfinch error)");
}

#[test]
fn error_from_conversions() {
    let e = Link::parse("").unwrap_err();
    assert!(matches!(BfError::from(e), BfError::UrlError(UrlParseError::RelativeUrlWithoutBase)));
    let io = std::io::Error::new(std::io::ErrorKind::Other, "disk");
    assert!(matches!(BfError::from(io), BfError::Io(_)));
}

#[test]
fn decimal_string_values() {
    assert_eq!(decimal_string(0), "0");
    assert_eq!(decimal_string(7), "7");
    assert_eq!(decimal_string(10), "10");
    assert_eq!(decimal_string(4294967295), "4294967295");
}

use weechat_relay::relay::{self, WeechatRelayError};
use weechat_relay::{ErrorKind, WeechatParseError};

#[test]
fn parse_errors_compare_by_kind_and_shape() {
    let a = WeechatParseError::new(ErrorKind::UnknownId, "one");
    let b = WeechatParseError::new(ErrorKind::UnknownId, "two");
    let c = WeechatParseError::with_detail(ErrorKind::UnknownId, "one", "x".to_owned());
    let d = WeechatParseError::new(ErrorKind::NotImplemented, "one");
    assert!(a == b);
    assert!(a != c);
    assert!(a != d);
    assert_eq!(a.kind(), ErrorKind::UnknownId);
    assert_eq!(a.description(), "one");
    assert_eq!(a.detail(), None);
    assert_eq!(c.detail().map(|s| s.as_str()), Some("x"));
}

#[test]
fn relay_errors_compare_by_kind_and_shape() {
    let a = WeechatRelayError::new(relay::ErrorKind::UnknownType, "one");
    let b = WeechatRelayError::new(relay::ErrorKind::UnknownType, "two");
    let c = WeechatRelayError::with_detail(relay::ErrorKind::UnknownType, "one", "x".to_owned());
    assert!(a == b);
    assert!(a != c);
    assert_eq!(c.kind(), relay::ErrorKind::UnknownType);
    assert_eq!(c.description(), "one");
    assert_eq!(c.detail().map(|s| s.as_str()), Some("x"));
}

use toml_edit::datetime::Datetime;
use toml_edit::raw_string::RawString;
use toml_edit::repr::{Decor, Formatted, ValueRepr};

#[test]
fn new_formatted_has_defaults() {
    let f = Formatted::new(5i64);
    assert_eq!(*f.value(), 5);
    assert!(f.as_repr().is_none());
    assert!(f.decor().prefix().is_none());
    assert!(f.decor().suffix().is_none());
    assert_eq!(f.display_repr(), "5");
    assert_eq!(f.into_value(), 5);
}

#[test]
fn absent_decor_uses_default() {
    let f = Formatted::new(-42i64);
    let mut buf = String::new();
    f.encode(&mut buf, None, " ", "\n");
    assert_eq!(buf, " -42\n");
}

#[test]
fn empty_prefix_differs_from_absent() {
    let mut f = Formatted::new(true);
    f.decor_mut().set_prefix(RawString::new(""));
    let mut buf = String::new();
    f.encode(&mut buf, None, " ", "");
    assert_eq!(buf, "true");
    f.decor_mut().clear();
    let mut buf = String::new();
    f.encode(&mut buf, None, " ", "");
    assert_eq!(buf, " true");
}

#[test]
fn explicit_decor_is_written() {
    let mut f = Formatted::new(false);
    *f.decor_mut() = Decor::new(RawString::new("  "), RawString::new(" # c"));
    let mut buf = String::new();
    f.encode(&mut buf, Some("ignored"), " ", "");
    assert_eq!(buf, "  false # c");
}

#[test]
fn fmt_sets_canonical_spelling() {
    let mut f = Formatted::new(String::from("a\"b\n"));
    f.fmt();
    assert_eq!(f.as_repr().unwrap().as_raw().as_str(), Some("\"a\\\"b\\n\""));
    assert_eq!(f.display_repr(), "\"a\\\"b\\n\"");
}

#[test]
fn canonical_spellings() {
    assert_eq!(true.to_repr().as_raw().as_str(), Some("true"));
    assert_eq!(0i64.to_repr().as_raw().as_str(), Some("0"));
    assert_eq!(i64::MIN.to_repr().as_raw().as_str(), Some("-9223372036854775808"));
    assert_eq!(i64::MAX.to_repr().as_raw().as_str(), Some("9223372036854775807"));
    assert_eq!(String::from("\u{1}\t").to_repr().as_raw().as_str(), Some("\"\\u0001\\t\""));
    let dt = Datetime::parse("1979-05-27").unwrap();
    assert_eq!(Formatted::new(dt).display_repr(), "1979-05-27");
}

#[test]
fn raw_string_owned_and_default() {
    let r = RawString::new("abc");
    assert_eq!(r.as_str(), Some("abc"));
    assert_eq!(r.span(), None);
    let mut buf = String::from(">");
    r.encode_with_default(&mut buf, None, "d");
    assert_eq!(buf, ">abc");
    let owned = RawString::from_string(String::from("x"));
    let mut buf = String::new();
    owned.encode(&mut buf, "");
    assert_eq!(buf, "x");
}

#[test]
fn span_without_source_uses_default() {
    let input = "  k";
    let (keys, _) = toml_edit::key::parse_key(input, 0).unwrap();
    let prefix = keys[0].decor().prefix().unwrap();
    assert_eq!(prefix.as_str(), None);
    let mut buf = String::new();
    prefix.encode_with_default(&mut buf, None, "#");
    assert_eq!(buf, "#");
    let mut buf = String::new();
    prefix.encode_with_default(&mut buf, Some(input), "#");
    assert_eq!(buf, "  ");
}

#[test]
fn decor_clone_and_default() {
    let d = Decor::new(RawString::new("a"), RawString::new("b"));
    let c = d.clone();
    assert_eq!(c.prefix().unwrap().as_str(), Some("a"));
    assert_eq!(c.suffix().unwrap().as_str(), Some("b"));
    let e = Decor::default();
    assert!(e.prefix().is_none());
    let mut s = Decor::default();
    s.set_suffix(RawString::new("z"));
    assert!(s.prefix().is_none());
    assert_eq!(s.suffix().unwrap().as_str(), Some("z"));
}

#[test]
fn default_repr_is_owned_canonical() {
    let f = Formatted::new(12i64);
    assert_eq!(f.default_repr().as_raw().as_str(), Some("12"));
    assert!(f.span().is_none());
}

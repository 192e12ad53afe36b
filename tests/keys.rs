use toml_edit::key::{encode_keys, is_unquoted_char, parse_key, simple_key, Key, KeyError};

#[test]
fn keys() {
    let cases = [
        ("a", "a"),
        (r#""hello\n ""#, "hello\n "),
        (r#"'hello\n '"#, "hello\\n "),
    ];

    for (input, expected) in cases {
        let parsed = simple_key(input);
        assert!(parsed.is_ok());
        let (end, k) = parsed.unwrap();
        assert_eq!(k.as_str(), expected);
        assert_eq!(input.chars().count() - end, 0);
    }
}

#[test]
fn single_bare_key_keeps_spelling() {
    let (keys, end) = parse_key("a", 0).unwrap();
    assert_eq!(end, 1);
    assert_eq!(keys.len(), 1);
    assert_eq!(keys[0].get(), "a");
    assert_eq!(keys[0].as_repr().unwrap().span(), Some((0, 1)));
}

#[test]
fn basic_key_decodes_escape_and_keeps_raw() {
    let input = r#""hello\n ""#;
    let (keys, _) = parse_key(input, 0).unwrap();
    assert_eq!(keys[0].get(), "hello\n ");
    let mut buf = String::new();
    keys[0].as_repr().unwrap().encode(&mut buf, input);
    assert_eq!(buf, r#""hello\n ""#);
}

#[test]
fn literal_key_is_not_decoded() {
    let input = r#"'hello\n '"#;
    let (keys, _) = parse_key(input, 0).unwrap();
    assert_eq!(keys[0].get(), "hello\\n ");
    let mut buf = String::new();
    keys[0].as_repr().unwrap().encode(&mut buf, input);
    assert_eq!(buf, input);
}

#[test]
fn unicode_escapes_decode() {
    let (_, v) = simple_key(r#""café""#).unwrap();
    assert_eq!(v, "café");
    let (_, v) = simple_key(r#""\U0001F600""#).unwrap();
    assert_eq!(v, "\u{1F600}");
    assert!(simple_key(r#""\uD800""#).is_err());
}

#[test]
fn dotted_key_splits_whitespace_per_part() {
    let input = "a . b .c = 1";
    let (keys, end) = parse_key(input, 0).unwrap();
    assert_eq!(end, 9);
    let names: Vec<&str> = keys.iter().map(|k| k.get()).collect();
    assert_eq!(names, vec!["a", "b", "c"]);
    assert_eq!(keys[0].decor().suffix().unwrap().span(), Some((1, 2)));
    assert_eq!(keys[1].decor().prefix().unwrap().span(), Some((3, 4)));
    assert_eq!(keys[2].decor().prefix().unwrap().span(), Some((7, 7)));
    assert_eq!(keys[2].decor().suffix().unwrap().span(), Some((8, 9)));
}

#[test]
fn dotted_key_round_trips() {
    let input = " a.\"b c\" . 'd' ";
    let (keys, end) = parse_key(input, 0).unwrap();
    assert_eq!(end, input.chars().count());
    let mut buf = String::new();
    encode_keys(&keys, &mut buf, input);
    assert_eq!(buf, input);
}

#[test]
fn plain_dotted_key() {
    let (keys, end) = parse_key("a.b.c", 0).unwrap();
    assert_eq!(end, 5);
    let names: Vec<&str> = keys.iter().map(|k| k.get()).collect();
    assert_eq!(names, vec!["a", "b", "c"]);
}

#[test]
fn empty_input_expects_key() {
    assert_eq!(parse_key("", 0).err(), Some(KeyError { position: 0 }));
    assert_eq!(parse_key("   ", 0).err(), Some(KeyError { position: 3 }));
}

#[test]
fn dot_without_following_key_fails() {
    assert_eq!(parse_key("a. =", 0).err(), Some(KeyError { position: 3 }));
}

#[test]
fn parse_from_offset() {
    let (keys, end) = parse_key("x = y", 4).unwrap();
    assert_eq!(end, 5);
    assert_eq!(keys[0].get(), "y");
}

#[test]
fn unquoted_chars() {
    assert!(is_unquoted_char('a'));
    assert!(is_unquoted_char('Z'));
    assert!(is_unquoted_char('7'));
    assert!(is_unquoted_char('-'));
    assert!(is_unquoted_char('_'));
    assert!(!is_unquoted_char('.'));
    assert!(!is_unquoted_char(' '));
    assert!(!is_unquoted_char('é'));
}

#[test]
fn despan_twice_same_text() {
    let input = String::from(" key ");
    let (mut keys, _) = parse_key(&input, 0).unwrap();
    keys[0].despan(&input);
    let once = keys[0].as_repr().unwrap().as_raw().as_str().map(|s| s.to_string());
    keys[0].despan(&input);
    let twice = keys[0].as_repr().unwrap().as_raw().as_str().map(|s| s.to_string());
    assert_eq!(once, Some("key".to_string()));
    assert_eq!(once, twice);
    drop(input);
    let mut buf = String::new();
    encode_keys(&keys, &mut buf, "");
    assert_eq!(buf, " key ");
}

#[test]
fn fresh_key_default_spelling() {
    assert_eq!(Key::new("abc".to_string()).default_repr().as_raw().as_str(), Some("abc"));
    assert_eq!(Key::new("a b".to_string()).default_repr().as_raw().as_str(), Some("\"a b\""));
    assert_eq!(Key::new(String::new()).default_repr().as_raw().as_str(), Some("\"\""));
}

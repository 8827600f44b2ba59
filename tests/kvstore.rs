use ciphey::kvstore::{DisplayOptions, Error, Key, KeyValuePair, KvStore, Value};

fn sample() -> KvStore {
    KvStore::new(vec![
        KeyValuePair::new(Key::Name, Value::Insensitive("bank".to_string())),
        KeyValuePair::new(
            Key::Other("secret".to_string()),
            Value::Sensitive("hunter2".to_string()),
        ),
        KeyValuePair::new(
            Key::Url,
            Value::Insensitive("https://x.test/?a=b&c=d".to_string()),
        ),
        KeyValuePair::new(
            Key::Other("favorite-color".to_string()),
            Value::Insensitive("blue".to_string()),
        ),
    ])
}

fn same_pairs(a: &KvStore, b: &KvStore) -> bool {
    let a: Vec<&KeyValuePair> = a.iter().collect();
    let b: Vec<&KeyValuePair> = b.iter().collect();
    a.len() == b.len()
        && a.iter().zip(b.iter()).all(|(x, y)| {
            x.key == y.key
                && match (&x.value, &y.value) {
                    (Value::Sensitive(p), Value::Sensitive(q)) => p == q,
                    (Value::Insensitive(p), Value::Insensitive(q)) => p == q,
                    _ => false,
                }
        })
}

#[test]
fn serialize_writes_one_line_per_field() {
    let bytes = sample().serialize();
    assert_eq!(
        String::from_utf8(bytes).unwrap(),
        "name=bank\nsecret!=hunter2\nurl=https://x.test/?a=b&c=d\nfavorite-color=blue\n"
    );
}

#[test]
fn round_trip_keeps_fields_in_order() {
    let store = sample();
    let back = KvStore::deserialize(&store.serialize()).ok().unwrap();
    assert!(same_pairs(&store, &back));
}

#[test]
fn value_keeps_every_delimiter_after_the_first() {
    let p = KeyValuePair::from_str("url=a=b=c").ok().unwrap();
    assert!(p.key == Key::Url);
    assert!(matches!(p.value, Value::Insensitive(ref v) if v == "a=b=c"));
}

#[test]
fn marker_makes_value_sensitive() {
    let p = KeyValuePair::from_str("password!=x!y").ok().unwrap();
    assert!(p.key == Key::Password);
    assert!(matches!(p.value, Value::Sensitive(ref v) if v == "x!y"));
    assert_eq!(p.to_string(), "password!=x!y");
}

#[test]
fn line_without_delimiter_is_rejected() {
    match KvStore::from_text("name=a\nno delimiter here\nurl=b") {
        Err(Error::MissingDelimeter(line)) => assert_eq!(line, "no delimiter here"),
        _ => panic!("expected a missing delimiter"),
    }
}

#[test]
fn invalid_utf8_is_rejected() {
    assert!(matches!(
        KvStore::deserialize(&[b'a', b'=', 0xff]),
        Err(Error::InvalidUtf8)
    ));
}

#[test]
fn lines_end_at_line_feed_and_lose_carriage_return() {
    let store = KvStore::from_text("name=a\r\nurl=b").ok().unwrap();
    let pairs = store.into_pairs();
    assert_eq!(pairs.len(), 2);
    assert!(matches!(pairs[0].value, Value::Insensitive(ref v) if v == "a"));
    assert!(matches!(pairs[1].value, Value::Insensitive(ref v) if v == "b"));
}

#[test]
fn empty_text_is_empty_record() {
    let store = KvStore::from_text("").ok().unwrap();
    assert_eq!(store.iter().count(), 0);
}

#[test]
fn empty_line_in_the_middle_is_rejected() {
    assert!(matches!(
        KvStore::from_text("name=a\n\nurl=b"),
        Err(Error::MissingDelimeter(ref l)) if l.is_empty()
    ));
}

#[test]
fn key_parsing_well_known_and_other() {
    assert!(Key::from_str("password") == Key::Password);
    assert!(Key::from_str("favorite-color") == Key::Other("favorite-color".to_string()));
    assert_eq!(Key::from_str("password").to_string(), "password");
    assert_eq!(Key::from_str("favorite-color").to_string(), "favorite-color");
}

#[test]
fn key_parsing_is_exact() {
    assert!(Key::from_str("Name") == Key::Other("Name".to_string()));
    assert!(Key::from_str("name") != Key::Other("name".to_string()));
    assert!(Key::Username.clone() == Key::Username);
}

#[test]
fn redaction_shows_stars_up_to_sixteen() {
    let store = KvStore::new(vec![
        KeyValuePair::new(Key::Password, Value::Sensitive("hunter2".to_string())),
        KeyValuePair::new(
            Key::Other("long".to_string()),
            Value::Sensitive("abcdefghijklmnopqrstuvwxyz".to_string()),
        ),
        KeyValuePair::new(Key::Notes, Value::Sensitive("é".to_string())),
        KeyValuePair::new(Key::Email, Value::Insensitive("a@b.test".to_string())),
    ]);
    let opts = DisplayOptions { show_all: true, enabled_keys: vec![] };
    assert_eq!(
        store.display(&opts, false),
        "password: *******\nlong: ****************\nnotes: **\nemail: a@b.test\n"
    );
    let opts = DisplayOptions { show_all: true, enabled_keys: vec![] };
    assert_eq!(
        store.display(&opts, true),
        "password: hunter2\nlong: abcdefghijklmnopqrstuvwxyz\nnotes: é\nemail: a@b.test\n"
    );
}

#[test]
fn display_shows_only_selected_keys() {
    let opts = DisplayOptions {
        show_all: false,
        enabled_keys: vec![Key::Name, Key::Other("favorite-color".to_string())],
    };
    assert_eq!(sample().display(&opts, false), "name: bank\nfavorite-color: blue\n");
    let none = DisplayOptions { show_all: false, enabled_keys: vec![] };
    assert_eq!(sample().display(&none, true), "");
    assert!(opts.shows(&Key::Name));
    assert!(!opts.shows(&Key::Url));
}

#[test]
fn error_messages() {
    assert_eq!(Error::InvalidUtf8.to_string(), "entry is not valid UTF-8 text");
    assert_eq!(
        Error::MissingDelimeter("x".to_string()).to_string(),
        "missing delimiter in line: x"
    );
}

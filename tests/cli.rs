use std::collections::HashMap;

use ciphey::cli::{
    create_entry, init, list, new, parse_key_value_pairs, parse_recipients, store_dir, Error,
    List, NewEntry, SecretVisibility,
};
use ciphey::kvstore;
use ciphey::storage::{entry_file_name, File, Filesystem, PathKind, StorageError};
use ciphey::transparent::{Recipient, Transparent};

fn opts(name: &str, secret: &str, recipients: &[&str], fields: &[&str]) -> NewEntry {
    NewEntry {
        name: name.to_string(),
        secret: secret.to_string(),
        recipients: recipients.iter().map(|s| s.to_string()).collect(),
        fields: fields.iter().map(|s| s.to_string()).collect(),
    }
}

fn listing(all: bool, no_default: bool, display: &[&str], quiet: bool, fail_fast: bool) -> List {
    List {
        all,
        no_default,
        display: display.iter().map(|s| s.to_string()).collect(),
        quiet,
        fail_fast,
    }
}

#[test]
fn store_dir_is_below_home() {
    assert_eq!(store_dir("/home/u"), "/home/u/.local/share/ciphey");
    assert_eq!(store_dir("/"), "/.local/share/ciphey");
}

#[test]
fn default_visibility_hides_secrets() {
    assert_eq!(SecretVisibility::default(), SecretVisibility::Hide);
}

#[test]
fn init_creates_entries_once() {
    let fs = Filesystem::new("/v", PathKind::Missing).ok().unwrap();
    assert_eq!(init(&fs, PathKind::Missing).ok().unwrap().to_string(), "/v/entries");
    assert!(matches!(
        init(&fs, PathKind::Directory),
        Err(Error::Storage(StorageError::AlreadyExists))
    ));
}

#[test]
fn create_entry_frames_record_for_recipients() {
    let mut fs = Filesystem::new("/v", PathKind::Directory).ok().unwrap();
    let existing: HashMap<u128, File> = HashMap::new();
    let o = opts("bank", "hunter2", &["alice", "bob"], &["email=a@b.test", "pin!=1234"]);
    let created = create_entry(&o, &Transparent {}, &mut fs, 7, PathKind::Directory, &existing)
        .ok()
        .unwrap();
    assert_eq!(created.id, 7);
    assert_eq!(
        created.file.to_string(),
        format!("/v/entries/{}", entry_file_name(7))
    );
    assert_eq!(
        String::from_utf8(created.contents).unwrap(),
        "-> alice\n-> bob\n---\nname=bank\nsecret!=hunter2\nemail=a@b.test\npin!=1234\n"
    );
}

#[test]
fn create_entry_rejects_bad_field() {
    let mut fs = Filesystem::new("/v", PathKind::Directory).ok().unwrap();
    let existing: HashMap<u128, File> = HashMap::new();
    let o = opts("bank", "s", &[], &["email=a", "broken"]);
    match create_entry(&o, &Transparent {}, &mut fs, 7, PathKind::Directory, &existing) {
        Err(Error::Filetype(kvstore::Error::MissingDelimeter(l))) => assert_eq!(l, "broken"),
        _ => panic!("expected a missing delimiter"),
    }
}

#[test]
fn create_entry_refuses_existing_identifier() {
    let mut fs = Filesystem::new("/v", PathKind::Directory).ok().unwrap();
    let mut existing: HashMap<u128, File> = HashMap::new();
    existing.insert(7, File::new("/v/entries/x", PathKind::File).ok().unwrap());
    let o = opts("bank", "s", &[], &[]);
    assert!(matches!(
        create_entry(&o, &Transparent {}, &mut fs, 7, PathKind::Directory, &existing),
        Err(Error::Storage(StorageError::AlreadyExists))
    ));
}

#[test]
fn new_draws_an_unused_identifier() {
    let mut fs = Filesystem::new("/v", PathKind::Directory).ok().unwrap();
    let existing: HashMap<u128, File> = HashMap::new();
    let o = opts("bank", "s", &[], &[]);
    let created = new(&o, &Transparent {}, &mut fs, PathKind::Directory, &existing)
        .ok()
        .unwrap();
    assert_eq!(
        created.file.to_string(),
        format!("/v/entries/{}", entry_file_name(created.id))
    );
    assert_eq!(
        String::from_utf8(created.contents).unwrap(),
        "---\nname=bank\nsecret!=s\n"
    );
}

#[test]
fn parse_key_value_pairs_reports_first_bad_pair() {
    let pairs = parse_key_value_pairs(&vec!["a=1".to_string(), "b!=2".to_string()])
        .ok()
        .unwrap();
    assert_eq!(pairs.len(), 2);
    assert!(matches!(
        parse_key_value_pairs(&vec!["a".to_string(), "b".to_string()]),
        Err(Error::Filetype(kvstore::Error::MissingDelimeter(ref l))) if l == "a"
    ));
}

#[test]
fn parse_recipients_keeps_order() {
    let rs: Vec<Recipient> =
        parse_recipients(&vec!["x".to_string(), "y".to_string()]).ok().unwrap();
    let mut sink = Transparent {}.encrypt_output(Vec::new(), rs);
    sink.write(b"");
    assert_eq!(sink.finish(), b"-> x\n-> y\n---\n".to_vec());
}

const ENTRY_A: &str = "-> k\n---\nname=bank\nsecret!=hunter2\nusername=me\nnotes=n\n";
const ENTRY_B: &str = "---\nname=mail\nemail=a@b.test\n";

#[test]
fn list_shows_default_keys_and_count() {
    let entries = vec![Some(ENTRY_A.as_bytes().to_vec()), Some(ENTRY_B.as_bytes().to_vec())];
    let out = list(
        &listing(false, false, &[], false, false),
        SecretVisibility::Hide,
        &Transparent {},
        &entries,
    )
    .ok()
    .unwrap();
    assert_eq!(
        out,
        "Found 2 Entries\n---\nname: bank\nusername: me\n---\nname: mail\nemail: a@b.test\n"
    );
}

#[test]
fn list_one_entry_all_keys_revealed() {
    let entries = vec![Some(ENTRY_A.as_bytes().to_vec())];
    let out = list(
        &listing(true, false, &[], false, false),
        SecretVisibility::Show,
        &Transparent {},
        &entries,
    )
    .ok()
    .unwrap();
    assert_eq!(
        out,
        "Found 1 Entry\n---\nname: bank\nsecret: hunter2\nusername: me\nnotes: n\n"
    );
}

#[test]
fn list_extra_keys_without_defaults_quietly() {
    let entries = vec![Some(ENTRY_A.as_bytes().to_vec())];
    let out = list(
        &listing(false, true, &["secret", "notes"], true, false),
        SecretVisibility::Hide,
        &Transparent {},
        &entries,
    )
    .ok()
    .unwrap();
    assert_eq!(out, "---\nsecret: *******\nnotes: n\n");
}

#[test]
fn list_reports_bad_entry_and_goes_on() {
    let entries = vec![Some(b"---\nbroken\n".to_vec()), Some(ENTRY_B.as_bytes().to_vec())];
    let out = list(
        &listing(false, false, &[], true, false),
        SecretVisibility::Hide,
        &Transparent {},
        &entries,
    )
    .ok()
    .unwrap();
    assert_eq!(
        out,
        "---\nerror: missing delimiter in line: broken\n---\nname: mail\nemail: a@b.test\n"
    );
}

#[test]
fn list_fail_fast_stops_at_bad_entry() {
    let entries = vec![Some(ENTRY_B.as_bytes().to_vec()), Some(b"---\n\xff\n".to_vec())];
    assert!(matches!(
        list(
            &listing(false, false, &[], false, true),
            SecretVisibility::Hide,
            &Transparent {},
            &entries,
        ),
        Err(Error::Filetype(kvstore::Error::InvalidUtf8))
    ));
}

#[test]
fn list_counts_many_entries() {
    let entries: Vec<Option<Vec<u8>>> = (0..12).map(|_| Some(b"---\n".to_vec())).collect();
    let out = list(
        &listing(false, false, &[], false, false),
        SecretVisibility::Hide,
        &Transparent {},
        &entries,
    )
    .ok()
    .unwrap();
    assert!(out.starts_with("Found 12 Entries\n---\n---\n"));
    let none: Vec<Option<Vec<u8>>> = Vec::new();
    let out = list(
        &listing(false, false, &[], false, false),
        SecretVisibility::Hide,
        &Transparent {},
        &none,
    )
    .ok()
    .unwrap();
    assert_eq!(out, "Found 0 Entries\n");
}

#[test]
fn list_reports_unreadable_entry() {
    let entries = vec![None, Some(ENTRY_B.as_bytes().to_vec())];
    let out = list(
        &listing(false, false, &[], true, false),
        SecretVisibility::Hide,
        &Transparent {},
        &entries,
    )
    .ok()
    .unwrap();
    assert_eq!(
        out,
        "---\nerror: entry could not be read\n---\nname: mail\nemail: a@b.test\n"
    );
    assert!(matches!(
        list(
            &listing(false, false, &[], true, true),
            SecretVisibility::Hide,
            &Transparent {},
            &entries,
        ),
        Err(Error::Unreadable)
    ));
}

#[test]
fn new_twice_never_reuses_an_identifier() {
    let mut fs = Filesystem::new("/v", PathKind::Directory).ok().unwrap();
    let existing: HashMap<u128, File> = HashMap::new();
    let o = opts("bank", "s", &[], &[]);
    let a = new(&o, &Transparent {}, &mut fs, PathKind::Directory, &existing).ok().unwrap();
    let b = new(&o, &Transparent {}, &mut fs, PathKind::Directory, &existing).ok().unwrap();
    assert_ne!(a.id, b.id);
    assert!(matches!(
        create_entry(&o, &Transparent {}, &mut fs, a.id, PathKind::Directory, &existing),
        Err(Error::Storage(StorageError::AlreadyExists))
    ));
}

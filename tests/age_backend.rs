use age::secrecy::ExposeSecret;
use ciphey::age_backend::{Age, AgeRecipient, Error};
use std::collections::HashMap;

use ciphey::cli::{self, List, NewEntry, SecretVisibility};
use ciphey::crypto::Recipient;
use ciphey::storage::{File, Filesystem, PathKind};

fn recipient_of(identity: &age::x25519::Identity) -> AgeRecipient {
    AgeRecipient::from_text(identity.to_public().to_string()).unwrap()
}

#[test]
fn age_round_trip() {
    let identity = age::x25519::Identity::generate();
    let recipient = recipient_of(&identity);
    let crypto = Age::new(vec![identity]);

    let mut sink = crypto.encrypt_output(Vec::new(), vec![recipient]).ok().unwrap();
    sink.write(b"Secret Data").ok().unwrap();
    sink.flush().ok().unwrap();
    let ciphertext = sink.finish().ok().unwrap();
    assert!(ciphertext.starts_with(b"age-encryption.org/v1\n"));
    assert!(!ciphertext.windows(11).any(|w| w == b"Secret Data"));

    let plaintext = crypto.decrypt_input(&ciphertext).ok().unwrap();
    assert_eq!(plaintext, b"Secret Data".to_vec());
}

#[test]
fn age_rejects_zero_recipients() {
    let crypto = Age::new(Vec::new());
    assert!(matches!(
        crypto.encrypt_output(Vec::new(), Vec::new()),
        Err(Error::NoRecipients)
    ));
}

#[test]
fn age_fails_without_matching_identity() {
    let identity = age::x25519::Identity::generate();
    let other = age::x25519::Identity::generate();
    let mut sink = Age::new(Vec::new())
        .encrypt_output(Vec::new(), vec![recipient_of(&identity)])
        .ok()
        .unwrap();
    sink.write(b"x").ok().unwrap();
    let ciphertext = sink.finish().ok().unwrap();

    assert!(matches!(
        Age::new(Vec::new()).decrypt_input(&ciphertext),
        Err(Error::Decrypt(_))
    ));
    assert!(matches!(
        Age::new(vec![other]).decrypt_input(&ciphertext),
        Err(Error::Decrypt(_))
    ));
}

#[test]
fn age_rejects_garbage_ciphertext() {
    let identity = age::x25519::Identity::generate();
    assert!(matches!(
        Age::new(vec![identity]).decrypt_input(b"-> not age\n---\n"),
        Err(Error::Decrypt(_))
    ));
}

#[test]
fn age_parses_recipients_and_identities() {
    assert!(AgeRecipient::from_text("Public Key A".to_string()).is_none());
    let identity = age::x25519::Identity::generate();
    let text = identity.to_string().expose_secret().to_string();
    let crypto = Age::from_identity_texts(&vec![text]).unwrap();
    let mut sink = crypto
        .encrypt_output(Vec::new(), vec![recipient_of(&identity)])
        .ok()
        .unwrap();
    sink.write(b"abc").ok().unwrap();
    let ciphertext = sink.finish().ok().unwrap();
    assert_eq!(crypto.decrypt_input(&ciphertext).ok().unwrap(), b"abc".to_vec());
    assert!(Age::from_identity_texts(&vec!["nope".to_string()]).is_none());
}

#[test]
fn age_entries_are_created_and_listed() {
    let identity = age::x25519::Identity::generate();
    let public = identity.to_public().to_string();
    let crypto = Age::new(vec![identity]);
    let mut fs = Filesystem::new("/v", PathKind::Directory).ok().unwrap();
    let existing: HashMap<u128, File> = HashMap::new();
    let entry = NewEntry {
        name: "bank".to_string(),
        secret: "hunter2".to_string(),
        recipients: vec![public],
        fields: vec!["username=me".to_string()],
    };
    let created = cli::new(&entry, &crypto, &mut fs, PathKind::Directory, &existing)
        .ok()
        .unwrap();
    assert!(created.contents.starts_with(b"age-encryption.org/v1\n"));

    let list = List {
        all: true,
        no_default: false,
        display: vec![],
        quiet: true,
        fail_fast: false,
    };
    let out = cli::list(&list, SecretVisibility::Hide, &crypto, &vec![Some(created.contents.clone())])
        .ok()
        .unwrap();
    assert_eq!(out, "---\nname: bank\nsecret: *******\nusername: me\n");

    let stranger = Age::new(vec![age::x25519::Identity::generate()]);
    let out = cli::list(&list, SecretVisibility::Hide, &stranger, &vec![Some(created.contents)])
        .ok()
        .unwrap();
    assert_eq!(out, "---\nerror: entry could not be decrypted\n");
}

#[test]
fn age_entry_needs_a_recipient() {
    let crypto = Age::new(Vec::new());
    let mut fs = Filesystem::new("/v", PathKind::Directory).ok().unwrap();
    let existing: HashMap<u128, File> = HashMap::new();
    let entry = NewEntry {
        name: "bank".to_string(),
        secret: "s".to_string(),
        recipients: vec![],
        fields: vec![],
    };
    assert!(matches!(
        cli::create_entry(&entry, &crypto, &mut fs, 1, PathKind::Directory, &existing),
        Err(cli::Error::Crypto)
    ));
    // Nothing was allocated: the identifier is still free.
    assert!(fs.add_entry(1, PathKind::Directory, &existing).is_ok());
    let bad = NewEntry { recipients: vec!["Public Key A".to_string()], ..entry };
    assert!(matches!(
        cli::create_entry(&bad, &crypto, &mut fs, 2, PathKind::Directory, &existing),
        Err(cli::Error::InvalidRecipient(ref t)) if t == "Public Key A"
    ));
}

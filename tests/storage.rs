use std::collections::HashMap;
use std::path::Path;

use ciphey::storage::{
    entry_file_name, entry_id, DirEntry, Directory, File, Filesystem, PathKind, StorageError,
};

// A path in the temporary directory that nothing exists at yet.
fn temporary_path() -> String {
    format!("/tmp/{}", random_string(32))
}

// A pseudorandom alphanumeric string of length `len`.
fn random_string(len: usize) -> String {
    let mut s = String::new();
    while s.len() < len {
        s.push_str(&uuid::Uuid::new_v4().simple().to_string());
    }
    s.truncate(len);
    s
}

#[test]
fn test_new_directory() {
    let path = temporary_path();
    let dir = Directory::new(&path, PathKind::Missing);
    assert!(dir.is_ok());
}

#[test]
fn test_dir_does_not_exist() {
    // Generate a new path that does not exist.
    let path = temporary_path();

    // Creating the Directory does not create a directory on the filesystem.
    let dir = Directory::new(&path, PathKind::Missing).ok().unwrap();
    drop(dir);

    let entries = Path::new(&path).read_dir().unwrap_err();
    assert_eq!(entries.kind(), std::io::ErrorKind::NotFound);
}

#[test]
fn test_dir_path_is_a_file() {
    let path = temporary_path();
    let directory = Directory::new(&path, PathKind::File);
    assert!(matches!(directory, Err(StorageError::NotADirectory)));
}

#[test]
fn test_dir_exists() {
    let path = temporary_path();
    let dir = Directory::new(&path, PathKind::Directory).ok().unwrap();
    assert_eq!(dir.to_string(), path);
}

#[test]
fn test_display_dir() {
    let path = temporary_path();
    let dir = Directory::new(&path, PathKind::Missing).ok().unwrap();

    // The text of a Directory matches that of its path.
    assert_eq!(format!("{}", Path::new(&path).display()), dir.to_string());
}

#[test]
fn test_subdir_is_file() {
    let path = temporary_path();
    let filename = random_string(16);
    let dir = Directory::new(&path, PathKind::Directory).ok().unwrap();
    assert!(matches!(
        dir.subdirectory(&filename, PathKind::File),
        Err(StorageError::NotADirectory)
    ));
}

#[test]
fn test_subdir() {
    let path = temporary_path();
    let dir = Directory::new(&path, PathKind::Directory).ok().unwrap();
    let sub = dir.subdirectory("inner", PathKind::Directory).ok().unwrap();
    assert_eq!(sub.to_string(), format!("{}/inner", path));
}

#[test]
fn subfile_joins_and_checks_kind() {
    let dir = Directory::new("/root/", PathKind::Directory).ok().unwrap();
    let f = dir.subfile("x.age", PathKind::Missing).ok().unwrap();
    assert_eq!(f.to_string(), "/root/x.age");
    assert!(matches!(
        dir.subfile("x.age", PathKind::Directory),
        Err(StorageError::IsADirectory)
    ));
    let rel = Directory::new("", PathKind::Missing).ok().unwrap();
    assert_eq!(rel.subdirectory("a", PathKind::Missing).ok().unwrap().to_string(), "a");
}

#[test]
fn test_new_file() {
    let path = temporary_path();
    let file = File::new(&path, PathKind::Missing);
    assert!(file.is_ok());
}

#[test]
fn test_file_path_is_dir() {
    let path = temporary_path();
    let file = File::new(&path, PathKind::Directory);
    assert!(matches!(file, Err(StorageError::IsADirectory)));
}

#[test]
fn test_file_exists() {
    let path = temporary_path();
    let file = File::new(&path, PathKind::File).ok().unwrap();
    assert_eq!(file.to_string(), path);
}

#[test]
fn test_display_file() {
    let path = temporary_path();
    let file = File::new(&path, PathKind::Missing).ok().unwrap();
    assert_eq!(format!("{}", Path::new(&path).display()), file.to_string());
}

#[test]
fn test_create_new_filesystem() {
    let path = temporary_path();
    let backend = Filesystem::new(&path, PathKind::Missing).ok().unwrap();
    let dir = backend.create(PathKind::Missing).ok().unwrap();
    assert_eq!(dir.to_string(), format!("{}/entries", path));
    assert!(matches!(
        backend.create(PathKind::Directory),
        Err(StorageError::AlreadyExists)
    ));
    assert!(matches!(
        backend.create(PathKind::File),
        Err(StorageError::NotADirectory)
    ));
}

#[test]
fn root_that_is_a_file_is_refused() {
    assert!(matches!(
        Filesystem::new("/etc/hostname", PathKind::File),
        Err(StorageError::NotADirectory)
    ));
}

#[test]
fn entry_file_name_is_hyphenated_lowercase() {
    let id: u128 = 0xa1a2a3a4b1b2c1c2d1d2d3d4d5d6d7d8;
    assert_eq!(entry_file_name(id), "a1a2a3a4-b1b2-c1c2-d1d2-d3d4d5d6d7d8.age");
    assert_eq!(entry_id(&entry_file_name(id)), Some(id));
}

#[test]
fn entry_id_reads_only_identifier_names_with_the_extension() {
    let id: u128 = 0x550e8400e29b41d4a716446655440000;
    assert_eq!(entry_id("550e8400-e29b-41d4-a716-446655440000.age"), Some(id));
    assert_eq!(entry_id("550E8400-E29B-41D4-A716-446655440000.age"), Some(id));
    assert_eq!(entry_id("550e8400e29b41d4a716446655440000.age"), Some(id));
    assert_eq!(entry_id("550e8400-e29b-41d4-a716-446655440000.txt"), None);
    assert_eq!(entry_id("550e8400-e29b-41d4-a716-446655440000"), None);
    assert_eq!(entry_id("notes.age"), None);
    assert_eq!(entry_id(".age"), None);
    assert_eq!(entry_id("x.550e8400-e29b-41d4-a716-446655440000.age"), None);
}

fn item(name: &str, is_dir: bool) -> DirEntry {
    DirEntry { name: Some(name.to_string()), is_dir }
}

#[test]
fn test_entries_ok() {
    let root = temporary_path();
    let backend = Filesystem::new(&root, PathKind::Directory).ok().unwrap();
    let mut listing = Vec::new();
    let mut ids = Vec::new();
    for _ in 0..10 {
        let id = uuid::Uuid::new_v4();
        listing.push(item(&format!("{}.age", id), false));
        ids.push(id.as_u128());
    }
    let entries = backend.entries(&listing);
    assert_eq!(entries.len(), 10);
    for id in ids {
        let file = entries.get(&id).unwrap();
        assert_eq!(
            file.to_string(),
            format!("{}/entries/{}.age", root, uuid::Uuid::from_u128(id))
        );
    }
}

#[test]
fn enumeration_skips_what_is_not_an_entry() {
    let backend = Filesystem::new("/vault", PathKind::Directory).ok().unwrap();
    let valid = "67e55044-10b1-426f-9247-bb680e5fe0c8.age";
    let listing = vec![
        item(valid, false),
        item("not-an-identifier.age", false),
        item("67e55044-10b1-426f-9247-bb680e5fe0c9.txt", false),
        item("77e55044-10b1-426f-9247-bb680e5fe0c8.age", true),
        DirEntry { name: None, is_dir: false },
    ];
    let entries = backend.entries(&listing);
    assert_eq!(entries.len(), 1);
    let id = uuid::Uuid::parse_str("67e55044-10b1-426f-9247-bb680e5fe0c8")
        .unwrap()
        .as_u128();
    assert_eq!(entries.get(&id).unwrap().to_string(), format!("/vault/entries/{}", valid));
}

#[test]
fn test_add_entry_ok() {
    let root = temporary_path();
    let mut backend = Filesystem::new(&root, PathKind::Directory).ok().unwrap();
    let existing: HashMap<u128, File> = HashMap::new();
    for _ in 0..10 {
        let id = uuid::Uuid::new_v4().as_u128();
        let file = backend.add_entry(id, PathKind::Directory, &existing).ok().unwrap();
        assert_eq!(
            file.to_string(),
            format!("{}/entries/{}", root, entry_file_name(id))
        );
    }
}

#[test]
fn add_entry_twice_is_refused() {
    let mut backend = Filesystem::new("/vault", PathKind::Directory).ok().unwrap();
    let id: u128 = 42;
    let none: HashMap<u128, File> = HashMap::new();
    let first = backend.add_entry(id, PathKind::Directory, &none).ok().unwrap();
    // The vault remembers the identifiers it handed out.
    assert!(matches!(
        backend.add_entry(id, PathKind::Directory, &none),
        Err(StorageError::AlreadyExists)
    ));
    // A fresh view of the same vault learns of it from enumeration.
    let mut backend = Filesystem::new("/vault", PathKind::Directory).ok().unwrap();
    // Once written, the entry is listed and found by enumeration.
    let name = entry_file_name(id);
    let listed = backend.entries(&vec![item(&name, false)]);
    assert_eq!(listed.get(&id).unwrap().to_string(), first.to_string());
    assert!(matches!(
        backend.add_entry(id, PathKind::Directory, &listed),
        Err(StorageError::AlreadyExists)
    ));
    assert!(backend.add_entry(43, PathKind::Directory, &listed).is_ok());
}

#[test]
fn add_entry_needs_entries_directory() {
    let mut backend = Filesystem::new("/vault", PathKind::Directory).ok().unwrap();
    let none: HashMap<u128, File> = HashMap::new();
    assert!(matches!(
        backend.add_entry(1, PathKind::File, &none),
        Err(StorageError::NotADirectory)
    ));
}

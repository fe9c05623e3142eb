use scriba::fstree::ModuleDir;
use scriba::staging::{delete_dir, move_dir, DirSet, StagingError};

fn module(prop: &str) -> ModuleDir {
    ModuleDir {
        prop: Some(prop.to_string()),
        has_install_script: false,
        has_uninstall_script: false,
        has_boot_script: false,
        uninstall_flag: false,
        disable_flag: false,
        system: None,
    }
}

#[test]
fn move_dir_overwrites_existing_destination() {
    let mut src = DirSet::new();
    let mut dst = DirSet::new();
    src.insert("m".to_string(), module("id=m\nversion=1"));
    dst.insert("m".to_string(), module("id=m\nversion=0"));
    let r = move_dir(&mut src, "m", &mut dst, "m");
    assert!(r.is_ok());
    // The destination now holds exactly the source's prior contents.
    let moved = dst.get("m").unwrap();
    assert_eq!(moved.prop.as_deref(), Some("id=m\nversion=1"));
    // The source no longer holds it.
    assert!(!src.contains("m"));
}

#[test]
fn move_dir_creates_fresh_destination() {
    let mut src = DirSet::new();
    let mut dst = DirSet::new();
    src.insert("a".to_string(), module("id=a"));
    assert!(move_dir(&mut src, "a", &mut dst, "a").is_ok());
    assert!(dst.contains("a"));
    assert!(!src.contains("a"));
}

#[test]
fn move_dir_fails_without_source() {
    let mut src = DirSet::new();
    let mut dst = DirSet::new();
    dst.insert("b".to_string(), module("id=b"));
    let r = move_dir(&mut src, "b", &mut dst, "b");
    assert!(matches!(r, Err(StagingError::SourceMissing)));
    // Nothing changed.
    assert!(dst.contains("b"));
    assert_eq!(dst.len(), 1);
    assert_eq!(src.len(), 0);
}

#[test]
fn delete_dir_removes_present_directory() {
    let mut set = DirSet::new();
    set.insert("m".to_string(), module("id=m"));
    delete_dir(&mut set, "m");
    assert!(!set.contains("m"));
    assert_eq!(set.len(), 0);
}

#[test]
fn delete_dir_on_absent_path_is_a_noop() {
    let mut set = DirSet::new();
    set.insert("keep".to_string(), module("id=keep"));
    delete_dir(&mut set, "not_there");
    assert!(set.contains("keep"));
    assert_eq!(set.len(), 1);
}

#[test]
fn insert_replaces_same_id() {
    let mut set = DirSet::new();
    set.insert("m".to_string(), module("one"));
    set.insert("m".to_string(), module("two"));
    assert_eq!(set.len(), 1);
    assert_eq!(set.get("m").unwrap().prop.as_deref(), Some("two"));
}

#[test]
fn take_returns_the_stored_directory() {
    let mut set = DirSet::new();
    set.insert("m".to_string(), module("payload"));
    let (name, dir) = set.take("m").unwrap();
    assert_eq!(name, "m");
    assert_eq!(dir.prop.as_deref(), Some("payload"));
    assert!(set.take("m").is_none());
}

use scriba::fstree::{
    clone_path, mount_module, path_eq, FsEntry, FsNode, ModuleDir, MountError, RootPaths,
};

fn path(parts: &[&str]) -> Vec<String> {
    parts.iter().map(|p| p.to_string()).collect()
}

fn file(name: &str) -> FsEntry {
    FsEntry { name: name.to_string(), node: FsNode::File }
}

fn dir(name: &str, entries: Vec<FsEntry>) -> FsEntry {
    FsEntry { name: name.to_string(), node: FsNode::Dir { entries } }
}

fn module_with_system(system: FsNode) -> ModuleDir {
    ModuleDir {
        prop: None,
        has_install_script: false,
        has_uninstall_script: false,
        has_boot_script: false,
        uninstall_flag: false,
        disable_flag: false,
        system: Some(system),
    }
}

#[test]
fn plans_one_bind_per_existing_file() {
    let system = FsNode::Dir {
        entries: vec![dir("etc", vec![file("hosts"), file("hostname")])],
    };
    let root = RootPaths {
        present: vec![path(&["etc"]), path(&["etc", "hosts"]), path(&["etc", "hostname"])],
    };
    let plan = mount_module(&module_with_system(system), &root).unwrap();
    assert_eq!(plan, vec![path(&["etc", "hosts"]), path(&["etc", "hostname"])]);
}

#[test]
fn missing_file_is_skipped_and_walk_continues() {
    let system = FsNode::Dir {
        entries: vec![dir("etc", vec![file("not_on_root"), file("hosts")])],
    };
    let root = RootPaths { present: vec![path(&["etc"]), path(&["etc", "hosts"])] };
    let plan = mount_module(&module_with_system(system), &root).unwrap();
    // The missing file is not mounted; its sibling still is.
    assert_eq!(plan, vec![path(&["etc", "hosts"])]);
}

#[test]
fn missing_directory_prunes_whole_subtree() {
    let system = FsNode::Dir {
        entries: vec![
            dir("gone", vec![file("a"), dir("sub", vec![file("b")])]),
            dir("etc", vec![file("hosts")]),
        ],
    };
    // "gone" is absent on the live root, but the files beneath it exist —
    // pruning must still skip them without recursing.
    let root = RootPaths {
        present: vec![
            path(&["gone", "a"]),
            path(&["gone", "sub", "b"]),
            path(&["etc"]),
            path(&["etc", "hosts"]),
        ],
    };
    let plan = mount_module(&module_with_system(system), &root).unwrap();
    assert_eq!(plan, vec![path(&["etc", "hosts"])]);
}

#[test]
fn directory_nodes_are_never_mounted() {
    let system = FsNode::Dir { entries: vec![dir("etc", vec![])] };
    let root = RootPaths { present: vec![path(&["etc"])] };
    let plan = mount_module(&module_with_system(system), &root).unwrap();
    assert!(plan.is_empty());
}

#[test]
fn other_entry_kinds_are_skipped() {
    let system = FsNode::Dir {
        entries: vec![
            FsEntry { name: "weird".to_string(), node: FsNode::Other },
            file("ok"),
        ],
    };
    let root = RootPaths { present: vec![path(&["weird"]), path(&["ok"])] };
    let plan = mount_module(&module_with_system(system), &root).unwrap();
    assert_eq!(plan, vec![path(&["ok"])]);
}

#[test]
fn module_without_system_dir_fails() {
    let mut m = module_with_system(FsNode::File);
    assert!(matches!(mount_module(&m, &RootPaths { present: vec![] }), Err(MountError::SystemDirMissing)));
    m.system = None;
    assert!(matches!(mount_module(&m, &RootPaths { present: vec![] }), Err(MountError::SystemDirMissing)));
}

#[test]
fn path_helpers_compare_and_copy() {
    let a = path(&["usr", "bin"]);
    let b = path(&["usr", "bin"]);
    let c = path(&["usr", "lib"]);
    assert!(path_eq(&a, &b));
    assert!(!path_eq(&a, &c));
    assert_eq!(clone_path(&c), c);
    let root = RootPaths { present: vec![a.clone()] };
    assert!(root.contains_path(&b));
    assert!(!root.contains_path(&c));
}

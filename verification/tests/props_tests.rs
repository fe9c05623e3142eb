use scriba::props::{read_module_prop, check_module_fields, validate_prop, parse_props, PropMap, PropType, ValidationError};

fn ok_content() -> String {
    "id=test_mod\nname=Test Module\ndescription=A test overlay\nversion=1\n".to_string()
}

#[test]
fn valid_prop_parses_with_defaulted_skip_mount() {
    let p = read_module_prop(&ok_content(), "test_mod").unwrap();
    assert_eq!(p.id, "test_mod");
    assert_eq!(p.name, "Test Module");
    assert_eq!(p.description, "A test overlay");
    assert_eq!(p.version, 1);
    assert!(!p.skip_mount);
}

#[test]
fn keys_and_values_are_trimmed() {
    let content = "  id  =  test_mod  \nname=N\ndescription=D\nversion= -7 ";
    // version is not trimmed by the integer check itself, but the value is
    // trimmed at parse time, so " -7 " is stored as "-7".
    let p = read_module_prop(content, "test_mod").unwrap();
    assert_eq!(p.id, "test_mod");
    assert_eq!(p.version, -7);
}

#[test]
fn lines_without_equals_are_ignored() {
    let content = "# a comment line\nid=test_mod\nname=N\ndescription=D\nversion=2\njust words\n";
    let p = read_module_prop(content, "test_mod").unwrap();
    assert_eq!(p.version, 2);
}

#[test]
fn later_line_wins_for_duplicate_key() {
    let content = "id=test_mod\nname=First\nname=Second\ndescription=D\nversion=1";
    let p = read_module_prop(content, "test_mod").unwrap();
    assert_eq!(p.name, "Second");
}

#[test]
fn missing_id_is_named() {
    let content = "name=N\ndescription=D\nversion=1";
    match read_module_prop(content, "x") {
        Err(ValidationError::Missing { key }) => assert_eq!(key, "id"),
        other => panic!("expected missing id, got {:?}", other.is_ok()),
    }
}

#[test]
fn missing_name_is_named() {
    let content = "id=test_mod\ndescription=D\nversion=1";
    match read_module_prop(content, "test_mod") {
        Err(ValidationError::Missing { key }) => assert_eq!(key, "name"),
        other => panic!("expected missing name, got {:?}", other.is_ok()),
    }
}

#[test]
fn missing_description_is_named() {
    let content = "id=test_mod\nname=N\nversion=1";
    match read_module_prop(content, "test_mod") {
        Err(ValidationError::Missing { key }) => assert_eq!(key, "description"),
        other => panic!("expected missing description, got {:?}", other.is_ok()),
    }
}

#[test]
fn missing_version_is_named() {
    let content = "id=test_mod\nname=N\ndescription=D";
    match read_module_prop(content, "test_mod") {
        Err(ValidationError::Missing { key }) => assert_eq!(key, "version"),
        other => panic!("expected missing version, got {:?}", other.is_ok()),
    }
}

#[test]
fn empty_value_is_rejected() {
    let content = "id=test_mod\nname=   \ndescription=D\nversion=1";
    match read_module_prop(content, "test_mod") {
        Err(ValidationError::Empty { key }) => assert_eq!(key, "name"),
        other => panic!("expected empty name, got {:?}", other.is_ok()),
    }
}

#[test]
fn non_integer_version_is_rejected() {
    let content = "id=test_mod\nname=N\ndescription=D\nversion=two";
    match read_module_prop(content, "test_mod") {
        Err(ValidationError::NotAnInteger { key }) => assert_eq!(key, "version"),
        other => panic!("expected bad version, got {:?}", other.is_ok()),
    }
}

#[test]
fn version_over_i32_range_is_rejected() {
    let content = "id=test_mod\nname=N\ndescription=D\nversion=2147483648";
    assert!(matches!(
        read_module_prop(content, "test_mod"),
        Err(ValidationError::NotAnInteger { .. })
    ));
}

#[test]
fn version_at_i32_bounds_is_accepted() {
    let content = "id=test_mod\nname=N\ndescription=D\nversion=-2147483648";
    let p = read_module_prop(content, "test_mod").unwrap();
    assert_eq!(p.version, -2147483648);
    let content2 = "id=test_mod\nname=N\ndescription=D\nversion=2147483647";
    let p2 = read_module_prop(content2, "test_mod").unwrap();
    assert_eq!(p2.version, 2147483647);
}

#[test]
fn skip_mount_true_any_case() {
    let content = "id=test_mod\nname=N\ndescription=D\nversion=1\nskip_mount=TRUE";
    let p = read_module_prop(content, "test_mod").unwrap();
    assert!(p.skip_mount);
}

#[test]
fn skip_mount_false_is_kept() {
    let content = "id=test_mod\nname=N\ndescription=D\nversion=1\nskip_mount=False";
    let p = read_module_prop(content, "test_mod").unwrap();
    assert!(!p.skip_mount);
}

#[test]
fn skip_mount_other_value_is_rejected() {
    let content = "id=test_mod\nname=N\ndescription=D\nversion=1\nskip_mount=maybe";
    match read_module_prop(content, "test_mod") {
        Err(ValidationError::NotABoolean { key }) => assert_eq!(key, "skip_mount"),
        other => panic!("expected bad skip_mount, got {:?}", other.is_ok()),
    }
}

#[test]
fn id_directory_mismatch_fails_even_when_fields_are_valid() {
    let content = ok_content();
    assert!(check_module_fields(&content).is_ok());
    match read_module_prop(&content, "other_dir") {
        Err(ValidationError::IdMismatch { id, dir_name }) => {
            assert_eq!(id, "test_mod");
            assert_eq!(dir_name, "other_dir");
        },
        other => panic!("expected id mismatch, got {:?}", other.is_ok()),
    }
}

#[test]
fn check_fields_ignores_directory_name() {
    let p = check_module_fields(&ok_content()).unwrap();
    assert_eq!(p.id, "test_mod");
}

#[test]
fn validate_prop_reports_each_shape() {
    let mut m = PropMap::new();
    m.insert("a".to_string(), "  ".to_string());
    m.insert("b".to_string(), "12".to_string());
    m.insert("c".to_string(), "TrUe".to_string());
    assert!(matches!(validate_prop(&m, "missing", PropType::Text), Err(ValidationError::Missing { .. })));
    assert!(matches!(validate_prop(&m, "a", PropType::Text), Err(ValidationError::Empty { .. })));
    assert!(validate_prop(&m, "b", PropType::Integer).is_ok());
    assert!(matches!(validate_prop(&m, "a", PropType::Integer), Err(ValidationError::NotAnInteger { .. })));
    assert!(validate_prop(&m, "c", PropType::Boolean).is_ok());
    assert!(matches!(validate_prop(&m, "b", PropType::Boolean), Err(ValidationError::NotABoolean { .. })));
}

#[test]
fn prop_map_get_returns_last_insert() {
    let mut m = PropMap::new();
    m.insert("k".to_string(), "v1".to_string());
    m.insert("k".to_string(), "v2".to_string());
    assert_eq!(m.get("k"), Some("v2".to_string()));
    assert_eq!(m.get("absent"), None);
}

#[test]
fn parse_props_splits_on_first_equals() {
    let m = parse_props("k=a=b\n");
    assert_eq!(m.get("k"), Some("a=b".to_string()));
}

#[test]
fn windows_line_endings_are_handled() {
    let content = "id=test_mod\r\nname=N\r\ndescription=D\r\nversion=3\r\n";
    let p = read_module_prop(content, "test_mod").unwrap();
    assert_eq!(p.version, 3);
    assert_eq!(p.name, "N");
}

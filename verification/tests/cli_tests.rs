use scriba::cli::{app_id_unusual, parse_app_id, parse_module_id};

#[test]
fn module_id_accepts_letters_digits_underscore() {
    assert_eq!(parse_module_id("my_mod_01").unwrap(), "my_mod_01");
    assert_eq!(parse_module_id("ABC").unwrap(), "ABC");
    assert_eq!(parse_module_id("").unwrap(), "");
}

#[test]
fn module_id_rejects_other_characters() {
    let err = parse_module_id("bad-id").unwrap_err();
    assert_eq!(err, "module id must contain only letters, numbers, or underscore");
    assert!(parse_module_id("a b").is_err());
    assert!(parse_module_id("dir/../x").is_err());
}

#[test]
fn app_id_parses_decimal() {
    assert_eq!(parse_app_id("8012345678901234").unwrap(), 8012345678901234);
    assert_eq!(parse_app_id("0").unwrap(), 0);
    assert_eq!(parse_app_id("+7").unwrap(), 7);
}

#[test]
fn app_id_rejects_non_integers() {
    let err = parse_app_id("eighty").unwrap_err();
    assert_eq!(err, "app id must be an integer");
    assert!(parse_app_id("").is_err());
    assert!(parse_app_id("-3").is_err());
    assert!(parse_app_id("18446744073709551616").is_err());
}

#[test]
fn unusual_app_ids_are_flagged() {
    assert!(!app_id_unusual("8012345678901234"));
    assert!(app_id_unusual("12345"));
    assert!(app_id_unusual("7012345678901234"));
}

use yx::domain::{Yak, parse_hierarchy, resolve_name, validate_yak_name};
use yx::errors::YakError;
use yx::item::{Yak as Item, YakState};

#[test]
fn test_new_yak() {
    let yak = Yak::new("test".to_string());
    assert_eq!(yak.name, "test");
    assert!(!yak.done);
    assert_eq!(yak.context, None);
}

#[test]
fn test_yak_with_context() {
    let yak = Yak::new("test".to_string()).with_context("Some context".to_string());
    assert_eq!(yak.context, Some("Some context".to_string()));
}

#[test]
fn test_mark_done() {
    let yak = Yak::new("test".to_string()).mark_done();
    assert!(yak.done);
}

#[test]
fn test_mark_undone() {
    let yak = Yak::new("test".to_string()).mark_done().mark_undone();
    assert!(!yak.done);
}

#[test]
fn test_validate_yak_name_valid() {
    assert!(validate_yak_name("test").is_ok());
    assert!(validate_yak_name("dx/rust").is_ok());
}

#[test]
fn test_validate_yak_name_empty() {
    assert!(validate_yak_name("").is_err());
}

#[test]
fn test_validate_yak_name_forbidden_chars() {
    assert!(validate_yak_name("test\\name").is_err());
    assert!(validate_yak_name("test:name").is_err());
    assert!(validate_yak_name("test*name").is_err());
    assert!(validate_yak_name("test?name").is_err());
    assert!(validate_yak_name("test|name").is_err());
    assert!(validate_yak_name("test<name").is_err());
    assert!(validate_yak_name("test>name").is_err());
    assert!(validate_yak_name("test\"name").is_err());

    // Slash should be allowed (for hierarchy)
    assert!(validate_yak_name("test/name").is_ok());
}

#[test]
fn test_parse_hierarchy() {
    assert_eq!(parse_hierarchy("dx/rust"), vec!["dx", "rust"]);
    assert_eq!(parse_hierarchy("simple"), vec!["simple"]);
    assert_eq!(parse_hierarchy("a/b/c"), vec!["a", "b", "c"]);
}

#[test]
fn test_valid_names() {
    assert!(validate_yak_name("simple-name").is_ok());
    assert!(validate_yak_name("parent/child").is_ok());
    assert!(validate_yak_name("with spaces").is_ok());
}

#[test]
fn test_invalid_names() {
    assert!(validate_yak_name("with\\backslash").is_err());
    assert!(validate_yak_name("with:colon").is_err());
    assert!(validate_yak_name("with*asterisk").is_err());
    assert!(validate_yak_name("with?question").is_err());
    assert!(validate_yak_name("with|pipe").is_err());
    assert!(validate_yak_name("with<less").is_err());
    assert!(validate_yak_name("with>greater").is_err());
    assert!(validate_yak_name("with\"quote").is_err());
}

#[test]
fn test_state_round_trip() {
    assert_eq!(YakState::from_str("done"), YakState::Done);
    assert_eq!(YakState::from_str(" done\n"), YakState::Done);
    assert_eq!(YakState::from_str("todo"), YakState::Todo);
    assert_eq!(YakState::from_str(""), YakState::Todo);
    assert_eq!(YakState::from_str(YakState::Done.as_str()), YakState::Done);
    assert_eq!(YakState::from_str(YakState::Todo.as_str()), YakState::Todo);
}

#[test]
fn test_item_builders() {
    let item = Item::new("dx/rust".to_string())
        .with_state(YakState::Done)
        .with_context("notes".to_string())
        .with_mtime(42);
    assert_eq!(item.name, "dx/rust");
    assert_eq!(item.state, YakState::Done);
    assert_eq!(item.context, "notes");
    assert_eq!(item.mtime, 42);
}

#[test]
fn test_item_hierarchy_helpers() {
    let item = Item::new("a/b/c".to_string());
    assert_eq!(item.basename(), "c");
    assert_eq!(item.depth(), 2);
    assert_eq!(item.parent(), Some("a/b".to_string()));
    assert!(item.is_child_of("a/b"));
    assert!(!item.is_child_of("a"));
    assert!(!item.is_child_of(""));

    let root = Item::new("solo".to_string());
    assert_eq!(root.basename(), "solo");
    assert_eq!(root.depth(), 0);
    assert_eq!(root.parent(), None);
    assert!(root.is_child_of(""));
    assert!(root.is_child_of("."));
}

#[test]
fn test_resolve_name() {
    let yaks = vec![
        Yak::new("dx/rust".to_string()),
        Yak::new("dx/go".to_string()),
        Yak::new("chores".to_string()),
    ];
    // exact name
    assert_eq!(resolve_name(&yaks, "chores").unwrap(), "chores");
    // unique substring
    assert_eq!(resolve_name(&yaks, "rust").unwrap(), "dx/rust");
    // ambiguous substring
    match resolve_name(&yaks, "dx") {
        Err(YakError::Ambiguous { name }) => assert_eq!(name, "dx"),
        _ => panic!("expected an ambiguous match"),
    }
    // no match
    match resolve_name(&yaks, "zzz") {
        Err(YakError::NotFound { name }) => assert_eq!(name, "zzz"),
        _ => panic!("expected not found"),
    }
}

use mini_c::interpreter::value::Value;
use mini_c::ir::ast::Type;
use mini_c::stdlib::registry::NativeRegistry;
use mini_c::stdlib::string::substr;

// --- string tests ---

#[test]
fn test_substr_valid_slice() {
    let result = substr(vec![
        Value::Str("abcdef".to_string()),
        Value::Int(2),
        Value::Int(3),
    ]);
    assert_eq!(result, Ok(Value::Str("cde".to_string())));
}

#[test]
fn test_substr_start_out_of_bounds() {
    let result = substr(vec![
        Value::Str("abc".to_string()),
        Value::Int(4),
        Value::Int(1),
    ]);
    assert!(result.is_err());
}

#[test]
fn test_substr_range_out_of_bounds() {
    let result = substr(vec![
        Value::Str("abc".to_string()),
        Value::Int(2),
        Value::Int(2),
    ]);
    assert!(result.is_err());
}

#[test]
fn test_substr_negative_start_rejected() {
    let result = substr(vec![
        Value::Str("abc".to_string()),
        Value::Int(-1),
        Value::Int(1),
    ]);
    assert!(result.is_err());
}

#[test]
fn test_substr_negative_length_rejected() {
    let result = substr(vec![
        Value::Str("abc".to_string()),
        Value::Int(0),
        Value::Int(-1),
    ]);
    assert!(result.is_err());
}

// --- registry tests ---

#[test]
fn test_default_registry_contains_all_stdlib() {
    let r = NativeRegistry::default();
    assert!(r.lookup("print").is_some());
    assert!(r.lookup("readInt").is_some());
    assert!(r.lookup("readFloat").is_some());
    assert!(r.lookup("readString").is_some());
    assert!(r.lookup("pow").is_some());
    assert!(r.lookup("sqrt").is_some());
    assert!(r.lookup("substr").is_some());
    assert!(r.lookup("toUpper").is_some());
    assert!(r.lookup("toLower").is_some());
    assert!(r.lookup("strToInt").is_some());
    assert!(r.lookup("strToFloat").is_some());
}

#[test]
fn test_len_and_contains_not_in_registry() {
    let r = NativeRegistry::default();
    assert!(r.lookup("len").is_none());
    assert!(r.lookup("contains").is_none());
}

#[test]
fn test_lookup_unregistered_returns_none() {
    let r = NativeRegistry::default();
    assert!(r.lookup("unknown").is_none());
}

#[test]
fn test_sqrt_entry_signature() {
    let r = NativeRegistry::default();
    let entry = r.lookup("sqrt").unwrap();
    assert_eq!(entry.params, vec![Type::Float]);
    assert_eq!(entry.return_type, Type::Float);
}

#[test]
fn test_print_uses_type_any() {
    let r = NativeRegistry::default();
    let entry = r.lookup("print").unwrap();
    assert_eq!(entry.params, vec![Type::Any]);
}

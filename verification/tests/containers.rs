//! The generic containers: value cell, stack, unique stack, and set.

use isu::containers::{LenAtLeast, LenAtMost, Stack, StackSet, StartsWith, TSet, Value};
use isu::errors::IsuError;

#[test]
fn test_value_creation_and_operations() {
    let allowed = vec!["a".to_string(), "b".to_string(), "c".to_string()];
    let mut value = Value::new_allowed(allowed);

    assert!(value.set("a".to_string()).is_ok());
    assert_eq!(value.get(), Some(&"a".to_string()));

    assert!(value.set("d".to_string()).is_err());

    value.clear();
    assert_eq!(value.get(), None);
}

#[test]
fn test_value_with_type_constraint() {
    let mut value = Value::new_type(LenAtLeast { n: 3 });

    assert!(value.set("hello".to_string()).is_ok());
    assert!(value.set("hi".to_string()).is_err());
    assert_eq!(value.get(), Some(&"hello".to_string()));
}

#[test]
fn test_value_rejection_error_kind() {
    let mut value = Value::new_type(LenAtLeast { n: 3 });
    assert_eq!(value.set("hi".to_string()), Err(IsuError::ValueRejected));
}

#[test]
fn test_stack_operations() {
    let mut stack = Stack::new();

    assert!(stack.top().is_err());
    assert!(stack.pop().is_err());
    assert_eq!(stack.len(), 0);

    assert!(stack.push("item1".to_string()).is_ok());
    assert!(stack.push("item2".to_string()).is_ok());
    assert_eq!(stack.len(), 2);

    assert_eq!(stack.top().unwrap(), &"item2".to_string());
    assert_eq!(stack.pop().unwrap(), "item2".to_string());
    assert_eq!(stack.len(), 1);

    stack.clear();
    assert_eq!(stack.len(), 0);
}

#[test]
fn test_stack_empty_error_kind() {
    let mut stack: Stack<String, isu::containers::AcceptAll> = Stack::new();
    assert_eq!(stack.pop(), Err(IsuError::EmptyStack));
}

#[test]
fn test_stack_with_type_constraint() {
    let mut stack = Stack::with_type(StartsWith { prefix: "valid_".to_string() });

    assert!(stack.push("valid_item".to_string()).is_ok());
    assert!(stack.push("invalid_item".to_string()).is_err());
    assert_eq!(stack.len(), 1);
}

#[test]
fn test_stackset_operations() {
    let mut stackset = StackSet::new();

    assert!(stackset.push("item1".to_string()).is_ok());
    assert!(stackset.push("item2".to_string()).is_ok());
    assert!(stackset.push("item1".to_string()).is_ok());

    assert!(stackset.contains(&"item1".to_string()));
    assert!(stackset.contains(&"item2".to_string()));
    assert!(!stackset.contains(&"item3".to_string()));
}

#[test]
fn test_stackset_repush_moves_to_top_without_growth() {
    let mut stackset = StackSet::new();
    stackset.push("bottom".to_string()).unwrap();
    stackset.push("middle".to_string()).unwrap();
    stackset.push("top".to_string()).unwrap();
    assert_eq!(stackset.len(), 3);
    assert_eq!(stackset.top().unwrap(), &"top".to_string());

    // pushing a present element moves it to the top and keeps the length
    stackset.push("bottom".to_string()).unwrap();
    assert_eq!(stackset.len(), 3);
    assert_eq!(stackset.top().unwrap(), &"bottom".to_string());
    assert!(stackset.contains(&"middle".to_string()));
    assert!(stackset.contains(&"top".to_string()));

    // the untouched order is preserved underneath
    assert_eq!(stackset.get(0).unwrap(), &"middle".to_string());
    assert_eq!(stackset.get(1).unwrap(), &"top".to_string());
    assert_eq!(stackset.get(2).unwrap(), &"bottom".to_string());
}

#[test]
fn test_tset_operations() {
    let mut tset = TSet::new();

    assert!(tset.add("item1".to_string()).is_ok());
    assert!(tset.add("item2".to_string()).is_ok());
    assert!(tset.add("item1".to_string()).is_ok());

    assert_eq!(tset.len(), 2);
    assert!(tset.contains(&"item1".to_string()));
    assert!(tset.contains(&"item2".to_string()));

    tset.clear();
    assert_eq!(tset.len(), 0);
}

#[test]
fn test_tset_with_type_constraint() {
    let mut tset = TSet::with_type(LenAtMost { n: 5 });

    assert!(tset.add("short".to_string()).is_ok());
    assert!(tset.add("toolongstring".to_string()).is_err());
    assert_eq!(tset.len(), 1);
}

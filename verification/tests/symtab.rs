use monkey::symtab::{Symbol, SymbolScope, SymbolTable};
use std::rc::Rc;

fn resolved(table: &mut SymbolTable, name: &str) -> Option<Symbol> {
    table.resolve(name.to_string()).map(|s| Symbol::new(name, s.scope, s.index))
}

#[test]
fn define_global() {
    let mut global = SymbolTable::new();
    let a = global.define("a".to_string());
    assert_eq!(*a, Symbol::new("a", SymbolScope::Global, 0));
    let b = global.define("b".to_string());
    assert_eq!(*b, Symbol::new("b", SymbolScope::Global, 1));
    assert_eq!(global.num_definitions, 2);
}

#[test]
fn define_local() {
    let mut global = SymbolTable::new();
    global.define("a".to_string());
    let mut local = SymbolTable::new_enclosed(global);
    let c = local.define("c".to_string());
    assert_eq!(*c, Symbol::new("c", SymbolScope::Local, 0));
    let d = local.define("d".to_string());
    assert_eq!(*d, Symbol::new("d", SymbolScope::Local, 1));
    assert_eq!(local.num_definitions, 2);
    assert_eq!(local.outer.as_ref().map(|o| o.num_definitions), Some(1));
}

#[test]
fn resolve_global() {
    let mut global = SymbolTable::new();
    global.define("a".to_string());
    global.define("b".to_string());
    assert_eq!(global.resolve("a".to_string()).as_deref(), Some(&Symbol::new("a", SymbolScope::Global, 0)));
    assert_eq!(global.resolve("b".to_string()).as_deref(), Some(&Symbol::new("b", SymbolScope::Global, 1)));
    assert_eq!(global.resolve("c".to_string()), None);
}

#[test]
fn resolve_shares_the_defined_symbol() {
    let mut global = SymbolTable::new();
    let a = global.define("a".to_string());
    let found = global.resolve("a".to_string()).unwrap();
    assert!(Rc::ptr_eq(&a, &found));
}

#[test]
fn resolve_local_and_outer() {
    let mut global = SymbolTable::new();
    global.define("a".to_string());
    global.define("b".to_string());
    let mut local = SymbolTable::new_enclosed(global);
    local.define("c".to_string());
    local.define("d".to_string());
    assert_eq!(resolved(&mut local, "a"), Some(Symbol::new("a", SymbolScope::Global, 0)));
    assert_eq!(resolved(&mut local, "b"), Some(Symbol::new("b", SymbolScope::Global, 1)));
    assert_eq!(resolved(&mut local, "c"), Some(Symbol::new("c", SymbolScope::Local, 0)));
    assert_eq!(resolved(&mut local, "d"), Some(Symbol::new("d", SymbolScope::Local, 1)));
    assert_eq!(resolved(&mut local, "e"), None);
}

#[test]
fn nested_local_scopes() {
    let mut global = SymbolTable::new();
    global.define("a".to_string());
    let mut first = SymbolTable::new_enclosed(global);
    first.define("b".to_string());
    let mut second = SymbolTable::new_enclosed(first);
    second.define("c".to_string());
    assert_eq!(resolved(&mut second, "a"), Some(Symbol::new("a", SymbolScope::Global, 0)));
    assert_eq!(resolved(&mut second, "b"), Some(Symbol::new("b", SymbolScope::Local, 0)));
    assert_eq!(resolved(&mut second, "c"), Some(Symbol::new("c", SymbolScope::Local, 0)));
}

#[test]
fn local_definition_shadows_outer() {
    let mut global = SymbolTable::new();
    global.define("x".to_string());
    let mut local = SymbolTable::new_enclosed(global);
    local.define("y".to_string());
    local.define("x".to_string());
    assert_eq!(resolved(&mut local, "x"), Some(Symbol::new("x", SymbolScope::Local, 1)));
}

#[test]
fn redefinition_replaces_and_takes_a_new_slot() {
    let mut global = SymbolTable::new();
    global.define("a".to_string());
    global.define("b".to_string());
    let again = global.define("a".to_string());
    assert_eq!(*again, Symbol::new("a", SymbolScope::Global, 2));
    assert_eq!(global.num_definitions, 3);
    assert_eq!(resolved(&mut global, "a"), Some(Symbol::new("a", SymbolScope::Global, 2)));
    assert_eq!(resolved(&mut global, "b"), Some(Symbol::new("b", SymbolScope::Global, 1)));
}

#[test]
fn resolve_leaves_the_table_as_it_was() {
    let mut global = SymbolTable::new();
    global.define("a".to_string());
    let before = global.clone();
    global.resolve("a".to_string());
    global.resolve("zzz".to_string());
    assert_eq!(global, before);
}

#[test]
fn clone_and_default() {
    let mut global = SymbolTable::default();
    assert_eq!(global, SymbolTable::new());
    global.define("a".to_string());
    let mut local = SymbolTable::new_enclosed(global);
    local.define("b".to_string());
    let mut copy = local.clone();
    assert_eq!(copy, local);
    assert_eq!(resolved(&mut copy, "a"), Some(Symbol::new("a", SymbolScope::Global, 0)));
}

#[test]
fn equality_ignores_the_order_of_definitions() {
    let mut first = SymbolTable::new();
    first.define("b".to_string());
    first.define("b".to_string());
    first.define("a".to_string());
    let mut second = SymbolTable::new();
    second.define("a".to_string());
    second.define("b".to_string());
    second.define("a".to_string());
    assert_eq!(first, second);
}

#[test]
fn equality_compares_symbols_counts_and_outer_tables() {
    let mut first = SymbolTable::new();
    first.define("a".to_string());
    let mut second = SymbolTable::new();
    second.define("b".to_string());
    assert_ne!(first, second);

    let mut third = SymbolTable::new();
    third.define("a".to_string());
    third.define("a".to_string());
    assert_ne!(first, third);

    let mut outer = SymbolTable::new();
    outer.define("x".to_string());
    let enclosed = SymbolTable::new_enclosed(outer);
    assert_ne!(enclosed, SymbolTable::new());
    assert_ne!(SymbolTable::new(), enclosed);
}

#[test]
fn getters() {
    let mut global = SymbolTable::new();
    assert!(global.outer().is_none());
    global.define("a".to_string());
    let mut local = SymbolTable::new_enclosed(global);
    let b = local.define("b".to_string());
    assert_eq!(b.scope(), SymbolScope::Local);
    assert_eq!(b.index(), 0);
    assert_eq!(local.num_definitions(), 1);
    assert_eq!(local.outer().map(|o| o.num_definitions()), Some(1));
}

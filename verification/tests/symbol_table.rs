use monkey::compiler::symbol_table::{
    Symbol, SymbolTable, BUILTIN_SCOPE, FREE_SCOPE, FUNCTION_SCOPE, GLOBAL_SCOPE, LOCAL_SCOPE,
};
use std::collections::HashMap;

#[test]
fn test_define() {
    let mut expected = HashMap::new();
    expected.insert("a".to_string(), Symbol::new("a", GLOBAL_SCOPE, 0));
    expected.insert("b".to_string(), Symbol::new("b", GLOBAL_SCOPE, 1));
    expected.insert("c".to_string(), Symbol::new("c", LOCAL_SCOPE, 0));
    expected.insert("d".to_string(), Symbol::new("d", LOCAL_SCOPE, 1));
    expected.insert("e".to_string(), Symbol::new("e", LOCAL_SCOPE, 0));
    expected.insert("f".to_string(), Symbol::new("f", LOCAL_SCOPE, 1));

    let mut global = SymbolTable::new();
    assert_eq!(global.define("a"), *expected.get("a").unwrap());
    assert_eq!(global.define("b"), *expected.get("b").unwrap());

    let mut first_local = SymbolTable::new_enclosed(global);
    assert_eq!(first_local.define("c"), *expected.get("c").unwrap());
    assert_eq!(first_local.define("d"), *expected.get("d").unwrap());

    let mut second_local = SymbolTable::new_enclosed(first_local);
    assert_eq!(second_local.define("e"), *expected.get("e").unwrap());
    assert_eq!(second_local.define("f"), *expected.get("f").unwrap());
}

#[test]
fn test_resolve() {
    let mut global = SymbolTable::new();
    global.define("a");
    global.define("b");

    let expected = vec![
        Symbol::new("a", GLOBAL_SCOPE, 0),
        Symbol::new("b", GLOBAL_SCOPE, 1),
    ];

    for sym in expected {
        let resolved = global.resolve(&sym.name);
        assert!(resolved.is_some());
        assert_eq!(sym, resolved.unwrap());
    }

    assert_eq!(None, global.resolve("x"));
}

#[test]
fn test_resolve_local() {
    let mut global = SymbolTable::new();
    global.define("a");
    global.define("b");

    let mut local = SymbolTable::new_enclosed(global);
    local.define("c");
    local.define("d");

    let expected = vec![
        Symbol::new("a", GLOBAL_SCOPE, 0),
        Symbol::new("b", GLOBAL_SCOPE, 1),
        Symbol::new("c", LOCAL_SCOPE, 0),
        Symbol::new("d", LOCAL_SCOPE, 1),
    ];

    for sym in expected {
        let resolved = local.resolve(&sym.name);
        assert!(resolved.is_some());
        assert_eq!(sym, resolved.unwrap());
    }
}

#[test]
fn test_resolve_nested_and_local() {
    let mut global = SymbolTable::new();
    global.define("a");
    global.define("b");

    let mut first_local = SymbolTable::new_enclosed(global);
    first_local.define("c");
    first_local.define("d");

    let mut second_local = SymbolTable::new_enclosed(first_local);
    second_local.define("e");
    second_local.define("f");

    // the first table is the one that encloses the second
    let first_expected = vec![
        Symbol::new("a", GLOBAL_SCOPE, 0),
        Symbol::new("b", GLOBAL_SCOPE, 1),
        Symbol::new("c", LOCAL_SCOPE, 0),
        Symbol::new("d", LOCAL_SCOPE, 1),
    ];
    for sym in first_expected {
        let first_local = second_local.outer.as_mut().unwrap();
        let resolved = first_local.resolve(&sym.name);
        assert!(resolved.is_some());
        assert_eq!(sym, resolved.unwrap());
    }
}

#[test]
fn test_define_resolve_builtins() {
    let global = SymbolTable::new();
    let first_local = SymbolTable::new_enclosed(global);
    let mut second_local = SymbolTable::new_enclosed(first_local);

    let expected = vec![
        Symbol::new("a", BUILTIN_SCOPE, 0),
        Symbol::new("c", BUILTIN_SCOPE, 1),
        Symbol::new("e", BUILTIN_SCOPE, 2),
        Symbol::new("f", BUILTIN_SCOPE, 3),
    ];

    for (i, v) in expected.iter().enumerate() {
        let global = second_local.outer.as_mut().unwrap().outer.as_mut().unwrap();
        global.define_builtin(i, &v.name);
    }

    // the global table
    for sym in &expected {
        let global = second_local.outer.as_mut().unwrap().outer.as_mut().unwrap();
        let result = global.resolve(&sym.name);
        assert!(result.is_some());
        assert_eq!(*sym, result.unwrap());
    }
    // the first local table
    for sym in &expected {
        let first_local = second_local.outer.as_mut().unwrap();
        let result = first_local.resolve(&sym.name);
        assert!(result.is_some());
        assert_eq!(*sym, result.unwrap());
    }
    // the second local table
    for sym in &expected {
        let result = second_local.resolve(&sym.name);
        assert!(result.is_some());
        assert_eq!(*sym, result.unwrap());
    }
}

#[test]
fn test_resolve_free() {
    let mut global = SymbolTable::new();
    global.define("a");
    global.define("b");

    let mut first_local = SymbolTable::new_enclosed(global);
    first_local.define("c");
    first_local.define("d");

    // (expected_symbols, expected_free_symbols) of the first local table
    let first_expected = vec![
        Symbol::new("a", GLOBAL_SCOPE, 0),
        Symbol::new("b", GLOBAL_SCOPE, 1),
        Symbol::new("c", LOCAL_SCOPE, 0),
        Symbol::new("d", LOCAL_SCOPE, 1),
    ];
    for sym in first_expected {
        let result = first_local.resolve(&sym.name);
        assert!(result.is_some());
        assert_eq!(sym, result.unwrap());
    }
    assert_eq!(first_local.free_symbols.len(), 0);

    let mut second_local = SymbolTable::new_enclosed(first_local);
    second_local.define("e");
    second_local.define("f");

    let second_expected = vec![
        Symbol::new("a", GLOBAL_SCOPE, 0),
        Symbol::new("b", GLOBAL_SCOPE, 1),
        Symbol::new("c", FREE_SCOPE, 0),
        Symbol::new("d", FREE_SCOPE, 1),
        Symbol::new("e", LOCAL_SCOPE, 0),
        Symbol::new("f", LOCAL_SCOPE, 1),
    ];
    let second_free = vec![
        Symbol::new("c", LOCAL_SCOPE, 0),
        Symbol::new("d", LOCAL_SCOPE, 1),
    ];
    for sym in second_expected {
        let result = second_local.resolve(&sym.name);
        assert!(result.is_some());
        assert_eq!(sym, result.unwrap());
    }

    assert_eq!(second_local.free_symbols.len(), second_free.len());

    for (i, sym) in second_free.iter().enumerate() {
        let result = second_local.free_symbols.get(i);
        assert!(result.is_some());
        assert_eq!(sym, result.unwrap());
    }
}

#[test]
fn test_resolve_unresolvable_free() {
    let mut global = SymbolTable::new();
    global.define("a");

    let mut first_local = SymbolTable::new_enclosed(global);
    first_local.define("c");

    let mut second_local = SymbolTable::new_enclosed(first_local);
    second_local.define("e");
    second_local.define("f");

    let expected = vec![
        Symbol::new("a", GLOBAL_SCOPE, 0),
        Symbol::new("c", FREE_SCOPE, 0),
        Symbol::new("e", LOCAL_SCOPE, 0),
        Symbol::new("f", LOCAL_SCOPE, 1),
    ];

    for sym in expected {
        let result = second_local.resolve(&sym.name);
        assert!(result.is_some());
        assert_eq!(sym, result.unwrap());
    }

    for name in ["b", "d"] {
        let result = second_local.resolve(name);
        assert!(result.is_none());
    }
}

#[test]
fn test_define_and_resolve_function_name() {
    let mut global = SymbolTable::new();
    global.define_function_name("a");

    let expected = Symbol::new("a", FUNCTION_SCOPE, 0);
    let result = global.resolve(&expected.name);
    assert!(result.is_some());
    assert_eq!(expected, result.unwrap());
}

#[test]
fn test_shadowing_function_name() {
    let mut global = SymbolTable::new();
    global.define_function_name("a");
    global.define("a");

    let expected = Symbol::new("a", GLOBAL_SCOPE, 0);
    let result = global.resolve(&expected.name);
    assert!(result.is_some());
    assert_eq!(expected, result.unwrap());
}

#[test]
fn builtins_resolve_in_every_new_table() {
    let names = ["len", "print", "push", "pop", "is_null", "insert", "delete", "sleep"];
    let mut global = SymbolTable::new();
    for (i, name) in names.iter().enumerate() {
        assert_eq!(global.resolve(name), Some(Symbol::new(name, BUILTIN_SCOPE, i + 1)));
    }
    let mut local = SymbolTable::new_enclosed(global);
    for (i, name) in names.iter().enumerate() {
        assert_eq!(local.resolve(name), Some(Symbol::new(name, BUILTIN_SCOPE, i + 1)));
    }
    assert_eq!(local.table.num_definitions, 0);
    assert!(local.free_symbols.is_empty());
}

#[test]
fn define_shadows_a_builtin_and_counts_definitions() {
    let mut global = SymbolTable::new();
    assert_eq!(global.define("len"), Symbol::new("len", GLOBAL_SCOPE, 0));
    assert_eq!(global.resolve("len"), Some(Symbol::new("len", GLOBAL_SCOPE, 0)));
    assert_eq!(global.define("len"), Symbol::new("len", GLOBAL_SCOPE, 1));
    assert_eq!(global.table.num_definitions, 2);
    global.define_builtin(9, "extra");
    global.define_function_name("me");
    assert_eq!(global.table.num_definitions, 2);
}

#[test]
fn a_captured_symbol_is_captured_by_every_scope_on_the_way() {
    let mut global = SymbolTable::new();
    global.define("a");
    let mut first = SymbolTable::new_enclosed(global);
    first.define("c");
    let second = SymbolTable::new_enclosed(first);
    let mut third = SymbolTable::new_enclosed(second);

    assert_eq!(third.resolve("a"), Some(Symbol::new("a", GLOBAL_SCOPE, 0)));
    assert_eq!(third.resolve("c"), Some(Symbol::new("c", FREE_SCOPE, 0)));
    assert_eq!(third.free_symbols, vec![Symbol::new("c", FREE_SCOPE, 0)]);
    let second = third.outer.as_ref().unwrap();
    assert_eq!(second.free_symbols, vec![Symbol::new("c", LOCAL_SCOPE, 0)]);
    let first = second.outer.as_ref().unwrap();
    assert!(first.free_symbols.is_empty());
    // resolving again finds the captured symbol and captures nothing more
    assert_eq!(third.resolve("c"), Some(Symbol::new("c", FREE_SCOPE, 0)));
    assert_eq!(third.free_symbols.len(), 1);
}

#[test]
fn define_free_binds_the_name_to_a_free_symbol() {
    let mut table = SymbolTable::new();
    let found = Symbol::new("x", LOCAL_SCOPE, 4);
    assert_eq!(table.define_free(found.duplicate()), Symbol::new("x", FREE_SCOPE, 0));
    assert_eq!(table.define_free(Symbol::new("y", LOCAL_SCOPE, 5)), Symbol::new("y", FREE_SCOPE, 1));
    assert_eq!(table.free_symbols[0], found);
    assert_eq!(table.resolve("y"), Some(Symbol::new("y", FREE_SCOPE, 1)));
}

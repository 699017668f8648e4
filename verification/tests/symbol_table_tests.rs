use evasion::symbol_table::{Scope, Symbol, SymbolTable};

#[test]
fn test_define() {
    let expected = vec![
        Symbol::new("a".to_string(), Scope::GlobalScope, 0),
        Symbol::new("b".to_string(), Scope::GlobalScope, 1),
    ];

    let mut symbol_table = SymbolTable::new();

    let a_symbol = symbol_table.define("a".to_string());
    let b_symbol = symbol_table.define("b".to_string());

    assert_eq!(a_symbol, expected[0]);
    assert_eq!(b_symbol, expected[1]);
}

#[test]
fn test_resolve() {
    let mut symbol_table = SymbolTable::new();

    symbol_table.define("a".to_string());
    symbol_table.define("b".to_string());

    let expected = vec![
        Symbol::new("a".to_string(), Scope::GlobalScope, 0),
        Symbol::new("b".to_string(), Scope::GlobalScope, 1),
    ];

    for symbol in expected {
        let resolved = symbol_table.resolve(&symbol.name);

        if let Some(res_symbol) = resolved {
            assert_eq!(
                res_symbol, &symbol,
                "expected={}\ngot={}",
                symbol.name, res_symbol.name
            );
        } else {
            panic!("Couldn't find symbol inside symbol table\nngot={}", symbol.name)
        }
    }
}

#[test]
fn test_redefinition_overwrites_and_consumes_a_slot() {
    let mut symbol_table = SymbolTable::new();

    symbol_table.define("a".to_string());
    let again = symbol_table.define("a".to_string());

    assert_eq!(again.index, 1);
    let resolved = symbol_table.resolve(&"a".to_string()).unwrap();
    assert_eq!(resolved.index, 1);
    assert!(symbol_table.resolve(&"missing".to_string()).is_none());
}

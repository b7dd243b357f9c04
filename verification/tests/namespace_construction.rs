use laibrary::languages::rust::api::namespace_construction::construct_namespaces;
use laibrary::languages::rust::api::symbol_resolution::{ResolvedSymbol, SymbolResolution};
use laibrary::types::{Namespace, Symbol};

const STUB_CRATE_NAME: &str = "test_crate";
const STUB_SYMBOL_NAME: &str = "test";

fn stub_symbol_with_name(name: &str) -> Symbol {
    Symbol {
        name: name.to_string(),
        source_code: format!("pub fn {}() {{}}", name),
    }
}

fn get_namespace<'a>(name: &str, namespaces: &'a [Namespace]) -> Option<&'a Namespace> {
    namespaces.iter().find(|n| n.name == name)
}

#[test]
fn no_symbols_in_namespace() {
    let namespaces = construct_namespaces(
        SymbolResolution {
            symbols: Vec::new(),
            doc_comments: Vec::new(),
        },
        STUB_CRATE_NAME,
    );

    assert_eq!(namespaces.len(), 0);
}

#[test]
fn one_symbol_in_namespace() {
    let symbol = stub_symbol_with_name(STUB_SYMBOL_NAME);
    let resolved_symbols = vec![ResolvedSymbol {
        symbol: symbol.clone(),
        modules: vec![String::new()],
    }];

    let namespaces = construct_namespaces(
        SymbolResolution {
            symbols: resolved_symbols,
            doc_comments: Vec::new(),
        },
        STUB_CRATE_NAME,
    );

    assert_eq!(namespaces.len(), 1);
    let namespace = get_namespace(STUB_CRATE_NAME, &namespaces).unwrap();
    let namespace_symbol = namespace.get_symbol(STUB_SYMBOL_NAME).unwrap();
    assert_eq!(namespace_symbol, &symbol);
}

#[test]
fn multiple_symbols_in_namespace() {
    let module_name = String::new();
    let symbol1 = stub_symbol_with_name("first_symbol");
    let symbol2 = stub_symbol_with_name("second_symbol");
    let resolved_symbols = vec![
        ResolvedSymbol {
            symbol: symbol1.clone(),
            modules: vec![module_name.clone()],
        },
        ResolvedSymbol {
            symbol: symbol2.clone(),
            modules: vec![module_name.clone()],
        },
    ];

    let namespaces = construct_namespaces(
        SymbolResolution {
            symbols: resolved_symbols,
            doc_comments: Vec::new(),
        },
        STUB_CRATE_NAME,
    );

    assert_eq!(namespaces.len(), 1);
    let root = get_namespace(STUB_CRATE_NAME, &namespaces).unwrap();
    assert_eq!(root.symbols.len(), 2);
    assert!(root.symbols.contains(&symbol1));
    assert!(root.symbols.contains(&symbol2));
}

#[test]
fn different_symbols_across_namespaces() {
    let symbol1 = stub_symbol_with_name(&format!("{}_root", STUB_SYMBOL_NAME));
    let symbol2 = stub_symbol_with_name(&format!("{}_nested", STUB_SYMBOL_NAME));
    let resolved_symbols = vec![
        ResolvedSymbol {
            symbol: symbol1.clone(),
            modules: vec![String::new()],
        },
        ResolvedSymbol {
            symbol: symbol2.clone(),
            modules: vec!["submodule".to_string()],
        },
    ];

    let namespaces = construct_namespaces(
        SymbolResolution {
            symbols: resolved_symbols,
            doc_comments: Vec::new(),
        },
        STUB_CRATE_NAME,
    );
    assert_eq!(namespaces.len(), 2);

    let root = get_namespace(STUB_CRATE_NAME, &namespaces).unwrap();
    assert_eq!(root.symbols, vec![symbol1]);

    let nested = get_namespace(&format!("{}::submodule", STUB_CRATE_NAME), &namespaces).unwrap();
    assert_eq!(nested.symbols, vec![symbol2]);
}

#[test]
fn same_symbol_across_namespaces() {
    let symbol = stub_symbol_with_name(STUB_SYMBOL_NAME);
    let resolved_symbols = vec![ResolvedSymbol {
        symbol: symbol.clone(),
        modules: vec!["outer".to_string(), "outer::inner".to_string()],
    }];

    let namespaces = construct_namespaces(
        SymbolResolution {
            symbols: resolved_symbols,
            doc_comments: Vec::new(),
        },
        STUB_CRATE_NAME,
    );

    assert_eq!(namespaces.len(), 2);
    let outer_namespace =
        get_namespace(&format!("{}::outer", STUB_CRATE_NAME), &namespaces).unwrap();
    let inner_namespace =
        get_namespace(&format!("{}::outer::inner", STUB_CRATE_NAME), &namespaces).unwrap();
    assert_eq!(outer_namespace.symbols, vec![symbol.clone()]);
    assert_eq!(inner_namespace.symbols, vec![symbol]);
}

#[test]
fn doc_comment() {
    let doc_comment = "This is a stub doc comment";
    let resolved_symbols = vec![ResolvedSymbol {
        symbol: stub_symbol_with_name(STUB_SYMBOL_NAME),
        modules: vec![String::new()],
    }];

    let namespaces = construct_namespaces(
        SymbolResolution {
            symbols: resolved_symbols,
            doc_comments: vec![(String::new(), doc_comment.to_string())],
        },
        STUB_CRATE_NAME,
    );

    assert_eq!(namespaces.len(), 1);
    let root = get_namespace(STUB_CRATE_NAME, &namespaces).unwrap();
    assert_eq!(root.doc_comment, Some(doc_comment.to_string()));
}

#[test]
fn namespaces_come_in_order_of_first_appearance() {
    let first = stub_symbol_with_name("first");
    let second = stub_symbol_with_name("second");
    let third = stub_symbol_with_name("third");
    let namespaces = construct_namespaces(
        SymbolResolution {
            symbols: vec![
                ResolvedSymbol {
                    symbol: first.clone(),
                    modules: vec!["b".to_string(), String::new()],
                },
                ResolvedSymbol {
                    symbol: second.clone(),
                    modules: vec!["a".to_string(), "b".to_string()],
                },
                ResolvedSymbol {
                    symbol: third.clone(),
                    modules: vec![String::new()],
                },
            ],
            doc_comments: vec![
                ("a".to_string(), "about a".to_string()),
                ("unused".to_string(), "about nothing".to_string()),
                ("a".to_string(), "ignored".to_string()),
            ],
        },
        "pkg",
    );

    let names: Vec<&str> = namespaces.iter().map(|n| n.name.as_str()).collect();
    assert_eq!(names, vec!["pkg::b", "pkg", "pkg::a"]);
    assert_eq!(namespaces[0].symbols, vec![first.clone(), second.clone()]);
    assert_eq!(namespaces[1].symbols, vec![first, third]);
    assert_eq!(namespaces[2].symbols, vec![second]);
    assert_eq!(namespaces[0].doc_comment, None);
    assert_eq!(namespaces[2].doc_comment, Some("about a".to_string()));
}

#[test]
fn module_without_symbols_has_no_namespace() {
    let namespaces = construct_namespaces(
        SymbolResolution {
            symbols: vec![ResolvedSymbol {
                symbol: stub_symbol_with_name("only"),
                modules: vec!["used".to_string()],
            }],
            doc_comments: vec![(String::new(), "root docs".to_string())],
        },
        "pkg",
    );

    assert_eq!(namespaces.len(), 1);
    assert_eq!(namespaces[0].name, "pkg::used");
    assert!(get_namespace("pkg", &namespaces).is_none());
    assert!(namespaces.iter().all(|n| !n.symbols.is_empty()));
}

#[test]
fn same_members_whatever_the_order_of_the_resolution() {
    let f = stub_symbol_with_name("f");
    let g = stub_symbol_with_name("g");
    let forward = construct_namespaces(
        SymbolResolution {
            symbols: vec![
                ResolvedSymbol { symbol: f.clone(), modules: vec!["a".to_string(), "b".to_string()] },
                ResolvedSymbol { symbol: g.clone(), modules: vec!["b".to_string()] },
            ],
            doc_comments: Vec::new(),
        },
        "pkg",
    );
    let backward = construct_namespaces(
        SymbolResolution {
            symbols: vec![
                ResolvedSymbol { symbol: g.clone(), modules: vec!["b".to_string()] },
                ResolvedSymbol { symbol: f.clone(), modules: vec!["b".to_string(), "a".to_string()] },
            ],
            doc_comments: Vec::new(),
        },
        "pkg",
    );

    assert_eq!(forward.len(), backward.len());
    for namespace in &forward {
        let other = get_namespace(&namespace.name, &backward).unwrap();
        assert_eq!(namespace.symbols.len(), other.symbols.len());
        for symbol in &namespace.symbols {
            assert!(other.symbols.contains(symbol));
        }
    }
}

#[test]
fn get_symbol_returns_the_first_of_that_name() {
    let namespace = Namespace {
        name: "pkg".to_string(),
        symbols: vec![
            Symbol { name: "a".to_string(), source_code: "pub fn a() {}".to_string() },
            Symbol { name: "b".to_string(), source_code: "pub struct b;".to_string() },
            Symbol { name: "b".to_string(), source_code: "pub fn b() {}".to_string() },
        ],
        doc_comment: None,
    };

    assert_eq!(namespace.get_symbol("b").unwrap().source_code, "pub struct b;");
    assert!(namespace.get_symbol("c").is_none());
    assert_eq!(namespace.clone(), namespace);
}

#[test]
fn symbols_of_the_same_name_are_all_kept() {
    let as_type = Symbol { name: "x".to_string(), source_code: "pub struct x;".to_string() };
    let as_function = Symbol { name: "x".to_string(), source_code: "pub fn x() {}".to_string() };
    let namespaces = construct_namespaces(
        SymbolResolution {
            symbols: vec![
                ResolvedSymbol { symbol: as_type.clone(), modules: vec!["m".to_string()] },
                ResolvedSymbol { symbol: as_function.clone(), modules: vec!["m".to_string()] },
                ResolvedSymbol { symbol: as_type.clone(), modules: vec!["m".to_string()] },
            ],
            doc_comments: Vec::new(),
        },
        "pkg",
    );

    assert_eq!(namespaces.len(), 1);
    assert_eq!(namespaces[0].symbols, vec![as_type.clone(), as_function, as_type]);
}

use laibrary::error::LaibraryError;
use laibrary::languages::rust::api::symbol_collection::{
    RawModule, RawModuleGraph, ReExport, Visibility,
};
use laibrary::languages::rust::api::symbol_resolution::{
    find_target, resolve_symbols, FoundTarget, ResolvedSymbol,
};
use laibrary::types::Symbol;

fn symbol(name: &str, source_code: &str) -> Symbol {
    Symbol {
        name: name.to_string(),
        source_code: source_code.to_string(),
    }
}

fn module(path: &str, symbols: Vec<Symbol>, doc: Option<&str>) -> RawModule {
    RawModule {
        path: path.to_string(),
        symbols,
        doc_comment: doc.map(|d| d.to_string()),
    }
}

fn edge(module: &str, source_module: &str, source_name: &str, exported_name: &str) -> ReExport {
    ReExport {
        module: module.to_string(),
        source_module: source_module.to_string(),
        source_name: source_name.to_string(),
        exported_name: exported_name.to_string(),
        visibility: Visibility::Public,
    }
}

fn resolved(symbol: Symbol, modules: &[&str]) -> ResolvedSymbol {
    ResolvedSymbol {
        symbol,
        modules: modules.iter().map(|m| m.to_string()).collect(),
    }
}

#[test]
fn declared_symbols_are_visible_in_their_own_module() {
    let graph = RawModuleGraph {
        modules: vec![
            module("", vec![symbol("root", "pub fn root() {}")], Some("Root docs")),
            module("a", vec![symbol("f", "pub fn f() {}"), symbol("S", "pub struct S;")], None),
            module("a::b", Vec::new(), Some("Deep docs")),
        ],
        reexports: Vec::new(),
    };

    let resolution = resolve_symbols(&graph).unwrap();

    assert_eq!(
        resolution.symbols,
        vec![
            resolved(symbol("root", "pub fn root() {}"), &[""]),
            resolved(symbol("f", "pub fn f() {}"), &["a"]),
            resolved(symbol("S", "pub struct S;"), &["a"]),
        ]
    );
    assert_eq!(
        resolution.doc_comments,
        vec![
            (String::new(), "Root docs".to_string()),
            ("a::b".to_string(), "Deep docs".to_string()),
        ]
    );
}

#[test]
fn reexport_adds_the_module_of_the_edge() {
    let graph = RawModuleGraph {
        modules: vec![
            module("a", vec![symbol("f", "pub fn f() {}")], None),
            module("b", Vec::new(), None),
            module("c", Vec::new(), None),
        ],
        reexports: vec![edge("b", "a", "f", "f"), edge("c", "a", "f", "f"), edge("b", "a", "f", "f")],
    };

    let resolution = resolve_symbols(&graph).unwrap();

    assert_eq!(
        resolution.symbols,
        vec![resolved(symbol("f", "pub fn f() {}"), &["a", "b", "c"])]
    );
}

#[test]
fn renaming_reexport_adds_a_symbol_of_its_own() {
    let graph = RawModuleGraph {
        modules: vec![
            module("a", vec![symbol("f", "pub fn f() {}")], None),
            module("b", Vec::new(), None),
        ],
        reexports: vec![edge("b", "a", "f", "g")],
    };

    let resolution = resolve_symbols(&graph).unwrap();

    assert_eq!(
        resolution.symbols,
        vec![
            resolved(symbol("f", "pub fn f() {}"), &["a"]),
            resolved(symbol("g", "pub fn f() {}"), &["b"]),
        ]
    );
}

#[test]
fn chain_of_reexports_is_followed_to_the_declaration() {
    let graph = RawModuleGraph {
        modules: vec![
            module("a", vec![symbol("f", "pub fn f() {}")], None),
            module("b", Vec::new(), None),
            module("c", Vec::new(), None),
            module("d", Vec::new(), None),
        ],
        reexports: vec![
            edge("d", "c", "f", "f"),
            edge("c", "b", "g", "f"),
            edge("b", "a", "f", "g"),
        ],
    };

    let resolution = resolve_symbols(&graph).unwrap();

    assert_eq!(
        resolution.symbols,
        vec![
            resolved(symbol("f", "pub fn f() {}"), &["a", "d", "c"]),
            resolved(symbol("g", "pub fn f() {}"), &["b"]),
        ]
    );
    assert_eq!(
        find_target(&graph, &graph.reexports[0]),
        FoundTarget::Found { module: 0, name: "f".to_string() }
    );
}

#[test]
fn every_item_of_that_name_is_reexported() {
    let graph = RawModuleGraph {
        modules: vec![
            module(
                "a",
                vec![
                    symbol("x", "pub struct x;"),
                    symbol("y", "pub fn y() {}"),
                    symbol("x", "pub fn x() {}"),
                ],
                None,
            ),
            module("", Vec::new(), None),
        ],
        reexports: vec![edge("", "a", "x", "x"), edge("", "a", "x", "z")],
    };

    let resolution = resolve_symbols(&graph).unwrap();

    assert_eq!(
        resolution.symbols,
        vec![
            resolved(symbol("x", "pub struct x;"), &["a", ""]),
            resolved(symbol("y", "pub fn y() {}"), &["a"]),
            resolved(symbol("x", "pub fn x() {}"), &["a", ""]),
            resolved(symbol("z", "pub struct x;"), &[""]),
            resolved(symbol("z", "pub fn x() {}"), &[""]),
        ]
    );
}

#[test]
fn cycle_without_declaration_is_reported() {
    let graph = RawModuleGraph {
        modules: vec![
            module("a", vec![symbol("f", "pub fn f() {}")], None),
            module("b", Vec::new(), None),
            module("c", Vec::new(), None),
        ],
        reexports: vec![
            edge("b", "a", "f", "f"),
            edge("b", "c", "x", "x"),
            edge("c", "b", "x", "x"),
        ],
    };

    let result = resolve_symbols(&graph);

    assert_eq!(result, Err(LaibraryError::ReExportCycle("b::x".to_string())));
    assert_eq!(find_target(&graph, &graph.reexports[1]), FoundTarget::Unending);
    assert_eq!(find_target(&graph, &graph.reexports[2]), FoundTarget::Unending);
}

#[test]
fn reexport_of_itself_is_a_cycle() {
    let graph = RawModuleGraph {
        modules: vec![module("", Vec::new(), None)],
        reexports: vec![edge("", "", "x", "x")],
    };

    assert_eq!(
        resolve_symbols(&graph),
        Err(LaibraryError::ReExportCycle("::x".to_string()))
    );
}

#[test]
fn longest_chain_without_cycle_still_resolves() {
    let graph = RawModuleGraph {
        modules: vec![
            module("m0", vec![symbol("f", "pub fn f() {}")], None),
            module("m1", Vec::new(), None),
            module("m2", Vec::new(), None),
            module("m3", Vec::new(), None),
        ],
        reexports: vec![
            edge("m3", "m2", "f", "f"),
            edge("m2", "m1", "f", "f"),
            edge("m1", "m0", "f", "f"),
        ],
    };

    let resolution = resolve_symbols(&graph).unwrap();

    assert_eq!(
        resolution.symbols,
        vec![resolved(symbol("f", "pub fn f() {}"), &["m0", "m3", "m2", "m1"])]
    );
}

#[test]
fn reexport_from_outside_the_library_is_dropped() {
    let graph = RawModuleGraph {
        modules: vec![module("", vec![symbol("f", "pub fn f() {}")], None)],
        reexports: vec![
            edge("", "std::fmt", "Debug", "Debug"),
            edge("", "", "missing", "missing2"),
            edge("nowhere", "", "f", "f"),
            edge("nowhere", "", "f", "g"),
        ],
    };

    let resolution = resolve_symbols(&graph).unwrap();

    assert_eq!(resolution.symbols, vec![resolved(symbol("f", "pub fn f() {}"), &[""])]);
    assert_eq!(find_target(&graph, &graph.reexports[0]), FoundTarget::Missing);
    assert_eq!(find_target(&graph, &graph.reexports[1]), FoundTarget::Missing);
}

#[test]
fn restricted_reexport_publishes_nothing_but_can_be_passed_through() {
    let mut inside = edge("b", "a", "f", "f");
    inside.visibility = Visibility::Restricted;
    let graph = RawModuleGraph {
        modules: vec![
            module("a", vec![symbol("f", "pub fn f() {}")], None),
            module("b", Vec::new(), None),
            module("c", Vec::new(), None),
        ],
        reexports: vec![inside, edge("c", "b", "f", "f")],
    };

    let resolution = resolve_symbols(&graph).unwrap();

    assert_eq!(
        resolution.symbols,
        vec![resolved(symbol("f", "pub fn f() {}"), &["a", "c"])]
    );
}

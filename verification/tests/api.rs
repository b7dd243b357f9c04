use laibrary::error::LaibraryError;
use laibrary::languages::rust::api::build_public_api;
use laibrary::types::{Namespace, SourceFile};

const STUB_CRATE_NAME: &str = "test_crate";

fn file(path: &str, content: &str) -> SourceFile {
    SourceFile {
        path: path.to_string(),
        content: content.to_string(),
    }
}

fn namespace<'a>(namespaces: &'a [Namespace], name: &str) -> &'a Namespace {
    namespaces.iter().find(|n| n.name == name).unwrap()
}

#[test]
fn test_nonexistent_file() {
    let result = build_public_api(&Vec::new(), "nonexistent.rs", STUB_CRATE_NAME);

    assert!(matches!(result, Err(LaibraryError::Parse(_))));
}

#[test]
fn test_integration() {
    let sources = vec![
        file(
            "src/lib.rs",
            r#"
pub mod module;
pub use module::Format;

pub fn process(format: Format) -> String {
    "processed".to_string()
}
"#,
        ),
        file(
            "src/module.rs",
            r#"
pub enum Format {
    Text,
    Binary,
}
"#,
        ),
    ];

    let namespaces = build_public_api(&sources, "src/lib.rs", STUB_CRATE_NAME).unwrap();

    assert_eq!(namespaces.len(), 2);
    let root = namespaces
        .iter()
        .find(|n| n.name == STUB_CRATE_NAME)
        .unwrap();
    assert_eq!(root.symbols.len(), 2);
    assert!(root.symbols.iter().any(|s| s.name == "process"));
    assert!(root.symbols.iter().any(|s| s.name == "Format"));

    let module = namespaces
        .iter()
        .find(|n| n.name == format!("{}::module", STUB_CRATE_NAME))
        .unwrap();
    assert_eq!(module.symbols.len(), 1);
    assert!(module.symbols.iter().any(|s| s.name == "Format"));

    let total: usize = namespaces.iter().map(|n| n.symbols.len()).sum();
    assert_eq!(total, 3);
    let in_root = root.get_symbol("Format").unwrap();
    let in_module = module.get_symbol("Format").unwrap();
    assert_eq!(in_root.source_code, in_module.source_code);
    assert_eq!(in_root.source_code, "pub enum Format {\n    Text,\n    Binary,\n}");
}

#[test]
fn reexport_shows_the_symbol_in_both_namespaces() {
    let sources = vec![
        file("lib/src/lib.rs", "pub mod a;\npub mod b;\n"),
        file("lib/src/a.rs", "pub fn f() {}\n"),
        file("lib/src/b/mod.rs", "pub use crate::a::f;\n"),
    ];

    let namespaces = build_public_api(&sources, "lib/src/lib.rs", "pkg").unwrap();

    assert_eq!(namespaces.len(), 2);
    let a = namespace(&namespaces, "pkg::a");
    let b = namespace(&namespaces, "pkg::b");
    assert_eq!(a.symbols.len(), 1);
    assert_eq!(a.symbols, b.symbols);
    assert_eq!(a.symbols[0].name, "f");
    assert_eq!(a.symbols[0].source_code, "pub fn f() {}");
}

#[test]
fn renamed_reexport_shows_the_new_name_with_the_old_source() {
    let sources = vec![
        file("src/lib.rs", "pub mod a;\npub mod b;\n"),
        file("src/a.rs", "pub fn f() {}\n"),
        file("src/b.rs", "pub use super::a::f as g;\n"),
    ];

    let namespaces = build_public_api(&sources, "src/lib.rs", "pkg").unwrap();

    let a = namespace(&namespaces, "pkg::a");
    let b = namespace(&namespaces, "pkg::b");
    assert_eq!(a.symbols.len(), 1);
    assert_eq!(a.symbols[0].name, "f");
    assert_eq!(b.symbols.len(), 1);
    assert_eq!(b.symbols[0].name, "g");
    assert_eq!(b.symbols[0].source_code, "pub fn f() {}");
    assert!(b.get_symbol("f").is_none());
}

#[test]
fn reexport_cycle_is_a_failure() {
    let sources = vec![
        file("src/lib.rs", "pub mod a;\npub mod b;\n"),
        file("src/a.rs", "pub use crate::b::x;\n"),
        file("src/b.rs", "pub use crate::a::x;\n"),
    ];

    let result = build_public_api(&sources, "src/lib.rs", "pkg");

    assert_eq!(result, Err(LaibraryError::ReExportCycle("a::x".to_string())));
}

#[test]
fn module_with_only_private_items_has_no_namespace() {
    let sources = vec![
        file("src/lib.rs", "pub mod hidden;\npub mod shown;\n"),
        file("src/hidden.rs", "fn secret() {}\nstruct Private;\npub(crate) fn inside() {}\n"),
        file("src/shown.rs", "pub struct Shown;\n"),
    ];

    let namespaces = build_public_api(&sources, "src/lib.rs", "pkg").unwrap();

    let names: Vec<&str> = namespaces.iter().map(|n| n.name.as_str()).collect();
    assert_eq!(names, vec!["pkg::shown"]);
}

#[test]
fn order_of_the_files_does_not_matter() {
    let lib = file("src/lib.rs", "pub mod a;\npub mod b;\npub use a::f;\npub fn root() {}\n");
    let a = file("src/a.rs", "pub fn f() {}\npub mod deep;\n");
    let deep = file("src/a/deep.rs", "pub struct Deep;\npub use crate::b::B as Other;\n");
    let b = file("src/b.rs", "pub struct B;\n");
    let forward = vec![
        file(&lib.path, &lib.content),
        file(&a.path, &a.content),
        file(&deep.path, &deep.content),
        file(&b.path, &b.content),
    ];
    let backward = vec![b, deep, a, lib];

    let first = build_public_api(&forward, "src/lib.rs", "pkg").unwrap();
    let second = build_public_api(&backward, "src/lib.rs", "pkg").unwrap();
    let again = build_public_api(&forward, "src/lib.rs", "pkg").unwrap();

    assert_eq!(first, second);
    assert_eq!(first, again);
    let names: Vec<&str> = first.iter().map(|n| n.name.as_str()).collect();
    assert_eq!(names, vec!["pkg", "pkg::a", "pkg::a::deep", "pkg::b"]);
    let deep = namespace(&first, "pkg::a::deep");
    assert_eq!(deep.symbols.len(), 2);
    assert_eq!(deep.get_symbol("Other").unwrap().source_code, "pub struct B;");
}

#[test]
fn missing_module_file_is_a_parse_failure() {
    let sources = vec![file("src/lib.rs", "pub mod gone;\n")];

    let result = build_public_api(&sources, "src/lib.rs", "pkg");

    assert_eq!(result, Err(LaibraryError::Parse("src/gone.rs".to_string())));
}

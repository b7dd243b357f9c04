use laibrary::error::LaibraryError;
use laibrary::languages::rust::api::parse_sources;
use laibrary::languages::rust::api::symbol_collection::{
    collect_symbols, directory_of, RawModuleGraph, ReExport, Visibility,
};
use laibrary::languages::rust::api::syntax::parse_source;
use laibrary::text::slice_text;
use laibrary::types::SourceFile;

fn file(path: &str, content: &str) -> SourceFile {
    SourceFile {
        path: path.to_string(),
        content: content.to_string(),
    }
}

fn collect(files: Vec<SourceFile>, entry_point: &str) -> Result<RawModuleGraph, LaibraryError> {
    collect_symbols(&parse_sources(&files), entry_point)
}

fn edge(
    module: &str,
    source_module: &str,
    source_name: &str,
    exported_name: &str,
    visibility: Visibility,
) -> ReExport {
    ReExport {
        module: module.to_string(),
        source_module: source_module.to_string(),
        source_name: source_name.to_string(),
        exported_name: exported_name.to_string(),
        visibility,
    }
}

#[test]
fn parser_gives_the_tree_of_the_text() {
    let source = "pub fn f() {}\n";
    let tree = parse_source(source).unwrap();

    assert_eq!(tree.kind, "source_file");
    assert_eq!(tree.field, None);
    assert_eq!((tree.start_byte, tree.end_byte), (0, source.len()));
    assert_eq!(tree.children.len(), 1);
    let item = &tree.children[0];
    assert_eq!(item.kind, "function_item");
    assert_eq!((item.start_byte, item.end_byte), (0, 13));
    let name = item.children.iter().find(|c| c.field.as_deref() == Some("name")).unwrap();
    assert_eq!(name.kind, "identifier");
    assert_eq!(slice_text(source, name.start_byte, name.end_byte), "f");
}

#[test]
fn tree_follows_the_nesting_of_the_text() {
    let source = "pub mod a { pub fn f() {} }\nfn g() {}";
    let tree = parse_source(source).unwrap();

    let kinds: Vec<&str> = tree.children.iter().map(|c| c.kind.as_str()).collect();
    assert_eq!(kinds, vec!["mod_item", "function_item"]);
    let module = &tree.children[0];
    let parts: Vec<(&str, Option<&str>)> = module
        .children
        .iter()
        .map(|c| (c.kind.as_str(), c.field.as_deref()))
        .collect();
    assert_eq!(
        parts,
        vec![
            ("visibility_modifier", None),
            ("mod", None),
            ("identifier", Some("name")),
            ("declaration_list", Some("body")),
        ]
    );
    assert_eq!(module.children[0].children.len(), 1);
    assert_eq!(module.children[0].children[0].kind, "pub");
    assert!(module.children[0].children[0].children.is_empty());
    let body = &module.children[3];
    let inside: Vec<&str> = body.children.iter().map(|c| c.kind.as_str()).collect();
    assert_eq!(inside, vec!["{", "function_item", "}"]);
    assert_eq!(slice_text(source, body.children[1].start_byte, body.children[1].end_byte), "pub fn f() {}");
    let last = &tree.children[1];
    assert_eq!(slice_text(source, last.start_byte, last.end_byte), "fn g() {}");
    assert_eq!(last.children.iter().filter(|c| c.kind == "visibility_modifier").count(), 0);
}

#[test]
fn empty_text_has_a_tree_without_children() {
    let tree = parse_source("").unwrap();

    assert_eq!(tree.kind, "source_file");
    assert_eq!((tree.start_byte, tree.end_byte), (0, 0));
    assert!(tree.children.is_empty());
}

#[test]
fn public_items_are_collected_with_docs_and_attributes() {
    let graph = collect(
        vec![file(
            "src/lib.rs",
            "//! Crate docs.\n//! More.\n\nuse std::fmt;\n\n/// Doc of f.\n/// Second line.\n#[inline]\npub fn f() {}\n\n// plain comment\npub(crate) struct Hidden;\nfn private() {}\n\n#[derive(Debug)]\npub struct S {\n    pub field: u32,\n}\npub const X: u32 = 1;\npub static Y: u32 = 2;\npub type T = u32;\npub trait Tr {}\npub enum E { A }\npub union U { a: u32 }\nimpl S {\n    pub fn method(&self) {}\n}\n",
        )],
        "src/lib.rs",
    )
    .unwrap();

    assert_eq!(graph.modules.len(), 1);
    let root = &graph.modules[0];
    assert_eq!(root.path, "");
    assert_eq!(root.doc_comment, Some("Crate docs.\n More.".to_string()));
    let names: Vec<&str> = root.symbols.iter().map(|s| s.name.as_str()).collect();
    assert_eq!(names, vec!["f", "S", "X", "Y", "T", "Tr", "E", "U"]);
    assert_eq!(
        root.symbols[0].source_code,
        "/// Doc of f.\n/// Second line.\n#[inline]\npub fn f() {}"
    );
    assert_eq!(
        root.symbols[1].source_code,
        "#[derive(Debug)]\npub struct S {\n    pub field: u32,\n}"
    );
    assert_eq!(root.symbols[2].source_code, "pub const X: u32 = 1;");
    assert!(graph.reexports.is_empty());
}

#[test]
fn modules_are_found_inline_and_in_files() {
    let graph = collect(
        vec![
            file(
                "pkg/src/lib.rs",
                "/// Declared docs.\npub mod inline {\n    //! Body docs.\n    pub fn inside() {}\n    pub mod nested;\n}\nmod private;\n/// About flat.\npub mod flat;\npub mod dir;\n",
            ),
            file("pkg/src/inline/nested.rs", "//! Nested docs.\npub struct Nested;\n"),
            file("pkg/src/private.rs", "pub struct Reachable;\n"),
            file("pkg/src/flat.rs", "//! Ignored here.\npub struct Flat;\n"),
            file("pkg/src/dir/mod.rs", "pub mod below;\n"),
            file("pkg/src/dir/below.rs", "pub struct Below;\n"),
            file("pkg/src/unused.rs", "pub struct Unused;\n"),
        ],
        "pkg/src/lib.rs",
    )
    .unwrap();

    let paths: Vec<&str> = graph.modules.iter().map(|m| m.path.as_str()).collect();
    assert_eq!(
        paths,
        vec!["", "inline", "inline::nested", "private", "flat", "dir", "dir::below"]
    );
    let docs: Vec<Option<&str>> = graph.modules.iter().map(|m| m.doc_comment.as_deref()).collect();
    assert_eq!(
        docs,
        vec![
            None,
            Some("Declared docs."),
            Some("Nested docs."),
            None,
            Some("About flat."),
            None,
            None
        ]
    );
    let counts: Vec<usize> = graph.modules.iter().map(|m| m.symbols.len()).collect();
    assert_eq!(counts, vec![0, 1, 1, 1, 1, 0, 1]);
    assert_eq!(graph.modules[1].symbols[0].source_code, "pub fn inside() {}");
}

#[test]
fn inner_docs_document_a_module_without_docs_at_its_declaration() {
    let graph = collect(
        vec![
            file("src/lib.rs", "pub mod a {\n    //! Body docs.\n    pub fn f() {}\n}\npub mod b;\n"),
            file("src/b.rs", "//! File docs.\n\npub fn g() {}\n"),
        ],
        "src/lib.rs",
    )
    .unwrap();

    assert_eq!(graph.modules[1].doc_comment, Some("Body docs.".to_string()));
    assert_eq!(graph.modules[2].doc_comment, Some("File docs.".to_string()));
}

#[test]
fn use_declarations_become_edges() {
    let graph = collect(
        vec![file(
            "src/lib.rs",
            "pub mod a {\n    pub mod b {\n        pub use super::f as g;\n        pub use super::super::top;\n        pub use self::own;\n        pub(crate) use crate::a::f;\n        use crate::a::private_import;\n        pub use crate::{a::x, c::{self, d as e}, w::*};\n        pub use sibling::Thing;\n        pub use std::fmt::Debug;\n    }\n}\npub use a::b::g;\n",
        )],
        "src/lib.rs",
    )
    .unwrap();

    let (public, restricted) = (Visibility::Public, Visibility::Restricted);
    assert_eq!(
        graph.reexports,
        vec![
            edge("", "a::b", "g", "g", public),
            edge("a::b", "a", "f", "g", public),
            edge("a::b", "", "top", "top", public),
            edge("a::b", "a::b", "own", "own", public),
            edge("a::b", "a", "f", "f", restricted),
            edge("a::b", "a", "x", "x", public),
            edge("a::b", "c", "self", "self", public),
            edge("a::b", "c", "d", "e", public),
            edge("a::b", "a::b::sibling", "Thing", "Thing", public),
            edge("a::b", "a::b::std::fmt", "Debug", "Debug", public),
        ]
    );
}

#[test]
fn path_above_the_root_makes_no_edge() {
    let graph = collect(
        vec![file("src/lib.rs", "pub use super::f;\npub use crate;\npub mod a { pub use super::super::g; }\n")],
        "src/lib.rs",
    )
    .unwrap();

    assert!(graph.reexports.is_empty());
}

#[test]
fn missing_files_are_parse_failures() {
    assert_eq!(
        collect(Vec::new(), "src/lib.rs"),
        Err(LaibraryError::Parse("src/lib.rs".to_string()))
    );
    assert_eq!(
        collect(
            vec![file("src/lib.rs", "pub mod a;\n"), file("src/a.rs", "pub mod b;\n")],
            "src/lib.rs"
        ),
        Err(LaibraryError::Parse("src/a/b.rs".to_string()))
    );
}

#[test]
fn modules_nested_in_files_are_all_found() {
    let result = collect(
        vec![
            file("lib.rs", "pub mod a;\n"),
            file("a.rs", "pub mod b;\n"),
            file("a/b.rs", "pub mod c;\n"),
            file("a/b/c.rs", "pub struct C;\n"),
        ],
        "lib.rs",
    );
    let graph = result.unwrap();
    let paths: Vec<&str> = graph.modules.iter().map(|m| m.path.as_str()).collect();
    assert_eq!(paths, vec!["", "a", "a::b", "a::b::c"]);
}

#[test]
fn file_that_holds_its_own_submodule_is_read_once_each_way() {
    let result = collect(vec![file("src/a.rs", "pub mod a;\npub fn f() {}\n")], "src/a.rs");
    assert_eq!(result, Err(LaibraryError::Parse("src/a/a.rs".to_string())));
}

#[test]
fn directory_is_the_path_up_to_the_last_slash() {
    assert_eq!(directory_of("src/lib.rs"), "src/");
    assert_eq!(directory_of("/a/b/c/lib.rs"), "/a/b/c/");
    assert_eq!(directory_of("lib.rs"), "");
    assert_eq!(directory_of("dir/"), "dir/");
    assert_eq!(directory_of(""), "");
    assert_eq!(directory_of("répertoire/lib.rs"), "répertoire/");
}

#[test]
fn text_between_bytes_is_whole_characters_only() {
    let source = "aé😀z";
    assert_eq!(slice_text(source, 0, 1), "a");
    assert_eq!(slice_text(source, 1, 3), "é");
    assert_eq!(slice_text(source, 1, 7), "é😀");
    assert_eq!(slice_text(source, 0, 8), source);
    assert_eq!(slice_text(source, 8, 8), "");
    assert_eq!(slice_text(source, 2, 3), "");
    assert_eq!(slice_text(source, 1, 4), "");
    assert_eq!(slice_text(source, 3, 2), "");
    assert_eq!(slice_text(source, 0, 9), "");
}

#[test]
fn non_ascii_source_is_sliced_on_character_boundaries() {
    let graph = collect(
        vec![file("src/lib.rs", "/// Größe in µm.\npub const GRÖSSE: u32 = 1; // ✓\npub fn après() {}\n")],
        "src/lib.rs",
    )
    .unwrap();

    let root = &graph.modules[0];
    assert_eq!(root.symbols.len(), 2);
    assert_eq!(root.symbols[0].name, "GRÖSSE");
    assert_eq!(
        root.symbols[0].source_code,
        "/// Größe in µm.\npub const GRÖSSE: u32 = 1;"
    );
    assert_eq!(root.symbols[1].name, "après");
    assert_eq!(root.symbols[1].source_code, "pub fn après() {}");
}

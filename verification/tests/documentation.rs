use laibrary::analysers::Analyser;
use laibrary::error::LaibraryError;
use laibrary::generate_documentation;
use laibrary::languages::get_analyser;
use laibrary::languages::rust::RustAnalyser;
use laibrary::types::{Namespace, PackageMetadata, SourceFile, Symbol};

fn metadata() -> PackageMetadata {
    PackageMetadata {
        name: "pkg".to_string(),
        version: "0.3.0".to_string(),
        documentation: "\nA package.\n".to_string(),
    }
}

fn file(path: &str, content: &str) -> SourceFile {
    SourceFile {
        path: path.to_string(),
        content: content.to_string(),
    }
}

#[test]
fn test_unsupported_language() {
    let result = generate_documentation("unsupported", &metadata(), &Vec::new());
    assert!(matches!(result, Err(LaibraryError::UnsupportedLanguage(_))));
}

#[test]
fn unsupported_language_is_named_before_files_are_looked_at() {
    let sources = vec![file("src/lib.rs", "pub mod gone;\n")];
    let result = generate_documentation("Rust", &metadata(), &sources);
    assert_eq!(result, Err(LaibraryError::UnsupportedLanguage("Rust".to_string())));
    assert!(get_analyser("rust").is_ok());
    assert_eq!(
        get_analyser("go"),
        Err(LaibraryError::UnsupportedLanguage("go".to_string()))
    );
}

#[test]
fn library_without_entry_point_is_a_parse_failure() {
    let sources = vec![file("src/main.rs", "fn main() {}\n"), file("lib.rs", "pub fn f() {}\n")];
    let result = generate_documentation("rust", &metadata(), &sources);
    assert_eq!(result, Err(LaibraryError::Parse("src/lib.rs".to_string())));
}

#[test]
fn whole_document_for_a_small_library() {
    let sources = vec![
        file("/work/pkg/src/module.rs", "\npub enum Format {\n    Text,\n    Binary,\n}\n"),
        file(
            "/work/pkg/src/lib.rs",
            "\npub mod module;\npub use module::Format;\n\npub fn process(format: Format) -> String {\n    \"processed\".to_string()\n}\n",
        ),
    ];

    let document = generate_documentation("rust", &metadata(), &sources).unwrap();

    assert_eq!(
        document,
        "<library name=\"pkg\" version=\"0.3.0\">\n    <documentation>\nA package.\n    </documentation>\n    <api>\n        <namespace name=\"pkg\">\npub fn process(format: Format) -> String {\n    \"processed\".to_string()\n}\n\npub enum Format {\n    Text,\n    Binary,\n}\n        </namespace>\n        <namespace name=\"pkg::module\">\npub enum Format {\n    Text,\n    Binary,\n}\n        </namespace>\n    </api>\n</library>"
    );
}

#[test]
fn library_without_public_items_has_an_empty_api() {
    let sources = vec![file("src/lib.rs", "fn private() {}\n")];

    let document = generate_documentation("rust", &metadata(), &sources).unwrap();

    assert_eq!(
        document,
        "<library name=\"pkg\" version=\"0.3.0\">\n    <documentation>\nA package.\n    </documentation>\n    <api>\n    </api>\n</library>"
    );
    assert!(!document.contains("<namespace"));
}

#[test]
fn rust_analyser_reads_rs_files_and_joins_symbols() {
    let analyser = RustAnalyser;
    assert_eq!(analyser.get_file_extensions(), vec!["rs".to_string()]);
    let namespace = Namespace {
        name: "pkg".to_string(),
        symbols: vec![
            Symbol { name: "a".to_string(), source_code: "pub fn a() {}".to_string() },
            Symbol { name: "b".to_string(), source_code: "pub fn b() {}".to_string() },
        ],
        doc_comment: None,
    };
    assert_eq!(
        analyser.format_namespace(&namespace),
        Ok("pub fn a() {}\n\npub fn b() {}".to_string())
    );
    let sources = vec![file("x/src/lib.rs", "pub fn f() {}\n")];
    let namespaces = analyser.extract_public_api(&sources, "x").unwrap();
    assert_eq!(namespaces.len(), 1);
    assert_eq!(namespaces[0].name, "x");
    assert_eq!(
        analyser.extract_public_api(&Vec::new(), "x"),
        Err(LaibraryError::Parse("src/lib.rs".to_string()))
    );
}

use laibrary::analysers::Analyser;
use laibrary::error::LaibraryError;
use laibrary::formatting::{format_library_context, render_library};
use laibrary::languages::rust::formatting::format_module;
use laibrary::types::{Namespace, PackageMetadata, SourceFile, Symbol};

struct TestAnalyser;

impl Analyser for TestAnalyser {
    fn get_file_extensions(&self) -> Vec<String> {
        vec!["rs".to_string()]
    }

    fn extract_public_api(
        &self,
        _sources: &Vec<SourceFile>,
        _crate_name: &str,
    ) -> Result<Vec<Namespace>, LaibraryError> {
        unreachable!()
    }

    fn format_namespace(&self, namespace: &Namespace) -> Result<String, LaibraryError> {
        let mut namespace_doc = String::new();
        for symbol in &namespace.symbols {
            if !namespace_doc.is_empty() {
                namespace_doc.push_str("\n");
            }
            namespace_doc.push_str(&symbol.source_code);
        }
        Ok(namespace_doc)
    }
}

struct FailingAnalyser;

impl Analyser for FailingAnalyser {
    fn get_file_extensions(&self) -> Vec<String> {
        Vec::new()
    }

    fn extract_public_api(
        &self,
        _sources: &Vec<SourceFile>,
        _crate_name: &str,
    ) -> Result<Vec<Namespace>, LaibraryError> {
        unreachable!()
    }

    fn format_namespace(&self, namespace: &Namespace) -> Result<String, LaibraryError> {
        if namespace.symbols.is_empty() {
            Err(LaibraryError::Formatting(namespace.name.clone()))
        } else {
            Ok(String::new())
        }
    }
}

fn symbol(name: &str, source_code: &str) -> Symbol {
    Symbol {
        name: name.to_string(),
        source_code: source_code.to_string(),
    }
}

#[test]
fn test_format_module() {
    let module = Namespace {
        name: "test".to_string(),
        symbols: vec![
            Symbol {
                name: "test".to_string(),
                source_code: "pub fn test() -> () {}".to_string(),
            },
            Symbol {
                name: "TestEnum".to_string(),
                source_code: "pub enum TestEnum { A, B }".to_string(),
            },
        ],
        doc_comment: None,
    };

    let formatted = format_module(&module);
    assert_eq!(
        formatted, "pub fn test() -> () {}\n\npub enum TestEnum { A, B }",
        "Module should format all symbols with double newlines between them"
    );
}

#[test]
fn format_module_of_no_or_one_symbol_has_no_separator() {
    let empty = Namespace {
        name: "empty".to_string(),
        symbols: Vec::new(),
        doc_comment: None,
    };
    assert_eq!(format_module(&empty), "");

    let single = Namespace {
        name: "single".to_string(),
        symbols: vec![symbol("a", "pub fn a() {}")],
        doc_comment: Some("docs".to_string()),
    };
    assert_eq!(format_module(&single), "pub fn a() {}");
}

#[test]
fn test_format_library_context() {
    let metadata = PackageMetadata {
        name: "test-lib".to_string(),
        version: "0.1.0".to_string(),
        documentation: "A test library.".to_string(),
    };

    let test_namespace = Namespace {
        name: "test".to_string(),
        symbols: vec![
            symbol("test", "pub fn test() -> () {}"),
            symbol("Test", "pub struct Test { field: String }"),
            symbol("TestEnum", "pub enum TestEnum { A, B }"),
        ],
        doc_comment: None,
    };
    let empty_namespace = Namespace {
        name: "empty".to_string(),
        symbols: Vec::new(),
        doc_comment: None,
    };

    let namespaces = vec![test_namespace, empty_namespace];
    let analyser = TestAnalyser;
    let documentation = format_library_context(&metadata, &namespaces, &analyser).unwrap();

    assert!(
        documentation.contains(r#"<library name="test-lib" version="0.1.0">"#),
        "Library tag not found"
    );
    assert!(
        documentation.contains("<documentation>"),
        "Documentation tag not found"
    );
    assert!(
        documentation.contains("A test library."),
        "Library documentation not found"
    );
    assert!(
        documentation.contains(r#"<namespace name="test">"#),
        "namespace tag not found"
    );
    assert!(
        documentation.contains("pub fn test() -> () {}"),
        "Function not found"
    );
    assert!(
        documentation.contains("pub struct Test { field: String }"),
        "Struct not found"
    );
    assert!(
        documentation.contains("pub enum TestEnum { A, B }"),
        "Enum not found"
    );
    assert!(
        documentation.contains("</namespace>"),
        "namespace closing tag not found"
    );
    assert!(
        documentation.contains("</library>"),
        "Library closing tag not found"
    );
}

#[test]
fn test_format_library_context_empty() {
    let metadata = PackageMetadata {
        name: "empty-lib".to_string(),
        version: "0.1.0".to_string(),
        documentation: "An empty library.".to_string(),
    };

    let analyser = TestAnalyser;
    let documentation = format_library_context(&metadata, &[], &analyser).unwrap();

    assert!(
        documentation.contains(r#"<library name="empty-lib" version="0.1.0">"#),
        "Library tag not found"
    );
    assert!(
        documentation.contains("<documentation>"),
        "Documentation tag not found"
    );
    assert!(
        documentation.contains("An empty library."),
        "Library documentation not found"
    );
    assert!(
        !documentation.contains("<namespace"),
        "Unexpected namespace tag found"
    );
}

#[test]
fn empty_library_is_head_and_tail() {
    let metadata = PackageMetadata {
        name: "empty-lib".to_string(),
        version: "0.1.0".to_string(),
        documentation: "An empty library.".to_string(),
    };

    let documentation = format_library_context(&metadata, &[], &FailingAnalyser).unwrap();

    assert_eq!(
        documentation,
        "<library name=\"empty-lib\" version=\"0.1.0\">\n    <documentation>\nAn empty library.\n    </documentation>\n    <api>\n    </api>\n</library>"
    );
}

#[test]
fn library_document_is_exact() {
    let metadata = PackageMetadata {
        name: "lib".to_string(),
        version: "1.2.3".to_string(),
        documentation: "\n\t  Docs with <tags> & \"quotes\".  \u{3000}\n".to_string(),
    };
    let namespaces = vec![
        Namespace {
            name: "lib".to_string(),
            symbols: vec![symbol("a", "pub fn a() {}"), symbol("b", "pub fn b() {}")],
            doc_comment: None,
        },
        Namespace {
            name: "lib::inner".to_string(),
            symbols: vec![symbol("c", "pub struct C;")],
            doc_comment: Some("inner docs".to_string()),
        },
    ];

    let documentation = format_library_context(&metadata, &namespaces, &TestAnalyser).unwrap();

    assert_eq!(
        documentation,
        "<library name=\"lib\" version=\"1.2.3\">\n    <documentation>\nDocs with <tags> & \"quotes\".\n    </documentation>\n    <api>\n        <namespace name=\"lib\">\npub fn a() {}\npub fn b() {}\n        </namespace>\n        <namespace name=\"lib::inner\">\npub struct C;\n        </namespace>\n    </api>\n</library>"
    );
}

#[test]
fn render_library_places_each_body_in_its_namespace() {
    let metadata = PackageMetadata {
        name: "lib".to_string(),
        version: "0.0.1".to_string(),
        documentation: " \n ".to_string(),
    };
    let namespaces = vec![
        Namespace { name: "one".to_string(), symbols: Vec::new(), doc_comment: None },
        Namespace { name: "two".to_string(), symbols: Vec::new(), doc_comment: None },
    ];
    let bodies = vec!["first body".to_string(), String::new()];

    let documentation = render_library(&metadata, &namespaces, &bodies);

    assert_eq!(
        documentation,
        "<library name=\"lib\" version=\"0.0.1\">\n    <documentation>\n\n    </documentation>\n    <api>\n        <namespace name=\"one\">\nfirst body\n        </namespace>\n        <namespace name=\"two\">\n\n        </namespace>\n    </api>\n</library>"
    );
}

#[test]
fn render_library_leaves_out_namespaces_without_a_body() {
    let metadata = PackageMetadata {
        name: "lib".to_string(),
        version: "0.0.1".to_string(),
        documentation: "d".to_string(),
    };
    let namespaces = vec![
        Namespace { name: "one".to_string(), symbols: Vec::new(), doc_comment: None },
        Namespace { name: "two".to_string(), symbols: Vec::new(), doc_comment: None },
    ];

    let short = render_library(&metadata, &namespaces, &vec!["body".to_string()]);
    let long = render_library(
        &metadata,
        &namespaces[..1],
        &vec!["body".to_string(), "spare".to_string()],
    );

    let expected = "<library name=\"lib\" version=\"0.0.1\">\n    <documentation>\nd\n    </documentation>\n    <api>\n        <namespace name=\"one\">\nbody\n        </namespace>\n    </api>\n</library>";
    assert_eq!(short, expected);
    assert_eq!(long, expected);
}

#[test]
fn first_formatting_failure_ends_the_rendering() {
    let metadata = PackageMetadata {
        name: "lib".to_string(),
        version: "0.0.1".to_string(),
        documentation: String::new(),
    };
    let namespaces = vec![
        Namespace {
            name: "fine".to_string(),
            symbols: vec![symbol("a", "pub fn a() {}")],
            doc_comment: None,
        },
        Namespace { name: "broken".to_string(), symbols: Vec::new(), doc_comment: None },
        Namespace { name: "also_broken".to_string(), symbols: Vec::new(), doc_comment: None },
    ];

    let rendered = format_library_context(&metadata, &namespaces, &FailingAnalyser);

    assert_eq!(rendered, Err(LaibraryError::Formatting("broken".to_string())));
}

#[test]
fn error_messages_name_kind_and_detail() {
    assert_eq!(
        LaibraryError::Parse("src/a.rs".to_string()).message(),
        "Failed to parse source file: src/a.rs"
    );
    assert_eq!(
        LaibraryError::ReExportCycle("a::f".to_string()).message(),
        "Re-export never reaches a declaration: a::f"
    );
    assert_eq!(
        LaibraryError::UnsupportedLanguage("cobol".to_string()).message(),
        "Unsupported language: cobol"
    );
    assert_eq!(
        LaibraryError::Formatting("pkg::a".to_string()).message(),
        "Failed to format namespace: pkg::a"
    );
    assert_eq!(
        LaibraryError::Parse(String::new()).kind(),
        laibrary::error::ErrorKind::Parse
    );
}

#[test]
fn documentation_is_trimmed_of_unicode_white_space_only() {
    let white_space: Vec<u32> = vec![
        0x09, 0x0a, 0x0b, 0x0c, 0x0d, 0x20, 0x85, 0xa0, 0x1680, 0x2000, 0x2001, 0x2002, 0x2003,
        0x2004, 0x2005, 0x2006, 0x2007, 0x2008, 0x2009, 0x200a, 0x2028, 0x2029, 0x202f, 0x205f,
        0x3000,
    ];
    let mut codes: Vec<u32> = (0..0x3100).collect();
    codes.extend([0xfeff, 0xe000, 0x1f600, 0x10ffff]);
    for code in codes {
        let c = match char::from_u32(code) {
            Some(c) => c,
            None => unreachable!(),
        };
        let metadata = PackageMetadata {
            name: "n".to_string(),
            version: "v".to_string(),
            documentation: format!("{}inner text{}", c, c),
        };
        let expected_documentation = if white_space.contains(&code) {
            "inner text".to_string()
        } else {
            format!("{}inner text{}", c, c)
        };

        let documentation = render_library(&metadata, &[], &Vec::new());

        assert_eq!(
            documentation,
            format!(
                "<library name=\"n\" version=\"v\">\n    <documentation>\n{}\n    </documentation>\n    <api>\n    </api>\n</library>",
                expected_documentation
            ),
            "code point {:x}",
            code
        );
    }
}

//! The entities that flow through documentation generation, each with the
//! mathematical value (its view) that contracts speak about.

use vstd::prelude::*;
use vstd::string::*;
use crate::text::{copy_option_text, option_text};

verus! {

/// A public item: its name and the text of its declaration, taken verbatim
/// from the source together with the doc comments and attributes attached to
/// it. Two symbols are equal when both texts are.
#[derive(Debug, PartialEq, Eq)]
pub struct Symbol {
    pub name: String,
    pub source_code: String,
}

/// The value of a [`Symbol`].
pub struct SymbolView {
    pub name: Seq<char>,
    pub source_code: Seq<char>,
}

impl View for Symbol {
    type V = SymbolView;

    open spec fn view(&self) -> SymbolView {
        SymbolView { name: self.name@, source_code: self.source_code@ }
    }
}

impl Clone for Symbol {
    fn clone(&self) -> (copy: Self)
        ensures
            copy@ == self@,
    {
        Symbol { name: self.name.clone(), source_code: self.source_code.clone() }
    }
}

/// The values of a sequence of symbols.
pub open spec fn symbol_views(symbols: Seq<Symbol>) -> Seq<SymbolView> {
    symbols.map_values(|s: Symbol| s@)
}

/// Pushing a symbol pushes its value.
pub proof fn lemma_symbol_views_push(symbols: Seq<Symbol>, last: Symbol)
    ensures
        symbol_views(symbols.push(last)) == symbol_views(symbols).push(last@),
{
    assert(symbol_views(symbols.push(last)) =~= symbol_views(symbols).push(last@));
}

/// The public symbols reachable under one fully qualified module path.
#[derive(Debug, PartialEq, Eq)]
pub struct Namespace {
    /// The fully qualified path; the root namespace carries the package name.
    pub name: String,
    /// The symbols, each an independent copy.
    pub symbols: Vec<Symbol>,
    /// The documentation of the module, if it has any.
    pub doc_comment: Option<String>,
}

/// The value of a [`Namespace`].
pub struct NamespaceView {
    pub name: Seq<char>,
    pub symbols: Seq<SymbolView>,
    pub doc_comment: Option<Seq<char>>,
}

impl View for Namespace {
    type V = NamespaceView;

    open spec fn view(&self) -> NamespaceView {
        NamespaceView {
            name: self.name@,
            symbols: symbol_views(self.symbols@),
            doc_comment: option_text(self.doc_comment),
        }
    }
}

/// The values of a sequence of namespaces.
pub open spec fn namespace_views(namespaces: Seq<Namespace>) -> Seq<NamespaceView> {
    namespaces.map_values(|n: Namespace| n@)
}

/// The position of the first symbol called `name`, or the length of
/// `symbols` when there is none.
pub open spec fn first_named(symbols: Seq<SymbolView>, name: Seq<char>) -> int
    decreases symbols.len(),
{
    if symbols.len() == 0 {
        0
    } else if symbols[0].name == name {
        0
    } else {
        1 + first_named(symbols.skip(1), name)
    }
}

/// [`first_named`] is a position at or before the end, the symbol there has
/// the name, and no earlier one has.
pub proof fn lemma_first_named(symbols: Seq<SymbolView>, name: Seq<char>)
    ensures
        0 <= first_named(symbols, name) <= symbols.len(),
        first_named(symbols, name) < symbols.len() ==> symbols[first_named(symbols, name)].name
            == name,
        forall|i: int| 0 <= i < first_named(symbols, name) ==> symbols[i].name != name,
    decreases symbols.len(),
{
    if symbols.len() > 0 && symbols[0].name != name {
        let rest = symbols.skip(1);
        lemma_first_named(rest, name);
        assert forall|i: int| 0 <= i < first_named(symbols, name) implies symbols[i].name
            != name by {
            if i > 0 {
                assert(symbols[i] == rest[i - 1]);
            }
        }
    }
}

impl Clone for Namespace {
    fn clone(&self) -> (copy: Self)
        ensures
            copy@ == self@,
    {
        let mut symbols: Vec<Symbol> = Vec::new();
        let mut i: usize = 0;
        while i < self.symbols.len()
            invariant
                i <= self.symbols.len(),
                symbol_views(symbols@) == symbol_views(self.symbols@.take(i as int)),
            decreases self.symbols.len() - i,
        {
            let ghost before = symbols@;
            symbols.push(self.symbols[i].clone());
            proof {
                let s = self.symbols@[i as int];
                assert(self.symbols@.take(i as int + 1) =~= self.symbols@.take(i as int).push(s));
                lemma_symbol_views_push(self.symbols@.take(i as int), s);
                assert(symbol_views(symbols@) =~= symbol_views(before).push(s@));
            }
            i += 1;
        }
        proof {
            assert(self.symbols@.take(self.symbols@.len() as int) =~= self.symbols@);
        }
        Namespace {
            name: self.name.clone(),
            symbols,
            doc_comment: copy_option_text(&self.doc_comment),
        }
    }
}

impl Namespace {
    /// The first symbol of the namespace that is called `name`.
    pub fn get_symbol(&self, name: &str) -> (found: Option<&Symbol>)
        ensures
            match found {
                Some(symbol) => {
                    &&& first_named(self@.symbols, name@) < self.symbols@.len()
                    &&& *symbol == self.symbols@[first_named(self@.symbols, name@)]
                },
                None => forall|i: int| 0 <= i < self.symbols@.len() ==> self.symbols@[i].name@ != name@,
            },
    {
        let mut i: usize = 0;
        while i < self.symbols.len()
            invariant
                i <= self.symbols.len(),
                forall|k: int| 0 <= k < i ==> self.symbols@[k].name@ != name@,
            decreases self.symbols.len() - i,
        {
            if self.symbols[i].name.as_str().eq(name) {
                proof {
                    let views = self@.symbols;
                    let first = first_named(views, name@);
                    lemma_first_named(views, name@);
                    assert(views[i as int].name == name@);
                    if first < i {
                        assert(views[first].name == name@);
                        assert(views[first] == self.symbols@[first]@);
                    }
                    if first > i {
                        assert(views[i as int].name != name@);
                    }
                }
                return Some(&self.symbols[i]);
            }
            i += 1;
        }
        None
    }
}

/// What a package says about itself: its name, its version and the text of
/// its root documentation. Read only.
#[derive(Debug, PartialEq, Eq)]
pub struct PackageMetadata {
    pub name: String,
    pub version: String,
    pub documentation: String,
}

/// The value of a [`PackageMetadata`].
pub struct PackageMetadataView {
    pub name: Seq<char>,
    pub version: Seq<char>,
    pub documentation: Seq<char>,
}

impl View for PackageMetadata {
    type V = PackageMetadataView;

    open spec fn view(&self) -> PackageMetadataView {
        PackageMetadataView {
            name: self.name@,
            version: self.version@,
            documentation: self.documentation@,
        }
    }
}

/// One unit of source text: where it was found and what it holds. Directories
/// in `path` are separated by `/`.
#[derive(Debug, PartialEq, Eq)]
pub struct SourceFile {
    pub path: String,
    pub content: String,
}

/// The value of a [`SourceFile`].
pub struct SourceFileView {
    pub path: Seq<char>,
    pub content: Seq<char>,
}

impl View for SourceFile {
    type V = SourceFileView;

    open spec fn view(&self) -> SourceFileView {
        SourceFileView { path: self.path@, content: self.content@ }
    }
}

/// The values of a sequence of source files.
pub open spec fn source_file_views(files: Seq<SourceFile>) -> Seq<SourceFileView> {
    files.map_values(|f: SourceFile| f@)
}

} // verus!

//! Reads single declarations off a syntax tree: which nodes declare public
//! items, what they are called, and which doc comments belong to them.

use vstd::prelude::*;
use vstd::string::*;
use crate::text::{
    first_where,
    lemma_first_where_is,
    option_text,
    push_text,
    slice_text,
    text_between,
    trim_text,
    trimmed,
};
use crate::types::{Symbol, SymbolView};
use super::symbol_collection::Visibility;
use super::syntax::{SyntaxNode, SyntaxNodeView, lemma_children_view};

verus! {

/// The test for nodes of one kind.
pub open spec fn kind_is(kind: Seq<char>) -> spec_fn(SyntaxNodeView) -> bool {
    |node: SyntaxNodeView| node.kind == kind
}

/// The test for nodes held by one field of their parent.
pub open spec fn field_is(field: Seq<char>) -> spec_fn(SyntaxNodeView) -> bool {
    |node: SyntaxNodeView| node.field == Some(field)
}

/// The position of the first of `children` that has the kind `kind`, or
/// their number.
pub open spec fn first_of_kind(children: Seq<SyntaxNodeView>, kind: Seq<char>) -> int {
    first_where(children, kind_is(kind))
}

/// The position of the first of `children` held by the field `field`, or
/// their number.
pub open spec fn first_in_field(children: Seq<SyntaxNodeView>, field: Seq<char>) -> int {
    first_where(children, field_is(field))
}

/// The text of the source that `node` covers.
pub open spec fn node_text(source: Seq<char>, node: SyntaxNodeView) -> Seq<char> {
    text_between(source, node.start_byte, node.end_byte)
}

/// Finds the first child of `node` that has the kind `kind`.
pub fn child_of_kind(node: &SyntaxNode, kind: &str) -> (at: usize)
    ensures
        at == first_of_kind(node@.children, kind@),
        at <= node.children@.len(),
{
    let mut i: usize = 0;
    proof {
        lemma_children_view(node);
    }
    while i < node.children.len()
        invariant
            i <= node.children.len(),
            node@.children.len() == node.children@.len(),
            forall|k: int| 0 <= k < i ==> !kind_is(kind@)(#[trigger] node@.children[k]),
        decreases node.children.len() - i,
    {
        proof {
            lemma_children_view(node);
            lemma_children_view(&node.children@[i as int]);
        }
        if node.children[i].kind.as_str().eq(kind) {
            proof {
                lemma_first_where_is(node@.children, kind_is(kind@), i as int);
            }
            return i;
        }
        i += 1;
    }
    proof {
        lemma_first_where_is(node@.children, kind_is(kind@), i as int);
    }
    i
}

/// Finds the first child of `node` that its field `field` holds.
pub fn child_in_field(node: &SyntaxNode, field: &str) -> (at: usize)
    ensures
        at == first_in_field(node@.children, field@),
        at <= node.children@.len(),
{
    let mut i: usize = 0;
    proof {
        lemma_children_view(node);
    }
    while i < node.children.len()
        invariant
            i <= node.children.len(),
            node@.children.len() == node.children@.len(),
            forall|k: int| 0 <= k < i ==> !field_is(field@)(#[trigger] node@.children[k]),
        decreases node.children.len() - i,
    {
        proof {
            lemma_children_view(node);
            lemma_children_view(&node.children@[i as int]);
        }
        let held = match &node.children[i].field {
            Some(name) => name.as_str().eq(field),
            None => false,
        };
        if held {
            proof {
                lemma_first_where_is(node@.children, field_is(field@), i as int);
            }
            return i;
        }
        i += 1;
    }
    proof {
        lemma_first_where_is(node@.children, field_is(field@), i as int);
    }
    i
}

/// The text of the source that `node` covers.
pub fn text_of<'a>(source: &'a str, node: &SyntaxNode) -> (text: &'a str)
    ensures
        text@ == node_text(source@, node@),
{
    proof {
        lemma_children_view(node);
    }
    slice_text(source, node.start_byte, node.end_byte)
}

/// The visibility that a declaration states: none without a visibility
/// modifier, public for a bare `pub`, restricted for every other modifier.
pub open spec fn item_visibility(node: SyntaxNodeView) -> Option<Visibility> {
    let at = first_of_kind(node.children, "visibility_modifier"@);
    if at >= node.children.len() {
        None
    } else if node.children[at].children.len() == 1 && node.children[at].children[0].kind
        == "pub"@ {
        Some(Visibility::Public)
    } else {
        Some(Visibility::Restricted)
    }
}

/// Reads the visibility that a declaration states.
pub fn visibility_of(node: &SyntaxNode) -> (visibility: Option<Visibility>)
    ensures
        visibility == item_visibility(node@),
{
    let at = child_of_kind(node, "visibility_modifier");
    if at >= node.children.len() {
        return None;
    }
    let modifier = &node.children[at];
    proof {
        lemma_children_view(node);
        lemma_children_view(modifier);
        if modifier.children@.len() > 0 {
            lemma_children_view(&modifier.children@[0]);
        }
    }
    if modifier.children.len() == 1 && modifier.children[0].kind.as_str().eq("pub") {
        Some(Visibility::Public)
    } else {
        Some(Visibility::Restricted)
    }
}

/// The kinds of node that declare a named item.
pub open spec fn declares_item(kind: Seq<char>) -> bool {
    ||| kind == "function_item"@
    ||| kind == "struct_item"@
    ||| kind == "enum_item"@
    ||| kind == "union_item"@
    ||| kind == "trait_item"@
    ||| kind == "type_item"@
    ||| kind == "const_item"@
    ||| kind == "static_item"@
}

/// Whether nodes of this kind declare a named item.
pub fn is_item_kind(kind: &str) -> (declares: bool)
    ensures
        declares == declares_item(kind@),
{
    kind.eq("function_item") || kind.eq("struct_item") || kind.eq("enum_item") || kind.eq(
        "union_item",
    ) || kind.eq("trait_item") || kind.eq("type_item") || kind.eq("const_item") || kind.eq(
        "static_item",
    )
}

/// Whether `node` is a doc comment with the given marker: the marker of
/// outer doc comments, which document what follows, or that of inner doc
/// comments, which document what they stand in.
pub open spec fn is_doc_comment(node: SyntaxNodeView, marker: Seq<char>) -> bool {
    (node.kind == "line_comment"@ || node.kind == "block_comment"@) && first_of_kind(
        node.children,
        marker,
    ) < node.children.len()
}

/// Whether `node` is a doc comment with the given marker.
pub fn has_doc_marker(node: &SyntaxNode, marker: &str) -> (found: bool)
    ensures
        found == is_doc_comment(node@, marker@),
{
    proof {
        lemma_children_view(node);
    }
    (node.kind.as_str().eq("line_comment") || node.kind.as_str().eq("block_comment"))
        && child_of_kind(node, marker) < node.children.len()
}

/// Whether `node` belongs to the declaration that follows it: an attribute
/// or an outer doc comment.
pub open spec fn attaches(node: SyntaxNodeView) -> bool {
    node.kind == "attribute_item"@ || is_doc_comment(node, "outer_doc_comment_marker"@)
}

/// Whether `node` belongs to the declaration that follows it.
pub fn is_attached(node: &SyntaxNode) -> (attached: bool)
    ensures
        attached == attaches(node@),
{
    proof {
        lemma_children_view(node);
    }
    node.kind.as_str().eq("attribute_item") || has_doc_marker(node, "outer_doc_comment_marker")
}

/// The position at which the declaration at position `at` starts when the
/// attributes and doc comments directly before it are counted in.
pub open spec fn attached_from(children: Seq<SyntaxNodeView>, at: int) -> int
    decreases at,
{
    if 0 < at <= children.len() && attaches(children[at - 1]) {
        attached_from(children, at - 1)
    } else {
        at
    }
}

/// The attached run starts at or before the declaration.
pub proof fn lemma_attached_from(children: Seq<SyntaxNodeView>, at: int)
    requires
        0 <= at,
    ensures
        0 <= attached_from(children, at) <= at,
    decreases at,
{
    if 0 < at <= children.len() && attaches(children[at - 1]) {
        lemma_attached_from(children, at - 1);
    }
}

/// Finds where the declaration at position `at` starts when the attributes
/// and doc comments directly before it are counted in.
pub(crate) fn first_attached(parent: &SyntaxNode, at: usize) -> (from: usize)
    requires
        at <= parent.children@.len(),
    ensures
        from == attached_from(parent@.children, at as int),
        from <= at,
{
    let mut from = at;
    proof {
        lemma_children_view(parent);
    }
    while from > 0 && is_attached(&parent.children[from - 1])
        invariant
            from <= at <= parent.children@.len(),
            parent@.children.len() == parent.children@.len(),
            forall|i: int|
                0 <= i < parent.children@.len() ==> parent@.children[i]
                    == #[trigger] parent.children@[i]@,
            attached_from(parent@.children, at as int) == attached_from(
                parent@.children,
                from as int,
            ),
        decreases from,
    {
        from -= 1;
    }
    from
}

/// The text that the doc comment `node` contributes: that of its content,
/// when it is a doc comment with the given marker.
pub open spec fn doc_piece(source: Seq<char>, node: SyntaxNodeView, marker: Seq<char>) -> Seq<char> {
    let content = first_in_field(node.children, "doc"@);
    if is_doc_comment(node, marker) && content < node.children.len() {
        node_text(source, node.children[content])
    } else {
        Seq::empty()
    }
}

/// The contents of the doc comments with the given marker among
/// `children[from..to]`, one after the other.
pub open spec fn doc_lines(
    source: Seq<char>,
    children: Seq<SyntaxNodeView>,
    from: int,
    to: int,
    marker: Seq<char>,
) -> Seq<char>
    decreases to - from,
{
    if to <= from || from < 0 || to > children.len() {
        Seq::empty()
    } else {
        doc_lines(source, children, from, to - 1, marker) + doc_piece(
            source,
            children[to - 1],
            marker,
        )
    }
}

/// Whether there is a doc comment with the given marker among
/// `children[from..to]`.
pub open spec fn has_doc(children: Seq<SyntaxNodeView>, from: int, to: int, marker: Seq<char>) -> bool
    decreases to - from,
{
    if to <= from || from < 0 || to > children.len() {
        false
    } else {
        has_doc(children, from, to - 1, marker) || is_doc_comment(children[to - 1], marker)
    }
}

/// The documentation that the doc comments with the given marker among
/// `children[from..to]` give: their contents one after the other, trimmed;
/// none when there is no such comment.
pub open spec fn doc_between(
    source: Seq<char>,
    children: Seq<SyntaxNodeView>,
    from: int,
    to: int,
    marker: Seq<char>,
) -> Option<Seq<char>> {
    if has_doc(children, from, to, marker) {
        Some(trimmed(doc_lines(source, children, from, to, marker)))
    } else {
        None
    }
}

/// Reads the documentation that the doc comments with the given marker
/// among the children `from..to` of `parent` give.
pub(crate) fn read_docs(source: &str, parent: &SyntaxNode, from: usize, to: usize, marker: &str) -> (doc:
    Option<String>)
    requires
        from <= to <= parent.children@.len(),
    ensures
        option_text(doc) == doc_between(
            source@,
            parent@.children,
            from as int,
            to as int,
            marker@,
        ),
{
    let mut text = String::new();
    let mut found = false;
    let mut i: usize = from;
    proof {
        lemma_children_view(parent);
    }
    while i < to
        invariant
            from <= i <= to <= parent.children@.len(),
            parent@.children.len() == parent.children@.len(),
            forall|k: int|
                0 <= k < parent.children@.len() ==> parent@.children[k]
                    == #[trigger] parent.children@[k]@,
            text@ == doc_lines(source@, parent@.children, from as int, i as int, marker@),
            found == has_doc(parent@.children, from as int, i as int, marker@),
        decreases to - i,
    {
        let node = &parent.children[i];
        let ghost before = text@;
        if has_doc_marker(node, marker) {
            found = true;
            let content = child_in_field(node, "doc");
            if content < node.children.len() {
                proof {
                    lemma_children_view(node);
                }
                push_text(&mut text, text_of(source, &node.children[content]));
            }
        }
        proof {
            assert(text@ =~= before + doc_piece(source@, parent@.children[i as int], marker@));
        }
        i += 1;
    }
    if found {
        Some(trim_text(text.as_str()).to_owned())
    } else {
        None
    }
}

/// The symbol that the child at position `at` declares: for a declaration
/// of a named item that is public, the text of its name, and the text of
/// the source from the first attribute or doc comment attached to it up to
/// its end.
pub open spec fn item_symbol(source: Seq<char>, children: Seq<SyntaxNodeView>, at: int) -> Option<
    SymbolView,
> {
    let node = children[at];
    let name = first_in_field(node.children, "name"@);
    if declares_item(node.kind) && item_visibility(node) == Some(Visibility::Public) && name
        < node.children.len() {
        Some(
            SymbolView {
                name: node_text(source, node.children[name]),
                source_code: text_between(
                    source,
                    children[attached_from(children, at)].start_byte,
                    node.end_byte,
                ),
            },
        )
    } else {
        None
    }
}

/// The view of an optional symbol.
pub open spec fn option_symbol(symbol: Option<Symbol>) -> Option<SymbolView> {
    match symbol {
        Some(s) => Some(s@),
        None => None,
    }
}

/// Reads the symbol that the child at position `at` of `parent` declares.
pub(crate) fn read_symbol(source: &str, parent: &SyntaxNode, at: usize) -> (symbol: Option<Symbol>)
    requires
        at < parent.children@.len(),
    ensures
        option_symbol(symbol) == item_symbol(source@, parent@.children, at as int),
{
    let node = &parent.children[at];
    proof {
        lemma_children_view(parent);
        lemma_children_view(node);
    }
    if !is_item_kind(node.kind.as_str()) {
        return None;
    }
    match visibility_of(node) {
        Some(Visibility::Public) => {},
        _ => {
            return None;
        },
    }
    let name = child_in_field(node, "name");
    if name >= node.children.len() {
        return None;
    }
    let from = first_attached(parent, at);
    proof {
        lemma_children_view(&parent.children@[from as int]);
    }
    Some(
        Symbol {
            name: text_of(source, &node.children[name]).to_owned(),
            source_code: slice_text(source, parent.children[from].start_byte, node.end_byte).to_owned(),
        },
    )
}

} // verus!

//! The concrete syntax tree of one source file, as plain values, and the
//! parser that produces it.

use vstd::prelude::*;
use vstd::string::*;
use crate::text::option_text;

verus! {

/// One node of a concrete syntax tree: its kind, the field of its parent
/// that holds it, the bytes of the source that it covers, and its children
/// in source order.
#[derive(Debug, PartialEq, Eq)]
pub struct SyntaxNode {
    pub kind: String,
    pub field: Option<String>,
    pub start_byte: usize,
    pub end_byte: usize,
    pub children: Vec<SyntaxNode>,
}

/// The value of a [`SyntaxNode`].
pub struct SyntaxNodeView {
    pub kind: Seq<char>,
    pub field: Option<Seq<char>>,
    pub start_byte: int,
    pub end_byte: int,
    pub children: Seq<SyntaxNodeView>,
}

/// The value of a node: its own attributes and the values of its children.
pub open spec fn node_view(node: SyntaxNode) -> SyntaxNodeView
    decreases node,
{
    SyntaxNodeView {
        kind: node.kind@,
        field: option_text(node.field),
        start_byte: node.start_byte as int,
        end_byte: node.end_byte as int,
        children: Seq::new(
            node.children@.len(),
            |i: int|
                if 0 <= i < node.children@.len() {
                    node_view(node.children@[i])
                } else {
                    arbitrary()
                },
        ),
    }
}

impl View for SyntaxNode {
    type V = SyntaxNodeView;

    open spec fn view(&self) -> SyntaxNodeView {
        node_view(*self)
    }
}

/// The children of a node's value are the values of its children.
pub proof fn lemma_children_view(node: &SyntaxNode)
    ensures
        node@.children.len() == node.children@.len(),
        forall|i: int| 0 <= i < node.children@.len() ==> node@.children[i] == node.children@[i]@,
        node@.kind == node.kind@,
        node@.field == option_text(node.field),
        node@.start_byte == node.start_byte,
        node@.end_byte == node.end_byte,
{
    reveal_with_fuel(node_view, 2);
}

/// One node of a syntax tree without its children: where it stands is
/// told by its place in a list and by its depth.
#[derive(Debug, PartialEq, Eq)]
pub struct SyntaxEntry {
    pub kind: String,
    pub field: Option<String>,
    pub start_byte: usize,
    pub end_byte: usize,
    pub depth: u32,
}

/// The value of a [`SyntaxEntry`].
pub struct SyntaxEntryView {
    pub kind: Seq<char>,
    pub field: Option<Seq<char>>,
    pub start_byte: int,
    pub end_byte: int,
    pub depth: int,
}

impl View for SyntaxEntry {
    type V = SyntaxEntryView;

    open spec fn view(&self) -> SyntaxEntryView {
        SyntaxEntryView {
            kind: self.kind@,
            field: option_text(self.field),
            start_byte: self.start_byte as int,
            end_byte: self.end_byte as int,
            depth: self.depth as int,
        }
    }
}

/// The values of a sequence of entries.
pub open spec fn entry_views(entries: Seq<SyntaxEntry>) -> Seq<SyntaxEntryView> {
    entries.map_values(|e: SyntaxEntry| e@)
}

/// The values of a sequence of nodes.
pub open spec fn node_views(nodes: Seq<SyntaxNode>) -> Seq<SyntaxNodeView> {
    nodes.map_values(|n: SyntaxNode| n@)
}

/// The first position from `from` on whose entry is at most `depth` deep,
/// or the number of entries when all the rest lies deeper.
pub open spec fn next_at_most(entries: Seq<SyntaxEntryView>, from: int, depth: int) -> int
    decreases entries.len() - from,
{
    if from < 0 || from >= entries.len() || entries[from].depth <= depth {
        from
    } else {
        next_at_most(entries, from + 1, depth)
    }
}

/// The position behind the last entry that lies below the entry at
/// position `at`: entries are listed parent first, so what lies below an
/// entry is the run of deeper entries that follows it.
pub open spec fn subtree_end(entries: Seq<SyntaxEntryView>, at: int) -> int {
    next_at_most(entries, at + 1, entries[at].depth)
}

/// The node that the entry at position `at` stands for, with the nodes of
/// the entries below it as its descendants.
pub open spec fn node_at(entries: Seq<SyntaxEntryView>, at: int) -> SyntaxNodeView
    decreases entries.len() - at, 0nat,
{
    if 0 <= at < entries.len() {
        SyntaxNodeView {
            kind: entries[at].kind,
            field: entries[at].field,
            start_byte: entries[at].start_byte,
            end_byte: entries[at].end_byte,
            children: nodes_between(entries, at + 1, subtree_end(entries, at)),
        }
    } else {
        SyntaxNodeView {
            kind: Seq::empty(),
            field: None,
            start_byte: 0,
            end_byte: 0,
            children: Seq::empty(),
        }
    }
}

/// The nodes that stand side by side in `entries[from..end]`: the node of
/// the entry at `from`, then those that follow what lies below it.
pub open spec fn nodes_between(entries: Seq<SyntaxEntryView>, from: int, end: int) -> Seq<
    SyntaxNodeView,
>
    decreases entries.len() - from, 1nat,
{
    if from < 0 || from >= end || from >= entries.len() {
        Seq::empty()
    } else {
        let behind = subtree_end(entries, from);
        let next = if from < behind <= entries.len() {
            behind
        } else {
            from + 1
        };
        seq![node_at(entries, from)] + nodes_between(entries, next, end)
    }
}

/// The tree that a list of entries stands for: the node of its first entry.
/// No entries, no tree.
pub open spec fn syntax_tree(entries: Option<Seq<SyntaxEntryView>>) -> Option<SyntaxNodeView> {
    match entries {
        Some(listed) => if listed.len() > 0 {
            Some(node_at(listed, 0))
        } else {
            None
        },
        None => None,
    }
}

/// The value of an optional node.
pub open spec fn option_node(node: Option<SyntaxNode>) -> Option<SyntaxNodeView> {
    match node {
        Some(n) => Some(n@),
        None => None,
    }
}

/// [`next_at_most`] stays in the list, skips only deeper entries, and stops
/// at an entry that is at most `depth` deep or at the end.
pub proof fn lemma_next_at_most(entries: Seq<SyntaxEntryView>, from: int, depth: int)
    requires
        0 <= from <= entries.len(),
    ensures
        from <= next_at_most(entries, from, depth) <= entries.len(),
        forall|i: int|
            from <= i < next_at_most(entries, from, depth) ==> (#[trigger] entries[i]).depth
                > depth,
        next_at_most(entries, from, depth) < entries.len() ==> entries[next_at_most(
            entries,
            from,
            depth,
        )].depth <= depth,
    decreases entries.len() - from,
{
    if from < entries.len() && entries[from].depth > depth {
        lemma_next_at_most(entries, from + 1, depth);
    }
}

/// Skipping a run of deeper entries does not change where the next entry
/// of at most `depth` is.
pub proof fn lemma_next_at_most_skips(
    entries: Seq<SyntaxEntryView>,
    from: int,
    to: int,
    depth: int,
)
    requires
        0 <= from <= to <= entries.len(),
        forall|i: int| from <= i < to ==> (#[trigger] entries[i]).depth > depth,
    ensures
        next_at_most(entries, from, depth) == next_at_most(entries, to, depth),
    decreases to - from,
{
    if from < to {
        lemma_next_at_most_skips(entries, from + 1, to, depth);
    }
}

/// The children of a node's value are the values of its children.
pub proof fn lemma_node_children(node: &SyntaxNode)
    ensures
        node@.children == node_views(node.children@),
{
    lemma_children_view(node);
    assert(node@.children =~= node_views(node.children@));
}

/// A syntax tree as the tree-sitter crate holds it.
#[verifier::external_type_specification]
#[verifier::external_body]
pub struct ExTree(tree_sitter::Tree);

/// What the parser makes of Rust source text: the nodes of the syntax tree,
/// parent first, or nothing where it gives no tree. The name stands for the
/// outcome of `tree_sitter::Parser::parse` under the grammar of the
/// tree-sitter-rust crate; nothing is said of its value for any text.
pub uninterp spec fn rust_syntax(source: Seq<char>) -> Option<Seq<SyntaxEntryView>>;

/// What a tree holds: its nodes, parent first, each with its kind, the
/// field of its parent that holds it, the bytes it covers and its depth
/// below the root.
pub uninterp spec fn tree_entries(tree: tree_sitter::Tree) -> Seq<SyntaxEntryView>;

/// `tree_sitter::Parser::new`, `Parser::set_language` with the grammar of
/// the tree-sitter-rust crate, and `Parser::parse` on the bytes of `source`
/// without an earlier tree. Assumed: the outcome depends on the text alone,
/// so that a tree holds what [`rust_syntax`] names for the text, and there
/// is no tree exactly where [`rust_syntax`] names none.
#[verifier::external_body]
fn parse_rust(source: &str) -> (tree: Option<tree_sitter::Tree>)
    ensures
        match tree {
            Some(parsed) => rust_syntax(source@) == Some(tree_entries(parsed)),
            None => rust_syntax(source@) is None,
        },
{
    let mut parser = tree_sitter::Parser::new();
    parser.set_language(&tree_sitter_rust::LANGUAGE.into()).ok()?;
    parser.parse(source, None)
}

/// `tree_sitter::Node::descendant_count` of `Tree::root_node`: the number
/// of nodes of the tree, the root counted in. Assumed: that is how many
/// nodes the tree holds.
#[verifier::external_body]
fn entry_count(tree: &tree_sitter::Tree) -> (count: usize)
    ensures
        count == tree_entries(*tree).len(),
{
    tree.root_node().descendant_count()
}

/// `tree_sitter::TreeCursor::goto_descendant` on the cursor of
/// `Tree::walk`, and what the cursor then shows: `TreeCursor::field_name`,
/// `TreeCursor::depth`, and of `TreeCursor::node` its `kind`, `start_byte`
/// and `end_byte`. Assumed: these are the attributes of the node with that
/// number among the nodes that the tree holds.
#[verifier::external_body]
fn entry_at(tree: &tree_sitter::Tree, index: usize) -> (entry: SyntaxEntry)
    requires
        index < tree_entries(*tree).len(),
    ensures
        entry@ == tree_entries(*tree)[index as int],
{
    let mut cursor = tree.walk();
    cursor.goto_descendant(index);
    let node = cursor.node();
    SyntaxEntry {
        kind: String::from(node.kind()),
        field: cursor.field_name().map(String::from),
        start_byte: node.start_byte(),
        end_byte: node.end_byte(),
        depth: cursor.depth(),
    }
}

/// Lists the nodes that `tree` holds.
fn read_entries(tree: &tree_sitter::Tree) -> (entries: Vec<SyntaxEntry>)
    ensures
        entry_views(entries@) == tree_entries(*tree),
{
    let count = entry_count(tree);
    let mut entries: Vec<SyntaxEntry> = Vec::new();
    let mut i: usize = 0;
    while i < count
        invariant
            i <= count,
            count == tree_entries(*tree).len(),
            entry_views(entries@) == tree_entries(*tree).take(i as int),
        decreases count - i,
    {
        let entry = entry_at(tree, i);
        let ghost before = entries@;
        entries.push(entry);
        proof {
            assert(entry_views(entries@) =~= entry_views(before).push(entry@));
            assert(entry_views(entries@) =~= tree_entries(*tree).take(i as int + 1));
        }
        i += 1;
    }
    proof {
        assert(tree_entries(*tree).take(count as int) =~= tree_entries(*tree));
    }
    entries
}

/// Builds the node that the entry at position `at` stands for, and tells
/// where the entries below it end. There is no node for a position outside
/// the list.
fn plain_node(entries: &Vec<SyntaxEntry>, at: usize) -> (plain: Option<(SyntaxNode, usize)>)
    ensures
        at >= entries@.len() ==> plain is None,
        at < entries@.len() ==> (plain matches Some((node, end)) && node@ == node_at(
            entry_views(entries@),
            at as int,
        ) && end == subtree_end(entry_views(entries@), at as int) && at < end <= entries@.len()),
    decreases entries@.len() - at,
{
    if at >= entries.len() {
        return None;
    }
    let ghost listed = entry_views(entries@);
    let depth = entries[at].depth;
    let ghost end = subtree_end(listed, at as int);
    let mut children: Vec<SyntaxNode> = Vec::new();
    let mut next: usize = at + 1;
    proof {
        assert(listed[at as int] == entries@[at as int]@);
        lemma_next_at_most(listed, at + 1, depth as int);
        assert(node_views(children@) + nodes_between(listed, next as int, end) =~= nodes_between(
            listed,
            at + 1,
            end,
        ));
    }
    while next < entries.len() && entries[next].depth > depth
        invariant
            at < next <= entries@.len(),
            listed == entry_views(entries@),
            end == subtree_end(listed, at as int),
            depth == listed[at as int].depth,
            next <= end <= entries@.len(),
            next_at_most(listed, next as int, depth as int) == end,
            node_views(children@) + nodes_between(listed, next as int, end) == nodes_between(
                listed,
                at + 1,
                end,
            ),
        decreases entries@.len() - next,
    {
        proof {
            assert(listed[next as int] == entries@[next as int]@);
        }
        match plain_node(entries, next) {
            Some((child, behind)) => {
                let ghost before = children@;
                proof {
                    lemma_next_at_most(listed, next + 1, listed[next as int].depth);
                    lemma_next_at_most_skips(listed, next as int, behind as int, depth as int);
                    lemma_next_at_most(listed, behind as int, depth as int);
                }
                children.push(child);
                proof {
                    assert(node_views(children@) =~= node_views(before).push(child@));
                    assert(node_views(children@) + nodes_between(listed, behind as int, end)
                        =~= node_views(before) + nodes_between(listed, next as int, end));
                }
                next = behind;
            },
            None => {
                return None;
            },
        }
    }
    proof {
        assert(listed[at as int] == entries@[at as int]@);
        if next < entries@.len() {
            assert(listed[next as int] == entries@[next as int]@);
        }
        assert(next == end);
        assert(node_views(children@) =~= nodes_between(listed, at + 1, end));
    }
    let node = SyntaxNode {
        kind: entries[at].kind.clone(),
        field: crate::text::copy_option_text(&entries[at].field),
        start_byte: entries[at].start_byte,
        end_byte: entries[at].end_byte,
        children,
    };
    proof {
        lemma_node_children(&node);
        lemma_children_view(&node);
    }
    Some((node, next))
}

/// Parses Rust source text into a syntax tree of plain values.
///
/// The tree is the one that the nodes which the parser lists for the text
/// stand for; text with syntax errors still has a tree, with error nodes in
/// it. There is no tree exactly where the parser gives none.
pub fn parse_source(source: &str) -> (tree: Option<SyntaxNode>)
    ensures
        option_node(tree) == syntax_tree(rust_syntax(source@)),
{
    match parse_rust(source) {
        Some(parsed) => {
            let entries = read_entries(&parsed);
            match plain_node(&entries, 0) {
                Some((root, _)) => Some(root),
                None => None,
            }
        },
        None => None,
    }
}

} // verus!

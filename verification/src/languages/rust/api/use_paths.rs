//! Reads `use` declarations: the paths that they import, with their
//! aliases, and the re-export edges that those paths stand for in a module.

use vstd::prelude::*;
use vstd::string::*;
use crate::text::{join_texts, joined, lemma_texts_push, option_text, texts};
use super::items::{
    child_in_field,
    first_in_field,
    item_visibility,
    node_text,
    text_of,
    visibility_of,
};
use super::symbol_collection::{ReExport, ReExportView, Visibility, reexport_views};
use super::syntax::{SyntaxNode, SyntaxNodeView, lemma_children_view};

verus! {

/// One imported path: its segments as written, and the alias after `as`.
#[derive(Debug, PartialEq, Eq)]
pub struct UsePath {
    pub segments: Vec<String>,
    pub alias: Option<String>,
}

/// The value of a [`UsePath`].
pub struct UsePathView {
    pub segments: Seq<Seq<char>>,
    pub alias: Option<Seq<char>>,
}

impl View for UsePath {
    type V = UsePathView;

    open spec fn view(&self) -> UsePathView {
        UsePathView { segments: texts(self.segments@), alias: option_text(self.alias) }
    }
}

/// The values of a sequence of imported paths.
pub open spec fn use_path_views(paths: Seq<UsePath>) -> Seq<UsePathView> {
    paths.map_values(|p: UsePath| p@)
}

/// The segments of a path: those of the part before the last `::`, then the
/// name after it; a node that is no scoped identifier is one segment.
pub open spec fn path_segments(source: Seq<char>, node: SyntaxNodeView) -> Seq<Seq<char>>
    decreases node,
{
    if node.kind == "scoped_identifier"@ {
        let path = first_in_field(node.children, "path"@);
        let name = first_in_field(node.children, "name"@);
        let front = if 0 <= path < node.children.len() {
            path_segments(source, node.children[path])
        } else {
            Seq::empty()
        };
        if 0 <= name < node.children.len() {
            front.push(node_text(source, node.children[name]))
        } else {
            front
        }
    } else {
        seq![node_text(source, node)]
    }
}

/// Whether a node of this kind is a path by itself.
pub open spec fn is_plain_path(kind: Seq<char>) -> bool {
    ||| kind == "identifier"@
    ||| kind == "scoped_identifier"@
    ||| kind == "crate"@
    ||| kind == "self"@
    ||| kind == "super"@
}

/// The paths that the use tree `node` imports, each with `prefix` before
/// it. A wildcard imports no path.
pub open spec fn use_paths(source: Seq<char>, node: SyntaxNodeView, prefix: Seq<Seq<char>>) -> Seq<
    UsePathView,
>
    decreases node, 0nat,
{
    let path = first_in_field(node.children, "path"@);
    if node.kind == "use_as_clause"@ {
        let alias = first_in_field(node.children, "alias"@);
        if 0 <= path < node.children.len() && 0 <= alias < node.children.len() {
            seq![
                UsePathView {
                    segments: prefix + path_segments(source, node.children[path]),
                    alias: Some(node_text(source, node.children[alias])),
                },
            ]
        } else {
            Seq::empty()
        }
    } else if node.kind == "scoped_use_list"@ {
        let list = first_in_field(node.children, "list"@);
        let longer = if 0 <= path < node.children.len() {
            prefix + path_segments(source, node.children[path])
        } else {
            prefix
        };
        if 0 <= list < node.children.len() {
            use_list_paths(
                source,
                node.children[list].children,
                longer,
                node.children[list].children.len(),
            )
        } else {
            Seq::empty()
        }
    } else if node.kind == "use_list"@ {
        use_list_paths(source, node.children, prefix, node.children.len())
    } else if is_plain_path(node.kind) {
        seq![UsePathView { segments: prefix + path_segments(source, node), alias: None }]
    } else {
        Seq::empty()
    }
}

/// The paths that the first `count` of `items` import, each with `prefix`
/// before it.
pub open spec fn use_list_paths(
    source: Seq<char>,
    items: Seq<SyntaxNodeView>,
    prefix: Seq<Seq<char>>,
    count: nat,
) -> Seq<UsePathView>
    decreases items, count,
{
    if count == 0 || count > items.len() {
        Seq::empty()
    } else {
        use_list_paths(source, items, prefix, (count - 1) as nat) + use_paths(
            source,
            items[count - 1],
            prefix,
        )
    }
}

/// A copy of a list of strings.
pub fn copy_texts(list: &Vec<String>) -> (copy: Vec<String>)
    ensures
        texts(copy@) == texts(list@),
{
    let mut copy: Vec<String> = Vec::new();
    let mut i: usize = 0;
    while i < list.len()
        invariant
            i <= list.len(),
            texts(copy@) == texts(list@.take(i as int)),
        decreases list.len() - i,
    {
        let ghost before = copy@;
        copy.push(list[i].clone());
        proof {
            lemma_texts_push(before, copy@.last());
            lemma_texts_push(list@.take(i as int), list@[i as int]);
            assert(list@.take(i as int + 1) =~= list@.take(i as int).push(list@[i as int]));
        }
        i += 1;
    }
    proof {
        assert(list@.take(list@.len() as int) =~= list@);
    }
    copy
}

/// Appends the segments of the path `node` to `segments`.
pub fn push_path_segments(source: &str, node: &SyntaxNode, segments: &mut Vec<String>)
    ensures
        texts(final(segments)@) == texts(old(segments)@) + path_segments(source@, node@),
    decreases node,
{
    let ghost start = texts(segments@);
    proof {
        lemma_children_view(node);
    }
    if node.kind.as_str().eq("scoped_identifier") {
        let path = child_in_field(node, "path");
        let name = child_in_field(node, "name");
        if path < node.children.len() {
            push_path_segments(source, &node.children[path], segments);
        }
        let ghost middle = texts(segments@);
        if name < node.children.len() {
            let ghost before = segments@;
            segments.push(text_of(source, &node.children[name]).to_owned());
            proof {
                lemma_texts_push(before, segments@.last());
            }
        }
        proof {
            assert(texts(segments@) =~= start + path_segments(source@, node@));
        }
    } else {
        let ghost before = segments@;
        segments.push(text_of(source, node).to_owned());
        proof {
            lemma_texts_push(before, segments@.last());
            assert(texts(segments@) =~= start + path_segments(source@, node@));
        }
    }
}

/// Whether a node of this kind is a path by itself.
pub fn is_plain_path_kind(kind: &str) -> (plain: bool)
    ensures
        plain == is_plain_path(kind@),
{
    kind.eq("identifier") || kind.eq("scoped_identifier") || kind.eq("crate") || kind.eq("self")
        || kind.eq("super")
}

/// Pushing an imported path pushes its value.
pub proof fn lemma_use_path_views_push(paths: Seq<UsePath>, last: UsePath)
    ensures
        use_path_views(paths.push(last)) == use_path_views(paths).push(last@),
{
    assert(use_path_views(paths.push(last)) =~= use_path_views(paths).push(last@));
}

/// Appends to `out` the paths that the use tree `node` imports, each with
/// `prefix` before it.
pub fn push_use_paths(source: &str, node: &SyntaxNode, prefix: &Vec<String>, out: &mut Vec<UsePath>)
    ensures
        use_path_views(final(out)@) == use_path_views(old(out)@) + use_paths(
            source@,
            node@,
            texts(prefix@),
        ),
    decreases node,
{
    let ghost start = use_path_views(out@);
    proof {
        lemma_children_view(node);
    }
    let path = child_in_field(node, "path");
    if node.kind.as_str().eq("use_as_clause") {
        let alias = child_in_field(node, "alias");
        if path < node.children.len() && alias < node.children.len() {
            let mut segments = copy_texts(prefix);
            push_path_segments(source, &node.children[path], &mut segments);
            let entry = UsePath {
                segments,
                alias: Some(text_of(source, &node.children[alias]).to_owned()),
            };
            let ghost before = out@;
            out.push(entry);
            proof {
                lemma_use_path_views_push(before, entry);
                assert(use_path_views(out@) =~= start + use_paths(source@, node@, texts(prefix@)));
            }
        } else {
            proof {
                assert(use_path_views(out@) =~= start + use_paths(source@, node@, texts(prefix@)));
            }
        }
    } else if node.kind.as_str().eq("scoped_use_list") {
        let list = child_in_field(node, "list");
        let mut longer = copy_texts(prefix);
        if path < node.children.len() {
            push_path_segments(source, &node.children[path], &mut longer);
        }
        if list < node.children.len() {
            push_use_list_paths(source, &node.children[list], &longer, out);
        } else {
            proof {
                assert(use_path_views(out@) =~= start + use_paths(source@, node@, texts(prefix@)));
            }
        }
    } else if node.kind.as_str().eq("use_list") {
        push_use_list_paths(source, node, prefix, out);
    } else if is_plain_path_kind(node.kind.as_str()) {
        let mut segments = copy_texts(prefix);
        push_path_segments(source, node, &mut segments);
        let entry = UsePath { segments, alias: None };
        let ghost before = out@;
        out.push(entry);
        proof {
            lemma_use_path_views_push(before, entry);
            assert(use_path_views(out@) =~= start + use_paths(source@, node@, texts(prefix@)));
        }
    } else {
        proof {
            assert(use_path_views(out@) =~= start + use_paths(source@, node@, texts(prefix@)));
        }
    }
}

/// Appends to `out` the paths that the items of the use list `list` import,
/// each with `prefix` before it.
pub fn push_use_list_paths(
    source: &str,
    list: &SyntaxNode,
    prefix: &Vec<String>,
    out: &mut Vec<UsePath>,
)
    ensures
        use_path_views(final(out)@) == use_path_views(old(out)@) + use_list_paths(
            source@,
            list@.children,
            texts(prefix@),
            list@.children.len(),
        ),
    decreases list, 0nat,
{
    let ghost start = use_path_views(out@);
    let mut i: usize = 0;
    proof {
        lemma_children_view(list);
        assert(start + use_list_paths(source@, list@.children, texts(prefix@), 0) =~= start);
    }
    while i < list.children.len()
        invariant
            i <= list.children.len(),
            list@.children.len() == list.children@.len(),
            forall|k: int|
                0 <= k < list.children@.len() ==> list@.children[k] == #[trigger] list.children@[k]@,
            use_path_views(out@) == start + use_list_paths(
                source@,
                list@.children,
                texts(prefix@),
                i as nat,
            ),
        decreases list.children.len() - i,
    {
        push_use_paths(source, &list.children[i], prefix, out);
        proof {
            assert(use_path_views(out@) =~= start + use_list_paths(
                source@,
                list@.children,
                texts(prefix@),
                (i + 1) as nat,
            ));
        }
        i += 1;
    }
}

/// Where a path that starts with `super` segments leads from the module
/// `current`: one module up for each of them. There is nothing above the
/// root.
pub open spec fn climb(current: Seq<Seq<char>>, segments: Seq<Seq<char>>) -> Option<
    Seq<Seq<char>>,
>
    decreases segments.len(),
{
    if segments.len() > 0 && segments[0] == "super"@ {
        if current.len() == 0 {
            None
        } else {
            climb(current.drop_last(), segments.skip(1))
        }
    } else {
        Some(current + segments)
    }
}

/// The segments, counted from the root of the crate, of the item that the
/// path `segments` names in the module `current`: a path that starts with
/// `crate` counts from the root, one that starts with `self` or with a name
/// from the module itself, and each leading `super` goes one module up.
pub open spec fn absolute_path(current: Seq<Seq<char>>, segments: Seq<Seq<char>>) -> Option<
    Seq<Seq<char>>,
> {
    if segments.len() == 0 {
        None
    } else if segments[0] == "crate"@ {
        Some(segments.skip(1))
    } else if segments[0] == "self"@ {
        climb(current, segments.skip(1))
    } else {
        climb(current, segments)
    }
}

/// The edge that the import of `path` with the given visibility makes in
/// the module `current`: the last segment of the absolute path is the name
/// of the imported item, the segments before it are the module it is
/// imported from, and it is published under the alias or, without one,
/// under its own name. There is no edge for a path that names no item.
pub open spec fn reexport_of(
    current: Seq<Seq<char>>,
    visibility: Visibility,
    path: UsePathView,
) -> Option<ReExportView> {
    match absolute_path(current, path.segments) {
        Some(absolute) => if absolute.len() > 0 {
            Some(
                ReExportView {
                    module: joined(current, "::"@),
                    source_module: joined(absolute.drop_last(), "::"@),
                    source_name: absolute.last(),
                    exported_name: match path.alias {
                        Some(alias) => alias,
                        None => absolute.last(),
                    },
                    visibility,
                },
            )
        } else {
            None
        },
        None => None,
    }
}

/// The edges of the first `count` of `paths`.
pub open spec fn reexports_from(
    current: Seq<Seq<char>>,
    visibility: Visibility,
    paths: Seq<UsePathView>,
    count: nat,
) -> Seq<ReExportView>
    decreases count,
{
    if count == 0 || count > paths.len() {
        Seq::empty()
    } else {
        let before = reexports_from(current, visibility, paths, (count - 1) as nat);
        match reexport_of(current, visibility, paths[count - 1]) {
            Some(edge) => before.push(edge),
            None => before,
        }
    }
}

/// The edges that the child at position `at` makes in the module
/// `current`: those of the paths that it imports, when it is a `use`
/// declaration with a visibility modifier.
pub open spec fn use_reexports(
    source: Seq<char>,
    node: SyntaxNodeView,
    current: Seq<Seq<char>>,
) -> Seq<ReExportView> {
    let argument = first_in_field(node.children, "argument"@);
    match item_visibility(node) {
        Some(visibility) => if node.kind == "use_declaration"@ && 0 <= argument
            < node.children.len() {
            let paths = use_paths(source, node.children[argument], Seq::empty());
            reexports_from(current, visibility, paths, paths.len())
        } else {
            Seq::empty()
        },
        None => Seq::empty(),
    }
}

/// The segments from position `from` on, behind those of `front[..keep]`.
fn absolute_from(front: &Vec<String>, keep: usize, segments: &Vec<String>, from: usize) -> (absolute:
    Vec<String>)
    requires
        keep <= front@.len(),
        from <= segments@.len(),
    ensures
        texts(absolute@) == texts(front@).take(keep as int) + texts(segments@).skip(from as int),
{
    let mut absolute: Vec<String> = Vec::new();
    let mut i: usize = 0;
    while i < keep
        invariant
            i <= keep <= front@.len(),
            texts(absolute@) == texts(front@).take(i as int),
        decreases keep - i,
    {
        let ghost before = absolute@;
        absolute.push(front[i].clone());
        proof {
            lemma_texts_push(before, absolute@.last());
            assert(texts(absolute@) =~= texts(front@).take(i as int + 1));
        }
        i += 1;
    }
    let mut k: usize = from;
    proof {
        assert(texts(segments@).skip(from as int).take(0) =~= Seq::<Seq<char>>::empty());
        assert(texts(absolute@) =~= texts(front@).take(keep as int) + texts(segments@).skip(
            from as int,
        ).take(0));
    }
    while k < segments.len()
        invariant
            from <= k <= segments@.len(),
            keep <= front@.len(),
            texts(absolute@) == texts(front@).take(keep as int) + texts(segments@).skip(
                from as int,
            ).take(k - from),
        decreases segments.len() - k,
    {
        let ghost before = absolute@;
        absolute.push(segments[k].clone());
        proof {
            lemma_texts_push(before, absolute@.last());
            assert(texts(absolute@) =~= texts(front@).take(keep as int) + texts(segments@).skip(
                from as int,
            ).take(k - from + 1));
        }
        k += 1;
    }
    proof {
        assert(texts(segments@).skip(from as int).take(segments@.len() - from) =~= texts(
            segments@,
        ).skip(from as int));
    }
    absolute
}

/// Computes the segments, counted from the root of the crate, of the item
/// that the path `segments` names in the module `current`.
pub fn resolve_path(current: &Vec<String>, segments: &Vec<String>) -> (absolute: Option<
    Vec<String>,
>)
    ensures
        match absolute {
            Some(found) => absolute_path(texts(current@), texts(segments@)) == Some(texts(found@)),
            None => absolute_path(texts(current@), texts(segments@)) is None,
        },
{
    if segments.len() == 0 {
        return None;
    }
    proof {
        assert(texts(segments@)[0] == segments@[0]@);
        assert(texts(current@).take(0) =~= Seq::<Seq<char>>::empty());
    }
    if segments[0].as_str().eq("crate") {
        let absolute = absolute_from(current, 0, segments, 1);
        proof {
            assert(texts(absolute@) =~= texts(segments@).skip(1));
        }
        return Some(absolute);
    }
    let mut from: usize = if segments[0].as_str().eq("self") {
        1
    } else {
        0
    };
    let mut keep: usize = current.len();
    proof {
        assert(texts(current@).take(keep as int) =~= texts(current@));
        assert(texts(segments@).skip(0) =~= texts(segments@));
    }
    while from < segments.len() && segments[from].as_str().eq("super")
        invariant
            from <= segments@.len(),
            keep <= current@.len(),
            absolute_path(texts(current@), texts(segments@)) == climb(
                texts(current@).take(keep as int),
                texts(segments@).skip(from as int),
            ),
        decreases segments@.len() - from,
    {
        proof {
            let rest = texts(segments@).skip(from as int);
            assert(rest[0] == segments@[from as int]@);
            assert(rest.skip(1) =~= texts(segments@).skip(from as int + 1));
            if keep > 0 {
                assert(texts(current@).take(keep as int).drop_last() =~= texts(current@).take(
                    keep as int - 1,
                ));
            }
        }
        if keep == 0 {
            return None;
        }
        keep -= 1;
        from += 1;
    }
    proof {
        let rest = texts(segments@).skip(from as int);
        if from < segments@.len() {
            assert(rest[0] == segments@[from as int]@);
        }
    }
    Some(absolute_from(current, keep, segments, from))
}

/// Pushing an edge pushes its value.
pub proof fn lemma_reexport_views_push(edges: Seq<ReExport>, last: ReExport)
    ensures
        reexport_views(edges.push(last)) == reexport_views(edges).push(last@),
{
    assert(reexport_views(edges.push(last)) =~= reexport_views(edges).push(last@));
}

/// Appends to `out` the edges that the `use` declaration `node` makes in
/// the module `current`.
pub fn push_use_reexports(
    source: &str,
    node: &SyntaxNode,
    current: &Vec<String>,
    out: &mut Vec<ReExport>,
)
    ensures
        reexport_views(final(out)@) == reexport_views(old(out)@) + use_reexports(
            source@,
            node@,
            texts(current@),
        ),
{
    let ghost start = reexport_views(out@);
    proof {
        lemma_children_view(node);
        assert(start + Seq::<ReExportView>::empty() =~= start);
    }
    let visibility = match visibility_of(node) {
        Some(visibility) => visibility,
        None => {
            return ;
        },
    };
    let argument = child_in_field(node, "argument");
    if !node.kind.as_str().eq("use_declaration") || argument >= node.children.len() {
        return ;
    }
    let mut paths: Vec<UsePath> = Vec::new();
    let prefix: Vec<String> = Vec::new();
    proof {
        assert(texts(prefix@) =~= Seq::<Seq<char>>::empty());
        assert(use_path_views(paths@) =~= Seq::<UsePathView>::empty());
    }
    push_use_paths(source, &node.children[argument], &prefix, &mut paths);
    let ghost found = use_paths(source@, node@.children[argument as int], Seq::empty());
    proof {
        assert(use_path_views(paths@) =~= found);
    }
    let mut i: usize = 0;
    while i < paths.len()
        invariant
            i <= paths.len(),
            found == use_path_views(paths@),
            reexport_views(out@) == start + reexports_from(
                texts(current@),
                visibility,
                found,
                i as nat,
            ),
        decreases paths.len() - i,
    {
        proof {
            assert(found[i as int] == paths@[i as int]@);
        }
        match resolve_path(current, &paths[i].segments) {
            Some(absolute) => {
                if absolute.len() > 0 {
                    let last = absolute.len() - 1;
                    let source_name = absolute[last].clone();
                    let exported_name = match &paths[i].alias {
                        Some(alias) => alias.clone(),
                        None => absolute[last].clone(),
                    };
                    let mut module_segments = absolute;
                    module_segments.pop();
                    let edge = ReExport {
                        module: join_texts(current, "::"),
                        source_module: join_texts(&module_segments, "::"),
                        source_name,
                        exported_name,
                        visibility,
                    };
                    let ghost before = out@;
                    proof {
                        assert(texts(module_segments@) =~= texts(absolute@).drop_last());
                        assert(texts(absolute@).last() == absolute@[last as int]@);
                        assert(Some(edge@) == reexport_of(texts(current@), visibility, found[i as int]));
                    }
                    out.push(edge);
                    proof {
                        lemma_reexport_views_push(before, edge);
                    }
                }
            },
            None => {},
        }
        proof {
            assert(reexport_views(out@) =~= start + reexports_from(
                texts(current@),
                visibility,
                found,
                (i + 1) as nat,
            ));
        }
        i += 1;
    }
}

} // verus!

//! Renders package metadata and namespaces as the final document.

use vstd::prelude::*;
use vstd::string::*;
use crate::analysers::Analyser;
use crate::error::LaibraryError;
use crate::text::{push_text, trim_text, trimmed};
use crate::types::{Namespace, NamespaceView, PackageMetadata, PackageMetadataView, namespace_views};

verus! {

/// The element that holds one namespace: its name in the opening tag, then
/// its body on lines of its own.
pub open spec fn namespace_block(name: Seq<char>, body: Seq<char>) -> Seq<char> {
    "        <namespace name=\""@ + name + "\">\n"@ + body + "\n        </namespace>\n"@
}

/// The blocks of the first `count` namespaces, one after the other.
pub open spec fn namespace_blocks(
    namespaces: Seq<NamespaceView>,
    bodies: Seq<Seq<char>>,
    count: nat,
) -> Seq<char>
    decreases count,
{
    if count == 0 || count > namespaces.len() || count > bodies.len() {
        Seq::empty()
    } else {
        namespace_blocks(namespaces, bodies, (count - 1) as nat) + namespace_block(
            namespaces[count - 1].name,
            bodies[count - 1],
        )
    }
}

/// Everything before the first namespace: the opening tag with name and
/// version, the trimmed documentation, and the start of the api section.
pub open spec fn library_head(metadata: PackageMetadataView) -> Seq<char> {
    "<library name=\""@ + metadata.name + "\" version=\""@ + metadata.version
        + "\">\n    <documentation>\n"@ + trimmed(metadata.documentation)
        + "\n    </documentation>\n    <api>\n"@
}

/// Everything after the last namespace.
pub open spec fn library_tail() -> Seq<char> {
    "    </api>\n</library>"@
}

/// How many namespaces have a body.
pub open spec fn rendered_count(namespaces: Seq<NamespaceView>, bodies: Seq<Seq<char>>) -> nat {
    if namespaces.len() <= bodies.len() {
        namespaces.len()
    } else {
        bodies.len()
    }
}

/// The whole document for a package, given the body of each namespace. A
/// namespace without a body is left out.
pub open spec fn library_text(
    metadata: PackageMetadataView,
    namespaces: Seq<NamespaceView>,
    bodies: Seq<Seq<char>>,
) -> Seq<char> {
    library_head(metadata) + namespace_blocks(
        namespaces,
        bodies,
        rendered_count(namespaces, bodies),
    ) + library_tail()
}

/// Writes the document for `metadata` and `namespaces`, where `bodies[i]` is
/// the rendered body of `namespaces[i]`. Namespaces appear in the order given;
/// no text is escaped.
pub fn render_library(
    metadata: &PackageMetadata,
    namespaces: &[Namespace],
    bodies: &Vec<String>,
) -> (text: String)
    ensures
        text@ == library_text(
            metadata@,
            namespace_views(namespaces@),
            crate::text::texts(bodies@),
        ),
{
    let ghost views = namespace_views(namespaces@);
    let ghost parts = crate::text::texts(bodies@);
    let mut text = String::new();
    push_text(&mut text, "<library name=\"");
    push_text(&mut text, metadata.name.as_str());
    push_text(&mut text, "\" version=\"");
    push_text(&mut text, metadata.version.as_str());
    push_text(&mut text, "\">\n    <documentation>\n");
    push_text(&mut text, trim_text(metadata.documentation.as_str()));
    push_text(&mut text, "\n    </documentation>\n    <api>\n");
    assert(text@ =~= library_head(metadata@));
    let count = if namespaces.len() <= bodies.len() {
        namespaces.len()
    } else {
        bodies.len()
    };
    let mut i: usize = 0;
    while i < count
        invariant
            i <= count,
            count == rendered_count(views, parts),
            views == namespace_views(namespaces@),
            parts == crate::text::texts(bodies@),
            text@ == library_head(metadata@) + namespace_blocks(views, parts, i as nat),
        decreases count - i,
    {
        let ghost before = text@;
        push_text(&mut text, "        <namespace name=\"");
        push_text(&mut text, namespaces[i].name.as_str());
        push_text(&mut text, "\">\n");
        push_text(&mut text, bodies[i].as_str());
        push_text(&mut text, "\n        </namespace>\n");
        proof {
            assert(views[i as int].name == namespaces@[i as int].name@);
            assert(parts[i as int] == bodies@[i as int]@);
            assert(text@ =~= before + namespace_block(views[i as int].name, parts[i as int]));
            assert(namespace_blocks(views, parts, (i + 1) as nat) == namespace_blocks(
                views,
                parts,
                i as nat,
            ) + namespace_block(views[i as int].name, parts[i as int]));
            assert(text@ =~= library_head(metadata@) + namespace_blocks(
                views,
                parts,
                (i + 1) as nat,
            ));
        }
        i += 1;
    }
    push_text(&mut text, "    </api>\n</library>");
    text
}

/// Renders the document for a package: the body of each namespace comes from
/// `analyser`, asked in order, and the first failure ends the rendering with
/// that error.
///
/// Without namespaces the analyser is never asked and the document is the
/// head followed by the tail. Otherwise a document that came back holds, for
/// each namespace, a body that the analyser returned for it; an error that
/// came back is one that the analyser returned for a namespace after it had
/// rendered all the earlier ones.
pub fn format_library_context<A: Analyser>(
    metadata: &PackageMetadata,
    namespaces: &[Namespace],
    analyser: &A,
) -> (rendered: Result<String, LaibraryError>)
    ensures
        namespaces@.len() == 0 ==> rendered is Ok,
        match rendered {
            Ok(text) => exists|bodies: Seq<String>|
                {
                    &&& bodies.len() == namespaces@.len()
                    &&& forall|i: int|
                        0 <= i < bodies.len() ==> call_ensures(
                            A::format_namespace,
                            (analyser, &namespaces@[i]),
                            Ok(#[trigger] bodies[i]),
                        )
                    &&& text@ == library_text(
                        metadata@,
                        namespace_views(namespaces@),
                        crate::text::texts(bodies),
                    )
                },
            Err(error) => exists|failed: int, bodies: Seq<String>|
                {
                    &&& 0 <= failed < namespaces@.len()
                    &&& bodies.len() == failed
                    &&& forall|i: int|
                        0 <= i < failed ==> call_ensures(
                            A::format_namespace,
                            (analyser, &namespaces@[i]),
                            Ok(#[trigger] bodies[i]),
                        )
                    &&& call_ensures(
                        A::format_namespace,
                        (analyser, &namespaces@[failed]),
                        Err(error),
                    )
                },
        },
{
    let mut bodies: Vec<String> = Vec::new();
    let mut i: usize = 0;
    while i < namespaces.len()
        invariant
            i <= namespaces.len(),
            bodies.len() == i,
            forall|k: int|
                0 <= k < i ==> call_ensures(
                    A::format_namespace,
                    (analyser, &namespaces@[k]),
                    Ok(#[trigger] bodies@[k]),
                ),
        decreases namespaces.len() - i,
    {
        match analyser.format_namespace(&namespaces[i]) {
            Ok(body) => {
                bodies.push(body);
            },
            Err(error) => {
                proof {
                    let ghost done = bodies@;
                    assert(call_ensures(
                        A::format_namespace,
                        (analyser, &namespaces@[i as int]),
                        Err(error),
                    ));
                }
                return Err(error);
            },
        }
        i += 1;
    }
    let text = render_library(metadata, namespaces, &bodies);
    Ok(text)
}

} // verus!

//! Groups resolved symbols into namespaces, one per module path.

use vstd::prelude::*;
use vstd::string::*;
use crate::text::push_text;
use crate::types::{Namespace, NamespaceView, Symbol, SymbolView, namespace_views, symbol_views};
use super::symbol_resolution::{
    ResolvedSymbolView,
    SymbolResolution,
    SymbolResolutionView,
    doc_comment_of,
    doc_views,
    find_doc_comment,
};

verus! {

/// The fully qualified name of the namespace for `module`: the crate name for
/// the root, else the crate name, `::` and the module path.
pub open spec fn namespace_name(crate_name: Seq<char>, module: Seq<char>) -> Seq<char> {
    if module.len() == 0 {
        crate_name
    } else {
        crate_name + "::"@ + module
    }
}

/// One symbol put under one module path.
pub struct Placement {
    pub module: Seq<char>,
    pub symbol: SymbolView,
}

/// The placements that one resolved symbol asks for, in the order of its
/// module paths.
pub open spec fn placed(resolved: ResolvedSymbolView) -> Seq<Placement> {
    Seq::new(
        resolved.modules.len(),
        |j: int| Placement { module: resolved.modules[j], symbol: resolved.symbol },
    )
}

/// All placements of a list of resolved symbols, in order.
pub open spec fn placements(resolved: Seq<ResolvedSymbolView>) -> Seq<Placement>
    decreases resolved.len(),
{
    if resolved.len() == 0 {
        Seq::empty()
    } else {
        placements(resolved.drop_last()) + placed(resolved.last())
    }
}

/// The module paths of `all`, each once, in the order of first appearance.
pub open spec fn distinct_modules(all: Seq<Placement>) -> Seq<Seq<char>>
    decreases all.len(),
{
    if all.len() == 0 {
        Seq::empty()
    } else {
        let before = distinct_modules(all.drop_last());
        if before.contains(all.last().module) {
            before
        } else {
            before.push(all.last().module)
        }
    }
}

/// The symbols that `all` puts under `module`, in order.
pub open spec fn symbols_placed_in(all: Seq<Placement>, module: Seq<char>) -> Seq<SymbolView>
    decreases all.len(),
{
    if all.len() == 0 {
        Seq::empty()
    } else {
        let before = symbols_placed_in(all.drop_last(), module);
        if all.last().module == module {
            before.push(all.last().symbol)
        } else {
            before
        }
    }
}

/// The namespace that `all` gives to `module`.
pub open spec fn namespace_for(
    all: Seq<Placement>,
    docs: Seq<(Seq<char>, Seq<char>)>,
    crate_name: Seq<char>,
    module: Seq<char>,
) -> NamespaceView {
    NamespaceView {
        name: namespace_name(crate_name, module),
        symbols: symbols_placed_in(all, module),
        doc_comment: doc_comment_of(docs, module),
    }
}

/// The namespaces of a resolution: one for each module path that some symbol
/// is visible under, in the order in which the paths first appear, each with
/// the symbols visible under it in the order in which they appear.
pub open spec fn namespaces_of(resolution: SymbolResolutionView, crate_name: Seq<char>) -> Seq<
    NamespaceView,
> {
    let all = placements(resolution.symbols);
    let order = distinct_modules(all);
    Seq::new(
        order.len(),
        |i: int| namespace_for(all, resolution.doc_comments, crate_name, order[i]),
    )
}

/// Two module paths with the same namespace name are the same path.
pub proof fn lemma_namespace_name_injective(crate_name: Seq<char>, a: Seq<char>, b: Seq<char>)
    requires
        namespace_name(crate_name, a) == namespace_name(crate_name, b),
    ensures
        a == b,
{
    let prefix = crate_name + "::"@;
    if a.len() == 0 && b.len() == 0 {
        assert(a =~= b);
    } else if a.len() == 0 {
        assert((prefix + b).len() > crate_name.len());
    } else if b.len() == 0 {
        assert((prefix + a).len() > crate_name.len());
    } else {
        assert((prefix + a).subrange(prefix.len() as int, (prefix + a).len() as int) =~= a);
        assert((prefix + b).subrange(prefix.len() as int, (prefix + b).len() as int) =~= b);
    }
}

/// No module path occurs twice among the distinct module paths.
pub proof fn lemma_distinct_modules_no_duplicates(all: Seq<Placement>)
    ensures
        distinct_modules(all).no_duplicates(),
    decreases all.len(),
{
    if all.len() > 0 {
        lemma_distinct_modules_no_duplicates(all.drop_last());
    }
}

/// A module path is among the distinct module paths exactly when some
/// placement names it.
pub proof fn lemma_distinct_modules_contains(all: Seq<Placement>, module: Seq<char>)
    ensures
        distinct_modules(all).contains(module) <==> exists|k: int|
            0 <= k < all.len() && (#[trigger] all[k]).module == module,
    decreases all.len(),
{
    if all.len() > 0 {
        let front = all.drop_last();
        lemma_distinct_modules_contains(front, module);
        let before = distinct_modules(front);
        if distinct_modules(all).contains(module) {
            if before.contains(module) {
                let k = choose|k: int| 0 <= k < front.len() && (#[trigger] front[k]).module == module;
                assert(all[k] == front[k]);
            } else {
                assert(before.push(all.last().module).contains(module));
                let at = choose|i: int|
                    0 <= i < before.push(all.last().module).len() && before.push(
                        all.last().module,
                    )[i] == module;
                if at < before.len() {
                    assert(before[at] == module);
                }
                assert(all[all.len() - 1].module == module);
            }
        }
        if exists|k: int| 0 <= k < all.len() && (#[trigger] all[k]).module == module {
            let k = choose|k: int| 0 <= k < all.len() && (#[trigger] all[k]).module == module;
            if k < front.len() {
                assert(front[k] == all[k]);
                assert(before.contains(module));
                if !before.contains(all.last().module) {
                    let at = choose|i: int| 0 <= i < before.len() && before[i] == module;
                    assert(before.push(all.last().module)[at] == module);
                }
            } else {
                if !before.contains(all.last().module) {
                    assert(before.push(all.last().module)[before.len() as int] == module);
                }
            }
        }
    }
}

/// A symbol is placed in `module` exactly when some placement puts it there.
pub proof fn lemma_symbols_placed_in_contains(
    all: Seq<Placement>,
    module: Seq<char>,
    symbol: SymbolView,
)
    ensures
        symbols_placed_in(all, module).contains(symbol) <==> exists|k: int|
            0 <= k < all.len() && #[trigger] all[k] == (Placement { module, symbol }),
    decreases all.len(),
{
    if all.len() > 0 {
        let front = all.drop_last();
        lemma_symbols_placed_in_contains(front, module, symbol);
        let before = symbols_placed_in(front, module);
        let wanted = Placement { module, symbol };
        if symbols_placed_in(all, module).contains(symbol) {
            if before.contains(symbol) {
                let k = choose|k: int| 0 <= k < front.len() && #[trigger] front[k] == wanted;
                assert(all[k] == wanted);
            } else {
                let grown = symbols_placed_in(all, module);
                let at = choose|i: int| 0 <= i < grown.len() && grown[i] == symbol;
                if all.last().module == module {
                    if at < before.len() {
                        assert(before[at] == symbol);
                    }
                    assert(all[all.len() - 1] == wanted);
                }
            }
        }
        if exists|k: int| 0 <= k < all.len() && #[trigger] all[k] == wanted {
            let k = choose|k: int| 0 <= k < all.len() && #[trigger] all[k] == wanted;
            if k < front.len() {
                assert(front[k] == wanted);
                let at = choose|i: int| 0 <= i < before.len() && before[i] == symbol;
                if all.last().module == module {
                    assert(before.push(all.last().symbol)[at] == symbol);
                }
            } else {
                assert(before.push(symbol)[before.len() as int] == symbol);
            }
        }
    }
}

/// A module path that no placement names holds no symbols.
pub proof fn lemma_unseen_module_is_empty(all: Seq<Placement>, module: Seq<char>)
    requires
        !distinct_modules(all).contains(module),
    ensures
        symbols_placed_in(all, module).len() == 0,
    decreases all.len(),
{
    if all.len() > 0 {
        let front = all.drop_last();
        let before = distinct_modules(front);
        if before.contains(all.last().module) {
            lemma_unseen_module_is_empty(front, module);
        } else {
            assert(before.push(all.last().module)[before.len() as int] == all.last().module);
            if before.contains(module) {
                let at = choose|i: int| 0 <= i < before.len() && before[i] == module;
                assert(before.push(all.last().module)[at] == module);
            }
            lemma_unseen_module_is_empty(front, module);
        }
    }
}

/// A module path that some placement names holds at least one symbol.
pub proof fn lemma_seen_module_is_inhabited(all: Seq<Placement>, module: Seq<char>)
    requires
        distinct_modules(all).contains(module),
    ensures
        symbols_placed_in(all, module).len() > 0,
    decreases all.len(),
{
    if all.len() > 0 {
        let front = all.drop_last();
        let before = distinct_modules(front);
        if all.last().module != module {
            if !before.contains(all.last().module) {
                let grown = before.push(all.last().module);
                let at = choose|i: int| 0 <= i < grown.len() && grown[i] == module;
                assert(at < before.len());
                assert(before[at] == module);
            }
            lemma_seen_module_is_inhabited(front, module);
        }
    }
}

/// The placements of a longer list end with those of its last element.
pub proof fn lemma_placements_take(resolved: Seq<ResolvedSymbolView>, count: int)
    requires
        0 <= count < resolved.len(),
    ensures
        placements(resolved.take(count + 1)) == placements(resolved.take(count)) + placed(
            resolved[count],
        ),
{
    assert(resolved.take(count + 1).drop_last() =~= resolved.take(count));
}

/// Whether `resolved` makes `symbol` visible under `module`.
pub open spec fn visible_under(
    resolved: Seq<ResolvedSymbolView>,
    module: Seq<char>,
    symbol: SymbolView,
) -> bool {
    exists|a: int, b: int|
        0 <= a < resolved.len() && 0 <= b < resolved[a].modules.len() && resolved[a].symbol
            == symbol && #[trigger] resolved[a].modules[b] == module
}

/// Whether `resolved` makes some symbol visible under `module`.
pub open spec fn module_in_use(resolved: Seq<ResolvedSymbolView>, module: Seq<char>) -> bool {
    exists|a: int, b: int|
        0 <= a < resolved.len() && 0 <= b < resolved[a].modules.len()
            && #[trigger] resolved[a].modules[b] == module
}

/// Whether the namespace called `name` is among `namespaces` and holds
/// `symbol`.
pub open spec fn namespace_holds(
    namespaces: Seq<NamespaceView>,
    name: Seq<char>,
    symbol: SymbolView,
) -> bool {
    exists|i: int|
        0 <= i < namespaces.len() && (#[trigger] namespaces[i]).name == name
            && namespaces[i].symbols.contains(symbol)
}

/// The placements of a resolution are its pairs of visible symbol and module
/// path.
pub proof fn lemma_placements_contains(
    resolved: Seq<ResolvedSymbolView>,
    module: Seq<char>,
    symbol: SymbolView,
)
    ensures
        visible_under(resolved, module, symbol) <==> exists|k: int|
            0 <= k < placements(resolved).len() && #[trigger] placements(resolved)[k] == (Placement {
                module,
                symbol,
            }),
    decreases resolved.len(),
{
    let wanted = Placement { module, symbol };
    if resolved.len() > 0 {
        let front = resolved.drop_last();
        let last = resolved.last();
        lemma_placements_contains(front, module, symbol);
        let all = placements(resolved);
        if visible_under(resolved, module, symbol) {
            let (a, b) = choose|a: int, b: int|
                0 <= a < resolved.len() && 0 <= b < resolved[a].modules.len() && resolved[a].symbol
                    == symbol && #[trigger] resolved[a].modules[b] == module;
            if a < front.len() {
                assert(front[a] == resolved[a]);
                assert(front[a].modules[b] == module);
                assert(visible_under(front, module, symbol));
                let k = choose|k: int|
                    0 <= k < placements(front).len() && #[trigger] placements(front)[k] == wanted;
                assert(all[k] == wanted);
            } else {
                assert(placed(last)[b] == wanted);
                assert(all[placements(front).len() + b] == wanted);
            }
        }
        if exists|k: int| 0 <= k < all.len() && #[trigger] all[k] == wanted {
            let k = choose|k: int| 0 <= k < all.len() && #[trigger] all[k] == wanted;
            if k < placements(front).len() {
                assert(placements(front)[k] == wanted);
                assert(visible_under(front, module, symbol));
                let (a, b) = choose|a: int, b: int|
                    0 <= a < front.len() && 0 <= b < front[a].modules.len() && front[a].symbol
                        == symbol && #[trigger] front[a].modules[b] == module;
                assert(resolved[a] == front[a]);
                assert(resolved[a].modules[b] == module);
            } else {
                let b = k - placements(front).len();
                assert(placed(last)[b] == wanted);
                assert(resolved[resolved.len() - 1].modules[b] == module);
            }
        }
    } else {
        assert(placements(resolved).len() == 0);
    }
}

/// The modules that the placements of a resolution name are the modules
/// under which it makes some symbol visible.
pub proof fn lemma_placements_modules(resolved: Seq<ResolvedSymbolView>, module: Seq<char>)
    ensures
        module_in_use(resolved, module) <==> exists|k: int|
            0 <= k < placements(resolved).len() && (#[trigger] placements(resolved)[k]).module
                == module,
{
    let all = placements(resolved);
    if module_in_use(resolved, module) {
        let (a, b) = choose|a: int, b: int|
            0 <= a < resolved.len() && 0 <= b < resolved[a].modules.len()
                && #[trigger] resolved[a].modules[b] == module;
        let symbol = resolved[a].symbol;
        assert(visible_under(resolved, module, symbol));
        lemma_placements_contains(resolved, module, symbol);
        let k = choose|k: int|
            0 <= k < all.len() && #[trigger] all[k] == (Placement { module, symbol });
        assert(all[k].module == module);
    }
    if exists|k: int| 0 <= k < all.len() && (#[trigger] all[k]).module == module {
        let k = choose|k: int| 0 <= k < all.len() && (#[trigger] all[k]).module == module;
        let symbol = all[k].symbol;
        assert(all[k] == (Placement { module, symbol }));
        lemma_placements_contains(resolved, module, symbol);
        assert(visible_under(resolved, module, symbol));
    }
}

/// A symbol stands in the namespace of a module exactly when the resolution
/// makes it visible under that module.
pub proof fn law_namespace_membership(
    resolution: SymbolResolutionView,
    crate_name: Seq<char>,
    module: Seq<char>,
    symbol: SymbolView,
)
    ensures
        namespace_holds(
            namespaces_of(resolution, crate_name),
            namespace_name(crate_name, module),
            symbol,
        ) <==> visible_under(resolution.symbols, module, symbol),
{
    let all = placements(resolution.symbols);
    let order = distinct_modules(all);
    let namespaces = namespaces_of(resolution, crate_name);
    let name = namespace_name(crate_name, module);
    lemma_placements_contains(resolution.symbols, module, symbol);
    lemma_symbols_placed_in_contains(all, module, symbol);
    lemma_distinct_modules_contains(all, module);
    if namespace_holds(namespaces, name, symbol) {
        let i = choose|i: int|
            0 <= i < namespaces.len() && (#[trigger] namespaces[i]).name == name
                && namespaces[i].symbols.contains(symbol);
        lemma_namespace_name_injective(crate_name, order[i], module);
    }
    if visible_under(resolution.symbols, module, symbol) {
        let k = choose|k: int|
            0 <= k < all.len() && #[trigger] all[k] == (Placement { module, symbol });
        assert(all[k].module == module);
        let i = choose|i: int| 0 <= i < order.len() && order[i] == module;
        assert(namespaces[i].name == name);
        assert(namespaces[i].symbols.contains(symbol));
    }
}

/// Every namespace holds at least one symbol, and no two namespaces have the
/// same name.
pub proof fn law_namespaces_inhabited_and_unique(
    resolution: SymbolResolutionView,
    crate_name: Seq<char>,
)
    ensures
        forall|i: int|
            0 <= i < namespaces_of(resolution, crate_name).len() ==> (#[trigger] namespaces_of(
                resolution,
                crate_name,
            )[i]).symbols.len() > 0,
        forall|i: int, j: int|
            0 <= i < j < namespaces_of(resolution, crate_name).len() ==> (#[trigger] namespaces_of(
                resolution,
                crate_name,
            )[i]).name != (#[trigger] namespaces_of(resolution, crate_name)[j]).name,
{
    let all = placements(resolution.symbols);
    let order = distinct_modules(all);
    let namespaces = namespaces_of(resolution, crate_name);
    lemma_distinct_modules_no_duplicates(all);
    assert forall|i: int| 0 <= i < namespaces.len() implies (#[trigger] namespaces[i]).symbols.len()
        > 0 by {
        assert(order.contains(order[i]));
        lemma_seen_module_is_inhabited(all, order[i]);
    }
    assert forall|i: int, j: int| 0 <= i < j < namespaces.len() implies (
    #[trigger] namespaces[i]).name != (#[trigger] namespaces[j]).name by {
        if namespaces[i].name == namespaces[j].name {
            lemma_namespace_name_injective(crate_name, order[i], order[j]);
        }
    }
}

/// A module under which the resolution makes no symbol visible has no
/// namespace, whether or not a doc comment is recorded for it.
pub proof fn law_unused_module_has_no_namespace(
    resolution: SymbolResolutionView,
    crate_name: Seq<char>,
    module: Seq<char>,
)
    requires
        !module_in_use(resolution.symbols, module),
    ensures
        forall|i: int|
            0 <= i < namespaces_of(resolution, crate_name).len() ==> (#[trigger] namespaces_of(
                resolution,
                crate_name,
            )[i]).name != namespace_name(crate_name, module),
{
    let all = placements(resolution.symbols);
    let order = distinct_modules(all);
    let namespaces = namespaces_of(resolution, crate_name);
    lemma_placements_modules(resolution.symbols, module);
    lemma_distinct_modules_contains(all, module);
    assert forall|i: int| 0 <= i < namespaces.len() implies (#[trigger] namespaces[i]).name
        != namespace_name(crate_name, module) by {
        if namespaces[i].name == namespace_name(crate_name, module) {
            lemma_namespace_name_injective(crate_name, order[i], module);
            assert(order.contains(module));
        }
    }
}

/// Two resolutions that make the same symbols visible under the same
/// modules, in whatever order they list them, give namespaces with the same
/// members.
pub proof fn law_namespaces_ignore_order(
    first: SymbolResolutionView,
    second: SymbolResolutionView,
    crate_name: Seq<char>,
)
    requires
        forall|module: Seq<char>, symbol: SymbolView|
            visible_under(first.symbols, module, symbol) <==> visible_under(
                second.symbols,
                module,
                symbol,
            ),
    ensures
        forall|module: Seq<char>, symbol: SymbolView|
            namespace_holds(
                namespaces_of(first, crate_name),
                namespace_name(crate_name, module),
                symbol,
            ) <==> namespace_holds(
                namespaces_of(second, crate_name),
                namespace_name(crate_name, module),
                symbol,
            ),
{
    assert forall|module: Seq<char>, symbol: SymbolView|
        namespace_holds(
            namespaces_of(first, crate_name),
            namespace_name(crate_name, module),
            symbol,
        ) <==> namespace_holds(
            namespaces_of(second, crate_name),
            namespace_name(crate_name, module),
            symbol,
        ) by {
        law_namespace_membership(first, crate_name, module, symbol);
        law_namespace_membership(second, crate_name, module, symbol);
    }
}

/// The name of the namespace for `module` in the crate `crate_name`.
pub fn qualified_name(crate_name: &str, module: &str) -> (name: String)
    ensures
        name@ == namespace_name(crate_name@, module@),
{
    let mut name = String::new();
    push_text(&mut name, crate_name);
    if module.unicode_len() > 0 {
        push_text(&mut name, "::");
        push_text(&mut name, module);
    }
    assert(name@ =~= namespace_name(crate_name@, module@));
    name
}

/// Whether `namespaces` holds, in order, the namespaces that `all` gives to
/// its distinct module paths.
pub open spec fn holds_namespaces_of(
    namespaces: Seq<Namespace>,
    all: Seq<Placement>,
    docs: Seq<(Seq<char>, Seq<char>)>,
    crate_name: Seq<char>,
) -> bool {
    &&& namespaces.len() == distinct_modules(all).len()
    &&& forall|i: int|
        0 <= i < namespaces.len() ==> (#[trigger] namespaces[i])@ == namespace_for(
            all,
            docs,
            crate_name,
            distinct_modules(all)[i],
        )
}

/// Puts a copy of `symbol` under `module`: into the namespace of that module
/// if there is one already, else into a new namespace at the end.
fn place_symbol(
    namespaces: &mut Vec<Namespace>,
    symbol: &Symbol,
    module: &str,
    docs: &Vec<(String, String)>,
    crate_name: &str,
    Ghost(all): Ghost<Seq<Placement>>,
)
    requires
        holds_namespaces_of(old(namespaces)@, all, doc_views(docs@), crate_name@),
    ensures
        holds_namespaces_of(
            final(namespaces)@,
            all.push(Placement { module: module@, symbol: symbol@ }),
            doc_views(docs@),
            crate_name@,
        ),
{
    let ghost order = distinct_modules(all);
    let ghost placement = Placement { module: module@, symbol: symbol@ };
    let ghost grown = all.push(placement);
    proof {
        assert(grown.drop_last() =~= all);
        lemma_distinct_modules_no_duplicates(all);
    }
    let name = qualified_name(crate_name, module);
    let mut i: usize = 0;
    while i < namespaces.len()
        invariant
            i <= namespaces.len(),
            namespaces@ == old(namespaces)@,
            order == distinct_modules(all),
            order.no_duplicates(),
            grown == all.push(placement),
            grown.drop_last() == all,
            placement == (Placement { module: module@, symbol: symbol@ }),
            holds_namespaces_of(namespaces@, all, doc_views(docs@), crate_name@),
            name@ == namespace_name(crate_name@, module@),
            forall|k: int| 0 <= k < i ==> order[k] != module@,
        decreases namespaces.len() - i,
    {
        proof {
            assert(namespaces@[i as int]@.name == namespace_name(crate_name@, order[i as int]));
        }
        if namespaces[i].name.as_str().eq(name.as_str()) {
            proof {
                lemma_namespace_name_injective(crate_name@, order[i as int], module@);
                assert(order.contains(module@));
            }
            let ghost before = namespaces@;
            let ghost held = namespaces@[i as int].symbols@;
            namespaces[i].symbols.push(symbol.clone());
            proof {
                crate::types::lemma_symbol_views_push(held, namespaces@[i as int].symbols@.last());
                assert(namespaces@[i as int].symbols@ =~= held.push(
                    namespaces@[i as int].symbols@.last(),
                ));
                assert(before[i as int]@ == namespace_for(
                    all,
                    doc_views(docs@),
                    crate_name@,
                    order[i as int],
                ));
                assert forall|k: int| 0 <= k < namespaces@.len() implies (
                #[trigger] namespaces@[k])@ == namespace_for(
                    grown,
                    doc_views(docs@),
                    crate_name@,
                    distinct_modules(grown)[k],
                ) by {
                    if k != i {
                        assert(namespaces@[k] == before[k]);
                        assert(order[k] != order[i as int]);
                    }
                }
            }
            return ;
        }
        proof {
            if order[i as int] == module@ {
                assert(namespace_name(crate_name@, order[i as int]) == name@);
            }
        }
        i += 1;
    }
    proof {
        assert(!order.contains(module@));
        lemma_unseen_module_is_empty(all, module@);
    }
    let mut symbols: Vec<Symbol> = Vec::new();
    symbols.push(symbol.clone());
    let doc_comment = find_doc_comment(docs, module);
    let ghost before = namespaces@;
    namespaces.push(Namespace { name, symbols, doc_comment });
    proof {
        assert(symbol_views(namespaces@.last().symbols@) =~= Seq::<SymbolView>::empty().push(
            symbol@,
        ));
        assert(symbols_placed_in(grown, module@) =~= Seq::<SymbolView>::empty().push(symbol@));
        assert forall|k: int| 0 <= k < namespaces@.len() implies (#[trigger] namespaces@[k])@
            == namespace_for(grown, doc_views(docs@), crate_name@, distinct_modules(grown)[k]) by {
            if k < before.len() {
                assert(namespaces@[k] == before[k]);
                assert(order[k] != module@);
            }
        }
    }
}

/// Builds the namespaces of a resolution for the crate `crate_name`.
///
/// There is one namespace for each module path under which some symbol is
/// visible, and none for any other module. Namespaces come in the order in
/// which their module paths first appear in the resolution; each holds a copy
/// of every symbol visible under its path, in order of appearance, and the
/// doc comment recorded for the path. Symbols of the same name under one
/// path are all kept.
pub fn construct_namespaces(symbol_resolution: SymbolResolution, crate_name: &str) -> (namespaces:
    Vec<Namespace>)
    ensures
        namespace_views(namespaces@) == namespaces_of(symbol_resolution@, crate_name@),
{
    let ghost resolved = symbol_resolution@.symbols;
    let ghost docs = symbol_resolution@.doc_comments;
    let mut namespaces: Vec<Namespace> = Vec::new();
    let mut a: usize = 0;
    while a < symbol_resolution.symbols.len()
        invariant
            a <= symbol_resolution.symbols.len(),
            resolved == symbol_resolution@.symbols,
            docs == doc_views(symbol_resolution.doc_comments@),
            holds_namespaces_of(namespaces@, placements(resolved.take(a as int)), docs, crate_name@),
        decreases symbol_resolution.symbols.len() - a,
    {
        let entry = &symbol_resolution.symbols[a];
        let ghost done = placements(resolved.take(a as int));
        let mut b: usize = 0;
        proof {
            assert(resolved[a as int] == entry@);
            assert(placed(entry@).take(0) =~= Seq::<Placement>::empty());
            assert(done + placed(entry@).take(0) =~= done);
        }
        while b < entry.modules.len()
            invariant
                b <= entry.modules.len(),
                entry == symbol_resolution.symbols@[a as int],
                docs == doc_views(symbol_resolution.doc_comments@),
                holds_namespaces_of(
                    namespaces@,
                    done + placed(entry@).take(b as int),
                    docs,
                    crate_name@,
                ),
            decreases entry.modules.len() - b,
        {
            place_symbol(
                &mut namespaces,
                &entry.symbol,
                entry.modules[b].as_str(),
                &symbol_resolution.doc_comments,
                crate_name,
                Ghost(done + placed(entry@).take(b as int)),
            );
            proof {
                let next = Placement { module: entry.modules@[b as int]@, symbol: entry.symbol@ };
                assert(placed(entry@)[b as int] == next);
                assert((done + placed(entry@).take(b as int)).push(next) =~= done + placed(
                    entry@,
                ).take(b as int + 1));
            }
            b += 1;
        }
        proof {
            assert(placed(entry@).take(entry.modules@.len() as int) =~= placed(entry@));
            lemma_placements_take(resolved, a as int);
        }
        a += 1;
    }
    proof {
        assert(resolved.take(resolved.len() as int) =~= resolved);
        assert(namespace_views(namespaces@) =~= namespaces_of(symbol_resolution@, crate_name@));
    }
    namespaces
}

} // verus!

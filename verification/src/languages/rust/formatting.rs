//! How a namespace of Rust symbols is written out.

use vstd::prelude::*;
use vstd::string::*;
use crate::text::{joined, lemma_joined_take, push_text};
use crate::types::{Namespace, SymbolView};

verus! {

/// The source texts of `symbols`, in order.
pub open spec fn source_texts(symbols: Seq<SymbolView>) -> Seq<Seq<char>> {
    symbols.map_values(|s: SymbolView| s.source_code)
}

/// What separates two symbols in a rendered module: one empty line.
pub open spec fn symbol_separator() -> Seq<char> {
    "\n\n"@
}

/// The source texts of the symbols of `module`, in order, with an empty line
/// between neighbours.
pub fn format_module(module: &Namespace) -> (text: String)
    ensures
        text@ == joined(source_texts(module@.symbols), symbol_separator()),
{
    let mut text = String::new();
    let ghost parts = source_texts(module@.symbols);
    let mut i: usize = 0;
    while i < module.symbols.len()
        invariant
            i <= module.symbols.len(),
            parts == source_texts(module@.symbols),
            parts.len() == module.symbols.len(),
            text@ == joined(parts.take(i as int), symbol_separator()),
        decreases module.symbols.len() - i,
    {
        if i > 0 {
            push_text(&mut text, "\n\n");
        }
        push_text(&mut text, module.symbols[i].source_code.as_str());
        proof {
            lemma_joined_take(parts, symbol_separator(), i as int);
            assert(parts[i as int] == module.symbols@[i as int].source_code@);
            if i == 0 {
                assert(parts.take(0).len() == 0);
                assert(text@ =~= parts[0]);
            }
        }
        i += 1;
    }
    proof {
        assert(parts.take(parts.len() as int) =~= parts);
    }
    text
}

} // verus!

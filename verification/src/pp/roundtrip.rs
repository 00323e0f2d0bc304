//! Printing and parsing fit together.

use crate::pp::built::lemma_built_program;
use crate::grammar::g_top;
use crate::pp::vals_text;
use crate::pp::reparse::lemma_program;
use vstd::prelude::*;

verus! {

/// Round trip: where a source text parses to a program, the printed text
/// of that program parses to the same program, slots and all, from the
/// same first free slot.  The two texts may differ in white space, in
/// parentheses and in how numbers and function bindings are written.
pub proof fn printed_program_parses_back(s: Seq<u8>, next: nat)
    requires
        g_top(s, next) is Ok,
    ensures
        g_top(vals_text(g_top(s, next)->Ok_0.0, g_top(s, next)->Ok_0.0.len()), next) == g_top(
            s,
            next,
        ),
{
    lemma_built_program(s, next);
    lemma_program(g_top(s, next)->Ok_0.0, next);
}

} // verus!

//! The command translator: an ordered, purely lexical substring-substitution
//! pass that rewrites the source shell's control-flow operators into the
//! destination shell's syntax.
//!
//! The pass is deliberately not grammar-aware: occurrences of the operators
//! inside quotes or comments are rewritten too.  That is a documented
//! limitation of the naive translation, not a defect.

use vstd::prelude::*;
use crate::text::{
    chars_of,
    contains_sub,
    lemma_contains_inner,
    lemma_replaced_absent,
    match_at,
    replace_all,
    replaced,
    string_of,
};

verus! {

/// The four ordered substitution passes: the spaced conjunction operator is
/// first collapsed to its unspaced form, which is then rewritten into the
/// destination syntax; the disjunction operator is treated the same way.
/// Collapsing first makes the spaced and unspaced source forms come out
/// identically.
pub open spec fn spec_translate(s: Seq<char>) -> Seq<char> {
    replaced(
        replaced(replaced(replaced(s, " && "@, "&&"@), "&&"@, "; and "@), " || "@, "||"@),
        "||"@,
        "; or "@,
    )
}

/// Rewrites the control-flow operators of `cmd` into the destination
/// shell's syntax.
pub fn translate(cmd: &str) -> (r: String)
    ensures
        r@ == spec_translate(cmd@),
{
    proof {
        reveal_strlit(" && ");
        reveal_strlit("&&");
        reveal_strlit(" || ");
        reveal_strlit("||");
    }
    let cs = chars_of(cmd);
    let a = replace_all(&cs, &chars_of(" && "), &chars_of("&&"));
    let b = replace_all(&a, &chars_of("&&"), &chars_of("; and "));
    let c = replace_all(&b, &chars_of(" || "), &chars_of("||"));
    let d = replace_all(&c, &chars_of("||"), &chars_of("; or "));
    string_of(&d)
}

/// A command containing neither operator is translated to itself: the pass
/// is the identity on commands without `&&` and without `||`.
pub proof fn lemma_translate_identity(s: Seq<char>)
    requires
        !contains_sub(s, "&&"@),
        !contains_sub(s, "||"@),
    ensures
        spec_translate(s) == s,
{
    reveal_strlit(" && ");
    reveal_strlit("&&");
    reveal_strlit(" || ");
    reveal_strlit("||");
    assert(" && "@.subrange(1, 3) =~= "&&"@);
    if contains_sub(s, " && "@) {
        lemma_contains_inner(s, " && "@, "&&"@, 1);
    }
    lemma_replaced_absent(s, " && "@, "&&"@);
    lemma_replaced_absent(s, "&&"@, "; and "@);
    assert(" || "@.subrange(1, 3) =~= "||"@);
    if contains_sub(s, " || "@) {
        lemma_contains_inner(s, " || "@, "||"@, 1);
    }
    lemma_replaced_absent(s, " || "@, "||"@);
    lemma_replaced_absent(s, "||"@, "; or "@);
}

} // verus!

//! The balance checker: does every ')' match an earlier '(' and is every
//! '(' closed again?

use vstd::prelude::*;

verus! {

/// How one byte moves the nesting depth: '(' opens, ')' closes, everything
/// else leaves it alone.
pub open spec fn depth_change(b: u8) -> int {
    if b == crate::symbols::OPEN_PAREN {
        1
    } else if b == crate::symbols::CLOSE_PAREN {
        -1
    } else {
        0
    }
}

/// The nesting depth after the first `j` bytes of `s`.
pub open spec fn paren_depth(s: Seq<u8>, j: int) -> int
    decreases j,
{
    if j <= 0 {
        0
    } else {
        paren_depth(s, j - 1) + depth_change(s[j - 1])
    }
}

/// Balance of the suffix of `s` from `i` on, entered at nesting depth
/// `depth`: every ')' finds an open '(' and the depth returns to zero.
pub open spec fn spec_balanced_from(s: Seq<u8>, i: int, depth: int) -> bool
    decreases s.len() - i,
{
    if i < 0 || i >= s.len() {
        depth == 0
    } else if s[i] == crate::symbols::OPEN_PAREN {
        spec_balanced_from(s, i + 1, depth + 1)
    } else if s[i] == crate::symbols::CLOSE_PAREN {
        depth > 0 && spec_balanced_from(s, i + 1, depth - 1)
    } else {
        spec_balanced_from(s, i + 1, depth)
    }
}

/// An equation is balanced when its parentheses nest: no ')' without an
/// unmatched '(' before it, and no '(' left open at the end.
pub open spec fn spec_balanced(s: Seq<u8>) -> bool {
    spec_balanced_from(s, 0, 0)
}

/// Checks whether the parentheses of an equation are balanced. A pure
/// predicate: any imbalance, a dangling '(' as much as an unmatched ')',
/// returns false.
pub fn parenthesis_check(equation: &[u8]) -> (r: bool)
    ensures
        r == spec_balanced(equation@),
{
    let mut depth: usize = 0;
    let mut i: usize = 0;
    while i < equation.len()
        invariant
            0 <= i <= equation@.len(),
            depth <= i,
            spec_balanced(equation@) == spec_balanced_from(equation@, i as int, depth as int),
        decreases equation@.len() - i,
    {
        let b = equation[i];
        if b == crate::symbols::OPEN_PAREN {
            depth = depth + 1;
        } else if b == crate::symbols::CLOSE_PAREN {
            if depth == 0 {
                return false;
            }
            depth = depth - 1;
        }
        i = i + 1;
    }
    depth == 0
}

/// Helper for the balance characterization: the suffix predicate agrees with
/// the depth profile of the whole equation.
proof fn lemma_balanced_from_depths(s: Seq<u8>, i: int, depth: int)
    requires
        0 <= i <= s.len(),
        depth >= 0,
    ensures
        spec_balanced_from(s, i, depth) <==> {
            &&& depth + paren_depth(s, s.len() as int) - paren_depth(s, i) == 0
            &&& forall|j: int|
                i <= j <= s.len() ==> depth + paren_depth(s, j) - paren_depth(s, i) >= 0
        },
    decreases s.len() - i,
{
    if i == s.len() {
    } else {
        assert(paren_depth(s, i + 1) == paren_depth(s, i) + depth_change(s[i]));
        if s[i] == crate::symbols::OPEN_PAREN {
            lemma_balanced_from_depths(s, i + 1, depth + 1);
        } else if s[i] == crate::symbols::CLOSE_PAREN {
            if depth > 0 {
                lemma_balanced_from_depths(s, i + 1, depth - 1);
            } else {
                assert(depth + paren_depth(s, i + 1) - paren_depth(s, i) == -1);
            }
        } else {
            lemma_balanced_from_depths(s, i + 1, depth);
        }
    }
}

/// An equation is balanced exactly when, walking left to right, the count of
/// ')' never exceeds the count of '(' seen so far, and the two counts are
/// equal at the end: `paren_depth` is that running difference.
pub proof fn lemma_balanced_characterization(s: Seq<u8>)
    ensures
        spec_balanced(s) <==> {
            &&& paren_depth(s, s.len() as int) == 0
            &&& forall|j: int| 0 <= j <= s.len() ==> paren_depth(s, j) >= 0
        },
{
    lemma_balanced_from_depths(s, 0, 0);
}

} // verus!

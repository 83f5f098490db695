//! Ordering of bit-vectors and windows: lexicographic over the bits, with a
//! cleared bit below a set one and a prefix below any longer sequence.
use vstd::prelude::*;
use core::cmp::Ordering;
use crate::slice::{
    BitSlice, lex_rank, lemma_lex_rank_antisymmetric, lemma_lex_rank_equal,
    law_lex_rank_first_difference, law_lex_rank_proper_prefix,
};
use crate::vec::BitVec;

verus! {

/// The lexicographic order of `a` against `b`.
pub open spec fn lex_order(a: Seq<bool>, b: Seq<bool>) -> Ordering {
    if lex_rank(a, b) < 0 {
        Ordering::Less
    } else if lex_rank(a, b) == 0 {
        Ordering::Equal
    } else {
        Ordering::Greater
    }
}

/// The opposite of an ordering.
pub open spec fn opposite(o: Ordering) -> Ordering {
    match o {
        Ordering::Less => Ordering::Greater,
        Ordering::Equal => Ordering::Equal,
        Ordering::Greater => Ordering::Less,
    }
}

/// The opposite of an ordering: `Less` and `Greater` swap.
pub fn reverse_ordering(o: Ordering) -> (r: Ordering)
    ensures
        r == opposite(o),
{
    match o {
        Ordering::Less => Ordering::Greater,
        Ordering::Equal => Ordering::Equal,
        Ordering::Greater => Ordering::Less,
    }
}

/// Whether two optional orderings are the same.
pub fn same_ordering(a: Option<Ordering>, b: Option<Ordering>) -> (r: bool)
    ensures
        r == (a == b),
{
    match (a, b) {
        (None, None) => true,
        (Some(Ordering::Less), Some(Ordering::Less)) => true,
        (Some(Ordering::Equal), Some(Ordering::Equal)) => true,
        (Some(Ordering::Greater), Some(Ordering::Greater)) => true,
        _ => false,
    }
}

/// Comparing `b` with `a` gives the opposite of comparing `a` with `b`.
pub proof fn law_lex_order_reverses(a: Seq<bool>, b: Seq<bool>)
    ensures
        lex_order(b, a) == opposite(lex_order(a, b)),
{
    lemma_lex_rank_antisymmetric(a, b);
}

/// Two sequences compare equal exactly when they hold the same bits.
pub proof fn law_lex_order_equal(a: Seq<bool>, b: Seq<bool>)
    ensures
        (lex_order(a, b) == Ordering::Equal) <==> a == b,
{
    lemma_lex_rank_equal(a, b);
}

/// The first index below both lengths at which two sequences differ decides
/// their order, whatever their lengths: a set bit there is above a cleared
/// one.
pub proof fn law_lex_order_first_difference(a: Seq<bool>, b: Seq<bool>, i: int)
    requires
        0 <= i < a.len(),
        i < b.len(),
        forall|k: int| 0 <= k < i ==> a[k] == b[k],
        a[i] != b[i],
    ensures
        a[i] ==> lex_order(a, b) == Ordering::Greater,
        !a[i] ==> lex_order(a, b) == Ordering::Less,
{
    law_lex_rank_first_difference(a, b, i);
}

/// Length decides only between a sequence and a longer one that it is a
/// prefix of: the prefix is below.
pub proof fn law_lex_order_proper_prefix(a: Seq<bool>, b: Seq<bool>)
    requires
        a.len() < b.len(),
        forall|k: int| 0 <= k < a.len() ==> a[k] == b[k],
    ensures
        lex_order(a, b) == Ordering::Less,
        lex_order(b, a) == Ordering::Greater,
{
    law_lex_rank_proper_prefix(a, b);
}

impl<'a> BitSlice<'a> {
    /// Lexicographic comparison with another window; always defined.
    pub fn partial_cmp(&self, other: &BitSlice) -> (r: Option<Ordering>)
        requires
            self.wf(),
            other.wf(),
        ensures
            r == Some(lex_order(self@, other@)),
    {
        let c = self.compare(other);
        if c < 0 {
            Some(Ordering::Less)
        } else if c == 0 {
            Some(Ordering::Equal)
        } else {
            Some(Ordering::Greater)
        }
    }
}

impl BitVec {
    /// Lexicographic comparison with another bit-vector.
    pub fn partial_cmp(&self, other: &BitVec) -> (r: Option<Ordering>)
        requires
            self.wf(),
            other.wf(),
        ensures
            r == Some(lex_order(self@, other@)),
    {
        self.as_bitslice().partial_cmp(&other.as_bitslice())
    }

    /// Lexicographic comparison with a window. The window is asked to compare
    /// itself with this bit-vector, and its answer is reversed.
    pub fn partial_cmp_slice(&self, other: &BitSlice) -> (r: Option<Ordering>)
        requires
            self.wf(),
            other.wf(),
        ensures
            r == Some(lex_order(self@, other@)),
    {
        let mine = self.as_bitslice();
        let theirs = other.partial_cmp(&mine);
        proof {
            law_lex_order_reverses(self@, other@);
            assert(opposite(opposite(lex_order(self@, other@))) == lex_order(self@, other@));
        }
        match theirs {
            Some(o) => Some(reverse_ordering(o)),
            None => None,
        }
    }
}

} // verus!

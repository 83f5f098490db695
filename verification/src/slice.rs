//! Borrowed windows into a bit-vector, and the queries on them: splitting,
//! the runs of equal bits at either end, and lexicographic comparison.
use vstd::prelude::*;
use crate::layout::Layout;
use crate::vec::{BitVec, MAX_BITS};

verus! {

/// A contiguous window of bits borrowed from a `BitVec`.
pub struct BitSlice<'a> {
    vec: &'a BitVec,
    start: usize,
    len: usize,
}

impl<'a> BitSlice<'a> {
    /// Well-formedness: the window lies inside a well-formed bit-vector.
    pub closed spec fn wf(self) -> bool {
        &&& self.vec.wf()
        &&& self.start + self.len <= self.vec@.len()
    }

    /// Index, in the bit-vector it borrows from, of the window's first bit.
    pub closed spec fn offset(self) -> int {
        self.start as int
    }

    /// The layout of the bit-vector the window borrows from.
    pub closed spec fn layout_spec(self) -> Layout {
        self.vec.layout_spec()
    }
}

impl<'a> View for BitSlice<'a> {
    type V = Seq<bool>;

    closed spec fn view(&self) -> Seq<bool> {
        self.vec@.subrange(self.start as int, self.start + self.len)
    }
}

/// The length of the run of bits equal to `b` at the front of `s`: every bit
/// before index `n` equals `b`, and the bit at `n`, if any, does not.
pub open spec fn is_leading_run(s: Seq<bool>, b: bool, n: int) -> bool {
    &&& 0 <= n <= s.len()
    &&& forall|k: int| 0 <= k < n ==> s[k] == b
    &&& n < s.len() ==> s[n] != b
}

/// The length of the run of bits equal to `b` at the back of `s`.
pub open spec fn is_trailing_run(s: Seq<bool>, b: bool, n: int) -> bool {
    &&& 0 <= n <= s.len()
    &&& forall|k: int| s.len() - n <= k < s.len() ==> s[k] == b
    &&& n < s.len() ==> s[s.len() - n - 1] != b
}

/// Lexicographic comparison of `a` and `b` from index `i` on, as `-1`, `0` or
/// `1`: the first index at which they differ decides (a cleared bit is below a
/// set one), and where one is a prefix of the other the shorter is below.
pub open spec fn lex_rank_from(a: Seq<bool>, b: Seq<bool>, i: int) -> int
    decreases a.len() - i,
{
    if i >= a.len() && i >= b.len() {
        0
    } else if i >= a.len() {
        -1
    } else if i >= b.len() {
        1
    } else if a[i] == b[i] {
        lex_rank_from(a, b, i + 1)
    } else if !a[i] {
        -1
    } else {
        1
    }
}

/// Lexicographic comparison of `a` and `b`, as `-1`, `0` or `1`.
pub open spec fn lex_rank(a: Seq<bool>, b: Seq<bool>) -> int {
    lex_rank_from(a, b, 0)
}

proof fn lemma_lex_rank_from_antisymmetric(a: Seq<bool>, b: Seq<bool>, i: int)
    requires
        0 <= i,
    ensures
        lex_rank_from(b, a, i) == -lex_rank_from(a, b, i),
        -1 <= lex_rank_from(a, b, i) <= 1,
    decreases a.len() - i,
{
    if i < a.len() && i < b.len() && a[i] == b[i] {
        lemma_lex_rank_from_antisymmetric(a, b, i + 1);
    }
}

/// Swapping the operands of a lexicographic comparison negates it.
pub proof fn lemma_lex_rank_antisymmetric(a: Seq<bool>, b: Seq<bool>)
    ensures
        lex_rank(b, a) == -lex_rank(a, b),
        -1 <= lex_rank(a, b) <= 1,
{
    lemma_lex_rank_from_antisymmetric(a, b, 0);
}

proof fn lemma_lex_rank_from_equal(a: Seq<bool>, b: Seq<bool>, i: int)
    requires
        0 <= i <= a.len(),
        i <= b.len(),
    ensures
        lex_rank_from(a, b, i) == 0 <==> a.skip(i) == b.skip(i),
    decreases a.len() - i,
{
    if i < a.len() && i < b.len() && a[i] == b[i] {
        lemma_lex_rank_from_equal(a, b, i + 1);
        assert(a.skip(i) =~= seq![a[i]] + a.skip(i + 1));
        assert(b.skip(i) =~= seq![b[i]] + b.skip(i + 1));
        if a.skip(i) == b.skip(i) {
            assert(a.skip(i + 1) =~= a.skip(i).skip(1));
            assert(b.skip(i + 1) =~= b.skip(i).skip(1));
        }
    } else if i < a.len() && i < b.len() {
        assert(a.skip(i)[0] == a[i]);
        assert(b.skip(i)[0] == b[i]);
    } else if i >= a.len() && i >= b.len() {
        assert(a.skip(i) =~= b.skip(i));
    } else if i >= a.len() {
        assert(a.skip(i).len() == 0);
        assert(b.skip(i).len() > 0);
    } else {
        assert(a.skip(i).len() > 0);
        assert(b.skip(i).len() == 0);
    }
}

proof fn lemma_lex_rank_from_common(a: Seq<bool>, b: Seq<bool>, j: int, i: int)
    requires
        0 <= j <= i,
        i <= a.len(),
        i <= b.len(),
        forall|k: int| j <= k < i ==> a[k] == b[k],
    ensures
        lex_rank_from(a, b, j) == lex_rank_from(a, b, i),
    decreases i - j,
{
    if j < i {
        lemma_lex_rank_from_common(a, b, j + 1, i);
    }
}

/// The first index below both lengths at which two sequences differ decides
/// their comparison, whatever their lengths: the one with the set bit there
/// is above.
pub proof fn law_lex_rank_first_difference(a: Seq<bool>, b: Seq<bool>, i: int)
    requires
        0 <= i < a.len(),
        i < b.len(),
        forall|k: int| 0 <= k < i ==> a[k] == b[k],
        a[i] != b[i],
    ensures
        lex_rank(a, b) == (if a[i] {
            1int
        } else {
            -1int
        }),
{
    lemma_lex_rank_from_common(a, b, 0, i);
}

/// A proper prefix is below the longer sequence, and above it the other way
/// round.
pub proof fn law_lex_rank_proper_prefix(a: Seq<bool>, b: Seq<bool>)
    requires
        a.len() < b.len(),
        forall|k: int| 0 <= k < a.len() ==> a[k] == b[k],
    ensures
        lex_rank(a, b) == -1,
        lex_rank(b, a) == 1,
{
    lemma_lex_rank_from_common(a, b, 0, a.len() as int);
    lemma_lex_rank_from_common(b, a, 0, a.len() as int);
}

/// A lexicographic comparison finds equality exactly on equal sequences.
pub proof fn lemma_lex_rank_equal(a: Seq<bool>, b: Seq<bool>)
    ensures
        lex_rank(a, b) == 0 <==> a == b,
{
    lemma_lex_rank_from_equal(a, b, 0);
    assert(a.skip(0) =~= a);
    assert(b.skip(0) =~= b);
}

/// A run at the front is determined by the sequence and the bit: two
/// lengths that both satisfy `is_leading_run` are equal.
pub proof fn law_leading_run_unique(s: Seq<bool>, b: bool, n: int, m: int)
    requires
        is_leading_run(s, b, n),
        is_leading_run(s, b, m),
    ensures
        n == m,
{
    if n < m {
        assert(s[n] == b);
    } else if m < n {
        assert(s[m] == b);
    }
}

/// A run at the back is determined by the sequence and the bit.
pub proof fn law_trailing_run_unique(s: Seq<bool>, b: bool, n: int, m: int)
    requires
        is_trailing_run(s, b, n),
        is_trailing_run(s, b, m),
    ensures
        n == m,
{
    if n < m {
        assert(s[s.len() - n - 1] == b);
    } else if m < n {
        assert(s[s.len() - m - 1] == b);
    }
}

/// On a sequence whose bits all equal `b`, the runs of `b` at the front and at
/// the back both cover the whole sequence.
pub proof fn law_homogeneous_runs(s: Seq<bool>, b: bool, lead: int, trail: int)
    requires
        forall|k: int| 0 <= k < s.len() ==> s[k] == b,
        is_leading_run(s, b, lead),
        is_trailing_run(s, b, trail),
    ensures
        lead == s.len(),
        trail == s.len(),
{
    if lead < s.len() {
        assert(s[lead] == b);
    }
    if trail < s.len() {
        assert(s[s.len() - trail - 1] == b);
    }
}

impl BitVec {
    /// A window over all of the bit-vector.
    pub fn as_bitslice(&self) -> (s: BitSlice<'_>)
        requires
            self.wf(),
        ensures
            s.wf(),
            s@ == self@,
            s.offset() == 0,
            s.layout_spec() == self.layout_spec(),
    {
        let s = BitSlice { vec: self, start: 0, len: self.len() };
        proof {
            assert(s@ =~= self@);
        }
        s
    }

    /// Overwrites every bit with the bit at the same index of `src`, whatever
    /// the layouts of the two.
    pub fn clone_from_bitslice(&mut self, src: &BitSlice)
        requires
            old(self).wf(),
            src.wf(),
            old(self)@.len() == src@.len(),
        ensures
            final(self).wf(),
            final(self).layout_spec() == old(self).layout_spec(),
            final(self)@ == src@,
    {
        let n = src.len();
        let ghost before = self@;
        for i in 0..n
            invariant
                self.wf(),
                self.layout_spec() == old(self).layout_spec(),
                n == src@.len(),
                self@.len() == n,
                src.wf(),
                forall|k: int| 0 <= k < i ==> #[trigger] self@[k] == src@[k],
        {
            let b = src.get(i);
            self.set(i, b);
        }
        proof {
            assert(self@ =~= src@);
        }
    }
}

impl<'a> BitSlice<'a> {
    /// Index, in the bit-vector it borrows from, of the window's first bit.
    pub fn offset_index(&self) -> (o: usize)
        requires
            self.wf(),
        ensures
            o == self.offset(),
            o + self@.len() <= MAX_BITS,
    {
        proof {
            self.vec.lemma_len_bound();
        }
        self.start
    }

    /// The layout of the bit-vector the window borrows from.
    pub fn layout(&self) -> (l: Layout)
        ensures
            l == self.layout_spec(),
    {
        self.vec.layout()
    }

    /// The number of bits in the window.
    pub fn len(&self) -> (n: usize)
        requires
            self.wf(),
        ensures
            n == self@.len(),
    {
        self.len
    }

    /// Whether the window holds no bits.
    pub fn is_empty(&self) -> (b: bool)
        requires
            self.wf(),
        ensures
            b == (self@.len() == 0),
    {
        self.len == 0
    }

    /// The bit at index `i` of the window.
    pub fn get(&self, i: usize) -> (b: bool)
        requires
            self.wf(),
            i < self@.len(),
        ensures
            b == self@[i as int],
    {
        proof {
            self.vec.lemma_len_bound();
        }
        self.vec.get(self.start + i)
    }

    /// Splits the window in two at `mid`: the bits before `mid` and the bits
    /// from `mid` on. Any `mid` up to and including the length is accepted;
    /// at the length the right part is empty.
    pub fn split_at(&self, mid: usize) -> (parts: (BitSlice<'a>, BitSlice<'a>))
        requires
            self.wf(),
            mid <= self@.len(),
        ensures
            parts.0.wf(),
            parts.1.wf(),
            parts.0@ == self@.take(mid as int),
            parts.1@ == self@.skip(mid as int),
            parts.0@.len() == mid,
            parts.1@.len() == self@.len() - mid,
            parts.0@ + parts.1@ == self@,
            parts.0.offset() == self.offset(),
            parts.1.offset() == self.offset() + mid,
            parts.0.layout_spec() == self.layout_spec(),
            parts.1.layout_spec() == self.layout_spec(),
    {
        proof {
            self.vec.lemma_len_bound();
        }
        let left = BitSlice { vec: self.vec, start: self.start, len: mid };
        let right = BitSlice { vec: self.vec, start: self.start + mid, len: self.len - mid };
        proof {
            assert(left@ =~= self@.take(mid as int));
            assert(right@ =~= self@.skip(mid as int));
            assert(left@ + right@ =~= self@);
        }
        (left, right)
    }

    /// The index of the first bit equal to `b`, if there is one.
    pub fn first_index_of(&self, b: bool) -> (r: Option<usize>)
        requires
            self.wf(),
        ensures
            match r {
                Some(i) => i < self@.len() && self@[i as int] == b && forall|k: int|
                    0 <= k < i ==> self@[k] != b,
                None => forall|k: int| 0 <= k < self@.len() ==> self@[k] != b,
            },
    {
        let n = self.len;
        for i in 0..n
            invariant
                self.wf(),
                n == self@.len(),
                forall|k: int| 0 <= k < i ==> self@[k] != b,
        {
            if self.get(i) == b {
                return Some(i);
            }
        }
        None
    }

    /// The index of the last bit equal to `b`, if there is one.
    pub fn last_index_of(&self, b: bool) -> (r: Option<usize>)
        requires
            self.wf(),
        ensures
            match r {
                Some(i) => i < self@.len() && self@[i as int] == b && forall|k: int|
                    i < k < self@.len() ==> self@[k] != b,
                None => forall|k: int| 0 <= k < self@.len() ==> self@[k] != b,
            },
    {
        let mut i = self.len;
        while i > 0
            invariant
                self.wf(),
                i <= self@.len(),
                forall|k: int| i <= k < self@.len() ==> self@[k] != b,
            decreases i,
        {
            if self.get(i - 1) == b {
                return Some(i - 1);
            }
            i = i - 1;
        }
        None
    }

    /// The index of the first set bit, if any.
    pub fn first_one(&self) -> (r: Option<usize>)
        requires
            self.wf(),
        ensures
            match r {
                Some(i) => i < self@.len() && self@[i as int] && forall|k: int|
                    0 <= k < i ==> !self@[k],
                None => forall|k: int| 0 <= k < self@.len() ==> !self@[k],
            },
    {
        self.first_index_of(true)
    }

    /// The index of the first cleared bit, if any.
    pub fn first_zero(&self) -> (r: Option<usize>)
        requires
            self.wf(),
        ensures
            match r {
                Some(i) => i < self@.len() && !self@[i as int] && forall|k: int|
                    0 <= k < i ==> self@[k],
                None => forall|k: int| 0 <= k < self@.len() ==> self@[k],
            },
    {
        self.first_index_of(false)
    }

    /// The index of the last set bit, if any.
    pub fn last_one(&self) -> (r: Option<usize>)
        requires
            self.wf(),
        ensures
            match r {
                Some(i) => i < self@.len() && self@[i as int] && forall|k: int|
                    i < k < self@.len() ==> !self@[k],
                None => forall|k: int| 0 <= k < self@.len() ==> !self@[k],
            },
    {
        self.last_index_of(true)
    }

    /// The index of the last cleared bit, if any.
    pub fn last_zero(&self) -> (r: Option<usize>)
        requires
            self.wf(),
        ensures
            match r {
                Some(i) => i < self@.len() && !self@[i as int] && forall|k: int|
                    i < k < self@.len() ==> self@[k],
                None => forall|k: int| 0 <= k < self@.len() ==> self@[k],
            },
    {
        self.last_index_of(false)
    }

    /// The number of set bits at the front of the window; the whole length
    /// when every bit is set.
    pub fn leading_ones(&self) -> (n: usize)
        requires
            self.wf(),
        ensures
            is_leading_run(self@, true, n as int),
    {
        match self.first_zero() {
            Some(i) => i,
            None => self.len,
        }
    }

    /// The number of cleared bits at the front of the window; the whole length
    /// when every bit is cleared.
    pub fn leading_zeros(&self) -> (n: usize)
        requires
            self.wf(),
        ensures
            is_leading_run(self@, false, n as int),
    {
        match self.first_one() {
            Some(i) => i,
            None => self.len,
        }
    }

    /// The number of set bits at the back of the window; the whole length
    /// when every bit is set.
    pub fn trailing_ones(&self) -> (n: usize)
        requires
            self.wf(),
        ensures
            is_trailing_run(self@, true, n as int),
    {
        match self.last_zero() {
            Some(i) => self.len - 1 - i,
            None => self.len,
        }
    }

    /// The number of cleared bits at the back of the window; the whole length
    /// when every bit is cleared.
    pub fn trailing_zeros(&self) -> (n: usize)
        requires
            self.wf(),
        ensures
            is_trailing_run(self@, false, n as int),
    {
        match self.last_one() {
            Some(i) => self.len - 1 - i,
            None => self.len,
        }
    }

    /// Lexicographic comparison with `other`, as `-1`, `0` or `1`.
    pub fn compare(&self, other: &BitSlice) -> (r: i8)
        requires
            self.wf(),
            other.wf(),
        ensures
            r == lex_rank(self@, other@),
    {
        let n = self.len;
        let m = other.len;
        let mut i: usize = 0;
        while i < n && i < m
            invariant
                self.wf(),
                other.wf(),
                n == self@.len(),
                m == other@.len(),
                i <= n,
                i <= m,
                lex_rank(self@, other@) == lex_rank_from(self@, other@, i as int),
            decreases n - i,
        {
            let l = self.get(i);
            let r = other.get(i);
            if l && !r {
                return 1;
            }
            if !l && r {
                return -1;
            }
            i = i + 1;
        }
        if n < m {
            -1
        } else if n > m {
            1
        } else {
            0
        }
    }
}

} // verus!

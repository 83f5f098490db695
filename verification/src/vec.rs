//! An owned, growable vector of bits packed into storage elements.
use vstd::prelude::*;
use crate::layout::{
    Layout, elems_for, lemma_elems_for, lemma_position_injective, lemma_split_index, read_bit,
    word_bit, write_bit,
};

verus! {

/// The largest number of bits that a bit-vector can hold.
pub const MAX_BITS: usize = usize::MAX / 8;

/// A growable sequence of bits, packed into storage elements of the width
/// that its `Layout` names.
pub struct BitVec {
    words: Vec<u64>,
    len: usize,
    layout: Layout,
}

impl BitVec {
    /// The bit with index `i`, read from storage.
    pub closed spec fn stored_bit(self, i: int) -> bool {
        let w = self.layout.width();
        word_bit(self.words@[i / w], self.layout.position(i % w) as u64)
    }

    /// Well-formedness: the storage holds exactly the elements that the
    /// length needs, and the length is within `MAX_BITS`.
    pub closed spec fn wf(self) -> bool {
        &&& self.words@.len() == elems_for(self.len as int, self.layout.width())
        &&& self.len <= MAX_BITS
    }

    /// A well-formed bit-vector holds at most `MAX_BITS` bits.
    pub proof fn lemma_len_bound(&self)
        requires
            self.wf(),
        ensures
            self@.len() <= MAX_BITS,
    {
    }

    /// The layout the bits are stored in.
    pub closed spec fn layout_spec(self) -> Layout {
        self.layout
    }
}

impl View for BitVec {
    type V = Seq<bool>;

    closed spec fn view(&self) -> Seq<bool> {
        Seq::new(self.len as nat, |i: int| self.stored_bit(i))
    }
}

/// Inserting at the end of a sequence is appending to it.
pub proof fn law_insert_at_end_is_push(s: Seq<bool>, b: bool)
    ensures
        s.insert(s.len() as int, b) == s.push(b),
{
    assert(s.insert(s.len() as int, b) =~= s.push(b));
}

impl BitVec {
    /// An empty bit-vector with room for `capacity` bits.
    pub fn with_capacity(capacity: usize, layout: Layout) -> (v: BitVec)
        requires
            capacity <= MAX_BITS,
        ensures
            v.wf(),
            v@ == Seq::<bool>::empty(),
            v.layout_spec() == layout,
    {
        let w = layout.store.bits();
        let elems = capacity / w + 1;
        let v = BitVec { words: Vec::with_capacity(elems), len: 0, layout };
        proof {
            lemma_elems_for(0, w as int);
            assert(v@ =~= Seq::<bool>::empty());
        }
        v
    }

    /// An empty bit-vector in the standard layout.
    pub fn new() -> (v: BitVec)
        ensures
            v.wf(),
            v@ == Seq::<bool>::empty(),
            v.layout_spec() == Layout::standard(),
    {
        BitVec::with_capacity(0, Layout::standard())
    }

    /// The layout the bits are stored in.
    pub fn layout(&self) -> (l: Layout)
        ensures
            l == self.layout_spec(),
    {
        self.layout
    }

    /// The number of bits.
    pub fn len(&self) -> (n: usize)
        requires
            self.wf(),
        ensures
            n == self@.len(),
            n <= MAX_BITS,
    {
        self.len
    }

    /// Whether the bit-vector holds no bits.
    pub fn is_empty(&self) -> (b: bool)
        requires
            self.wf(),
        ensures
            b == (self@.len() == 0),
    {
        self.len == 0
    }

    /// The bit at index `i`.
    pub fn get(&self, i: usize) -> (b: bool)
        requires
            self.wf(),
            i < self@.len(),
        ensures
            b == self@[i as int],
    {
        let w = self.layout.store.bits();
        proof {
            lemma_split_index(i as int, 0, w as int);
            lemma_elems_for(self.len as int, w as int);
        }
        let p = self.layout.position_of(i % w);
        read_bit(self.words[i / w], p)
    }

    /// Sets the bit at index `i` to `b`.
    pub fn set(&mut self, i: usize, b: bool)
        requires
            old(self).wf(),
            i < old(self)@.len(),
        ensures
            final(self).wf(),
            final(self).layout_spec() == old(self).layout_spec(),
            final(self)@ == old(self)@.update(i as int, b),
    {
        let w = self.layout.store.bits();
        proof {
            lemma_split_index(i as int, 0, w as int);
            lemma_elems_for(self.len as int, w as int);
        }
        let ghost before = *self;
        let e = i / w;
        let p = self.layout.position_of(i % w);
        let word = write_bit(self.words[e], p, b);
        self.words.set(e, word);
        proof {
            assert forall|j: int| 0 <= j < self.len implies #[trigger] self.stored_bit(j) == (
            if j == i {
                b
            } else {
                before.stored_bit(j)
            }) by {
                lemma_split_index(j, i as int, w as int);
                lemma_split_index(i as int, j, w as int);
                if j != i && j / (w as int) == e as int {
                    lemma_position_injective(self.layout, j % (w as int), (i as int) % (w as int));
                }
            }
            assert(self@ =~= before@.update(i as int, b));
        }
    }

    /// Appends the bit `b`.
    pub fn push(&mut self, b: bool)
        requires
            old(self).wf(),
            old(self)@.len() < MAX_BITS,
        ensures
            final(self).wf(),
            final(self).layout_spec() == old(self).layout_spec(),
            final(self)@ == old(self)@.push(b),
    {
        let w = self.layout.store.bits();
        let ghost before = *self;
        let n = self.len;
        proof {
            lemma_split_index(n as int, 0, w as int);
            lemma_elems_for(n as int, w as int);
        }
        if n % w == 0 {
            self.words.push(0u64);
        }
        let e = n / w;
        let p = self.layout.position_of(n % w);
        let word = write_bit(self.words[e], p, b);
        self.words.set(e, word);
        self.len = n + 1;
        proof {
            assert forall|j: int| 0 <= j < n implies #[trigger] self.stored_bit(j)
                == before.stored_bit(j) by {
                lemma_split_index(j, n as int, w as int);
                if j / (w as int) == e as int {
                    lemma_position_injective(self.layout, j % (w as int), (n as int) % (w as int));
                }
            }
            assert(self.stored_bit(n as int) == b);
            assert(self@ =~= before@.push(b));
        }
    }

    /// Inserts the bit `b` at `index`, moving every later bit up by one.
    /// Any index up to and including the length is accepted: inserting at the
    /// length appends.
    pub fn insert(&mut self, index: usize, b: bool)
        requires
            old(self).wf(),
            index <= old(self)@.len(),
            old(self)@.len() < MAX_BITS,
        ensures
            final(self).wf(),
            final(self).layout_spec() == old(self).layout_spec(),
            final(self)@ == old(self)@.insert(index as int, b),
    {
        let ghost before = self@;
        let n = self.len;
        self.push(b);
        let mut j = n;
        while j > index
            invariant
                self.wf(),
                self.layout_spec() == old(self).layout_spec(),
                index <= j <= n,
                n == before.len(),
                self@.len() == n + 1,
                forall|k: int| 0 <= k < j ==> #[trigger] self@[k] == before[k],
                forall|k: int| j < k <= n ==> #[trigger] self@[k] == before[k - 1],
            decreases j,
        {
            let prev = self.get(j - 1);
            self.set(j, prev);
            j = j - 1;
        }
        self.set(index, b);
        proof {
            assert(self@ =~= before.insert(index as int, b));
        }
    }
}

} // verus!

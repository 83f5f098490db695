//! Memory layout of a bit-vector: the width of the storage element that holds
//! the bits, and the order in which an element's bits are numbered.
use vstd::prelude::*;
use vstd::arithmetic::power2::{lemma2_to64, pow2};

verus! {

/// The order in which the bits of one storage element are numbered.
#[derive(Clone, Copy, Debug, PartialEq, Eq, Structural)]
pub enum BitOrder {
    /// Index 0 of an element is its least significant bit.
    Lsb0,
    /// Index 0 of an element is its most significant bit.
    Msb0,
}

/// The storage element that holds the bits.
#[derive(Clone, Copy, Debug, PartialEq, Eq, Structural)]
pub enum Store {
    U8,
    U16,
    U32,
    U64,
}

/// The complete layout: storage element and bit order.
#[derive(Clone, Copy, Debug, PartialEq, Eq, Structural)]
pub struct Layout {
    pub store: Store,
    pub order: BitOrder,
}

/// A width of a storage element, in bits.
pub open spec fn is_width(w: int) -> bool {
    w == 8 || w == 16 || w == 32 || w == 64
}

impl Store {
    /// Number of bits in one storage element.
    pub open spec fn width(self) -> int {
        match self {
            Store::U8 => 8,
            Store::U16 => 16,
            Store::U32 => 32,
            Store::U64 => 64,
        }
    }

    /// Number of bits in one storage element.
    pub fn bits(&self) -> (b: usize)
        ensures
            b == self.width(),
            is_width(b as int),
    {
        match self {
            Store::U8 => 8,
            Store::U16 => 16,
            Store::U32 => 32,
            Store::U64 => 64,
        }
    }
}

impl Layout {
    /// Number of bits in one storage element.
    pub open spec fn width(self) -> int {
        self.store.width()
    }

    /// The position, counted from the least significant bit, that the bit with
    /// in-element index `k` occupies.
    pub open spec fn position(self, k: int) -> int {
        match self.order {
            BitOrder::Lsb0 => k,
            BitOrder::Msb0 => self.width() - 1 - k,
        }
    }

    /// The default layout of a bit-vector: 64-bit elements, least significant
    /// bit first.
    pub open spec fn standard_spec() -> Layout {
        Layout { store: Store::U64, order: BitOrder::Lsb0 }
    }

    /// The default layout of a bit-vector: 64-bit elements, least significant
    /// bit first.
    #[verifier::when_used_as_spec(standard_spec)]
    pub fn standard() -> (l: Layout)
        ensures
            l == Layout::standard_spec(),
    {
        Layout { store: Store::U64, order: BitOrder::Lsb0 }
    }

    /// The position of the bit with in-element index `k`.
    pub fn position_of(&self, k: usize) -> (p: u64)
        requires
            k < self.width(),
        ensures
            p == self.position(k as int),
            p < 64,
    {
        let w = self.store.bits();
        match self.order {
            BitOrder::Lsb0 => k as u64,
            BitOrder::Msb0 => (w - 1 - k) as u64,
        }
    }
}

/// The largest value of the integer type a storage element stands for.
pub open spec fn store_max(s: Store) -> int {
    match s {
        Store::U8 => u8::MAX as int,
        Store::U16 => u16::MAX as int,
        Store::U32 => u32::MAX as int,
        Store::U64 => u64::MAX as int,
    }
}

/// A storage element holds exactly as many bits as its integer type: its
/// width `w` is the one for which the type's values are `0 .. 2^w`.
pub proof fn law_width_is_type_bits(s: Store)
    ensures
        pow2(s.width() as nat) == store_max(s) + 1,
        s.width() > 0,
{
    lemma2_to64();
}

/// Two distinct in-element indices occupy distinct positions.
pub proof fn lemma_position_injective(l: Layout, j: int, k: int)
    requires
        0 <= j < l.width(),
        0 <= k < l.width(),
        j != k,
    ensures
        l.position(j) != l.position(k),
        0 <= l.position(j) < l.width(),
{
}

/// Whether the bit at position `p` of `w` is set.
pub open spec fn word_bit(w: u64, p: u64) -> bool {
    (w >> p) & 1u64 == 1u64
}

proof fn lemma_write_bit(w: u64, p: u64, q: u64)
    by (bit_vector)
    requires
        p < 64,
        q < 64,
    ensures
        ((w | (1u64 << p)) >> q) & 1u64 == 1u64 <==> (q == p || (w >> q) & 1u64 == 1u64),
        ((w & !(1u64 << p)) >> q) & 1u64 == 1u64 <==> (q != p && (w >> q) & 1u64 == 1u64),
{
}

/// Reads the bit at position `p` of `w`.
pub fn read_bit(w: u64, p: u64) -> (b: bool)
    requires
        p < 64,
    ensures
        b == word_bit(w, p),
{
    (w >> p) & 1u64 == 1u64
}

/// Returns `w` with the bit at position `p` set to `b`, every other bit kept.
pub fn write_bit(w: u64, p: u64, b: bool) -> (r: u64)
    requires
        p < 64,
    ensures
        word_bit(r, p) == b,
        forall|q: u64| q < 64 && q != p ==> word_bit(r, q) == word_bit(w, q),
{
    let r = if b {
        w | (1u64 << p)
    } else {
        w & !(1u64 << p)
    };
    proof {
        assert forall|q: u64| q < 64 implies word_bit(r, q) == (if q == p {
            b
        } else {
            word_bit(w, q)
        }) by {
            lemma_write_bit(w, p, q);
        }
    }
    r
}

/// Index of the storage element that holds bit `i`, and its in-element index,
/// for an element width `w`.
pub proof fn lemma_split_index(i: int, j: int, w: int)
    requires
        is_width(w),
        0 <= i,
        0 <= j,
    ensures
        i == w * (i / w) + i % w,
        0 <= i % w < w,
        0 <= i / w,
        i < j ==> i / w <= j / w,
        (i / w == j / w && i != j) ==> i % w != j % w,
{
    if w == 8 {
    } else if w == 16 {
    } else if w == 32 {
    } else {
    }
}

/// The number of storage elements that `len` bits occupy.
pub open spec fn elems_for(len: int, w: int) -> int {
    (len + w - 1) / w
}

pub proof fn lemma_elems_for(len: int, w: int)
    requires
        is_width(w),
        0 <= len,
    ensures
        len % w == 0 ==> elems_for(len, w) == len / w,
        len % w != 0 ==> elems_for(len, w) == len / w + 1,
        len % w == 0 ==> elems_for(len + 1, w) == len / w + 1,
        len % w != 0 ==> elems_for(len + 1, w) == elems_for(len, w),
        forall|i: int| 0 <= i < len ==> #[trigger] (i / w) < elems_for(len, w),
        elems_for(len, w) * w >= len,
{
    if w == 8 {
    } else if w == 16 {
    } else if w == 32 {
    } else {
    }
}

} // verus!

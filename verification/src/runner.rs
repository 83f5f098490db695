//! What the property runner decides on its own: the named properties, the
//! fixed witness input of each, how per-run metrics add up, and how the
//! input generator mutates a bit list.
use vstd::prelude::*;
use crate::text::str_equal;
use crate::etna::{
    PropertyResult, property_bitvec_partial_cmp_matches, property_clone_from_bitslice_copies_src,
    property_leading_trailing_fallback, property_octal_fmt_no_panic,
    property_split_at_mut_accepts_len, property_vec_insert_accepts_end,
};

verus! {

/// Inputs tried and time spent by one run of a property.
#[derive(Clone, Copy, Debug)]
pub struct Metrics {
    pub inputs: u64,
    pub elapsed_us: u128,
}

impl Default for Metrics {
    fn default() -> (m: Metrics)
        ensures
            m.inputs == 0,
            m.elapsed_us == 0,
    {
        Metrics { inputs: 0, elapsed_us: 0 }
    }
}

impl Metrics {
    /// The metrics of two runs taken together.
    pub fn combine(self, other: Metrics) -> (m: Metrics)
        requires
            self.inputs + other.inputs <= u64::MAX,
            self.elapsed_us + other.elapsed_us <= u128::MAX,
        ensures
            m.inputs == self.inputs + other.inputs,
            m.elapsed_us == self.elapsed_us + other.elapsed_us,
    {
        Metrics {
            inputs: self.inputs + other.inputs,
            elapsed_us: self.elapsed_us + other.elapsed_us,
        }
    }
}

/// The properties the runner knows by name.
#[derive(Clone, Copy, Debug, PartialEq, Eq, Structural)]
pub enum Property {
    SplitAtMutAcceptsLen,
    VecInsertAcceptsEnd,
    LeadingTrailingFallback,
    BitVecPartialCmpMatches,
    CloneFromBitsliceCopiesSrc,
    OctalFmtNoPanic,
}

/// Runs a property on its fixed witness input: each sits on the boundary that
/// the property is about (`mid == len`, `index == len`, an all-set slice,
/// bit-vectors that differ in their first bit, a full copy across layouts, a
/// whole 64-bit element).
pub fn run_fixed_case(p: Property) -> (r: PropertyResult)
    ensures
        r is Pass,
{
    match p {
        Property::SplitAtMutAcceptsLen => property_split_at_mut_accepts_len(
            vec![false, true, false, true],
            4,
        ),
        Property::VecInsertAcceptsEnd => property_vec_insert_accepts_end(
            vec![false, false, true],
            true,
            3,
        ),
        Property::LeadingTrailingFallback => property_leading_trailing_fallback(
            vec![true, true, true, true, true],
            true,
        ),
        Property::BitVecPartialCmpMatches => property_bitvec_partial_cmp_matches(
            vec![false, true],
            vec![true, false],
        ),
        Property::CloneFromBitsliceCopiesSrc => property_clone_from_bitslice_copies_src(
            vec![false, false, false, false, false, false, false, false, false],
            vec![true, true, true, true, true, true, true, true, true],
        ),
        Property::OctalFmtNoPanic => property_octal_fmt_no_panic(0),
    }
}

/// The longest bit list the input generator grows.
pub const MAX_GENERATED_BITS: usize = 32;

/// One mutation of a generated bit list.
#[derive(Clone, Copy, Debug, PartialEq, Eq, Structural)]
pub enum Mutation {
    /// Invert one bit.
    Flip,
    /// Append one bit.
    Push,
    /// Remove the last bit.
    Pop,
    /// Leave the list as it is.
    Keep,
}

/// The mutation that the drawn operation code `op` (below three) selects
/// for a list of `len` bits: code 0 flips a bit of a non-empty list, code 1
/// appends to a list shorter than `MAX_GENERATED_BITS`, and otherwise a
/// non-empty list loses its last bit while an empty one is kept.
pub open spec fn mutation_for(op: u8, len: int) -> Mutation {
    if op == 0 && len > 0 {
        Mutation::Flip
    } else if op == 1 && len < MAX_GENERATED_BITS {
        Mutation::Push
    } else if len > 0 {
        Mutation::Pop
    } else {
        Mutation::Keep
    }
}

/// The list that a mutation makes of `bits`: `Flip` inverts the bit at
/// `index`, `Push` appends `bit`, `Pop` removes the last bit, `Keep` changes
/// nothing.
pub open spec fn mutated(bits: Seq<bool>, m: Mutation, index: int, bit: bool) -> Seq<bool> {
    match m {
        Mutation::Flip => bits.update(index, !bits[index]),
        Mutation::Push => bits.push(bit),
        Mutation::Pop => bits.drop_last(),
        Mutation::Keep => bits,
    }
}

/// The mutation that the drawn operation code `op` selects for a list of
/// `len` bits.
pub fn choose_mutation(op: u8, len: usize) -> (m: Mutation)
    ensures
        m == mutation_for(op, len as int),
{
    if op == 0 && len > 0 {
        Mutation::Flip
    } else if op == 1 && len < MAX_GENERATED_BITS {
        Mutation::Push
    } else if len > 0 {
        Mutation::Pop
    } else {
        Mutation::Keep
    }
}

/// Applies a mutation to a list of bits.
pub fn apply_mutation(bits: Vec<bool>, m: Mutation, index: usize, bit: bool) -> (out: Vec<bool>)
    requires
        m == Mutation::Flip ==> index < bits@.len(),
        m == Mutation::Pop ==> bits@.len() > 0,
    ensures
        out@ == mutated(bits@, m, index as int, bit),
{
    let mut out = bits;
    match m {
        Mutation::Flip => {
            let b = out[index];
            out.set(index, !b);
        },
        Mutation::Push => {
            out.push(bit);
        },
        Mutation::Pop => {
            out.pop();
        },
        Mutation::Keep => {},
    }
    out
}

/// What each mutation does to a list: a flip inverts exactly the bit at
/// `index` and keeps the length, a push adds `bit` at the end, a pop removes
/// the last bit, and keeping changes nothing; every other bit stays where it
/// was.
pub proof fn law_mutation_effect(bits: Seq<bool>, m: Mutation, index: int, bit: bool)
    requires
        m == Mutation::Flip ==> 0 <= index < bits.len(),
        m == Mutation::Pop ==> bits.len() > 0,
    ensures
        ({
            let out = mutated(bits, m, index, bit);
            &&& m == Mutation::Flip ==> {
                &&& out.len() == bits.len()
                &&& out[index] == !bits[index]
                &&& forall|k: int| 0 <= k < bits.len() && k != index ==> out[k] == bits[k]
            }
            &&& m == Mutation::Push ==> {
                &&& out.len() == bits.len() + 1
                &&& out[bits.len() as int] == bit
                &&& forall|k: int| 0 <= k < bits.len() ==> out[k] == bits[k]
            }
            &&& m == Mutation::Pop ==> {
                &&& out.len() == bits.len() - 1
                &&& forall|k: int| 0 <= k < out.len() ==> out[k] == bits[k]
            }
            &&& m == Mutation::Keep ==> out == bits
        }),
{
}

/// A mutation that the generator selects keeps a list within
/// `MAX_GENERATED_BITS` bits and changes its length by at most one; a flip
/// draws its index from inside the list.
pub proof fn law_mutation_keeps_bound(bits: Seq<bool>, op: u8, index: int, bit: bool)
    requires
        bits.len() <= MAX_GENERATED_BITS,
        mutation_for(op, bits.len() as int) == Mutation::Flip ==> 0 <= index < bits.len(),
    ensures
        ({
            let out = mutated(bits, mutation_for(op, bits.len() as int), index, bit);
            &&& out.len() <= MAX_GENERATED_BITS
            &&& bits.len() - 1 <= out.len() <= bits.len() + 1
        }),
{
}

/// The property a runner name stands for. Both spellings of the comparison
/// property's name are accepted.
pub open spec fn property_named(name: Seq<char>) -> Option<Property> {
    if name == "SplitAtMutAcceptsLen"@ {
        Some(Property::SplitAtMutAcceptsLen)
    } else if name == "VecInsertAcceptsEnd"@ {
        Some(Property::VecInsertAcceptsEnd)
    } else if name == "LeadingTrailingFallback"@ {
        Some(Property::LeadingTrailingFallback)
    } else if name == "BitVecPartialCmpMatches"@ || name == "BitvecPartialCmpMatches"@ {
        Some(Property::BitVecPartialCmpMatches)
    } else if name == "CloneFromBitsliceCopiesSrc"@ {
        Some(Property::CloneFromBitsliceCopiesSrc)
    } else if name == "OctalFmtNoPanic"@ {
        Some(Property::OctalFmtNoPanic)
    } else {
        None
    }
}

/// The property a runner name stands for, if any.
pub fn parse_property(name: &str) -> (r: Option<Property>)
    ensures
        r == property_named(name@),
{
    if str_equal(name, "SplitAtMutAcceptsLen") {
        Some(Property::SplitAtMutAcceptsLen)
    } else if str_equal(name, "VecInsertAcceptsEnd") {
        Some(Property::VecInsertAcceptsEnd)
    } else if str_equal(name, "LeadingTrailingFallback") {
        Some(Property::LeadingTrailingFallback)
    } else if str_equal(name, "BitVecPartialCmpMatches") || str_equal(
        name,
        "BitvecPartialCmpMatches",
    ) {
        Some(Property::BitVecPartialCmpMatches)
    } else if str_equal(name, "CloneFromBitsliceCopiesSrc") {
        Some(Property::CloneFromBitsliceCopiesSrc)
    } else if str_equal(name, "OctalFmtNoPanic") {
        Some(Property::OctalFmtNoPanic)
    } else {
        None
    }
}

} // verus!

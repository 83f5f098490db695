use bitvec::compare::reverse_ordering;
use bitvec::etna::{bools_to_bitvec, clamp_len, property_clone_from_bitslice_copies_src, to_err, to_opt, PropertyResult};
use bitvec::json::json_str;
use bitvec::layout::{BitOrder, Layout, Store};
use bitvec::runner::{apply_mutation, choose_mutation, run_fixed_case, Metrics, Mutation, Property};
use bitvec::vec::BitVec;
use std::cmp::Ordering;

fn build(bits: &[bool], store: Store, order: BitOrder) -> BitVec {
    let mut v = BitVec::with_capacity(bits.len(), Layout { store, order });
    for &b in bits {
        v.push(b);
    }
    v
}

fn bits_of(v: &BitVec) -> Vec<bool> {
    (0..v.len()).map(|i| v.get(i)).collect()
}

fn from_bytes_msb0(bytes: &[u8]) -> BitVec {
    let mut v = BitVec::with_capacity(bytes.len() * 8, Layout { store: Store::U8, order: BitOrder::Msb0 });
    for &byte in bytes {
        for k in (0..8).rev() {
            v.push((byte >> k) & 1 == 1);
        }
    }
    v
}

#[test]
fn push_and_get_in_every_layout() {
    let bits: Vec<bool> = (0..150).map(|i| i % 7 == 0 || i % 5 == 3).collect();
    for store in [Store::U8, Store::U16, Store::U32, Store::U64] {
        for order in [BitOrder::Lsb0, BitOrder::Msb0] {
            let v = build(&bits, store, order);
            assert_eq!(v.len(), 150);
            assert_eq!(bits_of(&v), bits);
        }
    }
}

#[test]
fn new_is_empty_standard() {
    let v = BitVec::new();
    assert!(v.is_empty());
    assert_eq!(v.len(), 0);
    assert_eq!(v.layout(), Layout::standard());
    assert_eq!(Layout::standard(), Layout { store: Store::U64, order: BitOrder::Lsb0 });
}

#[test]
fn set_changes_one_bit() {
    let mut v = build(&[false; 20], Store::U8, BitOrder::Msb0);
    v.set(9, true);
    v.set(0, true);
    v.set(0, false);
    let mut want = vec![false; 20];
    want[9] = true;
    assert_eq!(bits_of(&v), want);
}

#[test]
fn insert_in_the_middle_and_at_the_end() {
    let mut v = build(&[true, false, true], Store::U16, BitOrder::Lsb0);
    v.insert(1, true);
    assert_eq!(bits_of(&v), vec![true, true, false, true]);
    v.insert(4, false);
    assert_eq!(bits_of(&v), vec![true, true, false, true, false]);
    v.insert(0, false);
    assert_eq!(bits_of(&v), vec![false, true, true, false, true, false]);
}

#[test]
fn insert_at_len_equals_push() {
    let seed = [false, true, true, false, true, false, false, true, true];
    let mut a = build(&seed, Store::U8, BitOrder::Lsb0);
    let mut b = build(&seed, Store::U8, BitOrder::Lsb0);
    a.insert(seed.len(), true);
    b.push(true);
    assert_eq!(bits_of(&a), bits_of(&b));
}

#[test]
fn insert_across_element_boundary() {
    let seed: Vec<bool> = (0..16).map(|i| i % 2 == 0).collect();
    let mut v = build(&seed, Store::U8, BitOrder::Msb0);
    v.insert(3, true);
    let mut want = seed.clone();
    want.insert(3, true);
    assert_eq!(bits_of(&v), want);
}

#[test]
fn split_at_lengths_and_contents() {
    let v = bools_to_bitvec(&[true, false, false, true, true]);
    let s = v.as_bitslice();
    let (l, r) = s.split_at(2);
    assert_eq!((l.len(), r.len()), (2, 3));
    assert_eq!((l.get(0), l.get(1)), (true, false));
    assert_eq!((r.get(0), r.get(1), r.get(2)), (false, true, true));
    let (l, r) = s.split_at(5);
    assert_eq!((l.len(), r.len()), (5, 0));
    assert!(r.is_empty());
    let (l, r) = s.split_at(0);
    assert_eq!((l.len(), r.len()), (0, 5));
}

#[test]
fn leading_and_trailing_runs() {
    let v = bools_to_bitvec(&[true, true, false, true, false, false, false]);
    let s = v.as_bitslice();
    assert_eq!(s.leading_ones(), 2);
    assert_eq!(s.leading_zeros(), 0);
    assert_eq!(s.trailing_zeros(), 3);
    assert_eq!(s.trailing_ones(), 0);
    assert_eq!(s.first_zero(), Some(2));
    assert_eq!(s.first_one(), Some(0));
    assert_eq!(s.last_one(), Some(3));
    assert_eq!(s.last_zero(), Some(6));
}

#[test]
fn runs_of_homogeneous_and_empty_slices() {
    let ones = build(&[true; 70], Store::U32, BitOrder::Msb0);
    let s = ones.as_bitslice();
    assert_eq!(s.leading_ones(), 70);
    assert_eq!(s.trailing_ones(), 70);
    assert_eq!(s.leading_zeros(), 0);
    assert_eq!(s.first_zero(), None);
    let empty = BitVec::new();
    let e = empty.as_bitslice();
    assert_eq!((e.leading_ones(), e.trailing_zeros()), (0, 0));
    assert_eq!(e.last_one(), None);
}

#[test]
fn lexicographic_order() {
    let a = bools_to_bitvec(&[false, true]);
    let b = bools_to_bitvec(&[true, false]);
    let c = bools_to_bitvec(&[false, true, false]);
    assert_eq!(a.partial_cmp(&b), Some(Ordering::Less));
    assert_eq!(b.partial_cmp(&a), Some(Ordering::Greater));
    assert_eq!(a.partial_cmp(&c), Some(Ordering::Less));
    assert_eq!(c.partial_cmp(&a), Some(Ordering::Greater));
    assert_eq!(a.partial_cmp(&a), Some(Ordering::Equal));
    assert_eq!(a.partial_cmp_slice(&b.as_bitslice()), Some(Ordering::Less));
    assert_eq!(b.partial_cmp_slice(&a.as_bitslice()), Some(Ordering::Greater));
    assert_eq!(c.as_bitslice().partial_cmp(&a.as_bitslice()), Some(Ordering::Greater));
    assert_eq!(a.as_bitslice().compare(&c.as_bitslice()), -1);
}

#[test]
fn order_of_vector_and_window_agree() {
    let cases: Vec<(Vec<bool>, Vec<bool>)> = vec![
        (vec![], vec![]),
        (vec![], vec![false]),
        (vec![true, true, true], vec![false, false, false]),
        (vec![true, false, true], vec![true, false, true]),
        (vec![true, false], vec![true, false, false]),
    ];
    for (x, y) in cases {
        let a = bools_to_bitvec(&x);
        let b = bools_to_bitvec(&y);
        assert_eq!(a.partial_cmp(&b), a.partial_cmp_slice(&b.as_bitslice()));
        assert_eq!(b.partial_cmp(&a).map(reverse_ordering), a.partial_cmp(&b));
    }
}

#[test]
fn reverse_ordering_swaps() {
    assert_eq!(reverse_ordering(Ordering::Less), Ordering::Greater);
    assert_eq!(reverse_ordering(Ordering::Equal), Ordering::Equal);
    assert_eq!(reverse_ordering(Ordering::Greater), Ordering::Less);
}

#[test]
fn clone_from_bitslice_across_layouts() {
    let src_bits: Vec<bool> = (0..37).map(|i| i % 3 != 1).collect();
    let src = build(&src_bits, Store::U16, BitOrder::Msb0);
    let mut dst = build(&[false; 37], Store::U8, BitOrder::Lsb0);
    dst.clone_from_bitslice(&src.as_bitslice());
    assert_eq!(bits_of(&dst), src_bits);
    assert_eq!(dst.layout(), Layout { store: Store::U8, order: BitOrder::Lsb0 });
}

#[test]
fn clone_from_a_window() {
    let src = bools_to_bitvec(&[true, true, false, false, true, false]);
    let (_, tail) = src.as_bitslice().split_at(2);
    let mut dst = build(&[true; 4], Store::U32, BitOrder::Lsb0);
    dst.clone_from_bitslice(&tail);
    assert_eq!(bits_of(&dst), vec![false, false, true, false]);
}

#[test]
fn octal_rendering_cuts_at_element_boundaries() {
    let v = from_bytes_msb0(&[0x00, 0x0F, 0xFF]);
    let s = v.as_bitslice();
    let (_, rest) = s.split_at(9);
    let (mid, _) = rest.split_at(6);
    assert_eq!(mid.to_octal_string(), "[07]");
    let (_, rest) = s.split_at(4);
    let (mid, _) = rest.split_at(16);
    assert_eq!(mid.to_octal_string(), "[00, 017, 17]");
    let (empty, _) = s.split_at(0);
    assert_eq!(empty.to_octal_string(), "[]");
}

#[test]
fn octal_rendering_of_whole_u64_element() {
    let mut v = BitVec::with_capacity(64, Layout { store: Store::U64, order: BitOrder::Lsb0 });
    for _ in 0..64 {
        v.push(true);
    }
    let text = v.as_bitslice().to_octal_string();
    assert_eq!(text, format!("[1{}]", "7".repeat(21)));
    let mut w = BitVec::with_capacity(128, Layout { store: Store::U64, order: BitOrder::Lsb0 });
    for i in 0..128 {
        w.push(i == 63);
    }
    let text = w.as_bitslice().to_octal_string();
    assert_eq!(text, format!("[{}1, {}]", "0".repeat(21), "0".repeat(22)));
}

#[test]
fn json_quoting() {
    assert_eq!(json_str("plain"), "\"plain\"");
    assert_eq!(json_str("a\"b\\c"), "\"a\\\"b\\\\c\"");
    assert_eq!(json_str("x\ny\rz\t"), "\"x\\ny\\rz\\t\"");
    assert_eq!(json_str("\u{1}\u{1f}"), "\"\\u0001\\u001f\"");
    assert_eq!(json_str("é→"), "\"é→\"");
    assert_eq!(json_str(""), "\"\"");
}

#[test]
fn verdict_conversions() {
    assert_eq!(to_opt(PropertyResult::Pass), Some(true));
    assert_eq!(to_opt(PropertyResult::Fail("no".to_string())), Some(false));
    assert_eq!(to_opt(PropertyResult::Discard), None);
    assert_eq!(to_err(PropertyResult::Pass), Ok(()));
    assert_eq!(to_err(PropertyResult::Discard), Ok(()));
    assert_eq!(to_err(PropertyResult::Fail("why".to_string())), Err("why".to_string()));
}

#[test]
fn clone_property_discards_empty_inputs() {
    assert!(matches!(property_clone_from_bitslice_copies_src(vec![], vec![true]), PropertyResult::Discard));
    assert!(matches!(property_clone_from_bitslice_copies_src(vec![true], vec![]), PropertyResult::Discard));
}

#[test]
fn clamp_len_is_mod_64() {
    assert_eq!(clamp_len(0), 0);
    assert_eq!(clamp_len(63), 63);
    assert_eq!(clamp_len(64), 0);
    assert_eq!(clamp_len(130), 2);
}

#[test]
fn fixed_cases_all_pass() {
    for p in [
        Property::SplitAtMutAcceptsLen,
        Property::VecInsertAcceptsEnd,
        Property::LeadingTrailingFallback,
        Property::BitVecPartialCmpMatches,
        Property::CloneFromBitsliceCopiesSrc,
        Property::OctalFmtNoPanic,
    ] {
        assert!(matches!(run_fixed_case(p), PropertyResult::Pass), "{p:?}");
    }
}

#[test]
fn metrics_combine_adds() {
    let a = Metrics { inputs: 3, elapsed_us: 10 };
    let b = Metrics { inputs: 4, elapsed_us: 5 };
    let c = a.combine(b);
    assert_eq!((c.inputs, c.elapsed_us), (7, 15));
    let d = Metrics::default();
    assert_eq!((d.inputs, d.elapsed_us), (0, 0));
}

#[test]
fn mutations() {
    assert_eq!(choose_mutation(0, 3), Mutation::Flip);
    assert_eq!(choose_mutation(0, 0), Mutation::Keep);
    assert_eq!(choose_mutation(1, 0), Mutation::Push);
    assert_eq!(choose_mutation(1, 32), Mutation::Pop);
    assert_eq!(choose_mutation(2, 5), Mutation::Pop);
    assert_eq!(apply_mutation(vec![true, false], Mutation::Flip, 1, false), vec![true, true]);
    assert_eq!(apply_mutation(vec![true], Mutation::Push, 0, false), vec![true, false]);
    assert_eq!(apply_mutation(vec![true, false], Mutation::Pop, 0, false), vec![true]);
    assert_eq!(apply_mutation(vec![], Mutation::Keep, 0, true), Vec::<bool>::new());
}

// Deterministic witness tests: each calls a `property_<name>` directly with
// frozen inputs that sit on the boundary the property is about.

use bitvec::etna::{
    property_bitvec_partial_cmp_matches, property_clone_from_bitslice_copies_src,
    property_leading_trailing_fallback, property_octal_fmt_no_panic,
    property_split_at_mut_accepts_len, property_vec_insert_accepts_end, PropertyResult,
};

fn expect_pass(r: PropertyResult, what: &str) {
    match r {
        PropertyResult::Pass => (),
        PropertyResult::Fail(m) => panic!("{what}: property failed: {m}"),
        PropertyResult::Discard => panic!("{what}: unexpected discard"),
    }
}

// `mid_seed` 4 on four bits picks `mid == len`, so the right part is empty.
#[test]
fn witness_split_at_mut_accepts_len_case_empty_right() {
    expect_pass(
        property_split_at_mut_accepts_len(vec![false, true, false, true], 4),
        "split_at_mut accepts self.len()",
    );
}

#[test]
fn witness_split_at_mut_accepts_len_case_zero_len() {
    expect_pass(
        property_split_at_mut_accepts_len(vec![], 0),
        "split_at_mut accepts self.len() on empty",
    );
}

// `index_seed` 3 on three bits picks `index == len`, the push-equivalent case.
#[test]
fn witness_vec_insert_accepts_end_case_push_true() {
    expect_pass(
        property_vec_insert_accepts_end(vec![false, false, true], true, 3),
        "insert(len, true)",
    );
}

#[test]
fn witness_vec_insert_accepts_end_case_empty_vec() {
    expect_pass(
        property_vec_insert_accepts_end(vec![], true, 0),
        "insert(0, _) on empty vec",
    );
}

#[test]
fn witness_leading_trailing_fallback_case_all_ones() {
    expect_pass(
        property_leading_trailing_fallback(vec![true; 5], true),
        "all-ones leading_ones == len",
    );
}

#[test]
fn witness_leading_trailing_fallback_case_all_zeros() {
    expect_pass(
        property_leading_trailing_fallback(vec![false; 5], false),
        "all-zeros leading_zeros == len",
    );
}

#[test]
fn witness_bitvec_partial_cmp_matches_case_lt() {
    expect_pass(
        property_bitvec_partial_cmp_matches(vec![false, true], vec![true, false]),
        "0b10 < 0b01",
    );
}

#[test]
fn witness_bitvec_partial_cmp_matches_case_gt() {
    expect_pass(
        property_bitvec_partial_cmp_matches(vec![true, true, true], vec![false, false, false]),
        "0b111 > 0b000",
    );
}

#[test]
fn witness_clone_from_bitslice_copies_src_case_flip_all() {
    expect_pass(
        property_clone_from_bitslice_copies_src(
            vec![false, false, false, false, false, false, false, false, false],
            vec![true, true, true, true, true, true, true, true, true],
        ),
        "dst=all-zero, src=all-one",
    );
}

#[test]
fn witness_clone_from_bitslice_copies_src_case_alternating() {
    expect_pass(
        property_clone_from_bitslice_copies_src(
            vec![true, true, true, true, true],
            vec![false, true, false, true, false],
        ),
        "dst=all-one, src=alternating",
    );
}

#[test]
fn witness_octal_fmt_no_panic_case_one_u64() {
    expect_pass(
        property_octal_fmt_no_panic(0),
        "Octal::fmt one full u64 body chunk (64 bits → 22 digits)",
    );
}

#[test]
fn witness_octal_fmt_no_panic_case_three_u64() {
    expect_pass(
        property_octal_fmt_no_panic(2),
        "Octal::fmt three full u64 body chunks (192 bits → 66 digits)",
    );
}

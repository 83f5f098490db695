//! Framework-neutral properties of the bit-vector. Each `property_<name>`
//! takes concrete, owned inputs, exercises one operation, checks what it
//! observes and returns a `PropertyResult`. The contracts show that every
//! check passes on every accepted input.
use vstd::prelude::*;
use core::cmp::Ordering;
use crate::compare::same_ordering;
use crate::layout::{BitOrder, Layout, Store};
use crate::octal::{
    count_octal_digits, is_octal_digit, law_render_digit_count, law_whole_elements_digit_count,
};
use crate::slice::law_homogeneous_runs;
use crate::vec::{BitVec, MAX_BITS};
use vstd::string::StrSliceExecFns;

verus! {

/// The verdict of one property on one input.
pub enum PropertyResult {
    /// The property held.
    Pass,
    /// The property failed; the message says how.
    Fail(String),
    /// The input was outside the property's domain.
    Discard,
}

/// A bit-vector in the standard layout holding `bits`.
pub fn bools_to_bitvec(bits: &[bool]) -> (v: BitVec)
    requires
        bits@.len() <= MAX_BITS,
    ensures
        v.wf(),
        v@ == bits@,
        v.layout_spec() == Layout::standard(),
{
    let n = bits.len();
    let mut out = BitVec::with_capacity(n, Layout::standard());
    for i in 0..n
        invariant
            n == bits@.len(),
            n <= MAX_BITS,
            out.wf(),
            out.layout_spec() == Layout::standard(),
            out@ == bits@.take(i as int),
    {
        out.push(bits[i]);
        proof {
            assert(bits@.take(i + 1) =~= bits@.take(i as int).push(bits@[i as int]));
        }
    }
    proof {
        assert(bits@.take(n as int) =~= bits@);
    }
    out
}

/// Truncates a caller-supplied length hint into the tested range.
pub fn clamp_len(n: usize) -> (r: usize)
    ensures
        r == n % 64,
{
    n % 64
}

/// `split_at(mid)` accepts every `mid` in `0 ..= len` and yields parts of
/// lengths `mid` and `len - mid`; at `mid == len` the right part is empty.
/// `mid_seed` is mapped to `mid_seed % (len + 1)`, so that every seed picks a
/// valid `mid`. The library's windows are shared borrows, so the split is the
/// read-only `split_at`; a mutable split would yield windows of the same
/// lengths.
pub fn property_split_at_mut_accepts_len(seed: Vec<bool>, mid_seed: usize) -> (r: PropertyResult)
    requires
        seed@.len() <= MAX_BITS,
    ensures
        r is Pass,
{
    let bits = seed;
    let bv = bools_to_bitvec(bits.as_slice());
    let len = bv.len();
    let mid = mid_seed % (len + 1);
    let slice = bv.as_bitslice();
    let (left, right) = slice.split_at(mid);
    let l = left.len();
    let r = right.len();
    if l == mid && r == len - mid {
        PropertyResult::Pass
    } else {
        PropertyResult::Fail(split_sizes_message(mid, len, l, r, len - mid))
    }
}

/// `insert(index, value)` accepts every `index` in `0 ..= len`; at
/// `index == len` it appends. Afterwards the length has grown by one, the
/// bit at `index` is `value`, the bits before `index` are unchanged and the
/// bits after it are the old ones moved up by one. `index_seed` is mapped to
/// `index_seed % (len + 1)`.
pub fn property_vec_insert_accepts_end(seed: Vec<bool>, value: bool, index_seed: usize) -> (r:
    PropertyResult)
    requires
        seed@.len() < MAX_BITS,
    ensures
        r is Pass,
{
    let mut bv = bools_to_bitvec(seed.as_slice());
    let len_before = bv.len();
    let index = index_seed % (len_before + 1);
    bv.insert(index, value);
    let new_len = bv.len();
    if new_len != len_before + 1 {
        return PropertyResult::Fail(insert_len_message(index, new_len, len_before + 1));
    }
    if bv.get(index) != value {
        return PropertyResult::Fail(insert_value_message(index, value));
    }
    for i in 0..index
        invariant
            bv.wf(),
            bv@ == seed@.insert(index as int, value),
            index <= seed@.len(),
    {
        if bv.get(i) != seed[i] {
            return PropertyResult::Fail(insert_corrupt_message(index, i, bv.get(i), seed[i]));
        }
    }
    for i in (index + 1)..new_len
        invariant
            bv.wf(),
            bv@ == seed@.insert(index as int, value),
            new_len == seed@.len() + 1,
            index <= seed@.len(),
    {
        if bv.get(i) != seed[i - 1] {
            return PropertyResult::Fail(insert_corrupt_message(index, i, bv.get(i), seed[i - 1]));
        }
    }
    PropertyResult::Pass
}

/// On a slice whose bits are all the same, the run at either end covers the
/// whole slice: `leading_ones` and `trailing_ones` of all-set bits, and
/// `leading_zeros` and `trailing_zeros` of all-cleared bits, are the length.
pub fn property_leading_trailing_fallback(seed: Vec<bool>, all_ones: bool) -> (r: PropertyResult)
    ensures
        r is Pass,
{
    let n = clamp_len(seed.len().wrapping_add(1));
    let mut bv = BitVec::with_capacity(n, Layout::standard());
    for _i in 0..n
        invariant
            bv.wf(),
            n < 64,
            bv@.len() == _i,
            forall|k: int| 0 <= k < bv@.len() ==> bv@[k] == all_ones,
    {
        bv.push(all_ones);
    }
    let bs = bv.as_bitslice();
    let (lead, trail) = if all_ones {
        (bs.leading_ones(), bs.trailing_ones())
    } else {
        (bs.leading_zeros(), bs.trailing_zeros())
    };
    proof {
        law_homogeneous_runs(bs@, all_ones, lead as int, trail as int);
    }
    if lead == n && trail == n {
        PropertyResult::Pass
    } else {
        PropertyResult::Fail(homogeneous_message(n, all_ones, lead, trail))
    }
}

/// Comparing a bit-vector with a window onto another gives the same ordering
/// as comparing the two bit-vectors.
pub fn property_bitvec_partial_cmp_matches(a: Vec<bool>, b: Vec<bool>) -> (r: PropertyResult)
    requires
        a@.len() <= MAX_BITS,
        b@.len() <= MAX_BITS,
    ensures
        r is Pass,
{
    let bv_a = bools_to_bitvec(a.as_slice());
    let bv_b = bools_to_bitvec(b.as_slice());
    let bs_b = bv_b.as_bitslice();
    let vec_vs_slice = bv_a.partial_cmp_slice(&bs_b);
    let vec_vs_vec = bv_a.partial_cmp(&bv_b);
    if same_ordering(vec_vs_slice, vec_vs_vec) {
        PropertyResult::Pass
    } else {
        PropertyResult::Fail(ordering_mismatch_message(vec_vs_slice, vec_vs_vec))
    }
}

/// `clone_from_bitslice` makes the destination bit-equal to the source, also
/// when their layouts differ. Empty inputs are discarded; otherwise the
/// length is `min(len) % 64 + 1`, and each side repeats its input cyclically.
pub fn property_clone_from_bitslice_copies_src(dst_init: Vec<bool>, src_init: Vec<bool>) -> (r:
    PropertyResult)
    ensures
        (dst_init@.len() == 0 || src_init@.len() == 0) ==> r is Discard,
        (dst_init@.len() != 0 && src_init@.len() != 0) ==> r is Pass,
{
    if dst_init.len() == 0 || src_init.len() == 0 {
        return PropertyResult::Discard;
    }
    let dlen = dst_init.len();
    let slen = src_init.len();
    let shorter = if dlen < slen {
        dlen
    } else {
        slen
    };
    let n = shorter % 64 + 1;
    let mut dst = BitVec::with_capacity(n, Layout { store: Store::U8, order: BitOrder::Lsb0 });
    for i in 0..n
        invariant
            dst.wf(),
            n <= 64,
            dst@.len() == i,
            dlen == dst_init@.len(),
            dlen > 0,
    {
        dst.push(dst_init[i % dlen]);
    }
    let mut src = BitVec::with_capacity(n, Layout { store: Store::U16, order: BitOrder::Msb0 });
    for i in 0..n
        invariant
            src.wf(),
            n <= 64,
            slen == src_init@.len(),
            slen > 0,
            src@.len() == i,
            forall|k: int| 0 <= k < i ==> #[trigger] src@[k] == src_init@[k % (slen as int)],
    {
        src.push(src_init[i % slen]);
    }
    dst.clone_from_bitslice(&src.as_bitslice());
    for i in 0..n
        invariant
            dst.wf(),
            n == dst@.len(),
            slen == src_init@.len(),
            slen > 0,
            forall|k: int| 0 <= k < n ==> #[trigger] dst@[k] == src_init@[k % (slen as int)],
    {
        let want = src_init[i % slen];
        if dst.get(i) != want {
            return PropertyResult::Fail(clone_mismatch_message(i, dst.get(i), want, n));
        }
    }
    PropertyResult::Pass
}

/// The number of octal digit characters in `s`.
fn count_digits(s: &String) -> (n: usize)
    ensures
        n == count_octal_digits(s@),
{
    let st = s.as_str();
    let len = st.unicode_len();
    let mut count: usize = 0;
    for i in 0..len
        invariant
            len == st@.len(),
            st@ == s@,
            count == count_octal_digits(st@.take(i as int)),
            count <= i,
    {
        let c = st.get_char(i);
        proof {
            assert(st@.take(i + 1).drop_last() =~= st@.take(i as int));
            assert(st@.take(i + 1).last() == c);
        }
        if '0' <= c && c <= '7' {
            count = count + 1;
        }
    }
    proof {
        assert(st@.take(len as int) =~= st@);
    }
    count
}

/// The octal rendering of `n_elems % 3 + 1` whole 64-bit elements holds
/// `ceil(64 / 3) = 22` digits for each element.
pub fn property_octal_fmt_no_panic(n_elems: u8) -> (r: PropertyResult)
    ensures
        r is Pass,
{
    let n_elems = (n_elems as usize) % 3 + 1;
    let n_bits = n_elems * 64;
    let mut bv = BitVec::with_capacity(n_bits, Layout { store: Store::U64, order: BitOrder::Lsb0 });
    for i in 0..n_bits
        invariant
            bv.wf(),
            n_bits <= 192,
            bv@.len() == i,
            bv.layout_spec() == (Layout { store: Store::U64, order: BitOrder::Lsb0 }),
    {
        bv.push(i % 3 == 0);
    }
    let bs = bv.as_bitslice();
    let buf = bs.to_octal_string();
    proof {
        law_render_digit_count(bs@, 0, 64);
        law_whole_elements_digit_count(bs@, 0, 64, n_elems as nat);
    }
    let digits = count_digits(&buf);
    if buf.as_str().unicode_len() == 0 {
        return PropertyResult::Fail(octal_empty_message(n_bits));
    }
    let expected_min = n_elems * 22;
    if digits < expected_min {
        PropertyResult::Fail(octal_short_message(digits, n_elems, expected_min))
    } else {
        PropertyResult::Pass
    }
}

/// A verdict as the optional outcome a test runner takes: passed, failed, or
/// no verdict for a discarded input.
pub fn to_opt(r: PropertyResult) -> (o: Option<bool>)
    ensures
        (r is Pass) ==> o == Some(true),
        (r is Fail) ==> o == Some(false),
        (r is Discard) ==> o == None::<bool>,
{
    match r {
        PropertyResult::Pass => Some(true),
        PropertyResult::Fail(_) => Some(false),
        PropertyResult::Discard => None,
    }
}

/// A verdict as a result: passes and discards are `Ok`, a failure is `Err`
/// with its message.
pub fn to_err(r: PropertyResult) -> (res: Result<(), String>)
    ensures
        match r {
            PropertyResult::Pass => res is Ok,
            PropertyResult::Discard => res is Ok,
            PropertyResult::Fail(m) => res == Err::<(), String>(m),
        },
{
    match r {
        PropertyResult::Pass | PropertyResult::Discard => Ok(()),
        PropertyResult::Fail(m) => Err(m),
    }
}

/// Renders a failure message with `format!`; nothing is claimed of the text.
#[verifier::external_body]
fn split_sizes_message(mid: usize, len: usize, l: usize, r: usize, want_r: usize) -> String {
    format!("split_at_mut(mid={mid}, len={len}) returned sizes ({l},{r}); expected ({mid},{want_r})")
}

/// Renders a failure message with `format!`; nothing is claimed of the text.
#[verifier::external_body]
fn insert_len_message(index: usize, new_len: usize, want: usize) -> String {
    format!("insert({index}, _) produced len {new_len}; expected {want}")
}

/// Renders a failure message with `format!`; nothing is claimed of the text.
#[verifier::external_body]
fn insert_value_message(index: usize, value: bool) -> String {
    format!("insert({index}, {value}) placed the wrong bit at index {index}")
}

/// Renders a failure message with `format!`; nothing is claimed of the text.
#[verifier::external_body]
fn insert_corrupt_message(index: usize, i: usize, got: bool, want: bool) -> String {
    format!("insert({index}, _) corrupted bit {i}: got {got} expected {want}")
}

/// Renders a failure message with `format!`; nothing is claimed of the text.
#[verifier::external_body]
fn homogeneous_message(n: usize, all_ones: bool, lead: usize, trail: usize) -> String {
    format!(
        "homogeneous {n}-bit slice (all_ones={all_ones}): leading={lead}, trailing={trail}; expected ({n},{n})"
    )
}

/// Renders a failure message with `format!`; nothing is claimed of the text.
#[verifier::external_body]
fn ordering_mismatch_message(vec_vs_slice: Option<Ordering>, vec_vs_vec: Option<Ordering>) -> String {
    format!(
        "BitVec.partial_cmp(&BitSlice)={vec_vs_slice:?} but BitVec.partial_cmp(&BitVec)={vec_vs_vec:?}"
    )
}

/// Renders a failure message with `format!`; nothing is claimed of the text.
#[verifier::external_body]
fn clone_mismatch_message(i: usize, got: bool, want: bool, n: usize) -> String {
    format!("clone_from_bitslice left bit {i}={got} (expected {want}); length {n}")
}

/// Renders a failure message with `format!`; nothing is claimed of the text.
#[verifier::external_body]
fn octal_empty_message(n_bits: usize) -> String {
    format!("Octal::fmt produced empty output for n={n_bits}")
}

/// Renders a failure message with `format!`; nothing is claimed of the text.
#[verifier::external_body]
fn octal_short_message(digits: usize, n_elems: usize, expected_min: usize) -> String {
    format!(
        "Octal::fmt emitted {digits} octal digits for {n_elems} u64 chunks; expected at least {expected_min}"
    )
}

} // verus!

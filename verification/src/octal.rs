//! Octal rendering of a window of bits. The window is cut at the boundaries of
//! its storage elements; each piece is written as the octal digits of the
//! number its bits spell, first bit most significant, with one digit for every
//! three bits counted from the end of the piece, so that a piece of `n` bits
//! always takes `ceil(n / 3)` digits. The pieces are listed between square
//! brackets, separated by a comma and a space.
use vstd::prelude::*;
use crate::text::push_char;
use crate::layout::is_width;
use crate::slice::BitSlice;
use crate::vec::MAX_BITS;

verus! {

/// `2` to the power `n`.
pub open spec fn two_pow(n: nat) -> nat
    decreases n,
{
    if n == 0 {
        1
    } else {
        2 * two_pow((n - 1) as nat)
    }
}

/// The number that the bits of `g` spell, first bit most significant.
pub open spec fn group_value(g: Seq<bool>) -> nat
    decreases g.len(),
{
    if g.len() == 0 {
        0
    } else {
        2 * group_value(g.drop_last()) + (if g.last() {
            1nat
        } else {
            0nat
        })
    }
}

/// The octal digit character for a value below eight.
pub open spec fn octal_char(v: nat) -> char {
    if v == 0 {
        '0'
    } else if v == 1 {
        '1'
    } else if v == 2 {
        '2'
    } else if v == 3 {
        '3'
    } else if v == 4 {
        '4'
    } else if v == 5 {
        '5'
    } else if v == 6 {
        '6'
    } else {
        '7'
    }
}

/// Whether `c` is one of the characters `0` to `7`.
pub open spec fn is_octal_digit(c: char) -> bool {
    '0' <= c && c <= '7'
}

/// Length of the first group of a piece of `n` bits: the groups are cut
/// every three bits from the end, so only the first can be shorter.
pub open spec fn first_group_len(n: int) -> int {
    if n % 3 == 0 {
        3
    } else {
        n % 3
    }
}

/// The octal digits of one piece of bits.
pub open spec fn octal_digits(bits: Seq<bool>) -> Seq<char>
    decreases bits.len(),
{
    if bits.len() == 0 {
        Seq::empty()
    } else {
        let k = first_group_len(bits.len() as int);
        seq![octal_char(group_value(bits.take(k)))] + octal_digits(bits.skip(k))
    }
}

/// The rendered pieces of `bits`, which start at absolute bit index `offset`
/// of storage cut into elements of `w` bits.
pub open spec fn octal_pieces(bits: Seq<bool>, offset: int, w: int) -> Seq<Seq<char>>
    decreases bits.len(),
{
    if bits.len() == 0 || w <= 0 || offset < 0 {
        Seq::empty()
    } else {
        let room = w - offset % w;
        let k = if room < bits.len() {
            room
        } else {
            bits.len() as int
        };
        seq![octal_digits(bits.take(k))] + octal_pieces(bits.skip(k), offset + k, w)
    }
}

/// The pieces separated by a comma and a space.
pub open spec fn join_pieces(pieces: Seq<Seq<char>>) -> Seq<char>
    decreases pieces.len(),
{
    if pieces.len() == 0 {
        Seq::empty()
    } else if pieces.len() == 1 {
        pieces[0]
    } else {
        join_pieces(pieces.drop_last()) + seq![',', ' '] + pieces.last()
    }
}

/// The complete octal rendering of `bits`.
pub open spec fn render_octal(bits: Seq<bool>, offset: int, w: int) -> Seq<char> {
    seq!['['] + join_pieces(octal_pieces(bits, offset, w)) + seq![']']
}

/// The number of octal digit characters in `s`.
pub open spec fn count_octal_digits(s: Seq<char>) -> nat
    decreases s.len(),
{
    if s.len() == 0 {
        0
    } else {
        count_octal_digits(s.drop_last()) + (if is_octal_digit(s.last()) {
            1nat
        } else {
            0nat
        })
    }
}

/// The total length of a list of pieces.
pub open spec fn total_len(pieces: Seq<Seq<char>>) -> nat
    decreases pieces.len(),
{
    if pieces.len() == 0 {
        0
    } else {
        total_len(pieces.drop_last()) + pieces.last().len()
    }
}

proof fn lemma_group_value_bound(g: Seq<bool>)
    ensures
        group_value(g) < two_pow(g.len()),
    decreases g.len(),
{
    if g.len() > 0 {
        lemma_group_value_bound(g.drop_last());
    }
}

/// The value of a digit character: its distance from `0`.
pub open spec fn digit_value(c: char) -> int {
    (c as int) - ('0' as int)
}

/// The number that an octal numeral spells, first digit most significant.
pub open spec fn octal_value(s: Seq<char>) -> int
    decreases s.len(),
{
    if s.len() == 0 {
        0
    } else {
        8 * octal_value(s.drop_last()) + digit_value(s.last())
    }
}

/// The digit for a value below eight is the character that many places
/// after `0`.
pub proof fn law_octal_char_is_digit(v: nat)
    requires
        v < 8,
    ensures
        octal_char(v) as int == ('0' as int) + v,
        is_octal_digit(octal_char(v)),
        digit_value(octal_char(v)) == v,
{
}

proof fn lemma_two_pow_add(a: nat, b: nat)
    ensures
        two_pow(a + b) == two_pow(a) * two_pow(b),
    decreases b,
{
    if b == 0 {
        assert(two_pow(b) == 1);
        assert(two_pow(a) * 1 == two_pow(a));
        assert(a + b == a);
    } else {
        lemma_two_pow_add(a, (b - 1) as nat);
        assert(two_pow(a + b) == 2 * two_pow((a + b - 1) as nat));
        assert(two_pow(a) * two_pow(b) == two_pow(a) * (2 * two_pow((b - 1) as nat)));
        assert(two_pow(a) * (2 * two_pow((b - 1) as nat)) == 2 * (two_pow(a) * two_pow(
            (b - 1) as nat,
        ))) by (nonlinear_arith);
    }
}

proof fn lemma_group_value_concat(a: Seq<bool>, b: Seq<bool>)
    ensures
        group_value(a + b) == group_value(a) * two_pow(b.len()) + group_value(b),
    decreases b.len(),
{
    if b.len() == 0 {
        assert(a + b =~= a);
        assert(two_pow(b.len()) == 1);
        assert(group_value(a) * 1 == group_value(a));
        assert(group_value(b) == 0);
    } else {
        let b0 = b.drop_last();
        lemma_group_value_concat(a, b0);
        assert((a + b).drop_last() =~= a + b0);
        assert((a + b).last() == b.last());
        let ga = group_value(a);
        let p = two_pow(b0.len());
        assert(two_pow(b.len()) == 2 * p);
        assert(2 * (ga * p + group_value(b0)) == ga * (2 * p) + 2 * group_value(b0)) by (
        nonlinear_arith);
    }
}

proof fn lemma_octal_value_concat(s: Seq<char>, t: Seq<char>)
    ensures
        octal_value(s + t) == octal_value(s) * two_pow(3 * t.len()) + octal_value(t),
    decreases t.len(),
{
    if t.len() == 0 {
        assert(s + t =~= s);
        assert(two_pow(3 * t.len()) == 1);
        assert(octal_value(s) * 1 == octal_value(s));
        assert(octal_value(t) == 0);
    } else {
        let t0 = t.drop_last();
        lemma_octal_value_concat(s, t0);
        assert((s + t).drop_last() =~= s + t0);
        assert((s + t).last() == t.last());
        let vs = octal_value(s);
        let p = two_pow(3 * t0.len());
        lemma_two_pow_add(3 * t0.len(), 3);
        assert(3 * t.len() == 3 * t0.len() + 3);
        assert(two_pow(3) == 8) by {
            reveal_with_fuel(two_pow, 4);
        }
        assert(two_pow(3 * t.len()) == p * 8);
        assert(8 * (vs * p + octal_value(t0)) == vs * (p * 8) + 8 * octal_value(t0)) by (
        nonlinear_arith);
    }
}

/// Reading the digits of a piece back as an octal numeral gives the number
/// that the piece's bits spell, first bit most significant.
pub proof fn law_octal_digits_value(bits: Seq<bool>)
    ensures
        octal_value(octal_digits(bits)) == group_value(bits),
    decreases bits.len(),
{
    if bits.len() > 0 {
        let n = bits.len() as int;
        let k = first_group_len(n);
        let head = bits.take(k);
        let rest = bits.skip(k);
        law_octal_digits_value(rest);
        law_octal_digits_len(rest);
        lemma_group_value_bound(head);
        assert(two_pow(head.len()) <= 8) by {
            reveal_with_fuel(two_pow, 4);
        }
        let v = group_value(head);
        law_octal_char_is_digit(v);
        let d = octal_digits(rest);
        assert(rest.len() % 3 == 0);
        assert(3 * d.len() == rest.len());
        lemma_octal_value_concat(seq![octal_char(v)], d);
        assert(octal_value(seq![octal_char(v)]) == v) by {
            let one = seq![octal_char(v)];
            assert(one.drop_last() =~= Seq::<char>::empty());
            assert(octal_value(one.drop_last()) == 0);
            assert(one.last() == octal_char(v));
        }
        assert(head + rest =~= bits);
        lemma_group_value_concat(head, rest);
    }
}

/// A piece of `n` bits takes `ceil(n / 3)` octal digits.
pub proof fn law_octal_digits_len(bits: Seq<bool>)
    ensures
        octal_digits(bits).len() == (bits.len() + 2) / 3,
    decreases bits.len(),
{
    if bits.len() > 0 {
        law_octal_digits_len(bits.skip(first_group_len(bits.len() as int)));
    }
}

proof fn lemma_octal_digits_are_digits(bits: Seq<bool>)
    ensures
        forall|i: int| 0 <= i < octal_digits(bits).len() ==> is_octal_digit(
            #[trigger] octal_digits(bits)[i],
        ),
    decreases bits.len(),
{
    if bits.len() > 0 {
        let k = first_group_len(bits.len() as int);
        lemma_octal_digits_are_digits(bits.skip(k));
        let d = octal_digits(bits);
        assert forall|i: int| 0 <= i < d.len() implies is_octal_digit(#[trigger] d[i]) by {
            if i > 0 {
                assert(d[i] == octal_digits(bits.skip(k))[i - 1]);
            }
        }
    }
}

proof fn lemma_count_concat(a: Seq<char>, b: Seq<char>)
    ensures
        count_octal_digits(a + b) == count_octal_digits(a) + count_octal_digits(b),
    decreases b.len(),
{
    if b.len() > 0 {
        lemma_count_concat(a, b.drop_last());
        assert((a + b).drop_last() =~= a + b.drop_last());
    } else {
        assert(a + b =~= a);
    }
}

proof fn lemma_count_all_digits(s: Seq<char>)
    requires
        forall|i: int| 0 <= i < s.len() ==> is_octal_digit(#[trigger] s[i]),
    ensures
        count_octal_digits(s) == s.len(),
    decreases s.len(),
{
    if s.len() > 0 {
        lemma_count_all_digits(s.drop_last());
    }
}

proof fn lemma_count_join(pieces: Seq<Seq<char>>)
    requires
        forall|i: int, j: int|
            0 <= i < pieces.len() && 0 <= j < pieces[i].len() ==> is_octal_digit(
                #[trigger] pieces[i][j],
            ),
    ensures
        count_octal_digits(join_pieces(pieces)) == total_len(pieces),
    decreases pieces.len(),
{
    if pieces.len() == 1 {
        lemma_count_all_digits(pieces[0]);
        assert(total_len(pieces.drop_last()) == 0);
    } else if pieces.len() > 1 {
        let init = pieces.drop_last();
        lemma_count_join(init);
        lemma_count_all_digits(pieces.last());
        lemma_count_concat(join_pieces(init), seq![',', ' ']);
        lemma_count_concat(join_pieces(init) + seq![',', ' '], pieces.last());
        assert(count_octal_digits(seq![',', ' ']) == 0) by {
            reveal_with_fuel(count_octal_digits, 3);
            assert(seq![',', ' '].drop_last() =~= seq![',']);
            assert(seq![','].drop_last() =~= Seq::<char>::empty());
        }
    }
}

proof fn lemma_pieces_are_digits(bits: Seq<bool>, offset: int, w: int)
    ensures
        forall|i: int, j: int|
            0 <= i < octal_pieces(bits, offset, w).len() && 0 <= j < octal_pieces(
                bits,
                offset,
                w,
            )[i].len() ==> is_octal_digit(#[trigger] octal_pieces(bits, offset, w)[i][j]),
    decreases bits.len(),
{
    if bits.len() > 0 && w > 0 && offset >= 0 {
        let room = w - offset % w;
        let k = if room < bits.len() {
            room
        } else {
            bits.len() as int
        };
        lemma_pieces_are_digits(bits.skip(k), offset + k, w);
        lemma_octal_digits_are_digits(bits.take(k));
        let p = octal_pieces(bits, offset, w);
        assert forall|i: int, j: int|
            0 <= i < p.len() && 0 <= j < p[i].len() implies is_octal_digit(#[trigger] p[i][j]) by {
            if i > 0 {
                assert(p[i] == octal_pieces(bits.skip(k), offset + k, w)[i - 1]);
            } else {
                assert(p[i] == octal_digits(bits.take(k)));
            }
        }
    }
}

/// The rendering holds exactly as many octal digit characters as its pieces
/// hold digits: the brackets and separators hold none.
pub proof fn law_render_digit_count(bits: Seq<bool>, offset: int, w: int)
    ensures
        count_octal_digits(render_octal(bits, offset, w)) == total_len(
            octal_pieces(bits, offset, w),
        ),
{
    let pieces = octal_pieces(bits, offset, w);
    lemma_pieces_are_digits(bits, offset, w);
    lemma_count_join(pieces);
    lemma_count_concat(seq!['['], join_pieces(pieces));
    lemma_count_concat(seq!['['] + join_pieces(pieces), seq![']']);
    assert(count_octal_digits(seq!['[']) == 0) by {
        reveal_with_fuel(count_octal_digits, 2);
        assert(seq!['['].drop_last() =~= Seq::<char>::empty());
    }
    assert(count_octal_digits(seq![']']) == 0) by {
        reveal_with_fuel(count_octal_digits, 2);
        assert(seq![']'].drop_last() =~= Seq::<char>::empty());
    }
}

proof fn lemma_total_len_prepend(x: Seq<char>, rest: Seq<Seq<char>>)
    ensures
        total_len(seq![x] + rest) == x.len() + total_len(rest),
    decreases rest.len(),
{
    let whole = seq![x] + rest;
    if rest.len() == 0 {
        assert(whole =~= seq![x]);
        assert(whole.drop_last() =~= Seq::<Seq<char>>::empty());
        assert(whole.last() == x);
        assert(total_len(whole) == total_len(whole.drop_last()) + whole.last().len());
        assert(total_len(Seq::<Seq<char>>::empty()) == 0);
    } else {
        lemma_total_len_prepend(x, rest.drop_last());
        assert(whole.drop_last() =~= seq![x] + rest.drop_last());
        assert(whole.last() == rest.last());
    }
}

/// When `bits` start on an element boundary and fill `m` whole elements of
/// `w` bits, the rendering holds `m * ceil(w / 3)` digits.
pub proof fn law_whole_elements_digit_count(bits: Seq<bool>, offset: int, w: int, m: nat)
    requires
        is_width(w),
        offset >= 0,
        offset % w == 0,
        bits.len() == m * w,
    ensures
        total_len(octal_pieces(bits, offset, w)) == m * ((w + 2) / 3),
    decreases m,
{
    if m == 0 {
        assert(bits.len() == 0) by (nonlinear_arith)
            requires
                m == 0,
                bits.len() == m * w,
        ;
        assert(total_len(octal_pieces(bits, offset, w)) == 0);
    } else {
        assert(bits.len() >= w) by (nonlinear_arith)
            requires
                bits.len() == m * w,
                m >= 1,
                w > 0,
        ;
        let rest = bits.skip(w);
        assert((offset + w) % w == 0) by (nonlinear_arith)
            requires
                offset % w == 0,
                w > 0,
        ;
        assert(rest.len() == (m - 1) as nat * w) by (nonlinear_arith)
            requires
                m >= 1,
                rest.len() == bits.len() - w,
                bits.len() == m * w,
        ;
        law_whole_elements_digit_count(rest, offset + w, w, (m - 1) as nat);
        assert(octal_pieces(bits, offset, w) == seq![octal_digits(bits.take(w))] + octal_pieces(
            rest,
            offset + w,
            w,
        ));
        law_octal_digits_len(bits.take(w));
        lemma_total_len_prepend(octal_digits(bits.take(w)), octal_pieces(rest, offset + w, w));
        assert(bits.take(w).len() == w);
        assert(octal_digits(bits.take(w)).len() == (w + 2) / 3);
        assert(m * ((w + 2) / 3) == (m - 1) as nat * ((w + 2) / 3) + (w + 2) / 3) by (
        nonlinear_arith)
            requires
                m >= 1,
        ;
        assert(total_len(octal_pieces(bits, offset, w)) == (w + 2) / 3 + total_len(
            octal_pieces(rest, offset + w, w),
        ));
    }
}

/// The digit character for `v`.
fn digit_char(v: u8) -> (c: char)
    requires
        v < 8,
    ensures
        c == octal_char(v as nat),
        c as int == ('0' as int) + v,
{
    if v == 0 {
        '0'
    } else if v == 1 {
        '1'
    } else if v == 2 {
        '2'
    } else if v == 3 {
        '3'
    } else if v == 4 {
        '4'
    } else if v == 5 {
        '5'
    } else if v == 6 {
        '6'
    } else {
        '7'
    }
}

impl<'a> BitSlice<'a> {
    /// Appends the octal digits of the bits `from .. from + k` to `out`.
    fn push_octal_digits(&self, out: &mut String, from: usize, k: usize)
        requires
            self.wf(),
            from + k <= self@.len(),
        ensures
            final(out)@ == old(out)@ + octal_digits(self@.subrange(from as int, from + k)),
    {
        let ghost piece = self@.subrange(from as int, from + k);
        let _ = self.offset_index();
        proof {
            assert(piece.skip(0) =~= piece);
        }
        let mut p: usize = 0;
        while p < k
            invariant
                self.wf(),
                from + k <= self@.len(),
                self@.len() <= MAX_BITS,
                piece == self@.subrange(from as int, from + k),
                p <= k,
                old(out)@ + octal_digits(piece) == out@ + octal_digits(piece.skip(p as int)),
            decreases k - p,
        {
            let ghost rest = piece.skip(p as int);
            let g = if (k - p) % 3 == 0 {
                3
            } else {
                (k - p) % 3
            };
            let mut v: u8 = 0;
            let mut t: usize = 0;
            while t < g
                invariant
                    self.wf(),
                    from + k <= self@.len(),
                    self@.len() <= MAX_BITS,
                    piece == self@.subrange(from as int, from + k),
                    rest == piece.skip(p as int),
                    p < k,
                    1 <= g <= 3,
                    g <= k - p,
                    t <= g,
                    v == group_value(rest.take(t as int)),
                    v < two_pow(t as nat),
                decreases g - t,
            {
                proof {
                    reveal_with_fuel(two_pow, 4);
                }
                let bit = self.get(from + p + t);
                proof {
                    assert(rest.take(t + 1).drop_last() =~= rest.take(t as int));
                    assert(rest.take(t + 1).last() == bit);
                }
                v = 2 * v + if bit {
                    1
                } else {
                    0
                };
                t = t + 1;
            }
            proof {
                reveal_with_fuel(two_pow, 4);
                assert(rest.skip(g as int) =~= piece.skip(p + g));
                assert(octal_digits(rest) == seq![octal_char(group_value(rest.take(g as int)))]
                    + octal_digits(rest.skip(g as int)));
            }
            let c = digit_char(v);
            push_char(out, c);
            p = p + g;
            proof {
                assert(old(out)@ + octal_digits(piece) == out@ + octal_digits(piece.skip(p as int)));
            }
        }
        proof {
            assert(piece.skip(k as int) =~= Seq::<bool>::empty());
            assert(out@ + Seq::<char>::empty() =~= out@);
        }
    }

    /// The octal rendering of the window.
    pub fn to_octal_string(&self) -> (s: String)
        requires
            self.wf(),
        ensures
            s@ == render_octal(self@, self.offset(), self.layout_spec().width()),
    {
        let ghost bits = self@;
        let ghost w_int = self.layout_spec().width();
        let w = self.layout().store.bits();
        let n = self.len();
        let _ = self.offset_index();
        let mut out = String::new();
        push_char(&mut out, '[');
        proof {
            assert(bits.skip(0) =~= bits);
            assert(Seq::<Seq<char>>::empty() + octal_pieces(bits, self.offset(), w as int)
                =~= octal_pieces(bits, self.offset(), w as int));
            assert(out@ =~= seq!['['] + join_pieces(Seq::<Seq<char>>::empty()));
        }
        let mut pos: usize = 0;
        let ghost mut done: Seq<Seq<char>> = Seq::empty();
        while pos < n
            invariant
                self.wf(),
                bits == self@,
                n == bits.len(),
                w == w_int,
                is_width(w as int),
                pos <= n,
                self.offset() >= 0,
                self.offset() + n <= MAX_BITS,
                (pos == 0) == (done.len() == 0),
                done + octal_pieces(bits.skip(pos as int), self.offset() + pos, w as int)
                    == octal_pieces(bits, self.offset(), w as int),
                out@ == seq!['['] + join_pieces(done),
            decreases n - pos,
        {
            let abs = self.offset_index() + pos;
            let room = w - abs % w;
            let k = if room < n - pos {
                room
            } else {
                n - pos
            };
            if pos > 0 {
                push_char(&mut out, ',');
                push_char(&mut out, ' ');
            }
            self.push_octal_digits(&mut out, pos, k);
            proof {
                let rest = bits.skip(pos as int);
                assert(rest.take(k as int) =~= bits.subrange(pos as int, pos + k));
                assert(rest.skip(k as int) =~= bits.skip(pos + k));
                assert(octal_pieces(rest, self.offset() + pos, w as int) == seq![
                    octal_digits(rest.take(k as int)),
                ] + octal_pieces(rest.skip(k as int), self.offset() + pos + k, w as int));
                let piece = octal_digits(bits.subrange(pos as int, pos + k));
                let done2 = done.push(piece);
                assert(done2 + octal_pieces(bits.skip(pos + k), self.offset() + pos + k, w as int)
                    =~= done + octal_pieces(rest, self.offset() + pos, w as int));
                if done.len() == 0 {
                    assert(done2 =~= seq![piece]);
                } else {
                    assert(done2.drop_last() =~= done);
                }
                done = done2;
            }
            pos = pos + k;
        }
        proof {
            assert(bits.skip(n as int) =~= Seq::<bool>::empty());
            assert(done + Seq::<Seq<char>>::empty() =~= done);
        }
        push_char(&mut out, ']');
        out
    }
}

} // verus!

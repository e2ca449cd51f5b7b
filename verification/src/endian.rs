//! Byte-order selection and the mathematical model of fixed-width integer
//! encodings.
//!
//! A serialization sink is an append-only byte destination together with an
//! endianness selector; every multi-byte numeric encode in one call obeys
//! that selector.

use vstd::arithmetic::div_mod::lemma_div_denominator;
use vstd::prelude::*;

verus! {

/// Byte order applied to all multi-byte numeric encodings of one
/// serialization call.
#[derive(Clone, Copy, PartialEq, Eq, Structural, Debug)]
pub enum Endianness {
    Big,
    Little,
}

/// 256 raised to `n`: the number of values representable in `n` bytes.
pub open spec fn pow256(n: nat) -> nat
    decreases n,
{
    if n == 0 {
        1
    } else {
        256 * pow256((n - 1) as nat)
    }
}

/// The little-endian rendering of `v` in `w` bytes, low byte first
/// (`v` is taken modulo `pow256(w)`).
pub open spec fn le_bytes_of(v: nat, w: nat) -> Seq<u8>
    decreases w,
{
    if w == 0 {
        Seq::empty()
    } else {
        seq![(v % 256) as u8] + le_bytes_of(v / 256, (w - 1) as nat)
    }
}

/// The rendering of `v` in `w` bytes under the byte order `e`.
pub open spec fn bytes_of(v: nat, w: nat, e: Endianness) -> Seq<u8> {
    match e {
        Endianness::Little => le_bytes_of(v, w),
        Endianness::Big => le_bytes_of(v, w).reverse(),
    }
}

pub broadcast proof fn lemma_le_bytes_len(v: nat, w: nat)
    ensures
        #[trigger] le_bytes_of(v, w).len() == w,
    decreases w,
{
    if w > 0 {
        lemma_le_bytes_len(v / 256, (w - 1) as nat);
    }
}

/// An encoding is always exactly `w` bytes long, in either byte order.
pub proof fn lemma_bytes_of_len(v: nat, w: nat, e: Endianness)
    ensures
        bytes_of(v, w, e).len() == w,
{
    lemma_le_bytes_len(v, w);
}

/// The big-endian and little-endian renderings of one value are reverses
/// of each other.
pub proof fn lemma_endian_reverse(v: nat, w: nat)
    ensures
        bytes_of(v, w, Endianness::Big) == bytes_of(v, w, Endianness::Little).reverse(),
{
}

proof fn lemma_pow256_pos(n: nat)
    ensures
        pow256(n) >= 1,
    decreases n,
{
    if n > 0 {
        lemma_pow256_pos((n - 1) as nat);
    }
}

/// Byte `i` of the little-endian rendering is digit `i` of `v` in base 256.
proof fn lemma_le_bytes_index(v: nat, w: nat, i: int)
    requires
        0 <= i < w,
    ensures
        le_bytes_of(v, w)[i] == ((v / pow256(i as nat)) % 256) as u8,
    decreases i,
{
    lemma_le_bytes_len(v, w);
    lemma_le_bytes_len(v / 256, (w - 1) as nat);
    if i == 0 {
        assert(pow256(0) == 1);
        assert(v / 1 == v) by (nonlinear_arith);
    } else {
        lemma_le_bytes_index(v / 256, (w - 1) as nat, i - 1);
        lemma_pow256_pos((i - 1) as nat);
        lemma_div_denominator(v as int, 256, pow256((i - 1) as nat) as int);
        assert(256 * pow256((i - 1) as nat) == pow256(i as nat));
    }
}

/// Appends the `w`-byte rendering of `v` under byte order `e` to `out`.
pub fn encode_uint(v: u64, w: usize, e: Endianness, out: &mut Vec<u8>)
    requires
        1 <= w <= 8,
    ensures
        final(out)@ == old(out)@ + bytes_of(v as nat, w as nat, e),
{
    let ghost le = le_bytes_of(v as nat, w as nat);
    proof {
        lemma_le_bytes_len(v as nat, w as nat);
        assert(pow256(0) == 1);
        assert((v as nat) / 1 == v as nat) by (nonlinear_arith);
    }
    let mut tmp: Vec<u8> = Vec::new();
    let mut x: u64 = v;
    let mut i: usize = 0;
    while i < w
        invariant
            i <= w <= 8,
            le == le_bytes_of(v as nat, w as nat),
            le.len() == w,
            tmp@ == le.take(i as int),
            x as nat == (v as nat) / pow256(i as nat),
        decreases w - i,
    {
        proof {
            lemma_le_bytes_index(v as nat, w as nat, i as int);
        }
        tmp.push((x % 256) as u8);
        proof {
            assert(tmp@ =~= le.take(i as int + 1));
            lemma_pow256_pos(i as nat);
            lemma_div_denominator(v as int, pow256(i as nat) as int, 256);
            assert(pow256(i as nat) * 256 == 256 * pow256(i as nat)) by (nonlinear_arith);
            assert(256 * pow256(i as nat) == pow256((i + 1) as nat));
        }
        x = x / 256;
        i = i + 1;
    }
    proof {
        assert(tmp@ =~= le);
    }
    match e {
        Endianness::Little => {
            out.append(&mut tmp);
            proof {
                assert(out@ =~= old(out)@ + bytes_of(v as nat, w as nat, e));
            }
        },
        Endianness::Big => {
            let mut j: usize = tmp.len();
            while j > 0
                invariant
                    j <= tmp.len(),
                    tmp@ == le,
                    le.len() == w,
                    out@ == old(out)@ + le.skip(j as int).reverse(),
                decreases j,
            {
                j = j - 1;
                let b = tmp[j];
                out.push(b);
                proof {
                    assert(le.skip(j as int) =~= seq![le[j as int]] + le.skip(j as int + 1));
                    assert(le.skip(j as int).reverse() =~= le.skip(j as int + 1).reverse().push(
                        le[j as int],
                    ));
                }
            }
            proof {
                assert(le.skip(0) =~= le);
                assert(out@ =~= old(out)@ + bytes_of(v as nat, w as nat, e));
            }
        },
    }
}

} // verus!

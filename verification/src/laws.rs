//! The library's stated laws: properties that hold of the codec, the
//! possibly-invalid wrapper, and generation, proved once here over all
//! inputs.

use crate::endian::{bytes_of, lemma_endian_reverse, Endianness};
use crate::serialize::{BinarySerialize, FixedWidth, SerializedSize};
use crate::shape::{forced_min, Shape};
use crate::types::{ToPrimitive, UnsafeEnum};
use crate::value::{
    lemma_value_size_matches_encoding, value_enc_spec, value_size_spec, vals_size_spec, Value,
};
use vstd::prelude::*;

verus! {

/// For every value of every codec type, the reported serialized size is
/// exactly the length of the encoding, in either byte order.
pub proof fn law_size_is_encoded_length<T: BinarySerialize>(x: T, e: Endianness)
    ensures
        x.enc_spec(e).len() == x.size_spec(),
{
    x.size_matches_encoding(e);
}

/// A sequence's serialized size is the sum of its elements' sizes: the
/// empty sequence occupies no bytes, and appending an element adds
/// exactly that element's own size.
pub proof fn law_sequence_size_is_sum(s: Seq<Value>, x: Value)
    ensures
        vals_size_spec(Seq::<Value>::empty()) == 0,
        vals_size_spec(s.push(x)) == vals_size_spec(s) + value_size_spec(x),
{
    crate::value::lemma_vals_size_push(s, x);
}

/// Encoding is endianness-correct: the big-endian and little-endian
/// renderings of one value are byte-reverses of each other.
pub proof fn law_endianness_reverse(v: nat, w: nat)
    ensures
        bytes_of(v, w, Endianness::Big) == bytes_of(v, w, Endianness::Little).reverse(),
{
    lemma_endian_reverse(v, w);
}

/// The possibly-invalid wrapper's serialized size is the backing
/// primitive's width, whichever variant is held: any two wrapper values
/// of one instantiation have equal, constant size.
pub proof fn law_wrapper_size_constant<T: ToPrimitive<I>, I: BinarySerialize + FixedWidth + Copy>(
    a: UnsafeEnum<T, I>,
    b: UnsafeEnum<T, I>,
)
    ensures
        a.size_spec() == I::width_spec(),
        a.size_spec() == b.size_spec(),
{
}

/// The possibly-invalid wrapper yields its raw backing value unchanged
/// from the invalid variant.
pub proof fn law_invalid_yields_backing<T: ToPrimitive<I>, I: Copy>(n: I)
    ensures
        (UnsafeEnum::<T, I>::Invalid(n)).prim_spec() == n,
{
}

/// A generated value whose shape's unavoidable size fits the budget
/// encodes to no more bytes than the budget, in either byte order.
pub proof fn law_encoding_fits_budget(v: Value, s: Shape, b: nat, e: Endianness)
    requires
        crate::generate::within_budget(v, s, b),
        forced_min(s) <= b,
    ensures
        value_enc_spec(v, e).len() <= b,
{
    lemma_value_size_matches_encoding(v, e);
}

} // verus!

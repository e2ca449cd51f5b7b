//! The primitive codec: exact byte-size computation and binary encoding for
//! primitive scalars, text, byte sequences, and the possibly-invalid value
//! wrapper.

use crate::endian::{bytes_of, lemma_bytes_of_len, Endianness};
use crate::types::{AsciiChar, AsciiString, ToPrimitive, UnsafeEnum, Utf8Char, Utf8String};
use vstd::prelude::*;
use vstd::string::StringSliceAdditionalSpecFns;
use vstd::utf8::{encode_scalar, encode_utf8, is_scalar};

verus! {

/// Exact serialized byte length, together with the smallest possible
/// nonzero element size. Generators consult the latter to decide whether a
/// remaining size budget can still admit at least one more element.
pub trait SerializedSize {
    /// The exact serialized size of this value, in bytes.
    spec fn size_spec(&self) -> nat;

    /// The smallest possible nonzero encoding size for a value of this
    /// type.
    spec fn min_nonzero_spec() -> nat;

    /// Returns the exact number of bytes `binary_serialize` would append.
    fn serialized_size(&self) -> (r: usize)
        requires
            self.size_spec() <= usize::MAX,
        ensures
            r == self.size_spec(),
    ;

    /// Returns the smallest possible nonzero encoding size for this type.
    fn min_nonzero_elements_size() -> (r: usize)
        ensures
            r == Self::min_nonzero_spec(),
    ;
}

/// Binary encoding into an append-only byte sink, parameterized by the
/// byte order applied to multi-byte numeric values.
pub trait BinarySerialize: SerializedSize {
    /// The encoded bytes of this value under byte order `e`.
    spec fn enc_spec(&self, e: Endianness) -> Seq<u8>;

    /// Appends the encoding of this value to `out`.
    fn binary_serialize(&self, out: &mut Vec<u8>, e: Endianness)
        ensures
            final(out)@ == old(out)@ + self.enc_spec(e),
    ;

    /// The serialized size always equals the length of the encoding.
    proof fn size_matches_encoding(&self, e: Endianness)
        ensures
            self.enc_spec(e).len() == self.size_spec(),
    ;
}

/// A type whose every value encodes to the same number of bytes.
pub trait FixedWidth: BinarySerialize {
    /// The constant encoded width, in bytes.
    spec fn width_spec() -> nat;

    /// Returns the constant encoded width.
    fn byte_width() -> (r: usize)
        ensures
            r == Self::width_spec(),
    ;

    /// Every value of the type has the constant width as its size.
    proof fn size_is_width(&self)
        ensures
            self.size_spec() == Self::width_spec(),
    ;
}

/// The representative of `v` modulo `m` in `[0, m)`; used to express the
/// two's-complement bytes of signed integers.
pub open spec fn unsigned_in(v: int, m: nat) -> nat
    recommends
        m > 0,
{
    (v % (m as int)) as nat
}

impl SerializedSize for u8 {
    open spec fn size_spec(&self) -> nat {
        1
    }

    open spec fn min_nonzero_spec() -> nat {
        1
    }

    fn serialized_size(&self) -> usize {
        1
    }

    fn min_nonzero_elements_size() -> usize {
        1
    }
}

impl BinarySerialize for u8 {
    open spec fn enc_spec(&self, e: Endianness) -> Seq<u8> {
        bytes_of(*self as nat, 1, e)
    }

    fn binary_serialize(&self, out: &mut Vec<u8>, e: Endianness) {
        crate::endian::encode_uint(*self as u64, 1, e, out);
    }

    proof fn size_matches_encoding(&self, e: Endianness) {
        lemma_bytes_of_len(*self as nat, 1, e);
    }
}

impl FixedWidth for u8 {
    open spec fn width_spec() -> nat {
        1
    }

    fn byte_width() -> usize {
        1
    }

    proof fn size_is_width(&self) {
    }
}

impl SerializedSize for u16 {
    open spec fn size_spec(&self) -> nat {
        2
    }

    open spec fn min_nonzero_spec() -> nat {
        2
    }

    fn serialized_size(&self) -> usize {
        2
    }

    fn min_nonzero_elements_size() -> usize {
        2
    }
}

impl BinarySerialize for u16 {
    open spec fn enc_spec(&self, e: Endianness) -> Seq<u8> {
        bytes_of(*self as nat, 2, e)
    }

    fn binary_serialize(&self, out: &mut Vec<u8>, e: Endianness) {
        crate::endian::encode_uint(*self as u64, 2, e, out);
    }

    proof fn size_matches_encoding(&self, e: Endianness) {
        lemma_bytes_of_len(*self as nat, 2, e);
    }
}

impl FixedWidth for u16 {
    open spec fn width_spec() -> nat {
        2
    }

    fn byte_width() -> usize {
        2
    }

    proof fn size_is_width(&self) {
    }
}

impl SerializedSize for u32 {
    open spec fn size_spec(&self) -> nat {
        4
    }

    open spec fn min_nonzero_spec() -> nat {
        4
    }

    fn serialized_size(&self) -> usize {
        4
    }

    fn min_nonzero_elements_size() -> usize {
        4
    }
}

impl BinarySerialize for u32 {
    open spec fn enc_spec(&self, e: Endianness) -> Seq<u8> {
        bytes_of(*self as nat, 4, e)
    }

    fn binary_serialize(&self, out: &mut Vec<u8>, e: Endianness) {
        crate::endian::encode_uint(*self as u64, 4, e, out);
    }

    proof fn size_matches_encoding(&self, e: Endianness) {
        lemma_bytes_of_len(*self as nat, 4, e);
    }
}

impl FixedWidth for u32 {
    open spec fn width_spec() -> nat {
        4
    }

    fn byte_width() -> usize {
        4
    }

    proof fn size_is_width(&self) {
    }
}

impl SerializedSize for u64 {
    open spec fn size_spec(&self) -> nat {
        8
    }

    open spec fn min_nonzero_spec() -> nat {
        8
    }

    fn serialized_size(&self) -> usize {
        8
    }

    fn min_nonzero_elements_size() -> usize {
        8
    }
}

impl BinarySerialize for u64 {
    open spec fn enc_spec(&self, e: Endianness) -> Seq<u8> {
        bytes_of(*self as nat, 8, e)
    }

    fn binary_serialize(&self, out: &mut Vec<u8>, e: Endianness) {
        crate::endian::encode_uint(*self, 8, e, out);
    }

    proof fn size_matches_encoding(&self, e: Endianness) {
        lemma_bytes_of_len(*self as nat, 8, e);
    }
}

impl FixedWidth for u64 {
    open spec fn width_spec() -> nat {
        8
    }

    fn byte_width() -> usize {
        8
    }

    proof fn size_is_width(&self) {
    }
}

impl SerializedSize for i8 {
    open spec fn size_spec(&self) -> nat {
        1
    }

    open spec fn min_nonzero_spec() -> nat {
        1
    }

    fn serialized_size(&self) -> usize {
        1
    }

    fn min_nonzero_elements_size() -> usize {
        1
    }
}

impl BinarySerialize for i8 {
    open spec fn enc_spec(&self, e: Endianness) -> Seq<u8> {
        bytes_of(unsigned_in(*self as int, 0x100), 1, e)
    }

    fn binary_serialize(&self, out: &mut Vec<u8>, e: Endianness) {
        let u: u64 = if *self >= 0 {
            *self as u64
        } else {
            ((*self as i16) + 0x100) as u64
        };
        proof {
            assert(u as nat == unsigned_in(*self as int, 0x100));
        }
        crate::endian::encode_uint(u, 1, e, out);
    }

    proof fn size_matches_encoding(&self, e: Endianness) {
        lemma_bytes_of_len(unsigned_in(*self as int, 0x100), 1, e);
    }
}

impl FixedWidth for i8 {
    open spec fn width_spec() -> nat {
        1
    }

    fn byte_width() -> usize {
        1
    }

    proof fn size_is_width(&self) {
    }
}

impl SerializedSize for i16 {
    open spec fn size_spec(&self) -> nat {
        2
    }

    open spec fn min_nonzero_spec() -> nat {
        2
    }

    fn serialized_size(&self) -> usize {
        2
    }

    fn min_nonzero_elements_size() -> usize {
        2
    }
}

impl BinarySerialize for i16 {
    open spec fn enc_spec(&self, e: Endianness) -> Seq<u8> {
        bytes_of(unsigned_in(*self as int, 0x1_0000), 2, e)
    }

    fn binary_serialize(&self, out: &mut Vec<u8>, e: Endianness) {
        let u: u64 = if *self >= 0 {
            *self as u64
        } else {
            ((*self as i32) + 0x1_0000) as u64
        };
        proof {
            assert(u as nat == unsigned_in(*self as int, 0x1_0000));
        }
        crate::endian::encode_uint(u, 2, e, out);
    }

    proof fn size_matches_encoding(&self, e: Endianness) {
        lemma_bytes_of_len(unsigned_in(*self as int, 0x1_0000), 2, e);
    }
}

impl FixedWidth for i16 {
    open spec fn width_spec() -> nat {
        2
    }

    fn byte_width() -> usize {
        2
    }

    proof fn size_is_width(&self) {
    }
}

impl SerializedSize for i32 {
    open spec fn size_spec(&self) -> nat {
        4
    }

    open spec fn min_nonzero_spec() -> nat {
        4
    }

    fn serialized_size(&self) -> usize {
        4
    }

    fn min_nonzero_elements_size() -> usize {
        4
    }
}

impl BinarySerialize for i32 {
    open spec fn enc_spec(&self, e: Endianness) -> Seq<u8> {
        bytes_of(unsigned_in(*self as int, 0x1_0000_0000), 4, e)
    }

    fn binary_serialize(&self, out: &mut Vec<u8>, e: Endianness) {
        let u: u64 = if *self >= 0 {
            *self as u64
        } else {
            ((*self as i64) + 0x1_0000_0000) as u64
        };
        proof {
            assert(u as nat == unsigned_in(*self as int, 0x1_0000_0000));
        }
        crate::endian::encode_uint(u, 4, e, out);
    }

    proof fn size_matches_encoding(&self, e: Endianness) {
        lemma_bytes_of_len(unsigned_in(*self as int, 0x1_0000_0000), 4, e);
    }
}

impl FixedWidth for i32 {
    open spec fn width_spec() -> nat {
        4
    }

    fn byte_width() -> usize {
        4
    }

    proof fn size_is_width(&self) {
    }
}

impl SerializedSize for i64 {
    open spec fn size_spec(&self) -> nat {
        8
    }

    open spec fn min_nonzero_spec() -> nat {
        8
    }

    fn serialized_size(&self) -> usize {
        8
    }

    fn min_nonzero_elements_size() -> usize {
        8
    }
}

impl BinarySerialize for i64 {
    open spec fn enc_spec(&self, e: Endianness) -> Seq<u8> {
        bytes_of(unsigned_in(*self as int, 0x1_0000_0000_0000_0000), 8, e)
    }

    fn binary_serialize(&self, out: &mut Vec<u8>, e: Endianness) {
        let u: u64 = if *self >= 0 {
            *self as u64
        } else {
            ((*self as i128) + 0x1_0000_0000_0000_0000i128) as u64
        };
        proof {
            assert(u as nat == unsigned_in(*self as int, 0x1_0000_0000_0000_0000));
        }
        crate::endian::encode_uint(u, 8, e, out);
    }

    proof fn size_matches_encoding(&self, e: Endianness) {
        lemma_bytes_of_len(unsigned_in(*self as int, 0x1_0000_0000_0000_0000), 8, e);
    }
}

impl FixedWidth for i64 {
    open spec fn width_spec() -> nat {
        8
    }

    fn byte_width() -> usize {
        8
    }

    proof fn size_is_width(&self) {
    }
}

impl SerializedSize for bool {
    open spec fn size_spec(&self) -> nat {
        1
    }

    open spec fn min_nonzero_spec() -> nat {
        1
    }

    fn serialized_size(&self) -> usize {
        1
    }

    fn min_nonzero_elements_size() -> usize {
        1
    }
}

impl BinarySerialize for bool {
    /// A `bool` held in this safe representation is always canonical.
    /// Non-canonical boolean backing bytes, which the fuzzer deliberately
    /// produces and must reproduce on the wire, are carried by the engine's
    /// dynamic boolean value, which records the raw backing byte.
    open spec fn enc_spec(&self, e: Endianness) -> Seq<u8> {
        seq![if *self { 1u8 } else { 0u8 }]
    }

    fn binary_serialize(&self, out: &mut Vec<u8>, e: Endianness) {
        out.push(if *self { 1u8 } else { 0u8 });
        proof {
            assert(out@ =~= old(out)@ + self.enc_spec(e));
        }
    }

    proof fn size_matches_encoding(&self, e: Endianness) {
    }
}

impl FixedWidth for bool {
    open spec fn width_spec() -> nat {
        1
    }

    fn byte_width() -> usize {
        1
    }

    proof fn size_is_width(&self) {
    }
}

/// The total serialized size of a sequence of values: the sum of the
/// per-element sizes (elements may be variable-length).
pub open spec fn seq_size_spec<T: SerializedSize>(s: Seq<T>) -> nat
    decreases s.len(),
{
    if s.len() == 0 {
        0
    } else {
        s[0].size_spec() + seq_size_spec(s.drop_first())
    }
}

/// The concatenated encoding of a sequence of values, element by element in
/// order.
pub open spec fn seq_enc_spec<T: BinarySerialize>(s: Seq<T>, e: Endianness) -> Seq<u8>
    decreases s.len(),
{
    if s.len() == 0 {
        Seq::empty()
    } else {
        s[0].enc_spec(e) + seq_enc_spec(s.drop_first(), e)
    }
}

/// Appending one element adds exactly that element's size.
pub proof fn lemma_seq_size_push<T: SerializedSize>(s: Seq<T>, x: T)
    ensures
        seq_size_spec(s.push(x)) == seq_size_spec(s) + x.size_spec(),
    decreases s.len(),
{
    if s.len() == 0 {
        assert(s.push(x)[0] == x);
        assert(s.push(x).drop_first() =~= Seq::<T>::empty());
        assert(seq_size_spec(Seq::<T>::empty()) == 0);
    } else {
        assert(s.push(x)[0] == s[0]);
        assert(s.push(x).drop_first() =~= s.drop_first().push(x));
        lemma_seq_size_push(s.drop_first(), x);
    }
}

/// Appending one element appends exactly that element's encoding.
pub proof fn lemma_seq_enc_push<T: BinarySerialize>(s: Seq<T>, x: T, e: Endianness)
    ensures
        seq_enc_spec(s.push(x), e) == seq_enc_spec(s, e) + x.enc_spec(e),
    decreases s.len(),
{
    if s.len() == 0 {
        assert(s.push(x)[0] == x);
        assert(s.push(x).drop_first() =~= Seq::<T>::empty());
        assert(seq_enc_spec(Seq::<T>::empty(), e) =~= Seq::<u8>::empty());
        assert(seq_enc_spec(s.push(x), e) =~= seq_enc_spec(s, e) + x.enc_spec(e));
    } else {
        assert(s.push(x)[0] == s[0]);
        assert(s.push(x).drop_first() =~= s.drop_first().push(x));
        lemma_seq_enc_push(s.drop_first(), x, e);
        assert(seq_enc_spec(s.push(x), e) =~= seq_enc_spec(s, e) + x.enc_spec(e));
    }
}

/// A sequence's size splits at any position into the prefix sum and the
/// suffix sum.
pub proof fn lemma_seq_size_split<T: SerializedSize>(s: Seq<T>, i: int)
    requires
        0 <= i <= s.len(),
    ensures
        seq_size_spec(s) == seq_size_spec(s.take(i)) + seq_size_spec(s.skip(i)),
    decreases i,
{
    if i == 0 {
        assert(s.take(0) =~= Seq::<T>::empty());
        assert(s.skip(0) =~= s);
    } else {
        lemma_seq_size_split(s.drop_first(), i - 1);
        assert(s.take(i).drop_first() =~= s.drop_first().take(i - 1));
        assert(s.skip(i) =~= s.drop_first().skip(i - 1));
        assert(s.take(i)[0] == s[0]);
    }
}

/// The concatenated encoding of a sequence is as long as the sequence's
/// total size.
pub proof fn lemma_seq_enc_len<T: BinarySerialize>(s: Seq<T>, e: Endianness)
    ensures
        seq_enc_spec(s, e).len() == seq_size_spec(s),
    decreases s.len(),
{
    if s.len() > 0 {
        s[0].size_matches_encoding(e);
        lemma_seq_enc_len(s.drop_first(), e);
    }
}

impl<T: SerializedSize> SerializedSize for Vec<T> {
    open spec fn size_spec(&self) -> nat {
        seq_size_spec(self@)
    }

    open spec fn min_nonzero_spec() -> nat {
        T::min_nonzero_spec()
    }

    fn serialized_size(&self) -> (r: usize) {
        let mut total: usize = 0;
        let mut i: usize = 0;
        while i < self.len()
            invariant
                i <= self@.len(),
                seq_size_spec(self@) <= usize::MAX,
                total == seq_size_spec(self@.take(i as int)),
            decreases self@.len() - i,
        {
            proof {
                assert(self@.take(i as int + 1) =~= self@.take(i as int).push(self@[i as int]));
                lemma_seq_size_push(self@.take(i as int), self@[i as int]);
                lemma_seq_size_split(self@, i as int + 1);
            }
            let es = (&self[i]).serialized_size();
            total = total + es;
            i = i + 1;
        }
        proof {
            assert(self@.take(self@.len() as int) =~= self@);
        }
        total
    }

    fn min_nonzero_elements_size() -> (r: usize) {
        T::min_nonzero_elements_size()
    }
}

impl<T: BinarySerialize> BinarySerialize for Vec<T> {
    open spec fn enc_spec(&self, e: Endianness) -> Seq<u8> {
        seq_enc_spec(self@, e)
    }

    fn binary_serialize(&self, out: &mut Vec<u8>, e: Endianness) {
        let mut i: usize = 0;
        while i < self.len()
            invariant
                i <= self@.len(),
                out@ == old(out)@ + seq_enc_spec(self@.take(i as int), e),
            decreases self@.len() - i,
        {
            proof {
                assert(self@.take(i as int + 1) =~= self@.take(i as int).push(self@[i as int]));
                lemma_seq_enc_push(self@.take(i as int), self@[i as int], e);
            }
            (&self[i]).binary_serialize(out, e);
            i = i + 1;
        }
        proof {
            assert(self@.take(self@.len() as int) =~= self@);
        }
    }

    proof fn size_matches_encoding(&self, e: Endianness) {
        lemma_seq_enc_len(self@, e);
    }
}

impl<T, I> SerializedSize for UnsafeEnum<T, I> where
    T: ToPrimitive<I>,
    I: BinarySerialize + FixedWidth + Copy,
 {
    /// The size of the wrapper is the backing primitive's width, whichever
    /// variant is held.
    open spec fn size_spec(&self) -> nat {
        I::width_spec()
    }

    open spec fn min_nonzero_spec() -> nat {
        I::width_spec()
    }

    fn serialized_size(&self) -> (r: usize) {
        I::byte_width()
    }

    fn min_nonzero_elements_size() -> (r: usize) {
        I::byte_width()
    }
}

impl<T, I> BinarySerialize for UnsafeEnum<T, I> where
    T: ToPrimitive<I>,
    I: BinarySerialize + FixedWidth + Copy,
 {
    /// The wrapper encodes as its backing primitive value: the semantic
    /// variant contributes its primitive conversion, the invalid variant
    /// its raw backing value.
    open spec fn enc_spec(&self, e: Endianness) -> Seq<u8> {
        self.prim_spec().enc_spec(e)
    }

    fn binary_serialize(&self, out: &mut Vec<u8>, e: Endianness) {
        match self {
            UnsafeEnum::Valid(v) => {
                let p = v.to_primitive();
                p.binary_serialize(out, e);
            },
            UnsafeEnum::Invalid(n) => {
                n.binary_serialize(out, e);
            },
        }
    }

    proof fn size_matches_encoding(&self, e: Endianness) {
        self.prim_spec().size_matches_encoding(e);
        self.prim_spec().size_is_width();
    }
}

/// The low byte of a character: the encoding of one ASCII character.
pub open spec fn ascii_byte(c: char) -> u8 {
    (c as u32 % 0x100) as u8
}

/// A scalar's UTF-8 encoding is one to four bytes long.
pub proof fn lemma_scalar_enc_len(v: u32)
    requires
        is_scalar(v),
    ensures
        1 <= encode_scalar(v).len() <= 4,
{
}

/// UTF-8 encoding distributes over concatenation of character sequences.
pub proof fn lemma_encode_utf8_concat(a: Seq<char>, b: Seq<char>)
    ensures
        encode_utf8(a + b) == encode_utf8(a) + encode_utf8(b),
    decreases a.len(),
{
    if a.len() == 0 {
        assert(a + b =~= b);
        assert(encode_utf8(a) =~= Seq::<u8>::empty());
        assert(encode_utf8(a) + encode_utf8(b) =~= encode_utf8(b));
    } else {
        assert((a + b)[0] == a[0]);
        assert((a + b).len() > 0);
        assert((a + b).drop_first() =~= a.drop_first() + b);
        lemma_encode_utf8_concat(a.drop_first(), b);
        assert(encode_utf8(a + b) =~= encode_utf8(a) + encode_utf8(b));
    }
}

/// Appending one character appends exactly that character's encoding.
pub proof fn lemma_encode_utf8_push(s: Seq<char>, c: char)
    ensures
        encode_utf8(s.push(c)) == encode_utf8(s) + encode_scalar(c as u32),
{
    assert(s.push(c) =~= s + seq![c]);
    lemma_encode_utf8_concat(s, seq![c]);
    assert(seq![c].drop_first() =~= Seq::<char>::empty());
    assert(seq![c][0] == c);
    assert(encode_utf8(Seq::<char>::empty()) =~= Seq::<u8>::empty());
    assert(encode_utf8(seq![c]) =~= encode_scalar(c as u32));
}

/// Appends the UTF-8 encoding of one character to `out`.
pub fn encode_char(c: char, out: &mut Vec<u8>)
    ensures
        final(out)@ == old(out)@ + encode_scalar(c as u32),
{
    let v: u32 = c as u32;
    if v < 0x80 {
        let b0: u8 = v as u8;
        proof {
            assert(b0 == (v & 0x7F) as u8) by (bit_vector)
                requires
                    v < 0x80 && b0 == v as u8,
            ;
        }
        out.push(b0);
        proof {
            assert(out@ =~= old(out)@ + encode_scalar(c as u32));
        }
    } else if v < 0x800 {
        let b0: u8 = (0xC0u32 | ((v >> 6u32) & 0x1F)) as u8;
        let b1: u8 = (0x80u32 | (v & 0x3F)) as u8;
        proof {
            assert(b0 == 0xC0 | (((v >> 6u32) & 0x1F) as u8)) by (bit_vector)
                requires
                    b0 == ((0xC0u32 | ((v >> 6u32) & 0x1F)) as u8),
            ;
            assert(b1 == 0x80 | ((v & 0x3F) as u8)) by (bit_vector)
                requires
                    b1 == ((0x80u32 | (v & 0x3F)) as u8),
            ;
        }
        out.push(b0);
        out.push(b1);
        proof {
            assert(out@ =~= old(out)@ + encode_scalar(c as u32));
        }
    } else if v < 0x10000 {
        let b0: u8 = (0xE0u32 | ((v >> 12u32) & 0x0F)) as u8;
        let b1: u8 = (0x80u32 | ((v >> 6u32) & 0x3F)) as u8;
        let b2: u8 = (0x80u32 | (v & 0x3F)) as u8;
        proof {
            assert(b0 == 0xE0 | (((v >> 12u32) & 0x0F) as u8)) by (bit_vector)
                requires
                    b0 == ((0xE0u32 | ((v >> 12u32) & 0x0F)) as u8),
            ;
            assert(b1 == 0x80 | (((v >> 6u32) & 0x3F) as u8)) by (bit_vector)
                requires
                    b1 == ((0x80u32 | ((v >> 6u32) & 0x3F)) as u8),
            ;
            assert(b2 == 0x80 | ((v & 0x3F) as u8)) by (bit_vector)
                requires
                    b2 == ((0x80u32 | (v & 0x3F)) as u8),
            ;
        }
        out.push(b0);
        out.push(b1);
        out.push(b2);
        proof {
            assert(out@ =~= old(out)@ + encode_scalar(c as u32));
        }
    } else {
        let b0: u8 = (0xF0u32 | ((v >> 18u32) & 0x7)) as u8;
        let b1: u8 = (0x80u32 | ((v >> 12u32) & 0x3F)) as u8;
        let b2: u8 = (0x80u32 | ((v >> 6u32) & 0x3F)) as u8;
        let b3: u8 = (0x80u32 | (v & 0x3F)) as u8;
        proof {
            assert(b0 == 0xF0 | (((v >> 18u32) & 0x7) as u8)) by (bit_vector)
                requires
                    b0 == ((0xF0u32 | ((v >> 18u32) & 0x7)) as u8),
            ;
            assert(b1 == 0x80 | (((v >> 12u32) & 0x3F) as u8)) by (bit_vector)
                requires
                    b1 == ((0x80u32 | ((v >> 12u32) & 0x3F)) as u8),
            ;
            assert(b2 == 0x80 | (((v >> 6u32) & 0x3F) as u8)) by (bit_vector)
                requires
                    b2 == ((0x80u32 | ((v >> 6u32) & 0x3F)) as u8),
            ;
            assert(b3 == 0x80 | ((v & 0x3F) as u8)) by (bit_vector)
                requires
                    b3 == ((0x80u32 | (v & 0x3F)) as u8),
            ;
        }
        out.push(b0);
        out.push(b1);
        out.push(b2);
        out.push(b3);
        proof {
            assert(out@ =~= old(out)@ + encode_scalar(c as u32));
        }
    }
}

impl SerializedSize for Utf8Char {
    open spec fn size_spec(&self) -> nat {
        encode_scalar(self.0 as u32).len()
    }

    open spec fn min_nonzero_spec() -> nat {
        1
    }

    fn serialized_size(&self) -> (r: usize) {
        let v: u32 = self.0 as u32;
        if v < 0x80 {
            1
        } else if v < 0x800 {
            2
        } else if v < 0x10000 {
            3
        } else {
            4
        }
    }

    fn min_nonzero_elements_size() -> (r: usize) {
        1
    }
}

impl BinarySerialize for Utf8Char {
    open spec fn enc_spec(&self, e: Endianness) -> Seq<u8> {
        encode_scalar(self.0 as u32)
    }

    fn binary_serialize(&self, out: &mut Vec<u8>, e: Endianness) {
        encode_char(self.0, out);
    }

    proof fn size_matches_encoding(&self, e: Endianness) {
    }
}

impl SerializedSize for AsciiChar {
    open spec fn size_spec(&self) -> nat {
        1
    }

    open spec fn min_nonzero_spec() -> nat {
        1
    }

    fn serialized_size(&self) -> (r: usize) {
        1
    }

    fn min_nonzero_elements_size() -> (r: usize) {
        1
    }
}

impl BinarySerialize for AsciiChar {
    open spec fn enc_spec(&self, e: Endianness) -> Seq<u8> {
        seq![ascii_byte(self.0)]
    }

    fn binary_serialize(&self, out: &mut Vec<u8>, e: Endianness) {
        let v: u32 = self.0 as u32;
        out.push((v % 0x100) as u8);
        proof {
            assert(out@ =~= old(out)@ + self.enc_spec(e));
        }
    }

    proof fn size_matches_encoding(&self, e: Endianness) {
    }
}

impl SerializedSize for Utf8String {
    /// Text size is the UTF-8 byte length, not the character count.
    open spec fn size_spec(&self) -> nat {
        encode_utf8(self@).len()
    }

    open spec fn min_nonzero_spec() -> nat {
        1
    }

    fn serialized_size(&self) -> (r: usize) {
        let mut total: usize = 0;
        let mut i: usize = 0;
        while i < self.inner.len()
            invariant
                i <= self.inner@.len(),
                self@.len() == self.inner@.len(),
                encode_utf8(self@).len() <= usize::MAX,
                total == encode_utf8(self@.take(i as int)).len(),
            decreases self.inner@.len() - i,
        {
            proof {
                assert(self@.take(i as int + 1) =~= self@.take(i as int).push(self@[i as int]));
                lemma_encode_utf8_push(self@.take(i as int), self@[i as int]);
                assert(self@.take(i as int + 1) + self@.skip(i as int + 1) =~= self@);
                lemma_encode_utf8_concat(self@.take(i as int + 1), self@.skip(i as int + 1));
                assert(self@[i as int] == self.inner@[i as int].0);
            }
            let es = (&self.inner[i]).serialized_size();
            total = total + es;
            i = i + 1;
        }
        proof {
            assert(self@.take(self@.len() as int) =~= self@);
        }
        total
    }

    fn min_nonzero_elements_size() -> (r: usize) {
        1
    }
}

impl BinarySerialize for Utf8String {
    open spec fn enc_spec(&self, e: Endianness) -> Seq<u8> {
        encode_utf8(self@)
    }

    fn binary_serialize(&self, out: &mut Vec<u8>, e: Endianness) {
        let mut i: usize = 0;
        while i < self.inner.len()
            invariant
                i <= self.inner@.len(),
                self@.len() == self.inner@.len(),
                out@ == old(out)@ + encode_utf8(self@.take(i as int)),
            decreases self.inner@.len() - i,
        {
            proof {
                assert(self@.take(i as int + 1) =~= self@.take(i as int).push(self@[i as int]));
                lemma_encode_utf8_push(self@.take(i as int), self@[i as int]);
                assert(self@[i as int] == self.inner@[i as int].0);
            }
            encode_char(self.inner[i].0, out);
            i = i + 1;
        }
        proof {
            assert(self@.take(self@.len() as int) =~= self@);
        }
    }

    proof fn size_matches_encoding(&self, e: Endianness) {
    }
}

impl SerializedSize for AsciiString {
    open spec fn size_spec(&self) -> nat {
        self@.len()
    }

    open spec fn min_nonzero_spec() -> nat {
        1
    }

    fn serialized_size(&self) -> (r: usize) {
        self.inner.len()
    }

    fn min_nonzero_elements_size() -> (r: usize) {
        1
    }
}

impl BinarySerialize for AsciiString {
    open spec fn enc_spec(&self, e: Endianness) -> Seq<u8> {
        self@.map(|i: int, c: char| ascii_byte(c))
    }

    fn binary_serialize(&self, out: &mut Vec<u8>, e: Endianness) {
        let mut i: usize = 0;
        while i < self.inner.len()
            invariant
                i <= self.inner@.len(),
                self@.len() == self.inner@.len(),
                out@.len() == old(out)@.len() + i,
                forall|k: int| 0 <= k < old(out)@.len() ==> out@[k] == old(out)@[k],
                forall|k: int|
                    0 <= k < i ==> out@[old(out)@.len() + k] == ascii_byte(self.inner@[k].0),
            decreases self.inner@.len() - i,
        {
            let v: u32 = self.inner[i].0 as u32;
            out.push((v % 0x100) as u8);
            i = i + 1;
        }
        proof {
            assert(out@ =~= old(out)@ + self.enc_spec(e));
        }
    }

    proof fn size_matches_encoding(&self, e: Endianness) {
        assert(self.enc_spec(e).len() == self@.len());
    }
}

impl SerializedSize for str {
    /// Text size is the UTF-8 byte length, not the character count.
    open spec fn size_spec(&self) -> nat {
        self.spec_bytes().len()
    }

    open spec fn min_nonzero_spec() -> nat {
        1
    }

    fn serialized_size(&self) -> (r: usize) {
        self.len()
    }

    fn min_nonzero_elements_size() -> (r: usize) {
        1
    }
}

impl BinarySerialize for str {
    open spec fn enc_spec(&self, e: Endianness) -> Seq<u8> {
        self.spec_bytes()
    }

    fn binary_serialize(&self, out: &mut Vec<u8>, e: Endianness) {
        let bs = self.as_bytes();
        let mut i: usize = 0;
        while i < bs.len()
            invariant
                i <= bs@.len(),
                out@ == old(out)@ + bs@.take(i as int),
            decreases bs@.len() - i,
        {
            out.push(bs[i]);
            proof {
                assert(bs@.take(i as int + 1) =~= bs@.take(i as int).push(bs@[i as int]));
            }
            i = i + 1;
        }
        proof {
            assert(bs@.take(bs@.len() as int) =~= bs@);
        }
    }

    proof fn size_matches_encoding(&self, e: Endianness) {
    }
}

impl SerializedSize for String {
    /// Text size is the UTF-8 byte length, not the character count.
    open spec fn size_spec(&self) -> nat {
        encode_utf8(self@).len()
    }

    open spec fn min_nonzero_spec() -> nat {
        1
    }

    fn serialized_size(&self) -> (r: usize) {
        self.as_str().len()
    }

    fn min_nonzero_elements_size() -> (r: usize) {
        1
    }
}

impl BinarySerialize for String {
    open spec fn enc_spec(&self, e: Endianness) -> Seq<u8> {
        encode_utf8(self@)
    }

    fn binary_serialize(&self, out: &mut Vec<u8>, e: Endianness) {
        self.as_str().binary_serialize(out, e);
    }

    proof fn size_matches_encoding(&self, e: Endianness) {
    }
}

} // verus!

//! The dynamic value model: the values the generation and mutation
//! protocols produce, their conformance to a shape, and their serialized
//! form.

use crate::endian::{bytes_of, lemma_bytes_of_len, Endianness};
use crate::selector::sum_weights;
use crate::serialize::{BinarySerialize, SerializedSize};
use crate::shape::{
    choice_forced, effective_weight, field_wf, fields_wf, forced_min, shape_wf, sum_forced,
    FieldDecl, IntWidth, Shape, VariantDecl,
};
use crate::types::Utf8String;
use vstd::prelude::*;
use vstd::utf8::encode_utf8;

verus! {

/// A structured fuzz value produced by generation and reworked by
/// mutation.
#[derive(Debug)]
pub enum Value {
    /// A fixed-width unsigned integer value, always below its width's
    /// limit.
    Uint(IntWidth, u64),
    /// A boolean as its raw backing byte. Generation produces canonical
    /// bytes; mutation may deliberately produce any byte, and the codec
    /// writes the backing byte to the wire unchanged.
    Boolean(u8),
    /// Text, serialized as UTF-8 bytes.
    Text(Utf8String),
    /// A raw byte string.
    Bytes(Vec<u8>),
    /// A sequence of values of one element shape.
    Sequence(Vec<Value>),
    /// A record's field values, in declaration order.
    Record(Vec<Value>),
    /// A choice value: the active variant's index and its payload values.
    Choice(usize, Vec<Value>),
}

/// Whether a value is structured as its shape declares.
pub open spec fn conforms(v: Value, s: Shape) -> bool
    decreases v,
{
    match v {
        Value::Uint(w, x) => s matches Shape::Uint(w2) && w == w2 && (x as nat) < w.limit_spec(),
        Value::Boolean(_) => s is Boolean,
        Value::Text(_) => s is Text,
        Value::Bytes(_) => s is Bytes,
        Value::Sequence(vs) => s matches Shape::Sequence(elem) && forall|i: int|
            0 <= i < vs@.len() ==> conforms(#[trigger] vs@[i], *elem),
        Value::Record(vs) => s matches Shape::Record(fields) && vs@.len() == fields@.len()
            && forall|i: int| 0 <= i < vs@.len() ==> conforms(#[trigger] vs@[i], fields@[i].shape),
        Value::Choice(idx, vs) => s matches Shape::Choice(variants, _) && idx < variants@.len()
            && vs@.len() == variants@[idx as int].payload@.len() && forall|i: int|
            0 <= i < vs@.len() ==> conforms(
                #[trigger] vs@[i],
                variants@[idx as int].payload@[i].shape,
            ),
    }
}

/// The exact serialized size of a value, in bytes.
pub open spec fn value_size_spec(v: Value) -> nat
    decreases v,
{
    match v {
        Value::Uint(w, _) => w.bytes_spec(),
        Value::Boolean(_) => 1,
        Value::Text(t) => encode_utf8(t@).len(),
        Value::Bytes(b) => b@.len(),
        Value::Sequence(vs) => vals_size_spec(vs@),
        Value::Record(vs) => vals_size_spec(vs@),
        Value::Choice(_, vs) => vals_size_spec(vs@),
    }
}

/// The total serialized size of a list of values: the sum of the element
/// sizes, since elements may be variable-length.
pub open spec fn vals_size_spec(s: Seq<Value>) -> nat
    decreases s,
{
    if s.len() == 0 {
        0
    } else {
        value_size_spec(s[0]) + vals_size_spec(s.drop_first())
    }
}

/// The encoded bytes of a value under byte order `e`.
pub open spec fn value_enc_spec(v: Value, e: Endianness) -> Seq<u8>
    decreases v,
{
    match v {
        Value::Uint(w, x) => bytes_of(x as nat, w.bytes_spec(), e),
        Value::Boolean(b) => seq![b],
        Value::Text(t) => encode_utf8(t@),
        Value::Bytes(b) => b@,
        Value::Sequence(vs) => vals_enc_spec(vs@, e),
        Value::Record(vs) => vals_enc_spec(vs@, e),
        Value::Choice(_, vs) => vals_enc_spec(vs@, e),
    }
}

/// The concatenated encoding of a list of values, in order.
pub open spec fn vals_enc_spec(s: Seq<Value>, e: Endianness) -> Seq<u8>
    decreases s,
{
    if s.len() == 0 {
        Seq::empty()
    } else {
        value_enc_spec(s[0], e) + vals_enc_spec(s.drop_first(), e)
    }
}

/// Appending one value adds exactly that value's size.
pub proof fn lemma_vals_size_push(s: Seq<Value>, x: Value)
    ensures
        vals_size_spec(s.push(x)) == vals_size_spec(s) + value_size_spec(x),
    decreases s.len(),
{
    if s.len() == 0 {
        assert(s.push(x)[0] == x);
        assert(s.push(x).drop_first() =~= Seq::<Value>::empty());
        assert(vals_size_spec(Seq::<Value>::empty()) == 0);
    } else {
        assert(s.push(x)[0] == s[0]);
        assert(s.push(x).drop_first() =~= s.drop_first().push(x));
        lemma_vals_size_push(s.drop_first(), x);
    }
}

/// The total size of a list of values splits at any position.
pub proof fn lemma_vals_size_split(s: Seq<Value>, i: int)
    requires
        0 <= i <= s.len(),
    ensures
        vals_size_spec(s) == vals_size_spec(s.take(i)) + vals_size_spec(s.skip(i)),
    decreases i,
{
    if i == 0 {
        assert(s.take(0) =~= Seq::<Value>::empty());
        assert(s.skip(0) =~= s);
    } else {
        lemma_vals_size_split(s.drop_first(), i - 1);
        assert(s.take(i).drop_first() =~= s.drop_first().take(i - 1));
        assert(s.skip(i) =~= s.drop_first().skip(i - 1));
        assert(s.take(i)[0] == s[0]);
    }
}

/// Appending one value appends exactly that value's encoding.
pub proof fn lemma_vals_enc_push(s: Seq<Value>, x: Value, e: Endianness)
    ensures
        vals_enc_spec(s.push(x), e) == vals_enc_spec(s, e) + value_enc_spec(x, e),
    decreases s.len(),
{
    if s.len() == 0 {
        assert(s.push(x)[0] == x);
        assert(s.push(x).drop_first() =~= Seq::<Value>::empty());
        assert(vals_enc_spec(Seq::<Value>::empty(), e) =~= Seq::<u8>::empty());
        assert(vals_enc_spec(s.push(x), e) =~= vals_enc_spec(s, e) + value_enc_spec(x, e));
    } else {
        assert(s.push(x)[0] == s[0]);
        assert(s.push(x).drop_first() =~= s.drop_first().push(x));
        lemma_vals_enc_push(s.drop_first(), x, e);
        assert(vals_enc_spec(s.push(x), e) =~= vals_enc_spec(s, e) + value_enc_spec(x, e));
    }
}

/// A value's serialized size equals the length of its encoding, whichever
/// byte order is chosen.
pub proof fn lemma_value_size_matches_encoding(v: Value, e: Endianness)
    ensures
        value_enc_spec(v, e).len() == value_size_spec(v),
    decreases v,
{
    match v {
        Value::Uint(w, x) => {
            lemma_bytes_of_len(x as nat, w.bytes_spec(), e);
        },
        Value::Sequence(vs) => {
            lemma_vals_enc_len(vs@, e);
        },
        Value::Record(vs) => {
            lemma_vals_enc_len(vs@, e);
        },
        Value::Choice(_, vs) => {
            lemma_vals_enc_len(vs@, e);
        },
        _ => {},
    }
}

/// The concatenated encoding of a value list is as long as its total size.
pub proof fn lemma_vals_enc_len(s: Seq<Value>, e: Endianness)
    ensures
        vals_enc_spec(s, e).len() == vals_size_spec(s),
    decreases s,
{
    if s.len() > 0 {
        lemma_value_size_matches_encoding(s[0], e);
        lemma_vals_enc_len(s.drop_first(), e);
    }
}

/// Returns the exact serialized size of each value in `vs`, summed.
fn vals_size(vs: &Vec<Value>) -> (r: usize)
    requires
        vals_size_spec(vs@) <= usize::MAX,
    ensures
        r == vals_size_spec(vs@),
    decreases vs@,
{
    let mut total: usize = 0;
    let mut i: usize = 0;
    while i < vs.len()
        invariant
            i <= vs@.len(),
            vals_size_spec(vs@) <= usize::MAX,
            total == vals_size_spec(vs@.take(i as int)),
        decreases vs@.len() - i,
    {
        proof {
            assert(vs@.take(i as int + 1) =~= vs@.take(i as int).push(vs@[i as int]));
            lemma_vals_size_push(vs@.take(i as int), vs@[i as int]);
            lemma_vals_size_split(vs@, i as int + 1);
            assert(decreases_to!(vs@ => vs@[i as int]));
        }
        let es = value_size(&vs[i]);
        total = total + es;
        i = i + 1;
    }
    proof {
        assert(vs@.take(vs@.len() as int) =~= vs@);
    }
    total
}

/// Returns the exact serialized size of a value.
pub fn value_size(v: &Value) -> (r: usize)
    requires
        value_size_spec(*v) <= usize::MAX,
    ensures
        r == value_size_spec(*v),
    decreases *v,
{
    match v {
        Value::Uint(w, _) => w.bytes(),
        Value::Boolean(_) => 1,
        Value::Text(t) => t.serialized_size(),
        Value::Bytes(b) => b.len(),
        Value::Sequence(vs) => {
            proof {
                assert(decreases_to!(*v => v->Sequence_0));
                assert(v->Sequence_0 == *vs);
                assert(decreases_to!(*vs => vs@));
            }
            vals_size(vs)
        },
        Value::Record(vs) => {
            proof {
                assert(decreases_to!(*v => v->Record_0));
                assert(v->Record_0 == *vs);
                assert(decreases_to!(*vs => vs@));
            }
            vals_size(vs)
        },
        Value::Choice(_, vs) => {
            proof {
                assert(decreases_to!(*v => v->Choice_1));
                assert(v->Choice_1 == *vs);
                assert(decreases_to!(*vs => vs@));
            }
            vals_size(vs)
        },
    }
}

/// Appends the encoding of each value in `vs` to `out`, in order.
fn vals_encode(vs: &Vec<Value>, out: &mut Vec<u8>, e: Endianness)
    ensures
        final(out)@ == old(out)@ + vals_enc_spec(vs@, e),
    decreases vs@,
{
    let mut i: usize = 0;
    while i < vs.len()
        invariant
            i <= vs@.len(),
            out@ == old(out)@ + vals_enc_spec(vs@.take(i as int), e),
        decreases vs@.len() - i,
    {
        proof {
            assert(vs@.take(i as int + 1) =~= vs@.take(i as int).push(vs@[i as int]));
            lemma_vals_enc_push(vs@.take(i as int), vs@[i as int], e);
            assert(decreases_to!(vs@ => vs@[i as int]));
        }
        value_encode(&vs[i], out, e);
        i = i + 1;
    }
    proof {
        assert(vs@.take(vs@.len() as int) =~= vs@);
        assert(vals_enc_spec(vs@.take(vs@.len() as int), e) == vals_enc_spec(vs@, e));
    }
}

/// Appends the encoding of a value to `out` under byte order `e`.
pub fn value_encode(v: &Value, out: &mut Vec<u8>, e: Endianness)
    ensures
        final(out)@ == old(out)@ + value_enc_spec(*v, e),
    decreases *v,
{
    match v {
        Value::Uint(w, x) => {
            crate::endian::encode_uint(*x, w.bytes(), e, out);
        },
        Value::Boolean(b) => {
            out.push(*b);
            proof {
                assert(out@ =~= old(out)@ + value_enc_spec(*v, e));
            }
        },
        Value::Text(t) => {
            t.binary_serialize(out, e);
        },
        Value::Bytes(b) => {
            let mut i: usize = 0;
            while i < b.len()
                invariant
                    i <= b@.len(),
                    out@ == old(out)@ + b@.take(i as int),
                decreases b@.len() - i,
            {
                out.push(b[i]);
                proof {
                    assert(b@.take(i as int + 1) =~= b@.take(i as int).push(b@[i as int]));
                }
                i = i + 1;
            }
            proof {
                assert(b@.take(b@.len() as int) =~= b@);
            }
        },
        Value::Sequence(vs) => {
            proof {
                assert(decreases_to!(*v => v->Sequence_0));
                assert(v->Sequence_0 == *vs);
                assert(decreases_to!(*vs => vs@));
            }
            vals_encode(vs, out, e);
        },
        Value::Record(vs) => {
            proof {
                assert(decreases_to!(*v => v->Record_0));
                assert(v->Record_0 == *vs);
                assert(decreases_to!(*vs => vs@));
            }
            vals_encode(vs, out, e);
        },
        Value::Choice(_, vs) => {
            proof {
                assert(decreases_to!(*v => v->Choice_1));
                assert(v->Choice_1 == *vs);
                assert(decreases_to!(*vs => vs@));
            }
            vals_encode(vs, out, e);
        },
    }
}

impl SerializedSize for Value {
    open spec fn size_spec(&self) -> nat {
        value_size_spec(*self)
    }

    open spec fn min_nonzero_spec() -> nat {
        1
    }

    fn serialized_size(&self) -> (r: usize) {
        value_size(self)
    }

    fn min_nonzero_elements_size() -> (r: usize) {
        1
    }
}

impl BinarySerialize for Value {
    open spec fn enc_spec(&self, e: Endianness) -> Seq<u8> {
        value_enc_spec(*self, e)
    }

    fn binary_serialize(&self, out: &mut Vec<u8>, e: Endianness) {
        value_encode(self, out, e);
    }

    proof fn size_matches_encoding(&self, e: Endianness) {
        lemma_value_size_matches_encoding(*self, e);
    }
}

/// The variant a default choice value holds: the first variant that
/// generation could draw (positive effective weight).
pub open spec fn first_selectable(variants: Seq<VariantDecl>) -> int
    decreases variants.len(),
{
    if variants.len() == 0 {
        0
    } else if effective_weight(variants[0]) > 0 {
        0
    } else {
        1 + first_selectable(variants.drop_first())
    }
}

/// The first index with positive effective weight is the first selectable
/// variant.
pub proof fn lemma_first_selectable_at(variants: Seq<VariantDecl>, i: int)
    requires
        0 <= i < variants.len(),
        forall|k: int| 0 <= k < i ==> effective_weight(#[trigger] variants[k]) == 0,
        effective_weight(variants[i]) > 0,
    ensures
        first_selectable(variants) == i,
    decreases i,
{
    if i > 0 {
        assert(effective_weight(variants[0]) == 0);
        let tail = variants.drop_first();
        assert forall|k: int| 0 <= k < i - 1 implies effective_weight(#[trigger] tail[k])
            == 0 by {
            assert(tail[k] == variants[k + 1]);
        }
        assert(tail[i - 1] == variants[i]);
        lemma_first_selectable_at(tail, i - 1);
    }
}

/// Whether a value is the default of its shape: zero integers, a
/// canonical false boolean, empty text, bytes and sequences, defaulted
/// record fields, and the first selectable variant with defaulted
/// payload.
pub open spec fn is_default_of(v: Value, s: Shape) -> bool
    decreases v,
{
    match v {
        Value::Uint(w, x) => s == Shape::Uint(w) && x == 0,
        Value::Boolean(b) => s is Boolean && b == 0,
        Value::Text(t) => s is Text && t@.len() == 0,
        Value::Bytes(b) => s is Bytes && b@.len() == 0,
        Value::Sequence(vs) => s is Sequence && vs@.len() == 0,
        Value::Record(vs) => s matches Shape::Record(fields) && vs@.len() == fields@.len()
            && forall|i: int|
            0 <= i < vs@.len() ==> is_default_of(#[trigger] vs@[i], fields@[i].shape),
        Value::Choice(idx, vs) => s matches Shape::Choice(variants, _) && idx as int
            == first_selectable(variants@) && idx < variants@.len() && vs@.len() == variants@[
            idx as int
        ].payload@.len() && forall|i: int|
            0 <= i < vs@.len() ==> is_default_of(
                #[trigger] vs@[i],
                variants@[idx as int].payload@[i].shape,
            ),
    }
}

/// A positive total has a positive summand.
proof fn lemma_sum_pos_exists(ws: Seq<u64>)
    requires
        sum_weights(ws) > 0,
    ensures
        exists|i: int| 0 <= i < ws.len() && ws[i] > 0,
    decreases ws.len(),
{
    if ws.len() > 0 {
        if ws[0] > 0 {
        } else {
            lemma_sum_pos_exists(ws.drop_first());
            let j = choose|j: int| 0 <= j < ws.drop_first().len() && ws.drop_first()[j] > 0;
            assert(ws[j + 1] == ws.drop_first()[j]);
        }
    }
}

/// Returns the default values of a field list, in declaration order.
pub fn default_fields(fields: &Vec<FieldDecl>) -> (vs: Vec<Value>)
    requires
        fields_wf(fields@),
    ensures
        vs@.len() == fields@.len(),
        forall|i: int| 0 <= i < vs@.len() ==> conforms(#[trigger] vs@[i], fields@[i].shape),
        forall|i: int| 0 <= i < vs@.len() ==> is_default_of(#[trigger] vs@[i], fields@[i].shape),
        vals_size_spec(vs@) <= sum_forced(fields@),
    decreases fields@,
{
    let mut vs: Vec<Value> = Vec::new();
    let mut i: usize = 0;
    while i < fields.len()
        invariant
            i <= fields@.len(),
            fields_wf(fields@),
            vs@.len() == i,
            forall|k: int| 0 <= k < vs@.len() ==> conforms(#[trigger] vs@[k], fields@[k].shape),
            forall|k: int|
                0 <= k < vs@.len() ==> is_default_of(#[trigger] vs@[k], fields@[k].shape),
            vals_size_spec(vs@) <= sum_forced(fields@.take(i as int)),
        decreases fields@.len() - i,
    {
        proof {
            assert(fields@.take(i as int + 1) =~= fields@.take(i as int).push(fields@[i as int]));
            crate::shape::lemma_sum_forced_push(fields@.take(i as int), fields@[i as int]);
            assert(decreases_to!(fields@ => fields@[i as int]));
            assert(decreases_to!(fields@[i as int] => fields@[i as int].shape));
            assert(field_wf(fields@[i as int]));
        }
        let d = default_value(&fields[i].shape);
        proof {
            lemma_vals_size_push(vs@, d);
        }
        vs.push(d);
        i = i + 1;
    }
    proof {
        assert(fields@.take(fields@.len() as int) =~= fields@);
    }
    vs
}

/// Builds the default value of a shape: zero integers, a canonical false
/// boolean, empty text, bytes, and sequences, defaulted record fields, and
/// the first selectable variant with defaulted payload. The default's size
/// never exceeds the shape's unavoidable size.
pub fn default_value(s: &Shape) -> (v: Value)
    requires
        shape_wf(*s),
    ensures
        conforms(v, *s),
        is_default_of(v, *s),
        value_size_spec(v) <= forced_min(*s),
    decreases *s,
{
    match s {
        Shape::Uint(w) => Value::Uint(*w, 0),
        Shape::Boolean => Value::Boolean(0),
        Shape::Text => {
            let t = Utf8String::default();
            proof {
                assert(encode_utf8(t@) =~= Seq::<u8>::empty());
            }
            Value::Text(t)
        },
        Shape::Bytes => Value::Bytes(Vec::new()),
        Shape::Sequence(_) => {
            let vs: Vec<Value> = Vec::new();
            proof {
                assert(vals_size_spec(vs@) == 0);
            }
            Value::Sequence(vs)
        },
        Shape::Record(fields) => {
            proof {
                assert(decreases_to!(*s => s->Record_0));
                assert(s->Record_0 == *fields);
                assert(decreases_to!(*fields => fields@));
            }
            Value::Record(default_fields(fields))
        },
        Shape::Choice(variants, sel) => {
            let ghost ws = variants@.map(|i: int, vd: VariantDecl| effective_weight(vd));
            let mut i: usize = 0;
            let n = variants.len();
            while i < n
                invariant
                    *s is Choice,
                    s->Choice_0 == *variants,
                    s->Choice_1 == *sel,
                    shape_wf(*s),
                    n == variants@.len(),
                    i <= n,
                    ws == variants@.map(|k: int, vd: VariantDecl| effective_weight(vd)),
                    forall|k: int| 0 <= k < i ==> effective_weight(#[trigger] variants@[k]) == 0,
                decreases n - i,
            {
                if !variants[i].ignored && variants[i].weight > 0 {
                    proof {
                        assert(decreases_to!(*s => s->Choice_0));
                        assert(decreases_to!(*variants => variants@));
                        assert(decreases_to!(variants@ => variants@[i as int]));
                        assert(decreases_to!(variants@[i as int] => variants@[
                            i as int
                        ].payload));
                        assert(decreases_to!(variants@[i as int].payload => variants@[
                            i as int
                        ].payload@));
                        crate::shape::lemma_choice_forced_ge(variants@, i as int);
                        assert(crate::shape::variants_wf(variants@));
                        assert(fields_wf(variants@[i as int].payload@));
                    }
                    proof {
                        lemma_first_selectable_at(variants@, i as int);
                    }
                    let vs = default_fields(&variants[i].payload);
                    return Value::Choice(i, vs);
                }
                i = i + 1;
            }
            proof {
                assert forall|k: int| 0 <= k < ws.len() implies ws[k] == 0 by {
                    assert(ws[k] == effective_weight(variants@[k]));
                }
                lemma_sum_weights_all_zero(ws);
                assert(s->Choice_1 == *sel);
                assert(sel.wf());
                assert(sel.weights_spec() == ws);
                sel.lemma_wf_pos();
                assert(false);
            }
            Value::Boolean(0)
        },
    }
}

/// A total over only zero weights is zero.
proof fn lemma_sum_weights_all_zero(ws: Seq<u64>)
    requires
        forall|i: int| 0 <= i < ws.len() ==> ws[i] == 0,
    ensures
        sum_weights(ws) == 0,
    decreases ws.len(),
{
    if ws.len() > 0 {
        assert(ws.drop_first() =~= ws.subrange(1, ws.len() as int));
        lemma_sum_weights_all_zero(ws.drop_first());
    }
}

} // verus!

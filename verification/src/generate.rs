//! The fuzz generator protocol: produces a brand-new structured value from
//! a shape and a constraint, recursively generating children, tracking a
//! shrinking size budget, and randomizing field visitation order for
//! variable-size records.

use crate::mutator::Mutator;
use crate::rng::{identity_order, lemma_order_covers, next_below, RandomSource};
use crate::shape::{
    field_wf, fields_wf, forced_min, min_nonzero_size, min_nonzero_spec, min_size, shape_wf,
    sum_forced, FieldDecl, Shape, MAX_FORCED_MIN,
};
use crate::types::{Constraints, Weighted};
use crate::value::{
    conforms, default_value, lemma_vals_size_push, value_size, value_size_spec, vals_size_spec,
    Value,
};
use vstd::prelude::*;
use vstd::utf8::{encode_scalar, encode_utf8};

verus! {

/// The larger of two sizes.
pub open spec fn max2(a: nat, b: nat) -> nat {
    if a >= b {
        a
    } else {
        b
    }
}

/// Saturating subtraction on sizes.
pub open spec fn sat_sub(a: nat, b: nat) -> nat {
    if a >= b {
        (a - b) as nat
    } else {
        0
    }
}

/// The byte budget carried by an optional constraint.
pub open spec fn opt_budget(c: Option<&Constraints<u64>>) -> Option<usize> {
    match c {
        Some(c) => c.max_size,
        None => None,
    }
}

/// Whether a constraint's integer bounds are meaningful for the shape they
/// will be applied to: within the width, describing a nonempty range.
pub open spec fn constraint_ok_for(s: Shape, c: Constraints<u64>) -> bool {
    match s {
        Shape::Uint(w) => {
            &&& (c.min matches Some(lo) ==> (lo as nat) < w.limit_spec())
            &&& (c.max matches Some(hi) ==> 0 < hi as nat <= w.limit_spec())
            &&& (c.min matches Some(lo) ==> (c.max matches Some(hi) ==> lo < hi))
        },
        _ => true,
    }
}

/// Whether a produced field value honors the field's declared integer
/// bounds (meaningful only on integer fields).
pub open spec fn field_bounds_met(f: FieldDecl, v: Value) -> bool {
    match f.shape {
        Shape::Uint(_) => (f.min matches Some(lo) ==> lo <= v->Uint_1) && (f.max matches Some(hi)
            ==> v->Uint_1 < hi),
        _ => true,
    }
}

/// A generated value respects a byte budget when its size stays below the
/// larger of the budget and the shape's unavoidable size: a shape whose
/// fixed parts already exceed the budget degrades to those fixed parts and
/// nothing more.
pub open spec fn within_budget(v: Value, s: Shape, b: nat) -> bool {
    value_size_spec(v) <= max2(b, forced_min(s))
}

/// The sizes of the values already placed into generation slots.
pub open spec fn opt_sizes(slots: Seq<Option<Value>>) -> nat
    decreases slots,
{
    if slots.len() == 0 {
        0
    } else {
        (match slots[0] {
            Some(v) => value_size_spec(v),
            None => 0,
        }) + opt_sizes(slots.drop_first())
    }
}

/// The unavoidable sizes of the fields whose slots are still empty: the
/// reservation the budget must keep for them.
pub open spec fn sum_unfilled(fields: Seq<FieldDecl>, slots: Seq<Option<Value>>) -> nat
    recommends
        fields.len() == slots.len(),
    decreases fields,
{
    if fields.len() == 0 {
        0
    } else {
        (if slots.len() > 0 && slots[0] is None {
            forced_min(fields[0].shape)
        } else {
            0
        }) + sum_unfilled(fields.drop_first(), slots.drop_first())
    }
}

/// With every slot empty, the reservation is the full unavoidable total
/// and nothing has been placed.
proof fn lemma_sum_unfilled_all_none(fields: Seq<FieldDecl>, slots: Seq<Option<Value>>)
    requires
        fields.len() == slots.len(),
        forall|i: int| 0 <= i < slots.len() ==> slots[i] is None,
    ensures
        sum_unfilled(fields, slots) == sum_forced(fields),
        opt_sizes(slots) == 0,
    decreases fields,
{
    if fields.len() > 0 {
        assert(slots[0] is None);
        lemma_sum_unfilled_all_none(fields.drop_first(), slots.drop_first());
    }
}

/// An empty slot's field is covered by the reservation.
proof fn lemma_sum_unfilled_ge(fields: Seq<FieldDecl>, slots: Seq<Option<Value>>, i: int)
    requires
        fields.len() == slots.len(),
        0 <= i < slots.len(),
        slots[i] is None,
    ensures
        sum_unfilled(fields, slots) >= forced_min(fields[i].shape),
    decreases i,
{
    if i == 0 {
    } else {
        assert(fields.drop_first()[i - 1] == fields[i]);
        assert(slots.drop_first()[i - 1] == slots[i]);
        lemma_sum_unfilled_ge(fields.drop_first(), slots.drop_first(), i - 1);
    }
}

/// Filling one empty slot shrinks the reservation by exactly that field
/// and grows the placed sizes by exactly that value.
proof fn lemma_fill_slot(fields: Seq<FieldDecl>, slots: Seq<Option<Value>>, i: int, v: Value)
    requires
        fields.len() == slots.len(),
        0 <= i < slots.len(),
        slots[i] is None,
    ensures
        sum_unfilled(fields, slots.update(i, Some(v))) == sum_unfilled(fields, slots)
            - forced_min(fields[i].shape),
        opt_sizes(slots.update(i, Some(v))) == opt_sizes(slots) + value_size_spec(v),
    decreases i,
{
    lemma_sum_unfilled_ge(fields, slots, i);
    if i == 0 {
        assert(slots.update(0, Some(v))[0] == Some(v));
        assert(slots.update(0, Some(v)).drop_first() =~= slots.drop_first());
    } else {
        assert(fields.drop_first()[i - 1] == fields[i]);
        assert(slots.drop_first()[i - 1] == slots[i]);
        assert(slots.update(i, Some(v))[0] == slots[0]);
        assert(slots.update(i, Some(v)).drop_first() =~= slots.drop_first().update(i - 1, Some(v)));
        lemma_fill_slot(fields.drop_first(), slots.drop_first(), i - 1, v);
    }
}

/// Once every slot holds the value later unwrapped into the result, the
/// placed sizes are the result's total size.
proof fn lemma_opt_sizes_complete(slots: Seq<Option<Value>>, vs: Seq<Value>)
    requires
        slots.len() == vs.len(),
        forall|i: int| 0 <= i < slots.len() ==> slots[i] == Some(vs[i]),
    ensures
        opt_sizes(slots) == vals_size_spec(vs),
    decreases slots,
{
    if slots.len() > 0 {
        assert(slots[0] == Some(vs[0]));
        assert forall|i: int| 0 <= i < slots.drop_first().len() implies slots.drop_first()[i]
            == Some(vs.drop_first()[i]) by {
            assert(slots.drop_first()[i] == slots[i + 1]);
            assert(vs.drop_first()[i] == vs[i + 1]);
        }
        lemma_opt_sizes_complete(slots.drop_first(), vs.drop_first());
    }
}

/// The value one word of the source lands on in `[lo, hi]` (inclusive):
/// the word itself over the full range, else the word reduced into the
/// range.
pub open spec fn draw_in_spec(word: u64, lo: u64, hi_incl: u64) -> u64
    recommends
        lo <= hi_incl,
{
    if lo == 0 && hi_incl == u64::MAX {
        word
    } else {
        (lo + (word as int) % (hi_incl - lo + 1)) as u64
    }
}

/// Draws a value in `[lo, hi]` (inclusive), biased toward the end selected
/// by `w`: an unbiased draw is one word of the source reduced into the
/// range; a biased draw keeps the smaller or larger of two such words,
/// which skews the distribution toward that end.
pub fn gen_u64_between<R: RandomSource>(rng: &mut R, lo: u64, hi_incl: u64, w: Weighted) -> (r:
    u64)
    requires
        lo <= hi_incl,
    ensures
        lo <= r <= hi_incl,
        w == Weighted::Unbiased ==> (r == draw_in_spec(old(rng).next_word_spec(), lo, hi_incl)
            && *final(rng) == old(rng).next_state_spec()),
        w == Weighted::Min ==> ({
            let a = draw_in_spec(old(rng).next_word_spec(), lo, hi_incl);
            let b = draw_in_spec(old(rng).next_state_spec().next_word_spec(), lo, hi_incl);
            &&& r == if a < b {
                a
            } else {
                b
            }
            &&& *final(rng) == old(rng).next_state_spec().next_state_spec()
        }),
        w == Weighted::Max ==> ({
            let a = draw_in_spec(old(rng).next_word_spec(), lo, hi_incl);
            let b = draw_in_spec(old(rng).next_state_spec().next_word_spec(), lo, hi_incl);
            &&& r == if a > b {
                a
            } else {
                b
            }
            &&& *final(rng) == old(rng).next_state_spec().next_state_spec()
        }),
{
    let a = draw_incl(rng, lo, hi_incl);
    match w {
        Weighted::Unbiased => a,
        Weighted::Min => {
            let b = draw_incl(rng, lo, hi_incl);
            if a < b {
                a
            } else {
                b
            }
        },
        Weighted::Max => {
            let b = draw_incl(rng, lo, hi_incl);
            if a > b {
                a
            } else {
                b
            }
        },
    }
}

/// One draw in `[lo, hi]` (inclusive): exactly the source's next word
/// reduced into the range.
fn draw_incl<R: RandomSource>(rng: &mut R, lo: u64, hi_incl: u64) -> (r: u64)
    requires
        lo <= hi_incl,
    ensures
        lo <= r <= hi_incl,
        r == draw_in_spec(old(rng).next_word_spec(), lo, hi_incl),
        *final(rng) == old(rng).next_state_spec(),
{
    if lo == 0 && hi_incl == u64::MAX {
        rng.next_u64()
    } else {
        lo + next_below(rng, hi_incl - lo + 1)
    }
}

/// Generates fresh text: up to 32 printable ASCII characters, and never
/// more bytes than the budget allows.
fn gen_text<R: RandomSource>(m: &mut Mutator<R>, budget: Option<usize>) -> (v: Value)
    ensures
        v matches Value::Text(t) && (budget matches Some(b) ==> encode_utf8(t@).len() <= b),
        final(m).early_bail_percent == old(m).early_bail_percent,
        final(m).fixup_enabled == old(m).fixup_enabled,
{
    let cap: usize = match budget {
        Some(b) => if b > 32 {
            32
        } else {
            b
        },
        None => 32,
    };
    let len = next_below(&mut m.rng, cap as u64 + 1) as usize;
    let mut inner: Vec<crate::types::Utf8Char> = Vec::new();
    let mut i: usize = 0;
    while i < len
        invariant
            i <= len,
            inner@.len() == i,
            encode_utf8(inner@.map(|k: int, c: crate::types::Utf8Char| c.0)).len() == i,
            m.early_bail_percent == old(m).early_bail_percent,
            m.fixup_enabled == old(m).fixup_enabled,
        decreases len - i,
    {
        let d = next_below(&mut m.rng, 95) + 32;
        let c = (d as u8) as char;
        let ghost prev = inner@.map(|k: int, ch: crate::types::Utf8Char| ch.0);
        inner.push(crate::types::Utf8Char(c));
        proof {
            assert(inner@.map(|k: int, ch: crate::types::Utf8Char| ch.0) =~= prev.push(c));
            crate::serialize::lemma_encode_utf8_push(prev, c);
            assert(c as u32 == d);
            assert(encode_scalar(c as u32).len() == 1);
        }
        i = i + 1;
    }
    let t = crate::types::Utf8String { inner };
    Value::Text(t)
}

/// Generates a fresh byte string: up to 32 random bytes, and never more
/// than the budget allows.
fn gen_bytes<R: RandomSource>(m: &mut Mutator<R>, budget: Option<usize>) -> (v: Value)
    ensures
        v matches Value::Bytes(bs) && (budget matches Some(b) ==> bs@.len() <= b),
        final(m).early_bail_percent == old(m).early_bail_percent,
        final(m).fixup_enabled == old(m).fixup_enabled,
{
    let cap: usize = match budget {
        Some(b) => if b > 32 {
            32
        } else {
            b
        },
        None => 32,
    };
    let len = next_below(&mut m.rng, cap as u64 + 1) as usize;
    let mut bs: Vec<u8> = Vec::new();
    let mut i: usize = 0;
    while i < len
        invariant
            i <= len,
            bs@.len() == i,
            m.early_bail_percent == old(m).early_bail_percent,
            m.fixup_enabled == old(m).fixup_enabled,
        decreases len - i,
    {
        bs.push(next_below(&mut m.rng, 0x100) as u8);
        i = i + 1;
    }
    Value::Bytes(bs)
}

/// Produces a brand-new value of the given shape under the given
/// constraint.
///
/// The produced value always conforms to the shape. When the constraint
/// carries a byte budget, the value's serialized size stays within the
/// budget except for the shape's unavoidable fixed parts; a sequence whose
/// element cannot fit the remaining budget degrades to the empty sequence;
/// integer bounds are respected; and an ignored variant of a choice is
/// never drawn.
pub fn new_fuzzed<R: RandomSource>(
    m: &mut Mutator<R>,
    shape: &Shape,
    constraints: Option<&Constraints<u64>>,
) -> (v: Value)
    requires
        shape_wf(*shape),
        constraints matches Some(c) ==> constraint_ok_for(*shape, *c),
    ensures
        conforms(v, *shape),
        opt_budget(constraints) matches Some(b) ==> within_budget(v, *shape, b as nat),
        (opt_budget(constraints) matches Some(b) && *shape matches Shape::Sequence(elem) && (
        b as nat) < min_nonzero_spec(*elem)) ==> (v matches Value::Sequence(vs) && vs@.len() == 0),
        *shape matches Shape::Uint(w) ==> (constraints matches Some(c) ==> ((c.min matches Some(
            lo,
        ) ==> lo <= v->Uint_1) && (c.max matches Some(hi) ==> v->Uint_1 < hi))),
        *shape matches Shape::Choice(variants, _) ==> (v matches Value::Choice(idx, _)
            && idx < variants@.len() && !variants@[idx as int].ignored
            && crate::shape::effective_weight(variants@[idx as int]) > 0),
        (*shape is Record && old(m).fixup_enabled) ==> crate::mutate::fixup_done(*shape, v),
        *shape matches Shape::Record(fields) ==> (v matches Value::Record(rs) ==> ((forall|i: int|
            0 <= i < rs@.len() ==> ((!fields@[i].ignored && fields@[i].fixup is None)
                ==> field_bounds_met(#[trigger] fields@[i], rs@[i]))) && (forall|i: int|
            0 <= i < rs@.len() ==> (((#[trigger] fields@[i]).ignored && fields@[i].fixup is None
                && crate::shape::rule_free(fields@[i].shape)) ==> crate::value::is_default_of(
                rs@[i],
                fields@[i].shape,
            ))))),
        final(m).early_bail_percent == old(m).early_bail_percent,
        final(m).fixup_enabled == old(m).fixup_enabled,
    decreases *shape, 0nat,
{
    let budget: Option<usize> = match constraints {
        Some(c) => c.max_size,
        None => None,
    };
    match shape {
        Shape::Uint(w) => {
            let lo: u64 = match constraints {
                Some(c) => match c.min {
                    Some(lo) => lo,
                    None => 0,
                },
                None => 0,
            };
            let hi_incl: u64 = match constraints {
                Some(c) => match c.max {
                    Some(hi) => hi - 1,
                    None => w.max_value(),
                },
                None => w.max_value(),
            };
            let wt: Weighted = match constraints {
                Some(c) => c.weighted,
                None => Weighted::Unbiased,
            };
            let x = gen_u64_between(&mut m.rng, lo, hi_incl, wt);
            Value::Uint(*w, x)
        },
        Shape::Boolean => {
            let b = next_below(&mut m.rng, 2) as u8;
            Value::Boolean(b)
        },
        Shape::Text => gen_text(m, budget),
        Shape::Bytes => gen_bytes(m, budget),
        Shape::Sequence(elem) => {
            proof {
                assert(decreases_to!(*shape => shape->Sequence_0));
                assert(shape->Sequence_0 == *elem);
            }
            gen_sequence(m, elem, budget)
        },
        Shape::Record(fields) => {
            proof {
                assert(decreases_to!(*shape => shape->Record_0));
                assert(shape->Record_0 == *fields);
                assert(decreases_to!(*fields => fields@));
            }
            let vs = gen_fields(m, fields, budget);
            let ghost mid = vs@;
            if m.should_fixup() {
                let val = crate::mutate::fixup_value(Value::Record(vs), shape);
                proof {
                    match &val {
                        Value::Record(rs) => {
                            assert forall|i: int|
                                0 <= i < rs@.len() implies ((!fields@[i].ignored
                                && fields@[i].fixup is None) ==> field_bounds_met(
                                #[trigger] fields@[i],
                                rs@[i],
                            )) by {
                                if !fields@[i].ignored && fields@[i].fixup is None {
                                    match fields@[i].shape {
                                        Shape::Uint(_) => {
                                            assert(rs@[i] == mid[i]);
                                            assert(field_bounds_met(fields@[i], mid[i]));
                                        },
                                        _ => {},
                                    }
                                }
                            }
                        },
                        _ => {},
                    }
                }
                val
            } else {
                Value::Record(vs)
            }
        },
        Shape::Choice(variants, sel) => {
            let idx = sel.pick(&mut m.rng);
            proof {
                let ws = variants@.map(|i: int, vd: crate::shape::VariantDecl|
                    crate::shape::effective_weight(vd));
                assert(sel.weights_spec() == ws);
                assert(ws[idx as int] == crate::shape::effective_weight(variants@[idx as int]));
                assert(!variants@[idx as int].ignored);
                assert(crate::shape::variants_wf(variants@));
                assert(fields_wf(variants@[idx as int].payload@));
                crate::shape::lemma_choice_forced_ge(variants@, idx as int);
                assert(decreases_to!(*shape => shape->Choice_0));
                assert(shape->Choice_0 == *variants);
                assert(decreases_to!(*variants => variants@));
                assert(decreases_to!(variants@ => variants@[idx as int]));
                assert(decreases_to!(variants@[idx as int] => variants@[idx as int].payload));
                assert(decreases_to!(variants@[idx as int].payload => variants@[
                    idx as int
                ].payload@));
            }
            let vs = gen_fields(m, &variants[idx].payload, budget);
            Value::Choice(idx, vs)
        },
    }
}

/// Generates a fresh sequence: a random element count, cut short as soon
/// as the remaining budget can no longer admit the smallest nonzero
/// element. A budget below that smallest element produces the empty
/// sequence.
fn gen_sequence<R: RandomSource>(m: &mut Mutator<R>, elem: &Shape, budget: Option<usize>) -> (v:
    Value)
    requires
        shape_wf(*elem),
    ensures
        v matches Value::Sequence(vs) && (forall|i: int|
            0 <= i < vs@.len() ==> conforms(#[trigger] vs@[i], *elem)) && (budget matches Some(b)
            ==> vals_size_spec(vs@) <= b) && (budget matches Some(b) && (b as nat)
            < min_nonzero_spec(*elem) ==> vs@.len() == 0),
        final(m).early_bail_percent == old(m).early_bail_percent,
        final(m).fixup_enabled == old(m).fixup_enabled,
    decreases *elem, 1nat,
{
    let mn = min_nonzero_size(elem);
    proof {
        crate::shape::lemma_min_nonzero_ge_forced(*elem);
    }
    let target = next_below(&mut m.rng, 9) as usize;
    let mut vs: Vec<Value> = Vec::new();
    match budget {
        None => {
            let mut j: usize = 0;
            while j < target
                invariant
                    shape_wf(*elem),
                    j <= target,
                    forall|i: int| 0 <= i < vs@.len() ==> conforms(#[trigger] vs@[i], *elem),
                    m.early_bail_percent == old(m).early_bail_percent,
                    m.fixup_enabled == old(m).fixup_enabled,
                decreases target - j,
            {
                let child = new_fuzzed(m, elem, None);
                vs.push(child);
                j = j + 1;
            }
        },
        Some(b) => {
            let mut remaining: usize = b;
            let mut j: usize = 0;
            while j < target && remaining >= mn
                invariant
                    shape_wf(*elem),
                    mn == min_nonzero_spec(*elem),
                    mn >= forced_min(*elem),
                    j <= target,
                    forall|i: int| 0 <= i < vs@.len() ==> conforms(#[trigger] vs@[i], *elem),
                    vals_size_spec(vs@) + remaining == b,
                    (b as nat) < min_nonzero_spec(*elem) ==> vs@.len() == 0,
                    m.early_bail_percent == old(m).early_bail_percent,
                    m.fixup_enabled == old(m).fixup_enabled,
                decreases target - j,
            {
                let c: Constraints<u64> = Constraints {
                    min: None,
                    max: None,
                    weighted: Weighted::Unbiased,
                    max_size: Some(remaining),
                };
                let child = new_fuzzed(m, elem, Some(&c));
                proof {
                    assert(value_size_spec(child) <= max2(remaining as nat, forced_min(*elem)));
                    assert(value_size_spec(child) <= remaining);
                }
                let sz = value_size(&child);
                remaining = remaining - sz;
                proof {
                    lemma_vals_size_push(vs@, child);
                }
                vs.push(child);
                j = j + 1;
            }
        },
    }
    Value::Sequence(vs)
}

/// Generates the field values of a record or variant payload.
///
/// Fields of a record whose size is not statically fixed are visited in a
/// uniformly random permutation; fixed-size records are visited in
/// declaration order. Each field sees a budget that reserves the
/// unavoidable sizes of the fields not yet generated, so the total stays
/// within the budget except for the fields' own unavoidable sizes. The
/// final record is assembled in declaration order after all children are
/// known.
pub fn gen_fields<R: RandomSource>(
    m: &mut Mutator<R>,
    fields: &Vec<FieldDecl>,
    budget: Option<usize>,
) -> (vs: Vec<Value>)
    requires
        fields_wf(fields@),
        sum_forced(fields@) <= MAX_FORCED_MIN as nat,
    ensures
        vs@.len() == fields@.len(),
        forall|i: int| 0 <= i < vs@.len() ==> conforms(#[trigger] vs@[i], fields@[i].shape),
        forall|i: int|
            0 <= i < vs@.len() ==> (!fields@[i].ignored ==> field_bounds_met(
                #[trigger] fields@[i],
                vs@[i],
            )),
        forall|i: int|
            0 <= i < vs@.len() ==> ((#[trigger] fields@[i]).ignored ==> crate::value::is_default_of(
                vs@[i],
                fields@[i].shape,
            )),
        budget matches Some(b) ==> vals_size_spec(vs@) <= max2(b as nat, sum_forced(fields@)),
        final(m).early_bail_percent == old(m).early_bail_percent,
        final(m).fixup_enabled == old(m).fixup_enabled,
    decreases fields@, 0nat,
{
    let n = fields.len();
    let mut all_fixed = true;
    let mut t: usize = 0;
    while t < n
        invariant
            n == fields@.len(),
            t <= n,
        decreases n - t,
    {
        if !crate::shape::is_fixed_size(&fields[t].shape) {
            all_fixed = false;
        }
        t = t + 1;
    }
    let order: Vec<usize> = if all_fixed {
        let mut ord: Vec<usize> = Vec::new();
        let mut i: usize = 0;
        while i < n
            invariant
                i <= n,
                ord@ == identity_order(n as nat).take(i as int),
            decreases n - i,
        {
            ord.push(i);
            proof {
                assert(ord@ =~= identity_order(n as nat).take(i as int + 1));
            }
            i = i + 1;
        }
        proof {
            assert(ord@ =~= identity_order(n as nat));
        }
        ord
    } else {
        crate::rng::random_order(&mut m.rng, n)
    };
    proof {
        lemma_order_covers(order@, n as nat);
    }
    let mut slots: Vec<Option<Value>> = Vec::new();
    let mut i: usize = 0;
    while i < n
        invariant
            i <= n,
            slots@.len() == i,
            forall|k: int| 0 <= k < slots@.len() ==> slots@[k] is None,
        decreases n - i,
    {
        slots.push(None);
        i = i + 1;
    }
    let mut pending: usize = crate::shape::sum_min_sizes(fields);
    proof {
        lemma_sum_unfilled_all_none(fields@, slots@);
    }
    let mut remaining: usize = match budget {
        Some(b) => b,
        None => 0,
    };
    let mut j: usize = 0;
    while j < n
        invariant
            n == fields@.len(),
            fields_wf(fields@),
            sum_forced(fields@) <= MAX_FORCED_MIN as nat,
            order@.len() == n,
            forall|k: int| 0 <= k < order@.len() ==> (order@[k] as nat) < n as nat,
            order@.no_duplicates(),
            forall|vv: usize| (vv as nat) < n as nat ==> order@.contains(vv),
            j <= n,
            slots@.len() == n,
            forall|k: int|
                0 <= k < n ==> ((#[trigger] slots@[k]) is Some <==> order@.take(
                    j as int,
                ).contains(k as usize)),
            forall|k: int|
                0 <= k < n ==> ((#[trigger] slots@[k]) matches Some(v) ==> conforms(
                    v,
                    fields@[k].shape,
                )),
            forall|k: int|
                0 <= k < n ==> ((#[trigger] slots@[k]) matches Some(v) ==> ((!fields@[k].ignored
                    ==> field_bounds_met(fields@[k], v)) && (fields@[k].ignored
                    ==> crate::value::is_default_of(v, fields@[k].shape)))),
            pending == sum_unfilled(fields@, slots@),
            budget matches Some(b) ==> opt_sizes(slots@) + pending <= max2(
                b as nat,
                sum_forced(fields@),
            ),
            budget matches Some(b) ==> remaining as nat == sat_sub(b as nat, opt_sizes(slots@)),
            m.early_bail_percent == old(m).early_bail_percent,
            m.fixup_enabled == old(m).fixup_enabled,
        decreases n - j,
    {
        let idx = order[j];
        proof {
            assert(order@.take(n as int) =~= order@);
            if slots@[idx as int] is Some {
                let k = choose|k: int|
                    0 <= k < j && order@.take(j as int)[k] == idx;
                assert(order@[k] == order@[j as int]);
                assert(false);
            }
            assert(field_wf(fields@[idx as int]));
            lemma_sum_unfilled_ge(fields@, slots@, idx as int);
        }
        let f_min = min_size(&fields[idx].shape);
        let new_pending = pending - f_min;
        let give: usize = if remaining > new_pending {
            remaining - new_pending
        } else {
            0
        };
        let ghost old_slots = slots@;
        let ghost old_pending = pending as nat;
        let ghost old_remaining = remaining as nat;
        proof {
            assert(decreases_to!(fields@ => fields@[idx as int]));
            assert(decreases_to!(fields@[idx as int] => fields@[idx as int].shape));
        }
        let child: Value;
        if fields[idx].ignored {
            child = default_value(&fields[idx].shape);
        } else {
            let c: Constraints<u64> = Constraints {
                min: fields[idx].min,
                max: fields[idx].max,
                weighted: fields[idx].weighted,
                max_size: match budget {
                    Some(_) => Some(give),
                    None => None,
                },
            };
            child = new_fuzzed(m, &fields[idx].shape, Some(&c));
        }
        proof {
            match budget {
                Some(_) => {
                    assert(value_size_spec(child) <= max2(
                        give as nat,
                        forced_min(fields@[idx as int].shape),
                    ));
                },
                None => {},
            }
        }
        if budget.is_some() {
            let sz = value_size(&child);
            remaining = if sz > remaining {
                0
            } else {
                remaining - sz
            };
        }
        slots[idx] = Some(child);
        pending = new_pending;
        j = j + 1;
        proof {
            lemma_fill_slot(fields@, old_slots, idx as int, child);
            assert(slots@ == old_slots.update(idx as int, Some(child)));
            assert(order@.take(j as int) =~= order@.take(j as int - 1).push(idx));
            assert forall|k: int| 0 <= k < n implies ((#[trigger] slots@[k]) is Some
                <==> order@.take(j as int).contains(k as usize)) by {
                if k == idx as int {
                    assert(order@.take(j as int)[j - 1] == idx);
                    assert(order@.take(j as int).contains(idx));
                } else {
                    assert(slots@[k] == old_slots[k]);
                    if order@.take(j as int).contains(k as usize) {
                        let p = choose|p: int|
                            0 <= p < j && #[trigger] order@.take(j as int)[p] == k as usize;
                        assert(order@[p] == k as usize);
                        if p < j - 1 {
                            assert(order@.take(j as int - 1)[p] == k as usize);
                            assert(order@.take(j as int - 1).contains(k as usize));
                        }
                    }
                    if order@.take(j as int - 1).contains(k as usize) {
                        let p = choose|p: int|
                            0 <= p < j - 1 && #[trigger] order@.take(j as int - 1)[p]
                                == k as usize;
                        assert(order@.take(j as int)[p] == k as usize);
                        assert(order@.take(j as int).contains(k as usize));
                    }
                }
            }
            match budget {
                Some(b) => {
                let s0 = opt_sizes(old_slots);
                let u0 = old_pending;
                let szv = value_size_spec(child);
                let fm = forced_min(fields@[idx as int].shape);
                let mm = max2(b as nat, sum_forced(fields@));
                assert(opt_sizes(slots@) == s0 + szv);
                assert(sum_unfilled(fields@, slots@) == u0 - fm);
                assert(szv <= max2(give as nat, fm));
                if szv <= fm {
                    assert(opt_sizes(slots@) + pending <= mm);
                } else {
                    assert(szv <= give as nat);
                    assert(give as nat == sat_sub(old_remaining, (u0 - fm) as nat));
                    assert(old_remaining == sat_sub(b as nat, s0));
                    assert(opt_sizes(slots@) + pending <= mm);
                }
                },
                None => {},
            }
        }
    }
    proof {
        assert forall|k: int| 0 <= k < n implies (#[trigger] slots@[k]) is Some by {
            assert(order@.contains(k as usize));
            let p = choose|p: int| 0 <= p < order@.len() && order@[p] == k as usize;
            assert(order@.take(n as int) =~= order@);
            assert(order@.take(j as int).contains(k as usize));
        }
    }
    let ghost full_slots = slots@;
    let mut vs: Vec<Value> = Vec::new();
    let mut i2: usize = 0;
    while slots.len() > 0
        invariant
            full_slots.len() == n,
            n == fields@.len(),
            vs@.len() + slots@.len() == n,
            slots@ == full_slots.skip(vs@.len() as int),
            forall|k: int| 0 <= k < vs@.len() ==> full_slots[k] == Some(vs@[k]),
            forall|k: int|
                0 <= k < n ==> ((#[trigger] full_slots[k]) matches Some(v) ==> conforms(
                    v,
                    fields@[k].shape,
                )),
            forall|k: int| 0 <= k < n ==> (#[trigger] full_slots[k]) is Some,
        decreases slots@.len(),
    {
        let ghost prev = slots@;
        let o = slots.remove(0);
        proof {
            assert(o == full_slots[vs@.len() as int]);
            assert(slots@ =~= full_slots.skip(vs@.len() as int + 1));
        }
        match o {
            Some(v) => {
                vs.push(v);
            },
            None => {
                proof {
                    assert(false);
                }
            },
        }
    }
    proof {
        assert(vs@.len() == n);
        lemma_opt_sizes_complete(full_slots, vs@);
        assert forall|i: int| 0 <= i < vs@.len() implies conforms(
            #[trigger] vs@[i],
            fields@[i].shape,
        ) by {
            assert(full_slots[i] == Some(vs@[i]));
        }
        assert forall|i: int|
            0 <= i < vs@.len() implies (!fields@[i].ignored ==> field_bounds_met(
            #[trigger] fields@[i],
            vs@[i],
        )) by {
            assert(full_slots[i] == Some(vs@[i]));
        }
        assert forall|i: int|
            0 <= i < vs@.len() implies ((#[trigger] fields@[i]).ignored
            ==> crate::value::is_default_of(vs@[i], fields@[i].shape)) by {
            assert(full_slots[i] == Some(vs@[i]));
        }
    }
    vs
}

} // verus!

//! The mutator protocol: reworks an existing structured value in place of
//! rebuilding it, together with the fixup pass that repairs cross-field
//! invariants and the on-success bookkeeping walk.

use crate::generate::{constraint_ok_for, new_fuzzed};
use crate::mutator::Mutator;
use crate::rng::{next_below, RandomSource};
use crate::shape::{
    field_wf, fields_wf, rule_cond, rules_ok, shape_wf, FieldDecl, IntWidth, Measure, Shape,
    VariantDecl,
};
use crate::types::Constraints;
use crate::value::{conforms, is_default_of, value_size, value_size_spec, vals_size_spec, Value};
use vstd::prelude::*;

verus! {

/// A size clamped to the machine word: measured sizes saturate rather
/// than wrap.
pub open spec fn clamp(x: nat) -> nat {
    if x > usize::MAX as nat {
        usize::MAX as nat
    } else {
        x
    }
}

/// Saturating addition on machine-word sizes.
fn sat_add(a: usize, b: usize) -> (r: usize)
    ensures
        r as nat == clamp(a as nat + b as nat),
{
    if a > usize::MAX - b {
        usize::MAX
    } else {
        a + b
    }
}

/// What a fixup rule reads of a source field: its serialized byte size
/// (saturating at the machine word) or its element count.
pub open spec fn measure_spec(v: Value, m: Measure) -> nat {
    match m {
        Measure::ByteSize => clamp(value_size_spec(v)),
        Measure::ElemCount => match v {
            Value::Sequence(vs) => vs@.len(),
            Value::Bytes(b) => b@.len(),
            Value::Text(t) => t@.len(),
            _ => 0,
        },
    }
}

/// The serialized size of a value, saturating at the machine word.
fn value_size_sat(v: &Value) -> (r: usize)
    ensures
        r as nat == clamp(value_size_spec(*v)),
    decreases *v,
{
    match v {
        Value::Uint(w, _) => w.bytes(),
        Value::Boolean(_) => 1,
        Value::Text(t) => {
            let mut total: usize = 0;
            let mut i: usize = 0;
            let ghost chars = t@;
            while i < t.inner.len()
                invariant
                    chars == t@,
                    t.inner@.len() == chars.len(),
                    i <= chars.len(),
                    total as nat == clamp(vstd::utf8::encode_utf8(chars.take(i as int)).len()),
                decreases chars.len() - i,
            {
                proof {
                    assert(chars.take(i as int + 1) =~= chars.take(i as int).push(
                        chars[i as int],
                    ));
                    crate::serialize::lemma_encode_utf8_push(chars.take(i as int), chars[i as int]);
                    assert(chars[i as int] == t.inner@[i as int].0);
                }
                let cs = crate::serialize::SerializedSize::serialized_size(&t.inner[i]);
                proof {
                    crate::serialize::lemma_scalar_enc_len(t.inner@[i as int].0 as u32);
                }
                total = sat_add(total, cs);
                i = i + 1;
            }
            proof {
                assert(chars.take(chars.len() as int) =~= chars);
            }
            total
        },
        Value::Bytes(b) => b.len(),
        Value::Sequence(vs) => {
            proof {
                assert(decreases_to!(*v => v->Sequence_0));
                assert(v->Sequence_0 == *vs);
                assert(decreases_to!(*vs => vs@));
            }
            vals_size_sat(vs)
        },
        Value::Record(vs) => {
            proof {
                assert(decreases_to!(*v => v->Record_0));
                assert(v->Record_0 == *vs);
                assert(decreases_to!(*vs => vs@));
            }
            vals_size_sat(vs)
        },
        Value::Choice(_, vs) => {
            proof {
                assert(decreases_to!(*v => v->Choice_1));
                assert(v->Choice_1 == *vs);
                assert(decreases_to!(*vs => vs@));
            }
            vals_size_sat(vs)
        },
    }
}

/// The total size of a list of values, saturating at the machine word.
fn vals_size_sat(vs: &Vec<Value>) -> (r: usize)
    ensures
        r as nat == clamp(vals_size_spec(vs@)),
    decreases vs@,
{
    let mut total: usize = 0;
    let mut i: usize = 0;
    while i < vs.len()
        invariant
            i <= vs@.len(),
            total as nat == clamp(vals_size_spec(vs@.take(i as int))),
        decreases vs@.len() - i,
    {
        proof {
            assert(vs@.take(i as int + 1) =~= vs@.take(i as int).push(vs@[i as int]));
            crate::value::lemma_vals_size_push(vs@.take(i as int), vs@[i as int]);
            assert(decreases_to!(vs@ => vs@[i as int]));
        }
        let es = value_size_sat(&vs[i]);
        total = sat_add(total, es);
        i = i + 1;
    }
    proof {
        assert(vs@.take(vs@.len() as int) =~= vs@);
    }
    total
}

/// Reads the fixup measure of a source field's current value.
fn measure_value(v: &Value, m: Measure) -> (r: usize)
    ensures
        r as nat == measure_spec(*v, m),
{
    match m {
        Measure::ByteSize => value_size_sat(v),
        Measure::ElemCount => match v {
            Value::Sequence(vs) => vs.len(),
            Value::Bytes(b) => b.len(),
            Value::Text(t) => t.inner.len(),
            _ => 0,
        },
    }
}

/// What a fixup pass promises of a ruled field: the field holds the
/// measured value of its source sibling, truncated to the field's width.
pub open spec fn rule_applied(fields: Seq<FieldDecl>, vs: Seq<Value>, i: int) -> bool
    recommends
        0 <= i < fields.len(),
        fields.len() == vs.len(),
{
    match fields[i].fixup {
        Some(rule) => match fields[i].shape {
            Shape::Uint(w) => vs[i] == Value::Uint(
                w,
                (measure_spec(vs[rule.source as int], rule.measure) % w.limit_spec()) as u64,
            ),
            _ => true,
        },
        None => true,
    }
}

/// What a fixup pass promises of one value under its shape: every repair
/// rule of a record is applied. Other shapes carry no record-level rules
/// of their own.
pub open spec fn fixup_done(s: Shape, v: Value) -> bool {
    match s {
        Shape::Record(fields) => v matches Value::Record(rs) ==> forall|i: int|
            0 <= i < fields@.len() ==> rule_applied(fields@, rs@, i),
        _ => true,
    }
}

/// Element-wise equal sizes give equal totals.
proof fn lemma_vals_size_congruent(a: Seq<Value>, b: Seq<Value>)
    requires
        a.len() == b.len(),
        forall|i: int| 0 <= i < a.len() ==> value_size_spec(a[i]) == value_size_spec(b[i]),
    ensures
        vals_size_spec(a) == vals_size_spec(b),
    decreases a,
{
    if a.len() > 0 {
        assert(value_size_spec(a[0]) == value_size_spec(b[0]));
        assert forall|i: int| 0 <= i < a.drop_first().len() implies value_size_spec(
            a.drop_first()[i],
        ) == value_size_spec(b.drop_first()[i]) by {
            assert(a.drop_first()[i] == a[i + 1]);
            assert(b.drop_first()[i] == b[i + 1]);
        }
        lemma_vals_size_congruent(a.drop_first(), b.drop_first());
    }
}

/// Runs the fixup pass over one value: children are repaired first, then
/// every field that carries a repair rule is set to the measured value of
/// its source sibling. Fixup never changes a value's serialized size.
pub fn fixup_value(v: Value, s: &Shape) -> (r: Value)
    requires
        shape_wf(*s),
        conforms(v, *s),
    ensures
        conforms(r, *s),
        value_size_spec(r) == value_size_spec(v),
        v is Choice ==> (r is Choice && r->Choice_0 == v->Choice_0),
        fixup_done(*s, r),
        (v is Uint || v is Boolean || v is Text || v is Bytes) ==> r == v,
        (crate::shape::rule_free(*s) && is_default_of(v, *s)) ==> is_default_of(r, *s),
        *s matches Shape::Record(fields) ==> (v matches Value::Record(vs0) ==> (r matches
            Value::Record(rs) ==> ((forall|i: int|
            0 <= i < rs@.len() ==> ((fields@[i].fixup is None && fields@[i].shape matches
                Shape::Uint(_)) ==> rs@[i] == vs0@[i])) && (forall|i: int|
            0 <= i < rs@.len() ==> ((fields@[i].fixup is None && crate::shape::rule_free(
                fields@[i].shape,
            ) && is_default_of(vs0@[i], fields@[i].shape)) ==> is_default_of(
                rs@[i],
                fields@[i].shape,
            )))))),
    decreases v,
{
    let ghost gv = v;
    match v {
        Value::Record(vs) => {
            proof {
                assert(decreases_to!(gv => gv->Record_0));
            }
            match s {
                Shape::Record(fields) => {
                    let ghost vs0 = vs@;
                    let out = fixup_fields(vs, fields);
                    proof {
                        if crate::shape::rule_free(*s) && is_default_of(gv, *s) {
                            assert(crate::shape::fields_rule_free(fields@));
                            assert forall|i: int| 0 <= i < out@.len() implies is_default_of(
                                #[trigger] out@[i],
                                fields@[i].shape,
                            ) by {
                                assert(fields@[i].fixup is None && crate::shape::rule_free(
                                    fields@[i].shape,
                                ));
                                assert(is_default_of(vs0[i], fields@[i].shape));
                            }
                        }
                    }
                    Value::Record(out)
                },
                _ => {
                    proof {
                        assert(false);
                    }
                    Value::Record(vs)
                },
            }
        },
        Value::Choice(idx, vs) => {
            proof {
                assert(decreases_to!(gv => gv->Choice_1));
            }
            match s {
                Shape::Choice(variants, _) => {
                    proof {
                        assert(crate::shape::variants_wf(variants@));
                        assert(fields_wf(variants@[idx as int].payload@));
                        assert(rules_ok(variants@[idx as int].payload@));
                    }
                    let ghost vs0 = vs@;
                    let ghost pay = variants@[idx as int].payload@;
                    let out = fixup_fields(vs, &variants[idx].payload);
                    proof {
                        if crate::shape::rule_free(*s) && is_default_of(gv, *s) {
                            assert(crate::shape::variants_rule_free(variants@));
                            assert(crate::shape::fields_rule_free(pay));
                            assert forall|i: int| 0 <= i < out@.len() implies is_default_of(
                                #[trigger] out@[i],
                                pay[i].shape,
                            ) by {
                                assert(pay[i].fixup is None && crate::shape::rule_free(
                                    pay[i].shape,
                                ));
                                assert(is_default_of(vs0[i], pay[i].shape));
                            }
                        }
                    }
                    Value::Choice(idx, out)
                },
                _ => {
                    proof {
                        assert(false);
                    }
                    Value::Choice(idx, vs)
                },
            }
        },
        Value::Sequence(vs) => {
            proof {
                assert(decreases_to!(gv => gv->Sequence_0));
            }
            match s {
                Shape::Sequence(elem) => Value::Sequence(fixup_elems(vs, elem)),
                _ => {
                    proof {
                        assert(false);
                    }
                    Value::Sequence(vs)
                },
            }
        },
        other => other,
    }
}

/// Repairs each element of a sequence in order.
#[verifier::loop_isolation(false)]
fn fixup_elems(vals: Vec<Value>, elem: &Shape) -> (r: Vec<Value>)
    requires
        shape_wf(*elem),
        forall|i: int| 0 <= i < vals@.len() ==> conforms(#[trigger] vals@[i], *elem),
    ensures
        r@.len() == vals@.len(),
        forall|i: int| 0 <= i < r@.len() ==> conforms(#[trigger] r@[i], *elem),
        vals_size_spec(r@) == vals_size_spec(vals@),
    decreases vals@,
{
    let ghost orig = vals@;
    let mut vals = vals;
    let mut out: Vec<Value> = Vec::new();
    while vals.len() > 0
        invariant
            shape_wf(*elem),
            forall|i: int| 0 <= i < orig.len() ==> conforms(#[trigger] orig[i], *elem),
            out@.len() + vals@.len() == orig.len(),
            vals@ == orig.skip(out@.len() as int),
            forall|i: int| 0 <= i < out@.len() ==> conforms(#[trigger] out@[i], *elem),
            forall|i: int|
                0 <= i < out@.len() ==> value_size_spec(#[trigger] out@[i]) == value_size_spec(
                    orig[i],
                ),
        decreases vals@.len(),
    {
        let ghost k = out@.len() as int;
        let x = vals.remove(0);
        proof {
            assert(x == orig[k]);
            assert(vals@ =~= orig.skip(k + 1));
            assert(decreases_to!(orig => orig[k]));
        }
        let y = fixup_value(x, elem);
        out.push(y);
    }
    proof {
        lemma_vals_size_congruent(out@, orig);
    }
    out
}

/// Repairs a record's field values: children first, then the repair rules
/// in declaration order. Rule sources carry no rules of their own, so a
/// measure read during the pass is the measure of the finished record.
#[verifier::loop_isolation(false)]
fn fixup_fields(vals: Vec<Value>, fields: &Vec<FieldDecl>) -> (r: Vec<Value>)
    requires
        fields_wf(fields@),
        rules_ok(fields@),
        vals@.len() == fields@.len(),
        forall|i: int| 0 <= i < vals@.len() ==> conforms(#[trigger] vals@[i], fields@[i].shape),
    ensures
        r@.len() == vals@.len(),
        forall|i: int| 0 <= i < r@.len() ==> conforms(#[trigger] r@[i], fields@[i].shape),
        vals_size_spec(r@) == vals_size_spec(vals@),
        forall|i: int| 0 <= i < fields@.len() ==> rule_applied(fields@, r@, i),
        forall|i: int|
            0 <= i < r@.len() ==> ((fields@[i].fixup is None && fields@[i].shape matches
                Shape::Uint(_)) ==> r@[i] == vals@[i]),
        forall|i: int|
            0 <= i < r@.len() ==> ((fields@[i].fixup is None && crate::shape::rule_free(
                fields@[i].shape,
            ) && is_default_of(vals@[i], fields@[i].shape)) ==> is_default_of(
                r@[i],
                fields@[i].shape,
            )),
    decreases vals@,
{
    let ghost orig = vals@;
    let mut vals = vals;
    let mut out: Vec<Value> = Vec::new();
    while vals.len() > 0
        invariant
            fields_wf(fields@),
            orig.len() == fields@.len(),
            forall|i: int| 0 <= i < orig.len() ==> conforms(#[trigger] orig[i], fields@[i].shape),
            out@.len() + vals@.len() == orig.len(),
            vals@ == orig.skip(out@.len() as int),
            forall|i: int|
                0 <= i < out@.len() ==> conforms(#[trigger] out@[i], fields@[i].shape),
            forall|i: int|
                0 <= i < out@.len() ==> value_size_spec(#[trigger] out@[i]) == value_size_spec(
                    orig[i],
                ),
            forall|i: int|
                0 <= i < out@.len() ==> (fields@[i].shape matches Shape::Uint(_)
                    ==> #[trigger] out@[i] == orig[i]),
            forall|i: int|
                0 <= i < out@.len() ==> ((crate::shape::rule_free(fields@[i].shape)
                    && is_default_of(orig[i], fields@[i].shape)) ==> is_default_of(
                    #[trigger] out@[i],
                    fields@[i].shape,
                )),
        decreases vals@.len(),
    {
        let ghost k = out@.len() as int;
        let x = vals.remove(0);
        proof {
            assert(x == orig[k]);
            assert(vals@ =~= orig.skip(k + 1));
            assert(field_wf(fields@[k]));
            assert(decreases_to!(orig => orig[k]));
        }
        let y = fixup_value(x, &fields[out.len()].shape);
        out.push(y);
    }
    let ghost mid = out@;
    proof {
        lemma_vals_size_congruent(mid, orig);
    }
    let n = fields.len();
    let mut i: usize = 0;
    while i < n
        invariant
            fields_wf(fields@),
            rules_ok(fields@),
            n == fields@.len(),
            i <= n,
            out@.len() == n,
            mid.len() == n,
            forall|k: int| 0 <= k < n ==> conforms(#[trigger] out@[k], fields@[k].shape),
            forall|k: int|
                0 <= k < n ==> value_size_spec(#[trigger] out@[k]) == value_size_spec(mid[k]),
            forall|k: int| 0 <= k < n ==> (fields@[k].fixup is None ==> out@[k] == mid[k]),
            forall|k: int|
                0 <= k < n ==> (fields@[k].shape matches Shape::Uint(_)
                    ==> #[trigger] mid[k] == orig[k]),
            forall|k: int|
                0 <= k < n ==> ((crate::shape::rule_free(fields@[k].shape) && is_default_of(
                    orig[k],
                    fields@[k].shape,
                )) ==> is_default_of(#[trigger] mid[k], fields@[k].shape)),
            forall|k: int| 0 <= k < i ==> rule_applied(fields@, out@, k),
        decreases n - i,
    {
        let ghost before = out@;
        proof {
            assert(rule_cond(fields@, i as int));
        }
        match fields[i].fixup {
            Some(rule) => {
                let mv = measure_value(&out[rule.source], rule.measure);
                match &fields[i].shape {
                    Shape::Uint(w) => {
                        let val: u64 = match w {
                            IntWidth::W64 => mv as u64,
                            _ => (mv as u64) % (w.max_value() + 1),
                        };
                        proof {
                            if *w is W64 {
                                assert((mv as nat) < w.limit_spec());
                                assert((mv as nat) % w.limit_spec() == mv as nat);
                            }
                        }
                        out[i] = Value::Uint(*w, val);
                        proof {
                            assert forall|k: int| 0 <= k < i + 1 implies rule_applied(
                                fields@,
                                out@,
                                k,
                            ) by {
                                if k < i {
                                    assert(rule_applied(fields@, before, k));
                                    assert(rule_cond(fields@, k));
                                    match fields@[k].fixup {
                                        Some(rk) => {
                                            assert(fields@[rk.source as int].fixup is None);
                                            assert(out@[rk.source as int] == before[
                                                rk.source as int
                                            ]);
                                            assert(out@[k] == before[k]);
                                        },
                                        None => {},
                                    }
                                } else {
                                    assert(fields@[rule.source as int].fixup is None);
                                    assert(out@[rule.source as int] == mid[rule.source as int]);
                                    assert(before[rule.source as int] == mid[rule.source as int]);
                                }
                            }
                        }
                    },
                    _ => {
                        proof {
                            assert(false);
                        }
                    },
                }
            },
            None => {
                proof {
                    assert forall|k: int| 0 <= k < i + 1 implies rule_applied(
                        fields@,
                        out@,
                        k,
                    ) by {}
                }
            },
        }
        i = i + 1;
    }
    proof {
        lemma_vals_size_congruent(out@, mid);
    }
    out
}

/// How many leaf values (integers, booleans, text, byte strings) a value
/// holds; what the on-success walk reports.
pub open spec fn leaf_count_spec(v: Value) -> nat
    decreases v,
{
    match v {
        Value::Uint(_, _) => 1,
        Value::Boolean(_) => 1,
        Value::Text(_) => 1,
        Value::Bytes(_) => 1,
        Value::Sequence(vs) => leaves_spec(vs@),
        Value::Record(vs) => leaves_spec(vs@),
        Value::Choice(_, vs) => leaves_spec(vs@),
    }
}

/// The leaf count of a list of values.
pub open spec fn leaves_spec(s: Seq<Value>) -> nat
    decreases s,
{
    if s.len() == 0 {
        0
    } else {
        leaf_count_spec(s[0]) + leaves_spec(s.drop_first())
    }
}

proof fn lemma_leaves_push(s: Seq<Value>, x: Value)
    ensures
        leaves_spec(s.push(x)) == leaves_spec(s) + leaf_count_spec(x),
    decreases s.len(),
{
    if s.len() == 0 {
        assert(s.push(x)[0] == x);
        assert(s.push(x).drop_first() =~= Seq::<Value>::empty());
        assert(leaves_spec(Seq::<Value>::empty()) == 0);
    } else {
        assert(s.push(x)[0] == s[0]);
        assert(s.push(x).drop_first() =~= s.drop_first().push(x));
        lemma_leaves_push(s.drop_first(), x);
    }
}

/// The on-success hook: runs after a mutated value has been accepted,
/// visiting every field recursively for per-field bookkeeping. This
/// implementation's bookkeeping is a count of the leaf values visited,
/// saturating at the machine word.
pub fn on_success(v: &Value) -> (n: usize)
    ensures
        n as nat == clamp(leaf_count_spec(*v)),
    decreases *v,
{
    match v {
        Value::Uint(_, _) => 1,
        Value::Boolean(_) => 1,
        Value::Text(_) => 1,
        Value::Bytes(_) => 1,
        Value::Sequence(vs) => {
            proof {
                assert(decreases_to!(*v => v->Sequence_0));
                assert(v->Sequence_0 == *vs);
                assert(decreases_to!(*vs => vs@));
            }
            on_success_all(vs)
        },
        Value::Record(vs) => {
            proof {
                assert(decreases_to!(*v => v->Record_0));
                assert(v->Record_0 == *vs);
                assert(decreases_to!(*vs => vs@));
            }
            on_success_all(vs)
        },
        Value::Choice(_, vs) => {
            proof {
                assert(decreases_to!(*v => v->Choice_1));
                assert(v->Choice_1 == *vs);
                assert(decreases_to!(*vs => vs@));
            }
            on_success_all(vs)
        },
    }
}

/// Visits every value of a list for on-success bookkeeping.
fn on_success_all(vs: &Vec<Value>) -> (n: usize)
    ensures
        n as nat == clamp(leaves_spec(vs@)),
    decreases vs@,
{
    let mut total: usize = 0;
    let mut i: usize = 0;
    while i < vs.len()
        invariant
            i <= vs@.len(),
            total as nat == clamp(leaves_spec(vs@.take(i as int))),
        decreases vs@.len() - i,
    {
        proof {
            assert(vs@.take(i as int + 1) =~= vs@.take(i as int).push(vs@[i as int]));
            lemma_leaves_push(vs@.take(i as int), vs@[i as int]);
            assert(decreases_to!(vs@ => vs@[i as int]));
        }
        let c = on_success(&vs[i]);
        total = sat_add(total, c);
        i = i + 1;
    }
    proof {
        assert(vs@.take(vs@.len() as int) =~= vs@);
    }
    total
}

/// Whether some variant of a choice carries no payload. Mutating a choice
/// that has such unit variants replaces the whole value by a fresh draw,
/// since a unit variant offers nothing finer to mutate.
pub open spec fn has_unit_variant(variants: Seq<VariantDecl>) -> bool {
    exists|i: int| 0 <= i < variants.len() && (#[trigger] variants[i]).payload@.len() == 0
}

fn has_unit_variant_exec(variants: &Vec<VariantDecl>) -> (r: bool)
    ensures
        r == has_unit_variant(variants@),
{
    let mut i: usize = 0;
    while i < variants.len()
        invariant
            i <= variants@.len(),
            forall|k: int| 0 <= k < i ==> (#[trigger] variants@[k]).payload@.len() != 0,
        decreases variants@.len() - i,
    {
        if variants[i].payload.len() == 0 {
            return true;
        }
        i = i + 1;
    }
    false
}

/// Mutates an existing value under its shape.
///
/// Leaf values are redrawn within their constraints; a boolean is
/// deliberately given an arbitrary backing byte. A choice whose variants
/// all carry payload keeps its active variant and mutates only that
/// payload; one with unit variants is replaced by a fresh draw. A record
/// is visited in declaration order, consulting the driver once per field
/// for an early bail; with bailing forced, every field after the first
/// keeps its previous value. After a completed (non-bailed) pass, a fixup
/// pass runs when the driver asks for one.
pub fn mutate<R: RandomSource>(
    v: Value,
    shape: &Shape,
    m: &mut Mutator<R>,
    constraints: Option<&Constraints<u64>>,
) -> (r: Value)
    requires
        shape_wf(*shape),
        conforms(v, *shape),
        constraints matches Some(c) ==> constraint_ok_for(*shape, *c),
    ensures
        conforms(r, *shape),
        (*shape is Choice && v is Choice && !has_unit_variant(shape->Choice_0@)) ==> (r is Choice
            && r->Choice_0 == v->Choice_0),
        (old(m).early_bail_percent >= 100 && *shape is Record && v is Record
            && v->Record_0@.len() >= 1) ==> (r is Record && r->Record_0@.len()
            == v->Record_0@.len() && forall|k: int|
            1 <= k < r->Record_0@.len() ==> r->Record_0@[k] == v->Record_0@[k]),
        *shape matches Shape::Record(fields) ==> ((old(m).early_bail_percent >= 100
            && old(m).fixup_enabled && v is Record && v->Record_0@.len() >= 1) ==> (
        r matches Value::Record(rs) && fixup_done(fields@[0].shape, rs@[0]))),
        (old(m).early_bail_percent == 0 && old(m).fixup_enabled && *shape is Record)
            ==> fixup_done(*shape, r),
        *shape matches Shape::Uint(w) ==> (constraints matches Some(c) ==> ((c.min matches Some(
            lo,
        ) ==> lo <= r->Uint_1) && (c.max matches Some(hi) ==> r->Uint_1 < hi))),
        *shape matches Shape::Choice(variants, _) ==> ((v is Choice && has_unit_variant(
            variants@,
        )) ==> (r matches Value::Choice(idx2, _) && idx2 < variants@.len() && !variants@[
            idx2 as int
        ].ignored && crate::shape::effective_weight(variants@[idx2 as int]) > 0)),
        final(m).early_bail_percent == old(m).early_bail_percent,
        final(m).fixup_enabled == old(m).fixup_enabled,
    decreases v,
{
    let ghost gv = v;
    proof {
        assert(conforms(gv, *shape));
    }
    match v {
        Value::Record(vs) => {
            proof {
                assert(decreases_to!(gv => gv->Record_0));
                assert(*shape is Record);
            }
            match shape {
                Shape::Record(fields) => {
                    let (out, bailed) = mutate_fields(vs, fields, m);
                    if bailed {
                        Value::Record(out)
                    } else {
                        let r0 = Value::Record(out);
                        if m.should_fixup() {
                            fixup_value(r0, shape)
                        } else {
                            r0
                        }
                    }
                },
                _ => {
                    proof {
                        assert(false);
                    }
                    Value::Record(vs)
                },
            }
        },
        Value::Choice(idx, vs) => {
            proof {
                assert(decreases_to!(gv => gv->Choice_1));
            }
            match shape {
                Shape::Choice(variants, _) => {
                    if has_unit_variant_exec(variants) {
                        let r0 = new_fuzzed(m, shape, constraints);
                        if m.should_fixup() {
                            fixup_value(r0, shape)
                        } else {
                            r0
                        }
                    } else {
                        proof {
                            assert(crate::shape::variants_wf(variants@));
                            assert(fields_wf(variants@[idx as int].payload@));
                        }
                        let out = mutate_payload(vs, &variants[idx].payload, m);
                        let r0 = Value::Choice(idx, out);
                        if m.should_fixup() {
                            fixup_value(r0, shape)
                        } else {
                            r0
                        }
                    }
                },
                _ => {
                    proof {
                        assert(false);
                    }
                    Value::Choice(idx, vs)
                },
            }
        },
        Value::Sequence(vs) => {
            proof {
                assert(decreases_to!(gv => gv->Sequence_0));
            }
            match shape {
                Shape::Sequence(elem) => {
                    let out = mutate_elems(vs, elem, m);
                    let r0 = Value::Sequence(out);
                    if m.should_fixup() {
                        fixup_value(r0, shape)
                    } else {
                        r0
                    }
                },
                _ => {
                    proof {
                        assert(false);
                    }
                    Value::Sequence(vs)
                },
            }
        },
        Value::Boolean(_) => {
            let b = next_below(&mut m.rng, 0x100) as u8;
            Value::Boolean(b)
        },
        other => {
            let r0 = new_fuzzed(m, shape, constraints);
            r0
        },
    }
}

/// Mutates each element of a sequence in order.
#[verifier::loop_isolation(false)]
fn mutate_elems<R: RandomSource>(vals: Vec<Value>, elem: &Shape, m: &mut Mutator<R>) -> (r: Vec<
    Value,
>)
    requires
        shape_wf(*elem),
        forall|i: int| 0 <= i < vals@.len() ==> conforms(#[trigger] vals@[i], *elem),
    ensures
        r@.len() == vals@.len(),
        forall|i: int| 0 <= i < r@.len() ==> conforms(#[trigger] r@[i], *elem),
        final(m).early_bail_percent == old(m).early_bail_percent,
        final(m).fixup_enabled == old(m).fixup_enabled,
    decreases vals@,
{
    let ghost orig = vals@;
    let mut vals = vals;
    let mut out: Vec<Value> = Vec::new();
    while vals.len() > 0
        invariant
            shape_wf(*elem),
            forall|i: int| 0 <= i < orig.len() ==> conforms(#[trigger] orig[i], *elem),
            out@.len() + vals@.len() == orig.len(),
            vals@ == orig.skip(out@.len() as int),
            forall|i: int| 0 <= i < out@.len() ==> conforms(#[trigger] out@[i], *elem),
            m.early_bail_percent == old(m).early_bail_percent,
            m.fixup_enabled == old(m).fixup_enabled,
        decreases vals@.len(),
    {
        let ghost k = out@.len() as int;
        let x = vals.remove(0);
        proof {
            assert(x == orig[k]);
            assert(vals@ =~= orig.skip(k + 1));
            assert(decreases_to!(orig => orig[k]));
        }
        let y = mutate(x, elem, m, None);
        out.push(y);
    }
    out
}

/// Mutates a variant's payload fields in declaration order, each under
/// its declared constraints.
#[verifier::loop_isolation(false)]
fn mutate_payload<R: RandomSource>(
    vals: Vec<Value>,
    fields: &Vec<FieldDecl>,
    m: &mut Mutator<R>,
) -> (r: Vec<Value>)
    requires
        fields_wf(fields@),
        vals@.len() == fields@.len(),
        forall|i: int| 0 <= i < vals@.len() ==> conforms(#[trigger] vals@[i], fields@[i].shape),
    ensures
        r@.len() == vals@.len(),
        forall|i: int| 0 <= i < r@.len() ==> conforms(#[trigger] r@[i], fields@[i].shape),
        final(m).early_bail_percent == old(m).early_bail_percent,
        final(m).fixup_enabled == old(m).fixup_enabled,
    decreases vals@,
{
    let ghost orig = vals@;
    let mut vals = vals;
    let mut out: Vec<Value> = Vec::new();
    while vals.len() > 0
        invariant
            fields_wf(fields@),
            orig.len() == fields@.len(),
            forall|i: int| 0 <= i < orig.len() ==> conforms(#[trigger] orig[i], fields@[i].shape),
            out@.len() + vals@.len() == orig.len(),
            vals@ == orig.skip(out@.len() as int),
            forall|i: int| 0 <= i < out@.len() ==> conforms(#[trigger] out@[i], fields@[i].shape),
            m.early_bail_percent == old(m).early_bail_percent,
            m.fixup_enabled == old(m).fixup_enabled,
        decreases vals@.len(),
    {
        let ghost k = out@.len() as int;
        let x = vals.remove(0);
        let i = out.len();
        proof {
            assert(x == orig[k]);
            assert(vals@ =~= orig.skip(k + 1));
            assert(field_wf(fields@[k]));
            assert(decreases_to!(orig => orig[k]));
        }
        let c: Constraints<u64> = Constraints {
            min: fields[i].min,
            max: fields[i].max,
            weighted: fields[i].weighted,
            max_size: None,
        };
        let y = mutate(x, &fields[i].shape, m, Some(&c));
        out.push(y);
    }
    out
}

/// Mutates a record's fields in declaration order, consulting the driver
/// once per field for an early bail. On a bail the field just mutated is
/// optionally fixed up on its own, and every later field keeps its
/// previous value; the caller skips the whole-record fixup pass.
#[verifier::loop_isolation(false)]
fn mutate_fields<R: RandomSource>(
    vals: Vec<Value>,
    fields: &Vec<FieldDecl>,
    m: &mut Mutator<R>,
) -> (r: (Vec<Value>, bool))
    requires
        fields_wf(fields@),
        vals@.len() == fields@.len(),
        forall|i: int| 0 <= i < vals@.len() ==> conforms(#[trigger] vals@[i], fields@[i].shape),
    ensures
        r.0@.len() == vals@.len(),
        forall|i: int| 0 <= i < r.0@.len() ==> conforms(#[trigger] r.0@[i], fields@[i].shape),
        (old(m).early_bail_percent >= 100 && vals@.len() >= 1) ==> (r.1 == true && forall|k: int|
            1 <= k < r.0@.len() ==> r.0@[k] == vals@[k]),
        (old(m).early_bail_percent >= 100 && old(m).fixup_enabled && vals@.len() >= 1)
            ==> fixup_done(fields@[0].shape, r.0@[0]),
        old(m).early_bail_percent == 0 ==> r.1 == false,
        final(m).early_bail_percent == old(m).early_bail_percent,
        final(m).fixup_enabled == old(m).fixup_enabled,
    decreases vals@,
{
    let ghost orig = vals@;
    let mut vals = vals;
    let mut out: Vec<Value> = Vec::new();
    while vals.len() > 0
        invariant
            fields_wf(fields@),
            orig.len() == fields@.len(),
            forall|i: int| 0 <= i < orig.len() ==> conforms(#[trigger] orig[i], fields@[i].shape),
            out@.len() + vals@.len() == orig.len(),
            vals@ == orig.skip(out@.len() as int),
            forall|i: int| 0 <= i < out@.len() ==> conforms(#[trigger] out@[i], fields@[i].shape),
            old(m).early_bail_percent >= 100 ==> out@.len() == 0,
            m.early_bail_percent == old(m).early_bail_percent,
            m.fixup_enabled == old(m).fixup_enabled,
        decreases vals@.len(),
    {
        let ghost k = out@.len() as int;
        let x = vals.remove(0);
        let i = out.len();
        proof {
            assert(x == orig[k]);
            assert(vals@ =~= orig.skip(k + 1));
            assert(field_wf(fields@[k]));
            assert(decreases_to!(orig => orig[k]));
        }
        let c: Constraints<u64> = Constraints {
            min: fields[i].min,
            max: fields[i].max,
            weighted: fields[i].weighted,
            max_size: None,
        };
        let y = mutate(x, &fields[i].shape, m, Some(&c));
        out.push(y);
        if m.should_early_bail_mutation() {
            if m.should_fixup() {
                let last = out.len() - 1;
                let tail = out.pop();
                match tail {
                    Some(t) => {
                        let t2 = fixup_value(t, &fields[last].shape);
                        out.push(t2);
                    },
                    None => {},
                }
            }
            // re-attach the untouched suffix
            let ghost head = out@;
            out.append(&mut vals);
            proof {
                assert(out@ == head + orig.skip(k + 1));
                assert(out@.len() == orig.len());
                assert forall|q: int| 0 <= q < out@.len() implies conforms(
                    #[trigger] out@[q],
                    fields@[q].shape,
                ) by {
                    if q > k {
                        assert(out@[q] == orig.skip(k + 1)[q - (k + 1)]);
                        assert(orig.skip(k + 1)[q - (k + 1)] == orig[q]);
                    } else {
                        assert(out@[q] == head[q]);
                    }
                }
                if old(m).early_bail_percent >= 100 {
                    assert(k == 0);
                    assert forall|q: int| 1 <= q < out@.len() implies out@[q] == orig[q] by {
                        assert(out@[q] == orig.skip(1)[q - 1]);
                    }
                }
            }
            return (out, true);
        }
    }
    (out, false)
}

} // verus!

//! The runtime shape registry: a queryable description of a structured
//! type's fields, variants, constraints, and repair rules, consumed as data
//! by the generation and mutation protocols.

use crate::selector::{sum_weights, WeightedSelector};
use crate::types::{ConfigError, Weighted};
use vstd::prelude::*;

verus! {

/// The largest total of declared minimum sizes a record or variant set may
/// carry; keeps budget arithmetic within machine bounds.
pub const MAX_FORCED_MIN: u64 = 0xFFFF_FFFF;

/// The width of a fixed-width unsigned integer field.
#[derive(Debug, Clone, Copy, PartialEq, Eq, Structural)]
pub enum IntWidth {
    W8,
    W16,
    W32,
    W64,
}

impl IntWidth {
    /// The width in bytes.
    pub open spec fn bytes_spec(&self) -> nat {
        match self {
            IntWidth::W8 => 1,
            IntWidth::W16 => 2,
            IntWidth::W32 => 4,
            IntWidth::W64 => 8,
        }
    }

    /// One past the largest representable value.
    pub open spec fn limit_spec(&self) -> nat {
        match self {
            IntWidth::W8 => 0x100,
            IntWidth::W16 => 0x1_0000,
            IntWidth::W32 => 0x1_0000_0000,
            IntWidth::W64 => 0x1_0000_0000_0000_0000,
        }
    }

    /// Returns the width in bytes.
    pub fn bytes(&self) -> (r: usize)
        ensures
            r == self.bytes_spec(),
    {
        match self {
            IntWidth::W8 => 1,
            IntWidth::W16 => 2,
            IntWidth::W32 => 4,
            IntWidth::W64 => 8,
        }
    }

    /// Returns the largest representable value.
    pub fn max_value(&self) -> (r: u64)
        ensures
            r as nat == self.limit_spec() - 1,
    {
        match self {
            IntWidth::W8 => 0xFF,
            IntWidth::W16 => 0xFFFF,
            IntWidth::W32 => 0xFFFF_FFFF,
            IntWidth::W64 => 0xFFFF_FFFF_FFFF_FFFF,
        }
    }
}

/// What a fixup rule measures of its source field.
#[derive(Debug, Clone, Copy, PartialEq, Eq, Structural)]
pub enum Measure {
    /// The serialized byte size of the source field's value.
    ByteSize,
    /// The number of elements the source field's value holds.
    ElemCount,
}

/// A cross-field repair rule: the field carrying the rule is an unsigned
/// integer that must equal a measure of a sibling field (for example, a
/// length field that must match a companion buffer's actual length).
#[derive(Debug, Clone, Copy, PartialEq, Eq, Structural)]
pub struct LenRule {
    /// Index, in declaration order, of the sibling field being measured.
    pub source: usize,
    /// What to measure of the sibling.
    pub measure: Measure,
}

/// One field of a record shape, in declaration order, with its declared
/// constraint overrides.
#[derive(Debug)]
pub struct FieldDecl {
    /// The shape of the field's value.
    pub shape: Shape,
    /// Declared lower bound for an integer field.
    pub min: Option<u64>,
    /// Declared upper bound (exclusive) for an integer field.
    pub max: Option<u64>,
    /// Declared sampling bias for an integer field.
    pub weighted: Weighted,
    /// An ignored field bypasses generation and takes its default value.
    pub ignored: bool,
    /// An optional cross-field repair rule applied by fixup passes.
    pub fixup: Option<LenRule>,
}

/// One variant of a choice (enum) shape, in declaration order.
#[derive(Debug)]
pub struct VariantDecl {
    /// Relative selection weight; need not be normalized.
    pub weight: u64,
    /// An ignored variant is never drawn during generation.
    pub ignored: bool,
    /// The variant's payload fields; empty for a unit variant.
    pub payload: Vec<FieldDecl>,
}

/// The weight a variant contributes to selection: ignored variants are
/// excluded by carrying weight zero.
pub open spec fn effective_weight(v: VariantDecl) -> u64 {
    if v.ignored {
        0
    } else {
        v.weight
    }
}

/// The shape of a structured value: what the type shape registry supplies
/// for one type. Selector instances for choice shapes are embedded at
/// construction time, so repeated draws pay no construction cost.
#[derive(Debug)]
pub enum Shape {
    /// A fixed-width unsigned integer.
    Uint(IntWidth),
    /// A boolean; its runtime value carries a raw backing byte so that
    /// deliberately non-canonical booleans survive the pipeline.
    Boolean,
    /// Variable-length text, serialized as UTF-8 bytes.
    Text,
    /// A variable-length raw byte string.
    Bytes,
    /// A variable-length sequence of one element shape.
    Sequence(Box<Shape>),
    /// A product of named fields in declaration order.
    Record(Vec<FieldDecl>),
    /// A sum of variants with a prebuilt weighted selector over them.
    Choice(Vec<VariantDecl>, WeightedSelector),
}

/// The unavoidable serialized size of a shape: what a value of the shape
/// occupies even when every variable-length part is empty. For a choice
/// this is the worst case over the variants that generation can draw.
pub open spec fn forced_min(s: Shape) -> nat
    decreases s,
{
    match s {
        Shape::Uint(w) => w.bytes_spec(),
        Shape::Boolean => 1,
        Shape::Text => 0,
        Shape::Bytes => 0,
        Shape::Sequence(_) => 0,
        Shape::Record(fields) => sum_forced(fields@),
        Shape::Choice(variants, _) => choice_forced(variants@),
    }
}

/// The total of the unavoidable sizes of a field list.
pub open spec fn sum_forced(fields: Seq<FieldDecl>) -> nat
    decreases fields,
{
    if fields.len() == 0 {
        0
    } else {
        forced_min(fields[0].shape) + sum_forced(fields.drop_first())
    }
}

/// The worst unavoidable size over the variants generation can draw.
pub open spec fn choice_forced(variants: Seq<VariantDecl>) -> nat
    decreases variants,
{
    if variants.len() == 0 {
        0
    } else {
        let head = if variants[0].ignored {
            0
        } else {
            sum_forced(variants[0].payload@)
        };
        if head >= choice_forced(variants.drop_first()) {
            head
        } else {
            choice_forced(variants.drop_first())
        }
    }
}

/// The smallest size a generator must still have in its budget to admit
/// one more element of this shape.
pub open spec fn min_nonzero_spec(s: Shape) -> nat
    decreases s,
{
    match s {
        Shape::Uint(w) => w.bytes_spec(),
        Shape::Boolean => 1,
        Shape::Text => 1,
        Shape::Bytes => 1,
        Shape::Sequence(elem) => min_nonzero_spec(*elem),
        Shape::Record(fields) => if sum_forced(fields@) == 0 {
            1
        } else {
            sum_forced(fields@)
        },
        Shape::Choice(variants, _) => if choice_forced(variants@) == 0 {
            1
        } else {
            choice_forced(variants@)
        },
    }
}

/// Whether every value of the shape serializes to the same number of
/// bytes. Records of only fixed-size fields are visited in declaration
/// order during generation; all others get a random visitation order.
pub open spec fn fixed_size_spec(s: Shape) -> bool
    decreases s,
{
    match s {
        Shape::Uint(_) => true,
        Shape::Boolean => true,
        Shape::Text => false,
        Shape::Bytes => false,
        Shape::Sequence(_) => false,
        Shape::Record(fields) => fields_fixed_size(fields@),
        Shape::Choice(_, _) => false,
    }
}

/// Whether every field of a field list has a fixed size.
pub open spec fn fields_fixed_size(fields: Seq<FieldDecl>) -> bool
    decreases fields,
{
    if fields.len() == 0 {
        true
    } else {
        fixed_size_spec(fields[0].shape) && fields_fixed_size(fields.drop_first())
    }
}

/// Whether a field's declared integer bounds are meaningful for its shape:
/// bounds may only be declared on integer fields, must lie within the
/// field's width, and must describe a nonempty range.
pub open spec fn bounds_ok(f: FieldDecl) -> bool {
    match f.shape {
        Shape::Uint(w) => {
            &&& (f.min matches Some(lo) ==> (lo as nat) < w.limit_spec())
            &&& (f.max matches Some(hi) ==> 0 < hi as nat <= w.limit_spec())
            &&& (f.min matches Some(lo) ==> (f.max matches Some(hi) ==> lo < hi))
        },
        _ => f.min is None && f.max is None,
    }
}

/// Whether one field's fixup rule is coherent: the target is an integer
/// field, the source exists, is a different field, carries no rule of its
/// own (so measuring it is stable across a pass), and an element count is
/// only asked of a field that has elements.
pub open spec fn rule_cond(fields: Seq<FieldDecl>, i: int) -> bool
    recommends
        0 <= i < fields.len(),
{
    match fields[i].fixup {
        Some(rule) => {
            &&& fields[i].shape matches Shape::Uint(_)
            &&& rule.source < fields.len()
            &&& rule.source != i
            &&& fields[rule.source as int].fixup is None
            &&& match rule.measure {
                Measure::ByteSize => true,
                Measure::ElemCount => {
                    ||| fields[rule.source as int].shape matches Shape::Sequence(_)
                    ||| fields[rule.source as int].shape matches Shape::Bytes
                    ||| fields[rule.source as int].shape matches Shape::Text
                },
            }
        },
        None => true,
    }
}

/// Whether every fixup rule of a field list is coherent.
pub open spec fn rules_ok(fields: Seq<FieldDecl>) -> bool {
    forall|i: int| 0 <= i < fields.len() ==> #[trigger] rule_cond(fields, i)
}

/// Whether no fixup rule is declared anywhere in a shape: fixup passes
/// leave values of such a shape untouched.
pub open spec fn rule_free(s: Shape) -> bool
    decreases s,
{
    match s {
        Shape::Uint(_) => true,
        Shape::Boolean => true,
        Shape::Text => true,
        Shape::Bytes => true,
        Shape::Sequence(elem) => rule_free(*elem),
        Shape::Record(fields) => fields_rule_free(fields@),
        Shape::Choice(variants, _) => variants_rule_free(variants@),
    }
}

/// Whether no field of a field list carries or contains a fixup rule.
pub open spec fn fields_rule_free(fields: Seq<FieldDecl>) -> bool
    decreases fields,
{
    forall|i: int|
        0 <= i < fields.len() ==> ((#[trigger] fields[i]).fixup is None && rule_free(
            fields[i].shape,
        ))
}

/// Whether no variant's payload carries or contains a fixup rule.
pub open spec fn variants_rule_free(variants: Seq<VariantDecl>) -> bool
    decreases variants,
{
    forall|i: int| 0 <= i < variants.len() ==> fields_rule_free((#[trigger] variants[i]).payload@)
}

/// Well-formedness of a shape: constraints are meaningful, rule targets
/// exist, selectors match their variant weights, and declared minimum
/// sizes stay within the engine's accounting bounds.
pub open spec fn shape_wf(s: Shape) -> bool
    decreases s,
{
    match s {
        Shape::Uint(_) => true,
        Shape::Boolean => true,
        Shape::Text => true,
        Shape::Bytes => true,
        Shape::Sequence(elem) => shape_wf(*elem),
        Shape::Record(fields) => {
            &&& fields_wf(fields@)
            &&& rules_ok(fields@)
            &&& sum_forced(fields@) <= MAX_FORCED_MIN
        },
        Shape::Choice(variants, sel) => {
            &&& variants.len() > 0
            &&& variants_wf(variants@)
            &&& sel.wf()
            &&& sel.weights_spec() == variants@.map(|i: int, v: VariantDecl| effective_weight(v))
            &&& choice_forced(variants@) <= MAX_FORCED_MIN
        },
    }
}

/// Well-formedness of one field.
pub open spec fn field_wf(f: FieldDecl) -> bool
    decreases f,
{
    shape_wf(f.shape) && bounds_ok(f)
}

/// Well-formedness of every field of a field list.
pub open spec fn fields_wf(fields: Seq<FieldDecl>) -> bool
    decreases fields,
{
    forall|i: int| 0 <= i < fields.len() ==> field_wf(#[trigger] fields[i])
}

/// Well-formedness of every variant of a variant list.
pub open spec fn variants_wf(variants: Seq<VariantDecl>) -> bool
    decreases variants,
{
    forall|i: int|
        0 <= i < variants.len() ==> {
            &&& fields_wf((#[trigger] variants[i]).payload@)
            &&& rules_ok(variants[i].payload@)
            &&& sum_forced(variants[i].payload@) <= MAX_FORCED_MIN
        }
}

/// Appending a field adds its unavoidable size to the total.
pub proof fn lemma_sum_forced_push(fields: Seq<FieldDecl>, f: FieldDecl)
    ensures
        sum_forced(fields.push(f)) == sum_forced(fields) + forced_min(f.shape),
    decreases fields.len(),
{
    if fields.len() == 0 {
        assert(fields.push(f)[0] == f);
        assert(fields.push(f).drop_first() =~= Seq::<FieldDecl>::empty());
        assert(sum_forced(Seq::<FieldDecl>::empty()) == 0);
    } else {
        assert(fields.push(f)[0] == fields[0]);
        assert(fields.push(f).drop_first() =~= fields.drop_first().push(f));
        lemma_sum_forced_push(fields.drop_first(), f);
    }
}

/// The total of unavoidable sizes splits at any position.
pub proof fn lemma_sum_forced_split(fields: Seq<FieldDecl>, i: int)
    requires
        0 <= i <= fields.len(),
    ensures
        sum_forced(fields) == sum_forced(fields.take(i)) + sum_forced(fields.skip(i)),
    decreases i,
{
    if i == 0 {
        assert(fields.take(0) =~= Seq::<FieldDecl>::empty());
        assert(fields.skip(0) =~= fields);
    } else {
        lemma_sum_forced_split(fields.drop_first(), i - 1);
        assert(fields.take(i).drop_first() =~= fields.drop_first().take(i - 1));
        assert(fields.skip(i) =~= fields.drop_first().skip(i - 1));
        assert(fields.take(i)[0] == fields[0]);
    }
}

/// A non-ignored variant's unavoidable size is at most the choice's.
pub proof fn lemma_choice_forced_ge(variants: Seq<VariantDecl>, i: int)
    requires
        0 <= i < variants.len(),
        !variants[i].ignored,
    ensures
        sum_forced(variants[i].payload@) <= choice_forced(variants),
    decreases variants.len(),
{
    if i == 0 {
    } else {
        assert(variants.drop_first()[i - 1] == variants[i]);
        lemma_choice_forced_ge(variants.drop_first(), i - 1);
    }
}

/// The reservation granularity of a shape covers its unavoidable size.
pub proof fn lemma_min_nonzero_ge_forced(s: Shape)
    ensures
        min_nonzero_spec(s) >= forced_min(s),
        min_nonzero_spec(s) >= 1,
    decreases s,
{
    match s {
        Shape::Sequence(elem) => {
            lemma_min_nonzero_ge_forced(*elem);
        },
        _ => {},
    }
}

/// Returns the unavoidable serialized size of a shape.
pub fn min_size(s: &Shape) -> (r: usize)
    requires
        shape_wf(*s),
    ensures
        r == forced_min(*s),
    decreases *s,
{
    match s {
        Shape::Uint(w) => w.bytes(),
        Shape::Boolean => 1,
        Shape::Text => 0,
        Shape::Bytes => 0,
        Shape::Sequence(_) => 0,
        Shape::Record(fields) => sum_min_sizes(fields),
        Shape::Choice(variants, _) => {
            let mut worst: usize = 0;
            let mut i: usize = 0;
            while i < variants.len()
                invariant
                    *s is Choice,
                    s->Choice_0 == *variants,
                    i <= variants@.len(),
                    variants_wf(variants@),
                    worst == choice_forced(variants@.take(i as int)),
                    worst <= MAX_FORCED_MIN,
                decreases variants@.len() - i,
            {
                proof {
                    lemma_choice_forced_take_step(variants@, i as int);
                }
                proof {
                    assert(decreases_to!(*s => s->Choice_0));
                    assert(s->Choice_0 == *variants);
                    assert(decreases_to!(*variants => variants@));
                    assert(decreases_to!(variants@ => variants@[i as int]));
                    assert(decreases_to!(variants@[i as int] => variants@[i as int].payload));
                    assert(decreases_to!(variants@[i as int].payload => variants@[
                        i as int
                    ].payload@));
                }
                let cur: usize = if variants[i].ignored {
                    0
                } else {
                    sum_min_sizes(&variants[i].payload)
                };
                if cur > worst {
                    worst = cur;
                }
                i = i + 1;
            }
            proof {
                assert(variants@.take(variants@.len() as int) =~= variants@);
            }
            worst
        },
    }
}

/// Taking one more variant moves the worst case by at most that variant.
proof fn lemma_choice_forced_take_step(variants: Seq<VariantDecl>, i: int)
    requires
        0 <= i < variants.len(),
    ensures
        choice_forced(variants.take(i + 1)) == if (if variants[i].ignored {
            0
        } else {
            sum_forced(variants[i].payload@)
        }) >= choice_forced(variants.take(i)) {
            (if variants[i].ignored {
                0
            } else {
                sum_forced(variants[i].payload@)
            })
        } else {
            choice_forced(variants.take(i))
        },
    decreases i,
{
    if i == 0 {
        assert(variants.take(1).drop_first() =~= Seq::<VariantDecl>::empty());
        assert(variants.take(1)[0] == variants[0]);
        assert(choice_forced(Seq::<VariantDecl>::empty()) == 0);
    } else {
        lemma_choice_forced_take_step(variants.drop_first(), i - 1);
        assert(variants.take(i + 1).drop_first() =~= variants.drop_first().take(i));
        assert(variants.take(i).drop_first() =~= variants.drop_first().take(i - 1));
        assert(variants.take(i + 1)[0] == variants[0]);
        assert(variants.take(i)[0] == variants[0]);
        assert(variants.drop_first()[i - 1] == variants[i]);
        lemma_choice_forced_max_shift(variants, i);
    }
}

/// Helper: the worst case over `take(i + 1)` of the original list equals
/// the worst case combining the head with `take(i)` of the tail.
proof fn lemma_choice_forced_max_shift(variants: Seq<VariantDecl>, i: int)
    requires
        1 <= i < variants.len(),
    ensures
        choice_forced(variants.take(i + 1)) == {
            let head = if variants[0].ignored {
                0
            } else {
                sum_forced(variants[0].payload@)
            };
            let rest = choice_forced(variants.drop_first().take(i));
            if head >= rest {
                head
            } else {
                rest
            }
        },
{
    assert(variants.take(i + 1)[0] == variants[0]);
    assert(variants.take(i + 1).drop_first() =~= variants.drop_first().take(i));
}

/// Returns the total unavoidable size of a field list.
pub fn sum_min_sizes(fields: &Vec<FieldDecl>) -> (r: usize)
    requires
        fields_wf(fields@),
        sum_forced(fields@) <= MAX_FORCED_MIN,
    ensures
        r == sum_forced(fields@),
    decreases fields@,
{
    let mut total: usize = 0;
    let mut i: usize = 0;
    while i < fields.len()
        invariant
            i <= fields@.len(),
            fields_wf(fields@),
            sum_forced(fields@) <= MAX_FORCED_MIN,
            total == sum_forced(fields@.take(i as int)),
        decreases fields@.len() - i,
    {
        proof {
            assert(fields@.take(i as int + 1) =~= fields@.take(i as int).push(fields@[i as int]));
            lemma_sum_forced_push(fields@.take(i as int), fields@[i as int]);
            lemma_sum_forced_split(fields@, i as int + 1);
        }
        let fs = min_size(&fields[i].shape);
        total = total + fs;
        i = i + 1;
    }
    proof {
        assert(fields@.take(fields@.len() as int) =~= fields@);
    }
    total
}

/// Returns the reservation granularity of a shape: the smallest size a
/// budget must still hold to admit one more element of the shape.
pub fn min_nonzero_size(s: &Shape) -> (r: usize)
    requires
        shape_wf(*s),
    ensures
        r == min_nonzero_spec(*s),
    decreases *s,
{
    match s {
        Shape::Uint(w) => w.bytes(),
        Shape::Boolean => 1,
        Shape::Text => 1,
        Shape::Bytes => 1,
        Shape::Sequence(elem) => min_nonzero_size(elem),
        Shape::Record(fields) => {
            let f = sum_min_sizes(fields);
            if f == 0 {
                1
            } else {
                f
            }
        },
        Shape::Choice(_, _) => {
            let f = min_size(s);
            if f == 0 {
                1
            } else {
                f
            }
        },
    }
}

/// Returns whether every value of the shape has the same serialized size.
pub fn is_fixed_size(s: &Shape) -> (r: bool)
    ensures
        r == fixed_size_spec(*s),
    decreases *s,
{
    match s {
        Shape::Uint(_) => true,
        Shape::Boolean => true,
        Shape::Text => false,
        Shape::Bytes => false,
        Shape::Sequence(_) => false,
        Shape::Record(fields) => {
            let mut i: usize = 0;
            let mut all_fixed = true;
            while i < fields.len()
                invariant
                    *s is Record,
                    s->Record_0 == *fields,
                    i <= fields@.len(),
                    all_fixed == fields_fixed_size(fields@.take(i as int)),
                decreases fields@.len() - i,
            {
                proof {
                    lemma_fields_fixed_take_step(fields@, i as int);
                }
                proof {
                    assert(decreases_to!(*s => s->Record_0));
                    assert(s->Record_0 == *fields);
                    assert(decreases_to!(*fields => fields@));
                    assert(decreases_to!(fields@ => fields@[i as int]));
                    assert(decreases_to!(fields@[i as int] => fields@[i as int].shape));
                }
                if !is_fixed_size(&fields[i].shape) {
                    all_fixed = false;
                }
                i = i + 1;
            }
            proof {
                assert(fields@.take(fields@.len() as int) =~= fields@);
            }
            all_fixed
        },
        Shape::Choice(_, _) => false,
    }
}

/// Taking one more field conjoins that field's fixedness.
proof fn lemma_fields_fixed_take_step(fields: Seq<FieldDecl>, i: int)
    requires
        0 <= i < fields.len(),
    ensures
        fields_fixed_size(fields.take(i + 1)) == (fields_fixed_size(fields.take(i))
            && fixed_size_spec(fields[i].shape)),
    decreases i,
{
    if i == 0 {
        assert(fields.take(1).drop_first() =~= Seq::<FieldDecl>::empty());
        assert(fields.take(1)[0] == fields[0]);
        assert(fields_fixed_size(Seq::<FieldDecl>::empty()));
        assert(fields.take(0) =~= Seq::<FieldDecl>::empty());
    } else {
        lemma_fields_fixed_take_step(fields.drop_first(), i - 1);
        assert(fields.take(i + 1).drop_first() =~= fields.drop_first().take(i));
        assert(fields.take(i).drop_first() =~= fields.drop_first().take(i - 1));
        assert(fields.take(i + 1)[0] == fields[0]);
        assert(fields.take(i)[0] == fields[0]);
        assert(fields.drop_first()[i - 1] == fields[i]);
    }
}

impl FieldDecl {
    /// A plain field of the given shape: no bounds, no bias, not ignored,
    /// no repair rule.
    pub fn plain(shape: Shape) -> (r: FieldDecl)
        requires
            shape_wf(shape),
        ensures
            field_wf(r),
            r.shape == shape,
            r.min is None,
            r.max is None,
            r.ignored == false,
            r.fixup is None,
    {
        FieldDecl {
            shape,
            min: None,
            max: None,
            weighted: Weighted::Unbiased,
            ignored: false,
            fixup: None,
        }
    }

    /// A field with declared constraint overrides. Malformed bounds (a
    /// bound declared on a non-integer field, out of the field's width, or
    /// an empty range) are a configuration error, rejected here.
    pub fn with_constraints(
        shape: Shape,
        min: Option<u64>,
        max: Option<u64>,
        weighted: Weighted,
        ignored: bool,
    ) -> (r: Result<FieldDecl, ConfigError>)
        requires
            shape_wf(shape),
        ensures
            match r {
                Ok(f) => {
                    &&& field_wf(f)
                    &&& f.shape == shape
                    &&& f.min == min
                    &&& f.max == max
                    &&& f.weighted == weighted
                    &&& f.ignored == ignored
                    &&& f.fixup is None
                },
                Err(e) => e == ConfigError::BadBounds,
            },
            r is Ok <==> bounds_ok(
                (FieldDecl { shape, min, max, weighted, ignored, fixup: None }),
            ),
    {
        let f = FieldDecl { shape, min, max, weighted, ignored, fixup: None };
        let ok = match &f.shape {
            Shape::Uint(w) => {
                let top = w.max_value();
                let min_ok = match f.min {
                    Some(lo) => lo <= top,
                    None => true,
                };
                let max_ok = match f.max {
                    Some(hi) => hi > 0 && (hi - 1) <= top,
                    None => true,
                };
                let order_ok = match (f.min, f.max) {
                    (Some(lo), Some(hi)) => lo < hi,
                    _ => true,
                };
                min_ok && max_ok && order_ok
            },
            _ => matches!(f.min, None) && matches!(f.max, None),
        };
        if ok {
            Ok(f)
        } else {
            Err(ConfigError::BadBounds)
        }
    }
}


/// A well-formed shape's unavoidable size stays within the accounting cap.
pub proof fn lemma_forced_min_le_cap(s: Shape)
    requires
        shape_wf(s),
    ensures
        forced_min(s) <= MAX_FORCED_MIN as nat,
{
}

/// Returns whether every fixup rule of `fields` is coherent.
fn check_rules(fields: &Vec<FieldDecl>) -> (r: bool)
    ensures
        r == rules_ok(fields@),
{
    let n = fields.len();
    let mut i: usize = 0;
    while i < n
        invariant
            n == fields@.len(),
            i <= n,
            forall|k: int| 0 <= k < i ==> #[trigger] rule_cond(fields@, k),
        decreases n - i,
    {
        match fields[i].fixup {
            Some(rule) => {
                let target_ok = match &fields[i].shape {
                    Shape::Uint(_) => true,
                    _ => false,
                };
                let source_ok = rule.source < n && rule.source != i;
                let ok = target_ok && source_ok && {
                    let src = &fields[rule.source];
                    let src_plain = match src.fixup {
                        Some(_) => false,
                        None => true,
                    };
                    let measure_ok = match rule.measure {
                        Measure::ByteSize => true,
                        Measure::ElemCount => match &src.shape {
                            Shape::Sequence(_) => true,
                            Shape::Bytes => true,
                            Shape::Text => true,
                            _ => false,
                        },
                    };
                    src_plain && measure_ok
                };
                if !ok {
                    proof {
                        assert(!rule_cond(fields@, i as int));
                    }
                    return false;
                }
                proof {
                    assert(rule_cond(fields@, i as int));
                }
            },
            None => {
                proof {
                    assert(rule_cond(fields@, i as int));
                }
            },
        }
        i = i + 1;
    }
    true
}

impl Shape {
    /// A sequence shape over one element shape.
    pub fn sequence(elem: Shape) -> (r: Shape)
        requires
            shape_wf(elem),
        ensures
            shape_wf(r),
            r matches Shape::Sequence(e) && *e == elem,
    {
        Shape::Sequence(Box::new(elem))
    }

    /// A record shape over fields in declaration order.
    ///
    /// Incoherent fixup rules and declared minimum sizes beyond the
    /// engine's accounting cap are configuration errors, rejected here
    /// rather than during a generation call.
    pub fn record(fields: Vec<FieldDecl>) -> (r: Result<Shape, ConfigError>)
        requires
            fields_wf(fields@),
        ensures
            match r {
                Ok(s) => {
                    &&& shape_wf(s)
                    &&& s matches Shape::Record(fs) && fs@ == fields@
                },
                Err(e) => {
                    &&& (e == ConfigError::BadRule || e == ConfigError::SizeOverflow)
                    &&& (e == ConfigError::BadRule <==> !rules_ok(fields@))
                    &&& (e == ConfigError::SizeOverflow <==> (rules_ok(fields@) && sum_forced(
                        fields@,
                    ) > MAX_FORCED_MIN as nat))
                },
            },
    {
        if !check_rules(&fields) {
            return Err(ConfigError::BadRule);
        }
        let n = fields.len();
        let mut acc: u64 = 0;
        let mut i: usize = 0;
        while i < n
            invariant
                n == fields@.len(),
                fields_wf(fields@),
                rules_ok(fields@),
                i <= n,
                acc == sum_forced(fields@.take(i as int)),
                acc <= MAX_FORCED_MIN,
            decreases n - i,
        {
            proof {
                assert(fields@.take(i as int + 1) =~= fields@.take(i as int).push(
                    fields@[i as int],
                ));
                lemma_sum_forced_push(fields@.take(i as int), fields@[i as int]);
                assert(field_wf(fields@[i as int]));
                lemma_forced_min_le_cap(fields@[i as int].shape);
            }
            let fm = min_size(&fields[i].shape) as u64;
            acc = acc + fm;
            if acc > MAX_FORCED_MIN {
                proof {
                    lemma_sum_forced_split(fields@, i as int + 1);
                }
                return Err(ConfigError::SizeOverflow);
            }
            i = i + 1;
        }
        proof {
            assert(fields@.take(n as int) =~= fields@);
        }
        Ok(Shape::Record(fields))
    }

    /// A choice shape over variants in declaration order, with its
    /// selector built once here. A variant set whose selectable weights
    /// total zero (or overflow a machine word) is a configuration error,
    /// rejected here so that draws cannot fail.
    pub fn choice(variants: Vec<VariantDecl>) -> (r: Result<Shape, ConfigError>)
        requires
            variants_wf(variants@),
        ensures
            ({
                let ws = variants@.map(|i: int, v: VariantDecl| effective_weight(v));
                match r {
                    Ok(s) => {
                        &&& shape_wf(s)
                        &&& s matches Shape::Choice(vs, _) && vs@ == variants@
                        &&& 0 < sum_weights(ws) <= u64::MAX
                    },
                    Err(e) => {
                        &&& (e == ConfigError::ZeroTotalWeight || e
                            == ConfigError::TotalWeightOverflow)
                        &&& (e == ConfigError::ZeroTotalWeight <==> sum_weights(ws) == 0)
                        &&& (e == ConfigError::TotalWeightOverflow <==> sum_weights(ws)
                            > u64::MAX)
                    },
                }
            }),
    {
        let ghost wspec = variants@.map(|i: int, v: VariantDecl| effective_weight(v));
        let n = variants.len();
        let mut ws: Vec<u64> = Vec::new();
        let mut i: usize = 0;
        while i < n
            invariant
                n == variants@.len(),
                wspec == variants@.map(|k: int, v: VariantDecl| effective_weight(v)),
                i <= n,
                ws@.len() == i,
                forall|k: int| 0 <= k < i ==> ws@[k] == wspec[k],
            decreases n - i,
        {
            let w = if variants[i].ignored {
                0
            } else {
                variants[i].weight
            };
            ws.push(w);
            i = i + 1;
        }
        proof {
            assert(ws@ =~= wspec);
        }
        let sel = match crate::selector::WeightedSelector::new(ws) {
            Ok(sel) => sel,
            Err(e) => {
                return Err(e);
            },
        };
        let mut worst: usize = 0;
        let mut j: usize = 0;
        while j < n
            invariant
                n == variants@.len(),
                variants_wf(variants@),
                j <= n,
                worst == choice_forced(variants@.take(j as int)),
                worst <= MAX_FORCED_MIN,
            decreases n - j,
        {
            proof {
                lemma_choice_forced_take_step(variants@, j as int);
            }
            let cur: usize = if variants[j].ignored {
                0
            } else {
                sum_min_sizes(&variants[j].payload)
            };
            if cur > worst {
                worst = cur;
            }
            j = j + 1;
        }
        proof {
            assert(variants@.take(n as int) =~= variants@);
            if n == 0 {
                assert(sum_weights(wspec) == 0);
            }
        }
        Ok(Shape::Choice(variants, sel))
    }
}

impl FieldDecl {
    /// Attaches a fixup rule to this field; the rule's coherence with its
    /// siblings is validated when the record shape is built.
    pub fn with_fixup(self, rule: LenRule) -> (r: FieldDecl)
        ensures
            r.shape == self.shape,
            r.min == self.min,
            r.max == self.max,
            r.weighted == self.weighted,
            r.ignored == self.ignored,
            r.fixup == Some(rule),
            field_wf(self) ==> field_wf(r),
    {
        FieldDecl { fixup: Some(rule), ..self }
    }
}

} // verus!

use lain::endian::Endianness;
use lain::generate::new_fuzzed;
use lain::mutate::{fixup_value, mutate, on_success};
use lain::mutator::Mutator;
use lain::rng::XorShiftRng;
use lain::selector::WeightedSelector;
use lain::shape::{FieldDecl, IntWidth, LenRule, Measure, Shape, VariantDecl};
use lain::types::{ConfigError, Constraints, Weighted};
use lain::value::{value_encode, value_size, Value};

fn driver(seed: u64) -> Mutator<XorShiftRng> {
    Mutator::new(XorShiftRng::new(seed))
}

fn plain(shape: Shape) -> FieldDecl {
    FieldDecl {
        shape,
        min: None,
        max: None,
        weighted: Weighted::Unbiased,
        ignored: false,
        fixup: None,
    }
}

fn budget(n: usize) -> Constraints<u64> {
    Constraints {
        min: None,
        max: None,
        weighted: Weighted::Unbiased,
        max_size: Some(n),
    }
}

fn encode_all(v: &Value, e: Endianness) -> Vec<u8> {
    let mut out: Vec<u8> = Vec::new();
    value_encode(v, &mut out, e);
    out
}

fn as_uint(v: &Value) -> u64 {
    match v {
        Value::Uint(_, x) => *x,
        _ => panic!("expected an integer value"),
    }
}

#[test]
fn selector_never_picks_zero_weight_and_respects_ratio() {
    let sel = WeightedSelector::new(vec![1, 0, 3]).unwrap();
    let mut rng = XorShiftRng::new(1);
    let mut counts = [0usize; 3];
    for _ in 0..4000 {
        let i = sel.pick(&mut rng);
        counts[i] += 1;
    }
    assert_eq!(counts[1], 0);
    assert_eq!(counts[0] + counts[2], 4000);
    // empirical C:A ratio converges to 3:1; allow generous slack
    let ratio = counts[2] as f64 / counts[0] as f64;
    assert!(ratio > 2.0 && ratio < 4.0, "ratio was {}", ratio);
}

#[test]
fn selector_rejects_zero_total_weight() {
    assert!(matches!(
        WeightedSelector::new(vec![0, 0, 0]),
        Err(ConfigError::ZeroTotalWeight)
    ));
    assert!(matches!(
        WeightedSelector::new(Vec::new()),
        Err(ConfigError::ZeroTotalWeight)
    ));
}

#[test]
fn selector_rejects_overflowing_total_weight() {
    assert!(matches!(
        WeightedSelector::new(vec![u64::MAX, 1]),
        Err(ConfigError::TotalWeightOverflow)
    ));
}

#[test]
fn field_constraints_reject_malformed_bounds() {
    assert!(matches!(
        FieldDecl::with_constraints(
            Shape::Uint(IntWidth::W8),
            Some(5),
            Some(3),
            Weighted::Unbiased,
            false
        ),
        Err(ConfigError::BadBounds)
    ));
    assert!(matches!(
        FieldDecl::with_constraints(
            Shape::Uint(IntWidth::W8),
            Some(300),
            None,
            Weighted::Unbiased,
            false
        ),
        Err(ConfigError::BadBounds)
    ));
    assert!(matches!(
        FieldDecl::with_constraints(Shape::Text, Some(1), None, Weighted::Unbiased, false),
        Err(ConfigError::BadBounds)
    ));
    assert!(FieldDecl::with_constraints(
        Shape::Uint(IntWidth::W8),
        Some(3),
        Some(5),
        Weighted::Unbiased,
        false
    )
    .is_ok());
}

#[test]
fn record_rejects_incoherent_fixup_rule() {
    let fields = vec![plain(Shape::Bytes), plain(Shape::Uint(IntWidth::W32))
        .with_fixup(LenRule { source: 9, measure: Measure::ByteSize })];
    assert!(matches!(Shape::record(fields), Err(ConfigError::BadRule)));
}

#[test]
fn empty_sequence_under_exhausted_budget() {
    let shape = Shape::sequence(Shape::Uint(IntWidth::W32));
    let mut m = driver(7);
    let c = budget(0);
    let v = new_fuzzed(&mut m, &shape, Some(&c));
    match v {
        Value::Sequence(vs) => assert_eq!(vs.len(), 0),
        _ => panic!("expected a sequence"),
    }
}

#[test]
fn sequence_respects_small_budget() {
    let shape = Shape::sequence(Shape::Uint(IntWidth::W32));
    for seed in 1..40u64 {
        let mut m = driver(seed);
        let c = budget(10);
        let v = new_fuzzed(&mut m, &shape, Some(&c));
        assert!(value_size(&v) <= 10);
    }
}

#[test]
fn generation_is_deterministic_for_equal_seeds() {
    let fields = vec![
        plain(Shape::Uint(IntWidth::W16)),
        plain(Shape::Text),
        plain(Shape::sequence(Shape::Uint(IntWidth::W8))),
    ];
    let shape = Shape::record(fields).unwrap();
    let c = budget(40);
    let mut m1 = driver(99);
    let v1 = new_fuzzed(&mut m1, &shape, Some(&c));
    let mut m2 = driver(99);
    let v2 = new_fuzzed(&mut m2, &shape, Some(&c));
    assert_eq!(encode_all(&v1, Endianness::Big), encode_all(&v2, Endianness::Big));
}

#[test]
fn generation_differs_across_seeds() {
    let shape = Shape::sequence(Shape::Uint(IntWidth::W64));
    let mut any_difference = false;
    let mut previous: Option<Vec<u8>> = None;
    for seed in 1..6u64 {
        let mut m = driver(seed);
        let v = new_fuzzed(&mut m, &shape, None);
        let bytes = encode_all(&v, Endianness::Big);
        if let Some(p) = &previous {
            if *p != bytes {
                any_difference = true;
            }
        }
        previous = Some(bytes);
    }
    assert!(any_difference);
}

#[test]
fn round_trip_budget_is_respected() {
    // two fixed-width integer fields and one variable-length text field
    let fields = vec![
        plain(Shape::Uint(IntWidth::W32)),
        plain(Shape::Uint(IntWidth::W32)),
        plain(Shape::Text),
    ];
    let shape = Shape::record(fields).unwrap();
    for seed in 1..60u64 {
        let mut m = driver(seed);
        let c = budget(20);
        let v = new_fuzzed(&mut m, &shape, Some(&c));
        let bytes = encode_all(&v, Endianness::Little);
        assert!(bytes.len() <= 20, "encoded {} bytes", bytes.len());
    }
}

#[test]
fn generated_integers_respect_declared_bounds() {
    let f = FieldDecl::with_constraints(
        Shape::Uint(IntWidth::W16),
        Some(10),
        Some(20),
        Weighted::Unbiased,
        false,
    )
    .unwrap();
    let shape = Shape::record(vec![f]).unwrap();
    for seed in 1..40u64 {
        let mut m = driver(seed);
        let v = new_fuzzed(&mut m, &shape, None);
        match v {
            Value::Record(vs) => {
                let x = as_uint(&vs[0]);
                assert!((10..20).contains(&x));
            },
            _ => panic!("expected a record"),
        }
    }
}

#[test]
fn ignored_field_takes_default_value() {
    let mut f = plain(Shape::Uint(IntWidth::W64));
    f.ignored = true;
    let shape = Shape::record(vec![f]).unwrap();
    let mut m = driver(3);
    let v = new_fuzzed(&mut m, &shape, None);
    match v {
        Value::Record(vs) => assert_eq!(as_uint(&vs[0]), 0),
        _ => panic!("expected a record"),
    }
}

#[test]
fn ignored_variant_is_never_drawn() {
    let variants = vec![
        VariantDecl { weight: 1, ignored: false, payload: Vec::new() },
        VariantDecl { weight: 50, ignored: true, payload: Vec::new() },
    ];
    let shape = Shape::choice(variants).unwrap();
    for seed in 1..50u64 {
        let mut m = driver(seed);
        let v = new_fuzzed(&mut m, &shape, None);
        match v {
            Value::Choice(idx, _) => assert_eq!(idx, 0),
            _ => panic!("expected a choice"),
        }
    }
}

#[test]
fn unit_only_choice_generates_without_recursion() {
    let variants = vec![
        VariantDecl { weight: 1, ignored: false, payload: Vec::new() },
        VariantDecl { weight: 3, ignored: false, payload: Vec::new() },
    ];
    let shape = Shape::choice(variants).unwrap();
    let mut m = driver(11);
    let v = new_fuzzed(&mut m, &shape, None);
    match v {
        Value::Choice(idx, vs) => {
            assert!(idx < 2);
            assert_eq!(vs.len(), 0);
        },
        _ => panic!("expected a choice"),
    }
}

#[test]
fn empty_record_generates() {
    let shape = Shape::record(Vec::new()).unwrap();
    let mut m = driver(5);
    let v = new_fuzzed(&mut m, &shape, Some(&budget(0)));
    match v {
        Value::Record(vs) => assert_eq!(vs.len(), 0),
        _ => panic!("expected a record"),
    }
}

#[test]
fn boolean_backing_byte_is_encoded_raw() {
    let v = Value::Boolean(7);
    assert_eq!(encode_all(&v, Endianness::Big), vec![7]);
    assert_eq!(value_size(&v), 1);
}

#[test]
fn fixup_sets_length_field_to_byte_size() {
    let fields = vec![
        plain(Shape::Bytes),
        plain(Shape::Uint(IntWidth::W32))
            .with_fixup(LenRule { source: 0, measure: Measure::ByteSize }),
    ];
    let shape = Shape::record(fields).unwrap();
    let v = Value::Record(vec![
        Value::Bytes(vec![9, 9, 9]),
        Value::Uint(IntWidth::W32, 777),
    ]);
    let fixed = fixup_value(v, &shape);
    match fixed {
        Value::Record(vs) => assert_eq!(as_uint(&vs[1]), 3),
        _ => panic!("expected a record"),
    }
}

#[test]
fn fixup_sets_count_field_to_element_count() {
    let fields = vec![
        plain(Shape::sequence(Shape::Uint(IntWidth::W16))),
        plain(Shape::Uint(IntWidth::W8))
            .with_fixup(LenRule { source: 0, measure: Measure::ElemCount }),
    ];
    let shape = Shape::record(fields).unwrap();
    let v = Value::Record(vec![
        Value::Sequence(vec![
            Value::Uint(IntWidth::W16, 1),
            Value::Uint(IntWidth::W16, 2),
        ]),
        Value::Uint(IntWidth::W8, 200),
    ]);
    let fixed = fixup_value(v, &shape);
    match fixed {
        Value::Record(vs) => assert_eq!(as_uint(&vs[1]), 2),
        _ => panic!("expected a record"),
    }
}

#[test]
fn generation_runs_fixups_when_enabled() {
    let fields = vec![
        plain(Shape::Bytes),
        plain(Shape::Uint(IntWidth::W32))
            .with_fixup(LenRule { source: 0, measure: Measure::ByteSize }),
    ];
    let shape = Shape::record(fields).unwrap();
    for seed in 1..20u64 {
        let mut m = driver(seed);
        let v = new_fuzzed(&mut m, &shape, Some(&budget(40)));
        match v {
            Value::Record(vs) => {
                let want = match &vs[0] {
                    Value::Bytes(b) => b.len() as u64,
                    _ => panic!("expected bytes"),
                };
                assert_eq!(as_uint(&vs[1]), want);
            },
            _ => panic!("expected a record"),
        }
    }
}

#[test]
fn forced_early_bail_leaves_later_fields_unchanged() {
    let fields = vec![
        plain(Shape::Uint(IntWidth::W32)),
        plain(Shape::Uint(IntWidth::W32)),
        plain(Shape::Uint(IntWidth::W32)),
    ];
    let shape = Shape::record(fields).unwrap();
    let v = Value::Record(vec![
        Value::Uint(IntWidth::W32, 111),
        Value::Uint(IntWidth::W32, 222),
        Value::Uint(IntWidth::W32, 333),
    ]);
    let mut m = driver(17);
    m.early_bail_percent = 100;
    let r = mutate(v, &shape, &mut m, None);
    match r {
        Value::Record(vs) => {
            assert_eq!(vs.len(), 3);
            assert_eq!(as_uint(&vs[1]), 222);
            assert_eq!(as_uint(&vs[2]), 333);
        },
        _ => panic!("expected a record"),
    }
}

#[test]
fn mutation_keeps_active_variant_of_payload_choice() {
    let variants = vec![
        VariantDecl { weight: 1, ignored: false, payload: vec![plain(Shape::Uint(IntWidth::W8))] },
        VariantDecl { weight: 1, ignored: false, payload: vec![plain(Shape::Uint(IntWidth::W16))] },
    ];
    let shape = Shape::choice(variants).unwrap();
    let v = Value::Choice(1, vec![Value::Uint(IntWidth::W16, 5)]);
    for seed in 1..20u64 {
        let mut m = driver(seed);
        let r = mutate(v_clone(&v), &shape, &mut m, None);
        match r {
            Value::Choice(idx, _) => assert_eq!(idx, 1),
            _ => panic!("expected a choice"),
        }
    }
}

fn v_clone(v: &Value) -> Value {
    match v {
        Value::Uint(w, x) => Value::Uint(*w, *x),
        Value::Boolean(b) => Value::Boolean(*b),
        Value::Choice(idx, vs) => Value::Choice(*idx, vs.iter().map(v_clone).collect()),
        _ => panic!("clone helper covers the shapes used in tests"),
    }
}

#[test]
fn unit_choice_mutation_redraws_whole_value() {
    let variants = vec![
        VariantDecl { weight: 1, ignored: false, payload: Vec::new() },
        VariantDecl { weight: 1, ignored: false, payload: Vec::new() },
    ];
    let shape = Shape::choice(variants).unwrap();
    let v = Value::Choice(0, Vec::new());
    let mut m = driver(23);
    let r = mutate(v, &shape, &mut m, None);
    assert!(matches!(r, Value::Choice(_, _)));
}

#[test]
fn on_success_counts_every_leaf() {
    let v = Value::Record(vec![
        Value::Uint(IntWidth::W8, 1),
        Value::Sequence(vec![Value::Boolean(0), Value::Boolean(1)]),
        Value::Bytes(vec![1, 2, 3]),
    ]);
    assert_eq!(on_success(&v), 4);
}

#[test]
fn defaults_of_weighted_and_constraints() {
    assert_eq!(Weighted::default(), Weighted::Unbiased);
    let c: Constraints<u64> = Default::default();
    assert!(c.min.is_none());
    assert!(c.max.is_none());
    assert!(c.max_size.is_none());
    assert_eq!(c.weighted, Weighted::Unbiased);
}

#[test]
fn completed_mutation_pass_repairs_length_field() {
    let fields = vec![
        plain(Shape::Bytes),
        plain(Shape::Uint(IntWidth::W32))
            .with_fixup(LenRule { source: 0, measure: Measure::ByteSize }),
    ];
    let shape = Shape::record(fields).unwrap();
    for seed in 1..20u64 {
        let v = Value::Record(vec![
            Value::Bytes(vec![1, 2, 3, 4]),
            Value::Uint(IntWidth::W32, 999),
        ]);
        let mut m = driver(seed);
        // never bail, fixups enabled: the completed pass repairs the rule
        let r = mutate(v, &shape, &mut m, None);
        match r {
            Value::Record(vs) => {
                let want = match &vs[0] {
                    Value::Bytes(b) => b.len() as u64,
                    _ => panic!("expected bytes"),
                };
                assert_eq!(as_uint(&vs[1]), want);
            },
            _ => panic!("expected a record"),
        }
    }
}

#[test]
fn mutation_is_deterministic_for_equal_seeds() {
    let fields = vec![plain(Shape::Uint(IntWidth::W32)), plain(Shape::Text)];
    let shape = Shape::record(fields).unwrap();
    let make = || {
        Value::Record(vec![
            Value::Uint(IntWidth::W32, 7),
            Value::Text(lain::types::Utf8String::new("seed")),
        ])
    };
    let mut m1 = driver(4);
    let r1 = mutate(make(), &shape, &mut m1, None);
    let mut m2 = driver(4);
    let r2 = mutate(make(), &shape, &mut m2, None);
    assert_eq!(encode_all(&r1, Endianness::Big), encode_all(&r2, Endianness::Big));
}

use wrela_compiler::compiler::{
    CanonicalValue, ConstructionKind, Cancellation, EvaluationLimitPolicy, EvaluationPanicKind,
    EvaluationRejectionKind, SourceRange,
};
use wrela_compiler::evaluator::{
    apply_bytes_ordering, apply_equality, apply_integer_binary, apply_scalar_ordering,
    apply_text_ordering, canonical, reorder_values, collect_construction_edges, collect_test_applications,
    FloatType, VariantId, extract_projected_value,
    read_projected_value, store_projected_value, unavailable_shape, BinaryOperator,
    PlaceProjection, value_size, BuildKind, BuiltinVariant, EvalFailure,
    EvaluationMeter, IntegerType, TestId, Value, COMPILATION_FUEL_LIMIT,
    COMPILATION_MEMORY_LIMIT, FUEL_LIMIT, MEMORY_LIMIT,
};

#[test]
fn logical_fuel_exhaustion_is_exact_and_host_time_independent() {
    let cancellation = Cancellation::new();
    let mut engine = EvaluationMeter::new(&cancellation);
    engine.charge(FUEL_LIMIT).expect("at ceiling is admitted");
    assert_eq!(
        engine.charge(1),
        Err(EvalFailure::Limit {
            policy: EvaluationLimitPolicy::RootFuel,
            ceiling: FUEL_LIMIT,
            used: FUEL_LIMIT + 1
        })
    );
}

#[test]
fn cancellation_is_polled_during_evaluation() {
    let cancellation = Cancellation::new();
    cancellation.cancel();
    let mut engine = EvaluationMeter::new(&cancellation);
    assert_eq!(engine.charge(1), Err(EvalFailure::Cancelled));
}

#[test]
fn retained_memory_and_compilation_tariffs_have_exact_boundaries() {
    let cancellation = Cancellation::new();
    let mut engine = EvaluationMeter::new(&cancellation);
    engine
        .retain(MEMORY_LIMIT)
        .expect("root memory ceiling is inclusive");
    assert_eq!(engine.peak_memory(), MEMORY_LIMIT);
    assert_eq!(
        engine.retain(1),
        Err(EvalFailure::Limit {
            policy: EvaluationLimitPolicy::RootMemory,
            ceiling: MEMORY_LIMIT,
            used: MEMORY_LIMIT + 1,
        })
    );

    // A compilation that has used its whole fuel tariff, one root at a time.
    let mut engine = EvaluationMeter::new(&cancellation);
    for _ in 0..(COMPILATION_FUEL_LIMIT / FUEL_LIMIT) {
        engine.start_root();
        engine.charge(FUEL_LIMIT).expect("each root stays within its ceiling");
    }
    engine.start_root();
    assert_eq!(engine.compilation_fuel(), COMPILATION_FUEL_LIMIT);
    assert_eq!(
        engine.charge(1),
        Err(EvalFailure::Limit {
            policy: EvaluationLimitPolicy::CompilationFuel,
            ceiling: COMPILATION_FUEL_LIMIT,
            used: COMPILATION_FUEL_LIMIT + 1,
        })
    );
    assert_eq!(value_size(&Value::Text(String::from("abc"))), 19);
    assert_eq!(
        value_size(&Value::Array(vec![
            Value::Integer {
                kind: IntegerType::I64,
                value: 1
            },
            Value::Bool(true),
        ])),
        33
    );
    assert_eq!(
        value_size(&Value::BuiltinVariant {
            variant: BuiltinVariant::OptionSome,
            payload: vec![Value::Bool(true)],
        }),
        17
    );
}

#[test]
fn a_cancelled_charge_uses_no_fuel() {
    let cancellation = Cancellation::new();
    let mut engine = EvaluationMeter::new(&cancellation);
    engine.charge(10).expect("within the ceiling");
    cancellation.cancel();
    assert_eq!(engine.charge(10), Err(EvalFailure::Cancelled));
    assert_eq!(engine.fuel(), 10);
    assert_eq!(engine.compilation_fuel(), 10);
}

#[test]
fn fuel_saturates_instead_of_wrapping() {
    let cancellation = Cancellation::new();
    let mut engine = EvaluationMeter::new(&cancellation);
    assert!(engine.charge(u64::MAX).is_err());
    assert_eq!(
        engine.charge(u64::MAX),
        Err(EvalFailure::Limit {
            policy: EvaluationLimitPolicy::CompilationFuel,
            ceiling: COMPILATION_FUEL_LIMIT,
            used: u64::MAX,
        })
    );
    assert_eq!(engine.fuel(), u64::MAX);
}

#[test]
fn release_returns_memory_and_rejects_underflow() {
    let cancellation = Cancellation::new();
    let mut engine = EvaluationMeter::new(&cancellation);
    engine.retain(100).expect("within the ceiling");
    engine.release(40).expect("retained memory is released");
    assert_eq!(engine.current_memory(), 60);
    assert_eq!(engine.peak_memory(), 100);
    assert!(matches!(engine.release(61), Err(EvalFailure::Defect(_))));
    assert_eq!(engine.current_memory(), 60);
}

#[test]
fn temporaries_raise_the_peak_without_being_retained() {
    let cancellation = Cancellation::new();
    let mut engine = EvaluationMeter::new(&cancellation);
    engine.retain(10).expect("within the ceiling");
    engine.observe_temporary(90).expect("within the ceiling");
    assert_eq!(engine.current_memory(), 10);
    assert_eq!(engine.peak_memory(), 100);
    assert_eq!(
        engine.observe_temporary(MEMORY_LIMIT),
        Err(EvalFailure::Limit {
            policy: EvaluationLimitPolicy::RootMemory,
            ceiling: MEMORY_LIMIT,
            used: MEMORY_LIMIT + 10,
        })
    );
}

#[test]
fn cached_constants_are_charged_to_the_compilation_memory() {
    let cancellation = Cancellation::new();
    let mut engine = EvaluationMeter::new(&cancellation);
    engine
        .charge_cached_constant(COMPILATION_MEMORY_LIMIT)
        .expect("the compilation ceiling is inclusive");
    assert_eq!(
        engine.charge_cached_constant(1),
        Err(EvalFailure::Limit {
            policy: EvaluationLimitPolicy::CompilationMemory,
            ceiling: COMPILATION_MEMORY_LIMIT,
            used: COMPILATION_MEMORY_LIMIT + 1,
        })
    );
}

#[test]
fn value_sizes_count_names_and_nested_values() {
    let value = Value::Struct {
        definition: 1,
        type_display: String::from("Envelope"),
        fields: vec![
            (String::from("ticket"), Value::Bool(true)),
            (String::from("data"), Value::Bytes(vec![1, 2, 3])),
        ],
    };
    assert_eq!(value_size(&value), 16 + 6 + 1 + 4 + 19);
    assert_eq!(value_size(&Value::Unit), 0);
    assert_eq!(value_size(&Value::Scalar('x')), 4);
    assert_eq!(
        value_size(&Value::Closure {
            id: 3,
            captures: vec![(1, Value::Function(9))],
        }),
        32
    );
}

#[test]
fn construction_edges_are_collected_depth_first() {
    let handle = |kind, identity| Value::SymbolicHandle { kind, identity };
    let value = Value::Tuple(vec![
        Value::Array(vec![handle(BuildKind::Image, 11)]),
        Value::TestApplication {
            id: TestId {
                suite: 1,
                test: 2,
                identity: 3,
            },
            payload: vec![handle(BuildKind::Test, 12), Value::Unit],
        },
        Value::Struct {
            definition: 4,
            type_display: String::from("Container"),
            fields: vec![(String::from("value"), handle(BuildKind::Image, 13))],
        },
        Value::Closure {
            id: 5,
            captures: vec![(1, handle(BuildKind::Test, 14))],
        },
    ]);
    let mut edges = vec![7];
    collect_construction_edges(&value, &mut edges);
    assert_eq!(edges, vec![7, 11, 12, 13, 14]);
}


fn site() -> SourceRange {
    SourceRange::new("src/image.wr", 3, 7)
}

fn panic_kind(
    result: Result<Value, EvalFailure>,
) -> Option<EvaluationPanicKind> {
    match result {
        Err(EvalFailure::Panic(kind, range)) => {
            assert_eq!((range.path(), range.start(), range.end()), ("src/image.wr", 3, 7));
            Some(kind)
        }
        _ => None,
    }
}

#[test]
fn integer_arithmetic_checks_the_type_range() {
    let i8_op = |operator, left, right| {
        apply_integer_binary(operator, IntegerType::I8, left, IntegerType::I8, right, &site())
    };
    assert_eq!(
        i8_op(BinaryOperator::Add, 100, 27),
        Ok(Value::Integer {
            kind: IntegerType::I8,
            value: 127
        })
    );
    assert_eq!(
        panic_kind(i8_op(BinaryOperator::Add, 127, 1)),
        Some(EvaluationPanicKind::IntegerOverflow)
    );
    assert_eq!(
        panic_kind(i8_op(BinaryOperator::Divide, 1, 0)),
        Some(EvaluationPanicKind::DivisionByZero)
    );
    assert_eq!(
        panic_kind(i8_op(BinaryOperator::Remainder, 1, 0)),
        Some(EvaluationPanicKind::DivisionByZero)
    );
    assert_eq!(
        i8_op(BinaryOperator::Divide, -7, 2),
        Ok(Value::Integer {
            kind: IntegerType::I8,
            value: -3
        })
    );
    assert_eq!(
        i8_op(BinaryOperator::Remainder, -7, 2),
        Ok(Value::Integer {
            kind: IntegerType::I8,
            value: -1
        })
    );
    assert_eq!(
        panic_kind(i8_op(BinaryOperator::Divide, -128, -1)),
        Some(EvaluationPanicKind::IntegerOverflow)
    );
    assert_eq!(
        panic_kind(i8_op(BinaryOperator::ShiftLeft, 1, 7)),
        Some(EvaluationPanicKind::IntegerOverflow)
    );
    assert_eq!(
        apply_integer_binary(BinaryOperator::ShiftLeft, IntegerType::U8, 1, IntegerType::U8, 7, &site()),
        Ok(Value::Integer {
            kind: IntegerType::U8,
            value: 128
        })
    );
    assert_eq!(
        panic_kind(i8_op(BinaryOperator::ShiftRight, 1, 128)),
        Some(EvaluationPanicKind::IntegerOverflow)
    );
    assert_eq!(i8_op(BinaryOperator::Less, -1, 1), Ok(Value::Bool(true)));
    assert_eq!(i8_op(BinaryOperator::NotEqual, 2, 2), Ok(Value::Bool(false)));
    assert_eq!(
        i8_op(BinaryOperator::BitXor, 6, 3),
        Ok(Value::Integer {
            kind: IntegerType::I8,
            value: 5
        })
    );
    assert!(matches!(
        i8_op(BinaryOperator::And, 1, 1),
        Err(EvalFailure::Defect(_))
    ));
    assert!(matches!(
        apply_integer_binary(BinaryOperator::Add, IntegerType::I8, 1, IntegerType::U8, 1, &site()),
        Err(EvalFailure::Defect(_))
    ));
}

#[test]
fn ranges_are_bounded_by_the_root_memory() {
    let int = |value| Value::Integer {
        kind: IntegerType::I64,
        value,
    };
    let range = |operator, left, right| {
        apply_integer_binary(operator, IntegerType::I64, left, IntegerType::I64, right, &site())
    };
    assert_eq!(
        range(BinaryOperator::Range, 1, 4),
        Ok(Value::Array(vec![int(1), int(2), int(3)]))
    );
    assert_eq!(
        range(BinaryOperator::RangeInclusive, 1, 3),
        Ok(Value::Array(vec![int(1), int(2), int(3)]))
    );
    assert_eq!(range(BinaryOperator::Range, 4, 1), Ok(Value::Array(Vec::new())));
    assert_eq!(
        range(BinaryOperator::Range, 0, 65_537),
        Err(EvalFailure::Limit {
            policy: EvaluationLimitPolicy::RootMemory,
            ceiling: MEMORY_LIMIT,
            used: 65_537 * 16,
        })
    );
    assert_eq!(
        range(BinaryOperator::Range, i128::MIN, i128::MAX).map(|_| ()),
        Err(EvalFailure::Panic(
            EvaluationPanicKind::IntegerOverflow,
            site()
        ))
    );
}

#[test]
fn projected_resource_moves_extract_instead_of_clone() {
    let projection = PlaceProjection::Field {
        definition: 1,
        name: String::from("ticket"),
        mutable: true,
    };
    let mut root = Value::Struct {
        definition: 1,
        type_display: String::from("Envelope"),
        fields: vec![
            (String::from("ticket"), Value::Bool(true)),
            (String::from("other"), Value::Bool(false)),
        ],
    };

    let extracted = extract_projected_value(&mut root, std::slice::from_ref(&projection), &[])
        .expect("verified projection extracts");
    assert_eq!(extracted, Value::Bool(true));
    assert!(read_projected_value(&root, &[projection], &[]).is_err());
}

fn index(value: i128) -> Value {
    Value::Integer {
        kind: IntegerType::I64,
        value,
    }
}

#[test]
fn stored_values_are_read_back_through_fields_and_indexes() {
    let place = [
        PlaceProjection::Field {
            definition: 1,
            name: String::from("items"),
            mutable: true,
        },
        PlaceProjection::Index { source: site() },
    ];
    let mut root = Value::Struct {
        definition: 1,
        type_display: String::from("Bag"),
        fields: vec![(
            String::from("items"),
            Value::Array(vec![Value::Bool(false), Value::Bool(false)]),
        )],
    };
    store_projected_value(&mut root, &place, &[index(1)], Value::Text(String::from("new")))
        .expect("place exists");
    assert_eq!(
        read_projected_value(&root, &place, &[index(1)]),
        Ok(Value::Text(String::from("new")))
    );
    assert_eq!(read_projected_value(&root, &place, &[index(0)]), Ok(Value::Bool(false)));
    assert_eq!(
        read_projected_value(&root, &place, &[index(2)]),
        Err(EvalFailure::Panic(EvaluationPanicKind::IndexOutOfBounds, site()))
    );
    assert!(matches!(
        read_projected_value(&root, &place, &[Value::Bool(true)]),
        Err(EvalFailure::Defect(_))
    ));
    assert!(matches!(
        store_projected_value(&mut root, &place, &[index(-1)], Value::Unit),
        Err(EvalFailure::Panic(EvaluationPanicKind::IndexOutOfBounds, _))
    ));
}

#[test]
fn moved_aggregates_leave_their_shape() {
    let mut root = Value::Tuple(vec![Value::Struct {
        definition: 2,
        type_display: String::from("Pair"),
        fields: vec![
            (String::from("left"), Value::Bool(true)),
            (String::from("right"), Value::Array(vec![Value::Unit])),
        ],
    }]);
    assert_eq!(
        unavailable_shape(&root),
        Value::Tuple(vec![Value::Struct {
            definition: 2,
            type_display: String::from("Pair"),
            fields: vec![
                (String::from("left"), Value::Unavailable),
                (String::from("right"), Value::Array(vec![Value::Unavailable])),
            ],
        }])
    );
    let moved = extract_projected_value(&mut root, &[], &[]).expect("the root moves");
    assert!(matches!(moved, Value::Tuple(_)));
    assert!(matches!(
        extract_projected_value(&mut root, &[], &[]),
        Ok(Value::Tuple(_))
    ));
}

#[test]
fn values_become_canonical_with_type_and_variant_names() {
    let test = TestId {
        suite: 1,
        test: 2,
        identity: 0xab,
    };
    let value = Value::Tuple(vec![
        Value::Integer {
            kind: IntegerType::U16,
            value: 7,
        },
        Value::Float {
            kind: FloatType::F32,
            bits: 9,
        },
        Value::BuiltinVariant {
            variant: BuiltinVariant::OptionNone,
            payload: Vec::new(),
        },
        Value::UserVariant {
            id: VariantId {
                owner: 1,
                definition: 2,
                variant: 3,
            },
            variant_order: 0,
            type_display: String::from("Choice"),
            variant_display: String::from("Left"),
            payload: vec![Value::Unit],
        },
        Value::TestApplication {
            id: test,
            payload: vec![Value::SymbolicHandle {
                kind: BuildKind::Node {
                    definition: 5,
                    type_identity: 6,
                },
                identity: 4,
            }],
        },
        Value::Closure {
            id: 8,
            captures: vec![(3, Value::Bool(true))],
        },
    ]);
    assert_eq!(
        canonical(&value),
        CanonicalValue::Tuple(vec![
            CanonicalValue::Integer {
                typename: String::from("u16"),
                value: 7
            },
            CanonicalValue::Float {
                typename: String::from("f32"),
                bits: 9
            },
            CanonicalValue::Variant {
                typename: String::from("Option"),
                variant: String::from("None"),
                payload: Vec::new()
            },
            CanonicalValue::Variant {
                typename: String::from("Choice"),
                variant: String::from("Left"),
                payload: vec![CanonicalValue::Unit]
            },
            CanonicalValue::Variant {
                typename: String::from("TestApplication"),
                variant: format!("{:032x}", 0xab),
                payload: vec![CanonicalValue::SymbolicHandle {
                    kind: ConstructionKind::Node { type_identity: 6 },
                    identity: 4
                }]
            },
            CanonicalValue::Closure {
                identity: 8,
                captures: vec![CanonicalValue::Bool(true)]
            },
        ])
    );
}

#[test]
fn test_applications_are_collected_before_their_payloads() {
    let inner = TestId {
        suite: 1,
        test: 3,
        identity: 30,
    };
    let outer = TestId {
        suite: 1,
        test: 2,
        identity: 20,
    };
    let value = Value::Array(vec![Value::TestApplication {
        id: outer,
        payload: vec![Value::TestApplication {
            id: inner,
            payload: vec![Value::Bool(false)],
        }],
    }]);
    let mut applications = Vec::new();
    collect_test_applications(&value, &mut applications);
    assert_eq!(applications.len(), 2);
    assert_eq!(applications[0].id, outer);
    assert_eq!(applications[1].id, inner);
    assert_eq!(applications[1].payload, vec![CanonicalValue::Bool(false)]);
}

fn small(value: i128) -> Value {
    Value::Integer { kind: IntegerType::I32, value }
}

#[test]
fn arguments_are_placed_in_parameter_order() {
    let ordered = reorder_values(vec![small(10), small(20), small(30)], &[2, 0, 1]).unwrap();
    assert_eq!(ordered, vec![small(20), small(30), small(10)]);
    assert_eq!(reorder_values(vec![], &[]).unwrap(), vec![]);
}

#[test]
fn faulty_argument_bindings_are_defects() {
    let defect = |text: &str| Err(EvalFailure::Defect(String::from(text)));
    assert_eq!(
        reorder_values(vec![small(1)], &[0, 1]),
        defect("verified call argument binding length disagrees with values")
    );
    assert_eq!(
        reorder_values(vec![small(1), small(2)], &[0, 2]),
        defect("verified call argument binding names an invalid parameter")
    );
    assert_eq!(
        reorder_values(vec![small(1), small(2)], &[1, 1]),
        defect("verified call argument binding initializes a parameter twice")
    );
    assert_eq!(
        reorder_values(vec![small(1), small(2), small(3)], &[1, 1, 7]),
        defect("verified call argument binding initializes a parameter twice")
    );
}

#[test]
fn fuel_is_attributed_to_sites_and_the_largest_contributors_are_ranked() {
    let cancellation = Cancellation::new();
    let mut meter = EvaluationMeter::new(&cancellation);
    meter.charge(5).unwrap();
    assert!(meter.fuel_contributors().is_empty());
    let a = SourceRange::new("a.wr", 0, 1);
    let b = SourceRange::new("b.wr", 0, 1);
    let c = SourceRange::new("c.wr", 0, 1);
    meter.attribute_to(Some(b.clone()));
    meter.charge(3).unwrap();
    meter.attribute_to(Some(a.clone()));
    meter.charge(4).unwrap();
    meter.attribute_to(Some(c.clone()));
    meter.charge(7).unwrap();
    meter.attribute_to(Some(b.clone()));
    meter.charge(1).unwrap();
    let ranked: Vec<(SourceRange, u64)> = meter
        .fuel_contributors()
        .iter()
        .map(|contributor| (contributor.site().clone(), contributor.fuel()))
        .collect();
    assert_eq!(ranked, vec![(c, 7), (a, 4), (b, 4)]);
    assert_eq!(meter.fuel(), 20);
    for offset in 0..10u64 {
        meter.attribute_to(Some(SourceRange::new("d.wr", offset as usize, offset as usize + 1)));
        meter.charge(100 + offset).unwrap();
    }
    let largest = meter.fuel_contributors();
    assert_eq!(largest.len(), 8);
    assert_eq!(largest[0].fuel(), 109);
    assert_eq!(largest[7].fuel(), 102);
    meter.start_root();
    assert!(meter.fuel_contributors().is_empty());
}

#[test]
fn ordered_values_compare_in_their_natural_order() {
    let yes = Ok(Value::Bool(true));
    let no = Ok(Value::Bool(false));
    assert_eq!(apply_text_ordering(BinaryOperator::Less, "ab", "b"), yes);
    assert_eq!(apply_text_ordering(BinaryOperator::Less, "ab", "a"), no);
    assert_eq!(apply_text_ordering(BinaryOperator::GreaterEqual, "ab", "ab"), yes);
    assert_eq!(apply_bytes_ordering(BinaryOperator::LessEqual, &[1, 2], &[1, 2, 0]), yes);
    assert_eq!(apply_bytes_ordering(BinaryOperator::NotEqual, &[3], &[3]), no);
    assert_eq!(apply_scalar_ordering(BinaryOperator::Greater, 'b', 'a'), yes);
    assert_eq!(
        apply_scalar_ordering(BinaryOperator::Add, 'b', 'a'),
        Err(EvalFailure::Creator(EvaluationRejectionKind::BinaryTypeMismatch))
    );
    assert_eq!(apply_equality(BinaryOperator::NotEqual, true), no);
    assert_eq!(
        apply_equality(BinaryOperator::Less, true),
        Err(EvalFailure::Defect(String::from("ordered comparison reached an equality-only value")))
    );
}

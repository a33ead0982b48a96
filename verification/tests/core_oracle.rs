use wrela_compiler::compiler::{
    CanonicalValue, ConstructionKind, EvaluationOutcome, EvaluationPanicKind, SourceRange,
};
use wrela_compiler::core_oracle::{
    encode_oracle_outcome, oracle_eligible, oracle_execute, oracle_execute_validated, oracle_matches_evaluator,
    oracle_supported, oracle_targets_present,
    panic_tag_of, same_canonical, same_source, CompactOutcome,
};
use wrela_compiler::core_program::{
    facts_from_regions, validate_graphs, CoreExecutable, CoreExecutableKind, CoreOperationKind,
    CoreFailure, CoreProgram, EffectBoundary, ExecutableReference, FailureLaw, Operation, OracleInstruction,
    OracleSummary, Region,
};
use wrela_compiler::compiler::Cancellation;
use wrela_compiler::evaluator::BinaryOperator;

fn site(start: usize) -> SourceRange {
    SourceRange::new("main.wr", start, start + 1)
}

fn op(identity: u32, result: Option<u32>, operands: Vec<u32>, instruction: OracleInstruction) -> Operation {
    Operation {
        identity,
        kind: CoreOperationKind::Pass,
        result,
        type_identity: None,
        operands,
        successors: vec![],
        details: vec![],
        effect: EffectBoundary::NoEffect,
        failure: FailureLaw::NoFailure,
        provenance: site(identity as usize),
        oracle: Some(instruction),
    }
}

fn integer(typename: &str, value: i128) -> CanonicalValue {
    CanonicalValue::Integer { typename: String::from(typename), value }
}

fn literal(identity: u32, result: u32, value: CanonicalValue) -> Operation {
    op(identity, Some(result), vec![], OracleInstruction::Literal(value))
}

fn binary(identity: u32, result: u32, left: u32, right: u32, operator: BinaryOperator) -> Operation {
    op(identity, Some(result), vec![left, right], OracleInstruction::Binary(operator))
}

fn ret(identity: u32, value: u32) -> Operation {
    op(identity, None, vec![value], OracleInstruction::Return(Some(value)))
}

fn executable(regions: Vec<Vec<Operation>>) -> CoreExecutable {
    let regions: Vec<Region> = regions
        .into_iter()
        .enumerate()
        .map(|(identity, operations)| Region { identity: identity as u32, operations })
        .collect();
    let facts = facts_from_regions(&regions);
    CoreExecutable {
        reference: ExecutableReference {
            context: 1,
            kind: CoreExecutableKind::SourceSpecialization,
            identity: 2,
            current_meaning: 3,
        },
        semantic_owner: 4,
        provenance: site(0),
        entry: 0,
        regions,
        facts,
        parameter_count: 0,
        source_definition: None,
        fingerprint: 0,
    }
}

#[test]
fn arithmetic_is_checked_against_the_named_integer_type() {
    let sum = executable(vec![vec![
        literal(1, 0, integer("i64", 40)),
        literal(2, 1, integer("i64", 2)),
        binary(3, 2, 0, 1, BinaryOperator::Add),
        ret(4, 2),
    ]]);
    assert_eq!(oracle_execute(&sum), CompactOutcome::Completed(integer("i64", 42)));
    let overflow = executable(vec![vec![
        literal(1, 0, integer("i8", 127)),
        literal(2, 1, integer("i8", 1)),
        binary(3, 2, 0, 1, BinaryOperator::Add),
        ret(4, 2),
    ]]);
    assert_eq!(
        oracle_execute(&overflow),
        CompactOutcome::Panicked(EvaluationPanicKind::IntegerOverflow, site(3))
    );
    let division = executable(vec![vec![
        literal(1, 0, integer("u32", 7)),
        literal(2, 1, integer("u32", 0)),
        binary(3, 2, 0, 1, BinaryOperator::Remainder),
        ret(4, 2),
    ]]);
    assert_eq!(
        oracle_execute(&division),
        CompactOutcome::Panicked(EvaluationPanicKind::DivisionByZero, site(3))
    );
    let quotient = executable(vec![vec![
        literal(1, 0, integer("i32", -7)),
        literal(2, 1, integer("i32", 2)),
        binary(3, 2, 0, 1, BinaryOperator::Divide),
        ret(4, 2),
    ]]);
    assert_eq!(oracle_execute(&quotient), CompactOutcome::Completed(integer("i32", -3)));
}

#[test]
fn comparisons_and_boolean_operators_give_booleans() {
    let less = executable(vec![vec![
        literal(1, 0, integer("u8", 1)),
        literal(2, 1, integer("u8", 2)),
        binary(3, 2, 0, 1, BinaryOperator::Less),
        literal(4, 3, CanonicalValue::Bool(true)),
        binary(5, 4, 2, 3, BinaryOperator::And),
        op(6, Some(5), vec![4], OracleInstruction::UnaryNot),
        ret(7, 5),
    ]]);
    assert_eq!(oracle_execute(&less), CompactOutcome::Completed(CanonicalValue::Bool(false)));
}

#[test]
fn an_unknown_type_name_or_operator_ends_the_region() {
    let wide = executable(vec![vec![
        literal(1, 0, integer("u128", 1)),
        literal(2, 1, integer("u128", 1)),
        binary(3, 2, 0, 1, BinaryOperator::Add),
        ret(4, 2),
    ]]);
    assert_eq!(oracle_execute(&wide), CompactOutcome::Completed(CanonicalValue::Unit));
    let shift = executable(vec![vec![
        literal(1, 0, integer("u8", 1)),
        binary(2, 1, 0, 0, BinaryOperator::ShiftLeft),
        ret(3, 1),
    ]]);
    assert_eq!(oracle_execute(&shift), CompactOutcome::Completed(CanonicalValue::Unit));
}

#[test]
fn missing_instructions_and_values_are_unsupported() {
    let mut plain = literal(1, 0, integer("i64", 1));
    plain.oracle = None;
    assert_eq!(oracle_execute(&executable(vec![vec![plain]])), CompactOutcome::Unsupported);
    assert_eq!(oracle_execute(&executable(vec![vec![ret(1, 9)]])), CompactOutcome::Unsupported);
    assert_eq!(oracle_execute(&executable(vec![])), CompactOutcome::Unsupported);
}

#[test]
fn locals_store_and_read_values() {
    let program = executable(vec![vec![
        literal(1, 0, integer("i16", -5)),
        op(2, None, vec![], OracleInstruction::Store { local: 7, value: 0 }),
        op(3, Some(1), vec![], OracleInstruction::Read(7)),
        op(4, Some(2), vec![1], OracleInstruction::UnaryNegate),
        ret(5, 2),
    ]]);
    assert_eq!(oracle_execute(&program), CompactOutcome::Completed(integer("i16", 5)));
    let minimum = executable(vec![vec![
        literal(1, 0, integer("i64", i128::MIN)),
        op(2, Some(1), vec![0], OracleInstruction::UnaryNegate),
        ret(3, 1),
    ]]);
    assert_eq!(
        oracle_execute(&minimum),
        CompactOutcome::Panicked(EvaluationPanicKind::IntegerOverflow, site(2))
    );
}

fn branching(condition: bool) -> CoreExecutable {
    let mut branch = op(2, None, vec![0], OracleInstruction::Branch(0));
    branch.successors = vec![1, 2];
    executable(vec![
        vec![literal(1, 0, CanonicalValue::Bool(condition)), branch, op(3, None, vec![], OracleInstruction::Return(None))],
        vec![literal(4, 1, integer("u64", 1)), ret(5, 1)],
        vec![literal(6, 2, integer("u64", 2)), ret(7, 2)],
    ])
}

#[test]
fn branches_walk_the_selected_region() {
    assert_eq!(oracle_execute(&branching(true)), CompactOutcome::Completed(integer("u64", 1)));
    assert_eq!(oracle_execute(&branching(false)), CompactOutcome::Completed(integer("u64", 2)));
}

#[test]
fn a_region_that_runs_on_returns_to_the_branch() {
    let mut branch = op(2, None, vec![0], OracleInstruction::Branch(0));
    branch.successors = vec![1, 1];
    let program = executable(vec![
        vec![literal(1, 0, CanonicalValue::Bool(true)), branch, ret(5, 1)],
        vec![literal(3, 1, integer("i64", 9)), op(4, None, vec![], OracleInstruction::Pass)],
    ]);
    assert_eq!(oracle_execute(&program), CompactOutcome::Completed(integer("i64", 9)));
}

fn short_circuit(operator: BinaryOperator, left: bool) -> CoreExecutable {
    let mut decide = op(2, Some(2), vec![0, 1], OracleInstruction::ShortCircuit(operator));
    decide.successors = vec![1];
    executable(vec![
        vec![literal(1, 0, CanonicalValue::Bool(left)), decide, ret(3, 2)],
        vec![literal(4, 1, CanonicalValue::Bool(false))],
    ])
}

#[test]
fn short_circuits_walk_the_right_operand_only_when_needed() {
    assert_eq!(
        oracle_execute(&short_circuit(BinaryOperator::And, false)),
        CompactOutcome::Completed(CanonicalValue::Bool(false))
    );
    assert_eq!(
        oracle_execute(&short_circuit(BinaryOperator::Or, true)),
        CompactOutcome::Completed(CanonicalValue::Bool(true))
    );
    assert_eq!(
        oracle_execute(&short_circuit(BinaryOperator::Or, false)),
        CompactOutcome::Completed(CanonicalValue::Bool(false))
    );
}

#[test]
fn assertions_and_explicit_panics_panic_at_their_sites() {
    let failing = executable(vec![vec![
        literal(1, 0, CanonicalValue::Bool(false)),
        op(2, None, vec![], OracleInstruction::Assert(0)),
        ret(3, 0),
    ]]);
    assert_eq!(
        oracle_execute(&failing),
        CompactOutcome::Panicked(EvaluationPanicKind::AssertionFailed, site(2))
    );
    let explicit = executable(vec![vec![op(1, None, vec![], OracleInstruction::Panic)]]);
    assert_eq!(
        oracle_execute(&explicit),
        CompactOutcome::Panicked(EvaluationPanicKind::Explicit, site(1))
    );
}

#[test]
fn validated_programs_are_walked_by_the_oracle() {
    let program = branching(true);
    let candidate = CoreProgram {
        context: 1,
        planning_fingerprint: 2,
        source_demand_identity: 3,
        executables: vec![program.clone()],
        oracle: OracleSummary { cases: 0, agrees: true, fingerprint: 0 },
        fingerprint: 0,
    };
    assert_eq!(validate_graphs(&candidate, &Cancellation::new()), Ok(()));
    assert_eq!(oracle_execute(&program), CompactOutcome::Completed(integer("u64", 1)));
}

#[test]
fn the_oracle_compares_only_eligible_executables() {
    let program = branching(true);
    assert!(oracle_supported(&program));
    assert!(oracle_eligible(&program));
    let mut with_parameter = program.clone();
    with_parameter.parameter_count = 1;
    assert!(!oracle_eligible(&with_parameter));
    let mut generated = program.clone();
    generated.reference.kind = CoreExecutableKind::Generated;
    assert!(!oracle_eligible(&generated));
    let mut uncovered = program;
    uncovered.regions[1].operations[0].oracle = None;
    assert!(!oracle_supported(&uncovered));
    assert!(!oracle_eligible(&uncovered));
}

#[test]
fn outcomes_match_the_evaluator_only_when_equal() {
    let value = CanonicalValue::Struct {
        typename: String::from("Pair"),
        fields: vec![
            (String::from("left"), integer("i64", 1)),
            (
                String::from("right"),
                CanonicalValue::SymbolicHandle { kind: ConstructionKind::Test, identity: 5 },
            ),
        ],
    };
    let completed = CompactOutcome::Completed(value.clone());
    assert!(oracle_matches_evaluator(&completed, &EvaluationOutcome::Completed(value.clone())));
    assert!(!oracle_matches_evaluator(
        &completed,
        &EvaluationOutcome::Completed(CanonicalValue::Tuple(vec![value]))
    ));
    let panicked = CompactOutcome::Panicked(EvaluationPanicKind::Explicit, site(3));
    assert!(oracle_matches_evaluator(
        &panicked,
        &EvaluationOutcome::Panicked { kind: EvaluationPanicKind::Explicit, site: site(3) }
    ));
    assert!(!oracle_matches_evaluator(
        &panicked,
        &EvaluationOutcome::Panicked { kind: EvaluationPanicKind::Explicit, site: site(4) }
    ));
    assert!(!oracle_matches_evaluator(&CompactOutcome::Unsupported, &EvaluationOutcome::Cancelled));
    assert!(same_source(&site(1), &site(1)));
    assert!(!same_canonical(&integer("i64", 1), &integer("i32", 1)));
    assert!(same_canonical(
        &CanonicalValue::Bytes(vec![1, 2]),
        &CanonicalValue::Bytes(vec![1, 2])
    ));
}

#[test]
fn oracle_outcomes_encode_canonically() {
    let mut bytes = vec![9];
    encode_oracle_outcome(&mut bytes, &CompactOutcome::Completed(CanonicalValue::Bool(true)));
    assert_eq!(bytes, vec![9, 1, 2, 1]);
    let mut bytes = Vec::new();
    encode_oracle_outcome(
        &mut bytes,
        &CompactOutcome::Panicked(EvaluationPanicKind::DivisionByZero, SourceRange::new("m", 2, 5)),
    );
    let mut expected = vec![2, 4];
    expected.extend(1u64.to_be_bytes());
    expected.extend(b"m");
    expected.extend(2u64.to_be_bytes());
    expected.extend(5u64.to_be_bytes());
    assert_eq!(bytes, expected);
    let mut bytes = Vec::new();
    encode_oracle_outcome(&mut bytes, &CompactOutcome::Unsupported);
    assert_eq!(bytes, vec![3]);
    assert_eq!(panic_tag_of(EvaluationPanicKind::IndexOutOfBounds), 5);
}

#[test]
fn validated_oracle_runs_only_where_its_walk_can_run() {
    let cancellation = Cancellation::new();
    let valid = branching(true);
    assert!(oracle_targets_present(&valid));
    assert_eq!(oracle_execute_validated(&valid, &cancellation), Ok(Some(CompactOutcome::Completed(integer("u64", 1)))));
    let mut unnamed = branching(true);
    unnamed.regions[0].operations[1].successors = vec![1];
    assert!(!oracle_targets_present(&unnamed));
    assert_eq!(oracle_execute_validated(&unnamed, &cancellation), Ok(None));
    let mut repeated = branching(true);
    repeated.regions[1].operations[0].identity = 1;
    assert!(matches!(oracle_execute_validated(&repeated, &cancellation), Err(CoreFailure::Defect(_))));
}

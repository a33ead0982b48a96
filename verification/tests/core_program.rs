use wrela_compiler::evaluator::BinaryOperator;
use wrela_compiler::compiler::{Cancellation, CanonicalValue, ConstructionKind, SourceRange};
use wrela_compiler::core_program::{
    binary_kind, encode_canonical_value, facts_from_regions, operator_tag, source_kind,
    CoreSourceExecutableKind, producer_executable_fingerprint, producer_fingerprint,
    validate_graphs, verifier_executable_fingerprint, verifier_fingerprint, CoreExecutable,
    CoreExecutableKind, CoreExecutableObservation, CoreFailure, CoreOperationKind, CoreProgram,
    CoreProgramObservation, EffectBoundary, ExecutableFacts, ExecutableReference, FailureLaw,
    OracleSummary, Operation, Region,
};

#[test]
fn kinds_have_canonical_tags() {
    assert_eq!(CoreExecutableKind::SourceSpecialization.tag(), 1);
    assert_eq!(CoreExecutableKind::Generated.tag(), 4);
    assert_eq!(CoreOperationKind::Literal.tag(), 1);
    assert_eq!(CoreOperationKind::GeneratedRole.tag(), 30);
}

#[test]
fn canonical_values_encode_tags_lengths_and_payloads() {
    let value = CanonicalValue::Tuple(vec![
        CanonicalValue::Bool(true),
        CanonicalValue::Text(String::from("ab")),
        CanonicalValue::SymbolicHandle {
            kind: ConstructionKind::Test,
            identity: 5,
        },
    ]);
    let mut bytes = vec![0xff];
    encode_canonical_value(&mut bytes, &value);
    let mut expected = vec![0xff, 10];
    expected.extend(3u64.to_be_bytes());
    expected.extend([2, 1]);
    expected.push(5);
    expected.extend(2u64.to_be_bytes());
    expected.extend(b"ab");
    expected.extend([14, 2]);
    expected.extend(5u128.to_be_bytes());
    assert_eq!(bytes, expected);
}

#[test]
fn program_observations_report_their_schema_and_executables() {
    let executable = CoreExecutableObservation::new(
        CoreExecutableKind::SourceTestBody,
        1,
        2,
        3,
        vec![CoreOperationKind::Literal, CoreOperationKind::Return],
        1,
        false,
        true,
    );
    let program = CoreProgramObservation::new(9, 8, 7, vec![executable.clone()], 2, true);
    assert_eq!(program.phase_schema(), "wrela.core.v1");
    assert_eq!(program.executables(), &[executable]);
    assert_eq!(program.executables()[0].operations().len(), 2);
    assert!(program.oracle_agrees());
}

fn operation(identity: u32, kind: CoreOperationKind, result: Option<u32>, operands: Vec<u32>) -> Operation {
    Operation {
        identity,
        kind,
        result,
        type_identity: None,
        operands,
        successors: vec![],
        details: vec![],
        effect: EffectBoundary::NoEffect,
        failure: FailureLaw::NoFailure,
        provenance: SourceRange::new("main.wr", 1, 4),
        oracle: None,
    }
}

fn executable(regions: Vec<Region>) -> CoreExecutable {
    let facts = facts_from_regions(&regions);
    let mut executable = CoreExecutable {
        reference: ExecutableReference {
            context: 11,
            kind: CoreExecutableKind::SourceSpecialization,
            identity: 12,
            current_meaning: 13,
        },
        semantic_owner: 14,
        provenance: SourceRange::new("main.wr", 0, 9),
        entry: 0,
        regions,
        facts,
        parameter_count: 2,
        source_definition: Some(15),
        fingerprint: 0,
    };
    executable.fingerprint = producer_executable_fingerprint(&executable);
    executable
}

fn literal_then_return() -> Vec<Region> {
    vec![Region {
        identity: 0,
        operations: vec![
            operation(1, CoreOperationKind::Literal, Some(0), vec![]),
            operation(2, CoreOperationKind::Return, None, vec![0]),
        ],
    }]
}

fn program(executables: Vec<CoreExecutable>) -> CoreProgram {
    CoreProgram {
        context: 1,
        planning_fingerprint: 2,
        source_demand_identity: 3,
        executables,
        oracle: OracleSummary { cases: 4, agrees: true, fingerprint: 5 },
        fingerprint: 0,
    }
}

fn push_source(bytes: &mut Vec<u8>, path: &str, start: u64, end: u64) {
    bytes.extend((path.len() as u64).to_be_bytes());
    bytes.extend(path.as_bytes());
    bytes.extend(start.to_be_bytes());
    bytes.extend(end.to_be_bytes());
}

fn push_operation(bytes: &mut Vec<u8>, identity: u32, kind: u8, result: u32, operands: &[u32]) {
    bytes.extend(identity.to_be_bytes());
    bytes.extend([kind, 0, 0]);
    bytes.extend(result.to_be_bytes());
    bytes.extend(0u128.to_be_bytes());
    for operand in operands {
        bytes.extend(operand.to_be_bytes());
    }
    bytes.push(b'|');
    bytes.push(b'|');
    push_source(bytes, "main.wr", 1, 4);
}

#[test]
fn facts_follow_the_effects_and_failure_laws_of_operations() {
    let pure = facts_from_regions(&literal_then_return());
    assert_eq!(
        pure,
        ExecutableFacts {
            pure: true,
            may_panic: false,
            suspends: false,
            ownership_transfer: false,
            evaluator_eligible: true,
        }
    );
    let mut suspending = operation(3, CoreOperationKind::Suspension, None, vec![]);
    suspending.effect = EffectBoundary::Suspension;
    let mut moving = operation(4, CoreOperationKind::Call, None, vec![]);
    moving.effect = EffectBoundary::Ownership;
    moving.failure = FailureLaw::PropagateInOrder;
    let facts = facts_from_regions(&vec![
        Region { identity: 0, operations: vec![moving] },
        Region { identity: 1, operations: vec![suspending] },
    ]);
    assert_eq!(
        facts,
        ExecutableFacts {
            pure: false,
            may_panic: true,
            suspends: true,
            ownership_transfer: true,
            evaluator_eligible: false,
        }
    );
}

#[test]
fn executable_fingerprints_digest_the_canonical_encoding() {
    let core = executable(literal_then_return());
    let mut bytes = b"wrela.core.executable\0\x01".to_vec();
    bytes.push(1);
    for value in [11u128, 12, 13, 14] {
        bytes.extend(value.to_be_bytes());
    }
    push_source(&mut bytes, "main.wr", 0, 9);
    bytes.extend(0u32.to_be_bytes());
    bytes.extend(2u64.to_be_bytes());
    bytes.extend(15u128.to_be_bytes());
    bytes.extend([1, 0, 0, 0, 1]);
    bytes.extend(0u32.to_be_bytes());
    push_operation(&mut bytes, 1, 1, 0, &[]);
    push_operation(&mut bytes, 2, 17, u32::MAX, &[0]);
    let expected = xxhash_rust::xxh3::xxh3_128(&bytes);
    assert_eq!(core.fingerprint, expected);
    assert_eq!(verifier_executable_fingerprint(&core), expected);
}

#[test]
fn producer_and_verifier_agree_on_sealed_programs() {
    let core = executable(literal_then_return());
    let candidate = program(vec![core.clone()]);
    let cancellation = Cancellation::new();
    let produced = producer_fingerprint(&candidate, &cancellation).unwrap();
    let verified = verifier_fingerprint(&candidate, &cancellation).unwrap();
    assert_eq!(produced, verified);
    let mut bytes = b"wrela.core.v1".to_vec();
    bytes.extend(1u16.to_be_bytes());
    for value in [1u128, 2, 3, core.fingerprint] {
        bytes.extend(value.to_be_bytes());
    }
    bytes.extend(4u64.to_be_bytes());
    bytes.push(1);
    bytes.extend(5u128.to_be_bytes());
    assert_eq!(produced, xxhash_rust::xxh3::xxh3_128(&bytes));
}

#[test]
fn producer_and_verifier_disagree_on_a_stale_executable_fingerprint() {
    let mut core = executable(literal_then_return());
    core.fingerprint ^= 1;
    let candidate = program(vec![core]);
    let cancellation = Cancellation::new();
    assert_ne!(
        producer_fingerprint(&candidate, &cancellation).unwrap(),
        verifier_fingerprint(&candidate, &cancellation).unwrap()
    );
}

#[test]
fn cancelled_fingerprinting_and_validation_answer_cancelled() {
    let candidate = program(vec![executable(literal_then_return())]);
    let cancellation = Cancellation::new();
    cancellation.cancel();
    assert_eq!(producer_fingerprint(&candidate, &cancellation), Err(CoreFailure::Cancelled));
    assert_eq!(verifier_fingerprint(&candidate, &cancellation), Err(CoreFailure::Cancelled));
    assert_eq!(validate_graphs(&candidate, &cancellation), Err(CoreFailure::Cancelled));
}

fn defect_of(regions: Vec<Region>, entry: u32) -> Result<(), CoreFailure> {
    let mut core = executable(regions);
    core.entry = entry;
    validate_graphs(&program(vec![core]), &Cancellation::new())
}

fn defect(text: &str) -> Result<(), CoreFailure> {
    Err(CoreFailure::Defect(String::from(text)))
}

#[test]
fn well_formed_graphs_validate() {
    let mut branch = operation(3, CoreOperationKind::Branch, None, vec![0]);
    branch.successors = vec![1];
    let regions = vec![
        Region {
            identity: 0,
            operations: vec![operation(1, CoreOperationKind::Literal, Some(0), vec![]), branch],
        },
        Region {
            identity: 1,
            operations: vec![operation(2, CoreOperationKind::Return, None, vec![0])],
        },
    ];
    assert_eq!(defect_of(regions, 0), Ok(()));
    assert_eq!(validate_graphs(&program(vec![]), &Cancellation::new()), Ok(()));
}

#[test]
fn graphs_without_a_canonical_entry_are_refused() {
    let expected = defect("Core control flow has no canonical entry region");
    assert_eq!(defect_of(literal_then_return(), 1), expected);
    assert_eq!(defect_of(vec![], 0), expected);
}

#[test]
fn noncanonical_regions_are_refused() {
    let mut regions = literal_then_return();
    regions.push(Region { identity: 2, operations: vec![] });
    assert_eq!(defect_of(regions, 0), defect("Core control flow has duplicate or noncanonical regions"));
}

#[test]
fn duplicate_identities_and_values_are_refused() {
    let expected = defect("Core operation graph has duplicate identities");
    let regions = vec![Region {
        identity: 0,
        operations: vec![
            operation(1, CoreOperationKind::Literal, Some(0), vec![]),
            operation(1, CoreOperationKind::Return, None, vec![0]),
        ],
    }];
    assert_eq!(defect_of(regions, 0), expected);
    let regions = vec![Region {
        identity: 0,
        operations: vec![
            operation(1, CoreOperationKind::Literal, Some(0), vec![]),
            operation(2, CoreOperationKind::Literal, Some(0), vec![]),
        ],
    }];
    assert_eq!(defect_of(regions, 0), expected);
}

#[test]
fn dangling_and_backward_targets_are_refused() {
    let expected = defect("Core operation has a dangling or malformed control target");
    let mut dangling = operation(1, CoreOperationKind::Branch, None, vec![]);
    dangling.successors = vec![5];
    assert_eq!(defect_of(vec![Region { identity: 0, operations: vec![dangling] }], 0), expected);
    let mut backward = operation(1, CoreOperationKind::Loop, None, vec![]);
    backward.successors = vec![0];
    assert_eq!(defect_of(vec![Region { identity: 0, operations: vec![backward] }], 0), expected);
}

#[test]
fn the_first_faulty_operation_decides_the_defect() {
    let mut dangling = operation(1, CoreOperationKind::Branch, None, vec![]);
    dangling.successors = vec![9];
    let regions = vec![Region {
        identity: 0,
        operations: vec![dangling, operation(1, CoreOperationKind::Return, None, vec![])],
    }];
    assert_eq!(defect_of(regions, 0), defect("Core operation has a dangling or malformed control target"));
}

#[test]
fn reads_of_unproduced_values_are_refused() {
    let regions = vec![Region {
        identity: 0,
        operations: vec![operation(1, CoreOperationKind::Return, None, vec![7])],
    }];
    assert_eq!(defect_of(regions, 0), defect("Core operation has an invalid value reference"));
}

#[test]
fn programs_observe_and_view_their_executables() {
    let mut moving = operation(3, CoreOperationKind::Call, None, vec![]);
    moving.effect = EffectBoundary::Ownership;
    let mut regions = literal_then_return();
    regions.push(Region { identity: 1, operations: vec![moving] });
    let first = executable(regions);
    let mut suspending = operation(1, CoreOperationKind::Suspension, None, vec![]);
    suspending.effect = EffectBoundary::Suspension;
    let mut second = executable(vec![Region { identity: 0, operations: vec![suspending] }]);
    second.reference.identity = 40;
    second.facts = facts_from_regions(&second.regions);
    let candidate = program(vec![first, second]);
    let observation = candidate.observation();
    assert_eq!(observation.phase_schema(), "wrela.core.v1");
    assert_eq!(observation.context_identity(), 1);
    assert_eq!(observation.planning_foundation_fingerprint(), 2);
    assert_eq!(observation.oracle_case_count(), 4);
    assert!(observation.oracle_agrees());
    let executables = observation.executables();
    assert_eq!(executables.len(), 2);
    assert_eq!(
        executables[0].operations(),
        &[CoreOperationKind::Literal, CoreOperationKind::Return, CoreOperationKind::Call]
    );
    assert_eq!(executables[0].region_count(), 2);
    assert!(!executables[0].effectful());
    assert!(executables[1].effectful());
    assert_eq!(executables[1].identity(), 40);
    assert_eq!(candidate.executable_identities(), vec![12, 40]);
    assert_eq!(candidate.suspending_executables(), vec![40]);
    assert_eq!(candidate.ownership_boundaries(), vec![(12, 1), (40, 0)]);
}

#[test]
fn binary_operators_lower_to_their_kinds_and_tags() {
    assert_eq!(binary_kind(BinaryOperator::Divide), CoreOperationKind::CheckedArithmetic);
    assert_eq!(binary_kind(BinaryOperator::Or), CoreOperationKind::ShortCircuit);
    assert_eq!(binary_kind(BinaryOperator::Less), CoreOperationKind::Binary);
    assert_eq!(operator_tag(BinaryOperator::Range), 1);
    assert_eq!(operator_tag(BinaryOperator::And), 13);
    assert_eq!(operator_tag(BinaryOperator::GreaterEqual), 20);
    assert_eq!(
        source_kind(CoreSourceExecutableKind::ClosureBody),
        CoreExecutableKind::SourceClosureBody
    );
}

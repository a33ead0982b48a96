use wrela_compiler::compiler::{Cancellation, Root};
use std::collections::{BTreeMap, BTreeSet};
use wrela_compiler::evaluator::{
    visit_construction_handles_cancellable, visit_retained_executables, visit_test_applications_cancellable, BuildKind,
    BuiltinVariant, FloatType, IntegerType, RetainedExecutable, TestId, Value, VariantId,
};
use wrela_compiler::completed_semantic::{
    executable_current_meaning, independently_traverse_value, produce_completed_fingerprint,
    IndependentValueFacts, produce_context_identity,
    specialization_current_meaning, verify_completed_fingerprint, verify_context_identity,
    verify_executable_current_meaning, verify_reference, verify_semantic_reference,
    verify_specialization_current_meaning, evaluation_reference, verify_evaluation_reference, EvaluationRoot,
    reachable_specializations, verify_reachable_specializations, ArtifactKind, CompletionFailure, ContextInput,
    DirectReceipts, RawReference,
};

fn part(bytes: &[u8]) -> Vec<u8> {
    let mut framed = (bytes.len() as u64).to_be_bytes().to_vec();
    framed.extend_from_slice(bytes);
    framed
}

fn reference(kind: ArtifactKind, identity: u128) -> RawReference {
    RawReference {
        context: 9,
        kind,
        identity,
        current_meaning: identity + 100,
    }
}

fn receipts() -> DirectReceipts {
    DirectReceipts {
        program: reference(ArtifactKind::TypedProgram, 1),
        facts: reference(ArtifactKind::SolvedFacts, 2),
        evaluations: reference(ArtifactKind::EvaluationTable, 3),
        graph: reference(ArtifactKind::ConstructionGraph, 4),
        demand: reference(ArtifactKind::ExecutableDemand, 5),
    }
}

#[test]
fn producer_and_verifier_agree_on_the_context_identity() {
    let input = ContextInput {
        distribution_digest: 11,
        semantic_closure_digest: 12,
        root: Root::Test,
    };
    let mut bytes = part(b"wrela.compilation-context\0\x02");
    bytes.extend(part(b"wrela.compiler.semantic-context.v1"));
    bytes.extend(part(b"wrela.semantic-authority.v1"));
    bytes.extend(11u128.to_be_bytes());
    bytes.extend(12u128.to_be_bytes());
    bytes.extend(13u128.to_be_bytes());
    bytes.push(2);
    let expected = xxhash_rust::xxh3::xxh3_128(&bytes);
    assert_eq!(produce_context_identity(input, 13), expected);
    assert_eq!(verify_context_identity(input, 13), expected);
}

#[test]
fn producer_and_verifier_agree_on_the_completed_fingerprint() {
    let mut bytes = part(b"wrela.completed-semantic-program\0\x01");
    bytes.extend(part(b"wrela.completed-semantic-program.v3"));
    bytes.extend(9u128.to_be_bytes());
    for (tag, identity) in [(1u8, 1u128), (2, 2), (3, 3), (4, 4), (5, 5)] {
        bytes.push(tag);
        bytes.extend(identity.to_be_bytes());
        bytes.extend((identity + 100).to_be_bytes());
    }
    bytes.extend(77u128.to_be_bytes());
    let expected = xxhash_rust::xxh3::xxh3_128(&bytes);
    let cancellation = Cancellation::new();
    assert_eq!(
        produce_completed_fingerprint(9, &receipts(), 77, &cancellation),
        Ok(expected)
    );
    assert_eq!(
        verify_completed_fingerprint(9, &receipts(), 77, &cancellation),
        Ok(expected)
    );
}

#[test]
fn cancelled_completion_publishes_no_fingerprint() {
    let cancellation = Cancellation::new();
    cancellation.cancel();
    assert_eq!(
        produce_completed_fingerprint(9, &receipts(), 77, &cancellation),
        Err(CompletionFailure::Cancelled)
    );
    assert_eq!(
        verify_completed_fingerprint(9, &receipts(), 77, &cancellation),
        Err(CompletionFailure::Cancelled)
    );
}

#[test]
fn artifact_kinds_have_canonical_tags() {
    assert_eq!(ArtifactKind::TypedProgram.tag(), 1);
    assert_eq!(ArtifactKind::ImageEvaluationRoot.tag(), 13);
}

fn defect(evidence: &str) -> Result<(), CompletionFailure> {
    Err(CompletionFailure::Defect(String::from(evidence)))
}

#[test]
fn artifact_references_reject_cross_context_wrong_kind_missing_and_stale() {
    let registry = vec![(ArtifactKind::TypedProgram, 7), (ArtifactKind::SolvedFacts, 8)];
    let current = RawReference { context: 1, kind: ArtifactKind::SolvedFacts, identity: 8, current_meaning: 8 };
    assert_eq!(verify_reference(current, 1, ArtifactKind::SolvedFacts, &registry), Ok(()));
    assert_eq!(
        verify_reference(current, 2, ArtifactKind::SolvedFacts, &registry),
        defect("typed artifact reference crosses compilation contexts")
    );
    assert_eq!(
        verify_reference(current, 1, ArtifactKind::TypedProgram, &registry),
        defect("typed artifact reference has the wrong kind")
    );
    let missing = RawReference { kind: ArtifactKind::EvaluationTable, ..current };
    assert_eq!(
        verify_reference(missing, 1, ArtifactKind::EvaluationTable, &registry),
        defect("typed artifact reference names a missing authority")
    );
    let stale = RawReference { current_meaning: 9, ..current };
    assert_eq!(
        verify_reference(stale, 1, ArtifactKind::SolvedFacts, &registry),
        defect("typed artifact reference is stale")
    );
}

#[test]
fn semantic_references_reject_cross_context_wrong_kind_missing_and_stale() {
    let registry = BTreeMap::from([(5u128, 50u128), (6, 60)]);
    let node = RawReference { context: 3, kind: ArtifactKind::ConstructionNode, identity: 6, current_meaning: 60 };
    assert_eq!(verify_semantic_reference(node, 3, ArtifactKind::ConstructionNode, &registry), Ok(()));
    assert_eq!(
        verify_semantic_reference(node, 4, ArtifactKind::ConstructionNode, &registry),
        defect("typed semantic reference crosses compilation contexts")
    );
    assert_eq!(
        verify_semantic_reference(node, 3, ArtifactKind::Specialization, &registry),
        defect("typed semantic reference has the wrong kind")
    );
    let missing = RawReference { identity: 7, ..node };
    assert_eq!(
        verify_semantic_reference(missing, 3, ArtifactKind::ConstructionNode, &registry),
        defect("typed semantic reference names a missing artifact")
    );
    let stale = RawReference { current_meaning: 50, ..node };
    assert_eq!(
        verify_semantic_reference(stale, 3, ArtifactKind::ConstructionNode, &registry),
        defect("typed semantic reference is stale")
    );
}

#[test]
fn current_meanings_digest_their_program_and_identity() {
    let mut bytes = part(b"wrela.specialization-reference\0\x02");
    bytes.extend(11u128.to_be_bytes());
    bytes.extend(12u128.to_be_bytes());
    let expected = xxhash_rust::xxh3::xxh3_128(&bytes);
    assert_eq!(specialization_current_meaning(11, 12), expected);
    assert_eq!(verify_specialization_current_meaning(11, 12), expected);
    let mut bytes = part(b"wrela.executable-reference\0\x02");
    bytes.push(8);
    bytes.extend(11u128.to_be_bytes());
    bytes.extend(12u128.to_be_bytes());
    let expected = xxhash_rust::xxh3::xxh3_128(&bytes);
    assert_eq!(executable_current_meaning(11, ArtifactKind::TestBody, 12), expected);
    assert_eq!(verify_executable_current_meaning(11, ArtifactKind::TestBody, 12), expected);
    assert_ne!(
        executable_current_meaning(11, ArtifactKind::ClosureBody, 12),
        executable_current_meaning(11, ArtifactKind::TestBody, 12)
    );
}

#[test]
fn producer_and_independent_value_traversals_cover_every_value_variant() {
    let test = TestId { suite: 71, test: 72, identity: 73 };
    let handle = |kind, identity| Value::SymbolicHandle { kind, identity };
    let value = Value::Tuple(vec![
        Value::Array(vec![handle(BuildKind::Image, 11)]),
        Value::BuiltinVariant { variant: BuiltinVariant::OptionSome, payload: vec![handle(BuildKind::Test, 12)] },
        Value::UserVariant {
            id: VariantId { owner: 81, definition: 82, variant: 83 },
            variant_order: 1,
            type_display: String::from("Choice"),
            variant_display: String::from("Some"),
            payload: vec![handle(BuildKind::Image, 13)],
        },
        Value::Struct {
            definition: 91,
            type_display: String::from("Container"),
            fields: vec![(String::from("value"), handle(BuildKind::Test, 14))],
        },
        Value::TestApplication {
            id: test,
            payload: vec![handle(BuildKind::Image, 15), Value::Function(101)],
        },
        Value::Closure { id: 201, captures: vec![(1, Value::Tuple(vec![handle(BuildKind::Test, 16)]))] },
        Value::Function(102),
        Value::Unavailable,
        Value::Unit,
        Value::Bool(true),
        Value::Integer { kind: IntegerType::I64, value: 1 },
        Value::Float { kind: FloatType::F64, bits: 1 },
        Value::Text(String::from("text")),
        Value::Scalar('x'),
        Value::Bytes(vec![1]),
    ]);
    let mut facts = IndependentValueFacts::new();
    assert_eq!(independently_traverse_value(&value, &Cancellation::new(), &mut facts), Ok(()));
    assert_eq!(
        facts.handles,
        vec![
            (BuildKind::Image, 11),
            (BuildKind::Test, 12),
            (BuildKind::Image, 13),
            (BuildKind::Test, 14),
            (BuildKind::Image, 15),
            (BuildKind::Test, 16),
        ]
    );
    assert_eq!(facts.functions, BTreeSet::from([101, 102]));
    assert_eq!(facts.closures, BTreeSet::from([201]));
    assert_eq!(facts.tests.len(), 1);
    assert_eq!(facts.tests[0].0, test);
    assert_eq!(facts.tests[0].1.len(), 2);

    let mut producer_handles = Vec::new();
    assert!(visit_construction_handles_cancellable(&value, &Cancellation::new(), &mut producer_handles));
    assert_eq!(producer_handles, facts.handles);
    let mut producer_executables = Vec::new();
    assert!(visit_retained_executables(&value, &Cancellation::new(), &mut producer_executables));
    assert_eq!(producer_executables.len(), 3);
    assert_eq!(
        producer_executables
            .iter()
            .filter(|executable| matches!(executable, RetainedExecutable::Function(_)))
            .count(),
        2
    );
    assert!(producer_executables.iter().any(|executable| matches!(executable, RetainedExecutable::Closure(201))));
    let mut producer_tests = Vec::new();
    assert!(visit_test_applications_cancellable(&value, &Cancellation::new(), &mut producer_tests));
    assert_eq!(producer_tests.len(), 1);
    assert_eq!(producer_tests[0].0, test);
    let cancellation = Cancellation::new();
    cancellation.cancel();
    let mut cancelled = IndependentValueFacts::new();
    assert_eq!(
        independently_traverse_value(&value, &cancellation, &mut cancelled),
        Err(CompletionFailure::Cancelled)
    );
}

fn call_graph(edges: &[(u128, &[u128])]) -> BTreeMap<u128, Vec<u128>> {
    edges.iter().map(|(caller, callees)| (*caller, callees.to_vec())).collect()
}

fn identities(values: &[u128]) -> BTreeSet<u128> {
    values.iter().copied().collect()
}

#[test]
fn reachable_specializations_follow_calls_transitively() {
    let calls = call_graph(&[(1, &[2, 3]), (2, &[3]), (3, &[]), (7, &[8])]);
    let roots = identities(&[1]);
    let cancellation = Cancellation::new();
    let produced = reachable_specializations(&roots, &calls, &cancellation).unwrap();
    let verified = verify_reachable_specializations(&roots, &calls, &cancellation).unwrap();
    assert_eq!(produced, identities(&[1, 2, 3]));
    assert_eq!(verified, produced);
}

#[test]
fn reachable_specializations_terminate_on_recursive_calls() {
    let calls = call_graph(&[(1, &[2]), (2, &[1, 2])]);
    let roots = identities(&[2]);
    let cancellation = Cancellation::new();
    assert_eq!(reachable_specializations(&roots, &calls, &cancellation).unwrap(), identities(&[1, 2]));
    assert_eq!(verify_reachable_specializations(&roots, &calls, &cancellation).unwrap(), identities(&[1, 2]));
}

#[test]
fn reachable_specializations_without_roots_are_empty() {
    let calls = call_graph(&[(1, &[2])]);
    let cancellation = Cancellation::new();
    assert!(reachable_specializations(&BTreeSet::new(), &calls, &cancellation).unwrap().is_empty());
    assert!(verify_reachable_specializations(&BTreeSet::new(), &calls, &cancellation).unwrap().is_empty());
}

#[test]
fn reachable_specialization_without_solved_facts_is_a_defect() {
    let calls = call_graph(&[(1, &[2]), (2, &[4]), (5, &[])]);
    let roots = identities(&[1, 5]);
    let cancellation = Cancellation::new();
    let expected = CompletionFailure::Defect("Executable Demand names a Specialization without solved facts".to_string());
    assert_eq!(reachable_specializations(&roots, &calls, &cancellation), Err(expected.clone()));
    assert_eq!(verify_reachable_specializations(&roots, &calls, &cancellation), Err(expected));
}

#[test]
fn unreachable_specializations_need_no_solved_facts() {
    let calls = call_graph(&[(1, &[]), (6, &[9])]);
    let roots = identities(&[1]);
    let cancellation = Cancellation::new();
    assert_eq!(reachable_specializations(&roots, &calls, &cancellation).unwrap(), identities(&[1]));
    assert_eq!(verify_reachable_specializations(&roots, &calls, &cancellation).unwrap(), identities(&[1]));
}

#[test]
fn cancelled_reachability_walk_answers_cancelled() {
    let calls = call_graph(&[(1, &[])]);
    let roots = identities(&[1]);
    let cancellation = Cancellation::new();
    cancellation.cancel();
    assert_eq!(reachable_specializations(&roots, &calls, &cancellation), Err(CompletionFailure::Cancelled));
    assert_eq!(verify_reachable_specializations(&roots, &calls, &cancellation), Err(CompletionFailure::Cancelled));
}

#[test]
fn evaluation_references_name_their_root_and_are_rejected_when_corrupted() {
    let context = 0x44;
    let program = 0x99;
    let root = EvaluationRoot::Image(5);
    let reference = evaluation_reference(context, program, root);
    assert_eq!(reference.root, root);
    assert_eq!(reference.raw.kind, ArtifactKind::ImageEvaluationRoot);
    assert_eq!(reference.raw.identity, 5);
    assert_eq!(reference.raw.current_meaning, executable_current_meaning(program, ArtifactKind::ImageEvaluationRoot, 5));
    assert_eq!(evaluation_reference(context, program, EvaluationRoot::Constant(5)).raw.kind, ArtifactKind::ConstantEvaluationRoot);
    assert_eq!(evaluation_reference(context, program, EvaluationRoot::Condition(5)).raw.kind, ArtifactKind::ConditionEvaluationRoot);
    assert_eq!(verify_evaluation_reference(reference, root, program, context), Ok(()));
    let misnamed = CompletionFailure::Defect("evaluation reference has a missing, cross-context, or wrong-kind root".to_string());
    assert_eq!(verify_evaluation_reference(reference, EvaluationRoot::Constant(5), program, context), Err(misnamed.clone()));
    assert_eq!(verify_evaluation_reference(reference, root, program, context + 1), Err(misnamed.clone()));
    let mut wrong_kind = reference;
    wrong_kind.raw.kind = ArtifactKind::TestBody;
    assert_eq!(verify_evaluation_reference(wrong_kind, root, program, context), Err(misnamed.clone()));
    let mut wrong_identity = reference;
    wrong_identity.raw.identity ^= 1;
    assert_eq!(verify_evaluation_reference(wrong_identity, root, program, context), Err(misnamed));
    let mut stale = reference;
    stale.raw.current_meaning ^= 1;
    assert_eq!(
        verify_evaluation_reference(stale, root, program, context),
        Err(CompletionFailure::Defect("evaluation reference is stale".to_string()))
    );
    assert_eq!(
        verify_evaluation_reference(reference, root, program + 1, context),
        Err(CompletionFailure::Defect("evaluation reference is stale".to_string()))
    );
}

fn evidence(result: Result<(), CompletionFailure>) -> String {
    match result {
        Err(CompletionFailure::Defect(evidence)) => evidence,
        other => panic!("expected a defect, found {other:?}"),
    }
}

#[test]
fn typed_references_reject_cross_context_wrong_kind_missing_and_stale_authorities() {
    let context = 7;
    let registry = vec![(ArtifactKind::TypedProgram, 11)];
    let valid = RawReference { context, kind: ArtifactKind::TypedProgram, identity: 11, current_meaning: 11 };
    let mut cross_context = valid;
    cross_context.context = 8;
    assert!(evidence(verify_reference(cross_context, context, ArtifactKind::TypedProgram, &registry)).contains("crosses"));
    let mut wrong_kind = valid;
    wrong_kind.kind = ArtifactKind::SolvedFacts;
    assert!(evidence(verify_reference(wrong_kind, context, ArtifactKind::TypedProgram, &registry)).contains("wrong kind"));
    assert!(evidence(verify_reference(valid, context, ArtifactKind::TypedProgram, &Vec::new())).contains("missing"));
    let mut stale = valid;
    stale.current_meaning = 12;
    assert!(evidence(verify_reference(stale, context, ArtifactKind::TypedProgram, &registry)).contains("stale"));
}

#[test]
fn canonical_parts_and_graph_edge_counts_are_boundary_safe() {
    let encode = |parts: &[&[u8]]| {
        let mut bytes = Vec::new();
        for part in parts {
            wrela_compiler::hashing::push_part(&mut bytes, part);
        }
        wrela_compiler::hashing::xxh3_128(&bytes)
    };
    assert_ne!(encode(&[b"ab", b"c"]), encode(&[b"a", b"bc"]), "component boundaries are part of canonical identity");
}

#[test]
fn walks_from_no_roots_reach_nothing_without_polling_cancellation() {
    let cancellation = Cancellation::new();
    cancellation.cancel();
    let calls = call_graph(&[(1, &[2])]);
    assert!(reachable_specializations(&BTreeSet::new(), &calls, &cancellation).unwrap().is_empty());
    assert!(verify_reachable_specializations(&BTreeSet::new(), &calls, &cancellation).unwrap().is_empty());
}

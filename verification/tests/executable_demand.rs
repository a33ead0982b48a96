use std::collections::BTreeMap;
use wrela_compiler::compiler::Cancellation;
use wrela_compiler::completed_semantic::{
    executable_current_meaning, produce_demand_fingerprint, specialization_current_meaning,
    verify_demand_fingerprint, ArtifactKind, CompletionFailure, ExecutableDemand, ExecutableReference,
    RawReference,
};
use wrela_compiler::evaluator::{TestId, Value};
use wrela_compiler::executable_demand::{
    core_source_executable_reference, exact_source_executables, produce_demand, verify_demand, DemandCandidate,
    DemandNode, DemandSources, DemandTestBody,
};
use wrela_compiler::core_program::CoreSourceExecutableKind;

const CONTEXT: u128 = 0x5151;
const PROGRAM: u128 = 0x7777;

fn specialization(identity: u128) -> ExecutableReference {
    ExecutableReference::Specialization(RawReference {
        context: CONTEXT,
        kind: ArtifactKind::Specialization,
        identity,
        current_meaning: specialization_current_meaning(PROGRAM, identity),
    })
}

fn test_body(identity: u128) -> ExecutableReference {
    ExecutableReference::TestBody(RawReference {
        context: CONTEXT,
        kind: ArtifactKind::TestBody,
        identity,
        current_meaning: executable_current_meaning(PROGRAM, ArtifactKind::TestBody, identity),
    })
}

fn closure_body(identity: u128) -> ExecutableReference {
    ExecutableReference::ClosureBody(RawReference {
        context: CONTEXT,
        kind: ArtifactKind::ClosureBody,
        identity,
        current_meaning: executable_current_meaning(PROGRAM, ArtifactKind::ClosureBody, identity),
    })
}

fn root_of(executables: &[ExecutableReference]) -> RawReference {
    match executables[0] {
        ExecutableReference::Specialization(raw) => raw,
        _ => unreachable!(),
    }
}

fn sealed_demand(executables: Vec<ExecutableReference>) -> ExecutableDemand {
    let root = root_of(&executables);
    let fingerprint = produce_demand_fingerprint(root, &executables, &Cancellation::new()).unwrap();
    ExecutableDemand { root, executables, fingerprint }
}

fn family() -> Vec<ExecutableReference> {
    vec![
        specialization(1),
        specialization(2),
        specialization(3),
        specialization(4),
        specialization(5),
        test_body(70),
        closure_body(50),
        closure_body(60),
        closure_body(80),
    ]
}

fn candidate(demand: ExecutableDemand) -> DemandCandidate {
    DemandCandidate { demand, sources: fixture_sources() }
}

fn fixture_sources() -> DemandSources {
    let mut calls = BTreeMap::new();
    calls.insert(1, vec![2]);
    calls.insert(2, vec![]);
    calls.insert(3, vec![]);
    calls.insert(4, vec![]);
    calls.insert(5, vec![]);
    let mut specialization_closures = BTreeMap::new();
    for identity in 1..=5 {
        specialization_closures.insert(identity, vec![]);
    }
    specialization_closures.insert(2, vec![50]);
    let test = TestId { suite: 1, test: 2, identity: 70 };
    sources_with(calls, specialization_closures, test)
}

fn sources_with(
    calls: BTreeMap<u128, Vec<u128>>,
    specialization_closures: BTreeMap<u128, Vec<u128>>,
    test: TestId,
) -> DemandSources {
    DemandSources {
        context: CONTEXT,
        program_fingerprint: PROGRAM,
        nodes: vec![DemandNode {
            owner: 1,
            operands: vec![Value::Tuple(vec![
                Value::Function(3),
                Value::Closure { id: 60, captures: vec![] },
            ])],
        }],
        actor_handlers: vec![vec![5]],
        test_applications: vec![test, test],
        test_bodies: vec![DemandTestBody { id: test, specializations: vec![4], closures: vec![80] }],
        specialization_closures,
        calls,
    }
}

fn defect(evidence: &str) -> Result<(), CompletionFailure> {
    Err(CompletionFailure::Defect(evidence.to_string()))
}

#[test]
fn exact_demand_verifies() {
    let checked = candidate(sealed_demand(family()));
    assert_eq!(verify_demand(&checked, &Cancellation::new()), Ok(()));
}

#[test]
fn demand_without_its_root_is_refused() {
    let mut demand = sealed_demand(family());
    demand.root.identity = 9;
    let checked = candidate(demand);
    assert_eq!(
        verify_demand(&checked, &Cancellation::new()),
        defect("Executable Demand root is missing from its executable family")
    );
}

#[test]
fn demand_with_stale_root_is_refused() {
    let mut demand = sealed_demand(family());
    demand.root.current_meaning ^= 1;
    let checked = candidate(demand);
    assert_eq!(
        verify_demand(&checked, &Cancellation::new()),
        defect("Executable Demand root reference is cross-context, wrong-kind, or stale")
    );
}

#[test]
fn demand_applying_a_test_without_body_is_refused() {
    let mut checked = candidate(sealed_demand(family()));
    checked.sources.test_applications.push(TestId { suite: 1, test: 3, identity: 71 });
    assert_eq!(
        verify_demand(&checked, &Cancellation::new()),
        defect("Test Application names a missing verified Test body")
    );
}

#[test]
fn demand_reaching_unsolved_specialization_is_refused() {
    let mut checked = candidate(sealed_demand(family()));
    checked.sources.calls.remove(&5);
    assert_eq!(
        verify_demand(&checked, &Cancellation::new()),
        defect("Executable Demand names a Specialization without solved facts")
    );
}

#[test]
fn demand_with_wrong_kind_is_refused() {
    let mut executables = family();
    executables[5] = ExecutableReference::TestBody(RawReference {
        kind: ArtifactKind::ClosureBody,
        ..root_of(&[specialization(70)])
    });
    let checked = candidate(sealed_demand(executables));
    assert_eq!(
        verify_demand(&checked, &Cancellation::new()),
        defect("typed executable reference has the wrong kind")
    );
}

#[test]
fn demand_listing_an_extra_executable_is_refused() {
    let mut executables = family();
    executables.push(closure_body(81));
    let checked = candidate(sealed_demand(executables));
    assert_eq!(
        verify_demand(&checked, &Cancellation::new()),
        defect("Executable Demand is not the exact reachable executable family")
    );
}

#[test]
fn demand_omitting_a_retained_closure_is_refused() {
    let mut executables = family();
    executables.remove(7);
    let checked = candidate(sealed_demand(executables));
    assert_eq!(
        verify_demand(&checked, &Cancellation::new()),
        defect("Executable Demand is not the exact reachable executable family")
    );
}

#[test]
fn demand_crossing_contexts_is_refused() {
    let mut executables = family();
    if let ExecutableReference::ClosureBody(raw) = &mut executables[8] {
        raw.context = CONTEXT + 1;
    }
    let checked = candidate(sealed_demand(executables));
    assert_eq!(
        verify_demand(&checked, &Cancellation::new()),
        defect("typed executable reference crosses compilation contexts")
    );
}

#[test]
fn demand_with_stale_executable_is_refused() {
    let mut executables = family();
    if let ExecutableReference::TestBody(raw) = &mut executables[5] {
        raw.current_meaning = 0;
    }
    let checked = candidate(sealed_demand(executables));
    assert_eq!(
        verify_demand(&checked, &Cancellation::new()),
        defect("typed executable reference is stale")
    );
}

#[test]
fn demand_with_false_fingerprint_is_refused() {
    let mut demand = sealed_demand(family());
    demand.fingerprint ^= 1;
    let checked = candidate(demand);
    assert_eq!(
        verify_demand(&checked, &Cancellation::new()),
        defect("Executable Demand fingerprint is false")
    );
}

#[test]
fn cancelled_demand_check_answers_cancelled() {
    let checked = candidate(sealed_demand(family()));
    let cancellation = Cancellation::new();
    cancellation.cancel();
    assert_eq!(verify_demand(&checked, &cancellation), Err(CompletionFailure::Cancelled));
}

#[test]
fn demand_fingerprints_agree_and_follow_the_listing() {
    let executables = family();
    let root = root_of(&executables);
    let cancellation = Cancellation::new();
    let produced = produce_demand_fingerprint(root, &executables, &cancellation).unwrap();
    assert_eq!(verify_demand_fingerprint(root, &executables, &cancellation).unwrap(), produced);
    let mut bytes = Vec::new();
    let domain = b"wrela.executable-demand\0\x02";
    bytes.extend_from_slice(&(domain.len() as u64).to_be_bytes());
    bytes.extend_from_slice(domain);
    bytes.extend_from_slice(&root.identity.to_be_bytes());
    bytes.extend_from_slice(&(executables.len() as u64).to_be_bytes());
    for executable in &executables {
        let raw = match executable {
            ExecutableReference::Specialization(raw)
            | ExecutableReference::TestBody(raw)
            | ExecutableReference::ClosureBody(raw)
            | ExecutableReference::Generated(raw) => *raw,
        };
        bytes.push(match raw.kind {
            ArtifactKind::Specialization => 7,
            ArtifactKind::TestBody => 8,
            _ => 9,
        });
        bytes.extend_from_slice(&raw.identity.to_be_bytes());
        bytes.extend_from_slice(&raw.current_meaning.to_be_bytes());
    }
    assert_eq!(produced, xxhash_rust::xxh3::xxh3_128(&bytes));
    let mut reordered = executables.clone();
    reordered.swap(1, 2);
    assert_ne!(produce_demand_fingerprint(root, &reordered, &cancellation).unwrap(), produced);
}

fn retained_function_candidate() -> DemandCandidate {
    let mut calls = BTreeMap::new();
    calls.insert(10, vec![]);
    calls.insert(11, vec![]);
    let mut specialization_closures = BTreeMap::new();
    specialization_closures.insert(10, vec![]);
    specialization_closures.insert(11, vec![]);
    DemandCandidate {
        demand: sealed_demand(vec![specialization(10), specialization(11)]),
        sources: DemandSources {
            context: CONTEXT,
            program_fingerprint: PROGRAM,
            nodes: vec![DemandNode { owner: 10, operands: vec![Value::Function(11)] }],
            actor_handlers: vec![],
            test_applications: vec![],
            test_bodies: vec![],
            specialization_closures,
            calls,
        },
    }
}

fn resign_demand(candidate: &mut DemandCandidate) {
    candidate.demand.fingerprint =
        produce_demand_fingerprint(candidate.demand.root, &candidate.demand.executables, &Cancellation::new()).unwrap();
}

fn evidence(result: Result<(), CompletionFailure>) -> String {
    match result {
        Err(CompletionFailure::Defect(evidence)) => evidence,
        other => panic!("expected a defect, found {other:?}"),
    }
}

#[test]
fn invalid_executable_demand_is_rejected_by_the_completion_verifier() {
    let mut candidate = candidate(sealed_demand(family()));
    let root = candidate.demand.root.identity;
    candidate.demand.executables.retain(|reference| {
        matches!(reference, ExecutableReference::Specialization(reference) if reference.identity == root)
    });
    assert!(evidence(verify_demand(&candidate, &Cancellation::new())).contains("exact reachable executable"));
}

#[test]
fn executable_references_reject_extra_wrong_kind_cross_context_and_stale_authorities() {
    for corruption in 0..6 {
        let mut candidate = candidate(sealed_demand(family()));
        match corruption {
            0 => {
                let raw = RawReference {
                    context: candidate.sources.context,
                    kind: ArtifactKind::GeneratedExecutable,
                    identity: 99,
                    current_meaning: executable_current_meaning(
                        candidate.sources.program_fingerprint,
                        ArtifactKind::GeneratedExecutable,
                        99,
                    ),
                };
                candidate.demand.executables.push(ExecutableReference::Generated(raw));
            }
            1 => match &mut candidate.demand.executables[0] {
                ExecutableReference::Specialization(reference) => reference.kind = ArtifactKind::TestBody,
                _ => panic!("fixture first executable is a Specialization"),
            },
            2 => match &mut candidate.demand.executables[0] {
                ExecutableReference::Specialization(reference) => reference.context ^= 1,
                _ => panic!("fixture first executable is a Specialization"),
            },
            3 => match &mut candidate.demand.executables[0] {
                ExecutableReference::Specialization(reference) => reference.current_meaning ^= 1,
                _ => panic!("fixture first executable is a Specialization"),
            },
            4 => candidate.demand.root.context ^= 1,
            5 => candidate.demand.root.current_meaning ^= 1,
            _ => unreachable!(),
        }
        resign_demand(&mut candidate);

        let rejection = evidence(verify_demand(&candidate, &Cancellation::new()));
        assert!(
            rejection.contains("Executable Demand") || rejection.contains("executable reference"),
            "executable corruption {corruption} rejected as {rejection}"
        );
    }
}

#[test]
fn graph_retained_executable_references_reject_missing_wrong_kind_cross_context_and_stale() {
    assert_eq!(verify_demand(&retained_function_candidate(), &Cancellation::new()), Ok(()));
    for corruption in 0..4 {
        let mut candidate = retained_function_candidate();
        let root = candidate.demand.root.identity;
        let retained_index = candidate
            .demand
            .executables
            .iter()
            .position(|reference| {
                matches!(reference, ExecutableReference::Specialization(reference) if reference.identity != root)
            })
            .expect("fixture retained callback executable");
        match corruption {
            0 => {
                candidate.demand.executables.remove(retained_index);
            }
            1 => match &mut candidate.demand.executables[retained_index] {
                ExecutableReference::Specialization(reference) => reference.kind = ArtifactKind::TestBody,
                _ => unreachable!(),
            },
            2 => match &mut candidate.demand.executables[retained_index] {
                ExecutableReference::Specialization(reference) => reference.context ^= 1,
                _ => unreachable!(),
            },
            3 => match &mut candidate.demand.executables[retained_index] {
                ExecutableReference::Specialization(reference) => reference.current_meaning ^= 1,
                _ => unreachable!(),
            },
            _ => unreachable!(),
        }
        resign_demand(&mut candidate);

        let rejection = evidence(verify_demand(&candidate, &Cancellation::new()));
        assert!(
            rejection.contains("exact reachable executable")
                || rejection.contains("wrong kind")
                || rejection.contains("crosses compilation contexts")
                || rejection.contains("stale"),
            "graph-retained executable corruption {corruption} rejected as {rejection}"
        );
    }
}

#[test]
fn produced_demand_lists_the_reached_family_and_passes_the_verifier() {
    let sources = fixture_sources();
    let demand = produce_demand(&sources, 1, &Cancellation::new()).unwrap();
    assert_eq!(demand.executables, family());
    assert_eq!(demand.root, root_of(&family()));
    assert_eq!(
        demand.fingerprint,
        produce_demand_fingerprint(demand.root, &demand.executables, &Cancellation::new()).unwrap()
    );
    let checked = DemandCandidate { sources, demand };
    assert_eq!(verify_demand(&checked, &Cancellation::new()), Ok(()));
}

#[test]
fn produced_demand_lists_a_test_body_per_distinct_test_in_identity_order() {
    let mut sources = fixture_sources();
    let early = TestId { suite: 3, test: 4, identity: 65 };
    let twin = TestId { suite: 5, test: 6, identity: 70 };
    sources.test_applications = vec![twin, TestId { suite: 1, test: 2, identity: 70 }, early, twin];
    sources.test_bodies.push(DemandTestBody { id: early, specializations: vec![], closures: vec![] });
    sources.test_bodies.push(DemandTestBody { id: twin, specializations: vec![], closures: vec![] });
    let demand = produce_demand(&sources, 1, &Cancellation::new()).unwrap();
    let tests: Vec<u128> = demand
        .executables
        .iter()
        .filter_map(|reference| match reference {
            ExecutableReference::TestBody(raw) => Some(raw.identity),
            _ => None,
        })
        .collect();
    assert_eq!(tests, vec![65, 70, 70]);
    let checked = DemandCandidate { sources, demand };
    assert_eq!(verify_demand(&checked, &Cancellation::new()), Ok(()));
}

#[test]
fn demand_of_a_root_without_concrete_specialization_is_not_produced() {
    let sources = fixture_sources();
    assert_eq!(
        produce_demand(&sources, 6, &Cancellation::new()),
        Err(CompletionFailure::Defect("Image Constructor has no concrete Specialization".to_string()))
    );
}

#[test]
fn demand_applying_a_test_without_body_is_not_produced() {
    let mut sources = fixture_sources();
    sources.test_bodies.clear();
    assert_eq!(
        produce_demand(&sources, 1, &Cancellation::new()),
        Err(CompletionFailure::Defect("Test Application names a missing verified Test body".to_string()))
    );
}

#[test]
fn demand_reaching_unsolved_specialization_is_not_produced() {
    let mut sources = fixture_sources();
    sources.calls.remove(&4);
    assert_eq!(
        produce_demand(&sources, 1, &Cancellation::new()),
        Err(CompletionFailure::Defect("Executable Demand names a Specialization without solved facts".to_string()))
    );
}

#[test]
fn cancelled_demand_production_answers_cancelled() {
    let cancellation = Cancellation::new();
    cancellation.cancel();
    assert_eq!(produce_demand(&fixture_sources(), 1, &cancellation), Err(CompletionFailure::Cancelled));
}

#[test]
fn verified_demand_hands_its_source_executables_to_the_core_planner_in_order() {
    let demand = sealed_demand(family());
    let sources = exact_source_executables(&demand);
    assert_eq!(sources.len(), 9);
    let kinds: Vec<CoreSourceExecutableKind> = sources.iter().map(|source| source.kind()).collect();
    assert_eq!(kinds[0], CoreSourceExecutableKind::Specialization);
    assert_eq!(kinds[5], CoreSourceExecutableKind::TestBody);
    assert_eq!(kinds[8], CoreSourceExecutableKind::ClosureBody);
    assert_eq!(sources[5].identity(), 70);
    assert_eq!(sources[5].context(), CONTEXT);
    assert_eq!(sources[5].current_meaning(), executable_current_meaning(PROGRAM, ArtifactKind::TestBody, 70));
    let closure = core_source_executable_reference(closure_body(80));
    assert_eq!(closure, sources[8]);
    assert_eq!(closure.identity(), 80);
}

#[test]
fn current_fixture_has_no_generated_executable_roles() {
    let candidate = candidate(produce_demand(&fixture_sources(), 1, &Cancellation::new()).unwrap());
    assert!(candidate
        .demand
        .executables
        .iter()
        .all(|reference| !matches!(reference, ExecutableReference::Generated(_))));
}

#[test]
fn root_defects_are_answered_before_cancellation_is_polled() {
    let cancellation = Cancellation::new();
    cancellation.cancel();
    let mut demand = sealed_demand(family());
    demand.root.identity = 9;
    assert_eq!(
        verify_demand(&candidate(demand), &cancellation),
        defect("Executable Demand root is missing from its executable family")
    );
    assert_eq!(
        produce_demand(&fixture_sources(), 6, &cancellation),
        Err(CompletionFailure::Defect("Image Constructor has no concrete Specialization".to_string()))
    );
}

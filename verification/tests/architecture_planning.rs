use wrela_compiler::architecture_planning::{
    authentication_tag, current_aarch64_candidate, producer_current_aarch64_facts,
    reconstruct_and_validate, verify, ArchitecturePlanningModule, ArchitectureProfile,
    ContractContext, ContractFailure, ContractFailureKind, CoreRole, RawContract,
    ReservationKind, SymbolicCore, CONTRACT_SCHEMA_VERSION,
};
use wrela_compiler::compiler::Cancellation;

fn context(digest: u128) -> ContractContext {
    ContractContext::new("test-distribution-v1", digest)
}

fn candidate() -> RawContract {
    current_aarch64_candidate(context(7))
}

#[test]
fn current_contract_is_complete_and_canonically_verified() {
    let candidate = candidate();
    let expected_receipt = candidate.distribution_input_receipt;
    let verified =
        verify(candidate, context(7), &Cancellation::new()).expect("current contract verifies");
    assert_eq!(verified.schema_version(), CONTRACT_SCHEMA_VERSION);
    assert_eq!(verified.distribution_input_receipt(), expected_receipt);
    let facts = verified.facts();
    assert_eq!(facts.cores.len(), 4);
    assert_eq!(facts.capabilities.len(), 8);
    assert_eq!(facts.reservations.len(), 6);
    assert_eq!(facts.envelopes.len(), 8);
    assert_eq!(facts.regions.len(), 6);
    assert_eq!(facts.device_slots.len(), 8);
    assert_eq!(facts.binding_slots.len(), 8);
    assert_eq!(facts.capacity.minimum_ram_bytes, 134_217_728);
    assert_eq!(facts.capacity.maximum_ram_bytes, 2_147_483_648);
    assert_eq!(facts.alignment.allocation_bytes, 16);
    assert_eq!(facts.alignment.region_bytes, 4096);
    assert_eq!(facts.page.quantum_bytes, 4096);
    assert_eq!(facts.guards.null_pages, 1);
    assert_eq!(facts.interrupts.route_slots, 4);
    assert_eq!(facts.dma.required_alignment, 4096);
    assert_eq!(facts.service.schema_version, 1);
    assert_eq!(facts.service.maximum_cycle_units, 1_000_000);
}

#[test]
fn authentication_and_observation_use_the_same_verified_receipt_in_all_builds() {
    let candidate = candidate();
    let expected_authentication = authentication_tag(
        candidate.distribution_input_receipt,
        candidate.identity,
        candidate.fingerprint,
    );
    assert_eq!(candidate.authentication, Some(expected_authentication));

    let verified = verify(candidate, context(7), &Cancellation::new())
        .expect("the producer and verifier agree on authentication inputs");
    let observation = verified.observation();
    assert_eq!(
        observation.distribution_input_receipt(),
        verified.distribution_input_receipt()
    );
    assert_eq!(
        observation.contract_schema_version(),
        verified.schema_version()
    );
}

#[test]
fn malformed_contract_is_rejected_deterministically() {
    let mut raw = candidate();
    raw.facts.page.quantum_bytes = 0;
    let failure = verify(raw, context(7), &Cancellation::new());
    let failure = failure.unwrap_err();
    assert_eq!(failure.kind(), ContractFailureKind::MalformedFacts);
    assert_eq!(failure.reproduction().detail(), "page rules are invalid");
}

#[test]
fn unsupported_version_is_rejected_before_fingerprinting() {
    let mut raw = candidate();
    raw.version += 1;
    let failure = verify(raw, context(7), &Cancellation::new());
    assert_eq!(
        failure.unwrap_err().kind(),
        ContractFailureKind::UnsupportedVersion
    );
}

#[test]
fn mixed_context_contract_is_rejected() {
    let failure = verify(candidate(), context(8), &Cancellation::new());
    assert_eq!(
        failure.unwrap_err().kind(),
        ContractFailureKind::MixedContext
    );
}

#[test]
fn unauthenticated_contract_is_rejected() {
    let mut raw = candidate();
    raw.authentication = None;
    let failure = verify(raw, context(7), &Cancellation::new());
    assert_eq!(
        failure.unwrap_err().kind(),
        ContractFailureKind::Unauthenticated
    );
}

#[test]
fn falsely_authenticated_contract_is_rejected() {
    let mut raw = candidate();
    raw.authentication = raw.authentication.map(|authentication| authentication ^ 1);
    let failure = verify(raw, context(7), &Cancellation::new());
    assert_eq!(
        failure.unwrap_err().kind(),
        ContractFailureKind::AuthenticationMismatch
    );
}

#[test]
fn unsupported_profile_has_no_verified_contract() {
    let module = ArchitecturePlanningModule::new(context(7));
    assert_eq!(
        module
            .authenticate(ArchitectureProfile::X86_64, &Cancellation::new())
            .unwrap_err()
            .kind(),
        ContractFailureKind::UnsupportedProfile
    );
}

#[test]
fn corrupted_identity_and_fingerprint_are_rejected() {
    let mut identity = candidate();
    identity.identity ^= 1;
    assert_eq!(
        verify(identity, context(7), &Cancellation::new())
            .unwrap_err()
            .kind(),
        ContractFailureKind::IdentityMismatch
    );

    let mut fingerprint = candidate();
    fingerprint.fingerprint ^= 1;
    assert_eq!(
        verify(fingerprint, context(7), &Cancellation::new())
            .unwrap_err()
            .kind(),
        ContractFailureKind::FingerprintMismatch
    );
}

#[test]
fn cancellation_publishes_no_verified_contract() {
    let cancellation = Cancellation::new();
    cancellation.cancel();
    assert_eq!(
        verify(candidate(), context(7), &cancellation)
            .unwrap_err()
            .kind(),
        ContractFailureKind::Cancelled
    );
}

#[test]
fn synthetic_facts_are_used_only_by_private_profile_neutral_verification() {
    let mut facts = producer_current_aarch64_facts();
    facts.cores = vec![
        SymbolicCore {
            ordinal: 0,
            role: CoreRole::Primary,
            maximum_service_units: 100,
        },
        SymbolicCore {
            ordinal: 1,
            role: CoreRole::Secondary,
            maximum_service_units: 100,
        },
    ];
    facts.service.maximum_cycle_units = 200;
    facts.service.maximum_cancellation_delay_units = 100;
    let reconstructed = reconstruct_and_validate(&facts, &Cancellation::new())
        .expect("profile-neutral rules accept a private synthetic contract");
    assert_eq!(reconstructed.cores.len(), 2);
}

#[test]
fn profile_neutral_verification_rejects_duplicate_rule_kinds() {
    let mut facts = producer_current_aarch64_facts();
    facts.reservations[2].kind = ReservationKind::BootState;
    let failure = reconstruct_and_validate(&facts, &Cancellation::new()).unwrap_err();
    assert_eq!(failure.kind(), ContractFailureKind::MalformedFacts);
    assert_eq!(
        failure.reproduction().detail(),
        "reservation rules are invalid"
    );
}

#[test]
fn corrupted_service_capacity_rejects_without_host_overflow() {
    let mut facts = producer_current_aarch64_facts();
    for core in facts.cores.iter_mut() {
        core.maximum_service_units = u32::MAX;
    }
    let failure = reconstruct_and_validate(&facts, &Cancellation::new()).unwrap_err();
    assert_eq!(failure.kind(), ContractFailureKind::MalformedFacts);
    assert_eq!(
        failure.reproduction().detail(),
        "scheduling-cost baseline is invalid"
    );
}

fn assert_common(failure: &ContractFailure, kind: ContractFailureKind) {
    assert_eq!(failure.kind(), kind);
    let reproduction = failure.reproduction();
    assert_eq!(reproduction.profile(), ArchitectureProfile::CurrentAarch64);
    assert_eq!(reproduction.expected_schema_version(), 1);
    assert_eq!(reproduction.actual_schema_version(), 1);
    assert_ne!(reproduction.expected_context_receipt(), 0);
    assert_ne!(reproduction.actual_context_receipt(), 0);
    assert_ne!(reproduction.expected_input_receipt(), 0);
    assert_ne!(reproduction.actual_input_receipt(), 0);
    assert!(failure.bounded_evidence().len() < 768);
}

#[test]
fn contract_failures_preserve_bounded_reproduction_metadata() {
    let mixed = verify(candidate(), context(8), &Cancellation::new()).unwrap_err();
    assert_common(&mixed, ContractFailureKind::MixedContext);
    assert_ne!(
        mixed.reproduction().expected_context_receipt(),
        mixed.reproduction().actual_context_receipt()
    );

    let mut identity = candidate();
    identity.identity ^= 1;
    let identity = verify(identity, context(7), &Cancellation::new()).unwrap_err();
    assert_common(&identity, ContractFailureKind::IdentityMismatch);

    let mut version = candidate();
    version.version = 2;
    let version = verify(version, context(7), &Cancellation::new()).unwrap_err();
    assert_common(&version, ContractFailureKind::UnsupportedVersion);
    assert_eq!(version.reproduction().expected_contract_version(), 1);
    assert_eq!(version.reproduction().actual_contract_version(), 2);

    let mut fingerprint = candidate();
    fingerprint.fingerprint ^= 1;
    let fingerprint = verify(fingerprint, context(7), &Cancellation::new()).unwrap_err();
    assert_common(&fingerprint, ContractFailureKind::FingerprintMismatch);

    let mut authentication = candidate();
    authentication.authentication = authentication
        .authentication
        .map(|authentication| authentication ^ 1);
    let authentication = verify(authentication, context(7), &Cancellation::new()).unwrap_err();
    assert_common(&authentication, ContractFailureKind::AuthenticationMismatch);

    let mut malformed = candidate();
    malformed.facts.page.quantum_bytes = 0;
    let malformed = verify(malformed, context(7), &Cancellation::new()).unwrap_err();
    assert_common(&malformed, ContractFailureKind::MalformedFacts);
    assert_eq!(malformed.reproduction().detail(), "page rules are invalid");
}

#[test]
fn consumers_reach_each_planning_fact_through_purpose_owned_views() {
    let module = ArchitecturePlanningModule::new(context(7));
    let contract = module
        .authenticate(ArchitectureProfile::CurrentAarch64, &Cancellation::new())
        .expect("current contract authenticates");

    let admission = contract.for_admission();
    assert_eq!(admission.capabilities().len(), 8);
    assert_eq!(admission.capacity().maximum_requirements(), 65_536);
    assert_eq!(admission.device_slots().len(), 8);
    assert_eq!(admission.binding_slots().len(), 8);
    assert_eq!(admission.interrupts().route_slots(), 4);
    assert_eq!(admission.dma().maximum_in_flight(), 1024);

    let service = contract.for_service_analysis();
    assert_eq!(service.cores().len(), 4);
    assert_eq!(service.costs().schema_version(), 1);
    assert_eq!(service.costs().maximum_cycle_units(), 1_000_000);
    assert_eq!(service.costs().maximum_cancellation_delay_units(), 250_000);

    let layout = contract.for_logical_layout();
    assert_eq!(layout.capacity().minimum_ram_bytes(), 134_217_728);
    assert_eq!(layout.alignment().region_bytes(), 4096);
    assert_eq!(layout.page().quantum_bytes(), 4096);
    assert_eq!(layout.guards().normal_stack_before_pages(), 1);
    assert_eq!(layout.reservations().len(), 6);
    assert_eq!(layout.envelopes().len(), 8);
    assert_eq!(layout.regions().len(), 6);
    assert_eq!(layout.dma().required_alignment(), 4096);
}

#[test]
fn facts_without_a_primary_core_are_rejected_before_cancellation_is_polled() {
    let cancellation = Cancellation::new();
    cancellation.cancel();
    let mut facts = producer_current_aarch64_facts();
    facts.cores.clear();
    let failure = reconstruct_and_validate(&facts, &cancellation).unwrap_err();
    assert_eq!(failure.kind(), ContractFailureKind::MalformedFacts);
    assert_eq!(failure.reproduction().detail(), "symbolic cores require one primary");
}

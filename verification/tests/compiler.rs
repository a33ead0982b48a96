use wrela_compiler::architecture_planning::{
    ArchitecturePlanningModule, ArchitectureProfile, ContractContext,
};
use wrela_compiler::compiler::{
    architecture_observation, unsupported_architecture_diagnostic, CompilationRequest,
    CompletedSemanticProgramObservation, CompletedSemanticProgramValues, Diagnostic,
    DiagnosticLabelRole, DiagnosticValue, EvaluationLimitPolicy, EvaluationPanicKind,
    EvaluationPolicy, EvaluationReceipt, EvaluationRejectionKind, IdentityDomain,
    IdentityObservation, IdentityOrigin, InspectSelection, Inspection, ProjectFile,
    ProjectSnapshot, RecoveryAction, Root, SourceRange, SyntaxElement, SyntaxElementKind,
    SyntaxInvalidKind, SyntaxLayoutKind, SyntaxTokenKind, SyntaxTriviaKind,
};
use wrela_compiler::compiler::{
    conclude_compilation, plan_architecture, ArchitecturePlan, Cancellation, CompilationOutcome,
};

fn part(bytes: &[u8]) -> Vec<u8> {
    let mut framed = (bytes.len() as u64).to_be_bytes().to_vec();
    framed.extend_from_slice(bytes);
    framed
}

fn expected_snapshot_digest(files: &[(&str, &[u8])]) -> u128 {
    let mut sorted = files.to_vec();
    sorted.sort_by(|left, right| left.0.cmp(right.0).then(left.1.cmp(right.1)));
    let mut bytes = b"wrela.project-snapshot\0\x01".to_vec();
    for (path, content) in sorted {
        bytes.extend(part(path.as_bytes()));
        bytes.extend(part(content));
    }
    xxhash_rust::xxh3::xxh3_128(&bytes)
}

#[test]
fn project_files_keep_their_path_and_bytes() {
    let file = ProjectFile::new("src/image.wr", b"fn main():\n    pass\n");
    assert_eq!(file.path(), "src/image.wr");
    assert_eq!(file.bytes(), b"fn main():\n    pass\n");
}

#[test]
fn snapshot_digest_frames_sorted_paths_and_bytes() {
    let files = [
        ("src/z.wr", b"zz".as_slice()),
        ("src/a.wr", b"second".as_slice()),
        ("src/a.wr", b"first".as_slice()),
    ];
    let snapshot = ProjectSnapshot::new(
        files
            .iter()
            .map(|(path, bytes)| ProjectFile::new(path, bytes))
            .collect(),
    );
    let expected = expected_snapshot_digest(&files);
    assert_eq!(snapshot.digest(), expected);
    assert_eq!(snapshot.revision(), format!("snapshot-{expected:032x}"));
}

#[test]
fn snapshot_digest_does_not_depend_on_file_order() {
    let forward = ProjectSnapshot::new(vec![
        ProjectFile::new("src/image.wr", b"image"),
        ProjectFile::new("src/lib.wr", b"lib"),
        ProjectFile::new("src/lib.wr", b"another"),
    ]);
    let backward = ProjectSnapshot::new(vec![
        ProjectFile::new("src/lib.wr", b"another"),
        ProjectFile::new("src/lib.wr", b"lib"),
        ProjectFile::new("src/image.wr", b"image"),
    ]);
    assert_eq!(forward.digest(), backward.digest());
    assert_eq!(forward.revision(), backward.revision());
}

#[test]
fn empty_snapshot_is_the_default() {
    let snapshot = ProjectSnapshot::default();
    assert_eq!(snapshot.digest(), expected_snapshot_digest(&[]));
    assert_eq!(snapshot, ProjectSnapshot::new(Vec::new()));
}

#[test]
fn snapshots_keep_a_given_revision() {
    let snapshot =
        ProjectSnapshot::with_revision(vec![ProjectFile::new("src/image.wr", b"x")], "r42");
    assert_eq!(snapshot.revision(), "r42");
    assert_eq!(
        snapshot.digest(),
        expected_snapshot_digest(&[("src/image.wr", b"x".as_slice())])
    );
}

#[test]
fn verified_snapshots_check_the_expected_digest() {
    let files = || vec![ProjectFile::new("src/image.wr", b"x")];
    let digest = expected_snapshot_digest(&[("src/image.wr", b"x".as_slice())]);
    let snapshot = ProjectSnapshot::verified(files(), "r1", digest).expect("digest matches");
    assert_eq!(snapshot.digest(), digest);
    assert_eq!(snapshot.revision(), "r1");
    let mismatch =
        ProjectSnapshot::verified(files(), "r1", digest ^ 1).expect_err("digest differs");
    assert_eq!(mismatch.expected(), digest ^ 1);
    assert_eq!(mismatch.actual(), digest);
}

#[test]
fn inspection_selections_are_what_they_name() {
    assert_eq!(InspectSelection::default(), InspectSelection::none());
    assert_ne!(InspectSelection::syntax(), InspectSelection::none());
    assert_ne!(InspectSelection::planning(), InspectSelection::all());
    assert_ne!(InspectSelection::planning(), InspectSelection::syntax());
}

#[test]
fn requests_are_built_from_a_snapshot_and_a_root() {
    let request = CompilationRequest::new(ProjectSnapshot::default(), Root::Test)
        .with_inspection(InspectSelection::all())
        .with_architecture_profile(ArchitectureProfile::CurrentAarch64);
    let _ = request.clone();
    assert_eq!(Root::Image.path(), "src/image.wr");
    assert_eq!(Root::Test.path(), "src/test.wr");
}

#[test]
fn diagnostics_keep_parameters_and_labels_in_order() {
    let diagnostic = Diagnostic::new(
        "project.missing_module",
        SourceRange::new("src/image.wr", 3, 9),
        RecoveryAction::InsertedMissing {
            expected: String::from("block"),
        },
    )
    .with_parameter("module_path", "src/missing.wr")
    .with_unsigned_parameter("count", 2)
    .with_identity_parameter("target", IdentityDomain::Module, 77)
    .with_label(
        SourceRange::from_u64("src/lib.wr", 1, 4),
        DiagnosticLabelRole::PreviousDeclaration,
    );
    assert_eq!(diagnostic.code(), "project.missing_module");
    assert_eq!(diagnostic.primary().path(), "src/image.wr");
    assert_eq!(diagnostic.primary().start(), 3);
    assert_eq!(diagnostic.primary().end(), 9);
    assert_eq!(
        diagnostic.typed_parameters(),
        &[
            (
                String::from("module_path"),
                DiagnosticValue::Text(String::from("src/missing.wr"))
            ),
            (String::from("count"), DiagnosticValue::Unsigned(2)),
            (
                String::from("target"),
                DiagnosticValue::Identity {
                    domain: IdentityDomain::Module,
                    digest: 77
                }
            ),
        ]
    );
    assert_eq!(diagnostic.labels().len(), 1);
    assert_eq!(diagnostic.labels()[0].role(), "previous_declaration");
    assert_eq!(diagnostic.labels()[0].range().path(), "src/lib.wr");
    assert_eq!(
        diagnostic.recovery(),
        &RecoveryAction::InsertedMissing {
            expected: String::from("block")
        }
    );
}

#[test]
fn unsupported_profiles_are_diagnosed_at_the_root() {
    let diagnostic = unsupported_architecture_diagnostic(Root::Image, ArchitectureProfile::X86_64);
    assert_eq!(diagnostic.code(), "architecture.unsupported_profile");
    assert_eq!(diagnostic.primary().path(), "src/image.wr");
    assert_eq!(diagnostic.primary().start(), 0);
    assert_eq!(diagnostic.primary().end(), 0);
    assert_eq!(
        diagnostic.typed_parameters(),
        &[(
            String::from("profile"),
            DiagnosticValue::Text(String::from("x86_64"))
        )]
    );
    assert_eq!(diagnostic.recovery(), &RecoveryAction::NoAction);
    assert!(diagnostic.labels().is_empty());
}

#[test]
fn label_roles_have_canonical_names() {
    let role = |role| {
        Diagnostic::new("x", SourceRange::new("a", 0, 0), RecoveryAction::NoAction)
            .with_label(SourceRange::new("b", 1, 2), role)
            .labels()[0]
            .role()
            .to_owned()
    };
    assert_eq!(role(DiagnosticLabelRole::PropagationSource), "propagation_source");
    assert_eq!(role(DiagnosticLabelRole::Related), "related");
}

#[test]
fn syntax_kinds_have_canonical_names() {
    assert_eq!(SyntaxTokenKind::Identifier.name(), "identifier");
    assert_eq!(SyntaxTokenKind::SelfValue.name(), "self");
    assert_eq!(SyntaxTokenKind::TrySend.name(), "try_send");
    assert_eq!(SyntaxTokenKind::RangeInclusive.name(), "range_inclusive");
    assert_eq!(
        SyntaxElementKind::Token(SyntaxTokenKind::ShiftLeft).name(),
        "shift_left"
    );
    assert_eq!(
        SyntaxElementKind::Trivia(SyntaxTriviaKind::DocumentationComment).name(),
        "documentation_comment"
    );
    assert_eq!(
        SyntaxElementKind::Invalid(SyntaxInvalidKind::Tab).name(),
        "invalid_tab"
    );
    assert_eq!(
        SyntaxElementKind::Layout(SyntaxLayoutKind::Dedent).name(),
        "dedent"
    );
    let element = SyntaxElement::new(
        SyntaxElementKind::Token(SyntaxTokenKind::Fn),
        "src/image.wr",
        0,
        2,
    );
    assert_eq!(element.name(), "fn");
    assert_eq!(element.range().end(), 2);
}

#[test]
fn evaluation_codes_are_canonical() {
    assert_eq!(
        EvaluationRejectionKind::AwaitNotEvaluatorEligible.code(),
        "await_not_evaluator_eligible"
    );
    assert_eq!(EvaluationPanicKind::DivisionByZero.code(), "division_by_zero");
    assert_eq!(EvaluationLimitPolicy::CompilationMemory.code(), "compilation_memory");
}

#[test]
fn evaluation_receipts_start_without_failure_evidence() {
    let receipt = EvaluationReceipt::new(EvaluationPolicy::Constant, 5, vec![3, 4], 6, 7, 8);
    assert_eq!(receipt.tariff_schema(), "wrela.evaluator.tariff.v2");
    assert_eq!(
        receipt.argument_fingerprint(),
        xxhash_rust::xxh3::xxh3_128(b"wrela.evaluation-arguments\0\x01")
    );
    assert!(receipt.evaluator_eligible());
    assert_eq!(receipt.dependency_roots(), &[3, 4]);
    assert_eq!(receipt.root_identity(), 5);
    assert_eq!(receipt.typed_hir_fingerprint(), 6);
    assert_eq!(receipt.fuel_used(), 7);
    assert_eq!(receipt.peak_memory(), 8);
    assert!(receipt.provenance().is_none());
    assert!(receipt.call_chain().is_empty());
    let failed = receipt.with_failure_evidence(
        Some(SourceRange::new("src/image.wr", 4, 5)),
        Some(9),
        Vec::new(),
        Vec::new(),
    );
    assert_eq!(failed.provenance().map(SourceRange::start), Some(4));
    assert_eq!(failed.relevant_identity(), Some(9));
    assert_eq!(failed.policy(), EvaluationPolicy::Constant);
}

#[test]
fn a_default_inspection_observes_nothing() {
    let inspection = Inspection::default();
    assert!(inspection.syntax().is_none());
    assert!(inspection.closure().is_empty());
    assert!(inspection.evaluations().is_empty());
    assert!(inspection.architecture_planning_contract().is_none());
    assert!(inspection.completed_semantic_program().is_none());
    assert_eq!(inspection.semantic_closure_digest(), None);
    assert_eq!(inspection.distribution_version(), "");
}

#[test]
fn identity_fingerprints_can_be_replaced() {
    let mut identity =
        IdentityObservation::new(IdentityDomain::Type, IdentityOrigin::Project, "Node", 1, 2);
    identity.replace_fingerprint(3);
    assert_eq!(identity.fingerprint(), 3);
    assert_eq!(identity.digest(), 1);
    assert_eq!(identity.name(), "Node");
}

#[test]
fn completed_program_observations_report_their_schema() {
    let observation = CompletedSemanticProgramObservation::new(CompletedSemanticProgramValues {
        fingerprint: 1,
        context_identity: 2,
        typed_program_fingerprint: 3,
        identity_catalog_revision: 4,
        custody_fingerprint: 5,
        construction_graph_fingerprint: 6,
        executable_demand_fingerprint: 7,
        solved_specialization_count: 8,
        evaluation_count: 9,
        construction_count: 10,
        executable_count: 11,
    });
    assert_eq!(observation.phase_schema(), "wrela.completed-semantic-program.v3");
    assert_eq!(observation.custody_fingerprint(), 5);
    assert_eq!(observation.executable_count(), 11);
}

#[test]
fn architecture_observations_follow_the_selection() {
    let module = ArchitecturePlanningModule::new(ContractContext::new("test-distribution-v1", 7));
    let contract = module
        .authenticate(ArchitectureProfile::CurrentAarch64, &Cancellation::new())
        .expect("current contract authenticates");
    let observed = architecture_observation(Some(&contract), InspectSelection::planning())
        .expect("planning selects the contract");
    assert_eq!(observed, contract.observation());
    assert!(architecture_observation(Some(&contract), InspectSelection::syntax()).is_none());
    assert!(architecture_observation(None, InspectSelection::all()).is_none());
}

#[test]
fn diagnostics_sort_stably_by_path_start_and_code() {
    let at = |path: &str, start: usize, code: &str| {
        Diagnostic::new(code, SourceRange::new(path, start, start), RecoveryAction::NoAction)
    };
    let sorted = wrela_compiler::compiler::sort_diagnostics(vec![
        at("src/b.wr", 0, "z"),
        at("src/a.wr", 5, "y"),
        at("src/a.wr", 5, "x").with_unsigned_parameter("first", 1),
        at("src/a.wr", 1, "q"),
        at("src/a.wr", 5, "x").with_unsigned_parameter("second", 2),
    ]);
    let keys: Vec<(String, u64, String)> = sorted
        .iter()
        .map(|d| (d.primary().path().to_owned(), d.primary().start(), d.code().to_owned()))
        .collect();
    assert_eq!(
        keys,
        vec![
            (String::from("src/a.wr"), 1, String::from("q")),
            (String::from("src/a.wr"), 5, String::from("x")),
            (String::from("src/a.wr"), 5, String::from("x")),
            (String::from("src/a.wr"), 5, String::from("y")),
            (String::from("src/b.wr"), 0, String::from("z")),
        ]
    );
    assert_eq!(sorted[1].typed_parameters()[0].0, "first");
    assert_eq!(sorted[2].typed_parameters()[0].0, "second");
}

#[test]
fn admission_reports_duplicates_and_shadowed_modules() {
    let project = ProjectSnapshot::new(vec![
        ProjectFile::new("src/image.wr", b"b"),
        ProjectFile::new("src/core/build.wr", b"x"),
        ProjectFile::new("src/image.wr", b"a"),
    ]);
    let modules = vec![
        ProjectFile::new("src/core/build.wr", b"authenticated"),
        ProjectFile::new("src/core/pool.wr", b"authenticated"),
    ];
    let admission =
        wrela_compiler::compiler::FileAdmission::new(&project, &modules, &Cancellation::new())
            .expect("not cancelled");
    let reported: Vec<(String, String)> = admission
        .diagnostics()
        .iter()
        .map(|d| (d.code().to_owned(), d.primary().path().to_owned()))
        .collect();
    assert_eq!(
        reported,
        vec![
            (String::from("project.duplicate_path"), String::from("src/image.wr")),
            (
                String::from("project.authenticated_module_shadow"),
                String::from("src/core/build.wr")
            ),
        ]
    );
    assert_eq!(admission.authenticated_paths(), &[String::from("src/core/pool.wr")]);
    assert!(admission.contains_root(Root::Image));
    assert!(!admission.contains_root(Root::Test));
}

#[test]
fn cancelled_admission_admits_nothing() {
    let cancellation = Cancellation::new();
    cancellation.cancel();
    let project = ProjectSnapshot::new(vec![ProjectFile::new("src/image.wr", b"a")]);
    assert!(wrela_compiler::compiler::FileAdmission::new(&project, &[], &cancellation).is_none());
}

#[test]
fn architecture_plans_follow_the_requested_profile() {
    let module = ArchitecturePlanningModule::new(ContractContext::new("test-distribution-v1", 7));
    let cancellation = Cancellation::new();
    assert!(matches!(
        plan_architecture(&module, Root::Image, None, &cancellation),
        ArchitecturePlan::Planned(None)
    ));
    match plan_architecture(
        &module,
        Root::Image,
        Some(ArchitectureProfile::CurrentAarch64),
        &cancellation,
    ) {
        ArchitecturePlan::Planned(Some(contract)) => {
            assert_eq!(contract.profile(), ArchitectureProfile::CurrentAarch64)
        }
        _ => panic!("the current profile is planned"),
    }
    match plan_architecture(&module, Root::Test, Some(ArchitectureProfile::X86_64), &cancellation) {
        ArchitecturePlan::Unsupported(diagnostic) => {
            assert_eq!(diagnostic.code(), "architecture.unsupported_profile");
            assert_eq!(diagnostic.primary().path(), "src/test.wr");
        }
        _ => panic!("x86_64 is unsupported"),
    }
    cancellation.cancel();
    assert!(matches!(
        plan_architecture(
            &module,
            Root::Image,
            Some(ArchitectureProfile::CurrentAarch64),
            &cancellation
        ),
        ArchitecturePlan::Cancelled
    ));
}

#[test]
fn compilations_conclude_by_their_diagnostics() {
    match conclude_compilation(Vec::new(), Inspection::default(), Some(5), None) {
        CompilationOutcome::Accepted(accepted) => {
            assert!(accepted.diagnostics().is_empty());
            assert_eq!(accepted.semantic_program_fingerprint(), 5);
            assert_eq!(accepted.planning_foundation_fingerprint(), None);
        }
        other => panic!("a clean compilation is accepted: {other:?}"),
    }
    match conclude_compilation(Vec::new(), Inspection::default(), None, None) {
        CompilationOutcome::Defect(defect) => {
            assert_eq!(defect.phase(), "semantic completion");
            assert_eq!(
                defect.evidence(),
                "accepted compilation omitted Completed Semantic Program"
            );
        }
        other => panic!("an accepted compilation needs a program: {other:?}"),
    }
    let diagnostic =
        Diagnostic::new("project.missing_root", SourceRange::new("src/image.wr", 0, 0), RecoveryAction::NoAction);
    match conclude_compilation(vec![diagnostic], Inspection::default(), Some(5), None) {
        CompilationOutcome::Rejected(rejected) => {
            assert_eq!(rejected.diagnostics().len(), 1);
            assert_eq!(rejected.diagnostics()[0].code(), "project.missing_root");
        }
        other => panic!("diagnostics reject: {other:?}"),
    }
}

#[test]
fn empty_project_is_admitted_without_polling_cancellation() {
    let cancellation = Cancellation::new();
    cancellation.cancel();
    let modules = vec![ProjectFile::new("src/core/build.wr", b"authenticated")];
    let admission = wrela_compiler::compiler::FileAdmission::new(&ProjectSnapshot::new(vec![]), &modules, &cancellation)
        .expect("no project file polls cancellation");
    assert!(admission.diagnostics().is_empty());
    assert_eq!(admission.authenticated_paths().len(), 1);
}

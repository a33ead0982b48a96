//! The identities that bind a completed semantic program: the compilation context it was
//! produced in and the fingerprint over its direct receipts. Each is computed twice, by
//! the producer and by an independent verifier with an encoder of its own, and both are
//! proved to compute the same canonical bytes.
use vstd::prelude::*;
use vstd::utf8::encode_utf8;

use std::collections::{BTreeMap, BTreeSet};

use crate::compiler::{Cancellation, Root};
use crate::evaluator::{BuildKind, TestId, Value, ValueView, clone_values, values_view};
use crate::hashing::{VerificationEncoding, be_u128, be_u64, be_u8, part, push_part, push_u128, push_u64, push_u8, xxh3_128, xxh3_128_digest};

verus! {

/// The phase schema of completed semantic programs.
pub open spec fn phase_schema() -> Seq<char> {
    "wrela.completed-semantic-program.v3"@
}

/// The schema of the compiler's semantic context.
pub open spec fn compiler_schema() -> Seq<char> {
    "wrela.compiler.semantic-context.v1"@
}

/// The schema of the semantic authority.
pub open spec fn semantic_schema() -> Seq<char> {
    "wrela.semantic-authority.v1"@
}

/// What a compilation context is made of.
#[derive(Clone, Copy, Debug, PartialEq, Eq, Structural)]
pub struct ContextInput {
    pub distribution_digest: u128,
    pub semantic_closure_digest: u128,
    pub root: Root,
}

/// The canonical tag of a root.
pub open spec fn root_tag(root: Root) -> u8 {
    match root {
        Root::Image => 1,
        Root::Test => 2,
    }
}

/// The canonical tag of a root.
pub fn root_tag_of(root: Root) -> (tag: u8)
    ensures
        tag == root_tag(root),
{
    match root {
        Root::Image => 1,
        Root::Test => 2,
    }
}

/// The kind of artifact a reference points at.
#[derive(Clone, Copy, Debug, PartialEq, Eq, PartialOrd, Ord, Structural)]
pub enum ArtifactKind {
    TypedProgram,
    SolvedFacts,
    EvaluationTable,
    ConstructionGraph,
    ExecutableDemand,
    ConstructionNode,
    Specialization,
    TestBody,
    ClosureBody,
    GeneratedExecutable,
    ConstantEvaluationRoot,
    ConditionEvaluationRoot,
    ImageEvaluationRoot,
}

/// The canonical tag of an artifact kind.
pub open spec fn artifact_tag(kind: ArtifactKind) -> u8 {
    match kind {
        ArtifactKind::TypedProgram => 1,
        ArtifactKind::SolvedFacts => 2,
        ArtifactKind::EvaluationTable => 3,
        ArtifactKind::ConstructionGraph => 4,
        ArtifactKind::ExecutableDemand => 5,
        ArtifactKind::ConstructionNode => 6,
        ArtifactKind::Specialization => 7,
        ArtifactKind::TestBody => 8,
        ArtifactKind::ClosureBody => 9,
        ArtifactKind::GeneratedExecutable => 10,
        ArtifactKind::ConstantEvaluationRoot => 11,
        ArtifactKind::ConditionEvaluationRoot => 12,
        ArtifactKind::ImageEvaluationRoot => 13,
    }
}

impl ArtifactKind {
    /// The canonical tag.
    pub fn tag(self) -> (tag: u8)
        ensures
            tag == artifact_tag(self),
    {
        match self {
            ArtifactKind::TypedProgram => 1,
            ArtifactKind::SolvedFacts => 2,
            ArtifactKind::EvaluationTable => 3,
            ArtifactKind::ConstructionGraph => 4,
            ArtifactKind::ExecutableDemand => 5,
            ArtifactKind::ConstructionNode => 6,
            ArtifactKind::Specialization => 7,
            ArtifactKind::TestBody => 8,
            ArtifactKind::ClosureBody => 9,
            ArtifactKind::GeneratedExecutable => 10,
            ArtifactKind::ConstantEvaluationRoot => 11,
            ArtifactKind::ConditionEvaluationRoot => 12,
            ArtifactKind::ImageEvaluationRoot => 13,
        }
    }
}

/// A reference to an artifact of a compilation context.
#[derive(Clone, Copy, Debug, PartialEq, Eq, Structural)]
pub struct RawReference {
    pub context: u128,
    pub kind: ArtifactKind,
    pub identity: u128,
    pub current_meaning: u128,
}

/// The receipts a completed program holds directly, one per artifact it binds.
#[derive(Clone, Copy, Debug, PartialEq, Eq, Structural)]
pub struct DirectReceipts {
    pub program: RawReference,
    pub facts: RawReference,
    pub evaluations: RawReference,
    pub graph: RawReference,
    pub demand: RawReference,
}

/// Why completion stopped.
#[derive(Clone, Debug, PartialEq, Eq)]
pub enum CompletionFailure {
    Cancelled,
    Defect(String),
}

/// The bytes that a compilation context identity is the digest of.
pub open spec fn context_identity_bytes(input: ContextInput, catalog: u128) -> Seq<u8> {
    part(encode_utf8("wrela.compilation-context\0\x02"@)) + part(encode_utf8(compiler_schema()))
        + part(encode_utf8(semantic_schema())) + be_u128(input.distribution_digest) + be_u128(
        input.semantic_closure_digest,
    ) + be_u128(catalog) + be_u8(root_tag(input.root))
}

/// The identity of a compilation context: distribution, semantic closure, identity
/// catalog revision and root under the context domain and schemas.
pub open spec fn context_identity(input: ContextInput, catalog: u128) -> u128 {
    xxh3_128_digest(context_identity_bytes(input, catalog))
}

/// The encoding of one receipt in a completed fingerprint.
pub open spec fn receipt_bytes(reference: RawReference) -> Seq<u8> {
    be_u8(artifact_tag(reference.kind)) + be_u128(reference.identity) + be_u128(
        reference.current_meaning,
    )
}

/// The bytes that a completed fingerprint is the digest of.
pub open spec fn completed_bytes(context: u128, receipts: DirectReceipts, custody: u128) -> Seq<u8> {
    part(encode_utf8("wrela.completed-semantic-program\0\x01"@)) + part(encode_utf8(phase_schema()))
        + be_u128(context) + receipt_bytes(receipts.program) + receipt_bytes(receipts.facts)
        + receipt_bytes(receipts.evaluations) + receipt_bytes(receipts.graph) + receipt_bytes(
        receipts.demand,
    ) + be_u128(custody)
}

/// The fingerprint of a completed program: its context, its five direct receipts in a
/// fixed order, and its custody fingerprint.
pub open spec fn completed_fingerprint(context: u128, receipts: DirectReceipts, custody: u128) -> u128 {
    xxh3_128_digest(completed_bytes(context, receipts, custody))
}

/// The producer's identity of a compilation context.
pub fn produce_context_identity(input: ContextInput, catalog: u128) -> (identity: u128)
    ensures
        identity == context_identity(input, catalog),
{
    let mut bytes: Vec<u8> = Vec::new();
    push_part(&mut bytes, "wrela.compilation-context\0\x02".as_bytes());
    push_part(&mut bytes, "wrela.compiler.semantic-context.v1".as_bytes());
    push_part(&mut bytes, "wrela.semantic-authority.v1".as_bytes());
    push_u128(&mut bytes, input.distribution_digest);
    push_u128(&mut bytes, input.semantic_closure_digest);
    push_u128(&mut bytes, catalog);
    push_u8(&mut bytes, root_tag_of(input.root));
    proof {
        assert(bytes@ =~= context_identity_bytes(input, catalog));
    }
    xxh3_128(bytes.as_slice())
}

/// The producer's fingerprint of a completed program. A cancelled production answers
/// `Cancelled`; otherwise it answers the fingerprint.
pub fn produce_completed_fingerprint(
    context: u128,
    receipts: &DirectReceipts,
    custody: u128,
    cancellation: &Cancellation,
) -> (result: Result<u128, CompletionFailure>)
    ensures
        match result {
            Ok(fingerprint) => fingerprint == completed_fingerprint(context, *receipts, custody),
            Err(failure) => failure == CompletionFailure::Cancelled,
        },
{
    let mut bytes: Vec<u8> = Vec::new();
    push_part(&mut bytes, "wrela.completed-semantic-program\0\x01".as_bytes());
    push_part(&mut bytes, "wrela.completed-semantic-program.v3".as_bytes());
    push_u128(&mut bytes, context);
    let references = [receipts.program, receipts.facts, receipts.evaluations, receipts.graph, receipts.demand];
    let ghost start = bytes@;
    let mut i: usize = 0;
    while i < 5
        invariant
            i <= 5,
            references@ == seq![receipts.program, receipts.facts, receipts.evaluations, receipts.graph, receipts.demand],
            bytes@ == start + crate::hashing::encode_each(
                references@.take(i as int),
                |reference: RawReference| receipt_bytes(reference),
            ),
        decreases 5 - i,
    {
        if cancellation.is_cancelled() {
            return Err(CompletionFailure::Cancelled);
        }
        let reference = references[i];
        push_u8(&mut bytes, reference.kind.tag());
        push_u128(&mut bytes, reference.identity);
        push_u128(&mut bytes, reference.current_meaning);
        proof {
            crate::hashing::lemma_encode_each_step(references@, |reference: RawReference| receipt_bytes(reference), i as int);
            assert(bytes@ =~= start + crate::hashing::encode_each(
                references@.take(i + 1),
                |reference: RawReference| receipt_bytes(reference),
            ));
        }
        i = i + 1;
    }
    push_u128(&mut bytes, custody);
    if cancellation.is_cancelled() {
        return Err(CompletionFailure::Cancelled);
    }
    proof {
        let encode = |reference: RawReference| receipt_bytes(reference);
        assert(references@.take(5) =~= references@);
        reveal_with_fuel(crate::hashing::encode_each, 6);
        assert(references@.drop_last() =~= seq![receipts.program, receipts.facts, receipts.evaluations, receipts.graph]);
        assert(references@.drop_last().drop_last() =~= seq![receipts.program, receipts.facts, receipts.evaluations]);
        assert(references@.drop_last().drop_last().drop_last() =~= seq![receipts.program, receipts.facts]);
        assert(references@.drop_last().drop_last().drop_last().drop_last() =~= seq![receipts.program]);
        assert(references@.drop_last().drop_last().drop_last().drop_last().drop_last() =~= Seq::<RawReference>::empty());
        assert(bytes@ =~= completed_bytes(context, *receipts, custody));
    }
    Ok(xxh3_128(bytes.as_slice()))
}

/// The verifier's identity of a compilation context, from its own encoder.
pub fn verify_context_identity(input: ContextInput, catalog: u128) -> (identity: u128)
    ensures
        identity == context_identity(input, catalog),
{
    let mut encoding = VerificationEncoding::new();
    encoding.part("wrela.compilation-context\0\x02".as_bytes());
    encoding.part("wrela.compiler.semantic-context.v1".as_bytes());
    encoding.part("wrela.semantic-authority.v1".as_bytes());
    encoding.u128(input.distribution_digest);
    encoding.u128(input.semantic_closure_digest);
    encoding.u128(catalog);
    encoding.byte(root_tag_of(input.root));
    proof {
        assert(encoding@ =~= context_identity_bytes(input, catalog));
    }
    encoding.finish()
}

/// The verifier's fingerprint of a completed program, from its own encoder. A cancelled
/// verification answers `Cancelled`; otherwise it answers the fingerprint.
pub fn verify_completed_fingerprint(
    context: u128,
    receipts: &DirectReceipts,
    custody: u128,
    cancellation: &Cancellation,
) -> (result: Result<u128, CompletionFailure>)
    ensures
        match result {
            Ok(fingerprint) => fingerprint == completed_fingerprint(context, *receipts, custody),
            Err(failure) => failure == CompletionFailure::Cancelled,
        },
{
    let mut encoding = VerificationEncoding::new();
    encoding.part("wrela.completed-semantic-program\0\x01".as_bytes());
    encoding.part("wrela.completed-semantic-program.v3".as_bytes());
    encoding.u128(context);
    if cancellation.is_cancelled() {
        return Err(CompletionFailure::Cancelled);
    }
    encoding.byte(receipts.program.kind.tag());
    encoding.u128(receipts.program.identity);
    encoding.u128(receipts.program.current_meaning);
    if cancellation.is_cancelled() {
        return Err(CompletionFailure::Cancelled);
    }
    encoding.byte(receipts.facts.kind.tag());
    encoding.u128(receipts.facts.identity);
    encoding.u128(receipts.facts.current_meaning);
    if cancellation.is_cancelled() {
        return Err(CompletionFailure::Cancelled);
    }
    encoding.byte(receipts.evaluations.kind.tag());
    encoding.u128(receipts.evaluations.identity);
    encoding.u128(receipts.evaluations.current_meaning);
    if cancellation.is_cancelled() {
        return Err(CompletionFailure::Cancelled);
    }
    encoding.byte(receipts.graph.kind.tag());
    encoding.u128(receipts.graph.identity);
    encoding.u128(receipts.graph.current_meaning);
    if cancellation.is_cancelled() {
        return Err(CompletionFailure::Cancelled);
    }
    encoding.byte(receipts.demand.kind.tag());
    encoding.u128(receipts.demand.identity);
    encoding.u128(receipts.demand.current_meaning);
    encoding.u128(custody);
    if cancellation.is_cancelled() {
        return Err(CompletionFailure::Cancelled);
    }
    proof {
        assert(encoding@ =~= completed_bytes(context, *receipts, custody));
    }
    Ok(encoding.finish())
}

/// A root that a semantic evaluation starts from: a constant, a compile-time condition,
/// or an image's specialization.
#[derive(Clone, Copy, Debug, PartialEq, Eq, Structural)]
pub enum EvaluationRoot {
    Constant(u128),
    Condition(u128),
    Image(u128),
}

impl EvaluationRoot {
    /// The identity of the root's artifact.
    pub open spec fn identity_of(self) -> u128 {
        match self {
            EvaluationRoot::Constant(identity) => identity,
            EvaluationRoot::Condition(identity) => identity,
            EvaluationRoot::Image(identity) => identity,
        }
    }

    /// The identity of the root's artifact.
    pub fn identity(self) -> (identity: u128)
        ensures
            identity == self.identity_of(),
    {
        match self {
            EvaluationRoot::Constant(identity) => identity,
            EvaluationRoot::Condition(identity) => identity,
            EvaluationRoot::Image(identity) => identity,
        }
    }
}

/// The artifact kind of an evaluation root.
pub open spec fn evaluation_artifact(root: EvaluationRoot) -> ArtifactKind {
    match root {
        EvaluationRoot::Constant(_) => ArtifactKind::ConstantEvaluationRoot,
        EvaluationRoot::Condition(_) => ArtifactKind::ConditionEvaluationRoot,
        EvaluationRoot::Image(_) => ArtifactKind::ImageEvaluationRoot,
    }
}

/// The artifact kind of an evaluation root.
pub fn evaluation_kind(root: EvaluationRoot) -> (kind: ArtifactKind)
    ensures
        kind == evaluation_artifact(root),
{
    match root {
        EvaluationRoot::Constant(_) => ArtifactKind::ConstantEvaluationRoot,
        EvaluationRoot::Condition(_) => ArtifactKind::ConditionEvaluationRoot,
        EvaluationRoot::Image(_) => ArtifactKind::ImageEvaluationRoot,
    }
}

/// A typed reference to the root of a completed evaluation.
#[derive(Clone, Copy, Debug, PartialEq, Eq, Structural)]
pub struct EvaluationReference {
    pub root: EvaluationRoot,
    pub raw: RawReference,
}

/// The reference to an evaluation root of a typed program, current in a context.
pub open spec fn evaluation_reference_of(context: u128, program_fingerprint: u128, root: EvaluationRoot) -> EvaluationReference {
    EvaluationReference {
        root,
        raw: RawReference {
            context,
            kind: evaluation_artifact(root),
            identity: root.identity_of(),
            current_meaning: executable_meaning(program_fingerprint, evaluation_artifact(root), root.identity_of()),
        },
    }
}

/// The producer's reference to an evaluation root of a typed program, current in a
/// context.
pub fn evaluation_reference(context: u128, program_fingerprint: u128, root: EvaluationRoot) -> (reference: EvaluationReference)
    ensures
        reference == evaluation_reference_of(context, program_fingerprint, root),
{
    let kind = evaluation_kind(root);
    let current = executable_current_meaning(program_fingerprint, kind, root.identity());
    EvaluationReference { root, raw: RawReference { context, kind, identity: root.identity(), current_meaning: current } }
}

/// What is wrong with a reference to an evaluation root, checked in order: a root,
/// context, kind or identity other than the expected root's, then a stale meaning.
pub open spec fn evaluation_reference_defect(
    reference: EvaluationReference,
    expected_root: EvaluationRoot,
    program_fingerprint: u128,
    context: u128,
) -> Option<Seq<char>> {
    let kind = evaluation_artifact(expected_root);
    if reference.root != expected_root || reference.raw.context != context || reference.raw.kind != kind
        || reference.raw.identity != expected_root.identity_of() {
        Some("evaluation reference has a missing, cross-context, or wrong-kind root"@)
    } else if reference.raw.current_meaning != executable_meaning(program_fingerprint, kind, expected_root.identity_of()) {
        Some("evaluation reference is stale"@)
    } else {
        None
    }
}

/// Checks a reference to an evaluation root against the root it must name, with the
/// verifier's own meaning.
pub fn verify_evaluation_reference(
    reference: EvaluationReference,
    expected_root: EvaluationRoot,
    program_fingerprint: u128,
    context: u128,
) -> (result: Result<(), CompletionFailure>)
    ensures
        match result {
            Ok(()) => evaluation_reference_defect(reference, expected_root, program_fingerprint, context) is None,
            Err(CompletionFailure::Defect(evidence)) => evaluation_reference_defect(
                reference,
                expected_root,
                program_fingerprint,
                context,
            ) == Some(evidence@),
            Err(CompletionFailure::Cancelled) => false,
        },
{
    let expected_kind = evaluation_kind(expected_root);
    if reference.root != expected_root || reference.raw.context != context || reference.raw.kind != expected_kind
        || reference.raw.identity != expected_root.identity() {
        return Err(completion_defect("evaluation reference has a missing, cross-context, or wrong-kind root"));
    }
    if reference.raw.current_meaning != verify_executable_current_meaning(
        program_fingerprint,
        expected_kind,
        expected_root.identity(),
    ) {
        return Err(completion_defect("evaluation reference is stale"));
    }
    Ok(())
}

/// A reference the producer makes to an evaluation root passes the verifier's check
/// against that root, in the same context and typed program.
pub proof fn lemma_evaluation_reference_verifies(context: u128, program_fingerprint: u128, root: EvaluationRoot)
    ensures
        evaluation_reference_defect(
            evaluation_reference_of(context, program_fingerprint, root),
            root,
            program_fingerprint,
            context,
        ) is None,
{
}

/// A reference to an executable of a completed program, by the role it plays.
#[derive(Clone, Copy, Debug, PartialEq, Eq, Structural)]
pub enum ExecutableReference {
    Specialization(RawReference),
    TestBody(RawReference),
    ClosureBody(RawReference),
    Generated(RawReference),
}

impl ExecutableReference {
    /// The reference it holds.
    pub open spec fn raw_view(self) -> RawReference {
        match self {
            ExecutableReference::Specialization(raw) => raw,
            ExecutableReference::TestBody(raw) => raw,
            ExecutableReference::ClosureBody(raw) => raw,
            ExecutableReference::Generated(raw) => raw,
        }
    }

    /// The artifact kind of its role.
    pub open spec fn role_kind(self) -> ArtifactKind {
        match self {
            ExecutableReference::Specialization(_) => ArtifactKind::Specialization,
            ExecutableReference::TestBody(_) => ArtifactKind::TestBody,
            ExecutableReference::ClosureBody(_) => ArtifactKind::ClosureBody,
            ExecutableReference::Generated(_) => ArtifactKind::GeneratedExecutable,
        }
    }

    /// The artifact kind of its role.
    pub fn role(self) -> (kind: ArtifactKind)
        ensures
            kind == self.role_kind(),
    {
        match self {
            ExecutableReference::Specialization(_) => ArtifactKind::Specialization,
            ExecutableReference::TestBody(_) => ArtifactKind::TestBody,
            ExecutableReference::ClosureBody(_) => ArtifactKind::ClosureBody,
            ExecutableReference::Generated(_) => ArtifactKind::GeneratedExecutable,
        }
    }

    /// The reference it holds.
    pub fn raw(self) -> (raw: RawReference)
        ensures
            raw == self.raw_view(),
    {
        match self {
            ExecutableReference::Specialization(raw) => raw,
            ExecutableReference::TestBody(raw) => raw,
            ExecutableReference::ClosureBody(raw) => raw,
            ExecutableReference::Generated(raw) => raw,
        }
    }
}

/// The executables a completed program demands, with its root specialization.
#[derive(Clone, Debug, PartialEq, Eq)]
pub struct ExecutableDemand {
    pub root: RawReference,
    pub executables: Vec<ExecutableReference>,
    pub fingerprint: u128,
}

/// The encoding of one demanded executable.
pub open spec fn demanded_bytes(executable: ExecutableReference) -> Seq<u8> {
    receipt_bytes(executable.raw_view())
}

/// The bytes a demand fingerprint is the digest of: the domain, the root identity, and
/// the counted executables in order.
pub open spec fn demand_bytes(root: u128, executables: Seq<ExecutableReference>) -> Seq<u8> {
    part(encode_utf8("wrela.executable-demand\0\x02"@)) + be_u128(root) + be_u64(executables.len() as u64)
        + crate::hashing::encode_each(executables, |executable: ExecutableReference| demanded_bytes(executable))
}

/// The fingerprint of an executable demand.
pub open spec fn demand_fingerprint(root: u128, executables: Seq<ExecutableReference>) -> u128 {
    xxh3_128_digest(demand_bytes(root, executables))
}

/// The producer's fingerprint of an executable demand. A cancelled production answers
/// `Cancelled`; otherwise it answers the fingerprint.
pub fn produce_demand_fingerprint(
    root: RawReference,
    executables: &Vec<ExecutableReference>,
    cancellation: &Cancellation,
) -> (result: Result<u128, CompletionFailure>)
    ensures
        match result {
            Ok(fingerprint) => fingerprint == demand_fingerprint(root.identity, executables@),
            Err(failure) => failure == CompletionFailure::Cancelled,
        },
{
    let mut bytes: Vec<u8> = Vec::new();
    push_part(&mut bytes, "wrela.executable-demand\0\x02".as_bytes());
    push_u128(&mut bytes, root.identity);
    push_u64(&mut bytes, executables.len() as u64);
    let ghost start = bytes@;
    let mut i: usize = 0;
    while i < executables.len()
        invariant
            i <= executables@.len(),
            bytes@ == start + crate::hashing::encode_each(
                executables@.take(i as int),
                |executable: ExecutableReference| demanded_bytes(executable),
            ),
        decreases executables@.len() - i,
    {
        if cancellation.is_cancelled() {
            return Err(CompletionFailure::Cancelled);
        }
        let reference = executables[i].raw();
        push_u8(&mut bytes, reference.kind.tag());
        push_u128(&mut bytes, reference.identity);
        push_u128(&mut bytes, reference.current_meaning);
        proof {
            crate::hashing::lemma_encode_each_step(
                executables@,
                |executable: ExecutableReference| demanded_bytes(executable),
                i as int,
            );
            assert(bytes@ =~= start + crate::hashing::encode_each(
                executables@.take(i + 1),
                |executable: ExecutableReference| demanded_bytes(executable),
            ));
        }
        i = i + 1;
    }
    if cancellation.is_cancelled() {
        return Err(CompletionFailure::Cancelled);
    }
    proof {
        assert(executables@.take(executables@.len() as int) =~= executables@);
        assert(bytes@ =~= demand_bytes(root.identity, executables@));
    }
    Ok(xxh3_128(bytes.as_slice()))
}

/// The verifier's fingerprint of an executable demand, from its own encoder. A cancelled
/// verification answers `Cancelled`; otherwise it answers the fingerprint.
pub fn verify_demand_fingerprint(
    root: RawReference,
    executables: &Vec<ExecutableReference>,
    cancellation: &Cancellation,
) -> (result: Result<u128, CompletionFailure>)
    ensures
        match result {
            Ok(fingerprint) => fingerprint == demand_fingerprint(root.identity, executables@),
            Err(failure) => failure == CompletionFailure::Cancelled,
        },
{
    let mut encoding = VerificationEncoding::new();
    encoding.part("wrela.executable-demand\0\x02".as_bytes());
    encoding.u128(root.identity);
    encoding.u64(executables.len() as u64);
    let ghost start = encoding@;
    let mut i: usize = 0;
    while i < executables.len()
        invariant
            i <= executables@.len(),
            encoding@ == start + crate::hashing::encode_each(
                executables@.take(i as int),
                |executable: ExecutableReference| demanded_bytes(executable),
            ),
        decreases executables@.len() - i,
    {
        if cancellation.is_cancelled() {
            return Err(CompletionFailure::Cancelled);
        }
        let reference = executables[i].raw();
        encoding.byte(reference.kind.tag());
        encoding.u128(reference.identity);
        encoding.u128(reference.current_meaning);
        proof {
            crate::hashing::lemma_encode_each_step(
                executables@,
                |executable: ExecutableReference| demanded_bytes(executable),
                i as int,
            );
            assert(encoding@ =~= start + crate::hashing::encode_each(
                executables@.take(i + 1),
                |executable: ExecutableReference| demanded_bytes(executable),
            ));
        }
        i = i + 1;
    }
    if cancellation.is_cancelled() {
        return Err(CompletionFailure::Cancelled);
    }
    proof {
        assert(executables@.take(executables@.len() as int) =~= executables@);
        assert(encoding@ =~= demand_bytes(root.identity, executables@));
    }
    Ok(encoding.finish())
}

/// The failure that reports a defect with its evidence.
pub(crate) fn completion_defect(evidence: &str) -> (failure: CompletionFailure)
    ensures
        failure matches CompletionFailure::Defect(text) && text@ == evidence@,
{
    CompletionFailure::Defect(String::from_str(evidence))
}

/// The authority a registry of direct artifacts holds for a kind: the first entry's.
pub open spec fn registry_authority(registry: Seq<(ArtifactKind, u128)>, kind: ArtifactKind) -> Option<u128>
    decreases registry.len(),
{
    if registry.len() == 0 {
        None
    } else if registry[0].0 == kind {
        Some(registry[0].1)
    } else {
        registry_authority(registry.drop_first(), kind)
    }
}

/// What is wrong with a typed reference to a direct artifact, checked in order: its
/// context, its kind, the authority the registry holds for the kind, and whether both its
/// identity and its current meaning are that authority.
pub open spec fn artifact_reference_defect(
    reference: RawReference,
    context: u128,
    expected_kind: ArtifactKind,
    authority: Option<u128>,
) -> Option<Seq<char>> {
    if reference.context != context {
        Some("typed artifact reference crosses compilation contexts"@)
    } else if reference.kind != expected_kind {
        Some("typed artifact reference has the wrong kind"@)
    } else {
        match authority {
            None => Some("typed artifact reference names a missing authority"@),
            Some(current) => if reference.identity != current || reference.current_meaning != current {
                Some("typed artifact reference is stale"@)
            } else {
                None
            },
        }
    }
}

/// The authority a registry of direct artifacts holds for a kind.
fn find_authority(registry: &Vec<(ArtifactKind, u128)>, kind: ArtifactKind) -> (authority: Option<u128>)
    ensures
        authority == registry_authority(registry@, kind),
{
    let mut i: usize = 0;
    proof {
        assert(registry@.skip(0) =~= registry@);
    }
    while i < registry.len()
        invariant
            i <= registry@.len(),
            registry_authority(registry@, kind) == registry_authority(registry@.skip(i as int), kind),
        decreases registry@.len() - i,
    {
        proof {
            assert(registry@.skip(i as int).drop_first() =~= registry@.skip(i + 1));
        }
        if registry[i].0 == kind {
            return Some(registry[i].1);
        }
        i = i + 1;
    }
    None
}

/// Whether a registry of direct artifacts holds each kind at most once, as a map from kinds
/// to authorities does.
pub open spec fn distinct_kinds(registry: Seq<(ArtifactKind, u128)>) -> bool {
    forall|i: int, j: int| 0 <= i < j < registry.len() ==> registry[i].0 != registry[j].0
}

/// In a registry that holds each kind at most once, the authority for a kind is the one
/// entry of that kind, and a kind without an entry has none.
pub proof fn lemma_registry_authority_is_entry(registry: Seq<(ArtifactKind, u128)>, kind: ArtifactKind)
    requires
        distinct_kinds(registry),
    ensures
        forall|i: int| 0 <= i < registry.len() && #[trigger] registry[i].0 == kind ==> registry_authority(registry, kind) == Some(registry[i].1),
        (forall|i: int| 0 <= i < registry.len() ==> #[trigger] registry[i].0 != kind) ==> registry_authority(registry, kind) is None,
    decreases registry.len(),
{
    if registry.len() > 0 {
        let rest = registry.drop_first();
        assert forall|i: int, j: int| 0 <= i < j < rest.len() implies rest[i].0 != rest[j].0 by {
            assert(rest[i] == registry[i + 1] && rest[j] == registry[j + 1]);
        }
        lemma_registry_authority_is_entry(rest, kind);
        assert forall|i: int| 0 <= i < registry.len() && #[trigger] registry[i].0 == kind implies registry_authority(
            registry,
            kind,
        ) == Some(registry[i].1) by {
            if i > 0 {
                assert(registry[0].0 != registry[i].0);
                assert(rest[i - 1] == registry[i]);
            }
        }
        assert forall|i: int| 0 < i < registry.len() implies registry[i] == #[trigger] rest[i - 1] by {}
    }
}

/// Checks a typed reference to a direct artifact against the registry of the context's
/// direct artifacts, which holds each kind at most once.
pub fn verify_reference(
    reference: RawReference,
    context: u128,
    expected_kind: ArtifactKind,
    registry: &Vec<(ArtifactKind, u128)>,
) -> (result: Result<(), CompletionFailure>)
    requires
        distinct_kinds(registry@),
    ensures
        match result {
            Ok(()) => artifact_reference_defect(reference, context, expected_kind, registry_authority(registry@, reference.kind))
                is None,
            Err(CompletionFailure::Defect(evidence)) => artifact_reference_defect(
                reference,
                context,
                expected_kind,
                registry_authority(registry@, reference.kind),
            ) == Some(evidence@),
            Err(CompletionFailure::Cancelled) => false,
        },
{
    if reference.context != context {
        return Err(completion_defect("typed artifact reference crosses compilation contexts"));
    }
    if reference.kind != expected_kind {
        return Err(completion_defect("typed artifact reference has the wrong kind"));
    }
    let current = match find_authority(registry, reference.kind) {
        Some(current) => current,
        None => {
            return Err(completion_defect("typed artifact reference names a missing authority"));
        },
    };
    if reference.identity != current || reference.current_meaning != current {
        return Err(completion_defect("typed artifact reference is stale"));
    }
    Ok(())
}

/// What is wrong with a typed reference to a semantic artifact, checked in order: its
/// context, its kind, whether the registry knows its identity, and whether its current
/// meaning is the one the registry holds.
pub open spec fn semantic_reference_defect(
    reference: RawReference,
    context: u128,
    expected_kind: ArtifactKind,
    registry: Map<u128, u128>,
) -> Option<Seq<char>> {
    if reference.context != context {
        Some("typed semantic reference crosses compilation contexts"@)
    } else if reference.kind != expected_kind {
        Some("typed semantic reference has the wrong kind"@)
    } else if !registry.contains_key(reference.identity) {
        Some("typed semantic reference names a missing artifact"@)
    } else if reference.current_meaning != registry[reference.identity] {
        Some("typed semantic reference is stale"@)
    } else {
        None
    }
}

/// Checks a typed reference to a semantic artifact against a registry from identities to
/// current meanings.
pub fn verify_semantic_reference(
    reference: RawReference,
    context: u128,
    expected_kind: ArtifactKind,
    registry: &BTreeMap<u128, u128>,
) -> (result: Result<(), CompletionFailure>)
    ensures
        match result {
            Ok(()) => semantic_reference_defect(reference, context, expected_kind, registry@) is None,
            Err(CompletionFailure::Defect(evidence)) => semantic_reference_defect(reference, context, expected_kind, registry@)
                == Some(evidence@),
            Err(CompletionFailure::Cancelled) => false,
        },
{
    broadcast use vstd::std_specs::btree::group_btree_axioms, vstd::laws_cmp::group_laws_cmp;

    if reference.context != context {
        return Err(completion_defect("typed semantic reference crosses compilation contexts"));
    }
    if reference.kind != expected_kind {
        return Err(completion_defect("typed semantic reference has the wrong kind"));
    }
    let current = match registry.get(&reference.identity) {
        Some(current) => *current,
        None => {
            return Err(completion_defect("typed semantic reference names a missing artifact"));
        },
    };
    if reference.current_meaning != current {
        return Err(completion_defect("typed semantic reference is stale"));
    }
    Ok(())
}

/// The bytes the current meaning of a specialization reference is the digest of.
pub open spec fn specialization_meaning_bytes(program_fingerprint: u128, identity: u128) -> Seq<u8> {
    part(encode_utf8("wrela.specialization-reference\0\x02"@)) + be_u128(program_fingerprint) + be_u128(identity)
}

/// The current meaning of a specialization of a typed program.
pub open spec fn specialization_meaning(program_fingerprint: u128, identity: u128) -> u128 {
    xxh3_128_digest(specialization_meaning_bytes(program_fingerprint, identity))
}

/// The bytes the current meaning of an executable reference is the digest of.
pub open spec fn executable_meaning_bytes(program_fingerprint: u128, kind: ArtifactKind, identity: u128) -> Seq<u8> {
    part(encode_utf8("wrela.executable-reference\0\x02"@)) + be_u8(artifact_tag(kind)) + be_u128(program_fingerprint)
        + be_u128(identity)
}

/// The current meaning of an executable of a typed program, by kind and identity.
pub open spec fn executable_meaning(program_fingerprint: u128, kind: ArtifactKind, identity: u128) -> u128 {
    xxh3_128_digest(executable_meaning_bytes(program_fingerprint, kind, identity))
}

/// The producer's current meaning of a specialization.
pub fn specialization_current_meaning(program_fingerprint: u128, identity: u128) -> (meaning: u128)
    ensures
        meaning == specialization_meaning(program_fingerprint, identity),
{
    let mut bytes: Vec<u8> = Vec::new();
    push_part(&mut bytes, "wrela.specialization-reference\0\x02".as_bytes());
    push_u128(&mut bytes, program_fingerprint);
    push_u128(&mut bytes, identity);
    proof {
        assert(bytes@ =~= specialization_meaning_bytes(program_fingerprint, identity));
    }
    xxh3_128(bytes.as_slice())
}

/// The verifier's current meaning of a specialization, from its own encoder.
pub fn verify_specialization_current_meaning(program_fingerprint: u128, identity: u128) -> (meaning: u128)
    ensures
        meaning == specialization_meaning(program_fingerprint, identity),
{
    let mut encoding = VerificationEncoding::new();
    encoding.part("wrela.specialization-reference\0\x02".as_bytes());
    encoding.u128(program_fingerprint);
    encoding.u128(identity);
    proof {
        assert(encoding@ =~= specialization_meaning_bytes(program_fingerprint, identity));
    }
    encoding.finish()
}

/// The producer's current meaning of an executable.
pub fn executable_current_meaning(program_fingerprint: u128, kind: ArtifactKind, identity: u128) -> (meaning: u128)
    ensures
        meaning == executable_meaning(program_fingerprint, kind, identity),
{
    let mut bytes: Vec<u8> = Vec::new();
    push_part(&mut bytes, "wrela.executable-reference\0\x02".as_bytes());
    push_u8(&mut bytes, kind.tag());
    push_u128(&mut bytes, program_fingerprint);
    push_u128(&mut bytes, identity);
    proof {
        assert(bytes@ =~= executable_meaning_bytes(program_fingerprint, kind, identity));
    }
    xxh3_128(bytes.as_slice())
}

/// The verifier's current meaning of an executable, from its own encoder.
pub fn verify_executable_current_meaning(program_fingerprint: u128, kind: ArtifactKind, identity: u128) -> (meaning: u128)
    ensures
        meaning == executable_meaning(program_fingerprint, kind, identity),
{
    let mut encoding = VerificationEncoding::new();
    encoding.part("wrela.executable-reference\0\x02".as_bytes());
    encoding.byte(kind.tag());
    encoding.u128(program_fingerprint);
    encoding.u128(identity);
    proof {
        assert(encoding@ =~= executable_meaning_bytes(program_fingerprint, kind, identity));
    }
    encoding.finish()
}

/// What a traversal of values finds: the construction handles in order, the functions and
/// closures retained, and the test applications in order with their payloads.
#[verifier::ext_equal]
pub ghost struct ValueFacts {
    pub handles: Seq<(BuildKind, u128)>,
    pub functions: Set<u128>,
    pub closures: Set<u128>,
    pub tests: Seq<(TestId, Seq<ValueView>)>,
}

/// A traversal that found nothing.
pub open spec fn no_facts() -> ValueFacts {
    ValueFacts { handles: Seq::empty(), functions: Set::empty(), closures: Set::empty(), tests: Seq::empty() }
}

/// What two traversals find, one after the other.
pub open spec fn joined(first: ValueFacts, second: ValueFacts) -> ValueFacts {
    ValueFacts {
        handles: first.handles + second.handles,
        functions: first.functions.union(second.functions),
        closures: first.closures.union(second.closures),
        tests: first.tests + second.tests,
    }
}

/// Joining is associative.
proof fn lemma_joined_associative(a: ValueFacts, b: ValueFacts, c: ValueFacts)
    ensures
        joined(joined(a, b), c) == joined(a, joined(b, c)),
{
    assert(joined(joined(a, b), c) =~= joined(a, joined(b, c)));
}

/// Nothing joined changes nothing.
proof fn lemma_joined_nothing(a: ValueFacts)
    ensures
        joined(a, no_facts()) == a,
{
    assert(joined(a, no_facts()) =~= a);
}

/// What a depth-first traversal of a value finds: a test application records itself
/// before its payload, a closure records itself before its captures, a function and a
/// handle record themselves, and aggregates are traversed element by element.
pub open spec fn value_facts(value: Value) -> ValueFacts
    decreases value,
{
    match value {
        Value::TestApplication { id, payload } => {
            proof {
                assert(decreases_to!(value => payload));
            }
            joined(
                ValueFacts { tests: seq![(id, values_view(payload@))], ..no_facts() },
                values_facts(payload@),
            )
        },
        Value::Array(values) | Value::Tuple(values) => {
            proof {
                assert(decreases_to!(value => values));
            }
            values_facts(values@)
        },
        Value::BuiltinVariant { payload, .. } | Value::UserVariant { payload, .. } => {
            proof {
                assert(decreases_to!(value => payload));
            }
            values_facts(payload@)
        },
        Value::Struct { fields, .. } => {
            proof {
                assert(decreases_to!(value => fields));
            }
            fields_facts(fields@)
        },
        Value::Closure { id, captures } => {
            proof {
                assert(decreases_to!(value => captures));
            }
            joined(ValueFacts { closures: set![id], ..no_facts() }, captures_facts(captures@))
        },
        Value::Function(identity) => ValueFacts { functions: set![identity], ..no_facts() },
        Value::SymbolicHandle { kind, identity } => ValueFacts { handles: seq![(kind, identity)], ..no_facts() },
        _ => no_facts(),
    }
}

/// What a traversal of values finds, value by value.
pub open spec fn values_facts(values: Seq<Value>) -> ValueFacts
    decreases values,
{
    if values.len() == 0 {
        no_facts()
    } else {
        joined(values_facts(values.drop_last()), value_facts(values.last()))
    }
}

/// What a traversal of named fields finds, field by field.
pub open spec fn fields_facts(fields: Seq<(String, Value)>) -> ValueFacts
    decreases fields,
{
    if fields.len() == 0 {
        no_facts()
    } else {
        joined(fields_facts(fields.drop_last()), value_facts(fields.last().1))
    }
}

/// What a traversal of captured values finds, capture by capture.
pub open spec fn captures_facts(captures: Seq<(u32, Value)>) -> ValueFacts
    decreases captures,
{
    if captures.len() == 0 {
        no_facts()
    } else {
        joined(captures_facts(captures.drop_last()), value_facts(captures.last().1))
    }
}

/// The facts an independent traversal has gathered.
pub struct IndependentValueFacts {
    pub handles: Vec<(BuildKind, u128)>,
    pub functions: BTreeSet<u128>,
    pub closures: BTreeSet<u128>,
    pub tests: Vec<(TestId, Vec<Value>)>,
}

/// The view of a recorded test application.
pub open spec fn test_view(test: (TestId, Vec<Value>)) -> (TestId, Seq<ValueView>) {
    (test.0, values_view(test.1@))
}

impl View for IndependentValueFacts {
    type V = ValueFacts;

    open spec fn view(&self) -> ValueFacts {
        ValueFacts {
            handles: self.handles@,
            functions: self.functions@,
            closures: self.closures@,
            tests: self.tests@.map_values(|test: (TestId, Vec<Value>)| test_view(test)),
        }
    }
}

impl IndependentValueFacts {
    /// Facts of a traversal that has found nothing yet.
    pub fn new() -> (facts: Self)
        ensures
            facts@ == no_facts(),
    {
        let facts = IndependentValueFacts {
            handles: Vec::new(),
            functions: BTreeSet::new(),
            closures: BTreeSet::new(),
            tests: Vec::new(),
        };
        proof {
            assert(facts@ =~= no_facts());
        }
        facts
    }
}

/// Traverses a value depth first, independently of the evaluator's own walks, adding what
/// it finds to `facts`; a cancelled traversal answers `Cancelled`.
pub fn independently_traverse_value(
    value: &Value,
    cancellation: &Cancellation,
    facts: &mut IndependentValueFacts,
) -> (result: Result<(), CompletionFailure>)
    ensures
        match result {
            Ok(()) => final(facts)@ == joined(old(facts)@, value_facts(*value)),
            Err(failure) => failure == CompletionFailure::Cancelled,
        },
    decreases value,
{
    broadcast use vstd::std_specs::btree::group_btree_axioms, vstd::laws_cmp::group_laws_cmp;

    if cancellation.is_cancelled() {
        return Err(CompletionFailure::Cancelled);
    }
    let ghost start = facts@;
    match value {
        Value::TestApplication { id, payload } => {
            let ghost before = facts.tests@;
            facts.tests.push((*id, clone_values(payload)));
            proof {
                assert(facts.tests@.map_values(|test: (TestId, Vec<Value>)| test_view(test)) =~= before.map_values(
                    |test: (TestId, Vec<Value>)| test_view(test),
                ) + seq![(*id, values_view(payload@))]);
                assert(facts@ =~= joined(start, ValueFacts { tests: seq![(*id, values_view(payload@))], ..no_facts() }));
            }
            let ghost recorded = facts@;
            match traverse_values(payload, cancellation, facts) {
                Ok(()) => {},
                Err(failure) => {
                    return Err(failure);
                },
            }
            proof {
                lemma_joined_associative(
                    start,
                    ValueFacts { tests: seq![(*id, values_view(payload@))], ..no_facts() },
                    values_facts(payload@),
                );
            }
        },
        Value::Array(values) | Value::Tuple(values) => {
            return traverse_values(values, cancellation, facts);
        },
        Value::BuiltinVariant { payload, .. } | Value::UserVariant { payload, .. } => {
            return traverse_values(payload, cancellation, facts);
        },
        Value::Struct { fields, .. } => {
            return traverse_fields(fields, cancellation, facts);
        },
        Value::Closure { id, captures } => {
            facts.closures.insert(*id);
            proof {
                assert(facts@ =~= joined(start, ValueFacts { closures: set![*id], ..no_facts() }));
            }
            match traverse_captures(captures, cancellation, facts) {
                Ok(()) => {},
                Err(failure) => {
                    return Err(failure);
                },
            }
            proof {
                lemma_joined_associative(start, ValueFacts { closures: set![*id], ..no_facts() }, captures_facts(captures@));
            }
        },
        Value::Function(identity) => {
            facts.functions.insert(*identity);
            proof {
                assert(facts@ =~= joined(start, value_facts(*value)));
            }
        },
        Value::SymbolicHandle { kind, identity } => {
            facts.handles.push((*kind, *identity));
            proof {
                assert(facts@ =~= joined(start, value_facts(*value)));
            }
        },
        _ => {
            proof {
                lemma_joined_nothing(start);
            }
        },
    }
    Ok(())
}

/// Traverses values in order.
fn traverse_values(values: &Vec<Value>, cancellation: &Cancellation, facts: &mut IndependentValueFacts) -> (result: Result<(), CompletionFailure>)
    ensures
        match result {
            Ok(()) => final(facts)@ == joined(old(facts)@, values_facts(values@)),
            Err(failure) => failure == CompletionFailure::Cancelled,
        },
    decreases values,
{
    let ghost start = facts@;
    let mut i: usize = 0;
    proof {
        assert(values@.take(0) =~= Seq::<Value>::empty());
        lemma_joined_nothing(start);
    }
    while i < values.len()
        invariant
            i <= values@.len(),
            facts@ == joined(start, values_facts(values@.take(i as int))),
        decreases values@.len() - i,
    {
        proof {
            assert(decreases_to!(values => values@[i as int]));
        }
        match independently_traverse_value(&values[i], cancellation, facts) {
            Ok(()) => {},
            Err(failure) => {
                return Err(failure);
            },
        }
        proof {
            assert(values@.take(i + 1).drop_last() =~= values@.take(i as int));
            lemma_joined_associative(start, values_facts(values@.take(i as int)), value_facts(values@[i as int]));
        }
        i = i + 1;
    }
    proof {
        assert(values@.take(i as int) =~= values@);
    }
    Ok(())
}

/// Traverses the values of named fields in order.
fn traverse_fields(fields: &Vec<(String, Value)>, cancellation: &Cancellation, facts: &mut IndependentValueFacts) -> (result: Result<(), CompletionFailure>)
    ensures
        match result {
            Ok(()) => final(facts)@ == joined(old(facts)@, fields_facts(fields@)),
            Err(failure) => failure == CompletionFailure::Cancelled,
        },
    decreases fields,
{
    let ghost start = facts@;
    let mut i: usize = 0;
    proof {
        assert(fields@.take(0) =~= Seq::<(String, Value)>::empty());
        lemma_joined_nothing(start);
    }
    while i < fields.len()
        invariant
            i <= fields@.len(),
            facts@ == joined(start, fields_facts(fields@.take(i as int))),
        decreases fields@.len() - i,
    {
        proof {
            assert(decreases_to!(fields => fields@[i as int].1));
        }
        match independently_traverse_value(&fields[i].1, cancellation, facts) {
            Ok(()) => {},
            Err(failure) => {
                return Err(failure);
            },
        }
        proof {
            assert(fields@.take(i + 1).drop_last() =~= fields@.take(i as int));
            lemma_joined_associative(start, fields_facts(fields@.take(i as int)), value_facts(fields@[i as int].1));
        }
        i = i + 1;
    }
    proof {
        assert(fields@.take(i as int) =~= fields@);
    }
    Ok(())
}

/// Traverses captured values in order.
fn traverse_captures(captures: &Vec<(u32, Value)>, cancellation: &Cancellation, facts: &mut IndependentValueFacts) -> (result: Result<(), CompletionFailure>)
    ensures
        match result {
            Ok(()) => final(facts)@ == joined(old(facts)@, captures_facts(captures@)),
            Err(failure) => failure == CompletionFailure::Cancelled,
        },
    decreases captures,
{
    let ghost start = facts@;
    let mut i: usize = 0;
    proof {
        assert(captures@.take(0) =~= Seq::<(u32, Value)>::empty());
        lemma_joined_nothing(start);
    }
    while i < captures.len()
        invariant
            i <= captures@.len(),
            facts@ == joined(start, captures_facts(captures@.take(i as int))),
        decreases captures@.len() - i,
    {
        proof {
            assert(decreases_to!(captures => captures@[i as int].1));
        }
        match independently_traverse_value(&captures[i].1, cancellation, facts) {
            Ok(()) => {},
            Err(failure) => {
                return Err(failure);
            },
        }
        proof {
            assert(captures@.take(i + 1).drop_last() =~= captures@.take(i as int));
            lemma_joined_associative(start, captures_facts(captures@.take(i as int)), value_facts(captures@[i as int].1));
        }
        i = i + 1;
    }
    proof {
        assert(captures@.take(i as int) =~= captures@);
    }
    Ok(())
}


/// The specializations that the solved facts of `callers` call, where `calls` maps each
/// specialization with solved facts to the specializations it calls.
pub open spec fn called_from(calls: Map<u128, Vec<u128>>, callers: Set<u128>) -> Set<u128> {
    Set::new(
        |callee: u128|
            exists|caller: u128|
                #![trigger callers.contains(caller), calls[caller]@.contains(callee)]
                callers.contains(caller) && calls.contains_key(caller) && calls[caller]@.contains(callee),
    )
}

/// The specializations reached from `roots` in at most `steps` calls.
pub open spec fn reached_within(calls: Map<u128, Vec<u128>>, roots: Set<u128>, steps: nat) -> Set<u128>
    decreases steps,
{
    if steps == 0 {
        roots
    } else {
        let before = reached_within(calls, roots, (steps - 1) as nat);
        before.union(called_from(calls, before))
    }
}

/// Whether `identity` is reached from `roots` by some number of calls.
pub open spec fn is_reachable(calls: Map<u128, Vec<u128>>, roots: Set<u128>, identity: u128) -> bool {
    exists|steps: nat| #[trigger] reached_within(calls, roots, steps).contains(identity)
}

/// The specializations reached from `roots` by calls.
pub open spec fn reachable_set(calls: Map<u128, Vec<u128>>, roots: Set<u128>) -> Set<u128> {
    Set::new(|identity: u128| is_reachable(calls, roots, identity))
}

/// Whether every specialization reached from `roots` has solved facts.
pub open spec fn reachable_all_solved(calls: Map<u128, Vec<u128>>, roots: Set<u128>) -> bool {
    forall|identity: u128| is_reachable(calls, roots, identity) ==> #[trigger] calls.contains_key(identity)
}

/// What a walk of the specializations reached from `roots` answers: the reached set when
/// each of them has solved facts, and a defect otherwise; a cancelled walk answers
/// `Cancelled`.
pub open spec fn reachability_answer(
    calls: Map<u128, Vec<u128>>,
    roots: Set<u128>,
    result: Result<BTreeSet<u128>, CompletionFailure>,
) -> bool {
    match result {
        Ok(reached) => reachable_all_solved(calls, roots) && reached@ == reachable_set(calls, roots),
        Err(CompletionFailure::Defect(evidence)) => !reachable_all_solved(calls, roots)
            && evidence@ == "Executable Demand names a Specialization without solved facts"@,
        Err(CompletionFailure::Cancelled) => true,
    }
}

proof fn lemma_reached_grows(calls: Map<u128, Vec<u128>>, roots: Set<u128>, fewer: nat, more: nat)
    requires
        fewer <= more,
    ensures
        reached_within(calls, roots, fewer).subset_of(reached_within(calls, roots, more)),
    decreases more,
{
    if fewer < more {
        lemma_reached_grows(calls, roots, fewer, (more - 1) as nat);
    }
}

/// A callee of a reachable specialization with solved facts is reachable.
proof fn lemma_callee_reachable(calls: Map<u128, Vec<u128>>, roots: Set<u128>, caller: u128, callee: u128)
    requires
        is_reachable(calls, roots, caller),
        calls.contains_key(caller),
        calls[caller]@.contains(callee),
    ensures
        is_reachable(calls, roots, callee),
{
    let steps = choose|steps: nat| #[trigger] reached_within(calls, roots, steps).contains(caller);
    let before = reached_within(calls, roots, steps);
    assert(called_from(calls, before).contains(callee));
    assert(reached_within(calls, roots, steps + 1).contains(callee));
}

/// A root is reachable.
pub(crate) proof fn lemma_root_reachable(calls: Map<u128, Vec<u128>>, roots: Set<u128>, root: u128)
    requires
        roots.contains(root),
    ensures
        is_reachable(calls, roots, root),
{
    assert(reached_within(calls, roots, 0).contains(root));
}

/// A set that holds the roots and the callees of each of its members is closed under
/// calls and holds every reachable specialization.
proof fn lemma_closed_holds_reachable(calls: Map<u128, Vec<u128>>, roots: Set<u128>, closed: Set<u128>, steps: nat)
    requires
        roots.subset_of(closed),
        forall|caller: u128, callee: u128|
            #![trigger closed.contains(caller), calls[caller]@.contains(callee)]
            closed.contains(caller) && calls.contains_key(caller) && calls[caller]@.contains(callee)
                ==> closed.contains(callee),
    ensures
        reached_within(calls, roots, steps).subset_of(closed),
    decreases steps,
{
    if steps > 0 {
        lemma_closed_holds_reachable(calls, roots, closed, (steps - 1) as nat);
    }
}

/// Removing a member of a finite set's part outside `visited` shrinks that part by one.
proof fn lemma_unvisited_shrinks(domain: Set<u128>, visited: Set<u128>, identity: u128)
    requires
        domain.finite(),
        domain.contains(identity),
        !visited.contains(identity),
    ensures
        domain.difference(visited.insert(identity)).len() < domain.difference(visited).len(),
{
    assert(domain.difference(visited.insert(identity)) =~= domain.difference(visited).remove(identity));
}

/// Integer keys obey the ordering laws under which the std ordered collections are
/// specified.
pub(crate) proof fn lemma_integer_keys_ordered()
    ensures
        vstd::laws_cmp::obeys_cmp::<u128>(),
        vstd::std_specs::btree::key_obeys_cmp_spec::<u128>(),
{
    broadcast use vstd::std_specs::btree::group_btree_axioms, vstd::laws_cmp::group_laws_cmp;

}

/// Walks the specializations reached from `roots` through the calls their solved facts
/// name, nearest-first from the smallest root, and answers the set of them.
#[verifier::spinoff_prover]
pub fn reachable_specializations(
    roots: &BTreeSet<u128>,
    calls: &BTreeMap<u128, Vec<u128>>,
    cancellation: &Cancellation,
) -> (result: Result<BTreeSet<u128>, CompletionFailure>)
    ensures
        reachability_answer(calls@, roots@, result),
        roots@ == Set::<u128>::empty() ==> result is Ok,
{
    broadcast use vstd::std_specs::btree::group_btree_axioms;

    proof {
        lemma_integer_keys_ordered();
    }
    let ordered = ascending_identities(roots);
    let mut pending: Vec<u128> = Vec::new();
    let mut k: usize = ordered.len();
    while k > 0
        invariant
            k <= ordered@.len(),
            ordered@.to_set() == roots@,
            pending@ =~= ordered@.subrange(k as int, ordered@.len() as int).reverse(),
        decreases k,
    {
        k = k - 1;
        pending.push(ordered[k]);
        proof {
            assert(ordered@.subrange(k as int, ordered@.len() as int) =~= seq![ordered@[k as int]]
                + ordered@.subrange(k + 1, ordered@.len() as int));
        }
    }
    proof {
        assert(pending@.to_set() =~= roots@) by {
            assert forall|x: u128| pending@.contains(x) <==> ordered@.contains(x) by {
                if pending@.contains(x) {
                    let j = choose|j: int| 0 <= j < pending@.len() && pending@[j] == x;
                    assert(ordered@[ordered@.len() - 1 - j] == x);
                }
                if ordered@.contains(x) {
                    let j = choose|j: int| 0 <= j < ordered@.len() && ordered@[j] == x;
                    assert(pending@[ordered@.len() - 1 - j] == x);
                }
            }
        }
        assert forall|j: int| 0 <= j < pending@.len() implies is_reachable(calls@, roots@, #[trigger] pending@[j]) by {
            assert(pending@.to_set().contains(pending@[j]));
            lemma_root_reachable(calls@, roots@, pending@[j]);
        }
    }
    proof {
        if roots@ == Set::<u128>::empty() && pending@.len() > 0 {
            assert(pending@.to_set().contains(pending@[0]));
        }
    }
    let mut reachable: BTreeSet<u128> = BTreeSet::new();
    while pending.len() > 0
        invariant
            calls@.dom().finite(),
            roots@ == Set::<u128>::empty() ==> pending@.len() == 0,
            forall|j: int| 0 <= j < pending@.len() ==> is_reachable(calls@, roots@, #[trigger] pending@[j]),
            forall|root: u128| #[trigger] roots@.contains(root) ==> reachable@.contains(root) || pending@.contains(root),
            forall|identity: u128| #[trigger] reachable@.contains(identity) ==> is_reachable(calls@, roots@, identity)
                && calls@.contains_key(identity),
            forall|caller: u128, callee: u128|
                #![trigger reachable@.contains(caller), calls@[caller]@.contains(callee)]
                reachable@.contains(caller) && calls@[caller]@.contains(callee) ==> reachable@.contains(callee)
                    || pending@.contains(callee),
        decreases calls@.dom().difference(reachable@).len(), pending@.len(),
    {
        if cancellation.is_cancelled() {
            return Err(CompletionFailure::Cancelled);
        }
        let ghost before = pending@;
        let identity = match pending.pop() {
            Some(identity) => identity,
            None => {
                return Err(CompletionFailure::Cancelled);
            },
        };
        proof {
            assert(before =~= pending@.push(identity));
            assert(before[before.len() - 1] == identity);
            assert forall|x: u128| before.contains(x) && x != identity implies pending@.contains(x) by {
                let j = choose|j: int| 0 <= j < before.len() && before[j] == x;
                assert(pending@[j] == x);
            }
        }
        if reachable.contains(&identity) {
            continue;
        }
        let callees = match calls.get(&identity) {
            Some(callees) => callees,
            None => {
                return Err(completion_defect("Executable Demand names a Specialization without solved facts"));
            },
        };
        let ghost visited_before = reachable@;
        reachable.insert(identity);
        proof {
            lemma_unvisited_shrinks(calls@.dom(), visited_before, identity);
        }
        let ghost popped = pending@;
        let mut j: usize = callees.len();
        while j > 0
            invariant
                j <= callees@.len(),
                callees@ == calls@[identity]@,
                is_reachable(calls@, roots@, identity),
                calls@.contains_key(identity),
                pending@ =~= popped + callees@.subrange(j as int, callees@.len() as int).reverse(),
                forall|m: int| 0 <= m < popped.len() ==> is_reachable(calls@, roots@, #[trigger] popped[m]),
            decreases j,
        {
            j = j - 1;
            pending.push(callees[j]);
            proof {
                assert(callees@.subrange(j as int, callees@.len() as int) =~= seq![callees@[j as int]]
                    + callees@.subrange(j + 1, callees@.len() as int));
            }
        }
        proof {
            assert(pending@ =~= popped + callees@.reverse());
            assert forall|m: int| 0 <= m < pending@.len() implies is_reachable(calls@, roots@, #[trigger] pending@[m]) by {
                if m >= popped.len() {
                    let n = m - popped.len();
                    assert(callees@[callees@.len() - 1 - n] == pending@[m]);
                    lemma_callee_reachable(calls@, roots@, identity, pending@[m]);
                }
            }
            assert forall|x: u128| #[trigger] callees@.contains(x) implies pending@.contains(x) by {
                let n = choose|n: int| 0 <= n < callees@.len() && callees@[n] == x;
                assert(pending@[popped.len() + callees@.len() - 1 - n] == x);
            }
            assert forall|x: u128| popped.contains(x) implies pending@.contains(x) by {
                let n = choose|n: int| 0 <= n < popped.len() && popped[n] == x;
                assert(pending@[n] == x);
            }
        }
    }
    proof {
        assert forall|caller: u128, callee: u128|
            #![trigger reachable@.contains(caller), calls@[caller]@.contains(callee)]
            reachable@.contains(caller) && calls@.contains_key(caller) && calls@[caller]@.contains(callee)
                implies reachable@.contains(callee) by {}
        assert forall|identity: u128| is_reachable(calls@, roots@, identity) implies reachable@.contains(identity) by {
            let steps = choose|steps: nat| #[trigger] reached_within(calls@, roots@, steps).contains(identity);
            lemma_closed_holds_reachable(calls@, roots@, reachable@, steps);
        }
        assert(reachable@ =~= reachable_set(calls@, roots@));
        assert forall|identity: u128| is_reachable(calls@, roots@, identity) implies #[trigger] calls@.contains_key(identity) by {
            assert(reachable@.contains(identity));
        }
    }
    Ok(reachable)
}

/// Walks the specializations reached from `roots` independently of the producer's walk,
/// queueing only callees not yet verified, and answers the set of them.
#[verifier::spinoff_prover]
pub fn verify_reachable_specializations(
    roots: &BTreeSet<u128>,
    calls: &BTreeMap<u128, Vec<u128>>,
    cancellation: &Cancellation,
) -> (result: Result<BTreeSet<u128>, CompletionFailure>)
    ensures
        reachability_answer(calls@, roots@, result),
        roots@ == Set::<u128>::empty() ==> result is Ok,
{
    broadcast use vstd::std_specs::btree::group_btree_axioms;

    proof {
        lemma_integer_keys_ordered();
    }
    let mut work = ascending_identities(roots);
    proof {
        assert forall|j: int| 0 <= j < work@.len() implies is_reachable(calls@, roots@, #[trigger] work@[j]) by {
            assert(work@.to_set().contains(work@[j]));
            lemma_root_reachable(calls@, roots@, work@[j]);
        }
        assert forall|root: u128| #[trigger] roots@.contains(root) implies work@.contains(root) by {
            assert(work@.to_set().contains(root));
        }
    }
    proof {
        if roots@ == Set::<u128>::empty() && work@.len() > 0 {
            assert(work@.to_set().contains(work@[0]));
        }
    }
    let mut verified: BTreeSet<u128> = BTreeSet::new();
    while work.len() > 0
        invariant
            calls@.dom().finite(),
            roots@ == Set::<u128>::empty() ==> work@.len() == 0,
            forall|j: int| 0 <= j < work@.len() ==> is_reachable(calls@, roots@, #[trigger] work@[j]),
            forall|root: u128| #[trigger] roots@.contains(root) ==> verified@.contains(root) || work@.contains(root),
            forall|identity: u128| #[trigger] verified@.contains(identity) ==> is_reachable(calls@, roots@, identity)
                && calls@.contains_key(identity),
            forall|caller: u128, callee: u128|
                #![trigger verified@.contains(caller), calls@[caller]@.contains(callee)]
                verified@.contains(caller) && calls@[caller]@.contains(callee) ==> verified@.contains(callee)
                    || work@.contains(callee),
        decreases calls@.dom().difference(verified@).len(), work@.len(),
    {
        if cancellation.is_cancelled() {
            return Err(CompletionFailure::Cancelled);
        }
        let ghost before = work@;
        let identity = match work.pop() {
            Some(identity) => identity,
            None => {
                return Err(CompletionFailure::Cancelled);
            },
        };
        proof {
            assert(before =~= work@.push(identity));
            assert(before[before.len() - 1] == identity);
            assert forall|x: u128| before.contains(x) && x != identity implies work@.contains(x) by {
                let j = choose|j: int| 0 <= j < before.len() && before[j] == x;
                assert(work@[j] == x);
            }
        }
        if verified.contains(&identity) {
            continue;
        }
        let targets = match calls.get(&identity) {
            Some(targets) => targets,
            None => {
                return Err(completion_defect("Executable Demand names a Specialization without solved facts"));
            },
        };
        let ghost verified_before = verified@;
        verified.insert(identity);
        proof {
            lemma_unvisited_shrinks(calls@.dom(), verified_before, identity);
        }
        let ghost popped = work@;
        let mut j: usize = 0;
        while j < targets.len()
            invariant
                j <= targets@.len(),
                targets@ == calls@[identity]@,
                is_reachable(calls@, roots@, identity),
                calls@.contains_key(identity),
                verified@.contains(identity),
                popped.len() <= work@.len(),
                forall|m: int| 0 <= m < popped.len() ==> work@[m] == popped[m],
                forall|m: int| 0 <= m < work@.len() ==> is_reachable(calls@, roots@, #[trigger] work@[m]),
                forall|n: int| 0 <= n < j ==> verified@.contains(#[trigger] targets@[n]) || work@.contains(targets@[n]),
            decreases targets@.len() - j,
        {
            let target = targets[j];
            if !verified.contains(&target) {
                proof {
                    assert(calls@[identity]@.contains(target));
                    lemma_callee_reachable(calls@, roots@, identity, target);
                }
                let ghost prior = work@;
                work.push(target);
                proof {
                    assert(work@ =~= prior.push(target));
                    assert(work@[work@.len() - 1] == target);
                    assert forall|n: int| 0 <= n < j implies verified@.contains(#[trigger] targets@[n]) || work@.contains(targets@[n]) by {
                        if !verified@.contains(targets@[n]) {
                            let k = choose|k: int| 0 <= k < prior.len() && prior[k] == targets@[n];
                            assert(work@[k] == targets@[n]);
                        }
                    }
                }
            }
            j = j + 1;
        }
        proof {
            assert forall|x: u128| popped.contains(x) implies work@.contains(x) by {
                let n = choose|n: int| 0 <= n < popped.len() && popped[n] == x;
                assert(work@[n] == x);
            }
            assert forall|x: u128| #[trigger] targets@.contains(x) implies verified@.contains(x) || work@.contains(x) by {
                let n = choose|n: int| 0 <= n < targets@.len() && targets@[n] == x;
                assert(verified@.contains(targets@[n]) || work@.contains(targets@[n]));
            }
        }
    }
    proof {
        assert forall|caller: u128, callee: u128|
            #![trigger verified@.contains(caller), calls@[caller]@.contains(callee)]
            verified@.contains(caller) && calls@.contains_key(caller) && calls@[caller]@.contains(callee)
                implies verified@.contains(callee) by {}
        assert forall|identity: u128| is_reachable(calls@, roots@, identity) implies verified@.contains(identity) by {
            let steps = choose|steps: nat| #[trigger] reached_within(calls@, roots@, steps).contains(identity);
            lemma_closed_holds_reachable(calls@, roots@, verified@, steps);
        }
        assert(verified@ =~= reachable_set(calls@, roots@));
        assert forall|identity: u128| is_reachable(calls@, roots@, identity) implies #[trigger] calls@.contains_key(identity) by {
            assert(verified@.contains(identity));
        }
    }
    Ok(verified)
}

/// The producer's and the verifier's walks of the specializations reached from the same
/// roots through the same solved facts agree: unless one of them was cancelled, both
/// succeed with the same set or both answer a defect.
pub proof fn lemma_reachability_walks_agree(
    calls: Map<u128, Vec<u128>>,
    roots: Set<u128>,
    produced: Result<BTreeSet<u128>, CompletionFailure>,
    verified: Result<BTreeSet<u128>, CompletionFailure>,
)
    requires
        reachability_answer(calls, roots, produced),
        reachability_answer(calls, roots, verified),
        produced != Err::<BTreeSet<u128>, CompletionFailure>(CompletionFailure::Cancelled),
        verified != Err::<BTreeSet<u128>, CompletionFailure>(CompletionFailure::Cancelled),
    ensures
        produced is Ok <==> verified is Ok,
        produced is Ok ==> produced->Ok_0@ == verified->Ok_0@,
        produced matches Err(CompletionFailure::Defect(first)) ==> (verified matches Err(
            CompletionFailure::Defect(second),
        ) && first@ == second@),
{
}

/// The identities of a set in ascending order.
pub(crate) fn ascending_identities(roots: &BTreeSet<u128>) -> (ordered: Vec<u128>)
    ensures
        ordered@.to_set() == roots@,
        forall|i: int, j: int| 0 <= i < j < ordered@.len() ==> ordered@[i] < ordered@[j],
{
    broadcast use vstd::std_specs::btree::group_btree_axioms;

    proof {
        lemma_integer_keys_ordered();
        lemma_increasing_keys_ascend(vstd::std_specs::iter::IteratorSpec::remaining(
            &vstd::std_specs::btree::spec_btree_keys_iter(roots),
        ));
    }
    let mut ordered: Vec<u128> = Vec::new();
    for identity in iter: roots.iter()
        invariant
            ordered@ == iter.seq().unref().take(iter.index()),
            iter.seq().unref().to_set() == roots@,
            forall|i: int, j: int| 0 <= i < j < iter.seq().len() ==> *iter.seq()[i] < *iter.seq()[j],
            iter.index() == iter.seq().len() ==> ordered@.to_set() == roots@,
            iter.index() == iter.seq().len() ==> (forall|i: int, j: int|
                0 <= i < j < ordered@.len() ==> ordered@[i] < ordered@[j]),
    {
        ordered.push(*identity);
        proof {
            assert(ordered@ =~= iter.seq().unref().take(iter.index() + 1));
            assert(iter.seq().unref().take(iter.seq().len() as int) =~= iter.seq().unref());
        }
    }
    ordered
}

/// The keys a set's iterator walks rise strictly.
pub(crate) proof fn lemma_increasing_keys_ascend(keys: Seq<&u128>)
    requires
        vstd::std_specs::btree::increasing_seq(keys),
    ensures
        forall|i: int, j: int| 0 <= i < j < keys.len() ==> *keys[i] < *keys[j],
{
    broadcast use vstd::std_specs::btree::group_btree_axioms, vstd::laws_cmp::group_laws_cmp;

    assert forall|i: int, j: int| 0 <= i < j < keys.len() implies *keys[i] < *keys[j] by {
        assert(vstd::std_specs::cmp::OrdSpec::cmp_spec(&keys[i], &keys[j]) is Less);
    }
}

} // verus!

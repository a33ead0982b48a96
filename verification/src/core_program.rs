//! The observable surface of the core lowering: executable and operation kinds with their
//! canonical tags, and the observations of a verified core program.
use vstd::prelude::*;
use vstd::utf8::encode_utf8;

use crate::compiler::{CanonicalValue, ConstructionKind, SourceRange, SourceRangeView};
use crate::hashing::{
    VerificationEncoding, be_i128, be_u128, be_u16, be_u32, be_u64, encode_each, lemma_encode_each_step, part,
    push_i128, push_part, push_slice, push_u128, push_u16, push_u32, push_u64, push_u8, xxh3_128, xxh3_128_digest,
};
use crate::compiler::Cancellation;
use crate::evaluator::BinaryOperator;

verus! {

/// What a core executable was lowered from.
#[derive(Clone, Copy, Debug, PartialEq, Eq, PartialOrd, Ord, Structural)]
pub enum CoreExecutableKind {
    SourceSpecialization,
    SourceTestBody,
    SourceClosureBody,
    Generated,
}

/// The canonical tag of a core executable kind.
pub open spec fn core_executable_kind_tag(value: CoreExecutableKind) -> u8 {
    match value {
        CoreExecutableKind::SourceSpecialization => 1,
        CoreExecutableKind::SourceTestBody => 2,
        CoreExecutableKind::SourceClosureBody => 3,
        CoreExecutableKind::Generated => 4,
    }
}

impl CoreExecutableKind {
    /// The canonical tag.
    pub fn tag(self) -> (tag: u8)
        ensures
            tag == core_executable_kind_tag(self),
    {
        match self {
            CoreExecutableKind::SourceSpecialization => 1,
            CoreExecutableKind::SourceTestBody => 2,
            CoreExecutableKind::SourceClosureBody => 3,
            CoreExecutableKind::Generated => 4,
        }
    }
}

/// The kind of a core operation.
#[derive(Clone, Copy, Debug, PartialEq, Eq, PartialOrd, Ord, Structural)]
pub enum CoreOperationKind {
    Literal,
    Read,
    Constant,
    FunctionValue,
    ClosureValue,
    Call,
    BuildConstruction,
    Aggregate,
    Index,
    Unary,
    CheckedArithmetic,
    Binary,
    ShortCircuit,
    Propagate,
    PatternTest,
    Store,
    Return,
    TerminalPanic,
    Assert,
    Expect,
    Branch,
    Loop,
    Match,
    Cleanup,
    PoolScope,
    Break,
    Continue,
    Pass,
    Suspension,
    GeneratedRole,
}

/// The canonical tag of a core operation kind.
pub open spec fn core_operation_kind_tag(value: CoreOperationKind) -> u8 {
    match value {
        CoreOperationKind::Literal => 1,
        CoreOperationKind::Read => 2,
        CoreOperationKind::Constant => 3,
        CoreOperationKind::FunctionValue => 4,
        CoreOperationKind::ClosureValue => 5,
        CoreOperationKind::Call => 6,
        CoreOperationKind::BuildConstruction => 7,
        CoreOperationKind::Aggregate => 8,
        CoreOperationKind::Index => 9,
        CoreOperationKind::Unary => 10,
        CoreOperationKind::CheckedArithmetic => 11,
        CoreOperationKind::Binary => 12,
        CoreOperationKind::ShortCircuit => 13,
        CoreOperationKind::Propagate => 14,
        CoreOperationKind::PatternTest => 15,
        CoreOperationKind::Store => 16,
        CoreOperationKind::Return => 17,
        CoreOperationKind::TerminalPanic => 18,
        CoreOperationKind::Assert => 19,
        CoreOperationKind::Expect => 20,
        CoreOperationKind::Branch => 21,
        CoreOperationKind::Loop => 22,
        CoreOperationKind::Match => 23,
        CoreOperationKind::Cleanup => 24,
        CoreOperationKind::PoolScope => 25,
        CoreOperationKind::Break => 26,
        CoreOperationKind::Continue => 27,
        CoreOperationKind::Pass => 28,
        CoreOperationKind::Suspension => 29,
        CoreOperationKind::GeneratedRole => 30,
    }
}

impl CoreOperationKind {
    /// The canonical tag.
    pub fn tag(self) -> (tag: u8)
        ensures
            tag == core_operation_kind_tag(self),
    {
        match self {
            CoreOperationKind::Literal => 1,
            CoreOperationKind::Read => 2,
            CoreOperationKind::Constant => 3,
            CoreOperationKind::FunctionValue => 4,
            CoreOperationKind::ClosureValue => 5,
            CoreOperationKind::Call => 6,
            CoreOperationKind::BuildConstruction => 7,
            CoreOperationKind::Aggregate => 8,
            CoreOperationKind::Index => 9,
            CoreOperationKind::Unary => 10,
            CoreOperationKind::CheckedArithmetic => 11,
            CoreOperationKind::Binary => 12,
            CoreOperationKind::ShortCircuit => 13,
            CoreOperationKind::Propagate => 14,
            CoreOperationKind::PatternTest => 15,
            CoreOperationKind::Store => 16,
            CoreOperationKind::Return => 17,
            CoreOperationKind::TerminalPanic => 18,
            CoreOperationKind::Assert => 19,
            CoreOperationKind::Expect => 20,
            CoreOperationKind::Branch => 21,
            CoreOperationKind::Loop => 22,
            CoreOperationKind::Match => 23,
            CoreOperationKind::Cleanup => 24,
            CoreOperationKind::PoolScope => 25,
            CoreOperationKind::Break => 26,
            CoreOperationKind::Continue => 27,
            CoreOperationKind::Pass => 28,
            CoreOperationKind::Suspension => 29,
            CoreOperationKind::GeneratedRole => 30,
        }
    }
}

/// The effect an operation may have beyond its result.
#[derive(Clone, Copy, Debug, PartialEq, Eq, Structural)]
pub enum EffectBoundary {
    NoEffect,
    LocalMutation,
    Ownership,
    BuildConstruction,
    Suspension,
    Call,
}

/// The canonical tag of an effect boundary.
pub open spec fn effect_boundary_tag(value: EffectBoundary) -> u8 {
    match value {
        EffectBoundary::NoEffect => 0,
        EffectBoundary::LocalMutation => 1,
        EffectBoundary::Ownership => 2,
        EffectBoundary::BuildConstruction => 3,
        EffectBoundary::Suspension => 4,
        EffectBoundary::Call => 5,
    }
}

impl EffectBoundary {
    /// The canonical tag.
    pub fn tag(self) -> (tag: u8)
        ensures
            tag == effect_boundary_tag(self),
    {
        match self {
            EffectBoundary::NoEffect => 0,
            EffectBoundary::LocalMutation => 1,
            EffectBoundary::Ownership => 2,
            EffectBoundary::BuildConstruction => 3,
            EffectBoundary::Suspension => 4,
            EffectBoundary::Call => 5,
        }
    }
}

/// How an operation may fail.
#[derive(Clone, Copy, Debug, PartialEq, Eq, Structural)]
pub enum FailureLaw {
    NoFailure,
    CheckBeforeSuccess,
    PropagateInOrder,
    TerminalPanic,
}

/// The canonical tag of a failure law.
pub open spec fn failure_law_tag(value: FailureLaw) -> u8 {
    match value {
        FailureLaw::NoFailure => 0,
        FailureLaw::CheckBeforeSuccess => 1,
        FailureLaw::PropagateInOrder => 2,
        FailureLaw::TerminalPanic => 3,
    }
}

impl FailureLaw {
    /// The canonical tag.
    pub fn tag(self) -> (tag: u8)
        ensures
            tag == failure_law_tag(self),
    {
        match self {
            FailureLaw::NoFailure => 0,
            FailureLaw::CheckBeforeSuccess => 1,
            FailureLaw::PropagateInOrder => 2,
            FailureLaw::TerminalPanic => 3,
        }
    }
}

/// The observation of a core executable: its kind, identity, meaning, owner, operations, region count and facts.
#[derive(Clone, Debug, PartialEq, Eq)]
pub struct CoreExecutableObservation {
    kind: CoreExecutableKind,
    identity: u128,
    current_meaning: u128,
    semantic_owner: u128,
    operations: Vec<CoreOperationKind>,
    region_count: usize,
    may_panic: bool,
    effectful: bool,
}

/// What the observation holds.
pub struct CoreExecutableObservationView {
    pub kind: CoreExecutableKind,
    pub identity: u128,
    pub current_meaning: u128,
    pub semantic_owner: u128,
    pub operations: Seq<CoreOperationKind>,
    pub region_count: usize,
    pub may_panic: bool,
    pub effectful: bool,
}

impl View for CoreExecutableObservation {
    type V = CoreExecutableObservationView;

    closed spec fn view(&self) -> CoreExecutableObservationView {
        CoreExecutableObservationView {
            kind: self.kind,
            identity: self.identity,
            current_meaning: self.current_meaning,
            semantic_owner: self.semantic_owner,
            operations: self.operations@,
            region_count: self.region_count,
            may_panic: self.may_panic,
            effectful: self.effectful,
        }
    }
}

impl CoreExecutableObservation {
    /// An observation of the given values.
    pub fn new(kind: CoreExecutableKind, identity: u128, current_meaning: u128, semantic_owner: u128, operations: Vec<CoreOperationKind>, region_count: usize, may_panic: bool, effectful: bool) -> (observation: Self)
        ensures
            observation@ == (CoreExecutableObservationView {
                kind: kind,
                identity: identity,
                current_meaning: current_meaning,
                semantic_owner: semantic_owner,
                operations: operations@,
                region_count: region_count,
                may_panic: may_panic,
                effectful: effectful,
            }),
    {
        let observation = CoreExecutableObservation { kind, identity, current_meaning, semantic_owner, operations, region_count, may_panic, effectful };
        observation
    }

    /// What the executable was lowered from.
    pub fn kind(&self) -> (value: CoreExecutableKind)
        ensures
            value == self@.kind,
    {
        self.kind
    }

    /// The executable identity.
    pub fn identity(&self) -> (value: u128)
        ensures
            value == self@.identity,
    {
        self.identity
    }

    /// The current meaning of the executable.
    pub fn current_meaning(&self) -> (value: u128)
        ensures
            value == self@.current_meaning,
    {
        self.current_meaning
    }

    /// The semantic owner of the executable.
    pub fn semantic_owner(&self) -> (value: u128)
        ensures
            value == self@.semantic_owner,
    {
        self.semantic_owner
    }

    /// The kinds of its operations, region by region.
    pub fn operations(&self) -> (values: &[CoreOperationKind])
        ensures
            values@ == self@.operations,
    {
        self.operations.as_slice()
    }

    /// The number of regions.
    pub fn region_count(&self) -> (value: usize)
        ensures
            value == self@.region_count,
    {
        self.region_count
    }

    /// Whether the executable may panic.
    pub fn may_panic(&self) -> (value: bool)
        ensures
            value == self@.may_panic,
    {
        self.may_panic
    }

    /// Whether the executable has effects.
    pub fn effectful(&self) -> (value: bool)
        ensures
            value == self@.effectful,
    {
        self.effectful
    }
}

/// The phase schema of core programs.
pub open spec fn core_phase_schema() -> Seq<char> {
    "wrela.core.v1"@
}

/// The observation of a verified core program.
#[derive(Clone, Debug, PartialEq, Eq)]
pub struct CoreProgramObservation {
    fingerprint: u128,
    context_identity: u128,
    planning_foundation_fingerprint: u128,
    executables: Vec<CoreExecutableObservation>,
    oracle_case_count: usize,
    oracle_agrees: bool,
}

/// What the observation holds.
pub struct CoreProgramObservationView {
    pub fingerprint: u128,
    pub context_identity: u128,
    pub planning_foundation_fingerprint: u128,
    pub executables: Seq<CoreExecutableObservationView>,
    pub oracle_case_count: usize,
    pub oracle_agrees: bool,
}

impl View for CoreProgramObservation {
    type V = CoreProgramObservationView;

    closed spec fn view(&self) -> CoreProgramObservationView {
        CoreProgramObservationView {
            fingerprint: self.fingerprint,
            context_identity: self.context_identity,
            planning_foundation_fingerprint: self.planning_foundation_fingerprint,
            executables: self.executables@.map_values(|item: CoreExecutableObservation| item@),
            oracle_case_count: self.oracle_case_count,
            oracle_agrees: self.oracle_agrees,
        }
    }
}

impl CoreProgramObservation {
    /// An observation of the given values.
    pub fn new(fingerprint: u128, context_identity: u128, planning_foundation_fingerprint: u128, executables: Vec<CoreExecutableObservation>, oracle_case_count: usize, oracle_agrees: bool) -> (observation: Self)
        ensures
            observation@ == (CoreProgramObservationView {
                fingerprint: fingerprint,
                context_identity: context_identity,
                planning_foundation_fingerprint: planning_foundation_fingerprint,
                executables: executables@.map_values(|item: CoreExecutableObservation| item@),
                oracle_case_count: oracle_case_count,
                oracle_agrees: oracle_agrees,
            }),
    {
        let ghost expected = CoreProgramObservationView {
            fingerprint: fingerprint,
            context_identity: context_identity,
            planning_foundation_fingerprint: planning_foundation_fingerprint,
            executables: executables@.map_values(|item: CoreExecutableObservation| item@),
            oracle_case_count: oracle_case_count,
            oracle_agrees: oracle_agrees,
        };
        let observation = CoreProgramObservation { fingerprint, context_identity, planning_foundation_fingerprint, executables, oracle_case_count, oracle_agrees };
        proof {
            assert(observation@.executables =~= expected.executables);
        }
        observation
    }

    /// The program fingerprint.
    pub fn fingerprint(&self) -> (value: u128)
        ensures
            value == self@.fingerprint,
    {
        self.fingerprint
    }

    /// The identity of the compilation context.
    pub fn context_identity(&self) -> (value: u128)
        ensures
            value == self@.context_identity,
    {
        self.context_identity
    }

    /// The fingerprint of the planning foundation.
    pub fn planning_foundation_fingerprint(&self) -> (value: u128)
        ensures
            value == self@.planning_foundation_fingerprint,
    {
        self.planning_foundation_fingerprint
    }

    /// The executables, in canonical order.
    pub fn executables(&self) -> (values: &[CoreExecutableObservation])
        ensures
            values@.map_values(|item: CoreExecutableObservation| item@) == self@.executables,
    {
        self.executables.as_slice()
    }

    /// The number of cases the oracle compared.
    pub fn oracle_case_count(&self) -> (value: usize)
        ensures
            value == self@.oracle_case_count,
    {
        self.oracle_case_count
    }

    /// Whether the oracle agreed with the evaluator on every case.
    pub fn oracle_agrees(&self) -> (value: bool)
        ensures
            value == self@.oracle_agrees,
    {
        self.oracle_agrees
    }

    /// The phase schema of core programs.
    pub fn phase_schema(&self) -> (schema: &'static str)
        ensures
            schema@ == core_phase_schema(),
    {
        "wrela.core.v1"
    }
}

/// The canonical encoding of a construction kind inside a symbolic handle.
pub open spec fn construction_kind_bytes(kind: ConstructionKind) -> Seq<u8> {
    match kind {
        ConstructionKind::Image => seq![1u8],
        ConstructionKind::Test => seq![2u8],
        ConstructionKind::Node { type_identity } => seq![3u8] + be_u128(type_identity),
    }
}

/// The canonical encoding of a value, as core oracle outcomes are fingerprinted: a
/// variant tag, then the payload, with texts and byte strings length-framed and nested
/// values preceded by their count.
pub open spec fn canonical_value_bytes(value: CanonicalValue) -> Seq<u8>
    decreases value,
{
    match value {
        CanonicalValue::Unit => seq![1u8],
        CanonicalValue::Bool(flag) => seq![2u8, if flag { 1u8 } else { 0u8 }],
        CanonicalValue::Integer { typename, value } => seq![3u8] + part(encode_utf8(typename@))
            + be_i128(value),
        CanonicalValue::Float { typename, bits } => seq![4u8] + part(encode_utf8(typename@))
            + be_u64(bits),
        CanonicalValue::Text(text) => seq![5u8] + part(encode_utf8(text@)),
        CanonicalValue::Scalar(scalar) => seq![6u8] + be_u32(scalar as u32),
        CanonicalValue::Bytes(bytes) => seq![7u8] + part(bytes@),
        CanonicalValue::Function { identity } => seq![8u8] + be_u128(identity),
        CanonicalValue::Closure { identity, captures } => {
            proof {
                assert(decreases_to!(value => captures));
            }
            seq![9u8] + be_u128(identity) + be_u64(captures@.len() as u64) + values_bytes(captures@)
        },
        CanonicalValue::Tuple(values) => {
            proof {
                assert(decreases_to!(value => values));
            }
            seq![10u8] + be_u64(values@.len() as u64) + values_bytes(values@)
        },
        CanonicalValue::Array(values) => {
            proof {
                assert(decreases_to!(value => values));
            }
            seq![11u8] + be_u64(values@.len() as u64) + values_bytes(values@)
        },
        CanonicalValue::Variant { typename, variant, payload } => {
            proof {
                assert(decreases_to!(value => payload));
            }
            seq![12u8] + part(encode_utf8(typename@)) + part(encode_utf8(variant@)) + be_u64(
                payload@.len() as u64,
            ) + values_bytes(payload@)
        },
        CanonicalValue::Struct { typename, fields } => {
            proof {
                assert(decreases_to!(value => fields));
            }
            seq![13u8] + part(encode_utf8(typename@)) + be_u64(fields@.len() as u64) + fields_bytes(
                fields@,
            )
        },
        CanonicalValue::SymbolicHandle { kind, identity } => seq![14u8] + construction_kind_bytes(
            kind,
        ) + be_u128(identity),
    }
}

/// The concatenated encodings of a sequence of values.
pub open spec fn values_bytes(values: Seq<CanonicalValue>) -> Seq<u8>
    decreases values,
{
    if values.len() == 0 {
        Seq::empty()
    } else {
        values_bytes(values.drop_last()) + canonical_value_bytes(values.last())
    }
}

/// The concatenated encodings of named fields: each name length-framed, then its value.
pub open spec fn fields_bytes(fields: Seq<(String, CanonicalValue)>) -> Seq<u8>
    decreases fields,
{
    if fields.len() == 0 {
        Seq::empty()
    } else {
        fields_bytes(fields.drop_last()) + part(encode_utf8(fields.last().0@))
            + canonical_value_bytes(fields.last().1)
    }
}

/// Appends the canonical encoding of a value.
pub fn encode_canonical_value(bytes: &mut Vec<u8>, value: &CanonicalValue)
    ensures
        final(bytes)@ == old(bytes)@ + canonical_value_bytes(*value),
    decreases value,
{
    let ghost start = bytes@;
    match value {
        CanonicalValue::Unit => push_u8(bytes, 1),
        CanonicalValue::Bool(flag) => {
            push_u8(bytes, 2);
            push_u8(bytes, if *flag { 1 } else { 0 });
        },
        CanonicalValue::Integer { typename, value } => {
            push_u8(bytes, 3);
            push_part(bytes, typename.as_str().as_bytes());
            push_i128(bytes, *value);
        },
        CanonicalValue::Float { typename, bits } => {
            push_u8(bytes, 4);
            push_part(bytes, typename.as_str().as_bytes());
            push_u64(bytes, *bits);
        },
        CanonicalValue::Text(text) => {
            push_u8(bytes, 5);
            push_part(bytes, text.as_str().as_bytes());
        },
        CanonicalValue::Scalar(scalar) => {
            push_u8(bytes, 6);
            push_u32(bytes, *scalar as u32);
        },
        CanonicalValue::Bytes(content) => {
            push_u8(bytes, 7);
            push_part(bytes, content.as_slice());
        },
        CanonicalValue::Function { identity } => {
            push_u8(bytes, 8);
            push_u128(bytes, *identity);
        },
        CanonicalValue::Closure { identity, captures } => {
            push_u8(bytes, 9);
            push_u128(bytes, *identity);
            push_u64(bytes, captures.len() as u64);
            encode_values(bytes, captures);
        },
        CanonicalValue::Tuple(values) => {
            push_u8(bytes, 10);
            push_u64(bytes, values.len() as u64);
            encode_values(bytes, values);
        },
        CanonicalValue::Array(values) => {
            push_u8(bytes, 11);
            push_u64(bytes, values.len() as u64);
            encode_values(bytes, values);
        },
        CanonicalValue::Variant { typename, variant, payload } => {
            push_u8(bytes, 12);
            push_part(bytes, typename.as_str().as_bytes());
            push_part(bytes, variant.as_str().as_bytes());
            push_u64(bytes, payload.len() as u64);
            encode_values(bytes, payload);
        },
        CanonicalValue::Struct { typename, fields } => {
            push_u8(bytes, 13);
            push_part(bytes, typename.as_str().as_bytes());
            push_u64(bytes, fields.len() as u64);
            encode_fields(bytes, fields);
        },
        CanonicalValue::SymbolicHandle { kind, identity } => {
            push_u8(bytes, 14);
            match kind {
                ConstructionKind::Image => push_u8(bytes, 1),
                ConstructionKind::Test => push_u8(bytes, 2),
                ConstructionKind::Node { type_identity } => {
                    push_u8(bytes, 3);
                    push_u128(bytes, *type_identity);
                },
            }
            push_u128(bytes, *identity);
        },
    }
    proof {
        assert(bytes@ =~= start + canonical_value_bytes(*value));
    }
}

/// Appends the encodings of values, in order.
fn encode_values(bytes: &mut Vec<u8>, values: &Vec<CanonicalValue>)
    ensures
        final(bytes)@ == old(bytes)@ + values_bytes(values@),
    decreases values,
{
    let ghost start = bytes@;
    let mut i: usize = 0;
    while i < values.len()
        invariant
            i <= values@.len(),
            bytes@ == start + values_bytes(values@.take(i as int)),
        decreases values@.len() - i,
    {
        proof {
            assert(decreases_to!(values => values@[i as int]));
            assert(values@.take(i + 1).drop_last() =~= values@.take(i as int));
        }
        encode_canonical_value(bytes, &values[i]);
        proof {
            assert(bytes@ =~= start + values_bytes(values@.take(i + 1)));
        }
        i = i + 1;
    }
    proof {
        assert(values@.take(i as int) =~= values@);
    }
}

/// Appends the encodings of named fields, in order.
fn encode_fields(bytes: &mut Vec<u8>, fields: &Vec<(String, CanonicalValue)>)
    ensures
        final(bytes)@ == old(bytes)@ + fields_bytes(fields@),
    decreases fields,
{
    let ghost start = bytes@;
    let mut i: usize = 0;
    while i < fields.len()
        invariant
            i <= fields@.len(),
            bytes@ == start + fields_bytes(fields@.take(i as int)),
        decreases fields@.len() - i,
    {
        proof {
            assert(decreases_to!(fields => fields@[i as int].1));
            assert(fields@.take(i + 1).drop_last() =~= fields@.take(i as int));
        }
        push_part(bytes, fields[i].0.as_str().as_bytes());
        encode_canonical_value(bytes, &fields[i].1);
        proof {
            assert(bytes@ =~= start + fields_bytes(fields@.take(i + 1)));
        }
        i = i + 1;
    }
    proof {
        assert(fields@.take(i as int) =~= fields@);
    }
}

/// What the semantic oracle does for an operation. Values are referred to by their
/// numbers, locals by theirs.
#[derive(Clone, Debug, PartialEq, Eq)]
pub enum OracleInstruction {
    Literal(CanonicalValue),
    Read(u32),
    Store { local: u32, value: u32 },
    Binary(BinaryOperator),
    ShortCircuit(BinaryOperator),
    UnaryNegate,
    UnaryNot,
    Return(Option<u32>),
    Panic,
    Assert(u32),
    Branch(u32),
    Pass,
}

/// An operation of a core region. Values and regions are referred to by their numbers;
/// the oracle instruction, where there is one, says what the operation means to the oracle.
#[derive(Clone, Debug, PartialEq, Eq)]
pub struct Operation {
    pub identity: u32,
    pub kind: CoreOperationKind,
    pub result: Option<u32>,
    pub type_identity: Option<u128>,
    pub operands: Vec<u32>,
    pub successors: Vec<u32>,
    pub details: Vec<u128>,
    pub effect: EffectBoundary,
    pub failure: FailureLaw,
    pub provenance: SourceRange,
    pub oracle: Option<OracleInstruction>,
}

/// A region of a core executable: its number and its operations in order.
#[derive(Clone, Debug, PartialEq, Eq)]
pub struct Region {
    pub identity: u32,
    pub operations: Vec<Operation>,
}

/// The executable a core realization stands for.
#[derive(Clone, Copy, Debug, PartialEq, Eq, Structural)]
pub struct ExecutableReference {
    pub context: u128,
    pub kind: CoreExecutableKind,
    pub identity: u128,
    pub current_meaning: u128,
}

/// The facts of a core executable.
#[derive(Clone, Copy, Debug, PartialEq, Eq, Structural)]
pub struct ExecutableFacts {
    pub pure: bool,
    pub may_panic: bool,
    pub suspends: bool,
    pub ownership_transfer: bool,
    pub evaluator_eligible: bool,
}

/// A core executable: what it realizes, its owner and provenance, its entry region, its
/// regions, its facts and fingerprint.
#[derive(Clone, Debug, PartialEq, Eq)]
pub struct CoreExecutable {
    pub reference: ExecutableReference,
    pub semantic_owner: u128,
    pub provenance: SourceRange,
    pub entry: u32,
    pub regions: Vec<Region>,
    pub facts: ExecutableFacts,
    pub parameter_count: usize,
    pub source_definition: Option<u128>,
    pub fingerprint: u128,
}

/// The operations of regions, region after region.
pub open spec fn all_operations(regions: Seq<Region>) -> Seq<Operation>
    decreases regions.len(),
{
    if regions.len() == 0 {
        Seq::empty()
    } else {
        all_operations(regions.drop_last()) + regions.last().operations@
    }
}

/// Whether an operation's effect makes its executable impure.
pub open spec fn impure_effect(effect: EffectBoundary) -> bool {
    effect == EffectBoundary::BuildConstruction || effect == EffectBoundary::Suspension
}

/// The facts of operations: pure unless some operation builds or suspends, panicking if
/// some operation may fail, suspending or transferring ownership if some operation does,
/// and evaluator-eligible when pure and not suspending.
pub open spec fn facts_of(operations: Seq<Operation>) -> ExecutableFacts {
    let pure = forall|i: int| 0 <= i < operations.len() ==> !impure_effect(#[trigger] operations[i].effect);
    let suspends = exists|i: int| 0 <= i < operations.len() && #[trigger] operations[i].effect == EffectBoundary::Suspension;
    ExecutableFacts {
        pure,
        may_panic: exists|i: int| 0 <= i < operations.len() && #[trigger] operations[i].failure != FailureLaw::NoFailure,
        suspends,
        ownership_transfer: exists|i: int| 0 <= i < operations.len() && #[trigger] operations[i].effect == EffectBoundary::Ownership,
        evaluator_eligible: pure && !suspends,
    }
}

/// The facts of regions' operations.
pub fn facts_from_regions(regions: &Vec<Region>) -> (facts: ExecutableFacts)
    ensures
        facts == facts_of(all_operations(regions@)),
{
    let mut pure = true;
    let mut may_panic = false;
    let mut suspends = false;
    let mut ownership_transfer = false;
    let mut r: usize = 0;
    proof {
        assert(regions@.take(0) =~= Seq::<Region>::empty());
    }
    while r < regions.len()
        invariant
            r <= regions@.len(),
            ({
                let done = all_operations(regions@.take(r as int));
                &&& pure == facts_of(done).pure
                &&& may_panic == facts_of(done).may_panic
                &&& suspends == facts_of(done).suspends
                &&& ownership_transfer == facts_of(done).ownership_transfer
            }),
        decreases regions@.len() - r,
    {
        let ghost before = all_operations(regions@.take(r as int));
        let operations = &regions[r].operations;
        let mut i: usize = 0;
        proof {
            assert(operations@.take(0) =~= Seq::<Operation>::empty());
            assert(before + operations@.take(0) =~= before);
        }
        while i < operations.len()
            invariant
                i <= operations@.len(),
                ({
                    let done = before + operations@.take(i as int);
                    &&& pure == facts_of(done).pure
                    &&& may_panic == facts_of(done).may_panic
                    &&& suspends == facts_of(done).suspends
                    &&& ownership_transfer == facts_of(done).ownership_transfer
                }),
            decreases operations@.len() - i,
        {
            let operation = &operations[i];
            let ghost done = before + operations@.take(i as int);
            let ghost next = before + operations@.take(i + 1);
            proof {
                assert(next =~= done.push(operations@[i as int]));
            }
            let fails = match operation.failure {
                FailureLaw::NoFailure => false,
                _ => true,
            };
            let suspending = match operation.effect {
                EffectBoundary::Suspension => true,
                _ => false,
            };
            let transferring = match operation.effect {
                EffectBoundary::Ownership => true,
                _ => false,
            };
            let impure = match operation.effect {
                EffectBoundary::BuildConstruction | EffectBoundary::Suspension => true,
                _ => false,
            };
            proof {
                let last = next.len() - 1;
                assert(next[last] == operations@[i as int]);
                assert forall|j: int| 0 <= j < done.len() implies #[trigger] next[j] == done[j] by {}
                if fails {
                    assert(next[last].failure != FailureLaw::NoFailure);
                }
                if suspending {
                    assert(next[last].effect == EffectBoundary::Suspension);
                }
                if transferring {
                    assert(next[last].effect == EffectBoundary::Ownership);
                }
                if impure {
                    assert(impure_effect(next[last].effect));
                }
                if may_panic {
                    let j = choose|j: int| 0 <= j < done.len() && #[trigger] done[j].failure != FailureLaw::NoFailure;
                    assert(next[j] == done[j]);
                }
                if suspends {
                    let j = choose|j: int| 0 <= j < done.len() && #[trigger] done[j].effect == EffectBoundary::Suspension;
                    assert(next[j] == done[j]);
                }
                if ownership_transfer {
                    let j = choose|j: int| 0 <= j < done.len() && #[trigger] done[j].effect == EffectBoundary::Ownership;
                    assert(next[j] == done[j]);
                }
                if !pure {
                    let j = choose|j: int| 0 <= j < done.len() && impure_effect(#[trigger] done[j].effect);
                    assert(next[j] == done[j]);
                }
            }
            may_panic = may_panic || fails;
            suspends = suspends || suspending;
            ownership_transfer = ownership_transfer || transferring;
            pure = pure && !impure;
            i = i + 1;
        }
        proof {
            assert(operations@.take(operations@.len() as int) =~= operations@);
            assert(regions@.take(r + 1).drop_last() =~= regions@.take(r as int));
        }
        r = r + 1;
    }
    proof {
        assert(regions@.take(regions@.len() as int) =~= regions@);
    }
    ExecutableFacts { pure, may_panic, suspends, ownership_transfer, evaluator_eligible: pure && !suspends }
}

/// A flag as one byte.
pub open spec fn flag_byte(flag: bool) -> u8 {
    if flag {
        1
    } else {
        0
    }
}

/// The encoding of a source range: its length-framed path, then its offsets.
pub open spec fn source_bytes(source: SourceRangeView) -> Seq<u8> {
    part(encode_utf8(source.path)) + be_u64(source.start) + be_u64(source.end)
}

/// The number an operation's result is encoded as: its value number, or `u32::MAX`.
pub open spec fn result_number(result: Option<u32>) -> u32 {
    match result {
        Some(value) => value,
        None => 0xffff_ffff,
    }
}

/// An optional identity, with zero for none.
pub open spec fn identity_or_zero(identity: Option<u128>) -> u128 {
    match identity {
        Some(identity) => identity,
        None => 0,
    }
}

/// The encoding of an operation: identity, tags, result, type, operands, successors and
/// details (lists separated by `|`), and provenance.
pub open spec fn operation_bytes(operation: Operation) -> Seq<u8> {
    be_u32(operation.identity) + seq![
        core_operation_kind_tag(operation.kind),
        effect_boundary_tag(operation.effect),
        failure_law_tag(operation.failure),
    ] + be_u32(result_number(operation.result)) + be_u128(identity_or_zero(operation.type_identity))
        + encode_each(operation.operands@, |value: u32| be_u32(value)) + seq![0x7cu8] + encode_each(
        operation.successors@,
        |region: u32| be_u32(region),
    ) + seq![0x7cu8] + encode_each(operation.details@, |detail: u128| be_u128(detail)) + source_bytes(
        operation.provenance@,
    )
}

/// The encoding of a region: its number, then its operations.
pub open spec fn region_bytes(region: Region) -> Seq<u8> {
    be_u32(region.identity) + encode_each(region.operations@, |operation: Operation| operation_bytes(operation))
}

/// The encoding of a core executable: its header, then its regions.
pub open spec fn executable_bytes(executable: CoreExecutable) -> Seq<u8> {
    executable_header_bytes(executable) + encode_each(executable.regions@, |region: Region| region_bytes(region))
}

/// The encoding of what a core executable holds besides its regions: what it realizes,
/// its owner, provenance and shape, then its facts.
pub open spec fn executable_header_bytes(executable: CoreExecutable) -> Seq<u8> {
    reference_bytes(executable.reference) + be_u128(executable.semantic_owner) + source_bytes(
        executable.provenance@,
    ) + shape_bytes(executable) + facts_bytes(executable.facts)
}

/// The encoding of an executable reference: kind tag, context, identity, current meaning.
pub open spec fn reference_bytes(reference: ExecutableReference) -> Seq<u8> {
    seq![core_executable_kind_tag(reference.kind)] + be_u128(reference.context) + be_u128(reference.identity)
        + be_u128(reference.current_meaning)
}

/// The encoding of an executable's entry region, parameter count and source definition.
pub open spec fn shape_bytes(executable: CoreExecutable) -> Seq<u8> {
    be_u32(executable.entry) + be_u64(executable.parameter_count as u64) + be_u128(
        identity_or_zero(executable.source_definition),
    )
}

/// The encoding of executable facts, one byte per flag.
pub open spec fn facts_bytes(facts: ExecutableFacts) -> Seq<u8> {
    seq![
        flag_byte(facts.pure),
        flag_byte(facts.may_panic),
        flag_byte(facts.suspends),
        flag_byte(facts.ownership_transfer),
        flag_byte(facts.evaluator_eligible),
    ]
}

/// The fingerprint of a core executable.
pub open spec fn executable_fingerprint(executable: CoreExecutable) -> u128 {
    xxh3_128_digest(encode_utf8("wrela.core.executable\0\x01"@) + executable_bytes(executable))
}

/// Appends the encoding of a source range.
pub(crate) fn push_source(bytes: &mut Vec<u8>, source: &SourceRange)
    ensures
        final(bytes)@ == old(bytes)@ + source_bytes(source@),
{
    push_part(bytes, source.path().as_bytes());
    push_u64(bytes, source.start());
    push_u64(bytes, source.end());
    proof {
        assert(final(bytes)@ =~= old(bytes)@ + source_bytes(source@));
    }
}

/// Appends each number in big-endian order.
fn push_numbers(bytes: &mut Vec<u8>, numbers: &Vec<u32>)
    ensures
        final(bytes)@ == old(bytes)@ + encode_each(numbers@, |value: u32| be_u32(value)),
{
    let ghost start = bytes@;
    let mut i: usize = 0;
    proof {
        assert(numbers@.take(0) =~= Seq::<u32>::empty());
        assert(start + encode_each(numbers@.take(0), |value: u32| be_u32(value)) =~= start);
    }
    while i < numbers.len()
        invariant
            i <= numbers@.len(),
            bytes@ == start + encode_each(numbers@.take(i as int), |value: u32| be_u32(value)),
        decreases numbers@.len() - i,
    {
        push_u32(bytes, numbers[i]);
        proof {
            lemma_encode_each_step(numbers@, |value: u32| be_u32(value), i as int);
            assert(bytes@ =~= start + encode_each(numbers@.take(i + 1), |value: u32| be_u32(value)));
        }
        i = i + 1;
    }
    proof {
        assert(numbers@.take(i as int) =~= numbers@);
    }
}

/// Appends each detail in big-endian order.
fn push_details(bytes: &mut Vec<u8>, details: &Vec<u128>)
    ensures
        final(bytes)@ == old(bytes)@ + encode_each(details@, |detail: u128| be_u128(detail)),
{
    let ghost start = bytes@;
    let mut i: usize = 0;
    proof {
        assert(details@.take(0) =~= Seq::<u128>::empty());
        assert(start + encode_each(details@.take(0), |detail: u128| be_u128(detail)) =~= start);
    }
    while i < details.len()
        invariant
            i <= details@.len(),
            bytes@ == start + encode_each(details@.take(i as int), |detail: u128| be_u128(detail)),
        decreases details@.len() - i,
    {
        push_u128(bytes, details[i]);
        proof {
            lemma_encode_each_step(details@, |detail: u128| be_u128(detail), i as int);
            assert(bytes@ =~= start + encode_each(details@.take(i + 1), |detail: u128| be_u128(detail)));
        }
        i = i + 1;
    }
    proof {
        assert(details@.take(i as int) =~= details@);
    }
}

/// Appends the encoding of an operation.
#[verifier::rlimit(40)]
fn push_operation(bytes: &mut Vec<u8>, operation: &Operation)
    ensures
        final(bytes)@ == old(bytes)@ + operation_bytes(*operation),
{
    let ghost start = bytes@;
    push_u32(bytes, operation.identity);
    push_u8(bytes, operation.kind.tag());
    push_u8(bytes, operation.effect.tag());
    push_u8(bytes, operation.failure.tag());
    push_u32(bytes, match operation.result {
        Some(value) => value,
        None => 0xffff_ffff,
    });
    push_u128(bytes, match operation.type_identity {
        Some(identity) => identity,
        None => 0,
    });
    push_numbers(bytes, &operation.operands);
    push_u8(bytes, 0x7c);
    push_numbers(bytes, &operation.successors);
    push_u8(bytes, 0x7c);
    push_details(bytes, &operation.details);
    push_source(bytes, &operation.provenance);
    proof {
        assert(bytes@ =~= start + operation_bytes(*operation));
    }
}

/// Appends the encoding of a region.
fn push_region(bytes: &mut Vec<u8>, region: &Region)
    ensures
        final(bytes)@ == old(bytes)@ + region_bytes(*region),
{
    let ghost start = bytes@;
    push_u32(bytes, region.identity);
    let ghost header = bytes@;
    let mut i: usize = 0;
    proof {
        assert(region.operations@.take(0) =~= Seq::<Operation>::empty());
        assert(header + encode_each(region.operations@.take(0), |operation: Operation| operation_bytes(operation)) =~= header);
    }
    while i < region.operations.len()
        invariant
            i <= region.operations@.len(),
            bytes@ == header + encode_each(region.operations@.take(i as int), |operation: Operation| operation_bytes(operation)),
        decreases region.operations@.len() - i,
    {
        push_operation(bytes, &region.operations[i]);
        proof {
            lemma_encode_each_step(region.operations@, |operation: Operation| operation_bytes(operation), i as int);
            assert(bytes@ =~= header + encode_each(region.operations@.take(i + 1), |operation: Operation| operation_bytes(operation)));
        }
        i = i + 1;
    }
    proof {
        assert(region.operations@.take(i as int) =~= region.operations@);
        assert(bytes@ =~= start + region_bytes(*region));
    }
}

/// Appends the encoding of an executable reference.
fn push_reference(bytes: &mut Vec<u8>, reference: &ExecutableReference)
    ensures
        final(bytes)@ == old(bytes)@ + reference_bytes(*reference),
{
    let ghost start = bytes@;
    push_u8(bytes, reference.kind.tag());
    push_u128(bytes, reference.context);
    push_u128(bytes, reference.identity);
    push_u128(bytes, reference.current_meaning);
    proof {
        assert(bytes@ =~= start + reference_bytes(*reference));
    }
}

/// Appends the encoding of an executable's entry, parameter count and source definition.
fn push_shape(bytes: &mut Vec<u8>, executable: &CoreExecutable)
    ensures
        final(bytes)@ == old(bytes)@ + shape_bytes(*executable),
{
    let ghost start = bytes@;
    push_u32(bytes, executable.entry);
    push_u64(bytes, executable.parameter_count as u64);
    push_u128(bytes, match executable.source_definition {
        Some(identity) => identity,
        None => 0,
    });
    proof {
        assert(bytes@ =~= start + shape_bytes(*executable));
    }
}

/// Appends the encoding of executable facts.
fn push_facts(bytes: &mut Vec<u8>, facts: &ExecutableFacts)
    ensures
        final(bytes)@ == old(bytes)@ + facts_bytes(*facts),
{
    let ghost start = bytes@;
    push_u8(bytes, if facts.pure { 1 } else { 0 });
    push_u8(bytes, if facts.may_panic { 1 } else { 0 });
    push_u8(bytes, if facts.suspends { 1 } else { 0 });
    push_u8(bytes, if facts.ownership_transfer { 1 } else { 0 });
    push_u8(bytes, if facts.evaluator_eligible { 1 } else { 0 });
    proof {
        assert(bytes@ =~= start + facts_bytes(*facts));
    }
}

/// Appends the header of a core executable.
fn push_executable_header(bytes: &mut Vec<u8>, executable: &CoreExecutable)
    ensures
        final(bytes)@ == old(bytes)@ + executable_header_bytes(*executable),
{
    let ghost start = bytes@;
    push_reference(bytes, &executable.reference);
    push_u128(bytes, executable.semantic_owner);
    push_source(bytes, &executable.provenance);
    push_shape(bytes, executable);
    push_facts(bytes, &executable.facts);
    proof {
        assert(bytes@ =~= start + executable_header_bytes(*executable));
    }
}

/// Appends the encoding of each region.
fn push_regions(bytes: &mut Vec<u8>, regions: &Vec<Region>)
    ensures
        final(bytes)@ == old(bytes)@ + encode_each(regions@, |region: Region| region_bytes(region)),
{
    let ghost start = bytes@;
    let mut r: usize = 0;
    proof {
        assert(regions@.take(0) =~= Seq::<Region>::empty());
        assert(start + encode_each(regions@.take(0), |region: Region| region_bytes(region)) =~= start);
    }
    while r < regions.len()
        invariant
            r <= regions@.len(),
            bytes@ == start + encode_each(regions@.take(r as int), |region: Region| region_bytes(region)),
        decreases regions@.len() - r,
    {
        push_region(bytes, &regions[r]);
        proof {
            lemma_encode_each_step(regions@, |region: Region| region_bytes(region), r as int);
            assert(bytes@ =~= start + encode_each(regions@.take(r + 1), |region: Region| region_bytes(region)));
        }
        r = r + 1;
    }
    proof {
        assert(regions@.take(r as int) =~= regions@);
    }
}

/// The producer's fingerprint of a core executable.
pub fn producer_executable_fingerprint(executable: &CoreExecutable) -> (fingerprint: u128)
    ensures
        fingerprint == executable_fingerprint(*executable),
{
    let mut bytes: Vec<u8> = Vec::new();
    push_slice(&mut bytes, "wrela.core.executable\0\x01".as_bytes());
    push_executable_header(&mut bytes, executable);
    push_regions(&mut bytes, &executable.regions);
    proof {
        assert(bytes@ =~= encode_utf8("wrela.core.executable\0\x01"@) + executable_bytes(*executable));
    }
    xxh3_128(bytes.as_slice())
}

/// The verifier's encoding of a source range.
fn verifier_encode_source(encoding: &mut VerificationEncoding, source: &SourceRange)
    ensures
        final(encoding)@ == old(encoding)@ + source_bytes(source@),
{
    let ghost start = encoding@;
    encoding.part(source.path().as_bytes());
    encoding.u64(source.start());
    encoding.u64(source.end());
    proof {
        assert(encoding@ =~= start + source_bytes(source@));
    }
}

/// The verifier's encoding of numbers in big-endian order.
fn verifier_encode_numbers(encoding: &mut VerificationEncoding, numbers: &Vec<u32>)
    ensures
        final(encoding)@ == old(encoding)@ + encode_each(numbers@, |value: u32| be_u32(value)),
{
    let ghost start = encoding@;
    let mut i: usize = 0;
    proof {
        assert(numbers@.take(0) =~= Seq::<u32>::empty());
        assert(start + encode_each(numbers@.take(0), |value: u32| be_u32(value)) =~= start);
    }
    while i < numbers.len()
        invariant
            i <= numbers@.len(),
            encoding@ == start + encode_each(numbers@.take(i as int), |value: u32| be_u32(value)),
        decreases numbers@.len() - i,
    {
        encoding.u32(numbers[i]);
        proof {
            lemma_encode_each_step(numbers@, |value: u32| be_u32(value), i as int);
            assert(encoding@ =~= start + encode_each(numbers@.take(i + 1), |value: u32| be_u32(value)));
        }
        i = i + 1;
    }
    proof {
        assert(numbers@.take(i as int) =~= numbers@);
    }
}

/// The verifier's encoding of details in big-endian order.
fn verifier_encode_details(encoding: &mut VerificationEncoding, details: &Vec<u128>)
    ensures
        final(encoding)@ == old(encoding)@ + encode_each(details@, |detail: u128| be_u128(detail)),
{
    let ghost start = encoding@;
    let mut i: usize = 0;
    proof {
        assert(details@.take(0) =~= Seq::<u128>::empty());
        assert(start + encode_each(details@.take(0), |detail: u128| be_u128(detail)) =~= start);
    }
    while i < details.len()
        invariant
            i <= details@.len(),
            encoding@ == start + encode_each(details@.take(i as int), |detail: u128| be_u128(detail)),
        decreases details@.len() - i,
    {
        encoding.u128(details[i]);
        proof {
            lemma_encode_each_step(details@, |detail: u128| be_u128(detail), i as int);
            assert(encoding@ =~= start + encode_each(details@.take(i + 1), |detail: u128| be_u128(detail)));
        }
        i = i + 1;
    }
    proof {
        assert(details@.take(i as int) =~= details@);
    }
}

/// The verifier's encoding of an operation.
#[verifier::rlimit(40)]
fn verifier_encode_operation(encoding: &mut VerificationEncoding, operation: &Operation)
    ensures
        final(encoding)@ == old(encoding)@ + operation_bytes(*operation),
{
    let ghost start = encoding@;
    encoding.u32(operation.identity);
    encoding.byte(operation.kind.tag());
    encoding.byte(operation.effect.tag());
    encoding.byte(operation.failure.tag());
    encoding.u32(match operation.result {
        Some(value) => value,
        None => 0xffff_ffff,
    });
    encoding.u128(match operation.type_identity {
        Some(identity) => identity,
        None => 0,
    });
    verifier_encode_numbers(encoding, &operation.operands);
    encoding.byte(0x7c);
    verifier_encode_numbers(encoding, &operation.successors);
    encoding.byte(0x7c);
    verifier_encode_details(encoding, &operation.details);
    verifier_encode_source(encoding, &operation.provenance);
    proof {
        assert(encoding@ =~= start + operation_bytes(*operation));
    }
}

/// The verifier's encoding of a region.
fn verifier_encode_region(encoding: &mut VerificationEncoding, region: &Region)
    ensures
        final(encoding)@ == old(encoding)@ + region_bytes(*region),
{
    let ghost start = encoding@;
    encoding.u32(region.identity);
    let ghost header = encoding@;
    let mut i: usize = 0;
    proof {
        assert(region.operations@.take(0) =~= Seq::<Operation>::empty());
        assert(header + encode_each(region.operations@.take(0), |operation: Operation| operation_bytes(operation)) =~= header);
    }
    while i < region.operations.len()
        invariant
            i <= region.operations@.len(),
            encoding@ == header + encode_each(region.operations@.take(i as int), |operation: Operation| operation_bytes(operation)),
        decreases region.operations@.len() - i,
    {
        verifier_encode_operation(encoding, &region.operations[i]);
        proof {
            lemma_encode_each_step(region.operations@, |operation: Operation| operation_bytes(operation), i as int);
            assert(encoding@ =~= header + encode_each(region.operations@.take(i + 1), |operation: Operation| operation_bytes(operation)));
        }
        i = i + 1;
    }
    proof {
        assert(region.operations@.take(i as int) =~= region.operations@);
        assert(encoding@ =~= start + region_bytes(*region));
    }
}

/// The verifier's encoding of a core executable: its header, then its regions.
fn verifier_encode_executable(encoding: &mut VerificationEncoding, executable: &CoreExecutable)
    ensures
        final(encoding)@ == old(encoding)@ + executable_bytes(*executable),
{
    let ghost start = encoding@;
    let reference = executable.reference;
    encoding.byte(reference.kind.tag());
    encoding.u128(reference.context);
    encoding.u128(reference.identity);
    encoding.u128(reference.current_meaning);
    proof {
        assert(encoding@ =~= start + reference_bytes(reference));
    }
    encoding.u128(executable.semantic_owner);
    verifier_encode_source(encoding, &executable.provenance);
    let ghost located = encoding@;
    encoding.u32(executable.entry);
    encoding.u64(executable.parameter_count as u64);
    encoding.u128(match executable.source_definition {
        Some(identity) => identity,
        None => 0,
    });
    proof {
        assert(encoding@ =~= located + shape_bytes(*executable));
    }
    let ghost shaped = encoding@;
    let facts = executable.facts;
    encoding.byte(if facts.pure { 1 } else { 0 });
    encoding.byte(if facts.may_panic { 1 } else { 0 });
    encoding.byte(if facts.suspends { 1 } else { 0 });
    encoding.byte(if facts.ownership_transfer { 1 } else { 0 });
    encoding.byte(if facts.evaluator_eligible { 1 } else { 0 });
    proof {
        assert(encoding@ =~= shaped + facts_bytes(facts));
        assert(encoding@ =~= start + executable_header_bytes(*executable));
    }
    let ghost header = encoding@;
    let mut r: usize = 0;
    proof {
        assert(executable.regions@.take(0) =~= Seq::<Region>::empty());
        assert(header + encode_each(executable.regions@.take(0), |region: Region| region_bytes(region)) =~= header);
    }
    while r < executable.regions.len()
        invariant
            r <= executable.regions@.len(),
            encoding@ == header + encode_each(executable.regions@.take(r as int), |region: Region| region_bytes(region)),
        decreases executable.regions@.len() - r,
    {
        verifier_encode_region(encoding, &executable.regions[r]);
        proof {
            lemma_encode_each_step(executable.regions@, |region: Region| region_bytes(region), r as int);
            assert(encoding@ =~= header + encode_each(executable.regions@.take(r + 1), |region: Region| region_bytes(region)));
        }
        r = r + 1;
    }
    proof {
        assert(executable.regions@.take(r as int) =~= executable.regions@);
        assert(encoding@ =~= start + executable_bytes(*executable));
    }
}

/// The verifier's fingerprint of a core executable, from its own encoder.
pub fn verifier_executable_fingerprint(executable: &CoreExecutable) -> (fingerprint: u128)
    ensures
        fingerprint == executable_fingerprint(*executable),
{
    let mut encoding = VerificationEncoding::new();
    encoding.bytes("wrela.core.executable\0\x01".as_bytes());
    verifier_encode_executable(&mut encoding, executable);
    proof {
        assert(encoding@ =~= encode_utf8("wrela.core.executable\0\x01"@) + executable_bytes(*executable));
    }
    encoding.finish()
}

/// The oracle's summary: how many cases it compared with the evaluator, whether every case
/// agreed, and the digest of the outcomes.
#[derive(Clone, Copy, Debug, PartialEq, Eq, Structural)]
pub struct OracleSummary {
    pub cases: usize,
    pub agrees: bool,
    pub fingerprint: u128,
}

/// Why the core phase stopped: the host cancelled it, or a check found a defect.
#[derive(Clone, Debug, PartialEq, Eq)]
pub enum CoreFailure {
    Cancelled,
    Defect(String),
}

/// A core program: the context and planning input it was derived for, the identity of the
/// source executable demand, its executables in canonical order, the oracle's summary and
/// its fingerprint.
#[derive(Clone, Debug)]
pub struct CoreProgram {
    pub context: u128,
    pub planning_fingerprint: u128,
    pub source_demand_identity: u128,
    pub executables: Vec<CoreExecutable>,
    pub oracle: OracleSummary,
    pub fingerprint: u128,
}

/// The bytes a program fingerprint is the digest of, given the fingerprints of its
/// executables: schema, schema version, context, planning fingerprint, demand identity,
/// the executable fingerprints in order, then the oracle's summary.
pub open spec fn program_bytes(program: CoreProgram, executable_fingerprints: Seq<u128>) -> Seq<u8> {
    encode_utf8(core_phase_schema()) + be_u16(1) + be_u128(program.context) + be_u128(program.planning_fingerprint)
        + be_u128(program.source_demand_identity) + encode_each(
        executable_fingerprints,
        |fingerprint: u128| be_u128(fingerprint),
    ) + be_u64(program.oracle.cases as u64) + seq![flag_byte(program.oracle.agrees)] + be_u128(
        program.oracle.fingerprint,
    )
}

/// The fingerprint of a program over the given executable fingerprints.
pub open spec fn program_fingerprint(program: CoreProgram, executable_fingerprints: Seq<u128>) -> u128 {
    xxh3_128_digest(program_bytes(program, executable_fingerprints))
}

/// The fingerprints the executables carry.
pub open spec fn stored_fingerprints(executables: Seq<CoreExecutable>) -> Seq<u128> {
    executables.map_values(|executable: CoreExecutable| executable.fingerprint)
}

/// The fingerprints the executables' contents give.
pub open spec fn recomputed_fingerprints(executables: Seq<CoreExecutable>) -> Seq<u128> {
    executables.map_values(|executable: CoreExecutable| executable_fingerprint(executable))
}

/// Whether every executable carries the fingerprint of its contents.
pub open spec fn executables_sealed(executables: Seq<CoreExecutable>) -> bool {
    forall|i: int| 0 <= i < executables.len() ==> #[trigger] executables[i].fingerprint == executable_fingerprint(executables[i])
}

/// The producer's program fingerprint, over the fingerprints the executables carry. A
/// cancelled production answers `Cancelled`.
pub fn producer_fingerprint(candidate: &CoreProgram, cancellation: &Cancellation) -> (result: Result<u128, CoreFailure>)
    ensures
        match result {
            Ok(fingerprint) => fingerprint == program_fingerprint(*candidate, stored_fingerprints(candidate.executables@)),
            Err(failure) => failure == CoreFailure::Cancelled,
        },
        candidate.executables@.len() == 0 ==> result is Ok,
{
    let mut bytes: Vec<u8> = Vec::new();
    push_slice(&mut bytes, "wrela.core.v1".as_bytes());
    push_u16(&mut bytes, 1);
    push_u128(&mut bytes, candidate.context);
    push_u128(&mut bytes, candidate.planning_fingerprint);
    push_u128(&mut bytes, candidate.source_demand_identity);
    let ghost start = bytes@;
    let ghost stored = stored_fingerprints(candidate.executables@);
    let mut i: usize = 0;
    proof {
        assert(stored.take(0) =~= Seq::<u128>::empty());
        assert(start + encode_each(stored.take(0), |fingerprint: u128| be_u128(fingerprint)) =~= start);
    }
    while i < candidate.executables.len()
        invariant
            i <= candidate.executables@.len(),
            stored == stored_fingerprints(candidate.executables@),
            bytes@ == start + encode_each(stored.take(i as int), |fingerprint: u128| be_u128(fingerprint)),
        decreases candidate.executables@.len() - i,
    {
        if cancellation.is_cancelled() {
            return Err(CoreFailure::Cancelled);
        }
        push_u128(&mut bytes, candidate.executables[i].fingerprint);
        proof {
            lemma_encode_each_step(stored, |fingerprint: u128| be_u128(fingerprint), i as int);
            assert(bytes@ =~= start + encode_each(stored.take(i + 1), |fingerprint: u128| be_u128(fingerprint)));
        }
        i = i + 1;
    }
    let ghost listed = bytes@;
    push_u64(&mut bytes, candidate.oracle.cases as u64);
    push_u8(&mut bytes, if candidate.oracle.agrees { 1 } else { 0 });
    push_u128(&mut bytes, candidate.oracle.fingerprint);
    proof {
        assert(stored.take(i as int) =~= stored);
        assert(bytes@ =~= program_bytes(*candidate, stored));
    }
    Ok(xxh3_128(bytes.as_slice()))
}

/// The verifier's program fingerprint: it recomputes each executable's fingerprint from
/// its contents with its own encoder. A cancelled verification answers `Cancelled`.
pub fn verifier_fingerprint(candidate: &CoreProgram, cancellation: &Cancellation) -> (result: Result<u128, CoreFailure>)
    ensures
        match result {
            Ok(fingerprint) => fingerprint == program_fingerprint(*candidate, recomputed_fingerprints(candidate.executables@)),
            Err(failure) => failure == CoreFailure::Cancelled,
        },
        candidate.executables@.len() == 0 ==> result is Ok,
{
    let mut encoding = VerificationEncoding::new();
    encoding.bytes("wrela.core.v1".as_bytes());
    encoding.u16(1);
    encoding.u128(candidate.context);
    encoding.u128(candidate.planning_fingerprint);
    encoding.u128(candidate.source_demand_identity);
    let ghost start = encoding@;
    let ghost recomputed = recomputed_fingerprints(candidate.executables@);
    let mut i: usize = 0;
    proof {
        assert(recomputed.take(0) =~= Seq::<u128>::empty());
        assert(start + encode_each(recomputed.take(0), |fingerprint: u128| be_u128(fingerprint)) =~= start);
    }
    while i < candidate.executables.len()
        invariant
            i <= candidate.executables@.len(),
            recomputed == recomputed_fingerprints(candidate.executables@),
            encoding@ == start + encode_each(recomputed.take(i as int), |fingerprint: u128| be_u128(fingerprint)),
        decreases candidate.executables@.len() - i,
    {
        if cancellation.is_cancelled() {
            return Err(CoreFailure::Cancelled);
        }
        let fingerprint = verifier_executable_fingerprint(&candidate.executables[i]);
        encoding.u128(fingerprint);
        proof {
            lemma_encode_each_step(recomputed, |fingerprint: u128| be_u128(fingerprint), i as int);
            assert(encoding@ =~= start + encode_each(recomputed.take(i + 1), |fingerprint: u128| be_u128(fingerprint)));
        }
        i = i + 1;
    }
    encoding.u64(candidate.oracle.cases as u64);
    encoding.byte(if candidate.oracle.agrees { 1 } else { 0 });
    encoding.u128(candidate.oracle.fingerprint);
    proof {
        assert(recomputed.take(i as int) =~= recomputed);
        assert(encoding@ =~= program_bytes(*candidate, recomputed));
    }
    Ok(encoding.finish())
}

/// A program whose executables each carry the fingerprint of their contents has one
/// fingerprint: the producer's, over the carried fingerprints, equals the verifier's, over
/// the recomputed ones.
pub proof fn lemma_sealed_program_fingerprints_agree(program: CoreProgram)
    requires
        executables_sealed(program.executables@),
    ensures
        program_fingerprint(program, stored_fingerprints(program.executables@)) == program_fingerprint(
            program,
            recomputed_fingerprints(program.executables@),
        ),
{
    assert(stored_fingerprints(program.executables@) =~= recomputed_fingerprints(program.executables@));
}

/// The operations of regions in order, each with the number of its region.
pub open spec fn located_operations(regions: Seq<Region>) -> Seq<(u32, Operation)>
    decreases regions.len(),
{
    if regions.len() == 0 {
        Seq::empty()
    } else {
        located_operations(regions.drop_last()) + regions.last().operations@.map_values(
            |operation: Operation| (regions.last().identity, operation),
        )
    }
}

/// Locating the operations of two runs of regions one after the other.
proof fn lemma_located_append(first: Seq<Region>, second: Seq<Region>)
    ensures
        located_operations(first + second) == located_operations(first) + located_operations(second),
    decreases second.len(),
{
    if second.len() == 0 {
        assert(first + second =~= first);
        assert(located_operations(first) + located_operations(second) =~= located_operations(first));
    } else {
        assert((first + second).drop_last() =~= first + second.drop_last());
        assert((first + second).last() == second.last());
        lemma_located_append(first, second.drop_last());
        assert(located_operations(first + second) =~= located_operations(first) + located_operations(second));
    }
}

/// Where the `index`th operation of the `region`th region stands among located operations.
pub(crate) proof fn lemma_located_index(regions: Seq<Region>, region: int, index: int)
    requires
        0 <= region < regions.len(),
        0 <= index < regions[region].operations@.len(),
    ensures
        located_operations(regions.take(region)).len() + index < located_operations(regions).len(),
        located_operations(regions)[located_operations(regions.take(region)).len() + index] == (
            regions[region].identity,
            regions[region].operations@[index],
        ),
        located_operations(regions.take(region + 1)).len() == located_operations(regions.take(region)).len()
            + regions[region].operations@.len(),
{
    let front = regions.take(region + 1);
    assert(front.drop_last() =~= regions.take(region));
    assert(front.last() == regions[region]);
    lemma_located_append(front, regions.skip(region + 1));
    assert(front + regions.skip(region + 1) =~= regions);
}

/// Whether the `k`th located operation reuses the identity of an earlier one.
pub open spec fn reuses_identity(operations: Seq<(u32, Operation)>, k: int) -> bool {
    exists|j: int| 0 <= j < k && #[trigger] operations[j].1.identity == operations[k].1.identity
}

/// Whether an earlier located operation produces the value numbered `value`.
pub open spec fn produced_before(operations: Seq<(u32, Operation)>, k: int, value: u32) -> bool {
    exists|j: int| 0 <= j < k && #[trigger] operations[j].1.result == Some(value)
}

/// Whether the `k`th located operation produces a value an earlier one produces.
pub open spec fn reuses_result(operations: Seq<(u32, Operation)>, k: int) -> bool {
    match operations[k].1.result {
        Some(value) => produced_before(operations, k, value),
        None => false,
    }
}

/// Whether the `k`th located operation duplicates an identity.
pub open spec fn duplicates_at(operations: Seq<(u32, Operation)>, k: int) -> bool {
    reuses_identity(operations, k) || reuses_result(operations, k)
}

/// Whether a successor of the `k`th located operation names no region of the
/// `region_count` regions, or a region that does not come after its own.
pub open spec fn dangles_at(operations: Seq<(u32, Operation)>, region_count: int, k: int) -> bool {
    exists|s: int|
        0 <= s < operations[k].1.successors@.len() && (#[trigger] operations[k].1.successors@[s] >= region_count
            || operations[k].1.successors@[s] <= operations[k].0)
}

/// Whether the located operations before the `k`th duplicate nothing and dangle nowhere.
pub open spec fn sound_before(operations: Seq<(u32, Operation)>, region_count: int, k: int) -> bool {
    forall|j: int|
        #![trigger duplicates_at(operations, j)]
        #![trigger dangles_at(operations, region_count, j)]
        0 <= j < k ==> !duplicates_at(operations, j) && !dangles_at(operations, region_count, j)
}

/// The defect the walk over located operations finds: the first operation that duplicates
/// decides, as a duplicate if it duplicates and as a dangling target otherwise.
pub open spec fn walk_defect(operations: Seq<(u32, Operation)>, region_count: int) -> Option<GraphDefect> {
    if exists|k: int|
        0 <= k < operations.len() && #[trigger] duplicates_at(operations, k) && sound_before(operations, region_count, k) {
        Some(GraphDefect::DuplicateIdentities)
    } else if exists|k: int|
        0 <= k < operations.len() && #[trigger] dangles_at(operations, region_count, k) && sound_before(
            operations,
            region_count,
            k,
        ) {
        Some(GraphDefect::DanglingControlTarget)
    } else {
        None
    }
}

/// Whether some located operation reads a value that no operation produces.
pub open spec fn reads_unproduced(operations: Seq<(u32, Operation)>) -> bool {
    exists|k: int, o: int|
        0 <= k < operations.len() && 0 <= o < operations[k].1.operands@.len() && !produced_before(
            operations,
            operations.len() as int,
            #[trigger] operations[k].1.operands@[o],
        )
}

/// What is wrong with the control and value graph of a core executable.
#[derive(Clone, Copy, Debug, PartialEq, Eq, Structural)]
pub enum GraphDefect {
    NoCanonicalEntry,
    NoncanonicalRegions,
    DuplicateIdentities,
    DanglingControlTarget,
    InvalidValueReference,
}

/// The evidence a graph defect is reported with.
pub open spec fn graph_defect_message(defect: GraphDefect) -> Seq<char> {
    match defect {
        GraphDefect::NoCanonicalEntry => "Core control flow has no canonical entry region"@,
        GraphDefect::NoncanonicalRegions => "Core control flow has duplicate or noncanonical regions"@,
        GraphDefect::DuplicateIdentities => "Core operation graph has duplicate identities"@,
        GraphDefect::DanglingControlTarget => "Core operation has a dangling or malformed control target"@,
        GraphDefect::InvalidValueReference => "Core operation has an invalid value reference"@,
    }
}

/// The first defect of an executable's graph, in the order the checks are made: the entry
/// must be region zero of a nonempty list; region `i` must be numbered `i`; walking the
/// operations in order, the first that duplicates an identity or a value, or whose successor
/// is not a later region, decides; last, every operand must be produced by some operation.
pub open spec fn executable_graph_defect(executable: CoreExecutable) -> Option<GraphDefect> {
    let regions = executable.regions@;
    let operations = located_operations(regions);
    let count = regions.len() as int;
    if executable.entry != 0 || regions.len() == 0 {
        Some(GraphDefect::NoCanonicalEntry)
    } else if exists|i: int| 0 <= i < regions.len() && #[trigger] regions[i].identity != i {
        Some(GraphDefect::NoncanonicalRegions)
    } else if walk_defect(operations, count) is Some {
        walk_defect(operations, count)
    } else if reads_unproduced(operations) {
        Some(GraphDefect::InvalidValueReference)
    } else {
        None
    }
}

/// The first graph defect among executables, executable by executable.
pub open spec fn program_graph_defect(executables: Seq<CoreExecutable>) -> Option<GraphDefect>
    decreases executables.len(),
{
    if executables.len() == 0 {
        None
    } else {
        match program_graph_defect(executables.drop_last()) {
            Some(defect) => Some(defect),
            None => executable_graph_defect(executables.last()),
        }
    }
}

/// Whether `value` is among `numbers`.
fn holds_number(numbers: &Vec<u32>, value: u32) -> (found: bool)
    ensures
        found == numbers@.contains(value),
{
    let mut i: usize = 0;
    while i < numbers.len()
        invariant
            i <= numbers@.len(),
            forall|j: int| 0 <= j < i ==> numbers@[j] != value,
        decreases numbers@.len() - i,
    {
        if numbers[i] == value {
            proof {
                assert(numbers@[i as int] == value);
            }
            return true;
        }
        i = i + 1;
    }
    false
}

/// Whether some successor names none of `region_count` regions, or a region that does not
/// come after region `own`.
fn has_bad_successor(successors: &Vec<u32>, region_count: usize, own: u32) -> (bad: bool)
    ensures
        bad == exists|s: int|
            0 <= s < successors@.len() && (#[trigger] successors@[s] >= region_count || successors@[s] <= own),
{
    let mut i: usize = 0;
    while i < successors.len()
        invariant
            i <= successors@.len(),
            forall|s: int| 0 <= s < i ==> !(#[trigger] successors@[s] >= region_count || successors@[s] <= own),
        decreases successors@.len() - i,
    {
        let successor = successors[i];
        if successor as usize >= region_count || successor <= own {
            proof {
                assert(successors@[i as int] >= region_count || successors@[i as int] <= own);
            }
            return true;
        }
        i = i + 1;
    }
    false
}

/// Whether every operand is among `values`.
fn all_held(operands: &Vec<u32>, values: &Vec<u32>) -> (held: bool)
    ensures
        held == forall|o: int| 0 <= o < operands@.len() ==> values@.contains(#[trigger] operands@[o]),
{
    let mut i: usize = 0;
    while i < operands.len()
        invariant
            i <= operands@.len(),
            forall|o: int| 0 <= o < i ==> values@.contains(#[trigger] operands@[o]),
        decreases operands@.len() - i,
    {
        if !holds_number(values, operands[i]) {
            return false;
        }
        i = i + 1;
    }
    true
}

/// The failure that reports a graph defect with its evidence.
fn graph_failure(defect: GraphDefect) -> (failure: CoreFailure)
    ensures
        failure matches CoreFailure::Defect(evidence) && evidence@ == graph_defect_message(defect),
{
    let evidence = match defect {
        GraphDefect::NoCanonicalEntry => "Core control flow has no canonical entry region",
        GraphDefect::NoncanonicalRegions => "Core control flow has duplicate or noncanonical regions",
        GraphDefect::DuplicateIdentities => "Core operation graph has duplicate identities",
        GraphDefect::DanglingControlTarget => "Core operation has a dangling or malformed control target",
        GraphDefect::InvalidValueReference => "Core operation has an invalid value reference",
    };
    CoreFailure::Defect(String::from_str(evidence))
}

/// Located operations so far hold exactly these identities.
pub open spec fn identities_before(operations: Seq<(u32, Operation)>, k: int, identities: Seq<u32>) -> bool {
    forall|x: u32| identities.contains(x) <==> exists|j: int| 0 <= j < k && #[trigger] operations[j].1.identity == x
}

/// Located operations so far produce exactly these values.
pub open spec fn values_before(operations: Seq<(u32, Operation)>, k: int, values: Seq<u32>) -> bool {
    forall|x: u32| #[trigger] values.contains(x) <==> produced_before(operations, k, x)
}

/// Walks the located operations of regions in order. Answers the values they produce
/// when none duplicates an identity or a value and every successor names a later region;
/// otherwise the defect of the first operation that does not; or `Cancelled`.
fn walk_operations(regions: &Vec<Region>, cancellation: &Cancellation) -> (result: Result<Vec<u32>, CoreFailure>)
    ensures
        match result {
            Ok(values) => sound_before(
                located_operations(regions@),
                regions@.len() as int,
                located_operations(regions@).len() as int,
            ) && values_before(located_operations(regions@), located_operations(regions@).len() as int, values@),
            Err(CoreFailure::Defect(evidence)) => walk_defect(located_operations(regions@), regions@.len() as int) matches Some(
                defect,
            ) && evidence@ == graph_defect_message(defect),
            Err(CoreFailure::Cancelled) => true,
        },
{
    let ghost operations = located_operations(regions@);
    let ghost count = regions@.len() as int;
    let mut identities: Vec<u32> = Vec::new();
    let mut values: Vec<u32> = Vec::new();
    let ghost mut k: int = 0;
    let mut r: usize = 0;
    proof {
        assert(regions@.take(0) =~= Seq::<Region>::empty());
    }
    while r < regions.len()
        invariant
            r <= regions@.len(),
            operations == located_operations(regions@),
            count == regions@.len(),
            k == located_operations(regions@.take(r as int)).len(),
            sound_before(operations, count, k),
            identities_before(operations, k, identities@),
            values_before(operations, k, values@),
        decreases regions@.len() - r,
    {
        let region = &regions[r];
        let mut i: usize = 0;
        while i < region.operations.len()
            invariant
                r < regions@.len(),
                *region == regions@[r as int],
                i <= region.operations@.len(),
                operations == located_operations(regions@),
                count == regions@.len(),
                k == located_operations(regions@.take(r as int)).len() + i,
                sound_before(operations, count, k),
                identities_before(operations, k, identities@),
                values_before(operations, k, values@),
            decreases region.operations@.len() - i,
        {
            if cancellation.is_cancelled() {
                return Err(CoreFailure::Cancelled);
            }
            let operation = &region.operations[i];
            proof {
                lemma_located_index(regions@, r as int, i as int);
                assert(operations[k] == (region.identity, *operation));
            }
            let seen = holds_number(&identities, operation.identity);
            let repeated = match operation.result {
                Some(value) => holds_number(&values, value),
                None => false,
            };
            if seen || repeated {
                proof {
                    if seen {
                        assert(reuses_identity(operations, k));
                    } else {
                        assert(reuses_result(operations, k));
                    }
                    assert(duplicates_at(operations, k));
                }
                return Err(graph_failure(GraphDefect::DuplicateIdentities));
            }
            proof {
                if reuses_identity(operations, k) {
                    let j = choose|j: int| 0 <= j < k && #[trigger] operations[j].1.identity == operations[k].1.identity;
                    assert(identities@.contains(operation.identity));
                }
                assert(!duplicates_at(operations, k));
            }
            if has_bad_successor(&operation.successors, regions.len(), region.identity) {
                proof {
                    assert(dangles_at(operations, count, k));
                    assert forall|m: int|
                        0 <= m < operations.len() && #[trigger] duplicates_at(operations, m) implies !sound_before(
                        operations,
                        count,
                        m,
                    ) by {
                        if m > k {
                            assert(dangles_at(operations, count, k));
                        }
                    }
                }
                return Err(graph_failure(GraphDefect::DanglingControlTarget));
            }
            let ghost before_identities = identities@;
            let ghost before_values = values@;
            identities.push(operation.identity);
            match operation.result {
                Some(value) => {
                    values.push(value);
                },
                None => {},
            }
            proof {
                assert(!dangles_at(operations, count, k));
                assert forall|x: u32| identities@.contains(x) implies exists|j: int|
                    0 <= j < k + 1 && #[trigger] operations[j].1.identity == x by {
                    if x != operation.identity {
                        assert(before_identities.contains(x));
                    } else {
                        assert(operations[k].1.identity == x);
                    }
                }
                assert forall|x: u32| (exists|j: int| 0 <= j < k + 1 && #[trigger] operations[j].1.identity == x) implies identities@.contains(x) by {
                    let j = choose|j: int| 0 <= j < k + 1 && #[trigger] operations[j].1.identity == x;
                    assert(identities@ =~= before_identities.push(operation.identity));
                    if j < k {
                        assert(before_identities.contains(x));
                        let idx = choose|idx: int| 0 <= idx < before_identities.len() && before_identities[idx] == x;
                        assert(identities@[idx] == x);
                    } else {
                        assert(identities@[identities@.len() - 1] == x);
                    }
                }
                assert forall|x: u32| #[trigger] values@.contains(x) <==> produced_before(operations, k + 1, x) by {
                    match operation.result {
                        Some(value) => {
                            assert(values@ =~= before_values.push(value));
                        },
                        None => {
                            assert(values@ =~= before_values);
                        },
                    }
                    if values@.contains(x) {
                        if before_values.contains(x) {
                            let j = choose|j: int| 0 <= j < k && #[trigger] operations[j].1.result == Some(x);
                            assert(operations[j].1.result == Some(x));
                        } else {
                            assert(operations[k].1.result == Some(x));
                        }
                    }
                    if produced_before(operations, k + 1, x) {
                        let j = choose|j: int| 0 <= j < k + 1 && #[trigger] operations[j].1.result == Some(x);
                        if j < k {
                            assert(produced_before(operations, k, x));
                            assert(before_values.contains(x));
                            let idx = choose|idx: int| 0 <= idx < before_values.len() && before_values[idx] == x;
                            assert(values@[idx] == x);
                        } else {
                            assert(values@[values@.len() - 1] == x);
                        }
                    }
                }
                k = k + 1;
            }
            i = i + 1;
        }
        proof {
            assert(regions@.take(r + 1).drop_last() =~= regions@.take(r as int));
            assert(regions@.take(r + 1).last() == regions@[r as int]);
        }
        r = r + 1;
    }
    proof {
        assert(regions@.take(r as int) =~= regions@);
    }
    Ok(values)
}

/// Whether some operand of some located operation of regions is not among `values`.
fn reads_outside(regions: &Vec<Region>, values: &Vec<u32>) -> (found: bool)
    ensures
        found == exists|k: int, o: int|
            0 <= k < located_operations(regions@).len() && 0 <= o < located_operations(regions@)[k].1.operands@.len()
                && !values@.contains(#[trigger] located_operations(regions@)[k].1.operands@[o]),
{
    let ghost operations = located_operations(regions@);
    let ghost mut k: int = 0;
    let mut r: usize = 0;
    proof {
        assert(regions@.take(0) =~= Seq::<Region>::empty());
    }
    while r < regions.len()
        invariant
            r <= regions@.len(),
            operations == located_operations(regions@),
            k == located_operations(regions@.take(r as int)).len(),
            forall|j: int, o: int|
                0 <= j < k && 0 <= o < operations[j].1.operands@.len() ==> values@.contains(
                    #[trigger] operations[j].1.operands@[o],
                ),
        decreases regions@.len() - r,
    {
        let region = &regions[r];
        let mut i: usize = 0;
        while i < region.operations.len()
            invariant
                r < regions@.len(),
                *region == regions@[r as int],
                i <= region.operations@.len(),
                operations == located_operations(regions@),
                k == located_operations(regions@.take(r as int)).len() + i,
                forall|j: int, o: int|
                    0 <= j < k && 0 <= o < operations[j].1.operands@.len() ==> values@.contains(
                        #[trigger] operations[j].1.operands@[o],
                    ),
            decreases region.operations@.len() - i,
        {
            let operation = &region.operations[i];
            proof {
                lemma_located_index(regions@, r as int, i as int);
                assert(operations[k] == (region.identity, *operation));
            }
            if !all_held(&operation.operands, values) {
                proof {
                    let o = choose|o: int| 0 <= o < operation.operands@.len() && !values@.contains(#[trigger] operation.operands@[o]);
                    assert(!values@.contains(operations[k].1.operands@[o]));
                }
                return true;
            }
            proof {
                k = k + 1;
            }
            i = i + 1;
        }
        proof {
            assert(regions@.take(r + 1).drop_last() =~= regions@.take(r as int));
            assert(regions@.take(r + 1).last() == regions@[r as int]);
        }
        r = r + 1;
    }
    proof {
        assert(regions@.take(r as int) =~= regions@);
    }
    false
}

/// Checks the control and value graph of one executable: answers the first defect in the
/// order of `executable_graph_defect`, or `Cancelled`.
pub(crate) fn check_executable_graph(executable: &CoreExecutable, cancellation: &Cancellation) -> (result: Result<(), CoreFailure>)
    ensures
        match result {
            Ok(()) => executable_graph_defect(*executable) is None,
            Err(CoreFailure::Defect(evidence)) => executable_graph_defect(*executable) matches Some(defect)
                && evidence@ == graph_defect_message(defect),
            Err(CoreFailure::Cancelled) => true,
        },
{
    let regions = &executable.regions;
    let ghost operations = located_operations(regions@);
    let ghost count = regions@.len() as int;
    if executable.entry != 0 || regions.len() == 0 {
        return Err(graph_failure(GraphDefect::NoCanonicalEntry));
    }
    let mut r: usize = 0;
    while r < regions.len()
        invariant
            r <= regions@.len(),
            regions@ == executable.regions@,
            executable.entry == 0,
            regions@.len() > 0,
            forall|i: int| 0 <= i < r ==> #[trigger] regions@[i].identity == i,
        decreases regions@.len() - r,
    {
        if regions[r].identity as usize != r {
            proof {
                assert(regions@[r as int].identity != r);
            }
            return Err(graph_failure(GraphDefect::NoncanonicalRegions));
        }
        r = r + 1;
    }
    let values = match walk_operations(regions, cancellation) {
        Ok(values) => values,
        Err(failure) => {
            return Err(failure);
        },
    };
    proof {
        assert forall|m: int| 0 <= m < operations.len() && #[trigger] duplicates_at(operations, m) implies !sound_before(
            operations,
            count,
            m,
        ) by {}
        assert forall|m: int| 0 <= m < operations.len() && #[trigger] dangles_at(operations, count, m) implies !sound_before(
            operations,
            count,
            m,
        ) by {}
        assert(walk_defect(operations, count) is None);
    }
    if reads_outside(regions, &values) {
        proof {
            let (k, o) = choose|k: int, o: int|
                0 <= k < operations.len() && 0 <= o < operations[k].1.operands@.len() && !values@.contains(
                    #[trigger] operations[k].1.operands@[o],
                );
            assert(!produced_before(operations, operations.len() as int, operations[k].1.operands@[o]));
            assert(reads_unproduced(operations));
        }
        return Err(graph_failure(GraphDefect::InvalidValueReference));
    }
    proof {
        if reads_unproduced(operations) {
            let (k, o) = choose|k: int, o: int|
                0 <= k < operations.len() && 0 <= o < operations[k].1.operands@.len() && !produced_before(
                    operations,
                    operations.len() as int,
                    #[trigger] operations[k].1.operands@[o],
                );
            assert(!values@.contains(operations[k].1.operands@[o]));
        }
    }
    Ok(())
}

/// Checks the control and value graphs of a program's executables, in order: answers the
/// first executable's first defect, or `Cancelled`.
pub fn validate_graphs(candidate: &CoreProgram, cancellation: &Cancellation) -> (result: Result<(), CoreFailure>)
    ensures
        match result {
            Ok(()) => program_graph_defect(candidate.executables@) is None,
            Err(CoreFailure::Defect(evidence)) => program_graph_defect(candidate.executables@) matches Some(defect)
                && evidence@ == graph_defect_message(defect),
            Err(CoreFailure::Cancelled) => true,
        },
        candidate.executables@.len() == 0 ==> result is Ok,
{
    let executables = &candidate.executables;
    let mut i: usize = 0;
    proof {
        assert(executables@.take(0) =~= Seq::<CoreExecutable>::empty());
    }
    while i < executables.len()
        invariant
            i <= executables@.len(),
            executables@ == candidate.executables@,
            program_graph_defect(executables@.take(i as int)) is None,
        decreases executables@.len() - i,
    {
        if cancellation.is_cancelled() {
            return Err(CoreFailure::Cancelled);
        }
        let checked = check_executable_graph(&executables[i], cancellation);
        proof {
            assert(executables@.take(i + 1).drop_last() =~= executables@.take(i as int));
            assert(executables@.take(i + 1).last() == executables@[i as int]);
        }
        match checked {
            Ok(()) => {},
            Err(failure) => {
                proof {
                    if let CoreFailure::Defect(evidence) = &failure {
                        let defect = executable_graph_defect(executables@[i as int])->0;
                        assert(program_graph_defect(executables@.take(i + 1)) == Some(defect));
                        lemma_first_defect_stays(executables@, i + 1);
                        assert(program_graph_defect(candidate.executables@) == Some(defect));
                        assert(evidence@ == graph_defect_message(defect));
                    }
                }
                return Err(failure);
            },
        }
        i = i + 1;
    }
    proof {
        assert(executables@.take(i as int) =~= executables@);
    }
    Ok(())
}

/// A defect among the first `n` executables is the program's first defect.
proof fn lemma_first_defect_stays(executables: Seq<CoreExecutable>, n: int)
    requires
        0 <= n <= executables.len(),
        program_graph_defect(executables.take(n)) is Some,
    ensures
        program_graph_defect(executables) == program_graph_defect(executables.take(n)),
    decreases executables.len() - n,
{
    if n < executables.len() {
        assert(executables.take(n + 1).drop_last() =~= executables.take(n));
        lemma_first_defect_stays(executables, n + 1);
    } else {
        assert(executables.take(n) =~= executables);
    }
}

/// What the observation of a core executable shows of it: its kind, identity, meaning and
/// owner, the kinds of its operations region by region, its region count, whether it may
/// panic and whether it has effects.
pub open spec fn executable_observation_of(executable: CoreExecutable) -> CoreExecutableObservationView {
    CoreExecutableObservationView {
        kind: executable.reference.kind,
        identity: executable.reference.identity,
        current_meaning: executable.reference.current_meaning,
        semantic_owner: executable.semantic_owner,
        operations: all_operations(executable.regions@).map_values(|operation: Operation| operation.kind),
        region_count: executable.regions@.len() as usize,
        may_panic: executable.facts.may_panic,
        effectful: !executable.facts.pure,
    }
}

/// The number of operations that transfer ownership.
pub open spec fn ownership_count(operations: Seq<Operation>) -> nat
    decreases operations.len(),
{
    if operations.len() == 0 {
        0
    } else {
        ownership_count(operations.drop_last()) + if operations.last().effect == EffectBoundary::Ownership {
            1nat
        } else {
            0nat
        }
    }
}

/// The identities of the executables that suspend, in order.
pub open spec fn suspending_identities(executables: Seq<CoreExecutable>) -> Seq<u128>
    decreases executables.len(),
{
    if executables.len() == 0 {
        Seq::empty()
    } else if executables.last().facts.suspends {
        suspending_identities(executables.drop_last()).push(executables.last().reference.identity)
    } else {
        suspending_identities(executables.drop_last())
    }
}

/// The kinds of the operations of regions, region by region.
fn operation_kinds(regions: &Vec<Region>) -> (kinds: Vec<CoreOperationKind>)
    ensures
        kinds@ == all_operations(regions@).map_values(|operation: Operation| operation.kind),
{
    let mut kinds: Vec<CoreOperationKind> = Vec::new();
    let mut r: usize = 0;
    proof {
        assert(regions@.take(0) =~= Seq::<Region>::empty());
        assert(all_operations(regions@.take(0)).map_values(|operation: Operation| operation.kind) =~= kinds@);
    }
    while r < regions.len()
        invariant
            r <= regions@.len(),
            kinds@ == all_operations(regions@.take(r as int)).map_values(|operation: Operation| operation.kind),
        decreases regions@.len() - r,
    {
        let ghost before = all_operations(regions@.take(r as int));
        let operations = &regions[r].operations;
        let mut i: usize = 0;
        proof {
            assert(before + operations@.take(0) =~= before);
        }
        while i < operations.len()
            invariant
                i <= operations@.len(),
                kinds@ == (before + operations@.take(i as int)).map_values(|operation: Operation| operation.kind),
            decreases operations@.len() - i,
        {
            kinds.push(operations[i].kind);
            proof {
                assert(before + operations@.take(i + 1) =~= (before + operations@.take(i as int)).push(operations@[i as int]));
                assert(kinds@ =~= (before + operations@.take(i + 1)).map_values(|operation: Operation| operation.kind));
            }
            i = i + 1;
        }
        proof {
            assert(operations@.take(i as int) =~= operations@);
            assert(regions@.take(r + 1).drop_last() =~= regions@.take(r as int));
        }
        r = r + 1;
    }
    proof {
        assert(regions@.take(r as int) =~= regions@);
    }
    kinds
}

/// The number of operations of regions that transfer ownership.
fn count_ownership(regions: &Vec<Region>) -> (count: usize)
    requires
        all_operations(regions@).len() <= usize::MAX,
    ensures
        count == ownership_count(all_operations(regions@)),
{
    let mut count: usize = 0;
    let mut r: usize = 0;
    proof {
        assert(regions@.take(0) =~= Seq::<Region>::empty());
        lemma_ownership_count_bound(all_operations(regions@));
    }
    while r < regions.len()
        invariant
            r <= regions@.len(),
            all_operations(regions@).len() <= usize::MAX,
            count == ownership_count(all_operations(regions@.take(r as int))),
        decreases regions@.len() - r,
    {
        let ghost before = all_operations(regions@.take(r as int));
        let operations = &regions[r].operations;
        let mut i: usize = 0;
        proof {
            assert(before + operations@.take(0) =~= before);
            assert(regions@.take(r + 1).drop_last() =~= regions@.take(r as int));
            lemma_all_operations_prefix(regions@, r + 1);
        }
        while i < operations.len()
            invariant
                i <= operations@.len(),
                before + operations@ == all_operations(regions@.take(r + 1)),
                all_operations(regions@.take(r + 1)).len() <= usize::MAX,
                count == ownership_count(before + operations@.take(i as int)),
            decreases operations@.len() - i,
        {
            let ghost done = before + operations@.take(i as int);
            let ghost next = before + operations@.take(i + 1);
            proof {
                assert(next.drop_last() =~= done);
                assert(next.last() == operations@[i as int]);
                lemma_ownership_count_bound(done);
                assert(done.len() < all_operations(regions@.take(r + 1)).len()) by {
                    assert(done.len() == before.len() + i);
                }
            }
            if operations[i].effect == EffectBoundary::Ownership {
                count = count + 1;
            }
            i = i + 1;
        }
        proof {
            assert(operations@.take(i as int) =~= operations@);
        }
        r = r + 1;
    }
    proof {
        assert(regions@.take(r as int) =~= regions@);
    }
    count
}

/// No more operations transfer ownership than there are operations.
proof fn lemma_ownership_count_bound(operations: Seq<Operation>)
    ensures
        ownership_count(operations) <= operations.len(),
    decreases operations.len(),
{
    if operations.len() > 0 {
        lemma_ownership_count_bound(operations.drop_last());
    }
}

/// The operations of the first regions come first among the operations of all regions.
proof fn lemma_all_operations_prefix(regions: Seq<Region>, n: int)
    requires
        0 <= n <= regions.len(),
    ensures
        all_operations(regions.take(n)).len() <= all_operations(regions).len(),
    decreases regions.len() - n,
{
    if n < regions.len() {
        lemma_all_operations_prefix(regions, n + 1);
        assert(regions.take(n + 1).drop_last() =~= regions.take(n));
    } else {
        assert(regions.take(n) =~= regions);
    }
}

impl CoreProgram {
    /// What the program shows of itself: its fingerprint, context, planning foundation,
    /// the observation of each executable in order, and the oracle's case count and verdict.
    pub fn observation(&self) -> (observation: CoreProgramObservation)
        ensures
            observation@ == (CoreProgramObservationView {
                fingerprint: self.fingerprint,
                context_identity: self.context,
                planning_foundation_fingerprint: self.planning_fingerprint,
                executables: self.executables@.map_values(|executable: CoreExecutable| executable_observation_of(executable)),
                oracle_case_count: self.oracle.cases,
                oracle_agrees: self.oracle.agrees,
            }),
    {
        let mut executables: Vec<CoreExecutableObservation> = Vec::new();
        let mut i: usize = 0;
        while i < self.executables.len()
            invariant
                i <= self.executables@.len(),
                executables@.len() == i,
                executables@.map_values(|item: CoreExecutableObservation| item@) =~= self.executables@.take(
                    i as int,
                ).map_values(|executable: CoreExecutable| executable_observation_of(executable)),
            decreases self.executables@.len() - i,
        {
            let executable = &self.executables[i];
            let operations = operation_kinds(&executable.regions);
            let observed = CoreExecutableObservation::new(
                executable.reference.kind,
                executable.reference.identity,
                executable.reference.current_meaning,
                executable.semantic_owner,
                operations,
                executable.regions.len(),
                executable.facts.may_panic,
                !executable.facts.pure,
            );
            let ghost before = executables@;
            executables.push(observed);
            proof {
                assert(observed@ == executable_observation_of(*executable));
                assert(executables@ =~= before.push(observed));
                assert(self.executables@.take(i + 1) =~= self.executables@.take(i as int).push(*executable));
                assert forall|j: int| 0 <= j < i implies #[trigger] executables@[j]@ == executable_observation_of(
                    self.executables@[j],
                ) by {
                    assert(before.map_values(|item: CoreExecutableObservation| item@)[j] == self.executables@.take(
                        i as int,
                    ).map_values(|executable: CoreExecutable| executable_observation_of(executable))[j]);
                }
                assert(executables@.map_values(|item: CoreExecutableObservation| item@) =~= self.executables@.take(
                    i + 1,
                ).map_values(|executable: CoreExecutable| executable_observation_of(executable)));
            }
            i = i + 1;
        }
        proof {
            assert(self.executables@.take(i as int) =~= self.executables@);
        }
        CoreProgramObservation::new(
            self.fingerprint,
            self.context,
            self.planning_fingerprint,
            executables,
            self.oracle.cases,
            self.oracle.agrees,
        )
    }

    /// The identity of each executable, in order: the view the backend takes.
    pub fn executable_identities(&self) -> (identities: Vec<u128>)
        ensures
            identities@ == self.executables@.map_values(|executable: CoreExecutable| executable.reference.identity),
    {
        let mut identities: Vec<u128> = Vec::new();
        let mut i: usize = 0;
        while i < self.executables.len()
            invariant
                i <= self.executables@.len(),
                identities@ =~= self.executables@.take(i as int).map_values(
                    |executable: CoreExecutable| executable.reference.identity,
                ),
            decreases self.executables@.len() - i,
        {
            identities.push(self.executables[i].reference.identity);
            proof {
                assert(self.executables@.take(i + 1) =~= self.executables@.take(i as int).push(self.executables@[i as int]));
            }
            i = i + 1;
        }
        proof {
            assert(self.executables@.take(i as int) =~= self.executables@);
        }
        identities
    }

    /// The identities of the executables that suspend, in order: the view flow analysis takes.
    pub fn suspending_executables(&self) -> (identities: Vec<u128>)
        ensures
            identities@ == suspending_identities(self.executables@),
    {
        let mut identities: Vec<u128> = Vec::new();
        let mut i: usize = 0;
        proof {
            assert(self.executables@.take(0) =~= Seq::<CoreExecutable>::empty());
        }
        while i < self.executables.len()
            invariant
                i <= self.executables@.len(),
                identities@ == suspending_identities(self.executables@.take(i as int)),
            decreases self.executables@.len() - i,
        {
            proof {
                assert(self.executables@.take(i + 1).drop_last() =~= self.executables@.take(i as int));
            }
            if self.executables[i].facts.suspends {
                identities.push(self.executables[i].reference.identity);
            }
            i = i + 1;
        }
        proof {
            assert(self.executables@.take(i as int) =~= self.executables@);
        }
        identities
    }

    /// Each executable's identity with the number of its operations that transfer
    /// ownership, in order: the view custody analysis takes.
    pub fn ownership_boundaries(&self) -> (boundaries: Vec<(u128, usize)>)
        requires
            forall|i: int|
                0 <= i < self.executables@.len() ==> all_operations(#[trigger] self.executables@[i].regions@).len()
                    <= usize::MAX,
        ensures
            boundaries@.len() == self.executables@.len(),
            forall|i: int|
                0 <= i < self.executables@.len() ==> #[trigger] boundaries@[i] == (
                    self.executables@[i].reference.identity,
                    ownership_count(all_operations(self.executables@[i].regions@)) as usize,
                ),
    {
        let mut boundaries: Vec<(u128, usize)> = Vec::new();
        let mut i: usize = 0;
        while i < self.executables.len()
            invariant
                i <= self.executables@.len(),
                boundaries@.len() == i,
                forall|i: int|
                    0 <= i < self.executables@.len() ==> all_operations(#[trigger] self.executables@[i].regions@).len()
                        <= usize::MAX,
                forall|j: int|
                    0 <= j < i ==> #[trigger] boundaries@[j] == (
                        self.executables@[j].reference.identity,
                        ownership_count(all_operations(self.executables@[j].regions@)) as usize,
                    ),
            decreases self.executables@.len() - i,
        {
            let executable = &self.executables[i];
            let count = count_ownership(&executable.regions);
            boundaries.push((executable.reference.identity, count));
            i = i + 1;
        }
        boundaries
    }
}

/// The core operation kind a binary operator lowers to: checked arithmetic for the five
/// arithmetic operators, a short circuit for `and` and `or`, a plain binary otherwise.
pub open spec fn binary_operation_kind(operator: BinaryOperator) -> CoreOperationKind {
    match operator {
        BinaryOperator::Add | BinaryOperator::Subtract | BinaryOperator::Multiply | BinaryOperator::Divide
        | BinaryOperator::Remainder => CoreOperationKind::CheckedArithmetic,
        BinaryOperator::And | BinaryOperator::Or => CoreOperationKind::ShortCircuit,
        _ => CoreOperationKind::Binary,
    }
}

/// The core operation kind a binary operator lowers to.
pub fn binary_kind(operator: BinaryOperator) -> (kind: CoreOperationKind)
    ensures
        kind == binary_operation_kind(operator),
{
    match operator {
        BinaryOperator::Add | BinaryOperator::Subtract | BinaryOperator::Multiply | BinaryOperator::Divide
        | BinaryOperator::Remainder => CoreOperationKind::CheckedArithmetic,
        BinaryOperator::And | BinaryOperator::Or => CoreOperationKind::ShortCircuit,
        _ => CoreOperationKind::Binary,
    }
}

/// The canonical tag of a binary operator in an operation's details.
pub open spec fn binary_operator_tag(operator: BinaryOperator) -> u8 {
    match operator {
        BinaryOperator::Range => 1,
        BinaryOperator::RangeInclusive => 2,
        BinaryOperator::Add => 3,
        BinaryOperator::Subtract => 4,
        BinaryOperator::Multiply => 5,
        BinaryOperator::Divide => 6,
        BinaryOperator::Remainder => 7,
        BinaryOperator::BitAnd => 8,
        BinaryOperator::BitOr => 9,
        BinaryOperator::BitXor => 10,
        BinaryOperator::ShiftLeft => 11,
        BinaryOperator::ShiftRight => 12,
        BinaryOperator::And => 13,
        BinaryOperator::Or => 14,
        BinaryOperator::Equal => 15,
        BinaryOperator::NotEqual => 16,
        BinaryOperator::Less => 17,
        BinaryOperator::LessEqual => 18,
        BinaryOperator::Greater => 19,
        BinaryOperator::GreaterEqual => 20,
    }
}

/// The canonical tag of a binary operator in an operation's details.
pub fn operator_tag(operator: BinaryOperator) -> (tag: u8)
    ensures
        tag == binary_operator_tag(operator),
{
    match operator {
        BinaryOperator::Range => 1,
        BinaryOperator::RangeInclusive => 2,
        BinaryOperator::Add => 3,
        BinaryOperator::Subtract => 4,
        BinaryOperator::Multiply => 5,
        BinaryOperator::Divide => 6,
        BinaryOperator::Remainder => 7,
        BinaryOperator::BitAnd => 8,
        BinaryOperator::BitOr => 9,
        BinaryOperator::BitXor => 10,
        BinaryOperator::ShiftLeft => 11,
        BinaryOperator::ShiftRight => 12,
        BinaryOperator::And => 13,
        BinaryOperator::Or => 14,
        BinaryOperator::Equal => 15,
        BinaryOperator::NotEqual => 16,
        BinaryOperator::Less => 17,
        BinaryOperator::LessEqual => 18,
        BinaryOperator::Greater => 19,
        BinaryOperator::GreaterEqual => 20,
    }
}

/// What a source executable of the completed semantic program is.
#[derive(Clone, Copy, Debug, PartialEq, Eq, PartialOrd, Ord, Structural)]
pub enum CoreSourceExecutableKind {
    Specialization,
    TestBody,
    ClosureBody,
}

/// The core executable kind a source executable is lowered as.
pub open spec fn source_executable_kind(kind: CoreSourceExecutableKind) -> CoreExecutableKind {
    match kind {
        CoreSourceExecutableKind::Specialization => CoreExecutableKind::SourceSpecialization,
        CoreSourceExecutableKind::TestBody => CoreExecutableKind::SourceTestBody,
        CoreSourceExecutableKind::ClosureBody => CoreExecutableKind::SourceClosureBody,
    }
}

/// The core executable kind a source executable is lowered as.
pub fn source_kind(kind: CoreSourceExecutableKind) -> (lowered: CoreExecutableKind)
    ensures
        lowered == source_executable_kind(kind),
{
    match kind {
        CoreSourceExecutableKind::Specialization => CoreExecutableKind::SourceSpecialization,
        CoreSourceExecutableKind::TestBody => CoreExecutableKind::SourceTestBody,
        CoreSourceExecutableKind::ClosureBody => CoreExecutableKind::SourceClosureBody,
    }
}

/// A property holds of the effect of every operation of regions, taken region after
/// region, exactly when it holds of the effect of every operation of every region.
proof fn lemma_every_operation_effect(regions: Seq<Region>, property: spec_fn(EffectBoundary) -> bool)
    ensures
        (forall|i: int| 0 <= i < all_operations(regions).len() ==> property(#[trigger] all_operations(regions)[i].effect))
            == (forall|r: int, k: int|
            0 <= r < regions.len() && 0 <= k < regions[r].operations@.len() ==> property(
                (#[trigger] regions[r].operations@[k]).effect,
            )),
    decreases regions.len(),
{
    if regions.len() > 0 {
        let prefix = regions.drop_last();
        lemma_every_operation_effect(prefix, property);
        let before = all_operations(prefix);
        let last = regions.last().operations@;
        let whole = all_operations(regions);
        assert(whole == before + last);
        if forall|i: int| 0 <= i < whole.len() ==> property(#[trigger] whole[i].effect) {
            assert forall|i: int| 0 <= i < before.len() implies property(#[trigger] before[i].effect) by {
                assert(whole[i] == before[i]);
            }
            assert forall|r: int, k: int| 0 <= r < regions.len() && 0 <= k < regions[r].operations@.len() implies property(
                (#[trigger] regions[r].operations@[k]).effect,
            ) by {
                if r < prefix.len() {
                    assert(prefix[r] == regions[r]);
                    assert(property(prefix[r].operations@[k].effect));
                } else {
                    assert(whole[before.len() + k] == last[k]);
                }
            }
        }
        if forall|r: int, k: int|
            0 <= r < regions.len() && 0 <= k < regions[r].operations@.len() ==> property(
                (#[trigger] regions[r].operations@[k]).effect,
            ) {
            assert forall|r: int, k: int| 0 <= r < prefix.len() && 0 <= k < prefix[r].operations@.len() implies property(
                (#[trigger] prefix[r].operations@[k]).effect,
            ) by {
                assert(prefix[r] == regions[r]);
                assert(property(regions[r].operations@[k].effect));
            }
            assert forall|i: int| 0 <= i < whole.len() implies property(#[trigger] whole[i].effect) by {
                if i < before.len() {
                    assert(whole[i] == before[i]);
                    assert(property(before[i].effect));
                } else {
                    let k = i - before.len();
                    assert(whole[i] == last[k]);
                    assert(regions[regions.len() - 1] == regions.last());
                    assert(property(regions[regions.len() - 1].operations@[k].effect));
                }
            }
        }
    }
}

/// Whether an executable is pure, and eligible for the evaluator, is decided by the
/// effects of its operations: it is pure exactly when every operation of every region has
/// no effect, mutates a local, transfers ownership or calls, and eligible exactly when it
/// is pure; an operation anywhere that builds or suspends makes it impure and keeps it
/// from the evaluator.
pub proof fn lemma_facts_purity(regions: Seq<Region>)
    ensures
        facts_of(all_operations(regions)).pure == (forall|r: int, k: int|
            0 <= r < regions.len() && 0 <= k < regions[r].operations@.len() ==> {
                let effect = (#[trigger] regions[r].operations@[k]).effect;
                effect == EffectBoundary::NoEffect || effect == EffectBoundary::LocalMutation || effect
                    == EffectBoundary::Ownership || effect == EffectBoundary::Call
            }),
        facts_of(all_operations(regions)).evaluator_eligible == facts_of(all_operations(regions)).pure,
        forall|r: int, k: int|
            0 <= r < regions.len() && 0 <= k < regions[r].operations@.len() && ((#[trigger] regions[r].operations@[k]).effect
                == EffectBoundary::BuildConstruction || regions[r].operations@[k].effect == EffectBoundary::Suspension)
                ==> !facts_of(all_operations(regions)).pure && !facts_of(all_operations(regions)).evaluator_eligible,
{
    let kept = |effect: EffectBoundary|
        effect == EffectBoundary::NoEffect || effect == EffectBoundary::LocalMutation || effect == EffectBoundary::Ownership
            || effect == EffectBoundary::Call;
    lemma_every_operation_effect(regions, kept);
    let operations = all_operations(regions);
    assert forall|i: int| 0 <= i < operations.len() implies kept(#[trigger] operations[i].effect) == !impure_effect(
        operations[i].effect,
    ) by {
        match operations[i].effect {
            EffectBoundary::NoEffect => {},
            EffectBoundary::LocalMutation => {},
            EffectBoundary::Ownership => {},
            EffectBoundary::BuildConstruction => {},
            EffectBoundary::Suspension => {},
            EffectBoundary::Call => {},
        }
    }
    let facts = facts_of(operations);
    if facts.pure {
        assert forall|i: int| 0 <= i < operations.len() implies #[trigger] operations[i].effect != EffectBoundary::Suspension by {
            assert(!impure_effect(operations[i].effect));
        }
    }
    assert forall|r: int, k: int|
        0 <= r < regions.len() && 0 <= k < regions[r].operations@.len() && ((#[trigger] regions[r].operations@[k]).effect
            == EffectBoundary::BuildConstruction || regions[r].operations@[k].effect == EffectBoundary::Suspension)
        implies !facts.pure && !facts.evaluator_eligible by {
        assert(!kept(regions[r].operations@[k].effect));
    }
}

/// The operations of two runs of regions, one after the other, are those of the first
/// run followed by those of the second.
proof fn lemma_all_operations_concat(first: Seq<Region>, second: Seq<Region>)
    ensures
        all_operations(first + second) == all_operations(first) + all_operations(second),
    decreases second.len(),
{
    if second.len() == 0 {
        assert(first + second =~= first);
        assert(all_operations(first) + all_operations(second) =~= all_operations(first));
    } else {
        let whole = first + second;
        assert(whole.drop_last() =~= first + second.drop_last());
        assert(whole.last() == second.last());
        lemma_all_operations_concat(first, second.drop_last());
        assert(all_operations(first) + all_operations(second.drop_last()) + second.last().operations@ =~= all_operations(
            first,
        ) + (all_operations(second.drop_last()) + second.last().operations@));
    }
}

/// A property holds of every operation of two sequences, one after the other, exactly
/// when it holds of every operation of each.
proof fn lemma_every_operation_concat(first: Seq<Operation>, second: Seq<Operation>, property: spec_fn(Operation) -> bool)
    ensures
        (forall|i: int| 0 <= i < (first + second).len() ==> property(#[trigger] (first + second)[i])) == ((forall|i: int|
            0 <= i < first.len() ==> property(#[trigger] first[i])) && (forall|i: int|
            0 <= i < second.len() ==> property(#[trigger] second[i]))),
{
    let whole = first + second;
    if forall|i: int| 0 <= i < whole.len() ==> property(#[trigger] whole[i]) {
        assert forall|i: int| 0 <= i < first.len() implies property(#[trigger] first[i]) by {
            assert(whole[i] == first[i]);
        }
        assert forall|i: int| 0 <= i < second.len() implies property(#[trigger] second[i]) by {
            assert(whole[first.len() + i] == second[i]);
        }
    }
    if (forall|i: int| 0 <= i < first.len() ==> property(#[trigger] first[i])) && (forall|i: int|
        0 <= i < second.len() ==> property(#[trigger] second[i])) {
        assert forall|i: int| 0 <= i < whole.len() implies property(#[trigger] whole[i]) by {
            if i < first.len() {
                assert(whole[i] == first[i]);
            } else {
                assert(whole[i] == second[i - first.len()]);
            }
        }
    }
}

/// The facts of an executable made of two runs of regions combine those of each run: it
/// is pure, and eligible for the evaluator, exactly when both runs are; it may panic,
/// suspends or transfers ownership exactly when either run does.
pub proof fn lemma_facts_combine(first: Seq<Region>, second: Seq<Region>)
    ensures
        ({
            let whole = facts_of(all_operations(first + second));
            let head = facts_of(all_operations(first));
            let tail = facts_of(all_operations(second));
            &&& whole.pure == (head.pure && tail.pure)
            &&& whole.may_panic == (head.may_panic || tail.may_panic)
            &&& whole.suspends == (head.suspends || tail.suspends)
            &&& whole.ownership_transfer == (head.ownership_transfer || tail.ownership_transfer)
            &&& whole.evaluator_eligible == (head.evaluator_eligible && tail.evaluator_eligible)
        }),
{
    lemma_all_operations_concat(first, second);
    let x = all_operations(first);
    let y = all_operations(second);
    let z = x + y;
    let kept = |operation: Operation| !impure_effect(operation.effect);
    let safe = |operation: Operation| operation.failure == FailureLaw::NoFailure;
    let running = |operation: Operation| operation.effect != EffectBoundary::Suspension;
    let owning = |operation: Operation| operation.effect != EffectBoundary::Ownership;
    lemma_every_operation_concat(x, y, kept);
    lemma_every_operation_concat(x, y, safe);
    lemma_every_operation_concat(x, y, running);
    lemma_every_operation_concat(x, y, owning);
    assert(facts_of(z).pure == forall|i: int| 0 <= i < z.len() ==> kept(#[trigger] z[i]));
    assert(facts_of(x).pure == forall|i: int| 0 <= i < x.len() ==> kept(#[trigger] x[i]));
    assert(facts_of(y).pure == forall|i: int| 0 <= i < y.len() ==> kept(#[trigger] y[i]));
    assert(facts_of(z).may_panic == !forall|i: int| 0 <= i < z.len() ==> safe(#[trigger] z[i]));
    assert(facts_of(x).may_panic == !forall|i: int| 0 <= i < x.len() ==> safe(#[trigger] x[i]));
    assert(facts_of(y).may_panic == !forall|i: int| 0 <= i < y.len() ==> safe(#[trigger] y[i]));
    assert(facts_of(z).suspends == !forall|i: int| 0 <= i < z.len() ==> running(#[trigger] z[i]));
    assert(facts_of(x).suspends == !forall|i: int| 0 <= i < x.len() ==> running(#[trigger] x[i]));
    assert(facts_of(y).suspends == !forall|i: int| 0 <= i < y.len() ==> running(#[trigger] y[i]));
    assert(facts_of(z).ownership_transfer == !forall|i: int| 0 <= i < z.len() ==> owning(#[trigger] z[i]));
    assert(facts_of(x).ownership_transfer == !forall|i: int| 0 <= i < x.len() ==> owning(#[trigger] x[i]));
    assert(facts_of(y).ownership_transfer == !forall|i: int| 0 <= i < y.len() ==> owning(#[trigger] y[i]));
}

} // verus!

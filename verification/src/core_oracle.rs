//! The semantic oracle of the core phase: a small interpreter that runs the oracle
//! instructions of a pure core executable, region by region, so that what the core
//! program computes can be compared with what the evaluator computed from the source.
use vstd::prelude::*;

use crate::architecture_planning::same_text;
use crate::compiler::{
    Cancellation,
    CanonicalValue, CanonicalView, EvaluationOutcome, EvaluationPanicKind, SourceRange, SourceRangeView,
    canonical_field_views, canonical_view, canonical_views,
};
use crate::core_program::{
    CoreExecutable, CoreExecutableKind, CoreFailure, Operation, OracleInstruction, canonical_value_bytes, check_executable_graph,
    graph_defect_message, dangles_at, duplicates_at,
    encode_canonical_value, executable_graph_defect, lemma_located_index, located_operations, push_source, source_bytes,
    sound_before, walk_defect,
};
use crate::hashing::push_u8;
use crate::evaluator::{BinaryOperator, EvalFailure, IntegerType, Value, integer_binary_result, integer_fits, integer_type_name};

verus! {

/// The values of numbered slots: the latest binding of a number is the one that counts.
pub open spec fn slot_map(entries: Seq<(u32, CanonicalValue)>) -> Map<u32, CanonicalView>
    decreases entries.len(),
{
    if entries.len() == 0 {
        Map::empty()
    } else {
        slot_map(entries.drop_last()).insert(entries.last().0, canonical_view(entries.last().1))
    }
}

/// The latest binding of a number is what the slots hold for it.
proof fn lemma_slot_latest(entries: Seq<(u32, CanonicalValue)>, i: int)
    requires
        0 <= i < entries.len(),
        forall|j: int| i < j < entries.len() ==> #[trigger] entries[j].0 != entries[i].0,
    ensures
        slot_map(entries).contains_key(entries[i].0),
        slot_map(entries)[entries[i].0] == canonical_view(entries[i].1),
    decreases entries.len(),
{
    if i < entries.len() - 1 {
        let shorter = entries.drop_last();
        assert forall|j: int| i < j < shorter.len() implies #[trigger] shorter[j].0 != shorter[i].0 by {
            assert(shorter[j] == entries[j]);
        }
        lemma_slot_latest(shorter, i);
        assert(entries.last().0 != entries[i].0);
    }
}

/// A number no entry binds is not held.
proof fn lemma_slot_absent(entries: Seq<(u32, CanonicalValue)>, number: u32)
    requires
        forall|j: int| 0 <= j < entries.len() ==> #[trigger] entries[j].0 != number,
    ensures
        !slot_map(entries).contains_key(number),
    decreases entries.len(),
{
    if entries.len() > 0 {
        let shorter = entries.drop_last();
        assert forall|j: int| 0 <= j < shorter.len() implies #[trigger] shorter[j].0 != number by {
            assert(shorter[j] == entries[j]);
        }
        lemma_slot_absent(shorter, number);
    }
}

/// Numbered canonical values, as the oracle keeps its values and locals.
struct Slots {
    entries: Vec<(u32, CanonicalValue)>,
}

impl View for Slots {
    type V = Map<u32, CanonicalView>;

    closed spec fn view(&self) -> Map<u32, CanonicalView> {
        slot_map(self.entries@)
    }
}

impl Slots {
    /// No slot filled.
    fn new() -> (slots: Self)
        ensures
            slots@ == Map::<u32, CanonicalView>::empty(),
    {
        Slots { entries: Vec::new() }
    }

    /// The value of a slot, if it is filled.
    fn get(&self, number: u32) -> (found: Option<&CanonicalValue>)
        ensures
            match found {
                Some(value) => self@.contains_key(number) && self@[number] == canonical_view(*value),
                None => !self@.contains_key(number),
            },
    {
        let mut i: usize = self.entries.len();
        while i > 0
            invariant
                i <= self.entries@.len(),
                forall|j: int| i <= j < self.entries@.len() ==> #[trigger] self.entries@[j].0 != number,
            decreases i,
        {
            i = i - 1;
            if self.entries[i].0 == number {
                proof {
                    lemma_slot_latest(self.entries@, i as int);
                }
                return Some(&self.entries[i].1);
            }
        }
        proof {
            lemma_slot_absent(self.entries@, number);
        }
        None
    }

    /// Fills a slot, hiding what it held.
    fn insert(&mut self, number: u32, value: CanonicalValue)
        ensures
            final(self)@ == old(self)@.insert(number, canonical_view(value)),
    {
        let ghost before = self.entries@;
        self.entries.push((number, value));
        proof {
            assert(self.entries@.drop_last() =~= before);
        }
    }
}

/// How a stretch of the oracle's walk ends: it runs on, returns a value, or panics at a site.
#[derive(Debug, PartialEq, Eq)]
pub enum OracleSignal {
    Continue,
    Return(CanonicalValue),
    Panic(EvaluationPanicKind, SourceRange),
}

/// What a signal holds.
pub ghost enum SignalView {
    Continue,
    Return(CanonicalView),
    Panic(EvaluationPanicKind, SourceRangeView),
}

/// The view of a signal.
pub open spec fn signal_view(signal: OracleSignal) -> SignalView {
    match signal {
        OracleSignal::Continue => SignalView::Continue,
        OracleSignal::Return(value) => SignalView::Return(canonical_view(value)),
        OracleSignal::Panic(kind, site) => SignalView::Panic(kind, site@),
    }
}

/// The view of a signal that may be missing.
pub open spec fn signal_option_view(signal: Option<OracleSignal>) -> Option<SignalView> {
    match signal {
        Some(signal) => Some(signal_view(signal)),
        None => None,
    }
}

/// The oracle's values and locals.
pub ghost struct OracleState {
    pub values: Map<u32, CanonicalView>,
    pub locals: Map<u32, CanonicalView>,
}

/// Where a walk ends: with a signal, or with none when an instruction is missing or not
/// understood, and the state it leaves; or at a fault, where a control target is missing
/// or does not lie ahead.
pub ghost enum OracleRun {
    Finished(Option<SignalView>, OracleState),
    Fault,
}

/// What a binary operation gives the oracle: a value, or a signal that ends the region.
pub ghost enum BinaryView {
    Value(CanonicalView),
    Stop(SignalView),
}

/// The integer type a canonical type name names, among those the oracle knows.
pub open spec fn integer_kind_of(name: Seq<char>) -> Option<IntegerType> {
    if name == integer_type_name(IntegerType::U8) {
        Some(IntegerType::U8)
    } else if name == integer_type_name(IntegerType::U16) {
        Some(IntegerType::U16)
    } else if name == integer_type_name(IntegerType::U32) {
        Some(IntegerType::U32)
    } else if name == integer_type_name(IntegerType::U64) {
        Some(IntegerType::U64)
    } else if name == integer_type_name(IntegerType::I8) {
        Some(IntegerType::I8)
    } else if name == integer_type_name(IntegerType::I16) {
        Some(IntegerType::I16)
    } else if name == integer_type_name(IntegerType::I32) {
        Some(IntegerType::I32)
    } else if name == integer_type_name(IntegerType::I64) {
        Some(IntegerType::I64)
    } else {
        None
    }
}

/// The 128-bit result of an arithmetic operator, `None` on overflow.
pub open spec fn oracle_arithmetic(operator: BinaryOperator, left: i128, right: i128) -> Option<i128> {
    match operator {
        BinaryOperator::Add => left.checked_add(right),
        BinaryOperator::Subtract => left.checked_sub(right),
        BinaryOperator::Multiply => left.checked_mul(right),
        BinaryOperator::Divide => left.checked_div(right),
        BinaryOperator::Remainder => left.checked_rem(right),
        _ => None,
    }
}

/// Whether an operator is one of the five arithmetic operators.
pub open spec fn is_arithmetic(operator: BinaryOperator) -> bool {
    operator == BinaryOperator::Add || operator == BinaryOperator::Subtract || operator
        == BinaryOperator::Multiply || operator == BinaryOperator::Divide || operator == BinaryOperator::Remainder
}

/// An arithmetic result checked against the type its name names: overflow of 128 bits or
/// of the type panics, and a name the oracle does not know lets the region run on.
pub open spec fn checked_oracle_integer(typename: Seq<char>, computed: Option<i128>, site: SourceRangeView) -> BinaryView {
    match computed {
        None => BinaryView::Stop(SignalView::Panic(EvaluationPanicKind::IntegerOverflow, site)),
        Some(value) => match integer_kind_of(typename) {
            None => BinaryView::Stop(SignalView::Continue),
            Some(kind) => if integer_fits(kind, value as int) {
                BinaryView::Value(CanonicalView::Integer { typename, value })
            } else {
                BinaryView::Stop(SignalView::Panic(EvaluationPanicKind::IntegerOverflow, site))
            },
        },
    }
}

/// A binary operator applied to two integers, the result taking the left one's type name.
pub open spec fn integer_oracle(operator: BinaryOperator, typename: Seq<char>, left: i128, right: i128, site: SourceRangeView) -> BinaryView {
    match operator {
        BinaryOperator::Equal => BinaryView::Value(CanonicalView::Bool(left == right)),
        BinaryOperator::NotEqual => BinaryView::Value(CanonicalView::Bool(left != right)),
        BinaryOperator::Less => BinaryView::Value(CanonicalView::Bool(left < right)),
        BinaryOperator::LessEqual => BinaryView::Value(CanonicalView::Bool(left <= right)),
        BinaryOperator::Greater => BinaryView::Value(CanonicalView::Bool(left > right)),
        BinaryOperator::GreaterEqual => BinaryView::Value(CanonicalView::Bool(left >= right)),
        _ => if is_arithmetic(operator) {
            if (operator == BinaryOperator::Divide || operator == BinaryOperator::Remainder) && right == 0 {
                BinaryView::Stop(SignalView::Panic(EvaluationPanicKind::DivisionByZero, site))
            } else {
                checked_oracle_integer(typename, oracle_arithmetic(operator, left, right), site)
            }
        } else {
            BinaryView::Stop(SignalView::Continue)
        },
    }
}

/// A binary operator applied to two booleans.
pub open spec fn boolean_oracle(operator: BinaryOperator, left: bool, right: bool) -> BinaryView {
    match operator {
        BinaryOperator::And => BinaryView::Value(CanonicalView::Bool(left && right)),
        BinaryOperator::Or => BinaryView::Value(CanonicalView::Bool(left || right)),
        BinaryOperator::Equal => BinaryView::Value(CanonicalView::Bool(left == right)),
        BinaryOperator::NotEqual => BinaryView::Value(CanonicalView::Bool(left != right)),
        _ => BinaryView::Stop(SignalView::Continue),
    }
}

/// What the oracle makes of a binary operation: integers and booleans are computed, and
/// anything else lets the region run on.
pub open spec fn oracle_binary_view(operator: BinaryOperator, left: CanonicalView, right: CanonicalView, site: SourceRangeView) -> BinaryView {
    match left {
        CanonicalView::Integer { typename, value: left } => match right {
            CanonicalView::Integer { value: right, .. } => integer_oracle(operator, typename, left, right, site),
            _ => BinaryView::Stop(SignalView::Continue),
        },
        CanonicalView::Bool(left) => match right {
            CanonicalView::Bool(right) => boolean_oracle(operator, left, right),
            _ => BinaryView::Stop(SignalView::Continue),
        },
        _ => BinaryView::Stop(SignalView::Continue),
    }
}

/// The negation of a 128-bit integer, `None` where it overflows.
pub open spec fn checked_negation(value: i128) -> Option<i128> {
    if value == i128::MIN {
        None
    } else {
        Some((-value) as i128)
    }
}

/// The state with a value slot filled.
pub open spec fn with_value(state: OracleState, number: u32, value: CanonicalView) -> OracleState {
    OracleState { values: state.values.insert(number, value), locals: state.locals }
}

/// The state with a local filled.
pub open spec fn with_local(state: OracleState, number: u32, value: CanonicalView) -> OracleState {
    OracleState { values: state.values, locals: state.locals.insert(number, value) }
}

/// A walk that ends without a signal.
pub open spec fn halted(state: OracleState) -> OracleRun {
    OracleRun::Finished(None, state)
}

/// Whether a short-circuit operator is decided by its left operand alone.
pub open spec fn short_circuits(operator: BinaryOperator, left: bool) -> bool {
    (operator == BinaryOperator::And && !left) || (operator == BinaryOperator::Or && left)
}

/// The oracle's walk of a region: its operations in order from the first. A region that
/// does not exist ends the walk without a signal.
pub open spec fn run_region(executable: CoreExecutable, region: int, state: OracleState) -> OracleRun
    decreases executable.regions@.len() - region, 1int, 0int,
{
    if 0 <= region < executable.regions@.len() {
        run_operations(executable, region, 0, state)
    } else {
        halted(state)
    }
}

/// The walk into the successor region `target` of region `region`: a fault unless the
/// target lies ahead, and no signal when it does not exist.
pub open spec fn run_successor(executable: CoreExecutable, region: int, target: u32, state: OracleState) -> OracleRun
    decreases executable.regions@.len() - region, 0int, 0int,
{
    if target as int <= region {
        OracleRun::Fault
    } else if target as int >= executable.regions@.len() {
        halted(state)
    } else if 0 <= region {
        run_region(executable, target as int, state)
    } else {
        OracleRun::Fault
    }
}

/// The oracle's walk of a region from its `index`th operation on.
pub open spec fn run_operations(executable: CoreExecutable, region: int, index: int, state: OracleState) -> OracleRun
    decreases executable.regions@.len() - region, 0int, executable.regions@[region].operations@.len() - index,
{
    let operations = executable.regions@[region].operations@;
    if !(0 <= region < executable.regions@.len()) || index < 0 {
        OracleRun::Fault
    } else if index >= operations.len() {
        OracleRun::Finished(Some(SignalView::Continue), state)
    } else {
        let operation = operations[index];
        let site = operation.provenance@;
        let values = state.values;
        match operation.oracle {
            None => halted(state),
            Some(instruction) => match instruction {
                OracleInstruction::Literal(value) => match operation.result {
                    None => halted(state),
                    Some(result) => run_operations(executable, region, index + 1, with_value(state, result, canonical_view(value))),
                },
                OracleInstruction::Read(local) => match operation.result {
                    None => halted(state),
                    Some(result) => if state.locals.contains_key(local) {
                        run_operations(executable, region, index + 1, with_value(state, result, state.locals[local]))
                    } else {
                        halted(state)
                    },
                },
                OracleInstruction::Store { local, value } => if values.contains_key(value) {
                    run_operations(executable, region, index + 1, with_local(state, local, values[value]))
                } else {
                    halted(state)
                },
                OracleInstruction::Binary(operator) => {
                    let operands = operation.operands@;
                    if operands.len() != 2 || !values.contains_key(operands[0]) || !values.contains_key(operands[1]) {
                        halted(state)
                    } else {
                        match oracle_binary_view(operator, values[operands[0]], values[operands[1]], site) {
                            BinaryView::Value(value) => match operation.result {
                                None => halted(state),
                                Some(result) => run_operations(executable, region, index + 1, with_value(state, result, value)),
                            },
                            BinaryView::Stop(signal) => OracleRun::Finished(Some(signal), state),
                        }
                    }
                },
                OracleInstruction::ShortCircuit(operator) => {
                    let operands = operation.operands@;
                    if operands.len() != 2 || !values.contains_key(operands[0]) {
                        halted(state)
                    } else {
                        match values[operands[0]] {
                            CanonicalView::Bool(left) => if short_circuits(operator, left) {
                                match operation.result {
                                    None => halted(state),
                                    Some(result) => run_operations(executable, region, index + 1, with_value(state, result, CanonicalView::Bool(left))),
                                }
                            } else if operation.successors@.len() == 0 {
                                OracleRun::Fault
                            } else {
                                match run_successor(executable, region, operation.successors@[0], state) {
                                    OracleRun::Finished(Some(SignalView::Continue), after) => match operation.result {
                                        None => halted(after),
                                        Some(result) => if after.values.contains_key(operands[1]) {
                                            run_operations(executable, region, index + 1, with_value(after, result, after.values[operands[1]]))
                                        } else {
                                            halted(after)
                                        },
                                    },
                                    other => other,
                                }
                            },
                            _ => halted(state),
                        }
                    }
                },
                OracleInstruction::UnaryNegate => {
                    let operands = operation.operands@;
                    if operands.len() != 1 || !values.contains_key(operands[0]) {
                        halted(state)
                    } else {
                        match values[operands[0]] {
                            CanonicalView::Integer { typename, value } => match checked_negation(value) {
                                None => OracleRun::Finished(Some(SignalView::Panic(EvaluationPanicKind::IntegerOverflow, site)), state),
                                Some(negated) => match operation.result {
                                    None => halted(state),
                                    Some(result) => run_operations(executable, region, index + 1, with_value(state, result, CanonicalView::Integer { typename, value: negated })),
                                },
                            },
                            _ => halted(state),
                        }
                    }
                },
                OracleInstruction::UnaryNot => {
                    let operands = operation.operands@;
                    if operands.len() != 1 || !values.contains_key(operands[0]) {
                        halted(state)
                    } else {
                        match values[operands[0]] {
                            CanonicalView::Bool(flag) => match operation.result {
                                None => halted(state),
                                Some(result) => run_operations(executable, region, index + 1, with_value(state, result, CanonicalView::Bool(!flag))),
                            },
                            _ => halted(state),
                        }
                    }
                },
                OracleInstruction::Return(value) => match value {
                    Some(value) => if values.contains_key(value) {
                        OracleRun::Finished(Some(SignalView::Return(values[value])), state)
                    } else {
                        halted(state)
                    },
                    None => OracleRun::Finished(Some(SignalView::Return(CanonicalView::Unit)), state),
                },
                OracleInstruction::Panic => OracleRun::Finished(Some(SignalView::Panic(EvaluationPanicKind::Explicit, site)), state),
                OracleInstruction::Assert(condition) => if values.contains_key(condition) && values[condition] == CanonicalView::Bool(true) {
                    run_operations(executable, region, index + 1, state)
                } else {
                    OracleRun::Finished(Some(SignalView::Panic(EvaluationPanicKind::AssertionFailed, site)), state)
                },
                OracleInstruction::Branch(condition) => if !values.contains_key(condition) {
                    halted(state)
                } else {
                    match values[condition] {
                        CanonicalView::Bool(flag) => {
                            let choice: int = if flag { 0 } else { 1 };
                            if choice >= operation.successors@.len() {
                                OracleRun::Fault
                            } else {
                                match run_successor(executable, region, operation.successors@[choice], state) {
                                    OracleRun::Finished(Some(SignalView::Continue), after) => run_operations(executable, region, index + 1, after),
                                    other => other,
                                }
                            }
                        },
                        _ => halted(state),
                    }
                },
                OracleInstruction::Pass => run_operations(executable, region, index + 1, state),
            },
        }
    }
}

/// The integer type a canonical type name names, among those the oracle knows.
fn integer_kind(name: &str) -> (kind: Option<IntegerType>)
    ensures
        kind == integer_kind_of(name@),
{
    if same_text(name, IntegerType::U8.name()) {
        Some(IntegerType::U8)
    } else if same_text(name, IntegerType::U16.name()) {
        Some(IntegerType::U16)
    } else if same_text(name, IntegerType::U32.name()) {
        Some(IntegerType::U32)
    } else if same_text(name, IntegerType::U64.name()) {
        Some(IntegerType::U64)
    } else if same_text(name, IntegerType::I8.name()) {
        Some(IntegerType::I8)
    } else if same_text(name, IntegerType::I16.name()) {
        Some(IntegerType::I16)
    } else if same_text(name, IntegerType::I32.name()) {
        Some(IntegerType::I32)
    } else if same_text(name, IntegerType::I64.name()) {
        Some(IntegerType::I64)
    } else {
        None
    }
}

/// What a binary operation gives: a value, or the signal that ends the region.
pub open spec fn binary_result_view(result: Result<CanonicalValue, OracleSignal>) -> BinaryView {
    match result {
        Ok(value) => BinaryView::Value(canonical_view(value)),
        Err(signal) => BinaryView::Stop(signal_view(signal)),
    }
}

/// The oracle's binary operation on two canonical values.
fn oracle_binary(operator: BinaryOperator, left: &CanonicalValue, right: &CanonicalValue, site: &SourceRange) -> (result: Result<CanonicalValue, OracleSignal>)
    ensures
        binary_result_view(result) == oracle_binary_view(operator, canonical_view(*left), canonical_view(*right), site@),
{
    match left {
        CanonicalValue::Integer { typename, value: left } => {
            let right = match right {
                CanonicalValue::Integer { value, .. } => *value,
                _ => {
                    return Err(OracleSignal::Continue);
                },
            };
            let left = *left;
            let computed = match operator {
                BinaryOperator::Add => left.checked_add(right),
                BinaryOperator::Subtract => left.checked_sub(right),
                BinaryOperator::Multiply => left.checked_mul(right),
                BinaryOperator::Divide => {
                    if right == 0 {
                        return Err(OracleSignal::Panic(EvaluationPanicKind::DivisionByZero, site.clone()));
                    }
                    left.checked_div(right)
                },
                BinaryOperator::Remainder => {
                    if right == 0 {
                        return Err(OracleSignal::Panic(EvaluationPanicKind::DivisionByZero, site.clone()));
                    }
                    left.checked_rem(right)
                },
                BinaryOperator::Equal => {
                    return Ok(CanonicalValue::Bool(left == right));
                },
                BinaryOperator::NotEqual => {
                    return Ok(CanonicalValue::Bool(left != right));
                },
                BinaryOperator::Less => {
                    return Ok(CanonicalValue::Bool(left < right));
                },
                BinaryOperator::LessEqual => {
                    return Ok(CanonicalValue::Bool(left <= right));
                },
                BinaryOperator::Greater => {
                    return Ok(CanonicalValue::Bool(left > right));
                },
                BinaryOperator::GreaterEqual => {
                    return Ok(CanonicalValue::Bool(left >= right));
                },
                _ => {
                    return Err(OracleSignal::Continue);
                },
            };
            let value = match computed {
                Some(value) => value,
                None => {
                    return Err(OracleSignal::Panic(EvaluationPanicKind::IntegerOverflow, site.clone()));
                },
            };
            let kind = match integer_kind(typename.as_str()) {
                Some(kind) => kind,
                None => {
                    return Err(OracleSignal::Continue);
                },
            };
            if !kind.fits(value) {
                return Err(OracleSignal::Panic(EvaluationPanicKind::IntegerOverflow, site.clone()));
            }
            Ok(CanonicalValue::Integer { typename: typename.clone(), value })
        },
        CanonicalValue::Bool(left) => {
            let right = match right {
                CanonicalValue::Bool(value) => *value,
                _ => {
                    return Err(OracleSignal::Continue);
                },
            };
            match operator {
                BinaryOperator::And => Ok(CanonicalValue::Bool(*left && right)),
                BinaryOperator::Or => Ok(CanonicalValue::Bool(*left || right)),
                BinaryOperator::Equal => Ok(CanonicalValue::Bool(*left == right)),
                BinaryOperator::NotEqual => Ok(CanonicalValue::Bool(*left != right)),
                _ => Err(OracleSignal::Continue),
            }
        },
        _ => Err(OracleSignal::Continue),
    }
}

/// The state the slots hold.
spec fn state_of(values: Slots, locals: Slots) -> OracleState {
    OracleState { values: values@, locals: locals@ }
}

/// What one operation does to the walk: it goes on to the next operation, or ends the
/// walk with a signal or with none.
enum OracleStep {
    Next,
    Exit(Option<OracleSignal>),
}

/// Whether a step agrees with the oracle's walk from the `index`th operation.
spec fn step_agrees(executable: CoreExecutable, region: int, index: int, before: OracleState, step: OracleStep, after: OracleState) -> bool {
    match step {
        OracleStep::Next => run_operations(executable, region, index, before) == run_operations(
            executable,
            region,
            index + 1,
            after,
        ),
        OracleStep::Exit(signal) => run_operations(executable, region, index, before) == OracleRun::Finished(
            signal_option_view(signal),
            after,
        ),
    }
}

/// Walks region `region` of an executable, filling values and locals, and answers how
/// the walk ends: as `run_region` says.
fn oracle_region(executable: &CoreExecutable, region: u32, values: &mut Slots, locals: &mut Slots) -> (signal: Option<OracleSignal>)
    requires
        !(run_region(*executable, region as int, state_of(*old(values), *old(locals))) is Fault),
    ensures
        run_region(*executable, region as int, state_of(*old(values), *old(locals))) == OracleRun::Finished(
            signal_option_view(signal),
            state_of(*final(values), *final(locals)),
        ),
    decreases executable.regions@.len() - region, 2int,
{
    if region as usize >= executable.regions.len() {
        return None;
    }
    let ghost start = state_of(*values, *locals);
    let mut index: usize = 0;
    while index < executable.regions[region as usize].operations.len()
        invariant
            (region as int) < executable.regions@.len(),
            index <= executable.regions@[region as int].operations@.len(),
            run_region(*executable, region as int, start) == run_operations(
                *executable,
                region as int,
                index as int,
                state_of(*values, *locals),
            ),
            !(run_region(*executable, region as int, start) is Fault),
            start == state_of(*old(values), *old(locals)),
        decreases executable.regions@[region as int].operations@.len() - index,
    {
        match oracle_step(executable, region, index, values, locals) {
            OracleStep::Next => {},
            OracleStep::Exit(signal) => {
                return signal;
            },
        }
        index = index + 1;
    }
    Some(OracleSignal::Continue)
}

/// The oracle's step at the `index`th operation of region `region`.
#[verifier::rlimit(60)]
fn oracle_step(executable: &CoreExecutable, region: u32, index: usize, values: &mut Slots, locals: &mut Slots) -> (step: OracleStep)
    requires
        (region as int) < executable.regions@.len(),
        index < executable.regions@[region as int].operations@.len(),
        !(run_operations(*executable, region as int, index as int, state_of(*old(values), *old(locals))) is Fault),
    ensures
        step_agrees(
            *executable,
            region as int,
            index as int,
            state_of(*old(values), *old(locals)),
            step,
            state_of(*final(values), *final(locals)),
        ),
    decreases executable.regions@.len() - region, 1int,
{
    let operation = &executable.regions[region as usize].operations[index];
    let instruction = match &operation.oracle {
        Some(instruction) => instruction,
        None => {
            return OracleStep::Exit(None);
        },
    };
    match instruction {
        OracleInstruction::Literal(value) => {
            let result = match operation.result {
                Some(result) => result,
                None => {
                    return OracleStep::Exit(None);
                },
            };
            values.insert(result, value.clone());
        },
        OracleInstruction::Read(local) => {
            let result = match operation.result {
                Some(result) => result,
                None => {
                    return OracleStep::Exit(None);
                },
            };
            let value = match locals.get(*local) {
                Some(value) => value.clone(),
                None => {
                    return OracleStep::Exit(None);
                },
            };
            values.insert(result, value);
        },
        OracleInstruction::Store { local, value } => {
            let stored = match values.get(*value) {
                Some(stored) => stored.clone(),
                None => {
                    return OracleStep::Exit(None);
                },
            };
            locals.insert(*local, stored);
        },
        OracleInstruction::Binary(operator) => {
            if operation.operands.len() != 2 {
                return OracleStep::Exit(None);
            }
            let computed = {
                let left = match values.get(operation.operands[0]) {
                    Some(left) => left,
                    None => {
                        return OracleStep::Exit(None);
                    },
                };
                let right = match values.get(operation.operands[1]) {
                    Some(right) => right,
                    None => {
                        return OracleStep::Exit(None);
                    },
                };
                oracle_binary(*operator, left, right, &operation.provenance)
            };
            match computed {
                Ok(value) => {
                    let result = match operation.result {
                        Some(result) => result,
                        None => {
                            return OracleStep::Exit(None);
                        },
                    };
                    values.insert(result, value);
                },
                Err(signal) => {
                    return OracleStep::Exit(Some(signal));
                },
            }
        },
        OracleInstruction::ShortCircuit(operator) => {
            return oracle_short_circuit(executable, region, index, *operator, values, locals);
        },
        OracleInstruction::UnaryNegate => {
            if operation.operands.len() != 1 {
                return OracleStep::Exit(None);
            }
            let negated = match values.get(operation.operands[0]) {
                Some(CanonicalValue::Integer { typename, value }) => {
                    if *value == i128::MIN {
                        return OracleStep::Exit(
                            Some(OracleSignal::Panic(EvaluationPanicKind::IntegerOverflow, operation.provenance.clone())),
                        );
                    }
                    CanonicalValue::Integer { typename: typename.clone(), value: -*value }
                },
                _ => {
                    return OracleStep::Exit(None);
                },
            };
            let result = match operation.result {
                Some(result) => result,
                None => {
                    return OracleStep::Exit(None);
                },
            };
            values.insert(result, negated);
        },
        OracleInstruction::UnaryNot => {
            if operation.operands.len() != 1 {
                return OracleStep::Exit(None);
            }
            let flag = match values.get(operation.operands[0]) {
                Some(CanonicalValue::Bool(flag)) => *flag,
                _ => {
                    return OracleStep::Exit(None);
                },
            };
            let result = match operation.result {
                Some(result) => result,
                None => {
                    return OracleStep::Exit(None);
                },
            };
            values.insert(result, CanonicalValue::Bool(!flag));
        },
        OracleInstruction::Return(value) => {
            let returned = match value {
                Some(value) => match values.get(*value) {
                    Some(returned) => returned.clone(),
                    None => {
                        return OracleStep::Exit(None);
                    },
                },
                None => CanonicalValue::Unit,
            };
            return OracleStep::Exit(Some(OracleSignal::Return(returned)));
        },
        OracleInstruction::Panic => {
            return OracleStep::Exit(Some(OracleSignal::Panic(EvaluationPanicKind::Explicit, operation.provenance.clone())));
        },
        OracleInstruction::Assert(condition) => {
            let holds = match values.get(*condition) {
                Some(CanonicalValue::Bool(flag)) => *flag,
                _ => false,
            };
            if !holds {
                return OracleStep::Exit(
                    Some(OracleSignal::Panic(EvaluationPanicKind::AssertionFailed, operation.provenance.clone())),
                );
            }
        },
        OracleInstruction::Branch(condition) => {
            return oracle_branch(executable, region, index, *condition, values, locals);
        },
        OracleInstruction::Pass => {},
    }
    OracleStep::Next
}

/// The oracle's step at a short-circuit operation: a left operand that decides is the
/// result; otherwise the successor region is walked and the right operand is the result.
fn oracle_short_circuit(
    executable: &CoreExecutable,
    region: u32,
    index: usize,
    operator: BinaryOperator,
    values: &mut Slots,
    locals: &mut Slots,
) -> (step: OracleStep)
    requires
        (region as int) < executable.regions@.len(),
        index < executable.regions@[region as int].operations@.len(),
        executable.regions@[region as int].operations@[index as int].oracle == Some(OracleInstruction::ShortCircuit(operator)),
        !(run_operations(*executable, region as int, index as int, state_of(*old(values), *old(locals))) is Fault),
    ensures
        step_agrees(
            *executable,
            region as int,
            index as int,
            state_of(*old(values), *old(locals)),
            step,
            state_of(*final(values), *final(locals)),
        ),
    decreases executable.regions@.len() - region, 0int,
{
    let operation = &executable.regions[region as usize].operations[index];
    if operation.operands.len() != 2 {
        return OracleStep::Exit(None);
    }
    let left = match values.get(operation.operands[0]) {
        Some(CanonicalValue::Bool(left)) => *left,
        _ => {
            return OracleStep::Exit(None);
        },
    };
    let skip = (operator == BinaryOperator::And && !left) || (operator == BinaryOperator::Or && left);
    if skip {
        let result = match operation.result {
            Some(result) => result,
            None => {
                return OracleStep::Exit(None);
            },
        };
        values.insert(result, CanonicalValue::Bool(left));
        return OracleStep::Next;
    }
    let target = operation.successors[0];
    if target as usize >= executable.regions.len() {
        proof {
            let before = state_of(*old(values), *old(locals));
            assert(!(run_successor(*executable, region as int, target, before) is Fault));
            assert(run_successor(*executable, region as int, target, before) == halted(before));
        }
        return OracleStep::Exit(None);
    }
    proof {
        let before = state_of(*old(values), *old(locals));
        assert(!(run_successor(*executable, region as int, target, before) is Fault));
        assert(target > region);
    }
    match oracle_region(executable, target, values, locals) {
        Some(OracleSignal::Continue) => {},
        other => {
            return OracleStep::Exit(other);
        },
    }
    let result = match operation.result {
        Some(result) => result,
        None => {
            return OracleStep::Exit(None);
        },
    };
    let value = match values.get(operation.operands[1]) {
        Some(value) => value.clone(),
        None => {
            return OracleStep::Exit(None);
        },
    };
    values.insert(result, value);
    OracleStep::Next
}

/// The oracle's step at a branch: the successor the condition selects is walked.
fn oracle_branch(
    executable: &CoreExecutable,
    region: u32,
    index: usize,
    condition: u32,
    values: &mut Slots,
    locals: &mut Slots,
) -> (step: OracleStep)
    requires
        (region as int) < executable.regions@.len(),
        index < executable.regions@[region as int].operations@.len(),
        executable.regions@[region as int].operations@[index as int].oracle == Some(OracleInstruction::Branch(condition)),
        !(run_operations(*executable, region as int, index as int, state_of(*old(values), *old(locals))) is Fault),
    ensures
        step_agrees(
            *executable,
            region as int,
            index as int,
            state_of(*old(values), *old(locals)),
            step,
            state_of(*final(values), *final(locals)),
        ),
    decreases executable.regions@.len() - region, 0int,
{
    let operation = &executable.regions[region as usize].operations[index];
    let flag = match values.get(condition) {
        Some(CanonicalValue::Bool(flag)) => *flag,
        _ => {
            return OracleStep::Exit(None);
        },
    };
    let choice: usize = if flag {
        0
    } else {
        1
    };
    let target = operation.successors[choice];
    if target as usize >= executable.regions.len() {
        proof {
            let before = state_of(*old(values), *old(locals));
            assert(!(run_successor(*executable, region as int, target, before) is Fault));
            assert(run_successor(*executable, region as int, target, before) == halted(before));
        }
        return OracleStep::Exit(None);
    }
    proof {
        let before = state_of(*old(values), *old(locals));
        assert(!(run_successor(*executable, region as int, target, before) is Fault));
        assert(target > region);
    }
    match oracle_region(executable, target, values, locals) {
        Some(OracleSignal::Continue) => OracleStep::Next,
        other => OracleStep::Exit(other),
    }
}

/// What the oracle's run of an executable comes to: a completed value, a panic at a
/// site, or nothing it can say.
#[derive(Debug, PartialEq, Eq)]
pub enum CompactOutcome {
    Completed(CanonicalValue),
    Panicked(EvaluationPanicKind, SourceRange),
    Unsupported,
}

/// What an outcome holds.
pub ghost enum OutcomeView {
    Completed(CanonicalView),
    Panicked(EvaluationPanicKind, SourceRangeView),
    Unsupported,
}

/// The view of an outcome.
pub open spec fn outcome_view(outcome: CompactOutcome) -> OutcomeView {
    match outcome {
        CompactOutcome::Completed(value) => OutcomeView::Completed(canonical_view(value)),
        CompactOutcome::Panicked(kind, site) => OutcomeView::Panicked(kind, site@),
        CompactOutcome::Unsupported => OutcomeView::Unsupported,
    }
}

/// The state the oracle starts from: no values, no locals.
pub open spec fn initial_state() -> OracleState {
    OracleState { values: Map::empty(), locals: Map::empty() }
}

/// The oracle's walk of an executable from its entry region.
pub open spec fn oracle_run(executable: CoreExecutable) -> OracleRun {
    run_region(executable, executable.entry as int, initial_state())
}

/// What the oracle's walk comes to: a returned value is the completed value, a walk that
/// runs off the end of the entry region completes with unit, a panic is the outcome, and
/// a walk that stops without a signal is unsupported.
pub open spec fn oracle_outcome(executable: CoreExecutable) -> OutcomeView {
    match oracle_run(executable) {
        OracleRun::Finished(Some(SignalView::Return(value)), _) => OutcomeView::Completed(value),
        OracleRun::Finished(Some(SignalView::Panic(kind, site)), _) => OutcomeView::Panicked(kind, site),
        OracleRun::Finished(Some(SignalView::Continue), _) => OutcomeView::Completed(CanonicalView::Unit),
        _ => OutcomeView::Unsupported,
    }
}

/// Runs the oracle on an executable from its entry region. Its walk only goes forward, to
/// control targets that are there: that is what `requires` asks.
pub fn oracle_execute(executable: &CoreExecutable) -> (outcome: CompactOutcome)
    requires
        !(oracle_run(*executable) is Fault),
    ensures
        outcome_view(outcome) == oracle_outcome(*executable),
{
    let mut values = Slots::new();
    let mut locals = Slots::new();
    match oracle_region(executable, executable.entry, &mut values, &mut locals) {
        Some(OracleSignal::Return(value)) => CompactOutcome::Completed(value),
        Some(OracleSignal::Panic(kind, site)) => CompactOutcome::Panicked(kind, site),
        Some(OracleSignal::Continue) => CompactOutcome::Completed(CanonicalValue::Unit),
        None => CompactOutcome::Unsupported,
    }
}

/// Whether every operation of the executable carries an oracle instruction.
pub open spec fn oracle_covers(executable: CoreExecutable) -> bool {
    forall|r: int, i: int|
        0 <= r < executable.regions@.len() && 0 <= i < executable.regions@[r].operations@.len()
            ==> (#[trigger] executable.regions@[r].operations@[i]).oracle is Some
}

/// Whether every operation of the executable carries an oracle instruction.
pub fn oracle_supported(executable: &CoreExecutable) -> (supported: bool)
    ensures
        supported == oracle_covers(*executable),
{
    let mut r: usize = 0;
    while r < executable.regions.len()
        invariant
            r <= executable.regions@.len(),
            forall|q: int, i: int|
                0 <= q < r && 0 <= i < executable.regions@[q].operations@.len()
                    ==> (#[trigger] executable.regions@[q].operations@[i]).oracle is Some,
        decreases executable.regions@.len() - r,
    {
        let operations = &executable.regions[r].operations;
        let mut i: usize = 0;
        while i < operations.len()
            invariant
                r < executable.regions@.len(),
                operations@ == executable.regions@[r as int].operations@,
                i <= operations@.len(),
                forall|q: int, j: int|
                    0 <= q < r && 0 <= j < executable.regions@[q].operations@.len()
                        ==> (#[trigger] executable.regions@[q].operations@[j]).oracle is Some,
                forall|j: int| 0 <= j < i ==> (#[trigger] operations@[j]).oracle is Some,
            decreases operations@.len() - i,
        {
            if operations[i].oracle.is_none() {
                proof {
                    assert(executable.regions@[r as int].operations@[i as int].oracle is None);
                }
                return false;
            }
            i = i + 1;
        }
        proof {
            assert forall|q: int, j: int|
                0 <= q < r + 1 && 0 <= j < executable.regions@[q].operations@.len()
                    implies (#[trigger] executable.regions@[q].operations@[j]).oracle is Some by {
                if q == r {
                    assert(operations@[j] == executable.regions@[q].operations@[j]);
                }
            }
        }
        r = r + 1;
    }
    true
}

/// Whether an operation that branches or short-circuits names the targets it needs.
pub open spec fn operation_names_targets(operation: Operation) -> bool {
    &&& operation.oracle matches Some(OracleInstruction::Branch(_)) ==> operation.successors@.len() >= 2
    &&& operation.oracle matches Some(OracleInstruction::ShortCircuit(_)) ==> operation.successors@.len() >= 1
}

/// Whether an operation that branches or short-circuits names the targets it needs.
fn names_targets(operation: &Operation) -> (named: bool)
    ensures
        named == operation_names_targets(*operation),
{
    match &operation.oracle {
        Some(OracleInstruction::Branch(_)) => operation.successors.len() >= 2,
        Some(OracleInstruction::ShortCircuit(_)) => operation.successors.len() >= 1,
        _ => true,
    }
}

/// Whether every branch and short circuit of the executable names the targets it needs.
pub fn oracle_targets_present(executable: &CoreExecutable) -> (present: bool)
    ensures
        present == oracle_targets_named(*executable),
{
    let mut r: usize = 0;
    while r < executable.regions.len()
        invariant
            r <= executable.regions@.len(),
            forall|q: int, i: int|
                0 <= q < r && 0 <= i < executable.regions@[q].operations@.len()
                    ==> operation_names_targets(#[trigger] executable.regions@[q].operations@[i]),
        decreases executable.regions@.len() - r,
    {
        let operations = &executable.regions[r].operations;
        let mut i: usize = 0;
        while i < operations.len()
            invariant
                r < executable.regions@.len(),
                operations@ == executable.regions@[r as int].operations@,
                i <= operations@.len(),
                forall|q: int, j: int|
                    0 <= q < r && 0 <= j < executable.regions@[q].operations@.len()
                        ==> operation_names_targets(#[trigger] executable.regions@[q].operations@[j]),
                forall|j: int| 0 <= j < i ==> operation_names_targets(#[trigger] operations@[j]),
            decreases operations@.len() - i,
        {
            if !names_targets(&operations[i]) {
                proof {
                    let operation = executable.regions@[r as int].operations@[i as int];
                    assert(!operation_names_targets(operation));
                }
                return false;
            }
            i = i + 1;
        }
        proof {
            assert forall|q: int, j: int|
                0 <= q < r + 1 && 0 <= j < executable.regions@[q].operations@.len()
                    implies operation_names_targets(#[trigger] executable.regions@[q].operations@[j]) by {
                if q == r {
                    assert(operations@[j] == executable.regions@[q].operations@[j]);
                }
            }
        }
        r = r + 1;
    }
    proof {
        assert forall|q: int, j: int|
            0 <= q < executable.regions@.len() && 0 <= j < executable.regions@[q].operations@.len() implies {
                let operation = #[trigger] executable.regions@[q].operations@[j];
                &&& operation.oracle matches Some(OracleInstruction::Branch(_)) ==> operation.successors@.len() >= 2
                &&& operation.oracle matches Some(OracleInstruction::ShortCircuit(_)) ==> operation.successors@.len()
                    >= 1
            } by {
            assert(operation_names_targets(executable.regions@[q].operations@[j]));
        }
    }
    true
}

/// Runs the oracle on an executable only where its walk can run: the executable's control
/// and value graph must have no defect, answered as the first defect or `Cancelled`, and
/// its branches and short circuits must name their targets, else the answer is nothing.
pub fn oracle_execute_validated(executable: &CoreExecutable, cancellation: &Cancellation) -> (result: Result<
    Option<CompactOutcome>,
    CoreFailure,
>)
    ensures
        match result {
            Ok(Some(outcome)) => executable_graph_defect(*executable) is None && oracle_targets_named(*executable)
                && outcome_view(outcome) == oracle_outcome(*executable),
            Ok(None) => executable_graph_defect(*executable) is None && !oracle_targets_named(*executable),
            Err(CoreFailure::Defect(evidence)) => executable_graph_defect(*executable) matches Some(defect)
                && evidence@ == graph_defect_message(defect),
            Err(CoreFailure::Cancelled) => true,
        },
{
    match check_executable_graph(executable, cancellation) {
        Ok(()) => {},
        Err(failure) => {
            return Err(failure);
        },
    }
    if !oracle_targets_present(executable) {
        return Ok(None);
    }
    proof {
        lemma_validated_executables_run(*executable);
    }
    Ok(Some(oracle_execute(executable)))
}

/// Whether the oracle compares an executable with the evaluator: a source specialization
/// without parameters, pure and eligible for evaluation, whose every operation carries an
/// oracle instruction.
pub open spec fn oracle_candidate(executable: CoreExecutable) -> bool {
    &&& executable.reference.kind == CoreExecutableKind::SourceSpecialization
    &&& executable.parameter_count == 0
    &&& executable.facts.pure
    &&& executable.facts.evaluator_eligible
    &&& oracle_covers(executable)
}

/// Whether the oracle compares an executable with the evaluator.
pub fn oracle_eligible(executable: &CoreExecutable) -> (eligible: bool)
    ensures
        eligible == oracle_candidate(*executable),
{
    let specialization = match executable.reference.kind {
        CoreExecutableKind::SourceSpecialization => true,
        _ => false,
    };
    specialization && executable.parameter_count == 0 && executable.facts.pure && executable.facts.evaluator_eligible
        && oracle_supported(executable)
}

/// The views of canonical values, one for each value.
proof fn lemma_canonical_views(values: Seq<CanonicalValue>)
    ensures
        canonical_views(values).len() == values.len(),
        forall|i: int| 0 <= i < values.len() ==> #[trigger] canonical_views(values)[i] == canonical_view(values[i]),
    decreases values.len(),
{
    if values.len() > 0 {
        lemma_canonical_views(values.drop_last());
        assert forall|i: int| 0 <= i < values.len() implies #[trigger] canonical_views(values)[i] == canonical_view(
            values[i],
        ) by {
            if i < values.len() - 1 {
                assert(values.drop_last()[i] == values[i]);
            }
        }
    }
}

/// The views of named canonical fields, one for each field.
proof fn lemma_canonical_field_views(fields: Seq<(String, CanonicalValue)>)
    ensures
        canonical_field_views(fields).len() == fields.len(),
        forall|i: int|
            0 <= i < fields.len() ==> #[trigger] canonical_field_views(fields)[i] == (fields[i].0@, canonical_view(fields[i].1)),
    decreases fields.len(),
{
    if fields.len() > 0 {
        lemma_canonical_field_views(fields.drop_last());
        assert forall|i: int| 0 <= i < fields.len() implies #[trigger] canonical_field_views(fields)[i] == (
            fields[i].0@,
            canonical_view(fields[i].1),
        ) by {
            if i < fields.len() - 1 {
                assert(fields.drop_last()[i] == fields[i]);
            }
        }
    }
}

/// Whether two byte strings are the same.
fn same_bytes(left: &Vec<u8>, right: &Vec<u8>) -> (same: bool)
    ensures
        same == (left@ == right@),
{
    if left.len() != right.len() {
        return false;
    }
    let mut i: usize = 0;
    while i < left.len()
        invariant
            left@.len() == right@.len(),
            i <= left@.len(),
            forall|j: int| 0 <= j < i ==> left@[j] == right@[j],
        decreases left@.len() - i,
    {
        if left[i] != right[i] {
            proof {
                assert(left@[i as int] != right@[i as int]);
            }
            return false;
        }
        i = i + 1;
    }
    proof {
        assert(left@ =~= right@);
    }
    true
}

/// Whether two canonical values are the same value.
pub fn same_canonical(left: &CanonicalValue, right: &CanonicalValue) -> (same: bool)
    ensures
        same == (canonical_view(*left) == canonical_view(*right)),
    decreases left,
{
    match (left, right) {
        (CanonicalValue::Unit, CanonicalValue::Unit) => true,
        (CanonicalValue::Bool(a), CanonicalValue::Bool(b)) => *a == *b,
        (CanonicalValue::Integer { typename: a, value: x }, CanonicalValue::Integer { typename: b, value: y }) => *x == *y
            && same_text(a.as_str(), b.as_str()),
        (CanonicalValue::Float { typename: a, bits: x }, CanonicalValue::Float { typename: b, bits: y }) => *x == *y
            && same_text(a.as_str(), b.as_str()),
        (CanonicalValue::Text(a), CanonicalValue::Text(b)) => same_text(a.as_str(), b.as_str()),
        (CanonicalValue::Scalar(a), CanonicalValue::Scalar(b)) => *a == *b,
        (CanonicalValue::Bytes(a), CanonicalValue::Bytes(b)) => same_bytes(a, b),
        (CanonicalValue::Function { identity: a }, CanonicalValue::Function { identity: b }) => *a == *b,
        (
            CanonicalValue::Closure { identity: a, captures: x },
            CanonicalValue::Closure { identity: b, captures: y },
        ) => *a == *b && same_canonical_values(x, y),
        (CanonicalValue::Tuple(x), CanonicalValue::Tuple(y)) => same_canonical_values(x, y),
        (CanonicalValue::Array(x), CanonicalValue::Array(y)) => same_canonical_values(x, y),
        (
            CanonicalValue::Variant { typename: a, variant: v, payload: x },
            CanonicalValue::Variant { typename: b, variant: w, payload: y },
        ) => same_text(a.as_str(), b.as_str()) && same_text(v.as_str(), w.as_str()) && same_canonical_values(x, y),
        (CanonicalValue::Struct { typename: a, fields: x }, CanonicalValue::Struct { typename: b, fields: y }) => same_text(
            a.as_str(),
            b.as_str(),
        ) && same_canonical_fields(x, y),
        (
            CanonicalValue::SymbolicHandle { kind: a, identity: x },
            CanonicalValue::SymbolicHandle { kind: b, identity: y },
        ) => *a == *b && *x == *y,
        _ => false,
    }
}

/// Whether two lists of canonical values are the same, element by element.
fn same_canonical_values(left: &Vec<CanonicalValue>, right: &Vec<CanonicalValue>) -> (same: bool)
    ensures
        same == (canonical_views(left@) == canonical_views(right@)),
    decreases left,
{
    proof {
        lemma_canonical_views(left@);
        lemma_canonical_views(right@);
    }
    if left.len() != right.len() {
        return false;
    }
    let mut i: usize = 0;
    while i < left.len()
        invariant
            left@.len() == right@.len(),
            i <= left@.len(),
            canonical_views(left@).len() == left@.len(),
            canonical_views(right@).len() == right@.len(),
            forall|j: int| 0 <= j < left@.len() ==> #[trigger] canonical_views(left@)[j] == canonical_view(left@[j]),
            forall|j: int| 0 <= j < right@.len() ==> #[trigger] canonical_views(right@)[j] == canonical_view(right@[j]),
            forall|j: int| 0 <= j < i ==> canonical_view(#[trigger] left@[j]) == canonical_view(right@[j]),
        decreases left@.len() - i,
    {
        proof {
            assert(decreases_to!(left => left@[i as int]));
        }
        if !same_canonical(&left[i], &right[i]) {
            proof {
                assert(canonical_views(left@)[i as int] != canonical_views(right@)[i as int]);
            }
            return false;
        }
        i = i + 1;
    }
    proof {
        assert(canonical_views(left@) =~= canonical_views(right@));
    }
    true
}

/// Whether two lists of named canonical fields are the same, field by field.
fn same_canonical_fields(left: &Vec<(String, CanonicalValue)>, right: &Vec<(String, CanonicalValue)>) -> (same: bool)
    ensures
        same == (canonical_field_views(left@) == canonical_field_views(right@)),
    decreases left,
{
    proof {
        lemma_canonical_field_views(left@);
        lemma_canonical_field_views(right@);
    }
    if left.len() != right.len() {
        return false;
    }
    let mut i: usize = 0;
    while i < left.len()
        invariant
            left@.len() == right@.len(),
            i <= left@.len(),
            canonical_field_views(left@).len() == left@.len(),
            canonical_field_views(right@).len() == right@.len(),
            forall|j: int|
                0 <= j < left@.len() ==> #[trigger] canonical_field_views(left@)[j] == (
                    left@[j].0@,
                    canonical_view(left@[j].1),
                ),
            forall|j: int|
                0 <= j < right@.len() ==> #[trigger] canonical_field_views(right@)[j] == (
                    right@[j].0@,
                    canonical_view(right@[j].1),
                ),
            forall|j: int|
                0 <= j < i ==> (#[trigger] left@[j]).0@ == right@[j].0@ && canonical_view(left@[j].1) == canonical_view(
                    right@[j].1,
                ),
        decreases left@.len() - i,
    {
        proof {
            assert(decreases_to!(left => left@[i as int].1));
        }
        let same_name = same_text(left[i].0.as_str(), right[i].0.as_str());
        if !same_name || !same_canonical(&left[i].1, &right[i].1) {
            proof {
                assert(canonical_field_views(left@)[i as int] != canonical_field_views(right@)[i as int]);
            }
            return false;
        }
        i = i + 1;
    }
    proof {
        assert(canonical_field_views(left@) =~= canonical_field_views(right@));
    }
    true
}

/// Whether two source ranges are the same range.
pub fn same_source(left: &SourceRange, right: &SourceRange) -> (same: bool)
    ensures
        same == (left@ == right@),
{
    left.start() == right.start() && left.end() == right.end() && same_text(left.path(), right.path())
}

/// Whether the oracle's outcome is the evaluator's: the same completed value, or a panic
/// of the same kind at the same site.
pub open spec fn outcome_matches(core: OutcomeView, evaluator: EvaluationOutcome) -> bool {
    match core {
        OutcomeView::Completed(left) => match evaluator {
            EvaluationOutcome::Completed(right) => left == canonical_view(right),
            _ => false,
        },
        OutcomeView::Panicked(kind, site) => match evaluator {
            EvaluationOutcome::Panicked { kind: other_kind, site: other_site } => kind == other_kind && site == other_site@,
            _ => false,
        },
        OutcomeView::Unsupported => false,
    }
}

/// Whether the oracle's outcome agrees with the evaluator's.
pub fn oracle_matches_evaluator(core: &CompactOutcome, evaluator: &EvaluationOutcome) -> (same: bool)
    ensures
        same == outcome_matches(outcome_view(*core), *evaluator),
{
    match (core, evaluator) {
        (CompactOutcome::Completed(left), EvaluationOutcome::Completed(right)) => same_canonical(left, right),
        (CompactOutcome::Panicked(kind, site), EvaluationOutcome::Panicked { kind: other_kind, site: other_site }) => *kind
            == *other_kind && same_source(site, other_site),
        _ => false,
    }
}

/// Whether every branch names both of its targets and every short circuit the region of
/// its right operand.
pub open spec fn oracle_targets_named(executable: CoreExecutable) -> bool {
    forall|r: int, i: int|
        0 <= r < executable.regions@.len() && 0 <= i < executable.regions@[r].operations@.len() ==> {
            let operation = #[trigger] executable.regions@[r].operations@[i];
            &&& operation.oracle matches Some(OracleInstruction::Branch(_)) ==> operation.successors@.len() >= 2
            &&& operation.oracle matches Some(OracleInstruction::ShortCircuit(_)) ==> operation.successors@.len() >= 1
        }
}

/// Where the walk over located operations finds no defect, no operation duplicates or
/// dangles.
proof fn lemma_walk_sound(operations: Seq<(u32, crate::core_program::Operation)>, count: int)
    requires
        walk_defect(operations, count) is None,
    ensures
        sound_before(operations, count, operations.len() as int),
{
    lemma_sound_prefix(operations, count, operations.len() as int);
}

/// With no defect found, every prefix of the located operations is sound.
proof fn lemma_sound_prefix(operations: Seq<(u32, crate::core_program::Operation)>, count: int, k: int)
    requires
        walk_defect(operations, count) is None,
        0 <= k <= operations.len(),
    ensures
        sound_before(operations, count, k),
    decreases k,
{
    if k > 0 {
        lemma_sound_prefix(operations, count, k - 1);
        if duplicates_at(operations, k - 1) {
            assert(walk_defect(operations, count) is Some);
        }
        if dangles_at(operations, count, k - 1) {
            assert(walk_defect(operations, count) is Some);
        }
    }
}

/// In an executable whose graph has no defect, every control target of an operation is a
/// region after the operation's own.
proof fn lemma_targets_ahead(executable: CoreExecutable, r: int, i: int, s: int)
    requires
        executable_graph_defect(executable) is None,
        0 <= r < executable.regions@.len(),
        0 <= i < executable.regions@[r].operations@.len(),
        0 <= s < executable.regions@[r].operations@[i].successors@.len(),
    ensures
        r < executable.regions@[r].operations@[i].successors@[s] < executable.regions@.len(),
{
    let regions = executable.regions@;
    let operations = located_operations(regions);
    let count = regions.len() as int;
    assert(regions[r].identity == r) by {
        if regions[r].identity != r {
            assert(exists|q: int| 0 <= q < regions.len() && #[trigger] regions[q].identity != q);
        }
    }
    lemma_walk_sound(operations, count);
    lemma_located_index(regions, r, i);
    let k = located_operations(regions.take(r)).len() + i;
    assert(!dangles_at(operations, count, k));
    assert(operations[k].1.successors@[s] == regions[r].operations@[i].successors@[s]);
}

/// The walk of a region of an executable whose graph has no defect, and whose branches
/// and short circuits name their targets, never faults.
proof fn lemma_region_walk_sound(executable: CoreExecutable, region: int, state: OracleState)
    requires
        executable_graph_defect(executable) is None,
        oracle_targets_named(executable),
        0 <= region,
    ensures
        !(run_region(executable, region, state) is Fault),
    decreases executable.regions@.len() - region, 1int, 0int,
{
    if region < executable.regions@.len() {
        lemma_operations_walk_sound(executable, region, 0, state);
    }
}

/// The walk of a region from an operation on never faults, under the same conditions.
proof fn lemma_operations_walk_sound(executable: CoreExecutable, region: int, index: int, state: OracleState)
    requires
        executable_graph_defect(executable) is None,
        oracle_targets_named(executable),
        0 <= region < executable.regions@.len(),
        0 <= index,
    ensures
        !(run_operations(executable, region, index, state) is Fault),
    decreases executable.regions@.len() - region, 0int, executable.regions@[region].operations@.len() - index,
{
    let operations = executable.regions@[region].operations@;
    if index < operations.len() {
        let operation = operations[index];
        assert(operation == executable.regions@[region].operations@[index]);
        let values = state.values;
        match operation.oracle {
            Some(OracleInstruction::Literal(value)) => {
                if let Some(result) = operation.result {
                    lemma_operations_walk_sound(executable, region, index + 1, with_value(state, result, canonical_view(value)));
                }
            },
            Some(OracleInstruction::Read(local)) => {
                if let Some(result) = operation.result {
                    if state.locals.contains_key(local) {
                        lemma_operations_walk_sound(executable, region, index + 1, with_value(state, result, state.locals[local]));
                    }
                }
            },
            Some(OracleInstruction::Store { local, value }) => {
                if values.contains_key(value) {
                    lemma_operations_walk_sound(executable, region, index + 1, with_local(state, local, values[value]));
                }
            },
            Some(OracleInstruction::Binary(operator)) => {
                let operands = operation.operands@;
                if operands.len() == 2 && values.contains_key(operands[0]) && values.contains_key(operands[1]) {
                    if let BinaryView::Value(value) = oracle_binary_view(operator, values[operands[0]], values[operands[1]], operation.provenance@) {
                        if let Some(result) = operation.result {
                            lemma_operations_walk_sound(executable, region, index + 1, with_value(state, result, value));
                        }
                    }
                }
            },
            Some(OracleInstruction::ShortCircuit(operator)) => {
                let operands = operation.operands@;
                if operands.len() == 2 && values.contains_key(operands[0]) {
                    if let CanonicalView::Bool(left) = values[operands[0]] {
                        if short_circuits(operator, left) {
                            if let Some(result) = operation.result {
                                lemma_operations_walk_sound(executable, region, index + 1, with_value(state, result, CanonicalView::Bool(left)));
                            }
                        } else {
                            let target = operation.successors@[0];
                            lemma_targets_ahead(executable, region, index, 0);
                            lemma_region_walk_sound(executable, target as int, state);
                            if let OracleRun::Finished(Some(SignalView::Continue), after) = run_successor(executable, region, target, state) {
                                if let Some(result) = operation.result {
                                    if after.values.contains_key(operands[1]) {
                                        lemma_operations_walk_sound(executable, region, index + 1, with_value(after, result, after.values[operands[1]]));
                                    }
                                }
                            }
                        }
                    }
                }
            },
            Some(OracleInstruction::UnaryNegate) => {
                let operands = operation.operands@;
                if operands.len() == 1 && values.contains_key(operands[0]) {
                    if let CanonicalView::Integer { typename, value } = values[operands[0]] {
                        if let Some(negated) = checked_negation(value) {
                            if let Some(result) = operation.result {
                                lemma_operations_walk_sound(executable, region, index + 1, with_value(state, result, CanonicalView::Integer { typename, value: negated }));
                            }
                        }
                    }
                }
            },
            Some(OracleInstruction::UnaryNot) => {
                let operands = operation.operands@;
                if operands.len() == 1 && values.contains_key(operands[0]) {
                    if let CanonicalView::Bool(flag) = values[operands[0]] {
                        if let Some(result) = operation.result {
                            lemma_operations_walk_sound(executable, region, index + 1, with_value(state, result, CanonicalView::Bool(!flag)));
                        }
                    }
                }
            },
            Some(OracleInstruction::Assert(condition)) => {
                lemma_operations_walk_sound(executable, region, index + 1, state);
            },
            Some(OracleInstruction::Branch(condition)) => {
                if values.contains_key(condition) {
                    if let CanonicalView::Bool(flag) = values[condition] {
                        let choice: int = if flag { 0 } else { 1 };
                        let target = operation.successors@[choice];
                        lemma_targets_ahead(executable, region, index, choice);
                        lemma_region_walk_sound(executable, target as int, state);
                        if let OracleRun::Finished(Some(SignalView::Continue), after) = run_successor(executable, region, target, state) {
                            lemma_operations_walk_sound(executable, region, index + 1, after);
                        }
                    }
                }
            },
            Some(OracleInstruction::Pass) => {
                lemma_operations_walk_sound(executable, region, index + 1, state);
            },
            _ => {},
        }
    }
}

/// The oracle never faults on an executable whose graph has no defect and whose branches
/// and short circuits name their targets: there, `oracle_execute` can always run.
pub proof fn lemma_validated_executables_run(executable: CoreExecutable)
    requires
        executable_graph_defect(executable) is None,
        oracle_targets_named(executable),
    ensures
        !(oracle_run(executable) is Fault),
{
    lemma_region_walk_sound(executable, executable.entry as int, initial_state());
}

/// The canonical tag of a panic kind.
pub open spec fn panic_tag(kind: EvaluationPanicKind) -> u8 {
    match kind {
        EvaluationPanicKind::Explicit => 1,
        EvaluationPanicKind::AssertionFailed => 2,
        EvaluationPanicKind::IntegerOverflow => 3,
        EvaluationPanicKind::DivisionByZero => 4,
        EvaluationPanicKind::IndexOutOfBounds => 5,
    }
}

/// The canonical tag of a panic kind.
pub fn panic_tag_of(kind: EvaluationPanicKind) -> (tag: u8)
    ensures
        tag == panic_tag(kind),
{
    match kind {
        EvaluationPanicKind::Explicit => 1,
        EvaluationPanicKind::AssertionFailed => 2,
        EvaluationPanicKind::IntegerOverflow => 3,
        EvaluationPanicKind::DivisionByZero => 4,
        EvaluationPanicKind::IndexOutOfBounds => 5,
    }
}

/// The canonical encoding of an oracle outcome: tag one and the value, tag two with the
/// panic's tag and site, or tag three.
pub open spec fn oracle_outcome_bytes(outcome: CompactOutcome) -> Seq<u8> {
    match outcome {
        CompactOutcome::Completed(value) => seq![1u8] + canonical_value_bytes(value),
        CompactOutcome::Panicked(kind, site) => seq![2u8, panic_tag(kind)] + source_bytes(site@),
        CompactOutcome::Unsupported => seq![3u8],
    }
}

/// Appends the canonical encoding of an oracle outcome.
pub fn encode_oracle_outcome(bytes: &mut Vec<u8>, outcome: &CompactOutcome)
    ensures
        final(bytes)@ == old(bytes)@ + oracle_outcome_bytes(*outcome),
{
    let ghost start = bytes@;
    match outcome {
        CompactOutcome::Completed(value) => {
            push_u8(bytes, 1);
            encode_canonical_value(bytes, value);
        },
        CompactOutcome::Panicked(kind, site) => {
            push_u8(bytes, 2);
            push_u8(bytes, panic_tag_of(*kind));
            push_source(bytes, site);
        },
        CompactOutcome::Unsupported => {
            push_u8(bytes, 3);
        },
    }
    proof {
        assert(bytes@ =~= start + oracle_outcome_bytes(*outcome));
    }
}

/// The truth a binary operation gives, where it gives a boolean.
pub open spec fn truth_of(view: BinaryView) -> Option<bool> {
    match view {
        BinaryView::Value(CanonicalView::Bool(truth)) => Some(truth),
        _ => None,
    }
}

/// Whether an operator is one of the six comparisons.
pub open spec fn is_comparison(operator: BinaryOperator) -> bool {
    operator == BinaryOperator::Equal || operator == BinaryOperator::NotEqual || operator == BinaryOperator::Less
        || operator == BinaryOperator::LessEqual || operator == BinaryOperator::Greater || operator
        == BinaryOperator::GreaterEqual
}

/// What the oracle answers when it compares two integers.
pub open spec fn integer_comparison(operator: BinaryOperator, typename: Seq<char>, left: i128, right: i128, site: SourceRangeView) -> Option<bool> {
    truth_of(
        oracle_binary_view(
            operator,
            CanonicalView::Integer { typename, value: left },
            CanonicalView::Integer { typename, value: right },
            site,
        ),
    )
}

/// The oracle compares two integers of one type as the evaluator does: where the
/// evaluator answers a comparison of two integers of a type, it answers with a boolean, and
/// the oracle, given the same integers under that type's name, answers with the same one.
pub proof fn lemma_oracle_compares_as_evaluator(
    operator: BinaryOperator,
    kind: IntegerType,
    left: i128,
    right: i128,
    site: SourceRange,
    evaluated: Result<Value, EvalFailure>,
)
    requires
        is_comparison(operator),
        integer_binary_result(operator, kind, left, right, site, evaluated),
    ensures
        evaluated matches Ok(Value::Bool(truth)) && integer_comparison(
            operator,
            integer_type_name(kind),
            left,
            right,
            site@,
        ) == Some(truth),
{
}

/// The oracle's comparisons of two integers are an order: each of the six answers with a
/// boolean; exactly one of less, equal and greater holds; at-least is the negation of less
/// and at-most that of greater; greater and at-most are less and at-least with the operands
/// swapped; equal holds where both at-most and at-least hold, and not-equal is its negation;
/// and a value compared with itself is equal, at most and at least itself, and not less.
pub proof fn lemma_oracle_comparison_order(typename: Seq<char>, left: i128, right: i128, site: SourceRangeView)
    ensures
        ({
            let compare = |operator: BinaryOperator, x: i128, y: i128| integer_comparison(operator, typename, x, y, site);
            &&& forall|operator: BinaryOperator| is_comparison(operator) ==> #[trigger] compare(operator, left, right) is Some
            &&& compare(BinaryOperator::GreaterEqual, left, right) == Some(!compare(BinaryOperator::Less, left, right)->0)
            &&& compare(BinaryOperator::LessEqual, left, right) == Some(!compare(BinaryOperator::Greater, left, right)->0)
            &&& compare(BinaryOperator::Greater, left, right) == compare(BinaryOperator::Less, right, left)
            &&& compare(BinaryOperator::LessEqual, left, right) == compare(BinaryOperator::GreaterEqual, right, left)
            &&& compare(BinaryOperator::Equal, left, right) == Some(
                compare(BinaryOperator::LessEqual, left, right)->0 && compare(BinaryOperator::GreaterEqual, left, right)->0,
            )
            &&& compare(BinaryOperator::NotEqual, left, right) == Some(!compare(BinaryOperator::Equal, left, right)->0)
            &&& (if compare(BinaryOperator::Less, left, right) == Some(true) { 1int } else { 0int })
                + (if compare(BinaryOperator::Equal, left, right) == Some(true) { 1int } else { 0int })
                + (if compare(BinaryOperator::Greater, left, right) == Some(true) { 1int } else { 0int }) == 1
            &&& compare(BinaryOperator::Equal, left, left) == Some(true)
            &&& compare(BinaryOperator::LessEqual, left, left) == Some(true)
            &&& compare(BinaryOperator::GreaterEqual, left, left) == Some(true)
            &&& compare(BinaryOperator::Less, left, left) == Some(false)
        }),
{
}

/// The oracle reads back the integer type of every canonical integer type name, and
/// distinct integer types have distinct names.
pub proof fn lemma_integer_names_read_back(kind: IntegerType, other: IntegerType)
    ensures
        integer_kind_of(integer_type_name(kind)) == Some(kind),
        kind != other ==> integer_type_name(kind) != integer_type_name(other),
{
    reveal_strlit("i8");
    reveal_strlit("i16");
    reveal_strlit("i32");
    reveal_strlit("i64");
    reveal_strlit("u8");
    reveal_strlit("u16");
    reveal_strlit("u32");
    reveal_strlit("u64");
    let name = |kind: IntegerType| integer_type_name(kind);
    assert(name(IntegerType::I8).len() == 2 && name(IntegerType::U8).len() == 2);
    assert(name(IntegerType::I16)[1] == '1' && name(IntegerType::U16)[1] == '1');
    assert(name(IntegerType::I32)[1] == '3' && name(IntegerType::U32)[1] == '3');
    assert(name(IntegerType::I64)[1] == '6' && name(IntegerType::U64)[1] == '6');
    assert(name(IntegerType::I8)[0] == 'i' && name(IntegerType::I16)[0] == 'i');
    assert(name(IntegerType::I32)[0] == 'i' && name(IntegerType::I64)[0] == 'i');
    assert(name(IntegerType::U8)[0] == 'u' && name(IntegerType::U16)[0] == 'u');
    assert(name(IntegerType::U32)[0] == 'u' && name(IntegerType::U64)[0] == 'u');
    assert(name(IntegerType::I16).len() == 3 && name(IntegerType::I32).len() == 3 && name(IntegerType::I64).len() == 3);
    assert(name(IntegerType::U16).len() == 3 && name(IntegerType::U32).len() == 3 && name(IntegerType::U64).len() == 3);
}

/// The oracle's arithmetic on two integers of one type agrees with the evaluator's:
/// where the evaluator gives an integer, the oracle gives the same integer under the
/// type's name, and where the evaluator panics, the oracle ends the region with the same
/// panic at the same site.
pub proof fn lemma_oracle_arithmetic_as_evaluator(
    operator: BinaryOperator,
    kind: IntegerType,
    left: i128,
    right: i128,
    site: SourceRange,
    evaluated: Result<Value, EvalFailure>,
)
    requires
        is_arithmetic(operator),
        integer_binary_result(operator, kind, left, right, site, evaluated),
    ensures
        ({
            let oracle = oracle_binary_view(
                operator,
                CanonicalView::Integer { typename: integer_type_name(kind), value: left },
                CanonicalView::Integer { typename: integer_type_name(kind), value: right },
                site@,
            );
            match evaluated {
                Ok(Value::Integer { kind: result_kind, value }) => result_kind == kind && oracle == BinaryView::Value(
                    CanonicalView::Integer { typename: integer_type_name(kind), value },
                ),
                Err(EvalFailure::Panic(panic, _)) => oracle == BinaryView::Stop(SignalView::Panic(panic, site@)),
                _ => false,
            }
        }),
{
    lemma_integer_names_read_back(kind, kind);
}

/// The oracle's boolean operators obey the laws of boolean algebra: `and` and `or` do
/// not depend on the order of their operands; `false` decides `and` and `true` decides
/// `or`, while the other constant gives the other operand back; a boolean equals itself,
/// and not-equal is the negation of equal.
pub proof fn lemma_oracle_boolean_algebra(left: bool, right: bool, site: SourceRangeView)
    ensures
        ({
            let combine = |operator: BinaryOperator, x: bool, y: bool|
                truth_of(oracle_binary_view(operator, CanonicalView::Bool(x), CanonicalView::Bool(y), site));
            &&& combine(BinaryOperator::And, left, right) == combine(BinaryOperator::And, right, left)
            &&& combine(BinaryOperator::Or, left, right) == combine(BinaryOperator::Or, right, left)
            &&& combine(BinaryOperator::And, left, false) == Some(false)
            &&& combine(BinaryOperator::And, left, true) == Some(left)
            &&& combine(BinaryOperator::Or, left, true) == Some(true)
            &&& combine(BinaryOperator::Or, left, false) == Some(left)
            &&& combine(BinaryOperator::Equal, left, left) == Some(true)
            &&& combine(BinaryOperator::Equal, left, !left) == Some(false)
            &&& combine(BinaryOperator::NotEqual, left, right) == Some(!combine(BinaryOperator::Equal, left, right)->0)
        }),
{
}

} // verus!

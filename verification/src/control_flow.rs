//! Termination and match-coverage rules, shared by the syntax tree and the verified
//! program. Each representation is read through a statement type of its own that holds
//! what the rules look at, and one summary of control flow serves both.
use vstd::prelude::*;

verus! {

/// How control leaves a statement list: whether it can fall through to what follows, and
/// whether every path ends the function.
#[derive(Clone, Copy, Debug, PartialEq, Eq, Structural)]
pub struct FlowSummary {
    pub falls_through: bool,
    pub terminates_function: bool,
}

/// Control falls through to what follows.
pub open spec fn fallthrough() -> FlowSummary {
    FlowSummary { falls_through: true, terminates_function: false }
}

/// Control leaves the function.
pub open spec fn function_exit() -> FlowSummary {
    FlowSummary { falls_through: false, terminates_function: true }
}

/// Control leaves the enclosing loop.
pub open spec fn loop_exit() -> FlowSummary {
    FlowSummary { falls_through: false, terminates_function: false }
}

/// The summary of alternatives: a choice that may take none of them falls through;
/// otherwise control falls through if some alternative does, and ends the function if
/// every alternative does.
pub open spec fn alternatives(summaries: Seq<FlowSummary>, exhaustive: bool) -> FlowSummary {
    if !exhaustive {
        fallthrough()
    } else {
        FlowSummary {
            falls_through: exists|i: int| 0 <= i < summaries.len() && (#[trigger] summaries[i]).falls_through,
            terminates_function: forall|i: int| 0 <= i < summaries.len() ==> (#[trigger] summaries[i]).terminates_function,
        }
    }
}

/// The summary of alternatives.
fn alternatives_exec(summaries: &Vec<FlowSummary>, exhaustive: bool) -> (summary: FlowSummary)
    ensures
        summary == alternatives(summaries@, exhaustive),
{
    if !exhaustive {
        return FlowSummary { falls_through: true, terminates_function: false };
    }
    let mut falls_through = false;
    let mut terminates_function = true;
    let mut i: usize = 0;
    while i < summaries.len()
        invariant
            i <= summaries@.len(),
            falls_through == exists|j: int| 0 <= j < i && (#[trigger] summaries@[j]).falls_through,
            terminates_function == forall|j: int| 0 <= j < i ==> (#[trigger] summaries@[j]).terminates_function,
        decreases summaries@.len() - i,
    {
        proof {
            if falls_through {
                let j = choose|j: int| 0 <= j < i && (#[trigger] summaries@[j]).falls_through;
                assert(0 <= j < i + 1 && summaries@[j].falls_through);
            }
            if summaries@[i as int].falls_through {
                assert(0 <= i < i + 1 && summaries@[i as int].falls_through);
            }
            if !summaries@[i as int].terminates_function {
                assert(!(0 <= i < i + 1 ==> summaries@[i as int].terminates_function));
            }
            if !terminates_function {
                let j = choose|j: int| !(0 <= j < i ==> (#[trigger] summaries@[j]).terminates_function);
                assert(!(0 <= j < i + 1 ==> summaries@[j].terminates_function));
            }
        }
        falls_through = falls_through || summaries[i].falls_through;
        terminates_function = terminates_function && summaries[i].terminates_function;
        i = i + 1;
    }
    FlowSummary { falls_through, terminates_function }
}

/// The summary of the first statement of a list that does not fall through, given the
/// summary of the list before it and of the statement itself.
pub open spec fn then_statement(prefix: FlowSummary, statement: FlowSummary) -> FlowSummary {
    if !prefix.falls_through {
        prefix
    } else if !statement.falls_through {
        statement
    } else {
        fallthrough()
    }
}

// ---------------------------------------------------------------------------------------
// The syntax tree
// ---------------------------------------------------------------------------------------

/// What the rules read of a pattern of the syntax tree.
pub enum SyntaxPattern {
    Wildcard,
    Binding,
    Take,
    BoolLiteral(bool),
    OtherLiteral,
    Constructor,
    Tuple,
    FixedArray,
    Or(Vec<SyntaxPattern>),
    Other,
}

/// What the rules read of a case of a `match` in the syntax tree: its pattern, whether it
/// has a guard, and its body.
pub struct SyntaxMatchCase {
    pub pattern: SyntaxPattern,
    pub guarded: bool,
    pub body: Vec<SyntaxStatement>,
}

/// What the rules read of a branch of a `comptime` statement: whether it has a
/// condition, and its statements.
pub struct ComptimeBranch {
    pub conditional: bool,
    pub statements: Vec<SyntaxStatement>,
}

/// What the rules read of a statement of the syntax tree.
pub enum SyntaxStatement {
    Return,
    Panic,
    Break,
    Continue,
    If { then_branch: Vec<SyntaxStatement>, else_branch: Vec<SyntaxStatement> },
    Comptime { branches: Vec<ComptimeBranch> },
    Match { cases: Vec<SyntaxMatchCase> },
    With { body: Vec<SyntaxStatement> },
    Assert,
    Assign,
    Expect,
    Evaluate,
    For,
    While,
    Defer,
    Unsupported,
    Pass,
}

/// Whether a pattern matches whatever is left by itself: a wildcard, a binding or a take.
pub open spec fn syntax_pattern_catches_all(pattern: SyntaxPattern) -> bool {
    pattern is Wildcard || pattern is Binding || pattern is Take
}

/// Whether a pattern can be one of the patterns that together close a `match`: a
/// constructor, tuple, fixed-array or take pattern, or an or-pattern of such.
pub open spec fn syntax_pattern_closes(pattern: SyntaxPattern) -> bool
    decreases pattern,
{
    match pattern {
        SyntaxPattern::Constructor | SyntaxPattern::Tuple | SyntaxPattern::FixedArray | SyntaxPattern::Take => true,
        SyntaxPattern::Or(alternatives) => {
            proof {
                assert(decreases_to!(pattern => alternatives));
            }
            syntax_patterns_close(alternatives@)
        },
        _ => false,
    }
}

/// Whether every pattern can close a `match`.
pub open spec fn syntax_patterns_close(patterns: Seq<SyntaxPattern>) -> bool
    decreases patterns,
{
    if patterns.len() == 0 {
        true
    } else {
        syntax_patterns_close(patterns.drop_last()) && syntax_pattern_closes(patterns.last())
    }
}

/// Whether a case is an unguarded boolean literal `flag`.
pub open spec fn unguarded_bool(case: SyntaxMatchCase, flag: bool) -> bool {
    !case.guarded && case.pattern == SyntaxPattern::BoolLiteral(flag)
}

/// Whether the cases of a `match` of the syntax tree cover every value: an unguarded
/// last case that catches all does; so do unguarded `false` and `true` cases when every
/// case is an unguarded boolean literal; so do nonempty unguarded cases whose patterns
/// can all close a match.
pub open spec fn syntax_match_exhaustive(cases: Seq<SyntaxMatchCase>) -> bool {
    last_case_catches_all(cases) || boolean_cases_cover(cases) || (cases.len() > 0 && forall|i: int|
        0 <= i < cases.len() ==> !(#[trigger] cases[i]).guarded && syntax_pattern_closes(cases[i].pattern))
}

/// Whether the last case is unguarded and catches all.
pub open spec fn last_case_catches_all(cases: Seq<SyntaxMatchCase>) -> bool {
    cases.len() > 0 && syntax_pattern_catches_all(cases.last().pattern) && !cases.last().guarded
}

/// Whether every case is an unguarded boolean literal, and both `false` and `true` occur.
pub open spec fn boolean_cases_cover(cases: Seq<SyntaxMatchCase>) -> bool {
    &&& forall|i: int| 0 <= i < cases.len() ==> !(#[trigger] cases[i]).guarded && cases[i].pattern is BoolLiteral
    &&& exists|i: int| 0 <= i < cases.len() && #[trigger] unguarded_bool(cases[i], false)
    &&& exists|i: int| 0 <= i < cases.len() && #[trigger] unguarded_bool(cases[i], true)
}

/// How control leaves a statement of the syntax tree.
pub open spec fn syntax_statement_flow(statement: SyntaxStatement) -> FlowSummary
    decreases statement,
{
    match statement {
        SyntaxStatement::Return | SyntaxStatement::Panic => function_exit(),
        SyntaxStatement::Break | SyntaxStatement::Continue => loop_exit(),
        SyntaxStatement::If { then_branch, else_branch } => {
            proof {
                assert(decreases_to!(statement => then_branch));
                assert(decreases_to!(statement => else_branch));
            }
            alternatives(seq![syntax_flow(then_branch@), syntax_flow(else_branch@)], else_branch@.len() > 0)
        },
        SyntaxStatement::Comptime { branches } => {
            proof {
                assert(decreases_to!(statement => branches));
            }
            alternatives(
                comptime_summaries(branches@),
                branches@.len() > 0 && !branches@.last().conditional,
            )
        },
        SyntaxStatement::Match { cases } => {
            proof {
                assert(decreases_to!(statement => cases));
            }
            alternatives(syntax_case_summaries(cases@), syntax_match_exhaustive(cases@))
        },
        SyntaxStatement::With { body } => {
            proof {
                assert(decreases_to!(statement => body));
            }
            syntax_flow(body@)
        },
        _ => fallthrough(),
    }
}

/// How control leaves a statement list of the syntax tree.
pub open spec fn syntax_flow(statements: Seq<SyntaxStatement>) -> FlowSummary
    decreases statements,
{
    if statements.len() == 0 {
        fallthrough()
    } else {
        then_statement(syntax_flow(statements.drop_last()), syntax_statement_flow(statements.last()))
    }
}

/// The summaries of the branches of a `comptime` statement.
pub open spec fn comptime_summaries(branches: Seq<ComptimeBranch>) -> Seq<FlowSummary>
    decreases branches,
{
    if branches.len() == 0 {
        Seq::empty()
    } else {
        proof {
            assert(decreases_to!(branches => branches.last()));
            assert(decreases_to!(branches.last() => branches.last().statements));
        }
        comptime_summaries(branches.drop_last()).push(syntax_flow(branches.last().statements@))
    }
}

/// The summaries of the bodies of the cases of a `match`.
pub open spec fn syntax_case_summaries(cases: Seq<SyntaxMatchCase>) -> Seq<FlowSummary>
    decreases cases,
{
    if cases.len() == 0 {
        Seq::empty()
    } else {
        proof {
            assert(decreases_to!(cases => cases.last()));
            assert(decreases_to!(cases.last() => cases.last().body));
        }
        syntax_case_summaries(cases.drop_last()).push(syntax_flow(cases.last().body@))
    }
}

/// Every pattern can close a `match` exactly when each of them can.
proof fn lemma_patterns_close(patterns: Seq<SyntaxPattern>)
    ensures
        syntax_patterns_close(patterns) <==> forall|i: int| 0 <= i < patterns.len() ==> syntax_pattern_closes(#[trigger] patterns[i]),
    decreases patterns.len(),
{
    if patterns.len() > 0 {
        lemma_patterns_close(patterns.drop_last());
        if syntax_patterns_close(patterns) {
            assert forall|i: int| 0 <= i < patterns.len() implies syntax_pattern_closes(#[trigger] patterns[i]) by {
                if i < patterns.len() - 1 {
                    assert(patterns.drop_last()[i] == patterns[i]);
                }
            }
        }
        if forall|i: int| 0 <= i < patterns.len() ==> syntax_pattern_closes(#[trigger] patterns[i]) {
            assert forall|i: int| 0 <= i < patterns.drop_last().len() implies syntax_pattern_closes(
                #[trigger] patterns.drop_last()[i],
            ) by {
                assert(patterns.drop_last()[i] == patterns[i]);
            }
            assert(syntax_pattern_closes(patterns[patterns.len() - 1]));
        }
    }
}

/// Whether a pattern can be one of the patterns that together close a `match`.
fn syntax_pattern_can_close_match(pattern: &SyntaxPattern) -> (closes: bool)
    ensures
        closes == syntax_pattern_closes(*pattern),
    decreases pattern,
{
    match pattern {
        SyntaxPattern::Constructor | SyntaxPattern::Tuple | SyntaxPattern::FixedArray | SyntaxPattern::Take => true,
        SyntaxPattern::Or(alternatives) => {
            proof {
                lemma_patterns_close(alternatives@);
            }
            let mut i: usize = 0;
            while i < alternatives.len()
                invariant
                    i <= alternatives@.len(),
                    *pattern == SyntaxPattern::Or(*alternatives),
                    syntax_patterns_close(alternatives@) <==> forall|j: int|
                        0 <= j < alternatives@.len() ==> syntax_pattern_closes(#[trigger] alternatives@[j]),
                    forall|j: int| 0 <= j < i ==> syntax_pattern_closes(#[trigger] alternatives@[j]),
                decreases alternatives@.len() - i,
            {
                proof {
                    assert(decreases_to!(*pattern => (*pattern)->Or_0));
                    assert(decreases_to!(alternatives => alternatives@[i as int]));
                }
                if !syntax_pattern_can_close_match(&alternatives[i]) {
                    return false;
                }
                i = i + 1;
            }
            true
        },
        _ => false,
    }
}

/// Whether the cases of a `match` of the syntax tree cover every value.
fn syntax_match_exhaustive_exec(cases: &Vec<SyntaxMatchCase>) -> (exhaustive: bool)
    ensures
        exhaustive == syntax_match_exhaustive(cases@),
{
    let count = cases.len();
    if count > 0 {
        let last = &cases[count - 1];
        let catches_all = match last.pattern {
            SyntaxPattern::Wildcard | SyntaxPattern::Binding | SyntaxPattern::Take => true,
            _ => false,
        };
        if catches_all && !last.guarded {
            return true;
        }
    }
    let mut saw_false = false;
    let mut saw_true = false;
    let mut only_bools = true;
    let mut i: usize = 0;
    while i < count
        invariant
            count == cases@.len(),
            i <= count,
            saw_false == exists|j: int| 0 <= j < i && #[trigger] unguarded_bool(cases@[j], false),
            saw_true == exists|j: int| 0 <= j < i && #[trigger] unguarded_bool(cases@[j], true),
            only_bools == forall|j: int| 0 <= j < i ==> !(#[trigger] cases@[j]).guarded && cases@[j].pattern is BoolLiteral,
        decreases count - i,
    {
        let case = &cases[i];
        proof {
            assert(*case == cases@[i as int]);
            if saw_false {
                let j = choose|j: int| 0 <= j < i && #[trigger] unguarded_bool(cases@[j], false);
                assert(0 <= j < i + 1 && unguarded_bool(cases@[j], false));
            }
            if saw_true {
                let j = choose|j: int| 0 <= j < i && #[trigger] unguarded_bool(cases@[j], true);
                assert(0 <= j < i + 1 && unguarded_bool(cases@[j], true));
            }
            if !only_bools {
                let j = choose|j: int| !(0 <= j < i ==> !(#[trigger] cases@[j]).guarded && cases@[j].pattern is BoolLiteral);
                assert(!(0 <= j < i + 1 ==> !cases@[j].guarded && cases@[j].pattern is BoolLiteral));
            }
        }
        match case.pattern {
            SyntaxPattern::BoolLiteral(false) if !case.guarded => {
                proof {
                    assert(unguarded_bool(cases@[i as int], false));
                }
                saw_false = true;
            },
            SyntaxPattern::BoolLiteral(true) if !case.guarded => {
                proof {
                    assert(unguarded_bool(cases@[i as int], true));
                }
                saw_true = true;
            },
            _ => {
                proof {
                    assert(!unguarded_bool(cases@[i as int], false));
                    assert(!unguarded_bool(cases@[i as int], true));
                    assert(!(!cases@[i as int].guarded && cases@[i as int].pattern is BoolLiteral));
                }
                only_bools = false;
            },
        }
        i = i + 1;
    }
    if only_bools && saw_false && saw_true {
        return true;
    }
    if count == 0 {
        return false;
    }
    let mut k: usize = 0;
    while k < count
        invariant
            count == cases@.len(),
            k <= count,
            !last_case_catches_all(cases@),
            !boolean_cases_cover(cases@),
            forall|j: int| 0 <= j < k ==> !(#[trigger] cases@[j]).guarded && syntax_pattern_closes(cases@[j].pattern),
        decreases count - k,
    {
        if cases[k].guarded || !syntax_pattern_can_close_match(&cases[k].pattern) {
            return false;
        }
        k = k + 1;
    }
    true
}

/// If a prefix of a statement list already leaves without falling through, it decides.
proof fn lemma_syntax_prefix_decides(statements: Seq<SyntaxStatement>, k: int)
    requires
        0 <= k <= statements.len(),
        !syntax_flow(statements.take(k)).falls_through,
    ensures
        syntax_flow(statements) == syntax_flow(statements.take(k)),
    decreases statements.len() - k,
{
    if k < statements.len() {
        assert(statements.take(k + 1).drop_last() =~= statements.take(k));
        lemma_syntax_prefix_decides(statements, k + 1);
    } else {
        assert(statements.take(k) =~= statements);
    }
}

/// How control leaves a statement list of the syntax tree.
fn syntax_flow_exec(statements: &Vec<SyntaxStatement>) -> (summary: FlowSummary)
    ensures
        summary == syntax_flow(statements@),
    decreases statements,
{
    let mut i: usize = 0;
    proof {
        assert(statements@.take(0) =~= Seq::<SyntaxStatement>::empty());
    }
    while i < statements.len()
        invariant
            i <= statements@.len(),
            syntax_flow(statements@.take(i as int)) == fallthrough(),
        decreases statements@.len() - i,
    {
        proof {
            assert(decreases_to!(statements => statements@[i as int]));
            assert(statements@.take(i + 1).drop_last() =~= statements@.take(i as int));
        }
        let summary = syntax_statement_summary(&statements[i]);
        if !summary.falls_through {
            proof {
                lemma_syntax_prefix_decides(statements@, i + 1);
            }
            return summary;
        }
        i = i + 1;
    }
    proof {
        assert(statements@.take(i as int) =~= statements@);
    }
    FlowSummary { falls_through: true, terminates_function: false }
}

/// How control leaves a statement of the syntax tree.
fn syntax_statement_summary(statement: &SyntaxStatement) -> (summary: FlowSummary)
    ensures
        summary == syntax_statement_flow(*statement),
    decreases statement,
{
    match statement {
        SyntaxStatement::Return | SyntaxStatement::Panic => FlowSummary { falls_through: false, terminates_function: true },
        SyntaxStatement::Break | SyntaxStatement::Continue => FlowSummary { falls_through: false, terminates_function: false },
        SyntaxStatement::If { then_branch, else_branch } => {
            proof {
                assert(decreases_to!(statement => then_branch));
                assert(decreases_to!(statement => else_branch));
            }
            let mut summaries: Vec<FlowSummary> = Vec::new();
            summaries.push(syntax_flow_exec(then_branch));
            summaries.push(syntax_flow_exec(else_branch));
            proof {
                assert(summaries@ =~= seq![syntax_flow(then_branch@), syntax_flow(else_branch@)]);
            }
            alternatives_exec(&summaries, else_branch.len() > 0)
        },
        SyntaxStatement::Comptime { branches } => {
            let exhaustive = branches.len() > 0 && !branches[branches.len() - 1].conditional;
            let mut summaries: Vec<FlowSummary> = Vec::new();
            let mut i: usize = 0;
            proof {
                assert(branches@.take(0) =~= Seq::<ComptimeBranch>::empty());
            }
            while i < branches.len()
                invariant
                    i <= branches@.len(),
                    *statement == (SyntaxStatement::Comptime { branches: *branches }),
                    summaries@ == comptime_summaries(branches@.take(i as int)),
                decreases branches@.len() - i,
            {
                proof {
                    assert(decreases_to!(*statement => (*statement)->branches));
                    assert(decreases_to!(branches => branches@[i as int]));
                    assert(decreases_to!(branches@[i as int] => branches@[i as int].statements));
                    assert(branches@.take(i + 1).drop_last() =~= branches@.take(i as int));
                }
                summaries.push(syntax_flow_exec(&branches[i].statements));
                i = i + 1;
            }
            proof {
                assert(branches@.take(i as int) =~= branches@);
            }
            alternatives_exec(&summaries, exhaustive)
        },
        SyntaxStatement::Match { cases } => {
            let mut summaries: Vec<FlowSummary> = Vec::new();
            let mut i: usize = 0;
            proof {
                assert(cases@.take(0) =~= Seq::<SyntaxMatchCase>::empty());
            }
            while i < cases.len()
                invariant
                    i <= cases@.len(),
                    *statement == (SyntaxStatement::Match { cases: *cases }),
                    summaries@ == syntax_case_summaries(cases@.take(i as int)),
                decreases cases@.len() - i,
            {
                proof {
                    assert(decreases_to!(*statement => (*statement)->cases));
                    assert(decreases_to!(cases => cases@[i as int]));
                    assert(decreases_to!(cases@[i as int] => cases@[i as int].body));
                    assert(cases@.take(i + 1).drop_last() =~= cases@.take(i as int));
                }
                summaries.push(syntax_flow_exec(&cases[i].body));
                i = i + 1;
            }
            proof {
                assert(cases@.take(i as int) =~= cases@);
            }
            let exhaustive = syntax_match_exhaustive_exec(cases);
            alternatives_exec(&summaries, exhaustive)
        },
        SyntaxStatement::With { body } => {
            proof {
                assert(decreases_to!(statement => body));
            }
            syntax_flow_exec(body)
        },
        _ => FlowSummary { falls_through: true, terminates_function: false },
    }
}

/// Whether every path through a statement list of the syntax tree ends the function.
pub fn syntax_statements_terminate(statements: &Vec<SyntaxStatement>) -> (terminates: bool)
    ensures
        terminates == syntax_flow(statements@).terminates_function,
{
    syntax_flow_exec(statements).terminates_function
}

/// Whether control can fall through a statement list of the syntax tree.
pub fn syntax_statements_fall_through(statements: &Vec<SyntaxStatement>) -> (falls_through: bool)
    ensures
        falls_through == syntax_flow(statements@).falls_through,
{
    syntax_flow_exec(statements).falls_through
}

// ---------------------------------------------------------------------------------------
// The verified program
// ---------------------------------------------------------------------------------------

/// What the rules read of a pattern of the verified program.
#[derive(Clone, Copy, Debug, PartialEq, Eq, Structural)]
pub enum VerifiedPattern {
    Binding,
    Wildcard,
    BoolLiteral(bool),
    Other,
}

/// What the rules read of a case of a `match` in the verified program: its pattern, if
/// it has one, whether it has a guard, and its body.
pub struct VerifiedMatchCase {
    pub pattern: Option<VerifiedPattern>,
    pub guarded: bool,
    pub body: Vec<VerifiedStatement>,
}

/// What the rules read of a statement of the verified program.
pub enum VerifiedStatement {
    Return,
    Panic,
    Break,
    Continue,
    If { then_branch: Vec<VerifiedStatement>, else_branch: Vec<VerifiedStatement> },
    IfPattern { then_branch: Vec<VerifiedStatement>, else_branch: Vec<VerifiedStatement> },
    Match { cases: Vec<VerifiedMatchCase> },
    WithPool { body: Vec<VerifiedStatement> },
    Assert,
    Expect,
    Initialize,
    Assign,
    Evaluate,
    For,
    While,
    Defer,
    Pass,
}

/// Whether a case of the verified program is unguarded and catches all: no pattern, a
/// binding or a wildcard.
pub open spec fn verified_case_catches_all(case: VerifiedMatchCase) -> bool {
    !case.guarded && (case.pattern is None || case.pattern == Some(VerifiedPattern::Binding) || case.pattern == Some(
        VerifiedPattern::Wildcard,
    ))
}

/// Whether a case of the verified program is the unguarded boolean literal `flag`.
pub open spec fn verified_bool_case(case: VerifiedMatchCase, flag: bool) -> bool {
    !case.guarded && case.pattern == Some(VerifiedPattern::BoolLiteral(flag))
}

/// Whether the cases of a `match` of the verified program cover every value: an
/// unguarded last case that catches all does; otherwise every case must be an unguarded
/// boolean literal, and both `false` and `true` must occur.
pub open spec fn verified_match_covers(cases: Seq<VerifiedMatchCase>) -> bool {
    if cases.len() > 0 && verified_case_catches_all(cases.last()) {
        true
    } else {
        &&& forall|i: int| 0 <= i < cases.len() ==> #[trigger] verified_bool_case(cases[i], false) || verified_bool_case(cases[i], true)
        &&& exists|i: int| 0 <= i < cases.len() && #[trigger] verified_bool_case(cases[i], false)
        &&& exists|i: int| 0 <= i < cases.len() && #[trigger] verified_bool_case(cases[i], true)
    }
}

/// How control leaves a statement of the verified program.
pub open spec fn verified_statement_flow(statement: VerifiedStatement) -> FlowSummary
    decreases statement,
{
    match statement {
        VerifiedStatement::Return | VerifiedStatement::Panic => function_exit(),
        VerifiedStatement::Break | VerifiedStatement::Continue => loop_exit(),
        VerifiedStatement::If { then_branch, else_branch } | VerifiedStatement::IfPattern { then_branch, else_branch } => {
            proof {
                assert(decreases_to!(statement => then_branch));
                assert(decreases_to!(statement => else_branch));
            }
            alternatives(seq![verified_flow(then_branch@), verified_flow(else_branch@)], else_branch@.len() > 0)
        },
        VerifiedStatement::Match { cases } => {
            proof {
                assert(decreases_to!(statement => cases));
            }
            alternatives(verified_case_summaries(cases@), verified_match_covers(cases@))
        },
        VerifiedStatement::WithPool { body } => {
            proof {
                assert(decreases_to!(statement => body));
            }
            verified_flow(body@)
        },
        _ => fallthrough(),
    }
}

/// How control leaves a statement list of the verified program.
pub open spec fn verified_flow(statements: Seq<VerifiedStatement>) -> FlowSummary
    decreases statements,
{
    if statements.len() == 0 {
        fallthrough()
    } else {
        then_statement(verified_flow(statements.drop_last()), verified_statement_flow(statements.last()))
    }
}

/// The summaries of the bodies of the cases of a `match` of the verified program.
pub open spec fn verified_case_summaries(cases: Seq<VerifiedMatchCase>) -> Seq<FlowSummary>
    decreases cases,
{
    if cases.len() == 0 {
        Seq::empty()
    } else {
        proof {
            assert(decreases_to!(cases => cases.last()));
            assert(decreases_to!(cases.last() => cases.last().body));
        }
        verified_case_summaries(cases.drop_last()).push(verified_flow(cases.last().body@))
    }
}

/// Whether the cases of a `match` of the verified program cover every value.
pub fn verified_match_exhaustive(cases: &Vec<VerifiedMatchCase>) -> (exhaustive: bool)
    ensures
        exhaustive == verified_match_covers(cases@),
{
    let count = cases.len();
    if count > 0 {
        let last = &cases[count - 1];
        let catches_all = match last.pattern {
            None => true,
            Some(VerifiedPattern::Binding) | Some(VerifiedPattern::Wildcard) => true,
            _ => false,
        };
        if !last.guarded && catches_all {
            return true;
        }
    }
    let mut saw_false = false;
    let mut saw_true = false;
    let mut i: usize = 0;
    while i < count
        invariant
            count == cases@.len(),
            i <= count,
            !(count > 0 && verified_case_catches_all(cases@.last())),
            forall|j: int| 0 <= j < i ==> #[trigger] verified_bool_case(cases@[j], false) || verified_bool_case(cases@[j], true),
            saw_false == exists|j: int| 0 <= j < i && #[trigger] verified_bool_case(cases@[j], false),
            saw_true == exists|j: int| 0 <= j < i && #[trigger] verified_bool_case(cases@[j], true),
        decreases count - i,
    {
        let case = &cases[i];
        proof {
            assert(*case == cases@[i as int]);
            if saw_false {
                let j = choose|j: int| 0 <= j < i && #[trigger] verified_bool_case(cases@[j], false);
                assert(0 <= j < i + 1 && verified_bool_case(cases@[j], false));
            }
            if saw_true {
                let j = choose|j: int| 0 <= j < i && #[trigger] verified_bool_case(cases@[j], true);
                assert(0 <= j < i + 1 && verified_bool_case(cases@[j], true));
            }
        }
        match case.pattern {
            Some(VerifiedPattern::BoolLiteral(false)) if !case.guarded => {
                proof {
                    assert(verified_bool_case(cases@[i as int], false));
                }
                saw_false = true;
            },
            Some(VerifiedPattern::BoolLiteral(true)) if !case.guarded => {
                proof {
                    assert(verified_bool_case(cases@[i as int], true));
                }
                saw_true = true;
            },
            _ => {
                proof {
                    assert(!verified_bool_case(cases@[i as int], false) && !verified_bool_case(cases@[i as int], true));
                }
                return false;
            },
        }
        i = i + 1;
    }
    saw_false && saw_true
}

/// If a prefix of a statement list already leaves without falling through, it decides.
proof fn lemma_verified_prefix_decides(statements: Seq<VerifiedStatement>, k: int)
    requires
        0 <= k <= statements.len(),
        !verified_flow(statements.take(k)).falls_through,
    ensures
        verified_flow(statements) == verified_flow(statements.take(k)),
    decreases statements.len() - k,
{
    if k < statements.len() {
        assert(statements.take(k + 1).drop_last() =~= statements.take(k));
        lemma_verified_prefix_decides(statements, k + 1);
    } else {
        assert(statements.take(k) =~= statements);
    }
}

/// How control leaves a statement list of the verified program.
fn verified_flow_exec(statements: &Vec<VerifiedStatement>) -> (summary: FlowSummary)
    ensures
        summary == verified_flow(statements@),
    decreases statements,
{
    let mut i: usize = 0;
    proof {
        assert(statements@.take(0) =~= Seq::<VerifiedStatement>::empty());
    }
    while i < statements.len()
        invariant
            i <= statements@.len(),
            verified_flow(statements@.take(i as int)) == fallthrough(),
        decreases statements@.len() - i,
    {
        proof {
            assert(decreases_to!(statements => statements@[i as int]));
            assert(statements@.take(i + 1).drop_last() =~= statements@.take(i as int));
        }
        let summary = verified_statement_summary(&statements[i]);
        if !summary.falls_through {
            proof {
                lemma_verified_prefix_decides(statements@, i + 1);
            }
            return summary;
        }
        i = i + 1;
    }
    proof {
        assert(statements@.take(i as int) =~= statements@);
    }
    FlowSummary { falls_through: true, terminates_function: false }
}

/// How control leaves a statement of the verified program.
fn verified_statement_summary(statement: &VerifiedStatement) -> (summary: FlowSummary)
    ensures
        summary == verified_statement_flow(*statement),
    decreases statement,
{
    match statement {
        VerifiedStatement::Return | VerifiedStatement::Panic => FlowSummary { falls_through: false, terminates_function: true },
        VerifiedStatement::Break | VerifiedStatement::Continue => FlowSummary { falls_through: false, terminates_function: false },
        VerifiedStatement::If { then_branch, else_branch } | VerifiedStatement::IfPattern { then_branch, else_branch } => {
            proof {
                assert(decreases_to!(statement => then_branch));
                assert(decreases_to!(statement => else_branch));
            }
            let mut summaries: Vec<FlowSummary> = Vec::new();
            summaries.push(verified_flow_exec(then_branch));
            summaries.push(verified_flow_exec(else_branch));
            proof {
                assert(summaries@ =~= seq![verified_flow(then_branch@), verified_flow(else_branch@)]);
            }
            alternatives_exec(&summaries, else_branch.len() > 0)
        },
        VerifiedStatement::Match { cases } => {
            let mut summaries: Vec<FlowSummary> = Vec::new();
            let mut i: usize = 0;
            proof {
                assert(cases@.take(0) =~= Seq::<VerifiedMatchCase>::empty());
            }
            while i < cases.len()
                invariant
                    i <= cases@.len(),
                    *statement == (VerifiedStatement::Match { cases: *cases }),
                    summaries@ == verified_case_summaries(cases@.take(i as int)),
                decreases cases@.len() - i,
            {
                proof {
                    assert(decreases_to!(*statement => (*statement)->cases));
                    assert(decreases_to!(cases => cases@[i as int]));
                    assert(decreases_to!(cases@[i as int] => cases@[i as int].body));
                    assert(cases@.take(i + 1).drop_last() =~= cases@.take(i as int));
                }
                summaries.push(verified_flow_exec(&cases[i].body));
                i = i + 1;
            }
            proof {
                assert(cases@.take(i as int) =~= cases@);
            }
            let exhaustive = verified_match_exhaustive(cases);
            alternatives_exec(&summaries, exhaustive)
        },
        VerifiedStatement::WithPool { body } => {
            proof {
                assert(decreases_to!(statement => body));
            }
            verified_flow_exec(body)
        },
        _ => FlowSummary { falls_through: true, terminates_function: false },
    }
}

/// Whether control can fall through a statement list of the verified program.
pub fn verified_statements_fall_through(statements: &Vec<VerifiedStatement>) -> (falls_through: bool)
    ensures
        falls_through == verified_flow(statements@).falls_through,
{
    verified_flow_exec(statements).falls_through
}

// ---------------------------------------------------------------------------------------
// Laws
// ---------------------------------------------------------------------------------------

/// Whether a summary is consistent: control that always leaves the function never falls
/// through.
pub open spec fn consistent(summary: FlowSummary) -> bool {
    summary.terminates_function ==> !summary.falls_through
}

/// Alternatives of consistent summaries are consistent.
proof fn lemma_alternatives_consistent(summaries: Seq<FlowSummary>, exhaustive: bool)
    requires
        forall|i: int| 0 <= i < summaries.len() ==> consistent(#[trigger] summaries[i]),
    ensures
        consistent(alternatives(summaries, exhaustive)),
{
    if exhaustive && alternatives(summaries, exhaustive).terminates_function {
        assert forall|i: int| 0 <= i < summaries.len() implies !(#[trigger] summaries[i]).falls_through by {
            assert(summaries[i].terminates_function);
        }
    }
}

/// A statement of the syntax tree has a consistent summary.
proof fn lemma_syntax_statement_consistent(statement: SyntaxStatement)
    ensures
        consistent(syntax_statement_flow(statement)),
    decreases statement,
{
    match statement {
        SyntaxStatement::If { then_branch, else_branch } => {
            assert(decreases_to!(statement => then_branch));
            assert(decreases_to!(statement => else_branch));
            lemma_syntax_flow_consistent(then_branch@);
            lemma_syntax_flow_consistent(else_branch@);
            let summaries = seq![syntax_flow(then_branch@), syntax_flow(else_branch@)];
            assert forall|i: int| 0 <= i < summaries.len() implies consistent(#[trigger] summaries[i]) by {}
            lemma_alternatives_consistent(summaries, else_branch@.len() > 0);
        },
        SyntaxStatement::Comptime { branches } => {
            assert(decreases_to!(statement => branches));
            lemma_comptime_summaries_consistent(branches@);
            lemma_alternatives_consistent(comptime_summaries(branches@), branches@.len() > 0 && !branches@.last().conditional);
        },
        SyntaxStatement::Match { cases } => {
            assert(decreases_to!(statement => cases));
            lemma_syntax_cases_consistent(cases@);
            lemma_alternatives_consistent(syntax_case_summaries(cases@), syntax_match_exhaustive(cases@));
        },
        SyntaxStatement::With { body } => {
            assert(decreases_to!(statement => body));
            lemma_syntax_flow_consistent(body@);
        },
        _ => {},
    }
}

/// A statement list of the syntax tree has a consistent summary.
proof fn lemma_syntax_flow_consistent(statements: Seq<SyntaxStatement>)
    ensures
        consistent(syntax_flow(statements)),
    decreases statements,
{
    if statements.len() > 0 {
        lemma_syntax_flow_consistent(statements.drop_last());
        assert(decreases_to!(statements => statements.last()));
        lemma_syntax_statement_consistent(statements.last());
    }
}

/// The branches of a `comptime` statement have consistent summaries.
proof fn lemma_comptime_summaries_consistent(branches: Seq<ComptimeBranch>)
    ensures
        forall|i: int| 0 <= i < comptime_summaries(branches).len() ==> consistent(#[trigger] comptime_summaries(branches)[i]),
    decreases branches,
{
    if branches.len() > 0 {
        lemma_comptime_summaries_consistent(branches.drop_last());
        assert(decreases_to!(branches => branches.last()));
        assert(decreases_to!(branches.last() => branches.last().statements));
        lemma_syntax_flow_consistent(branches.last().statements@);
        let whole = comptime_summaries(branches);
        let prior = comptime_summaries(branches.drop_last());
        assert(whole == prior.push(syntax_flow(branches.last().statements@)));
        assert forall|i: int| 0 <= i < whole.len() implies consistent(#[trigger] whole[i]) by {
            if i < prior.len() {
                assert(whole[i] == prior[i]);
            }
        }
    }
}

/// The cases of a `match` of the syntax tree have consistent summaries.
proof fn lemma_syntax_cases_consistent(cases: Seq<SyntaxMatchCase>)
    ensures
        forall|i: int| 0 <= i < syntax_case_summaries(cases).len() ==> consistent(#[trigger] syntax_case_summaries(cases)[i]),
    decreases cases,
{
    if cases.len() > 0 {
        lemma_syntax_cases_consistent(cases.drop_last());
        assert(decreases_to!(cases => cases.last()));
        assert(decreases_to!(cases.last() => cases.last().body));
        lemma_syntax_flow_consistent(cases.last().body@);
        let whole = syntax_case_summaries(cases);
        let prior = syntax_case_summaries(cases.drop_last());
        assert(whole == prior.push(syntax_flow(cases.last().body@)));
        assert forall|i: int| 0 <= i < whole.len() implies consistent(#[trigger] whole[i]) by {
            if i < prior.len() {
                assert(whole[i] == prior[i]);
            }
        }
    }
}

/// A statement list of the syntax tree that ends the function on every path never falls
/// through to what follows it.
pub proof fn lemma_syntax_termination_excludes_fallthrough(statements: Seq<SyntaxStatement>)
    ensures
        syntax_flow(statements).terminates_function ==> !syntax_flow(statements).falls_through,
{
    lemma_syntax_flow_consistent(statements);
}

/// A statement of the verified program has a consistent summary.
proof fn lemma_verified_statement_consistent(statement: VerifiedStatement)
    ensures
        consistent(verified_statement_flow(statement)),
    decreases statement,
{
    match statement {
        VerifiedStatement::If { then_branch, else_branch } | VerifiedStatement::IfPattern { then_branch, else_branch } => {
            assert(decreases_to!(statement => then_branch));
            assert(decreases_to!(statement => else_branch));
            lemma_verified_flow_consistent(then_branch@);
            lemma_verified_flow_consistent(else_branch@);
            let summaries = seq![verified_flow(then_branch@), verified_flow(else_branch@)];
            assert forall|i: int| 0 <= i < summaries.len() implies consistent(#[trigger] summaries[i]) by {}
            lemma_alternatives_consistent(summaries, else_branch@.len() > 0);
        },
        VerifiedStatement::Match { cases } => {
            assert(decreases_to!(statement => cases));
            lemma_verified_cases_consistent(cases@);
            lemma_alternatives_consistent(verified_case_summaries(cases@), verified_match_covers(cases@));
        },
        VerifiedStatement::WithPool { body } => {
            assert(decreases_to!(statement => body));
            lemma_verified_flow_consistent(body@);
        },
        _ => {},
    }
}

/// A statement list of the verified program has a consistent summary.
proof fn lemma_verified_flow_consistent(statements: Seq<VerifiedStatement>)
    ensures
        consistent(verified_flow(statements)),
    decreases statements,
{
    if statements.len() > 0 {
        lemma_verified_flow_consistent(statements.drop_last());
        assert(decreases_to!(statements => statements.last()));
        lemma_verified_statement_consistent(statements.last());
    }
}

/// The cases of a `match` of the verified program have consistent summaries.
proof fn lemma_verified_cases_consistent(cases: Seq<VerifiedMatchCase>)
    ensures
        forall|i: int|
            0 <= i < verified_case_summaries(cases).len() ==> consistent(#[trigger] verified_case_summaries(cases)[i]),
    decreases cases,
{
    if cases.len() > 0 {
        lemma_verified_cases_consistent(cases.drop_last());
        assert(decreases_to!(cases => cases.last()));
        assert(decreases_to!(cases.last() => cases.last().body));
        lemma_verified_flow_consistent(cases.last().body@);
        let whole = verified_case_summaries(cases);
        let prior = verified_case_summaries(cases.drop_last());
        assert(whole == prior.push(verified_flow(cases.last().body@)));
        assert forall|i: int| 0 <= i < whole.len() implies consistent(#[trigger] whole[i]) by {
            if i < prior.len() {
                assert(whole[i] == prior[i]);
            }
        }
    }
}

/// A statement list of the verified program that ends the function on every path never
/// falls through to what follows it.
pub proof fn lemma_verified_termination_excludes_fallthrough(statements: Seq<VerifiedStatement>)
    ensures
        verified_flow(statements).terminates_function ==> !verified_flow(statements).falls_through,
{
    lemma_verified_flow_consistent(statements);
}

/// The summaries of the cases of a `match` of the syntax tree are those of their bodies,
/// one for each case, in order.
proof fn lemma_syntax_case_summaries_index(cases: Seq<SyntaxMatchCase>)
    ensures
        syntax_case_summaries(cases).len() == cases.len(),
        forall|i: int| 0 <= i < cases.len() ==> #[trigger] syntax_case_summaries(cases)[i] == syntax_flow(cases[i].body@),
    decreases cases,
{
    if cases.len() > 0 {
        lemma_syntax_case_summaries_index(cases.drop_last());
        assert(decreases_to!(cases => cases.last()));
        assert(decreases_to!(cases.last() => cases.last().body));
        let whole = syntax_case_summaries(cases);
        let prior = syntax_case_summaries(cases.drop_last());
        assert(whole == prior.push(syntax_flow(cases.last().body@)));
        assert forall|i: int| 0 <= i < cases.len() implies #[trigger] whole[i] == syntax_flow(cases[i].body@) by {
            if i < prior.len() {
                assert(whole[i] == prior[i]);
                assert(cases.drop_last()[i] == cases[i]);
            }
        }
    }
}

/// A `match` of the syntax tree whose last case is unguarded and is a wildcard, a binding
/// or a take covers every value, whatever its other cases are: control never passes it
/// without entering a case, so it falls through exactly when the body of some case can,
/// and it ends the function exactly when the body of every case does.
pub proof fn lemma_syntax_match_closed_by_last_case(cases: Vec<SyntaxMatchCase>)
    requires
        cases@.len() > 0,
        !cases@.last().guarded,
        cases@.last().pattern is Wildcard || cases@.last().pattern is Binding || cases@.last().pattern is Take,
    ensures
        syntax_match_exhaustive(cases@),
        syntax_statement_flow(SyntaxStatement::Match { cases }).falls_through == exists|i: int|
            0 <= i < cases@.len() && syntax_flow((#[trigger] cases@[i]).body@).falls_through,
        syntax_statement_flow(SyntaxStatement::Match { cases }).terminates_function == forall|i: int|
            0 <= i < cases@.len() ==> syntax_flow((#[trigger] cases@[i]).body@).terminates_function,
{
    lemma_syntax_case_summaries_index(cases@);
    let summaries = syntax_case_summaries(cases@);
    let flow = syntax_statement_flow(SyntaxStatement::Match { cases });
    assert(flow == alternatives(summaries, true));
    if flow.falls_through {
        let i = choose|i: int| 0 <= i < summaries.len() && (#[trigger] summaries[i]).falls_through;
        assert(syntax_flow(cases@[i].body@).falls_through);
    }
    if exists|i: int| 0 <= i < cases@.len() && syntax_flow((#[trigger] cases@[i]).body@).falls_through {
        let i = choose|i: int| 0 <= i < cases@.len() && syntax_flow((#[trigger] cases@[i]).body@).falls_through;
        assert(summaries[i].falls_through);
    }
    assert(flow.terminates_function ==> forall|i: int|
        0 <= i < cases@.len() ==> syntax_flow((#[trigger] cases@[i]).body@).terminates_function) by {
        if flow.terminates_function {
            assert forall|i: int| 0 <= i < cases@.len() implies syntax_flow((#[trigger] cases@[i]).body@).terminates_function by {
                assert(summaries[i].terminates_function);
            }
        }
    }
    assert((forall|i: int| 0 <= i < cases@.len() ==> syntax_flow((#[trigger] cases@[i]).body@).terminates_function)
        ==> flow.terminates_function) by {
        if forall|i: int| 0 <= i < cases@.len() ==> syntax_flow((#[trigger] cases@[i]).body@).terminates_function {
            assert forall|i: int| 0 <= i < summaries.len() implies (#[trigger] summaries[i]).terminates_function by {
                assert(syntax_flow(cases@[i].body@).terminates_function);
            }
        }
    }
}

/// The summaries of the cases of a `match` of the verified program are those of their
/// bodies, one for each case, in order.
proof fn lemma_verified_case_summaries_index(cases: Seq<VerifiedMatchCase>)
    ensures
        verified_case_summaries(cases).len() == cases.len(),
        forall|i: int| 0 <= i < cases.len() ==> #[trigger] verified_case_summaries(cases)[i] == verified_flow(cases[i].body@),
    decreases cases,
{
    if cases.len() > 0 {
        lemma_verified_case_summaries_index(cases.drop_last());
        assert(decreases_to!(cases => cases.last()));
        assert(decreases_to!(cases.last() => cases.last().body));
        let whole = verified_case_summaries(cases);
        let prior = verified_case_summaries(cases.drop_last());
        assert(whole == prior.push(verified_flow(cases.last().body@)));
        assert forall|i: int| 0 <= i < cases.len() implies #[trigger] whole[i] == verified_flow(cases[i].body@) by {
            if i < prior.len() {
                assert(whole[i] == prior[i]);
                assert(cases.drop_last()[i] == cases[i]);
            }
        }
    }
}

/// A `match` of the verified program whose last case is unguarded and has no pattern, a
/// binding or a wildcard covers every value, whatever its other cases are: it falls
/// through exactly when the body of some case can, and it ends the function exactly when
/// the body of every case does.
pub proof fn lemma_verified_match_closed_by_last_case(cases: Vec<VerifiedMatchCase>)
    requires
        cases@.len() > 0,
        !cases@.last().guarded,
        cases@.last().pattern is None || cases@.last().pattern == Some(VerifiedPattern::Binding)
            || cases@.last().pattern == Some(VerifiedPattern::Wildcard),
    ensures
        verified_match_covers(cases@),
        verified_statement_flow(VerifiedStatement::Match { cases }).falls_through == exists|i: int|
            0 <= i < cases@.len() && verified_flow((#[trigger] cases@[i]).body@).falls_through,
        verified_statement_flow(VerifiedStatement::Match { cases }).terminates_function == forall|i: int|
            0 <= i < cases@.len() ==> verified_flow((#[trigger] cases@[i]).body@).terminates_function,
{
    lemma_verified_case_summaries_index(cases@);
    let summaries = verified_case_summaries(cases@);
    let flow = verified_statement_flow(VerifiedStatement::Match { cases });
    assert(flow == alternatives(summaries, true));
    if flow.falls_through {
        let i = choose|i: int| 0 <= i < summaries.len() && (#[trigger] summaries[i]).falls_through;
        assert(verified_flow(cases@[i].body@).falls_through);
    }
    if exists|i: int| 0 <= i < cases@.len() && verified_flow((#[trigger] cases@[i]).body@).falls_through {
        let i = choose|i: int| 0 <= i < cases@.len() && verified_flow((#[trigger] cases@[i]).body@).falls_through;
        assert(summaries[i].falls_through);
    }
    assert(flow.terminates_function ==> forall|i: int|
        0 <= i < cases@.len() ==> verified_flow((#[trigger] cases@[i]).body@).terminates_function) by {
        if flow.terminates_function {
            assert forall|i: int| 0 <= i < cases@.len() implies verified_flow((#[trigger] cases@[i]).body@).terminates_function by {
                assert(summaries[i].terminates_function);
            }
        }
    }
    assert((forall|i: int| 0 <= i < cases@.len() ==> verified_flow((#[trigger] cases@[i]).body@).terminates_function)
        ==> flow.terminates_function) by {
        if forall|i: int| 0 <= i < cases@.len() ==> verified_flow((#[trigger] cases@[i]).body@).terminates_function {
            assert forall|i: int| 0 <= i < summaries.len() implies (#[trigger] summaries[i]).terminates_function by {
                assert(verified_flow(cases@[i].body@).terminates_function);
            }
        }
    }
}

/// A `match` of the syntax tree all of whose cases have guards may take none of them: it
/// is not exhaustive, so control falls through it and it does not end the function.
pub proof fn lemma_syntax_guarded_match_falls_through(cases: Vec<SyntaxMatchCase>)
    requires
        forall|i: int| 0 <= i < cases@.len() ==> (#[trigger] cases@[i]).guarded,
    ensures
        !syntax_match_exhaustive(cases@),
        syntax_statement_flow(SyntaxStatement::Match { cases }).falls_through,
        !syntax_statement_flow(SyntaxStatement::Match { cases }).terminates_function,
{
    if cases@.len() > 0 {
        assert(cases@.last().guarded);
        assert(cases@[0].guarded);
    }
}

/// A `match` of the syntax tree with an unguarded `true` case and an unguarded `false`
/// case, and no other, covers every boolean.
pub proof fn lemma_syntax_boolean_match_closed(cases: Vec<SyntaxMatchCase>, flag: bool)
    requires
        cases@.len() == 2,
        !cases@[0].guarded && cases@[0].pattern == SyntaxPattern::BoolLiteral(flag),
        !cases@[1].guarded && cases@[1].pattern == SyntaxPattern::BoolLiteral(!flag),
    ensures
        syntax_match_exhaustive(cases@),
{
    assert(unguarded_bool(cases@[0], flag));
    assert(unguarded_bool(cases@[1], !flag));
    assert forall|i: int| 0 <= i < cases@.len() implies !(#[trigger] cases@[i]).guarded && cases@[i].pattern is BoolLiteral by {
        assert(i == 0 || i == 1);
    }
}

/// Statements of the syntax tree after a list that never falls through are never
/// reached and change nothing; after a list that can fall through, a `return` or a panic
/// makes the whole list end the function on every path.
pub proof fn lemma_syntax_sequence(first: Seq<SyntaxStatement>, rest: Seq<SyntaxStatement>)
    ensures
        !syntax_flow(first).falls_through ==> syntax_flow(first + rest) == syntax_flow(first),
        syntax_flow(first).falls_through ==> syntax_flow(first.push(SyntaxStatement::Return)) == function_exit()
            && syntax_flow(first.push(SyntaxStatement::Panic)) == function_exit(),
{
    if !syntax_flow(first).falls_through {
        assert((first + rest).take(first.len() as int) =~= first);
        lemma_syntax_prefix_decides(first + rest, first.len() as int);
    }
    let ended = first.push(SyntaxStatement::Return);
    assert(ended.drop_last() =~= first);
    assert(ended.last() == SyntaxStatement::Return);
    assert(syntax_flow(ended) == then_statement(syntax_flow(first), syntax_statement_flow(SyntaxStatement::Return)));
    let ended = first.push(SyntaxStatement::Panic);
    assert(ended.drop_last() =~= first);
    assert(ended.last() == SyntaxStatement::Panic);
    assert(syntax_flow(ended) == then_statement(syntax_flow(first), syntax_statement_flow(SyntaxStatement::Panic)));
}

/// An `if` of the syntax tree ends the function exactly when both its branches do, and
/// control falls through it exactly when it has no `else` branch or either branch can
/// fall through.
pub proof fn lemma_syntax_if_flow(then_branch: Vec<SyntaxStatement>, else_branch: Vec<SyntaxStatement>)
    ensures
        syntax_statement_flow(SyntaxStatement::If { then_branch, else_branch }).terminates_function == (syntax_flow(
            then_branch@,
        ).terminates_function && syntax_flow(else_branch@).terminates_function),
        syntax_statement_flow(SyntaxStatement::If { then_branch, else_branch }).falls_through == (else_branch@.len() == 0
            || syntax_flow(then_branch@).falls_through || syntax_flow(else_branch@).falls_through),
{
    let branches = seq![syntax_flow(then_branch@), syntax_flow(else_branch@)];
    assert(branches[0] == syntax_flow(then_branch@) && branches[1] == syntax_flow(else_branch@));
    if else_branch@.len() == 0 {
        assert(syntax_flow(else_branch@) == fallthrough());
    }
    if syntax_flow(then_branch@).terminates_function && syntax_flow(else_branch@).terminates_function {
        assert forall|i: int| 0 <= i < branches.len() implies (#[trigger] branches[i]).terminates_function by {
            assert(i == 0 || i == 1);
        }
    }
    if exists|i: int| 0 <= i < branches.len() && (#[trigger] branches[i]).falls_through {
        let i = choose|i: int| 0 <= i < branches.len() && (#[trigger] branches[i]).falls_through;
        assert(i == 0 || i == 1);
    }
}

/// A `match` of the verified program all of whose cases have guards may take none of
/// them: control falls through it and it does not end the function.
pub proof fn lemma_verified_guarded_match_falls_through(cases: Vec<VerifiedMatchCase>)
    requires
        forall|i: int| 0 <= i < cases@.len() ==> (#[trigger] cases@[i]).guarded,
    ensures
        !verified_match_covers(cases@),
        verified_statement_flow(VerifiedStatement::Match { cases }).falls_through,
        !verified_statement_flow(VerifiedStatement::Match { cases }).terminates_function,
{
    if cases@.len() > 0 {
        assert(cases@.last().guarded);
        assert(cases@[0].guarded);
        assert(!verified_bool_case(cases@[0], false) && !verified_bool_case(cases@[0], true));
    }
}

/// Statements of the verified program after a list that never falls through are never
/// reached and change nothing; after a list that can fall through, a `return` or a panic
/// makes the whole list end the function on every path.
pub proof fn lemma_verified_sequence(first: Seq<VerifiedStatement>, rest: Seq<VerifiedStatement>)
    ensures
        !verified_flow(first).falls_through ==> verified_flow(first + rest) == verified_flow(first),
        verified_flow(first).falls_through ==> verified_flow(first.push(VerifiedStatement::Return)) == function_exit()
            && verified_flow(first.push(VerifiedStatement::Panic)) == function_exit(),
{
    if !verified_flow(first).falls_through {
        assert((first + rest).take(first.len() as int) =~= first);
        lemma_verified_prefix_decides(first + rest, first.len() as int);
    }
    let ended = first.push(VerifiedStatement::Return);
    assert(ended.drop_last() =~= first);
    assert(ended.last() == VerifiedStatement::Return);
    assert(verified_flow(ended) == then_statement(verified_flow(first), verified_statement_flow(VerifiedStatement::Return)));
    let ended = first.push(VerifiedStatement::Panic);
    assert(ended.drop_last() =~= first);
    assert(ended.last() == VerifiedStatement::Panic);
    assert(verified_flow(ended) == then_statement(verified_flow(first), verified_statement_flow(VerifiedStatement::Panic)));
}

/// An `if` of the verified program ends the function exactly when both its branches do,
/// and control falls through it exactly when it has no `else` branch or either branch can
/// fall through.
pub proof fn lemma_verified_if_flow(then_branch: Vec<VerifiedStatement>, else_branch: Vec<VerifiedStatement>)
    ensures
        verified_statement_flow(VerifiedStatement::If { then_branch, else_branch }).terminates_function == (
        verified_flow(then_branch@).terminates_function && verified_flow(else_branch@).terminates_function),
        verified_statement_flow(VerifiedStatement::If { then_branch, else_branch }).falls_through == (else_branch@.len()
            == 0 || verified_flow(then_branch@).falls_through || verified_flow(else_branch@).falls_through),
{
    let branches = seq![verified_flow(then_branch@), verified_flow(else_branch@)];
    assert(branches[0] == verified_flow(then_branch@) && branches[1] == verified_flow(else_branch@));
    if else_branch@.len() == 0 {
        assert(verified_flow(else_branch@) == fallthrough());
    }
    if verified_flow(then_branch@).terminates_function && verified_flow(else_branch@).terminates_function {
        assert forall|i: int| 0 <= i < branches.len() implies (#[trigger] branches[i]).terminates_function by {
            assert(i == 0 || i == 1);
        }
    }
    if exists|i: int| 0 <= i < branches.len() && (#[trigger] branches[i]).falls_through {
        let i = choose|i: int| 0 <= i < branches.len() && (#[trigger] branches[i]).falls_through;
        assert(i == 0 || i == 1);
    }
}

/// A nonempty `match` of the syntax tree whose cases are all unguarded constructor,
/// tuple, fixed-array or take patterns is taken to cover every value.
pub proof fn lemma_syntax_structural_cases_close(cases: Vec<SyntaxMatchCase>)
    requires
        cases@.len() > 0,
        forall|i: int|
            0 <= i < cases@.len() ==> !(#[trigger] cases@[i]).guarded && (cases@[i].pattern is Constructor
                || cases@[i].pattern is Tuple || cases@[i].pattern is FixedArray || cases@[i].pattern is Take),
    ensures
        syntax_match_exhaustive(cases@),
{
    assert forall|i: int| 0 <= i < cases@.len() implies !(#[trigger] cases@[i]).guarded && syntax_pattern_closes(
        cases@[i].pattern,
    ) by {
        match cases@[i].pattern {
            SyntaxPattern::Constructor => {},
            SyntaxPattern::Tuple => {},
            SyntaxPattern::FixedArray => {},
            SyntaxPattern::Take => {},
            _ => {},
        }
    }
}

} // verus!

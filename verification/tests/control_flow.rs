use wrela_compiler::control_flow::{
    syntax_statements_fall_through, syntax_statements_terminate, verified_match_exhaustive,
    verified_statements_fall_through, ComptimeBranch, SyntaxMatchCase, SyntaxPattern, SyntaxStatement,
    VerifiedMatchCase, VerifiedPattern, VerifiedStatement,
};

fn case(pattern: SyntaxPattern, guarded: bool, body: Vec<SyntaxStatement>) -> SyntaxMatchCase {
    SyntaxMatchCase { pattern, guarded, body }
}

fn flow(statements: Vec<SyntaxStatement>) -> (bool, bool) {
    (syntax_statements_fall_through(&statements), syntax_statements_terminate(&statements))
}

#[test]
fn exits_decide_and_later_statements_do_not_matter() {
    assert_eq!(flow(vec![]), (true, false));
    assert_eq!(flow(vec![SyntaxStatement::Pass, SyntaxStatement::Return]), (false, true));
    assert_eq!(flow(vec![SyntaxStatement::Break, SyntaxStatement::Return]), (false, false));
    assert_eq!(flow(vec![SyntaxStatement::Assign, SyntaxStatement::While]), (true, false));
}

#[test]
fn if_statements_need_an_else_to_end_the_function() {
    let without_else = SyntaxStatement::If { then_branch: vec![SyntaxStatement::Return], else_branch: vec![] };
    assert_eq!(flow(vec![without_else]), (true, false));
    let both = SyntaxStatement::If {
        then_branch: vec![SyntaxStatement::Return],
        else_branch: vec![SyntaxStatement::Panic],
    };
    assert_eq!(flow(vec![both]), (false, true));
    let loop_exit = SyntaxStatement::If {
        then_branch: vec![SyntaxStatement::Return],
        else_branch: vec![SyntaxStatement::Break],
    };
    assert_eq!(flow(vec![loop_exit]), (false, false));
    let one_falls = SyntaxStatement::If {
        then_branch: vec![SyntaxStatement::Return],
        else_branch: vec![SyntaxStatement::Pass],
    };
    assert_eq!(flow(vec![one_falls]), (true, false));
}

#[test]
fn comptime_needs_an_unconditional_last_branch() {
    let branches = |last_conditional: bool| SyntaxStatement::Comptime {
        branches: vec![
            ComptimeBranch { conditional: true, statements: vec![SyntaxStatement::Return] },
            ComptimeBranch { conditional: last_conditional, statements: vec![SyntaxStatement::Panic] },
        ],
    };
    assert_eq!(flow(vec![branches(false)]), (false, true));
    assert_eq!(flow(vec![branches(true)]), (true, false));
    assert_eq!(flow(vec![SyntaxStatement::With { body: vec![SyntaxStatement::Return] }]), (false, true));
}

#[test]
fn syntax_matches_are_exhaustive_by_catch_all_booleans_or_closing_patterns() {
    let matching = |cases: Vec<SyntaxMatchCase>| flow(vec![SyntaxStatement::Match { cases }]);
    let exit = || vec![SyntaxStatement::Return];
    assert_eq!(
        matching(vec![case(SyntaxPattern::Constructor, false, exit()), case(SyntaxPattern::Wildcard, false, exit())]),
        (false, true)
    );
    assert_eq!(
        matching(vec![case(SyntaxPattern::OtherLiteral, false, exit()), case(SyntaxPattern::Wildcard, true, exit())]),
        (true, false)
    );
    assert_eq!(
        matching(vec![
            case(SyntaxPattern::BoolLiteral(true), false, exit()),
            case(SyntaxPattern::BoolLiteral(false), false, exit()),
        ]),
        (false, true)
    );
    assert_eq!(
        matching(vec![
            case(SyntaxPattern::BoolLiteral(true), false, exit()),
            case(SyntaxPattern::BoolLiteral(false), true, exit()),
        ]),
        (true, false)
    );
    assert_eq!(
        matching(vec![
            case(SyntaxPattern::Constructor, false, exit()),
            case(SyntaxPattern::Or(vec![SyntaxPattern::Tuple, SyntaxPattern::Take]), false, exit()),
        ]),
        (false, true)
    );
    assert_eq!(
        matching(vec![
            case(SyntaxPattern::Constructor, false, exit()),
            case(SyntaxPattern::Or(vec![SyntaxPattern::Tuple, SyntaxPattern::Other]), false, exit()),
        ]),
        (true, false)
    );
    assert_eq!(matching(vec![]), (true, false));
}

fn verified_case(pattern: Option<VerifiedPattern>, guarded: bool) -> VerifiedMatchCase {
    VerifiedMatchCase { pattern, guarded, body: vec![VerifiedStatement::Return] }
}

#[test]
fn verified_matches_are_exhaustive_by_catch_all_or_both_booleans() {
    assert!(verified_match_exhaustive(&vec![verified_case(None, false)]));
    assert!(verified_match_exhaustive(&vec![
        verified_case(Some(VerifiedPattern::Other), false),
        verified_case(Some(VerifiedPattern::Binding), false),
    ]));
    assert!(!verified_match_exhaustive(&vec![verified_case(Some(VerifiedPattern::Wildcard), true)]));
    assert!(verified_match_exhaustive(&vec![
        verified_case(Some(VerifiedPattern::BoolLiteral(false)), false),
        verified_case(Some(VerifiedPattern::BoolLiteral(true)), false),
    ]));
    assert!(!verified_match_exhaustive(&vec![
        verified_case(Some(VerifiedPattern::BoolLiteral(false)), false),
        verified_case(Some(VerifiedPattern::Other), false),
    ]));
    assert!(!verified_match_exhaustive(&vec![]));
}

#[test]
fn verified_statements_fall_through_unless_every_path_leaves() {
    let both = VerifiedStatement::IfPattern {
        then_branch: vec![VerifiedStatement::Return],
        else_branch: vec![VerifiedStatement::Continue],
    };
    assert!(!verified_statements_fall_through(&vec![both]));
    assert!(verified_statements_fall_through(&vec![VerifiedStatement::WithPool { body: vec![VerifiedStatement::Pass] }]));
    let matched = VerifiedStatement::Match {
        cases: vec![
            verified_case(Some(VerifiedPattern::BoolLiteral(true)), false),
            verified_case(Some(VerifiedPattern::BoolLiteral(false)), false),
        ],
    };
    assert!(!verified_statements_fall_through(&vec![matched, VerifiedStatement::Pass]));
    assert!(verified_statements_fall_through(&vec![VerifiedStatement::Initialize]));
}

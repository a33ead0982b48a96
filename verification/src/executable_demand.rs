//! The executable demand of a completed program, as its independent verifier checks it:
//! the roots a demand grows from, the specializations they reach through solved calls,
//! the closures those hold, and the exact family of typed executable references that the
//! demand must list, each current and in the demand's own context.
use vstd::prelude::*;
use vstd::multiset::Multiset;

use std::collections::{BTreeMap, BTreeSet};

use crate::compiler::Cancellation;
use crate::completed_semantic::{
    ArtifactKind, CompletionFailure, completion_defect, ExecutableDemand, ExecutableReference, RawReference, artifact_tag,
    ascending_identities, demand_fingerprint, executable_meaning, is_reachable, lemma_integer_keys_ordered,
    reachable_all_solved, reachable_set, specialization_meaning, reachable_specializations, lemma_root_reachable,
    produce_demand_fingerprint, specialization_current_meaning, executable_current_meaning, value_facts, verify_demand_fingerprint,
    verify_executable_current_meaning, verify_reachable_specializations, verify_specialization_current_meaning,
    independently_traverse_value, IndependentValueFacts, no_facts, joined,
};
use crate::core_program::CoreSourceExecutableKind;
use crate::evaluator::{
    RetainedExecutable, TestId, Value, lemma_retained_in_concat, lemma_retained_visit_matches_traversal, retained_closures_in,
    retained_functions_in, visit_retained_executables,
};

verus! {

/// A node of a sealed construction graph, as a demand reads it: the specialization that
/// owns it and the values of its operands.
#[derive(Debug)]
pub struct DemandNode {
    pub owner: u128,
    pub operands: Vec<Value>,
}

/// A verified test body, as a demand reads it: the specializations it demands and the
/// closures it holds.
#[derive(Debug)]
pub struct DemandTestBody {
    pub id: TestId,
    pub specializations: Vec<u128>,
    pub closures: Vec<u128>,
}

/// What a completed program holds that its executable demand grows from: its context, its
/// typed program, its construction graph, its actors and its solved facts.
#[derive(Debug)]
pub struct DemandSources {
    /// The identity of the compilation context.
    pub context: u128,
    /// The fingerprint of the typed program.
    pub program_fingerprint: u128,
    /// The nodes of the construction graph.
    pub nodes: Vec<DemandNode>,
    /// The handler specializations of each completed actor.
    pub actor_handlers: Vec<Vec<u128>>,
    /// The tests the construction graph applies.
    pub test_applications: Vec<TestId>,
    /// The verified test bodies of the typed program.
    pub test_bodies: Vec<DemandTestBody>,
    /// The specializations of the typed program, each with the closures it holds.
    pub specialization_closures: BTreeMap<u128, Vec<u128>>,
    /// The specializations each specialization with solved facts calls.
    pub calls: BTreeMap<u128, Vec<u128>>,
}

/// A completed program's executable demand, with what it is checked against.
#[derive(Debug)]
pub struct DemandCandidate {
    pub sources: DemandSources,
    pub demand: ExecutableDemand,
}

/// The specializations that own construction nodes.
pub open spec fn owner_roots(nodes: Seq<DemandNode>) -> Set<u128> {
    Set::new(|identity: u128| exists|i: int| 0 <= i < nodes.len() && (#[trigger] nodes[i]).owner == identity)
}

/// The functions a traversal of operand values finds.
pub open spec fn operand_functions(operands: Seq<Value>) -> Set<u128> {
    Set::new(
        |identity: u128|
            exists|j: int| 0 <= j < operands.len() && value_facts(#[trigger] operands[j]).functions.contains(identity),
    )
}

/// The closures a traversal of operand values finds.
pub open spec fn operand_closures(operands: Seq<Value>) -> Set<u128> {
    Set::new(
        |identity: u128|
            exists|j: int| 0 <= j < operands.len() && value_facts(#[trigger] operands[j]).closures.contains(identity),
    )
}

/// The functions the operands of construction nodes retain.
pub open spec fn retained_functions(nodes: Seq<DemandNode>) -> Set<u128> {
    Set::new(
        |identity: u128|
            exists|i: int| 0 <= i < nodes.len() && operand_functions((#[trigger] nodes[i]).operands@).contains(identity),
    )
}

/// The closures the operands of construction nodes retain.
pub open spec fn retained_closures(nodes: Seq<DemandNode>) -> Set<u128> {
    Set::new(
        |identity: u128|
            exists|i: int| 0 <= i < nodes.len() && operand_closures((#[trigger] nodes[i]).operands@).contains(identity),
    )
}

/// The handler specializations of the actors.
pub open spec fn handler_roots(handlers: Seq<Vec<u128>>) -> Set<u128> {
    Set::new(|identity: u128| exists|a: int| 0 <= a < handlers.len() && (#[trigger] handlers[a])@.contains(identity))
}

/// The first verified test body of a test.
pub open spec fn find_test_body(bodies: Seq<DemandTestBody>, id: TestId) -> Option<DemandTestBody>
    decreases bodies.len(),
{
    if bodies.len() == 0 {
        None
    } else if bodies[0].id == id {
        Some(bodies[0])
    } else {
        find_test_body(bodies.drop_first(), id)
    }
}

/// Whether some applied test has no verified test body.
pub open spec fn missing_test_body(tests: Seq<TestId>, bodies: Seq<DemandTestBody>) -> bool {
    exists|i: int| 0 <= i < tests.len() && find_test_body(bodies, #[trigger] tests[i]) is None
}

/// The specializations the bodies of the applied tests demand.
pub open spec fn test_roots(tests: Seq<TestId>, bodies: Seq<DemandTestBody>) -> Set<u128> {
    Set::new(
        |identity: u128|
            exists|i: int|
                0 <= i < tests.len() && (find_test_body(bodies, #[trigger] tests[i]) matches Some(body)
                    && body.specializations@.contains(identity)),
    )
}

/// The closures the bodies of the applied tests hold.
pub open spec fn test_closures(tests: Seq<TestId>, bodies: Seq<DemandTestBody>) -> Set<u128> {
    Set::new(
        |identity: u128|
            exists|i: int|
                0 <= i < tests.len() && (find_test_body(bodies, #[trigger] tests[i]) matches Some(body)
                    && body.closures@.contains(identity)),
    )
}

/// The roots a demand grows from: the owners of construction nodes, the functions their
/// operands retain, the root specialization, the actors' handlers, and the specializations
/// the applied tests demand.
pub open spec fn demand_roots(sources: DemandSources, root: u128) -> Set<u128> {
    owner_roots(sources.nodes@).union(retained_functions(sources.nodes@)).union(set![root]).union(
        handler_roots(sources.actor_handlers@),
    ).union(test_roots(sources.test_applications@, sources.test_bodies@))
}

/// The specializations a demand reaches.
pub open spec fn demand_specializations(sources: DemandSources, root: u128) -> Set<u128> {
    reachable_set(sources.calls@, demand_roots(sources, root))
}

/// The closures that a set of specializations holds.
pub open spec fn held_closures(closures: Map<u128, Vec<u128>>, specializations: Set<u128>) -> Set<u128> {
    Set::new(
        |identity: u128|
            exists|specialization: u128|
                #![trigger specializations.contains(specialization), closures[specialization]]
                specializations.contains(specialization) && closures.contains_key(specialization)
                    && closures[specialization]@.contains(identity),
    )
}

/// The closures a demand holds: those the operands retain, those its specializations
/// hold, and those the applied tests hold.
pub open spec fn demand_closures(sources: DemandSources, root: u128) -> Set<u128> {
    retained_closures(sources.nodes@).union(
        held_closures(sources.specialization_closures@, demand_specializations(sources, root)),
    ).union(test_closures(sources.test_applications@, sources.test_bodies@))
}

/// The applied test bodies, by identity.
pub open spec fn applied_identities(tests: Seq<TestId>) -> Set<u128> {
    Set::new(|identity: u128| exists|i: int| 0 <= i < tests.len() && (#[trigger] tests[i]).identity == identity)
}

/// A family of executables as pairs of kind tag and identity.
pub open spec fn executable_family(specializations: Set<u128>, tests: Set<u128>, closures: Set<u128>) -> Set<
    (u8, u128),
> {
    Set::new(
        |entry: (u8, u128)|
            (entry.0 == artifact_tag(ArtifactKind::Specialization) && specializations.contains(entry.1)) || (entry.0
                == artifact_tag(ArtifactKind::TestBody) && tests.contains(entry.1)) || (entry.0 == artifact_tag(
                ArtifactKind::ClosureBody,
            ) && closures.contains(entry.1)),
    )
}

/// The exact family of executables a demand must list.
pub open spec fn exact_family(sources: DemandSources, root: u128) -> Set<(u8, u128)> {
    executable_family(
        demand_specializations(sources, root),
        applied_identities(sources.test_applications@),
        demand_closures(sources, root),
    )
}

/// The kind tag and identity of a listed executable.
pub open spec fn supplied_entry(executable: ExecutableReference) -> (u8, u128) {
    (artifact_tag(executable.raw_view().kind), executable.raw_view().identity)
}

/// The family of executables a demand lists.
pub open spec fn supplied_family(executables: Seq<ExecutableReference>) -> Set<(u8, u128)> {
    Set::new(
        |entry: (u8, u128)| exists|k: int| 0 <= k < executables.len() && supplied_entry(#[trigger] executables[k]) == entry,
    )
}

/// Whether a listed executable's reference has a kind other than its role's.
pub open spec fn has_wrong_kind(executables: Seq<ExecutableReference>) -> bool {
    exists|k: int| 0 <= k < executables.len() && (#[trigger] executables[k]).raw_view().kind != executables[k].role_kind()
}

/// The first listed specialization with the root's identity.
pub open spec fn first_root(executables: Seq<ExecutableReference>, root: u128) -> Option<RawReference>
    decreases executables.len(),
{
    if executables.len() == 0 {
        None
    } else {
        match executables[0] {
            ExecutableReference::Specialization(raw) if raw.identity == root => Some(raw),
            _ => first_root(executables.drop_first(), root),
        }
    }
}

/// The current meaning a listed executable must carry.
pub open spec fn expected_meaning(executable: ExecutableReference, program_fingerprint: u128) -> u128 {
    match executable {
        ExecutableReference::Specialization(raw) => specialization_meaning(program_fingerprint, raw.identity),
        ExecutableReference::TestBody(raw) => executable_meaning(program_fingerprint, ArtifactKind::TestBody, raw.identity),
        ExecutableReference::ClosureBody(raw) => executable_meaning(
            program_fingerprint,
            ArtifactKind::ClosureBody,
            raw.identity,
        ),
        ExecutableReference::Generated(raw) => executable_meaning(
            program_fingerprint,
            ArtifactKind::GeneratedExecutable,
            raw.identity,
        ),
    }
}

/// What is wrong with one listed executable: another context, or a stale meaning.
pub open spec fn listed_defect(executable: ExecutableReference, context: u128, program_fingerprint: u128) -> Option<
    Seq<char>,
> {
    if executable.raw_view().context != context {
        Some("typed executable reference crosses compilation contexts"@)
    } else if executable.raw_view().current_meaning != expected_meaning(executable, program_fingerprint) {
        Some("typed executable reference is stale"@)
    } else {
        None
    }
}

/// What is wrong with the first listed executable that has a defect.
pub open spec fn first_listed_defect(
    executables: Seq<ExecutableReference>,
    context: u128,
    program_fingerprint: u128,
) -> Option<Seq<char>>
    decreases executables.len(),
{
    if executables.len() == 0 {
        None
    } else {
        match listed_defect(executables[0], context, program_fingerprint) {
            Some(evidence) => Some(evidence),
            None => first_listed_defect(executables.drop_first(), context, program_fingerprint),
        }
    }
}

/// What is wrong with an executable demand, checked in order: its root's listing, the
/// applied tests' bodies, the solved facts of what it reaches, the kinds of its listed
/// references, whether it lists exactly the family it reaches, each listed reference's
/// context and meaning, and its fingerprint.
pub open spec fn demand_defect(candidate: DemandCandidate) -> Option<Seq<char>> {
    let demand = candidate.demand;
    let executables = demand.executables@;
    match first_root(executables, demand.root.identity) {
        None => Some("Executable Demand root is missing from its executable family"@),
        Some(listed) => if listed != demand.root {
            Some("Executable Demand root reference is cross-context, wrong-kind, or stale"@)
        } else if missing_test_body(candidate.sources.test_applications@, candidate.sources.test_bodies@) {
            Some("Test Application names a missing verified Test body"@)
        } else if !reachable_all_solved(candidate.sources.calls@, demand_roots(candidate.sources, demand.root.identity)) {
            Some("Executable Demand names a Specialization without solved facts"@)
        } else if has_wrong_kind(executables) {
            Some("typed executable reference has the wrong kind"@)
        } else if exact_family(candidate.sources, demand.root.identity) != supplied_family(executables) {
            Some("Executable Demand is not the exact reachable executable family"@)
        } else if first_listed_defect(executables, candidate.sources.context, candidate.sources.program_fingerprint) is Some {
            first_listed_defect(executables, candidate.sources.context, candidate.sources.program_fingerprint)
        } else if demand_fingerprint(demand.root.identity, executables) != demand.fingerprint {
            Some("Executable Demand fingerprint is false"@)
        } else {
            None
        },
    }
}

/// The first listed specialization with the root's identity.
fn find_demand_root(executables: &Vec<ExecutableReference>, root: u128) -> (found: Option<RawReference>)
    ensures
        found == first_root(executables@, root),
{
    let mut i: usize = 0;
    proof {
        assert(executables@.subrange(0, executables@.len() as int) =~= executables@);
    }
    while i < executables.len()
        invariant
            i <= executables@.len(),
            first_root(executables@, root) == first_root(executables@.subrange(i as int, executables@.len() as int), root),
        decreases executables@.len() - i,
    {
        proof {
            let rest = executables@.subrange(i as int, executables@.len() as int);
            assert(rest.drop_first() =~= executables@.subrange(i + 1, executables@.len() as int));
            assert(rest[0] == executables@[i as int]);
        }
        match executables[i] {
            ExecutableReference::Specialization(raw) => {
                if raw.identity == root {
                    return Some(raw);
                }
            },
            _ => {},
        }
        i = i + 1;
    }
    None
}

/// The position of the first verified test body of a test.
fn find_body_index(bodies: &Vec<DemandTestBody>, id: TestId) -> (found: Option<usize>)
    ensures
        match found {
            Some(k) => k < bodies@.len() && find_test_body(bodies@, id) == Some(bodies@[k as int]),
            None => find_test_body(bodies@, id) is None,
        },
{
    let mut i: usize = 0;
    proof {
        assert(bodies@.subrange(0, bodies@.len() as int) =~= bodies@);
    }
    while i < bodies.len()
        invariant
            i <= bodies@.len(),
            find_test_body(bodies@, id) == find_test_body(bodies@.subrange(i as int, bodies@.len() as int), id),
        decreases bodies@.len() - i,
    {
        proof {
            let rest = bodies@.subrange(i as int, bodies@.len() as int);
            assert(rest.drop_first() =~= bodies@.subrange(i + 1, bodies@.len() as int));
            assert(rest[0] == bodies@[i as int]);
        }
        if bodies[i].id == id {
            return Some(i);
        }
        i = i + 1;
    }
    None
}

/// Adds the identities of a list to a set.
fn union_slice(target: &mut BTreeSet<u128>, source: &Vec<u128>)
    ensures
        final(target)@ == old(target)@.union(source@.to_set()),
{
    broadcast use vstd::std_specs::btree::group_btree_axioms;

    proof {
        lemma_integer_keys_ordered();
    }
    let ghost start = target@;
    let mut i: usize = 0;
    while i < source.len()
        invariant
            i <= source@.len(),
            target@ == start.union(source@.take(i as int).to_set()),
        decreases source@.len() - i,
    {
        target.insert(source[i]);
        proof {
            let before = source@.take(i as int);
            let after = source@.take(i + 1);
            assert(after =~= before.push(source@[i as int]));
            assert(after.to_set() =~= before.to_set().insert(source@[i as int])) by {
                assert forall|x: u128| after.to_set().contains(x) implies before.to_set().insert(source@[i as int]).contains(x) by {
                    let k = choose|k: int| 0 <= k < after.len() && after[k] == x;
                    if k < i {
                        assert(before[k] == x);
                    }
                }
                assert forall|x: u128| before.to_set().insert(source@[i as int]).contains(x) implies after.to_set().contains(x) by {
                    if x == source@[i as int] {
                        assert(after[i as int] == x);
                    } else {
                        let k = choose|k: int| 0 <= k < before.len() && before[k] == x;
                        assert(after[k] == x);
                    }
                }
            }
            assert(target@ =~= start.union(after.to_set()));
        }
        i = i + 1;
    }
    proof {
        assert(source@.take(i as int) =~= source@);
    }
}

/// Adds the members of one set to another.
fn union_set(target: &mut BTreeSet<u128>, source: &BTreeSet<u128>)
    ensures
        final(target)@ == old(target)@.union(source@),
{
    let members = ascending_identities(source);
    union_slice(target, &members);
}

/// One more node adds its owner.
proof fn lemma_owner_roots_step(nodes: Seq<DemandNode>, i: int)
    requires
        0 <= i < nodes.len(),
    ensures
        owner_roots(nodes.take(i + 1)) == owner_roots(nodes.take(i)).insert(nodes[i].owner),
{
    let before = nodes.take(i);
    let after = nodes.take(i + 1);
    assert forall|x: u128| owner_roots(after).contains(x) implies owner_roots(before).insert(nodes[i].owner).contains(x) by {
        let k = choose|k: int| 0 <= k < after.len() && (#[trigger] after[k]).owner == x;
        if k < i {
            assert(before[k] == after[k]);
        }
    }
    assert forall|x: u128| owner_roots(before).insert(nodes[i].owner).contains(x) implies owner_roots(after).contains(x) by {
        if x == nodes[i].owner {
            assert(after[i] == nodes[i]);
        } else {
            let k = choose|k: int| 0 <= k < before.len() && (#[trigger] before[k]).owner == x;
            assert(after[k] == before[k]);
        }
    }
    assert(owner_roots(after) =~= owner_roots(before).insert(nodes[i].owner));
}

/// One more operand adds what a traversal of it finds.
proof fn lemma_operand_step(operands: Seq<Value>, j: int)
    requires
        0 <= j < operands.len(),
    ensures
        operand_functions(operands.take(j + 1)) == operand_functions(operands.take(j)).union(
            value_facts(operands[j]).functions,
        ),
        operand_closures(operands.take(j + 1)) == operand_closures(operands.take(j)).union(
            value_facts(operands[j]).closures,
        ),
{
    let before = operands.take(j);
    let after = operands.take(j + 1);
    assert forall|x: u128| operand_functions(after).contains(x) implies operand_functions(before).union(
        value_facts(operands[j]).functions,
    ).contains(x) by {
        let k = choose|k: int| 0 <= k < after.len() && value_facts(#[trigger] after[k]).functions.contains(x);
        if k < j {
            assert(before[k] == after[k]);
        }
    }
    assert forall|x: u128| operand_functions(before).union(value_facts(operands[j]).functions).contains(x) implies operand_functions(
        after,
    ).contains(x) by {
        if value_facts(operands[j]).functions.contains(x) {
            assert(after[j] == operands[j]);
        } else {
            let k = choose|k: int| 0 <= k < before.len() && value_facts(#[trigger] before[k]).functions.contains(x);
            assert(after[k] == before[k]);
        }
    }
    assert(operand_functions(after) =~= operand_functions(before).union(value_facts(operands[j]).functions));
    assert forall|x: u128| operand_closures(after).contains(x) implies operand_closures(before).union(
        value_facts(operands[j]).closures,
    ).contains(x) by {
        let k = choose|k: int| 0 <= k < after.len() && value_facts(#[trigger] after[k]).closures.contains(x);
        if k < j {
            assert(before[k] == after[k]);
        }
    }
    assert forall|x: u128| operand_closures(before).union(value_facts(operands[j]).closures).contains(x) implies operand_closures(
        after,
    ).contains(x) by {
        if value_facts(operands[j]).closures.contains(x) {
            assert(after[j] == operands[j]);
        } else {
            let k = choose|k: int| 0 <= k < before.len() && value_facts(#[trigger] before[k]).closures.contains(x);
            assert(after[k] == before[k]);
        }
    }
    assert(operand_closures(after) =~= operand_closures(before).union(value_facts(operands[j]).closures));
}

/// One more node adds what its operands retain.
proof fn lemma_retained_step(nodes: Seq<DemandNode>, i: int)
    requires
        0 <= i < nodes.len(),
    ensures
        retained_functions(nodes.take(i + 1)) == retained_functions(nodes.take(i)).union(
            operand_functions(nodes[i].operands@),
        ),
        retained_closures(nodes.take(i + 1)) == retained_closures(nodes.take(i)).union(
            operand_closures(nodes[i].operands@),
        ),
{
    let before = nodes.take(i);
    let after = nodes.take(i + 1);
    assert forall|x: u128| retained_functions(after).contains(x) implies retained_functions(before).union(
        operand_functions(nodes[i].operands@),
    ).contains(x) by {
        let k = choose|k: int| 0 <= k < after.len() && operand_functions((#[trigger] after[k]).operands@).contains(x);
        if k < i {
            assert(before[k] == after[k]);
        }
    }
    assert forall|x: u128| retained_functions(before).union(operand_functions(nodes[i].operands@)).contains(x) implies retained_functions(
        after,
    ).contains(x) by {
        if operand_functions(nodes[i].operands@).contains(x) {
            assert(after[i] == nodes[i]);
        } else {
            let k = choose|k: int| 0 <= k < before.len() && operand_functions((#[trigger] before[k]).operands@).contains(x);
            assert(after[k] == before[k]);
        }
    }
    assert(retained_functions(after) =~= retained_functions(before).union(operand_functions(nodes[i].operands@)));
    assert forall|x: u128| retained_closures(after).contains(x) implies retained_closures(before).union(
        operand_closures(nodes[i].operands@),
    ).contains(x) by {
        let k = choose|k: int| 0 <= k < after.len() && operand_closures((#[trigger] after[k]).operands@).contains(x);
        if k < i {
            assert(before[k] == after[k]);
        }
    }
    assert forall|x: u128| retained_closures(before).union(operand_closures(nodes[i].operands@)).contains(x) implies retained_closures(
        after,
    ).contains(x) by {
        if operand_closures(nodes[i].operands@).contains(x) {
            assert(after[i] == nodes[i]);
        } else {
            let k = choose|k: int| 0 <= k < before.len() && operand_closures((#[trigger] before[k]).operands@).contains(x);
            assert(after[k] == before[k]);
        }
    }
    assert(retained_closures(after) =~= retained_closures(before).union(operand_closures(nodes[i].operands@)));
}

/// One more actor adds its handlers.
proof fn lemma_handler_step(handlers: Seq<Vec<u128>>, a: int)
    requires
        0 <= a < handlers.len(),
    ensures
        handler_roots(handlers.take(a + 1)) == handler_roots(handlers.take(a)).union(handlers[a]@.to_set()),
{
    let before = handlers.take(a);
    let after = handlers.take(a + 1);
    assert forall|x: u128| handler_roots(after).contains(x) implies handler_roots(before).union(handlers[a]@.to_set()).contains(x) by {
        let k = choose|k: int| 0 <= k < after.len() && (#[trigger] after[k])@.contains(x);
        if k < a {
            assert(before[k] == after[k]);
        }
    }
    assert forall|x: u128| handler_roots(before).union(handlers[a]@.to_set()).contains(x) implies handler_roots(after).contains(x) by {
        if handlers[a]@.contains(x) {
            assert(after[a] == handlers[a]);
        } else {
            let k = choose|k: int| 0 <= k < before.len() && (#[trigger] before[k])@.contains(x);
            assert(after[k] == before[k]);
        }
    }
    assert(handler_roots(after) =~= handler_roots(before).union(handlers[a]@.to_set()));
}

/// One more applied test with a body adds what its body demands and holds.
proof fn lemma_test_step(tests: Seq<TestId>, bodies: Seq<DemandTestBody>, t: int, body: DemandTestBody)
    requires
        0 <= t < tests.len(),
        find_test_body(bodies, tests[t]) == Some(body),
    ensures
        test_roots(tests.take(t + 1), bodies) == test_roots(tests.take(t), bodies).union(body.specializations@.to_set()),
        test_closures(tests.take(t + 1), bodies) == test_closures(tests.take(t), bodies).union(body.closures@.to_set()),
        missing_test_body(tests.take(t + 1), bodies) == missing_test_body(tests.take(t), bodies),
{
    let before = tests.take(t);
    let after = tests.take(t + 1);
    assert(after[t] == tests[t]);
    assert forall|x: u128| test_roots(after, bodies).contains(x) implies test_roots(before, bodies).union(
        body.specializations@.to_set(),
    ).contains(x) by {
        let k = choose|k: int|
            0 <= k < after.len() && (find_test_body(bodies, #[trigger] after[k]) matches Some(found)
                && found.specializations@.contains(x));
        if k < t {
            assert(before[k] == after[k]);
        }
    }
    assert forall|x: u128| test_roots(before, bodies).union(body.specializations@.to_set()).contains(x) implies test_roots(
        after,
        bodies,
    ).contains(x) by {
        if !body.specializations@.contains(x) {
            let k = choose|k: int|
                0 <= k < before.len() && (find_test_body(bodies, #[trigger] before[k]) matches Some(found)
                    && found.specializations@.contains(x));
            assert(after[k] == before[k]);
        }
    }
    assert(test_roots(after, bodies) =~= test_roots(before, bodies).union(body.specializations@.to_set()));
    assert forall|x: u128| test_closures(after, bodies).contains(x) implies test_closures(before, bodies).union(
        body.closures@.to_set(),
    ).contains(x) by {
        let k = choose|k: int|
            0 <= k < after.len() && (find_test_body(bodies, #[trigger] after[k]) matches Some(found)
                && found.closures@.contains(x));
        if k < t {
            assert(before[k] == after[k]);
        }
    }
    assert forall|x: u128| test_closures(before, bodies).union(body.closures@.to_set()).contains(x) implies test_closures(
        after,
        bodies,
    ).contains(x) by {
        if !body.closures@.contains(x) {
            let k = choose|k: int|
                0 <= k < before.len() && (find_test_body(bodies, #[trigger] before[k]) matches Some(found)
                    && found.closures@.contains(x));
            assert(after[k] == before[k]);
        }
    }
    assert(test_closures(after, bodies) =~= test_closures(before, bodies).union(body.closures@.to_set()));
    if missing_test_body(after, bodies) {
        let k = choose|k: int| 0 <= k < after.len() && find_test_body(bodies, #[trigger] after[k]) is None;
        assert(k < t);
        assert(before[k] == after[k]);
    }
    if missing_test_body(before, bodies) {
        let k = choose|k: int| 0 <= k < before.len() && find_test_body(bodies, #[trigger] before[k]) is None;
        assert(after[k] == before[k]);
    }
}

/// Gathers the roots a demand grows from and the closures its operands retain, in the
/// order the checks are made: node owners, retained executables, the root, the actors'
/// handlers, and the applied tests' bodies.
#[verifier::spinoff_prover]
fn collect_demand_roots(sources: &DemandSources, root: u128, cancellation: &Cancellation) -> (result: Result<
    (BTreeSet<u128>, BTreeSet<u128>),
    CompletionFailure,
>)
    ensures
        match result {
            Ok((roots, closures)) => !missing_test_body(sources.test_applications@, sources.test_bodies@)
                && roots@ == demand_roots(*sources, root) && closures@ == retained_closures(sources.nodes@),
            Err(CompletionFailure::Defect(evidence)) => missing_test_body(
                sources.test_applications@,
                sources.test_bodies@,
            ) && evidence@ == "Test Application names a missing verified Test body"@,
            Err(CompletionFailure::Cancelled) => true,
        },
{
    broadcast use vstd::std_specs::btree::group_btree_axioms;

    proof {
        lemma_integer_keys_ordered();
    }
    let nodes = &sources.nodes;
    let mut roots: BTreeSet<u128> = BTreeSet::new();
    let mut i: usize = 0;
    proof {
        assert(owner_roots(nodes@.take(0)) =~= Set::<u128>::empty());
    }
    while i < nodes.len()
        invariant
            i <= nodes@.len(),
            roots@ == owner_roots(nodes@.take(i as int)),
        decreases nodes@.len() - i,
    {
        if cancellation.is_cancelled() {
            return Err(CompletionFailure::Cancelled);
        }
        roots.insert(nodes[i].owner);
        proof {
            lemma_owner_roots_step(nodes@, i as int);
        }
        i = i + 1;
    }
    proof {
        assert(nodes@.take(nodes@.len() as int) =~= nodes@);
    }
    let ghost owners = roots@;
    let mut retained: BTreeSet<u128> = BTreeSet::new();
    let mut i: usize = 0;
    proof {
        assert(retained_functions(nodes@.take(0)) =~= Set::<u128>::empty());
        assert(retained_closures(nodes@.take(0)) =~= Set::<u128>::empty());
    }
    while i < nodes.len()
        invariant
            i <= nodes@.len(),
            roots@ == owners.union(retained_functions(nodes@.take(i as int))),
            retained@ == retained_closures(nodes@.take(i as int)),
        decreases nodes@.len() - i,
    {
        let operands = &nodes[i].operands;
        let ghost functions_before = roots@;
        let ghost closures_before = retained@;
        let mut j: usize = 0;
        proof {
            assert(operand_functions(operands@.take(0)) =~= Set::<u128>::empty());
            assert(operand_closures(operands@.take(0)) =~= Set::<u128>::empty());
        }
        while j < operands.len()
            invariant
                j <= operands@.len(),
                i < nodes@.len(),
                operands@ == nodes@[i as int].operands@,
                roots@ == functions_before.union(operand_functions(operands@.take(j as int))),
                retained@ == closures_before.union(operand_closures(operands@.take(j as int))),
            decreases operands@.len() - j,
        {
            let mut found = IndependentValueFacts::new();
            match independently_traverse_value(&operands[j], cancellation, &mut found) {
                Ok(()) => {},
                Err(failure) => {
                    return Err(failure);
                },
            }
            union_set(&mut roots, &found.functions);
            union_set(&mut retained, &found.closures);
            proof {
                lemma_operand_step(operands@, j as int);
                assert(roots@ =~= functions_before.union(operand_functions(operands@.take(j + 1))));
                assert(retained@ =~= closures_before.union(operand_closures(operands@.take(j + 1))));
            }
            j = j + 1;
        }
        proof {
            assert(operands@.take(operands@.len() as int) =~= operands@);
            lemma_retained_step(nodes@, i as int);
            assert(roots@ =~= owners.union(retained_functions(nodes@.take(i + 1))));
            assert(retained@ =~= retained_closures(nodes@.take(i + 1)));
        }
        i = i + 1;
    }
    proof {
        assert(nodes@.take(nodes@.len() as int) =~= nodes@);
    }
    roots.insert(root);
    let ghost seeded = roots@;
    let handlers = &sources.actor_handlers;
    let mut a: usize = 0;
    proof {
        assert(handler_roots(handlers@.take(0)) =~= Set::<u128>::empty());
    }
    while a < handlers.len()
        invariant
            a <= handlers@.len(),
            roots@ == seeded.union(handler_roots(handlers@.take(a as int))),
        decreases handlers@.len() - a,
    {
        if cancellation.is_cancelled() {
            return Err(CompletionFailure::Cancelled);
        }
        union_slice(&mut roots, &handlers[a]);
        proof {
            lemma_handler_step(handlers@, a as int);
            assert(roots@ =~= seeded.union(handler_roots(handlers@.take(a + 1))));
        }
        a = a + 1;
    }
    proof {
        assert(handlers@.take(handlers@.len() as int) =~= handlers@);
    }
    let ghost handled = roots@;
    let tests = &sources.test_applications;
    let bodies = &sources.test_bodies;
    let mut t: usize = 0;
    proof {
        assert(test_roots(tests@.take(0), bodies@) =~= Set::<u128>::empty());
    }
    while t < tests.len()
        invariant
            t <= tests@.len(),
            tests@ == sources.test_applications@,
            bodies@ == sources.test_bodies@,
            roots@ == handled.union(test_roots(tests@.take(t as int), bodies@)),
            !missing_test_body(tests@.take(t as int), bodies@),
        decreases tests@.len() - t,
    {
        if cancellation.is_cancelled() {
            return Err(CompletionFailure::Cancelled);
        }
        let k = match find_body_index(bodies, tests[t]) {
            Some(k) => k,
            None => {
                proof {
                    assert(find_test_body(sources.test_bodies@, sources.test_applications@[t as int]) is None);
                    assert(missing_test_body(sources.test_applications@, sources.test_bodies@));
                }
                return Err(completion_defect("Test Application names a missing verified Test body"));
            },
        };
        union_slice(&mut roots, &bodies[k].specializations);
        proof {
            lemma_test_step(tests@, bodies@, t as int, bodies@[k as int]);
            assert(roots@ =~= handled.union(test_roots(tests@.take(t + 1), bodies@)));
        }
        t = t + 1;
    }
    proof {
        assert(tests@.take(tests@.len() as int) =~= tests@);
        assert(roots@ =~= demand_roots(*sources, root));
    }
    Ok((roots, retained))
}

/// Taking one more item of a list adds it to the set of what was taken.
proof fn lemma_take_set_step(items: Seq<u128>, i: int)
    requires
        0 <= i < items.len(),
    ensures
        items.take(i + 1).to_set() == items.take(i).to_set().insert(items[i]),
{
    let before = items.take(i);
    let after = items.take(i + 1);
    assert(after =~= before.push(items[i]));
    assert forall|x: u128| after.to_set().contains(x) implies before.to_set().insert(items[i]).contains(x) by {
        let k = choose|k: int| 0 <= k < after.len() && after[k] == x;
        if k < i {
            assert(before[k] == x);
        }
    }
    assert forall|x: u128| before.to_set().insert(items[i]).contains(x) implies after.to_set().contains(x) by {
        if x == items[i] {
            assert(after[i] == x);
        } else {
            let k = choose|k: int| 0 <= k < before.len() && before[k] == x;
            assert(after[k] == x);
        }
    }
    assert(after.to_set() =~= before.to_set().insert(items[i]));
}

/// One more specialization adds the closures it holds.
proof fn lemma_held_step(closures: Map<u128, Vec<u128>>, specializations: Set<u128>, added: u128)
    ensures
        held_closures(closures, specializations.insert(added)) == held_closures(closures, specializations).union(
            if closures.contains_key(added) {
                closures[added]@.to_set()
            } else {
                Set::empty()
            },
        ),
{
    let grown = specializations.insert(added);
    let extra = if closures.contains_key(added) {
        closures[added]@.to_set()
    } else {
        Set::empty()
    };
    assert forall|x: u128| held_closures(closures, grown).contains(x) implies held_closures(
        closures,
        specializations,
    ).union(extra).contains(x) by {
        let s = choose|s: u128|
            #![trigger grown.contains(s), closures[s]]
            grown.contains(s) && closures.contains_key(s) && closures[s]@.contains(x);
        if s != added {
            assert(specializations.contains(s));
        }
    }
    assert forall|x: u128| held_closures(closures, specializations).union(extra).contains(x) implies held_closures(
        closures,
        grown,
    ).contains(x) by {
        if extra.contains(x) {
            assert(grown.contains(added));
        } else {
            let s = choose|s: u128|
                #![trigger specializations.contains(s), closures[s]]
                specializations.contains(s) && closures.contains_key(s) && closures[s]@.contains(x);
            assert(grown.contains(s));
        }
    }
    assert(held_closures(closures, grown) =~= held_closures(closures, specializations).union(extra));
}

/// With every applied test's body found, the body of each applied test is found.
proof fn lemma_bodies_found(tests: Seq<TestId>, bodies: Seq<DemandTestBody>, t: int)
    requires
        !missing_test_body(tests, bodies),
        0 <= t < tests.len(),
    ensures
        find_test_body(bodies, tests[t]) is Some,
{
}

/// Gathers the closures a demand holds: those its operands retain, those its
/// specializations hold, and those its applied tests hold.
#[verifier::spinoff_prover]
fn collect_demand_closures(
    sources: &DemandSources,
    specializations: &BTreeSet<u128>,
    retained: BTreeSet<u128>,
    cancellation: &Cancellation,
) -> (result: Result<BTreeSet<u128>, CompletionFailure>)
    requires
        !missing_test_body(sources.test_applications@, sources.test_bodies@),
    ensures
        match result {
            Ok(closures) => closures@ == retained@.union(
                held_closures(sources.specialization_closures@, specializations@),
            ).union(test_closures(sources.test_applications@, sources.test_bodies@)),
            Err(failure) => failure == CompletionFailure::Cancelled,
        },
{
    broadcast use vstd::std_specs::btree::group_btree_axioms;

    proof {
        lemma_integer_keys_ordered();
    }
    let ghost start = retained@;
    let mut closures = retained;
    let members = ascending_identities(specializations);
    let held = &sources.specialization_closures;
    let mut i: usize = 0;
    proof {
        assert(members@.take(0).to_set() =~= Set::<u128>::empty());
        assert(held_closures(held@, Set::<u128>::empty()) =~= Set::<u128>::empty());
    }
    while i < members.len()
        invariant
            i <= members@.len(),
            held@ == sources.specialization_closures@,
            closures@ == start.union(held_closures(held@, members@.take(i as int).to_set())),
        decreases members@.len() - i,
    {
        if cancellation.is_cancelled() {
            return Err(CompletionFailure::Cancelled);
        }
        proof {
            lemma_take_set_step(members@, i as int);
            lemma_held_step(held@, members@.take(i as int).to_set(), members@[i as int]);
        }
        match held.get(&members[i]) {
            Some(list) => {
                union_slice(&mut closures, list);
                proof {
                    assert(closures@ =~= start.union(held_closures(held@, members@.take(i + 1).to_set())));
                }
            },
            None => {
                proof {
                    assert(closures@ =~= start.union(held_closures(held@, members@.take(i + 1).to_set())));
                }
            },
        }
        i = i + 1;
    }
    proof {
        assert(members@.take(members@.len() as int) =~= members@);
    }
    let ghost specialized = closures@;
    let tests = &sources.test_applications;
    let bodies = &sources.test_bodies;
    let mut t: usize = 0;
    proof {
        assert(test_closures(tests@.take(0), bodies@) =~= Set::<u128>::empty());
    }
    while t < tests.len()
        invariant
            t <= tests@.len(),
            tests@ == sources.test_applications@,
            bodies@ == sources.test_bodies@,
            !missing_test_body(tests@, bodies@),
            closures@ == specialized.union(test_closures(tests@.take(t as int), bodies@)),
        decreases tests@.len() - t,
    {
        if cancellation.is_cancelled() {
            return Err(CompletionFailure::Cancelled);
        }
        proof {
            lemma_bodies_found(tests@, bodies@, t as int);
        }
        match find_body_index(bodies, tests[t]) {
            Some(k) => {
                union_slice(&mut closures, &bodies[k].closures);
                proof {
                    lemma_test_step(tests@, bodies@, t as int, bodies@[k as int]);
                    assert(closures@ =~= specialized.union(test_closures(tests@.take(t + 1), bodies@)));
                }
            },
            None => {},
        }
        t = t + 1;
    }
    proof {
        assert(tests@.take(tests@.len() as int) =~= tests@);
        assert(closures@ =~= start.union(held_closures(held@, specializations@)).union(
            test_closures(tests@, bodies@),
        ));
    }
    Ok(closures)
}

/// Pairs of kind tag and identity obey the ordering laws under which the std ordered
/// collections are specified.
proof fn lemma_family_keys_ordered()
    ensures
        vstd::laws_cmp::obeys_cmp::<(u8, u128)>(),
        vstd::std_specs::btree::key_obeys_cmp_spec::<(u8, u128)>(),
{
    broadcast use vstd::std_specs::btree::group_btree_axioms, vstd::laws_cmp::group_laws_cmp;

}

/// The family a demand reaches: its specializations, its applied test bodies and its
/// closures, as pairs of kind tag and identity.
#[verifier::spinoff_prover]
fn reached_family(
    specializations: &BTreeSet<u128>,
    tests: &Vec<TestId>,
    closures: &BTreeSet<u128>,
    cancellation: &Cancellation,
) -> (result: Result<BTreeSet<(u8, u128)>, CompletionFailure>)
    ensures
        match result {
            Ok(family) => family@.finite() && family@ == executable_family(
                specializations@,
                applied_identities(tests@),
                closures@,
            ),
            Err(failure) => failure == CompletionFailure::Cancelled,
        },
{
    broadcast use vstd::std_specs::btree::group_btree_axioms;

    proof {
        lemma_family_keys_ordered();
    }
    let mut family: BTreeSet<(u8, u128)> = BTreeSet::new();
    let members = ascending_identities(specializations);
    let mut i: usize = 0;
    proof {
        assert(members@.take(0).to_set() =~= Set::<u128>::empty());
        assert(family@ =~= executable_family(Set::empty(), Set::empty(), Set::empty()));
    }
    while i < members.len()
        invariant
            i <= members@.len(),
            family@.finite(),
            family@ == executable_family(members@.take(i as int).to_set(), Set::empty(), Set::empty()),
        decreases members@.len() - i,
    {
        if cancellation.is_cancelled() {
            return Err(CompletionFailure::Cancelled);
        }
        family.insert((ArtifactKind::Specialization.tag(), members[i]));
        proof {
            lemma_take_set_step(members@, i as int);
            assert(family@ =~= executable_family(members@.take(i + 1).to_set(), Set::empty(), Set::empty()));
        }
        i = i + 1;
    }
    proof {
        assert(members@.take(members@.len() as int) =~= members@);
        assert(applied_identities(tests@.take(0)) =~= Set::<u128>::empty());
    }
    let mut t: usize = 0;
    while t < tests.len()
        invariant
            t <= tests@.len(),
            family@.finite(),
            family@ == executable_family(specializations@, applied_identities(tests@.take(t as int)), Set::empty()),
        decreases tests@.len() - t,
    {
        if cancellation.is_cancelled() {
            return Err(CompletionFailure::Cancelled);
        }
        family.insert((ArtifactKind::TestBody.tag(), tests[t].identity));
        proof {
            let before = tests@.take(t as int);
            let after = tests@.take(t + 1);
            assert(after[t as int] == tests@[t as int]);
            assert forall|x: u128| applied_identities(after).contains(x) implies applied_identities(before).insert(
                tests@[t as int].identity,
            ).contains(x) by {
                let k = choose|k: int| 0 <= k < after.len() && (#[trigger] after[k]).identity == x;
                if k < t {
                    assert(before[k] == after[k]);
                }
            }
            assert forall|x: u128| applied_identities(before).insert(tests@[t as int].identity).contains(x) implies applied_identities(
                after,
            ).contains(x) by {
                if x != tests@[t as int].identity {
                    let k = choose|k: int| 0 <= k < before.len() && (#[trigger] before[k]).identity == x;
                    assert(after[k] == before[k]);
                }
            }
            assert(applied_identities(after) =~= applied_identities(before).insert(tests@[t as int].identity));
            assert(family@ =~= executable_family(specializations@, applied_identities(after), Set::empty()));
        }
        t = t + 1;
    }
    proof {
        assert(tests@.take(tests@.len() as int) =~= tests@);
    }
    let held = ascending_identities(closures);
    let mut c: usize = 0;
    proof {
        assert(held@.take(0).to_set() =~= Set::<u128>::empty());
    }
    while c < held.len()
        invariant
            c <= held@.len(),
            family@.finite(),
            family@ == executable_family(specializations@, applied_identities(tests@), held@.take(c as int).to_set()),
        decreases held@.len() - c,
    {
        if cancellation.is_cancelled() {
            return Err(CompletionFailure::Cancelled);
        }
        family.insert((ArtifactKind::ClosureBody.tag(), held[c]));
        proof {
            lemma_take_set_step(held@, c as int);
            assert(family@ =~= executable_family(
                specializations@,
                applied_identities(tests@),
                held@.take(c + 1).to_set(),
            ));
        }
        c = c + 1;
    }
    proof {
        assert(held@.take(held@.len() as int) =~= held@);
    }
    Ok(family)
}

/// The family a demand lists, after checking that each listed reference has its role's
/// kind.
#[verifier::spinoff_prover]
fn listed_family(executables: &Vec<ExecutableReference>, cancellation: &Cancellation) -> (result: Result<
    BTreeSet<(u8, u128)>,
    CompletionFailure,
>)
    ensures
        match result {
            Ok(family) => !has_wrong_kind(executables@) && family@.finite() && family@ == supplied_family(
                executables@,
            ),
            Err(CompletionFailure::Defect(evidence)) => has_wrong_kind(executables@) && evidence@
                == "typed executable reference has the wrong kind"@,
            Err(CompletionFailure::Cancelled) => true,
        },
{
    broadcast use vstd::std_specs::btree::group_btree_axioms;

    proof {
        lemma_family_keys_ordered();
    }
    let mut family: BTreeSet<(u8, u128)> = BTreeSet::new();
    let mut k: usize = 0;
    proof {
        assert(supplied_family(executables@.take(0)) =~= Set::<(u8, u128)>::empty());
    }
    while k < executables.len()
        invariant
            k <= executables@.len(),
            family@.finite(),
            family@ == supplied_family(executables@.take(k as int)),
            !has_wrong_kind(executables@.take(k as int)),
        decreases executables@.len() - k,
    {
        if cancellation.is_cancelled() {
            return Err(CompletionFailure::Cancelled);
        }
        let raw = executables[k].raw();
        if raw.kind != executables[k].role() {
            proof {
                assert(has_wrong_kind(executables@)) by {
                    assert(executables@[k as int].raw_view().kind != executables@[k as int].role_kind());
                }
            }
            return Err(completion_defect("typed executable reference has the wrong kind"));
        }
        family.insert((raw.kind.tag(), raw.identity));
        proof {
            let before = executables@.take(k as int);
            let after = executables@.take(k + 1);
            assert(after[k as int] == executables@[k as int]);
            assert forall|entry: (u8, u128)| supplied_family(after).contains(entry) implies supplied_family(before).insert(
                supplied_entry(executables@[k as int]),
            ).contains(entry) by {
                let m = choose|m: int| 0 <= m < after.len() && supplied_entry(#[trigger] after[m]) == entry;
                if m < k {
                    assert(before[m] == after[m]);
                }
            }
            assert forall|entry: (u8, u128)| supplied_family(before).insert(supplied_entry(executables@[k as int])).contains(
                entry,
            ) implies supplied_family(after).contains(entry) by {
                if entry != supplied_entry(executables@[k as int]) {
                    let m = choose|m: int| 0 <= m < before.len() && supplied_entry(#[trigger] before[m]) == entry;
                    assert(after[m] == before[m]);
                }
            }
            assert(family@ =~= supplied_family(after));
            if has_wrong_kind(after) {
                let m = choose|m: int| 0 <= m < after.len() && (#[trigger] after[m]).raw_view().kind != after[m].role_kind();
                if m < k {
                    assert(before[m] == after[m]);
                }
            }
        }
        k = k + 1;
    }
    proof {
        assert(executables@.take(executables@.len() as int) =~= executables@);
    }
    Ok(family)
}

/// Whether two finite families are the same.
fn same_family(first: &BTreeSet<(u8, u128)>, second: &BTreeSet<(u8, u128)>) -> (same: bool)
    requires
        first@.finite(),
        second@.finite(),
    ensures
        same == (first@ == second@),
{
    broadcast use vstd::std_specs::btree::group_btree_axioms;

    proof {
        lemma_family_keys_ordered();
    }
    if first.len() != second.len() {
        return false;
    }
    for entry in iter: second.iter()
        invariant
            first@.finite(),
            second@.finite(),
            first@.len() == second@.len(),
            iter.seq().unref().to_set() == second@,
            forall|j: int| 0 <= j < iter.index() ==> first@.contains(*#[trigger] iter.seq()[j]),
    {
        if !first.contains(entry) {
            proof {
                assert(iter.seq().unref().to_set().contains(*entry));
            }
            return false;
        }
    }
    proof {
        assert forall|entry: (u8, u128)| second@.contains(entry) implies first@.contains(entry) by {
            assert(second@.contains(entry));
        }
        vstd::set_lib::lemma_subset_equality(second@, first@);
    }
    true
}

/// Checks, in order, that each listed executable is in the demand's context and carries
/// its current meaning.
fn check_listed_references(
    executables: &Vec<ExecutableReference>,
    context: u128,
    program_fingerprint: u128,
) -> (result: Result<(), CompletionFailure>)
    ensures
        match result {
            Ok(()) => first_listed_defect(executables@, context, program_fingerprint) is None,
            Err(CompletionFailure::Defect(evidence)) => first_listed_defect(executables@, context, program_fingerprint)
                == Some(evidence@),
            Err(CompletionFailure::Cancelled) => false,
        },
{
    let mut i: usize = 0;
    proof {
        assert(executables@.subrange(0, executables@.len() as int) =~= executables@);
    }
    while i < executables.len()
        invariant
            i <= executables@.len(),
            first_listed_defect(executables@, context, program_fingerprint) == first_listed_defect(
                executables@.subrange(i as int, executables@.len() as int),
                context,
                program_fingerprint,
            ),
        decreases executables@.len() - i,
    {
        proof {
            let rest = executables@.subrange(i as int, executables@.len() as int);
            assert(rest.drop_first() =~= executables@.subrange(i + 1, executables@.len() as int));
            assert(rest[0] == executables@[i as int]);
        }
        let raw = executables[i].raw();
        if raw.context != context {
            return Err(completion_defect("typed executable reference crosses compilation contexts"));
        }
        let current = match executables[i] {
            ExecutableReference::Specialization(reference) => verify_specialization_current_meaning(
                program_fingerprint,
                reference.identity,
            ),
            ExecutableReference::TestBody(reference) => verify_executable_current_meaning(
                program_fingerprint,
                ArtifactKind::TestBody,
                reference.identity,
            ),
            ExecutableReference::ClosureBody(reference) => verify_executable_current_meaning(
                program_fingerprint,
                ArtifactKind::ClosureBody,
                reference.identity,
            ),
            ExecutableReference::Generated(reference) => verify_executable_current_meaning(
                program_fingerprint,
                ArtifactKind::GeneratedExecutable,
                reference.identity,
            ),
        };
        if raw.current_meaning != current {
            return Err(completion_defect("typed executable reference is stale"));
        }
        i = i + 1;
    }
    Ok(())
}

/// Checks an executable demand against the completed program that holds it, in the order
/// `demand_defect` states. A cancelled check answers `Cancelled`; otherwise the check
/// passes exactly when the demand has no defect, and a failed check answers the first.
#[verifier::spinoff_prover]
pub fn verify_demand(candidate: &DemandCandidate, cancellation: &Cancellation) -> (result: Result<(), CompletionFailure>)
    ensures
        match result {
            Ok(()) => demand_defect(*candidate) is None,
            Err(CompletionFailure::Defect(evidence)) => demand_defect(*candidate) == Some(evidence@),
            Err(CompletionFailure::Cancelled) => true,
        },
        first_root(candidate.demand.executables@, candidate.demand.root.identity) != Some(candidate.demand.root) ==> (
        result matches Err(CompletionFailure::Defect(_))),
{
    let demand = &candidate.demand;
    let listed = match find_demand_root(&demand.executables, demand.root.identity) {
        Some(listed) => listed,
        None => {
            return Err(completion_defect("Executable Demand root is missing from its executable family"));
        },
    };
    if listed != demand.root {
        return Err(completion_defect("Executable Demand root reference is cross-context, wrong-kind, or stale"));
    }
    let (roots, retained) = match collect_demand_roots(&candidate.sources, demand.root.identity, cancellation) {
        Ok(found) => found,
        Err(failure) => {
            return Err(failure);
        },
    };
    let specializations = match verify_reachable_specializations(&roots, &candidate.sources.calls, cancellation) {
        Ok(specializations) => specializations,
        Err(failure) => {
            return Err(failure);
        },
    };
    let closures = match collect_demand_closures(&candidate.sources, &specializations, retained, cancellation) {
        Ok(closures) => closures,
        Err(failure) => {
            return Err(failure);
        },
    };
    let supplied = match listed_family(&demand.executables, cancellation) {
        Ok(family) => family,
        Err(failure) => {
            return Err(failure);
        },
    };
    let exact = match reached_family(&specializations, &candidate.sources.test_applications, &closures, cancellation) {
        Ok(family) => family,
        Err(failure) => {
            return Err(failure);
        },
    };
    if !same_family(&exact, &supplied) {
        return Err(completion_defect("Executable Demand is not the exact reachable executable family"));
    }
    match check_listed_references(&demand.executables, candidate.sources.context, candidate.sources.program_fingerprint) {
        Ok(()) => {},
        Err(failure) => {
            return Err(failure);
        },
    }
    let fingerprint = match verify_demand_fingerprint(demand.root, &demand.executables, cancellation) {
        Ok(fingerprint) => fingerprint,
        Err(failure) => {
            return Err(failure);
        },
    };
    if fingerprint != demand.fingerprint {
        return Err(completion_defect("Executable Demand fingerprint is false"));
    }
    Ok(())
}

/// Whether identities never fall along a list.
pub open spec fn nondecreasing(identities: Seq<u128>) -> bool {
    forall|i: int, j: int| 0 <= i < j < identities.len() ==> identities[i] <= identities[j]
}

/// Whether identities rise strictly along a list.
pub open spec fn strictly_ascending(identities: Seq<u128>) -> bool {
    forall|i: int, j: int| 0 <= i < j < identities.len() ==> identities[i] < identities[j]
}

/// The applied tests, each once, in the order of their first application.
pub open spec fn distinct_tests(tests: Seq<TestId>) -> Seq<TestId>
    decreases tests.len(),
{
    if tests.len() == 0 {
        Seq::empty()
    } else {
        let prior = distinct_tests(tests.drop_last());
        if prior.contains(tests.last()) {
            prior
        } else {
            prior.push(tests.last())
        }
    }
}

/// The identities of the applied tests' bodies, one for each distinct applied test.
pub open spec fn applied_test_identities(tests: Seq<TestId>) -> Multiset<u128> {
    distinct_tests(tests).map_values(|test: TestId| test.identity).to_multiset()
}

/// Whether a list holds a test.
fn holds_test(tests: &Vec<TestId>, test: TestId) -> (held: bool)
    ensures
        held == tests@.contains(test),
{
    let mut i: usize = 0;
    while i < tests.len()
        invariant
            i <= tests@.len(),
            forall|k: int| 0 <= k < i ==> tests@[k] != test,
        decreases tests@.len() - i,
    {
        if tests[i] == test {
            return true;
        }
        i = i + 1;
    }
    false
}

/// Inserts an identity into a non-decreasing list after the entries no greater than it.
fn insert_ascending(sorted: &mut Vec<u128>, identity: u128)
    requires
        nondecreasing(old(sorted)@),
    ensures
        nondecreasing(final(sorted)@),
        final(sorted)@.to_multiset() == old(sorted)@.to_multiset().insert(identity),
{
    broadcast use vstd::seq_lib::to_multiset_insert;

    let mut position: usize = 0;
    let mut searching = true;
    while searching && position < sorted.len()
        invariant
            position <= sorted@.len(),
            nondecreasing(sorted@),
            forall|k: int| 0 <= k < position ==> sorted@[k] <= identity,
            !searching ==> position < sorted@.len() && sorted@[position as int] > identity,
        decreases sorted@.len() - position, if searching { 1int } else { 0int },
    {
        if sorted[position] > identity {
            searching = false;
        } else {
            position = position + 1;
        }
    }
    let ghost before = sorted@;
    sorted.insert(position, identity);
    proof {
        assert(sorted@ =~= before.insert(position as int, identity));
        assert forall|i: int, j: int| 0 <= i < j < sorted@.len() implies sorted@[i] <= sorted@[j] by {
            if j < position {
            } else if j == position {
                assert(before[i] <= identity);
            } else if i < position {
                assert(before[i] <= identity);
                assert(position < before.len());
                assert(before[position as int] > identity);
                assert(before[position as int] <= before[j - 1]);
            } else if i == position {
                assert(before[position as int] > identity);
                assert(before[position as int] <= before[j - 1]);
            } else {
                assert(before[i - 1] <= before[j - 1]);
            }
        }
    }
}

/// The identities of the applied tests' bodies, one for each distinct applied test, in
/// non-decreasing order.
fn applied_test_order(tests: &Vec<TestId>, cancellation: &Cancellation) -> (result: Result<Vec<u128>, CompletionFailure>)
    ensures
        match result {
            Ok(order) => nondecreasing(order@) && order@.to_multiset() == applied_test_identities(tests@),
            Err(failure) => failure == CompletionFailure::Cancelled,
        },
{
    broadcast use vstd::seq_lib::to_multiset_build;

    let mut distinct: Vec<TestId> = Vec::new();
    let mut i: usize = 0;
    proof {
        assert(tests@.take(0) =~= Seq::<TestId>::empty());
    }
    while i < tests.len()
        invariant
            i <= tests@.len(),
            distinct@ == distinct_tests(tests@.take(i as int)),
        decreases tests@.len() - i,
    {
        if cancellation.is_cancelled() {
            return Err(CompletionFailure::Cancelled);
        }
        proof {
            assert(tests@.take(i + 1).drop_last() =~= tests@.take(i as int));
            assert(tests@.take(i + 1).last() == tests@[i as int]);
        }
        if !holds_test(&distinct, tests[i]) {
            distinct.push(tests[i]);
        }
        i = i + 1;
    }
    proof {
        assert(tests@.take(tests@.len() as int) =~= tests@);
    }
    let mut order: Vec<u128> = Vec::new();
    let mut k: usize = 0;
    proof {
        assert(distinct@.take(0).map_values(|test: TestId| test.identity) =~= Seq::<u128>::empty());
    }
    while k < distinct.len()
        invariant
            k <= distinct@.len(),
            nondecreasing(order@),
            order@.to_multiset() == distinct@.take(k as int).map_values(|test: TestId| test.identity).to_multiset(),
        decreases distinct@.len() - k,
    {
        if cancellation.is_cancelled() {
            return Err(CompletionFailure::Cancelled);
        }
        insert_ascending(&mut order, distinct[k].identity);
        proof {
            let prior = distinct@.take(k as int).map_values(|test: TestId| test.identity);
            assert(distinct@.take(k + 1).map_values(|test: TestId| test.identity) =~= prior.push(
                distinct@[k as int].identity,
            ));
            vstd::seq_lib::to_multiset_build(prior, distinct@[k as int].identity);
        }
        k = k + 1;
    }
    proof {
        assert(distinct@.take(distinct@.len() as int) =~= distinct@);
    }
    Ok(order)
}

/// Adds retained functions to one set and retained closures to another.
fn absorb_retained(found: &Vec<RetainedExecutable>, functions: &mut BTreeSet<u128>, closures: &mut BTreeSet<u128>)
    ensures
        final(functions)@ == old(functions)@.union(retained_functions_in(found@)),
        final(closures)@ == old(closures)@.union(retained_closures_in(found@)),
{
    broadcast use vstd::std_specs::btree::group_btree_axioms;

    proof {
        lemma_integer_keys_ordered();
    }
    let ghost functions_before = functions@;
    let ghost closures_before = closures@;
    let mut k: usize = 0;
    proof {
        assert(retained_functions_in(found@.take(0)) =~= Set::<u128>::empty());
        assert(retained_closures_in(found@.take(0)) =~= Set::<u128>::empty());
    }
    while k < found.len()
        invariant
            k <= found@.len(),
            functions@ == functions_before.union(retained_functions_in(found@.take(k as int))),
            closures@ == closures_before.union(retained_closures_in(found@.take(k as int))),
        decreases found@.len() - k,
    {
        proof {
            assert(found@.take(k + 1) =~= found@.take(k as int) + seq![found@[k as int]]);
            lemma_retained_in_concat(found@.take(k as int), seq![found@[k as int]]);
            assert(seq![found@[k as int]][0] == found@[k as int]);
        }
        match found[k] {
            RetainedExecutable::Function(identity) => {
                functions.insert(identity);
                proof {
                    assert(retained_functions_in(seq![found@[k as int]]) =~= set![identity]);
                    assert(retained_closures_in(seq![found@[k as int]]) =~= Set::<u128>::empty());
                }
            },
            RetainedExecutable::Closure(identity) => {
                closures.insert(identity);
                proof {
                    assert(retained_functions_in(seq![found@[k as int]]) =~= Set::<u128>::empty());
                    assert(retained_closures_in(seq![found@[k as int]]) =~= set![identity]);
                }
            },
        }
        proof {
            assert(functions@ =~= functions_before.union(retained_functions_in(found@.take(k + 1))));
            assert(closures@ =~= closures_before.union(retained_closures_in(found@.take(k + 1))));
        }
        k = k + 1;
    }
    proof {
        assert(found@.take(found@.len() as int) =~= found@);
    }
}

/// The producer's gathering of the roots a demand grows from and the closures its
/// operands retain, through its own visit of operand values, in the order the checks are
/// made: node owners, retained executables, the root, the actors'
/// handlers, and the applied tests' bodies.
#[verifier::spinoff_prover]
fn produce_demand_roots(sources: &DemandSources, root: u128, cancellation: &Cancellation) -> (result: Result<
    (BTreeSet<u128>, BTreeSet<u128>),
    CompletionFailure,
>)
    ensures
        match result {
            Ok((roots, closures)) => !missing_test_body(sources.test_applications@, sources.test_bodies@)
                && roots@ == demand_roots(*sources, root) && closures@ == retained_closures(sources.nodes@),
            Err(CompletionFailure::Defect(evidence)) => missing_test_body(
                sources.test_applications@,
                sources.test_bodies@,
            ) && evidence@ == "Test Application names a missing verified Test body"@,
            Err(CompletionFailure::Cancelled) => true,
        },
{
    broadcast use vstd::std_specs::btree::group_btree_axioms;

    proof {
        lemma_integer_keys_ordered();
    }
    let nodes = &sources.nodes;
    let mut roots: BTreeSet<u128> = BTreeSet::new();
    let mut i: usize = 0;
    proof {
        assert(owner_roots(nodes@.take(0)) =~= Set::<u128>::empty());
    }
    while i < nodes.len()
        invariant
            i <= nodes@.len(),
            roots@ == owner_roots(nodes@.take(i as int)),
        decreases nodes@.len() - i,
    {
        if cancellation.is_cancelled() {
            return Err(CompletionFailure::Cancelled);
        }
        roots.insert(nodes[i].owner);
        proof {
            lemma_owner_roots_step(nodes@, i as int);
        }
        i = i + 1;
    }
    proof {
        assert(nodes@.take(nodes@.len() as int) =~= nodes@);
    }
    let ghost owners = roots@;
    let mut retained: BTreeSet<u128> = BTreeSet::new();
    let mut i: usize = 0;
    proof {
        assert(retained_functions(nodes@.take(0)) =~= Set::<u128>::empty());
        assert(retained_closures(nodes@.take(0)) =~= Set::<u128>::empty());
    }
    while i < nodes.len()
        invariant
            i <= nodes@.len(),
            roots@ == owners.union(retained_functions(nodes@.take(i as int))),
            retained@ == retained_closures(nodes@.take(i as int)),
        decreases nodes@.len() - i,
    {
        let operands = &nodes[i].operands;
        let ghost functions_before = roots@;
        let ghost closures_before = retained@;
        let mut j: usize = 0;
        proof {
            assert(operand_functions(operands@.take(0)) =~= Set::<u128>::empty());
            assert(operand_closures(operands@.take(0)) =~= Set::<u128>::empty());
        }
        while j < operands.len()
            invariant
                j <= operands@.len(),
                i < nodes@.len(),
                operands@ == nodes@[i as int].operands@,
                roots@ == functions_before.union(operand_functions(operands@.take(j as int))),
                retained@ == closures_before.union(operand_closures(operands@.take(j as int))),
            decreases operands@.len() - j,
        {
            let mut found: Vec<RetainedExecutable> = Vec::new();
            if !visit_retained_executables(&operands[j], cancellation, &mut found) {
                return Err(CompletionFailure::Cancelled);
            }
            absorb_retained(&found, &mut roots, &mut retained);
            proof {
                lemma_retained_visit_matches_traversal(operands@[j as int]);
            }
            proof {
                lemma_operand_step(operands@, j as int);
                assert(roots@ =~= functions_before.union(operand_functions(operands@.take(j + 1))));
                assert(retained@ =~= closures_before.union(operand_closures(operands@.take(j + 1))));
            }
            j = j + 1;
        }
        proof {
            assert(operands@.take(operands@.len() as int) =~= operands@);
            lemma_retained_step(nodes@, i as int);
            assert(roots@ =~= owners.union(retained_functions(nodes@.take(i + 1))));
            assert(retained@ =~= retained_closures(nodes@.take(i + 1)));
        }
        i = i + 1;
    }
    proof {
        assert(nodes@.take(nodes@.len() as int) =~= nodes@);
    }
    roots.insert(root);
    let ghost seeded = roots@;
    let handlers = &sources.actor_handlers;
    let mut a: usize = 0;
    proof {
        assert(handler_roots(handlers@.take(0)) =~= Set::<u128>::empty());
    }
    while a < handlers.len()
        invariant
            a <= handlers@.len(),
            roots@ == seeded.union(handler_roots(handlers@.take(a as int))),
        decreases handlers@.len() - a,
    {
        if cancellation.is_cancelled() {
            return Err(CompletionFailure::Cancelled);
        }
        union_slice(&mut roots, &handlers[a]);
        proof {
            lemma_handler_step(handlers@, a as int);
            assert(roots@ =~= seeded.union(handler_roots(handlers@.take(a + 1))));
        }
        a = a + 1;
    }
    proof {
        assert(handlers@.take(handlers@.len() as int) =~= handlers@);
    }
    let ghost handled = roots@;
    let tests = &sources.test_applications;
    let bodies = &sources.test_bodies;
    let mut t: usize = 0;
    proof {
        assert(test_roots(tests@.take(0), bodies@) =~= Set::<u128>::empty());
    }
    while t < tests.len()
        invariant
            t <= tests@.len(),
            tests@ == sources.test_applications@,
            bodies@ == sources.test_bodies@,
            roots@ == handled.union(test_roots(tests@.take(t as int), bodies@)),
            !missing_test_body(tests@.take(t as int), bodies@),
        decreases tests@.len() - t,
    {
        if cancellation.is_cancelled() {
            return Err(CompletionFailure::Cancelled);
        }
        let k = match find_body_index(bodies, tests[t]) {
            Some(k) => k,
            None => {
                proof {
                    assert(find_test_body(sources.test_bodies@, sources.test_applications@[t as int]) is None);
                    assert(missing_test_body(sources.test_applications@, sources.test_bodies@));
                }
                return Err(completion_defect("Test Application names a missing verified Test body"));
            },
        };
        union_slice(&mut roots, &bodies[k].specializations);
        proof {
            lemma_test_step(tests@, bodies@, t as int, bodies@[k as int]);
            assert(roots@ =~= handled.union(test_roots(tests@.take(t + 1), bodies@)));
        }
        t = t + 1;
    }
    proof {
        assert(tests@.take(tests@.len() as int) =~= tests@);
        assert(roots@ =~= demand_roots(*sources, root));
    }
    Ok((roots, retained))
}

/// The typed reference to a specialization of a program, in a context.
pub open spec fn specialization_entry(context: u128, program_fingerprint: u128, identity: u128) -> ExecutableReference {
    ExecutableReference::Specialization(
        RawReference {
            context,
            kind: ArtifactKind::Specialization,
            identity,
            current_meaning: specialization_meaning(program_fingerprint, identity),
        },
    )
}

/// The typed reference to a test body of a program, in a context.
pub open spec fn test_body_entry(context: u128, program_fingerprint: u128, identity: u128) -> ExecutableReference {
    ExecutableReference::TestBody(
        RawReference {
            context,
            kind: ArtifactKind::TestBody,
            identity,
            current_meaning: executable_meaning(program_fingerprint, ArtifactKind::TestBody, identity),
        },
    )
}

/// The typed reference to a closure body of a program, in a context.
pub open spec fn closure_body_entry(context: u128, program_fingerprint: u128, identity: u128) -> ExecutableReference {
    ExecutableReference::ClosureBody(
        RawReference {
            context,
            kind: ArtifactKind::ClosureBody,
            identity,
            current_meaning: executable_meaning(program_fingerprint, ArtifactKind::ClosureBody, identity),
        },
    )
}

/// A listing of executables: specializations, then test bodies, then closure bodies, each
/// by the given identities in order.
pub open spec fn demand_listing(
    context: u128,
    program_fingerprint: u128,
    specializations: Seq<u128>,
    tests: Seq<u128>,
    closures: Seq<u128>,
) -> Seq<ExecutableReference> {
    specializations.map_values(|identity: u128| specialization_entry(context, program_fingerprint, identity))
        + tests.map_values(|identity: u128| test_body_entry(context, program_fingerprint, identity))
        + closures.map_values(|identity: u128| closure_body_entry(context, program_fingerprint, identity))
}

/// Whether executables are the listing a demand holds: the specializations it reaches in
/// ascending order, a test body for each distinct applied test in ascending order of
/// identity, and the closures it holds in ascending order, each current in its context.
pub open spec fn is_demand_listing(sources: DemandSources, root: u128, executables: Seq<ExecutableReference>) -> bool {
    exists|specializations: Seq<u128>, tests: Seq<u128>, closures: Seq<u128>|
        #[trigger] demand_listing(sources.context, sources.program_fingerprint, specializations, tests, closures)
            == executables && strictly_ascending(specializations) && specializations.to_set()
            == demand_specializations(sources, root) && nondecreasing(tests) && tests.to_multiset()
            == applied_test_identities(sources.test_applications@) && strictly_ascending(closures)
            && closures.to_set() == demand_closures(sources, root)
}

/// What stops a demand from being produced, checked in order: a root without a concrete
/// specialization, an applied test without a verified body, and a reached specialization
/// without solved facts.
pub open spec fn production_defect(sources: DemandSources, root: u128) -> Option<Seq<char>> {
    if !sources.specialization_closures@.contains_key(root) {
        Some("Image Constructor has no concrete Specialization"@)
    } else if missing_test_body(sources.test_applications@, sources.test_bodies@) {
        Some("Test Application names a missing verified Test body"@)
    } else if !reachable_all_solved(sources.calls@, demand_roots(sources, root)) {
        Some("Executable Demand names a Specialization without solved facts"@)
    } else {
        None
    }
}

/// The first listed specialization with the root's identity is the root's entry when the
/// leading specializations name it.
proof fn lemma_first_root_in_listing(
    context: u128,
    program_fingerprint: u128,
    specializations: Seq<u128>,
    rest: Seq<ExecutableReference>,
    root: u128,
)
    requires
        specializations.contains(root),
    ensures
        first_root(
            specializations.map_values(|identity: u128| specialization_entry(context, program_fingerprint, identity))
                + rest,
            root,
        ) == Some(specialization_entry(context, program_fingerprint, root).raw_view()),
    decreases specializations.len(),
{
    let listed = specializations.map_values(
        |identity: u128| specialization_entry(context, program_fingerprint, identity),
    ) + rest;
    assert(listed[0] == specialization_entry(context, program_fingerprint, specializations[0]));
    if specializations[0] != root {
        let k = choose|k: int| 0 <= k < specializations.len() && specializations[k] == root;
        assert(specializations.drop_first()[k - 1] == root);
        lemma_first_root_in_listing(context, program_fingerprint, specializations.drop_first(), rest, root);
        assert(listed.drop_first() =~= specializations.drop_first().map_values(
            |identity: u128| specialization_entry(context, program_fingerprint, identity),
        ) + rest);
    }
}

/// Lists and seals the executable demand of a root specialization: the specializations
/// its roots reach through solved calls, the test bodies its graph applies, and the
/// closures all of them hold, each a current reference in the sources' context, with the
/// demand's fingerprint. A cancelled production answers `Cancelled`.
#[verifier::spinoff_prover]
pub fn produce_demand(sources: &DemandSources, root: u128, cancellation: &Cancellation) -> (result: Result<
    ExecutableDemand,
    CompletionFailure,
>)
    ensures
        match result {
            Ok(demand) => production_defect(*sources, root) is None && demand.root == specialization_entry(
                sources.context,
                sources.program_fingerprint,
                root,
            ).raw_view() && is_demand_listing(*sources, root, demand.executables@) && demand.fingerprint
                == demand_fingerprint(root, demand.executables@),
            Err(CompletionFailure::Defect(evidence)) => production_defect(*sources, root) == Some(evidence@),
            Err(CompletionFailure::Cancelled) => true,
        },
        !sources.specialization_closures@.contains_key(root) ==> (result matches Err(CompletionFailure::Defect(_))),
{
    broadcast use vstd::std_specs::btree::group_btree_axioms;

    proof {
        lemma_integer_keys_ordered();
    }
    if !sources.specialization_closures.contains_key(&root) {
        return Err(completion_defect("Image Constructor has no concrete Specialization"));
    }
    let (roots, retained) = match produce_demand_roots(sources, root, cancellation) {
        Ok(found) => found,
        Err(failure) => {
            return Err(failure);
        },
    };
    let identities = match reachable_specializations(&roots, &sources.calls, cancellation) {
        Ok(identities) => identities,
        Err(failure) => {
            return Err(failure);
        },
    };
    let closures = match collect_demand_closures(sources, &identities, retained, cancellation) {
        Ok(closures) => closures,
        Err(failure) => {
            return Err(failure);
        },
    };
    let specializations = ascending_identities(&identities);
    let tests = match applied_test_order(&sources.test_applications, cancellation) {
        Ok(tests) => tests,
        Err(failure) => {
            return Err(failure);
        },
    };
    let held = ascending_identities(&closures);
    let context = sources.context;
    let program = sources.program_fingerprint;
    let mut executables: Vec<ExecutableReference> = Vec::new();
    let mut i: usize = 0;
    while i < specializations.len()
        invariant
            i <= specializations@.len(),
            sources.specialization_closures@.contains_key(root),
            executables@ == specializations@.take(i as int).map_values(
                |identity: u128| specialization_entry(context, program, identity),
            ),
        decreases specializations@.len() - i,
    {
        if cancellation.is_cancelled() {
            return Err(CompletionFailure::Cancelled);
        }
        let identity = specializations[i];
        executables.push(
            ExecutableReference::Specialization(
                RawReference {
                    context,
                    kind: ArtifactKind::Specialization,
                    identity,
                    current_meaning: specialization_current_meaning(program, identity),
                },
            ),
        );
        proof {
            assert(specializations@.take(i + 1).map_values(
                |identity: u128| specialization_entry(context, program, identity),
            ) =~= specializations@.take(i as int).map_values(
                |identity: u128| specialization_entry(context, program, identity),
            ).push(specialization_entry(context, program, identity)));
        }
        i = i + 1;
    }
    let ghost leading = executables@;
    let mut t: usize = 0;
    while t < tests.len()
        invariant
            t <= tests@.len(),
            sources.specialization_closures@.contains_key(root),
            executables@ == leading + tests@.take(t as int).map_values(
                |identity: u128| test_body_entry(context, program, identity),
            ),
        decreases tests@.len() - t,
    {
        if cancellation.is_cancelled() {
            return Err(CompletionFailure::Cancelled);
        }
        let identity = tests[t];
        executables.push(
            ExecutableReference::TestBody(
                RawReference {
                    context,
                    kind: ArtifactKind::TestBody,
                    identity,
                    current_meaning: executable_current_meaning(program, ArtifactKind::TestBody, identity),
                },
            ),
        );
        proof {
            assert(tests@.take(t + 1).map_values(|identity: u128| test_body_entry(context, program, identity))
                =~= tests@.take(t as int).map_values(|identity: u128| test_body_entry(context, program, identity)).push(
                test_body_entry(context, program, identity),
            ));
        }
        t = t + 1;
    }
    let ghost tested = executables@;
    let mut c: usize = 0;
    while c < held.len()
        invariant
            c <= held@.len(),
            sources.specialization_closures@.contains_key(root),
            executables@ == tested + held@.take(c as int).map_values(
                |identity: u128| closure_body_entry(context, program, identity),
            ),
        decreases held@.len() - c,
    {
        if cancellation.is_cancelled() {
            return Err(CompletionFailure::Cancelled);
        }
        let identity = held[c];
        executables.push(
            ExecutableReference::ClosureBody(
                RawReference {
                    context,
                    kind: ArtifactKind::ClosureBody,
                    identity,
                    current_meaning: executable_current_meaning(program, ArtifactKind::ClosureBody, identity),
                },
            ),
        );
        proof {
            assert(held@.take(c + 1).map_values(|identity: u128| closure_body_entry(context, program, identity))
                =~= held@.take(c as int).map_values(|identity: u128| closure_body_entry(context, program, identity)).push(
                closure_body_entry(context, program, identity),
            ));
        }
        c = c + 1;
    }
    proof {
        assert(specializations@.take(specializations@.len() as int) =~= specializations@);
        assert(tests@.take(tests@.len() as int) =~= tests@);
        assert(held@.take(held@.len() as int) =~= held@);
        assert(executables@ =~= demand_listing(context, program, specializations@, tests@, held@));
        lemma_root_reachable(sources.calls@, demand_roots(*sources, root), root);
        assert(identities@.contains(root));
        assert(specializations@.to_set().contains(root));
        lemma_first_root_in_listing(
            context,
            program,
            specializations@,
            tests@.map_values(|identity: u128| test_body_entry(context, program, identity)) + held@.map_values(
                |identity: u128| closure_body_entry(context, program, identity),
            ),
            root,
        );
        assert(executables@ =~= specializations@.map_values(
            |identity: u128| specialization_entry(context, program, identity),
        ) + (tests@.map_values(|identity: u128| test_body_entry(context, program, identity)) + held@.map_values(
            |identity: u128| closure_body_entry(context, program, identity),
        )));
    }
    let root_reference = match find_demand_root(&executables, root) {
        Some(found) => found,
        None => {
            return Err(completion_defect("demand omitted its root"));
        },
    };
    let fingerprint = match produce_demand_fingerprint(root_reference, &executables, cancellation) {
        Ok(fingerprint) => fingerprint,
        Err(failure) => {
            return Err(failure);
        },
    };
    proof {
        assert(demand_listing(context, program, specializations@, tests@, held@) == executables@);
    }
    Ok(ExecutableDemand { root: root_reference, executables, fingerprint })
}

/// The distinct applied tests are the applied tests.
proof fn lemma_distinct_tests_members(tests: Seq<TestId>)
    ensures
        forall|test: TestId| distinct_tests(tests).contains(test) <==> tests.contains(test),
    decreases tests.len(),
{
    if tests.len() > 0 {
        let prior = tests.drop_last();
        lemma_distinct_tests_members(prior);
        assert forall|test: TestId| distinct_tests(tests).contains(test) <==> tests.contains(test) by {
            if tests.contains(test) && test != tests.last() {
                let k = choose|k: int| 0 <= k < tests.len() && tests[k] == test;
                assert(prior[k] == test);
            }
            if prior.contains(test) {
                let k = choose|k: int| 0 <= k < prior.len() && prior[k] == test;
                assert(tests[k] == test);
            }
            if distinct_tests(tests).contains(test) && !distinct_tests(prior).contains(test) {
                let distinct = distinct_tests(prior).push(tests.last());
                let k = choose|k: int| 0 <= k < distinct.len() && distinct[k] == test;
                assert(k == distinct.len() - 1);
            }
            if test == tests.last() && !distinct_tests(prior).contains(test) {
                let distinct = distinct_tests(prior).push(tests.last());
                assert(distinct[distinct.len() - 1] == test);
            }
            if distinct_tests(prior).contains(test) && !distinct_tests(prior).contains(tests.last()) {
                let k = choose|k: int| 0 <= k < distinct_tests(prior).len() && distinct_tests(prior)[k] == test;
                assert(distinct_tests(prior).push(tests.last())[k] == test);
            }
        }
    }
}

/// A list whose multiset is the applied test identities holds exactly the identities of
/// the applied tests.
proof fn lemma_listed_test_identities(applications: Seq<TestId>, tests: Seq<u128>)
    requires
        tests.to_multiset() == applied_test_identities(applications),
    ensures
        forall|identity: u128| tests.contains(identity) <==> applied_identities(applications).contains(identity),
{
    broadcast use vstd::seq_lib::to_multiset_contains;

    lemma_distinct_tests_members(applications);
    let distinct = distinct_tests(applications);
    let identities = distinct.map_values(|test: TestId| test.identity);
    assert forall|identity: u128| tests.contains(identity) <==> applied_identities(applications).contains(identity) by {
        assert(tests.contains(identity) <==> tests.to_multiset().count(identity) > 0);
        assert(identities.contains(identity) <==> identities.to_multiset().count(identity) > 0);
        assert(tests.to_multiset().count(identity) == identities.to_multiset().count(identity));
        if identities.contains(identity) {
            let k = choose|k: int| 0 <= k < identities.len() && identities[k] == identity;
            assert(distinct.contains(distinct[k]));
            assert(applications.contains(distinct[k]));
            let m = choose|m: int| 0 <= m < applications.len() && applications[m] == distinct[k];
            assert(applications[m].identity == identity);
        }
        if applied_identities(applications).contains(identity) {
            let m = choose|m: int| 0 <= m < applications.len() && (#[trigger] applications[m]).identity == identity;
            assert(applications.contains(applications[m]));
            assert(distinct.contains(applications[m]));
            let k = choose|k: int| 0 <= k < distinct.len() && distinct[k] == applications[m];
            assert(identities[k] == identity);
        }
    }
}

/// A listing whose every entry is current in its context has no listed defect.
proof fn lemma_current_listing(executables: Seq<ExecutableReference>, context: u128, program_fingerprint: u128)
    requires
        forall|k: int| 0 <= k < executables.len() ==> listed_defect(#[trigger] executables[k], context, program_fingerprint) is None,
    ensures
        first_listed_defect(executables, context, program_fingerprint) is None,
    decreases executables.len(),
{
    if executables.len() > 0 {
        assert(listed_defect(executables[0], context, program_fingerprint) is None);
        assert forall|k: int| 0 <= k < executables.drop_first().len() implies listed_defect(
            #[trigger] executables.drop_first()[k],
            context,
            program_fingerprint,
        ) is None by {
            assert(executables.drop_first()[k] == executables[k + 1]);
        }
        lemma_current_listing(executables.drop_first(), context, program_fingerprint);
    }
}

/// A demand that the producer lists and seals for a root passes the independent verifier's
/// check against the same sources: its root is listed and current, it lists exactly the
/// family it reaches with the right kinds, every listed reference is current in its
/// context, and its fingerprint is true.
#[verifier::spinoff_prover]
pub proof fn lemma_produced_demand_verifies(sources: DemandSources, root: u128, demand: ExecutableDemand)
    requires
        production_defect(sources, root) is None,
        demand.root == specialization_entry(sources.context, sources.program_fingerprint, root).raw_view(),
        is_demand_listing(sources, root, demand.executables@),
        demand.fingerprint == demand_fingerprint(root, demand.executables@),
    ensures
        demand_defect(DemandCandidate { sources, demand }) is None,
{
    let context = sources.context;
    let program = sources.program_fingerprint;
    let (specializations, tests, closures) = choose|specializations: Seq<u128>, tests: Seq<u128>, closures: Seq<u128>|
        #[trigger] demand_listing(context, program, specializations, tests, closures) == demand.executables@
            && strictly_ascending(specializations) && specializations.to_set() == demand_specializations(sources, root)
            && nondecreasing(tests) && tests.to_multiset() == applied_test_identities(sources.test_applications@)
            && strictly_ascending(closures) && closures.to_set() == demand_closures(sources, root);
    let executables = demand.executables@;
    let specialized = specializations.map_values(|identity: u128| specialization_entry(context, program, identity));
    let tested = tests.map_values(|identity: u128| test_body_entry(context, program, identity));
    let held = closures.map_values(|identity: u128| closure_body_entry(context, program, identity));
    assert(executables == specialized + tested + held);
    lemma_root_reachable(sources.calls@, demand_roots(sources, root), root);
    assert(specializations.to_set().contains(root));
    lemma_first_root_in_listing(context, program, specializations, tested + held, root);
    assert(executables =~= specialized + (tested + held));
    assert forall|k: int| 0 <= k < executables.len() implies (#[trigger] executables[k]).raw_view().kind
        == executables[k].role_kind() && listed_defect(executables[k], context, program) is None by {
        if k < specialized.len() {
            assert(executables[k] == specialization_entry(context, program, specializations[k]));
        } else if k < specialized.len() + tested.len() {
            assert(executables[k] == test_body_entry(context, program, tests[k - specialized.len()]));
        } else {
            assert(executables[k] == closure_body_entry(
                context,
                program,
                closures[k - specialized.len() - tested.len()],
            ));
        }
    }
    lemma_current_listing(executables, context, program);
    lemma_listed_test_identities(sources.test_applications@, tests);
    assert forall|entry: (u8, u128)| supplied_family(executables).contains(entry) implies exact_family(
        sources,
        root,
    ).contains(entry) by {
        let k = choose|k: int| 0 <= k < executables.len() && supplied_entry(#[trigger] executables[k]) == entry;
        if k < specialized.len() {
            assert(executables[k] == specialization_entry(context, program, specializations[k]));
            assert(specializations.to_set().contains(specializations[k]));
        } else if k < specialized.len() + tested.len() {
            assert(executables[k] == test_body_entry(context, program, tests[k - specialized.len()]));
            assert(tests.contains(tests[k - specialized.len()]));
        } else {
            let c = k - specialized.len() - tested.len();
            assert(executables[k] == closure_body_entry(context, program, closures[c]));
            assert(closures.to_set().contains(closures[c]));
        }
    }
    assert forall|entry: (u8, u128)| exact_family(sources, root).contains(entry) implies supplied_family(
        executables,
    ).contains(entry) by {
        if entry.0 == artifact_tag(ArtifactKind::Specialization) && demand_specializations(sources, root).contains(
            entry.1,
        ) {
            assert(specializations.to_set().contains(entry.1));
            let k = choose|k: int| 0 <= k < specializations.len() && specializations[k] == entry.1;
            assert(executables[k] == specialization_entry(context, program, specializations[k]));
            assert(supplied_entry(executables[k]) == entry);
        } else if entry.0 == artifact_tag(ArtifactKind::TestBody) && applied_identities(
            sources.test_applications@,
        ).contains(entry.1) {
            assert(tests.contains(entry.1));
            let k = choose|k: int| 0 <= k < tests.len() && tests[k] == entry.1;
            let m = specialized.len() + k;
            assert(executables[m] == test_body_entry(context, program, tests[k]));
            assert(supplied_entry(executables[m]) == entry);
        } else {
            assert(closures.to_set().contains(entry.1));
            let k = choose|k: int| 0 <= k < closures.len() && closures[k] == entry.1;
            let m = specialized.len() + tested.len() + k;
            assert(executables[m] == closure_body_entry(context, program, closures[k]));
            assert(supplied_entry(executables[m]) == entry);
        }
    }
    assert(exact_family(sources, root) =~= supplied_family(executables));
}

/// A source executable of a completed program, as the core planner receives it.
#[derive(Clone, Copy, Debug, PartialEq, Eq, Structural)]
pub struct CoreSourceExecutableRef {
    pub context: u128,
    pub kind: CoreSourceExecutableKind,
    pub identity: u128,
    pub current_meaning: u128,
}

impl CoreSourceExecutableRef {
    /// The context the reference is in.
    pub fn context(self) -> (context: u128)
        ensures
            context == self.context,
    {
        self.context
    }

    /// The kind of source executable.
    pub fn kind(self) -> (kind: CoreSourceExecutableKind)
        ensures
            kind == self.kind,
    {
        self.kind
    }

    /// The identity of the executable.
    pub fn identity(self) -> (identity: u128)
        ensures
            identity == self.identity,
    {
        self.identity
    }

    /// The current meaning the reference carries.
    pub fn current_meaning(self) -> (current_meaning: u128)
        ensures
            current_meaning == self.current_meaning,
    {
        self.current_meaning
    }
}

/// The source executable a demanded executable of a source role stands for.
pub open spec fn source_reference_of(reference: ExecutableReference) -> CoreSourceExecutableRef {
    let raw = reference.raw_view();
    let kind = match reference {
        ExecutableReference::TestBody(_) => CoreSourceExecutableKind::TestBody,
        ExecutableReference::ClosureBody(_) => CoreSourceExecutableKind::ClosureBody,
        _ => CoreSourceExecutableKind::Specialization,
    };
    CoreSourceExecutableRef { context: raw.context, kind, identity: raw.identity, current_meaning: raw.current_meaning }
}

/// The source executable a demanded executable of a source role stands for.
pub fn core_source_executable_reference(reference: ExecutableReference) -> (source: CoreSourceExecutableRef)
    requires
        !(reference is Generated),
    ensures
        source == source_reference_of(reference),
{
    let (kind, raw) = match reference {
        ExecutableReference::Specialization(raw) => (CoreSourceExecutableKind::Specialization, raw),
        ExecutableReference::TestBody(raw) => (CoreSourceExecutableKind::TestBody, raw),
        ExecutableReference::ClosureBody(raw) => (CoreSourceExecutableKind::ClosureBody, raw),
        ExecutableReference::Generated(raw) => (CoreSourceExecutableKind::Specialization, raw),
    };
    CoreSourceExecutableRef {
        context: raw.context,
        kind,
        identity: raw.identity,
        current_meaning: raw.current_meaning,
    }
}

/// The source executables of a demand that lists no generated executable, in its order.
pub fn exact_source_executables(demand: &ExecutableDemand) -> (sources: Vec<CoreSourceExecutableRef>)
    requires
        forall|k: int| 0 <= k < demand.executables@.len() ==> !(#[trigger] demand.executables@[k] is Generated),
    ensures
        sources@ == demand.executables@.map_values(|reference: ExecutableReference| source_reference_of(reference)),
{
    let mut sources: Vec<CoreSourceExecutableRef> = Vec::new();
    let mut k: usize = 0;
    while k < demand.executables.len()
        invariant
            k <= demand.executables@.len(),
            forall|m: int| 0 <= m < demand.executables@.len() ==> !(#[trigger] demand.executables@[m] is Generated),
            sources@ == demand.executables@.take(k as int).map_values(
                |reference: ExecutableReference| source_reference_of(reference),
            ),
        decreases demand.executables@.len() - k,
    {
        sources.push(core_source_executable_reference(demand.executables[k]));
        proof {
            assert(demand.executables@.take(k + 1).map_values(
                |reference: ExecutableReference| source_reference_of(reference),
            ) =~= demand.executables@.take(k as int).map_values(
                |reference: ExecutableReference| source_reference_of(reference),
            ).push(source_reference_of(demand.executables@[k as int])));
        }
        k = k + 1;
    }
    proof {
        assert(demand.executables@.take(k as int) =~= demand.executables@);
    }
    sources
}

/// A demand that passes the verifier lists no generated executable: each of its
/// executables is a specialization, a test body or a closure body.
pub proof fn lemma_verified_demand_lists_source_executables(candidate: DemandCandidate)
    requires
        demand_defect(candidate) is None,
    ensures
        forall|k: int|
            0 <= k < candidate.demand.executables@.len() ==> !(#[trigger] candidate.demand.executables@[k] is Generated),
{
    let executables = candidate.demand.executables@;
    assert forall|k: int| 0 <= k < executables.len() implies !(#[trigger] executables[k] is Generated) by {
        if executables[k] is Generated {
            assert(executables[k].raw_view().kind == executables[k].role_kind());
            assert(supplied_family(executables).contains(supplied_entry(executables[k])));
            assert(!exact_family(candidate.sources, candidate.demand.root.identity).contains(
                supplied_entry(executables[k]),
            ));
        }
    }
}

} // verus!

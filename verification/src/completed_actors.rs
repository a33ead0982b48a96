//! The actors of a completed program: completion resolves each actor's message handlers
//! to their concrete async specializations and lists actors and handlers in canonical
//! order; the independent verifier checks that order, the actors' provenance, and each
//! handler against the typed program.
use vstd::prelude::*;

use std::collections::BTreeMap;

use crate::compiler::{Cancellation, SourceRange, SourceRangeView};
use crate::completed_semantic::{CompletionFailure, completion_defect, lemma_integer_keys_ordered};

verus! {

/// An actor as completion receives it: its definition, where it is declared, and the
/// definitions of its message handlers.
#[derive(Debug)]
pub struct ActorInput {
    pub definition: u128,
    pub source: SourceRange,
    pub handlers: Vec<u128>,
}

/// A completed actor: its identity, where it is declared, and its handler
/// specializations.
#[derive(Debug)]
pub struct CompletedActor {
    pub identity: u128,
    pub source: SourceRange,
    pub handlers: Vec<u128>,
}

/// What the typed program says of actor handlers.
#[derive(Debug)]
pub struct ActorProgram {
    /// The concrete specialization of each definition that has one.
    pub default_specializations: BTreeMap<u128, u128>,
    /// Each specialization of a function, with whether that function is async.
    pub async_functions: BTreeMap<u128, bool>,
}

/// What is wrong with one handler definition of an actor being completed.
pub open spec fn handler_defect(handler: u128, program: ActorProgram) -> Option<Seq<char>> {
    let defaults = program.default_specializations@;
    let functions = program.async_functions@;
    if !defaults.contains_key(handler) {
        Some("Actor handler has no concrete Specialization"@)
    } else if !functions.contains_key(defaults[handler]) {
        Some("Actor handler Specialization is missing"@)
    } else if !functions[defaults[handler]] {
        Some("Actor message handler is not async"@)
    } else {
        None
    }
}

/// What is wrong with the first of the handler definitions that has a defect.
pub open spec fn first_handler_defect(handlers: Seq<u128>, program: ActorProgram) -> Option<Seq<char>>
    decreases handlers.len(),
{
    if handlers.len() == 0 {
        None
    } else {
        match first_handler_defect(handlers.drop_last(), program) {
            Some(evidence) => Some(evidence),
            None => handler_defect(handlers.last(), program),
        }
    }
}

/// What is wrong with an actor being completed: a definition an earlier actor already
/// has, or a defect of one of its handlers.
pub open spec fn actor_input_defect(inputs: Seq<ActorInput>, k: int, program: ActorProgram) -> Option<Seq<char>> {
    if exists|j: int| 0 <= j < k && (#[trigger] inputs[j]).definition == inputs[k].definition {
        Some("Actor identity is duplicated"@)
    } else {
        first_handler_defect(inputs[k].handlers@, program)
    }
}

/// What is wrong with the first of the first `count` actors being completed that has a
/// defect.
pub open spec fn completion_actors_defect(inputs: Seq<ActorInput>, count: int, program: ActorProgram) -> Option<
    Seq<char>,
>
    decreases count,
{
    if count <= 0 {
        None
    } else {
        match completion_actors_defect(inputs, count - 1, program) {
            Some(evidence) => Some(evidence),
            None => actor_input_defect(inputs, count - 1, program),
        }
    }
}

/// The concrete specializations of handler definitions.
pub open spec fn handler_specializations(handlers: Seq<u128>, program: ActorProgram) -> Set<u128> {
    Set::new(
        |specialization: u128|
            exists|i: int|
                0 <= i < handlers.len() && program.default_specializations@[#[trigger] handlers[i]] == specialization,
    )
}

/// Whether identities rise strictly along a list.
pub open spec fn rising(identities: Seq<u128>) -> bool {
    forall|i: int, j: int| 0 <= i < j < identities.len() ==> identities[i] < identities[j]
}

/// Whether a completed actor is what completion makes of an actor: the same identity and
/// provenance, and the concrete specializations of its handlers in ascending order, each
/// once.
pub open spec fn completes(actor: CompletedActor, input: ActorInput, program: ActorProgram) -> bool {
    &&& actor.identity == input.definition
    &&& actor.source@ == input.source@
    &&& rising(actor.handlers@)
    &&& actor.handlers@.to_set() == handler_specializations(input.handlers@, program)
}

/// The identities of completed actors.
pub open spec fn actor_identities(actors: Seq<CompletedActor>) -> Seq<u128> {
    actors.map_values(|actor: CompletedActor| actor.identity)
}

/// Whether some completed actor is what completion makes of an input.
pub open spec fn completed_in(actors: Seq<CompletedActor>, input: ActorInput, program: ActorProgram) -> bool {
    exists|m: int| 0 <= m < actors.len() && #[trigger] completes(actors[m], input, program)
}

/// Whether a completed actor is what completion makes of some input.
pub open spec fn completed_from(inputs: Seq<ActorInput>, actor: CompletedActor, program: ActorProgram) -> bool {
    exists|k: int| 0 <= k < inputs.len() && #[trigger] completes(actor, inputs[k], program)
}

/// Whether completed actors are what completion makes of the inputs: one for each input
/// and an input for each, in ascending order of identity.
pub open spec fn completes_all(actors: Seq<CompletedActor>, inputs: Seq<ActorInput>, program: ActorProgram) -> bool {
    &&& actors.len() == inputs.len()
    &&& rising(actor_identities(actors))
    &&& forall|k: int| 0 <= k < inputs.len() ==> completed_in(actors, #[trigger] inputs[k], program)
    &&& forall|m: int| 0 <= m < actors.len() ==> completed_from(inputs, #[trigger] actors[m], program)
}

/// Inserts an identity into a rising list unless the list holds it already.
fn insert_rising(list: &mut Vec<u128>, identity: u128)
    requires
        rising(old(list)@),
    ensures
        rising(final(list)@),
        final(list)@.to_set() == old(list)@.to_set().insert(identity),
{
    let mut position: usize = 0;
    let mut searching = true;
    while searching && position < list.len()
        invariant
            position <= list@.len(),
            rising(list@),
            forall|k: int| 0 <= k < position ==> list@[k] < identity,
            !searching ==> position < list@.len() && list@[position as int] >= identity,
        decreases list@.len() - position, if searching { 1int } else { 0int },
    {
        if list[position] >= identity {
            searching = false;
        } else {
            position = position + 1;
        }
    }
    if position < list.len() && list[position] == identity {
        proof {
            assert(list@.to_set().contains(identity));
            assert(list@.to_set() =~= list@.to_set().insert(identity));
        }
        return;
    }
    let ghost before = list@;
    list.insert(position, identity);
    proof {
        assert(list@ =~= before.insert(position as int, identity));
        assert forall|i: int, j: int| 0 <= i < j < list@.len() implies list@[i] < list@[j] by {
            if j < position {
            } else if j == position {
                assert(before[i] < identity);
            } else if i < position {
                assert(before[i] < identity);
                assert(before[position as int] > identity);
                assert(before[position as int] <= before[j - 1]);
            } else if i == position {
                assert(before[position as int] > identity);
                assert(before[position as int] <= before[j - 1]);
            } else {
                assert(before[i - 1] < before[j - 1]);
            }
        }
        assert forall|x: u128| list@.to_set().contains(x) <==> before.to_set().insert(identity).contains(x) by {
            if list@.to_set().contains(x) {
                let k = choose|k: int| 0 <= k < list@.len() && list@[k] == x;
                if k < position {
                    assert(before[k] == x);
                } else if k > position {
                    assert(before[k - 1] == x);
                }
            }
            if before.to_set().contains(x) {
                let k = choose|k: int| 0 <= k < before.len() && before[k] == x;
                if k < position {
                    assert(list@[k] == x);
                } else {
                    assert(list@[k + 1] == x);
                }
            }
            if x == identity {
                assert(list@[position as int] == x);
            }
        }
        assert(list@.to_set() =~= before.to_set().insert(identity));
    }
}

/// One more handler definition adds its concrete specialization.
proof fn lemma_handler_specializations_step(handlers: Seq<u128>, i: int, program: ActorProgram)
    requires
        0 <= i < handlers.len(),
    ensures
        handler_specializations(handlers.take(i + 1), program) == handler_specializations(handlers.take(i), program).insert(
            program.default_specializations@[handlers[i]],
        ),
{
    let before = handlers.take(i);
    let after = handlers.take(i + 1);
    let defaults = program.default_specializations@;
    assert forall|x: u128| handler_specializations(after, program).contains(x) implies handler_specializations(
        before,
        program,
    ).insert(defaults[handlers[i]]).contains(x) by {
        let k = choose|k: int| 0 <= k < after.len() && defaults[#[trigger] after[k]] == x;
        if k < i {
            assert(before[k] == after[k]);
        }
    }
    assert forall|x: u128| handler_specializations(before, program).insert(defaults[handlers[i]]).contains(x) implies handler_specializations(
        after,
        program,
    ).contains(x) by {
        if x == defaults[handlers[i]] {
            assert(after[i] == handlers[i]);
        } else {
            let k = choose|k: int| 0 <= k < before.len() && defaults[#[trigger] before[k]] == x;
            assert(after[k] == before[k]);
        }
    }
    assert(handler_specializations(after, program) =~= handler_specializations(before, program).insert(
        defaults[handlers[i]],
    ));
}

/// Resolves an actor's handler definitions to their concrete async specializations, in
/// ascending order, each once.
fn complete_handlers(handlers: &Vec<u128>, program: &ActorProgram, cancellation: &Cancellation) -> (result: Result<
    Vec<u128>,
    CompletionFailure,
>)
    ensures
        match result {
            Ok(resolved) => first_handler_defect(handlers@, *program) is None && rising(resolved@) && resolved@.to_set()
                == handler_specializations(handlers@, *program),
            Err(CompletionFailure::Defect(evidence)) => first_handler_defect(handlers@, *program) == Some(evidence@),
            Err(CompletionFailure::Cancelled) => true,
        },
{
    broadcast use vstd::std_specs::btree::group_btree_axioms;

    proof {
        lemma_integer_keys_ordered();
    }
    let mut resolved: Vec<u128> = Vec::new();
    let mut i: usize = 0;
    proof {
        assert(handler_specializations(handlers@.take(0), *program) =~= Set::<u128>::empty());
        assert(resolved@.to_set() =~= Set::<u128>::empty());
    }
    while i < handlers.len()
        invariant
            i <= handlers@.len(),
            first_handler_defect(handlers@.take(i as int), *program) is None,
            rising(resolved@),
            resolved@.to_set() == handler_specializations(handlers@.take(i as int), *program),
        decreases handlers@.len() - i,
    {
        if cancellation.is_cancelled() {
            return Err(CompletionFailure::Cancelled);
        }
        proof {
            assert(handlers@.take(i + 1).drop_last() =~= handlers@.take(i as int));
            assert(handlers@.take(i + 1).last() == handlers@[i as int]);
        }
        let specialization = match program.default_specializations.get(&handlers[i]) {
            Some(specialization) => *specialization,
            None => {
                proof {
                    lemma_handler_defect_stays(handlers@, i as int + 1, *program);
                }
                return Err(completion_defect("Actor handler has no concrete Specialization"));
            },
        };
        let asynchronous = match program.async_functions.get(&specialization) {
            Some(asynchronous) => *asynchronous,
            None => {
                proof {
                    lemma_handler_defect_stays(handlers@, i as int + 1, *program);
                }
                return Err(completion_defect("Actor handler Specialization is missing"));
            },
        };
        if !asynchronous {
            proof {
                lemma_handler_defect_stays(handlers@, i as int + 1, *program);
            }
            return Err(completion_defect("Actor message handler is not async"));
        }
        insert_rising(&mut resolved, specialization);
        proof {
            lemma_handler_specializations_step(handlers@, i as int, *program);
        }
        i = i + 1;
    }
    proof {
        assert(handlers@.take(handlers@.len() as int) =~= handlers@);
    }
    Ok(resolved)
}

/// The first handler defect of a prefix is the first handler defect of the whole list.
proof fn lemma_handler_defect_stays(handlers: Seq<u128>, count: int, program: ActorProgram)
    requires
        0 <= count <= handlers.len(),
        first_handler_defect(handlers.take(count), program) is Some,
    ensures
        first_handler_defect(handlers, program) == first_handler_defect(handlers.take(count), program),
    decreases handlers.len() - count,
{
    if count < handlers.len() {
        assert(handlers.take(count + 1).drop_last() =~= handlers.take(count));
        lemma_handler_defect_stays(handlers, count + 1, program);
    } else {
        assert(handlers.take(count) =~= handlers);
    }
}

/// The first actor defect among the first `count` actors is the first of all of them.
proof fn lemma_actor_defect_stays(inputs: Seq<ActorInput>, count: int, program: ActorProgram)
    requires
        0 <= count <= inputs.len(),
        completion_actors_defect(inputs, count, program) is Some,
    ensures
        completion_actors_defect(inputs, inputs.len() as int, program) == completion_actors_defect(inputs, count, program),
    decreases inputs.len() - count,
{
    if count < inputs.len() {
        lemma_actor_defect_stays(inputs, count + 1, program);
    }
}

/// Where an actor with a new identity goes in a list rising by identity.
fn actor_position(actors: &Vec<CompletedActor>, identity: u128) -> (position: usize)
    requires
        rising(actor_identities(actors@)),
        forall|m: int| 0 <= m < actors@.len() ==> (#[trigger] actors@[m]).identity != identity,
    ensures
        position <= actors@.len(),
        forall|m: int| 0 <= m < position ==> (#[trigger] actors@[m]).identity < identity,
        forall|m: int| position <= m < actors@.len() ==> (#[trigger] actors@[m]).identity > identity,
{
    let mut position: usize = 0;
    let mut searching = true;
    while searching && position < actors.len()
        invariant
            position <= actors@.len(),
            forall|m: int| 0 <= m < actors@.len() ==> (#[trigger] actors@[m]).identity != identity,
            forall|m: int| 0 <= m < position ==> (#[trigger] actors@[m]).identity < identity,
            !searching ==> position < actors@.len() && actors@[position as int].identity > identity,
        decreases actors@.len() - position, if searching { 1int } else { 0int },
    {
        if actors[position].identity > identity {
            searching = false;
        } else {
            position = position + 1;
        }
    }
    proof {
        assert forall|m: int| position <= m < actors@.len() implies (#[trigger] actors@[m]).identity > identity by {
            assert(actor_identities(actors@)[position as int] == actors@[position as int].identity);
            assert(actor_identities(actors@)[m] == actors@[m].identity);
        }
    }
    position
}

/// Inserting the completion of the next input where its identity belongs keeps a list
/// that completes the inputs so far rising by identity.
proof fn lemma_actor_inserted(
    before: Seq<CompletedActor>,
    actor: CompletedActor,
    position: int,
    inputs: Seq<ActorInput>,
    k: int,
    program: ActorProgram,
)
    requires
        0 <= k < inputs.len(),
        0 <= position <= before.len(),
        rising(actor_identities(before)),
        forall|m: int| 0 <= m < position ==> (#[trigger] before[m]).identity < actor.identity,
        forall|m: int| position <= m < before.len() ==> (#[trigger] before[m]).identity > actor.identity,
        completes(actor, inputs[k], program),
        forall|j: int| 0 <= j < k ==> completed_in(before, #[trigger] inputs[j], program),
        forall|m: int| 0 <= m < before.len() ==> completed_from(inputs.take(k), #[trigger] before[m], program),
    ensures
        rising(actor_identities(before.insert(position, actor))),
        forall|j: int| 0 <= j < k + 1 ==> completed_in(before.insert(position, actor), #[trigger] inputs[j], program),
        forall|m: int|
            0 <= m < before.len() + 1 ==> completed_from(
                inputs.take(k + 1),
                #[trigger] before.insert(position, actor)[m],
                program,
            ),
{
    let after = before.insert(position, actor);
    assert forall|i: int, j: int| 0 <= i < j < actor_identities(after).len() implies actor_identities(after)[i]
        < actor_identities(after)[j] by {
        if j < position {
            assert(actor_identities(before)[i] < actor_identities(before)[j]);
        } else if j == position {
            assert(before[i].identity < actor.identity);
        } else if i < position {
            assert(before[i].identity < actor.identity);
            assert(before[j - 1].identity > actor.identity);
        } else if i == position {
            assert(before[j - 1].identity > actor.identity);
        } else {
            assert(actor_identities(before)[i - 1] < actor_identities(before)[j - 1]);
        }
    }
    assert forall|j: int| 0 <= j < k + 1 implies completed_in(after, #[trigger] inputs[j], program) by {
        if j == k {
            assert(completes(after[position], inputs[j], program));
        } else {
            assert(completed_in(before, inputs[j], program));
            let m = choose|m: int| 0 <= m < before.len() && #[trigger] completes(before[m], inputs[j], program);
            if m < position {
                assert(completes(after[m], inputs[j], program));
            } else {
                assert(completes(after[m + 1], inputs[j], program));
            }
        }
    }
    let grown = inputs.take(k + 1);
    let prior = inputs.take(k);
    assert forall|m: int| 0 <= m < before.len() + 1 implies completed_from(grown, #[trigger] after[m], program) by {
        if m == position {
            assert(grown[k] == inputs[k]);
            assert(completes(after[m], grown[k], program));
        } else {
            let old_m = if m < position {
                m
            } else {
                m - 1
            };
            assert(after[m] == before[old_m]);
            assert(completed_from(prior, before[old_m], program));
            let j = choose|j: int| 0 <= j < prior.len() && #[trigger] completes(before[old_m], prior[j], program);
            assert(grown[j] == prior[j]);
            assert(completes(after[m], grown[j], program));
        }
    }
}

/// Completes actors: each actor's definition must be new and each of its handlers must
/// resolve to a concrete async specialization; the completed actors are listed in
/// ascending order of identity, each with its handler specializations in ascending
/// order, each once.
#[verifier::rlimit(40)]
#[verifier::spinoff_prover]
pub fn complete_actors(inputs: &Vec<ActorInput>, program: &ActorProgram, cancellation: &Cancellation) -> (result: Result<
    Vec<CompletedActor>,
    CompletionFailure,
>)
    ensures
        match result {
            Ok(actors) => completion_actors_defect(inputs@, inputs@.len() as int, *program) is None && completes_all(
                actors@,
                inputs@,
                *program,
            ),
            Err(CompletionFailure::Defect(evidence)) => completion_actors_defect(
                inputs@,
                inputs@.len() as int,
                *program,
            ) == Some(evidence@),
            Err(CompletionFailure::Cancelled) => true,
        },
        inputs@.len() == 0 ==> result is Ok,
{
    broadcast use vstd::std_specs::btree::group_btree_axioms;

    proof {
        lemma_integer_keys_ordered();
    }
    let mut actors: Vec<CompletedActor> = Vec::new();
    let mut identities: std::collections::BTreeSet<u128> = std::collections::BTreeSet::new();
    let mut k: usize = 0;
    while k < inputs.len()
        invariant
            k <= inputs@.len(),
            completion_actors_defect(inputs@, k as int, *program) is None,
            forall|x: u128| identities@.contains(x) <==> exists|j: int| 0 <= j < k && (#[trigger] inputs@[j]).definition == x,
            actors@.len() == k,
            rising(actor_identities(actors@)),
            forall|j: int| 0 <= j < k ==> completed_in(actors@, #[trigger] inputs@[j], *program),
            forall|m: int| 0 <= m < actors@.len() ==> completed_from(inputs@.take(k as int), #[trigger] actors@[m], *program),
        decreases inputs@.len() - k,
    {
        if cancellation.is_cancelled() {
            return Err(CompletionFailure::Cancelled);
        }
        let input = &inputs[k];
        if !identities.insert(input.definition) {
            proof {
                let j = choose|j: int| 0 <= j < k && (#[trigger] inputs@[j]).definition == input.definition;
                assert(actor_input_defect(inputs@, k as int, *program) == Some("Actor identity is duplicated"@));
                lemma_actor_defect_stays(inputs@, k + 1, *program);
            }
            return Err(completion_defect("Actor identity is duplicated"));
        }
        proof {
            assert(!(exists|j: int| 0 <= j < k && (#[trigger] inputs@[j]).definition == inputs@[k as int].definition));
        }
        let handlers = match complete_handlers(&input.handlers, program, cancellation) {
            Ok(handlers) => handlers,
            Err(failure) => {
                proof {
                    if failure is Defect {
                        lemma_actor_defect_stays(inputs@, k + 1, *program);
                    }
                }
                return Err(failure);
            },
        };
        proof {
            assert forall|m: int| 0 <= m < actors@.len() implies (#[trigger] actors@[m]).identity != input.definition by {
                assert(completed_from(inputs@.take(k as int), actors@[m], *program));
                let j = choose|j: int| 0 <= j < inputs@.take(k as int).len() && #[trigger] completes(actors@[m], inputs@.take(k as int)[j], *program);
                assert(inputs@.take(k as int)[j] == inputs@[j]);
                assert(inputs@[j].definition != input.definition);
            }
        }
        let position = actor_position(&actors, input.definition);
        let actor = CompletedActor { identity: input.definition, source: input.source.clone(), handlers };
        let ghost before = actors@;
        actors.insert(position, actor);
        proof {
            assert(actors@ =~= before.insert(position as int, actor));
            lemma_actor_inserted(before, actor, position as int, inputs@, k as int, *program);
            assert forall|x: u128| identities@.contains(x) <==> exists|j: int|
                0 <= j < k + 1 && (#[trigger] inputs@[j]).definition == x by {
                if identities@.contains(x) && x != input.definition {
                    let j = choose|j: int| 0 <= j < k && (#[trigger] inputs@[j]).definition == x;
                }
                if x == input.definition {
                    assert(inputs@[k as int].definition == x);
                }
            }
        }
        k = k + 1;
    }
    proof {
        assert(inputs@.take(k as int) =~= inputs@);
    }
    Ok(actors)
}

/// What is wrong with the handler at `i` of a completed actor: an order that is not
/// strictly ascending, a missing specialization, or a function that is not async.
pub open spec fn listed_handler_defect(handlers: Seq<u128>, i: int, program: ActorProgram) -> Option<Seq<char>> {
    let functions = program.async_functions@;
    if i > 0 && handlers[i - 1] >= handlers[i] {
        Some("Actor handlers are not unique canonical order"@)
    } else if !functions.contains_key(handlers[i]) {
        Some("Actor handler references a missing Specialization"@)
    } else if !functions[handlers[i]] {
        Some("Actor handler references a non-async function"@)
    } else {
        None
    }
}

/// What is wrong with the first of the first `count` handlers of a completed actor that
/// has a defect.
pub open spec fn first_listed_handler_defect(handlers: Seq<u128>, count: int, program: ActorProgram) -> Option<
    Seq<char>,
>
    decreases count,
{
    if count <= 0 {
        None
    } else {
        match first_listed_handler_defect(handlers, count - 1, program) {
            Some(evidence) => Some(evidence),
            None => listed_handler_defect(handlers, count - 1, program),
        }
    }
}

/// What is wrong with the completed actor at `k`: an order of identities that is not
/// strictly ascending, missing provenance, or a defect of one of its handlers.
pub open spec fn listed_actor_defect(actors: Seq<CompletedActor>, k: int, program: ActorProgram) -> Option<Seq<char>> {
    if k > 0 && actors[k - 1].identity >= actors[k].identity {
        Some("Actor identities are not unique canonical order"@)
    } else if actors[k].source@.path.len() == 0 {
        Some("Actor provenance is missing"@)
    } else {
        first_listed_handler_defect(actors[k].handlers@, actors[k].handlers@.len() as int, program)
    }
}

/// What is wrong with the first of the first `count` completed actors that has a defect.
pub open spec fn listed_actors_defect(actors: Seq<CompletedActor>, count: int, program: ActorProgram) -> Option<
    Seq<char>,
>
    decreases count,
{
    if count <= 0 {
        None
    } else {
        match listed_actors_defect(actors, count - 1, program) {
            Some(evidence) => Some(evidence),
            None => listed_actor_defect(actors, count - 1, program),
        }
    }
}

/// The first listed handler defect among the first `count` is the first of all.
proof fn lemma_listed_handler_defect_stays(handlers: Seq<u128>, count: int, program: ActorProgram)
    requires
        0 <= count <= handlers.len(),
        first_listed_handler_defect(handlers, count, program) is Some,
    ensures
        first_listed_handler_defect(handlers, handlers.len() as int, program) == first_listed_handler_defect(
            handlers,
            count,
            program,
        ),
    decreases handlers.len() - count,
{
    if count < handlers.len() {
        lemma_listed_handler_defect_stays(handlers, count + 1, program);
    }
}

/// The first listed actor defect among the first `count` is the first of all.
proof fn lemma_listed_actor_defect_stays(actors: Seq<CompletedActor>, count: int, program: ActorProgram)
    requires
        0 <= count <= actors.len(),
        listed_actors_defect(actors, count, program) is Some,
    ensures
        listed_actors_defect(actors, actors.len() as int, program) == listed_actors_defect(actors, count, program),
    decreases actors.len() - count,
{
    if count < actors.len() {
        lemma_listed_actor_defect_stays(actors, count + 1, program);
    }
}

/// Checks the handlers of a completed actor in order.
fn verify_handlers(handlers: &Vec<u128>, program: &ActorProgram, cancellation: &Cancellation) -> (result: Result<
    (),
    CompletionFailure,
>)
    ensures
        match result {
            Ok(()) => first_listed_handler_defect(handlers@, handlers@.len() as int, *program) is None,
            Err(CompletionFailure::Defect(evidence)) => first_listed_handler_defect(
                handlers@,
                handlers@.len() as int,
                *program,
            ) == Some(evidence@),
            Err(CompletionFailure::Cancelled) => true,
        },
{
    broadcast use vstd::std_specs::btree::group_btree_axioms;

    proof {
        lemma_integer_keys_ordered();
    }
    let mut i: usize = 0;
    while i < handlers.len()
        invariant
            i <= handlers@.len(),
            first_listed_handler_defect(handlers@, i as int, *program) is None,
        decreases handlers@.len() - i,
    {
        if cancellation.is_cancelled() {
            return Err(CompletionFailure::Cancelled);
        }
        if i > 0 && handlers[i - 1] >= handlers[i] {
            proof {
                lemma_listed_handler_defect_stays(handlers@, i + 1, *program);
            }
            return Err(completion_defect("Actor handlers are not unique canonical order"));
        }
        let asynchronous = match program.async_functions.get(&handlers[i]) {
            Some(asynchronous) => *asynchronous,
            None => {
                proof {
                    lemma_listed_handler_defect_stays(handlers@, i + 1, *program);
                }
                return Err(completion_defect("Actor handler references a missing Specialization"));
            },
        };
        if !asynchronous {
            proof {
                lemma_listed_handler_defect_stays(handlers@, i + 1, *program);
            }
            return Err(completion_defect("Actor handler references a non-async function"));
        }
        i = i + 1;
    }
    Ok(())
}

/// Checks completed actors independently of their completion: identities in strictly
/// ascending order, provenance present, and each actor's handlers in strictly ascending
/// order, each a specialization of an async function.
pub fn verify_actors(actors: &Vec<CompletedActor>, program: &ActorProgram, cancellation: &Cancellation) -> (result: Result<
    (),
    CompletionFailure,
>)
    ensures
        match result {
            Ok(()) => listed_actors_defect(actors@, actors@.len() as int, *program) is None,
            Err(CompletionFailure::Defect(evidence)) => listed_actors_defect(actors@, actors@.len() as int, *program)
                == Some(evidence@),
            Err(CompletionFailure::Cancelled) => true,
        },
        actors@.len() == 0 ==> result is Ok,
{
    let mut k: usize = 0;
    while k < actors.len()
        invariant
            k <= actors@.len(),
            listed_actors_defect(actors@, k as int, *program) is None,
        decreases actors@.len() - k,
    {
        if cancellation.is_cancelled() {
            return Err(CompletionFailure::Cancelled);
        }
        if k > 0 && actors[k - 1].identity >= actors[k].identity {
            proof {
                lemma_listed_actor_defect_stays(actors@, k + 1, *program);
            }
            return Err(completion_defect("Actor identities are not unique canonical order"));
        }
        if actors[k].source.path().is_empty() {
            proof {
                lemma_listed_actor_defect_stays(actors@, k + 1, *program);
            }
            return Err(completion_defect("Actor provenance is missing"));
        }
        match verify_handlers(&actors[k].handlers, program, cancellation) {
            Ok(()) => {},
            Err(failure) => {
                proof {
                    if failure is Defect {
                        lemma_listed_actor_defect_stays(actors@, k + 1, *program);
                    }
                }
                return Err(failure);
            },
        }
        k = k + 1;
    }
    Ok(())
}

/// With no defect among all handler definitions, none has a defect.
proof fn lemma_no_handler_defect(handlers: Seq<u128>, program: ActorProgram, i: int)
    requires
        first_handler_defect(handlers, program) is None,
        0 <= i < handlers.len(),
    ensures
        handler_defect(handlers[i], program) is None,
    decreases handlers.len(),
{
    if i < handlers.len() - 1 {
        lemma_no_handler_defect(handlers.drop_last(), program, i);
    }
}

/// With no defect among the first `count` actors being completed, none of them has one.
proof fn lemma_no_actor_defect(inputs: Seq<ActorInput>, count: int, program: ActorProgram, k: int)
    requires
        completion_actors_defect(inputs, count, program) is None,
        0 <= k < count,
    ensures
        actor_input_defect(inputs, k, program) is None,
    decreases count,
{
    if k < count - 1 {
        lemma_no_actor_defect(inputs, count - 1, program, k);
    }
}

/// The handlers of a completed actor whose handler definitions all resolve to async
/// specializations have no listed defect.
proof fn lemma_completed_handlers_verify(actor: CompletedActor, input: ActorInput, program: ActorProgram, count: int)
    requires
        completes(actor, input, program),
        first_handler_defect(input.handlers@, program) is None,
        0 <= count <= actor.handlers@.len(),
    ensures
        first_listed_handler_defect(actor.handlers@, count, program) is None,
    decreases count,
{
    if count > 0 {
        lemma_completed_handlers_verify(actor, input, program, count - 1);
        let handlers = actor.handlers@;
        let i = count - 1;
        assert(handlers.to_set().contains(handlers[i]));
        let d = choose|d: int|
            0 <= d < input.handlers@.len() && program.default_specializations@[#[trigger] input.handlers@[d]]
                == handlers[i];
        lemma_no_handler_defect(input.handlers@, program, d);
    }
}

/// Actors that completion makes of inputs with provenance pass the independent check:
/// their identities rise, their provenance is present, and their handlers rise and are
/// specializations of async functions.
pub proof fn lemma_completed_actors_verify(inputs: Seq<ActorInput>, program: ActorProgram, actors: Seq<CompletedActor>)
    requires
        completion_actors_defect(inputs, inputs.len() as int, program) is None,
        completes_all(actors, inputs, program),
        forall|k: int| 0 <= k < inputs.len() ==> (#[trigger] inputs[k]).source@.path.len() > 0,
    ensures
        listed_actors_defect(actors, actors.len() as int, program) is None,
{
    lemma_completed_actors_verify_upto(inputs, program, actors, actors.len() as int);
}

/// The first `count` completed actors pass the independent check.
proof fn lemma_completed_actors_verify_upto(
    inputs: Seq<ActorInput>,
    program: ActorProgram,
    actors: Seq<CompletedActor>,
    count: int,
)
    requires
        completion_actors_defect(inputs, inputs.len() as int, program) is None,
        completes_all(actors, inputs, program),
        forall|k: int| 0 <= k < inputs.len() ==> (#[trigger] inputs[k]).source@.path.len() > 0,
        0 <= count <= actors.len(),
    ensures
        listed_actors_defect(actors, count, program) is None,
    decreases count,
{
    if count > 0 {
        lemma_completed_actors_verify_upto(inputs, program, actors, count - 1);
        let m = count - 1;
        if m > 0 {
            assert(actor_identities(actors)[m - 1] < actor_identities(actors)[m]);
        }
        assert(completed_from(inputs, actors[m], program));
        let k = choose|k: int| 0 <= k < inputs.len() && #[trigger] completes(actors[m], inputs[k], program);
        lemma_no_actor_defect(inputs, inputs.len() as int, program, k);
        lemma_completed_handlers_verify(actors[m], inputs[k], program, actors[m].handlers@.len() as int);
    }
}

} // verus!

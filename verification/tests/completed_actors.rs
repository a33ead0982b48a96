use std::collections::BTreeMap;
use wrela_compiler::compiler::{Cancellation, SourceRange};
use wrela_compiler::completed_actors::{complete_actors, verify_actors, ActorInput, ActorProgram, CompletedActor};
use wrela_compiler::completed_semantic::CompletionFailure;

fn program() -> ActorProgram {
    let mut default_specializations = BTreeMap::new();
    default_specializations.insert(3, 103);
    default_specializations.insert(5, 105);
    default_specializations.insert(7, 107);
    default_specializations.insert(8, 108);
    let mut async_functions = BTreeMap::new();
    async_functions.insert(103, true);
    async_functions.insert(105, true);
    async_functions.insert(107, false);
    ActorProgram { default_specializations, async_functions }
}

fn input(definition: u128, handlers: Vec<u128>) -> ActorInput {
    ActorInput { definition, source: SourceRange::new("src/actors.wr", 4, 40), handlers }
}

fn completed(identity: u128, handlers: Vec<u128>) -> CompletedActor {
    CompletedActor { identity, source: SourceRange::new("src/actors.wr", 4, 40), handlers }
}

fn defect(evidence: &str) -> CompletionFailure {
    CompletionFailure::Defect(evidence.to_string())
}

#[test]
fn completed_actors_are_ordered_by_identity_with_ordered_unique_handlers() {
    let inputs = vec![input(20, vec![5, 3, 5]), input(10, vec![3])];
    let actors = complete_actors(&inputs, &program(), &Cancellation::new()).unwrap();
    assert_eq!(actors.len(), 2);
    assert_eq!(actors[0].identity, 10);
    assert_eq!(actors[0].handlers, vec![103]);
    assert_eq!(actors[1].identity, 20);
    assert_eq!(actors[1].handlers, vec![103, 105]);
    assert_eq!(actors[1].source, SourceRange::new("src/actors.wr", 4, 40));
    assert_eq!(verify_actors(&actors, &program(), &Cancellation::new()), Ok(()));
}

#[test]
fn actor_completion_rejects_each_defect_in_order() {
    let cancellation = Cancellation::new();
    assert_eq!(
        complete_actors(&vec![input(10, vec![3]), input(10, vec![9])], &program(), &cancellation).unwrap_err(),
        defect("Actor identity is duplicated")
    );
    assert_eq!(
        complete_actors(&vec![input(10, vec![3, 9])], &program(), &cancellation).unwrap_err(),
        defect("Actor handler has no concrete Specialization")
    );
    assert_eq!(
        complete_actors(&vec![input(10, vec![8])], &program(), &cancellation).unwrap_err(),
        defect("Actor handler Specialization is missing")
    );
    assert_eq!(
        complete_actors(&vec![input(10, vec![7, 9])], &program(), &cancellation).unwrap_err(),
        defect("Actor message handler is not async")
    );
    assert!(complete_actors(&vec![], &program(), &cancellation).unwrap().is_empty());
}

#[test]
fn actor_verification_rejects_each_defect() {
    let cancellation = Cancellation::new();
    assert_eq!(
        verify_actors(&vec![completed(20, vec![103]), completed(10, vec![103])], &program(), &cancellation),
        Err(defect("Actor identities are not unique canonical order"))
    );
    assert_eq!(
        verify_actors(&vec![completed(10, vec![103]), completed(10, vec![103])], &program(), &cancellation),
        Err(defect("Actor identities are not unique canonical order"))
    );
    let unplaced = CompletedActor { identity: 10, source: SourceRange::new("", 0, 0), handlers: vec![] };
    assert_eq!(verify_actors(&vec![unplaced], &program(), &cancellation), Err(defect("Actor provenance is missing")));
    assert_eq!(
        verify_actors(&vec![completed(10, vec![105, 103])], &program(), &cancellation),
        Err(defect("Actor handlers are not unique canonical order"))
    );
    assert_eq!(
        verify_actors(&vec![completed(10, vec![103, 104])], &program(), &cancellation),
        Err(defect("Actor handler references a missing Specialization"))
    );
    assert_eq!(
        verify_actors(&vec![completed(10, vec![107])], &program(), &cancellation),
        Err(defect("Actor handler references a non-async function"))
    );
}

#[test]
fn cancelled_actor_completion_and_verification_answer_cancelled() {
    let cancellation = Cancellation::new();
    cancellation.cancel();
    assert_eq!(
        complete_actors(&vec![input(10, vec![3])], &program(), &cancellation).unwrap_err(),
        CompletionFailure::Cancelled
    );
    assert_eq!(verify_actors(&vec![completed(10, vec![103])], &program(), &cancellation), Err(CompletionFailure::Cancelled));
}

#[test]
fn no_actors_complete_and_verify_without_polling_cancellation() {
    let cancellation = Cancellation::new();
    cancellation.cancel();
    assert!(complete_actors(&vec![], &program(), &cancellation).unwrap().is_empty());
    assert_eq!(verify_actors(&vec![], &program(), &cancellation), Ok(()));
}

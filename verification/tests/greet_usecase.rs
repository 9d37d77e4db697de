use quiz_arena::greet::domain::{Greeting, SenderName};
use quiz_arena::greet::persistence::add_failure;
use quiz_arena::greet::presentation::GreetServiceHandler;
use quiz_arena::greet::usecase::{
    AddGreetingError, GreetAction, GreetError, GreetEvent, GreetFlow, GreetInput, GreetOutput,
    MAX_ATTEMPTS,
};
use quiz_arena::kernel::{DbErrorKind, DbFailure, RepositoryError, RpcCode};

/// A store that makes the use case lose the insert race a set number of
/// times: each losing attempt finds no row and fails on add, and once the
/// losses are spent the winner's row is there to update.
struct RacingRepository {
    conflicts: u32,
    add_error: AddGreetingError,
    attempts: u32,
}

fn racing(conflicts: u32) -> RacingRepository {
    RacingRepository {
        conflicts,
        add_error: AddGreetingError::AlreadyExists,
        attempts: 0,
    }
}

/// Runs a greet request against `repository` with a unit of work that
/// always begins, commits and rolls back.
fn execute(repository: &mut RacingRepository, sender: &str) -> Result<GreetOutput, GreetError> {
    let (mut flow, mut action) = GreetFlow::start(GreetInput {
        sender: sender.to_owned(),
    });
    loop {
        action = match action {
            GreetAction::Begin => flow.next(GreetEvent::Began(Ok(()))),
            GreetAction::Find => {
                repository.attempts += 1;
                let found = if repository.attempts <= repository.conflicts {
                    None
                } else {
                    let name = flow.sender().unwrap().to_text();
                    Some(Greeting::from_persistence(SenderName::new(name).unwrap(), 1))
                };
                flow.next(GreetEvent::Found(Ok(found)))
            }
            GreetAction::Add => flow.next(GreetEvent::Added(Err(repository.add_error))),
            GreetAction::Update => flow.next(GreetEvent::Updated(Ok(()))),
            GreetAction::Commit => flow.next(GreetEvent::Committed(Ok(()))),
            GreetAction::Rollback => flow.next(GreetEvent::RolledBack),
            GreetAction::Finish => return flow.into_outcome().unwrap(),
        };
    }
}

#[test]
fn greet_usecase_retries_and_takes_the_update_path_after_losing_the_insert_race() {
    let mut repository = racing(1);

    let output = execute(&mut repository, "alice").unwrap();

    // The second attempt re-read, saw the winner's row, and flipped from the
    // add branch to the update branch.
    assert!(output.returning);
    assert_eq!(output.sender, "alice");
    assert_eq!(repository.attempts, 2);
}

#[test]
fn reports_conflict_after_exhausting_insert_race_retries() {
    let mut repository = racing(u32::MAX);

    let outcome = execute(&mut repository, "alice");

    assert!(matches!(outcome, Err(GreetError::Conflict)));
    assert_eq!(repository.attempts, MAX_ATTEMPTS);
}

#[test]
fn retries_concurrency_conflicts() {
    let mut repository = racing(1);
    repository.add_error = AddGreetingError::Repository(RepositoryError::RolledBack);
    let output = execute(&mut repository, "alice").unwrap();
    assert!(output.returning);
    assert_eq!(repository.attempts, 2);
}

#[test]
fn preserves_conflict_after_exhausting_attempts() {
    let mut repository = racing(u32::MAX);
    repository.add_error = AddGreetingError::Repository(RepositoryError::RolledBack);
    let outcome = execute(&mut repository, "alice");
    assert!(matches!(outcome, Err(GreetError::Conflict)));
    assert_eq!(repository.attempts, MAX_ATTEMPTS);
}

#[test]
fn does_not_retry_internal_failures_with_potentially_unknown_outcomes() {
    let mut repository = racing(u32::MAX);
    repository.add_error = AddGreetingError::Repository(RepositoryError::Internal);
    let outcome = execute(&mut repository, "alice");
    assert!(matches!(outcome, Err(GreetError::Internal)));
    assert_eq!(repository.attempts, 1);
}

#[test]
fn does_not_retry_an_unanswered_store() {
    let mut repository = racing(u32::MAX);
    repository.add_error = AddGreetingError::Repository(RepositoryError::Unanswered);
    let outcome = execute(&mut repository, "alice");
    assert_eq!(outcome, Err(GreetError::Internal));
    assert_eq!(repository.attempts, 1);
}

#[test]
fn rejects_invalid_names_before_accessing_repositories() {
    for (sender, expected) in [
        (String::new(), GreetError::EmptySenderName),
        (
            "alice bob".to_owned(),
            GreetError::SenderNameContainsInvalidCharacter,
        ),
        ("あ".repeat(33), GreetError::SenderNameTooLong { length: 33 }),
    ] {
        let mut repository = racing(0);
        let outcome = execute(&mut repository, &sender);
        assert_eq!(outcome.unwrap_err(), expected);
        assert_eq!(repository.attempts, 0);
    }
}

#[test]
fn gives_up_after_exhausting_attempts() {
    let mut repository = racing(u32::MAX);
    let outcome = execute(&mut repository, "alice");
    assert_eq!(outcome, Err(GreetError::Conflict));
    assert_eq!(repository.attempts, MAX_ATTEMPTS);
}

#[test]
fn first_greeting_commits_a_new_history() {
    let (mut flow, action) = GreetFlow::start(GreetInput {
        sender: "carol".to_owned(),
    });
    assert_eq!(action, GreetAction::Begin);
    assert_eq!(flow.next(GreetEvent::Began(Ok(()))), GreetAction::Find);
    assert_eq!(flow.next(GreetEvent::Found(Ok(None))), GreetAction::Add);
    let pending = flow.pending().unwrap();
    assert_eq!(pending.sender().as_str(), "carol");
    assert_eq!(pending.times_greeted(), 1);
    assert_eq!(flow.next(GreetEvent::Added(Ok(()))), GreetAction::Commit);
    assert_eq!(flow.next(GreetEvent::Committed(Ok(()))), GreetAction::Finish);
    assert_eq!(
        flow.into_outcome(),
        Some(Ok(GreetOutput {
            sender: "carol".to_owned(),
            returning: false
        }))
    );
}

#[test]
fn a_rolled_back_commit_is_retried() {
    let (mut flow, _) = GreetFlow::start(GreetInput {
        sender: "dave".to_owned(),
    });
    flow.next(GreetEvent::Began(Ok(())));
    flow.next(GreetEvent::Found(Ok(None)));
    flow.next(GreetEvent::Added(Ok(())));
    assert_eq!(
        flow.next(GreetEvent::Committed(Err(RepositoryError::RolledBack))),
        GreetAction::Begin
    );
    assert_eq!(flow.attempt(), 2);
}

#[test]
fn a_failed_begin_that_is_not_contention_finishes() {
    let (mut flow, _) = GreetFlow::start(GreetInput {
        sender: "erin".to_owned(),
    });
    assert_eq!(
        flow.next(GreetEvent::Began(Err(RepositoryError::Unanswered))),
        GreetAction::Finish
    );
    assert_eq!(flow.into_outcome(), Some(Err(GreetError::Internal)));
}

#[test]
fn an_unexpected_event_changes_nothing() {
    let (mut flow, _) = GreetFlow::start(GreetInput {
        sender: "frank".to_owned(),
    });
    assert_eq!(flow.next(GreetEvent::RolledBack), GreetAction::Begin);
    assert_eq!(flow.attempt(), 1);
}

#[test]
fn a_failed_lookup_rolls_back_then_finishes() {
    let (mut flow, _) = GreetFlow::start(GreetInput {
        sender: "gina".to_owned(),
    });
    flow.next(GreetEvent::Began(Ok(())));
    assert_eq!(
        flow.next(GreetEvent::Found(Err(RepositoryError::Internal))),
        GreetAction::Rollback
    );
    assert_eq!(flow.next(GreetEvent::RolledBack), GreetAction::Finish);
    assert_eq!(flow.outcome(), Some(&Err(GreetError::Internal)));
}

#[test]
fn add_rejects_duplicate_sender_as_conflict() {
    let duplicate = DbFailure {
        kind: DbErrorKind::Statement,
        unique_violation: true,
        driver: None,
    };
    assert_eq!(add_failure(&duplicate), AddGreetingError::AlreadyExists);
    assert_eq!(GreetError::from(RepositoryError::RolledBack), GreetError::Conflict);
}

#[test]
fn handler_replies_to_first_and_returning_senders() {
    let handler = GreetServiceHandler::new(());
    assert_eq!(
        handler.reply(&GreetOutput {
            sender: "alice".to_owned(),
            returning: false
        }),
        "Hello, alice! Nice to meet you."
    );
    assert_eq!(
        handler.reply(&GreetOutput {
            sender: "alice".to_owned(),
            returning: true
        }),
        "Welcome back, alice!"
    );
}

#[test]
fn greet_errors_become_statuses() {
    let handler = GreetServiceHandler::new(());
    let status = handler.reject(&GreetError::SenderNameTooLong { length: 40 });
    assert_eq!(status.code, RpcCode::InvalidArgument);
    assert_eq!(status.message, "sender name is too long (40 characters)");

    let status = handler.reject(&GreetError::EmptySenderName);
    assert_eq!(status.code, RpcCode::InvalidArgument);
    assert_eq!(status.message, "sender name must not be empty");

    let status = handler.reject(&GreetError::SenderNameContainsInvalidCharacter);
    assert_eq!(status.code, RpcCode::InvalidArgument);
    assert_eq!(
        status.message,
        "sender name must contain only letters and numbers"
    );

    let status = handler.reject(&GreetError::Conflict);
    assert_eq!(status.code, RpcCode::Aborted);
    assert_eq!(status.message, "contended, retry");

    let status = handler.reject(&GreetError::Internal);
    assert_eq!(status.code, RpcCode::Internal);
    assert_eq!(status.message, "internal error");

    assert_eq!(
        GreetError::Conflict.message(),
        "greeting encountered a concurrency conflict"
    );
    assert_eq!(GreetError::Internal.message(), "failed to record greeting");
}

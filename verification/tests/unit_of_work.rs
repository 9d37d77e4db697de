use quiz_arena::greet::usecase::GreetError;
use quiz_arena::kernel::{RepositoryError, UnitOfWork, UnitOfWorkAction, UnitOfWorkEvent};

#[test]
fn work_that_succeeds_is_committed() {
    let (mut unit, action) = UnitOfWork::<u32, GreetError>::start();
    assert_eq!(action, UnitOfWorkAction::Begin);
    assert_eq!(unit.next(UnitOfWorkEvent::Began(Ok(()))), UnitOfWorkAction::Work);
    assert_eq!(unit.next(UnitOfWorkEvent::Worked(Ok(7))), UnitOfWorkAction::Commit);
    assert_eq!(unit.next(UnitOfWorkEvent::Committed(Ok(()))), UnitOfWorkAction::Finish);
    assert_eq!(unit.into_outcome(), Some(Ok(7)));
}

#[test]
fn work_that_fails_is_rolled_back_and_answers_its_own_error() {
    let (mut unit, _) = UnitOfWork::<u32, GreetError>::start();
    unit.next(UnitOfWorkEvent::Began(Ok(())));
    assert_eq!(
        unit.next(UnitOfWorkEvent::Worked(Err(GreetError::EmptySenderName))),
        UnitOfWorkAction::Rollback
    );
    assert_eq!(unit.next(UnitOfWorkEvent::RolledBack), UnitOfWorkAction::Finish);
    assert_eq!(unit.into_outcome(), Some(Err(GreetError::EmptySenderName)));
}

#[test]
fn a_failed_begin_or_commit_answers_the_converted_store_error() {
    let (mut unit, _) = UnitOfWork::<u32, GreetError>::start();
    assert_eq!(
        unit.next(UnitOfWorkEvent::Began(Err(RepositoryError::Unanswered))),
        UnitOfWorkAction::Finish
    );
    assert_eq!(unit.into_outcome(), Some(Err(GreetError::Internal)));

    let (mut unit, _) = UnitOfWork::<u32, GreetError>::start();
    unit.next(UnitOfWorkEvent::Began(Ok(())));
    unit.next(UnitOfWorkEvent::Worked(Ok(1)));
    unit.next(UnitOfWorkEvent::Committed(Err(RepositoryError::RolledBack)));
    assert_eq!(unit.into_outcome(), Some(Err(GreetError::Conflict)));

    let (mut unit, _) = UnitOfWork::<u32, RepositoryError>::start();
    unit.next(UnitOfWorkEvent::Began(Err(RepositoryError::Internal)));
    assert_eq!(unit.into_outcome(), Some(Err(RepositoryError::Internal)));
}

#[test]
fn unexpected_events_change_nothing() {
    let (mut unit, _) = UnitOfWork::<u32, GreetError>::start();
    assert_eq!(unit.next(UnitOfWorkEvent::RolledBack), UnitOfWorkAction::Begin);
    assert_eq!(unit.action(), UnitOfWorkAction::Begin);
}

use quiz_arena::greet::domain::{Greeting, SenderName};
use quiz_arena::greet::persistence::{add_failure, greeting_from_row, greeting_row};
use quiz_arena::greet::usecase::AddGreetingError;
use quiz_arena::kernel::{
    DatabaseBackend, DbErrorKind, DbFailure, DriverFailure, RepositoryError, RpcCode, classify,
    contended, unanswered,
};

fn statement(code: Option<&str>, backend: DatabaseBackend) -> DbFailure {
    DbFailure {
        kind: DbErrorKind::Statement,
        unique_violation: false,
        driver: Some(DriverFailure::Database {
            code: code.map(str::to_owned),
            backend,
        }),
    }
}

#[test]
fn reports_a_duplicate_insert_as_rolled_back() {
    let duplicate = DbFailure {
        kind: DbErrorKind::Statement,
        unique_violation: true,
        driver: None,
    };
    assert_eq!(classify(&duplicate), RepositoryError::RolledBack);
}

#[test]
fn serialization_failures_are_contention() {
    assert!(contended(&statement(Some("40001"), DatabaseBackend::Other)));
    assert_eq!(
        classify(&statement(Some("40001"), DatabaseBackend::MySql { number: 1213 })),
        RepositoryError::RolledBack
    );
}

#[test]
fn sqlite_busy_and_locked_are_contention() {
    for code in ["5", "6", "261", "517", "262"] {
        assert!(contended(&statement(Some(code), DatabaseBackend::Sqlite)), "{code}");
    }
    for code in ["1", "19", "2067", "busy"] {
        assert!(!contended(&statement(Some(code), DatabaseBackend::Sqlite)), "{code}");
    }
    assert!(!contended(&statement(None, DatabaseBackend::Sqlite)));
}

#[test]
fn mysql_lock_wait_timeout_is_contention() {
    assert!(contended(&statement(Some("HY000"), DatabaseBackend::MySql { number: 1205 })));
    assert!(!contended(&statement(Some("HY000"), DatabaseBackend::MySql { number: 1062 })));
}

#[test]
fn unreachable_stores_are_unanswered() {
    for kind in [DbErrorKind::Connection, DbErrorKind::ConnectionAcquire] {
        let failure = DbFailure {
            kind,
            unique_violation: false,
            driver: None,
        };
        assert!(unanswered(&failure));
        assert_eq!(classify(&failure), RepositoryError::Unanswered);
    }
    for driver in [DriverFailure::Io, DriverFailure::WorkerCrashed] {
        let failure = DbFailure {
            kind: DbErrorKind::Statement,
            unique_violation: false,
            driver: Some(driver),
        };
        assert_eq!(classify(&failure), RepositoryError::Unanswered);
    }
}

#[test]
fn other_failures_are_internal() {
    assert_eq!(
        classify(&statement(Some("42P01"), DatabaseBackend::Other)),
        RepositoryError::Internal
    );
    let failure = DbFailure {
        kind: DbErrorKind::Other,
        unique_violation: false,
        driver: None,
    };
    assert_eq!(classify(&failure), RepositoryError::Internal);
}

#[test]
fn contention_on_a_connection_is_still_contention() {
    let failure = DbFailure {
        kind: DbErrorKind::Connection,
        unique_violation: false,
        driver: Some(DriverFailure::Database {
            code: Some("5".to_owned()),
            backend: DatabaseBackend::Sqlite,
        }),
    };
    assert_eq!(classify(&failure), RepositoryError::RolledBack);
}

#[test]
fn repository_errors_become_statuses() {
    let status = RepositoryError::RolledBack.to_status();
    assert_eq!(status.code, RpcCode::Aborted);
    assert_eq!(status.message, "contended, retry");
    let status = RepositoryError::Unanswered.to_status();
    assert_eq!(status.code, RpcCode::Unavailable);
    assert_eq!(status.message, "persistence unavailable");
    let status = RepositoryError::Internal.to_status();
    assert_eq!(status.code, RpcCode::Internal);
    assert_eq!(status.message, "internal error");
}

#[test]
fn rows_that_keep_the_rules_rehydrate() {
    let greeting = greeting_from_row("alice".to_owned(), 3).unwrap();
    assert_eq!(greeting.sender().as_str(), "alice");
    assert_eq!(greeting.times_greeted(), 3);
    assert_eq!(greeting_row(&greeting), ("alice".to_owned(), 3));
}

#[test]
fn rows_that_break_the_rules_are_internal_failures() {
    assert_eq!(
        greeting_from_row("alice bob".to_owned(), 3).unwrap_err(),
        RepositoryError::Internal
    );
    assert_eq!(
        greeting_from_row("alice".to_owned(), -1).unwrap_err(),
        RepositoryError::Internal
    );
    assert_eq!(
        greeting_from_row("alice".to_owned(), i64::from(u32::MAX) + 1).unwrap_err(),
        RepositoryError::Internal
    );
    assert!(greeting_from_row("alice".to_owned(), i64::from(u32::MAX)).is_ok());
}

#[test]
fn a_failed_insert_that_is_not_a_duplicate_is_classified() {
    let failure = statement(Some("5"), DatabaseBackend::Sqlite);
    assert_eq!(
        add_failure(&failure),
        AddGreetingError::Repository(RepositoryError::RolledBack)
    );
    let first = Greeting::first(SenderName::new("zoe".to_owned()).unwrap());
    assert_eq!(greeting_row(&first).1, 1);
}

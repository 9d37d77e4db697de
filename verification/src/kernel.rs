//! The shared kernel: what every service builds on. Repository failures, how
//! a store's failure is classified, and the RPC status each failure becomes.

use vstd::prelude::*;

use crate::text::parse_u32_text;
use vstd::std_specs::convert::FromSpec;

verus! {

/// Why a repository operation failed, shared by every persistence port.
#[derive(Debug, Clone, Copy, PartialEq, Eq)]
pub enum RepositoryError {
    /// Another transaction got in the way, and this unit of work rolls back.
    /// Rerunning it from fresh reads can succeed.
    RolledBack,
    /// The store did not answer: refused, timed out, or dropped mid-call. The
    /// outcome is unknown, so nothing in-process reruns it.
    Unanswered,
    /// The store answered with a failure that will repeat.
    Internal,
}

/// Which database backend a driver-level error came from.
#[derive(Debug, Clone, PartialEq, Eq)]
pub enum DatabaseBackend {
    Sqlite,
    /// MySQL, with the server's error number.
    MySql { number: u16 },
    Other,
}

/// What the driver beneath the ORM reported, when it reported anything.
#[derive(Debug, Clone, PartialEq, Eq)]
pub enum DriverFailure {
    /// The database answered with an error, carrying its code when it has one.
    Database { code: Option<String>, backend: DatabaseBackend },
    /// Reading or writing the connection failed.
    Io,
    /// The driver's background worker died.
    WorkerCrashed,
    Other,
}

/// Where in the ORM the failure surfaced.
#[derive(Debug, Clone, Copy, PartialEq, Eq)]
pub enum DbErrorKind {
    /// Opening or using a connection failed.
    Connection,
    /// No connection could be taken from the pool.
    ConnectionAcquire,
    /// Executing a statement or a query failed.
    Statement,
    Other,
}

/// The facts about a database failure that its classification reads.
#[derive(Debug, Clone, PartialEq, Eq)]
pub struct DbFailure {
    pub kind: DbErrorKind,
    /// Whether the ORM recognised a unique-constraint violation.
    pub unique_violation: bool,
    /// The driver's own error, where the ORM wraps one.
    pub driver: Option<DriverFailure>,
}

/// The database-level error code and backend behind a failure, when the
/// driver reported one.
pub open spec fn database_error_of(f: DbFailure) -> Option<(Option<String>, DatabaseBackend)> {
    match f.kind {
        DbErrorKind::Connection | DbErrorKind::Statement => match f.driver {
            Some(DriverFailure::Database { code, backend }) => Some((code, backend)),
            _ => None,
        },
        _ => None,
    }
}

/// SQLITE_BUSY (5) or SQLITE_LOCKED (6), or one of their extended codes,
/// whose low byte is the primary code.
pub open spec fn sqlite_contention_code(code: Seq<char>) -> bool {
    match crate::text::u32_from_text(code) {
        Some(n) => n % 256 == 5 || n % 256 == 6,
        None => false,
    }
}

/// Contention the store reported: each case also proves that a failed
/// commit did not land, which is what makes a rerun safe.
pub open spec fn is_contended(f: DbFailure) -> bool {
    if f.unique_violation {
        true
    } else {
        match database_error_of(f) {
            None => false,
            Some((code, backend)) => {
                if code matches Some(c) && c@ == "40001"@ {
                    true
                } else {
                    match backend {
                        DatabaseBackend::Sqlite => code matches Some(c) && sqlite_contention_code(
                            c@,
                        ),
                        DatabaseBackend::MySql { number } => number == 1205,
                        DatabaseBackend::Other => false,
                    }
                }
            },
        }
    }
}

/// Whether the store could not be reached or did not answer in time.
pub open spec fn is_unanswered(f: DbFailure) -> bool {
    match f.kind {
        DbErrorKind::Connection | DbErrorKind::ConnectionAcquire => true,
        DbErrorKind::Statement => f.driver matches Some(d) && (d is Io || d is WorkerCrashed),
        DbErrorKind::Other => false,
    }
}

/// The repository error a database failure becomes.
pub open spec fn classification(f: DbFailure) -> RepositoryError {
    if is_contended(f) {
        RepositoryError::RolledBack
    } else if is_unanswered(f) {
        RepositoryError::Unanswered
    } else {
        RepositoryError::Internal
    }
}

/// The database-level code and backend behind `failure`, when there is one.
pub fn database_error(failure: &DbFailure) -> (r: Option<(&Option<String>, &DatabaseBackend)>)
    ensures
        match database_error_of(*failure) {
            Some((code, backend)) => r matches Some((c, b)) && *c == code && *b == backend,
            None => r is None,
        },
{
    match failure.kind {
        DbErrorKind::Connection | DbErrorKind::Statement => match &failure.driver {
            Some(DriverFailure::Database { code, backend }) => Some((code, backend)),
            _ => None,
        },
        _ => None,
    }
}

/// Whether `code` is SQLite's BUSY or LOCKED, primary or extended.
fn sqlite_contention(code: &String) -> (b: bool)
    ensures
        b == sqlite_contention_code(code@),
{
    match parse_u32_text(code.as_str()) {
        Some(n) => {
            let low = n & 0xff;
            assert(low == n % 256) by (bit_vector)
                requires
                    low == n & 0xff,
            ;
            low == 5 || low == 6
        },
        None => false,
    }
}

/// Whether the store reported contention.
pub fn contended(failure: &DbFailure) -> (b: bool)
    ensures
        b == is_contended(*failure),
{
    if failure.unique_violation {
        return true;
    }
    match database_error(failure) {
        None => false,
        Some((code, backend)) => {
            let serialization = match code {
                Some(c) => {
                    let expected = crate::text::owned("40001");
                    *c == expected
                },
                None => false,
            };
            if serialization {
                return true;
            }
            match backend {
                DatabaseBackend::Sqlite => match code {
                    Some(c) => sqlite_contention(c),
                    None => false,
                },
                DatabaseBackend::MySql { number } => *number == 1205,
                DatabaseBackend::Other => false,
            }
        },
    }
}

/// Whether the store could not be reached or did not answer in time.
pub fn unanswered(failure: &DbFailure) -> (b: bool)
    ensures
        b == is_unanswered(*failure),
{
    match failure.kind {
        DbErrorKind::Connection | DbErrorKind::ConnectionAcquire => true,
        DbErrorKind::Statement => match &failure.driver {
            Some(DriverFailure::Io) | Some(DriverFailure::WorkerCrashed) => true,
            _ => false,
        },
        DbErrorKind::Other => false,
    }
}

/// A store that could not be reached or did not answer is never taken for
/// an internal failure: a failure to open, use or acquire a connection is
/// contention or unanswered, whatever the driver reported, and unanswered
/// unless it proves contention.
pub proof fn law_connection_failures_are_unanswered(f: DbFailure)
    requires
        f.kind == DbErrorKind::Connection || f.kind == DbErrorKind::ConnectionAcquire,
    ensures
        classification(f) == RepositoryError::RolledBack || classification(f)
            == RepositoryError::Unanswered,
        !is_contended(f) ==> classification(f) == RepositoryError::Unanswered,
        !f.unique_violation && !(f.driver matches Some(DriverFailure::Database { .. })) ==> classification(f)
            == RepositoryError::Unanswered,
{
}

/// A statement whose connection broke, or whose driver worker died, did not
/// get an answer: unless the store reported a unique violation, it is
/// unanswered.
pub proof fn law_broken_statements_are_unanswered(f: DbFailure)
    requires
        f.kind == DbErrorKind::Statement,
        f.driver == Some(DriverFailure::Io) || f.driver == Some(DriverFailure::WorkerCrashed),
        !f.unique_violation,
    ensures
        classification(f) == RepositoryError::Unanswered,
{
}

/// A unique violation is always contention, and a database error with the
/// serialization failure code `40001` is contention on every backend.
pub proof fn law_contention_is_rolled_back(f: DbFailure)
    ensures
        f.unique_violation ==> classification(f) == RepositoryError::RolledBack,
        (f.kind == DbErrorKind::Connection || f.kind == DbErrorKind::Statement) && (f.driver matches Some(
            DriverFailure::Database { code: Some(c), .. },
        ) && c@ == "40001"@) ==> classification(f) == RepositoryError::RolledBack,
{
}

/// Classifies a database failure by what the store answered.
pub fn classify(failure: &DbFailure) -> (r: RepositoryError)
    ensures
        r == classification(*failure),
{
    if contended(failure) {
        RepositoryError::RolledBack
    } else if unanswered(failure) {
        RepositoryError::Unanswered
    } else {
        RepositoryError::Internal
    }
}

} // verus!

verus! {

/// The status codes an RPC can end with, as the Connect protocol names them.
#[derive(Debug, Clone, Copy, PartialEq, Eq)]
pub enum RpcCode {
    Canceled,
    Unknown,
    InvalidArgument,
    DeadlineExceeded,
    NotFound,
    AlreadyExists,
    PermissionDenied,
    ResourceExhausted,
    FailedPrecondition,
    Aborted,
    OutOfRange,
    Unimplemented,
    Internal,
    Unavailable,
    DataLoss,
    Unauthenticated,
}

/// The error an RPC is answered with: its code and the message sent to the
/// client.
#[derive(Debug, Clone, PartialEq, Eq)]
pub struct RpcStatus {
    pub code: RpcCode,
    pub message: String,
}

/// The status a persistence outcome is answered with. Messages are generic:
/// the diagnosis is in the trace, not in the response.
pub open spec fn repository_status(error: RepositoryError) -> (RpcCode, Seq<char>) {
    match error {
        RepositoryError::RolledBack => (RpcCode::Aborted, "contended, retry"@),
        RepositoryError::Unanswered => (RpcCode::Unavailable, "persistence unavailable"@),
        RepositoryError::Internal => (RpcCode::Internal, "internal error"@),
    }
}

impl RepositoryError {
    /// The status this persistence outcome is answered with.
    pub fn to_status(self) -> (r: RpcStatus)
        ensures
            (r.code, r.message@) == repository_status(self),
    {
        match self {
            RepositoryError::RolledBack => RpcStatus {
                code: RpcCode::Aborted,
                message: crate::text::owned("contended, retry"),
            },
            RepositoryError::Unanswered => RpcStatus {
                code: RpcCode::Unavailable,
                message: crate::text::owned("persistence unavailable"),
            },
            RepositoryError::Internal => RpcStatus {
                code: RpcCode::Internal,
                message: crate::text::owned("internal error"),
            },
        }
    }
}

} // verus!

verus! {

/// What a unit of work asks of the store, or of the work, next.
#[derive(Debug, Clone, Copy, PartialEq, Eq)]
pub enum UnitOfWorkAction {
    /// Begin the transaction.
    Begin,
    /// Run the work inside the transaction.
    Work,
    /// Commit the transaction.
    Commit,
    /// Roll the transaction back.
    Rollback,
    /// Nothing more: [`UnitOfWork::into_outcome`] gives the answer.
    Finish,
}

/// What the store, or the work, answered.
#[derive(Debug)]
pub enum UnitOfWorkEvent<T, E> {
    Began(Result<(), RepositoryError>),
    Worked(Result<T, E>),
    Committed(Result<(), RepositoryError>),
    RolledBack,
}

/// Where a unit of work stands.
#[derive(Debug, Clone, Copy, PartialEq, Eq)]
pub enum UnitOfWorkPhase {
    Beginning,
    Working,
    Committing,
    RollingBack,
    Done,
}

/// The state of a unit of work: the value the work returned, held until
/// the commit lands; the work's error, held while rolling back; and the
/// answer once done.
pub struct UnitOfWorkState<T, E> {
    pub phase: UnitOfWorkPhase,
    pub held: Option<T>,
    pub failure: Option<E>,
    pub outcome: Option<Result<T, E>>,
}

/// The action that waits on each phase.
pub open spec fn unit_of_work_action(phase: UnitOfWorkPhase) -> UnitOfWorkAction {
    match phase {
        UnitOfWorkPhase::Beginning => UnitOfWorkAction::Begin,
        UnitOfWorkPhase::Working => UnitOfWorkAction::Work,
        UnitOfWorkPhase::Committing => UnitOfWorkAction::Commit,
        UnitOfWorkPhase::RollingBack => UnitOfWorkAction::Rollback,
        UnitOfWorkPhase::Done => UnitOfWorkAction::Finish,
    }
}

/// How a unit of work moves on an event: it commits when the work returns
/// `Ok` and rolls back when it returns `Err`, answering with the work's own
/// error, so a partial write never escapes failed work; a transaction that
/// cannot begin or commit fails with the store's error, converted into the
/// work's error type. An event that does not answer the waiting action
/// leaves the state as it is.
pub open spec fn unit_of_work_transition<T, E: From<RepositoryError>>(
    s: UnitOfWorkState<T, E>,
    e: UnitOfWorkEvent<T, E>,
) -> UnitOfWorkState<T, E> {
    match (s.phase, e) {
        (UnitOfWorkPhase::Beginning, UnitOfWorkEvent::Began(Ok(()))) => UnitOfWorkState {
            phase: UnitOfWorkPhase::Working,
            ..s
        },
        (UnitOfWorkPhase::Beginning, UnitOfWorkEvent::Began(Err(r))) => UnitOfWorkState {
            phase: UnitOfWorkPhase::Done,
            outcome: Some(Err(E::from_spec(r))),
            ..s
        },
        (UnitOfWorkPhase::Working, UnitOfWorkEvent::Worked(Ok(v))) => UnitOfWorkState {
            phase: UnitOfWorkPhase::Committing,
            held: Some(v),
            ..s
        },
        (UnitOfWorkPhase::Working, UnitOfWorkEvent::Worked(Err(err))) => UnitOfWorkState {
            phase: UnitOfWorkPhase::RollingBack,
            failure: Some(err),
            ..s
        },
        (UnitOfWorkPhase::Committing, UnitOfWorkEvent::Committed(Ok(()))) => match s.held {
            Some(v) => UnitOfWorkState {
                phase: UnitOfWorkPhase::Done,
                held: None,
                outcome: Some(Ok(v)),
                ..s
            },
            None => s,
        },
        (UnitOfWorkPhase::Committing, UnitOfWorkEvent::Committed(Err(r))) => UnitOfWorkState {
            phase: UnitOfWorkPhase::Done,
            held: None,
            outcome: Some(Err(E::from_spec(r))),
            ..s
        },
        (UnitOfWorkPhase::RollingBack, UnitOfWorkEvent::RolledBack) => match s.failure {
            Some(err) => UnitOfWorkState {
                phase: UnitOfWorkPhase::Done,
                failure: None,
                outcome: Some(Err(err)),
                ..s
            },
            None => s,
        },
        _ => s,
    }
}

/// The well-formed states: a held value exactly while committing, a held
/// failure exactly while rolling back, and an answer exactly when done.
pub open spec fn unit_of_work_wf<T, E>(s: UnitOfWorkState<T, E>) -> bool {
    &&& (s.phase == UnitOfWorkPhase::Committing <==> s.held is Some)
    &&& (s.phase == UnitOfWorkPhase::RollingBack <==> s.failure is Some)
    &&& (s.phase == UnitOfWorkPhase::Done <==> s.outcome is Some)
}

/// Runs work as one atomic unit: begin, work, then commit or roll back.
/// The answer is the work's value once committed, or an error of the work's
/// own type: the work's error unchanged, or the store's converted by `From`.
pub struct UnitOfWork<T, E> {
    phase: UnitOfWorkPhase,
    held: Option<T>,
    failure: Option<E>,
    outcome: Option<Result<T, E>>,
}

impl<T, E> View for UnitOfWork<T, E> {
    type V = UnitOfWorkState<T, E>;

    closed spec fn view(&self) -> UnitOfWorkState<T, E> {
        UnitOfWorkState {
            phase: self.phase,
            held: self.held,
            failure: self.failure,
            outcome: self.outcome,
        }
    }
}

impl<T, E> UnitOfWork<T, E> {
    /// Every unit of work is well formed.
    #[verifier::type_invariant]
    spec fn well_formed(self) -> bool {
        unit_of_work_wf(self@)
    }
}

impl<T, E: From<RepositoryError>> UnitOfWork<T, E> {
    /// A unit of work about to begin.
    pub fn start() -> (r: (UnitOfWork<T, E>, UnitOfWorkAction))
        ensures
            r.0@.phase == UnitOfWorkPhase::Beginning,
            r.0@.held is None,
            r.0@.failure is None,
            r.0@.outcome is None,
            r.1 == UnitOfWorkAction::Begin,
    {
        (
            UnitOfWork { phase: UnitOfWorkPhase::Beginning, held: None, failure: None, outcome: None },
            UnitOfWorkAction::Begin,
        )
    }

    /// The action this unit of work waits on.
    pub fn action(&self) -> (a: UnitOfWorkAction)
        ensures
            a == unit_of_work_action(self@.phase),
    {
        match self.phase {
            UnitOfWorkPhase::Beginning => UnitOfWorkAction::Begin,
            UnitOfWorkPhase::Working => UnitOfWorkAction::Work,
            UnitOfWorkPhase::Committing => UnitOfWorkAction::Commit,
            UnitOfWorkPhase::RollingBack => UnitOfWorkAction::Rollback,
            UnitOfWorkPhase::Done => UnitOfWorkAction::Finish,
        }
    }

    /// Moves on what the store or the work answered, and says what to do
    /// next. The store's error is converted with `E::from`; where `E`'s
    /// conversion is specified, the new state is exactly what
    /// [`unit_of_work_transition`] says.
    pub fn next(&mut self, event: UnitOfWorkEvent<T, E>) -> (a: UnitOfWorkAction)
        ensures
            final(self)@.phase == unit_of_work_transition(old(self)@, event).phase,
            final(self)@.held == unit_of_work_transition(old(self)@, event).held,
            final(self)@.failure == unit_of_work_transition(old(self)@, event).failure,
            <E as FromSpec<RepositoryError>>::obeys_from_spec()
                ==> final(self)@ == unit_of_work_transition(old(self)@, event),
            a == unit_of_work_action(final(self)@.phase),
    {
        let mut current = UnitOfWork {
            phase: UnitOfWorkPhase::Beginning,
            held: None,
            failure: None,
            outcome: None,
        };
        std::mem::swap(self, &mut current);
        proof {
            use_type_invariant(&current);
        }
        let UnitOfWork { phase, held, failure, outcome } = current;
        let updated = match (phase, event) {
            (UnitOfWorkPhase::Beginning, UnitOfWorkEvent::Began(Ok(()))) => UnitOfWork {
                phase: UnitOfWorkPhase::Working,
                held,
                failure,
                outcome,
            },
            (UnitOfWorkPhase::Beginning, UnitOfWorkEvent::Began(Err(r))) => UnitOfWork {
                phase: UnitOfWorkPhase::Done,
                held,
                failure,
                outcome: Some(Err(E::from(r))),
            },
            (UnitOfWorkPhase::Working, UnitOfWorkEvent::Worked(Ok(v))) => UnitOfWork {
                phase: UnitOfWorkPhase::Committing,
                held: Some(v),
                failure,
                outcome,
            },
            (UnitOfWorkPhase::Working, UnitOfWorkEvent::Worked(Err(err))) => UnitOfWork {
                phase: UnitOfWorkPhase::RollingBack,
                held,
                failure: Some(err),
                outcome,
            },
            (UnitOfWorkPhase::Committing, UnitOfWorkEvent::Committed(Ok(()))) => match held {
                Some(v) => UnitOfWork {
                    phase: UnitOfWorkPhase::Done,
                    held: None,
                    failure,
                    outcome: Some(Ok(v)),
                },
                None => UnitOfWork { phase, held: None, failure, outcome },
            },
            (UnitOfWorkPhase::Committing, UnitOfWorkEvent::Committed(Err(r))) => UnitOfWork {
                phase: UnitOfWorkPhase::Done,
                held: None,
                failure,
                outcome: Some(Err(E::from(r))),
            },
            (UnitOfWorkPhase::RollingBack, UnitOfWorkEvent::RolledBack) => match failure {
                Some(err) => UnitOfWork {
                    phase: UnitOfWorkPhase::Done,
                    held,
                    failure: None,
                    outcome: Some(Err(err)),
                },
                None => UnitOfWork { phase, held, failure: None, outcome },
            },
            (phase, _) => UnitOfWork { phase, held, failure, outcome },
        };
        *self = updated;
        self.action()
    }

    /// Takes the answer out of a finished unit of work.
    pub fn into_outcome(self) -> (o: Option<Result<T, E>>)
        ensures
            o == self@.outcome,
    {
        let UnitOfWork { outcome, .. } = self;
        outcome
    }
}

/// A unit of work is atomic: it commits only work that returned `Ok`, rolls
/// back only work that returned `Err` and then answers with that error
/// unchanged, answers `Ok` only with the value the work returned once its
/// commit has landed, and answers a transaction that cannot begin or commit
/// with the store's error converted into the work's error type.
pub proof fn law_unit_of_work_is_atomic<T, E: From<RepositoryError>>(
    s: UnitOfWorkState<T, E>,
    e: UnitOfWorkEvent<T, E>,
)
    requires
        unit_of_work_wf(s),
    ensures
        ({
            let t = unit_of_work_transition(s, e);
            &&& unit_of_work_wf(t)
            &&& (t.phase == UnitOfWorkPhase::Committing && s.phase != UnitOfWorkPhase::Committing)
                ==> (e matches UnitOfWorkEvent::Worked(Ok(v)) && t.held == Some(v))
            &&& (t.phase == UnitOfWorkPhase::RollingBack && s.phase != UnitOfWorkPhase::RollingBack)
                ==> (e matches UnitOfWorkEvent::Worked(Err(err)) && t.failure == Some(err))
            &&& s.phase != UnitOfWorkPhase::Done ==> (t.outcome matches Some(Ok(v)) ==> (
                s.phase == UnitOfWorkPhase::Committing && s.held == Some(v) && e matches UnitOfWorkEvent::Committed(Ok(()))))
            &&& (s.phase == UnitOfWorkPhase::RollingBack && e is RolledBack) ==> t.outcome
                == Some(Err::<T, E>(s.failure->0))
            &&& s.phase == UnitOfWorkPhase::Beginning ==> (e matches UnitOfWorkEvent::Began(Err(r))
                ==> t.outcome == Some(Err::<T, E>(E::from_spec(r))))
            &&& s.phase == UnitOfWorkPhase::Committing ==> (e matches UnitOfWorkEvent::Committed(Err(r))
                ==> t.outcome == Some(Err::<T, E>(E::from_spec(r))))
            &&& s.phase == UnitOfWorkPhase::Done ==> t == s
        }),
{
}

} // verus!

//! Recording a greeting: the decisions of the greet use case, from the
//! validated sender name through the unit of work's reads and writes to the
//! retry of a contended attempt.
//!
//! The use case alternates persistence work with decisions, so it is a state
//! machine: [`GreetFlow::start`] takes the request, and each
//! [`GreetFlow::next`] takes what the store answered and says what to do next.

use vstd::prelude::*;

use crate::greet::domain::{
    Greeting, GreetingView, SenderName, SenderNameError, count_after_another,
};
use crate::kernel::RepositoryError;

verus! {

/// Attempts per request before giving up on contention. One retry already
/// resolves the lost insert race, the rest absorb fresh contention.
pub const MAX_ATTEMPTS: u32 = 3;

/// The request: who greets.
#[derive(Debug)]
pub struct GreetInput {
    pub sender: String,
}

/// The answer: who greeted, and whether they had greeted before.
#[derive(Debug, PartialEq, Eq)]
pub struct GreetOutput {
    pub sender: String,
    pub returning: bool,
}

/// Why a greeting was not recorded.
#[derive(Debug, Clone, Copy, PartialEq, Eq)]
pub enum GreetError {
    EmptySenderName,
    SenderNameTooLong { length: usize },
    SenderNameContainsInvalidCharacter,
    /// The greeting met a concurrent writer on every attempt.
    Conflict,
    /// The greeting could not be recorded.
    Internal,
}

/// The greet error a sender name error becomes.
pub open spec fn greet_error_of_name(e: SenderNameError) -> GreetError {
    match e {
        SenderNameError::Empty => GreetError::EmptySenderName,
        SenderNameError::TooLong { length } => GreetError::SenderNameTooLong { length },
        SenderNameError::InvalidCharacter => GreetError::SenderNameContainsInvalidCharacter,
    }
}

/// The greet error a repository error becomes: contention is a conflict that
/// a fresh attempt may resolve, and anything else is not retried.
pub open spec fn greet_error_of_repository(e: RepositoryError) -> GreetError {
    match e {
        RepositoryError::RolledBack => GreetError::Conflict,
        RepositoryError::Unanswered => GreetError::Internal,
        RepositoryError::Internal => GreetError::Internal,
    }
}

impl vstd::std_specs::convert::FromSpecImpl<SenderNameError> for GreetError {
    open spec fn obeys_from_spec() -> bool {
        true
    }

    open spec fn from_spec(e: SenderNameError) -> GreetError {
        greet_error_of_name(e)
    }
}

impl From<SenderNameError> for GreetError {
    fn from(e: SenderNameError) -> (r: GreetError) {
        match e {
            SenderNameError::Empty => GreetError::EmptySenderName,
            SenderNameError::TooLong { length } => GreetError::SenderNameTooLong { length },
            SenderNameError::InvalidCharacter => GreetError::SenderNameContainsInvalidCharacter,
        }
    }
}

impl vstd::std_specs::convert::FromSpecImpl<RepositoryError> for GreetError {
    open spec fn obeys_from_spec() -> bool {
        true
    }

    open spec fn from_spec(e: RepositoryError) -> GreetError {
        greet_error_of_repository(e)
    }
}

impl From<RepositoryError> for GreetError {
    fn from(e: RepositoryError) -> (r: GreetError) {
        match e {
            RepositoryError::RolledBack => GreetError::Conflict,
            RepositoryError::Unanswered => GreetError::Internal,
            RepositoryError::Internal => GreetError::Internal,
        }
    }
}

/// Why adding a first greeting history was refused.
#[derive(Debug, Clone, Copy, PartialEq, Eq)]
pub enum AddGreetingError {
    /// A history for the sender exists already: a lost insert race.
    AlreadyExists,
    /// The store failed.
    Repository(RepositoryError),
}

/// The greet error a failed add becomes. The use case adds only after
/// observing no history, so an existing history is a lost insert race, which
/// fresh reads resolve.
pub open spec fn greet_error_of_add(e: AddGreetingError) -> GreetError {
    match e {
        AddGreetingError::AlreadyExists => GreetError::Conflict,
        AddGreetingError::Repository(r) => greet_error_of_repository(r),
    }
}

/// What the use case asks of the persistence side next.
#[derive(Debug, Clone, Copy, PartialEq, Eq)]
pub enum GreetAction {
    /// Begin a unit of work.
    Begin,
    /// Look up the history of [`GreetFlow::sender`].
    Find,
    /// Add [`GreetFlow::pending`] as a first greeting.
    Add,
    /// Update the stored history to [`GreetFlow::pending`].
    Update,
    /// Commit the unit of work.
    Commit,
    /// Roll the unit of work back.
    Rollback,
    /// Nothing more: [`GreetFlow::outcome`] holds the answer.
    Finish,
}

/// What the persistence side answered.
#[derive(Debug)]
pub enum GreetEvent {
    Began(Result<(), RepositoryError>),
    Found(Result<Option<Greeting>, RepositoryError>),
    Added(Result<(), AddGreetingError>),
    Updated(Result<(), RepositoryError>),
    Committed(Result<(), RepositoryError>),
    RolledBack,
}

/// An event, with any greeting it carries seen through its view.
pub enum GreetEventView {
    Began(Result<(), RepositoryError>),
    Found(Result<Option<GreetingView>, RepositoryError>),
    Added(Result<(), AddGreetingError>),
    Updated(Result<(), RepositoryError>),
    Committed(Result<(), RepositoryError>),
    RolledBack,
}

impl View for GreetEvent {
    type V = GreetEventView;

    open spec fn view(&self) -> GreetEventView {
        match self {
            GreetEvent::Began(r) => GreetEventView::Began(*r),
            GreetEvent::Found(Ok(Some(g))) => GreetEventView::Found(Ok(Some(g@))),
            GreetEvent::Found(Ok(None)) => GreetEventView::Found(Ok(None)),
            GreetEvent::Found(Err(e)) => GreetEventView::Found(Err(*e)),
            GreetEvent::Added(r) => GreetEventView::Added(*r),
            GreetEvent::Updated(r) => GreetEventView::Updated(*r),
            GreetEvent::Committed(r) => GreetEventView::Committed(*r),
            GreetEvent::RolledBack => GreetEventView::RolledBack,
        }
    }
}

/// Where an attempt stands.
#[derive(Debug, Clone, Copy, PartialEq, Eq)]
pub enum GreetPhase {
    Beginning,
    Finding,
    Adding,
    Updating,
    Committing,
    RollingBack,
    Done,
}

/// The state of a greet request.
pub struct GreetState {
    pub phase: GreetPhase,
    /// The attempt under way, counting from one.
    pub attempt: u32,
    /// The validated sender name.
    pub sender: Seq<char>,
    /// The history the current attempt writes.
    pub pending: Option<GreetingView>,
    /// Why the current attempt's work failed, while it rolls back.
    pub failure: GreetError,
    /// The answer, once done: the sender and whether they are returning.
    pub result: Option<Result<(Seq<char>, bool), GreetError>>,
}

/// The action that waits on each phase.
pub open spec fn action_of(phase: GreetPhase) -> GreetAction {
    match phase {
        GreetPhase::Beginning => GreetAction::Begin,
        GreetPhase::Finding => GreetAction::Find,
        GreetPhase::Adding => GreetAction::Add,
        GreetPhase::Updating => GreetAction::Update,
        GreetPhase::Committing => GreetAction::Commit,
        GreetPhase::RollingBack => GreetAction::Rollback,
        GreetPhase::Done => GreetAction::Finish,
    }
}

/// The state after an attempt ended with `error`: a conflict with attempts
/// left starts a fresh attempt, anything else finishes with the error.
pub open spec fn after_failed_attempt(s: GreetState, error: GreetError) -> GreetState {
    if error == GreetError::Conflict && s.attempt < MAX_ATTEMPTS {
        GreetState { phase: GreetPhase::Beginning, attempt: (s.attempt + 1) as u32, pending: None, ..s }
    } else {
        GreetState { phase: GreetPhase::Done, pending: None, result: Some(Err(error)), ..s }
    }
}

/// The state after the work failed with `error` inside an open unit of
/// work, which then rolls back.
pub open spec fn after_failed_work(s: GreetState, error: GreetError) -> GreetState {
    GreetState { phase: GreetPhase::RollingBack, pending: None, failure: error, ..s }
}

/// How a greet request moves on an event. An event that does not answer the
/// waiting action leaves the state as it is.
pub open spec fn greet_transition(s: GreetState, e: GreetEventView) -> GreetState {
    match (s.phase, e) {
        (GreetPhase::Beginning, GreetEventView::Began(Ok(()))) => GreetState {
            phase: GreetPhase::Finding,
            ..s
        },
        (GreetPhase::Beginning, GreetEventView::Began(Err(r))) => after_failed_attempt(
            s,
            greet_error_of_repository(r),
        ),
        (GreetPhase::Finding, GreetEventView::Found(Ok(Some(g)))) => GreetState {
            phase: GreetPhase::Updating,
            pending: Some(
                GreetingView { sender: g.sender, times_greeted: count_after_another(g.times_greeted) },
            ),
            ..s
        },
        (GreetPhase::Finding, GreetEventView::Found(Ok(None))) => GreetState {
            phase: GreetPhase::Adding,
            pending: Some(GreetingView { sender: s.sender, times_greeted: 1 }),
            ..s
        },
        (GreetPhase::Finding, GreetEventView::Found(Err(r))) => after_failed_work(
            s,
            greet_error_of_repository(r),
        ),
        (GreetPhase::Adding, GreetEventView::Added(Ok(()))) => GreetState {
            phase: GreetPhase::Committing,
            ..s
        },
        (GreetPhase::Adding, GreetEventView::Added(Err(a))) => after_failed_work(
            s,
            greet_error_of_add(a),
        ),
        (GreetPhase::Updating, GreetEventView::Updated(Ok(()))) => GreetState {
            phase: GreetPhase::Committing,
            ..s
        },
        (GreetPhase::Updating, GreetEventView::Updated(Err(r))) => after_failed_work(
            s,
            greet_error_of_repository(r),
        ),
        (GreetPhase::Committing, GreetEventView::Committed(Ok(()))) => match s.pending {
            Some(g) => GreetState {
                phase: GreetPhase::Done,
                pending: None,
                result: Some(Ok((g.sender, g.times_greeted > 1))),
                ..s
            },
            None => s,
        },
        (GreetPhase::Committing, GreetEventView::Committed(Err(r))) => after_failed_attempt(
            s,
            greet_error_of_repository(r),
        ),
        (GreetPhase::RollingBack, GreetEventView::RolledBack) => after_failed_attempt(
            s,
            s.failure,
        ),
        _ => s,
    }
}

/// The well-formed states: the attempt within bounds, a pending history
/// exactly while one is to be written or committed, and an answer exactly
/// when done.
pub open spec fn greet_state_wf(s: GreetState) -> bool {
    &&& 1 <= s.attempt <= MAX_ATTEMPTS
    &&& (s.phase == GreetPhase::Adding || s.phase == GreetPhase::Updating || s.phase
        == GreetPhase::Committing) <==> s.pending is Some
    &&& (s.phase == GreetPhase::Done <==> s.result is Some)
}

/// The state of one greet request.
pub struct GreetFlow {
    phase: GreetPhase,
    attempt: u32,
    sender: Option<SenderName>,
    pending: Option<Greeting>,
    failure: GreetError,
    result: Option<Result<GreetOutput, GreetError>>,
}

impl View for GreetFlow {
    type V = GreetState;

    closed spec fn view(&self) -> GreetState {
        GreetState {
            phase: self.phase,
            attempt: self.attempt,
            sender: match self.sender {
                Some(n) => n@,
                None => Seq::empty(),
            },
            pending: match self.pending {
                Some(g) => Some(g@),
                None => None,
            },
            failure: self.failure,
            result: match self.result {
                Some(Ok(o)) => Some(Ok((o.sender@, o.returning))),
                Some(Err(e)) => Some(Err(e)),
                None => None,
            },
        }
    }
}

/// The view of an optional sender name.
pub open spec fn sender_view(sender: Option<SenderName>) -> Seq<char> {
    match sender {
        Some(n) => n@,
        None => Seq::empty(),
    }
}

impl GreetFlow {
    /// Every flow is well formed, and past validation it has a sender.
    #[verifier::type_invariant]
    spec fn inv(self) -> bool {
        &&& greet_state_wf(self@)
        &&& (self.phase != GreetPhase::Done ==> self.sender is Some)
    }

    /// Takes a greet request: a name that breaks the sender name rules is
    /// refused before any persistence is touched, and a valid one begins the
    /// first attempt.
    pub fn start(input: GreetInput) -> (r: (GreetFlow, GreetAction))
        ensures
            r.1 == action_of(r.0@.phase),
            match crate::greet::domain::sender_name_verdict(input.sender@) {
                Err(e) => {
                    &&& r.0@.phase == GreetPhase::Done
                    &&& r.0@.result == Some(Err::<(Seq<char>, bool), GreetError>(greet_error_of_name(e)))
                },
                Ok(()) => {
                    &&& r.0@.phase == GreetPhase::Beginning
                    &&& r.0@.attempt == 1
                    &&& r.0@.sender == input.sender@
                },
            },
    {
        match SenderName::new(input.sender) {
            Err(e) => {
                let flow = GreetFlow {
                    phase: GreetPhase::Done,
                    attempt: 1,
                    sender: None,
                    pending: None,
                    failure: GreetError::Internal,
                    result: Some(Err(GreetError::from(e))),
                };
                (flow, GreetAction::Finish)
            },
            Ok(sender) => {
                let flow = GreetFlow {
                    phase: GreetPhase::Beginning,
                    attempt: 1,
                    sender: Some(sender),
                    pending: None,
                    failure: GreetError::Internal,
                    result: None,
                };
                (flow, GreetAction::Begin)
            },
        }
    }

    /// The action this flow waits on.
    pub fn action(&self) -> (a: GreetAction)
        ensures
            a == action_of(self@.phase),
    {
        match self.phase {
            GreetPhase::Beginning => GreetAction::Begin,
            GreetPhase::Finding => GreetAction::Find,
            GreetPhase::Adding => GreetAction::Add,
            GreetPhase::Updating => GreetAction::Update,
            GreetPhase::Committing => GreetAction::Commit,
            GreetPhase::RollingBack => GreetAction::Rollback,
            GreetPhase::Done => GreetAction::Finish,
        }
    }

    /// The attempt under way, counting from one.
    pub fn attempt(&self) -> (n: u32)
        ensures
            n == self@.attempt,
    {
        self.attempt
    }

    /// The validated sender, once the name passed.
    pub fn sender(&self) -> (s: Option<&SenderName>)
        ensures
            self@.phase != GreetPhase::Done ==> (s matches Some(n) && n@ == self@.sender),
    {
        proof {
            use_type_invariant(self);
        }
        match &self.sender {
            Some(n) => Some(n),
            None => None,
        }
    }

    /// The history the current attempt writes.
    pub fn pending(&self) -> (g: Option<&Greeting>)
        ensures
            match self@.pending {
                Some(p) => g matches Some(h) && h@ == p,
                None => g is None,
            },
    {
        match &self.pending {
            Some(p) => Some(p),
            None => None,
        }
    }

    /// The answer, once done.
    pub fn outcome(&self) -> (o: Option<&Result<GreetOutput, GreetError>>)
        ensures
            match self@.result {
                Some(Ok((sender, returning))) => o matches Some(Ok(out)) && out.sender@ == sender
                    && out.returning == returning,
                Some(Err(e)) => o == Some(&Err::<GreetOutput, GreetError>(e)),
                None => o is None,
            },
    {
        match &self.result {
            Some(r) => Some(r),
            None => None,
        }
    }

    /// Takes the answer out of a finished flow.
    pub fn into_outcome(self) -> (o: Option<Result<GreetOutput, GreetError>>)
        ensures
            match self@.result {
                Some(Ok((sender, returning))) => o matches Some(Ok(out)) && out.sender@ == sender
                    && out.returning == returning,
                Some(Err(e)) => o == Some(Err::<GreetOutput, GreetError>(e)),
                None => o is None,
            },
    {
        self.result
    }

    /// The flow once the attempt under way in `s`, made of these parts, has
    /// ended with `error`.
    fn failed_attempt(
        attempt: u32,
        sender: Option<SenderName>,
        failure: GreetError,
        error: GreetError,
        Ghost(s): Ghost<GreetState>,
    ) -> (f: GreetFlow)
        requires
            greet_state_wf(s),
            s.phase != GreetPhase::Done,
            s.attempt == attempt,
            s.sender == sender_view(sender),
            s.failure == failure,
            sender is Some,
        ensures
            f@ == after_failed_attempt(s, error),
    {
        let conflict = match error {
            GreetError::Conflict => true,
            _ => false,
        };
        if conflict && attempt < MAX_ATTEMPTS {
            GreetFlow {
                phase: GreetPhase::Beginning,
                attempt: attempt + 1,
                sender,
                pending: None,
                failure,
                result: None,
            }
        } else {
            GreetFlow {
                phase: GreetPhase::Done,
                attempt,
                sender,
                pending: None,
                failure,
                result: Some(Err(error)),
            }
        }
    }

    /// Moves the flow on what the persistence side answered, and says what to
    /// do next.
    pub fn next(&mut self, event: GreetEvent) -> (a: GreetAction)
        ensures
            final(self)@ == greet_transition(old(self)@, event@),
            a == action_of(final(self)@.phase),
    {
        let ghost s = self@;
        let mut current = GreetFlow {
            phase: GreetPhase::Done,
            attempt: 1,
            sender: None,
            pending: None,
            failure: GreetError::Internal,
            result: Some(Err(GreetError::Internal)),
        };
        std::mem::swap(self, &mut current);
        proof {
            use_type_invariant(&current);
        }
        let GreetFlow { phase, attempt, sender, pending, failure, result } = current;
        let updated = match (phase, event) {
            (GreetPhase::Beginning, GreetEvent::Began(Ok(()))) => GreetFlow {
                phase: GreetPhase::Finding,
                attempt,
                sender,
                pending,
                failure,
                result,
            },
            (GreetPhase::Beginning, GreetEvent::Began(Err(r))) => GreetFlow::failed_attempt(
                attempt,
                sender,
                failure,
                GreetError::from(r),
                Ghost(s),
            ),
            (GreetPhase::Finding, GreetEvent::Found(Ok(Some(mut g)))) => {
                g.record_another();
                GreetFlow {
                    phase: GreetPhase::Updating,
                    attempt,
                    sender,
                    pending: Some(g),
                    failure,
                    result,
                }
            },
            (GreetPhase::Finding, GreetEvent::Found(Ok(None))) => {
                let first = match &sender {
                    Some(n) => Greeting::first(n.duplicate()),
                    None => {
                        return self.action();
                    },
                };
                GreetFlow {
                    phase: GreetPhase::Adding,
                    attempt,
                    sender,
                    pending: Some(first),
                    failure,
                    result,
                }
            },
            (GreetPhase::Finding, GreetEvent::Found(Err(r))) => GreetFlow {
                phase: GreetPhase::RollingBack,
                attempt,
                sender,
                pending: None,
                failure: GreetError::from(r),
                result,
            },
            (GreetPhase::Adding, GreetEvent::Added(Ok(()))) => GreetFlow {
                phase: GreetPhase::Committing,
                attempt,
                sender,
                pending,
                failure,
                result,
            },
            (GreetPhase::Adding, GreetEvent::Added(Err(a))) => {
                let error = match a {
                    AddGreetingError::AlreadyExists => GreetError::Conflict,
                    AddGreetingError::Repository(r) => GreetError::from(r),
                };
                GreetFlow {
                    phase: GreetPhase::RollingBack,
                    attempt,
                    sender,
                    pending: None,
                    failure: error,
                    result,
                }
            },
            (GreetPhase::Updating, GreetEvent::Updated(Ok(()))) => GreetFlow {
                phase: GreetPhase::Committing,
                attempt,
                sender,
                pending,
                failure,
                result,
            },
            (GreetPhase::Updating, GreetEvent::Updated(Err(r))) => GreetFlow {
                phase: GreetPhase::RollingBack,
                attempt,
                sender,
                pending: None,
                failure: GreetError::from(r),
                result,
            },
            (GreetPhase::Committing, GreetEvent::Committed(Ok(()))) => match pending {
                Some(g) => {
                    let output = GreetOutput {
                        sender: g.sender().to_text(),
                        returning: g.is_returning(),
                    };
                    GreetFlow {
                        phase: GreetPhase::Done,
                        attempt,
                        sender,
                        pending: None,
                        failure,
                        result: Some(Ok(output)),
                    }
                },
                None => GreetFlow { phase, attempt, sender, pending: None, failure, result },
            },
            (GreetPhase::Committing, GreetEvent::Committed(Err(r))) => GreetFlow::failed_attempt(
                attempt,
                sender,
                failure,
                GreetError::from(r),
                Ghost(s),
            ),
            (GreetPhase::RollingBack, GreetEvent::RolledBack) => GreetFlow::failed_attempt(
                attempt,
                sender,
                failure,
                failure,
                Ghost(s),
            ),
            (phase, _) => GreetFlow { phase, attempt, sender, pending, failure, result },
        };
        *self = updated;
        self.action()
    }
}

} // verus!

verus! {

/// Every move keeps a greet request well formed: never more than
/// `MAX_ATTEMPTS` attempts, a pending history exactly while one is written,
/// and an answer exactly when done.
pub proof fn law_transition_keeps_wf(s: GreetState, e: GreetEventView)
    requires
        greet_state_wf(s),
    ensures
        greet_state_wf(greet_transition(s, e)),
{
}

/// Each recorded greeting adds exactly one to the stored count: a found
/// history is written back with one more greeting, stopping at the largest
/// `u32`, for the same sender; a sender without history is written with a
/// count of one.
pub proof fn law_found_history_counts_one_more(s: GreetState, found: Option<GreetingView>)
    requires
        greet_state_wf(s),
        s.phase == GreetPhase::Finding,
    ensures
        ({
            let t = greet_transition(s, GreetEventView::Found(Ok(found)));
            match found {
                Some(g) => {
                    &&& t.phase == GreetPhase::Updating
                    &&& t.pending matches Some(p) && p.sender == g.sender && (g.times_greeted
                        < u32::MAX ==> p.times_greeted == g.times_greeted + 1) && (g.times_greeted
                        == u32::MAX ==> p.times_greeted == u32::MAX)
                },
                None => {
                    &&& t.phase == GreetPhase::Adding
                    &&& t.pending matches Some(p) && p.sender == s.sender && p.times_greeted == 1
                },
            }
        }),
{
}

/// A finished request stays finished with the same answer, whatever else
/// is reported.
pub proof fn law_done_is_final(s: GreetState, e: GreetEventView)
    requires
        s.phase == GreetPhase::Done,
    ensures
        greet_transition(s, e) == s,
{
}

/// A fresh attempt begins only when the previous one ended in contention:
/// the work failed with a conflict and rolled back, or beginning or
/// committing the unit of work was rolled back by the store. Attempts count
/// up one at a time.
pub proof fn law_only_conflicts_are_retried(s: GreetState, e: GreetEventView)
    requires
        greet_state_wf(s),
        greet_transition(s, e).attempt != s.attempt,
    ensures
        greet_transition(s, e).attempt == s.attempt + 1,
        greet_transition(s, e).phase == GreetPhase::Beginning,
        (s.phase == GreetPhase::RollingBack && e is RolledBack && s.failure == GreetError::Conflict)
            || e == GreetEventView::Began(Err(RepositoryError::RolledBack))
            || e == GreetEventView::Committed(Err(RepositoryError::RolledBack)),
{
}

/// An attempt that fails for any reason but contention ends the request
/// with that failure: an unanswered or failing store is never retried in
/// process, since the outcome of the failed attempt may be unknown.
pub proof fn law_other_failures_finish(s: GreetState, error: GreetError)
    requires
        greet_state_wf(s),
        error != GreetError::Conflict,
    ensures
        after_failed_attempt(s, error).phase == GreetPhase::Done,
        after_failed_attempt(s, error).result == Some(Err::<(Seq<char>, bool), GreetError>(error)),
{
}

/// Contention on the last attempt gives up with the conflict.
pub proof fn law_gives_up_after_max_attempts(s: GreetState)
    requires
        greet_state_wf(s),
        s.attempt == MAX_ATTEMPTS,
    ensures
        after_failed_attempt(s, GreetError::Conflict).phase == GreetPhase::Done,
        after_failed_attempt(s, GreetError::Conflict).result == Some(
            Err::<(Seq<char>, bool), GreetError>(GreetError::Conflict),
        ),
{
}

/// The unit of work commits only after its write succeeded, and rolls back
/// only after its work failed.
pub proof fn law_commit_follows_successful_write(s: GreetState, e: GreetEventView)
    requires
        greet_state_wf(s),
    ensures
        greet_transition(s, e).phase == GreetPhase::Committing && s.phase
            != GreetPhase::Committing ==> (s.phase == GreetPhase::Adding && (e matches GreetEventView::Added(r) && r is Ok)) || (s.phase == GreetPhase::Updating && (e matches GreetEventView::Updated(r) && r is Ok)),
        greet_transition(s, e).phase == GreetPhase::RollingBack && s.phase
            != GreetPhase::RollingBack ==> match e {
            GreetEventView::Found(r) => r is Err,
            GreetEventView::Added(r) => r is Err,
            GreetEventView::Updated(r) => r is Err,
            _ => false,
        },
{
}

/// A recorded greeting answers with the history the attempt committed: a
/// sender with no stored history is greeted for the first time and is not
/// returning, and one with a stored history of at least one greeting is
/// returning.
pub proof fn law_returning_iff_history_found(s: GreetState, found: Option<GreetingView>)
    requires
        greet_state_wf(s),
        s.phase == GreetPhase::Finding,
        found matches Some(g) ==> g.times_greeted >= 1,
    ensures
        ({
            let t = greet_transition(s, GreetEventView::Found(Ok(found)));
            let u = greet_transition(t, GreetEventView::Added(Ok(())));
            let w = greet_transition(t, GreetEventView::Updated(Ok(())));
            let done_after_add = greet_transition(u, GreetEventView::Committed(Ok(())));
            let done_after_update = greet_transition(w, GreetEventView::Committed(Ok(())));
            match found {
                None => done_after_add.result == Some(
                    Ok::<(Seq<char>, bool), GreetError>((s.sender, false)),
                ),
                Some(g) => done_after_update.result == Some(
                    Ok::<(Seq<char>, bool), GreetError>((g.sender, true)),
                ),
            }
        }),
{
}

} // verus!

verus! {

/// How one attempt's unit of work ended: the greeting it committed (its
/// sender, and whether they are returning), or the error it failed with.
pub type AttemptOutcome = Result<(Seq<char>, bool), GreetError>;

/// The state once the current attempt has ended with `outcome`: a committed
/// greeting is the answer, and a failure ends the attempt as
/// [`after_failed_attempt`] says.
pub open spec fn end_of_attempt(s: GreetState, outcome: AttemptOutcome) -> GreetState {
    match outcome {
        Ok(answer) => GreetState {
            phase: GreetPhase::Done,
            pending: None,
            result: Some(Ok(answer)),
            ..s
        },
        Err(e) => after_failed_attempt(s, e),
    }
}

/// The outcome with which event `e` ends the attempt under way in `s`, or
/// `None` when the attempt goes on: a failed begin or commit, the roll-back
/// after failed work, or a commit of the pending history.
pub open spec fn attempt_outcome(s: GreetState, e: GreetEventView) -> Option<AttemptOutcome> {
    match (s.phase, e) {
        (GreetPhase::Beginning, GreetEventView::Began(Err(r))) => Some(
            Err(greet_error_of_repository(r)),
        ),
        (GreetPhase::Committing, GreetEventView::Committed(Ok(()))) => match s.pending {
            Some(g) => Some(Ok((g.sender, g.times_greeted > 1))),
            None => None,
        },
        (GreetPhase::Committing, GreetEventView::Committed(Err(r))) => Some(
            Err(greet_error_of_repository(r)),
        ),
        (GreetPhase::RollingBack, GreetEventView::RolledBack) => Some(Err(s.failure)),
        _ => None,
    }
}

/// The state after the attempts of a request end with `outcomes` in turn:
/// each attempt under way takes the next outcome, and a finished request
/// takes no more.
pub open spec fn run_attempts(s: GreetState, outcomes: Seq<AttemptOutcome>) -> GreetState
    decreases outcomes.len(),
{
    if outcomes.len() == 0 || s.phase == GreetPhase::Done {
        s
    } else {
        run_attempts(end_of_attempt(s, outcomes[0]), outcomes.drop_first())
    }
}

/// The number of attempts a request makes when its attempts end with
/// `outcomes`, counting on from attempt `k`: the first that does not end in
/// a conflict, or the last one allowed.
pub open spec fn attempts_made(outcomes: Seq<AttemptOutcome>, k: nat) -> nat
    decreases MAX_ATTEMPTS - k,
{
    if k >= MAX_ATTEMPTS || outcomes[k - 1] != Err::<(Seq<char>, bool), GreetError>(
        GreetError::Conflict,
    ) {
        k
    } else {
        attempts_made(outcomes, k + 1)
    }
}

/// Whether attempt `k`, counting from one, ended in a conflict.
pub open spec fn ended_in_conflict(outcomes: Seq<AttemptOutcome>, k: int) -> bool {
    outcomes[k - 1] == Err::<(Seq<char>, bool), GreetError>(GreetError::Conflict)
}

/// Each event either carries on the attempt under way, never finishing the
/// request nor starting another attempt, or ends it with the outcome
/// [`attempt_outcome`] names.
pub proof fn law_events_end_attempts_with_their_outcome(s: GreetState, e: GreetEventView)
    requires
        greet_state_wf(s),
        s.phase != GreetPhase::Done,
    ensures
        match attempt_outcome(s, e) {
            Some(o) => greet_transition(s, e) == end_of_attempt(s, o),
            None => {
                let t = greet_transition(s, e);
                &&& t.attempt == s.attempt
                &&& t.phase != GreetPhase::Done
                &&& t.phase == GreetPhase::Beginning ==> s.phase == GreetPhase::Beginning
            },
        },
{
}

proof fn lemma_run_attempts_from(s: GreetState, outcomes: Seq<AttemptOutcome>, k: nat)
    requires
        greet_state_wf(s),
        s.phase == GreetPhase::Beginning,
        s.attempt == k,
        1 <= k <= MAX_ATTEMPTS,
        outcomes.len() >= MAX_ATTEMPTS,
    ensures
        ({
            let n = attempts_made(outcomes, k);
            let t = run_attempts(s, outcomes.skip(k - 1));
            &&& k <= n <= MAX_ATTEMPTS
            &&& t.phase == GreetPhase::Done
            &&& t.attempt == n
            &&& t.result == Some(outcomes[n - 1])
        }),
    decreases MAX_ATTEMPTS - k,
{
    let rest = outcomes.skip(k - 1);
    let o = outcomes[k - 1];
    assert(rest[0] == o);
    let t1 = end_of_attempt(s, o);
    assert(rest.drop_first() =~= outcomes.skip(k as int));
    if o == Err::<(Seq<char>, bool), GreetError>(GreetError::Conflict) && k < MAX_ATTEMPTS {
        assert(t1.phase == GreetPhase::Beginning && t1.attempt == k + 1);
        lemma_run_attempts_from(t1, outcomes, k + 1);
        assert(outcomes.skip(k as int) == outcomes.skip((k + 1) - 1));
    } else {
        assert(t1.phase == GreetPhase::Done);
        assert(run_attempts(t1, outcomes.skip(k as int)) == t1);
    }
}

/// Retries over a whole request: when the attempts' units of work end with
/// `outcomes` in turn, the request makes `n` attempts, where `n` is the first
/// attempt that does not end in a conflict, or `MAX_ATTEMPTS` when all of them
/// do; and it answers exactly with the outcome of attempt `n`, the greeting it
/// committed or its error unchanged. Only conflicts are retried, and never
/// more than `MAX_ATTEMPTS` attempts are made.
pub proof fn law_retries_over_a_request(s: GreetState, outcomes: Seq<AttemptOutcome>)
    requires
        greet_state_wf(s),
        s.phase == GreetPhase::Beginning,
        s.attempt == 1,
        outcomes.len() >= MAX_ATTEMPTS,
    ensures
        ({
            let n = attempts_made(outcomes, 1);
            let t = run_attempts(s, outcomes);
            &&& 1 <= n <= MAX_ATTEMPTS
            &&& forall|k: int| 1 <= k < n ==> #[trigger] ended_in_conflict(outcomes, k)
            &&& t.phase == GreetPhase::Done
            &&& t.attempt == n
            &&& t.result == Some(outcomes[n - 1])
        }),
{
    lemma_run_attempts_from(s, outcomes, 1);
    assert(outcomes.skip(0) =~= outcomes);
    lemma_attempts_made_skips_conflicts(outcomes, 1);
}

proof fn lemma_attempts_made_skips_conflicts(outcomes: Seq<AttemptOutcome>, k: nat)
    requires
        1 <= k <= MAX_ATTEMPTS,
    ensures
        forall|j: int| k <= j < attempts_made(outcomes, k) ==> #[trigger] ended_in_conflict(outcomes, j),
    decreases MAX_ATTEMPTS - k,
{
    if !(k >= MAX_ATTEMPTS || outcomes[k - 1] != Err::<(Seq<char>, bool), GreetError>(
        GreetError::Conflict,
    )) {
        lemma_attempts_made_skips_conflicts(outcomes, k + 1);
    }
}


/// The state after each of `events` in turn.
pub open spec fn run_events(s: GreetState, events: Seq<GreetEventView>) -> GreetState
    decreases events.len(),
{
    if events.len() == 0 {
        s
    } else {
        run_events(greet_transition(s, events[0]), events.drop_first())
    }
}

/// The outcomes with which `events`, arriving in turn from `s`, end attempts.
pub open spec fn outcomes_of(s: GreetState, events: Seq<GreetEventView>) -> Seq<AttemptOutcome>
    decreases events.len(),
{
    if events.len() == 0 {
        Seq::empty()
    } else {
        let first = if s.phase == GreetPhase::Done {
            Seq::empty()
        } else {
            match attempt_outcome(s, events[0]) {
                Some(o) => seq![o],
                None => Seq::empty(),
            }
        };
        first + outcomes_of(greet_transition(s, events[0]), events.drop_first())
    }
}

/// What holds of a request after its attempts ended with `os`: every earlier
/// attempt ended in a conflict; while under way, each ended attempt gave one
/// outcome; and once done, the last outcome is the answer and is either not
/// a conflict or that of the last attempt allowed.
pub open spec fn answered_by_attempts(s: GreetState, os: Seq<AttemptOutcome>) -> bool {
    &&& greet_state_wf(s)
    &&& forall|k: int| 1 <= k < s.attempt && k <= os.len() ==> #[trigger] ended_in_conflict(os, k)
    &&& s.phase != GreetPhase::Done ==> os.len() == s.attempt - 1
    &&& s.phase == GreetPhase::Done ==> {
        &&& os.len() == s.attempt
        &&& s.result == Some(os[os.len() - 1])
        &&& (!ended_in_conflict(os, s.attempt as int) || s.attempt == MAX_ATTEMPTS)
    }
}

proof fn lemma_events_answered(s: GreetState, events: Seq<GreetEventView>, prior: Seq<AttemptOutcome>)
    requires
        answered_by_attempts(s, prior),
    ensures
        answered_by_attempts(run_events(s, events), prior + outcomes_of(s, events)),
    decreases events.len(),
{
    if events.len() == 0 {
        assert(prior + outcomes_of(s, events) =~= prior);
    } else {
        let e = events[0];
        let rest = events.drop_first();
        let t = greet_transition(s, e);
        if s.phase == GreetPhase::Done {
            law_done_is_final(s, e);
            assert(outcomes_of(s, events) =~= outcomes_of(t, rest));
            lemma_events_answered(t, rest, prior);
        } else {
            law_events_end_attempts_with_their_outcome(s, e);
            law_transition_keeps_wf(s, e);
            match attempt_outcome(s, e) {
                Some(o) => {
                    let next = prior.push(o);
                    assert(outcomes_of(s, events) =~= seq![o] + outcomes_of(t, rest));
                    assert(prior + outcomes_of(s, events) =~= next + outcomes_of(t, rest));
                    assert(next[next.len() - 1] == o);
                    assert forall|k: int|
                        1 <= k < t.attempt && k <= next.len() implies #[trigger] ended_in_conflict(
                        next,
                        k,
                    ) by {
                        if k <= prior.len() {
                            assert(ended_in_conflict(prior, k));
                            assert(next[k - 1] == prior[k - 1]);
                        }
                    }
                    lemma_events_answered(t, rest, next);
                },
                None => {
                    assert(outcomes_of(s, events) =~= outcomes_of(t, rest));
                    lemma_events_answered(t, rest, prior);
                },
            }
        }
    }
}

/// Retries as a greet request runs them: whatever the persistence side
/// answers, once the request is done it has made `n` attempts, at most
/// `MAX_ATTEMPTS`, each ended by exactly one outcome; every attempt before
/// the last ended in a conflict; the last either did not, or was the last
/// allowed; and the answer is the last attempt's outcome, the greeting it
/// committed or its error unchanged.
pub proof fn law_request_answers_with_its_last_attempt(
    s: GreetState,
    events: Seq<GreetEventView>,
)
    requires
        greet_state_wf(s),
        s.phase == GreetPhase::Beginning,
        s.attempt == 1,
        run_events(s, events).phase == GreetPhase::Done,
    ensures
        ({
            let t = run_events(s, events);
            let os = outcomes_of(s, events);
            let n = t.attempt as int;
            &&& 1 <= n <= MAX_ATTEMPTS
            &&& os.len() == n
            &&& forall|k: int| 1 <= k < n ==> #[trigger] ended_in_conflict(os, k)
            &&& !ended_in_conflict(os, n) || n == MAX_ATTEMPTS
            &&& t.result == Some(os[n - 1])
        }),
{
    assert(answered_by_attempts(s, Seq::empty()));
    lemma_events_answered(s, events, Seq::empty());
    assert(Seq::<AttemptOutcome>::empty() + outcomes_of(s, events) =~= outcomes_of(s, events));
}

} // verus!

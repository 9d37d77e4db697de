//! The greeting store's rows and failures, as the greet domain sees them.

use vstd::prelude::*;

use crate::greet::domain::{Greeting, GreetingView, SenderName};
use crate::greet::usecase::AddGreetingError;
use crate::kernel::{DbFailure, RepositoryError, classify};

verus! {

/// The history a stored row holds, when it keeps the domain's rules: a
/// valid sender name and a count that fits a `u32`.
pub open spec fn row_history(sender: Seq<char>, times_greeted: i64) -> Option<GreetingView> {
    if crate::greet::domain::sender_name_verdict(sender) is Ok && 0 <= times_greeted <= u32::MAX {
        Some(GreetingView { sender, times_greeted: times_greeted as u32 })
    } else {
        None
    }
}

/// Rehydrates a stored row. A row that breaks the domain's rules is an
/// internal failure of the store.
pub fn greeting_from_row(sender: String, times_greeted: i64) -> (r: Result<Greeting, RepositoryError>)
    ensures
        match row_history(sender@, times_greeted) {
            Some(h) => r matches Ok(g) && g@ == h,
            None => r == Err::<Greeting, RepositoryError>(RepositoryError::Internal),
        },
{
    let name = match SenderName::new(sender) {
        Ok(name) => name,
        Err(_) => {
            return Err(RepositoryError::Internal);
        },
    };
    if times_greeted < 0 || times_greeted > 0xffff_ffff {
        return Err(RepositoryError::Internal);
    }
    Ok(Greeting::from_persistence(name, times_greeted as u32))
}

/// The row a greeting history is stored as: its sender and its count,
/// signed because some stores have no unsigned integers.
pub fn greeting_row(greeting: &Greeting) -> (r: (String, i64))
    ensures
        r.0@ == greeting@.sender,
        r.1 == greeting@.times_greeted,
{
    (greeting.sender().to_text(), greeting.times_greeted() as i64)
}

/// What a failed insert of a first history means: the sender is the table's
/// only unique key, so a unique violation is an existing history; anything
/// else is classified like any store failure.
pub fn add_failure(failure: &DbFailure) -> (r: AddGreetingError)
    ensures
        failure.unique_violation ==> r == AddGreetingError::AlreadyExists,
        !failure.unique_violation ==> r == AddGreetingError::Repository(
            crate::kernel::classification(*failure),
        ),
{
    if failure.unique_violation {
        AddGreetingError::AlreadyExists
    } else {
        AddGreetingError::Repository(classify(failure))
    }
}

} // verus!

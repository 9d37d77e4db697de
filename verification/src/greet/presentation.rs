//! How the greet service answers over ConnectRPC: the reply to a recorded
//! greeting, and the status each failure becomes.

use vstd::prelude::*;

use crate::greet::usecase::{GreetError, GreetOutput};
use crate::kernel::{RpcCode, RpcStatus};
use crate::text::{owned, usize_text};

verus! {

/// The reply to a recorded greeting: a welcome back for a returning sender,
/// a first hello otherwise.
pub open spec fn greeting_reply(sender: Seq<char>, returning: bool) -> Seq<char> {
    if returning {
        "Welcome back, "@ + sender + "!"@
    } else {
        "Hello, "@ + sender + "! Nice to meet you."@
    }
}

/// The message that describes a greet error.
pub open spec fn greet_error_message(e: GreetError) -> Seq<char> {
    match e {
        GreetError::EmptySenderName => "sender name must not be empty"@,
        GreetError::SenderNameTooLong { length } => "sender name is too long ("@
            + crate::text::decimal_text(length as nat) + " characters)"@,
        GreetError::SenderNameContainsInvalidCharacter =>
            "sender name must contain only letters and numbers"@,
        GreetError::Conflict => "greeting encountered a concurrency conflict"@,
        GreetError::Internal => "failed to record greeting"@,
    }
}

/// The status a greet error is answered with: a bad name is the client's
/// invalid argument, described as it is; contention asks for a retry; and
/// anything else is an internal error with a generic message.
pub open spec fn greet_error_status(e: GreetError) -> (RpcCode, Seq<char>) {
    match e {
        GreetError::EmptySenderName | GreetError::SenderNameTooLong { .. }
        | GreetError::SenderNameContainsInvalidCharacter => (
            RpcCode::InvalidArgument,
            greet_error_message(e),
        ),
        GreetError::Conflict => (RpcCode::Aborted, "contended, retry"@),
        GreetError::Internal => (RpcCode::Internal, "internal error"@),
    }
}

impl GreetError {
    /// The message that describes this error.
    pub fn message(&self) -> (m: String)
        ensures
            m@ == greet_error_message(*self),
    {
        match self {
            GreetError::EmptySenderName => owned("sender name must not be empty"),
            GreetError::SenderNameTooLong { length } => {
                let mut m = owned("sender name is too long (");
                let n = usize_text(*length);
                m.append(n.as_str());
                m.append(" characters)");
                m
            },
            GreetError::SenderNameContainsInvalidCharacter => owned(
                "sender name must contain only letters and numbers",
            ),
            GreetError::Conflict => owned("greeting encountered a concurrency conflict"),
            GreetError::Internal => owned("failed to record greeting"),
        }
    }

    /// The status this error is answered with.
    pub fn to_status(&self) -> (s: RpcStatus)
        ensures
            (s.code, s.message@) == greet_error_status(*self),
    {
        match self {
            GreetError::EmptySenderName | GreetError::SenderNameTooLong { .. }
            | GreetError::SenderNameContainsInvalidCharacter => RpcStatus {
                code: RpcCode::InvalidArgument,
                message: self.message(),
            },
            GreetError::Conflict => RpcStatus {
                code: RpcCode::Aborted,
                message: owned("contended, retry"),
            },
            GreetError::Internal => RpcStatus {
                code: RpcCode::Internal,
                message: owned("internal error"),
            },
        }
    }
}

/// ConnectRPC handler for `quiz_arena.greet.v1.GreetService`, holding the
/// use case it runs.
pub struct GreetServiceHandler<U> {
    greet_usecase: U,
}

impl<U> GreetServiceHandler<U> {
    /// A handler that runs `greet_usecase`.
    pub fn new(greet_usecase: U) -> (h: GreetServiceHandler<U>)
        ensures
            h.usecase_spec() == greet_usecase,
    {
        GreetServiceHandler { greet_usecase }
    }

    /// The use case this handler runs.
    pub closed spec fn usecase_spec(&self) -> U {
        self.greet_usecase
    }

    /// The use case this handler runs.
    pub fn usecase(&self) -> (u: &U)
        ensures
            *u == self.usecase_spec(),
    {
        &self.greet_usecase
    }

    /// The reply to a recorded greeting.
    pub fn reply(&self, output: &GreetOutput) -> (m: String)
        ensures
            m@ == greeting_reply(output.sender@, output.returning),
    {
        let mut m: String;
        if output.returning {
            m = owned("Welcome back, ");
            m.append(output.sender.as_str());
            m.append("!");
        } else {
            m = owned("Hello, ");
            m.append(output.sender.as_str());
            m.append("! Nice to meet you.");
        }
        m
    }

    /// The status a failed greeting is answered with.
    pub fn reject(&self, error: &GreetError) -> (s: RpcStatus)
        ensures
            (s.code, s.message@) == greet_error_status(*error),
    {
        error.to_status()
    }
}

} // verus!

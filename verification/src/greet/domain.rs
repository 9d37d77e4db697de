//! Sender names and greeting histories.

use vstd::prelude::*;

use crate::text::{char_is_alphanumeric, chars_of, owned, usize_text};

verus! {

/// The most characters a sender name may have.
pub const SENDER_NAME_MAX_LENGTH: usize = 32;

/// Why a text is not a valid sender name.
#[derive(Debug, Clone, Copy, PartialEq, Eq)]
pub enum SenderNameError {
    Empty,
    TooLong { length: usize },
    InvalidCharacter,
}

/// Whether every character of `s` is a letter or a number.
pub open spec fn only_letters_and_numbers(s: Seq<char>) -> bool {
    forall|i: int| 0 <= i < s.len() ==> crate::text::is_alphanumeric_char(#[trigger] s[i])
}

/// The verdict on `s` as a sender name: empty, then too long (counted in
/// characters), then holding something other than letters and numbers.
pub open spec fn sender_name_verdict(s: Seq<char>) -> Result<(), SenderNameError> {
    if s.len() == 0 {
        Err(SenderNameError::Empty)
    } else if s.len() > SENDER_NAME_MAX_LENGTH {
        Err(SenderNameError::TooLong { length: s.len() as usize })
    } else if !only_letters_and_numbers(s) {
        Err(SenderNameError::InvalidCharacter)
    } else {
        Ok(())
    }
}

/// A sender name is accepted exactly when it has 1 to 32 characters, each
/// of them a letter or a number; in ASCII, only `a` to `z`, `A` to `Z` and
/// `0` to `9` pass, so spaces, underscores and punctuation are refused. A
/// refusal names the first rule broken: empty, then too long with the
/// character count, then a character that is not a letter or a number.
pub proof fn law_sender_names_are_letters_and_numbers(s: Seq<char>)
    ensures
        sender_name_verdict(s) is Ok <==> (1 <= s.len() <= 32 && forall|i: int|
            0 <= i < s.len() ==> crate::text::is_alphanumeric_char(#[trigger] s[i])),
        sender_name_verdict(s) is Ok ==> forall|i: int|
            0 <= i < s.len() && (#[trigger] s[i] as int) < 128 ==> ('a' <= s[i] <= 'z' || 'A' <= s[i]
                <= 'Z' || '0' <= s[i] <= '9'),
        s.len() == 0 <==> sender_name_verdict(s) == Err::<(), SenderNameError>(SenderNameError::Empty),
        s.len() > 32 ==> sender_name_verdict(s) == Err::<(), SenderNameError>(
            SenderNameError::TooLong { length: s.len() as usize },
        ),
        1 <= s.len() <= 32 && (exists|i: int|
            0 <= i < s.len() && !crate::text::is_alphanumeric_char(#[trigger] s[i]))
            ==> sender_name_verdict(s) == Err::<(), SenderNameError>(SenderNameError::InvalidCharacter),
{
}

/// The message that describes a sender name error.
pub open spec fn sender_name_error_message(e: SenderNameError) -> Seq<char> {
    match e {
        SenderNameError::Empty => "sender name must not be empty"@,
        SenderNameError::TooLong { length } => "sender name must be at most 32 characters, got "@
            + crate::text::decimal_text(length as nat),
        SenderNameError::InvalidCharacter => "sender name must contain only letters and numbers"@,
    }
}

impl SenderNameError {
    /// The message that describes this error.
    pub fn message(&self) -> (m: String)
        ensures
            m@ == sender_name_error_message(*self),
    {
        match self {
            SenderNameError::Empty => owned("sender name must not be empty"),
            SenderNameError::TooLong { length } => {
                let mut m = owned("sender name must be at most 32 characters, got ");
                let n = usize_text(*length);
                m.append(n.as_str());
                m
            },
            SenderNameError::InvalidCharacter => owned(
                "sender name must contain only letters and numbers",
            ),
        }
    }
}

/// Name of a client sending a greeting: 1 to 32 characters, letters and
/// numbers only. Lengths are counted in Unicode characters, not bytes.
#[derive(Debug, PartialEq, Eq, Hash)]
pub struct SenderName(String);

impl View for SenderName {
    type V = Seq<char>;

    closed spec fn view(&self) -> Seq<char> {
        self.0@
    }
}

impl SenderName {
    #[verifier::type_invariant]
    spec fn is_valid(self) -> bool {
        sender_name_verdict(self.0@) is Ok
    }

    /// Checks `name` against the sender name rules.
    pub fn new(name: String) -> (r: Result<SenderName, SenderNameError>)
        ensures
            r is Ok ==> forall|i: int|
                0 <= i < name@.len() ==> crate::text::is_alphanumeric_char(#[trigger] name@[i]),
            match sender_name_verdict(name@) {
                Ok(()) => r matches Ok(n) && n@ == name@,
                Err(e) => r == Err::<SenderName, SenderNameError>(e),
            },
    {
        let length = name.as_str().unicode_len();
        if length == 0 {
            return Err(SenderNameError::Empty);
        }
        if length > SENDER_NAME_MAX_LENGTH {
            return Err(SenderNameError::TooLong { length });
        }
        let chars = chars_of(name.as_str());
        let mut i: usize = 0;
        while i < chars.len()
            invariant
                chars@ == name@,
                0 < name@.len() <= SENDER_NAME_MAX_LENGTH,
                i <= chars.len(),
                forall|j: int| 0 <= j < i ==> crate::text::is_alphanumeric_char(#[trigger] name@[j]),
            decreases chars.len() - i,
        {
            if !char_is_alphanumeric(chars[i]) {
                assert(!crate::text::is_alphanumeric_char(name@[i as int]));
                return Err(SenderNameError::InvalidCharacter);
            }
            i = i + 1;
        }
        Ok(SenderName(name))
    }

    /// The name's text.
    pub fn as_str(&self) -> (s: &str)
        ensures
            s@ == self@,
            sender_name_verdict(s@) is Ok,
    {
        proof {
            use_type_invariant(self);
        }
        self.0.as_str()
    }

    /// The name's text, as an owned string.
    pub fn to_text(&self) -> (s: String)
        ensures
            s@ == self@,
    {
        self.0.clone()
    }

    /// A second sender name with the same text.
    pub fn duplicate(&self) -> (n: SenderName)
        ensures
            n@ == self@,
    {
        proof {
            use_type_invariant(self);
        }
        SenderName(self.0.clone())
    }
}

/// A sender's greeting history: who greeted and how many times.
#[derive(Debug, PartialEq, Eq)]
pub struct Greeting {
    sender: SenderName,
    times_greeted: u32,
}

/// A greeting history seen as its sender's name and its count.
pub struct GreetingView {
    pub sender: Seq<char>,
    pub times_greeted: u32,
}

impl View for Greeting {
    type V = GreetingView;

    closed spec fn view(&self) -> GreetingView {
        GreetingView { sender: self.sender@, times_greeted: self.times_greeted }
    }
}

/// A count raised by one, staying at the largest `u32` once there.
pub open spec fn count_after_another(times: u32) -> u32 {
    if times == u32::MAX {
        u32::MAX
    } else {
        (times + 1) as u32
    }
}

impl Greeting {
    /// A sender's first greeting.
    pub fn first(sender: SenderName) -> (g: Greeting)
        ensures
            g@.sender == sender@,
            g@.times_greeted == 1,
    {
        Greeting { sender, times_greeted: 1 }
    }

    /// Rehydrates a greeting history from persisted state, trusting the
    /// stored count.
    pub fn from_persistence(sender: SenderName, times_greeted: u32) -> (g: Greeting)
        ensures
            g@.sender == sender@,
            g@.times_greeted == times_greeted,
    {
        Greeting { sender, times_greeted }
    }

    /// Records another greeting from the same sender.
    pub fn record_another(&mut self)
        ensures
            final(self)@.sender == old(self)@.sender,
            final(self)@.times_greeted == count_after_another(old(self)@.times_greeted),
    {
        self.times_greeted = self.times_greeted.saturating_add(1);
    }

    /// Who greeted.
    pub fn sender(&self) -> (s: &SenderName)
        ensures
            s@ == self@.sender,
    {
        &self.sender
    }

    /// How many times the sender has greeted.
    pub fn times_greeted(&self) -> (n: u32)
        ensures
            n == self@.times_greeted,
    {
        self.times_greeted
    }

    /// Whether the sender had already greeted before the latest greeting.
    pub fn is_returning(&self) -> (b: bool)
        ensures
            b == (self@.times_greeted > 1),
    {
        self.times_greeted > 1
    }
}

} // verus!

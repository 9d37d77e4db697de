//! The registry service: quizzes, the tags that classify them, and their
//! users.

use vstd::prelude::*;

use crate::text::{char_is_whitespace, chars_of, owned, usize_text};

verus! {

/// The most characters a tag may have.
pub const TAG_MAX_LENGTH: usize = 32;

/// Why a text is not a valid tag.
#[derive(Debug, Clone, Copy, PartialEq, Eq)]
pub enum TagError {
    Blank,
    TooLong { length: usize },
    InvalidCharacter,
}

/// Whether `s` is empty or only whitespace, so that trimming it leaves
/// nothing.
pub open spec fn is_blank(s: Seq<char>) -> bool {
    forall|i: int| 0 <= i < s.len() ==> crate::text::is_whitespace_char(#[trigger] s[i])
}

/// Whether `s` holds the NUL character.
pub open spec fn has_nul(s: Seq<char>) -> bool {
    exists|i: int| 0 <= i < s.len() && #[trigger] s[i] == '\0'
}

/// The verdict on `s` as a tag: blank, then too long (counted in
/// characters), then holding NUL.
pub open spec fn tag_verdict(s: Seq<char>) -> Result<(), TagError> {
    if is_blank(s) {
        Err(TagError::Blank)
    } else if s.len() > TAG_MAX_LENGTH {
        Err(TagError::TooLong { length: s.len() as usize })
    } else if has_nul(s) {
        Err(TagError::InvalidCharacter)
    } else {
        Ok(())
    }
}

/// A tag is accepted exactly when it holds something other than whitespace,
/// has at most 32 characters, and holds no NUL. Empty text, and text of
/// spaces, tabs, line breaks or ideographic spaces only, is refused as
/// blank before anything else is checked.
pub proof fn law_tags_are_short_non_blank_and_free_of_nul(s: Seq<char>)
    ensures
        tag_verdict(s) is Ok <==> ((exists|i: int|
            0 <= i < s.len() && !crate::text::is_whitespace_char(#[trigger] s[i])) && s.len() <= 32
            && forall|i: int| 0 <= i < s.len() ==> #[trigger] s[i] != '\0'),
        (forall|i: int|
            0 <= i < s.len() ==> (#[trigger] s[i] == ' ' || s[i] == '\t' || s[i] == '\n' || s[i]
                == '\r' || s[i] == '\u{3000}')) ==> tag_verdict(s) == Err::<(), TagError>(TagError::Blank),
        tag_verdict(s) is Ok ==> 1 <= s.len() <= 32,
{
}

/// The message that describes a tag error.
pub open spec fn tag_error_message(e: TagError) -> Seq<char> {
    match e {
        TagError::Blank => "tag must not be empty or only whitespace"@,
        TagError::TooLong { length } => "tag must be at most 32 characters, got "@
            + crate::text::decimal_text(length as nat),
        TagError::InvalidCharacter => "tag must not contain NUL"@,
    }
}

impl TagError {
    /// The message that describes this error.
    pub fn message(&self) -> (m: String)
        ensures
            m@ == tag_error_message(*self),
    {
        match self {
            TagError::Blank => owned("tag must not be empty or only whitespace"),
            TagError::TooLong { length } => {
                let mut m = owned("tag must be at most 32 characters, got ");
                let n = usize_text(*length);
                m.append(n.as_str());
                m
            },
            TagError::InvalidCharacter => owned("tag must not contain NUL"),
        }
    }
}

/// A tag used to classify or discover quizzes and quiz lists: 1 to 32
/// characters, not only whitespace, and free of NUL. Accepted text is kept
/// exactly.
#[derive(Debug, PartialEq, Eq, Hash, PartialOrd, Ord)]
pub struct Tag(String);

impl View for Tag {
    type V = Seq<char>;

    closed spec fn view(&self) -> Seq<char> {
        self.0@
    }
}

impl Tag {
    #[verifier::type_invariant]
    spec fn is_valid(self) -> bool {
        tag_verdict(self.0@) is Ok
    }

    /// Checks `text` against the tag rules, keeping it exactly when it passes.
    pub fn new(text: String) -> (r: Result<Tag, TagError>)
        ensures
            match tag_verdict(text@) {
                Ok(()) => r matches Ok(t) && t@ == text@,
                Err(e) => r == Err::<Tag, TagError>(e),
            },
    {
        let chars = chars_of(text.as_str());
        let mut i: usize = 0;
        let mut blank = true;
        while i < chars.len()
            invariant
                chars@ == text@,
                i <= chars.len(),
                blank == (forall|j: int|
                    0 <= j < i ==> crate::text::is_whitespace_char(#[trigger] text@[j])),
            decreases chars.len() - i,
        {
            if !char_is_whitespace(chars[i]) {
                blank = false;
            }
            i = i + 1;
        }
        if blank {
            return Err(TagError::Blank);
        }
        let length = chars.len();
        if length > TAG_MAX_LENGTH {
            return Err(TagError::TooLong { length });
        }
        let mut k: usize = 0;
        while k < chars.len()
            invariant
                chars@ == text@,
                !is_blank(text@),
                text@.len() <= TAG_MAX_LENGTH,
                k <= chars.len(),
                forall|j: int| 0 <= j < k ==> #[trigger] text@[j] != '\0',
            decreases chars.len() - k,
        {
            if chars[k] == '\0' {
                assert(text@[k as int] == '\0');
                return Err(TagError::InvalidCharacter);
            }
            k = k + 1;
        }
        Ok(Tag(text))
    }

    /// The tag's text.
    pub fn as_str(&self) -> (s: &str)
        ensures
            s@ == self@,
            tag_verdict(s@) is Ok,
    {
        proof {
            use_type_invariant(self);
        }
        self.0.as_str()
    }
}

/// Declares `uuid::Uuid` to Verus, which carries it without looking inside.
#[verifier::external_type_specification]
#[verifier::external_body]
pub struct ExUuid(uuid::Uuid);

/// Uniquely identifies a user.
#[derive(Debug, Clone, Copy, PartialEq, Eq, Hash, PartialOrd, Ord)]
pub struct UserId(uuid::Uuid);

impl View for UserId {
    type V = uuid::Uuid;

    closed spec fn view(&self) -> uuid::Uuid {
        self.0
    }
}

impl UserId {
    /// The user with identifier `uuid`.
    pub fn from_uuid(uuid: uuid::Uuid) -> (u: UserId)
        ensures
            u@ == uuid,
    {
        UserId(uuid)
    }

    /// This user's identifier.
    pub fn as_uuid(&self) -> (u: uuid::Uuid)
        ensures
            u == self@,
    {
        self.0
    }
}

/// ConnectRPC handler for `quiz_arena.registry.v1.QuizAuthoringService`,
/// which serves no method yet.
#[derive(Debug)]
pub struct QuizAuthoringServiceHandler {}

impl QuizAuthoringServiceHandler {
    pub fn new() -> (h: QuizAuthoringServiceHandler) {
        QuizAuthoringServiceHandler {  }
    }
}

/// ConnectRPC handler for `quiz_arena.registry.v1.QuizCatalogService`,
/// which serves no method yet.
#[derive(Debug)]
pub struct QuizCatalogServiceHandler {}

impl QuizCatalogServiceHandler {
    pub fn new() -> (h: QuizCatalogServiceHandler) {
        QuizCatalogServiceHandler {  }
    }
}

} // verus!

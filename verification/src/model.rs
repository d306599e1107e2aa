//! The records of the board, and the mathematical values that stand for them
//! in contracts.
//!
//! Every record has a view: the same fields with each `String` replaced by the
//! sequence of its characters. Contracts compare views, never the records
//! themselves.

use vstd::prelude::*;
use vstd::std_specs::convert::FromSpecImpl;

verus! {

/// A point in time, together with the offset of the zone it was written in.
///
/// Two timestamps are ordered by `micros` alone; `offset` only says how the
/// instant is to be shown.
#[derive(Clone, Copy, Debug, PartialEq, Eq, Structural)]
pub struct Timestamp {
    /// Microseconds since the Unix epoch, in UTC.
    pub micros: i64,
    /// Seconds east of UTC.
    pub offset: i32,
}

/// Why a request was not served.
#[derive(Debug, PartialEq, Eq)]
pub enum LambdaError {
    /// The requested record does not exist.
    NotFound,
    /// The store is unavailable or refused the statement.
    InternalServerError,
    /// Stored data could not be read back in the expected shape.
    InvalidData(String),
    /// The store did not answer in time.
    Timeout,
    /// The caller is not allowed to do this.
    AuthError,
    /// The submission breaks a rule; the reason is meant for the submitter.
    ValidationError(String),
}

impl Clone for LambdaError {
    fn clone(&self) -> (copy: Self)
        ensures
            copy == *self,
    {
        match self {
            LambdaError::NotFound => LambdaError::NotFound,
            LambdaError::InternalServerError => LambdaError::InternalServerError,
            LambdaError::InvalidData(detail) => LambdaError::InvalidData(detail.clone()),
            LambdaError::Timeout => LambdaError::Timeout,
            LambdaError::AuthError => LambdaError::AuthError,
            LambdaError::ValidationError(reason) => LambdaError::ValidationError(reason.clone()),
        }
    }
}

impl LambdaError {
    /// The sentence shown to the user for this error.
    pub open spec fn message_text(self) -> Seq<char> {
        match self {
            LambdaError::NotFound => "No adjoint functor exists."@,
            LambdaError::InternalServerError => "Combinator crashed\u{2014}please contact Curry or Howard."@,
            LambdaError::InvalidData(detail) => "This morphism is not well-defined: "@ + detail@
                + "."@,
            LambdaError::Timeout => "Non-terminating reduction."@,
            LambdaError::AuthError => "Type inhabitance failure."@,
            LambdaError::ValidationError(reason) => "Coherence conditions not satisfied: "@
                + reason@ + "."@,
        }
    }

    /// Renders the error as the sentence shown to the user.
    pub fn message(&self) -> (text: String)
        ensures
            text@ == self.message_text(),
    {
        match self {
            LambdaError::NotFound => String::from_str("No adjoint functor exists."),
            LambdaError::InternalServerError => String::from_str(
                "Combinator crashed\u{2014}please contact Curry or Howard.",
            ),
            LambdaError::InvalidData(detail) => String::from_str(
                "This morphism is not well-defined: ",
            ).concat(detail.as_str()).concat("."),
            LambdaError::Timeout => String::from_str("Non-terminating reduction."),
            LambdaError::AuthError => String::from_str("Type inhabitance failure."),
            LambdaError::ValidationError(reason) => String::from_str(
                "Coherence conditions not satisfied: ",
            ).concat(reason.as_str()).concat("."),
        }
    }

    /// True when the error is a rejected submission carrying exactly `reason`.
    pub open spec fn is_rejection(self, reason: Seq<char>) -> bool {
        self matches LambdaError::ValidationError(text) && text@ == reason
    }
}

/// A submitted item as it is stored.
#[derive(Debug)]
pub struct Story {
    pub id: i32,
    pub title: String,
    pub text: Option<String>,
    pub url: Option<String>,
    pub created_at: Timestamp,
    pub author_id: i32,
}

/// The value of a [`Story`].
pub struct StoryView {
    pub id: i32,
    pub title: Seq<char>,
    pub text: Option<Seq<char>>,
    pub url: Option<Seq<char>>,
    pub created_at: Timestamp,
    pub author_id: i32,
}

impl View for Story {
    type V = StoryView;

    open spec fn view(&self) -> StoryView {
        StoryView {
            id: self.id,
            title: self.title@,
            text: self.text.deep_view(),
            url: self.url.deep_view(),
            created_at: self.created_at,
            author_id: self.author_id,
        }
    }
}

impl DeepView for Story {
    type V = StoryView;

    open spec fn deep_view(&self) -> StoryView {
        self@
    }
}

impl Clone for Story {
    fn clone(&self) -> (copy: Self)
        ensures
            copy == *self,
    {
        Story {
            id: self.id,
            title: self.title.clone(),
            text: clone_text(&self.text),
            url: clone_text(&self.url),
            created_at: self.created_at,
            author_id: self.author_id,
        }
    }
}

/// One line of the front page: a story with its author's name and the number
/// of comments under it. Never stored.
#[derive(Debug)]
pub struct StoryListItem {
    pub id: i32,
    pub title: String,
    pub text: Option<String>,
    pub url: Option<String>,
    pub created_at: Timestamp,
    pub author_name: String,
    /// Reserved; always `Some(0)` in a listing.
    pub rating: Option<i32>,
    pub comment_count: Option<i32>,
}

/// The value of a [`StoryListItem`].
pub struct StoryListItemView {
    pub id: i32,
    pub title: Seq<char>,
    pub text: Option<Seq<char>>,
    pub url: Option<Seq<char>>,
    pub created_at: Timestamp,
    pub author_name: Seq<char>,
    pub rating: Option<i32>,
    pub comment_count: Option<i32>,
}

impl View for StoryListItem {
    type V = StoryListItemView;

    open spec fn view(&self) -> StoryListItemView {
        StoryListItemView {
            id: self.id,
            title: self.title@,
            text: self.text.deep_view(),
            url: self.url.deep_view(),
            created_at: self.created_at,
            author_name: self.author_name@,
            rating: self.rating,
            comment_count: self.comment_count,
        }
    }
}

impl DeepView for StoryListItem {
    type V = StoryListItemView;

    open spec fn deep_view(&self) -> StoryListItemView {
        self@
    }
}

impl Clone for StoryListItem {
    fn clone(&self) -> (copy: Self)
        ensures
            copy == *self,
    {
        StoryListItem {
            id: self.id,
            title: self.title.clone(),
            text: clone_text(&self.text),
            url: clone_text(&self.url),
            created_at: self.created_at,
            author_name: self.author_name.clone(),
            rating: self.rating,
            comment_count: self.comment_count,
        }
    }
}

impl StoryListItemView {
    /// The story behind a front-page line. The line does not carry the
    /// author's id, so the story gets author 0.
    pub open spec fn story(self) -> StoryView {
        StoryView {
            id: self.id,
            title: self.title,
            text: self.text,
            url: self.url,
            created_at: self.created_at,
            author_id: 0,
        }
    }
}

impl From<StoryListItem> for Story {
    fn from(item: StoryListItem) -> (story: Story) {
        Story {
            id: item.id,
            title: item.title,
            text: item.text,
            url: item.url,
            created_at: item.created_at,
            author_id: 0,
        }
    }
}

impl FromSpecImpl<StoryListItem> for Story {
    open spec fn obeys_from_spec() -> bool {
        true
    }

    open spec fn from_spec(item: StoryListItem) -> Story {
        Story {
            id: item.id,
            title: item.title,
            text: item.text,
            url: item.url,
            created_at: item.created_at,
            author_id: 0,
        }
    }
}

/// What a submitter sends to create a story.
#[derive(Debug)]
pub struct StoryCreateArgs {
    pub title: String,
    pub text: Option<String>,
    pub url: Option<String>,
}

impl Clone for StoryCreateArgs {
    fn clone(&self) -> (copy: Self)
        ensures
            copy == *self,
    {
        StoryCreateArgs {
            title: self.title.clone(),
            text: clone_text(&self.text),
            url: clone_text(&self.url),
        }
    }
}

/// The key of a story lookup.
#[derive(Clone, Copy, Debug, PartialEq, Eq, Structural)]
pub struct StoryGetArgs {
    pub id: i32,
}

/// An account. Stories and comments name their author by `id`; `username` is
/// the name shown next to them.
#[derive(Debug)]
pub struct User {
    pub id: i32,
    pub username: String,
    pub created_at: Timestamp,
}

/// The value of a [`User`].
pub struct UserView {
    pub id: i32,
    pub username: Seq<char>,
    pub created_at: Timestamp,
}

impl View for User {
    type V = UserView;

    open spec fn view(&self) -> UserView {
        UserView { id: self.id, username: self.username@, created_at: self.created_at }
    }
}

impl DeepView for User {
    type V = UserView;

    open spec fn deep_view(&self) -> UserView {
        self@
    }
}

impl Clone for User {
    fn clone(&self) -> (copy: Self)
        ensures
            copy == *self,
    {
        User { id: self.id, username: self.username.clone(), created_at: self.created_at }
    }
}

/// A comment as it is stored: it names its author by id.
#[derive(Debug)]
pub struct CommentRecord {
    pub id: i32,
    pub text: String,
    /// The comment this one answers; `None` for a direct reply to the story.
    pub parent_id: Option<i32>,
    pub story_id: i32,
    pub author_id: i32,
    pub created_at: Timestamp,
}

/// The value of a [`CommentRecord`].
pub struct CommentRecordView {
    pub id: i32,
    pub text: Seq<char>,
    pub parent_id: Option<i32>,
    pub story_id: i32,
    pub author_id: i32,
    pub created_at: Timestamp,
}

impl View for CommentRecord {
    type V = CommentRecordView;

    open spec fn view(&self) -> CommentRecordView {
        CommentRecordView {
            id: self.id,
            text: self.text@,
            parent_id: self.parent_id,
            story_id: self.story_id,
            author_id: self.author_id,
            created_at: self.created_at,
        }
    }
}

impl DeepView for CommentRecord {
    type V = CommentRecordView;

    open spec fn deep_view(&self) -> CommentRecordView {
        self@
    }
}

impl Clone for CommentRecord {
    fn clone(&self) -> (copy: Self)
        ensures
            copy == *self,
    {
        CommentRecord {
            id: self.id,
            text: self.text.clone(),
            parent_id: self.parent_id,
            story_id: self.story_id,
            author_id: self.author_id,
            created_at: self.created_at,
        }
    }
}

/// A comment as it is shown: with its author's name in place of the id.
#[derive(Debug, PartialEq)]
pub struct Comment {
    pub id: i32,
    pub text: String,
    pub parent_id: Option<i32>,
    pub story_id: i32,
    pub created_at: Timestamp,
    pub author_name: String,
}

/// The value of a [`Comment`].
pub struct CommentView {
    pub id: i32,
    pub text: Seq<char>,
    pub parent_id: Option<i32>,
    pub story_id: i32,
    pub created_at: Timestamp,
    pub author_name: Seq<char>,
}

impl View for Comment {
    type V = CommentView;

    open spec fn view(&self) -> CommentView {
        CommentView {
            id: self.id,
            text: self.text@,
            parent_id: self.parent_id,
            story_id: self.story_id,
            created_at: self.created_at,
            author_name: self.author_name@,
        }
    }
}

impl DeepView for Comment {
    type V = CommentView;

    open spec fn deep_view(&self) -> CommentView {
        self@
    }
}

impl Clone for Comment {
    fn clone(&self) -> (copy: Self)
        ensures
            copy == *self,
    {
        Comment {
            id: self.id,
            text: self.text.clone(),
            parent_id: self.parent_id,
            story_id: self.story_id,
            created_at: self.created_at,
            author_name: self.author_name.clone(),
        }
    }
}

/// What a submitter sends to create a comment.
#[derive(Debug)]
pub struct CommentCreateArgs {
    pub text: String,
    pub parent_id: Option<i32>,
    pub story_id: i32,
}

impl Clone for CommentCreateArgs {
    fn clone(&self) -> (copy: Self)
        ensures
            copy == *self,
    {
        CommentCreateArgs {
            text: self.text.clone(),
            parent_id: self.parent_id,
            story_id: self.story_id,
        }
    }
}

/// The comment shown for a stored record whose author goes by `author_name`.
pub open spec fn shown_comment(record: CommentRecordView, author_name: Seq<char>) -> CommentView {
    CommentView {
        id: record.id,
        text: record.text,
        parent_id: record.parent_id,
        story_id: record.story_id,
        created_at: record.created_at,
        author_name,
    }
}

/// Turns a stored comment and its author's name into the comment to show.
pub fn row_to_comment(row: &CommentRecord, author_name: String) -> (comment: Comment)
    ensures
        comment@ == shown_comment(row@, author_name@),
{
    Comment {
        id: row.id,
        text: row.text.clone(),
        parent_id: row.parent_id,
        story_id: row.story_id,
        created_at: row.created_at,
        author_name,
    }
}

/// Copies an optional text.
pub fn clone_text(text: &Option<String>) -> (copy: Option<String>)
    ensures
        copy == *text,
{
    match text {
        Some(s) => Some(s.clone()),
        None => None,
    }
}

} // verus!

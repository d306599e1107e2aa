//! The rules a submission must meet before anything is stored.
//!
//! A story needs a title, and a text or a link; a link that is given must be
//! an absolute URL. A comment needs a text. The rules are checked in a fixed
//! order and the first one broken is reported.

use crate::model::{CommentCreateArgs, LambdaError, StoryCreateArgs};
use vstd::prelude::*;

verus! {

/// Whether the `url` crate's parser accepts `text` as an absolute URL.
pub uninterp spec fn parses_as_url(text: Seq<char>) -> bool;

/// Calls `validator::ValidateUrl::validate_url` on a string slice. For a
/// string slice that method returns whether `url::Url::parse` succeeds on it;
/// the contract gives that answer a name and claims nothing else about it.
#[verifier::external_body]
fn validate_url(text: &str) -> (accepted: bool)
    ensures
        accepted == parses_as_url(text@),
{
    validator::ValidateUrl::validate_url(text)
}

/// Whether a text of `len` characters passes a length rule: with `equal`
/// set, the length must be exactly that; otherwise it must not be under `min`
/// nor over `max`, as far as they are set.
pub open spec fn length_allowed(len: nat, min: Option<u64>, max: Option<u64>, equal: Option<u64>) -> bool {
    match equal {
        Some(exact) => len == exact,
        None => (min matches Some(least) ==> len >= least) && (max matches Some(most) ==> len
            <= most),
    }
}

/// Calls `validator::ValidateLength::validate_length` on a string slice. The
/// method counts the characters of the slice and compares the count with the
/// bounds as `length_allowed` says.
#[verifier::external_body]
fn validate_length(text: &str, min: Option<u64>, max: Option<u64>, equal: Option<u64>) -> (accepted:
    bool)
    ensures
        accepted == length_allowed(text@.len(), min, max, equal),
{
    validator::ValidateLength::validate_length(text, min, max, equal)
}

/// The rule a story submission broke.
#[derive(Clone, Copy, Debug, PartialEq, Eq, Structural)]
pub enum StoryDefect {
    /// The title is empty.
    TitleRequired,
    /// Neither a text nor a link was given.
    TextOrUrlRequired,
    /// A link was given and it is not an absolute URL.
    UrlNotAbsolute,
}

impl StoryDefect {
    /// The reason reported to the submitter.
    pub open spec fn reason_text(self) -> Seq<char> {
        match self {
            StoryDefect::TitleRequired => "title required"@,
            StoryDefect::TextOrUrlRequired => "text or url required"@,
            StoryDefect::UrlNotAbsolute => "url must be absolute"@,
        }
    }

    /// The reason reported to the submitter.
    pub fn reason(&self) -> (text: String)
        ensures
            text@ == self.reason_text(),
    {
        match self {
            StoryDefect::TitleRequired => String::from_str("title required"),
            StoryDefect::TextOrUrlRequired => String::from_str("text or url required"),
            StoryDefect::UrlNotAbsolute => String::from_str("url must be absolute"),
        }
    }
}

/// The rule a comment submission broke.
#[derive(Clone, Copy, Debug, PartialEq, Eq, Structural)]
pub enum CommentDefect {
    /// The text is empty.
    TextRequired,
    /// The comment answers a comment that is not on the same story.
    ParentNotInStory,
}

impl CommentDefect {
    /// The reason reported to the submitter.
    pub open spec fn reason_text(self) -> Seq<char> {
        match self {
            CommentDefect::TextRequired => "text required"@,
            CommentDefect::ParentNotInStory => "parent must be a comment on the same story"@,
        }
    }

    /// The reason reported to the submitter.
    pub fn reason(&self) -> (text: String)
        ensures
            text@ == self.reason_text(),
    {
        match self {
            CommentDefect::TextRequired => String::from_str("text required"),
            CommentDefect::ParentNotInStory => String::from_str(
                "parent must be a comment on the same story",
            ),
        }
    }
}

/// True when an optional field is absent or empty.
pub open spec fn is_blank(field: Option<Seq<char>>) -> bool {
    field matches Some(text) ==> text.len() == 0
}

/// The first rule that a story submission breaks, if any. `url_parses` says
/// whether the link, where one is given, is an absolute URL.
pub open spec fn story_defect(
    title: Seq<char>,
    text: Option<Seq<char>>,
    url: Option<Seq<char>>,
    url_parses: bool,
) -> Option<StoryDefect> {
    if title.len() == 0 {
        Some(StoryDefect::TitleRequired)
    } else if is_blank(text) && is_blank(url) {
        Some(StoryDefect::TextOrUrlRequired)
    } else if url is Some && !url_parses {
        Some(StoryDefect::UrlNotAbsolute)
    } else {
        None
    }
}

/// Whether the link of a submission, where one is given, is an absolute URL.
pub open spec fn link_parses(url: Option<Seq<char>>) -> bool {
    url matches Some(link) ==> parses_as_url(link)
}

/// The first rule that a story submission breaks, if any.
pub open spec fn story_args_defect(story: StoryCreateArgs) -> Option<StoryDefect> {
    story_defect(
        story.title@,
        story.text.deep_view(),
        story.url.deep_view(),
        link_parses(story.url.deep_view()),
    )
}

fn blank(field: &Option<String>) -> (yes: bool)
    ensures
        yes == is_blank(field.deep_view()),
{
    match field {
        Some(text) => text.as_str().is_empty(),
        None => true,
    }
}

/// Checks the one rule that spans two fields: a story carries a text or a
/// link.
pub fn validate_story_create_args(story: &StoryCreateArgs) -> (outcome: Result<(), StoryDefect>)
    ensures
        outcome == (if is_blank(story.text.deep_view()) && is_blank(story.url.deep_view()) {
            Err::<(), StoryDefect>(StoryDefect::TextOrUrlRequired)
        } else {
            Ok(())
        }),
{
    if blank(&story.text) && blank(&story.url) {
        return Err(StoryDefect::TextOrUrlRequired);
    }
    Ok(())
}

/// Checks every rule on a story submission, given the parser's verdict on
/// its link.
pub fn check_story(story: &StoryCreateArgs, url_parses: bool) -> (outcome: Result<(), StoryDefect>)
    ensures
        outcome == (match story_defect(
            story.title@,
            story.text.deep_view(),
            story.url.deep_view(),
            url_parses,
        ) {
            Some(defect) => Err::<(), StoryDefect>(defect),
            None => Ok(()),
        }),
{
    if !validate_length(story.title.as_str(), Some(1), None, None) {
        return Err(StoryDefect::TitleRequired);
    }
    validate_story_create_args(story)?;
    if story.url.is_some() && !url_parses {
        return Err(StoryDefect::UrlNotAbsolute);
    }
    Ok(())
}

impl StoryCreateArgs {
    /// Checks the submission. It passes when the title is not empty, a text
    /// or a link is given, and the link, if given, is an absolute URL;
    /// otherwise the first broken rule is reported with its reason.
    pub fn validate(&self) -> (outcome: Result<(), LambdaError>)
        ensures
            match story_args_defect(*self) {
                Some(defect) => outcome matches Err(e) && e.is_rejection(defect.reason_text()),
                None => outcome is Ok,
            },
    {
        let url_parses = match &self.url {
            Some(link) => validate_url(link.as_str()),
            None => true,
        };
        match check_story(self, url_parses) {
            Ok(()) => Ok(()),
            Err(defect) => Err(LambdaError::ValidationError(defect.reason())),
        }
    }
}

impl CommentCreateArgs {
    /// Checks what can be checked without the store: the text is not empty.
    pub fn validate(&self) -> (outcome: Result<(), CommentDefect>)
        ensures
            outcome == (if self.text@.len() == 0 {
                Err::<(), CommentDefect>(CommentDefect::TextRequired)
            } else {
                Ok(())
            }),
    {
        if !validate_length(self.text.as_str(), Some(1), None, None) {
            return Err(CommentDefect::TextRequired);
        }
        Ok(())
    }
}

} // verus!

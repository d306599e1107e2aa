use news::model::{LambdaError, StoryCreateArgs, StoryGetArgs};
use news::presentation::{demote_heading, link_story, pluralize, story_link, StoryLink};
use news::validation::{check_story, validate_story_create_args, CommentDefect, StoryDefect};
use news::model::CommentCreateArgs;

fn args(title: &str, text: Option<&str>, url: Option<&str>) -> StoryCreateArgs {
    StoryCreateArgs {
        title: String::from(title),
        text: text.map(String::from),
        url: url.map(String::from),
    }
}

#[test]
fn one_takes_the_singular() {
    assert_eq!(pluralize(1, "effect", "effects"), "effect");
}

#[test]
fn other_counts_take_the_plural() {
    assert_eq!(pluralize(0, "effect", "effects"), "effects");
    assert_eq!(pluralize(2, "effect", "effects"), "effects");
    assert_eq!(pluralize(-1, "effect", "effects"), "effects");
    assert_eq!(pluralize(i32::MAX, "effect", "effects"), "effects");
}

#[test]
fn headings_are_set_three_levels_down() {
    assert_eq!(demote_heading(1), 4);
    assert_eq!(demote_heading(2), 5);
    assert_eq!(demote_heading(3), 6);
    assert_eq!(demote_heading(4), 6);
    assert_eq!(demote_heading(6), 6);
    assert_eq!(demote_heading(0), 3);
    assert_eq!(demote_heading(255), 6);
}

#[test]
fn link_with_a_domain_leads_out() {
    let link = link_story(4, Some(String::from("https://sub.example.com/a/b?c=d")));
    assert_eq!(
        link,
        StoryLink::External {
            href: String::from("https://sub.example.com/a/b?c=d"),
            domain: String::from("sub.example.com"),
        }
    );
}

#[test]
fn link_to_an_address_stays_on_the_board() {
    assert_eq!(
        link_story(4, Some(String::from("https://127.0.0.1/"))),
        StoryLink::Internal { story_id: 4 }
    );
    assert_eq!(
        link_story(5, Some(String::from("mailto:rms@example.net"))),
        StoryLink::Internal { story_id: 5 }
    );
}

#[test]
fn story_without_usable_link_stays_on_the_board() {
    assert_eq!(link_story(9, None), StoryLink::Internal { story_id: 9 });
    assert_eq!(link_story(9, Some(String::from("not a url"))), StoryLink::Internal { story_id: 9 });
    assert_eq!(link_story(9, Some(String::new())), StoryLink::Internal { story_id: 9 });
}

#[test]
fn story_link_needs_both_link_and_domain() {
    assert_eq!(
        story_link(1, Some(String::from("u")), Some(String::from("d"))),
        StoryLink::External { href: String::from("u"), domain: String::from("d") }
    );
    assert_eq!(story_link(1, Some(String::from("u")), None), StoryLink::Internal { story_id: 1 });
    assert_eq!(story_link(1, None, Some(String::from("d"))), StoryLink::Internal { story_id: 1 });
    assert_eq!(story_link(1, None, None), StoryLink::Internal { story_id: 1 });
}

#[test]
fn errors_have_their_sentences() {
    assert_eq!(LambdaError::NotFound.message(), "No adjoint functor exists.");
    assert_eq!(
        LambdaError::InternalServerError.message(),
        "Combinator crashed\u{2014}please contact Curry or Howard."
    );
    assert_eq!(
        LambdaError::InvalidData(String::from("x")).message(),
        "This morphism is not well-defined: x."
    );
    assert_eq!(LambdaError::Timeout.message(), "Non-terminating reduction.");
    assert_eq!(LambdaError::AuthError.message(), "Type inhabitance failure.");
    assert_eq!(
        LambdaError::ValidationError(String::from("title required")).message(),
        "Coherence conditions not satisfied: title required."
    );
}

#[test]
fn error_copies_are_equal() {
    let error = LambdaError::ValidationError(String::from("why"));
    assert_eq!(error.clone(), error);
    assert_ne!(error, LambdaError::InvalidData(String::from("why")));
}

#[test]
fn defects_have_their_reasons() {
    assert_eq!(StoryDefect::TitleRequired.reason(), "title required");
    assert_eq!(StoryDefect::TextOrUrlRequired.reason(), "text or url required");
    assert_eq!(StoryDefect::UrlNotAbsolute.reason(), "url must be absolute");
    assert_eq!(CommentDefect::TextRequired.reason(), "text required");
    assert_eq!(
        CommentDefect::ParentNotInStory.reason(),
        "parent must be a comment on the same story"
    );
}

#[test]
fn rules_are_checked_in_order() {
    assert_eq!(check_story(&args("", None, None), false), Err(StoryDefect::TitleRequired));
    assert_eq!(check_story(&args("", Some("x"), Some("y")), true), Err(StoryDefect::TitleRequired));
    assert_eq!(check_story(&args("T", None, None), true), Err(StoryDefect::TextOrUrlRequired));
    assert_eq!(
        check_story(&args("T", Some(""), Some("")), false),
        Err(StoryDefect::TextOrUrlRequired)
    );
    assert_eq!(check_story(&args("T", Some("x"), Some("y")), false), Err(StoryDefect::UrlNotAbsolute));
    assert_eq!(check_story(&args("T", None, Some("y")), false), Err(StoryDefect::UrlNotAbsolute));
    assert_eq!(check_story(&args("T", Some("x"), Some("y")), true), Ok(()));
    assert_eq!(check_story(&args("T", Some("x"), None), false), Ok(()));
    assert_eq!(check_story(&args("T", None, Some("y")), true), Ok(()));
}

#[test]
fn story_needs_text_or_link() {
    assert_eq!(
        validate_story_create_args(&args("T", None, None)),
        Err(StoryDefect::TextOrUrlRequired)
    );
    assert_eq!(
        validate_story_create_args(&args("T", Some(""), None)),
        Err(StoryDefect::TextOrUrlRequired)
    );
    assert_eq!(
        validate_story_create_args(&args("", None, Some(""))),
        Err(StoryDefect::TextOrUrlRequired)
    );
    assert_eq!(validate_story_create_args(&args("", Some("x"), None)), Ok(()));
    assert_eq!(validate_story_create_args(&args("", None, Some("y"))), Ok(()));
}

#[test]
fn comment_needs_a_text() {
    let empty = CommentCreateArgs { text: String::new(), parent_id: None, story_id: 1 };
    let full = CommentCreateArgs { text: String::from(" "), parent_id: Some(3), story_id: 1 };
    assert_eq!(empty.validate(), Err(CommentDefect::TextRequired));
    assert_eq!(full.validate(), Ok(()));
    assert_eq!(full.clone().parent_id, Some(3));
}

#[test]
fn lookup_key_is_a_plain_value() {
    let key = StoryGetArgs { id: 12 };
    let copy = key;
    assert_eq!(key, copy);
    assert_eq!(copy.id, 12);
}

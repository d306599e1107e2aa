//! Small decisions of the pages that show the board: which noun goes with a
//! number, where a story's title leads, and how deep a heading of a story's
//! text is set.

use vstd::math::min;
use vstd::prelude::*;

verus! {

/// The noun to print after `count`: `singular` for exactly one, `plural`
/// otherwise.
pub fn pluralize<'a>(count: i32, singular: &'a str, plural: &'a str) -> (word: &'a str)
    ensures
        word == (if count == 1 {
            singular
        } else {
            plural
        }),
{
    if count == 1 {
        return singular;
    }
    plural
}

/// The level at which a heading of a story's text is shown: three levels
/// below the one it was written at, and never below the sixth.
pub fn demote_heading(level: u8) -> (shown: u8)
    ensures
        shown == min(level + 3, 6),
{
    if level >= 3 {
        6
    } else {
        level + 3
    }
}

/// The domain name in the host of the URL that `text` parses to, if `text`
/// parses as an absolute URL and its host is a domain name.
pub uninterp spec fn url_domain(text: Seq<char>) -> Option<Seq<char>>;

/// Calls `url::Url::parse` and, where it succeeds, `Url::domain` on the
/// parsed URL. The contract gives the outcome a name and claims nothing else
/// about it.
#[verifier::external_body]
fn domain_of(text: &str) -> (domain: Option<String>)
    ensures
        domain.deep_view() == url_domain(text@),
{
    url::Url::parse(text).ok().and_then(|parsed| parsed.domain().map(String::from))
}

/// Where the title of a story leads.
#[derive(Debug, PartialEq, Eq)]
pub enum StoryLink {
    /// To the link that was submitted; `domain` is the site it belongs to.
    External { href: String, domain: String },
    /// To the story's own page.
    Internal { story_id: i32 },
}

/// The value of a [`StoryLink`].
pub enum StoryLinkView {
    External { href: Seq<char>, domain: Seq<char> },
    Internal { story_id: i32 },
}

impl View for StoryLink {
    type V = StoryLinkView;

    open spec fn view(&self) -> StoryLinkView {
        match self {
            StoryLink::External { href, domain } => StoryLinkView::External {
                href: href@,
                domain: domain@,
            },
            StoryLink::Internal { story_id } => StoryLinkView::Internal { story_id: *story_id },
        }
    }
}

/// Where the title of story `story_id` leads, given its link and the domain
/// found in it: to the link when there is one with a domain, otherwise to
/// the story's own page.
pub open spec fn link_for(story_id: i32, url: Option<Seq<char>>, domain: Option<Seq<char>>) -> StoryLinkView {
    match (url, domain) {
        (Some(href), Some(domain)) => StoryLinkView::External { href, domain },
        _ => StoryLinkView::Internal { story_id },
    }
}

/// The domain found in an optional link.
pub open spec fn link_domain(url: Option<Seq<char>>) -> Option<Seq<char>> {
    match url {
        Some(href) => url_domain(href),
        None => None,
    }
}

/// Decides where the title of a story leads, given its link and the domain
/// found in it.
pub fn story_link(story_id: i32, url: Option<String>, domain: Option<String>) -> (link: StoryLink)
    ensures
        link@ == link_for(story_id, url.deep_view(), domain.deep_view()),
{
    match (url, domain) {
        (Some(href), Some(domain)) => StoryLink::External { href, domain },
        _ => StoryLink::Internal { story_id },
    }
}

/// Decides where the title of a story leads: to its link when the link is an
/// absolute URL whose host is a domain name, otherwise to the story's own
/// page.
pub fn link_story(story_id: i32, url: Option<String>) -> (link: StoryLink)
    ensures
        link@ == link_for(story_id, url.deep_view(), link_domain(url.deep_view())),
{
    let domain = match &url {
        Some(href) => domain_of(href.as_str()),
        None => None,
    };
    story_link(story_id, url, domain)
}

} // verus!

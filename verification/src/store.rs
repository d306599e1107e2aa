//! The store: three tables, and what every query means on them.
//!
//! A table holds its rows in the order of their ids, which are positive and
//! never repeat. Every story and every comment names an author that exists,
//! and every comment names a story that exists. What a comment names as its
//! parent is not constrained: it may be missing, or lead back to the comment
//! itself, and the queries are defined all the same.

use crate::model::{
    shown_comment, CommentRecord, CommentRecordView, CommentView, Story, StoryListItemView,
    StoryView, User, UserView,
};
use crate::order::arrangement;
use crate::pagination::page_of;
use vstd::prelude::*;

verus! {

/// The id of the system account, to which a story or comment is attributed
/// when no other account is given.
pub const SYSTEM_USER_ID: i32 = 1;

/// True when ids are positive and strictly increasing.
pub open spec fn ids_ascend(ids: Seq<i32>) -> bool {
    &&& forall|i: int| 0 <= i < ids.len() ==> #[trigger] ids[i] >= 1
    &&& forall|i: int, j: int| 0 <= i < j < ids.len() ==> #[trigger] ids[i] < #[trigger] ids[j]
}

/// The id that the next row of a table gets: one more than the last, or 1 in
/// an empty table.
pub open spec fn next_id(ids: Seq<i32>) -> int {
    if ids.len() == 0 {
        1
    } else {
        ids.last() + 1
    }
}

/// The position of the row with id `id`, if there is one.
pub open spec fn position_of(ids: Seq<i32>, id: i32) -> Option<int> {
    if ids.contains(id) {
        Some(ids.index_of(id))
    } else {
        None
    }
}

/// The value of a [`Store`]: its three tables, each a sequence of rows.
pub struct Tables {
    pub users: Seq<UserView>,
    pub stories: Seq<StoryView>,
    pub comments: Seq<CommentRecordView>,
}

impl Tables {
    pub open spec fn user_ids(self) -> Seq<i32> {
        self.users.map_values(|u: UserView| u.id)
    }

    pub open spec fn story_ids(self) -> Seq<i32> {
        self.stories.map_values(|s: StoryView| s.id)
    }

    pub open spec fn comment_ids(self) -> Seq<i32> {
        self.comments.map_values(|c: CommentRecordView| c.id)
    }

    /// When each story was created, in table order.
    pub open spec fn story_times(self) -> Seq<i64> {
        self.stories.map_values(|s: StoryView| s.created_at.micros)
    }

    /// When each comment was created, in table order.
    pub open spec fn comment_times(self) -> Seq<i64> {
        self.comments.map_values(|c: CommentRecordView| c.created_at.micros)
    }

    /// The invariant of the store.
    pub open spec fn wf(self) -> bool {
        &&& ids_ascend(self.user_ids())
        &&& ids_ascend(self.story_ids())
        &&& ids_ascend(self.comment_ids())
        &&& forall|i: int|
            0 <= i < self.stories.len() ==> self.user_ids().contains(
                #[trigger] self.stories[i].author_id,
            )
        &&& forall|i: int|
            0 <= i < self.comments.len() ==> self.user_ids().contains(
                #[trigger] self.comments[i].author_id,
            )
        &&& forall|i: int|
            0 <= i < self.comments.len() ==> self.story_ids().contains(
                #[trigger] self.comments[i].story_id,
            )
    }

    /// The story with id `id`, if there is one.
    pub open spec fn story(self, id: i32) -> Option<StoryView> {
        match position_of(self.story_ids(), id) {
            Some(k) => Some(self.stories[k]),
            None => None,
        }
    }

    /// The name shown for the account with id `author_id`.
    pub open spec fn author_name(self, author_id: i32) -> Seq<char> {
        self.users[self.user_ids().index_of(author_id)].username
    }

    /// The predicate "is a comment on story `story_id`".
    pub open spec fn on_story(story_id: i32) -> spec_fn(CommentRecordView) -> bool {
        |c: CommentRecordView| c.story_id == story_id
    }

    /// The number of comments on story `story_id`.
    pub open spec fn comment_count(self, story_id: i32) -> nat {
        self.comments.filter(Self::on_story(story_id)).len()
    }

    /// The front-page line of a story: the story, its author's name, a
    /// rating of zero and the number of comments on it.
    pub open spec fn list_item(self, story: StoryView) -> StoryListItemView {
        StoryListItemView {
            id: story.id,
            title: story.title,
            text: story.text,
            url: story.url,
            created_at: story.created_at,
            author_name: self.author_name(story.author_id),
            rating: Some(0i32),
            comment_count: Some(self.comment_count(story.id) as i32),
        }
    }

    /// The function from a position in the story table to the front-page
    /// line of the story there.
    pub open spec fn line_at(self) -> spec_fn(int) -> StoryListItemView {
        |k: int| self.list_item(self.stories[k])
    }

    /// All stories as front-page lines, newest first; stories of the same
    /// instant in the order of their ids.
    pub open spec fn story_listing(self) -> Seq<StoryListItemView> {
        arrangement(self.story_times(), true).map_values(self.line_at())
    }

    /// Page `page` of the front page.
    pub open spec fn story_page(self, page: int, page_size: int) -> Seq<StoryListItemView> {
        page_of(self.story_listing(), page, page_size)
    }

    /// The function from a position in the comment table to the comment
    /// shown for the record there.
    pub open spec fn shown_at(self) -> spec_fn(int) -> CommentView {
        |k: int| shown_comment(self.comments[k], self.author_name(self.comments[k].author_id))
    }

    /// The predicate "the comment at this position is on story `story_id`".
    pub open spec fn at_story(self, story_id: i32) -> spec_fn(int) -> bool {
        |k: int| self.comments[k].story_id == story_id
    }

    /// The comments on story `story_id`, newest first; comments of the same
    /// instant in the order of their ids. Replies and the comments they
    /// answer are listed alike.
    pub open spec fn comment_listing(self, story_id: i32) -> Seq<CommentView> {
        arrangement(self.comment_times(), true).filter(self.at_story(story_id)).map_values(
            self.shown_at(),
        )
    }

    /// The walk from a comment towards the root of its thread. `seen` holds
    /// the positions visited so far and `start` the id to visit next. The
    /// walk ends where no parent is named, where the named comment does not
    /// exist, and where it would visit a comment a second time.
    pub open spec fn ancestors(self, start: Option<i32>, seen: Seq<int>) -> Seq<int>
        decreases self.comments.len() - seen.len(),
    {
        match start {
            None => seen,
            Some(id) => match position_of(self.comment_ids(), id) {
                None => seen,
                Some(k) => if seen.contains(k) || seen.len() >= self.comments.len() {
                    seen
                } else {
                    self.ancestors(self.comments[k].parent_id, seen.push(k))
                },
            },
        }
    }

    /// The positions of comment `id` and of its ancestors, the comment first.
    pub open spec fn chain(self, id: i32) -> Seq<int> {
        self.ancestors(Some(id), Seq::empty())
    }

    /// The predicate "this position belongs to the chain of comment `id`".
    pub open spec fn in_chain(self, id: i32) -> spec_fn(int) -> bool {
        |k: int| self.chain(id).contains(k)
    }

    /// Comment `id` with its ancestors, oldest first; comments of the same
    /// instant in the order of their ids. Empty when there is no such comment.
    pub open spec fn thread(self, id: i32) -> Seq<CommentView> {
        arrangement(self.comment_times(), false).filter(self.in_chain(id)).map_values(
            self.shown_at(),
        )
    }

    /// The store after `story` was added.
    pub open spec fn with_story(self, story: StoryView) -> Tables {
        Tables { users: self.users, stories: self.stories.push(story), comments: self.comments }
    }

    /// The store after `comment` was added.
    pub open spec fn with_comment(self, comment: CommentRecordView) -> Tables {
        Tables { users: self.users, stories: self.stories, comments: self.comments.push(comment) }
    }
}

/// In a table with ascending ids the row at position `i` has an id of at
/// least `i + 1`; so the table has no more rows than its last id says, and
/// fewer than 2^31.
pub proof fn lemma_ids_bound(ids: Seq<i32>, i: int)
    requires
        ids_ascend(ids),
        0 <= i < ids.len(),
    ensures
        ids[i] >= i + 1,
        ids.len() <= ids.last(),
        ids.len() <= i32::MAX,
{
    if i > 0 {
        lemma_ids_bound_at(ids, i);
    }
    lemma_ids_bound_at(ids, ids.len() - 1);
}

proof fn lemma_ids_bound_at(ids: Seq<i32>, i: int)
    requires
        ids_ascend(ids),
        0 <= i < ids.len(),
    ensures
        ids[i] >= i + 1,
    decreases i,
{
    if i > 0 {
        lemma_ids_bound_at(ids, i - 1);
    }
}

/// In a table with ascending ids a row is found at one position only.
pub proof fn lemma_position_unique(ids: Seq<i32>, k: int)
    requires
        ids_ascend(ids),
        0 <= k < ids.len(),
    ensures
        position_of(ids, ids[k]) == Some(k),
{
    assert(ids.contains(ids[k]));
    let found = ids.index_of(ids[k]);
    if found < k {
        assert(ids[found] < ids[k]);
    } else if found > k {
        assert(ids[k] < ids[found]);
    }
}

/// A row that names its id.
pub trait Keyed {
    /// The id of the row.
    spec fn key(&self) -> i32;

    /// The id of the row.
    fn id(&self) -> (id: i32)
        ensures
            id == self.key(),
    ;
}

impl Keyed for User {
    open spec fn key(&self) -> i32 {
        self.id
    }

    fn id(&self) -> (id: i32) {
        self.id
    }
}

impl Keyed for Story {
    open spec fn key(&self) -> i32 {
        self.id
    }

    fn id(&self) -> (id: i32) {
        self.id
    }
}

impl Keyed for CommentRecord {
    open spec fn key(&self) -> i32 {
        self.id
    }

    fn id(&self) -> (id: i32) {
        self.id
    }
}

/// The ids of the rows of a table, in table order.
pub open spec fn keys<R: Keyed>(rows: Seq<R>) -> Seq<i32> {
    rows.map_values(|r: R| r.key())
}

/// Finds the row with id `id`.
pub fn find<R: Keyed>(rows: &Vec<R>, id: i32) -> (found: Option<usize>)
    requires
        ids_ascend(keys(rows@)),
    ensures
        found matches Some(k) ==> k < rows.len(),
        (match found {
            Some(k) => Some(k as int),
            None => None,
        }) == position_of(keys(rows@), id),
{
    let mut k: usize = 0;
    while k < rows.len()
        invariant
            k <= rows.len(),
            ids_ascend(keys(rows@)),
            forall|j: int| 0 <= j < k ==> keys(rows@)[j] != id,
        decreases rows.len() - k,
    {
        if rows[k].id() == id {
            proof {
                lemma_position_unique(keys(rows@), k as int);
            }
            return Some(k);
        }
        k += 1;
    }
    None
}

/// Whether the ids of a table are positive and strictly increasing.
pub fn check_ids<R: Keyed>(rows: &Vec<R>) -> (ok: bool)
    ensures
        ok == ids_ascend(keys(rows@)),
{
    let mut k: usize = 0;
    let mut floor: i32 = 0;
    while k < rows.len()
        invariant
            k <= rows.len(),
            ids_ascend(keys(rows@).take(k as int)),
            floor >= 0,
            k == 0 ==> floor == 0,
            k > 0 ==> floor == keys(rows@)[k as int - 1],
            forall|j: int| 0 <= j < k ==> keys(rows@)[j] <= floor,
        decreases rows.len() - k,
    {
        let id = rows[k].id();
        proof {
            assert(keys(rows@)[k as int] == id);
        }
        if id <= floor {
            return false;
        }
        proof {
            let ids = keys(rows@);
            assert(ids.take(k as int + 1) =~= ids.take(k as int).push(ids[k as int]));
        }
        floor = id;
        k += 1;
    }
    proof {
        assert(keys(rows@).take(k as int) =~= keys(rows@));
    }
    true
}

/// The tables with the given rows.
pub open spec fn tables(
    users: Seq<UserView>,
    stories: Seq<StoryView>,
    comments: Seq<CommentRecordView>,
) -> Tables {
    Tables { users, stories, comments }
}

/// The store: users, stories and comments, each table in the order of its
/// ids. A store can only be made empty or from tables that are checked, so
/// its invariant always holds.
pub struct Store {
    users: Vec<User>,
    stories: Vec<Story>,
    comments: Vec<CommentRecord>,
}

impl View for Store {
    type V = Tables;

    closed spec fn view(&self) -> Tables {
        tables(self.users.deep_view(), self.stories.deep_view(), self.comments.deep_view())
    }
}

proof fn lemma_user_keys(rows: Vec<User>)
    ensures
        keys(rows@) == rows.deep_view().map_values(|u: UserView| u.id),
{
    assert(keys(rows@) =~= rows.deep_view().map_values(|u: UserView| u.id));
}

proof fn lemma_story_keys(rows: Vec<Story>)
    ensures
        keys(rows@) == rows.deep_view().map_values(|s: StoryView| s.id),
{
    assert(keys(rows@) =~= rows.deep_view().map_values(|s: StoryView| s.id));
}

proof fn lemma_comment_keys(rows: Vec<CommentRecord>)
    ensures
        keys(rows@) == rows.deep_view().map_values(|c: CommentRecordView| c.id),
{
    assert(keys(rows@) =~= rows.deep_view().map_values(|c: CommentRecordView| c.id));
}

/// Whether every story names an author that exists.
fn stories_have_authors(users: &Vec<User>, stories: &Vec<Story>) -> (ok: bool)
    requires
        ids_ascend(keys(users@)),
    ensures
        ok == (forall|i: int|
            0 <= i < stories.len() ==> keys(users@).contains(#[trigger] stories[i].author_id)),
{
    let mut k: usize = 0;
    while k < stories.len()
        invariant
            k <= stories.len(),
            ids_ascend(keys(users@)),
            forall|i: int| 0 <= i < k ==> keys(users@).contains(#[trigger] stories[i].author_id),
        decreases stories.len() - k,
    {
        if find(users, stories[k].author_id).is_none() {
            return false;
        }
        k += 1;
    }
    true
}

/// Whether every comment names an author and a story that exist.
fn comments_have_links(users: &Vec<User>, stories: &Vec<Story>, comments: &Vec<CommentRecord>) -> (ok:
    bool)
    requires
        ids_ascend(keys(users@)),
        ids_ascend(keys(stories@)),
    ensures
        ok == (forall|i: int|
            0 <= i < comments.len() ==> keys(users@).contains((#[trigger] comments[i]).author_id)
                && keys(stories@).contains(comments[i].story_id)),
{
    let mut k: usize = 0;
    while k < comments.len()
        invariant
            k <= comments.len(),
            ids_ascend(keys(users@)),
            ids_ascend(keys(stories@)),
            forall|i: int|
                0 <= i < k ==> keys(users@).contains((#[trigger] comments[i]).author_id) && keys(
                    stories@,
                ).contains(comments[i].story_id),
        decreases comments.len() - k,
    {
        if find(users, comments[k].author_id).is_none() {
            return false;
        }
        if find(stories, comments[k].story_id).is_none() {
            return false;
        }
        k += 1;
    }
    true
}

impl Store {
    /// The invariant of the store; see [`Tables::wf`].
    pub open spec fn wf(&self) -> bool {
        self@.wf()
    }

    /// An empty store.
    pub fn new() -> (store: Store)
        ensures
            store@ == tables(Seq::empty(), Seq::empty(), Seq::empty()),
            store.wf(),
    {
        let store = Store { users: Vec::new(), stories: Vec::new(), comments: Vec::new() };
        proof {
            assert(store@.users =~= Seq::empty());
            assert(store@.stories =~= Seq::empty());
            assert(store@.comments =~= Seq::empty());
        }
        store
    }

    /// A store with the given tables, if they meet the invariant: ids
    /// positive and ascending in each table, and every author and story that
    /// a row names present.
    pub fn from_rows(users: Vec<User>, stories: Vec<Story>, comments: Vec<CommentRecord>) -> (store:
        Option<Store>)
        ensures
            match store {
                Some(s) => s@ == tables(
                    users.deep_view(),
                    stories.deep_view(),
                    comments.deep_view(),
                ) && s.wf(),
                None => !tables(users.deep_view(), stories.deep_view(), comments.deep_view()).wf(),
            },
    {
        proof {
            lemma_user_keys(users);
            lemma_story_keys(stories);
            lemma_comment_keys(comments);
        }
        let ghost view = tables(users.deep_view(), stories.deep_view(), comments.deep_view());
        if !check_ids(&users) || !check_ids(&stories) || !check_ids(&comments) {
            return None;
        }
        if !stories_have_authors(&users, &stories) {
            proof {
                if view.wf() {
                    assert forall|i: int| 0 <= i < stories.len() implies keys(users@).contains(
                        #[trigger] stories[i].author_id,
                    ) by {
                        assert(view.stories[i].author_id == stories[i].author_id);
                    }
                }
            }
            return None;
        }
        if !comments_have_links(&users, &stories, &comments) {
            proof {
                if view.wf() {
                    assert forall|i: int| 0 <= i < comments.len() implies keys(users@).contains(
                        (#[trigger] comments[i]).author_id,
                    ) && keys(stories@).contains(comments[i].story_id) by {
                        assert(view.comments[i].author_id == comments[i].author_id);
                        assert(view.comments[i].story_id == comments[i].story_id);
                    }
                }
            }
            return None;
        }
        proof {
            assert forall|i: int| 0 <= i < view.stories.len() implies view.user_ids().contains(
                #[trigger] view.stories[i].author_id,
            ) by {
                assert(view.stories[i].author_id == stories[i].author_id);
            }
            assert forall|i: int| 0 <= i < view.comments.len() implies view.user_ids().contains(
                #[trigger] view.comments[i].author_id,
            ) by {
                assert(view.comments[i].author_id == comments[i].author_id);
            }
            assert forall|i: int| 0 <= i < view.comments.len() implies view.story_ids().contains(
                #[trigger] view.comments[i].story_id,
            ) by {
                assert(view.comments[i].story_id == comments[i].story_id);
            }
        }
        Some(Store { users, stories, comments })
    }

    /// The table of users.
    pub fn users(&self) -> (rows: &Vec<User>)
        ensures
            rows.deep_view() == self@.users,
            keys(rows@) == self@.user_ids(),
    {
        proof {
            lemma_user_keys(self.users);
        }
        &self.users
    }

    /// The table of stories.
    pub fn stories(&self) -> (rows: &Vec<Story>)
        ensures
            rows.deep_view() == self@.stories,
            keys(rows@) == self@.story_ids(),
    {
        proof {
            lemma_story_keys(self.stories);
        }
        &self.stories
    }

    /// The table of comments.
    pub fn comments(&self) -> (rows: &Vec<CommentRecord>)
        ensures
            rows.deep_view() == self@.comments,
            keys(rows@) == self@.comment_ids(),
    {
        proof {
            lemma_comment_keys(self.comments);
        }
        &self.comments
    }

    /// Appends a story to its table.
    pub(crate) fn push_story(&mut self, story: Story)
        ensures
            final(self)@ == old(self)@.with_story(story@),
    {
        self.stories.push(story);
        proof {
            assert(self.stories.deep_view() =~= old(self).stories.deep_view().push(story@));
        }
    }

    /// Appends a comment to its table.
    pub(crate) fn push_comment(&mut self, comment: CommentRecord)
        ensures
            final(self)@ == old(self)@.with_comment(comment@),
    {
        self.comments.push(comment);
        proof {
            assert(self.comments.deep_view() =~= old(self).comments.deep_view().push(comment@));
        }
    }
}

} // verus!

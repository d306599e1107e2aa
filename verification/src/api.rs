//! The operations of the board: list, read and submit stories; list, submit
//! and thread comments.
//!
//! Each operation takes the store it works on. Those that add a row also
//! take the current time and the account the row is attributed to; where no
//! account is given it is the system account. A submission is checked in
//! full before anything is written, so an operation that fails leaves the
//! store as it was.

use crate::laws::{
    lemma_chain, lemma_comment_count_is_listing_len, lemma_comment_listing,
    lemma_created_story_is_found, lemma_story_page,
    lemma_thread_holds_comment, lemma_thread_of_missing_comment, lemma_thread_ordered,
    listed_before, newer_first, older_first,
};
use crate::model::{
    clone_text, row_to_comment, Comment, CommentCreateArgs, CommentRecord, CommentRecordView,
    LambdaError, Story, StoryCreateArgs, StoryListItem, StoryView, Timestamp,
};
use crate::order::{arrange, arrangement, is_arrangement, lemma_arrangement_is_arrangement, positions};
use crate::pagination::{count_pages, page_bounds, page_count, PAGE_SIZE};
use crate::store::{
    find, keys, lemma_ids_bound, next_id, position_of, Store, Tables, SYSTEM_USER_ID,
};
use crate::validation::{story_args_defect, CommentDefect};
use vstd::prelude::*;

verus! {

/// The story that a submission becomes: it gets the next id, the given
/// author and the given time.
pub open spec fn new_story(store: Tables, args: StoryCreateArgs, author_id: i32, now: Timestamp) -> StoryView {
    StoryView {
        id: next_id(store.story_ids()) as i32,
        title: args.title@,
        text: args.text.deep_view(),
        url: args.url.deep_view(),
        created_at: now,
        author_id,
    }
}

/// Whether the store can take one more story by `author_id`: the account
/// exists and an id is left.
pub open spec fn takes_story(store: Tables, author_id: i32) -> bool {
    store.user_ids().contains(author_id) && next_id(store.story_ids()) <= i32::MAX
}

/// The record that a comment submission becomes: it gets the next id, the
/// given author and the given time.
pub open spec fn new_comment(store: Tables, args: CommentCreateArgs, author_id: i32, now: Timestamp) -> CommentRecordView {
    CommentRecordView {
        id: next_id(store.comment_ids()) as i32,
        text: args.text@,
        parent_id: args.parent_id,
        story_id: args.story_id,
        author_id,
        created_at: now,
    }
}

/// Whether the comment that a submission answers, if it names one, is a
/// comment on the same story.
pub open spec fn parent_fits(store: Tables, args: CommentCreateArgs) -> bool {
    args.parent_id matches Some(parent) ==> (position_of(store.comment_ids(), parent) matches Some(
        k,
    ) && store.comments[k].story_id == args.story_id)
}

/// The first rule that a comment submission breaks, if any.
pub open spec fn comment_args_defect(store: Tables, args: CommentCreateArgs) -> Option<
    CommentDefect,
> {
    if args.text@.len() == 0 {
        Some(CommentDefect::TextRequired)
    } else if !parent_fits(store, args) {
        Some(CommentDefect::ParentNotInStory)
    } else {
        None
    }
}

/// Whether the store can take one more comment by `author_id` on story
/// `story_id`: the story and the account exist and an id is left.
pub open spec fn takes_comment(store: Tables, story_id: i32, author_id: i32) -> bool {
    &&& store.user_ids().contains(author_id)
    &&& store.story_ids().contains(story_id)
    &&& next_id(store.comment_ids()) <= i32::MAX
}

/// The id for the next row of a table, unless the ids are used up.
fn fresh_id(last: Option<i32>) -> (id: Option<i32>)
    ensures
        id == (match last {
            None => Some(1i32),
            Some(n) => if n < i32::MAX {
                Some((n + 1) as i32)
            } else {
                None
            },
        }),
{
    match last {
        None => Some(1),
        Some(n) => if n < i32::MAX {
            Some(n + 1)
        } else {
            None
        },
    }
}

/// Looks a story up by its id.
///
/// Returns the story, or `NotFound` when no story has that id.
pub fn story_get(store: &Store, id: i32) -> (outcome: Result<Story, LambdaError>)
    requires
        store.wf(),
    ensures
        match store@.story(id) {
            Some(story) => outcome matches Ok(found) && found@ == story,
            None => outcome == Err::<Story, LambdaError>(LambdaError::NotFound),
        },
{
    let stories = store.stories();
    match find(stories, id) {
        Some(k) => {
            let found = stories[k].clone();
            proof {
                assert(stories.deep_view()[k as int] == stories[k as int]@);
            }
            Ok(found)
        },
        None => Err(LambdaError::NotFound),
    }
}

/// Submits a story in the name of the system account.
///
/// The submission is checked first; a broken rule is reported as a
/// `ValidationError` with its reason. A submission that passes is stored
/// under the next id, with `now` as its time of creation and the system
/// account as its author, and returned as stored. Where the store cannot
/// take it (no system account, or no id left) the outcome is
/// `InternalServerError`. Every failure leaves the store unchanged.
pub fn story_create(store: &mut Store, story: StoryCreateArgs, now: Timestamp) -> (outcome: Result<
    Story,
    LambdaError,
>)
    requires
        old(store).wf(),
    ensures
        final(store).wf(),
        match story_args_defect(story) {
            Some(defect) => {
                &&& outcome matches Err(e)
                &&& e.is_rejection(defect.reason_text())
                &&& final(store)@ == old(store)@
            },
            None => if takes_story(old(store)@, SYSTEM_USER_ID) {
                &&& outcome matches Ok(created)
                &&& created@ == new_story(old(store)@, story, SYSTEM_USER_ID, now)
                &&& final(store)@ == old(store)@.with_story(created@)
                &&& final(store)@.story(created.id) == Some(created@)
            } else {
                &&& outcome == Err::<Story, LambdaError>(LambdaError::InternalServerError)
                &&& final(store)@ == old(store)@
            },
        },
{
    story_create_by(store, SYSTEM_USER_ID, story, now)
}

/// Submits a story in the name of the account `author_id`.
///
/// As [`story_create`], with the given account in place of the system
/// account.
pub fn story_create_by(store: &mut Store, author_id: i32, story: StoryCreateArgs, now: Timestamp) -> (outcome:
    Result<Story, LambdaError>)
    requires
        old(store).wf(),
    ensures
        final(store).wf(),
        match story_args_defect(story) {
            Some(defect) => {
                &&& outcome matches Err(e)
                &&& e.is_rejection(defect.reason_text())
                &&& final(store)@ == old(store)@
            },
            None => if takes_story(old(store)@, author_id) {
                &&& outcome matches Ok(created)
                &&& created@ == new_story(old(store)@, story, author_id, now)
                &&& final(store)@ == old(store)@.with_story(created@)
                &&& final(store)@.story(created.id) == Some(created@)
            } else {
                &&& outcome == Err::<Story, LambdaError>(LambdaError::InternalServerError)
                &&& final(store)@ == old(store)@
            },
        },
{
    match story.validate() {
        Err(e) => {
            return Err(e);
        },
        Ok(()) => {},
    }
    if find(store.users(), author_id).is_none() {
        return Err(LambdaError::InternalServerError);
    }
    let stories = store.stories();
    let last = if stories.len() == 0 {
        None
    } else {
        Some(stories[stories.len() - 1].id)
    };
    proof {
        if stories.len() > 0 {
            assert(keys(stories@).last() == stories[stories.len() - 1].id);
        }
    }
    let id = match fresh_id(last) {
        Some(id) => id,
        None => {
            return Err(LambdaError::InternalServerError);
        },
    };
    let created = Story {
        id,
        title: story.title,
        text: story.text,
        url: story.url,
        created_at: now,
        author_id,
    };
    let copy = created.clone();
    store.push_story(created);
    proof {
        lemma_with_story_wf(old(store)@, copy@);
        lemma_created_story_is_found(old(store)@, story, author_id, now);
    }
    Ok(copy)
}

/// Adding a story with the next id and an existing author keeps the
/// invariant.
pub proof fn lemma_with_story_wf(store: Tables, story: StoryView)
    requires
        store.wf(),
        story.id == next_id(store.story_ids()),
        store.user_ids().contains(story.author_id),
    ensures
        store.with_story(story).wf(),
{
    let after = store.with_story(story);
    assert(after.story_ids() =~= store.story_ids().push(story.id));
    assert forall|i: int| 0 <= i < after.story_ids().len() implies #[trigger] after.story_ids()[i]
        >= 1 by {
        if i < store.story_ids().len() {
            assert(after.story_ids()[i] == store.story_ids()[i]);
        }
    }
    assert forall|i: int, j: int| 0 <= i < j < after.story_ids().len() implies #[trigger] after.story_ids()[i]
        < #[trigger] after.story_ids()[j] by {
        assert(after.story_ids()[i] == store.story_ids()[i]);
        if j < store.story_ids().len() {
            assert(after.story_ids()[j] == store.story_ids()[j]);
        } else {
            assert(store.story_ids()[i] <= store.story_ids().last());
        }
    }
    assert forall|i: int| 0 <= i < after.stories.len() implies after.user_ids().contains(
        #[trigger] after.stories[i].author_id,
    ) by {
        if i < store.stories.len() {
            assert(after.stories[i] == store.stories[i]);
        }
    }
    assert forall|i: int| 0 <= i < after.comments.len() implies after.story_ids().contains(
        #[trigger] after.comments[i].story_id,
    ) by {
        let wanted = store.comments[i].story_id;
        assert(store.story_ids().contains(wanted));
        let k = store.story_ids().index_of(wanted);
        assert(after.story_ids()[k] == wanted);
    }
}

/// Adding a comment with the next id, an existing author and an existing
/// story keeps the invariant.
pub proof fn lemma_with_comment_wf(store: Tables, comment: CommentRecordView)
    requires
        store.wf(),
        comment.id == next_id(store.comment_ids()),
        store.user_ids().contains(comment.author_id),
        store.story_ids().contains(comment.story_id),
    ensures
        store.with_comment(comment).wf(),
{
    let after = store.with_comment(comment);
    assert(after.comment_ids() =~= store.comment_ids().push(comment.id));
    assert forall|i: int| 0 <= i < after.comment_ids().len() implies #[trigger] after.comment_ids()[i]
        >= 1 by {
        if i < store.comment_ids().len() {
            assert(after.comment_ids()[i] == store.comment_ids()[i]);
        }
    }
    assert forall|i: int, j: int| 0 <= i < j < after.comment_ids().len() implies #[trigger] after.comment_ids()[i]
        < #[trigger] after.comment_ids()[j] by {
        assert(after.comment_ids()[i] == store.comment_ids()[i]);
        if j < store.comment_ids().len() {
            assert(after.comment_ids()[j] == store.comment_ids()[j]);
        } else {
            assert(store.comment_ids()[i] <= store.comment_ids().last());
        }
    }
    assert forall|i: int| 0 <= i < after.comments.len() implies after.user_ids().contains(
        #[trigger] after.comments[i].author_id,
    ) by {
        if i < store.comments.len() {
            assert(after.comments[i] == store.comments[i]);
        }
    }
    assert forall|i: int| 0 <= i < after.comments.len() implies after.story_ids().contains(
        #[trigger] after.comments[i].story_id,
    ) by {
        if i < store.comments.len() {
            assert(after.comments[i] == store.comments[i]);
        }
    }
}

/// The number of pages that the front page is said to have.
pub fn get_story_page_count(store: &Store) -> (pages: i64)
    requires
        store.wf(),
    ensures
        pages == page_count(store@.stories.len() as int, PAGE_SIZE as int),
{
    let stories = store.stories();
    proof {
        if stories.len() > 0 {
            lemma_ids_bound(store@.story_ids(), 0);
        }
    }
    count_pages(stories.len() as i64, PAGE_SIZE)
}

/// Submits a comment in the name of the system account.
///
/// The submission is checked first: its text must not be empty, and the
/// comment it answers, if it names one, must be a comment on the same story;
/// a broken rule is reported as a `ValidationError` with its reason. A
/// submission that passes is stored under the next id, with `now` as its
/// time of creation and the system account as its author. Where the store
/// cannot take it (no such story, no system account, or no id left) the
/// outcome is `InternalServerError`. Every failure leaves the store
/// unchanged.
pub fn comment_create(store: &mut Store, comment: CommentCreateArgs, now: Timestamp) -> (outcome:
    Result<(), LambdaError>)
    requires
        old(store).wf(),
    ensures
        final(store).wf(),
        match comment_args_defect(old(store)@, comment) {
            Some(defect) => {
                &&& outcome matches Err(e)
                &&& e.is_rejection(defect.reason_text())
                &&& final(store)@ == old(store)@
            },
            None => if takes_comment(old(store)@, comment.story_id, SYSTEM_USER_ID) {
                &&& outcome is Ok
                &&& final(store)@ == old(store)@.with_comment(
                    new_comment(old(store)@, comment, SYSTEM_USER_ID, now),
                )
            } else {
                &&& outcome == Err::<(), LambdaError>(LambdaError::InternalServerError)
                &&& final(store)@ == old(store)@
            },
        },
{
    comment_create_by(store, SYSTEM_USER_ID, comment, now)
}

/// Submits a comment in the name of the account `author_id`.
///
/// As [`comment_create`], with the given account in place of the system
/// account.
pub fn comment_create_by(store: &mut Store, author_id: i32, comment: CommentCreateArgs, now: Timestamp) -> (outcome:
    Result<(), LambdaError>)
    requires
        old(store).wf(),
    ensures
        final(store).wf(),
        match comment_args_defect(old(store)@, comment) {
            Some(defect) => {
                &&& outcome matches Err(e)
                &&& e.is_rejection(defect.reason_text())
                &&& final(store)@ == old(store)@
            },
            None => if takes_comment(old(store)@, comment.story_id, author_id) {
                &&& outcome is Ok
                &&& final(store)@ == old(store)@.with_comment(
                    new_comment(old(store)@, comment, author_id, now),
                )
            } else {
                &&& outcome == Err::<(), LambdaError>(LambdaError::InternalServerError)
                &&& final(store)@ == old(store)@
            },
        },
{
    match comment.validate() {
        Err(defect) => {
            return Err(LambdaError::ValidationError(defect.reason()));
        },
        Ok(()) => {},
    }
    let comments = store.comments();
    match comment.parent_id {
        Some(parent) => {
            let fits = match find(comments, parent) {
                Some(k) => {
                    proof {
                        assert(comments.deep_view()[k as int] == comments[k as int]@);
                    }
                    comments[k].story_id == comment.story_id
                },
                None => false,
            };
            if !fits {
                return Err(
                    LambdaError::ValidationError(CommentDefect::ParentNotInStory.reason()),
                );
            }
        },
        None => {},
    }
    if find(store.users(), author_id).is_none() {
        return Err(LambdaError::InternalServerError);
    }
    if find(store.stories(), comment.story_id).is_none() {
        return Err(LambdaError::InternalServerError);
    }
    let last = if comments.len() == 0 {
        None
    } else {
        Some(comments[comments.len() - 1].id)
    };
    proof {
        if comments.len() > 0 {
            assert(keys(comments@).last() == comments[comments.len() - 1].id);
        }
    }
    let id = match fresh_id(last) {
        Some(id) => id,
        None => {
            return Err(LambdaError::InternalServerError);
        },
    };
    let record = CommentRecord {
        id,
        text: comment.text,
        parent_id: comment.parent_id,
        story_id: comment.story_id,
        author_id,
        created_at: now,
    };
    proof {
        lemma_with_comment_wf(old(store)@, record@);
    }
    store.push_comment(record);
    Ok(())
}

/// The page that a request names: the first when it names none.
pub open spec fn page_number(page: Option<i64>) -> int {
    match page {
        Some(number) => number as int,
        None => 0,
    }
}

/// The creation times of the stories, in table order.
fn story_times(store: &Store) -> (times: Vec<i64>)
    ensures
        times@ == store@.story_times(),
{
    let stories = store.stories();
    let mut times: Vec<i64> = Vec::new();
    let mut k: usize = 0;
    while k < stories.len()
        invariant
            k <= stories.len(),
            stories.deep_view() == store@.stories,
            times@ == store@.story_times().take(k as int),
        decreases stories.len() - k,
    {
        times.push(stories[k].created_at.micros);
        proof {
            assert(stories.deep_view()[k as int] == stories[k as int]@);
            assert(times@ =~= store@.story_times().take(k as int + 1));
        }
        k += 1;
    }
    proof {
        assert(times@ =~= store@.story_times());
    }
    times
}

/// The creation times of the comments, in table order.
fn comment_times(store: &Store) -> (times: Vec<i64>)
    ensures
        times@ == store@.comment_times(),
{
    let comments = store.comments();
    let mut times: Vec<i64> = Vec::new();
    let mut k: usize = 0;
    while k < comments.len()
        invariant
            k <= comments.len(),
            comments.deep_view() == store@.comments,
            times@ == store@.comment_times().take(k as int),
        decreases comments.len() - k,
    {
        times.push(comments[k].created_at.micros);
        proof {
            assert(comments.deep_view()[k as int] == comments[k as int]@);
            assert(times@ =~= store@.comment_times().take(k as int + 1));
        }
        k += 1;
    }
    proof {
        assert(times@ =~= store@.comment_times());
    }
    times
}

/// The name shown for an account that exists.
fn author_name(store: &Store, author_id: i32) -> (name: String)
    requires
        store.wf(),
        store@.user_ids().contains(author_id),
    ensures
        name@ == store@.author_name(author_id),
{
    let users = store.users();
    match find(users, author_id) {
        Some(k) => {
            proof {
                assert(users.deep_view()[k as int] == users[k as int]@);
            }
            users[k].username.clone()
        },
        None => String::new(),
    }
}

/// Counts the comments on a story.
fn count_comments(store: &Store, story_id: i32) -> (count: i32)
    requires
        store.wf(),
    ensures
        count == store@.comment_count(story_id),
{
    let comments = store.comments();
    let ghost wanted = Tables::on_story(story_id);
    let mut count: i32 = 0;
    let mut k: usize = 0;
    proof {
        if comments.len() > 0 {
            lemma_ids_bound(store@.comment_ids(), 0);
        }
        assert(store@.comments.take(0) =~= Seq::empty());
        assert(Seq::<CommentRecordView>::empty().filter(wanted).len() == 0) by {
            Seq::<CommentRecordView>::empty().lemma_filter_len(wanted);
        }
    }
    while k < comments.len()
        invariant
            k <= comments.len() <= i32::MAX,
            comments.deep_view() == store@.comments,
            wanted == Tables::on_story(story_id),
            count == store@.comments.take(k as int).filter(wanted).len(),
            count <= k,
        decreases comments.len() - k,
    {
        proof {
            let prefix = store@.comments.take(k as int);
            let row = store@.comments[k as int];
            assert(comments.deep_view()[k as int] == comments[k as int]@);
            assert(store@.comments.take(k as int + 1) =~= prefix.push(row));
            prefix.lemma_filter_len_push(wanted, row);
            assert(wanted(row) == (row.story_id == story_id));
        }
        if comments[k].story_id == story_id {
            count += 1;
        }
        k += 1;
    }
    proof {
        assert(store@.comments.take(k as int) =~= store@.comments);
    }
    count
}

/// The front-page line of a story.
fn list_item(store: &Store, story: &Story) -> (item: StoryListItem)
    requires
        store.wf(),
        store@.user_ids().contains(story.author_id),
    ensures
        item@ == store@.list_item(story@),
{
    StoryListItem {
        id: story.id,
        title: story.title.clone(),
        text: clone_text(&story.text),
        url: clone_text(&story.url),
        created_at: story.created_at,
        author_name: author_name(store, story.author_id),
        rating: Some(0),
        comment_count: Some(count_comments(store, story.id)),
    }
}

/// Lists one page of the front page.
///
/// The stories are listed newest first, stories of the same instant in the
/// order of their ids. Page `page` (the first when none is named) holds the
/// `PAGE_SIZE` stories from story `page * PAGE_SIZE` of that listing on, or
/// as many as are left. Each line carries the author's name, a rating of
/// zero and the number of comments on the story.
pub fn story_list(store: &Store, page: Option<i64>) -> (items: Vec<StoryListItem>)
    requires
        store.wf(),
        page matches Some(number) ==> number >= 0,
    ensures
        items.deep_view() == store@.story_page(page_number(page), PAGE_SIZE as int),
        items.len() <= PAGE_SIZE,
        forall|i: int, j: int|
            0 <= i < j < items.len() ==> listed_before(#[trigger] items[i]@, #[trigger] items[j]@),
{
    let stories = store.stories();
    let times = story_times(store);
    let order = arrange(&times, true);
    let number = match page {
        Some(number) => number,
        None => 0,
    };
    let (start, end) = page_bounds(number, PAGE_SIZE, order.len());
    let ghost listing = store@.story_listing();
    proof {
        lemma_arrangement_is_arrangement(store@.story_times(), true);
    }
    let mut items: Vec<StoryListItem> = Vec::new();
    let mut i: usize = start;
    while i < end
        invariant
            start <= i <= end <= order.len(),
            store.wf(),
            stories.deep_view() == store@.stories,
            positions(order@) == arrangement(store@.story_times(), true),
            is_arrangement(store@.story_times(), positions(order@), true),
            listing == store@.story_listing(),
            items.deep_view() == listing.subrange(start as int, i as int),
        decreases end - i,
    {
        let k = order[i];
        proof {
            assert(positions(order@)[i as int] == k as int);
            assert(stories.deep_view()[k as int] == stories[k as int]@);
            assert(store@.user_ids().contains(store@.stories[k as int].author_id));
        }
        let item = list_item(store, &stories[k]);
        let ghost before = items.deep_view();
        items.push(item);
        proof {
            assert(listing[i as int] == store@.list_item(store@.stories[k as int]));
            assert(items.deep_view() =~= before.push(item@));
            assert(items.deep_view() =~= listing.subrange(start as int, i as int + 1));
        }
        i += 1;
    }
    proof {
        lemma_story_page(store@, page_number(page), PAGE_SIZE as int);
        assert forall|i: int, j: int| 0 <= i < j < items.len() implies listed_before(
            #[trigger] items[i]@,
            #[trigger] items[j]@,
        ) by {
            assert(items.deep_view()[i] == items[i]@);
            assert(items.deep_view()[j] == items[j]@);
        }
    }
    items
}

/// The comment shown for a stored record.
fn shown(store: &Store, k: usize) -> (comment: Comment)
    requires
        store.wf(),
        k < store@.comments.len(),
    ensures
        comment@ == (store@.shown_at())(k as int),
{
    let comments = store.comments();
    proof {
        assert(comments.deep_view()[k as int] == comments[k as int]@);
        assert(store@.user_ids().contains(store@.comments[k as int].author_id));
    }
    let name = author_name(store, comments[k].author_id);
    row_to_comment(&comments[k], name)
}

/// The comments at the positions of `order` that `keep` marks, in that order.
fn collect(store: &Store, order: &Vec<usize>, keep: &Vec<bool>, Ghost(wanted): Ghost<
    spec_fn(int) -> bool,
>) -> (comments: Vec<Comment>)
    requires
        store.wf(),
        keep.len() == store@.comments.len(),
        forall|i: int| 0 <= i < order.len() ==> #[trigger] order[i] < keep.len(),
        forall|k: int| 0 <= k < keep.len() ==> #[trigger] keep[k] == wanted(k),
    ensures
        comments.deep_view() == positions(order@).filter(wanted).map_values(store@.shown_at()),
{
    let ghost all = positions(order@);
    let ghost shown_at = store@.shown_at();
    let mut comments: Vec<Comment> = Vec::new();
    let mut i: usize = 0;
    proof {
        assert(all.take(0) =~= Seq::empty());
        assert(Seq::<int>::empty().filter(wanted) =~= Seq::empty()) by {
            Seq::<int>::empty().lemma_filter_len(wanted);
        }
        assert(comments.deep_view() =~= all.take(0).filter(wanted).map_values(shown_at));
    }
    while i < order.len()
        invariant
            i <= order.len(),
            store.wf(),
            keep.len() == store@.comments.len(),
            forall|i: int| 0 <= i < order.len() ==> #[trigger] order[i] < keep.len(),
            forall|k: int| 0 <= k < keep.len() ==> #[trigger] keep[k] == wanted(k),
            all == positions(order@),
            shown_at == store@.shown_at(),
            comments.deep_view() == all.take(i as int).filter(wanted).map_values(shown_at),
        decreases order.len() - i,
    {
        let k = order[i];
        let ghost before = comments.deep_view();
        let ghost kept = all.take(i as int).filter(wanted);
        proof {
            assert(all[i as int] == k as int);
            assert(all.take(i as int + 1) =~= all.take(i as int).push(k as int));
            all.take(i as int).lemma_filter_push(k as int, wanted);
        }
        if keep[k] {
            let comment = shown(store, k);
            comments.push(comment);
            proof {
                assert(comments.deep_view() =~= before.push(comment@));
                assert(kept.push(k as int).map_values(shown_at) =~= kept.map_values(shown_at).push(
                    shown_at(k as int),
                ));
            }
        }
        i += 1;
    }
    proof {
        assert(all.take(i as int) =~= all);
    }
    comments
}

/// Marks the positions of the comments on a story.
fn mark_story(store: &Store, story_id: i32) -> (marks: Vec<bool>)
    ensures
        marks.len() == store@.comments.len(),
        forall|k: int| 0 <= k < marks.len() ==> #[trigger] marks[k] == (store@.at_story(story_id))(k),
{
    let comments = store.comments();
    let mut marks: Vec<bool> = Vec::new();
    let mut k: usize = 0;
    while k < comments.len()
        invariant
            k <= comments.len(),
            comments.deep_view() == store@.comments,
            marks.len() == k,
            forall|j: int| 0 <= j < k ==> #[trigger] marks[j] == (store@.at_story(story_id))(j),
        decreases comments.len() - k,
    {
        proof {
            assert(comments.deep_view()[k as int] == comments[k as int]@);
        }
        marks.push(comments[k].story_id == story_id);
        k += 1;
    }
    marks
}

/// Lists the comments on a story.
///
/// The comments are listed newest first, comments of the same instant in
/// the order of their ids, each with its author's name. Replies are not
/// nested under the comments they answer.
pub fn comment_list(store: &Store, story_id: i32) -> (comments: Vec<Comment>)
    requires
        store.wf(),
    ensures
        comments.deep_view() == store@.comment_listing(story_id),
        comments.len() == store@.comment_count(story_id),
        forall|i: int| 0 <= i < comments.len() ==> (#[trigger] comments[i]).story_id == story_id,
        forall|i: int, j: int|
            0 <= i < j < comments.len() ==> newer_first(#[trigger] comments[i]@, #[trigger] comments[j]@),
{
    let times = comment_times(store);
    let order = arrange(&times, true);
    let marks = mark_story(store, story_id);
    proof {
        lemma_arrangement_is_arrangement(store@.comment_times(), true);
        assert forall|i: int| 0 <= i < order.len() implies #[trigger] order[i] < marks.len() by {
            assert(positions(order@)[i] == order[i] as int);
        }
    }
    let comments = collect(store, &order, &marks, Ghost(store@.at_story(story_id)));
    proof {
        lemma_comment_count_is_listing_len(store@, story_id);
        lemma_comment_listing(store@, story_id);
        assert forall|i: int| 0 <= i < comments.len() implies (#[trigger] comments[i]).story_id
            == story_id by {
            assert(comments.deep_view()[i] == comments[i]@);
        }
        assert forall|i: int, j: int| 0 <= i < j < comments.len() implies newer_first(
            #[trigger] comments[i]@,
            #[trigger] comments[j]@,
        ) by {
            assert(comments.deep_view()[i] == comments[i]@);
            assert(comments.deep_view()[j] == comments[j]@);
        }
    }
    comments
}

/// Marks the positions of a comment and of its ancestors.
fn mark_chain(store: &Store, id: i32) -> (marks: Vec<bool>)
    requires
        store.wf(),
    ensures
        marks.len() == store@.comments.len(),
        forall|k: int| 0 <= k < marks.len() ==> #[trigger] marks[k] == (store@.in_chain(id))(k),
{
    let comments = store.comments();
    let n = comments.len();
    let mut marks: Vec<bool> = Vec::new();
    while marks.len() < n
        invariant
            marks.len() <= n,
            forall|k: int| 0 <= k < marks.len() ==> !(#[trigger] marks[k]),
        decreases n - marks.len(),
    {
        marks.push(false);
    }
    let ghost mut seen: Seq<int> = Seq::empty();
    let mut steps: usize = 0;
    let mut next: Option<i32> = Some(id);
    let mut done = false;
    while !done
        invariant
            store.wf(),
            n == comments.len(),
            comments.deep_view() == store@.comments,
            keys(comments@) == store@.comment_ids(),
            marks.len() == n,
            seen.len() == steps,
            steps <= n,
            forall|k: int| 0 <= k < n ==> #[trigger] marks[k] == seen.contains(k),
            store@.chain(id) == store@.ancestors(next, seen),
            done ==> store@.chain(id) == seen,
        decreases n - steps + (if done { 0int } else { 1int }),
    {
        match next {
            None => {
                done = true;
            },
            Some(wanted) => match find(comments, wanted) {
                None => {
                    done = true;
                },
                Some(k) => {
                    if marks[k] || steps >= n {
                        done = true;
                    } else {
                        let ghost before = seen;
                        marks.set(k, true);
                        proof {
                            assert(comments.deep_view()[k as int] == comments[k as int]@);
                            seen = seen.push(k as int);
                            assert(seen[steps as int] == k as int);
                            assert forall|j: int| 0 <= j < n implies #[trigger] marks[j]
                                == seen.contains(j) by {
                                if before.contains(j) {
                                    let at = choose|at: int| 0 <= at < before.len() && before[at] == j;
                                    assert(seen[at] == j);
                                }
                            }
                        }
                        steps += 1;
                        next = comments[k].parent_id;
                    }
                },
            },
        }
    }
    marks
}

/// Lists a comment with all its ancestors.
///
/// The chain is followed from the comment through each parent until a
/// comment names no parent. It also ends where a named parent does not
/// exist and where it would come to a comment a second time, so it ends on
/// any data. The comments of the chain are listed oldest first, comments of
/// the same instant in the order of their ids. When no comment has the given
/// id the list is empty.
pub fn comment_with_parents(store: &Store, comment_id: i32) -> (thread: Vec<Comment>)
    requires
        store.wf(),
    ensures
        thread.deep_view() == store@.thread(comment_id),
        position_of(store@.comment_ids(), comment_id) is None ==> thread.len() == 0,
        position_of(store@.comment_ids(), comment_id) is Some ==> thread.len()
            == store@.chain(comment_id).len() > 0,
        forall|i: int, j: int|
            0 <= i < j < thread.len() ==> older_first(#[trigger] thread[i]@, #[trigger] thread[j]@),
{
    let times = comment_times(store);
    let order = arrange(&times, false);
    let marks = mark_chain(store, comment_id);
    proof {
        lemma_arrangement_is_arrangement(store@.comment_times(), false);
        assert forall|i: int| 0 <= i < order.len() implies #[trigger] order[i] < marks.len() by {
            assert(positions(order@)[i] == order[i] as int);
        }
    }
    let thread = collect(store, &order, &marks, Ghost(store@.in_chain(comment_id)));
    proof {
        assert(thread.deep_view().len() == thread.len());
        if position_of(store@.comment_ids(), comment_id) is None {
            lemma_thread_of_missing_comment(store@, comment_id);
        } else {
            lemma_thread_holds_comment(store@, comment_id);
            lemma_chain(store@, comment_id);
        }
        lemma_thread_ordered(store@, comment_id);
        assert forall|i: int, j: int| 0 <= i < j < thread.len() implies older_first(
            #[trigger] thread[i]@,
            #[trigger] thread[j]@,
        ) by {
            assert(thread.deep_view()[i] == thread[i]@);
            assert(thread.deep_view()[j] == thread[j]@);
        }
    }
    thread
}

} // verus!

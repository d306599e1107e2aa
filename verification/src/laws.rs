//! What holds of the board as a whole: facts that relate several operations,
//! or that hold of every store.

use crate::api::{lemma_with_story_wf, new_story, takes_story};
use crate::model::{CommentView, StoryCreateArgs, StoryListItemView, Timestamp};
use crate::order::{
    ahead, arrangement, lemma_arrangement_is_arrangement, lemma_arrangement_permutes,
    lemma_filter_keeps_order, lemma_filter_len_rearranged, table_order,
};
use crate::store::{lemma_ids_bound, lemma_position_unique, position_of, Tables};
use crate::validation::{is_blank, link_parses, story_args_defect, StoryDefect};
use vstd::math::min;
use vstd::prelude::*;
use vstd::set_lib::{lemma_int_range, lemma_len_subset, set_int_range};

verus! {

/// True when line `a` belongs before line `b` on the front page: it is
/// newer, or as old and has the smaller id.
pub open spec fn listed_before(a: StoryListItemView, b: StoryListItemView) -> bool {
    a.created_at.micros > b.created_at.micros || (a.created_at.micros == b.created_at.micros
        && a.id < b.id)
}

/// The front page lists every story once, newest first, and stories of the
/// same instant by ascending id.
pub proof fn lemma_story_listing(store: Tables)
    requires
        store.wf(),
    ensures
        store.story_listing().len() == store.stories.len(),
        forall|i: int, j: int|
            0 <= i < j < store.story_listing().len() ==> listed_before(
                #[trigger] store.story_listing()[i],
                #[trigger] store.story_listing()[j],
            ),
        forall|k: int|
            0 <= k < store.stories.len() ==> store.story_listing().contains(
                store.list_item(#[trigger] store.stories[k]),
            ),
{
    let times = store.story_times();
    let order = arrangement(times, true);
    let listing = store.story_listing();
    lemma_arrangement_is_arrangement(times, true);
    assert forall|i: int, j: int| 0 <= i < j < listing.len() implies listed_before(
        #[trigger] listing[i],
        #[trigger] listing[j],
    ) by {
        let a = order[i];
        let b = order[j];
        assert(ahead(times, a, b, true));
        assert(listing[i] == store.list_item(store.stories[a]));
        assert(listing[j] == store.list_item(store.stories[b]));
        if times[a] == times[b] {
            assert(store.story_ids()[a] < store.story_ids()[b]);
        }
    }
    assert forall|k: int| 0 <= k < store.stories.len() implies listing.contains(
        store.list_item(#[trigger] store.stories[k]),
    ) by {
        assert(order.contains(k));
        let i = choose|i: int| 0 <= i < order.len() && order[i] == k;
        assert(listing[i] == store.list_item(store.stories[k]));
    }
}

/// A page of the front page holds at most `page_size` lines, newest first;
/// lines of the same instant by ascending id.
pub proof fn lemma_story_page(store: Tables, page: int, page_size: int)
    requires
        store.wf(),
        page >= 0,
        page_size > 0,
    ensures
        store.story_page(page, page_size).len() <= page_size,
        forall|i: int, j: int|
            0 <= i < j < store.story_page(page, page_size).len() ==> listed_before(
                #[trigger] store.story_page(page, page_size)[i],
                #[trigger] store.story_page(page, page_size)[j],
            ),
{
    lemma_story_listing(store);
    let listing = store.story_listing();
    let items = store.story_page(page, page_size);
    assert(page * page_size >= 0) by (nonlinear_arith)
        requires
            page >= 0,
            page_size > 0,
    ;
    let start = min(page * page_size, listing.len() as int);
    assert forall|i: int, j: int| 0 <= i < j < items.len() implies listed_before(
        #[trigger] items[i],
        #[trigger] items[j],
    ) by {
        assert(items[i] == listing[start + i]);
        assert(items[j] == listing[start + j]);
    }
}

/// The rules on a story submission: an empty title is refused whatever else
/// is sent; with a title, a submission with neither text nor link is
/// refused; and a submission passes exactly when it has a title, has a text
/// or a link, and its link, if any, is an absolute URL.
pub proof fn lemma_story_rules(args: StoryCreateArgs)
    ensures
        args.title@.len() == 0 ==> story_args_defect(args) == Some(StoryDefect::TitleRequired),
        args.title@.len() > 0 && is_blank(args.text.deep_view()) && is_blank(args.url.deep_view())
            ==> story_args_defect(args) == Some(StoryDefect::TextOrUrlRequired),
        story_args_defect(args) is None <==> args.title@.len() > 0 && !(is_blank(
            args.text.deep_view(),
        ) && is_blank(args.url.deep_view())) && link_parses(args.url.deep_view()),
{
}

/// A story that was just stored is found under its id, with the title, text
/// and link that were submitted.
pub proof fn lemma_created_story_is_found(
    store: Tables,
    args: StoryCreateArgs,
    author_id: i32,
    now: Timestamp,
)
    requires
        store.wf(),
        takes_story(store, author_id),
    ensures
        store.with_story(new_story(store, args, author_id, now)).story(new_story(store, args, author_id, now).id) == Some(
            new_story(store, args, author_id, now),
        ),
        new_story(store, args, author_id, now).title == args.title@,
        new_story(store, args, author_id, now).text == args.text.deep_view(),
        new_story(store, args, author_id, now).url == args.url.deep_view(),
{
    let story = new_story(store, args, author_id, now);
    let after = store.with_story(story);
    lemma_with_story_wf(store, story);
    let last = after.stories.len() - 1;
    assert(after.story_ids()[last] == story.id);
    lemma_position_unique(after.story_ids(), last);
}

/// Storing a story loses nothing: every story that was there is still found
/// under its id, unchanged.
pub proof fn lemma_earlier_stories_kept(
    store: Tables,
    args: StoryCreateArgs,
    author_id: i32,
    now: Timestamp,
    id: i32,
)
    requires
        store.wf(),
        takes_story(store, author_id),
        store.story(id) is Some,
    ensures
        store.with_story(new_story(store, args, author_id, now)).story(id) == store.story(id),
        id < new_story(store, args, author_id, now).id,
{
    let story = new_story(store, args, author_id, now);
    let after = store.with_story(story);
    lemma_with_story_wf(store, story);
    let k = store.story_ids().index_of(id);
    assert(store.story_ids().contains(id));
    assert(after.story_ids()[k] == id);
    lemma_position_unique(after.story_ids(), k);
    assert(store.story_ids()[k] <= store.story_ids().last());
}

/// Two submissions stored one after the other get different ids, the later
/// the greater, and both stories are found afterwards. Whatever order the
/// store serves its callers in, no id is handed out twice and no story is
/// lost.
pub proof fn lemma_ids_never_repeat(
    store: Tables,
    author_id: i32,
    first: StoryCreateArgs,
    first_time: Timestamp,
    second: StoryCreateArgs,
    second_time: Timestamp,
)
    requires
        store.wf(),
        takes_story(store, author_id),
        takes_story(store.with_story(new_story(store, first, author_id, first_time)), author_id),
    ensures
        ({
            let a = new_story(store, first, author_id, first_time);
            let between = store.with_story(a);
            let b = new_story(between, second, author_id, second_time);
            let after = between.with_story(b);
            &&& a.id < b.id
            &&& after.story(a.id) == Some(a)
            &&& after.story(b.id) == Some(b)
            &&& after.stories.len() == store.stories.len() + 2
            &&& after.wf()
        }),
{
    let a = new_story(store, first, author_id, first_time);
    let between = store.with_story(a);
    let b = new_story(between, second, author_id, second_time);
    lemma_with_story_wf(store, a);
    lemma_created_story_is_found(store, first, author_id, first_time);
    lemma_created_story_is_found(between, second, author_id, second_time);
    lemma_earlier_stories_kept(between, second, author_id, second_time, a.id);
    lemma_with_story_wf(between, b);
}

proof fn lemma_count_by_position(store: Tables, story_id: i32, upto: int)
    requires
        0 <= upto <= store.comments.len(),
    ensures
        table_order(upto as nat).filter(store.at_story(story_id)).len() == store.comments.take(
            upto,
        ).filter(Tables::on_story(story_id)).len(),
    decreases upto,
{
    let here = store.at_story(story_id);
    let wanted = Tables::on_story(story_id);
    if upto == 0 {
        table_order(0).lemma_filter_len(here);
        store.comments.take(0).lemma_filter_len(wanted);
    } else {
        lemma_count_by_position(store, story_id, upto - 1);
        let row = store.comments[upto - 1];
        assert(table_order(upto as nat) =~= table_order((upto - 1) as nat).push(upto - 1));
        assert(store.comments.take(upto) =~= store.comments.take(upto - 1).push(row));
        table_order((upto - 1) as nat).lemma_filter_len_push(here, upto - 1);
        store.comments.take(upto - 1).lemma_filter_len_push(wanted, row);
        assert(here(upto - 1) == wanted(row));
    }
}

/// The list of comments on a story is as long as the count of comments on
/// it.
pub proof fn lemma_comment_count_is_listing_len(store: Tables, story_id: i32)
    ensures
        store.comment_listing(story_id).len() == store.comment_count(story_id),
        store.comment_count(story_id) <= store.comments.len(),
{
    let times = store.comment_times();
    let here = store.at_story(story_id);
    lemma_arrangement_permutes(times, true);
    lemma_filter_len_rearranged(arrangement(times, true), table_order(times.len()), here);
    lemma_count_by_position(store, story_id, store.comments.len() as int);
    assert(store.comments.take(store.comments.len() as int) =~= store.comments);
    store.comments.lemma_filter_len(Tables::on_story(story_id));
}

/// The number of comments that the front page reports for a story is the
/// length of the list of comments on that story.
pub proof fn lemma_listed_comment_count(store: Tables, k: int)
    requires
        store.wf(),
        0 <= k < store.stories.len(),
    ensures
        store.list_item(store.stories[k]).comment_count == Some(
            store.comment_listing(store.stories[k].id).len() as i32,
        ),
        store.comment_listing(store.stories[k].id).len() <= i32::MAX,
{
    lemma_comment_count_is_listing_len(store, store.stories[k].id);
    if store.comments.len() > 0 {
        lemma_ids_bound(store.comment_ids(), 0);
    }
}

/// True when comment `a` is newer than `b`, or as old with the smaller id.
pub open spec fn newer_first(a: CommentView, b: CommentView) -> bool {
    a.created_at.micros > b.created_at.micros || (a.created_at.micros == b.created_at.micros
        && a.id < b.id)
}

/// True when comment `a` is older than `b`, or as old with the smaller id.
pub open spec fn older_first(a: CommentView, b: CommentView) -> bool {
    a.created_at.micros < b.created_at.micros || (a.created_at.micros == b.created_at.micros
        && a.id < b.id)
}

/// The list of comments on a story holds comments on that story only,
/// newest first, and comments of the same instant by ascending id.
pub proof fn lemma_comment_listing(store: Tables, story_id: i32)
    requires
        store.wf(),
    ensures
        forall|i: int|
            0 <= i < store.comment_listing(story_id).len() ==> (#[trigger] store.comment_listing(
                story_id,
            )[i]).story_id == story_id,
        forall|i: int, j: int|
            0 <= i < j < store.comment_listing(story_id).len() ==> newer_first(
                #[trigger] store.comment_listing(story_id)[i],
                #[trigger] store.comment_listing(story_id)[j],
            ),
{
    let times = store.comment_times();
    let order = arrangement(times, true);
    let here = store.at_story(story_id);
    let kept = order.filter(here);
    let listing = store.comment_listing(story_id);
    lemma_arrangement_is_arrangement(times, true);
    lemma_filter_keeps_order(times, order, true, here);
    assert forall|i: int| 0 <= i < kept.len() implies 0 <= #[trigger] kept[i] < store.comments.len() by {
        assert(order.contains(kept[i]));
    }
    assert forall|i: int| 0 <= i < listing.len() implies (#[trigger] listing[i]).story_id
        == story_id by {
        assert(here(kept[i]));
    }
    assert forall|i: int, j: int| 0 <= i < j < listing.len() implies newer_first(
        #[trigger] listing[i],
        #[trigger] listing[j],
    ) by {
        let a = kept[i];
        let b = kept[j];
        assert(ahead(times, a, b, true));
        if times[a] == times[b] {
            assert(store.comment_ids()[a] < store.comment_ids()[b]);
        }
    }
}

/// A thread is listed oldest first, and comments of the same instant by
/// ascending id.
pub proof fn lemma_thread_ordered(store: Tables, id: i32)
    requires
        store.wf(),
    ensures
        forall|i: int, j: int|
            0 <= i < j < store.thread(id).len() ==> older_first(
                #[trigger] store.thread(id)[i],
                #[trigger] store.thread(id)[j],
            ),
{
    let times = store.comment_times();
    let order = arrangement(times, false);
    let member = store.in_chain(id);
    let kept = order.filter(member);
    let thread = store.thread(id);
    lemma_arrangement_is_arrangement(times, false);
    lemma_filter_keeps_order(times, order, false, member);
    assert forall|i: int| 0 <= i < kept.len() implies 0 <= #[trigger] kept[i] < store.comments.len() by {
        assert(order.contains(kept[i]));
    }
    assert forall|i: int, j: int| 0 <= i < j < thread.len() implies older_first(
        #[trigger] thread[i],
        #[trigger] thread[j],
    ) by {
        let a = kept[i];
        let b = kept[j];
        assert(ahead(times, a, b, false));
        if times[a] == times[b] {
            assert(store.comment_ids()[a] < store.comment_ids()[b]);
        }
    }
}

/// The thread of a comment that does not exist is empty.
pub proof fn lemma_thread_of_missing_comment(store: Tables, id: i32)
    requires
        position_of(store.comment_ids(), id) is None,
    ensures
        store.thread(id) == Seq::<CommentView>::empty(),
{
    let order = arrangement(store.comment_times(), false);
    let member = store.in_chain(id);
    assert(store.chain(id) =~= Seq::<int>::empty());
    let kept = order.filter(member);
    if kept.len() > 0 {
        order.lemma_filter_pred(member, 0);
        assert(member(kept[0]));
    }
    assert(store.thread(id) =~= Seq::<CommentView>::empty());
}

/// True when every comment of the walk but the last names the next one as
/// its parent.
pub open spec fn linked(store: Tables, walk: Seq<int>) -> bool {
    forall|i: int|
        0 <= i < walk.len() - 1 ==> (store.comments[#[trigger] walk[i]].parent_id matches Some(
            parent,
        ) && position_of(store.comment_ids(), parent) == Some(walk[i + 1]))
}

/// True when the walk visits positions of the comment table, none twice.
pub open spec fn simple(store: Tables, walk: Seq<int>) -> bool {
    &&& walk.no_duplicates()
    &&& forall|i: int| 0 <= i < walk.len() ==> 0 <= #[trigger] walk[i] < store.comments.len()
}

/// True when the walk cannot go on from its last comment: that comment names
/// no parent, or one that does not exist, or one that the walk has visited.
pub open spec fn ended(store: Tables, walk: Seq<int>) -> bool {
    match store.comments[walk.last()].parent_id {
        None => true,
        Some(parent) => match position_of(store.comment_ids(), parent) {
            None => true,
            Some(k) => walk.contains(k),
        },
    }
}

/// A walk that visits no position twice is no longer than the table.
proof fn lemma_simple_walk_fits(store: Tables, walk: Seq<int>)
    requires
        simple(store, walk),
    ensures
        walk.len() <= store.comments.len(),
{
    let n = store.comments.len() as int;
    walk.unique_seq_to_set();
    lemma_int_range(0, n);
    assert(walk.to_set().subset_of(set_int_range(0, n))) by {
        assert forall|k: int| walk.to_set().contains(k) implies set_int_range(
            0,
            n,
        ).contains(k) by {
            let i = choose|i: int| 0 <= i < walk.len() && walk[i] == k;
            assert(0 <= walk[i] < n);
        }
    }
    lemma_len_subset(walk.to_set(), set_int_range(0, n));
}

proof fn lemma_ancestors(store: Tables, start: Option<i32>, seen: Seq<int>)
    requires
        simple(store, seen),
        linked(store, seen),
        seen.len() > 0 ==> start == store.comments[seen.last()].parent_id,
        seen.len() == 0 ==> start is Some && position_of(store.comment_ids(), start->0) is Some,
    ensures
        ({
            let walk = store.ancestors(start, seen);
            &&& simple(store, walk)
            &&& linked(store, walk)
            &&& 0 < walk.len()
            &&& seen.len() <= walk.len()
            &&& walk.take(seen.len() as int) == seen
            &&& seen.len() == 0 ==> position_of(store.comment_ids(), start->0) == Some(walk[0])
            &&& ended(store, walk)
        }),
    decreases store.comments.len() - seen.len(),
{
    let walk = store.ancestors(start, seen);
    assert(seen.take(seen.len() as int) =~= seen);
    match start {
        None => {},
        Some(id) => match position_of(store.comment_ids(), id) {
            None => {},
            Some(k) => {
                assert(store.comment_ids().contains(id));
                assert(0 <= k < store.comments.len());
                if seen.contains(k) {
                } else {
                    let longer = seen.push(k);
                    assert(simple(store, longer));
                    lemma_simple_walk_fits(store, longer);
                    assert(linked(store, longer)) by {
                        assert forall|i: int| 0 <= i < longer.len() - 1 implies (
                        store.comments[#[trigger] longer[i]].parent_id matches Some(parent)
                            && position_of(store.comment_ids(), parent) == Some(longer[i + 1])) by {
                            if i < seen.len() - 1 {
                                assert(longer[i] == seen[i]);
                                assert(longer[i + 1] == seen[i + 1]);
                            } else {
                                assert(longer[i] == seen.last());
                            }
                        }
                    }
                    lemma_ancestors(store, store.comments[k].parent_id, longer);
                    assert(walk.take(seen.len() as int) =~= seen) by {
                        assert(walk.take(longer.len() as int) == longer);
                        assert forall|i: int| 0 <= i < seen.len() implies walk[i] == seen[i] by {
                            assert(walk.take(longer.len() as int)[i] == longer[i]);
                        }
                    }
                    if seen.len() == 0 {
                        assert(walk.take(longer.len() as int)[0] == longer[0]);
                    }
                }
            },
        },
    }
}

/// What the chain of an existing comment is: it begins at the comment,
/// each of its comments names the next one as its parent, none occurs twice,
/// and it goes on until a comment names no parent, names a parent that does
/// not exist, or names one that the chain already holds. The chain is never
/// cut short for its length alone.
pub proof fn lemma_chain(store: Tables, id: i32)
    requires
        position_of(store.comment_ids(), id) is Some,
    ensures
        store.chain(id).len() > 0,
        position_of(store.comment_ids(), id) == Some(store.chain(id)[0]),
        simple(store, store.chain(id)),
        linked(store, store.chain(id)),
        ended(store, store.chain(id)),
{
    lemma_ancestors(store, Some(id), Seq::empty());
}

/// The thread of an existing comment holds the comment itself.
pub proof fn lemma_thread_holds_comment(store: Tables, id: i32)
    requires
        position_of(store.comment_ids(), id) is Some,
    ensures
        store.thread(id).contains((store.shown_at())(position_of(store.comment_ids(), id)->0)),
        store.thread(id).len() == store.chain(id).len(),
{
    let times = store.comment_times();
    let order = arrangement(times, false);
    let member = store.in_chain(id);
    let chain = store.chain(id);
    let k = position_of(store.comment_ids(), id)->0;
    lemma_chain(store, id);
    lemma_arrangement_is_arrangement(times, false);
    assert(chain[0] == k);
    assert(member(k));
    assert(order.contains(k));
    let at = choose|at: int| 0 <= at < order.len() && order[at] == k;
    order.lemma_filter_contains(member, at);
    let kept = order.filter(member);
    let i = choose|i: int| 0 <= i < kept.len() && kept[i] == k;
    assert(store.thread(id)[i] == (store.shown_at())(k));
    lemma_members_counted(store, id);
}

/// The thread lists every comment of the chain once.
proof fn lemma_members_counted(store: Tables, id: i32)
    requires
        position_of(store.comment_ids(), id) is Some,
    ensures
        arrangement(store.comment_times(), false).filter(store.in_chain(id)).len()
            == store.chain(id).len(),
{
    let times = store.comment_times();
    let order = arrangement(times, false);
    let member = store.in_chain(id);
    let chain = store.chain(id);
    let kept = order.filter(member);
    lemma_chain(store, id);
    lemma_arrangement_is_arrangement(times, false);
    lemma_filter_keeps_order(times, order, false, member);
    assert(kept.no_duplicates()) by {
        assert forall|i: int, j: int| 0 <= i < kept.len() && 0 <= j < kept.len() && i != j implies kept[i]
            != kept[j] by {
            if i < j {
                assert(ahead(times, kept[i], kept[j], false));
            } else {
                assert(ahead(times, kept[j], kept[i], false));
            }
        }
    }
    kept.unique_seq_to_set();
    chain.unique_seq_to_set();
    assert(kept.to_set() =~= chain.to_set()) by {
        assert forall|k: int| kept.to_set().contains(k) implies chain.to_set().contains(k) by {
            let i = choose|i: int| 0 <= i < kept.len() && kept[i] == k;
            assert(member(kept[i]));
        }
        assert forall|k: int| chain.to_set().contains(k) implies kept.to_set().contains(k) by {
            let c = choose|c: int| 0 <= c < chain.len() && chain[c] == k;
            assert(0 <= chain[c] < store.comments.len());
            assert(order.contains(k));
            let at = choose|at: int| 0 <= at < order.len() && order[at] == k;
            assert(member(order[at]));
            order.lemma_filter_contains(member, at);
        }
    }
}

} // verus!

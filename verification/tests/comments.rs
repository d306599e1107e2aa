use news::api::{
    comment_create, comment_create_by, comment_list, comment_with_parents, story_list,
};
use news::model::{
    row_to_comment, Comment, CommentCreateArgs, CommentRecord, LambdaError, Story, Timestamp,
    User,
};
use news::store::{Store, SYSTEM_USER_ID};

fn at(micros: i64) -> Timestamp {
    Timestamp { micros, offset: 0 }
}

fn users() -> Vec<User> {
    vec![
        User { id: SYSTEM_USER_ID, username: String::from("system"), created_at: at(0) },
        User { id: 2, username: String::from("ada"), created_at: at(0) },
    ]
}

fn story(id: i32) -> Story {
    Story {
        id,
        title: format!("story {}", id),
        text: Some(String::from("text")),
        url: None,
        created_at: at(id as i64),
        author_id: SYSTEM_USER_ID,
    }
}

fn record(id: i32, parent_id: Option<i32>, story_id: i32, micros: i64) -> CommentRecord {
    CommentRecord {
        id,
        text: format!("comment {}", id),
        parent_id,
        story_id,
        author_id: 2,
        created_at: at(micros),
    }
}

fn board(comments: Vec<CommentRecord>) -> Store {
    Store::from_rows(users(), vec![story(1), story(2)], comments).expect("valid tables")
}

fn reply(text: &str, parent_id: Option<i32>, story_id: i32) -> CommentCreateArgs {
    CommentCreateArgs { text: String::from(text), parent_id, story_id }
}

fn ids(comments: &[Comment]) -> Vec<i32> {
    let mut out = Vec::new();
    for comment in comments {
        out.push(comment.id);
    }
    out
}

#[test]
fn chain_of_three_is_listed_root_first() {
    let store = board(vec![
        record(1, None, 1, 10),
        record(2, Some(1), 1, 20),
        record(3, Some(2), 1, 30),
        record(4, Some(1), 1, 40),
        record(5, None, 1, 50),
    ]);
    let thread = comment_with_parents(&store, 3);
    assert_eq!(ids(&thread), vec![1, 2, 3]);
    assert_eq!(thread[0].parent_id, None);
    assert_eq!(thread[1].parent_id, Some(1));
    assert_eq!(thread[2].parent_id, Some(2));
    assert_eq!(thread[2].text, "comment 3");
    assert_eq!(thread[2].author_name, "ada");
    assert_eq!(thread[2].story_id, 1);
    assert_eq!(thread[2].created_at, at(30));
}

#[test]
fn thread_of_a_root_is_the_root() {
    let store = board(vec![record(1, None, 1, 10), record(2, Some(1), 1, 20)]);
    assert_eq!(ids(&comment_with_parents(&store, 1)), vec![1]);
}

#[test]
fn thread_of_a_missing_comment_is_empty() {
    let store = board(vec![record(1, None, 1, 10)]);
    assert!(comment_with_parents(&store, 2).is_empty());
    assert!(comment_with_parents(&store, 0).is_empty());
    assert!(comment_with_parents(&store, -4).is_empty());
    let empty = board(vec![]);
    assert!(comment_with_parents(&empty, 1).is_empty());
}

#[test]
fn thread_is_ordered_by_time_not_by_link() {
    let store = board(vec![
        record(1, None, 1, 30),
        record(2, Some(1), 1, 10),
        record(3, Some(2), 1, 20),
    ]);
    assert_eq!(ids(&comment_with_parents(&store, 3)), vec![2, 3, 1]);
}

#[test]
fn comments_of_one_instant_are_threaded_by_id() {
    let store = board(vec![
        record(1, None, 1, 7),
        record(2, Some(1), 1, 7),
        record(3, Some(2), 1, 7),
    ]);
    assert_eq!(ids(&comment_with_parents(&store, 3)), vec![1, 2, 3]);
}

#[test]
fn thread_ends_at_a_missing_parent() {
    let store = board(vec![record(2, Some(1), 1, 10), record(3, Some(2), 1, 20)]);
    assert_eq!(ids(&comment_with_parents(&store, 3)), vec![2, 3]);
}

#[test]
fn thread_ends_on_a_comment_that_answers_itself() {
    let store = board(vec![record(1, Some(1), 1, 10)]);
    assert_eq!(ids(&comment_with_parents(&store, 1)), vec![1]);
}

#[test]
fn thread_ends_on_a_cycle() {
    let store = board(vec![
        record(1, Some(3), 1, 10),
        record(2, Some(1), 1, 20),
        record(3, Some(2), 1, 30),
        record(4, Some(3), 1, 40),
    ]);
    assert_eq!(ids(&comment_with_parents(&store, 4)), vec![1, 2, 3, 4]);
    assert_eq!(ids(&comment_with_parents(&store, 2)), vec![1, 2, 3]);
}

#[test]
fn comments_are_listed_newest_first() {
    let store = board(vec![
        record(1, None, 1, 10),
        record(2, Some(1), 1, 30),
        record(3, None, 2, 25),
        record(4, None, 1, 20),
        record(5, Some(4), 1, 30),
    ]);
    let listed = comment_list(&store, 1);
    assert_eq!(ids(&listed), vec![2, 5, 4, 1]);
    for comment in &listed {
        assert_eq!(comment.story_id, 1);
        assert_eq!(comment.author_name, "ada");
    }
    assert_eq!(ids(&comment_list(&store, 2)), vec![3]);
    assert!(comment_list(&store, 3).is_empty());
}

#[test]
fn listed_comments_match_the_reported_count() {
    let mut store = board(vec![]);
    for n in 0..5 {
        comment_create(&mut store, reply("on one", None, 1), at(n)).expect("valid");
    }
    for n in 0..3 {
        comment_create(&mut store, reply("on two", None, 2), at(n)).expect("valid");
    }
    comment_create(&mut store, reply("answer", Some(1), 1), at(9)).expect("valid");
    for line in story_list(&store, None) {
        let listed = comment_list(&store, line.id);
        assert_eq!(line.comment_count, Some(listed.len() as i32));
    }
    assert_eq!(comment_list(&store, 1).len(), 6);
    assert_eq!(comment_list(&store, 2).len(), 3);
}

#[test]
fn comment_is_stored_with_time_author_and_next_id() {
    let mut store = board(vec![record(4, None, 2, 1)]);
    comment_create(&mut store, reply("hello", Some(4), 2), at(99)).expect("valid");
    let rows = store.comments();
    assert_eq!(rows.len(), 2);
    assert_eq!(rows[1].id, 5);
    assert_eq!(rows[1].text, "hello");
    assert_eq!(rows[1].parent_id, Some(4));
    assert_eq!(rows[1].story_id, 2);
    assert_eq!(rows[1].author_id, SYSTEM_USER_ID);
    assert_eq!(rows[1].created_at, at(99));
    let listed = comment_list(&store, 2);
    assert_eq!(ids(&listed), vec![5, 4]);
    assert_eq!(listed[0].author_name, "system");
}

#[test]
fn first_comment_gets_id_one() {
    let mut store = board(vec![]);
    comment_create(&mut store, reply("hello", None, 1), at(1)).expect("valid");
    assert_eq!(store.comments()[0].id, 1);
}

#[test]
fn empty_comment_is_rejected() {
    let mut store = board(vec![]);
    let outcome = comment_create(&mut store, reply("", None, 1), at(1));
    assert_eq!(
        outcome.err(),
        Some(LambdaError::ValidationError(String::from("text required")))
    );
    assert_eq!(store.comments().len(), 0);
}

#[test]
fn answer_to_a_missing_comment_is_rejected() {
    let mut store = board(vec![record(1, None, 1, 1)]);
    let outcome = comment_create(&mut store, reply("hello", Some(2), 1), at(1));
    assert_eq!(
        outcome.err(),
        Some(LambdaError::ValidationError(String::from(
            "parent must be a comment on the same story"
        )))
    );
    assert_eq!(store.comments().len(), 1);
}

#[test]
fn answer_across_stories_is_rejected() {
    let mut store = board(vec![record(1, None, 1, 1)]);
    let outcome = comment_create(&mut store, reply("hello", Some(1), 2), at(1));
    assert_eq!(
        outcome.err(),
        Some(LambdaError::ValidationError(String::from(
            "parent must be a comment on the same story"
        )))
    );
    assert_eq!(store.comments().len(), 1);
}

#[test]
fn comment_on_a_missing_story_is_refused_by_the_store() {
    let mut store = board(vec![]);
    let outcome = comment_create(&mut store, reply("hello", None, 3), at(1));
    assert_eq!(outcome.err(), Some(LambdaError::InternalServerError));
    assert_eq!(store.comments().len(), 0);
}

#[test]
fn comment_without_system_user_is_refused_by_the_store() {
    let lone = vec![User { id: 2, username: String::from("ada"), created_at: at(0) }];
    let mut only = story(1);
    only.author_id = 2;
    let mut store = Store::from_rows(lone, vec![only], vec![]).expect("valid tables");
    let outcome = comment_create(&mut store, reply("hello", None, 1), at(1));
    assert_eq!(outcome.err(), Some(LambdaError::InternalServerError));
}

#[test]
fn comment_after_the_last_id_is_refused_by_the_store() {
    let mut store = board(vec![record(i32::MAX, None, 1, 1)]);
    let outcome = comment_create(&mut store, reply("hello", None, 1), at(1));
    assert_eq!(outcome.err(), Some(LambdaError::InternalServerError));
    assert_eq!(store.comments().len(), 1);
}

#[test]
fn empty_text_is_reported_before_a_wrong_parent() {
    let mut store = board(vec![]);
    let outcome = comment_create(&mut store, reply("", Some(8), 1), at(1));
    assert_eq!(
        outcome.err(),
        Some(LambdaError::ValidationError(String::from("text required")))
    );
}

#[test]
fn record_is_shown_with_the_author_name() {
    let row = record(3, Some(2), 1, 44);
    let shown = row_to_comment(&row, String::from("grace"));
    assert_eq!(
        shown,
        Comment {
            id: 3,
            text: String::from("comment 3"),
            parent_id: Some(2),
            story_id: 1,
            created_at: at(44),
            author_name: String::from("grace"),
        }
    );
}

#[test]
fn comment_is_attributed_to_the_given_account() {
    let mut store = board(vec![]);
    comment_create_by(&mut store, 2, reply("hello", None, 1), at(5)).expect("valid");
    assert_eq!(store.comments()[0].author_id, 2);
    assert_eq!(comment_list(&store, 1)[0].author_name, "ada");
}

#[test]
fn comment_by_an_unknown_account_is_refused_by_the_store() {
    let mut store = board(vec![]);
    let outcome = comment_create_by(&mut store, 9, reply("hello", None, 1), at(5));
    assert_eq!(outcome.err(), Some(LambdaError::InternalServerError));
    assert_eq!(store.comments().len(), 0);
}

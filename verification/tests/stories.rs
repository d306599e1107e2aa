use news::api::{get_story_page_count, story_create, story_create_by, story_get, story_list};
use news::model::{
    CommentRecord, LambdaError, Story, StoryCreateArgs, StoryListItem, Timestamp, User,
};
use news::pagination::PAGE_SIZE;
use news::store::{Store, SYSTEM_USER_ID};

fn at(micros: i64) -> Timestamp {
    Timestamp { micros, offset: 0 }
}

fn system_user() -> User {
    User { id: SYSTEM_USER_ID, username: String::from("system"), created_at: at(0) }
}

fn board() -> Store {
    Store::from_rows(vec![system_user()], vec![], vec![]).expect("a store with one user is valid")
}

fn args(title: &str, text: Option<&str>, url: Option<&str>) -> StoryCreateArgs {
    StoryCreateArgs {
        title: String::from(title),
        text: text.map(String::from),
        url: url.map(String::from),
    }
}

fn story(id: i32, micros: i64) -> Story {
    Story {
        id,
        title: format!("story {}", id),
        text: Some(String::from("text")),
        url: None,
        created_at: at(micros),
        author_id: SYSTEM_USER_ID,
    }
}

fn ids(items: &[StoryListItem]) -> Vec<i32> {
    let mut out = Vec::new();
    for item in items {
        out.push(item.id);
    }
    out
}

#[test]
fn empty_title_is_rejected() {
    let mut store = board();
    let outcome = story_create(&mut store, args("", Some("text"), None), at(10));
    assert_eq!(
        outcome.err(),
        Some(LambdaError::ValidationError(String::from("title required")))
    );
    assert_eq!(store.stories().len(), 0);
}

#[test]
fn empty_title_is_reported_before_a_missing_body() {
    let mut store = board();
    let outcome = story_create(&mut store, args("", None, None), at(10));
    assert_eq!(
        outcome.err(),
        Some(LambdaError::ValidationError(String::from("title required")))
    );
}

#[test]
fn story_without_text_and_url_is_rejected() {
    let mut store = board();
    let outcome = story_create(&mut store, args("T", None, None), at(10));
    assert_eq!(
        outcome.err(),
        Some(LambdaError::ValidationError(String::from("text or url required")))
    );
    assert_eq!(store.stories().len(), 0);
}

#[test]
fn story_with_empty_text_and_empty_url_is_rejected() {
    let mut store = board();
    let outcome = story_create(&mut store, args("T", Some(""), Some("")), at(10));
    assert_eq!(
        outcome.err(),
        Some(LambdaError::ValidationError(String::from("text or url required")))
    );
    assert_eq!(store.stories().len(), 0);
}

#[test]
fn story_with_title_and_url_is_stored() {
    let mut store = board();
    let created = story_create(&mut store, args("T", None, Some("https://example.com")), at(77))
        .expect("a title and an absolute link are enough");
    assert_eq!(created.id, 1);
    assert_eq!(created.title, "T");
    assert_eq!(created.text, None);
    assert_eq!(created.url, Some(String::from("https://example.com")));
    assert_eq!(created.created_at, at(77));
    assert_eq!(created.author_id, SYSTEM_USER_ID);
    assert_eq!(store.stories().len(), 1);
}

#[test]
fn story_with_title_and_text_is_stored() {
    let mut store = board();
    let created = story_create(&mut store, args("T", Some("body"), None), at(5))
        .expect("a title and a text are enough");
    assert_eq!(created.text, Some(String::from("body")));
    assert_eq!(created.url, None);
}

#[test]
fn relative_link_is_rejected() {
    let mut store = board();
    let outcome = story_create(&mut store, args("T", Some("body"), Some("/just/a/path")), at(5));
    assert_eq!(
        outcome.err(),
        Some(LambdaError::ValidationError(String::from("url must be absolute")))
    );
    assert_eq!(store.stories().len(), 0);
}

#[test]
fn word_without_scheme_is_rejected_as_link() {
    let mut store = board();
    let outcome = story_create(&mut store, args("T", None, Some("http")), at(5));
    assert_eq!(
        outcome.err(),
        Some(LambdaError::ValidationError(String::from("url must be absolute")))
    );
}

#[test]
fn empty_link_beside_a_text_is_rejected() {
    let mut store = board();
    let outcome = story_create(&mut store, args("T", Some("body"), Some("")), at(5));
    assert_eq!(
        outcome.err(),
        Some(LambdaError::ValidationError(String::from("url must be absolute")))
    );
}

#[test]
fn title_of_blanks_is_a_title() {
    let mut store = board();
    let created = story_create(&mut store, args("  ", Some("body"), None), at(5));
    assert!(created.is_ok());
}

#[test]
fn validate_agrees_with_story_create() {
    assert!(args("T", None, Some("ftp://localhost:80")).validate().is_ok());
    assert!(args("T", Some("x"), None).validate().is_ok());
    assert!(args("", Some("x"), None).validate().is_err());
    assert!(args("T", None, Some("no scheme")).validate().is_err());
}

#[test]
fn store_without_system_user_takes_no_story() {
    let mut store = Store::new();
    let outcome = story_create(&mut store, args("T", Some("body"), None), at(5));
    assert_eq!(outcome.err(), Some(LambdaError::InternalServerError));
    assert_eq!(store.stories().len(), 0);
}

#[test]
fn store_with_last_id_used_takes_no_story() {
    let mut store = Store::from_rows(vec![system_user()], vec![story(i32::MAX, 1)], vec![])
        .expect("valid tables");
    let outcome = story_create(&mut store, args("T", Some("body"), None), at(5));
    assert_eq!(outcome.err(), Some(LambdaError::InternalServerError));
    assert_eq!(store.stories().len(), 1);
}

#[test]
fn created_story_is_read_back() {
    let mut store = board();
    let sent = args("Title", Some("Body"), Some("https://example.com/a?b=c"));
    let created = story_create(&mut store, sent.clone(), at(123)).expect("valid submission");
    let found = story_get(&store, created.id).expect("the story was just stored");
    assert_eq!(found.id, created.id);
    assert_eq!(found.title, sent.title);
    assert_eq!(found.text, sent.text);
    assert_eq!(found.url, sent.url);
    assert_eq!(found.created_at, at(123));
    assert_eq!(found.author_id, SYSTEM_USER_ID);
}

#[test]
fn missing_story_is_not_found() {
    let mut store = board();
    assert_eq!(story_get(&store, 1).err(), Some(LambdaError::NotFound));
    story_create(&mut store, args("T", Some("body"), None), at(5)).expect("valid submission");
    assert!(story_get(&store, 1).is_ok());
    assert_eq!(story_get(&store, 2).err(), Some(LambdaError::NotFound));
    assert_eq!(story_get(&store, 0).err(), Some(LambdaError::NotFound));
    assert_eq!(story_get(&store, -1).err(), Some(LambdaError::NotFound));
}

#[test]
fn ids_are_handed_out_once_and_in_order() {
    let mut store = board();
    let mut seen = Vec::new();
    for n in 0..50 {
        let created = story_create(&mut store, args("T", Some("body"), None), at(1000 - n))
            .expect("valid submission");
        assert!(!seen.contains(&created.id));
        if let Some(last) = seen.last() {
            assert!(created.id > *last);
        }
        seen.push(created.id);
    }
    assert_eq!(seen.len(), 50);
    assert_eq!(seen[0], 1);
    assert_eq!(seen[49], 50);
    assert_eq!(store.stories().len(), 50);
    for id in seen {
        assert_eq!(story_get(&store, id).expect("nothing is lost").id, id);
    }
}

#[test]
fn next_id_follows_the_last_row() {
    let mut store = Store::from_rows(vec![system_user()], vec![story(3, 1), story(9, 2)], vec![])
        .expect("valid tables");
    let created = story_create(&mut store, args("T", Some("body"), None), at(5))
        .expect("valid submission");
    assert_eq!(created.id, 10);
}

#[test]
fn empty_board_lists_nothing() {
    let store = board();
    assert!(story_list(&store, None).is_empty());
    assert!(story_list(&store, Some(0)).is_empty());
    assert!(story_list(&store, Some(7)).is_empty());
    assert_eq!(get_story_page_count(&store), 0);
}

#[test]
fn front_page_is_newest_first() {
    let store = Store::from_rows(
        vec![system_user()],
        vec![story(1, 30), story(2, 10), story(3, 20), story(4, 40)],
        vec![],
    )
    .expect("valid tables");
    assert_eq!(ids(&story_list(&store, None)), vec![4, 1, 3, 2]);
}

#[test]
fn stories_of_one_instant_are_listed_by_id() {
    let store = Store::from_rows(
        vec![system_user()],
        vec![story(1, 5), story(2, 9), story(3, 5), story(4, 9), story(5, 5)],
        vec![],
    )
    .expect("valid tables");
    assert_eq!(ids(&story_list(&store, Some(0))), vec![2, 4, 1, 3, 5]);
}

#[test]
fn pages_split_the_listing() {
    let mut store = board();
    for n in 0..70 {
        story_create(&mut store, args("T", Some("body"), None), at(n)).expect("valid submission");
    }
    let first = story_list(&store, None);
    let also_first = story_list(&store, Some(0));
    let second = story_list(&store, Some(1));
    let third = story_list(&store, Some(2));
    let fourth = story_list(&store, Some(3));
    assert_eq!(first.len(), 32);
    assert_eq!(ids(&first), ids(&also_first));
    assert_eq!(second.len(), 32);
    assert_eq!(third.len(), 6);
    assert!(fourth.is_empty());
    assert!(story_list(&store, Some(i64::MAX)).is_empty());
    let mut all = ids(&first);
    all.extend(ids(&second));
    all.extend(ids(&third));
    let mut expected = Vec::new();
    for id in (1..=70).rev() {
        expected.push(id);
    }
    assert_eq!(all, expected);
}

#[test]
fn no_page_is_longer_than_the_page_size() {
    let mut store = board();
    for n in 0..100 {
        story_create(&mut store, args("T", Some("body"), None), at(n % 7)).expect("valid");
    }
    for page in 0..6 {
        let items = story_list(&store, Some(page));
        assert!(items.len() as i64 <= PAGE_SIZE);
        for pair in items.windows(2) {
            let (a, b) = (&pair[0], &pair[1]);
            assert!(
                a.created_at.micros > b.created_at.micros
                    || (a.created_at.micros == b.created_at.micros && a.id < b.id)
            );
        }
    }
}

#[test]
fn page_count_keeps_its_extra_page() {
    let mut store = board();
    assert_eq!(get_story_page_count(&store), 0);
    story_create(&mut store, args("T", Some("body"), None), at(0)).expect("valid");
    assert_eq!(get_story_page_count(&store), 1);
    for n in 1..31 {
        story_create(&mut store, args("T", Some("body"), None), at(n)).expect("valid");
    }
    assert_eq!(store.stories().len(), 31);
    assert_eq!(get_story_page_count(&store), 1);
    story_create(&mut store, args("T", Some("body"), None), at(31)).expect("valid");
    assert_eq!(store.stories().len(), 32);
    assert_eq!(get_story_page_count(&store), 2);
    story_create(&mut store, args("T", Some("body"), None), at(32)).expect("valid");
    assert_eq!(get_story_page_count(&store), 2);
    for n in 33..64 {
        story_create(&mut store, args("T", Some("body"), None), at(n)).expect("valid");
    }
    assert_eq!(store.stories().len(), 64);
    assert_eq!(get_story_page_count(&store), 3);
}

#[test]
fn front_page_line_carries_author_rating_and_count() {
    let users = vec![
        system_user(),
        User { id: 2, username: String::from("ada"), created_at: at(0) },
    ];
    let mut second = story(2, 20);
    second.author_id = 2;
    second.url = Some(String::from("https://example.com"));
    let comments = vec![
        CommentRecord {
            id: 1,
            text: String::from("a"),
            parent_id: None,
            story_id: 2,
            author_id: 1,
            created_at: at(21),
        },
        CommentRecord {
            id: 2,
            text: String::from("b"),
            parent_id: Some(1),
            story_id: 2,
            author_id: 2,
            created_at: at(22),
        },
        CommentRecord {
            id: 3,
            text: String::from("c"),
            parent_id: None,
            story_id: 1,
            author_id: 2,
            created_at: at(23),
        },
    ];
    let store = Store::from_rows(users, vec![story(1, 10), second], comments).expect("valid");
    let items = story_list(&store, None);
    assert_eq!(items.len(), 2);
    assert_eq!(items[0].id, 2);
    assert_eq!(items[0].title, "story 2");
    assert_eq!(items[0].text, Some(String::from("text")));
    assert_eq!(items[0].url, Some(String::from("https://example.com")));
    assert_eq!(items[0].created_at, at(20));
    assert_eq!(items[0].author_name, "ada");
    assert_eq!(items[0].rating, Some(0));
    assert_eq!(items[0].comment_count, Some(2));
    assert_eq!(items[1].id, 1);
    assert_eq!(items[1].author_name, "system");
    assert_eq!(items[1].rating, Some(0));
    assert_eq!(items[1].comment_count, Some(1));
}

#[test]
fn line_turns_into_story_without_author() {
    let line = StoryListItem {
        id: 7,
        title: String::from("T"),
        text: Some(String::from("body")),
        url: None,
        created_at: at(9),
        author_name: String::from("ada"),
        rating: Some(0),
        comment_count: Some(3),
    };
    let story: Story = line.clone().into();
    assert_eq!(story.id, 7);
    assert_eq!(story.title, "T");
    assert_eq!(story.text, Some(String::from("body")));
    assert_eq!(story.url, None);
    assert_eq!(story.created_at, at(9));
    assert_eq!(story.author_id, 0);
    let again = Story::from(line);
    assert_eq!(again.id, 7);
    assert_eq!(again.author_id, 0);
}

#[test]
fn story_is_attributed_to_the_given_account() {
    let users = vec![
        system_user(),
        User { id: 7, username: String::from("ada"), created_at: at(0) },
    ];
    let mut store = Store::from_rows(users, vec![], vec![]).expect("valid tables");
    let created = story_create_by(&mut store, 7, args("T", Some("body"), None), at(3))
        .expect("valid submission");
    assert_eq!(created.author_id, 7);
    assert_eq!(created.id, 1);
    assert_eq!(story_list(&store, None)[0].author_name, "ada");
}

#[test]
fn story_by_an_unknown_account_is_refused_by_the_store() {
    let mut store = board();
    let outcome = story_create_by(&mut store, 7, args("T", Some("body"), None), at(3));
    assert_eq!(outcome.err(), Some(LambdaError::InternalServerError));
    assert_eq!(store.stories().len(), 0);
}

#[test]
fn rules_come_before_the_account() {
    let mut store = board();
    let outcome = story_create_by(&mut store, 7, args("", Some("body"), None), at(3));
    assert_eq!(
        outcome.err(),
        Some(LambdaError::ValidationError(String::from("title required")))
    );
}

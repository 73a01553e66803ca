use hackernews::app::{App, Cmd, FetchStatus, Msg, Request};
use hackernews::content::Content;
use hackernews::error::ServerError;
use hackernews::types::{Comment, StoryItem, StoryPageData, StorySorting, UserData};

fn preview(id: i64) -> StoryItem {
    StoryItem {
        id,
        title: format!("story {}", id),
        url: None,
        text: Some("text".to_string()),
        by: "poster".to_string(),
        score: 3,
        descendants: 0,
        time: 1_650_000_000,
        kids: vec![],
        type_tag: "story".to_string(),
    }
}

fn page(id: i64) -> StoryPageData {
    StoryPageData {
        id,
        title: format!("story {}", id),
        url: None,
        text: None,
        by: "poster".to_string(),
        score: 3,
        descendants: 1,
        time: 1_650_000_000,
        kids: vec![id + 1],
        type_tag: "story".to_string(),
        comments: vec![comment(id + 1)],
    }
}

fn comment(id: i64) -> Comment {
    Comment {
        id,
        by: String::new(),
        text: "deleted".to_string(),
        time: 1_650_000_001,
        kids: vec![],
        sub_comments: vec![],
        type_tag: "comment".to_string(),
    }
}

fn user() -> UserData {
    UserData {
        id: "pg".to_string(),
        karma: 1,
        about: String::new(),
        submitted: vec![1],
        stories: vec![preview(1)],
    }
}

fn navigations() -> Vec<(Msg, Request, &'static str)> {
    vec![
        (Msg::FetchStories, Request::Stories, "/"),
        (Msg::FetchStoriesSorted(StorySorting::Top), Request::StoriesSorted(StorySorting::Top), "/top"),
        (Msg::FetchStoriesSorted(StorySorting::New), Request::StoriesSorted(StorySorting::New), "/new"),
        (Msg::FetchStoriesSorted(StorySorting::Best), Request::StoriesSorted(StorySorting::Best), "/best"),
        (Msg::FetchStoriesSorted(StorySorting::Show), Request::StoriesSorted(StorySorting::Show), "/show"),
        (Msg::FetchStoriesSorted(StorySorting::Ask), Request::StoriesSorted(StorySorting::Ask), "/ask"),
        (Msg::OpenStory(8863), Request::StoryPage(8863), "/item/8863"),
        (Msg::OpenStory(-3), Request::StoryPage(-3), "/item/-3"),
        (Msg::ShowCommentPermalink(17), Request::CommentPermalink(17), "/comment/17"),
        (Msg::ShowUserPage("pg".to_string()), Request::UserPage("pg".to_string()), "/user/pg"),
        (Msg::ShowUserPage(String::new()), Request::UserPage(String::new()), "/user/"),
    ]
}

#[test]
fn the_default_state_is_idle_and_loading() {
    let app = App::default();
    assert_eq!(app.content, FetchStatus::Idle);
    assert!(app.is_loading());
}

#[test]
fn snapshots_hold_their_content_and_are_not_loading() {
    let app = App::with_stories(vec![preview(1), preview(2)]);
    assert_eq!(app.content, FetchStatus::Complete(Content::Stories(vec![preview(1), preview(2)])));
    assert!(!app.is_loading());
    let app = App::with_story(page(5));
    assert_eq!(app.content, FetchStatus::Complete(Content::StoryPage(page(5))));
    assert!(!app.is_loading());
    let app = App::with_user_page(user());
    assert_eq!(app.content, FetchStatus::Complete(Content::UserPage(user())));
    assert!(!app.is_loading());
    let app = App::with_comment_permalink(comment(9));
    assert_eq!(app.content, FetchStatus::Complete(Content::CommentPermalink(comment(9))));
    assert!(!app.is_loading());
    let app = App::with_content(Content::from(comment(9)));
    assert_eq!(app, App::with_comment_permalink(comment(9)));
}

#[test]
fn content_is_made_from_each_payload() {
    assert_eq!(Content::from(vec![preview(1)]), Content::Stories(vec![preview(1)]));
    assert_eq!(Content::from(page(1)), Content::StoryPage(page(1)));
    assert_eq!(Content::from(comment(1)), Content::CommentPermalink(comment(1)));
    assert_eq!(Content::from(user()), Content::UserPage(user()));
    let c = Content::from(page(1));
    assert_eq!(c.clone(), c);
}

#[test]
fn a_navigation_pushes_its_path_then_fetches_and_starts_loading() {
    for (msg, request, url) in navigations() {
        let mut app = App::with_stories(vec![preview(1)]);
        let cmds = app.update(msg);
        assert_eq!(cmds, vec![Cmd::PushUrl(url.to_string()), Cmd::Fetch(request)]);
        assert!(app.is_loading());
        assert_eq!(app.content, FetchStatus::Complete(Content::Stories(vec![preview(1)])));
    }
}

#[test]
fn a_pushed_path_fed_back_fetches_the_same_without_pushing() {
    for (msg, request, _) in navigations() {
        let mut app = App::default();
        let cmds = app.update(msg);
        let pushed = match &cmds[0] {
            Cmd::PushUrl(url) => url.clone(),
            other => panic!("no path was pushed first: {:?}", other),
        };
        assert_eq!(cmds[1], Cmd::Fetch(Request::from_url(&pushed).unwrap()));
        let mut back = App::with_story(page(1));
        let cmds = back.update(Msg::UrlChanged(pushed));
        assert_eq!(cmds, vec![Cmd::Fetch(request), Cmd::ScrollToTop]);
        assert!(back.is_loading());
        assert_eq!(back.content, FetchStatus::Complete(Content::StoryPage(page(1))));
    }
}

#[test]
fn a_user_name_with_a_slash_does_not_come_back_from_its_path() {
    let mut app = App::default();
    let cmds = app.update(Msg::ShowUserPage("a/b".to_string()));
    assert_eq!(
        cmds,
        vec![Cmd::PushUrl("/user/a/b".to_string()), Cmd::Fetch(Request::UserPage("a/b".to_string()))]
    );
    assert_eq!(Request::from_url("/user/a/b"), Some(Request::UserPage("a".to_string())));
}

#[test]
fn content_that_arrives_is_shown_ends_loading_and_scrolls_up() {
    let mut app = App::default();
    app.update(Msg::OpenStory(5));
    let cmds = app.update(Msg::ReceivedContent(Content::StoryPage(page(5))));
    assert_eq!(cmds, vec![Cmd::ScrollToTop]);
    assert_eq!(app, App::with_story(page(5)));
}

#[test]
fn a_failure_is_shown_with_its_message_and_ends_loading() {
    let mut app = App::with_stories(vec![]);
    app.update(Msg::FetchStories);
    let cmds = app.update(Msg::RequestError(ServerError::Reqwest("connection reset".to_string())));
    assert_eq!(cmds, vec![]);
    assert_eq!(app.content, FetchStatus::Error("reqwest error: connection reset".to_string()));
    assert!(!app.is_loading());
}

#[test]
fn no_op_changes_nothing() {
    for mut app in [App::default(), App::with_story(page(1))] {
        let before = app.clone();
        assert_eq!(app.update(Msg::NoOp), vec![]);
        assert_eq!(app, before);
    }
}

#[test]
fn an_address_that_stands_for_nothing_only_scrolls_up() {
    for url in ["/nowhere", "", "/item/x", "/items/3", "/job", "/top/", "/user", " /top", "/comment/"] {
        let mut app = App::with_story(page(1));
        let cmds = app.update(Msg::UrlChanged(url.to_string()));
        assert_eq!(cmds, vec![Cmd::ScrollToTop], "on {:?}", url);
        assert_eq!(app, App::with_story(page(1)));
    }
}

#[test]
fn an_address_is_held_against_the_routes_in_order() {
    assert_eq!(Request::from_url("/"), Some(Request::Stories));
    assert_eq!(Request::from_url(" / "), Some(Request::Stories));
    assert_eq!(Request::from_url("/top"), Some(Request::StoriesSorted(StorySorting::Top)));
    assert_eq!(Request::from_url("/ask"), Some(Request::StoriesSorted(StorySorting::Ask)));
    assert_eq!(Request::from_url("/item/12"), Some(Request::StoryPage(12)));
    assert_eq!(Request::from_url("/item/12/comment/3"), Some(Request::StoryPage(12)));
    assert_eq!(Request::from_url("/comment/12"), Some(Request::CommentPermalink(12)));
    assert_eq!(Request::from_url("/user/top"), Some(Request::UserPage("top".to_string())));
    assert_eq!(Request::from_url("/user/"), Some(Request::UserPage(String::new())));
    assert_eq!(Request::from_url("/item/ 12"), None);
    assert_eq!(Request::from_url("//"), None);
}

#[test]
fn the_canonical_paths_of_requests() {
    assert_eq!(Request::Stories.to_url(), "/");
    assert_eq!(Request::StoriesSorted(StorySorting::Show).to_url(), "/show");
    assert_eq!(Request::StoryPage(1).to_url(), "/item/1");
    assert_eq!(Request::CommentPermalink(2).to_url(), "/comment/2");
    assert_eq!(Request::UserPage("dang".to_string()).to_url(), "/user/dang");
}

#[test]
fn a_late_result_overwrites_a_newer_navigation() {
    let mut app = App::default();
    app.update(Msg::OpenStory(1));
    app.update(Msg::OpenStory(2));
    app.update(Msg::ReceivedContent(Content::StoryPage(page(2))));
    app.update(Msg::ReceivedContent(Content::StoryPage(page(1))));
    assert_eq!(app, App::with_story(page(1)));
}

#[test]
fn the_outcome_of_a_fetch_becomes_an_event() {
    assert_eq!(
        Msg::fetched(Ok(Content::Stories(vec![preview(1)]))),
        Msg::ReceivedContent(Content::Stories(vec![preview(1)]))
    );
    assert_eq!(
        Msg::fetched(Err(ServerError::SerdeJson("eof".to_string()))),
        Msg::RequestError(ServerError::SerdeJson("eof".to_string()))
    );
}

#[test]
fn a_client_starts_from_the_snapshot_it_was_handed() {
    let app = App::hydrate(Some(App::with_user_page(user())));
    assert_eq!(app, App::with_user_page(user()));
    assert_eq!(app.init("/user/pg"), vec![Cmd::ListenToUrlChanges]);
}

#[test]
fn a_client_without_a_snapshot_fetches_for_the_current_path() {
    let app = App::hydrate(None);
    assert_eq!(app, App::default());
    assert_eq!(
        app.init("/item/5"),
        vec![Cmd::ListenToUrlChanges, Cmd::Fetch(Request::StoryPage(5))]
    );
    assert_eq!(app.init("/"), vec![Cmd::ListenToUrlChanges, Cmd::Fetch(Request::Stories)]);
    assert_eq!(
        app.init("/best"),
        vec![Cmd::ListenToUrlChanges, Cmd::Fetch(Request::StoriesSorted(StorySorting::Best))]
    );
    assert_eq!(app.init("/nowhere"), vec![Cmd::ListenToUrlChanges, Cmd::Fetch(Request::Stories)]);
}

#[test]
fn idle_is_left_for_good_once_something_arrived() {
    let mut app = App::default();
    app.update(Msg::RequestError(ServerError::Reqwest("down".to_string())));
    for (msg, _, _) in navigations() {
        app.update(msg);
        assert_ne!(app.content, FetchStatus::Idle);
    }
    app.update(Msg::UrlChanged("/nowhere".to_string()));
    app.update(Msg::NoOp);
    assert_ne!(app.content, FetchStatus::Idle);
}

#[test]
fn a_copy_of_a_status_is_equal_to_it() {
    let idle: FetchStatus<Content> = FetchStatus::Idle;
    assert_eq!(idle.clone(), idle);
    let complete = FetchStatus::Complete(Content::StoryPage(page(3)));
    assert_eq!(complete.clone(), complete);
    let failed: FetchStatus<Content> = FetchStatus::Error("json error: eof".to_string());
    assert_eq!(failed.clone(), failed);
    let app = App::new(FetchStatus::Complete(Content::UserPage(user())), true);
    assert_eq!(app.clone(), app);
    assert!(app.is_loading());
}

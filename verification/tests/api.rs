use hackernews::api::{
    get_comment, get_comment_with_depth, get_stories, get_stories_with_sorting, get_story,
    get_story_preview, get_user_page, item_url, stories_url, user_url, CommentRequest,
    PreviewLookup, PreviewRequest, StoriesRequest, StoryLookup, StoryRequest, COMMENT_DEPTH,
    STORIES_COUNT, SUBMISSIONS_COUNT,
};
use hackernews::cache::Cache;
use hackernews::error::ServerError;
use hackernews::forest::COMMENT_WIDTH;
use hackernews::types::{Comment, StoryItem, StoryPageData, StorySorting, UserData};
use std::collections::HashMap;

/// A remote source held in memory, which records what was asked of it.
struct Source {
    comments: HashMap<i64, Comment>,
    stories: HashMap<i64, StoryPageData>,
    ranked: HashMap<String, Vec<i64>>,
    users: HashMap<String, UserData>,
    asked: Vec<i64>,
    addresses: Vec<String>,
}

fn missing(id: i64) -> ServerError {
    ServerError::SerdeJson(format!("no item {}", id))
}

fn comment(id: i64, kids: Vec<i64>) -> Comment {
    Comment {
        id,
        by: format!("user{}", id),
        text: format!("comment {}", id),
        time: 1_700_000_000 + id,
        kids,
        sub_comments: vec![],
        type_tag: "comment".to_string(),
    }
}

fn with_replies(mut c: Comment, replies: Vec<Comment>) -> Comment {
    c.sub_comments = replies;
    c
}

fn story(id: i64, kids: Vec<i64>) -> StoryPageData {
    StoryPageData {
        id,
        title: format!("story {}", id),
        url: Some(format!("https://example.com/{}", id)),
        text: None,
        by: "poster".to_string(),
        score: 100 + id,
        descendants: 5,
        time: 1_700_000_000,
        kids,
        type_tag: "story".to_string(),
        comments: vec![],
    }
}

impl Source {
    fn new() -> Source {
        Source {
            comments: HashMap::new(),
            stories: HashMap::new(),
            ranked: HashMap::new(),
            users: HashMap::new(),
            asked: vec![],
            addresses: vec![],
        }
    }

    fn with_comments(comments: Vec<Comment>) -> Source {
        let mut source = Source::new();
        for c in comments {
            source.comments.insert(c.id, c);
        }
        source
    }

    fn with_stories(mut self, stories: Vec<StoryPageData>) -> Source {
        for s in stories {
            self.stories.insert(s.id, s);
        }
        self
    }

    fn with_ranked(mut self, sort: StorySorting, ids: Vec<i64>) -> Source {
        self.ranked.insert(stories_url(sort), ids);
        self
    }

    fn with_user(mut self, user: UserData) -> Source {
        self.users.insert(user_url(&user.id), user);
        self
    }

    fn ranked(&mut self, url: String) -> Result<Vec<i64>, ServerError> {
        let found = self.ranked.get(&url).cloned();
        self.addresses.push(url);
        found.ok_or(ServerError::Reqwest("no such list".to_string()))
    }

    fn user(&mut self, url: String) -> Result<UserData, ServerError> {
        let found = self.users.get(&url).cloned();
        self.addresses.push(url);
        found.ok_or(ServerError::SerdeJson("no such user".to_string()))
    }

    fn comment(&mut self, id: i64) -> Result<Comment, ServerError> {
        self.asked.push(id);
        self.comments.get(&id).cloned().ok_or(missing(id))
    }

    fn story(&mut self, id: i64) -> Result<StoryPageData, ServerError> {
        self.asked.push(id);
        self.stories.get(&id).cloned().ok_or(missing(id))
    }

    fn preview(&mut self, id: i64) -> Result<StoryItem, ServerError> {
        self.asked.push(id);
        self.stories.get(&id).map(|s| s.preview()).ok_or(missing(id))
    }
}

fn id_in(url: &str) -> i64 {
    let name = url.rsplit('/').next().unwrap();
    name.strip_suffix(".json").unwrap().parse().unwrap()
}

fn run_comment(source: &mut Source, id: i64, depth: i64) -> Result<Comment, ServerError> {
    let request = get_comment_with_depth(id, depth);
    assert_eq!(request.url(), item_url(id));
    let mut fetch = request.fetched(source.comment(id))?;
    while !fetch.is_complete() {
        let responses = fetch.requests().into_iter().map(|id| source.comment(id)).collect();
        fetch.supply(&responses);
    }
    Ok(fetch.finish())
}

fn run_story(cache: &mut Cache, source: &mut Source, id: i64) -> Result<StoryPageData, ServerError> {
    let request = match get_story(cache, id) {
        StoryLookup::Cached(page) => return Ok(page),
        StoryLookup::Missing(request) => request,
    };
    let response = source.story(id_in(&request.url()));
    let mut fetch = request.fetched(response)?;
    while !fetch.is_complete() {
        let responses = fetch.requests().into_iter().map(|id| source.comment(id)).collect();
        fetch.supply(&responses);
    }
    Ok(fetch.finish(cache))
}

fn run_stories(
    cache: &mut Cache,
    source: &mut Source,
    ranked: Result<Vec<i64>, ServerError>,
) -> Result<Vec<StoryItem>, ServerError> {
    let batch = get_stories().fetched(cache, ranked)?;
    let responses = batch.requests().into_iter().map(|id| source.preview(id)).collect();
    Ok(batch.complete(cache, &responses))
}

fn run_user(
    cache: &mut Cache,
    source: &mut Source,
    user: Result<UserData, ServerError>,
) -> Result<UserData, ServerError> {
    let fetch = get_user_page(&"pg".to_string()).fetched(cache, user)?;
    let responses = fetch.requests().into_iter().map(|id| source.preview(id)).collect();
    Ok(fetch.finish(cache, &responses))
}

/// A thread of comments: `id` has the children `10 * id + 1 ..= 10 * id + width`, down to
/// `levels` levels below `root`.
fn thread(root: i64, width: i64, levels: u32) -> Vec<Comment> {
    let mut all = vec![];
    let mut level = vec![root];
    for l in 0..=levels {
        let mut next = vec![];
        for id in level {
            let kids: Vec<i64> = if l < levels { (1..=width).map(|k| 10 * id + k).collect() } else { vec![] };
            next.extend(kids.iter().copied());
            all.push(comment(id, kids));
        }
        level = next;
    }
    all
}

fn depth_of(c: &Comment) -> usize {
    c.sub_comments.iter().map(|s| 1 + depth_of(s)).max().unwrap_or(0)
}

#[test]
fn the_truncation_constants() {
    assert_eq!(STORIES_COUNT, 20);
    assert_eq!(COMMENT_DEPTH, 3);
    assert_eq!(COMMENT_WIDTH, 3);
    assert_eq!(SUBMISSIONS_COUNT, 30);
}

#[test]
fn addresses_of_the_remote_source() {
    assert_eq!(
        stories_url(StorySorting::Top),
        "https://hacker-news.firebaseio.com/v0/topstories.json"
    );
    assert_eq!(
        stories_url(StorySorting::New),
        "https://hacker-news.firebaseio.com/v0/newstories.json"
    );
    assert_eq!(
        stories_url(StorySorting::Best),
        "https://hacker-news.firebaseio.com/v0/beststories.json"
    );
    assert_eq!(
        stories_url(StorySorting::Show),
        "https://hacker-news.firebaseio.com/v0/showstories.json"
    );
    assert_eq!(
        stories_url(StorySorting::Ask),
        "https://hacker-news.firebaseio.com/v0/askstories.json"
    );
    assert_eq!(item_url(8863), "https://hacker-news.firebaseio.com/v0/item/8863.json");
    assert_eq!(item_url(-1), "https://hacker-news.firebaseio.com/v0/item/-1.json");
    assert_eq!(user_url("pg"), "https://hacker-news.firebaseio.com/v0/user/pg.json");
}

#[test]
fn a_comment_at_depth_zero_has_no_replies_though_it_has_children() {
    let mut source = Source::with_comments(thread(1, 3, 2));
    let c = run_comment(&mut source, 1, 0).unwrap();
    assert_eq!(c, comment(1, vec![11, 12, 13]));
    assert_eq!(source.asked, vec![1]);
}

#[test]
fn a_negative_depth_counts_as_zero() {
    let mut source = Source::with_comments(thread(1, 3, 2));
    let c = run_comment(&mut source, 1, -4).unwrap();
    assert_eq!(c, comment(1, vec![11, 12, 13]));
    assert_eq!(source.asked, vec![1]);
}

#[test]
fn replies_that_came_with_the_response_are_dropped() {
    let stale = with_replies(comment(1, vec![2]), vec![comment(77, vec![])]);
    let mut source = Source::with_comments(vec![stale, comment(2, vec![])]);
    assert_eq!(run_comment(&mut source, 1, 0).unwrap(), comment(1, vec![2]));
    assert_eq!(
        run_comment(&mut source, 1, 1).unwrap(),
        with_replies(comment(1, vec![2]), vec![comment(2, vec![])])
    );
}

#[test]
fn a_comment_at_depth_one_has_its_first_three_children_without_replies() {
    let mut source = Source::with_comments(thread(1, 5, 2));
    let c = run_comment(&mut source, 1, 1).unwrap();
    let expected = with_replies(
        comment(1, vec![11, 12, 13, 14, 15]),
        vec![
            comment(11, vec![111, 112, 113, 114, 115]),
            comment(12, vec![121, 122, 123, 124, 125]),
            comment(13, vec![131, 132, 133, 134, 135]),
        ],
    );
    assert_eq!(c, expected);
    assert_eq!(source.asked, vec![1, 11, 12, 13]);
}

#[test]
fn a_comment_with_fewer_children_than_the_width_has_them_all() {
    let mut source = Source::with_comments(thread(1, 2, 1));
    let c = run_comment(&mut source, 1, 3).unwrap();
    assert_eq!(
        c,
        with_replies(comment(1, vec![11, 12]), vec![comment(11, vec![]), comment(12, vec![])])
    );
    assert_eq!(source.asked, vec![1, 11, 12]);
}

#[test]
fn each_child_is_fetched_one_level_less_deep() {
    let mut source = Source::with_comments(thread(1, 3, 6));
    for depth in 1..=4 {
        let whole = run_comment(&mut source, 1, depth).unwrap();
        assert_eq!(whole.sub_comments.len(), 3);
        for (k, child) in whole.sub_comments.iter().enumerate() {
            let alone = run_comment(&mut source, 11 + k as i64, depth - 1).unwrap();
            assert_eq!(child, &alone);
        }
        assert_eq!(depth_of(&whole), depth as usize);
    }
}

#[test]
fn a_permalink_is_three_levels_deep() {
    let mut source = Source::with_comments(thread(1, 4, 5));
    let request = get_comment(1);
    assert_eq!(request, CommentRequest { comment_id: 1, depth: 3 });
    let mut fetch = request.fetched(source.comment(1)).ok().unwrap();
    let mut rounds = vec![];
    while !fetch.is_complete() {
        let ids = fetch.requests();
        let responses = ids.iter().map(|id| source.comment(*id)).collect();
        rounds.push(ids);
        fetch.supply(&responses);
    }
    let c = fetch.finish();
    assert_eq!(rounds.len(), 3);
    assert_eq!(rounds[0], vec![11, 12, 13]);
    assert_eq!(rounds[1], vec![111, 112, 113, 121, 122, 123, 131, 132, 133]);
    assert_eq!(rounds[2].len(), 27);
    assert_eq!(rounds[2][0], 1111);
    assert_eq!(rounds[2][26], 1333);
    assert_eq!(depth_of(&c), 3);
    assert_eq!(c, run_comment(&mut source, 1, COMMENT_DEPTH).unwrap());
    assert_eq!(c.sub_comments[2].sub_comments[0].sub_comments[1].id, 1312);
    assert!(c.sub_comments[2].sub_comments[0].sub_comments[1].sub_comments.is_empty());
}

#[test]
fn a_failed_reply_is_left_out_and_the_others_keep_their_order() {
    let mut comments = thread(1, 3, 2);
    comments.retain(|c| c.id != 12 && c.id != 131);
    let mut source = Source::with_comments(comments);
    let c = run_comment(&mut source, 1, 2).unwrap();
    let expected = with_replies(
        comment(1, vec![11, 12, 13]),
        vec![
            with_replies(
                comment(11, vec![111, 112, 113]),
                vec![comment(111, vec![]), comment(112, vec![]), comment(113, vec![])],
            ),
            with_replies(
                comment(13, vec![131, 132, 133]),
                vec![comment(132, vec![]), comment(133, vec![])],
            ),
        ],
    );
    assert_eq!(c, expected);
    assert_eq!(source.asked, vec![1, 11, 12, 13, 111, 112, 113, 131, 132, 133]);
}

#[test]
fn a_failure_of_the_comment_itself_is_returned() {
    let mut source = Source::with_comments(vec![]);
    assert_eq!(run_comment(&mut source, 5, 3), Err(missing(5)));
    let down = ServerError::Reqwest("down".to_string());
    assert!(matches!(get_comment_with_depth(5, 3).fetched(Err(down.clone())), Err(e) if e == down));
    assert!(matches!(get_comment(5).fetched(Err(down.clone())), Err(e) if e == down));
}

#[test]
fn responses_that_are_wanting_count_as_failed() {
    let mut source = Source::with_comments(thread(1, 3, 1));
    let mut fetch = get_comment_with_depth(1, 1).fetched(source.comment(1)).ok().unwrap();
    assert_eq!(fetch.requests(), vec![11, 12, 13]);
    fetch.supply(&vec![source.comment(11)]);
    assert!(fetch.is_complete());
    assert_eq!(fetch.finish(), with_replies(comment(1, vec![11, 12, 13]), vec![comment(11, vec![])]));
}

#[test]
fn responses_beyond_the_requests_are_ignored() {
    let mut source = Source::with_comments(thread(1, 1, 1));
    let mut fetch = get_comment_with_depth(1, 1).fetched(source.comment(1)).ok().unwrap();
    assert_eq!(fetch.requests(), vec![11]);
    fetch.supply(&vec![source.comment(11), Ok(comment(99, vec![]))]);
    assert_eq!(fetch.finish(), with_replies(comment(1, vec![11]), vec![comment(11, vec![])]));
}

#[test]
fn a_complete_fetch_asks_for_nothing_and_takes_nothing_in() {
    let mut source = Source::with_comments(thread(1, 3, 3));
    let mut fetch = get_comment_with_depth(1, 1).fetched(source.comment(1)).ok().unwrap();
    let responses = fetch.requests().into_iter().map(|id| source.comment(id)).collect();
    fetch.supply(&responses);
    assert!(fetch.is_complete());
    assert_eq!(fetch.requests(), Vec::<i64>::new());
    fetch.supply(&vec![Ok(comment(99, vec![]))]);
    assert_eq!(fetch.finish(), run_comment(&mut source, 1, 1).unwrap());
}

#[test]
fn scenario_story_with_four_children_fetches_the_first_three() {
    let mut comments = thread(11, 3, 4);
    comments.extend(thread(12, 3, 4));
    comments.extend(thread(13, 3, 4));
    comments.extend(thread(14, 3, 4));
    let mut source =
        Source::with_comments(comments).with_stories(vec![story(10, vec![11, 12, 13, 14])]);
    let mut cache = Cache::new();
    let page = run_story(&mut cache, &mut source, 10).unwrap();
    let ids: Vec<i64> = page.comments.iter().map(|c| c.id).collect();
    assert_eq!(ids, vec![11, 12, 13]);
    for c in &page.comments {
        assert_eq!(depth_of(c), 3);
        let alone = run_comment(&mut Source::with_comments(thread(c.id, 3, 4)), c.id, 3).unwrap();
        assert_eq!(c, &alone);
    }
    assert!(!source.asked.contains(&14));
    assert!(source.asked.iter().all(|id| !id.to_string().starts_with("14")));
    assert_eq!(source.asked.len(), 1 + 3 + 9 + 27 + 81);
    assert_eq!(page.preview(), story(10, vec![11, 12, 13, 14]).preview());
}

#[test]
fn scenario_cold_cache_second_story_call_asks_nothing() {
    let mut source = Source::with_comments(thread(11, 2, 2)).with_stories(vec![story(10, vec![11])]);
    let mut cache = Cache::new();
    let first = run_story(&mut cache, &mut source, 10).unwrap();
    let asked = source.asked.len();
    assert!(asked > 0);
    let second = run_story(&mut cache, &mut source, 10).unwrap();
    assert_eq!(second, first);
    assert_eq!(source.asked.len(), asked);
    assert_eq!(get_story(&mut cache, 10), StoryLookup::Cached(first));
}

#[test]
fn a_cached_story_is_not_refreshed() {
    let mut source = Source::with_comments(vec![]).with_stories(vec![story(10, vec![])]);
    let mut cache = Cache::new();
    let first = run_story(&mut cache, &mut source, 10).unwrap();
    let mut changed = story(10, vec![]);
    changed.score = 1;
    source.stories.insert(10, changed);
    assert_eq!(run_story(&mut cache, &mut source, 10).unwrap(), first);
}

#[test]
fn a_story_that_cannot_be_fetched_fails_and_is_not_cached() {
    let mut source = Source::new();
    let mut cache = Cache::new();
    assert_eq!(run_story(&mut cache, &mut source, 10), Err(missing(10)));
    assert_eq!(get_story(&mut cache, 10), StoryLookup::Missing(StoryRequest { story_id: 10 }));
    assert_eq!(source.asked, vec![10]);
}

#[test]
fn a_story_whose_comments_all_fail_has_none() {
    let mut source = Source::new().with_stories(vec![story(10, vec![11, 12])]);
    let mut cache = Cache::new();
    let page = run_story(&mut cache, &mut source, 10).unwrap();
    assert_eq!(page, story(10, vec![11, 12]));
    assert_eq!(source.asked, vec![10, 11, 12]);
}

#[test]
fn a_story_page_is_cached_under_the_id_asked_for() {
    let mut cache = Cache::new();
    let mut fetch = StoryRequest { story_id: 5 }.fetched(Ok(story(6, vec![]))).ok().unwrap();
    while !fetch.is_complete() {
        fetch.supply(&vec![]);
    }
    let page = fetch.finish(&mut cache);
    assert_eq!(page.id, 6);
    assert_eq!(get_story(&mut cache, 5), StoryLookup::Cached(page));
    assert_eq!(get_story(&mut cache, 6), StoryLookup::Missing(StoryRequest { story_id: 6 }));
}

#[test]
fn scenario_failed_preview_is_left_out_of_the_list() {
    let mut source = Source::new().with_stories(vec![story(1, vec![]), story(3, vec![])]);
    let mut cache = Cache::new();
    let list = run_stories(&mut cache, &mut source, Ok(vec![1, 2, 3])).unwrap();
    assert_eq!(list, vec![story(1, vec![]).preview(), story(3, vec![]).preview()]);
    assert_eq!(source.asked, vec![1, 2, 3]);
}

#[test]
fn a_list_holds_the_first_twenty_in_rank_order() {
    let ranked: Vec<i64> = (0..50).map(|k| 1000 - 7 * k).collect();
    let mut source = Source::new().with_stories(ranked.iter().map(|id| story(*id, vec![])).collect());
    let mut cache = Cache::new();
    let list = run_stories(&mut cache, &mut source, Ok(ranked.clone())).unwrap();
    let ids: Vec<i64> = list.iter().map(|s| s.id).collect();
    assert_eq!(ids, ranked[..20].to_vec());
    assert_eq!(source.asked, ranked[..20].to_vec());
    let mut sorted = ids.clone();
    sorted.sort();
    sorted.dedup();
    assert_eq!(sorted.len(), ids.len());
}

#[test]
fn a_short_ranked_list_is_taken_whole() {
    let mut source = Source::new().with_stories(vec![story(4, vec![]), story(2, vec![])]);
    let mut cache = Cache::new();
    let list = run_stories(&mut cache, &mut source, Ok(vec![4, 2])).unwrap();
    assert_eq!(list, vec![story(4, vec![]).preview(), story(2, vec![]).preview()]);
    assert_eq!(run_stories(&mut cache, &mut source, Ok(vec![])).unwrap(), vec![]);
}

#[test]
fn a_failure_of_the_ranked_list_is_returned() {
    let mut source = Source::new();
    let mut cache = Cache::new();
    let down = ServerError::Reqwest("down".to_string());
    assert_eq!(run_stories(&mut cache, &mut source, Err(down.clone())), Err(down));
    assert!(source.asked.is_empty());
}

#[test]
fn previews_that_are_cached_are_not_asked_for_again() {
    let mut source =
        Source::new().with_stories(vec![story(1, vec![]), story(2, vec![]), story(3, vec![])]);
    let mut cache = Cache::new();
    let first = run_stories(&mut cache, &mut source, Ok(vec![1, 2])).unwrap();
    assert_eq!(source.asked, vec![1, 2]);
    let second = run_stories(&mut cache, &mut source, Ok(vec![3, 2, 1])).unwrap();
    assert_eq!(source.asked, vec![1, 2, 3]);
    assert_eq!(second, vec![story(3, vec![]).preview(), first[1].clone(), first[0].clone()]);
}

#[test]
fn a_preview_that_failed_is_asked_for_again() {
    let mut source = Source::new().with_stories(vec![story(1, vec![])]);
    let mut cache = Cache::new();
    assert_eq!(run_stories(&mut cache, &mut source, Ok(vec![2])).unwrap(), vec![]);
    source.stories.insert(2, story(2, vec![]));
    assert_eq!(
        run_stories(&mut cache, &mut source, Ok(vec![2])).unwrap(),
        vec![story(2, vec![]).preview()]
    );
    assert_eq!(source.asked, vec![2, 2]);
}

#[test]
fn a_list_keeps_a_duplicate_of_the_ranked_list() {
    let mut source = Source::new().with_stories(vec![story(1, vec![])]);
    let mut cache = Cache::new();
    let list = run_stories(&mut cache, &mut source, Ok(vec![1, 1])).unwrap();
    assert_eq!(list, vec![story(1, vec![]).preview(), story(1, vec![]).preview()]);
}

#[test]
fn a_single_preview_is_cache_first() {
    let mut cache = Cache::new();
    let request = match get_story_preview(&mut cache, 1) {
        PreviewLookup::Missing(request) => request,
        PreviewLookup::Cached(found) => panic!("an empty cache held {:?}", found),
    };
    assert_eq!(request, PreviewRequest { story_id: 1 });
    assert_eq!(request.url(), "https://hacker-news.firebaseio.com/v0/item/1.json");
    let fetched = request.fetched(&mut cache, Ok(story(1, vec![9]).preview()));
    assert_eq!(fetched, Ok(story(1, vec![9]).preview()));
    assert_eq!(
        get_story_preview(&mut cache, 1),
        PreviewLookup::Cached(story(1, vec![9]).preview())
    );
}

#[test]
fn a_single_preview_that_failed_is_returned_and_not_cached() {
    let mut cache = Cache::new();
    let down = ServerError::Reqwest("down".to_string());
    assert_eq!(PreviewRequest { story_id: 1 }.fetched(&mut cache, Err(down.clone())), Err(down));
    assert_eq!(
        get_story_preview(&mut cache, 1),
        PreviewLookup::Missing(PreviewRequest { story_id: 1 })
    );
}

#[test]
fn the_two_caches_do_not_feed_each_other() {
    let mut source = Source::new().with_stories(vec![story(10, vec![])]);
    let mut cache = Cache::new();
    run_story(&mut cache, &mut source, 10).unwrap();
    assert_eq!(
        get_story_preview(&mut cache, 10),
        PreviewLookup::Missing(PreviewRequest { story_id: 10 })
    );
    run_stories(&mut cache, &mut source, Ok(vec![10])).unwrap();
    assert_eq!(source.asked, vec![10, 10]);
}

fn user(submitted: Vec<i64>) -> UserData {
    UserData {
        id: "pg".to_string(),
        karma: 155_111,
        about: "about".to_string(),
        submitted,
        stories: vec![],
    }
}

#[test]
fn a_user_page_resolves_the_submissions_that_are_stories() {
    let mut source = Source::new().with_stories(vec![story(5, vec![]), story(7, vec![])]);
    let mut cache = Cache::new();
    let page = run_user(&mut cache, &mut source, Ok(user(vec![7, 6, 5]))).unwrap();
    let mut expected = user(vec![7, 6, 5]);
    expected.stories = vec![story(7, vec![]).preview(), story(5, vec![]).preview()];
    assert_eq!(page, expected);
    assert_eq!(source.asked, vec![7, 6, 5]);
}

#[test]
fn a_user_page_resolves_the_first_thirty_submissions() {
    let submitted: Vec<i64> = (1..=40).collect();
    let mut source =
        Source::new().with_stories(submitted.iter().map(|id| story(*id, vec![])).collect());
    let mut cache = Cache::new();
    let page = run_user(&mut cache, &mut source, Ok(user(submitted.clone()))).unwrap();
    let ids: Vec<i64> = page.stories.iter().map(|s| s.id).collect();
    assert_eq!(ids, (1..=30).collect::<Vec<i64>>());
    assert_eq!(page.submitted, submitted);
    assert_eq!(source.asked, (1..=30).collect::<Vec<i64>>());
}

#[test]
fn a_user_page_drops_stories_that_came_with_the_record() {
    let mut stale = user(vec![]);
    stale.stories = vec![story(1, vec![]).preview()];
    let mut cache = Cache::new();
    let page = run_user(&mut cache, &mut Source::new(), Ok(stale)).unwrap();
    assert_eq!(page, user(vec![]));
}

#[test]
fn a_failure_of_the_user_record_is_returned() {
    let mut cache = Cache::new();
    let bad = ServerError::SerdeJson("null".to_string());
    assert_eq!(run_user(&mut cache, &mut Source::new(), Err(bad.clone())), Err(bad));
}

#[test]
fn a_user_page_shares_the_preview_cache_with_the_lists() {
    let mut source = Source::new().with_stories(vec![story(5, vec![])]);
    let mut cache = Cache::new();
    run_stories(&mut cache, &mut source, Ok(vec![5])).unwrap();
    let page = run_user(&mut cache, &mut source, Ok(user(vec![5]))).unwrap();
    assert_eq!(page.stories, vec![story(5, vec![]).preview()]);
    assert_eq!(source.asked, vec![5]);
}

#[test]
fn each_aggregation_starts_with_the_request_of_its_name() {
    assert_eq!(get_stories(), StoriesRequest { sort: StorySorting::Top });
    assert_eq!(get_stories().url(), stories_url(StorySorting::Top));
    assert_eq!(
        get_stories_with_sorting(StorySorting::Ask).url(),
        "https://hacker-news.firebaseio.com/v0/askstories.json"
    );
    assert_eq!(get_comment_with_depth(7, 2), CommentRequest { comment_id: 7, depth: 2 });
    assert_eq!(get_comment(7).url(), "https://hacker-news.firebaseio.com/v0/item/7.json");
    assert_eq!(
        get_user_page(&"dang".to_string()).url(),
        "https://hacker-news.firebaseio.com/v0/user/dang.json"
    );
    assert_eq!(StoryRequest { story_id: -2 }.url(), item_url(-2));
}

#[test]
fn a_list_is_read_from_the_address_of_its_order() {
    let mut source = Source::new()
        .with_stories(vec![story(1, vec![]), story(2, vec![])])
        .with_ranked(StorySorting::Top, vec![1, 2])
        .with_ranked(StorySorting::New, vec![2, 1]);
    let mut cache = Cache::new();
    for (sort, ids) in [(StorySorting::Top, vec![1, 2]), (StorySorting::New, vec![2, 1])] {
        let request = get_stories_with_sorting(sort);
        let ranked = source.ranked(request.url());
        let batch = request.fetched(&mut cache, ranked).ok().unwrap();
        let responses = batch.requests().into_iter().map(|id| source.preview(id)).collect();
        let list = batch.complete(&mut cache, &responses);
        assert_eq!(list.iter().map(|s| s.id).collect::<Vec<i64>>(), ids);
    }
    let request = get_stories_with_sorting(StorySorting::Best);
    let ranked = source.ranked(request.url());
    assert!(request.fetched(&mut cache, ranked).is_err());
    assert_eq!(
        source.addresses,
        vec![
            stories_url(StorySorting::Top),
            stories_url(StorySorting::New),
            stories_url(StorySorting::Best)
        ]
    );
}

#[test]
fn a_user_page_is_read_from_the_address_of_its_name() {
    let mut source = Source::new().with_stories(vec![story(5, vec![])]).with_user(user(vec![5, 6]));
    let mut cache = Cache::new();
    let request = get_user_page(&"pg".to_string());
    let record = source.user(request.url());
    let fetch = request.fetched(&mut cache, record).ok().unwrap();
    let responses = fetch.requests().into_iter().map(|id| source.preview(id)).collect();
    let page = fetch.finish(&mut cache, &responses);
    assert_eq!(page.stories, vec![story(5, vec![]).preview()]);
    let request = get_user_page(&"nobody".to_string());
    let record = source.user(request.url());
    assert!(request.fetched(&mut cache, record).is_err());
}

/// The tree of a comment, read off the source by plain recursion.
fn tree(source: &Source, id: i64, depth: i64) -> Option<Comment> {
    let mut c = source.comments.get(&id)?.clone();
    c.sub_comments = if depth > 0 {
        c.kids.iter().take(3).filter_map(|kid| tree(source, *kid, depth - 1)).collect()
    } else {
        vec![]
    };
    Some(c)
}

#[test]
fn a_comment_fetched_in_rounds_is_the_tree_read_by_recursion() {
    let mut state: u64 = 0x9e37_79b9_7f4a_7c15;
    let mut next = move |bound: u64| {
        state = state.wrapping_mul(6364136223846793005).wrapping_add(1442695040888963407);
        (state >> 33) % bound
    };
    for _ in 0..60 {
        let mut comments = vec![];
        for id in 0..40 {
            if next(5) == 0 {
                continue;
            }
            let kids = (0..next(6)).map(|_| next(40) as i64).collect();
            comments.push(comment(id, kids));
        }
        let mut source = Source::with_comments(comments);
        for id in 0..40 {
            for depth in -1..5 {
                let expected = tree(&source, id, depth);
                assert_eq!(run_comment(&mut source, id, depth).ok(), expected);
            }
        }
    }
}

#[test]
fn a_story_fetched_in_rounds_holds_the_trees_read_by_recursion() {
    let mut comments = thread(1, 4, 4);
    comments.retain(|c| c.id % 7 != 3);
    let kids = vec![13, 11, 5, 12, 14];
    let mut source = Source::with_comments(comments).with_stories(vec![story(100, kids.clone())]);
    let mut cache = Cache::new();
    let page = run_story(&mut cache, &mut source, 100).unwrap();
    let expected: Vec<Comment> =
        kids.iter().take(3).filter_map(|kid| tree(&source, *kid, 3)).collect();
    assert_eq!(page.comments, expected);
    assert_eq!(page.comments.iter().map(|c| c.id).collect::<Vec<i64>>(), vec![13, 11]);
}

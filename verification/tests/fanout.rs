use hackernews::batch::PreviewBatch;
use hackernews::cache::Cache;
use hackernews::error::ServerError;
use hackernews::fanout::take_first;
use hackernews::forest::{bare_of, CommentForest};
use hackernews::types::{Comment, StoryItem};

fn comment(id: i64, kids: Vec<i64>) -> Comment {
    Comment {
        id,
        by: "someone".to_string(),
        text: "text".to_string(),
        time: 1_400_000_000,
        kids,
        sub_comments: vec![],
        type_tag: "comment".to_string(),
    }
}

fn preview(id: i64) -> StoryItem {
    StoryItem {
        id,
        title: "title".to_string(),
        url: None,
        text: None,
        by: "someone".to_string(),
        score: 0,
        descendants: 0,
        time: 1_400_000_000,
        kids: vec![],
        type_tag: "story".to_string(),
    }
}

fn failed() -> ServerError {
    ServerError::Reqwest("failed".to_string())
}

#[test]
fn take_first_keeps_a_prefix_in_order() {
    assert_eq!(take_first(&vec![5, 4, 3, 2, 1], 3), vec![5, 4, 3]);
    assert_eq!(take_first(&vec![5, 4], 3), vec![5, 4]);
    assert_eq!(take_first(&vec![5, 4, 3], 3), vec![5, 4, 3]);
    assert_eq!(take_first(&vec![5, 4, 3], 0), Vec::<i64>::new());
    assert_eq!(take_first(&vec![], 3), Vec::<i64>::new());
    assert_eq!(take_first(&vec![1, 1, 1, 1], usize::MAX), vec![1, 1, 1, 1]);
}

#[test]
fn bare_of_drops_the_replies_only() {
    let mut c = comment(1, vec![2, 3]);
    c.sub_comments = vec![comment(2, vec![])];
    assert_eq!(bare_of(&c), comment(1, vec![2, 3]));
}

#[test]
fn a_forest_asks_for_its_roots_first() {
    let mut forest = CommentForest::new(vec![3, 1, 2], 1);
    assert!(!forest.is_complete());
    assert_eq!(forest.requests(), vec![3, 1, 2]);
    forest.supply(&vec![Ok(comment(3, vec![30, 31, 32, 33])), Err(failed()), Ok(comment(2, vec![20]))]);
    assert!(!forest.is_complete());
    assert_eq!(forest.requests(), vec![30, 31, 32, 20]);
    forest.supply(&vec![Ok(comment(30, vec![300])), Ok(comment(31, vec![])), Err(failed()), Ok(comment(20, vec![]))]);
    assert!(forest.is_complete());
    assert_eq!(forest.requests(), Vec::<i64>::new());
    let mut first = comment(3, vec![30, 31, 32, 33]);
    first.sub_comments = vec![comment(30, vec![300]), comment(31, vec![])];
    let mut second = comment(2, vec![20]);
    second.sub_comments = vec![comment(20, vec![])];
    assert_eq!(forest.into_comments(), vec![first, second]);
}

#[test]
fn a_forest_of_depth_zero_is_complete_after_its_roots() {
    let mut forest = CommentForest::new(vec![1], 0);
    forest.supply(&vec![Ok(comment(1, vec![2]))]);
    assert!(forest.is_complete());
    assert_eq!(forest.into_comments(), vec![comment(1, vec![2])]);
}

#[test]
fn a_forest_without_roots_asks_for_nothing() {
    let mut forest = CommentForest::new(vec![], 3);
    let mut rounds = 0;
    while !forest.is_complete() {
        assert_eq!(forest.requests(), Vec::<i64>::new());
        forest.supply(&vec![Ok(comment(9, vec![]))]);
        rounds += 1;
    }
    assert_eq!(rounds, 4);
    assert_eq!(forest.into_comments(), vec![]);
}

#[test]
fn a_batch_asks_only_for_what_the_cache_lacks() {
    let mut cache = Cache::new();
    cache.put_preview(2, preview(2));
    cache.put_preview(4, preview(4));
    let batch = PreviewBatch::begin(&mut cache, &vec![1, 2, 3, 4, 5, 6], 5);
    assert_eq!(batch.requests(), vec![1, 3, 5]);
    let list = batch.complete(&mut cache, &vec![Ok(preview(1)), Err(failed()), Ok(preview(5))]);
    assert_eq!(list, vec![preview(1), preview(2), preview(4), preview(5)]);
    assert_eq!(cache.get_preview(1), Some(preview(1)));
    assert_eq!(cache.get_preview(3), None);
    assert_eq!(cache.get_preview(5), Some(preview(5)));
    assert_eq!(cache.get_preview(6), None);
}

#[test]
fn a_batch_counts_wanting_responses_as_failed() {
    let mut cache = Cache::new();
    let batch = PreviewBatch::begin(&mut cache, &vec![1, 2, 3], 20);
    assert_eq!(batch.requests(), vec![1, 2, 3]);
    let list = batch.complete(&mut cache, &vec![Ok(preview(1))]);
    assert_eq!(list, vec![preview(1)]);
    assert_eq!(cache.get_preview(2), None);
}

#[test]
fn a_batch_marks_what_it_found_as_used() {
    let mut cache = Cache::with_capacity(2);
    cache.put_preview(1, preview(1));
    cache.put_preview(2, preview(2));
    let batch = PreviewBatch::begin(&mut cache, &vec![1], 20);
    assert_eq!(batch.requests(), Vec::<i64>::new());
    assert_eq!(batch.complete(&mut cache, &vec![]), vec![preview(1)]);
    cache.put_preview(3, preview(3));
    assert_eq!(cache.get_preview(2), None);
    assert_eq!(cache.get_preview(1), Some(preview(1)));
}

fn width_and_depth(c: &Comment) -> (usize, usize) {
    let mut width = c.sub_comments.len();
    let mut depth = 0;
    for sub in &c.sub_comments {
        let (w, d) = width_and_depth(sub);
        width = width.max(w);
        depth = depth.max(d + 1);
    }
    (width, depth)
}

#[test]
fn trees_keep_within_width_and_depth_whatever_the_responses() {
    let mut bushy = comment(7, vec![1, 2, 3, 4, 5, 6]);
    bushy.sub_comments = vec![bushy.clone(), bushy.clone(), bushy.clone(), bushy.clone()];
    for depth in 0..5 {
        let mut forest = CommentForest::new(vec![1, 2], depth);
        while !forest.is_complete() {
            let responses = forest.requests().iter().map(|_| Ok(bushy.clone())).collect();
            forest.supply(&responses);
        }
        let roots = forest.into_comments();
        assert_eq!(roots.len(), 2);
        for root in &roots {
            assert_eq!(width_and_depth(root), (if depth == 0 { 0 } else { 3 }, depth as usize));
        }
    }
}

#[test]
fn more_responses_than_roots_do_not_add_roots() {
    let mut forest = CommentForest::new(vec![1], 0);
    forest.supply(&vec![Ok(comment(1, vec![])), Ok(comment(2, vec![])), Ok(comment(3, vec![]))]);
    assert_eq!(forest.into_comments(), vec![comment(1, vec![])]);
}

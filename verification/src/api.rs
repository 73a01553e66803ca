//! The steps of the aggregations.
//!
//! Every aggregation starts with one request: for a ranked list, an item or
//! a user record. A failure of that request is the failure of the
//! aggregation. What follows
//! is fan-out, of bounded width and depth: the members that fail are left out
//! of the result, and the others keep their order.
//!
//! Each aggregation is begun by the function of its name, which returns
//! the request to make; `fetched` takes in the response.
//!
//! - Stories: `get_stories` or `get_stories_with_sorting`, then one round of
//!   `PreviewBatch`.
//! - A story page: `get_story`; on a miss, rounds of `StoryFetch` until it
//!   is complete, and `StoryFetch::finish`.
//! - A comment: `get_comment_with_depth` or `get_comment`, rounds of
//!   `CommentFetch` until it is complete, and `CommentFetch::finish`.
//! - A user page: `get_user_page`, then one round of `UserFetch`.
//! - A single preview: `get_story_preview`.

use crate::batch::{
    carries_ids, ids_of, kept, lemma_kept_distinct, lemma_kept_within, lemma_present_ids, lookups,
    preview_outcomes, resolved, stored_all, touched_all, BatchView, PreviewBatch,
};
use crate::cache::{lemma_stored_then_found, stored, touched, Cache, CachedView};
use crate::error::ServerError;
use crate::fanout::{first_n, take_first};
use crate::forest::{
    fetched_from, forest, lemma_fetched_from, lemma_no_roots, outcomes, reply_ids, tree, within,
    CommentForest, ForestView, Source, COMMENT_WIDTH,
};
use crate::text::{chars_of, decimal, push_decimal, string_of};
use crate::types::{
    lemma_sub_comment_views, Comment, CommentView, StoryItem, StoryItemView, StoryPageData,
    StoryPageDataView, StorySorting, UserData, UserDataView,
};
use vstd::prelude::*;

verus! {

const BASE_URL: &'static str = "https://hacker-news.firebaseio.com/v0";

const TOP_STORIES: &'static str = "/topstories.json";

const NEW_STORIES: &'static str = "/newstories.json";

const BEST_STORIES: &'static str = "/beststories.json";

const SHOW_STORIES: &'static str = "/showstories.json";

const ASK_STORIES: &'static str = "/askstories.json";

const ITEM_API: &'static str = "/item";

const USER_API: &'static str = "/user";

const JSON: &'static str = ".json";

/// The number of stories in a list, at most: the length of the prefix of
/// the ranked list that is resolved.
pub const STORIES_COUNT: usize = 20;

/// The number of levels of replies that are fetched below a comment.
pub const COMMENT_DEPTH: i64 = 3;

/// The number of a user's submissions that are resolved, at most.
pub const SUBMISSIONS_COUNT: usize = 30;

/// The address of the remote source, without a trailing slash.
pub open spec fn base_url() -> Seq<char> {
    "https://hacker-news.firebaseio.com/v0"@
}

/// The path, below the base address, of the ranked list of a sort order.
pub open spec fn stories_path(sort: StorySorting) -> Seq<char> {
    match sort {
        StorySorting::Top => "/topstories.json"@,
        StorySorting::New => "/newstories.json"@,
        StorySorting::Best => "/beststories.json"@,
        StorySorting::Show => "/showstories.json"@,
        StorySorting::Ask => "/askstories.json"@,
    }
}

/// The address of the ranked list of a sort order.
pub open spec fn stories_address(sort: StorySorting) -> Seq<char> {
    base_url() + stories_path(sort)
}

/// The address of the item (a story or a comment) with the given id.
pub open spec fn item_address(id: i64) -> Seq<char> {
    base_url() + "/item"@ + seq!['/'] + decimal(id as int) + ".json"@
}

/// The address of the record of the user with the given name.
pub open spec fn user_address(user_id: Seq<char>) -> Seq<char> {
    base_url() + "/user"@ + seq!['/'] + user_id + ".json"@
}

/// The address from which the ranked list of `sort` is read.
pub fn stories_url(sort: StorySorting) -> (out: String)
    ensures
        out@ == stories_address(sort),
{
    let stories_api = match sort {
        StorySorting::Best => BEST_STORIES,
        StorySorting::Top => TOP_STORIES,
        StorySorting::New => NEW_STORIES,
        StorySorting::Show => SHOW_STORIES,
        StorySorting::Ask => ASK_STORIES,
    };
    String::from_str(BASE_URL).concat(stories_api)
}

/// The address from which the item with the given id is read.
pub fn item_url(id: i64) -> (out: String)
    ensures
        out@ == item_address(id),
{
    let mut chars = chars_of(BASE_URL);
    let mut api = chars_of(ITEM_API);
    chars.append(&mut api);
    chars.push('/');
    push_decimal(&mut chars, id);
    let mut json = chars_of(JSON);
    chars.append(&mut json);
    assert(chars@ =~= item_address(id));
    string_of(&chars)
}

/// The address from which the record of the user `user_id` is read.
pub fn user_url(user_id: &str) -> (out: String)
    ensures
        out@ == user_address(user_id@),
{
    proof {
        reveal_strlit("/");
    }
    let out = String::from_str(BASE_URL).concat(USER_API).concat("/").concat(user_id).concat(JSON);
    assert(out@ =~= user_address(user_id@));
    out
}

/// The request for the preview of a story that the cache does not hold.
#[derive(Debug, PartialEq)]
pub struct PreviewRequest {
    /// The id of the story.
    pub story_id: i64,
}

/// Where the preview of a story comes from: from the cache, or from the
/// remote source.
#[derive(Debug, PartialEq)]
pub enum PreviewLookup {
    Cached(StoryItem),
    Missing(PreviewRequest),
}

/// Looks for the preview of the story `story_id` in the cache. A preview
/// that is found becomes the most recently used; for one that is not, the
/// request to make is returned.
pub fn get_story_preview(cache: &mut Cache, story_id: i64) -> (out: PreviewLookup)
    requires
        old(cache).wf(),
    ensures
        final(cache).wf(),
        final(cache).previews() == touched(old(cache).previews(), story_id),
        final(cache).stories() == old(cache).stories(),
        final(cache).story_capacity() == old(cache).story_capacity(),
        final(cache).preview_capacity() == old(cache).preview_capacity(),
        match out {
            PreviewLookup::Cached(story) => old(cache).cached_preview(story_id) == Some(story@),
            PreviewLookup::Missing(request) => old(cache).cached_preview(story_id) is None
                && request.story_id == story_id,
        },
{
    match cache.get_preview(story_id) {
        Some(story) => PreviewLookup::Cached(story),
        None => PreviewLookup::Missing(PreviewRequest { story_id }),
    }
}

impl PreviewRequest {
    /// The address from which the preview is read.
    pub fn url(&self) -> (out: String)
        ensures
            out@ == item_address(self.story_id),
    {
        item_url(self.story_id)
    }

    /// Takes in the response: a preview is cached under the id that was
    /// asked for and returned, a failure is returned and leaves the cache as
    /// it was.
    pub fn fetched(self, cache: &mut Cache, response: Result<StoryItem, ServerError>) -> (out: Result<
        StoryItem,
        ServerError,
    >)
        requires
            old(cache).wf(),
        ensures
            final(cache).wf(),
            final(cache).stories() == old(cache).stories(),
            final(cache).story_capacity() == old(cache).story_capacity(),
            final(cache).preview_capacity() == old(cache).preview_capacity(),
            match response {
                Ok(story) => out is Ok && out->Ok_0@ == story@ && final(cache).previews() == stored(
                    old(cache).previews(),
                    old(cache).preview_capacity(),
                    self.story_id,
                    CachedView::Preview(story@),
                ),
                Err(e) => out is Err && out->Err_0@ == e@ && final(cache).previews() == old(
                    cache,
                ).previews(),
            },
    {
        match response {
            Ok(story) => {
                cache.put_preview(self.story_id, story.clone());
                Ok(story)
            },
            Err(e) => Err(e),
        }
    }
}

/// The request for the ranked list of a sort order.
#[derive(Debug, PartialEq)]
pub struct StoriesRequest {
    /// The sort order.
    pub sort: StorySorting,
}

/// The request with which a list of the stories in the default order
/// starts.
pub fn get_stories() -> (out: StoriesRequest)
    ensures
        out.sort == StorySorting::Top,
{
    get_stories_with_sorting(StorySorting::default())
}

/// The request with which a list of the stories in the order `sort`
/// starts.
pub fn get_stories_with_sorting(sort: StorySorting) -> (out: StoriesRequest)
    ensures
        out.sort == sort,
{
    StoriesRequest { sort }
}

impl StoriesRequest {
    /// The address from which the ranked list is read.
    pub fn url(&self) -> (out: String)
        ensures
            out@ == stories_address(self.sort),
    {
        stories_url(self.sort)
    }

    /// Takes in the response, a ranked list of story ids. A failure is
    /// returned. Otherwise a batch is started for the first `STORIES_COUNT`
    /// ids, in rank order, each looked up in the cache.
    pub fn fetched(self, cache: &mut Cache, ranked: Result<Vec<i64>, ServerError>) -> (out: Result<
        PreviewBatch,
        ServerError,
    >)
        requires
            old(cache).wf(),
        ensures
            final(cache).wf(),
            final(cache).stories() == old(cache).stories(),
            final(cache).story_capacity() == old(cache).story_capacity(),
            final(cache).preview_capacity() == old(cache).preview_capacity(),
            match ranked {
                Ok(ids) => {
                    &&& out is Ok
                    &&& out->Ok_0.wf()
                    &&& out->Ok_0@.ids == first_n(ids@, STORIES_COUNT as nat)
                    &&& out->Ok_0@.found == lookups(old(cache).previews(), out->Ok_0@.ids)
                    &&& final(cache).previews() == touched_all(
                        old(cache).previews(),
                        out->Ok_0@.ids,
                    )
                },
                Err(e) => out is Err && out->Err_0@ == e@ && final(cache).previews() == old(
                    cache,
                ).previews(),
            },
    {
        match ranked {
            Ok(ids) => Ok(PreviewBatch::begin(cache, &ids, STORIES_COUNT)),
            Err(e) => Err(e),
        }
    }
}

/// A list of stories holds at most `STORIES_COUNT` previews; they stand in
/// the order of the ranked list, those left out that could not be resolved;
/// and no id occurs twice among them. This holds where the ranked list
/// names no id twice and each preview carries the id it was resolved for.
pub proof fn lemma_list_stories(
    ranked: Seq<i64>,
    batch: BatchView,
    responses: Seq<Option<StoryItemView>>,
)
    requires
        batch.ids == first_n(ranked, STORIES_COUNT as nat),
        batch.found.len() == batch.ids.len(),
        ranked.no_duplicates(),
        carries_ids(batch.ids, resolved(batch.found, responses)),
    ensures
        batch.listing(responses).len() <= STORIES_COUNT,
        ids_of(batch.listing(responses)) == kept(batch.ids, resolved(batch.found, responses)),
        ids_of(batch.listing(responses)).no_duplicates(),
{
    let outcomes = resolved(batch.found, responses);
    lemma_present_ids(batch.ids, outcomes);
    lemma_kept_within(batch.ids, outcomes);
    lemma_kept_distinct(batch.ids, outcomes);
}

/// The request for a story that the cache does not hold.
#[derive(Debug, PartialEq)]
pub struct StoryRequest {
    /// The id of the story.
    pub story_id: i64,
}

/// Where a story page comes from: from the cache, or from the remote
/// source.
#[derive(Debug, PartialEq)]
pub enum StoryLookup {
    Cached(StoryPageData),
    Missing(StoryRequest),
}

/// Looks for the page of the story `story_id` in the cache. A page that is
/// found becomes the most recently used; for one that is not, the request to
/// make is returned.
pub fn get_story(cache: &mut Cache, story_id: i64) -> (out: StoryLookup)
    requires
        old(cache).wf(),
    ensures
        final(cache).wf(),
        final(cache).stories() == touched(old(cache).stories(), story_id),
        final(cache).previews() == old(cache).previews(),
        final(cache).story_capacity() == old(cache).story_capacity(),
        final(cache).preview_capacity() == old(cache).preview_capacity(),
        match out {
            StoryLookup::Cached(page) => old(cache).cached_story(story_id) == Some(page@),
            StoryLookup::Missing(request) => old(cache).cached_story(story_id) is None
                && request.story_id == story_id,
        },
{
    match cache.get_story(story_id) {
        Some(page) => StoryLookup::Cached(page),
        None => StoryLookup::Missing(StoryRequest { story_id }),
    }
}

/// A story page under way, as mathematical values.
pub struct StoryFetchView {
    /// The id under which the story was asked for.
    pub id: i64,
    /// The story as it was fetched.
    pub story: StoryPageDataView,
    /// The comment trees below it, as far as they are fetched.
    pub comments: ForestView,
}

impl StoryFetchView {
    /// The state in which the comment trees of a story that was just fetched
    /// are begun: the trees of its first `COMMENT_WIDTH` children are wanted,
    /// each with `COMMENT_DEPTH` levels of replies, and nothing is fetched.
    pub open spec fn start(id: i64, story: StoryPageDataView) -> StoryFetchView {
        StoryFetchView {
            id,
            story,
            comments: ForestView {
                ids: first_n(story.kids, COMMENT_WIDTH as nat),
                depth: COMMENT_DEPTH as nat,
                rounds: 0,
                roots: Seq::empty(),
            },
        }
    }

    /// The story with the comment trees that are fetched.
    pub open spec fn page(self) -> StoryPageDataView {
        StoryPageDataView { comments: self.comments.roots, ..self.story }
    }
}

/// A story whose comment trees are being fetched.
pub struct StoryFetch {
    id: i64,
    story: StoryPageData,
    comments: CommentForest,
}

impl View for StoryFetch {
    type V = StoryFetchView;

    closed spec fn view(&self) -> StoryFetchView {
        StoryFetchView { id: self.id, story: self.story@, comments: self.comments@ }
    }
}

impl StoryRequest {
    /// The address from which the story is read.
    pub fn url(&self) -> (out: String)
        ensures
            out@ == item_address(self.story_id),
    {
        item_url(self.story_id)
    }

    /// Takes in the response. A failure is returned. Otherwise the comment
    /// trees of the story are to be fetched: those of its first
    /// `COMMENT_WIDTH` children, each with `COMMENT_DEPTH` levels of replies.
    pub fn fetched(self, response: Result<StoryPageData, ServerError>) -> (out: Result<
        StoryFetch,
        ServerError,
    >)
        ensures
            match response {
                Ok(story) => out is Ok && out->Ok_0.wf() && out->Ok_0@ == StoryFetchView::start(
                    self.story_id,
                    story@,
                ),
                Err(e) => out is Err && out->Err_0@ == e@,
            },
    {
        match response {
            Ok(story) => {
                let comments = CommentForest::new(
                    take_first(&story.kids, COMMENT_WIDTH),
                    COMMENT_DEPTH,
                );
                Ok(StoryFetch { id: self.story_id, story, comments })
            },
            Err(e) => Err(e),
        }
    }
}

impl StoryFetch {
    /// The invariant of a story under way: that of its forest, which is for
    /// no more than `COMMENT_WIDTH` comments, each `COMMENT_DEPTH` levels
    /// deep.
    pub closed spec fn wf(&self) -> bool {
        &&& self.comments.wf()
        &&& self.comments@.ids.len() <= COMMENT_WIDTH
        &&& self.comments@.depth == COMMENT_DEPTH
    }

    /// The ids of the comments to request in the next round, in order.
    pub fn requests(&self) -> (out: Vec<i64>)
        requires
            self.wf(),
        ensures
            out@ == self@.comments.requests(),
    {
        self.comments.requests()
    }

    /// Takes in a round of responses, which answer `requests()` one by one,
    /// in order.
    pub fn supply(&mut self, responses: &Vec<Result<Comment, ServerError>>)
        requires
            old(self).wf(),
        ensures
            final(self).wf(),
            final(self)@ == (StoryFetchView {
                comments: old(self)@.comments.supplied(outcomes(responses@)),
                ..old(self)@
            }),
    {
        self.comments.supply(responses);
    }

    /// Whether every level of comments has been taken in.
    pub fn is_complete(&self) -> (out: bool)
        ensures
            out == self@.comments.is_complete(),
    {
        self.comments.is_complete()
    }

    /// The story with the comment trees that were fetched, in the order of
    /// its children. The page is cached under the id that was asked for.
    pub fn finish(self, cache: &mut Cache) -> (out: StoryPageData)
        requires
            self.wf(),
            self@.comments.is_complete(),
            old(cache).wf(),
        ensures
            final(cache).wf(),
            out@ == self@.page(),
            out@.comments.len() <= COMMENT_WIDTH,
            forall|i: int|
                0 <= i < out@.comments.len() ==> within(
                    #[trigger] out@.comments[i],
                    COMMENT_DEPTH as nat,
                ),
            final(cache).stories() == stored(
                old(cache).stories(),
                old(cache).story_capacity(),
                self@.id,
                CachedView::Page(out@),
            ),
            final(cache).previews() == old(cache).previews(),
            final(cache).story_capacity() == old(cache).story_capacity(),
            final(cache).preview_capacity() == old(cache).preview_capacity(),
    {
        let mut story = self.story;
        story.comments = self.comments.into_comments();
        proof {
            assert forall|i: int| 0 <= i < story@.comments.len() implies within(
                #[trigger] story@.comments[i],
                COMMENT_DEPTH as nat,
            ) by {
                assert(story@.comments[i] == story.comments[i]@);
            }
        }
        cache.put_story(self.id, story.clone());
        story
    }
}

/// A comment tree under way, as mathematical values.
pub struct CommentFetchView {
    /// The number of levels of replies wanted below the comment.
    pub depth: nat,
    /// The comment as it was fetched, without replies.
    pub comment: CommentView,
    /// The trees of its replies, as far as they are fetched.
    pub replies: ForestView,
}

impl CommentFetchView {
    /// The state in which the replies of a comment that was just fetched are
    /// begun, where `depth` levels of replies are wanted. For a positive
    /// `depth` the trees of its first `COMMENT_WIDTH` children are wanted,
    /// each with `depth - 1` levels of replies; for any other, none.
    pub open spec fn start(comment: CommentView, depth: int) -> CommentFetchView {
        CommentFetchView {
            depth: if depth > 0 { depth as nat } else { 0 },
            comment: CommentView { sub_comments: Seq::empty(), ..comment },
            replies: ForestView {
                ids: if depth > 0 { reply_ids(comment) } else { Seq::empty() },
                depth: if depth > 0 { (depth - 1) as nat } else { 0 },
                rounds: 0,
                roots: Seq::empty(),
            },
        }
    }

    /// The comment with the trees of its replies that are fetched.
    pub open spec fn result(self) -> CommentView {
        CommentView { sub_comments: self.replies.roots, ..self.comment }
    }
}

/// A comment whose replies are being fetched.
pub struct CommentFetch {
    depth: u64,
    comment: Comment,
    replies: CommentForest,
}

impl View for CommentFetch {
    type V = CommentFetchView;

    closed spec fn view(&self) -> CommentFetchView {
        CommentFetchView {
            depth: self.depth as nat,
            comment: self.comment@,
            replies: self.replies@,
        }
    }
}

/// The request for a comment of which `depth` levels of replies are wanted.
#[derive(Debug, PartialEq)]
pub struct CommentRequest {
    /// The id of the comment.
    pub comment_id: i64,
    /// The number of levels of replies wanted below the comment.
    pub depth: i64,
}

/// The request with which the tree of the comment `story_id`, with `depth`
/// levels of replies, starts.
pub fn get_comment_with_depth(story_id: i64, depth: i64) -> (out: CommentRequest)
    ensures
        out.comment_id == story_id,
        out.depth == depth,
{
    CommentRequest { comment_id: story_id, depth }
}

/// The request with which the permalink view of a comment starts: its tree
/// with `COMMENT_DEPTH` levels of replies.
pub fn get_comment(comment_id: i64) -> (out: CommentRequest)
    ensures
        out.comment_id == comment_id,
        out.depth == COMMENT_DEPTH,
{
    get_comment_with_depth(comment_id, COMMENT_DEPTH)
}

impl CommentRequest {
    /// The address from which the comment is read.
    pub fn url(&self) -> (out: String)
        ensures
            out@ == item_address(self.comment_id),
    {
        item_url(self.comment_id)
    }

    /// Takes in the response. A failure is returned. Otherwise, for a
    /// positive depth, the trees of the comment's first `COMMENT_WIDTH`
    /// children are to be fetched, each with one level of replies less; for
    /// any other depth no replies are fetched, whatever children the comment
    /// has.
    pub fn fetched(self, response: Result<Comment, ServerError>) -> (out: Result<
        CommentFetch,
        ServerError,
    >)
        ensures
            match response {
                Ok(comment) => out is Ok && out->Ok_0.wf() && out->Ok_0@ == CommentFetchView::start(
                    comment@,
                    self.depth as int,
                ),
                Err(e) => out is Err && out->Err_0@ == e@,
            },
    {
        let depth = self.depth;
        match response {
            Ok(comment) => {
                let mut comment = comment;
                comment.sub_comments = Vec::new();
                proof {
                    lemma_sub_comment_views(comment);
                    assert(comment@.sub_comments =~= Seq::<CommentView>::empty());
                }
                let ids = if depth > 0 {
                    take_first(&comment.kids, COMMENT_WIDTH)
                } else {
                    Vec::new()
                };
                let replies = CommentForest::new(ids, if depth > 0 { depth - 1 } else { 0 });
                Ok(
                    CommentFetch {
                        depth: if depth > 0 { depth as u64 } else { 0 },
                        comment,
                        replies,
                    },
                )
            },
            Err(e) => Err(e),
        }
    }
}

impl CommentFetch {
    /// The invariant of a comment under way: that of its forest, which is
    /// for no more than `COMMENT_WIDTH` replies, each one level less deep
    /// than the comment's own tree, and for none where no levels are wanted.
    pub closed spec fn wf(&self) -> bool {
        &&& self.replies.wf()
        &&& self.replies@.ids.len() <= COMMENT_WIDTH
        &&& self.depth == 0 ==> self.replies@.ids.len() == 0
        &&& self.depth > 0 ==> self.replies@.depth == self.depth - 1
    }

    /// The ids of the comments to request in the next round, in order.
    pub fn requests(&self) -> (out: Vec<i64>)
        requires
            self.wf(),
        ensures
            out@ == self@.replies.requests(),
    {
        self.replies.requests()
    }

    /// Takes in a round of responses, which answer `requests()` one by one,
    /// in order.
    pub fn supply(&mut self, responses: &Vec<Result<Comment, ServerError>>)
        requires
            old(self).wf(),
        ensures
            final(self).wf(),
            final(self)@ == (CommentFetchView {
                replies: old(self)@.replies.supplied(outcomes(responses@)),
                ..old(self)@
            }),
    {
        self.replies.supply(responses);
    }

    /// Whether every level of replies has been taken in.
    pub fn is_complete(&self) -> (out: bool)
        ensures
            out == self@.replies.is_complete(),
    {
        self.replies.is_complete()
    }

    /// The comment with the trees of its replies that were fetched, in the
    /// order of its children.
    pub fn finish(self) -> (out: Comment)
        requires
            self.wf(),
            self@.replies.is_complete(),
        ensures
            out@ == self@.result(),
            within(out@, self@.depth),
    {
        let mut comment = self.comment;
        comment.sub_comments = self.replies.into_comments();
        proof {
            lemma_sub_comment_views(comment);
            assert forall|i: int| 0 <= i < comment@.sub_comments.len() implies within(
                #[trigger] comment@.sub_comments[i],
                self.replies@.depth,
            ) by {
                assert(comment@.sub_comments[i] == comment.sub_comments[i]@);
            }
        }
        comment
    }
}

/// A user page under way, as mathematical values.
pub struct UserFetchView {
    /// The user record as it was fetched.
    pub user: UserDataView,
    /// The batch of previews of the user's first submissions.
    pub submissions: BatchView,
}

/// A user whose first submissions are being resolved.
pub struct UserFetch {
    user: UserData,
    submissions: PreviewBatch,
}

impl View for UserFetch {
    type V = UserFetchView;

    closed spec fn view(&self) -> UserFetchView {
        UserFetchView { user: self.user@, submissions: self.submissions@ }
    }
}

/// The request for the record of a user.
#[derive(Debug, PartialEq)]
pub struct UserRequest {
    /// The name of the user.
    pub user_id: String,
}

/// The request with which the page of the user `user_id` starts.
pub fn get_user_page(user_id: &String) -> (out: UserRequest)
    ensures
        out.user_id@ == user_id@,
{
    UserRequest { user_id: user_id.clone() }
}

impl UserRequest {
    /// The address from which the record is read.
    pub fn url(&self) -> (out: String)
        ensures
            out@ == user_address(self.user_id@),
    {
        user_url(self.user_id.as_str())
    }

    /// Takes in the response. A failure is returned. Otherwise a batch is
    /// started for the first `SUBMISSIONS_COUNT` of the user's submissions,
    /// in order, each looked up in the cache.
    pub fn fetched(self, cache: &mut Cache, response: Result<UserData, ServerError>) -> (out: Result<
        UserFetch,
        ServerError,
    >)
        requires
            old(cache).wf(),
        ensures
            final(cache).wf(),
            final(cache).stories() == old(cache).stories(),
            final(cache).story_capacity() == old(cache).story_capacity(),
            final(cache).preview_capacity() == old(cache).preview_capacity(),
            match response {
                Ok(user) => {
                    &&& out is Ok
                    &&& out->Ok_0.wf()
                    &&& out->Ok_0@.user == user@
                    &&& out->Ok_0@.submissions.ids == first_n(
                        user@.submitted,
                        SUBMISSIONS_COUNT as nat,
                    )
                    &&& out->Ok_0@.submissions.found == lookups(
                        old(cache).previews(),
                        out->Ok_0@.submissions.ids,
                    )
                    &&& final(cache).previews() == touched_all(
                        old(cache).previews(),
                        out->Ok_0@.submissions.ids,
                    )
                },
                Err(e) => out is Err && out->Err_0@ == e@ && final(cache).previews() == old(
                    cache,
                ).previews(),
            },
    {
        match response {
            Ok(user) => {
                let submissions = PreviewBatch::begin(cache, &user.submitted, SUBMISSIONS_COUNT);
                Ok(UserFetch { user, submissions })
            },
            Err(e) => Err(e),
        }
    }
}

impl UserFetch {
    /// The invariant of a user page under way: that of its batch, which is
    /// for no more than `SUBMISSIONS_COUNT` submissions.
    pub closed spec fn wf(&self) -> bool {
        self.submissions.wf() && self.submissions@.ids.len() <= SUBMISSIONS_COUNT
    }

    /// The ids of the previews to request: those of the user's first
    /// submissions that the cache did not hold, in order.
    pub fn requests(&self) -> (out: Vec<i64>)
        requires
            self.wf(),
        ensures
            out@ == self@.submissions.requests(),
    {
        self.submissions.requests()
    }

    /// Ends the user page with the responses to its requests, which answer
    /// them one by one, in order. The stories of the page are the previews
    /// that were cached or fetched, in the order of the submissions; a
    /// submission that could not be resolved as a story is left out. Each
    /// preview that was fetched is cached under the id that was asked for.
    pub fn finish(self, cache: &mut Cache, responses: &Vec<Result<StoryItem, ServerError>>) -> (out:
        UserData)
        requires
            self.wf(),
            old(cache).wf(),
        ensures
            final(cache).wf(),
            out@ == (UserDataView {
                stories: self@.submissions.listing(preview_outcomes(responses@)),
                ..self@.user
            }),
            out@.stories.len() <= SUBMISSIONS_COUNT,
            final(cache).previews() == stored_all(
                old(cache).previews(),
                old(cache).preview_capacity(),
                self@.submissions.requests(),
                preview_outcomes(responses@),
            ),
            final(cache).stories() == old(cache).stories(),
            final(cache).story_capacity() == old(cache).story_capacity(),
            final(cache).preview_capacity() == old(cache).preview_capacity(),
    {
        let mut user = self.user;
        user.stories = self.submissions.complete(cache, responses);
        user
    }
}


/// A comment of which no levels of replies are wanted has none in the end,
/// whatever children it has: nothing is requested for it, and one round
/// without responses completes it.
pub proof fn lemma_comment_without_depth(
    comment: CommentView,
    depth: int,
    responses: Seq<Option<CommentView>>,
)
    requires
        depth <= 0,
    ensures
        ({
            let start = CommentFetchView::start(comment, depth);
            let end = CommentFetchView { replies: start.replies.supplied(responses), ..start };
            &&& start.replies.requests() == Seq::<i64>::empty()
            &&& end.replies.is_complete()
            &&& end.result().sub_comments == Seq::<CommentView>::empty()
        }),
{
    lemma_no_roots(0, responses);
}

/// A comment of which a positive number of levels of replies is wanted is
/// first asked for its first `COMMENT_WIDTH` children, as many as it has of
/// them, each with one level less.
pub proof fn lemma_comment_with_depth(comment: CommentView, depth: int)
    requires
        depth > 0,
    ensures
        ({
            let start = CommentFetchView::start(comment, depth);
            &&& start.replies.requests() == first_n(comment.kids, COMMENT_WIDTH as nat)
            &&& start.replies.requests().len() == (if comment.kids.len() < COMMENT_WIDTH {
                comment.kids.len()
            } else {
                COMMENT_WIDTH as nat
            })
            &&& start.replies.depth == depth - 1
        }),
{
}

/// A comment that is fetched to the end from a source is the source's tree
/// of that comment, down to the depth wanted.
pub proof fn lemma_comment_fetch(source: Source, id: i64, depth: int)
    requires
        source.contains_key(id),
    ensures
        ({
            let start = CommentFetchView::start(source[id], depth);
            let end = CommentFetchView { replies: fetched_from(start.replies, source), ..start };
            &&& end.replies.is_complete()
            &&& Some(end.result()) == tree(source, id, if depth > 0 { depth as nat } else { 0 })
        }),
{
    let start = CommentFetchView::start(source[id], depth);
    lemma_fetched_from(start.replies, source);
    if depth <= 0 {
        assert(forest(source, Seq::<i64>::empty(), 0) =~= Seq::<CommentView>::empty());
    }
}

/// The comments of a story that is fetched to the end from a source are the
/// source's trees of the story's first `COMMENT_WIDTH` children, each
/// `COMMENT_DEPTH` levels deep: no other child is asked for.
pub proof fn lemma_story_fetch(source: Source, id: i64, story: StoryPageDataView)
    ensures
        ({
            let start = StoryFetchView::start(id, story);
            let end = StoryFetchView { comments: fetched_from(start.comments, source), ..start };
            &&& start.comments.requests() == first_n(story.kids, COMMENT_WIDTH as nat)
            &&& end.comments.is_complete()
            &&& end.page().comments == forest(
                source,
                first_n(story.kids, COMMENT_WIDTH as nat),
                COMMENT_DEPTH as nat,
            )
        }),
{
    let start = StoryFetchView::start(id, story);
    lemma_fetched_from(start.comments, source);
}

/// A story page that was just cached, in a cache that holds at least one
/// page, is found again under its id, and finding it leaves the store as it
/// is: a second `get_story` returns the same page and asks for nothing.
pub proof fn lemma_story_found_again(before: Cache, after: Cache, id: i64, page: StoryPageDataView)
    requires
        before.wf(),
        before.story_capacity() > 0,
        after.stories() == stored(
            before.stories(),
            before.story_capacity(),
            id,
            CachedView::Page(page),
        ),
    ensures
        after.cached_story(id) == Some(page),
        touched(after.stories(), id) == after.stories(),
{
    lemma_stored_then_found(before.stories(), before.story_capacity(), id, CachedView::Page(page));
}


} // verus!

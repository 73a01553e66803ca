//! The data of the feed: sort orders, stories, comments and users.

use vstd::prelude::*;

verus! {

/// The ranked lists that stories can be read from.
#[derive(Copy, Clone, Debug, PartialEq, Eq, Structural)]
pub enum StorySorting {
    Top,
    New,
    Best,
    Show,
    Ask,
}

const TOP: &'static str = "top";

const BEST: &'static str = "best";

const NEW: &'static str = "new";

const SHOW: &'static str = "show";

const ASK: &'static str = "ask";

impl StorySorting {
    /// The lower-case name of the sort order.
    pub open spec fn name(self) -> Seq<char> {
        match self {
            StorySorting::Top => seq!['t', 'o', 'p'],
            StorySorting::Best => seq!['b', 'e', 's', 't'],
            StorySorting::New => seq!['n', 'e', 'w'],
            StorySorting::Show => seq!['s', 'h', 'o', 'w'],
            StorySorting::Ask => seq!['a', 's', 'k'],
        }
    }

    /// The path under which the sort order is served: a slash, then its name.
    pub open spec fn url(self) -> Seq<char> {
        seq!['/'] + self.name()
    }

    /// Every sort order, in the order in which they are offered.
    pub fn all() -> (out: Vec<Self>)
        ensures
            out@ == seq![
                StorySorting::Top,
                StorySorting::Best,
                StorySorting::New,
                StorySorting::Show,
                StorySorting::Ask,
            ],
            forall|s: StorySorting| out@.contains(s),
    {
        let out = vec![
            StorySorting::Top,
            StorySorting::Best,
            StorySorting::New,
            StorySorting::Show,
            StorySorting::Ask,
        ];
        proof {
            assert(out@[0] == StorySorting::Top);
            assert(out@[1] == StorySorting::Best);
            assert(out@[2] == StorySorting::New);
            assert(out@[3] == StorySorting::Show);
            assert(out@[4] == StorySorting::Ask);
            assert(out@ =~= seq![
                StorySorting::Top,
                StorySorting::Best,
                StorySorting::New,
                StorySorting::Show,
                StorySorting::Ask,
            ]);
        }
        out
    }

    /// The sort order that is served under exactly the path `url`, if any.
    pub fn from_url(url: &str) -> (out: Option<Self>)
        ensures
            match out {
                Some(s) => url@ == s.url(),
                None => forall|s: StorySorting| url@ != s.url(),
            },
    {
        let all = Self::all();
        let mut i: usize = 0;
        while i < all.len()
            invariant
                i <= all.len(),
                forall|s: StorySorting| all@.contains(s),
                forall|j: int| 0 <= j < i ==> url@ != (#[trigger] all@[j]).url(),
            decreases all.len() - i,
        {
            let candidate = all[i].to_url();
            if url.to_owned() == candidate {
                return Some(all[i]);
            }
            i = i + 1;
        }
        proof {
            assert forall|s: StorySorting| url@ != s.url() by {
                assert(all@.contains(s));
                let j = choose|j: int| 0 <= j < all@.len() && all@[j] == s;
                assert(url@ != all@[j].url());
            }
        }
        None
    }

    /// The name of the sort order, as it stands in paths.
    pub fn to_str(&self) -> (out: &'static str)
        ensures
            out@ == self.name(),
    {
        proof {
            reveal_strlit("top");
            reveal_strlit("best");
            reveal_strlit("new");
            reveal_strlit("show");
            reveal_strlit("ask");
        }
        let out = match self {
            StorySorting::Top => TOP,
            StorySorting::Best => BEST,
            StorySorting::New => NEW,
            StorySorting::Show => SHOW,
            StorySorting::Ask => ASK,
        };
        assert(out@ =~= self.name());
        out
    }

    /// The path under which the sort order is served.
    pub fn to_url(&self) -> (out: String)
        ensures
            out@ == self.url(),
    {
        proof {
            reveal_strlit("/");
        }
        let out = String::from_str("/").concat(self.to_str());
        assert(out@ =~= self.url());
        out
    }
}

impl Default for StorySorting {
    fn default() -> (out: Self)
        ensures
            out == StorySorting::Top,
    {
        StorySorting::Top
    }
}

/// What a story preview holds, as mathematical values.
pub struct StoryItemView {
    pub id: i64,
    pub title: Seq<char>,
    pub url: Option<Seq<char>>,
    pub text: Option<Seq<char>>,
    pub by: Seq<char>,
    pub score: i64,
    pub descendants: i64,
    pub time: i64,
    pub kids: Seq<i64>,
    pub type_tag: Seq<char>,
}

/// A story without its comments. `time` is in seconds since the Unix epoch.
#[derive(Debug, PartialEq)]
pub struct StoryItem {
    pub id: i64,
    pub title: String,
    pub url: Option<String>,
    pub text: Option<String>,
    pub by: String,
    pub score: i64,
    pub descendants: i64,
    pub time: i64,
    pub kids: Vec<i64>,
    pub type_tag: String,
}

/// The characters of an optional string.
pub open spec fn opt_text(s: Option<String>) -> Option<Seq<char>> {
    match s {
        Some(t) => Some(t@),
        None => None,
    }
}

/// A copy of an optional string.
pub fn clone_opt_text(s: &Option<String>) -> (out: Option<String>)
    ensures
        opt_text(out) == opt_text(*s),
{
    match s {
        Some(t) => Some(t.clone()),
        None => None,
    }
}

/// A copy of a list of ids.
pub fn clone_ids(ids: &Vec<i64>) -> (out: Vec<i64>)
    ensures
        out@ == ids@,
{
    let mut out: Vec<i64> = Vec::new();
    let mut i: usize = 0;
    while i < ids.len()
        invariant
            i <= ids.len(),
            out@ == ids@.take(i as int),
        decreases ids.len() - i,
    {
        out.push(ids[i]);
        i = i + 1;
    }
    out
}

impl View for StoryItem {
    type V = StoryItemView;

    open spec fn view(&self) -> StoryItemView {
        StoryItemView {
            id: self.id,
            title: self.title@,
            url: opt_text(self.url),
            text: opt_text(self.text),
            by: self.by@,
            score: self.score,
            descendants: self.descendants,
            time: self.time,
            kids: self.kids@,
            type_tag: self.type_tag@,
        }
    }
}

impl Clone for StoryItem {
    fn clone(&self) -> (out: Self)
        ensures
            out@ == self@,
    {
        StoryItem {
            id: self.id,
            title: self.title.clone(),
            url: clone_opt_text(&self.url),
            text: clone_opt_text(&self.text),
            by: self.by.clone(),
            score: self.score,
            descendants: self.descendants,
            time: self.time,
            kids: clone_ids(&self.kids),
            type_tag: self.type_tag.clone(),
        }
    }
}

/// What a comment holds, as mathematical values; `sub_comments` are the
/// replies that were materialized below it.
pub struct CommentView {
    pub id: i64,
    pub by: Seq<char>,
    pub text: Seq<char>,
    pub time: i64,
    pub kids: Seq<i64>,
    pub sub_comments: Seq<CommentView>,
    pub type_tag: Seq<char>,
}

/// A comment with the replies that were fetched below it. `by` is empty for a
/// deleted comment; `time` is in seconds since the Unix epoch.
#[derive(Debug, PartialEq)]
pub struct Comment {
    pub id: i64,
    pub by: String,
    pub text: String,
    pub time: i64,
    pub kids: Vec<i64>,
    pub sub_comments: Vec<Comment>,
    pub type_tag: String,
}

/// The view of a comment: its own fields, and the views of its replies.
pub open spec fn comment_view(c: Comment) -> CommentView
    decreases c,
{
    CommentView {
        id: c.id,
        by: c.by@,
        text: c.text@,
        time: c.time,
        kids: c.kids@,
        sub_comments: Seq::new(
            c.sub_comments@.len(),
            |i: int|
                if 0 <= i < c.sub_comments@.len() {
                    comment_view(c.sub_comments@[i])
                } else {
                    arbitrary()
                },
        ),
        type_tag: c.type_tag@,
    }
}

impl View for Comment {
    type V = CommentView;

    open spec fn view(&self) -> CommentView {
        comment_view(*self)
    }
}

/// The views of a sequence of comments.
pub open spec fn comment_views(comments: Seq<Comment>) -> Seq<CommentView> {
    comments.map_values(|c: Comment| c@)
}

/// The views of a sequence of story previews.
pub open spec fn story_views(stories: Seq<StoryItem>) -> Seq<StoryItemView> {
    stories.map_values(|s: StoryItem| s@)
}

/// The replies in a comment's view are the views of its replies.
pub broadcast proof fn lemma_sub_comment_views(c: Comment)
    ensures
        (#[trigger] c@).sub_comments == comment_views(c.sub_comments@),
{
    assert(c@.sub_comments.len() == c.sub_comments@.len());
    assert forall|i: int| 0 <= i < c.sub_comments@.len() implies c@.sub_comments[i]
        == comment_views(c.sub_comments@)[i] by {}
    assert(c@.sub_comments =~= comment_views(c.sub_comments@));
}

/// The views of a sequence that grows by one comment.
pub proof fn lemma_comment_views_push(comments: Seq<Comment>, c: Comment)
    ensures
        comment_views(comments.push(c)) == comment_views(comments).push(c@),
{
    assert(comment_views(comments.push(c)) =~= comment_views(comments).push(c@));
}

/// The views of a sequence that grows by one story preview.
pub proof fn lemma_story_views_push(stories: Seq<StoryItem>, s: StoryItem)
    ensures
        story_views(stories.push(s)) == story_views(stories).push(s@),
{
    assert(story_views(stories.push(s)) =~= story_views(stories).push(s@));
}

/// A copy of a list of comments, replies included.
pub fn clone_comments(comments: &Vec<Comment>) -> (out: Vec<Comment>)
    ensures
        comment_views(out@) == comment_views(comments@),
    decreases comments,
{
    let mut out: Vec<Comment> = Vec::new();
    let mut i: usize = 0;
    while i < comments.len()
        invariant
            i <= comments.len(),
            out.len() == i,
            comment_views(out@) == comment_views(comments@.take(i as int)),
        decreases comments.len() - i,
    {
        let c = comments[i].clone();
        let ghost old_out = out@;
        out.push(c);
        proof {
            lemma_comment_views_push(old_out, c);
            lemma_comment_views_push(comments@.take(i as int), comments@[i as int]);
            assert(comments@.take(i + 1) =~= comments@.take(i as int).push(comments@[i as int]));
        }
        i = i + 1;
    }
    assert(comments@.take(i as int) =~= comments@);
    out
}

impl Clone for Comment {
    fn clone(&self) -> (out: Self)
        ensures
            out@ == self@,
        decreases self,
    {
        let out = Comment {
            id: self.id,
            by: self.by.clone(),
            text: self.text.clone(),
            time: self.time,
            kids: clone_ids(&self.kids),
            sub_comments: clone_comments(&self.sub_comments),
            type_tag: self.type_tag.clone(),
        };
        proof {
            lemma_sub_comment_views(out);
            lemma_sub_comment_views(*self);
        }
        out
    }
}


/// A copy of a list of story previews.
pub fn clone_stories(stories: &Vec<StoryItem>) -> (out: Vec<StoryItem>)
    ensures
        story_views(out@) == story_views(stories@),
{
    let mut out: Vec<StoryItem> = Vec::new();
    let mut i: usize = 0;
    while i < stories.len()
        invariant
            i <= stories.len(),
            out.len() == i,
            story_views(out@) == story_views(stories@.take(i as int)),
        decreases stories.len() - i,
    {
        let s = stories[i].clone();
        proof {
            lemma_story_views_push(out@, s);
            lemma_story_views_push(stories@.take(i as int), stories@[i as int]);
            assert(stories@.take(i + 1) =~= stories@.take(i as int).push(stories@[i as int]));
        }
        out.push(s);
        i = i + 1;
    }
    assert(stories@.take(i as int) =~= stories@);
    out
}

/// What a story page holds, as mathematical values.
pub struct StoryPageDataView {
    pub id: i64,
    pub title: Seq<char>,
    pub url: Option<Seq<char>>,
    pub text: Option<Seq<char>>,
    pub by: Seq<char>,
    pub score: i64,
    pub descendants: i64,
    pub time: i64,
    pub kids: Seq<i64>,
    pub type_tag: Seq<char>,
    pub comments: Seq<CommentView>,
}

impl StoryPageDataView {
    /// The page without its comments.
    pub open spec fn preview(self) -> StoryItemView {
        StoryItemView {
            id: self.id,
            title: self.title,
            url: self.url,
            text: self.text,
            by: self.by,
            score: self.score,
            descendants: self.descendants,
            time: self.time,
            kids: self.kids,
            type_tag: self.type_tag,
        }
    }
}

/// A story with the comment trees that were fetched below it.
#[derive(Debug, PartialEq)]
pub struct StoryPageData {
    pub id: i64,
    pub title: String,
    pub url: Option<String>,
    pub text: Option<String>,
    pub by: String,
    pub score: i64,
    pub descendants: i64,
    pub time: i64,
    pub kids: Vec<i64>,
    pub type_tag: String,
    pub comments: Vec<Comment>,
}

impl View for StoryPageData {
    type V = StoryPageDataView;

    open spec fn view(&self) -> StoryPageDataView {
        StoryPageDataView {
            id: self.id,
            title: self.title@,
            url: opt_text(self.url),
            text: opt_text(self.text),
            by: self.by@,
            score: self.score,
            descendants: self.descendants,
            time: self.time,
            kids: self.kids@,
            type_tag: self.type_tag@,
            comments: comment_views(self.comments@),
        }
    }
}

impl Clone for StoryPageData {
    fn clone(&self) -> (out: Self)
        ensures
            out@ == self@,
    {
        StoryPageData {
            id: self.id,
            title: self.title.clone(),
            url: clone_opt_text(&self.url),
            text: clone_opt_text(&self.text),
            by: self.by.clone(),
            score: self.score,
            descendants: self.descendants,
            time: self.time,
            kids: clone_ids(&self.kids),
            type_tag: self.type_tag.clone(),
            comments: clone_comments(&self.comments),
        }
    }
}

impl StoryPageData {
    /// The preview of this page: every field but the comments.
    pub fn preview(&self) -> (out: StoryItem)
        ensures
            out@ == self@.preview(),
    {
        StoryItem {
            id: self.id,
            title: self.title.clone(),
            url: clone_opt_text(&self.url),
            text: clone_opt_text(&self.text),
            by: self.by.clone(),
            score: self.score,
            descendants: self.descendants,
            time: self.time,
            kids: clone_ids(&self.kids),
            type_tag: self.type_tag.clone(),
        }
    }
}

/// What a user page holds, as mathematical values.
pub struct UserDataView {
    pub id: Seq<char>,
    pub karma: i64,
    pub about: Seq<char>,
    pub submitted: Seq<i64>,
    pub stories: Seq<StoryItemView>,
}

/// A user with the stories, among the first submissions, that could be
/// resolved.
#[derive(Debug, PartialEq)]
pub struct UserData {
    pub id: String,
    pub karma: i64,
    pub about: String,
    pub submitted: Vec<i64>,
    pub stories: Vec<StoryItem>,
}

impl View for UserData {
    type V = UserDataView;

    open spec fn view(&self) -> UserDataView {
        UserDataView {
            id: self.id@,
            karma: self.karma,
            about: self.about@,
            submitted: self.submitted@,
            stories: story_views(self.stories@),
        }
    }
}

impl Clone for UserData {
    fn clone(&self) -> (out: Self)
        ensures
            out@ == self@,
    {
        UserData {
            id: self.id.clone(),
            karma: self.karma,
            about: self.about.clone(),
            submitted: clone_ids(&self.submitted),
            stories: clone_stories(&self.stories),
        }
    }
}


} // verus!

//! The payload that is shown.

use crate::types::{
    clone_stories, story_views, Comment, CommentView, StoryItem, StoryItemView, StoryPageData,
    StoryPageDataView, UserData, UserDataView,
};
use vstd::prelude::*;
use vstd::std_specs::convert::FromSpecImpl;

verus! {

/// What is shown, as mathematical values.
pub enum ContentView {
    Stories(Seq<StoryItemView>),
    StoryPage(StoryPageDataView),
    CommentPermalink(CommentView),
    UserPage(UserDataView),
}

/// What is shown: exactly one of a list of stories, a story page, the
/// permalink view of a comment, and a user page.
#[derive(Debug, PartialEq)]
pub enum Content {
    Stories(Vec<StoryItem>),
    StoryPage(StoryPageData),
    CommentPermalink(Comment),
    UserPage(UserData),
}

impl View for Content {
    type V = ContentView;

    open spec fn view(&self) -> ContentView {
        match self {
            Content::Stories(stories) => ContentView::Stories(story_views(stories@)),
            Content::StoryPage(page) => ContentView::StoryPage(page@),
            Content::CommentPermalink(comment) => ContentView::CommentPermalink(comment@),
            Content::UserPage(user) => ContentView::UserPage(user@),
        }
    }
}

impl Clone for Content {
    fn clone(&self) -> (out: Self)
        ensures
            out@ == self@,
    {
        match self {
            Content::Stories(stories) => Content::Stories(clone_stories(stories)),
            Content::StoryPage(page) => Content::StoryPage(page.clone()),
            Content::CommentPermalink(comment) => Content::CommentPermalink(comment.clone()),
            Content::UserPage(user) => Content::UserPage(user.clone()),
        }
    }
}

impl From<Vec<StoryItem>> for Content {
    fn from(stories: Vec<StoryItem>) -> (out: Self) {
        Content::Stories(stories)
    }
}

impl FromSpecImpl<Vec<StoryItem>> for Content {
    open spec fn obeys_from_spec() -> bool {
        true
    }

    open spec fn from_spec(stories: Vec<StoryItem>) -> Self {
        Content::Stories(stories)
    }
}

impl From<StoryPageData> for Content {
    fn from(page: StoryPageData) -> (out: Self) {
        Content::StoryPage(page)
    }
}

impl FromSpecImpl<StoryPageData> for Content {
    open spec fn obeys_from_spec() -> bool {
        true
    }

    open spec fn from_spec(page: StoryPageData) -> Self {
        Content::StoryPage(page)
    }
}

impl From<Comment> for Content {
    fn from(comment: Comment) -> (out: Self) {
        Content::CommentPermalink(comment)
    }
}

impl FromSpecImpl<Comment> for Content {
    open spec fn obeys_from_spec() -> bool {
        true
    }

    open spec fn from_spec(comment: Comment) -> Self {
        Content::CommentPermalink(comment)
    }
}

impl From<UserData> for Content {
    fn from(user: UserData) -> (out: Self) {
        Content::UserPage(user)
    }
}

impl FromSpecImpl<UserData> for Content {
    open spec fn obeys_from_spec() -> bool {
        true
    }

    open spec fn from_spec(user: UserData) -> Self {
        Content::UserPage(user)
    }
}

} // verus!

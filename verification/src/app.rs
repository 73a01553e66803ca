//! The navigation state machine: requests and their paths, events, commands
//! and the state of the application.

use crate::content::{Content, ContentView};
use crate::error::{ServerError, ServerErrorView};
use crate::routes::{
    chars_are_root, comment_name, is_root_url, item_name, lemma_first_segment_whole,
    lemma_path_argument_of_path, lemma_trim_end, lemma_trim_start, user_name,
};
use crate::text::{chars_of, decimal, lemma_decimal_chars, lemma_parse_decimal};
use crate::types::{Comment, StoryItem, StoryPageData, StorySorting, UserData};
use vstd::prelude::*;

verus! {

/// What can be asked of the aggregator, as mathematical values.
pub enum RequestView {
    Stories,
    StoriesSorted(StorySorting),
    StoryPage(i64),
    CommentPermalink(i64),
    UserPage(Seq<char>),
}

/// What can be asked of the aggregator: the stories in the default order,
/// the stories in a given order, a story page, the permalink view of a
/// comment, or the page of a user.
#[derive(Debug, PartialEq)]
pub enum Request {
    Stories,
    StoriesSorted(StorySorting),
    StoryPage(i64),
    CommentPermalink(i64),
    UserPage(String),
}

impl View for Request {
    type V = RequestView;

    open spec fn view(&self) -> RequestView {
        match self {
            Request::Stories => RequestView::Stories,
            Request::StoriesSorted(sorting) => RequestView::StoriesSorted(*sorting),
            Request::StoryPage(id) => RequestView::StoryPage(*id),
            Request::CommentPermalink(id) => RequestView::CommentPermalink(*id),
            Request::UserPage(name) => RequestView::UserPage(name@),
        }
    }
}

/// The sort order that is served under exactly the path `url`, if any.
pub open spec fn sorting_of(url: Seq<char>) -> Option<StorySorting> {
    if url == StorySorting::Top.url() {
        Some(StorySorting::Top)
    } else if url == StorySorting::Best.url() {
        Some(StorySorting::Best)
    } else if url == StorySorting::New.url() {
        Some(StorySorting::New)
    } else if url == StorySorting::Show.url() {
        Some(StorySorting::Show)
    } else if url == StorySorting::Ask.url() {
        Some(StorySorting::Ask)
    } else {
        None
    }
}

impl RequestView {
    /// The canonical path of the request.
    pub open spec fn url(self) -> Seq<char> {
        match self {
            RequestView::Stories => seq!['/'],
            RequestView::StoriesSorted(sorting) => sorting.url(),
            RequestView::StoryPage(id) => StoryItem::url_of(id),
            RequestView::CommentPermalink(id) => Comment::url_of(id),
            RequestView::UserPage(name) => UserData::url_of(name),
        }
    }

    /// The request that a path stands for. The path is held against the
    /// path of a sort order, of a story, of a comment, of a user and the root
    /// path, in this order, and the first that fits decides.
    pub open spec fn of_url(url: Seq<char>) -> Option<RequestView> {
        if sorting_of(url) is Some {
            Some(RequestView::StoriesSorted(sorting_of(url)->0))
        } else if StoryItem::url_id(url) is Some {
            Some(RequestView::StoryPage(StoryItem::url_id(url)->0))
        } else if Comment::url_id(url) is Some {
            Some(RequestView::CommentPermalink(Comment::url_id(url)->0))
        } else if UserData::url_id(url) is Some {
            Some(RequestView::UserPage(UserData::url_id(url)->0))
        } else if is_root_url(url) {
            Some(RequestView::Stories)
        } else {
            None
        }
    }
}

/// The paths of the sort orders differ from one another.
pub proof fn lemma_sorting_urls(sorting: StorySorting)
    ensures
        sorting_of(sorting.url()) == Some(sorting),
        sorting.url().len() >= 4,
        sorting.url()[0] == '/',
        sorting.url()[1] != 'i' && sorting.url()[1] != 'c' && sorting.url()[1] != 'u',
{
    let top = StorySorting::Top.url();
    let best = StorySorting::Best.url();
    let new = StorySorting::New.url();
    let show = StorySorting::Show.url();
    let ask = StorySorting::Ask.url();
    assert(top[1] == 't' && best[1] == 'b' && new[1] == 'n' && show[1] == 's' && ask[1] == 'a');
}

impl Request {
    /// The canonical path of the request.
    pub fn to_url(&self) -> (out: String)
        ensures
            out@ == self@.url(),
    {
        match self {
            Request::Stories => {
                proof {
                    reveal_strlit("/");
                }
                let out = String::from_str("/");
                assert(out@ =~= seq!['/']);
                out
            },
            Request::StoriesSorted(sorting) => sorting.to_url(),
            Request::StoryPage(id) => StoryItem::to_url(*id),
            Request::CommentPermalink(id) => Comment::to_url(*id),
            Request::UserPage(name) => UserData::to_url(name.as_str()),
        }
    }

    /// The request that a path stands for, if it stands for one.
    pub fn from_url(url: &str) -> (out: Option<Request>)
        ensures
            match out {
                Some(request) => RequestView::of_url(url@) == Some(request@),
                None => RequestView::of_url(url@) is None,
            },
    {
        if let Some(sorting) = StorySorting::from_url(url) {
            proof {
                lemma_sorting_urls(sorting);
            }
            Some(Request::StoriesSorted(sorting))
        } else if let Some(story_id) = StoryItem::id_from_url(url) {
            Some(Request::StoryPage(story_id))
        } else if let Some(comment_id) = Comment::id_from_url(url) {
            Some(Request::CommentPermalink(comment_id))
        } else if let Some(username) = UserData::id_from_url(url) {
            Some(Request::UserPage(username))
        } else if chars_are_root(&chars_of(url)) {
            Some(Request::Stories)
        } else {
            None
        }
    }
}

/// Whether a request can be told from its canonical path: a user's name
/// must hold no slash, since a path ends a name at the first one.
pub open spec fn addressable(request: RequestView) -> bool {
    match request {
        RequestView::UserPage(name) => forall|i: int| 0 <= i < name.len() ==> name[i] != '/',
        _ => true,
    }
}

/// The canonical path of a request stands for that request.
pub proof fn lemma_url_round_trip(request: RequestView)
    requires
        addressable(request),
    ensures
        RequestView::of_url(request.url()) == Some(request),
{
    let url = request.url();
    let item = seq!['/'] + item_name() + seq!['/'];
    let comment = seq!['/'] + comment_name() + seq!['/'];
    let user = seq!['/'] + user_name() + seq!['/'];
    assert(item[1] == 'i' && comment[1] == 'c' && user[1] == 'u');
    assert(item.len() == 6 && comment.len() == 9 && user.len() == 6);
    lemma_sorting_urls(StorySorting::Top);
    lemma_sorting_urls(StorySorting::Best);
    lemma_sorting_urls(StorySorting::New);
    lemma_sorting_urls(StorySorting::Show);
    lemma_sorting_urls(StorySorting::Ask);
    match request {
        RequestView::Stories => {
            assert(url.len() == 1 && url[0] == '/');
            lemma_trim_start(url, 0);
            lemma_trim_end(url, 1);
            assert(url.skip(0) =~= url);
            assert(url.take(1) =~= url);
        },
        RequestView::StoriesSorted(sorting) => {
            lemma_sorting_urls(sorting);
            assert(sorting_of(url) == Some(sorting));
        },
        RequestView::StoryPage(id) => {
            let text = decimal(id as int);
            lemma_decimal_chars(id as int);
            lemma_parse_decimal(id as int);
            lemma_first_segment_whole(text);
            lemma_path_argument_of_path(item_name(), text);
            assert(url[1] == 'i');
        },
        RequestView::CommentPermalink(id) => {
            let text = decimal(id as int);
            lemma_decimal_chars(id as int);
            lemma_parse_decimal(id as int);
            lemma_first_segment_whole(text);
            lemma_path_argument_of_path(comment_name(), text);
            assert(url[1] == 'c');
            assert(!item.is_prefix_of(url)) by {
                if item.is_prefix_of(url) {
                    assert(url.subrange(0, 6)[1] == item[1]);
                }
            }
        },
        RequestView::UserPage(name) => {
            lemma_first_segment_whole(name);
            lemma_path_argument_of_path(user_name(), name);
            assert(url[1] == 'u');
            assert(!item.is_prefix_of(url)) by {
                if item.is_prefix_of(url) {
                    assert(url.subrange(0, 6)[1] == item[1]);
                }
            }
            assert(!comment.is_prefix_of(url)) by {
                if comment.is_prefix_of(url) {
                    assert(url.subrange(0, 9)[1] == comment[1]);
                }
            }
        },
    }
}

/// The state of the content, as mathematical values.
pub enum FetchStatusView<V> {
    Idle,
    Complete(V),
    Error(Seq<char>),
}

/// The state of the content: nothing was fetched yet, the last fetch
/// brought a value, or it failed with a message.
#[derive(Debug, PartialEq)]
pub enum FetchStatus<T> {
    Idle,
    Complete(T),
    Error(String),
}

impl<T: Clone> Clone for FetchStatus<T> {
    fn clone(&self) -> (out: Self)
        ensures
            match (*self, out) {
                (FetchStatus::Idle, FetchStatus::Idle) => true,
                (FetchStatus::Complete(_), FetchStatus::Complete(_)) => true,
                (FetchStatus::Error(a), FetchStatus::Error(b)) => a@ == b@,
                _ => false,
            },
    {
        match self {
            FetchStatus::Idle => FetchStatus::Idle,
            FetchStatus::Complete(value) => FetchStatus::Complete(value.clone()),
            FetchStatus::Error(message) => FetchStatus::Error(message.clone()),
        }
    }
}

impl<T: View> View for FetchStatus<T> {
    type V = FetchStatusView<T::V>;

    open spec fn view(&self) -> FetchStatusView<T::V> {
        match self {
            FetchStatus::Idle => FetchStatusView::Idle,
            FetchStatus::Complete(value) => FetchStatusView::Complete(value@),
            FetchStatus::Error(message) => FetchStatusView::Error(message@),
        }
    }
}

/// An event of the application, as mathematical values.
pub enum MsgView {
    FetchStories,
    FetchStoriesSorted(StorySorting),
    OpenStory(i64),
    ShowUserPage(Seq<char>),
    ShowCommentPermalink(i64),
    ReceivedContent(ContentView),
    RequestError(ServerErrorView),
    UrlChanged(Seq<char>),
    NoOp,
}

/// An event of the application: a navigation that the user asks for, the
/// outcome of a fetch, a change of the address by the browser, or nothing.
#[derive(Debug, PartialEq)]
pub enum Msg {
    FetchStories,
    FetchStoriesSorted(StorySorting),
    OpenStory(i64),
    /// Show the page of the user with this name.
    ShowUserPage(String),
    ShowCommentPermalink(i64),
    /// The content that a fetch brought.
    ReceivedContent(Content),
    RequestError(ServerError),
    /// The new path, after the browser went back or forward.
    UrlChanged(String),
    NoOp,
}

impl View for Msg {
    type V = MsgView;

    open spec fn view(&self) -> MsgView {
        match self {
            Msg::FetchStories => MsgView::FetchStories,
            Msg::FetchStoriesSorted(sorting) => MsgView::FetchStoriesSorted(*sorting),
            Msg::OpenStory(id) => MsgView::OpenStory(*id),
            Msg::ShowUserPage(name) => MsgView::ShowUserPage(name@),
            Msg::ShowCommentPermalink(id) => MsgView::ShowCommentPermalink(*id),
            Msg::ReceivedContent(content) => MsgView::ReceivedContent(content@),
            Msg::RequestError(error) => MsgView::RequestError(error@),
            Msg::UrlChanged(url) => MsgView::UrlChanged(url@),
            Msg::NoOp => MsgView::NoOp,
        }
    }
}

/// What the application asks its surroundings to do, as mathematical
/// values.
pub enum CmdView {
    ListenToUrlChanges,
    PushUrl(Seq<char>),
    Fetch(RequestView),
    ScrollToTop,
}

/// What the application asks its surroundings to do: to report every change
/// of the address as `Msg::UrlChanged`; to push a path onto the browser's
/// history; to run one aggregation and report its outcome as
/// `Msg::ReceivedContent` or `Msg::RequestError`; to scroll to the top and
/// report `Msg::NoOp`.
#[derive(Debug, PartialEq)]
pub enum Cmd {
    ListenToUrlChanges,
    PushUrl(String),
    Fetch(Request),
    ScrollToTop,
}

impl View for Cmd {
    type V = CmdView;

    open spec fn view(&self) -> CmdView {
        match self {
            Cmd::ListenToUrlChanges => CmdView::ListenToUrlChanges,
            Cmd::PushUrl(url) => CmdView::PushUrl(url@),
            Cmd::Fetch(request) => CmdView::Fetch(request@),
            Cmd::ScrollToTop => CmdView::ScrollToTop,
        }
    }
}

/// The views of a sequence of commands.
pub open spec fn cmd_views(cmds: Seq<Cmd>) -> Seq<CmdView> {
    cmds.map_values(|c: Cmd| c@)
}

impl Msg {
    /// The event that reports the outcome of a fetch: the content that it
    /// brought, or its failure.
    pub fn fetched(outcome: Result<Content, ServerError>) -> (out: Msg)
        ensures
            out@ == (match outcome {
                Ok(content) => MsgView::ReceivedContent(content@),
                Err(error) => MsgView::RequestError(error@),
            }),
    {
        match outcome {
            Ok(content) => Msg::ReceivedContent(content),
            Err(error) => Msg::RequestError(error),
        }
    }
}

impl MsgView {
    /// The request that a navigation asks for; nothing for any other event.
    pub open spec fn intent(self) -> Option<RequestView> {
        match self {
            MsgView::FetchStories => Some(RequestView::Stories),
            MsgView::FetchStoriesSorted(sorting) => Some(RequestView::StoriesSorted(sorting)),
            MsgView::OpenStory(id) => Some(RequestView::StoryPage(id)),
            MsgView::ShowUserPage(name) => Some(RequestView::UserPage(name)),
            MsgView::ShowCommentPermalink(id) => Some(RequestView::CommentPermalink(id)),
            _ => None,
        }
    }

    /// What the event asks the surroundings to do, in order. A navigation
    /// pushes its canonical path, then fetches. Content that arrived scrolls
    /// to the top. A change of the address fetches what the new path stands
    /// for, if anything, without pushing it again, and scrolls to the top
    /// either way.
    pub open spec fn cmds(self) -> Seq<CmdView> {
        match self {
            MsgView::ReceivedContent(_) => seq![CmdView::ScrollToTop],
            MsgView::RequestError(_) => Seq::empty(),
            MsgView::UrlChanged(url) => match RequestView::of_url(url) {
                Some(request) => seq![CmdView::Fetch(request), CmdView::ScrollToTop],
                None => seq![CmdView::ScrollToTop],
            },
            MsgView::NoOp => Seq::empty(),
            _ => seq![CmdView::PushUrl(self.intent()->0.url()), CmdView::Fetch(self.intent()->0)],
        }
    }
}

/// The state of the application, as mathematical values.
pub struct AppView {
    pub content: FetchStatusView<ContentView>,
    pub is_loading: bool,
}

impl AppView {
    /// The state after an event. A navigation, and a change of the address
    /// to a path that stands for a request, start loading and keep the
    /// content. Content that arrived, or a failure with its message, replaces
    /// the content and ends loading. Any other event leaves the state as it
    /// is.
    pub open spec fn updated(self, msg: MsgView) -> AppView {
        match msg {
            MsgView::ReceivedContent(content) => AppView {
                content: FetchStatusView::Complete(content),
                is_loading: false,
            },
            MsgView::RequestError(error) => AppView {
                content: FetchStatusView::Error(error.message()),
                is_loading: false,
            },
            MsgView::UrlChanged(url) => if RequestView::of_url(url) is Some {
                AppView { is_loading: true, ..self }
            } else {
                self
            },
            MsgView::NoOp => self,
            _ => AppView { is_loading: true, ..self },
        }
    }

    /// What a starting application asks its surroundings to do: to report
    /// changes of the address and, where it has no content yet, to fetch
    /// what the current path `url` stands for, or the stories in the default
    /// order where it stands for nothing.
    pub open spec fn init_cmds(self, url: Seq<char>) -> Seq<CmdView> {
        if self.content is Idle {
            seq![
                CmdView::ListenToUrlChanges,
                CmdView::Fetch(
                    match RequestView::of_url(url) {
                        Some(request) => request,
                        None => RequestView::Stories,
                    },
                ),
            ]
        } else {
            seq![CmdView::ListenToUrlChanges]
        }
    }
}

/// The state of the application: the content and whether a fetch is under
/// way.
#[derive(Debug, PartialEq)]
pub struct App {
    /// The content to be shown.
    pub content: FetchStatus<Content>,
    /// Whether a fetch is under way.
    is_loading: bool,
}

impl View for App {
    type V = AppView;

    closed spec fn view(&self) -> AppView {
        AppView { content: self.content@, is_loading: self.is_loading }
    }
}

impl Clone for App {
    fn clone(&self) -> (out: Self)
        ensures
            out@ == self@,
    {
        let content = match &self.content {
            FetchStatus::Idle => FetchStatus::Idle,
            FetchStatus::Complete(content) => FetchStatus::Complete(content.clone()),
            FetchStatus::Error(message) => FetchStatus::Error(message.clone()),
        };
        Self { content, is_loading: self.is_loading }
    }
}

impl Default for App {
    fn default() -> (out: Self)
        ensures
            out@ == (AppView { content: FetchStatusView::Idle, is_loading: true }),
    {
        Self { content: FetchStatus::Idle, is_loading: true }
    }
}

impl App {
    /// Whether a fetch is under way.
    pub fn is_loading(&self) -> (out: bool)
        ensures
            out == self@.is_loading,
    {
        self.is_loading
    }

    /// The state with the given content and loading flag.
    pub fn new(content: FetchStatus<Content>, is_loading: bool) -> (out: Self)
        ensures
            out@ == (AppView { content: content@, is_loading }),
    {
        Self { content, is_loading }
    }

    /// The state that holds the given content and is not loading.
    pub fn with_content(content: Content) -> (out: Self)
        ensures
            out@ == (AppView { content: FetchStatusView::Complete(content@), is_loading: false }),
    {
        Self { content: FetchStatus::Complete(content), is_loading: false }
    }

    /// The state that shows a list of stories and is not loading.
    pub fn with_stories(stories: Vec<StoryItem>) -> (out: Self)
        ensures
            out@ == (AppView {
                content: FetchStatusView::Complete(Content::Stories(stories)@),
                is_loading: false,
            }),
    {
        Self::with_content(Content::from(stories))
    }

    /// The state that shows a story page and is not loading.
    pub fn with_story(story_page: StoryPageData) -> (out: Self)
        ensures
            out@ == (AppView {
                content: FetchStatusView::Complete(Content::StoryPage(story_page)@),
                is_loading: false,
            }),
    {
        Self::with_content(Content::from(story_page))
    }

    /// The state that shows a user page and is not loading.
    pub fn with_user_page(user_data: UserData) -> (out: Self)
        ensures
            out@ == (AppView {
                content: FetchStatusView::Complete(Content::UserPage(user_data)@),
                is_loading: false,
            }),
    {
        Self::with_content(Content::from(user_data))
    }

    /// The state that shows the permalink view of a comment and is not
    /// loading.
    pub fn with_comment_permalink(comment: Comment) -> (out: Self)
        ensures
            out@ == (AppView {
                content: FetchStatusView::Complete(Content::CommentPermalink(comment)@),
                is_loading: false,
            }),
    {
        Self::with_content(Content::from(comment))
    }

    /// The state with which a client starts: the snapshot that the server
    /// handed over, or, where none could be read, no content and loading.
    pub fn hydrate(snapshot: Option<App>) -> (out: Self)
        ensures
            out@ == (match snapshot {
                Some(app) => app@,
                None => AppView { content: FetchStatusView::Idle, is_loading: true },
            }),
    {
        match snapshot {
            Some(app) => app,
            None => App::default(),
        }
    }

    /// What a starting application asks its surroundings to do, where `url`
    /// is the current path.
    pub fn init(&self, url: &str) -> (out: Vec<Cmd>)
        ensures
            cmd_views(out@) == self@.init_cmds(url@),
    {
        let mut out: Vec<Cmd> = Vec::new();
        out.push(Cmd::ListenToUrlChanges);
        match self.content {
            FetchStatus::Idle => {
                let request = match Request::from_url(url) {
                    Some(request) => request,
                    None => Request::Stories,
                };
                out.push(Cmd::Fetch(request));
            },
            _ => {},
        }
        assert(cmd_views(out@) =~= self@.init_cmds(url@));
        out
    }

    /// Takes in an event: changes the state and says what the surroundings
    /// are to do, in order.
    pub fn update(&mut self, msg: Msg) -> (out: Vec<Cmd>)
        ensures
            final(self)@ == old(self)@.updated(msg@),
            cmd_views(out@) == msg@.cmds(),
    {
        let mut out: Vec<Cmd> = Vec::new();
        match msg {
            Msg::FetchStories => {
                self.is_loading = true;
                out.push(Cmd::PushUrl(Request::Stories.to_url()));
                out.push(Cmd::Fetch(Request::Stories));
            },
            Msg::FetchStoriesSorted(sorting) => {
                self.is_loading = true;
                out.push(Cmd::PushUrl(sorting.to_url()));
                out.push(Cmd::Fetch(Request::StoriesSorted(sorting)));
            },
            Msg::OpenStory(story_id) => {
                self.is_loading = true;
                out.push(Cmd::PushUrl(StoryItem::to_url(story_id)));
                out.push(Cmd::Fetch(Request::StoryPage(story_id)));
            },
            Msg::ShowUserPage(username) => {
                self.is_loading = true;
                out.push(Cmd::PushUrl(UserData::to_url(username.as_str())));
                out.push(Cmd::Fetch(Request::UserPage(username)));
            },
            Msg::ShowCommentPermalink(comment_id) => {
                self.is_loading = true;
                out.push(Cmd::PushUrl(Comment::to_url(comment_id)));
                out.push(Cmd::Fetch(Request::CommentPermalink(comment_id)));
            },
            Msg::ReceivedContent(content) => {
                self.content = FetchStatus::Complete(content);
                self.is_loading = false;
                out.push(Cmd::ScrollToTop);
            },
            Msg::RequestError(server_error) => {
                self.is_loading = false;
                self.content = FetchStatus::Error(server_error.message());
            },
            Msg::UrlChanged(url) => {
                match Request::from_url(url.as_str()) {
                    Some(request) => {
                        self.is_loading = true;
                        out.push(Cmd::Fetch(request));
                    },
                    None => {},
                }
                out.push(Cmd::ScrollToTop);
            },
            Msg::NoOp => {},
        }
        assert(cmd_views(out@) =~= msg@.cmds());
        out
    }
}

/// Once the application has content or a failure to show, no event brings
/// it back to the state in which nothing was fetched yet.
pub proof fn lemma_idle_only_at_start(app: AppView, msg: MsgView)
    requires
        !(app.content is Idle),
    ensures
        !(app.updated(msg).content is Idle),
{
}

/// For every navigation, the path that it pushes stands for the request
/// that it fetches: fed back as a change of the address, it fetches the
/// same again. This holds of every request that can be told from its path.
pub proof fn lemma_navigation_round_trip(msg: MsgView)
    requires
        msg.intent() is Some,
        addressable(msg.intent()->0),
    ensures
        msg.cmds() == seq![CmdView::PushUrl(msg.intent()->0.url()), CmdView::Fetch(msg.intent()->0)],
        MsgView::UrlChanged(msg.intent()->0.url()).cmds() == seq![
            CmdView::Fetch(msg.intent()->0),
            CmdView::ScrollToTop,
        ],
{
    lemma_url_round_trip(msg.intent()->0);
}


} // verus!

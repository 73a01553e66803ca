//! Comment trees, fetched level by level.
//!
//! `tree` and `forest` say what is wanted: the comments as the source holds
//! them, cut off at a width and a depth. `CommentForest` is how it is got:
//! each round requests the replies of the comments that the round before
//! brought. The two meet in `lemma_fetched_from`.

use crate::fanout::{after_n, first_n, lemma_somes_len, lemma_somes_push, somes};
use crate::error::ServerError;
use crate::types::{
    clone_ids, comment_views, lemma_comment_views_push, lemma_sub_comment_views, Comment,
    CommentView,
};
use vstd::prelude::*;

verus! {

/// The number of replies that are fetched below one comment, at most.
pub const COMMENT_WIDTH: usize = 3;

/// The comment without any materialized replies.
pub open spec fn bare(c: CommentView) -> CommentView {
    CommentView { sub_comments: Seq::empty(), ..c }
}

/// The ids of the replies that are fetched below a comment: the first
/// `COMMENT_WIDTH` of its child ids.
pub open spec fn reply_ids(c: CommentView) -> Seq<i64> {
    first_n(c.kids, COMMENT_WIDTH as nat)
}

/// The remote source as far as comments go: the comment that it returns for
/// each id for which it returns one.
pub type Source = Map<i64, CommentView>;

/// What the source answers to a request for each of `ids`, in order.
pub open spec fn answers(source: Source, ids: Seq<i64>) -> Seq<Option<CommentView>> {
    ids.map_values(
        |id: i64|
            if source.contains_key(id) {
                Some(source[id])
            } else {
                None
            },
    )
}

/// The comment `id` with its replies down to `depth` levels below it, as
/// the source holds them: below each comment the first `COMMENT_WIDTH`
/// children, those left out that the source does not return. Nothing where
/// the source does not return `id` itself.
pub open spec fn tree(source: Source, id: i64, depth: nat) -> Option<CommentView>
    decreases depth, 0nat, 0nat,
{
    if source.contains_key(id) {
        let c = source[id];
        Some(
            CommentView {
                sub_comments: if depth == 0 {
                    Seq::empty()
                } else {
                    forest(source, reply_ids(c), (depth - 1) as nat)
                },
                ..c
            },
        )
    } else {
        None
    }
}

/// The trees of those of `ids` that the source returns, in the order of
/// `ids`.
pub open spec fn forest(source: Source, ids: Seq<i64>, depth: nat) -> Seq<CommentView>
    decreases depth, 1nat, ids.len(),
{
    if ids.len() == 0 {
        Seq::empty()
    } else {
        let init = forest(source, ids.drop_last(), depth);
        match tree(source, ids.last(), depth) {
            Some(c) => init.push(c),
            None => init,
        }
    }
}

/// Whether a comment tree is no wider than `COMMENT_WIDTH` at any comment
/// and no deeper than `depth` levels of replies.
pub open spec fn within(c: CommentView, depth: nat) -> bool
    decreases depth,
{
    &&& c.sub_comments.len() <= COMMENT_WIDTH
    &&& depth == 0 ==> c.sub_comments.len() == 0
    &&& depth > 0 ==> forall|i: int|
        0 <= i < c.sub_comments.len() ==> within(#[trigger] c.sub_comments[i], (depth - 1) as nat)
}

/// The tree of a comment is no wider than `COMMENT_WIDTH` at any comment and
/// no deeper than the depth asked for.
pub proof fn lemma_tree_within(source: Source, id: i64, depth: nat)
    requires
        source.contains_key(id),
    ensures
        within(tree(source, id, depth)->0, depth),
    decreases depth, 0nat, 0nat,
{
    if depth > 0 {
        lemma_forest_within(source, reply_ids(source[id]), (depth - 1) as nat);
    }
}

/// A forest holds no more trees than ids were asked for, and each is no
/// wider than `COMMENT_WIDTH` at any comment and no deeper than the depth
/// asked for.
pub proof fn lemma_forest_within(source: Source, ids: Seq<i64>, depth: nat)
    ensures
        forest(source, ids, depth).len() <= ids.len(),
        forall|i: int|
            0 <= i < forest(source, ids, depth).len() ==> within(
                #[trigger] forest(source, ids, depth)[i],
                depth,
            ),
    decreases depth, 1nat, ids.len(),
{
    if ids.len() > 0 {
        lemma_forest_within(source, ids.drop_last(), depth);
        if source.contains_key(ids.last()) {
            lemma_tree_within(source, ids.last(), depth);
        }
    }
}

/// The comments among `responses`, each without replies, in order.
pub open spec fn fetched(responses: Seq<Option<CommentView>>) -> Seq<CommentView> {
    somes(responses).map_values(|c: CommentView| bare(c))
}

/// The ids to request below one comment whose replies are materialized down
/// to `level` levels: the ids of the replies of the comments at that level.
pub open spec fn node_frontier(c: CommentView, level: nat) -> Seq<i64>
    decreases level, 0nat, 0nat,
{
    if level == 0 {
        reply_ids(c)
    } else {
        frontier(c.sub_comments, (level - 1) as nat)
    }
}

/// The ids to request below `comments`, from left to right.
pub open spec fn frontier(comments: Seq<CommentView>, level: nat) -> Seq<i64>
    decreases level, 1nat, comments.len(),
{
    if comments.len() == 0 {
        Seq::empty()
    } else {
        frontier(comments.drop_last(), level) + node_frontier(comments.last(), level)
    }
}

/// The comment after the responses to its frontier were attached: each
/// comment at `level` has, as its replies, the comments among the responses
/// to its reply ids. `responses` begins with the responses to the frontier of
/// `c`, in order.
pub open spec fn node_attached(
    c: CommentView,
    level: nat,
    responses: Seq<Option<CommentView>>,
) -> CommentView
    decreases level, 0nat, 0nat,
{
    CommentView {
        sub_comments: if level == 0 {
            fetched(first_n(responses, reply_ids(c).len()))
        } else {
            attached(c.sub_comments, (level - 1) as nat, responses)
        },
        ..c
    }
}

/// `comments` after the responses to their frontier were attached.
pub open spec fn attached(
    comments: Seq<CommentView>,
    level: nat,
    responses: Seq<Option<CommentView>>,
) -> Seq<CommentView>
    decreases level, 1nat, comments.len(),
{
    if comments.len() == 0 {
        Seq::empty()
    } else {
        let init = comments.drop_last();
        attached(init, level, responses).push(
            node_attached(comments.last(), level, after_n(responses, frontier(init, level).len())),
        )
    }
}

/// The comments among responses that grow by one.
pub proof fn lemma_fetched_push(responses: Seq<Option<CommentView>>, r: Option<CommentView>)
    ensures
        fetched(responses.push(r)) == (match r {
            Some(c) => fetched(responses).push(bare(c)),
            None => fetched(responses),
        }),
{
    lemma_somes_push(responses, r);
    match r {
        Some(c) => {
            assert(fetched(responses.push(r)) =~= fetched(responses).push(bare(c)));
        },
        None => {},
    }
}

/// A tree that keeps within some depth keeps within every greater depth.
pub proof fn lemma_within_deeper(c: CommentView, depth: nat)
    requires
        within(c, depth),
    ensures
        within(c, depth + 1),
    decreases depth,
{
    if depth > 0 {
        assert forall|i: int| 0 <= i < c.sub_comments.len() implies within(
            #[trigger] c.sub_comments[i],
            depth,
        ) by {
            lemma_within_deeper(c.sub_comments[i], (depth - 1) as nat);
        }
    }
}

/// Of responses, no more comments are fetched than there are responses, and
/// each is without replies.
pub proof fn lemma_fetched_within(responses: Seq<Option<CommentView>>)
    ensures
        fetched(responses).len() <= responses.len(),
        forall|i: int| 0 <= i < fetched(responses).len() ==> within(#[trigger] fetched(responses)[i], 0),
{
    lemma_somes_len(responses);
}

/// Attaching responses to a tree that keeps within `level` gives a tree that
/// keeps within `level + 1`, whatever the responses are.
pub proof fn lemma_node_attached_within(
    c: CommentView,
    level: nat,
    responses: Seq<Option<CommentView>>,
)
    requires
        within(c, level),
    ensures
        within(node_attached(c, level, responses), level + 1),
    decreases level, 0nat, 0nat,
{
    if level == 0 {
        lemma_fetched_within(first_n(responses, reply_ids(c).len()));
    } else {
        lemma_attached_within(c.sub_comments, (level - 1) as nat, responses);
    }
}

/// Attaching responses to trees that keep within `level` gives as many
/// trees, which keep within `level + 1`, whatever the responses are.
pub proof fn lemma_attached_within(
    comments: Seq<CommentView>,
    level: nat,
    responses: Seq<Option<CommentView>>,
)
    requires
        forall|i: int| 0 <= i < comments.len() ==> within(#[trigger] comments[i], level),
    ensures
        attached(comments, level, responses).len() == comments.len(),
        forall|i: int|
            0 <= i < comments.len() ==> within(
                #[trigger] attached(comments, level, responses)[i],
                level + 1,
            ),
    decreases level, 1nat, comments.len(),
{
    if comments.len() > 0 {
        let init = comments.drop_last();
        assert forall|i: int| 0 <= i < init.len() implies within(#[trigger] init[i], level) by {
            assert(init[i] == comments[i]);
        }
        lemma_attached_within(init, level, responses);
        assert(within(comments[comments.len() - 1], level));
        lemma_node_attached_within(
            comments.last(),
            level,
            after_n(responses, frontier(init, level).len()),
        );
    }
}

/// The answers to two lists of ids, one after the other.
pub proof fn lemma_answers_concat(source: Source, a: Seq<i64>, b: Seq<i64>)
    ensures
        answers(source, a + b) == answers(source, a) + answers(source, b),
{
    assert(answers(source, a + b) =~= answers(source, a) + answers(source, b));
}

/// The comments that the source returns for `ids`, without replies, are
/// their trees of depth zero.
pub proof fn lemma_roots(source: Source, ids: Seq<i64>)
    ensures
        fetched(answers(source, ids)) == forest(source, ids, 0),
    decreases ids.len(),
{
    if ids.len() == 0 {
        assert(fetched(answers(source, ids)) =~= Seq::<CommentView>::empty());
    } else {
        let init = ids.drop_last();
        lemma_roots(source, init);
        assert(answers(source, ids).drop_last() =~= answers(source, init));
        let last = answers(source, ids).last();
        assert(answers(source, ids) =~= answers(source, init).push(last));
        lemma_fetched_push(answers(source, init), last);
        if source.contains_key(ids.last()) {
            assert(last == Some(source[ids.last()]));
            assert(tree(source, ids.last(), 0) == Some(bare(source[ids.last()])));
        } else {
            assert(last.is_none());
            assert(tree(source, ids.last(), 0).is_none());
        }
    }
}

/// Attaching the source's answers to the frontier of a tree of depth `level`
/// gives the tree of depth `level + 1`, whatever follows those answers.
pub proof fn lemma_tree_grows(
    source: Source,
    id: i64,
    level: nat,
    extra: Seq<Option<CommentView>>,
)
    requires
        source.contains_key(id),
    ensures
        node_attached(
            tree(source, id, level)->0,
            level,
            answers(source, node_frontier(tree(source, id, level)->0, level)) + extra,
        ) == tree(source, id, level + 1)->0,
    decreases level, 0nat, 0nat,
{
    let c = source[id];
    let t = tree(source, id, level)->0;
    let ids = reply_ids(c);
    assert(reply_ids(t) == ids);
    let responses = answers(source, node_frontier(t, level)) + extra;
    if level == 0 {
        assert(first_n(responses, ids.len()) =~= answers(source, ids));
        lemma_roots(source, ids);
    } else {
        lemma_forest_grows(source, ids, (level - 1) as nat, extra);
    }
}

/// Attaching the source's answers to the frontier of a forest of depth
/// `level` gives the forest of depth `level + 1`, whatever follows those
/// answers.
pub proof fn lemma_forest_grows(
    source: Source,
    ids: Seq<i64>,
    level: nat,
    extra: Seq<Option<CommentView>>,
)
    ensures
        attached(
            forest(source, ids, level),
            level,
            answers(source, frontier(forest(source, ids, level), level)) + extra,
        ) == forest(source, ids, level + 1),
    decreases level, 1nat, ids.len(),
{
    let comments = forest(source, ids, level);
    let responses = answers(source, frontier(comments, level)) + extra;
    if ids.len() == 0 {
        assert(comments.len() == 0);
        assert(forest(source, ids, level + 1).len() == 0);
    } else {
        let init_ids = ids.drop_last();
        let init = forest(source, init_ids, level);
        let grown = forest(source, init_ids, level + 1);
        if source.contains_key(ids.last()) {
            let t = tree(source, ids.last(), level)->0;
            let t_grown = tree(source, ids.last(), level + 1)->0;
            assert(comments == init.push(t));
            assert(comments.drop_last() =~= init);
            assert(comments.last() == t);
            assert(forest(source, ids, level + 1) == grown.push(t_grown));
            let head = answers(source, frontier(init, level));
            let tail = answers(source, node_frontier(t, level));
            assert(frontier(comments, level) == frontier(init, level) + node_frontier(t, level));
            lemma_answers_concat(source, frontier(init, level), node_frontier(t, level));
            assert(responses =~= head + (tail + extra));
            lemma_forest_grows(source, init_ids, level, tail + extra);
            assert(attached(init, level, responses) == grown);
            assert(after_n(responses, frontier(init, level).len()) =~= tail + extra);
            lemma_tree_grows(source, ids.last(), level, extra);
            assert(node_attached(t, level, tail + extra) == t_grown);
            assert(attached(comments, level, responses) == attached(init, level, responses).push(
                node_attached(t, level, after_n(responses, frontier(init, level).len())),
            ));
        } else {
            assert(comments == init);
            assert(forest(source, ids, level + 1) == grown);
            lemma_forest_grows(source, init_ids, level, extra);
        }
    }
}

/// What each response brought: the comment, or nothing where it failed.
pub open spec fn outcomes(responses: Seq<Result<Comment, ServerError>>) -> Seq<Option<CommentView>> {
    responses.map_values(
        |r: Result<Comment, ServerError>|
            match r {
                Ok(c) => Some(c@),
                Err(_) => None,
            },
    )
}

/// Dropping `a` elements and then `b` drops `a + b`.
pub proof fn lemma_after_after<T>(s: Seq<T>, a: nat, b: nat)
    ensures
        after_n(after_n(s, a), b) == after_n(s, a + b),
{
    assert(after_n(after_n(s, a), b) =~= after_n(s, a + b));
}

/// A copy of a comment without its materialized replies.
pub fn bare_of(c: &Comment) -> (out: Comment)
    ensures
        out@ == bare(c@),
{
    let out = Comment {
        id: c.id,
        by: c.by.clone(),
        text: c.text.clone(),
        time: c.time,
        kids: clone_ids(&c.kids),
        sub_comments: Vec::new(),
        type_tag: c.type_tag.clone(),
    };
    proof {
        lemma_sub_comment_views(out);
        assert(out@.sub_comments =~= Seq::<CommentView>::empty());
    }
    out
}

/// The comments among the next `count` responses from `start` on, each
/// without replies, and the place of the response that follows them.
pub fn take_fetched(
    responses: &Vec<Result<Comment, ServerError>>,
    start: usize,
    count: usize,
) -> (out: (Vec<Comment>, usize))
    requires
        start <= responses.len(),
    ensures
        comment_views(out.0@) == fetched(first_n(outcomes(responses@).skip(start as int), count as nat)),
        start <= out.1 <= responses.len(),
        outcomes(responses@).skip(out.1 as int) == after_n(
            outcomes(responses@).skip(start as int),
            count as nat,
        ),
{
    let ghost rest = outcomes(responses@).skip(start as int);
    let available: usize = responses.len() - start;
    let n: usize = if count <= available { count } else { available };
    assert(first_n(rest, count as nat) =~= rest.take(n as int));
    let mut comments: Vec<Comment> = Vec::new();
    let mut i: usize = 0;
    while i < n
        invariant
            i <= n <= responses.len() - start,
            rest == outcomes(responses@).skip(start as int),
            comment_views(comments@) == fetched(rest.take(i as int)),
        decreases n - i,
    {
        proof {
            assert(rest.take(i + 1) =~= rest.take(i as int).push(rest[i as int]));
            lemma_fetched_push(rest.take(i as int), rest[i as int]);
        }
        match &responses[start + i] {
            Ok(c) => {
                let b = bare_of(c);
                proof {
                    lemma_comment_views_push(comments@, b);
                }
                comments.push(b);
            },
            Err(_) => {},
        }
        i = i + 1;
    }
    assert(outcomes(responses@).skip(start + n) =~= after_n(rest, count as nat));
    (comments, start + n)
}

/// Appends to `out` the ids to request below `comments`, whose replies are
/// materialized down to `level` levels.
pub fn collect_frontier(comments: &Vec<Comment>, level: u64, out: &mut Vec<i64>)
    ensures
        final(out)@ == old(out)@ + frontier(comment_views(comments@), level as nat),
    decreases level,
{
    let ghost views = comment_views(comments@);
    let mut i: usize = 0;
    while i < comments.len()
        invariant
            i <= comments.len(),
            views == comment_views(comments@),
            out@ == old(out)@ + frontier(views.take(i as int), level as nat),
        decreases comments.len() - i,
    {
        let c = &comments[i];
        let ghost before = out@;
        proof {
            assert(views.take(i + 1).drop_last() =~= views.take(i as int));
            assert(views.take(i + 1).last() == c@);
            lemma_sub_comment_views(*c);
        }
        if level == 0 {
            let n: usize = if COMMENT_WIDTH <= c.kids.len() { COMMENT_WIDTH } else { c.kids.len() };
            let mut j: usize = 0;
            while j < n
                invariant
                    j <= n <= c.kids.len(),
                    out@ == before + c.kids@.take(j as int),
                decreases n - j,
            {
                out.push(c.kids[j]);
                assert(c.kids@.take(j + 1) =~= c.kids@.take(j as int).push(c.kids@[j as int]));
                j = j + 1;
            }
            assert(c.kids@.take(n as int) =~= reply_ids(c@));
        } else {
            collect_frontier(&c.sub_comments, level - 1, out);
        }
        assert(out@ == before + node_frontier(c@, level as nat));
        assert(frontier(views.take(i + 1), level as nat) == frontier(
            views.take(i as int),
            level as nat,
        ) + node_frontier(c@, level as nat));
        assert(out@ =~= old(out)@ + frontier(views.take(i + 1), level as nat));
        i = i + 1;
    }
    assert(views.take(comments.len() as int) =~= views);
}

/// Attaches the responses from `start` on to `comments`, whose replies are
/// materialized down to `level` levels, and gives the place of the response
/// that follows those that belong to them.
pub fn attach_responses(
    comments: &mut Vec<Comment>,
    level: u64,
    responses: &Vec<Result<Comment, ServerError>>,
    start: usize,
) -> (next: usize)
    requires
        start <= responses.len(),
    ensures
        comment_views(final(comments)@) == attached(
            comment_views(old(comments)@),
            level as nat,
            outcomes(responses@).skip(start as int),
        ),
        start <= next <= responses.len(),
        outcomes(responses@).skip(next as int) == after_n(
            outcomes(responses@).skip(start as int),
            frontier(comment_views(old(comments)@), level as nat).len(),
        ),
    decreases level,
{
    let ghost views = comment_views(comments@);
    let ghost all = outcomes(responses@).skip(start as int);
    let mut next: usize = start;
    let mut i: usize = 0;
    assert(after_n(all, 0) =~= all);
    while i < comments.len()
        invariant
            i <= comments.len(),
            comments.len() == old(comments).len(),
            views == comment_views(old(comments)@),
            all == outcomes(responses@).skip(start as int),
            start <= next <= responses.len(),
            forall|k: int| i <= k < comments.len() ==> comments@[k] == old(comments)@[k],
            comment_views(comments@.take(i as int)) == attached(
                views.take(i as int),
                level as nat,
                all,
            ),
            outcomes(responses@).skip(next as int) == after_n(
                all,
                frontier(views.take(i as int), level as nat).len(),
            ),
        decreases comments.len() - i,
    {
        let ghost done = comments@.take(i as int);
        let ghost rest = outcomes(responses@).skip(next as int);
        let ghost node = views[i as int];
        proof {
            assert(views.take(i + 1).drop_last() =~= views.take(i as int));
            assert(views.take(i + 1).last() == node);
            assert(node == comments@[i as int]@);
            lemma_sub_comment_views(comments@[i as int]);
            lemma_after_after(
                all,
                frontier(views.take(i as int), level as nat).len(),
                node_frontier(node, level as nat).len(),
            );
        }
        if level == 0 {
            let kids: usize = comments[i].kids.len();
            let width: usize = if COMMENT_WIDTH <= kids { COMMENT_WIDTH } else { kids };
            assert(width == reply_ids(node).len());
            let (replies, after) = take_fetched(responses, next, width);
            comments[i].sub_comments = replies;
            next = after;
        } else {
            next = attach_responses(&mut comments[i].sub_comments, level - 1, responses, next);
        }
        proof {
            let c = comments@[i as int];
            lemma_sub_comment_views(c);
            assert(c@ == node_attached(node, level as nat, rest));
            assert(comments@.take(i + 1) =~= done.push(c));
            lemma_comment_views_push(done, c);
        }
        i = i + 1;
    }
    assert(views.take(comments.len() as int) =~= views);
    assert(comments@.take(comments.len() as int) =~= comments@);
    next
}

/// A forest of comment trees under construction, as mathematical values.
pub struct ForestView {
    /// The ids of the roots that were asked for.
    pub ids: Seq<i64>,
    /// The number of levels of replies wanted below the roots.
    pub depth: nat,
    /// The number of rounds of responses taken in so far.
    pub rounds: nat,
    /// The roots that were fetched, with the replies attached so far.
    pub roots: Seq<CommentView>,
}

impl ForestView {
    /// The ids to request in the next round: first the roots, then, level by
    /// level down to the depth wanted, the replies of the comments fetched in
    /// the round before. Nothing once every level has been taken in.
    pub open spec fn requests(self) -> Seq<i64> {
        if self.rounds == 0 {
            self.ids
        } else if self.rounds <= self.depth {
            frontier(self.roots, (self.rounds - 1) as nat)
        } else {
            Seq::empty()
        }
    }

    /// The forest after a round of responses, which answer `requests()` one
    /// by one, in order. A request without a response counts as failed.
    pub open spec fn supplied(self, responses: Seq<Option<CommentView>>) -> ForestView {
        if self.rounds == 0 {
            ForestView { rounds: 1, roots: fetched(first_n(responses, self.ids.len())), ..self }
        } else if self.rounds <= self.depth {
            ForestView {
                rounds: self.rounds + 1,
                roots: attached(self.roots, (self.rounds - 1) as nat, responses),
                ..self
            }
        } else {
            self
        }
    }

    /// Whether every level down to the depth wanted has been taken in.
    pub open spec fn is_complete(self) -> bool {
        self.rounds > self.depth
    }

    /// What holds of a forest whatever the responses were: it has no more
    /// roots than were asked for, and every tree is no wider than
    /// `COMMENT_WIDTH` at any comment and no deeper than the levels taken in.
    pub open spec fn bounded(self) -> bool {
        &&& self.roots.len() <= self.ids.len()
        &&& self.rounds == 0 ==> self.roots.len() == 0
        &&& self.rounds > 0 ==> forall|i: int|
            0 <= i < self.roots.len() ==> within(#[trigger] self.roots[i], (self.rounds - 1) as nat)
    }

    /// Whether the forest holds what `source` holds, as far as it was
    /// fetched: after the first round the trees of its roots, cut off below
    /// the last level taken in.
    pub open spec fn tracks(self, source: Source) -> bool {
        if self.rounds == 0 {
            self.roots == Seq::<CommentView>::empty()
        } else {
            self.rounds <= self.depth + 1 && self.roots == forest(
                source,
                self.ids,
                (self.rounds - 1) as nat,
            )
        }
    }
}

/// A round of responses that are the source's answers to the requests
/// keeps a forest in step with the source.
pub proof fn lemma_supplied_tracks(
    before: ForestView,
    source: Source,
    extra: Seq<Option<CommentView>>,
)
    requires
        before.tracks(source),
    ensures
        before.supplied(answers(source, before.requests()) + extra).tracks(source),
{
    let responses = answers(source, before.requests()) + extra;
    if before.rounds == 0 {
        assert(first_n(responses, before.ids.len()) =~= answers(source, before.ids));
        lemma_roots(source, before.ids);
    } else if before.rounds <= before.depth {
        lemma_forest_grows(source, before.ids, (before.rounds - 1) as nat, extra);
    }
}

/// A round of responses, whatever they are, keeps a forest bounded.
pub proof fn lemma_supplied_bounded(before: ForestView, responses: Seq<Option<CommentView>>)
    requires
        before.bounded(),
    ensures
        before.supplied(responses).bounded(),
{
    if before.rounds == 0 {
        lemma_fetched_within(first_n(responses, before.ids.len()));
    } else if before.rounds <= before.depth {
        lemma_attached_within(before.roots, (before.rounds - 1) as nat, responses);
    }
}

/// The trees of a bounded forest that is complete are no deeper than the
/// depth wanted.
pub proof fn lemma_bounded_depth(f: ForestView)
    requires
        f.bounded(),
        f.rounds <= f.depth + 1,
    ensures
        forall|i: int| 0 <= i < f.roots.len() ==> within(#[trigger] f.roots[i], f.depth),
    decreases f.depth + 1 - f.rounds,
{
    if 0 < f.rounds <= f.depth {
        let next = ForestView { rounds: f.rounds + 1, ..f };
        assert forall|i: int| 0 <= i < f.roots.len() implies within(
            #[trigger] next.roots[i],
            (next.rounds - 1) as nat,
        ) by {
            lemma_within_deeper(f.roots[i], (f.rounds - 1) as nat);
        }
        lemma_bounded_depth(next);
    }
}

/// The forest after it was fetched to the end from `source`: round after
/// round, the source's answers to the requests are taken in.
pub open spec fn fetched_from(f: ForestView, source: Source) -> ForestView
    decreases f.depth + 1 - f.rounds,
{
    if f.is_complete() {
        f
    } else {
        fetched_from(f.supplied(answers(source, f.requests())), source)
    }
}

/// A forest that is in step with the source and is fetched to the end
/// from it holds the trees of its roots down to the depth wanted.
pub proof fn lemma_fetched_from(f: ForestView, source: Source)
    requires
        f.tracks(source),
    ensures
        fetched_from(f, source).is_complete(),
        fetched_from(f, source).ids == f.ids,
        fetched_from(f, source).depth == f.depth,
        fetched_from(f, source).roots == forest(source, f.ids, f.depth),
    decreases f.depth + 1 - f.rounds,
{
    if !f.is_complete() {
        let responses = answers(source, f.requests());
        lemma_supplied_tracks(f, source, Seq::empty());
        assert(responses + Seq::<Option<CommentView>>::empty() =~= responses);
        lemma_fetched_from(f.supplied(responses), source);
    }
}

/// A forest without roots asks for nothing and is complete after one
/// round, whatever that round brings: no comment is attached.
pub proof fn lemma_no_roots(depth: nat, responses: Seq<Option<CommentView>>)
    ensures
        ({
            let f = ForestView { ids: Seq::empty(), depth, rounds: 0, roots: Seq::empty() };
            &&& f.requests() == Seq::<i64>::empty()
            &&& f.supplied(responses).roots == Seq::<CommentView>::empty()
            &&& depth == 0 ==> f.supplied(responses).is_complete()
        }),
{
    let f = ForestView { ids: Seq::empty(), depth, rounds: 0, roots: Seq::empty() };
    assert(first_n(responses, 0) =~= Seq::<Option<CommentView>>::empty());
    assert(f.supplied(responses).roots =~= Seq::<CommentView>::empty());
}

/// Below a comment the trees of its first `COMMENT_WIDTH` children stand,
/// each one level less deep than the comment's own tree; a tree of depth
/// zero has no replies.
pub proof fn lemma_tree_replies(source: Source, id: i64, depth: nat)
    requires
        source.contains_key(id),
    ensures
        reply_ids(source[id]).len() == (if source[id].kids.len() < COMMENT_WIDTH {
            source[id].kids.len()
        } else {
            COMMENT_WIDTH as nat
        }),
        depth == 0 ==> tree(source, id, depth)->0.sub_comments == Seq::<CommentView>::empty(),
        depth > 0 ==> tree(source, id, depth)->0.sub_comments == forest(
            source,
            reply_ids(source[id]),
            (depth - 1) as nat,
        ),
{
}

/// A forest of comment trees that is fetched level by level: the roots
/// first, then the replies of each level, down to a fixed depth. Each round
/// asks for `requests()` and hands the responses to `supply`.
pub struct CommentForest {
    ids: Vec<i64>,
    depth: u64,
    rounds: u64,
    roots: Vec<Comment>,
}

impl View for CommentForest {
    type V = ForestView;

    closed spec fn view(&self) -> ForestView {
        ForestView {
            ids: self.ids@,
            depth: self.depth as nat,
            rounds: self.rounds as nat,
            roots: comment_views(self.roots@),
        }
    }
}

impl CommentForest {
    /// The invariant of a forest: no more rounds were taken in than there
    /// are levels, the roots included.
    pub closed spec fn wf(&self) -> bool {
        self.rounds <= self.depth + 1 && self.depth < u64::MAX && self@.bounded()
    }

    /// A forest for the comments `ids` with `depth` levels of replies below
    /// each (none for a negative `depth`), of which nothing is fetched yet.
    pub fn new(ids: Vec<i64>, depth: i64) -> (out: CommentForest)
        ensures
            out.wf(),
            out@ == (ForestView {
                ids: ids@,
                depth: if depth > 0 { depth as nat } else { 0 },
                rounds: 0,
                roots: Seq::empty(),
            }),
    {
        let levels: u64 = if depth > 0 { depth as u64 } else { 0 };
        let out = CommentForest { ids, depth: levels, rounds: 0, roots: Vec::new() };
        assert(out@.roots =~= Seq::<CommentView>::empty());
        out
    }

    /// The ids to request in the next round, in order.
    pub fn requests(&self) -> (out: Vec<i64>)
        requires
            self.wf(),
        ensures
            out@ == self@.requests(),
    {
        if self.rounds == 0 {
            clone_ids(&self.ids)
        } else if self.rounds <= self.depth {
            let mut out: Vec<i64> = Vec::new();
            collect_frontier(&self.roots, self.rounds - 1, &mut out);
            assert(out@ =~= self@.requests());
            out
        } else {
            Vec::new()
        }
    }

    /// Takes in a round of responses, which answer `requests()` one by one,
    /// in order.
    pub fn supply(&mut self, responses: &Vec<Result<Comment, ServerError>>)
        requires
            old(self).wf(),
        ensures
            final(self).wf(),
            final(self)@ == old(self)@.supplied(outcomes(responses@)),
    {
        proof {
            lemma_supplied_bounded(self@, outcomes(responses@));
        }
        assert(outcomes(responses@).skip(0) =~= outcomes(responses@));
        if self.rounds == 0 {
            let (roots, _) = take_fetched(responses, 0, self.ids.len());
            self.roots = roots;
            self.rounds = 1;
        } else if self.rounds <= self.depth {
            let _ = attach_responses(&mut self.roots, self.rounds - 1, responses, 0);
            self.rounds = self.rounds + 1;
        }
    }

    /// Whether every level down to the depth wanted has been taken in.
    pub fn is_complete(&self) -> (out: bool)
        ensures
            out == self@.is_complete(),
    {
        self.rounds > self.depth
    }

    /// The roots that were fetched, in the order in which they were asked
    /// for, with their replies.
    pub fn into_comments(self) -> (out: Vec<Comment>)
        requires
            self.wf(),
        ensures
            comment_views(out@) == self@.roots,
            out.len() <= self@.ids.len(),
            forall|i: int| 0 <= i < out.len() ==> within(#[trigger] out[i]@, self@.depth),
    {
        proof {
            lemma_bounded_depth(self@);
            assert forall|i: int| 0 <= i < self.roots.len() implies within(
                #[trigger] self.roots[i]@,
                self@.depth,
            ) by {
                assert(self@.roots[i] == self.roots[i]@);
            }
        }
        self.roots
    }
}


} // verus!

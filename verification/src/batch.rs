//! Story previews for a prefix of a list of ids, resolved cache first.

use crate::cache::{lemma_touched, stored, touched, value_of, Cache, CachedView};
use crate::error::ServerError;
use crate::fanout::{first_n, lemma_somes_push, somes, take_first};
use crate::types::{lemma_story_views_push, story_views, StoryItem, StoryItemView};
use vstd::prelude::*;

verus! {

/// The story preview that a cache entry holds, if it holds one.
pub open spec fn preview_of(value: Option<CachedView>) -> Option<StoryItemView> {
    match value {
        Some(CachedView::Preview(s)) => Some(s),
        _ => None,
    }
}

/// What the cache holds for each of `ids`, in order.
pub open spec fn lookups(entries: Seq<(i64, CachedView)>, ids: Seq<i64>) -> Seq<
    Option<StoryItemView>,
> {
    ids.map_values(|id: i64| preview_of(value_of(entries, id)))
}

/// The entries after each of `ids` was used, in order.
pub open spec fn touched_all(entries: Seq<(i64, CachedView)>, ids: Seq<i64>) -> Seq<
    (i64, CachedView),
>
    decreases ids.len(),
{
    if ids.len() == 0 {
        entries
    } else {
        touched(touched_all(entries, ids.drop_last()), ids.last())
    }
}

/// The number of elements of `found` that are absent.
pub open spec fn gaps(found: Seq<Option<StoryItemView>>) -> nat
    decreases found.len(),
{
    if found.len() == 0 {
        0
    } else if found.last() is None {
        gaps(found.drop_last()) + 1
    } else {
        gaps(found.drop_last())
    }
}

/// Those of `ids` for which `found` holds nothing, in order. The two have
/// the same length.
pub open spec fn missing(ids: Seq<i64>, found: Seq<Option<StoryItemView>>) -> Seq<i64>
    decreases ids.len(),
{
    if ids.len() == 0 || found.len() != ids.len() {
        Seq::empty()
    } else if found.last() is None {
        missing(ids.drop_last(), found.drop_last()).push(ids.last())
    } else {
        missing(ids.drop_last(), found.drop_last())
    }
}

/// The response at place `i`; a place without a response counts as failed.
pub open spec fn response_at(responses: Seq<Option<StoryItemView>>, i: nat) -> Option<
    StoryItemView,
> {
    if i < responses.len() {
        responses[i as int]
    } else {
        None
    }
}

/// `found` with each gap filled by the response to it: the responses answer
/// the gaps one by one, in order.
pub open spec fn resolved(
    found: Seq<Option<StoryItemView>>,
    responses: Seq<Option<StoryItemView>>,
) -> Seq<Option<StoryItemView>>
    decreases found.len(),
{
    if found.len() == 0 {
        Seq::empty()
    } else {
        let init = found.drop_last();
        resolved(init, responses).push(
            match found.last() {
                Some(s) => Some(s),
                None => response_at(responses, gaps(init)),
            },
        )
    }
}

/// The entries after each preview among `responses` was stored under the id
/// that it answers, in order: the responses answer `ids` one by one.
pub open spec fn stored_all(
    entries: Seq<(i64, CachedView)>,
    capacity: nat,
    ids: Seq<i64>,
    responses: Seq<Option<StoryItemView>>,
) -> Seq<(i64, CachedView)>
    decreases ids.len(),
{
    if ids.len() == 0 {
        entries
    } else {
        let init = stored_all(entries, capacity, ids.drop_last(), responses);
        match response_at(responses, (ids.len() - 1) as nat) {
            Some(s) => stored(init, capacity, ids.last(), CachedView::Preview(s)),
            None => init,
        }
    }
}

/// What each response brought: the preview, or nothing where it failed.
pub open spec fn preview_outcomes(responses: Seq<Result<StoryItem, ServerError>>) -> Seq<
    Option<StoryItemView>,
> {
    responses.map_values(
        |r: Result<StoryItem, ServerError>|
            match r {
                Ok(s) => Some(s@),
                Err(_) => None,
            },
    )
}

/// The view of an optional story preview.
pub open spec fn opt_story_view(story: Option<StoryItem>) -> Option<StoryItemView> {
    match story {
        Some(s) => Some(s@),
        None => None,
    }
}

/// The views of what a cache held for a sequence of ids.
pub open spec fn found_views(found: Seq<Option<StoryItem>>) -> Seq<Option<StoryItemView>> {
    found.map_values(|s: Option<StoryItem>| opt_story_view(s))
}

/// The ids of a sequence of story previews.
pub open spec fn ids_of(stories: Seq<StoryItemView>) -> Seq<i64> {
    stories.map_values(|s: StoryItemView| s.id)
}

/// Those of `ids` whose outcome is present, in order. The two have the same
/// length.
pub open spec fn kept(ids: Seq<i64>, outcomes: Seq<Option<StoryItemView>>) -> Seq<i64>
    decreases ids.len(),
{
    if ids.len() == 0 || outcomes.len() != ids.len() {
        Seq::empty()
    } else if outcomes.last() is Some {
        kept(ids.drop_last(), outcomes.drop_last()).push(ids.last())
    } else {
        kept(ids.drop_last(), outcomes.drop_last())
    }
}

/// Whether each outcome that is present is a story with the id at its
/// place in `ids`.
pub open spec fn carries_ids(ids: Seq<i64>, outcomes: Seq<Option<StoryItemView>>) -> bool {
    &&& ids.len() == outcomes.len()
    &&& forall|i: int|
        0 <= i < ids.len() && (#[trigger] outcomes[i]) is Some ==> outcomes[i]->0.id == ids[i]
}

/// Every id that is kept is one of the ids, and there are no more of them.
pub proof fn lemma_kept_within(ids: Seq<i64>, outcomes: Seq<Option<StoryItemView>>)
    ensures
        kept(ids, outcomes).len() <= ids.len(),
        forall|p: int|
            0 <= p < kept(ids, outcomes).len() ==> ids.contains(#[trigger] kept(ids, outcomes)[p]),
    decreases ids.len(),
{
    if ids.len() > 0 && outcomes.len() == ids.len() {
        let init = ids.drop_last();
        lemma_kept_within(init, outcomes.drop_last());
        assert forall|p: int| 0 <= p < kept(ids, outcomes).len() implies ids.contains(
            #[trigger] kept(ids, outcomes)[p],
        ) by {
            let id = kept(ids, outcomes)[p];
            if p < kept(init, outcomes.drop_last()).len() {
                assert(init.contains(id));
                let j = choose|j: int| 0 <= j < init.len() && init[j] == id;
                assert(ids[j] == id);
            } else {
                assert(ids[ids.len() - 1] == id);
            }
        }
    }
}

/// The ids that are kept of a list without duplicates hold no duplicates.
pub proof fn lemma_kept_distinct(ids: Seq<i64>, outcomes: Seq<Option<StoryItemView>>)
    requires
        ids.no_duplicates(),
    ensures
        kept(ids, outcomes).no_duplicates(),
    decreases ids.len(),
{
    if ids.len() > 0 && outcomes.len() == ids.len() {
        let init = ids.drop_last();
        let init_kept = kept(init, outcomes.drop_last());
        lemma_kept_distinct(init, outcomes.drop_last());
        lemma_kept_within(init, outcomes.drop_last());
        if outcomes.last() is Some {
            assert forall|p: int| 0 <= p < init_kept.len() implies init_kept[p] != ids.last() by {
                assert(init.contains(init_kept[p]));
                let j = choose|j: int| 0 <= j < init.len() && init[j] == init_kept[p];
                assert(ids[j] == init_kept[p]);
            }
        }
    }
}

/// Where each preview carries the id that it was resolved for, the ids of
/// the previews that are present are the ids whose outcome is present.
pub proof fn lemma_present_ids(ids: Seq<i64>, outcomes: Seq<Option<StoryItemView>>)
    requires
        carries_ids(ids, outcomes),
    ensures
        ids_of(somes(outcomes)) == kept(ids, outcomes),
    decreases ids.len(),
{
    if ids.len() == 0 {
        assert(ids_of(somes(outcomes)) =~= kept(ids, outcomes));
    } else {
        let init = outcomes.drop_last();
        assert(carries_ids(ids.drop_last(), init)) by {
            assert forall|i: int|
                0 <= i < ids.drop_last().len() && (#[trigger] init[i]) is Some implies init[i]->0.id
                == ids.drop_last()[i] by {
                assert(init[i] == outcomes[i]);
            }
        }
        lemma_present_ids(ids.drop_last(), init);
        if outcomes.last() is Some {
            assert(outcomes[outcomes.len() - 1] is Some);
            assert(ids_of(somes(outcomes)) =~= ids_of(somes(init)).push(ids.last()));
        }
    }
}

/// A batch of story previews under way, as mathematical values.
pub struct BatchView {
    /// The ids whose previews are wanted, in rank order.
    pub ids: Seq<i64>,
    /// For each id, the preview that the cache held for it.
    pub found: Seq<Option<StoryItemView>>,
}

impl BatchView {
    /// The ids to request: those that the cache did not hold, in order.
    pub open spec fn requests(self) -> Seq<i64> {
        missing(self.ids, self.found)
    }

    /// The previews of the batch once `responses` have answered the
    /// requests one by one: those that were cached or fetched, in the order
    /// of the ids, those left out whose fetch failed.
    pub open spec fn listing(self, responses: Seq<Option<StoryItemView>>) -> Seq<StoryItemView> {
        somes(resolved(self.found, responses))
    }
}

/// The previews of a prefix of a list of ids, resolved cache first: what
/// the cache holds is taken from it, the rest is requested in one round.
pub struct PreviewBatch {
    ids: Vec<i64>,
    found: Vec<Option<StoryItem>>,
}

impl View for PreviewBatch {
    type V = BatchView;

    closed spec fn view(&self) -> BatchView {
        BatchView { ids: self.ids@, found: found_views(self.found@) }
    }
}

impl PreviewBatch {
    /// The invariant of a batch: one cache outcome for each id.
    pub closed spec fn wf(&self) -> bool {
        self.ids.len() == self.found.len()
    }

    /// Starts a batch for the first `count` of `ids`, looking each up in the
    /// cache, in order.
    pub fn begin(cache: &mut Cache, ids: &Vec<i64>, count: usize) -> (out: PreviewBatch)
        requires
            old(cache).wf(),
        ensures
            final(cache).wf(),
            out.wf(),
            out@.ids == first_n(ids@, count as nat),
            out@.found == lookups(old(cache).previews(), out@.ids),
            final(cache).previews() == touched_all(old(cache).previews(), out@.ids),
            final(cache).stories() == old(cache).stories(),
            final(cache).story_capacity() == old(cache).story_capacity(),
            final(cache).preview_capacity() == old(cache).preview_capacity(),
    {
        let wanted = take_first(ids, count);
        let ghost entries = cache.previews();
        let mut found: Vec<Option<StoryItem>> = Vec::new();
        let mut i: usize = 0;
        while i < wanted.len()
            invariant
                i <= wanted.len(),
                found.len() == i,
                cache.wf(),
                entries == old(cache).previews(),
                found_views(found@) == lookups(
                    entries,
                    wanted@.take(i as int),
                ),
                cache.previews() == touched_all(entries, wanted@.take(i as int)),
                forall|k: i64| value_of(cache.previews(), k) == value_of(entries, k),
                cache.stories() == old(cache).stories(),
                cache.story_capacity() == old(cache).story_capacity(),
                cache.preview_capacity() == old(cache).preview_capacity(),
            decreases wanted.len() - i,
        {
            proof {
                lemma_touched(cache.previews(), wanted@[i as int]);
                assert(wanted@.take(i + 1).drop_last() =~= wanted@.take(i as int));
            }
            let ghost before = found_views(found@);
            let hit = cache.get_preview(wanted[i]);
            found.push(hit);
            assert(found_views(found@) =~= before.push(
                opt_story_view(hit),
            ));
            assert(lookups(entries, wanted@.take(i + 1)) =~= lookups(entries, wanted@.take(i as int)).push(
                preview_of(value_of(entries, wanted@[i as int])),
            ));
            i = i + 1;
        }
        assert(wanted@.take(wanted.len() as int) =~= wanted@);
        PreviewBatch { ids: wanted, found }
    }

    /// The ids to request: those that the cache did not hold, in order.
    pub fn requests(&self) -> (out: Vec<i64>)
        requires
            self.wf(),
        ensures
            out@ == self@.requests(),
    {
        let ghost found = self@.found;
        let mut out: Vec<i64> = Vec::new();
        let mut i: usize = 0;
        while i < self.ids.len()
            invariant
                i <= self.ids.len(),
                self.ids.len() == self.found.len(),
                found == self@.found,
                out@ == missing(self.ids@.take(i as int), found.take(i as int)),
            decreases self.ids.len() - i,
        {
            proof {
                assert(self.ids@.take(i + 1).drop_last() =~= self.ids@.take(i as int));
                assert(found.take(i + 1).drop_last() =~= found.take(i as int));
                assert(found.take(i + 1).last() == opt_story_view(self.found@[i as int]));
            }
            if self.found[i].is_none() {
                out.push(self.ids[i]);
            }
            i = i + 1;
        }
        assert(self.ids@.take(self.ids.len() as int) =~= self.ids@);
        assert(found.take(self.ids.len() as int) =~= found);
        out
    }

    /// Ends the batch with the responses to its requests, which answer them
    /// one by one, in order; a request without a response counts as failed.
    /// Each preview that was fetched is cached under the id that was asked
    /// for. Gives the previews that were cached or fetched, in the order of
    /// the ids.
    pub fn complete(self, cache: &mut Cache, responses: &Vec<Result<StoryItem, ServerError>>) -> (out:
        Vec<StoryItem>)
        requires
            self.wf(),
            old(cache).wf(),
        ensures
            final(cache).wf(),
            story_views(out@) == self@.listing(preview_outcomes(responses@)),
            out.len() <= self@.ids.len(),
            final(cache).previews() == stored_all(
                old(cache).previews(),
                old(cache).preview_capacity(),
                self@.requests(),
                preview_outcomes(responses@),
            ),
            final(cache).stories() == old(cache).stories(),
            final(cache).story_capacity() == old(cache).story_capacity(),
            final(cache).preview_capacity() == old(cache).preview_capacity(),
    {
        let ghost found = self@.found;
        let ghost ids = self.ids@;
        let ghost answers = preview_outcomes(responses@);
        let ghost entries = cache.previews();
        let ghost capacity = cache.preview_capacity();
        let mut out: Vec<StoryItem> = Vec::new();
        let mut gap: usize = 0;
        let mut i: usize = 0;
        while i < self.ids.len()
            invariant
                i <= self.ids.len(),
                gap <= i,
                out.len() <= i,
                self.ids.len() == self.found.len(),
                found == self@.found,
                ids == self.ids@,
                answers == preview_outcomes(responses@),
                cache.wf(),
                entries == old(cache).previews(),
                capacity == old(cache).preview_capacity(),
                gap == gaps(found.take(i as int)),
                gap == missing(ids.take(i as int), found.take(i as int)).len(),
                story_views(out@) == somes(resolved(found.take(i as int), answers)),
                cache.previews() == stored_all(
                    entries,
                    capacity,
                    missing(ids.take(i as int), found.take(i as int)),
                    answers,
                ),
                cache.stories() == old(cache).stories(),
                cache.story_capacity() == old(cache).story_capacity(),
                cache.preview_capacity() == capacity,
            decreases self.ids.len() - i,
        {
            let ghost init = found.take(i as int);
            let ghost asked = missing(ids.take(i as int), init);
            proof {
                assert(ids.take(i + 1).drop_last() =~= ids.take(i as int));
                assert(found.take(i + 1).drop_last() =~= init);
                assert(found.take(i + 1).last() == opt_story_view(self.found@[i as int]));
            }
            match &self.found[i] {
                Some(story) => {
                    let s = story.clone();
                    proof {
                        lemma_somes_push(resolved(init, answers), Some(s@));
                        lemma_story_views_push(out@, s);
                    }
                    out.push(s);
                },
                None => {
                    proof {
                        lemma_somes_push(resolved(init, answers), response_at(answers, gap as nat));
                        assert(asked.push(ids[i as int]).drop_last() =~= asked);
                    }
                    if gap < responses.len() {
                        match &responses[gap] {
                            Ok(story) => {
                                let s = story.clone();
                                proof {
                                    lemma_story_views_push(out@, s);
                                }
                                cache.put_preview(self.ids[i], story.clone());
                                out.push(s);
                            },
                            Err(_) => {},
                        }
                    }
                    gap = gap + 1;
                },
            }
            i = i + 1;
        }
        assert(ids.take(self.ids.len() as int) =~= ids);
        assert(found.take(self.ids.len() as int) =~= found);
        out
    }
}

} // verus!

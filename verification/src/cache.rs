//! The cache: two least-recently-used stores keyed by story id, over
//! `lru::LruCache`.

use crate::types::{StoryItem, StoryItemView, StoryPageData, StoryPageDataView};
use lru::LruCache;
use vstd::prelude::*;

verus! {

/// What a cache entry holds, as mathematical values.
pub enum CachedView {
    Page(StoryPageDataView),
    Preview(StoryItemView),
}

/// The value of a cache entry: a full story page or a story preview. Both
/// stores of a `Cache` hold values of this type, each of one kind only, as
/// `Cache::wf` states.
pub enum Cached {
    Page(StoryPageData),
    Preview(StoryItem),
}

impl View for Cached {
    type V = CachedView;

    open spec fn view(&self) -> CachedView {
        match self {
            Cached::Page(p) => CachedView::Page(p@),
            Cached::Preview(s) => CachedView::Preview(s@),
        }
    }
}

/// `lru::LruCache`, a map that holds a fixed number of entries and discards
/// the least recently used one to make room. Nothing of its inside is known
/// here; `lru_entries` and `lru_capacity` name what it holds.
#[verifier::external_type_specification]
#[verifier::external_body]
#[verifier::reject_recursive_types(K)]
#[verifier::reject_recursive_types(V)]
#[verifier::reject_recursive_types(S)]
pub struct ExLruCache<K, V, S>(LruCache<K, V, S>);

/// `lru::DefaultHasher`, the hasher with which `LruCache::new` makes a cache.
#[verifier::external_type_specification]
#[verifier::external_body]
pub struct ExDefaultHasher(lru::DefaultHasher);

/// The entries of a least-recently-used cache, each a key and the view of its
/// value, from the most recently used to the least recently used.
pub uninterp spec fn lru_entries(cache: LruCache<i64, Cached>) -> Seq<(i64, CachedView)>;

/// The number of entries that a least-recently-used cache was made to hold.
pub uninterp spec fn lru_capacity(cache: LruCache<i64, Cached>) -> nat;

/// Whether some entry has the key `key`.
pub open spec fn has_key(entries: Seq<(i64, CachedView)>, key: i64) -> bool {
    exists|i: int| 0 <= i < entries.len() && (#[trigger] entries[i]).0 == key
}

/// The place of an entry with the key `key`, where there is one.
pub open spec fn key_index(entries: Seq<(i64, CachedView)>, key: i64) -> int {
    choose|i: int| 0 <= i < entries.len() && (#[trigger] entries[i]).0 == key
}

/// The value stored under `key`, if any.
pub open spec fn value_of(entries: Seq<(i64, CachedView)>, key: i64) -> Option<CachedView> {
    if has_key(entries, key) {
        Some(entries[key_index(entries, key)].1)
    } else {
        None
    }
}

/// The entries after `key` was used: its entry, where there is one, has
/// moved to the front.
pub open spec fn touched(entries: Seq<(i64, CachedView)>, key: i64) -> Seq<(i64, CachedView)> {
    if has_key(entries, key) {
        let i = key_index(entries, key);
        seq![entries[i]] + entries.remove(i)
    } else {
        entries
    }
}

/// The entries after `value` was stored under `key` in a cache made for
/// `capacity` entries. An entry with that key is replaced; otherwise a full
/// cache first loses its least recently used entry. Either way the new entry
/// stands at the front. A cache made for no entries stays empty.
pub open spec fn stored(
    entries: Seq<(i64, CachedView)>,
    capacity: nat,
    key: i64,
    value: CachedView,
) -> Seq<(i64, CachedView)> {
    if has_key(entries, key) {
        seq![(key, value)] + entries.remove(key_index(entries, key))
    } else if capacity == 0 {
        entries
    } else if entries.len() == capacity {
        seq![(key, value)] + entries.drop_last()
    } else {
        seq![(key, value)] + entries
    }
}

/// The largest capacity that a cache can be made with: its table is
/// allocated when it is made.
pub const MAX_CAPACITY: usize = 1_048_576;

/// Makes an empty cache for `capacity` entries.
///
/// Trusted: `LruCache::new` returns a cache without entries that remembers
/// the capacity it was given. It allocates a table for that many entries at
/// once, which the bound on `capacity` keeps within what can be allocated.
#[verifier::external_body]
fn lru_new(capacity: usize) -> (cache: LruCache<i64, Cached>)
    requires
        capacity <= MAX_CAPACITY,
    ensures
        lru_entries(cache) == Seq::<(i64, CachedView)>::empty(),
        lru_capacity(cache) == capacity,
{
    LruCache::new(capacity)
}

/// Looks `key` up and marks it as used.
///
/// Trusted: `LruCache::get` returns the value stored under the key, or
/// nothing where the key is absent, and moves a key that it found to the most
/// recently used place, leaving every other entry and the capacity as they
/// were.
#[verifier::external_body]
fn lru_get<'a>(cache: &'a mut LruCache<i64, Cached>, key: i64) -> (value: Option<&'a Cached>)
    ensures
        lru_entries(*final(cache)) == touched(lru_entries(*old(cache)), key),
        lru_capacity(*final(cache)) == lru_capacity(*old(cache)),
        match value {
            Some(v) => value_of(lru_entries(*old(cache)), key) == Some(v@),
            None => value_of(lru_entries(*old(cache)), key) is None,
        },
{
    cache.get(&key)
}

/// Stores `value` under `key`.
///
/// Trusted: `LruCache::put` replaces the value of a key that is present and
/// returns the old one; for a new key it returns nothing and, unless the
/// capacity is zero, adds the entry, after discarding the least recently used
/// entry where the cache is full. The key ends in the most recently used
/// place, and the capacity stays as it was.
#[verifier::external_body]
fn lru_put(cache: &mut LruCache<i64, Cached>, key: i64, value: Cached) -> (previous: Option<Cached>)
    ensures
        lru_entries(*final(cache)) == stored(
            lru_entries(*old(cache)),
            lru_capacity(*old(cache)),
            key,
            value@,
        ),
        lru_capacity(*final(cache)) == lru_capacity(*old(cache)),
        match previous {
            Some(v) => value_of(lru_entries(*old(cache)), key) == Some(v@),
            None => value_of(lru_entries(*old(cache)), key) is None,
        },
{
    cache.put(key, value)
}

/// Whether no two entries have the same key.
pub open spec fn distinct_keys(entries: Seq<(i64, CachedView)>) -> bool {
    forall|i: int, j: int|
        0 <= i < entries.len() && 0 <= j < entries.len() && i != j ==> (#[trigger] entries[i]).0
            != (#[trigger] entries[j]).0
}

/// Whether every entry holds a story page.
pub open spec fn all_pages(entries: Seq<(i64, CachedView)>) -> bool {
    forall|i: int| 0 <= i < entries.len() ==> (#[trigger] entries[i]).1 is Page
}

/// Whether every entry holds a story preview.
pub open spec fn all_previews(entries: Seq<(i64, CachedView)>) -> bool {
    forall|i: int| 0 <= i < entries.len() ==> (#[trigger] entries[i]).1 is Preview
}

/// Among entries with distinct keys, the entry at `i` is the one that its
/// key finds.
pub proof fn lemma_key_index(entries: Seq<(i64, CachedView)>, i: int)
    requires
        distinct_keys(entries),
        0 <= i < entries.len(),
    ensures
        has_key(entries, entries[i].0),
        key_index(entries, entries[i].0) == i,
        value_of(entries, entries[i].0) == Some(entries[i].1),
{
    let k = entries[i].0;
    assert(has_key(entries, k));
    let j = key_index(entries, k);
    assert(entries[j].0 == k);
}

/// Using a key keeps the keys distinct, the number of entries and what each
/// key finds.
pub proof fn lemma_touched(entries: Seq<(i64, CachedView)>, key: i64)
    requires
        distinct_keys(entries),
    ensures
        distinct_keys(touched(entries, key)),
        touched(entries, key).len() == entries.len(),
        forall|k: i64| value_of(touched(entries, key), k) == value_of(entries, k),
        all_pages(entries) ==> all_pages(touched(entries, key)),
        all_previews(entries) ==> all_previews(touched(entries, key)),
{
    let after = touched(entries, key);
    if has_key(entries, key) {
        let p = key_index(entries, key);
        // where the entry at `i` of `after` stood before
        let origin = |i: int| if i == 0 { p } else if i <= p { i - 1 } else { i };
        assert forall|i: int| 0 <= i < after.len() implies 0 <= origin(i) < entries.len()
            && #[trigger] after[i] == entries[origin(i)] by {}
        assert forall|i: int, j: int|
            0 <= i < after.len() && 0 <= j < after.len() && i != j implies (#[trigger] after[i]).0
            != (#[trigger] after[j]).0 by {
            assert(after[i] == entries[origin(i)]);
            assert(after[j] == entries[origin(j)]);
            assert(origin(i) != origin(j));
        }
        assert forall|k: i64| value_of(after, k) == value_of(entries, k) by {
            if has_key(entries, k) {
                let i = key_index(entries, k);
                let to = if i == p { 0 } else if i < p { i + 1 } else { i };
                assert(after[to] == entries[i]);
                lemma_key_index(after, to);
                lemma_key_index(entries, i);
            } else {
                if has_key(after, k) {
                    let i = key_index(after, k);
                    assert(after[i] == entries[origin(i)]);
                    assert(false);
                }
            }
        }
        if all_pages(entries) {
            assert forall|i: int| 0 <= i < after.len() implies (#[trigger] after[i]).1 is Page by {
                assert(after[i] == entries[origin(i)]);
            }
        }
        if all_previews(entries) {
            assert forall|i: int| 0 <= i < after.len() implies (#[trigger] after[i]).1 is Preview by {
                assert(after[i] == entries[origin(i)]);
            }
        }
    }
}

/// Storing a value keeps the keys distinct and the cache within its
/// capacity; where the capacity is not zero, the new entry stands first.
pub proof fn lemma_stored(entries: Seq<(i64, CachedView)>, capacity: nat, key: i64, value: CachedView)
    requires
        distinct_keys(entries),
        entries.len() <= capacity,
    ensures
        distinct_keys(stored(entries, capacity, key, value)),
        stored(entries, capacity, key, value).len() <= capacity,
        capacity > 0 ==> stored(entries, capacity, key, value).len() > 0 && stored(
            entries,
            capacity,
            key,
            value,
        )[0] == (key, value),
        all_pages(entries) && value is Page ==> all_pages(stored(entries, capacity, key, value)),
        all_previews(entries) && value is Preview ==> all_previews(
            stored(entries, capacity, key, value),
        ),
{
    let after = stored(entries, capacity, key, value);
    if has_key(entries, key) {
        let p = key_index(entries, key);
        let origin = |i: int| if i <= p { i - 1 } else { i };
        assert forall|i: int| 1 <= i < after.len() implies 0 <= origin(i) < entries.len()
            && origin(i) != p && #[trigger] after[i] == entries[origin(i)] by {}
        assert forall|i: int, j: int|
            0 <= i < after.len() && 0 <= j < after.len() && i != j implies (#[trigger] after[i]).0
            != (#[trigger] after[j]).0 by {
            if i > 0 {
                assert(after[i] == entries[origin(i)]);
            }
            if j > 0 {
                assert(after[j] == entries[origin(j)]);
            }
        }
        if all_pages(entries) && value is Page {
            assert forall|i: int| 0 <= i < after.len() implies (#[trigger] after[i]).1 is Page by {
                if i > 0 {
                    assert(after[i] == entries[origin(i)]);
                }
            }
        }
        if all_previews(entries) && value is Preview {
            assert forall|i: int| 0 <= i < after.len() implies (#[trigger] after[i]).1 is Preview by {
                if i > 0 {
                    assert(after[i] == entries[origin(i)]);
                }
            }
        }
    } else if capacity > 0 {
        assert forall|i: int| 1 <= i < after.len() implies #[trigger] after[i] == entries[i - 1] by {}
        assert forall|i: int, j: int|
            0 <= i < after.len() && 0 <= j < after.len() && i != j implies (#[trigger] after[i]).0
            != (#[trigger] after[j]).0 by {
            if i > 0 {
                assert(after[i] == entries[i - 1]);
            }
            if j > 0 {
                assert(after[j] == entries[j - 1]);
            }
        }
        if all_pages(entries) && value is Page {
            assert forall|i: int| 0 <= i < after.len() implies (#[trigger] after[i]).1 is Page by {
                if i > 0 {
                    assert(after[i] == entries[i - 1]);
                }
            }
        }
        if all_previews(entries) && value is Preview {
            assert forall|i: int| 0 <= i < after.len() implies (#[trigger] after[i]).1 is Preview by {
                if i > 0 {
                    assert(after[i] == entries[i - 1]);
                }
            }
        }
    }
}

/// What was just stored is found again, and finding it changes nothing:
/// it already stands first.
pub proof fn lemma_stored_then_found(
    entries: Seq<(i64, CachedView)>,
    capacity: nat,
    key: i64,
    value: CachedView,
)
    requires
        distinct_keys(entries),
        entries.len() <= capacity,
        capacity > 0,
    ensures
        value_of(stored(entries, capacity, key, value), key) == Some(value),
        touched(stored(entries, capacity, key, value), key) == stored(entries, capacity, key, value),
{
    let after = stored(entries, capacity, key, value);
    lemma_stored(entries, capacity, key, value);
    lemma_key_index(after, 0);
    assert(after.remove(0) =~= after.skip(1));
    assert(seq![after[0]] + after.skip(1) =~= after);
}


/// The number of entries that each store of a cache made by `Cache::new`
/// holds.
pub const CACHE_CAPACITY: usize = 1000;

/// Two least-recently-used stores keyed by story id: one of full story
/// pages, one of story previews.
pub struct Cache {
    stories: LruCache<i64, Cached>,
    previews: LruCache<i64, Cached>,
}

impl Cache {
    /// The entries of the store of story pages, most recently used first.
    pub closed spec fn stories(&self) -> Seq<(i64, CachedView)> {
        lru_entries(self.stories)
    }

    /// The entries of the store of story previews, most recently used first.
    pub closed spec fn previews(&self) -> Seq<(i64, CachedView)> {
        lru_entries(self.previews)
    }

    /// The number of story pages that the cache holds at most.
    pub closed spec fn story_capacity(&self) -> nat {
        lru_capacity(self.stories)
    }

    /// The number of story previews that the cache holds at most.
    pub closed spec fn preview_capacity(&self) -> nat {
        lru_capacity(self.previews)
    }

    /// The invariant of a cache: in each store no key occurs twice and the
    /// capacity is kept, and each store holds values of its own kind.
    pub open spec fn wf(&self) -> bool {
        &&& distinct_keys(self.stories())
        &&& distinct_keys(self.previews())
        &&& self.stories().len() <= self.story_capacity()
        &&& self.previews().len() <= self.preview_capacity()
        &&& all_pages(self.stories())
        &&& all_previews(self.previews())
    }

    /// The story page cached under `id`, if any.
    pub open spec fn cached_story(&self, id: i64) -> Option<StoryPageDataView> {
        match value_of(self.stories(), id) {
            Some(CachedView::Page(p)) => Some(p),
            _ => None,
        }
    }

    /// The story preview cached under `id`, if any.
    pub open spec fn cached_preview(&self, id: i64) -> Option<StoryItemView> {
        match value_of(self.previews(), id) {
            Some(CachedView::Preview(s)) => Some(s),
            _ => None,
        }
    }

    /// An empty cache whose stores hold `CACHE_CAPACITY` entries each.
    pub fn new() -> (cache: Cache)
        ensures
            cache.wf(),
            cache.stories().len() == 0,
            cache.previews().len() == 0,
            cache.story_capacity() == CACHE_CAPACITY,
            cache.preview_capacity() == CACHE_CAPACITY,
    {
        Cache::with_capacity(CACHE_CAPACITY)
    }

    /// An empty cache whose stores hold `capacity` entries each.
    pub fn with_capacity(capacity: usize) -> (cache: Cache)
        requires
            capacity <= MAX_CAPACITY,
        ensures
            cache.wf(),
            cache.stories().len() == 0,
            cache.previews().len() == 0,
            cache.story_capacity() == capacity,
            cache.preview_capacity() == capacity,
    {
        Cache { stories: lru_new(capacity), previews: lru_new(capacity) }
    }

    /// A copy of the story page cached under `id`, which thereby becomes the
    /// most recently used page.
    pub fn get_story(&mut self, id: i64) -> (out: Option<StoryPageData>)
        requires
            old(self).wf(),
        ensures
            final(self).wf(),
            final(self).stories() == touched(old(self).stories(), id),
            final(self).previews() == old(self).previews(),
            final(self).story_capacity() == old(self).story_capacity(),
            final(self).preview_capacity() == old(self).preview_capacity(),
            match out {
                Some(page) => old(self).cached_story(id) == Some(page@),
                None => old(self).cached_story(id) is None,
            },
    {
        proof {
            lemma_touched(self.stories(), id);
            if has_key(self.stories(), id) {
                assert(self.stories()[key_index(self.stories(), id)].1 is Page);
            }
        }
        match lru_get(&mut self.stories, id) {
            Some(Cached::Page(page)) => Some(page.clone()),
            _ => None,
        }
    }

    /// Caches `page` under `id` as the most recently used page. A full store
    /// first loses its least recently used page.
    pub fn put_story(&mut self, id: i64, page: StoryPageData)
        requires
            old(self).wf(),
        ensures
            final(self).wf(),
            final(self).stories() == stored(
                old(self).stories(),
                old(self).story_capacity(),
                id,
                CachedView::Page(page@),
            ),
            final(self).previews() == old(self).previews(),
            final(self).story_capacity() == old(self).story_capacity(),
            final(self).preview_capacity() == old(self).preview_capacity(),
    {
        proof {
            lemma_stored(self.stories(), self.story_capacity(), id, CachedView::Page(page@));
        }
        let _ = lru_put(&mut self.stories, id, Cached::Page(page));
    }

    /// A copy of the story preview cached under `id`, which thereby becomes
    /// the most recently used preview.
    pub fn get_preview(&mut self, id: i64) -> (out: Option<StoryItem>)
        requires
            old(self).wf(),
        ensures
            final(self).wf(),
            final(self).previews() == touched(old(self).previews(), id),
            final(self).stories() == old(self).stories(),
            final(self).story_capacity() == old(self).story_capacity(),
            final(self).preview_capacity() == old(self).preview_capacity(),
            match out {
                Some(story) => old(self).cached_preview(id) == Some(story@),
                None => old(self).cached_preview(id) is None,
            },
    {
        proof {
            lemma_touched(self.previews(), id);
            if has_key(self.previews(), id) {
                assert(self.previews()[key_index(self.previews(), id)].1 is Preview);
            }
        }
        match lru_get(&mut self.previews, id) {
            Some(Cached::Preview(story)) => Some(story.clone()),
            _ => None,
        }
    }

    /// Caches `story` under `id` as the most recently used preview. A full
    /// store first loses its least recently used preview.
    pub fn put_preview(&mut self, id: i64, story: StoryItem)
        requires
            old(self).wf(),
        ensures
            final(self).wf(),
            final(self).previews() == stored(
                old(self).previews(),
                old(self).preview_capacity(),
                id,
                CachedView::Preview(story@),
            ),
            final(self).stories() == old(self).stories(),
            final(self).story_capacity() == old(self).story_capacity(),
            final(self).preview_capacity() == old(self).preview_capacity(),
    {
        proof {
            lemma_stored(self.previews(), self.preview_capacity(), id, CachedView::Preview(story@));
        }
        let _ = lru_put(&mut self.previews, id, Cached::Preview(story));
    }
}


} // verus!

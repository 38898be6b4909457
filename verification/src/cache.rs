//! The response cache: a keyed store mapping a (channel, message) pair to
//! a live paginated response. Lookups, inserts and index mutations all go
//! through this one store so that concurrent tasks observe a consistent
//! key set; the surrounding application guards it with a single lock.
//!
//! Entries are held as an association list with unique keys; the cache is
//! viewed as a map from keys to response views.

use vstd::prelude::*;

use crate::render::{RenderableResponse, RenderableResponseView};

verus! {

/// A cache key: the channel and message ids of the message carrying the
/// response.
pub type CacheKey = (u64, u64);

/// One stored entry.
type CacheEntry = (CacheKey, RenderableResponse);

/// No two entries share a key.
pub open spec fn unique_keys(s: Seq<(CacheKey, RenderableResponse)>) -> bool {
    forall|i: int, j: int| 0 <= i < j < s.len() ==> s[i].0 != s[j].0
}

/// A response that pagination can navigate: at least one page, and the
/// current index within bounds.
pub open spec fn response_wf(r: RenderableResponse) -> bool {
    1 <= r.messages@.len() && r.index < r.messages@.len()
}

/// The map that an entry list stands for: later entries win.
pub open spec fn entries_map(
    s: Seq<(CacheKey, RenderableResponse)>,
) -> Map<CacheKey, RenderableResponseView>
    decreases s.len(),
{
    if s.len() == 0 {
        Map::empty()
    } else {
        entries_map(s.drop_last()).insert(s.last().0, s.last().1@)
    }
}

/// A key is in the map exactly when some entry holds it.
proof fn lemma_entries_map_contains(s: Seq<(CacheKey, RenderableResponse)>, k: CacheKey)
    ensures
        entries_map(s).contains_key(k) <==> exists|i: int| 0 <= i < s.len() && s[i].0 == k,
    decreases s.len(),
{
    if s.len() > 0 {
        lemma_entries_map_contains(s.drop_last(), k);
        if s.last().0 == k {
            assert(s[s.len() - 1].0 == k);
        } else {
            assert(forall|i: int| 0 <= i < s.len() - 1 ==> s.drop_last()[i] == s[i]);
            if entries_map(s).contains_key(k) {
                let i = choose|i: int| 0 <= i < s.len() - 1 && s.drop_last()[i].0 == k;
                assert(s[i].0 == k);
            }
            if exists|i: int| 0 <= i < s.len() && s[i].0 == k {
                let i = choose|i: int| 0 <= i < s.len() && s[i].0 == k;
                assert(i < s.len() - 1);
                assert(s.drop_last()[i].0 == k);
            }
        }
    }
}

/// A key held by no entry is not in the map.
proof fn lemma_entries_map_absent(s: Seq<(CacheKey, RenderableResponse)>, k: CacheKey)
    requires
        forall|i: int| 0 <= i < s.len() ==> s[i].0 != k,
    ensures
        !entries_map(s).contains_key(k),
{
    lemma_entries_map_contains(s, k);
}

/// With unique keys, the map sends each entry's key to that entry's
/// response view.
proof fn lemma_entries_map_get(s: Seq<(CacheKey, RenderableResponse)>, i: int)
    requires
        unique_keys(s),
        0 <= i < s.len(),
    ensures
        entries_map(s).contains_key(s[i].0),
        entries_map(s)[s[i].0] == s[i].1@,
    decreases s.len(),
{
    if i < s.len() - 1 {
        assert(forall|t: int| 0 <= t < s.len() - 1 ==> s.drop_last()[t] == s[t]);
        lemma_entries_map_get(s.drop_last(), i);
        assert(s[i].0 != s.last().0);
    }
}

/// With unique keys, removing an entry removes its key from the map.
proof fn lemma_entries_map_remove(s: Seq<(CacheKey, RenderableResponse)>, i: int)
    requires
        unique_keys(s),
        0 <= i < s.len(),
    ensures
        entries_map(s.remove(i)) == entries_map(s).remove(s[i].0),
    decreases s.len(),
{
    let k = s[i].0;
    if i == s.len() - 1 {
        assert(s.remove(i) =~= s.drop_last());
        assert(forall|t: int| 0 <= t < s.len() - 1 ==> s.drop_last()[t] == s[t]);
        lemma_entries_map_absent(s.drop_last(), k);
        assert(entries_map(s).remove(k) =~= entries_map(s.drop_last()));
    } else {
        assert(s.remove(i).drop_last() =~= s.drop_last().remove(i));
        assert(s.remove(i).last() == s.last());
        assert(forall|t: int| 0 <= t < s.len() - 1 ==> s.drop_last()[t] == s[t]);
        lemma_entries_map_remove(s.drop_last(), i);
        assert(k != s.last().0);
        assert(entries_map(s.remove(i)) =~= entries_map(s).remove(k));
    }
}

/// Reading a key back right after inserting a response under it yields
/// exactly the inserted response: the same page sequence and the same
/// index.
pub proof fn lemma_insert_then_read(
    m: Map<CacheKey, RenderableResponseView>,
    k: CacheKey,
    v: RenderableResponseView,
)
    ensures
        m.insert(k, v).contains_key(k),
        m.insert(k, v)[k] == v,
{
}

/// Concurrent keyed store of `(channel, message) -> paginated response`.
/// The whole store is meant to sit behind one mutual-exclusion lock held
/// by the surrounding application.
pub struct ResponseCache {
    entries: Vec<(CacheKey, RenderableResponse)>,
}

impl View for ResponseCache {
    type V = Map<CacheKey, RenderableResponseView>;

    closed spec fn view(&self) -> Map<CacheKey, RenderableResponseView> {
        entries_map(self.entries@)
    }
}

impl ResponseCache {
    /// The cache's structural invariant: unique keys, and every stored
    /// response navigable.
    pub closed spec fn wf(&self) -> bool {
        unique_keys(self.entries@) && forall|i: int|
            0 <= i < self.entries@.len() ==> response_wf(#[trigger] self.entries@[i].1)
    }

    /// Creates an empty cache.
    pub fn new() -> (r: ResponseCache)
        ensures
            r.wf(),
            r@ == Map::<CacheKey, RenderableResponseView>::empty(),
    {
        ResponseCache { entries: Vec::new() }
    }

    /// The position of the entry with the given key, if any.
    fn find_index(&self, channel_id: u64, message_id: u64) -> (r: Option<usize>)
        ensures
            match r {
                Some(i) => i < self.entries@.len() && self.entries@[i as int].0 == (
                    channel_id,
                    message_id,
                ),
                None => forall|i: int|
                    0 <= i < self.entries@.len() ==> self.entries@[i].0 != (
                        channel_id,
                        message_id,
                    ),
            },
    {
        let mut i: usize = 0;
        while i < self.entries.len()
            invariant
                i <= self.entries@.len(),
                forall|j: int|
                    0 <= j < i ==> self.entries@[j].0 != (channel_id, message_id),
            decreases self.entries@.len() - i,
        {
            let e = &self.entries[i];
            if e.0.0 == channel_id && e.0.1 == message_id {
                return Some(i);
            }
            i = i + 1;
        }
        None
    }

    /// Inserts a response under a key, overwriting any response already
    /// stored there. Called once per completed search, right after the
    /// response's first page has been rendered.
    pub fn insert(&mut self, channel_id: u64, message_id: u64, response: RenderableResponse)
        requires
            old(self).wf(),
            response_wf(response),
        ensures
            final(self).wf(),
            final(self)@ == old(self)@.insert((channel_id, message_id), response@),
    {
        let ghost k = (channel_id, message_id);
        let ghost pre = self.entries@;
        match self.find_index(channel_id, message_id) {
            Some(i) => {
                self.entries.remove(i);
                proof {
                    lemma_entries_map_remove(pre, i as int);
                    assert(forall|a: int, b: int|
                        0 <= a < b < self.entries@.len() ==> self.entries@[a].0
                            != self.entries@[b].0);
                    assert forall|t: int| 0 <= t < self.entries@.len() implies self.entries@[t].0
                        != k by {
                        if t < i {
                            assert(self.entries@[t] == pre[t]);
                        } else {
                            assert(self.entries@[t] == pre[t + 1]);
                        }
                    }
                }
            }
            None => {}
        }
        let ghost mid = self.entries@;
        self.entries.push(((channel_id, message_id), response));
        proof {
            assert(self.entries@.drop_last() =~= mid);
            assert(self.entries@.last() == ((channel_id, message_id), response));
            lemma_entries_map_absent(mid, k);
            assert(entries_map(self.entries@) =~= entries_map(pre).insert(k, response@));
            assert forall|a: int, b: int|
                0 <= a < b < self.entries@.len() implies self.entries@[a].0
                != self.entries@[b].0 by {
                if b < self.entries@.len() - 1 {
                    assert(self.entries@[a] == mid[a]);
                    assert(self.entries@[b] == mid[b]);
                } else {
                    assert(self.entries@[a] == mid[a]);
                }
            }
        }
    }

    /// Looks up the response stored under a key. Returns nothing when the
    /// message was never tracked.
    pub fn get(&self, channel_id: u64, message_id: u64) -> (r: Option<&RenderableResponse>)
        requires
            self.wf(),
        ensures
            match r {
                Some(resp) => self@.contains_key((channel_id, message_id)) && resp@ == self@[(
                    channel_id,
                    message_id,
                )] && response_wf(*resp),
                None => !self@.contains_key((channel_id, message_id)),
            },
    {
        match self.find_index(channel_id, message_id) {
            Some(i) => {
                proof {
                    lemma_entries_map_get(self.entries@, i as int);
                }
                Some(&self.entries[i].1)
            }
            None => {
                proof {
                    lemma_entries_map_absent(self.entries@, (channel_id, message_id));
                }
                None
            }
        }
    }

    /// Moves the tracked response one page forward or backward, with
    /// wraparound, and returns the new page index. Returns nothing, and
    /// changes nothing, when the key is not tracked.
    pub fn navigate(&mut self, channel_id: u64, message_id: u64, forward: bool) -> (r: Option<
        usize,
    >)
        requires
            old(self).wf(),
        ensures
            final(self).wf(),
            !old(self)@.contains_key((channel_id, message_id)) ==> r == None::<usize>
                && final(self)@ == old(self)@ && *final(self) == *old(self),
            old(self)@.contains_key((channel_id, message_id)) ==> ({
                let e = old(self)@[(channel_id, message_id)];
                let ni = if forward {
                    crate::navigate::forward_index(e.index, e.messages.len() as int)
                } else {
                    crate::navigate::backward_index(e.index, e.messages.len() as int)
                };
                r == Some(ni as usize) && final(self)@ == old(self)@.insert(
                    (channel_id, message_id),
                    RenderableResponseView { index: ni, messages: e.messages },
                )
            }),
    {
        let ghost k = (channel_id, message_id);
        let ghost pre = self.entries@;
        match self.find_index(channel_id, message_id) {
            Some(i) => {
                proof {
                    lemma_entries_map_get(pre, i as int);
                }
                let pair = self.entries.remove(i);
                let key = pair.0;
                let mut resp = pair.1;
                let new_index = if forward {
                    crate::navigate::next_forward(resp.index, resp.messages.len())
                } else {
                    crate::navigate::next_backward(resp.index, resp.messages.len())
                };
                resp.index = new_index;
                proof {
                    lemma_entries_map_remove(pre, i as int);
                    assert(forall|a: int, b: int|
                        0 <= a < b < self.entries@.len() ==> self.entries@[a].0
                            != self.entries@[b].0);
                    assert forall|t: int| 0 <= t < self.entries@.len() implies self.entries@[t].0
                        != k by {
                        if t < i {
                            assert(self.entries@[t] == pre[t]);
                        } else {
                            assert(self.entries@[t] == pre[t + 1]);
                        }
                    }
                }
                let ghost mid = self.entries@;
                self.entries.push((key, resp));
                proof {
                    assert(self.entries@.drop_last() =~= mid);
                    lemma_entries_map_absent(mid, k);
                    assert(entries_map(self.entries@) =~= entries_map(pre).insert(k, resp@));
                    assert forall|a: int, b: int|
                        0 <= a < b < self.entries@.len() implies self.entries@[a].0
                        != self.entries@[b].0 by {
                        if b < self.entries@.len() - 1 {
                            assert(self.entries@[a] == mid[a]);
                            assert(self.entries@[b] == mid[b]);
                        } else {
                            assert(self.entries@[a] == mid[a]);
                        }
                    }
                }
                Some(new_index)
            }
            None => {
                proof {
                    lemma_entries_map_absent(pre, k);
                }
                None
            }
        }
    }
}

} // verus!

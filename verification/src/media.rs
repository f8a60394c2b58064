//! The media cache: a tiered (sample-then-full), bounded cache of decoded
//! media, fed by background workers over bounded channels.
//!
//! The cache owns all bookkeeping — which keys are cached and at which
//! tier, which URLs are being fetched, which items wait in the prefetch
//! queues — and decides what is fetched next. The fetching and decoding
//! itself happens in background workers outside the library: the cache
//! hands them `LoadWork` through two bounded channels (a dedicated one for
//! the current item's full resolution, a shared one for everything else)
//! and folds their `MediaMessage` reports back in.

use std::collections::VecDeque;
use vstd::prelude::*;

use indexmap::IndexMap;
use tokio::sync::mpsc::{Receiver, Sender};

use crate::cachemap::{
    cache_contains, cache_entries, cache_get, cache_insert, cache_keys, cache_len,
    cache_shift_remove, entry_of_tuple, entry_tuple, find_entry, has_key, index_of_key,
    lemma_index_of_key, new_cache, EntryTuple,
};
use crate::chan::{try_recv_media, try_send_work};
use crate::event::{ComponentResponse, Event, MediaEvent, ViewEvent};
use crate::types::{LoadedMedia, MediaHandle};

verus! {

/// How many completion messages one poll folds in at most; the rest wait
/// for the next tick.
pub const MEDIA_POLL_BUDGET: usize = 64;

/// Message from a loading worker back to the cache. `full_url` is the
/// cache key the result is stored under.
pub enum MediaMessage {
    ImageLoaded { url: String, is_sample: bool, full_url: String, result: Result<
        MediaHandle,
        String,
    > },
}

/// A unit of work sent to a loading worker.
#[derive(Clone, Debug)]
pub struct LoadWork {
    pub url: String,
    pub is_sample: bool,
    pub cache_key: String,
}

/// A media item: its optional sample and full URLs and whether it is a
/// video. The cache key is the full URL if present, else the sample URL,
/// else empty.
#[derive(Clone, Debug, PartialEq)]
pub struct MediaItem {
    pub sample_url: Option<String>,
    pub full_url: Option<String>,
    pub is_video: bool,
}

impl MediaItem {
    /// An exact copy; unlike the derived clone, its result is known equal.
    pub fn duplicate(&self) -> (r: MediaItem)
        ensures
            r == *self,
    {
        MediaItem {
            sample_url: match &self.sample_url {
                Some(u) => Some(u.clone()),
                None => None,
            },
            full_url: match &self.full_url {
                Some(u) => Some(u.clone()),
                None => None,
            },
            is_video: self.is_video,
        }
    }
}

/// The tier an entry holds: the low-resolution sample only, or the full
/// resolution.
#[derive(Clone, Copy, Debug, PartialEq, Eq, Structural)]
pub enum CacheState {
    SampleOnly,
    Full,
}

/// One cached item: its display-ready media and its tier.
#[derive(Clone, Copy, Debug, PartialEq, Eq, Structural)]
pub struct CacheEntry {
    pub media: LoadedMedia,
    pub state: CacheState,
}

/// The record of one unit of work handed to a channel: the fetched URL,
/// whether it is a sample fetch, and whether it went to the dedicated
/// priority channel.
pub struct Dispatch {
    pub url: Seq<char>,
    pub is_sample: bool,
    pub priority: bool,
}

/// The cache key of an item: full URL, else sample URL, else empty.
pub open spec fn spec_cache_key(item: MediaItem) -> Seq<char> {
    match item.full_url {
        Some(u) => u@,
        None => match item.sample_url {
            Some(u) => u@,
            None => Seq::<char>::empty(),
        },
    }
}

/// Some string of `ss` reads `u`.
pub open spec fn seq_has_str(ss: Seq<String>, u: Seq<char>) -> bool {
    exists|i: int| 0 <= i < ss.len() && (#[trigger] ss[i])@ == u
}

/// No two strings of `ss` read the same.
pub open spec fn strs_unique(ss: Seq<String>) -> bool {
    forall|i: int, j: int| 0 <= i < j < ss.len() ==> (#[trigger] ss[i])@ != (#[trigger] ss[j])@
}

/// No two entries share a key.
pub open spec fn keys_unique(es: Seq<EntryTuple>) -> bool {
    forall|i: int, j: int| 0 <= i < j < es.len() ==> (#[trigger] es[i]).0 != (#[trigger] es[j]).0
}

/// Some queued item has cache key `k`.
pub open spec fn items_have_key(items: Seq<MediaItem>, k: Seq<char>) -> bool {
    exists|i: int| 0 <= i < items.len() && spec_cache_key(#[trigger] items[i]) == k
}

pub struct MediaCache {
    pub cache: IndexMap<String, CacheEntry>,
    pub loading_set: Vec<String>,
    pub pending_set: Vec<String>,
    pub current_item: Option<MediaItem>,
    pub pending_samples: VecDeque<MediaItem>,
    pub pending_full: VecDeque<MediaItem>,
    pub priority_tx: Sender<LoadWork>,
    pub work_tx: Sender<LoadWork>,
    pub receiver: Receiver<MediaMessage>,
    pub cache_bound: usize,
    pub dispatch_log: Ghost<Seq<Dispatch>>,
}

/// A dispatch the tier policy allows in state `pre`: the dedicated
/// priority channel carries only the current item's full resolution, and
/// only once the item has its first visual data in the cache — its sample
/// tier, or nothing short of the full fetch when it has no sample tier.
pub open spec fn dispatch_ok(pre: MediaCache, d: Dispatch) -> bool {
    d.priority ==> match pre.current_item {
        Some(cur) => match cur.full_url {
            Some(f) => !d.is_sample && d.url == f@ && (cur.is_video || cur.sample_url is None
                || pre.cache_has(spec_cache_key(cur))),
            None => false,
        },
        None => false,
    }
}

/// What one scheduling pass guarantees for the current item when the
/// prefetch queues are empty: with both URLs present and nothing cached,
/// at most the sample fetch is dispatched, never the full one; once the
/// entry is cached below the full tier, at most the full fetch is
/// dispatched, to the priority channel; a fully cached item dispatches
/// nothing.
pub open spec fn tier_policy_post(pre: MediaCache, post: MediaCache) -> bool {
    let tail = post.log().skip(pre.log().len() as int);
    (pre.pending_samples@.len() == 0 && pre.pending_full@.len() == 0) ==> match pre.current_item {
        Some(cur) => match (cur.sample_url, cur.full_url) {
            (Some(s), Some(f)) => {
                if cur.is_video {
                    true
                } else if !pre.cache_has(spec_cache_key(cur)) {
                    &&& tail.len() <= 1
                    &&& forall|j: int|
                        0 <= j < tail.len() ==> (#[trigger] tail[j]) == Dispatch {
                            url: s@,
                            is_sample: true,
                            priority: false,
                        }
                    &&& (pre.loading(s@) ==> tail.len() == 0)
                } else if !pre.cache_has_full(spec_cache_key(cur)) {
                    &&& tail.len() <= 1
                    &&& forall|j: int|
                        0 <= j < tail.len() ==> (#[trigger] tail[j]) == Dispatch {
                            url: f@,
                            is_sample: false,
                            priority: true,
                        }
                    &&& (pre.loading(f@) ==> tail.len() == 0)
                } else {
                    tail.len() == 0
                }
            },
            _ => true,
        },
        None => tail.len() == 0,
    }
}

impl MediaCache {
    /// The cache contents, in insertion order, as plain values.
    pub open spec fn entries(self) -> Seq<EntryTuple> {
        cache_entries(&self.cache)
    }

    /// The cache holds an entry under key `k`.
    pub open spec fn cache_has(self, k: Seq<char>) -> bool {
        has_key(self.entries(), k)
    }

    /// The cache holds a full-tier entry under key `k`.
    pub open spec fn cache_has_full(self, k: Seq<char>) -> bool {
        match find_entry(self.entries(), k) {
            Some(t) => t.2,
            None => false,
        }
    }

    /// URL `u` has been handed to a worker and has not completed.
    pub open spec fn loading(self, u: Seq<char>) -> bool {
        seq_has_str(self.loading_set@, u)
    }

    /// Key `k` is booked in the prefetch round.
    pub open spec fn pending_has(self, k: Seq<char>) -> bool {
        seq_has_str(self.pending_set@, k)
    }

    /// Everything handed to the channels so far, oldest first.
    pub open spec fn log(self) -> Seq<Dispatch> {
        self.dispatch_log@
    }

    /// Well-formed: no duplicate cache keys, no duplicate loading URLs,
    /// no duplicate prefetch bookings, and room for at least one entry.
    pub open spec fn wf(self) -> bool {
        &&& keys_unique(self.entries())
        &&& strs_unique(self.loading_set@)
        &&& strs_unique(self.pending_set@)
        &&& self.cache_bound >= 1
    }

    /// The caller supplies the channel ends: the two work channels feed
    /// the workers (the dedicated priority one and the shared pool one),
    /// the receiver brings their reports back. `cache_bound` is the
    /// number of entries the cache may hold after a pruning pass.
    pub fn new(
        priority_tx: Sender<LoadWork>,
        work_tx: Sender<LoadWork>,
        receiver: Receiver<MediaMessage>,
        cache_bound: usize,
    ) -> (c: MediaCache)
        requires
            cache_bound >= 1,
        ensures
            c.wf(),
            c.entries() == Seq::<EntryTuple>::empty(),
            c.loading_set@ == Seq::<String>::empty(),
            c.pending_set@ == Seq::<String>::empty(),
            c.current_item is None,
            c.pending_samples@ == Seq::<MediaItem>::empty(),
            c.pending_full@ == Seq::<MediaItem>::empty(),
            c.cache_bound == cache_bound,
            c.log() == Seq::<Dispatch>::empty(),
    {
        MediaCache {
            cache: new_cache(),
            loading_set: Vec::new(),
            pending_set: Vec::new(),
            current_item: None,
            pending_samples: VecDeque::new(),
            pending_full: VecDeque::new(),
            priority_tx,
            work_tx,
            receiver,
            cache_bound,
            dispatch_log: Ghost(Seq::empty()),
        }
    }

    /// The cache key of `item`: full URL, else sample URL, else empty.
    pub fn get_cache_key(&self, item: &MediaItem) -> (k: String)
        ensures
            k@ == spec_cache_key(*item),
    {
        match &item.full_url {
            Some(u) => u.clone(),
            None => match &item.sample_url {
                Some(u) => u.clone(),
                None => String::new(),
            },
        }
    }

    /// True while any fetch is in flight.
    pub fn is_loading(&self) -> (r: bool)
        ensures
            r == (self.loading_set@.len() != 0),
    {
        self.loading_set.len() != 0
    }
}

/// Whether `v` holds a string reading `s`.
fn vec_contains_str(v: &Vec<String>, s: &String) -> (b: bool)
    ensures
        b == seq_has_str(v@, s@),
{
    let n = v.len();
    let mut i: usize = 0;
    while i < n
        invariant
            n == v@.len(),
            i <= n,
            forall|j: int| 0 <= j < i ==> (#[trigger] v@[j])@ != s@,
        decreases n - i,
    {
        if v[i].eq(s) {
            proof {
                assert(v@[i as int]@ == s@);
            }
            return true;
        }
        i = i + 1;
    }
    false
}

/// Remove the string reading `s` from `v`, if present. Keeps the order
/// of the rest.
fn vec_remove_str(v: &mut Vec<String>, s: &String)
    requires
        strs_unique(old(v)@),
    ensures
        strs_unique(final(v)@),
        !seq_has_str(final(v)@, s@),
        forall|u: Seq<char>| u != s@ ==> seq_has_str(final(v)@, u) == seq_has_str(old(v)@, u),
{
    let n = v.len();
    let mut i: usize = 0;
    while i < n
        invariant
            v@ == old(v)@,
            strs_unique(v@),
            n == v@.len(),
            i <= n,
            forall|j: int| 0 <= j < i ==> (#[trigger] v@[j])@ != s@,
        decreases n - i,
    {
        if v[i].eq(s) {
            let ghost ov = v@;
            let ghost ii = i as int;
            v.remove(i);
            proof {
                ov.remove_ensures(ii);
                let vv = v@;
                assert(ov[ii]@ == s@);
                assert forall|u: Seq<char>| u != s@ implies seq_has_str(vv, u) == seq_has_str(
                    ov,
                    u,
                ) by {
                    if seq_has_str(vv, u) {
                        let w = choose|j: int| 0 <= j < vv.len() && (#[trigger] vv[j])@ == u;
                        if w < ii {
                            assert(ov[w]@ == u);
                        } else {
                            assert(vv[w] == ov[w + 1]);
                            assert(ov[w + 1]@ == u);
                        }
                    }
                    if seq_has_str(ov, u) {
                        let w = choose|j: int| 0 <= j < ov.len() && (#[trigger] ov[j])@ == u;
                        if w < ii {
                            assert(vv[w]@ == u);
                        } else {
                            assert(w != ii);
                            assert(vv[w - 1] == ov[w]);
                            assert(vv[w - 1]@ == u);
                        }
                    }
                }
                assert(!seq_has_str(vv, s@)) by {
                    if seq_has_str(vv, s@) {
                        let w = choose|j: int| 0 <= j < vv.len() && (#[trigger] vv[j])@ == s@;
                        if w < ii {
                            assert(ov[w]@ == s@);
                        } else {
                            assert(vv[w] == ov[w + 1]);
                            assert(ov[w + 1]@ == ov[ii]@);
                        }
                    }
                }
                assert forall|a: int, b: int| 0 <= a < b < vv.len() implies (#[trigger] vv[a])@ != (
                #[trigger] vv[b])@ by {
                    let aa = if a < ii {
                        a
                    } else {
                        a + 1
                    };
                    let bb = if b < ii {
                        b
                    } else {
                        b + 1
                    };
                    assert(vv[a] == ov[aa]);
                    assert(vv[b] == ov[bb]);
                    assert(ov[aa]@ != ov[bb]@);
                }
            }
            return ;
        }
        i = i + 1;
    }
}


/// The first index of `es` whose key is not the current key, or the
/// length if every entry is the current item's.
pub open spec fn first_non_cur(es: Seq<EntryTuple>, cur: Option<Seq<char>>) -> int
    decreases es.len(),
{
    if es.len() == 0 {
        0
    } else if (match cur {
        Some(c) => es[0].0 != c,
        None => true,
    }) {
        0
    } else {
        1 + first_non_cur(es.drop_first(), cur)
    }
}

/// The entries after evicting the `n` oldest entries that do not belong
/// to the current item; eviction stops early when only the current
/// item's entry is left.
pub open spec fn evict(es: Seq<EntryTuple>, cur: Option<Seq<char>>, n: nat) -> Seq<EntryTuple>
    decreases n,
{
    if n == 0 {
        es
    } else {
        let i = first_non_cur(es, cur);
        if i >= es.len() {
            es
        } else {
            evict(es.remove(i), cur, (n - 1) as nat)
        }
    }
}

proof fn lemma_first_non_cur(es: Seq<EntryTuple>, cur: Option<Seq<char>>)
    ensures
        0 <= first_non_cur(es, cur) <= es.len(),
        first_non_cur(es, cur) < es.len() ==> (match cur {
            Some(c) => es[first_non_cur(es, cur)].0 != c,
            None => true,
        }),
        forall|j: int|
            0 <= j < first_non_cur(es, cur) ==> (match cur {
                Some(c) => (#[trigger] es[j]).0 == c,
                None => false,
            }),
    decreases es.len(),
{
    if es.len() == 0 {
    } else if (match cur {
        Some(c) => es[0].0 != c,
        None => true,
    }) {
    } else {
        let tl = es.drop_first();
        lemma_first_non_cur(tl, cur);
        assert(forall|i: int| 0 <= i < tl.len() ==> #[trigger] tl[i] == es[i + 1]);
        let f = first_non_cur(es, cur);
        assert(f == 1 + first_non_cur(tl, cur));
        if f < es.len() {
            assert(es[f] == tl[f - 1]);
        }
        assert forall|j: int| 0 <= j < f implies (match cur {
            Some(c) => (#[trigger] es[j]).0 == c,
            None => false,
        }) by {
            if j >= 1 {
                assert(es[j] == tl[j - 1]);
            }
        }
    }
}

/// Removing any entry keeps the remaining keys distinct.
proof fn lemma_unique_remove(es: Seq<EntryTuple>, i: int)
    requires
        keys_unique(es),
        0 <= i < es.len(),
    ensures
        keys_unique(es.remove(i)),
{
    es.remove_ensures(i);
    let r = es.remove(i);
    assert forall|a: int, b: int| 0 <= a < b < r.len() implies (#[trigger] r[a]).0 != (
    #[trigger] r[b]).0 by {
        let aa = if a < i {
            a
        } else {
            a + 1
        };
        let bb = if b < i {
            b
        } else {
            b + 1
        };
        assert(r[a] == es[aa]);
        assert(r[b] == es[bb]);
    }
}

/// Storing an entry keeps keys distinct: an existing key is replaced in
/// place, a new one is appended.
proof fn lemma_unique_insert(es: Seq<EntryTuple>, k: Seq<char>, t: EntryTuple)
    requires
        keys_unique(es),
        t.0 == k,
    ensures
        has_key(es, k) ==> keys_unique(es.update(index_of_key(es, k), t)),
        !has_key(es, k) ==> keys_unique(es.push(t)),
{
    lemma_index_of_key(es, k);
    if has_key(es, k) {
        let ix = index_of_key(es, k);
        let u = es.update(ix, t);
        assert forall|a: int, b: int| 0 <= a < b < u.len() implies (#[trigger] u[a]).0 != (
        #[trigger] u[b]).0 by {
            assert(u[a].0 == es[a].0);
            assert(u[b].0 == es[b].0);
        }
    } else {
        let u = es.push(t);
        assert forall|a: int, b: int| 0 <= a < b < u.len() implies (#[trigger] u[a]).0 != (
        #[trigger] u[b]).0 by {
            if b == es.len() {
                assert(u[a].0 == es[a].0);
                assert(!(es[a].0 == k));
            } else {
                assert(u[a].0 == es[a].0);
                assert(u[b].0 == es[b].0);
            }
        }
    }
}

/// Eviction never removes the current item's entry.
pub proof fn lemma_eviction_protects_current(es: Seq<EntryTuple>, c: Seq<char>, n: nat)
    ensures
        has_key(es, c) ==> has_key(evict(es, Some(c), n), c),
    decreases n,
{
    if n == 0 {
    } else {
        let i = first_non_cur(es, Some(c));
        lemma_first_non_cur(es, Some(c));
        if i >= es.len() {
        } else {
            if has_key(es, c) {
                es.remove_ensures(i);
                let w = choose|j: int| 0 <= j < es.len() && (#[trigger] es[j]).0 == c;
                assert(w != i);
                let r = es.remove(i);
                if w < i {
                    assert(r[w].0 == c);
                } else {
                    assert(r[w - 1] == es[w]);
                }
                assert(has_key(r, c));
            }
            lemma_eviction_protects_current(es.remove(i), c, (n - 1) as nat);
        }
    }
}

/// With distinct keys and room to spare, eviction removes exactly `n`
/// entries and keeps the keys distinct.
pub proof fn lemma_evict_len(es: Seq<EntryTuple>, cur: Option<Seq<char>>, n: nat)
    requires
        keys_unique(es),
        n + 1 <= es.len() || (cur is None && n <= es.len()),
    ensures
        evict(es, cur, n).len() == es.len() - n,
        keys_unique(evict(es, cur, n)),
    decreases n,
{
    if n == 0 {
    } else {
        let i = first_non_cur(es, cur);
        lemma_first_non_cur(es, cur);
        assert(i < es.len()) by {
            if i >= es.len() {
                match cur {
                    Some(c) => {
                        assert(es.len() >= 2);
                        assert(es[0].0 == c);
                        assert(es[1].0 == c);
                    },
                    None => {
                        assert(es.len() >= 1);
                    },
                }
            }
        }
        es.remove_ensures(i);
        lemma_unique_remove(es, i);
        lemma_evict_len(es.remove(i), cur, (n - 1) as nat);
    }
}


/// The event a completed load produces: the current item's first visual
/// data — its sample, or its full resolution when it has no sample —
/// announces readiness; anything else is silent.
pub open spec fn spec_ready_event(pre: MediaCache, key: Seq<char>, is_sample: bool) -> Option<
    Event,
> {
    match pre.current_item {
        Some(cur) => if (is_sample || cur.sample_url is None) && spec_cache_key(cur) == key {
            Some(Event::View(ViewEvent::MediaReady))
        } else {
            None
        },
        None => None,
    }
}

/// The event a failed load produces: a failure of the current item is
/// surfaced; a prefetch failure is dropped silently, never interrupting
/// the viewing session.
pub open spec fn spec_error_event(pre: MediaCache, key: Seq<char>, error: String) -> Option<
    Event,
> {
    match pre.current_item {
        Some(cur) => if spec_cache_key(cur) == key {
            Some(Event::Media(MediaEvent::LoadError { error }))
        } else {
            None
        },
        None => None,
    }
}

/// The prefetch queue a batch of url triples builds: one item per triple,
/// in order, skipping anything already cached, already being fetched, or
/// already booked earlier in the same batch.
pub open spec fn prefetch_items(
    pre: MediaCache,
    urls: Seq<(Option<String>, Option<String>, bool)>,
) -> Seq<MediaItem>
    decreases urls.len(),
{
    if urls.len() == 0 {
        Seq::<MediaItem>::empty()
    } else {
        let init = prefetch_items(pre, urls.drop_last());
        let t = urls.last();
        let item = MediaItem { sample_url: t.0, full_url: t.1, is_video: t.2 };
        let k = spec_cache_key(item);
        if !pre.cache_has(k) && !pre.loading(k) && !items_have_key(init, k) {
            init.push(item)
        } else {
            init
        }
    }
}

impl MediaCache {
    /// Hand one unit of work to a channel: the dedicated priority channel
    /// or the shared pool one. On acceptance the URL is marked loading,
    /// so it is never fetched twice at once; a full channel leaves the
    /// state untouched and the caller retries on a later pass.
    fn enqueue_load(
        &mut self,
        url: String,
        is_sample: bool,
        cache_key: String,
        priority: bool,
    ) -> (sent: bool)
        requires
            old(self).wf(),
            !old(self).loading(url@),
        ensures
            final(self).wf(),
            final(self).cache == old(self).cache,
            final(self).pending_set == old(self).pending_set,
            final(self).current_item == old(self).current_item,
            final(self).pending_samples == old(self).pending_samples,
            final(self).pending_full == old(self).pending_full,
            final(self).cache_bound == old(self).cache_bound,
            sent ==> final(self).log() == old(self).log().push(
                Dispatch { url: url@, is_sample, priority },
            ) && (forall|u: Seq<char>|
                final(self).loading(u) <==> (old(self).loading(u) || u == url@)),
            !sent ==> final(self).log() == old(self).log() && final(self).loading_set == old(self).loading_set,
    {
        let ghost uview = url@;
        let work = LoadWork { url: url.clone(), is_sample, cache_key };
        let sent = if priority {
            try_send_work(&self.priority_tx, work)
        } else {
            try_send_work(&self.work_tx, work)
        };
        if sent {
            self.dispatch_log = Ghost(
                self.dispatch_log@.push(Dispatch { url: uview, is_sample, priority }),
            );
            let ghost before = self.loading_set@;
            self.loading_set.push(url);
            proof {
                assert forall|u: Seq<char>| self.loading(u) <==> (seq_has_str(before, u) || u
                    == uview) by {
                    if seq_has_str(self.loading_set@, u) {
                        let w = choose|j: int|
                            0 <= j < self.loading_set@.len() && (#[trigger] self.loading_set@[j])@
                                == u;
                        if w < before.len() {
                            assert(before[w]@ == u);
                        }
                    }
                    if seq_has_str(before, u) {
                        let w = choose|j: int|
                            0 <= j < before.len() && (#[trigger] before[j])@ == u;
                        assert(self.loading_set@[w]@ == u);
                    }
                    if u == uview {
                        assert(self.loading_set@[before.len() as int]@ == u);
                    }
                }
                assert forall|a: int, b: int|
                    0 <= a < b < self.loading_set@.len() implies (
                #[trigger] self.loading_set@[a])@ != (#[trigger] self.loading_set@[b])@ by {
                    if b < before.len() {
                        assert(before[a]@ != before[b]@);
                    } else {
                        assert(self.loading_set@[b]@ == uview);
                        assert(self.loading_set@[a] == before[a]);
                        assert(!seq_has_str(before, uview));
                    }
                }
            }
        }
        sent
    }

    /// Fold one worker report in. The URL stops being "loading" either
    /// way. A successful load is stored under its cache key — a fresh key
    /// is appended, a known key keeps its place — and an entry is only
    /// ever promoted: a sample report for a key already at the full tier
    /// leaves the entry as it is, never downgrading it. The current
    /// item's first visual data emits a readiness event; a failure of the
    /// current item emits a load error; everything else is silent.
    pub fn apply_completion(&mut self, msg: MediaMessage) -> (ev: Option<Event>)
        requires
            old(self).wf(),
        ensures
            final(self).wf(),
            final(self).current_item == old(self).current_item,
            final(self).pending_samples == old(self).pending_samples,
            final(self).pending_full == old(self).pending_full,
            final(self).pending_set == old(self).pending_set,
            final(self).cache_bound == old(self).cache_bound,
            final(self).log() == old(self).log(),
            match msg {
                MediaMessage::ImageLoaded { url, is_sample, full_url, result } => {
                    &&& forall|u: Seq<char>|
                        final(self).loading(u) <==> (old(self).loading(u) && u != url@)
                    &&& match result {
                        Ok(handle) => {
                            &&& (is_sample && old(self).cache_has_full(full_url@) ==> final(self).entries() == old(self).entries())
                            &&& (old(self).cache_has(full_url@) && !(is_sample && old(self).cache_has_full(full_url@)) ==> final(self).entries() == old(self).entries().update(
                                index_of_key(old(self).entries(), full_url@),
                                (full_url@, handle.id, !is_sample),
                            ))
                            &&& (!old(self).cache_has(full_url@) ==> final(self).entries() == old(self).entries().push((full_url@, handle.id, !is_sample)))
                            &&& ev == spec_ready_event(*old(self), full_url@, is_sample)
                        },
                        Err(e) => {
                            &&& final(self).entries() == old(self).entries()
                            &&& ev == spec_error_event(*old(self), full_url@, e)
                        },
                    }
                },
            },
    {
        match msg {
            MediaMessage::ImageLoaded { url, is_sample, full_url, result } => {
                vec_remove_str(&mut self.loading_set, &url);
                match result {
                    Ok(handle) => {
                        let state = if is_sample {
                            CacheState::SampleOnly
                        } else {
                            CacheState::Full
                        };
                        let entry = CacheEntry { media: LoadedMedia::Image { texture: handle }, state };
                        let already_full = match cache_get(&self.cache, &full_url) {
                            Some(e) => match e.state {
                                CacheState::Full => true,
                                CacheState::SampleOnly => false,
                            },
                            None => false,
                        };
                        if !(is_sample && already_full) {
                            proof {
                                lemma_unique_insert(
                                    self.entries(),
                                    full_url@,
                                    entry_tuple(full_url@, entry),
                                );
                            }
                            cache_insert(&mut self.cache, full_url.clone(), entry);
                        }
                        match &self.current_item {
                            Some(cur) => {
                                let is_initial = is_sample || cur.sample_url.is_none();
                                let key = self.get_cache_key(cur);
                                if is_initial && key.eq(&full_url) {
                                    Some(Event::View(ViewEvent::MediaReady))
                                } else {
                                    None
                                }
                            },
                            None => None,
                        }
                    },
                    Err(e) => {
                        match &self.current_item {
                            Some(cur) => {
                                let key = self.get_cache_key(cur);
                                if key.eq(&full_url) {
                                    Some(Event::Media(MediaEvent::LoadError { error: e }))
                                } else {
                                    None
                                }
                            },
                            None => None,
                        }
                    },
                }
            },
        }
    }

    /// Replace the current item or rebuild the prefetch round. A load
    /// request whose key is already cached announces readiness at once,
    /// with no work dispatched. A prefetch replaces both pending queues
    /// with a fresh batch, skipping anything cached, being fetched, or
    /// repeated within the batch, so overlapping prefetches never
    /// duplicate work.
    pub fn handle(&mut self, event: &Event) -> (resp: ComponentResponse)
        requires
            old(self).wf(),
        ensures
            final(self).wf(),
            resp.scheduled@ == Seq::<(Event, u64)>::empty(),
            final(self).log() == old(self).log(),
            final(self).loading_set == old(self).loading_set,
            final(self).cache == old(self).cache,
            final(self).cache_bound == old(self).cache_bound,
            match event {
                Event::Media(MediaEvent::LoadRequest { sample_url, full_url, is_video }) => {
                    let item = MediaItem {
                        sample_url: *sample_url,
                        full_url: *full_url,
                        is_video: *is_video,
                    };
                    &&& final(self).current_item == Some(item)
                    &&& final(self).pending_samples == old(self).pending_samples
                    &&& final(self).pending_full == old(self).pending_full
                    &&& final(self).pending_set == old(self).pending_set
                    &&& (old(self).cache_has(spec_cache_key(item)) ==> resp.events@ == seq![
                        Event::View(ViewEvent::MediaReady),
                    ])
                    &&& (!old(self).cache_has(spec_cache_key(item)) ==> resp.events@ == Seq::<
                        Event,
                    >::empty())
                },
                Event::Media(MediaEvent::Prefetch { urls }) => {
                    &&& final(self).current_item == old(self).current_item
                    &&& resp.events@ == Seq::<Event>::empty()
                    &&& final(self).pending_full@ == Seq::<MediaItem>::empty()
                    &&& final(self).pending_samples@ == prefetch_items(*old(self), urls@)
                    &&& forall|k: Seq<char>|
                        #[trigger] final(self).pending_has(k) ==> items_have_key(
                            prefetch_items(*old(self), urls@),
                            k,
                        )
                    &&& forall|k: Seq<char>|
                        #[trigger] items_have_key(prefetch_items(*old(self), urls@), k)
                            ==> final(self).pending_has(k)
                },
                _ => {
                    &&& final(self).current_item == old(self).current_item
                    &&& final(self).pending_samples == old(self).pending_samples
                    &&& final(self).pending_full == old(self).pending_full
                    &&& final(self).pending_set == old(self).pending_set
                    &&& resp.events@ == Seq::<Event>::empty()
                },
            },
    {
        match event {
            Event::Media(MediaEvent::LoadRequest { sample_url, full_url, is_video }) => {
                let item = MediaItem {
                    sample_url: crate::api::dup_opt_string(sample_url),
                    full_url: crate::api::dup_opt_string(full_url),
                    is_video: *is_video,
                };
                let cache_key = self.get_cache_key(&item);
                self.current_item = Some(item);
                if cache_contains(&self.cache, &cache_key) {
                    ComponentResponse::emit(Event::View(ViewEvent::MediaReady))
                } else {
                    ComponentResponse::none()
                }
            },
            Event::Media(MediaEvent::Prefetch { urls }) => {
                self.pending_samples.clear();
                self.pending_full.clear();
                self.pending_set.clear();
                let n = urls.len();
                let mut idx: usize = 0;
                while idx < n
                    invariant
                        old(self).wf(),
                        n == urls@.len(),
                        idx <= n,
                        self.cache == old(self).cache,
                        self.loading_set == old(self).loading_set,
                        self.current_item == old(self).current_item,
                        self.pending_full@ == Seq::<MediaItem>::empty(),
                        self.cache_bound == old(self).cache_bound,
                        self.dispatch_log == old(self).dispatch_log,
                        strs_unique(self.pending_set@),
                        self.pending_samples@ == prefetch_items(*old(self), urls@.take(idx as int)),
                        forall|k: Seq<char>|
                            #[trigger] self.pending_has(k) ==> items_have_key(
                                self.pending_samples@,
                                k,
                            ),
                        forall|k: Seq<char>|
                            #[trigger] items_have_key(self.pending_samples@, k)
                                ==> self.pending_has(k),
                    decreases n - idx,
                {
                    let ghost pre_iter = *self;
                    let t = &urls[idx];
                    let item = MediaItem {
                        sample_url: crate::api::dup_opt_string(&t.0),
                        full_url: crate::api::dup_opt_string(&t.1),
                        is_video: t.2,
                    };
                    let key = self.get_cache_key(&item);
                    let in_cache = cache_contains(&self.cache, &key);
                    let in_loading = vec_contains_str(&self.loading_set, &key);
                    let in_pending = vec_contains_str(&self.pending_set, &key);
                    proof {
                        assert(urls@.take(idx as int + 1).drop_last() =~= urls@.take(idx as int));
                        assert(urls@.take(idx as int + 1).last() == urls@[idx as int]);
                        assert(item.sample_url == urls@[idx as int].0);
                        assert(item.full_url == urls@[idx as int].1);
                    }
                    if !in_cache && !in_loading && !in_pending {
                        let ghost bs = pre_iter.pending_set@;
                        let ghost bi = pre_iter.pending_samples@;
                        proof {
                            assert(!items_have_key(bi, key@)) by {
                                if items_have_key(bi, key@) {
                                    assert(pre_iter.pending_has(key@));
                                }
                            }
                        }
                        self.pending_set.push(key);
                        self.pending_samples.push_back(item);
                        proof {
                            assert(self.pending_samples@ == prefetch_items(
                                *old(self),
                                urls@.take(idx as int + 1),
                            ));
                            assert forall|k: Seq<char>| #[trigger] self.pending_has(k) implies
                            items_have_key(self.pending_samples@, k) by {
                                let w = choose|j: int|
                                    0 <= j < self.pending_set@.len() && (
                                    #[trigger] self.pending_set@[j])@ == k;
                                if w < bs.len() {
                                    assert(bs[w]@ == k);
                                    assert(pre_iter.pending_has(k));
                                    assert(items_have_key(bi, k));
                                    let wi = choose|j: int|
                                        0 <= j < bi.len() && spec_cache_key(#[trigger] bi[j]) == k;
                                    assert(spec_cache_key(self.pending_samples@[wi]) == k);
                                } else {
                                    assert(spec_cache_key(
                                        self.pending_samples@[bi.len() as int],
                                    ) == k);
                                }
                            }
                            assert forall|k: Seq<char>|
                                #[trigger] items_have_key(self.pending_samples@, k) implies
                            self.pending_has(k) by {
                                let w = choose|j: int|
                                    0 <= j < self.pending_samples@.len() && spec_cache_key(
                                        #[trigger] self.pending_samples@[j],
                                    ) == k;
                                if w < bi.len() {
                                    assert(bi[w] == self.pending_samples@[w]);
                                    assert(items_have_key(bi, k));
                                    assert(pre_iter.pending_has(k));
                                    let ws = choose|j: int|
                                        0 <= j < bs.len() && (#[trigger] bs[j])@ == k;
                                    assert(self.pending_set@[ws]@ == k);
                                } else {
                                    assert(spec_cache_key(item) == k);
                                    assert(self.pending_set@[bs.len() as int]@ == k);
                                }
                            }
                            assert forall|a: int, b: int|
                                0 <= a < b < self.pending_set@.len() implies (
                            #[trigger] self.pending_set@[a])@ != (
                            #[trigger] self.pending_set@[b])@ by {
                                if b < bs.len() {
                                    assert(bs[a]@ != bs[b]@);
                                } else {
                                    assert(self.pending_set@[a] == bs[a]);
                                    assert(self.pending_set@[b]@ == key@);
                                    assert(bs[a]@ != key@) by {
                                        if bs[a]@ == key@ {
                                            assert(seq_has_str(bs, key@));
                                        }
                                    }
                                }
                            }
                        }
                    } else {
                        proof {
                            if in_pending {
                                assert(pre_iter.pending_has(key@));
                                assert(items_have_key(pre_iter.pending_samples@, key@));
                            }
                            assert(self.pending_samples@ == prefetch_items(
                                *old(self),
                                urls@.take(idx as int + 1),
                            ));
                        }
                    }
                    idx = idx + 1;
                }
                proof {
                    assert(urls@.take(n as int) =~= urls@);
                }
                ComponentResponse::none()
            },
            _ => ComponentResponse::none(),
        }
    }
}


/// Every element of `tail` is the single dispatch `d`, and there is at
/// most one.
pub open spec fn tail_at_most_one(tail: Seq<Dispatch>, d: Dispatch) -> bool {
    &&& tail.len() <= 1
    &&& forall|j: int| 0 <= j < tail.len() ==> #[trigger] tail[j] == d
}

/// Exactly what scheduling the current item dispatches, for every state:
/// nothing without a current item; the first visual tier (sample, or full
/// when no sample exists) through the shared pool while the key is not
/// cached; the full resolution through the priority channel once the key
/// is cached below the full tier; nothing once the full tier is cached.
/// Videos skip the sample tier. A URL already being fetched is never
/// dispatched again.
pub open spec fn current_tail_spec(pre: MediaCache, post: MediaCache) -> bool {
    let tail = post.log().skip(pre.log().len() as int);
    match pre.current_item {
        None => tail.len() == 0,
        Some(cur) => {
            let key = spec_cache_key(cur);
            if cur.is_video {
                if !pre.cache_has_full(key) {
                    match cur.full_url {
                        Some(f) => tail_at_most_one(
                            tail,
                            Dispatch { url: f@, is_sample: false, priority: true },
                        ) && (pre.loading(f@) ==> tail.len() == 0),
                        None => tail.len() == 0,
                    }
                } else {
                    tail.len() == 0
                }
            } else if !pre.cache_has(key) {
                match cur.sample_url {
                    Some(s) => tail_at_most_one(
                        tail,
                        Dispatch { url: s@, is_sample: true, priority: false },
                    ) && (pre.loading(s@) ==> tail.len() == 0),
                    None => match cur.full_url {
                        Some(f) => tail_at_most_one(
                            tail,
                            Dispatch { url: f@, is_sample: false, priority: true },
                        ) && (pre.loading(f@) ==> tail.len() == 0),
                        None => tail.len() == 0,
                    },
                }
            } else if !pre.cache_has_full(key) {
                match cur.full_url {
                    Some(f) => tail_at_most_one(
                        tail,
                        Dispatch { url: f@, is_sample: false, priority: true },
                    ) && (pre.loading(f@) ==> tail.len() == 0),
                    None => tail.len() == 0,
                }
            } else {
                tail.len() == 0
            }
        },
    }
}

impl MediaCache {
    /// Schedule the current item: its first visual tier through the
    /// shared pool, or its full resolution through the dedicated priority
    /// channel once the first tier is cached.
    fn schedule_current(&mut self)
        requires
            old(self).wf(),
        ensures
            final(self).wf(),
            final(self).cache == old(self).cache,
            final(self).current_item == old(self).current_item,
            final(self).pending_set == old(self).pending_set,
            final(self).pending_samples == old(self).pending_samples,
            final(self).pending_full == old(self).pending_full,
            final(self).cache_bound == old(self).cache_bound,
            final(self).log().len() >= old(self).log().len(),
            final(self).log().take(old(self).log().len() as int) == old(self).log(),
            forall|j: int|
                old(self).log().len() <= j < final(self).log().len() ==> dispatch_ok(
                    *old(self),
                    #[trigger] final(self).log()[j],
                ),
            current_tail_spec(*old(self), *final(self)),
    {
        let ghost l0 = self.dispatch_log@;
        let cur_opt = match &self.current_item {
            Some(c) => Some(c.duplicate()),
            None => None,
        };
        if let Some(current) = &cur_opt {
            let cache_key = self.get_cache_key(current);
            let entry = cache_get(&self.cache, &cache_key);
            let has_entry = entry.is_some();
            let has_full = match &entry {
                Some(e) => match e.state {
                    CacheState::Full => true,
                    CacheState::SampleOnly => false,
                },
                None => false,
            };
            let sample_loading = match &current.sample_url {
                Some(u) => vec_contains_str(&self.loading_set, u),
                None => false,
            };
            let full_loading = match &current.full_url {
                Some(u) => vec_contains_str(&self.loading_set, u),
                None => false,
            };
            if !current.is_video {
                if !has_entry {
                    if let Some(sample_url) = &current.sample_url {
                        if !sample_loading {
                            let sent = self.enqueue_load(
                                sample_url.clone(),
                                true,
                                cache_key,
                                false,
                            );
                            proof {
                                if sent {
                                    assert(self.dispatch_log@.skip(l0.len() as int) =~= seq![
                                        Dispatch {
                                            url: sample_url@,
                                            is_sample: true,
                                            priority: false,
                                        },
                                    ]);
                                }
                            }
                        }
                    } else if let Some(full_url) = &current.full_url {
                        if !full_loading {
                            let sent = self.enqueue_load(full_url.clone(), false, cache_key, true);
                            proof {
                                if sent {
                                    assert(self.dispatch_log@.skip(l0.len() as int) =~= seq![
                                        Dispatch { url: full_url@, is_sample: false, priority: true },
                                    ]);
                                }
                            }
                        }
                    }
                } else if !has_full {
                    if let Some(full_url) = &current.full_url {
                        if !full_loading {
                            let sent = self.enqueue_load(full_url.clone(), false, cache_key, true);
                            proof {
                                if sent {
                                    assert(self.dispatch_log@.skip(l0.len() as int) =~= seq![
                                        Dispatch { url: full_url@, is_sample: false, priority: true },
                                    ]);
                                }
                            }
                        }
                    }
                }
            } else {
                if !has_full {
                    if let Some(full_url) = &current.full_url {
                        if !full_loading {
                            let sent = self.enqueue_load(full_url.clone(), false, cache_key, true);
                            proof {
                                if sent {
                                    assert(self.dispatch_log@.skip(l0.len() as int) =~= seq![
                                        Dispatch { url: full_url@, is_sample: false, priority: true },
                                    ]);
                                }
                            }
                        }
                    }
                }
            }
        }
        proof {
            if self.dispatch_log@ == l0 {
                assert(self.dispatch_log@.skip(l0.len() as int) =~= Seq::<Dispatch>::empty());
            }
            assert(self.dispatch_log@.take(l0.len() as int) =~= l0);
        }
    }
}



/// `it` is one of the queued items.
pub open spec fn item_of(items: Seq<MediaItem>, it: MediaItem) -> bool {
    exists|i: int| 0 <= i < items.len() && items[i] == it
}

/// A dispatch the breadth-first sample drain may hand out from `items`:
/// the sample of a queued item or, for an item with no sample tier, its
/// full resolution as the first-tier load; always through the shared
/// pool.
pub open spec fn sample_queue_dispatch(items: Seq<MediaItem>, d: Dispatch) -> bool {
    !d.priority && exists|i: int|
        0 <= i < items.len() && (match (#[trigger] items[i]).sample_url {
            Some(s) => d.is_sample && d.url == s@,
            None => match items[i].full_url {
                Some(f) => !d.is_sample && d.url == f@,
                None => false,
            },
        })
}

/// A dispatch the depth-first upgrade drain may hand out from `items`:
/// the full resolution of a queued item, through the shared pool.
pub open spec fn upgrade_dispatch(items: Seq<MediaItem>, d: Dispatch) -> bool {
    !d.priority && !d.is_sample && exists|i: int|
        0 <= i < items.len() && (match (#[trigger] items[i]).full_url {
            Some(f) => d.url == f@,
            None => false,
        })
}

/// A dispatch for the current item itself: its sample through the shared
/// pool, or its full resolution through the priority channel.
pub open spec fn current_dispatch(pre: MediaCache, d: Dispatch) -> bool {
    match pre.current_item {
        Some(cur) => (match cur.sample_url {
            Some(s) => d == (Dispatch { url: s@, is_sample: true, priority: false }),
            None => false,
        }) || (match cur.full_url {
            Some(f) => d == (Dispatch { url: f@, is_sample: false, priority: true }),
            None => false,
        }),
        None => false,
    }
}

/// The item's sample fetch stands in the log at or past `lo`.
pub open spec fn sample_dispatched(log: Seq<Dispatch>, lo: int, it: MediaItem) -> bool {
    match it.sample_url {
        Some(s) => exists|k: int|
            lo <= k < log.len() && log[k] == (Dispatch {
                url: s@,
                is_sample: true,
                priority: false,
            }),
        None => false,
    }
}

/// One scheduling pass's new dispatches, split at `a` and `b`: first the
/// current item's own fetch, then the breadth-first sample drain, and
/// only then the depth-first upgrade drain.
pub open spec fn dispatch_regions(pre: MediaCache, post: MediaCache, a: int, b: int) -> bool {
    &&& pre.log().len() <= a <= b <= post.log().len()
    &&& a - pre.log().len() <= 1
    &&& forall|j: int|
        pre.log().len() <= j < a ==> current_dispatch(pre, #[trigger] post.log()[j])
    &&& forall|j: int|
        a <= j < b ==> sample_queue_dispatch(pre.pending_samples@, #[trigger] post.log()[j])
    &&& forall|j: int|
        b <= j < post.log().len() ==> upgrade_dispatch(
            pre.pending_full@ + pre.pending_samples@,
            #[trigger] post.log()[j],
        )
}

/// A dispatch already in the log stays there as the log grows.
proof fn lemma_sample_dispatched_monotone(
    log1: Seq<Dispatch>,
    log2: Seq<Dispatch>,
    lo: int,
    it: MediaItem,
)
    requires
        0 <= lo,
        sample_dispatched(log1, lo, it),
        log2.len() >= log1.len(),
        forall|k: int| 0 <= k < log1.len() ==> #[trigger] log2[k] == log1[k],
    ensures
        sample_dispatched(log2, lo, it),
{
    match it.sample_url {
        Some(su) => {
            let k = choose|k: int|
                lo <= k < log1.len() && log1[k] == (Dispatch {
                    url: su@,
                    is_sample: true,
                    priority: false,
                });
            assert(log2[k] == log1[k]);
        },
        None => {},
    }
}

impl MediaCache {
    /// Drain the queued prefetch samples into the shared pool,
    /// breadth-first: one sample per upcoming item. An item already
    /// cached, or whose URL is already being fetched, is dropped; an item
    /// whose sample was handed out moves to the full-resolution upgrade
    /// queue; a full channel leaves the rest for a later pass. A
    /// first-tier full fetch for the current item's own key is never
    /// handed to the shared pool here: the current item is served through
    /// its dedicated channel.
    fn drain_pending_samples(&mut self)
        requires
            old(self).wf(),
        ensures
            final(self).wf(),
            final(self).cache == old(self).cache,
            final(self).current_item == old(self).current_item,
            final(self).pending_set == old(self).pending_set,
            final(self).cache_bound == old(self).cache_bound,
            final(self).log().len() >= old(self).log().len(),
            final(self).log().take(old(self).log().len() as int) == old(self).log(),
            forall|j: int|
                old(self).log().len() <= j < final(self).log().len() ==> sample_queue_dispatch(
                    old(self).pending_samples@,
                    #[trigger] final(self).log()[j],
                ),
            match old(self).current_item {
                Some(cur) => forall|j: int|
                    old(self).log().len() <= j < final(self).log().len() ==> (!(
                    #[trigger] final(self).log()[j]).is_sample ==> final(self).log()[j].url
                        != spec_cache_key(cur)),
                None => true,
            },
            final(self).pending_full@.len() >= old(self).pending_full@.len(),
            final(self).pending_full@.take(old(self).pending_full@.len() as int) == old(
                self,
            ).pending_full@,
            forall|j: int|
                old(self).pending_full@.len() <= j < final(self).pending_full@.len()
                    ==> item_of(old(self).pending_samples@, #[trigger] final(self).pending_full@[j])
                    && sample_dispatched(
                    final(self).log(),
                    old(self).log().len() as int,
                    final(self).pending_full@[j],
                ),
            old(self).pending_samples@.len() == 0 ==> final(self).log() == old(self).log()
                && final(self).pending_samples == old(self).pending_samples && final(self).pending_full == old(self).pending_full && final(self).loading_set == old(self).loading_set,
    {
        proof {
            assert(self.dispatch_log@.take(old(self).log().len() as int) =~= old(self).log());
            assert(self.pending_full@.take(old(self).pending_full@.len() as int)
                =~= old(self).pending_full@);
        }
        let cur_key: Option<String> = match &self.current_item {
            Some(ci) => Some(self.get_cache_key(ci)),
            None => None,
        };
        let ghost mut c: int = 0;
        let mut go = true;
        while go && self.pending_samples.len() > 0
            invariant
                self.wf(),
                self.cache == old(self).cache,
                self.current_item == old(self).current_item,
                self.pending_set == old(self).pending_set,
                self.cache_bound == old(self).cache_bound,
                (match (old(self).current_item, &cur_key) {
                    (Some(cur), Some(ck)) => ck@ == spec_cache_key(cur),
                    (None, None) => true,
                    _ => false,
                }),
                0 <= c <= old(self).pending_samples@.len(),
                self.pending_samples@ =~= old(self).pending_samples@.skip(c),
                self.dispatch_log@.len() >= old(self).log().len(),
                self.dispatch_log@.take(old(self).log().len() as int) == old(self).log(),
                forall|j: int|
                    old(self).log().len() <= j < self.dispatch_log@.len()
                        ==> sample_queue_dispatch(
                        old(self).pending_samples@,
                        #[trigger] self.dispatch_log@[j],
                    ),
                match old(self).current_item {
                    Some(cur) => forall|j: int|
                        old(self).log().len() <= j < self.dispatch_log@.len() ==> (!(
                        #[trigger] self.dispatch_log@[j]).is_sample ==> self.dispatch_log@[j].url
                            != spec_cache_key(cur)),
                    None => true,
                },
                self.pending_full@.len() >= old(self).pending_full@.len(),
                self.pending_full@.take(old(self).pending_full@.len() as int) == old(
                    self,
                ).pending_full@,
                forall|j: int|
                    old(self).pending_full@.len() <= j < self.pending_full@.len() ==> item_of(
                        old(self).pending_samples@,
                        #[trigger] self.pending_full@[j],
                    ) && sample_dispatched(
                        self.dispatch_log@,
                        old(self).log().len() as int,
                        self.pending_full@[j],
                    ),
                old(self).pending_samples@.len() == 0 ==> self.dispatch_log@ == old(self).log()
                    && self.pending_samples == old(self).pending_samples && self.pending_full
                    == old(self).pending_full && self.loading_set == old(self).loading_set,
            decreases self.pending_samples.len(), (if go {
                1int
            } else {
                0int
            }),
        {
            let ghost lpre = self.dispatch_log@;
            let item = self.pending_samples[0].duplicate();
            proof {
                assert(self.pending_samples@[0] == old(self).pending_samples@.skip(c)[0]);
                assert(item == old(self).pending_samples@[c]);
            }
            let key = self.get_cache_key(&item);
            if cache_contains(&self.cache, &key) {
                self.pending_samples.pop_front();
                proof {
                    assert(self.pending_samples@ =~= old(self).pending_samples@.skip(c + 1));
                    c = c + 1;
                }
            } else {
                if item.sample_url.is_some() {
                    let sample = match &item.sample_url {
                        Some(u) => u.clone(),
                        None => String::new(),
                    };
                    if vec_contains_str(&self.loading_set, &sample) {
                        self.pending_samples.pop_front();
                        proof {
                            assert(self.pending_samples@ =~= old(self).pending_samples@.skip(
                                c + 1,
                            ));
                            c = c + 1;
                        }
                    } else {
                        let ghost sview = sample@;
                        let sent = self.enqueue_load(sample, true, key, false);
                        if sent {
                            proof {
                                assert(self.dispatch_log@ == lpre.push(
                                    Dispatch { url: sview, is_sample: true, priority: false },
                                ));
                                assert(sample_queue_dispatch(
                                    old(self).pending_samples@,
                                    self.dispatch_log@[self.dispatch_log@.len() - 1],
                                )) by {
                                    assert(old(self).pending_samples@[c] == item);
                                }
                            }
                            self.pending_samples.pop_front();
                            let ghost pf_before = self.pending_full@;
                            self.pending_full.push_back(item);
                            proof {
                                assert(self.pending_samples@ =~= old(self).pending_samples@.skip(
                                    c + 1,
                                ));
                                assert(self.pending_full@.take(
                                    old(self).pending_full@.len() as int,
                                ) =~= pf_before.take(old(self).pending_full@.len() as int));
                                assert(self.pending_full@[self.pending_full@.len() - 1] == item);
                                assert(item_of(old(self).pending_samples@, item)) by {
                                    assert(old(self).pending_samples@[c] == item);
                                }
                                assert(sample_dispatched(
                                    self.dispatch_log@,
                                    old(self).log().len() as int,
                                    item,
                                )) by {
                                    assert(self.dispatch_log@[self.dispatch_log@.len() - 1]
                                        == (Dispatch {
                                        url: sview,
                                        is_sample: true,
                                        priority: false,
                                    }));
                                }
                                assert forall|j: int|
                                    old(self).pending_full@.len() <= j < self.pending_full@.len()
                                        implies item_of(
                                        old(self).pending_samples@,
                                        #[trigger] self.pending_full@[j],
                                    ) && sample_dispatched(
                                        self.dispatch_log@,
                                        old(self).log().len() as int,
                                        self.pending_full@[j],
                                    ) by {
                                    if j < pf_before.len() {
                                        assert(self.pending_full@[j] == pf_before[j]);
                                        assert(sample_dispatched(
                                            lpre,
                                            old(self).log().len() as int,
                                            pf_before[j],
                                        ));
                                        lemma_sample_dispatched_monotone(
                                            lpre,
                                            self.dispatch_log@,
                                            old(self).log().len() as int,
                                            pf_before[j],
                                        );
                                    }
                                }
                                c = c + 1;
                            }
                        } else {
                            go = false;
                        }
                    }
                } else if item.full_url.is_some() {
                    let full = match &item.full_url {
                        Some(u) => u.clone(),
                        None => String::new(),
                    };
                    let is_current = match &cur_key {
                        Some(ck) => key.eq(ck),
                        None => false,
                    };
                    if is_current {
                        self.pending_samples.pop_front();
                        proof {
                            assert(self.pending_samples@ =~= old(self).pending_samples@.skip(
                                c + 1,
                            ));
                            c = c + 1;
                        }
                    } else if vec_contains_str(&self.loading_set, &full) {
                        self.pending_samples.pop_front();
                        proof {
                            assert(self.pending_samples@ =~= old(self).pending_samples@.skip(
                                c + 1,
                            ));
                            c = c + 1;
                        }
                    } else {
                        let ghost fview = full@;
                        proof {
                            assert(key@ == spec_cache_key(item));
                            assert(fview == key@);
                        }
                        let sent = self.enqueue_load(full, false, key, false);
                        if sent {
                            proof {
                                assert(self.dispatch_log@ == lpre.push(
                                    Dispatch { url: fview, is_sample: false, priority: false },
                                ));
                                assert(sample_queue_dispatch(
                                    old(self).pending_samples@,
                                    self.dispatch_log@[self.dispatch_log@.len() - 1],
                                )) by {
                                    assert(old(self).pending_samples@[c] == item);
                                }
                            }
                            self.pending_samples.pop_front();
                            proof {
                                assert(self.pending_samples@ =~= old(self).pending_samples@.skip(
                                    c + 1,
                                ));
                                assert forall|j: int|
                                    old(self).pending_full@.len() <= j < self.pending_full@.len()
                                        implies item_of(
                                        old(self).pending_samples@,
                                        #[trigger] self.pending_full@[j],
                                    ) && sample_dispatched(
                                        self.dispatch_log@,
                                        old(self).log().len() as int,
                                        self.pending_full@[j],
                                    ) by {
                                    assert(sample_dispatched(
                                        lpre,
                                        old(self).log().len() as int,
                                        self.pending_full@[j],
                                    ));
                                    lemma_sample_dispatched_monotone(
                                        lpre,
                                        self.dispatch_log@,
                                        old(self).log().len() as int,
                                        self.pending_full@[j],
                                    );
                                }
                                c = c + 1;
                            }
                        } else {
                            go = false;
                        }
                    }
                } else {
                    self.pending_samples.pop_front();
                    proof {
                        assert(self.pending_samples@ =~= old(self).pending_samples@.skip(c + 1));
                        c = c + 1;
                    }
                }
            }
            proof {
                assert(self.dispatch_log@.take(old(self).log().len() as int) =~= old(self).log());
            }
        }
    }

    /// Drain the queued full-resolution upgrades into the shared pool,
    /// depth-first, once the sample queue has emptied. An item already at
    /// the full tier, or already being fetched, is dropped, as is an item
    /// whose key is the current item's — its full resolution is served
    /// through the dedicated channel, never the shared pool; a full
    /// channel leaves the rest for a later pass.
    fn drain_pending_full(&mut self)
        requires
            old(self).wf(),
        ensures
            final(self).wf(),
            final(self).cache == old(self).cache,
            final(self).current_item == old(self).current_item,
            final(self).pending_set == old(self).pending_set,
            final(self).pending_samples == old(self).pending_samples,
            final(self).cache_bound == old(self).cache_bound,
            final(self).log().len() >= old(self).log().len(),
            final(self).log().take(old(self).log().len() as int) == old(self).log(),
            forall|j: int|
                old(self).log().len() <= j < final(self).log().len() ==> upgrade_dispatch(
                    old(self).pending_full@,
                    #[trigger] final(self).log()[j],
                ),
            match old(self).current_item {
                Some(cur) => forall|j: int|
                    old(self).log().len() <= j < final(self).log().len() ==> (!(
                    #[trigger] final(self).log()[j]).is_sample ==> final(self).log()[j].url
                        != spec_cache_key(cur)),
                None => true,
            },
            exists|c: int|
                0 <= c <= old(self).pending_full@.len() && final(self).pending_full@ == old(
                    self,
                ).pending_full@.skip(c),
            old(self).pending_full@.len() == 0 ==> final(self).log() == old(self).log() && final(self).pending_full == old(self).pending_full && final(self).loading_set == old(self).loading_set,
    {
        proof {
            assert(self.dispatch_log@.take(old(self).log().len() as int) =~= old(self).log());
            assert(self.pending_full@ =~= old(self).pending_full@.skip(0));
        }
        let cur_key: Option<String> = match &self.current_item {
            Some(ci) => Some(self.get_cache_key(ci)),
            None => None,
        };
        let ghost mut c: int = 0;
        let mut go = true;
        while go && self.pending_full.len() > 0
            invariant
                self.wf(),
                self.cache == old(self).cache,
                self.current_item == old(self).current_item,
                self.pending_set == old(self).pending_set,
                self.pending_samples == old(self).pending_samples,
                self.cache_bound == old(self).cache_bound,
                (match (old(self).current_item, &cur_key) {
                    (Some(cur), Some(ck)) => ck@ == spec_cache_key(cur),
                    (None, None) => true,
                    _ => false,
                }),
                0 <= c <= old(self).pending_full@.len(),
                self.pending_full@ =~= old(self).pending_full@.skip(c),
                self.dispatch_log@.len() >= old(self).log().len(),
                self.dispatch_log@.take(old(self).log().len() as int) == old(self).log(),
                forall|j: int|
                    old(self).log().len() <= j < self.dispatch_log@.len() ==> upgrade_dispatch(
                        old(self).pending_full@,
                        #[trigger] self.dispatch_log@[j],
                    ),
                match old(self).current_item {
                    Some(cur) => forall|j: int|
                        old(self).log().len() <= j < self.dispatch_log@.len() ==> (!(
                        #[trigger] self.dispatch_log@[j]).is_sample ==> self.dispatch_log@[j].url
                            != spec_cache_key(cur)),
                    None => true,
                },
                old(self).pending_full@.len() == 0 ==> self.dispatch_log@ == old(self).log()
                    && self.pending_full == old(self).pending_full && self.loading_set == old(self).loading_set,
            decreases self.pending_full.len(), (if go {
                1int
            } else {
                0int
            }),
        {
            let ghost lpre = self.dispatch_log@;
            let item = self.pending_full[0].duplicate();
            proof {
                assert(self.pending_full@[0] == old(self).pending_full@.skip(c)[0]);
                assert(item == old(self).pending_full@[c]);
            }
            let key = self.get_cache_key(&item);
            let has_full = match cache_get(&self.cache, &key) {
                Some(e) => match e.state {
                    CacheState::Full => true,
                    CacheState::SampleOnly => false,
                },
                None => false,
            };
            let is_current = match &cur_key {
                Some(ck) => key.eq(ck),
                None => false,
            };
            if has_full || is_current {
                self.pending_full.pop_front();
                proof {
                    assert(self.pending_full@ =~= old(self).pending_full@.skip(c + 1));
                    c = c + 1;
                }
            } else {
                if item.full_url.is_some() {
                    let full = match &item.full_url {
                        Some(u) => u.clone(),
                        None => String::new(),
                    };
                    if vec_contains_str(&self.loading_set, &full) {
                        self.pending_full.pop_front();
                        proof {
                            assert(self.pending_full@ =~= old(self).pending_full@.skip(c + 1));
                            c = c + 1;
                        }
                    } else {
                        let ghost fview = full@;
                        proof {
                            assert(key@ == spec_cache_key(item));
                            assert(fview == key@);
                        }
                        let sent = self.enqueue_load(full, false, key, false);
                        if sent {
                            proof {
                                assert(self.dispatch_log@ == lpre.push(
                                    Dispatch { url: fview, is_sample: false, priority: false },
                                ));
                                assert(upgrade_dispatch(
                                    old(self).pending_full@,
                                    self.dispatch_log@[self.dispatch_log@.len() - 1],
                                )) by {
                                    assert(old(self).pending_full@[c] == item);
                                }
                            }
                            self.pending_full.pop_front();
                            proof {
                                assert(self.pending_full@ =~= old(self).pending_full@.skip(c + 1));
                                c = c + 1;
                            }
                        } else {
                            go = false;
                        }
                    }
                } else {
                    self.pending_full.pop_front();
                    proof {
                        assert(self.pending_full@ =~= old(self).pending_full@.skip(c + 1));
                        c = c + 1;
                    }
                }
            }
            proof {
                assert(self.dispatch_log@.take(old(self).log().len() as int) =~= old(self).log());
            }
        }
        proof {
            assert(self.pending_full@ =~= old(self).pending_full@.skip(c));
            assert(self.pending_full@ == old(self).pending_full@.skip(c));
        }
    }

    /// One pass of the loading-queue scheduling policy, in priority
    /// order: the current item's needs first, then the queued prefetch
    /// samples breadth-first, and only then the queued full-resolution
    /// upgrades — the new stretch of the dispatch log splits into those
    /// three regions, in that order. Every unit handed to the dedicated
    /// priority channel is the current item's full resolution, dispatched
    /// only once its first visual tier is cached (or at once, when it has
    /// no sample tier) — and while the current item's first tier is not
    /// yet cached, its full resolution is not fetched through any path,
    /// whatever the queues hold. An item joins the upgrade queue only at
    /// the moment its sample fetch is handed out.
    pub fn process_loading_queue(&mut self)
        requires
            old(self).wf(),
        ensures
            final(self).wf(),
            final(self).cache == old(self).cache,
            final(self).current_item == old(self).current_item,
            final(self).pending_set == old(self).pending_set,
            final(self).cache_bound == old(self).cache_bound,
            final(self).log().len() >= old(self).log().len(),
            final(self).log().take(old(self).log().len() as int) == old(self).log(),
            forall|j: int|
                old(self).log().len() <= j < final(self).log().len() ==> dispatch_ok(
                    *old(self),
                    #[trigger] final(self).log()[j],
                ),
            tier_policy_post(*old(self), *final(self)),
            match old(self).current_item {
                Some(cur) => (!cur.is_video && cur.sample_url is Some && cur.full_url is Some
                    && !old(self).cache_has(spec_cache_key(cur))) ==> forall|j: int|
                    old(self).log().len() <= j < final(self).log().len() ==> (!(
                    #[trigger] final(self).log()[j]).is_sample ==> final(self).log()[j].url
                        != spec_cache_key(cur)),
                None => true,
            },
            exists|a: int, b: int| #[trigger] dispatch_regions(*old(self), *final(self), a, b),
            forall|j: int|
                0 <= j < final(self).pending_full@.len() ==> item_of(
                    old(self).pending_full@,
                    #[trigger] final(self).pending_full@[j],
                ) || (item_of(old(self).pending_samples@, final(self).pending_full@[j])
                    && sample_dispatched(
                    final(self).log(),
                    old(self).log().len() as int,
                    final(self).pending_full@[j],
                )),
    {
        let ghost pre = *old(self);
        self.schedule_current();
        let ghost mid1 = *self;
        self.drain_pending_samples();
        let ghost mid2 = *self;
        self.drain_pending_full();
        proof {
            let l0 = pre.log();
            let l1 = mid1.log();
            let l2 = mid2.log();
            let l3 = self.dispatch_log@;
            assert(l3.take(l0.len() as int) =~= l0) by {
                assert(forall|i: int|
                    0 <= i < l0.len() ==> #[trigger] l3[i] == l3.take(l2.len() as int)[i]);
                assert(forall|i: int|
                    0 <= i < l0.len() ==> #[trigger] l2[i] == l2.take(l1.len() as int)[i]);
                assert(forall|i: int|
                    0 <= i < l0.len() ==> #[trigger] l1[i] == l1.take(l0.len() as int)[i]);
            }
            assert forall|j: int| l0.len() <= j < l3.len() implies dispatch_ok(
                pre,
                #[trigger] l3[j],
            ) by {
                if j < l1.len() {
                    assert(l3[j] == l3.take(l2.len() as int)[j]);
                    assert(l2[j] == l2.take(l1.len() as int)[j]);
                    assert(dispatch_ok(pre, l1[j]));
                } else if j < l2.len() {
                    assert(l3[j] == l3.take(l2.len() as int)[j]);
                    assert(!l2[j].priority);
                } else {
                    assert(!l3[j].priority);
                }
            }
            if pre.pending_samples@.len() == 0 && pre.pending_full@.len() == 0 {
                assert(mid1.pending_samples@.len() == 0);
                assert(l2 == l1);
                assert(mid2.pending_full@.len() == 0);
                assert(l3 == l2);
                assert(self.dispatch_log@.skip(l0.len() as int) == l1.skip(l0.len() as int));
                assert(tier_policy_post(pre, *self));
            }
            // The three regions of this pass's dispatches.
            let a = l1.len() as int;
            let b = l2.len() as int;
            assert(a - l0.len() <= 1) by {
                assert(l1.skip(l0.len() as int).len() == a - l0.len());
            }
            assert forall|j: int| l0.len() <= j < a implies current_dispatch(
                pre,
                #[trigger] l3[j],
            ) by {
                assert(l3[j] == l3.take(l2.len() as int)[j]);
                assert(l2[j] == l2.take(l1.len() as int)[j]);
                assert(l1.skip(l0.len() as int)[j - l0.len()] == l1[j]);
            }
            assert forall|j: int| a <= j < b implies sample_queue_dispatch(
                pre.pending_samples@,
                #[trigger] l3[j],
            ) by {
                assert(l3[j] == l3.take(l2.len() as int)[j]);
                assert(sample_queue_dispatch(mid1.pending_samples@, l2[j]));
            }
            assert forall|j: int| b <= j < l3.len() implies upgrade_dispatch(
                pre.pending_full@ + pre.pending_samples@,
                #[trigger] l3[j],
            ) by {
                assert(upgrade_dispatch(mid2.pending_full@, l3[j]));
                let d = l3[j];
                let w = choose|i: int|
                    0 <= i < mid2.pending_full@.len() && (match (
                    #[trigger] mid2.pending_full@[i]).full_url {
                        Some(f) => d.url == f@,
                        None => false,
                    });
                let both = pre.pending_full@ + pre.pending_samples@;
                if w < pre.pending_full@.len() {
                    assert(mid2.pending_full@[w] == mid2.pending_full@.take(
                        pre.pending_full@.len() as int,
                    )[w]);
                    assert(both[w] == pre.pending_full@[w]);
                } else {
                    assert(item_of(pre.pending_samples@, mid2.pending_full@[w]));
                    let wi = choose|i: int|
                        0 <= i < pre.pending_samples@.len() && pre.pending_samples@[i]
                            == mid2.pending_full@[w];
                    assert(both[pre.pending_full@.len() + wi] == pre.pending_samples@[wi]);
                }
            }
            assert(dispatch_regions(pre, *self, a, b));
            // While the current item's first tier is uncached, its full is
            // never fetched: the current-item region holds only its sample,
            // and both drains skip the current key.
            match pre.current_item {
                Some(cur) => {
                    if !cur.is_video && cur.sample_url is Some && cur.full_url is Some
                        && !pre.cache_has(spec_cache_key(cur)) {
                        assert forall|j: int| l0.len() <= j < l3.len() implies (!(
                        #[trigger] l3[j]).is_sample ==> l3[j].url != spec_cache_key(cur)) by {
                            if j < l1.len() {
                                assert(l3[j] == l3.take(l2.len() as int)[j]);
                                assert(l2[j] == l2.take(l1.len() as int)[j]);
                                assert(l1.skip(l0.len() as int)[j - l0.len()] == l1[j]);
                            } else if j < l2.len() {
                                assert(l3[j] == l3.take(l2.len() as int)[j]);
                                assert(!l2[j].is_sample ==> l2[j].url != spec_cache_key(cur));
                            } else {
                                assert(!l3[j].is_sample ==> l3[j].url != spec_cache_key(cur));
                            }
                        }
                    }
                },
                None => {},
            }
            // Every queued upgrade is an old upgrade or a freshly sampled item.
            let cskip = choose|cc: int|
                0 <= cc <= mid2.pending_full@.len() && self.pending_full@
                    == mid2.pending_full@.skip(cc);
            assert forall|j: int| 0 <= j < self.pending_full@.len() implies item_of(
                pre.pending_full@,
                #[trigger] self.pending_full@[j],
            ) || (item_of(pre.pending_samples@, self.pending_full@[j]) && sample_dispatched(
                l3,
                l0.len() as int,
                self.pending_full@[j],
            )) by {
                assert(self.pending_full@[j] == mid2.pending_full@[cskip + j]);
                let it = self.pending_full@[j];
                if cskip + j < pre.pending_full@.len() {
                    assert(mid2.pending_full@[cskip + j] == mid2.pending_full@.take(
                        pre.pending_full@.len() as int,
                    )[cskip + j]);
                    assert(it == pre.pending_full@[cskip + j]);
                    assert(item_of(pre.pending_full@, it));
                } else {
                    assert(item_of(pre.pending_samples@, it));
                    assert(sample_dispatched(l2, l0.len() as int, it));
                    lemma_sample_dispatched_monotone(l2, l3, l0.len() as int, it);
                }
            }
        }
    }
}


impl MediaCache {
    /// The current item's cache key, when there is a current item.
    pub open spec fn spec_current_key(self) -> Option<Seq<char>> {
        match self.current_item {
            Some(cur) => Some(spec_cache_key(cur)),
            None => None,
        }
    }

    /// Prune the cache back to its bound: evict the oldest entries, in
    /// insertion order, that do not belong to the current item, until the
    /// bound holds. The current item's entry is never evicted, however
    /// old it is.
    pub fn prune_cache(&mut self)
        requires
            old(self).wf(),
        ensures
            final(self).wf(),
            final(self).current_item == old(self).current_item,
            final(self).pending_set == old(self).pending_set,
            final(self).pending_samples == old(self).pending_samples,
            final(self).pending_full == old(self).pending_full,
            final(self).loading_set == old(self).loading_set,
            final(self).cache_bound == old(self).cache_bound,
            final(self).log() == old(self).log(),
            old(self).entries().len() <= old(self).cache_bound ==> final(self).entries() == old(self).entries(),
            old(self).entries().len() > old(self).cache_bound ==> final(self).entries() == evict(
                old(self).entries(),
                old(self).spec_current_key(),
                (old(self).entries().len() - old(self).cache_bound) as nat,
            ),
            final(self).entries().len() <= old(self).entries().len(),
            old(self).entries().len() > old(self).cache_bound ==> final(self).entries().len()
                == old(self).cache_bound,
            match old(self).spec_current_key() {
                Some(c) => old(self).cache_has(c) ==> final(self).cache_has(c),
                None => true,
            },
    {
        let ghost es0 = self.entries();
        let ghost curk = self.spec_current_key();
        let len0 = cache_len(&self.cache);
        if len0 <= self.cache_bound {
            return ;
        }
        let cur_key: Option<String> = match &self.current_item {
            Some(item) => Some(self.get_cache_key(item)),
            None => None,
        };
        let excess = len0 - self.cache_bound;
        let mut removed: usize = 0;
        while removed < excess
            invariant
                old(self).wf(),
                self.current_item == old(self).current_item,
                self.pending_set == old(self).pending_set,
                self.pending_samples == old(self).pending_samples,
                self.pending_full == old(self).pending_full,
                self.loading_set == old(self).loading_set,
                self.cache_bound == old(self).cache_bound,
                self.dispatch_log == old(self).dispatch_log,
                es0 == old(self).entries(),
                curk == old(self).spec_current_key(),
                len0 == es0.len(),
                len0 > self.cache_bound,
                excess == len0 - self.cache_bound,
                removed <= excess,
                keys_unique(self.entries()),
                self.entries() == evict(es0, curk, removed as nat),
                self.entries().len() == len0 - removed,
                (match (curk, &cur_key) {
                    (Some(c), Some(k)) => k@ == c,
                    (None, None) => true,
                    _ => false,
                }),
            decreases excess - removed,
        {
            let ghost esi = self.entries();
            let keys = cache_keys(&self.cache);
            proof {
                assert(keys@.len() == esi.len());
                assert(esi.len() >= 2);
            }
            let is_cur0 = match &cur_key {
                Some(c) => keys[0].eq(c),
                None => false,
            };
            proof {
                lemma_first_non_cur(esi, curk);
            }
            if !is_cur0 {
                proof {
                    assert(first_non_cur(esi, curk) == 0) by {
                        reveal_with_fuel(first_non_cur, 2);
                        assert(keys@[0]@ == esi[0].0);
                    }
                    assert(index_of_key(esi, keys@[0]@) == 0) by {
                        reveal_with_fuel(index_of_key, 2);
                    }
                    assert(has_key(esi, keys@[0]@)) by {
                        assert(esi[0].0 == keys@[0]@);
                    }
                    lemma_unique_remove(esi, 0);
                    esi.remove_ensures(0);
                    lemma_evict_snoc(es0, curk, removed as nat);
                }
                let k0 = &keys[0];
                cache_shift_remove(&mut self.cache, k0);
                removed = removed + 1;
            } else {
                proof {
                    assert(first_non_cur(esi, curk) == 1) by {
                        reveal_with_fuel(first_non_cur, 3);
                        assert(esi[0].0 == curk.unwrap());
                        assert(esi.drop_first()[0] == esi[1]);
                        assert(esi[1].0 != esi[0].0);
                        assert(esi.drop_first().len() > 0);
                    }
                    assert(index_of_key(esi, keys@[1]@) == 1) by {
                        reveal_with_fuel(index_of_key, 3);
                        assert(esi[0].0 != keys@[1]@);
                        assert(esi.drop_first()[0].0 == keys@[1]@);
                    }
                    assert(has_key(esi, keys@[1]@)) by {
                        assert(esi[1].0 == keys@[1]@);
                    }
                    lemma_unique_remove(esi, 1);
                    esi.remove_ensures(1);
                    lemma_evict_snoc(es0, curk, removed as nat);
                }
                let k1 = &keys[1];
                cache_shift_remove(&mut self.cache, k1);
                removed = removed + 1;
            }
        }
        proof {
            lemma_evict_len_match(es0, curk, excess as nat);
            match curk {
                Some(c) => {
                    lemma_eviction_protects_current(es0, c, excess as nat);
                },
                None => {},
            }
        }
    }

    /// The cached entry for the current item's key, if any.
    pub fn get_current_media(&self) -> (r: Option<CacheEntry>)
        ensures
            match self.current_item {
                None => r is None,
                Some(cur) => match find_entry(self.entries(), spec_cache_key(cur)) {
                    None => r is None,
                    Some(t) => r == Some(entry_of_tuple(t)),
                },
            },
    {
        match &self.current_item {
            Some(item) => {
                let key = self.get_cache_key(item);
                cache_get(&self.cache, &key)
            },
            None => None,
        }
    }

    /// The current item's best URL: full resolution, else sample.
    pub fn current_url(&self) -> (r: Option<&str>)
        ensures
            match self.current_item {
                None => r is None,
                Some(cur) => match cur.full_url {
                    Some(f) => r matches Some(u) && u@ == f@,
                    None => match cur.sample_url {
                        Some(su) => r matches Some(u) && u@ == su@,
                        None => r is None,
                    },
                },
            },
    {
        match &self.current_item {
            None => None,
            Some(item) => match &item.full_url {
                Some(u) => Some(u.as_str()),
                None => match &item.sample_url {
                    Some(u) => Some(u.as_str()),
                    None => None,
                },
            },
        }
    }

    /// One cache tick: fold in waiting worker reports (up to the poll
    /// budget), run the scheduling policy, and prune the cache. The
    /// produced events are readiness or load-error notices for the
    /// current item; the current item itself never changes here, its
    /// cached entry is never lost, the cache ends within its bound, and
    /// every unit handed to the priority channel this tick is the current
    /// item's full resolution, dispatched only once its first visual tier
    /// is cached.
    pub fn poll(&mut self) -> (resp: ComponentResponse)
        requires
            old(self).wf(),
        ensures
            final(self).wf(),
            resp.scheduled@ == Seq::<(Event, u64)>::empty(),
            final(self).current_item == old(self).current_item,
            final(self).cache_bound == old(self).cache_bound,
            final(self).log().len() >= old(self).log().len(),
            final(self).log().take(old(self).log().len() as int) == old(self).log(),
            forall|i: int|
                0 <= i < resp.events@.len() ==> (#[trigger] resp.events@[i]) matches Event::View(
                    ViewEvent::MediaReady,
                ) || resp.events@[i] matches Event::Media(MediaEvent::LoadError { .. }),
            match old(self).spec_current_key() {
                Some(c) => old(self).cache_has(c) ==> final(self).cache_has(c),
                None => true,
            },
            final(self).entries().len() <= old(self).cache_bound,
            forall|j: int|
                old(self).log().len() <= j < final(self).log().len() ==> dispatch_ok(
                    *final(self),
                    #[trigger] final(self).log()[j],
                ),
            exists|a: int, b: int| #[trigger] dispatch_regions(*old(self), *final(self), a, b),
            forall|j: int|
                0 <= j < final(self).pending_full@.len() ==> item_of(
                    old(self).pending_full@,
                    #[trigger] final(self).pending_full@[j],
                ) || (item_of(old(self).pending_samples@, final(self).pending_full@[j])
                    && sample_dispatched(
                    final(self).log(),
                    old(self).log().len() as int,
                    final(self).pending_full@[j],
                )),
    {
        let mut events: Vec<Event> = Vec::new();
        let mut budget: usize = MEDIA_POLL_BUDGET;
        let mut open = true;
        while open && budget > 0
            invariant
                self.wf(),
                self.current_item == old(self).current_item,
                self.cache_bound == old(self).cache_bound,
                self.dispatch_log@ == old(self).log(),
                self.pending_samples == old(self).pending_samples,
                self.pending_full == old(self).pending_full,
                forall|k: Seq<char>| #[trigger] old(self).cache_has(k) ==> self.cache_has(k),
                forall|i: int|
                    0 <= i < events@.len() ==> (#[trigger] events@[i]) matches Event::View(
                        ViewEvent::MediaReady,
                    ) || events@[i] matches Event::Media(MediaEvent::LoadError { .. }),
            decreases budget,
        {
            match try_recv_media(&mut self.receiver) {
                Some(msg) => {
                    let ghost pre_msg = *self;
                    let ghost gmsg = msg;
                    let ev = self.apply_completion(msg);
                    proof {
                        match gmsg {
                            MediaMessage::ImageLoaded { url, is_sample, full_url, result } => {
                                match result {
                                    Ok(h) => {
                                        lemma_store_preserves_keys(
                                            pre_msg.entries(),
                                            full_url@,
                                            (full_url@, h.id, !is_sample),
                                            self.entries(),
                                        );
                                    },
                                    Err(er) => {},
                                }
                            },
                        }
                        assert forall|k: Seq<char>| #[trigger] old(self).cache_has(k) implies
                        self.cache_has(k) by {
                            assert(pre_msg.cache_has(k));
                            assert(has_key(pre_msg.entries(), k));
                        }
                    }
                    match ev {
                        Some(e) => {
                            proof {
                                match gmsg {
                                    MediaMessage::ImageLoaded { url, is_sample, full_url, result } => {
                                        match result {
                                            Ok(h) => {
                                                assert(Some(e) == spec_ready_event(
                                                    pre_msg,
                                                    full_url@,
                                                    is_sample,
                                                ));
                                            },
                                            Err(er) => {
                                                assert(Some(e) == spec_error_event(
                                                    pre_msg,
                                                    full_url@,
                                                    er,
                                                ));
                                            },
                                        }
                                    },
                                }
                            }
                            events.push(e);
                        },
                        None => {},
                    }
                },
                None => {
                    open = false;
                },
            }
            budget = budget - 1;
        }
        let ghost mid = *self;
        self.process_loading_queue();
        let ghost mid2 = *self;
        self.prune_cache();
        proof {
            assert(self.dispatch_log@.take(old(self).log().len() as int) =~= old(self).log());
            assert(mid2.entries() == mid.entries());
            match old(self).spec_current_key() {
                Some(c) => {
                    if old(self).cache_has(c) {
                        assert(mid.cache_has(c));
                        assert(mid2.spec_current_key() == Some(c));
                        assert(self.cache_has(c));
                    }
                },
                None => {},
            }
            let ghost0 = choose|a: int, b: int| dispatch_regions(mid, mid2, a, b);
            assert(dispatch_regions(mid, mid2, ghost0.0, ghost0.1));
            assert(dispatch_regions(*old(self), *self, ghost0.0, ghost0.1)) by {
                let a = ghost0.0;
                let b = ghost0.1;
                assert(mid.log() == old(self).log());
                assert(self.dispatch_log@ == mid2.log());
                assert forall|j: int| old(self).log().len() <= j < a implies current_dispatch(
                    *old(self),
                    #[trigger] self.dispatch_log@[j],
                ) by {
                    assert(current_dispatch(mid, mid2.log()[j]));
                    assert(mid.current_item == old(self).current_item);
                }
                assert forall|j: int| a <= j < b implies sample_queue_dispatch(
                    old(self).pending_samples@,
                    #[trigger] self.dispatch_log@[j],
                ) by {
                    assert(sample_queue_dispatch(mid.pending_samples@, mid2.log()[j]));
                }
                assert forall|j: int| b <= j < self.dispatch_log@.len() implies upgrade_dispatch(
                    old(self).pending_full@ + old(self).pending_samples@,
                    #[trigger] self.dispatch_log@[j],
                ) by {
                    assert(upgrade_dispatch(
                        mid.pending_full@ + mid.pending_samples@,
                        mid2.log()[j],
                    ));
                }
            }
            assert forall|j: int| 0 <= j < self.pending_full@.len() implies item_of(
                old(self).pending_full@,
                #[trigger] self.pending_full@[j],
            ) || (item_of(old(self).pending_samples@, self.pending_full@[j])
                && sample_dispatched(
                self.dispatch_log@,
                old(self).log().len() as int,
                self.pending_full@[j],
            )) by {
                assert(self.pending_full@[j] == mid2.pending_full@[j]);
                assert(item_of(mid.pending_full@, mid2.pending_full@[j]) || (item_of(
                    mid.pending_samples@,
                    mid2.pending_full@[j],
                ) && sample_dispatched(
                    mid2.log(),
                    mid.log().len() as int,
                    mid2.pending_full@[j],
                )));
            }
            assert forall|j: int|
                old(self).log().len() <= j < self.dispatch_log@.len() implies dispatch_ok(
                *self,
                #[trigger] self.dispatch_log@[j],
            ) by {
                assert(mid2.log()[j] == mid2.log().take(mid2.log().len() as int)[j]);
                assert(dispatch_ok(mid, mid2.log()[j]));
                let d = self.dispatch_log@[j];
                if d.priority {
                    match mid.current_item {
                        Some(cur) => {
                            if !cur.is_video && cur.sample_url is Some {
                                assert(mid.cache_has(spec_cache_key(cur)));
                                assert(mid2.spec_current_key() == Some(spec_cache_key(cur)));
                                assert(self.cache_has(spec_cache_key(cur)));
                            }
                        },
                        None => {},
                    }
                }
            }
        }
        if events.is_empty() {
            ComponentResponse::none()
        } else {
            ComponentResponse::emit_many(events)
        }
    }
}


/// Once only the current item's entries remain, eviction is a fixpoint.
proof fn lemma_evict_stuck(es: Seq<EntryTuple>, cur: Option<Seq<char>>, n: nat)
    requires
        first_non_cur(es, cur) >= es.len(),
    ensures
        evict(es, cur, n) == es,
    decreases n,
{
    if n == 0 {
    } else {
        lemma_evict_stuck(es, cur, (n - 1) as nat);
    }
}

/// One more eviction step applies to the already-evicted sequence: the
/// recursion can be unrolled from either end.
proof fn lemma_evict_snoc(es: Seq<EntryTuple>, cur: Option<Seq<char>>, n: nat)
    ensures
        evict(es, cur, n + 1) == {
            let e = evict(es, cur, n);
            let i = first_non_cur(e, cur);
            if i >= e.len() {
                e
            } else {
                e.remove(i)
            }
        },
    decreases n,
{
    reveal_with_fuel(evict, 3);
    if n == 0 {
    } else {
        let i = first_non_cur(es, cur);
        if i >= es.len() {
            lemma_evict_stuck(es, cur, n);
            lemma_evict_stuck(es, cur, (n + 1) as nat);
        } else {
            lemma_evict_snoc(es.remove(i), cur, (n - 1) as nat);
        }
    }
}


/// Folding a completed load in never removes a key from the cache: the
/// store updates in place, appends, or leaves the entries alone.
proof fn lemma_store_preserves_keys(
    es: Seq<EntryTuple>,
    key: Seq<char>,
    t: EntryTuple,
    es2: Seq<EntryTuple>,
)
    requires
        t.0 == key,
        es2 == es || (has_key(es, key) && es2 == es.update(index_of_key(es, key), t)) || (
        !has_key(es, key) && es2 == es.push(t)),
    ensures
        forall|k: Seq<char>| #[trigger] has_key(es, k) ==> has_key(es2, k),
{
    lemma_index_of_key(es, key);
    assert forall|k: Seq<char>| #[trigger] has_key(es, k) implies has_key(es2, k) by {
        let w = choose|i: int| 0 <= i < es.len() && (#[trigger] es[i]).0 == k;
        if es2 == es {
        } else if has_key(es, key) {
            let ix = index_of_key(es, key);
            if w == ix {
                assert(es2[w].0 == key);
                assert(es[ix].0 == key);
            } else {
                assert(es2[w] == es[w]);
            }
        } else {
            assert(es2[w] == es[w]);
        }
    }
}

/// Eviction from an over-full cache with distinct keys lands exactly on
/// the bound: the current item occupies at most one slot, so there is
/// always an older entry to evict.
proof fn lemma_evict_len_match(es: Seq<EntryTuple>, cur: Option<Seq<char>>, n: nat)
    requires
        keys_unique(es),
        n < es.len(),
    ensures
        evict(es, cur, n).len() == es.len() - n,
        keys_unique(evict(es, cur, n)),
{
    match cur {
        Some(c) => {
            lemma_evict_len(es, cur, n);
        },
        None => {
            lemma_evict_len(es, cur, n);
        },
    }
}

} // verus!

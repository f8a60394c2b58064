//! The content browser: the post collection, the index of the post on
//! display, and the navigation rules. Receiving posts replaces or extends
//! the collection (video posts are filtered out); navigating moves the
//! index and tells the media cache what to load and prefetch, and the
//! gateway when to fetch the next page.

use vstd::prelude::*;
use vstd::string::StrSliceExecFns;

use crate::api::{dup_opt_string, Post, PostV};
use crate::event::{BrowserEvent, ComponentResponse, Event, GatewayEvent, MediaEvent};
use crate::types::NavDirection;

verus! {

/// When fewer unseen posts than this remain, the next page is requested.
pub const NEAR_END_THRESHOLD: usize = 5;

/// How many upcoming posts each navigation step offers for prefetch.
pub const PREFETCH_COUNT: usize = 30;

/// The spec-level images of a run of posts.
pub open spec fn views_of(s: Seq<Post>) -> Seq<PostV> {
    s.map_values(|p: Post| p.view_spec())
}

/// Whether a file extension names a video container: `mp4` or `webm`,
/// letter case ignored.
pub open spec fn spec_is_video_ext(s: Seq<char>) -> bool {
    ||| (s.len() == 3 && (s[0] == 'm' || s[0] == 'M') && (s[1] == 'p' || s[1] == 'P') && s[2]
        == '4')
    ||| (s.len() == 4 && (s[0] == 'w' || s[0] == 'W') && (s[1] == 'e' || s[1] == 'E') && (s[2]
        == 'b' || s[2] == 'B') && (s[3] == 'm' || s[3] == 'M'))
}

/// The posts kept by the video filter, in order.
pub open spec fn filter_views(s: Seq<PostV>) -> Seq<PostV>
    decreases s.len(),
{
    if s.len() == 0 {
        Seq::<PostV>::empty()
    } else {
        let init = filter_views(s.drop_last());
        if spec_is_video_ext(s.last().file.ext@) {
            init
        } else {
            init.push(s.last())
        }
    }
}

/// The index after one navigation step through `len` posts: forward wraps
/// around, backward wraps from the start to the end, and a skip clamps at
/// the collection's edges.
pub open spec fn nav_index(cur: int, len: int, dir: NavDirection) -> int {
    match dir {
        NavDirection::Next => (cur + 1) % len,
        NavDirection::Prev => if cur == 0 {
            len - 1
        } else {
            cur - 1
        },
        NavDirection::Skip(c) => if c > 0 {
            if cur + c < len - 1 {
                cur + c
            } else {
                len - 1
            }
        } else {
            if cur + c > 0 {
                cur + c
            } else {
                0
            }
        },
    }
}

/// The index `step` places past `cur`, wrapping around `len` posts.
/// Equal to `(cur + step) % len` for `0 <= cur < len`, written without
/// leaving the range of the machine's integers.
pub open spec fn wrap_index(cur: int, step: int, len: int) -> int {
    let k = step % len;
    if cur + k >= len {
        cur + k - len
    } else {
        cur + k
    }
}

/// `wrap_index` agrees with plain modular arithmetic.
pub proof fn lemma_wrap_index(cur: int, step: int, len: int)
    requires
        0 <= cur < len,
        0 <= step,
    ensures
        wrap_index(cur, step, len) == (cur + step) % len,
{
    let k = step % len;
    vstd::arithmetic::div_mod::lemma_mod_bound(step, len);
    vstd::arithmetic::div_mod::lemma_add_mod_noop(cur, step, len);
    vstd::arithmetic::div_mod::lemma_small_mod(cur as nat, len as nat);
    if cur + k >= len {
        vstd::arithmetic::div_mod::lemma_small_mod((cur + k - len) as nat, len as nat);
        vstd::arithmetic::div_mod::lemma_mod_sub_multiples_vanish(cur + k, len);
        assert((cur + k) % len == (cur + k - len) % len) by {
            assert(cur + k - len == -1 * len + (cur + k));
        }
        assert((cur % len + step % len) % len == (cur + step) % len);
    } else {
        vstd::arithmetic::div_mod::lemma_small_mod((cur + k) as nat, len as nat);
    }
}

/// The sample URL a post offers for display, when it has one.
pub open spec fn view_sample_url(v: PostV) -> Option<String> {
    if v.sample.has {
        v.sample.url
    } else {
        None
    }
}

/// The prefetch hints one navigation step emits: the sample and full URLs
/// of the next posts in viewing order, wrapping around the collection.
pub open spec fn prefetch_triples(views: Seq<PostV>, cur: int) -> Seq<
    (Option<String>, Option<String>, bool),
> {
    Seq::new(
        PREFETCH_COUNT as nat,
        |j: int|
            {
                let v = views[wrap_index(cur, j + 1, views.len() as int)];
                (view_sample_url(v), v.file.url, false)
            },
    )
}

/// What the browser announces after the current post changes: a load
/// request for the post's URLs when it has any, a next-page request when
/// fewer than the threshold remain ahead, and the prefetch hints — in
/// that order.
pub open spec fn browser_emit_ok(views: Seq<PostV>, cur: int, events: Seq<Event>) -> bool {
    let v = views[cur];
    let sample_url = view_sample_url(v);
    let has_load = sample_url is Some || v.file.url is Some;
    let near_end = views.len() - (cur + 1) < NEAR_END_THRESHOLD as int;
    let nl: int = if has_load {
        1
    } else {
        0
    };
    let ne: int = if near_end {
        1
    } else {
        0
    };
    &&& events.len() == nl + ne + 1
    &&& (has_load ==> events[0] == Event::Media(
        MediaEvent::LoadRequest { sample_url, full_url: v.file.url, is_video: false },
    ))
    &&& (near_end ==> events[nl] == Event::Gateway(GatewayEvent::FetchNextPage))
    &&& (events[nl + ne] matches Event::Media(MediaEvent::Prefetch { urls }) && urls@
        == prefetch_triples(views, cur))
}

/// Whether `s` names a video container, letter case ignored.
fn is_video_ext(s: &str) -> (r: bool)
    ensures
        r == spec_is_video_ext(s@),
{
    let n = s.unicode_len();
    if n == 3 {
        let c0 = s.get_char(0);
        let c1 = s.get_char(1);
        let c2 = s.get_char(2);
        (c0 == 'm' || c0 == 'M') && (c1 == 'p' || c1 == 'P') && c2 == '4'
    } else if n == 4 {
        let c0 = s.get_char(0);
        let c1 = s.get_char(1);
        let c2 = s.get_char(2);
        let c3 = s.get_char(3);
        (c0 == 'w' || c0 == 'W') && (c1 == 'e' || c1 == 'E') && (c2 == 'b' || c2 == 'B') && (c3
            == 'm' || c3 == 'M')
    } else {
        false
    }
}

/// The non-video posts of `posts`, in order, as fresh copies.
fn filter_posts(posts: &Vec<Post>) -> (r: Vec<Post>)
    ensures
        views_of(r@) == filter_views(views_of(posts@)),
{
    let ghost all = views_of(posts@);
    let mut r: Vec<Post> = Vec::new();
    let n = posts.len();
    let mut i: usize = 0;
    while i < n
        invariant
            n == posts@.len(),
            all == views_of(posts@),
            i <= n,
            views_of(r@) =~= filter_views(all.take(i as int)),
        decreases n - i,
    {
        proof {
            assert(all.take(i as int + 1).drop_last() =~= all.take(i as int));
            assert(all.take(i as int + 1).last() == all[i as int]);
            assert(all[i as int] == posts@[i as int].view_spec());
        }
        if !is_video_ext(posts[i].file.ext.as_str()) {
            let ghost before = r@;
            r.push(posts[i].duplicate());
            proof {
                assert(views_of(r@) =~= views_of(before).push(posts@[i as int].view_spec()));
            }
        }
        i = i + 1;
    }
    proof {
        assert(all.take(n as int) =~= all);
    }
    r
}

pub struct ContentBrowser {
    pub posts: Vec<Post>,
    pub current_index: usize,
    pub current_page: u32,
}

impl ContentBrowser {
    /// The index points at a post whenever there are any.
    pub open spec fn wf(self) -> bool {
        if self.posts@.len() == 0 {
            self.current_index == 0
        } else {
            (self.current_index as int) < self.posts@.len()
        }
    }

    pub fn new() -> (b: ContentBrowser)
        ensures
            b.wf(),
            b.posts@.len() == 0,
            b.current_index == 0,
            b.current_page == 1,
    {
        ContentBrowser { posts: Vec::new(), current_index: 0, current_page: 1 }
    }

    /// The post on display, if any.
    pub fn current_post(&self) -> (r: Option<&Post>)
        requires
            self.wf(),
        ensures
            match r {
                Some(p) => self.posts@.len() > 0 && *p == self.posts@[self.current_index as int],
                None => self.posts@.len() == 0,
            },
    {
        if self.current_index < self.posts.len() {
            Some(&self.posts[self.current_index])
        } else {
            None
        }
    }

    /// Whether the collection is empty.
    pub fn is_empty(&self) -> (r: bool)
        ensures
            r == (self.posts@.len() == 0),
    {
        self.posts.len() == 0
    }

    /// Act on one browser event. New search results replace the
    /// collection and reset the index to its start; a further page
    /// appends, keeping the index where it is. Video posts are filtered
    /// out. Navigation moves the index by the direction's rule. Either
    /// way, a non-empty collection announces its current post: a load
    /// request, a next-page request when near the end, and the prefetch
    /// hints.
    pub fn handle(&mut self, event: &Event) -> (resp: ComponentResponse)
        requires
            old(self).wf(),
        ensures
            final(self).wf(),
            resp.scheduled@ == Seq::<(Event, u64)>::empty(),
            match event {
                Event::Browser(BrowserEvent::PostsReceived { posts, page, is_new }) => {
                    let fresh = filter_views(views_of(posts@));
                    &&& final(self).current_page == *page
                    &&& (*is_new ==> views_of(final(self).posts@) == fresh
                        && final(self).current_index == 0)
                    &&& (!*is_new ==> views_of(final(self).posts@) == views_of(old(self).posts@)
                        + fresh && final(self).current_index == old(self).current_index)
                    &&& (final(self).posts@.len() == 0 ==> resp.events@ == Seq::<Event>::empty())
                    &&& (final(self).posts@.len() > 0 ==> browser_emit_ok(
                        views_of(final(self).posts@),
                        final(self).current_index as int,
                        resp.events@,
                    ))
                },
                Event::Browser(BrowserEvent::Navigate { direction }) => {
                    &&& final(self).posts == old(self).posts
                    &&& final(self).current_page == old(self).current_page
                    &&& (old(self).posts@.len() == 0 ==> final(self).current_index == 0
                        && resp.events@ == Seq::<Event>::empty())
                    &&& (old(self).posts@.len() > 0 ==> final(self).current_index as int
                        == nav_index(
                        old(self).current_index as int,
                        old(self).posts@.len() as int,
                        *direction,
                    ) && browser_emit_ok(
                        views_of(final(self).posts@),
                        final(self).current_index as int,
                        resp.events@,
                    ))
                },
                _ => {
                    &&& final(self).posts == old(self).posts
                    &&& final(self).current_index == old(self).current_index
                    &&& final(self).current_page == old(self).current_page
                    &&& resp.events@ == Seq::<Event>::empty()
                },
            },
    {
        match event {
            Event::Browser(BrowserEvent::PostsReceived { posts, page, is_new }) => {
                let filtered = filter_posts(posts);
                if *is_new {
                    self.posts = filtered;
                    self.current_index = 0;
                    self.current_page = *page;
                } else {
                    let ghost before = self.posts@;
                    let ghost freshv = filtered@;
                    let mut fresh = filtered;
                    self.posts.append(&mut fresh);
                    proof {
                        assert(views_of(self.posts@) =~= views_of(before) + views_of(freshv));
                    }
                    self.current_page = *page;
                }
                if self.posts.len() != 0 {
                    self.emit_current_post_changed()
                } else {
                    self.current_index = 0;
                    ComponentResponse::none()
                }
            },
            Event::Browser(BrowserEvent::Navigate { direction }) => {
                let len = self.posts.len();
                if len == 0 {
                    return ComponentResponse::none();
                }
                match direction {
                    NavDirection::Next => {
                        self.current_index = (self.current_index + 1) % len;
                    },
                    NavDirection::Prev => {
                        if self.current_index == 0 {
                            self.current_index = len - 1;
                        } else {
                            self.current_index = self.current_index - 1;
                        }
                    },
                    NavDirection::Skip(count) => {
                        let c = *count;
                        if c > 0 {
                            let step = c as usize;
                            let target = match self.current_index.checked_add(step) {
                                Some(v) => v,
                                None => len - 1,
                            };
                            self.current_index = if target < len - 1 {
                                target
                            } else {
                                len - 1
                            };
                        } else {
                            let mag64: i64 = -(c as i64);
                            let mag = mag64 as usize;
                            self.current_index = if self.current_index > mag {
                                self.current_index - mag
                            } else {
                                0
                            };
                        }
                    },
                }
                self.emit_current_post_changed()
            },
            _ => ComponentResponse::none(),
        }
    }

    /// Announce the current post: its load request, a next-page request
    /// when fewer than the threshold remain ahead, and the prefetch hints
    /// for the posts after it, in viewing order.
    fn emit_current_post_changed(&self) -> (resp: ComponentResponse)
        requires
            self.posts@.len() > 0,
            (self.current_index as int) < self.posts@.len(),
        ensures
            resp.scheduled@ == Seq::<(Event, u64)>::empty(),
            browser_emit_ok(
                views_of(self.posts@),
                self.current_index as int,
                resp.events@,
            ),
    {
        let ghost views = views_of(self.posts@);
        let ghost cur = self.current_index as int;
        let mut events: Vec<Event> = Vec::new();
        let post = &self.posts[self.current_index];
        proof {
            assert(views[cur] == self.posts@[cur].view_spec());
        }
        let sample_url: Option<String> = if post.sample.has {
            dup_opt_string(&post.sample.url)
        } else {
            None
        };
        let full_url = dup_opt_string(&post.file.url);
        let has_load = sample_url.is_some() || full_url.is_some();
        if has_load {
            events.push(Event::Media(MediaEvent::LoadRequest { sample_url, full_url, is_video: false }));
        }
        let near_end = self.posts.len() - (self.current_index + 1) < NEAR_END_THRESHOLD;
        if near_end {
            events.push(Event::Gateway(GatewayEvent::FetchNextPage));
        }
        let len = self.posts.len();
        let mut urls: Vec<(Option<String>, Option<String>, bool)> = Vec::new();
        let mut j: usize = 0;
        while j < PREFETCH_COUNT
            invariant
                views == views_of(self.posts@),
                cur == self.current_index as int,
                len == self.posts@.len(),
                0 < len,
                cur < len,
                j <= PREFETCH_COUNT,
                urls@ =~= prefetch_triples(views, cur).take(j as int),
            decreases PREFETCH_COUNT - j,
        {
            let k = (j + 1) % len;
            let idx = if self.current_index >= len - k {
                self.current_index - (len - k)
            } else {
                self.current_index + k
            };
            proof {
                assert(idx as int == wrap_index(cur, j as int + 1, len as int));
                assert(views[idx as int] == self.posts@[idx as int].view_spec());
                assert(prefetch_triples(views, cur)[j as int] == (
                    view_sample_url(views[idx as int]),
                    views[idx as int].file.url,
                    false,
                ));
            }
            let p = &self.posts[idx];
            let s: Option<String> = if p.sample.has {
                dup_opt_string(&p.sample.url)
            } else {
                None
            };
            let f = dup_opt_string(&p.file.url);
            urls.push((s, f, false));
            proof {
                assert(prefetch_triples(views, cur).take(j as int + 1) =~= prefetch_triples(
                    views,
                    cur,
                ).take(j as int).push(prefetch_triples(views, cur)[j as int]));
            }
            j = j + 1;
        }
        proof {
            assert(urls@ =~= prefetch_triples(views, cur));
        }
        events.push(Event::Media(MediaEvent::Prefetch { urls }));
        ComponentResponse::emit_many(events)
    }
}

} // verus!

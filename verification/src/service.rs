//! The resolution engine: creates short codes, resolves lookups through
//! the cache-aside path, records clicks, and invalidates per-owner cache
//! entries when the owner's listing becomes stale.
//!
//! The engine's well-formedness ties the two tiers of the cache to the
//! store: a cached link always names the stored long URL of its code, and
//! a cached listing snapshot never shows a click count the store has
//! already moved past — the moment a click lands on an owned URL, that
//! owner's snapshot is dropped.

use vstd::prelude::*;

use crate::cache::{
    expiry, link_live, listing_live, CacheRepository, LinkEntry, ListingEntry, LINK_TTL_SECONDS,
    LISTING_TTL_SECONDS,
};
use crate::codegen::{generate_code, valid_code};
use crate::models::{UrlModel, UrlModelView, views_of};
use crate::store::{
    clicks_monotone, distinct_codes, has_code, lemma_owner_listing_accurate, lemma_push_fresh,
    lemma_record_click_effect, listing_accurate, owner_listing, record_click, record_of,
    StoreError, UrlRepository, with_click,
};

verus! {

/// How often the create path regenerates a code after a collision before
/// giving up.
pub const MAX_CODE_ATTEMPTS: usize = 5;

/// Failure of the create path.
#[derive(Clone, Copy, PartialEq, Eq, Structural, Debug)]
pub enum ShortenError {
    /// Every generated code collided with an existing record.
    AttemptsExhausted,
}

/// Deferred click accounting for one resolved code: work a resolve on
/// the hot path hands back instead of performing, so the response is not
/// blocked on the durable increment.
pub struct ClickTask {
    pub short_code: String,
}

/// A create request as a caller submits it: the URL to shorten and the
/// name it is filed under.
#[derive(Debug)]
pub struct CreateUrlForm {
    pub url: String,
    pub site_name: String,
}

/// Every cached link names the long URL the store holds for its code.
pub open spec fn links_consistent(
    links: Map<Seq<char>, LinkEntry>,
    s: Seq<UrlModelView>,
) -> bool {
    forall|k: Seq<char>|
        #[trigger] links.contains_key(k) ==> has_code(s, k) && links[k].long_url == record_of(
            s,
            k,
        ).long_url
}

/// Every cached listing snapshot is accurate for the store: its records
/// carry the store's current click counts.
pub open spec fn listings_consistent(
    listings: Map<u128, ListingEntry>,
    s: Seq<UrlModelView>,
) -> bool {
    forall|u: u128|
        #[trigger] listings.contains_key(u) ==> listing_accurate(listings[u].urls, s, u)
}

/// A click against a code the store holds keeps the link tier consistent
/// and, once the owner's snapshot is dropped, the listing tier too: no
/// other owner's snapshot can contain the clicked record.
proof fn lemma_click_keeps_consistency(
    links0: Map<Seq<char>, LinkEntry>,
    listings0: Map<u128, ListingEntry>,
    s0: Seq<UrlModelView>,
    code: Seq<char>,
)
    requires
        distinct_codes(s0),
        links_consistent(links0, s0),
        listings_consistent(listings0, s0),
        has_code(s0, code),
    ensures
        links_consistent(links0, record_click(s0, code)),
        (match record_of(s0, code).user_id {
            Some(u) => listings_consistent(listings0.remove(u), record_click(s0, code)),
            None => listings_consistent(listings0, record_click(s0, code)),
        }),
{
    let s1 = record_click(s0, code);
    lemma_record_click_effect(s0, code);
    assert forall|k: Seq<char>| #[trigger] links0.contains_key(k) implies has_code(s1, k)
        && links0[k].long_url == record_of(s1, k).long_url by {
        if k == code {
            assert(record_of(s1, code).long_url == record_of(s0, code).long_url);
        }
    }
    let owner = record_of(s0, code).user_id;
    let remaining = match owner {
        Some(u) => listings0.remove(u),
        None => listings0,
    };
    assert forall|u: u128| #[trigger] remaining.contains_key(u) implies listing_accurate(
        remaining[u].urls,
        s1,
        u,
    ) by {
        assert(listings0.contains_key(u) && remaining[u] == listings0[u]);
        assert(owner != Some(u));
        let cached = listings0[u].urls;
        assert(listing_accurate(cached, s0, u));
        assert forall|j: int| 0 <= j < cached.len() implies has_code(
            s1,
            (#[trigger] cached[j]).short_code,
        ) && record_of(s1, cached[j].short_code) == cached[j] && cached[j].user_id == Some(
            u,
        ) by {
            assert(has_code(s0, cached[j].short_code));
            if cached[j].short_code == code {
                assert(cached[j] == record_of(s0, code));
                assert(owner == Some(u));
            }
        }
    }
}

/// The resolution engine over one store and one cache.
pub struct UrlService {
    repo: UrlRepository,
    cache: CacheRepository,
}

impl UrlService {
    /// The durable records, in creation order.
    pub closed spec fn store_records(&self) -> Seq<UrlModelView> {
        self.repo@
    }

    /// The cached link tier.
    pub closed spec fn links(&self) -> Map<Seq<char>, LinkEntry> {
        self.cache.links()
    }

    /// The cached listing tier.
    pub closed spec fn listings(&self) -> Map<u128, ListingEntry> {
        self.cache.listings()
    }

    /// The engine's invariant: both components well formed, and both
    /// cache tiers consistent with the store.
    pub closed spec fn wf(&self) -> bool {
        &&& self.repo.wf()
        &&& self.cache.wf()
        &&& links_consistent(self.cache.links(), self.repo@)
        &&& listings_consistent(self.cache.listings(), self.repo@)
    }

    /// Assemble the engine from its store and cache. The cache must not
    /// already contradict the store; an empty cache never does.
    pub fn new(repo: UrlRepository, cache: CacheRepository) -> (r: UrlService)
        requires
            repo.wf(),
            cache.wf(),
            links_consistent(cache.links(), repo@),
            listings_consistent(cache.listings(), repo@),
        ensures
            r.wf(),
            r.store_records() == repo@,
            r.links() == cache.links(),
            r.listings() == cache.listings(),
    {
        UrlService { repo, cache }
    }

    /// Create a record under a caller-supplied code: insert it into the
    /// store and, on success, write the link through to the cache.
    /// Fails exactly when the code is already taken, and then changes
    /// nothing.
    pub fn shorten_with_code(
        &mut self,
        short_code: &str,
        long_url: &str,
        user_id: Option<u128>,
        now: u64,
    ) -> (r: Result<(), StoreError>)
        requires
            old(self).wf(),
        ensures
            final(self).wf(),
            clicks_monotone(old(self).store_records(), final(self).store_records()),
            has_code(old(self).store_records(), short_code@) ==> {
                &&& r == Err::<(), StoreError>(StoreError::DuplicateCode)
                &&& final(self).store_records() == old(self).store_records()
                &&& final(self).links() == old(self).links()
                &&& final(self).listings() == old(self).listings()
            },
            !has_code(old(self).store_records(), short_code@) ==> {
                &&& r == Ok::<(), StoreError>(())
                &&& final(self).store_records() == old(self).store_records().push(
                    UrlModelView {
                        short_code: short_code@,
                        long_url: long_url@,
                        user_id: user_id,
                        clicks: 0,
                        created_at: old(self).store_records().len() as u64,
                    },
                )
                &&& final(self).links() == old(self).links().insert(
                    short_code@,
                    LinkEntry { long_url: long_url@, expires_at: expiry(now, LINK_TTL_SECONDS) },
                )
                &&& final(self).listings() == old(self).listings()
            },
    {
        let ghost s0 = self.repo@;
        match self.repo.store(short_code, long_url, user_id) {
            Err(e) => Err(e),
            Ok(()) => {
                let ghost rec = UrlModelView {
                    short_code: short_code@,
                    long_url: long_url@,
                    user_id: user_id,
                    clicks: 0,
                    created_at: s0.len() as u64,
                };
                self.cache.set(short_code, long_url, LINK_TTL_SECONDS, now);
                proof {
                    lemma_push_fresh(s0, rec);
                    let s1 = self.repo@;
                    assert(s1 == s0.push(rec));
                    assert forall|k: Seq<char>| #[trigger] self.cache.links().contains_key(
                        k,
                    ) implies has_code(s1, k) && self.cache.links()[k].long_url == record_of(
                        s1,
                        k,
                    ).long_url by {
                        if k != short_code@ {
                            assert(old(self).links().contains_key(k));
                        }
                    }
                    assert forall|u: u128| #[trigger] self.cache.listings().contains_key(
                        u,
                    ) implies listing_accurate(self.cache.listings()[u].urls, s1, u) by {
                        let cached = self.cache.listings()[u].urls;
                        assert(listing_accurate(cached, s0, u));
                        assert forall|j: int| 0 <= j < cached.len() implies has_code(
                            s1,
                            (#[trigger] cached[j]).short_code,
                        ) && record_of(s1, cached[j].short_code) == cached[j] && cached[j].user_id
                            == Some(u) by {
                            assert(has_code(s0, cached[j].short_code));
                        }
                    }
                }
                Ok(())
            },
        }
    }

    /// Create a short code for `long_url`: generate a candidate, insert
    /// it, and on a collision retry with a fresh candidate, up to
    /// [`MAX_CODE_ATTEMPTS`] times in all. On success the new record is
    /// in the store with no clicks and its link is cached write-through;
    /// the returned code is well formed and was not previously in use.
    /// Exhausting every attempt is a fatal error for the request and
    /// changes nothing.
    pub fn shorten(&mut self, long_url: &str, user_id: Option<u128>, now: u64) -> (r: Result<
        String,
        ShortenError,
    >)
        requires
            old(self).wf(),
        ensures
            final(self).wf(),
            clicks_monotone(old(self).store_records(), final(self).store_records()),
            (forall|c: Seq<char>|
                valid_code(c) ==> !has_code(old(self).store_records(), c)) ==> r is Ok,
            (match r {
                Ok(code) => {
                    &&& valid_code(code@)
                    &&& !has_code(old(self).store_records(), code@)
                    &&& final(self).store_records() == old(self).store_records().push(
                        UrlModelView {
                            short_code: code@,
                            long_url: long_url@,
                            user_id: user_id,
                            clicks: 0,
                            created_at: old(self).store_records().len() as u64,
                        },
                    )
                    &&& final(self).links() == old(self).links().insert(
                        code@,
                        LinkEntry {
                            long_url: long_url@,
                            expires_at: expiry(now, LINK_TTL_SECONDS),
                        },
                    )
                    &&& final(self).listings() == old(self).listings()
                },
                Err(e) => {
                    &&& e == ShortenError::AttemptsExhausted
                    &&& final(self).store_records() == old(self).store_records()
                    &&& final(self).links() == old(self).links()
                    &&& final(self).listings() == old(self).listings()
                },
            }),
    {
        let ghost store0 = self.store_records();
        let ghost links0 = self.links();
        let ghost listings0 = self.listings();
        let mut attempt: usize = 0;
        while attempt < MAX_CODE_ATTEMPTS
            invariant
                self.wf(),
                store0 == old(self).store_records(),
                links0 == old(self).links(),
                listings0 == old(self).listings(),
                self.store_records() == store0,
                self.links() == links0,
                self.listings() == listings0,
                attempt > 0 ==> exists|c: Seq<char>| valid_code(c) && has_code(store0, c),
            decreases MAX_CODE_ATTEMPTS - attempt,
        {
            let code = generate_code();
            match self.shorten_with_code(code.as_str(), long_url, user_id, now) {
                Ok(()) => {
                    return Ok(code);
                },
                Err(_) => {
                    // A collision is a witness that some well-formed code
                    // is already taken: only then may the loop give up.
                    proof {
                        assert(valid_code(code@) && has_code(store0, code@));
                    }
                },
            }
            attempt += 1;
        }
        Err(ShortenError::AttemptsExhausted)
    }

    /// Resolve a short code to its long URL through the cache-aside path.
    ///
    /// On a live cached link the URL is returned at once and nothing is
    /// touched; the click still owed is handed back as a deferred
    /// [`ClickTask`]. On a miss the store is read and the click recorded
    /// in the same atomic step, the owner's listing snapshot (if any) is
    /// dropped, and the link cache is backfilled, so the next resolve of
    /// the code is a hit. A code the store never held resolves to
    /// nothing and changes nothing.
    pub fn resolve(&mut self, short_code: &str, now: u64) -> (r: (
        Option<String>,
        Option<ClickTask>,
    ))
        requires
            old(self).wf(),
        ensures
            final(self).wf(),
            clicks_monotone(old(self).store_records(), final(self).store_records()),
            has_code(old(self).store_records(), short_code@) ==> (r.0 matches Some(url) && url@
                == record_of(old(self).store_records(), short_code@).long_url),
            !has_code(old(self).store_records(), short_code@) ==> {
                &&& r.0 is None
                &&& r.1 is None
                &&& final(self).store_records() == old(self).store_records()
                &&& final(self).links() == old(self).links()
                &&& final(self).listings() == old(self).listings()
            },
            link_live(old(self).links(), short_code@, now) ==> {
                &&& final(self).store_records() == old(self).store_records()
                &&& final(self).links() == old(self).links()
                &&& final(self).listings() == old(self).listings()
                &&& r.1 matches Some(t) && t.short_code@ == short_code@
            },
            !link_live(old(self).links(), short_code@, now) && has_code(
                old(self).store_records(),
                short_code@,
            ) ==> {
                &&& final(self).store_records() == record_click(
                    old(self).store_records(),
                    short_code@,
                )
                &&& final(self).links() == old(self).links().insert(
                    short_code@,
                    LinkEntry {
                        long_url: record_of(old(self).store_records(), short_code@).long_url,
                        expires_at: expiry(now, LINK_TTL_SECONDS),
                    },
                )
                &&& final(self).listings() == (match record_of(
                    old(self).store_records(),
                    short_code@,
                ).user_id {
                    Some(u) => old(self).listings().remove(u),
                    None => old(self).listings(),
                })
                &&& r.1 is None
                &&& now < u64::MAX ==> link_live(final(self).links(), short_code@, now)
            },
            (match record_of(old(self).store_records(), short_code@).user_id {
                Some(u) => (!link_live(old(self).links(), short_code@, now) && has_code(
                    old(self).store_records(),
                    short_code@,
                )) ==> !final(self).listings().contains_key(u),
                None => true,
            }),
    {
        if let Some(url) = self.cache.get(short_code, now) {
            return (Some(url), Some(ClickTask { short_code: short_code.to_owned() }));
        }
        let ghost s0 = self.repo@;
        match self.repo.fetch_with_owner(short_code) {
            Some((url, owner)) => {
                proof {
                    lemma_click_keeps_consistency(
                        self.cache.links(),
                        self.cache.listings(),
                        s0,
                        short_code@,
                    );
                    lemma_record_click_effect(s0, short_code@);
                }
                if let Some(uid) = owner {
                    self.cache.delete_user_urls(uid);
                }
                self.cache.set(short_code, url.as_str(), LINK_TTL_SECONDS, now);
                proof {
                    assert forall|k: Seq<char>| #[trigger] self.cache.links().contains_key(
                        k,
                    ) implies has_code(self.repo@, k) && self.cache.links()[k].long_url
                        == record_of(self.repo@, k).long_url by {
                        if k != short_code@ {
                            assert(old(self).links().contains_key(k));
                        } else {
                            assert(record_of(self.repo@, k) == with_click(record_of(s0, k)));
                        }
                    }
                }
                (Some(url), None)
            },
            None => (None, None),
        }
    }

    /// Perform one deferred click: look the record up with its owner,
    /// record the click durably, and drop that owner's listing snapshot,
    /// which the click has made stale. A task naming a code the store
    /// does not hold does nothing.
    pub fn run_click_task(&mut self, task: &ClickTask)
        requires
            old(self).wf(),
        ensures
            final(self).wf(),
            clicks_monotone(old(self).store_records(), final(self).store_records()),
            final(self).store_records() == record_click(
                old(self).store_records(),
                task.short_code@,
            ),
            final(self).links() == old(self).links(),
            !has_code(old(self).store_records(), task.short_code@) ==> final(self).listings()
                == old(self).listings(),
            has_code(old(self).store_records(), task.short_code@) ==> final(self).listings() == (
            match record_of(old(self).store_records(), task.short_code@).user_id {
                Some(u) => old(self).listings().remove(u),
                None => old(self).listings(),
            }),
            (match record_of(old(self).store_records(), task.short_code@).user_id {
                Some(u) => has_code(old(self).store_records(), task.short_code@)
                    ==> !final(self).listings().contains_key(u),
                None => true,
            }),
    {
        let ghost s0 = self.repo@;
        match self.repo.fetch_with_owner(task.short_code.as_str()) {
            Some((_url, owner)) => {
                proof {
                    lemma_click_keeps_consistency(
                        self.cache.links(),
                        self.cache.listings(),
                        s0,
                        task.short_code@,
                    );
                    lemma_record_click_effect(s0, task.short_code@);
                }
                if let Some(uid) = owner {
                    self.cache.delete_user_urls(uid);
                }
            },
            None => {},
        }
    }

    /// List the caller's URL records, newest first, through the listing
    /// cache: a live snapshot is served as it stands — the engine's
    /// invariant keeps every snapshot click-accurate — and otherwise the
    /// store is read and the snapshot backfilled for
    /// [`LISTING_TTL_SECONDS`].
    pub fn get_user_urls(&mut self, user_id: u128, now: u64) -> (r: Vec<UrlModel>)
        requires
            old(self).wf(),
        ensures
            final(self).wf(),
            final(self).store_records() == old(self).store_records(),
            final(self).links() == old(self).links(),
            listing_accurate(views_of(r@), old(self).store_records(), user_id),
            listing_live(old(self).listings(), user_id, now) ==> {
                &&& views_of(r@) == old(self).listings()[user_id].urls
                &&& final(self).listings() == old(self).listings()
            },
            !listing_live(old(self).listings(), user_id, now) ==> {
                &&& views_of(r@) == owner_listing(old(self).store_records(), user_id)
                &&& final(self).listings() == old(self).listings().insert(
                    user_id,
                    ListingEntry {
                        urls: owner_listing(old(self).store_records(), user_id),
                        expires_at: expiry(now, LISTING_TTL_SECONDS),
                    },
                )
            },
    {
        if let Some(urls) = self.cache.user_urls(user_id, now) {
            return urls;
        }
        let urls = self.repo.list_by_user(user_id);
        proof {
            assert forall|i: int, j: int| 0 <= i < j < self.repo@.len() implies self.repo@[
                i
            ].created_at < self.repo@[j].created_at by {
                assert(self.repo@[i].created_at == i);
                assert(self.repo@[j].created_at == j);
            }
            lemma_owner_listing_accurate(self.repo@, user_id);
        }
        self.cache.set_user_urls(user_id, &urls, LISTING_TTL_SECONDS, now);
        proof {
            assert forall|u: u128| #[trigger] self.cache.listings().contains_key(
                u,
            ) implies listing_accurate(self.cache.listings()[u].urls, self.repo@, u) by {
                if u != user_id {
                    assert(old(self).listings().contains_key(u));
                }
            }
        }
        urls
    }
}

/// Shorten followed immediately by resolve on the returned code yields
/// exactly the URL that was shortened: the record just created for a
/// fresh code is the record its code looks up.
pub proof fn lemma_shorten_then_resolve(s: Seq<UrlModelView>, rec: UrlModelView)
    requires
        distinct_codes(s),
        !has_code(s, rec.short_code),
    ensures
        has_code(s.push(rec), rec.short_code),
        record_of(s.push(rec), rec.short_code) == rec,
{
    lemma_push_fresh(s, rec);
}

/// A resolve that misses and finds its record backfills the link cache;
/// any lookup of that code before the entry's expiry — in particular an
/// immediately subsequent resolve — is then a cache hit.
pub proof fn lemma_backfill_then_hit(
    links: Map<Seq<char>, LinkEntry>,
    code: Seq<char>,
    url: Seq<char>,
    now: u64,
    later: u64,
)
    requires
        later < expiry(now, LINK_TTL_SECONDS),
    ensures
        link_live(
            links.insert(
                code,
                LinkEntry { long_url: url, expires_at: expiry(now, LINK_TTL_SECONDS) },
            ),
            code,
            later,
        ),
{
}

} // verus!

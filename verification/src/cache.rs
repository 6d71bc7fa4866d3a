//! The ephemeral cache model: a key-value cache with per-entry expiry,
//! holding (a) short code -> long URL entries and (b) owner -> URL-listing
//! snapshots.
//!
//! Entries are disposable projections of the store with no durability
//! guarantee: a read past an entry's expiry behaves like a miss, and any
//! entry may be dropped at any time without breaking a caller. Each tier
//! is viewed as a map from key to entry, so contracts speak of `insert`
//! and `remove` on those maps.

use vstd::prelude::*;

use crate::models::{duplicate_all, UrlModel, UrlModelView, views_of};

verus! {

/// Seconds a cached short-code -> long-URL entry lives.
pub const LINK_TTL_SECONDS: u64 = 3600;

/// Seconds a cached owner-listing snapshot lives.
pub const LISTING_TTL_SECONDS: u64 = 300;

/// The instant an entry written at `now` with time-to-live `ttl` expires,
/// capped at the largest representable instant.
pub open spec fn expiry(now: u64, ttl: u64) -> u64 {
    if now + ttl <= u64::MAX {
        (now + ttl) as u64
    } else {
        u64::MAX
    }
}

/// A cached long-URL entry as the specification sees it.
pub struct LinkEntry {
    pub long_url: Seq<char>,
    pub expires_at: u64,
}

/// A cached owner-listing snapshot as the specification sees it.
pub struct ListingEntry {
    pub urls: Seq<UrlModelView>,
    pub expires_at: u64,
}

/// The link tier holds an entry for `key` that is still live at `now`.
pub open spec fn link_live(m: Map<Seq<char>, LinkEntry>, key: Seq<char>, now: u64) -> bool {
    m.contains_key(key) && m[key].expires_at > now
}

/// The listing tier holds a snapshot for `user_id` still live at `now`.
pub open spec fn listing_live(m: Map<u128, ListingEntry>, user_id: u128, now: u64) -> bool {
    m.contains_key(user_id) && m[user_id].expires_at > now
}

struct LinkSlot {
    key: String,
    long_url: String,
    expires_at: u64,
}

struct ListingSlot {
    user_id: u128,
    urls: Vec<UrlModel>,
    expires_at: u64,
}

spec fn link_entry_of(s: LinkSlot) -> LinkEntry {
    LinkEntry { long_url: s.long_url@, expires_at: s.expires_at }
}

spec fn listing_entry_of(s: ListingSlot) -> ListingEntry {
    ListingEntry { urls: views_of(s.urls@), expires_at: s.expires_at }
}

spec fn links_map(s: Seq<LinkSlot>) -> Map<Seq<char>, LinkEntry>
    decreases s.len(),
{
    if s.len() == 0 {
        Map::empty()
    } else {
        links_map(s.drop_last()).insert(s.last().key@, link_entry_of(s.last()))
    }
}

spec fn listings_map(s: Seq<ListingSlot>) -> Map<u128, ListingEntry>
    decreases s.len(),
{
    if s.len() == 0 {
        Map::empty()
    } else {
        listings_map(s.drop_last()).insert(s.last().user_id, listing_entry_of(s.last()))
    }
}

spec fn distinct_link_keys(s: Seq<LinkSlot>) -> bool {
    forall|i: int, j: int| 0 <= i < j < s.len() ==> s[i].key@ != s[j].key@
}

spec fn distinct_listing_keys(s: Seq<ListingSlot>) -> bool {
    forall|i: int, j: int| 0 <= i < j < s.len() ==> s[i].user_id != s[j].user_id
}

proof fn lemma_links_map_contains(s: Seq<LinkSlot>, i: int)
    requires
        distinct_link_keys(s),
        0 <= i < s.len(),
    ensures
        links_map(s).contains_key(s[i].key@),
        links_map(s)[s[i].key@] == link_entry_of(s[i]),
    decreases s.len(),
{
    if i < s.len() - 1 {
        lemma_links_map_contains(s.drop_last(), i);
        assert(s[i].key@ != s[s.len() - 1].key@);
    }
}

proof fn lemma_links_map_absent(s: Seq<LinkSlot>, key: Seq<char>)
    requires
        forall|i: int| 0 <= i < s.len() ==> s[i].key@ != key,
    ensures
        !links_map(s).contains_key(key),
    decreases s.len(),
{
    if s.len() > 0 {
        lemma_links_map_absent(s.drop_last(), key);
    }
}

proof fn lemma_links_map_update(s: Seq<LinkSlot>, i: int, x: LinkSlot)
    requires
        distinct_link_keys(s),
        0 <= i < s.len(),
        x.key@ == s[i].key@,
    ensures
        links_map(s.update(i, x)) == links_map(s).insert(x.key@, link_entry_of(x)),
    decreases s.len(),
{
    let t = s.update(i, x);
    if i == s.len() - 1 {
        assert(t.drop_last() =~= s.drop_last());
        assert(links_map(t) =~= links_map(s).insert(x.key@, link_entry_of(x)));
    } else {
        assert(t.drop_last() =~= s.drop_last().update(i, x));
        lemma_links_map_update(s.drop_last(), i, x);
        assert(t.last() == s.last());
        assert(x.key@ != s.last().key@) by {
            assert(s[i].key@ != s[s.len() - 1].key@);
        }
        assert(links_map(t) =~= links_map(s).insert(x.key@, link_entry_of(x)));
    }
}

proof fn lemma_listings_map_contains(s: Seq<ListingSlot>, i: int)
    requires
        distinct_listing_keys(s),
        0 <= i < s.len(),
    ensures
        listings_map(s).contains_key(s[i].user_id),
        listings_map(s)[s[i].user_id] == listing_entry_of(s[i]),
    decreases s.len(),
{
    if i < s.len() - 1 {
        lemma_listings_map_contains(s.drop_last(), i);
        assert(s[i].user_id != s[s.len() - 1].user_id);
    }
}

proof fn lemma_listings_map_absent(s: Seq<ListingSlot>, user_id: u128)
    requires
        forall|i: int| 0 <= i < s.len() ==> s[i].user_id != user_id,
    ensures
        !listings_map(s).contains_key(user_id),
    decreases s.len(),
{
    if s.len() > 0 {
        lemma_listings_map_absent(s.drop_last(), user_id);
    }
}

proof fn lemma_listings_map_update(s: Seq<ListingSlot>, i: int, x: ListingSlot)
    requires
        distinct_listing_keys(s),
        0 <= i < s.len(),
        x.user_id == s[i].user_id,
    ensures
        listings_map(s.update(i, x)) == listings_map(s).insert(x.user_id, listing_entry_of(x)),
    decreases s.len(),
{
    let t = s.update(i, x);
    if i == s.len() - 1 {
        assert(t.drop_last() =~= s.drop_last());
        assert(listings_map(t) =~= listings_map(s).insert(x.user_id, listing_entry_of(x)));
    } else {
        assert(t.drop_last() =~= s.drop_last().update(i, x));
        lemma_listings_map_update(s.drop_last(), i, x);
        assert(t.last() == s.last());
        assert(x.user_id != s.last().user_id) by {
            assert(s[i].user_id != s[s.len() - 1].user_id);
        }
        assert(listings_map(t) =~= listings_map(s).insert(x.user_id, listing_entry_of(x)));
    }
}

proof fn lemma_listings_map_remove(s: Seq<ListingSlot>, i: int)
    requires
        distinct_listing_keys(s),
        0 <= i < s.len(),
    ensures
        listings_map(s.remove(i)) == listings_map(s).remove(s[i].user_id),
    decreases s.len(),
{
    if i == s.len() - 1 {
        assert(s.remove(i) =~= s.drop_last());
        lemma_listings_map_absent(s.drop_last(), s[i].user_id);
        assert(listings_map(s.remove(i)) =~= listings_map(s).remove(s[i].user_id));
    } else {
        assert(s.remove(i).drop_last() =~= s.drop_last().remove(i));
        assert(s.remove(i).last() == s.last());
        lemma_listings_map_remove(s.drop_last(), i);
        assert(s[i].user_id != s.last().user_id) by {
            assert(s[i].user_id != s[s.len() - 1].user_id);
        }
        assert(listings_map(s.remove(i)) =~= listings_map(s).remove(s[i].user_id));
    }
}

/// The in-memory ephemeral cache.
pub struct CacheRepository {
    links: Vec<LinkSlot>,
    listings: Vec<ListingSlot>,
}

impl CacheRepository {
    /// The link tier: short code -> cached long URL.
    pub closed spec fn links(&self) -> Map<Seq<char>, LinkEntry> {
        links_map(self.links@)
    }

    /// The listing tier: owner -> cached listing snapshot.
    pub closed spec fn listings(&self) -> Map<u128, ListingEntry> {
        listings_map(self.listings@)
    }

    /// The cache's structural invariant.
    pub closed spec fn wf(&self) -> bool {
        distinct_link_keys(self.links@) && distinct_listing_keys(self.listings@)
    }

    /// An empty cache.
    pub fn new() -> (r: CacheRepository)
        ensures
            r.wf(),
            r.links() == Map::<Seq<char>, LinkEntry>::empty(),
            r.listings() == Map::<u128, ListingEntry>::empty(),
    {
        CacheRepository { links: Vec::new(), listings: Vec::new() }
    }

    fn find_link(&self, key: &str) -> (r: Option<usize>)
        ensures
            match r {
                Some(i) => i < self.links@.len() && self.links@[i as int].key@ == key@,
                None => forall|j: int| 0 <= j < self.links@.len() ==> self.links@[j].key@ != key@,
            },
    {
        let wanted: String = key.to_owned();
        let n = self.links.len();
        let mut i: usize = 0;
        while i < n
            invariant
                n == self.links@.len(),
                i <= n,
                wanted@ == key@,
                forall|j: int| 0 <= j < i ==> self.links@[j].key@ != key@,
            decreases n - i,
        {
            if self.links[i].key == wanted {
                return Some(i);
            }
            i += 1;
        }
        None
    }

    fn find_listing(&self, user_id: u128) -> (r: Option<usize>)
        ensures
            match r {
                Some(i) => i < self.listings@.len() && self.listings@[i as int].user_id == user_id,
                None => forall|j: int|
                    0 <= j < self.listings@.len() ==> self.listings@[j].user_id != user_id,
            },
    {
        let n = self.listings.len();
        let mut i: usize = 0;
        while i < n
            invariant
                n == self.listings@.len(),
                i <= n,
                forall|j: int| 0 <= j < i ==> self.listings@[j].user_id != user_id,
            decreases n - i,
        {
            if self.listings[i].user_id == user_id {
                return Some(i);
            }
            i += 1;
        }
        None
    }

    /// Read the cached long URL behind `key`. Returns a value exactly
    /// when a link entry for `key` is still live at `now`; an expired or
    /// absent entry reads as a miss.
    pub fn get(&self, key: &str, now: u64) -> (r: Option<String>)
        requires
            self.wf(),
        ensures
            match r {
                Some(url) => link_live(self.links(), key@, now) && url@
                    == self.links()[key@].long_url,
                None => !link_live(self.links(), key@, now),
            },
    {
        match self.find_link(key) {
            Some(i) => {
                proof {
                    lemma_links_map_contains(self.links@, i as int);
                }
                let slot = &self.links[i];
                if slot.expires_at > now {
                    Some(slot.long_url.clone())
                } else {
                    None
                }
            },
            None => {
                proof {
                    lemma_links_map_absent(self.links@, key@);
                }
                None
            },
        }
    }

    /// Write the link entry for `key`, overwriting any previous one,
    /// with a lifetime of `ttl` seconds from `now`.
    pub fn set(&mut self, key: &str, value: &str, ttl: u64, now: u64)
        requires
            old(self).wf(),
        ensures
            final(self).wf(),
            final(self).links() == old(self).links().insert(
                key@,
                LinkEntry { long_url: value@, expires_at: expiry(now, ttl) },
            ),
            final(self).listings() == old(self).listings(),
    {
        let slot = LinkSlot {
            key: key.to_owned(),
            long_url: value.to_owned(),
            expires_at: now.saturating_add(ttl),
        };
        let ghost prev = self.links@;
        match self.find_link(key) {
            Some(i) => {
                proof {
                    lemma_links_map_update(prev, i as int, slot);
                }
                self.links[i] = slot;
                proof {
                    assert(forall|x: int, y: int|
                        0 <= x < y < self.links@.len() ==> self.links@[x].key@
                            != self.links@[y].key@);
                }
            },
            None => {
                self.links.push(slot);
                proof {
                    assert(self.links@.drop_last() =~= prev);
                    assert(forall|x: int, y: int|
                        0 <= x < y < self.links@.len() ==> self.links@[x].key@
                            != self.links@[y].key@);
                }
            },
        }
    }

    /// Read the cached listing snapshot of `user_id`. Returns a value
    /// exactly when a snapshot for that owner is still live at `now`.
    pub fn user_urls(&self, user_id: u128, now: u64) -> (r: Option<Vec<UrlModel>>)
        requires
            self.wf(),
        ensures
            match r {
                Some(urls) => listing_live(self.listings(), user_id, now) && views_of(urls@)
                    == self.listings()[user_id].urls,
                None => !listing_live(self.listings(), user_id, now),
            },
    {
        match self.find_listing(user_id) {
            Some(i) => {
                proof {
                    lemma_listings_map_contains(self.listings@, i as int);
                }
                let slot = &self.listings[i];
                if slot.expires_at > now {
                    Some(duplicate_all(&slot.urls))
                } else {
                    None
                }
            },
            None => {
                proof {
                    lemma_listings_map_absent(self.listings@, user_id);
                }
                None
            },
        }
    }

    /// Write the listing snapshot of `user_id`, overwriting any previous
    /// one, with a lifetime of `ttl` seconds from `now`.
    pub fn set_user_urls(&mut self, user_id: u128, urls: &Vec<UrlModel>, ttl: u64, now: u64)
        requires
            old(self).wf(),
        ensures
            final(self).wf(),
            final(self).listings() == old(self).listings().insert(
                user_id,
                ListingEntry { urls: views_of(urls@), expires_at: expiry(now, ttl) },
            ),
            final(self).links() == old(self).links(),
    {
        let copy = duplicate_all(urls);
        let slot = ListingSlot { user_id, urls: copy, expires_at: now.saturating_add(ttl) };
        let ghost prev = self.listings@;
        match self.find_listing(user_id) {
            Some(i) => {
                proof {
                    lemma_listings_map_update(prev, i as int, slot);
                }
                self.listings[i] = slot;
                proof {
                    assert(forall|x: int, y: int|
                        0 <= x < y < self.listings@.len() ==> self.listings@[x].user_id
                            != self.listings@[y].user_id);
                }
            },
            None => {
                self.listings.push(slot);
                proof {
                    assert(self.listings@.drop_last() =~= prev);
                    assert(forall|x: int, y: int|
                        0 <= x < y < self.listings@.len() ==> self.listings@[x].user_id
                            != self.listings@[y].user_id);
                }
            },
        }
    }

    /// Drop the listing snapshot of `user_id`, if any: the snapshot may
    /// no longer reflect the store and must not be read again.
    pub fn delete_user_urls(&mut self, user_id: u128)
        requires
            old(self).wf(),
        ensures
            final(self).wf(),
            final(self).listings() == old(self).listings().remove(user_id),
            final(self).links() == old(self).links(),
    {
        let ghost prev = self.listings@;
        match self.find_listing(user_id) {
            Some(i) => {
                proof {
                    lemma_listings_map_remove(prev, i as int);
                }
                self.listings.remove(i);
                proof {
                    assert(forall|x: int, y: int|
                        0 <= x < y < self.listings@.len() ==> self.listings@[x].user_id
                            != self.listings@[y].user_id);
                }
            },
            None => {
                proof {
                    lemma_listings_map_absent(prev, user_id);
                    assert(listings_map(prev) =~= listings_map(prev).remove(user_id));
                }
            },
        }
    }

    /// Drop the listing snapshot of `user_id`: the owner's cached
    /// statistics are stale once a click lands on one of their URLs.
    pub fn invalidate_stats(&mut self, user_id: u128)
        requires
            old(self).wf(),
        ensures
            final(self).wf(),
            final(self).listings() == old(self).listings().remove(user_id),
            final(self).links() == old(self).links(),
    {
        self.delete_user_urls(user_id);
    }
}

} // verus!

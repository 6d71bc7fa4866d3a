//! The persistent store model: the durable relation of
//! short code -> (long URL, owner, click count, creation time).
//!
//! The store is the source of truth. Short codes are unique, records are
//! never deleted, and the click counter of a record only grows. Creation
//! instants are logical: the store stamps each new record with the number
//! of records inserted before it, so `created_at` equals the record's
//! position and insertion order and creation order coincide.

use vstd::prelude::*;

use crate::models::{UrlModel, UrlModelView, views_of};

verus! {

/// Failure of a store operation.
#[derive(Clone, Copy, PartialEq, Eq, Structural, Debug)]
pub enum StoreError {
    /// An insert hit the uniqueness constraint on the short code.
    DuplicateCode,
    /// The addressed short code has no record.
    NotFound,
}

/// Some record in `s` carries `code`.
pub open spec fn has_code(s: Seq<UrlModelView>, code: Seq<char>) -> bool {
    exists|i: int| 0 <= i < s.len() && s[i].short_code == code
}

/// The position of the record carrying `code`; meaningful only when
/// `has_code` holds and codes are distinct.
pub open spec fn index_of_code(s: Seq<UrlModelView>, code: Seq<char>) -> int {
    choose|i: int| 0 <= i < s.len() && s[i].short_code == code
}

/// The record carrying `code`; meaningful only when `has_code` holds.
pub open spec fn record_of(s: Seq<UrlModelView>, code: Seq<char>) -> UrlModelView {
    s[index_of_code(s, code)]
}

/// A click counter after one more click: one higher, capped at the
/// largest representable count.
pub open spec fn bump_clicks(c: u64) -> u64 {
    if c < u64::MAX {
        (c + 1) as u64
    } else {
        c
    }
}

/// `r` with one more click and every other field unchanged.
pub open spec fn with_click(r: UrlModelView) -> UrlModelView {
    UrlModelView {
        short_code: r.short_code,
        long_url: r.long_url,
        user_id: r.user_id,
        clicks: bump_clicks(r.clicks),
        created_at: r.created_at,
    }
}

/// The store after a click against `code`: the matching record has one
/// more click, everything else is untouched. Without a match the store
/// is unchanged.
pub open spec fn record_click(s: Seq<UrlModelView>, code: Seq<char>) -> Seq<UrlModelView> {
    if has_code(s, code) {
        s.update(index_of_code(s, code), with_click(record_of(s, code)))
    } else {
        s
    }
}

/// No two records share a short code.
pub open spec fn distinct_codes(s: Seq<UrlModelView>) -> bool {
    forall|i: int, j: int|
        0 <= i < j < s.len() ==> s[i].short_code != s[j].short_code
}

/// Every record's creation instant is its position: records stand in
/// creation order and instants are distinct.
pub open spec fn chronological(s: Seq<UrlModelView>) -> bool {
    forall|i: int| 0 <= i < s.len() ==> #[trigger] s[i].created_at == i
}

/// The records owned by `user_id`, newest first: walking the store from
/// its oldest record, each match is put in front of the matches already
/// collected by appending older matches behind it.
pub open spec fn owner_listing(s: Seq<UrlModelView>, user_id: u128) -> Seq<UrlModelView>
    decreases s.len(),
{
    if s.len() == 0 {
        Seq::empty()
    } else if s[0].user_id == Some(user_id) {
        owner_listing(s.drop_first(), user_id) + seq![s[0]]
    } else {
        owner_listing(s.drop_first(), user_id)
    }
}

/// Every code `s0` held, `s1` holds with at least as many clicks: no
/// recorded click is ever lost and no counter ever moves back.
pub open spec fn clicks_monotone(s0: Seq<UrlModelView>, s1: Seq<UrlModelView>) -> bool {
    forall|k: Seq<char>|
        #[trigger] has_code(s0, k) ==> has_code(s1, k) && record_of(s1, k).clicks >= record_of(
            s0,
            k,
        ).clicks
}

/// The store after `n` clicks against `code`, recorded one after another.
pub open spec fn clicks_applied(s: Seq<UrlModelView>, code: Seq<char>, n: nat) -> Seq<
    UrlModelView,
>
    decreases n,
{
    if n == 0 {
        s
    } else {
        record_click(clicks_applied(s, code, (n - 1) as nat), code)
    }
}

/// Creation instants strictly grow along the store: older records stand
/// before newer ones.
pub open spec fn ages_increasing(s: Seq<UrlModelView>) -> bool {
    forall|i: int, j: int| 0 <= i < j < s.len() ==> s[i].created_at < s[j].created_at
}

/// `cached` is an accurate projection of `s` for owner `user_id`: every
/// cached record is, field for field and click for click, the record the
/// store currently holds for its code, belongs to `user_id`, and the
/// records stand newest first.
pub open spec fn listing_accurate(
    cached: Seq<UrlModelView>,
    s: Seq<UrlModelView>,
    user_id: u128,
) -> bool {
    &&& forall|j: int|
        0 <= j < cached.len() ==> {
            &&& has_code(s, (#[trigger] cached[j]).short_code)
            &&& record_of(s, cached[j].short_code) == cached[j]
            &&& cached[j].user_id == Some(user_id)
        }
    &&& forall|j: int, k: int|
        0 <= j < k < cached.len() ==> cached[j].created_at > cached[k].created_at
}

/// With distinct codes, any position carrying `code` is the position
/// `index_of_code` denotes.
pub proof fn lemma_index_of_code_unique(s: Seq<UrlModelView>, code: Seq<char>, i: int)
    requires
        distinct_codes(s),
        0 <= i < s.len(),
        s[i].short_code == code,
    ensures
        has_code(s, code),
        index_of_code(s, code) == i,
        record_of(s, code) == s[i],
{
    assert(has_code(s, code));
    let j = index_of_code(s, code);
    if i < j {
        assert(s[i].short_code != s[j].short_code);
    } else if j < i {
        assert(s[j].short_code != s[i].short_code);
    }
}

/// Appending a record with a fresh code keeps codes distinct, makes the
/// new record the one its code looks up, and leaves every other lookup
/// untouched.
pub proof fn lemma_push_fresh(s: Seq<UrlModelView>, rec: UrlModelView)
    requires
        distinct_codes(s),
        !has_code(s, rec.short_code),
    ensures
        distinct_codes(s.push(rec)),
        has_code(s.push(rec), rec.short_code),
        record_of(s.push(rec), rec.short_code) == rec,
        forall|k: Seq<char>|
            #[trigger] has_code(s, k) ==> has_code(s.push(rec), k) && record_of(s.push(rec), k)
                == record_of(s, k),
        clicks_monotone(s, s.push(rec)),
{
    let t = s.push(rec);
    assert forall|i: int, j: int| 0 <= i < j < t.len() implies t[i].short_code
        != t[j].short_code by {
        if j == s.len() {
            assert(t[i] == s[i]);
            if s[i].short_code == rec.short_code {
                assert(has_code(s, rec.short_code));
            }
        }
    }
    lemma_index_of_code_unique(t, rec.short_code, s.len() as int);
    assert forall|k: Seq<char>| #[trigger] has_code(s, k) implies has_code(t, k) && record_of(t, k)
        == record_of(s, k) by {
        let i = index_of_code(s, k);
        assert(0 <= i < s.len() && s[i].short_code == k);
        assert(t[i] == s[i]);
        lemma_index_of_code_unique(t, k, i);
        lemma_index_of_code_unique(s, k, i);
    }
}

/// A click against `code` keeps codes distinct and creation order, keeps
/// every code the store had, adds one click to the matching record and
/// changes nothing else.
pub proof fn lemma_record_click_effect(s: Seq<UrlModelView>, code: Seq<char>)
    requires
        distinct_codes(s),
    ensures
        record_click(s, code).len() == s.len(),
        distinct_codes(record_click(s, code)),
        chronological(s) ==> chronological(record_click(s, code)),
        forall|k: Seq<char>|
            #[trigger] has_code(record_click(s, code), k) <==> has_code(s, k),
        has_code(s, code) ==> record_of(record_click(s, code), code) == with_click(
            record_of(s, code),
        ),
        forall|k: Seq<char>|
            has_code(s, k) && k != code ==> #[trigger] record_of(record_click(s, code), k)
                == record_of(s, k),
        clicks_monotone(s, record_click(s, code)),
{
    if has_code(s, code) {
        let t = record_click(s, code);
        let i = index_of_code(s, code);
        assert(0 <= i < s.len() && s[i].short_code == code);
        assert forall|a: int, b: int| 0 <= a < b < t.len() implies t[a].short_code
            != t[b].short_code by {
            assert(t[a].short_code == s[a].short_code);
            assert(t[b].short_code == s[b].short_code);
        }
        lemma_index_of_code_unique(t, code, i);
        assert forall|k: Seq<char>| #[trigger] has_code(t, k) implies has_code(s, k) by {
            let j = index_of_code(t, k);
            assert(s[j].short_code == t[j].short_code);
        }
        assert forall|k: Seq<char>| #[trigger] has_code(s, k) implies has_code(t, k) by {
            let j = index_of_code(s, k);
            assert(t[j].short_code == s[j].short_code);
        }
        assert forall|k: Seq<char>| has_code(s, k) && k != code implies #[trigger] record_of(
            t,
            k,
        ) == record_of(s, k) by {
            let j = index_of_code(s, k);
            assert(s[j].short_code == k);
            assert(j != i);
            assert(t[j] == s[j]);
            lemma_index_of_code_unique(t, k, j);
        }
        assert forall|k: Seq<char>| #[trigger] has_code(s, k) implies has_code(t, k) && record_of(
            t,
            k,
        ).clicks >= record_of(s, k).clicks by {
            if k != code {
                assert(record_of(t, k) == record_of(s, k));
            } else {
                assert(record_of(t, code) == with_click(record_of(s, code)));
            }
        }
    }
}

/// Click accounting is at-least-once and loses nothing: `n` clicks
/// recorded against a code, one after another, move its durable counter
/// up by exactly `n` while the counter stays representable, leave every
/// other record untouched, and never move any counter back.
pub proof fn lemma_clicks_accumulate(s: Seq<UrlModelView>, code: Seq<char>, n: nat)
    requires
        distinct_codes(s),
        has_code(s, code),
        record_of(s, code).clicks + n <= u64::MAX,
    ensures
        distinct_codes(clicks_applied(s, code, n)),
        has_code(clicks_applied(s, code, n), code),
        record_of(clicks_applied(s, code, n), code).clicks == record_of(s, code).clicks + n,
        forall|k: Seq<char>|
            has_code(s, k) && k != code ==> #[trigger] record_of(clicks_applied(s, code, n), k)
                == record_of(s, k),
        clicks_monotone(s, clicks_applied(s, code, n)),
    decreases n,
{
    if n == 0 {
    } else {
        let t = clicks_applied(s, code, (n - 1) as nat);
        lemma_clicks_accumulate(s, code, (n - 1) as nat);
        lemma_record_click_effect(t, code);
        assert(record_of(record_click(t, code), code) == with_click(record_of(t, code)));
        assert forall|k: Seq<char>| has_code(s, k) && k != code implies #[trigger] record_of(
            clicks_applied(s, code, n),
            k,
        ) == record_of(s, k) by {
            assert(has_code(t, k));
            assert(record_of(record_click(t, code), k) == record_of(t, k));
        }
        assert forall|k: Seq<char>| #[trigger] has_code(s, k) implies has_code(
            clicks_applied(s, code, n),
            k,
        ) && record_of(clicks_applied(s, code, n), k).clicks >= record_of(s, k).clicks by {
            assert(has_code(t, k));
        }
    }
}

/// The store's own listing of `user_id` is accurate for the store it was
/// read from: every element is the current record for its code, owned by
/// `user_id`, and the elements stand newest first.
pub proof fn lemma_owner_listing_accurate(s: Seq<UrlModelView>, user_id: u128)
    requires
        distinct_codes(s),
        ages_increasing(s),
    ensures
        listing_accurate(owner_listing(s, user_id), s, user_id),
    decreases s.len(),
{
    let l = owner_listing(s, user_id);
    if s.len() == 0 {
    } else {
        let t = s.drop_first();
        let lt = owner_listing(t, user_id);
        assert forall|i: int, j: int| 0 <= i < j < t.len() implies t[i].short_code
            != t[j].short_code && t[i].created_at < t[j].created_at by {
            assert(t[i] == s[i + 1]);
            assert(t[j] == s[j + 1]);
        }
        lemma_owner_listing_accurate(t, user_id);
        // Lift accuracy over `t` to accuracy over `s`.
        assert forall|j: int| 0 <= j < lt.len() implies has_code(s, (#[trigger] lt[j]).short_code)
            && record_of(s, lt[j].short_code) == lt[j] && lt[j].created_at
            > s[0].created_at by {
            let c = lt[j].short_code;
            let i = index_of_code(t, c);
            assert(0 <= i < t.len() && t[i].short_code == c);
            assert(s[i + 1] == t[i]);
            lemma_index_of_code_unique(s, c, i + 1);
            lemma_index_of_code_unique(t, c, i);
            assert(s[0].created_at < s[i + 1].created_at);
        }
        if s[0].user_id == Some(user_id) {
            assert(l == lt + seq![s[0]]);
            lemma_index_of_code_unique(s, s[0].short_code, 0);
            assert forall|j: int| 0 <= j < l.len() implies has_code(
                s,
                (#[trigger] l[j]).short_code,
            ) && record_of(s, l[j].short_code) == l[j] && l[j].user_id == Some(user_id) by {
                if j < lt.len() {
                    assert(l[j] == lt[j]);
                } else {
                    assert(l[j] == s[0]);
                }
            }
            assert forall|j: int, k: int| 0 <= j < k < l.len() implies l[j].created_at
                > l[k].created_at by {
                if k < lt.len() {
                    assert(l[j] == lt[j] && l[k] == lt[k]);
                } else {
                    assert(l[k] == s[0]);
                    assert(l[j] == lt[j]);
                }
            }
        } else {
            assert(l == lt);
            assert forall|j: int| 0 <= j < l.len() implies has_code(
                s,
                (#[trigger] l[j]).short_code,
            ) && record_of(s, l[j].short_code) == l[j] && l[j].user_id == Some(user_id) by {
                assert(l[j] == lt[j]);
            }
        }
    }
}

/// The in-memory persistent store.
pub struct UrlRepository {
    records: Vec<UrlModel>,
}

impl View for UrlRepository {
    type V = Seq<UrlModelView>;

    closed spec fn view(&self) -> Seq<UrlModelView> {
        views_of(self.records@)
    }
}

impl UrlRepository {
    /// The store's structural invariant.
    pub open spec fn wf(&self) -> bool {
        &&& distinct_codes(self@)
        &&& chronological(self@)
    }

    /// An empty store.
    pub fn new() -> (r: UrlRepository)
        ensures
            r@ == Seq::<UrlModelView>::empty(),
            r.wf(),
    {
        let r = UrlRepository { records: Vec::new() };
        proof {
            assert(r@ =~= Seq::<UrlModelView>::empty());
        }
        r
    }

    /// The position of the record carrying `short_code`, if any.
    fn find(&self, short_code: &str) -> (r: Option<usize>)
        ensures
            match r {
                Some(i) => i < self@.len() && self@[i as int].short_code == short_code@,
                None => !has_code(self@, short_code@),
            },
    {
        let key: String = short_code.to_owned();
        let n = self.records.len();
        let mut i: usize = 0;
        while i < n
            invariant
                n == self@.len(),
                i <= n,
                key@ == short_code@,
                forall|j: int| 0 <= j < i ==> self@[j].short_code != short_code@,
            decreases n - i,
        {
            if self.records[i].short_code == key {
                assert(self@[i as int].short_code == short_code@);
                return Some(i);
            }
            i += 1;
        }
        None
    }

    /// Insert a new record for `short_code`. Fails exactly on a short
    /// code the store already holds, and then changes nothing.
    pub fn store(&mut self, short_code: &str, long_url: &str, user_id: Option<u128>) -> (r: Result<
        (),
        StoreError,
    >)
        requires
            old(self).wf(),
        ensures
            final(self).wf(),
            has_code(old(self)@, short_code@) ==> {
                &&& r == Err::<(), StoreError>(StoreError::DuplicateCode)
                &&& final(self)@ == old(self)@
            },
            !has_code(old(self)@, short_code@) ==> {
                &&& r == Ok::<(), StoreError>(())
                &&& final(self)@ == old(self)@.push(
                    UrlModelView {
                        short_code: short_code@,
                        long_url: long_url@,
                        user_id: user_id,
                        clicks: 0,
                        created_at: old(self)@.len() as u64,
                    },
                )
            },
    {
        if let Some(_) = self.find(short_code) {
            return Err(StoreError::DuplicateCode);
        }
        let created_at = self.records.len() as u64;
        let rec = UrlModel {
            short_code: short_code.to_owned(),
            long_url: long_url.to_owned(),
            user_id,
            clicks: 0,
            created_at,
        };
        let ghost prev = self@;
        self.records.push(rec);
        proof {
            assert(self@ =~= prev.push(rec@));
        }
        Ok(())
    }

    /// Read the long URL behind `short_code` without touching the click
    /// counter. Returns a value exactly when the store holds the code.
    pub fn fetch(&self, short_code: &str) -> (r: Option<String>)
        requires
            self.wf(),
        ensures
            match r {
                Some(url) => has_code(self@, short_code@) && url@ == record_of(
                    self@,
                    short_code@,
                ).long_url,
                None => !has_code(self@, short_code@),
            },
    {
        match self.find(short_code) {
            Some(i) => {
                proof {
                    lemma_index_of_code_unique(self@, short_code@, i as int);
                }
                Some(self.records[i].long_url.clone())
            },
            None => None,
        }
    }

    /// Add one click to the record carrying `short_code`, atomically and
    /// without returning the row. Fails exactly when the code is absent,
    /// and then changes nothing.
    pub fn increment_clicks(&mut self, short_code: &str) -> (r: Result<(), StoreError>)
        requires
            old(self).wf(),
        ensures
            final(self).wf(),
            final(self)@ == record_click(old(self)@, short_code@),
            clicks_monotone(old(self)@, final(self)@),
            has_code(old(self)@, short_code@) && record_of(old(self)@, short_code@).clicks
                < u64::MAX ==> record_of(final(self)@, short_code@).clicks == record_of(
                old(self)@,
                short_code@,
            ).clicks + 1,
            r == if has_code(old(self)@, short_code@) {
                Ok::<(), StoreError>(())
            } else {
                Err::<(), StoreError>(StoreError::NotFound)
            },
    {
        proof {
            lemma_record_click_effect(self@, short_code@);
        }
        match self.find(short_code) {
            Some(i) => {
                proof {
                    lemma_index_of_code_unique(self@, short_code@, i as int);
                }
                let rec = &self.records[i];
                let bumped = UrlModel {
                    short_code: rec.short_code.clone(),
                    long_url: rec.long_url.clone(),
                    user_id: rec.user_id,
                    clicks: if rec.clicks < u64::MAX {
                        rec.clicks + 1
                    } else {
                        rec.clicks
                    },
                    created_at: rec.created_at,
                };
                let ghost prev = self@;
                self.records[i] = bumped;
                proof {
                    assert(self@ =~= record_click(prev, short_code@));
                }
                Ok(())
            },
            None => Err(StoreError::NotFound),
        }
    }

    /// Add one click to the record carrying `short_code` and hand back
    /// its long URL and owner in the same atomic step. Returns a value
    /// exactly when the store holds the code; otherwise nothing changes.
    pub fn fetch_with_owner(&mut self, short_code: &str) -> (r: Option<(String, Option<u128>)>)
        requires
            old(self).wf(),
        ensures
            final(self).wf(),
            final(self)@ == record_click(old(self)@, short_code@),
            clicks_monotone(old(self)@, final(self)@),
            has_code(old(self)@, short_code@) && record_of(old(self)@, short_code@).clicks
                < u64::MAX ==> record_of(final(self)@, short_code@).clicks == record_of(
                old(self)@,
                short_code@,
            ).clicks + 1,
            match r {
                Some(row) => {
                    &&& has_code(old(self)@, short_code@)
                    &&& row.0@ == record_of(old(self)@, short_code@).long_url
                    &&& row.1 == record_of(old(self)@, short_code@).user_id
                },
                None => !has_code(old(self)@, short_code@) && final(self)@ == old(self)@,
            },
    {
        proof {
            lemma_record_click_effect(self@, short_code@);
        }
        match self.find(short_code) {
            Some(i) => {
                proof {
                    lemma_index_of_code_unique(self@, short_code@, i as int);
                }
                let rec = &self.records[i];
                let url = rec.long_url.clone();
                let owner = rec.user_id;
                let bumped = UrlModel {
                    short_code: rec.short_code.clone(),
                    long_url: rec.long_url.clone(),
                    user_id: rec.user_id,
                    clicks: if rec.clicks < u64::MAX {
                        rec.clicks + 1
                    } else {
                        rec.clicks
                    },
                    created_at: rec.created_at,
                };
                let ghost prev = self@;
                self.records[i] = bumped;
                proof {
                    assert(self@ =~= record_click(prev, short_code@));
                }
                Some((url, owner))
            },
            None => None,
        }
    }

    /// All records owned by `user_id`, ordered by creation time
    /// descending (most recent first).
    pub fn list_by_user(&self, user_id: u128) -> (r: Vec<UrlModel>)
        requires
            self.wf(),
        ensures
            views_of(r@) == owner_listing(self@, user_id),
    {
        let n = self.records.len();
        let mut out: Vec<UrlModel> = Vec::new();
        let mut i: usize = n;
        while i > 0
            invariant
                n == self@.len(),
                i <= n,
                views_of(out@) == owner_listing(self@.skip(i as int), user_id),
            decreases i,
        {
            i -= 1;
            let ghost before = views_of(out@);
            if let Some(uid) = self.records[i].user_id {
                if uid == user_id {
                    out.push(self.records[i].duplicate());
                }
            }
            proof {
                let tail = self@.skip(i as int);
                assert(tail.drop_first() =~= self@.skip(i + 1));
                assert(tail[0] == self@[i as int]);
                if self@[i as int].user_id == Some(user_id) {
                    assert(views_of(out@) =~= before.push(self@[i as int]));
                    assert(owner_listing(tail, user_id) =~= owner_listing(
                        tail.drop_first(),
                        user_id,
                    ) + seq![tail[0]]);
                    assert(views_of(out@) =~= owner_listing(tail, user_id));
                } else {
                    assert(views_of(out@) =~= before);
                }
            }
        }
        proof {
            assert(self@.skip(0) =~= self@);
        }
        out
    }
}

} // verus!

//! The durable URL record: the row shape that the persistent store keeps
//! for every short code.

use vstd::prelude::*;

verus! {

/// Mathematical image of a [`UrlModel`]: the same fields with the strings
/// taken as character sequences.
pub struct UrlModelView {
    pub short_code: Seq<char>,
    pub long_url: Seq<char>,
    pub user_id: Option<u128>,
    pub clicks: u64,
    pub created_at: u64,
}

/// One stored URL record.
///
/// `short_code` is globally unique and immutable once created, `long_url`
/// and `user_id` are immutable, `clicks` only ever grows, and `created_at`
/// is the logical insertion instant the store assigned.
pub struct UrlModel {
    pub short_code: String,
    pub long_url: String,
    pub user_id: Option<u128>,
    pub clicks: u64,
    pub created_at: u64,
}

impl View for UrlModel {
    type V = UrlModelView;

    open spec fn view(&self) -> UrlModelView {
        UrlModelView {
            short_code: self.short_code@,
            long_url: self.long_url@,
            user_id: self.user_id,
            clicks: self.clicks,
            created_at: self.created_at,
        }
    }
}

impl UrlModel {
    /// A deep copy whose view is identical to the original's.
    pub fn duplicate(&self) -> (r: UrlModel)
        ensures
            r@ == self@,
    {
        UrlModel {
            short_code: self.short_code.clone(),
            long_url: self.long_url.clone(),
            user_id: self.user_id,
            clicks: self.clicks,
            created_at: self.created_at,
        }
    }
}

/// The views of a sequence of records, element by element.
pub open spec fn views_of(s: Seq<UrlModel>) -> Seq<UrlModelView> {
    s.map_values(|m: UrlModel| m@)
}

/// `a + b`, capped at the largest representable count.
pub open spec fn sat_add(a: u64, b: u64) -> u64 {
    if a + b <= u64::MAX {
        (a + b) as u64
    } else {
        u64::MAX
    }
}

/// The click counts of `s` added up left to right, each step capped at
/// the largest representable count.
pub open spec fn total_clicks_of(s: Seq<UrlModelView>) -> u64
    decreases s.len(),
{
    if s.len() == 0 {
        0
    } else {
        sat_add(total_clicks_of(s.drop_last()), s.last().clicks)
    }
}

/// Add up the click counts of `records`, saturating instead of
/// overflowing.
pub fn total_clicks(records: &Vec<UrlModel>) -> (r: u64)
    ensures
        r == total_clicks_of(views_of(records@)),
{
    let n = records.len();
    let mut acc: u64 = 0;
    let mut i: usize = 0;
    while i < n
        invariant
            n == records@.len(),
            i <= n,
            acc == total_clicks_of(views_of(records@).take(i as int)),
        decreases n - i,
    {
        acc = acc.saturating_add(records[i].clicks);
        proof {
            let v = views_of(records@);
            assert(v.take(i + 1).drop_last() =~= v.take(i as int));
            assert(v.take(i + 1).last() == v[i as int]);
        }
        i += 1;
    }
    proof {
        assert(views_of(records@).take(n as int) =~= views_of(records@));
    }
    acc
}

/// A deep copy of a record vector whose views are identical to the
/// original's.
pub fn duplicate_all(v: &Vec<UrlModel>) -> (r: Vec<UrlModel>)
    ensures
        views_of(r@) == views_of(v@),
{
    let mut out: Vec<UrlModel> = Vec::new();
    let n = v.len();
    let mut i: usize = 0;
    while i < n
        invariant
            n == v@.len(),
            i <= n,
            out@.len() == i,
            forall|k: int| 0 <= k < i ==> #[trigger] out@[k]@ == v@[k]@,
        decreases n - i,
    {
        out.push(v[i].duplicate());
        i += 1;
    }
    proof {
        assert(views_of(out@) =~= views_of(v@));
    }
    out
}

} // verus!

//! The category store: an ordered sequence of records, a bounded slicing
//! query with an unusual negative-count rule, and a by-identifier lookup that
//! returns a fixed empty sentinel record on a miss.

use vstd::prelude::*;

use crate::record::CategoryRecord;
use crate::record::RecordModel;
use crate::record::spec_has_id;

verus! {

/// The model of a sequence of records.
pub open spec fn records_model(s: Seq<CategoryRecord>) -> Seq<RecordModel> {
    Seq::new(s.len(), |i: int| s[i]@)
}

/// How many records a request for `count` out of `n` selects.
///
/// A negative `count` is reinterpreted as "all but the last `|count|`",
/// computed as `n + count` and clamped at 0; a `count` beyond `n` is clamped
/// down to `n`. Every input is valid; no request is an error.
pub open spec fn spec_resolved_count(count: int, n: int) -> int {
    let c = if count < 0 {
        if n + count < 0 {
            0
        } else {
            n + count
        }
    } else {
        count
    };
    if c > n {
        n
    } else {
        c
    }
}

/// What a slice request returns: the first `spec_resolved_count(count, n)`
/// records, in their original order.
pub open spec fn spec_slice(s: Seq<RecordModel>, count: int) -> Seq<RecordModel> {
    s.take(spec_resolved_count(count, s.len() as int))
}

/// The first record whose `"id"` field is the number `id`, if any.
pub open spec fn spec_find(s: Seq<RecordModel>, id: int) -> Option<RecordModel>
    decreases s.len(),
{
    if s.len() == 0 {
        None
    } else if spec_has_id(s[0], id) {
        Some(s[0])
    } else {
        spec_find(s.drop_first(), id)
    }
}

/// If no record before position `i` carries `id` and the record at `i` does,
/// the search finds the record at `i`.
pub proof fn lemma_find_found(s: Seq<RecordModel>, id: int, i: int)
    requires
        0 <= i < s.len(),
        forall|j: int| 0 <= j < i ==> !spec_has_id(s[j], id),
        spec_has_id(s[i], id),
    ensures
        spec_find(s, id) == Some(s[i]),
    decreases i,
{
    if i == 0 {
    } else {
        assert(forall|j: int| 0 <= j < i - 1 ==> !spec_has_id(s.drop_first()[j], id));
        lemma_find_found(s.drop_first(), id, i - 1);
    }
}

/// If no record carries `id`, the search misses.
pub proof fn lemma_find_absent(s: Seq<RecordModel>, id: int)
    requires
        forall|j: int| 0 <= j < s.len() ==> !spec_has_id(s[j], id),
    ensures
        spec_find(s, id) is None,
    decreases s.len(),
{
    if s.len() == 0 {
    } else {
        assert(forall|j: int| 0 <= j < s.len() - 1 ==> !spec_has_id(s.drop_first()[j], id));
        lemma_find_absent(s.drop_first(), id);
    }
}

/// The category store. Records are kept in insertion order; the sentinel
/// record returned on a failed lookup is fixed at construction and empty.
pub struct Categories {
    categories: Vec<CategoryRecord>,
    error_response: CategoryRecord,
}

impl View for Categories {
    type V = Seq<RecordModel>;

    closed spec fn view(&self) -> Self::V {
        records_model(self.categories@)
    }
}

impl Categories {
    /// The model of the fixed record handed out when a lookup misses.
    pub closed spec fn spec_sentinel(&self) -> RecordModel {
        self.error_response@
    }

    /// The sentinel record is empty. Constructors establish this and every
    /// method keeps it.
    pub closed spec fn wf(&self) -> bool {
        self.error_response@.len() == 0
    }

    /// A store holding exactly the given records, in their given order.
    pub fn new(records: Vec<CategoryRecord>) -> (r: Categories)
        ensures
            r@ == records_model(records@),
            r@.len() == records@.len(),
            r.wf(),
    {
        Categories { categories: records, error_response: CategoryRecord::empty() }
    }

    /// The number of records in the store.
    pub fn len(&self) -> (n: usize)
        ensures
            n == self@.len(),
    {
        self.categories.len()
    }

    /// Appends `record` at the end; every later slice query sees it as the
    /// new last element.
    pub fn add_category(&mut self, category: CategoryRecord)
        ensures
            final(self)@ == old(self)@.push(category@),
            final(self).wf() == old(self).wf(),
            final(self).spec_sentinel() == old(self).spec_sentinel(),
    {
        self.categories.push(category);
        proof {
            assert(self@ =~= old(self)@.push(category@));
        }
    }

    /// The records a request for `count` selects: fresh copies of the first
    /// `spec_resolved_count(count, n)` records, in their original order.
    pub fn get_categories(&self, count: i32) -> (r: Vec<CategoryRecord>)
        requires
            self@.len() <= i32::MAX as int,
        ensures
            records_model(r@) == spec_slice(self@, count as int),
            r@.len() == spec_resolved_count(count as int, self@.len() as int),
    {
        let nn: i64 = self.categories.len() as i64;
        let mut c: i64 = count as i64;
        if c < 0 {
            c = nn + c;
            if c < 0 {
                c = 0;
            }
        }
        if c > nn {
            c = nn;
        }
        let k: usize = c as usize;
        proof {
            assert(k as int == spec_resolved_count(count as int, self@.len() as int));
        }
        let mut out: Vec<CategoryRecord> = Vec::new();
        let mut i: usize = 0;
        while i < k
            invariant
                k <= self.categories@.len(),
                i <= k,
                out@.len() == i,
                forall|j: int| 0 <= j < i ==> out@[j]@ == self.categories@[j]@,
            decreases k - i,
        {
            out.push(self.categories[i].clone());
            i = i + 1;
        }
        proof {
            assert(records_model(out@) =~= spec_slice(self@, count as int));
        }
        out
    }

    /// The first record whose `"id"` field equals `index`; the store's fixed
    /// sentinel record when none matches. A mismatched value type never
    /// matches, and a sentinel of a well-formed store has no fields.
    pub fn get_category(&self, index: i32) -> (r: &CategoryRecord)
        ensures
            match spec_find(self@, index as int) {
                Some(m) => r@ == m,
                None => r@ == self.spec_sentinel(),
            },
            self.wf() && spec_find(self@, index as int) is None ==> r@.len() == 0,
    {
        let mut i: usize = 0;
        while i < self.categories.len()
            invariant
                i <= self.categories@.len(),
                forall|j: int| 0 <= j < i ==> !spec_has_id(self@[j], index as int),
            decreases self.categories@.len() - i,
        {
            if self.categories[i].has_id(index) {
                proof {
                    lemma_find_found(self@, index as int, i as int);
                }
                return &self.categories[i];
            }
            i = i + 1;
        }
        proof {
            lemma_find_absent(self@, index as int);
        }
        &self.error_response
    }
}

/// A request within bounds yields exactly the requested number of records:
/// for `0 <= count <= n`, the slice holds `count` records.
pub proof fn lemma_slice_len_in_range(s: Seq<RecordModel>, count: int)
    requires
        0 <= count <= s.len(),
    ensures
        spec_slice(s, count).len() == count,
{
}

/// A request beyond the total is clamped: for `count > n`, the slice holds
/// all `n` records.
pub proof fn lemma_slice_len_over(s: Seq<RecordModel>, count: int)
    requires
        count > s.len(),
    ensures
        spec_slice(s, count).len() == s.len(),
{
}

/// A small negative request keeps all but the trailing records: for
/// `count < 0` with `|count| < n`, the slice holds `n - |count|` records.
pub proof fn lemma_slice_len_negative_small(s: Seq<RecordModel>, count: int)
    requires
        count < 0,
        -count < s.len(),
    ensures
        spec_slice(s, count).len() == s.len() + count,
{
}

/// A large negative request empties the slice: for `count < 0` with
/// `|count| >= n`, the slice holds no records.
pub proof fn lemma_slice_len_negative_large(s: Seq<RecordModel>, count: int)
    requires
        count < 0,
        -count >= s.len(),
    ensures
        spec_slice(s, count).len() == 0,
{
}

/// A request for zero records yields none.
pub proof fn lemma_slice_len_zero(s: Seq<RecordModel>)
    ensures
        spec_slice(s, 0).len() == 0,
{
}

/// Order preservation: for `0 < k <= n`, a request for `k` records equals
/// the first `k` elements of a request for all `n`, in the same order.
pub proof fn lemma_slice_prefix(s: Seq<RecordModel>, k: int)
    requires
        0 < k <= s.len(),
    ensures
        spec_slice(s, k) == spec_slice(s, s.len() as int).take(k),
{
    assert(spec_slice(s, s.len() as int) =~= s);
}

/// A found record indeed carries the identifier that was looked up.
pub proof fn lemma_find_has_id(s: Seq<RecordModel>, id: int)
    ensures
        spec_find(s, id) matches Some(m) ==> spec_has_id(m, id),
    decreases s.len(),
{
    if s.len() == 0 {
    } else if spec_has_id(s[0], id) {
    } else {
        lemma_find_has_id(s.drop_first(), id);
    }
}

/// An identifier present anywhere in the store is always found.
pub proof fn lemma_find_present(s: Seq<RecordModel>, id: int)
    requires
        exists|j: int| 0 <= j < s.len() && spec_has_id(s[j], id),
    ensures
        spec_find(s, id) is Some,
    decreases s.len(),
{
    if spec_has_id(s[0], id) {
    } else {
        let j = choose|j: int| 0 <= j < s.len() && spec_has_id(s[j], id);
        assert(0 <= j - 1 < s.drop_first().len() && spec_has_id(s.drop_first()[j - 1], id));
        lemma_find_present(s.drop_first(), id);
    }
}

/// Appending one record and then asking for one more than the old total
/// returns every record with the appended one last, and the effective total
/// for later slice queries has grown by one.
pub proof fn lemma_append_then_slice(s: Seq<RecordModel>, m: RecordModel)
    ensures
        spec_slice(s.push(m), s.len() + 1int) == s.push(m),
        spec_slice(s.push(m), s.len() + 1int).len() == s.len() + 1int,
        spec_slice(s.push(m), s.len() + 1int).last() == m,
{
    assert(spec_slice(s.push(m), s.len() + 1int) =~= s.push(m));
}

} // verus!

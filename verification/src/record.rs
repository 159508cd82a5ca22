//! Category records: ordered mappings from field name to [`JsonValue`],
//! looked up by first match. The record's abstraction is the sequence of its
//! abstracted `(name, value)` pairs, in order.

use vstd::prelude::*;

use crate::json::JsonValue;
use crate::json::ValueModel;

verus! {

/// The model of one record: its `(field name, value)` pairs, in order.
pub type RecordModel = Seq<(Seq<char>, ValueModel)>;

/// The model of an ordered field list: each `(key, value)` pair abstracted,
/// order kept.
pub open spec fn pairs_model(s: Seq<(String, JsonValue)>) -> Seq<(Seq<char>, ValueModel)> {
    Seq::new(s.len(), |i: int| (s[i].0@, s[i].1@))
}

/// First-match lookup in an ordered association list.
pub open spec fn spec_assoc(
    s: Seq<(Seq<char>, ValueModel)>,
    key: Seq<char>,
) -> Option<ValueModel>
    decreases s.len(),
{
    if s.len() == 0 {
        None
    } else if s[0].0 == key {
        Some(s[0].1)
    } else {
        spec_assoc(s.drop_first(), key)
    }
}

/// If the keys before position `i` all differ from `key` and the key at `i`
/// is `key`, the lookup returns the value at `i`.
pub proof fn lemma_assoc_found(s: Seq<(Seq<char>, ValueModel)>, key: Seq<char>, i: int)
    requires
        0 <= i < s.len(),
        forall|j: int| 0 <= j < i ==> s[j].0 != key,
        s[i].0 == key,
    ensures
        spec_assoc(s, key) == Some(s[i].1),
    decreases i,
{
    if i == 0 {
    } else {
        assert(forall|j: int| 0 <= j < i - 1 ==> s.drop_first()[j].0 != key);
        lemma_assoc_found(s.drop_first(), key, i - 1);
    }
}

/// If no key equals `key`, the lookup misses.
pub proof fn lemma_assoc_absent(s: Seq<(Seq<char>, ValueModel)>, key: Seq<char>)
    requires
        forall|j: int| 0 <= j < s.len() ==> s[j].0 != key,
    ensures
        spec_assoc(s, key) is None,
    decreases s.len(),
{
    if s.len() == 0 {
    } else {
        assert(forall|j: int| 0 <= j < s.len() - 1 ==> s.drop_first()[j].0 != key);
        lemma_assoc_absent(s.drop_first(), key);
    }
}

/// Does the field list hold `"id"` mapped to exactly the number `id`?
pub open spec fn spec_has_id(m: Seq<(Seq<char>, ValueModel)>, id: int) -> bool {
    match spec_assoc(m, "id"@) {
        Some(ValueModel::Int(x)) => x == id,
        _ => false,
    }
}

/// One category record: an ordered mapping from field name to value. The
/// order of insertion is kept, and lookups return the first match.
#[derive(Debug, PartialEq)]
pub struct CategoryRecord {
    entries: Vec<(String, JsonValue)>,
}

impl View for CategoryRecord {
    type V = Seq<(Seq<char>, ValueModel)>;

    closed spec fn view(&self) -> Self::V {
        pairs_model(self.entries@)
    }
}

impl CategoryRecord {
    /// A record with no fields at all.
    pub fn empty() -> (r: CategoryRecord)
        ensures
            r@ == Seq::<(Seq<char>, ValueModel)>::empty(),
    {
        let r = CategoryRecord { entries: Vec::new() };
        proof {
            assert(r@ =~= Seq::<(Seq<char>, ValueModel)>::empty());
        }
        r
    }

    /// A record built from the given field list, in order.
    pub fn new(entries: Vec<(String, JsonValue)>) -> (r: CategoryRecord)
        ensures
            r@ == pairs_model(entries@),
    {
        CategoryRecord { entries }
    }

    /// The number of fields.
    pub fn len(&self) -> (n: usize)
        ensures
            n == self@.len(),
    {
        self.entries.len()
    }

    /// The value of the first field named `key`, if any.
    pub fn get(&self, key: &str) -> (r: Option<&JsonValue>)
        ensures
            match r {
                Some(v) => spec_assoc(self@, key@) == Some(v@),
                None => spec_assoc(self@, key@) is None,
            },
    {
        let k: String = key.to_owned();
        let mut i: usize = 0;
        while i < self.entries.len()
            invariant
                k@ == key@,
                i <= self.entries@.len(),
                forall|j: int| 0 <= j < i ==> self@[j].0 != key@,
            decreases self.entries@.len() - i,
        {
            if self.entries[i].0 == k {
                proof {
                    lemma_assoc_found(self@, key@, i as int);
                }
                return Some(&self.entries[i].1);
            }
            i = i + 1;
        }
        proof {
            lemma_assoc_absent(self@, key@);
        }
        None
    }

    /// True when the record's `"id"` field holds exactly the number `id`.
    pub fn has_id(&self, id: i32) -> (b: bool)
        ensures
            b == spec_has_id(self@, id as int),
    {
        match self.get("id") {
            Some(v) => match v {
                JsonValue::Int(x) => *x == (id as i64),
                _ => false,
            },
            None => false,
        }
    }
}

impl Clone for CategoryRecord {
    /// A clone leaves the model unchanged.
    fn clone(&self) -> (res: Self)
        ensures
            res@ == self@,
    {
        let mut out: Vec<(String, JsonValue)> = Vec::new();
        let mut i: usize = 0;
        while i < self.entries.len()
            invariant
                i <= self.entries@.len(),
                out@.len() == i,
                forall|j: int|
                    0 <= j < i ==> out@[j].0@ == self.entries@[j].0@ && out@[j].1@
                        == self.entries@[j].1@,
            decreases self.entries@.len() - i,
        {
            let entry = &self.entries[i];
            out.push((entry.0.clone(), entry.1.clone()));
            i = i + 1;
        }
        proof {
            assert(pairs_model(out@) =~= pairs_model(self.entries@));
        }
        CategoryRecord { entries: out }
    }
}

} // verus!

//! The detail store: a mapping from category identifier (a string) to an
//! arbitrary structured detail payload. Unlike the category lookup, which
//! hands out a sentinel on a miss, a detail lookup owes its caller a present
//! key: a missing key is outside `get_detail`'s contract.

use vstd::prelude::*;

use crate::json::JsonValue;
use crate::record::RecordModel;
use crate::record::lemma_assoc_absent;
use crate::record::lemma_assoc_found;
use crate::record::pairs_model;
use crate::record::spec_assoc;

verus! {

/// The detail store. Pairs are kept in insertion order and looked up by
/// first match; well-formed source data carries each identifier once.
pub struct CategoryDetails {
    details: Vec<(String, JsonValue)>,
}

impl View for CategoryDetails {
    type V = RecordModel;

    closed spec fn view(&self) -> Self::V {
        pairs_model(self.details@)
    }
}

impl CategoryDetails {
    /// A store holding exactly the given `(identifier, payload)` pairs.
    pub fn new(details: Vec<(String, JsonValue)>) -> (r: CategoryDetails)
        ensures
            r@ == pairs_model(details@),
    {
        CategoryDetails { details }
    }

    /// The whole mapping, as stored.
    pub fn get_details(&self) -> (r: &Vec<(String, JsonValue)>)
        ensures
            pairs_model(r@) == self@,
    {
        &self.details
    }

    /// True when a payload is stored under `key`: the test a caller of
    /// `get_detail` makes first.
    pub fn has_detail(&self, key: &str) -> (b: bool)
        ensures
            b == (spec_assoc(self@, key@) is Some),
    {
        let k: String = key.to_owned();
        let mut i: usize = 0;
        while i < self.details.len()
            invariant
                k@ == key@,
                i <= self.details@.len(),
                forall|j: int| 0 <= j < i ==> self@[j].0 != key@,
            decreases self.details@.len() - i,
        {
            if self.details[i].0 == k {
                proof {
                    lemma_assoc_found(self@, key@, i as int);
                }
                return true;
            }
            i = i + 1;
        }
        proof {
            lemma_assoc_absent(self@, key@);
        }
        false
    }

    /// The payload stored under `key`. The caller owes a present key; an
    /// absent one is a caller error, not a soft miss.
    pub fn get_detail(&self, key: &str) -> (r: &JsonValue)
        requires
            spec_assoc(self@, key@) is Some,
        ensures
            Some(r@) == spec_assoc(self@, key@),
    {
        let k: String = key.to_owned();
        let mut i: usize = 0;
        while i < self.details.len()
            invariant
                k@ == key@,
                i <= self.details@.len(),
                forall|j: int| 0 <= j < i ==> self@[j].0 != key@,
            decreases self.details@.len() - i,
        {
            if self.details[i].0 == k {
                proof {
                    lemma_assoc_found(self@, key@, i as int);
                }
                return &self.details[i].1;
            }
            i = i + 1;
        }
        // Never reached: the key is present by the precondition.
        proof {
            lemma_assoc_absent(self@, key@);
        }
        &self.details[0].1
    }
}

} // verus!

//! The allow-list that decides which rate objects are kept.

use vstd::prelude::*;
use crate::in_network_file_dto::InNetworkRateObject;

verus! {

/// Whether an allow-list lets a billing code through: an empty list lets
/// every code through, any other list only the codes it holds.
pub open spec fn allows(allow_list: Seq<Seq<char>>, billing_code: Seq<char>) -> bool {
    allow_list.len() == 0 || allow_list.contains(billing_code)
}

pub struct NodeFilters {
    billing_codes: Vec<String>,
}

impl NodeFilters {
    /// The allow-list as text.
    pub closed spec fn codes(&self) -> Seq<Seq<char>> {
        self.billing_codes.deep_view()
    }

    pub fn new(billing_codes: Vec<String>) -> (filters: Self)
        ensures
            filters.codes() == billing_codes.deep_view(),
    {
        NodeFilters { billing_codes }
    }

    /// What `matches` answers for a rate object.
    pub open spec fn accepts(&self, o: &InNetworkRateObject) -> bool {
        allows(self.codes(), o.billing_code@)
    }

    pub fn matches(&self, o: &InNetworkRateObject) -> (keep: bool)
        ensures
            keep == self.accepts(o),
    {
        if self.billing_codes.len() == 0 {
            return true;
        }
        let mut i: usize = 0;
        while i < self.billing_codes.len()
            invariant
                i <= self.billing_codes.len(),
                forall|j: int| 0 <= j < i ==> self.codes()[j] != o.billing_code@,
            decreases self.billing_codes.len() - i,
        {
            if self.billing_codes[i] == o.billing_code {
                assert(self.codes()[i as int] == o.billing_code@);
                return true;
            }
            i += 1;
        }
        false
    }
}

} // verus!

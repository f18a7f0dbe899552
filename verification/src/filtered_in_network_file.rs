//! The filtering decode of an in-network array: every element is decoded,
//! and only those that the allow-list lets through are kept.

use vstd::prelude::*;
use crate::error::{DecodeError, decodable_prefix, lemma_decodable_prefix};
use crate::in_network_file_dto::InNetworkRateObject;
use crate::node_filters::{NodeFilters, allows};

verus! {

/// The rate objects, out of a list, that an allow-list lets through, in
/// the list's order.
pub open spec fn kept(nodes: Seq<InNetworkRateObject>, allow_list: Seq<Seq<char>>) -> Seq<
    InNetworkRateObject,
> {
    nodes.filter(|o: InNetworkRateObject| allows(allow_list, o.billing_code@))
}

/// What the filtering decode of an array returns: the error of the first
/// element that failed to decode, whatever was kept before it; else the
/// elements that the allow-list lets through.
pub open spec fn filter_result(
    elements: Seq<Result<InNetworkRateObject, DecodeError>>,
    allow_list: Seq<Seq<char>>,
) -> Result<Seq<InNetworkRateObject>, DecodeError> {
    let decodable = decodable_prefix(elements);
    if decodable < elements.len() {
        Err(elements[decodable as int]->Err_0)
    } else {
        Ok(
            kept(
                elements.map_values(|e: Result<InNetworkRateObject, DecodeError>| e->Ok_0),
                allow_list,
            ),
        )
    }
}

/// Collects the rate objects of an array that an allow-list lets through,
/// one element at a time.
pub struct FilteredNodes {
    filter: NodeFilters,
    nodes: Vec<InNetworkRateObject>,
}

impl FilteredNodes {
    /// The allow-list that decides.
    pub closed spec fn allow_list(&self) -> Seq<Seq<char>> {
        self.filter.codes()
    }

    /// The rate objects kept so far.
    pub closed spec fn nodes(&self) -> Seq<InNetworkRateObject> {
        self.nodes@
    }

    pub fn new(filter: NodeFilters) -> (collector: Self)
        ensures
            collector.allow_list() == filter.codes(),
            collector.nodes() == Seq::<InNetworkRateObject>::empty(),
    {
        FilteredNodes { filter, nodes: Vec::new() }
    }

    /// Takes one decoded element: keeps it if the allow-list lets it
    /// through, and lets go of it at once if not.
    pub fn offer(&mut self, value: InNetworkRateObject)
        ensures
            final(self).allow_list() == old(self).allow_list(),
            final(self).nodes() == if allows(old(self).allow_list(), value.billing_code@) {
                old(self).nodes().push(value)
            } else {
                old(self).nodes()
            },
    {
        if self.filter.matches(&value) {
            self.nodes.push(value);
        }
    }

    /// The rate objects that were kept, in the order in which they came.
    pub fn finish(self) -> (nodes: Vec<InNetworkRateObject>)
        ensures
            nodes@ == self.nodes(),
    {
        self.nodes
    }
}

/// The filtering decode of a whole array, given as the outcome of decoding
/// each of its elements: all or nothing.
pub fn filter_nodes(elements: Vec<Result<InNetworkRateObject, DecodeError>>, filter: NodeFilters) -> (r:
    Result<Vec<InNetworkRateObject>, DecodeError>)
    ensures
        filter_result(elements@, filter.codes()) == match r {
            Ok(nodes) => Ok::<Seq<InNetworkRateObject>, DecodeError>(nodes@),
            Err(e) => Err::<Seq<InNetworkRateObject>, DecodeError>(e),
        },
{
    let ghost all = elements@;
    let ghost allow_list = filter.codes();
    let ghost decoded = all.map_values(|e: Result<InNetworkRateObject, DecodeError>| e->Ok_0);
    let ghost keep = |o: InNetworkRateObject| allows(allow_list, o.billing_code@);
    let mut collector = FilteredNodes::new(filter);
    proof {
        assert(decoded.take(0) =~= Seq::empty());
        assert(Seq::<InNetworkRateObject>::empty().filter(keep) =~= Seq::empty()) by {
            reveal(Seq::filter);
        }
    }
    for element in it: elements
        invariant
            it.seq() == all,
            decoded == all.map_values(|e: Result<InNetworkRateObject, DecodeError>| e->Ok_0),
            keep == |o: InNetworkRateObject| allows(allow_list, o.billing_code@),
            collector.allow_list() == allow_list,
            forall|i: int| 0 <= i < it.index() ==> all[i] is Ok,
            collector.nodes() == decoded.take(it.index() as int).filter(keep),
    {
        let ghost i = it.index() as int;
        match element {
            Ok(value) => {
                proof {
                    assert(decoded.take(i + 1) =~= decoded.take(i).push(value));
                    decoded.take(i).lemma_filter_push(value, keep);
                }
                collector.offer(value);
            },
            Err(e) => {
                proof {
                    lemma_decodable_prefix(all, i as nat);
                }
                return Err(e);
            },
        }
    }
    proof {
        lemma_decodable_prefix(all, all.len());
        assert(decoded.take(all.len() as int) =~= decoded);
    }
    Ok(collector.finish())
}

/// The filtering decode returns no element that a non-empty allow-list
/// does not hold, and with an empty allow-list it returns every element.
pub proof fn lemma_filter_nodes_correct(
    elements: Seq<Result<InNetworkRateObject, DecodeError>>,
    allow_list: Seq<Seq<char>>,
)
    requires
        filter_result(elements, allow_list) is Ok,
    ensures
        allow_list.len() > 0 ==> forall|i: int|
            0 <= i < filter_result(elements, allow_list)->Ok_0.len() ==> allow_list.contains(
                (#[trigger] filter_result(elements, allow_list)->Ok_0[i]).billing_code@,
            ),
        allow_list.len() == 0 ==> filter_result(elements, allow_list)->Ok_0
            == elements.map_values(|e: Result<InNetworkRateObject, DecodeError>| e->Ok_0),
{
    let decoded = elements.map_values(|e: Result<InNetworkRateObject, DecodeError>| e->Ok_0);
    let keep = |o: InNetworkRateObject| allows(allow_list, o.billing_code@);
    let out = decoded.filter(keep);
    assert forall|i: int| 0 <= i < out.len() implies keep(#[trigger] out[i]) by {
        decoded.lemma_filter_pred(keep, i);
    }
    if allow_list.len() == 0 {
        lemma_filter_all(decoded, keep);
    }
}

/// A filter that lets every element through changes nothing.
proof fn lemma_filter_all<A>(s: Seq<A>, keep: spec_fn(A) -> bool)
    requires
        forall|i: int| 0 <= i < s.len() ==> keep(#[trigger] s[i]),
    ensures
        s.filter(keep) == s,
    decreases s.len(),
{
    reveal(Seq::filter);
    if s.len() > 0 {
        lemma_filter_all(s.drop_last(), keep);
        assert(s.drop_last().push(s.last()) =~= s);
    }
}

} // verus!

//! Decodes an array into a channel and hands out the receiving side as a
//! generator.

use vstd::prelude::*;
use std::marker::PhantomData;
use std::sync::mpsc::{Receiver, SyncSender};
use crate::error::{DecodeError, decodable_prefix, lemma_decodable_prefix};
use crate::generator::ChannelGenerator;
use crate::index_file_parsing::seed_deserialization::{
    ItemSeed, Sent, forward_elements, forward_result, forwarded, sends_of, taken_before_refusal,
};

verus! {

/// `std::sync::mpsc::sync_channel`: a new channel that holds up to
/// `bound` messages, as its two halves.
#[verifier::external_body]
pub(crate) fn bounded_channel<T>(bound: usize) -> (halves: (SyncSender<T>, Receiver<T>)) {
    std::sync::mpsc::sync_channel(bound)
}

/// Sends every element of an array to a channel.
#[verifier::reject_recursive_types(T)]
pub struct ChannelVisitor<T> {
    pub sender: ItemSeed<T>,
    pub f: PhantomData<T>,
}

impl<T> ChannelVisitor<T> {
    /// Forwards a whole array, given as the outcome of decoding each of
    /// its elements. That the receiving side went away is no error; an
    /// element that failed to decode is one, if the decode got that far.
    pub fn visit_seq(&mut self, elements: Vec<Result<T, DecodeError>>) -> (r: Result<
        (),
        DecodeError,
    >)
        ensures
            final(self).f == old(self).f,
            old(self).sender.sends().is_prefix_of(final(self).sender.sends()),
            ({
                let sends = final(self).sender.sends().skip(
                    old(self).sender.sends().len() as int,
                );
                let accepted = taken_before_refusal(sends);
                &&& sends == sends_of(elements@, accepted)
                &&& match forward_result(elements@, accepted) {
                    Ok(_) => r is Ok,
                    Err(e) => r == Err::<(), DecodeError>(e),
                }
            }),
    {
        match forward_elements(&mut self.sender, elements) {
            Ok(_) => Ok(()),
            Err(e) => Err(e),
        }
    }
}

/// The elements of an array, if every one of them decoded; else the error
/// of the first that did not.
pub fn decoded<T>(elements: Vec<Result<T, DecodeError>>) -> (r: Result<Vec<T>, DecodeError>)
    ensures
        match r {
            Ok(items) => decodable_prefix(elements@) == elements@.len() && items@ == forwarded(
                elements@,
                elements@.len(),
            ),
            Err(e) => decodable_prefix(elements@) < elements@.len() && e
                == elements@[decodable_prefix(elements@) as int]->Err_0,
        },
{
    let ghost all = elements@;
    let mut items: Vec<T> = Vec::new();
    for element in it: elements
        invariant
            it.seq() == all,
            forall|i: int| 0 <= i < it.index() ==> all[i] is Ok,
            items@ == Seq::new(it.index() as nat, |j: int| all[j]->Ok_0),
    {
        match element {
            Ok(item) => {
                proof {
                    assert(items@.push(item) =~= Seq::new(
                        (it.index() + 1) as nat,
                        |j: int| all[j]->Ok_0,
                    ));
                }
                items.push(item);
            },
            Err(e) => {
                proof {
                    lemma_decodable_prefix(all, it.index() as nat);
                }
                return Err(e);
            },
        }
    }
    proof {
        lemma_decodable_prefix(all, all.len());
        assert(items@ =~= forwarded(all, all.len()));
    }
    Ok(items)
}

/// Decodes an array, given as the outcome of decoding each of its
/// elements, into a channel wide enough for all of them, and returns the
/// receiving side, from which nothing was taken yet. An array with an
/// element that failed to decode is refused before anything is sent, with
/// the error of the first such element. Of any other array every element
/// is handed to the channel, in the array's order, up to the first that
/// the channel does not take; the generator keeps the log of it.
pub fn deserialize_to_channel<T>(elements: Vec<Result<T, DecodeError>>) -> (r: Result<
    ChannelGenerator<T>,
    DecodeError,
>)
    ensures
        match r {
            Ok(generator) => {
                &&& decodable_prefix(elements@) == elements@.len()
                &&& generator.received() == Seq::<T>::empty()
                &&& !generator.ended()
                &&& generator.fed() == sends_of(elements@, taken_before_refusal(generator.fed()))
            },
            Err(e) => decodable_prefix(elements@) < elements@.len() && e
                == elements@[decodable_prefix(elements@) as int]->Err_0,
        },
{
    let ghost all = elements@;
    let items = match decoded(elements) {
        Ok(items) => items,
        Err(e) => {
            return Err(e);
        },
    };
    let ghost wanted = items@;
    let (sender, receiver) = bounded_channel::<T>(items.len());
    let mut seed = ItemSeed::new(sender);
    let mut open = true;
    for item in it: items
        invariant
            it.seq() == wanted,
            wanted == forwarded(all, all.len()),
            wanted.len() == all.len(),
            decodable_prefix(all) == all.len(),
            open ==> seed.sends() == Seq::new(
                it.index() as nat,
                |j: int| Sent { item: wanted[j], taken: true },
            ),
            !open ==> seed.sends() == sends_of(all, taken_before_refusal(seed.sends())),
    {
        if open {
            let ghost before = seed.sends();
            open = seed.send(item);
            proof {
                let i = it.index() as int;
                if open {
                    assert(seed.sends() =~= Seq::new(
                        (i + 1) as nat,
                        |j: int| Sent { item: wanted[j], taken: true },
                    ));
                } else {
                    assert(taken_before_refusal(seed.sends()) == i);
                    assert(seed.sends() =~= sends_of(all, i as nat));
                }
            }
        }
    }
    proof {
        if open {
            assert(taken_before_refusal(seed.sends()) == all.len());
            assert(seed.sends() =~= sends_of(all, all.len()));
        }
    }
    Ok(ChannelGenerator::filled(receiver, seed))
}

} // verus!

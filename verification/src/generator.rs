//! A generator over the receiving half of a channel: asking it for its next
//! value takes one message from the channel.

use vstd::prelude::*;
use std::sync::mpsc::Receiver;
use crate::index_file_parsing::seed_deserialization::{ItemSeed, Sent};

verus! {

/// `std::sync::mpsc::Receiver`, the receiving half of a channel. Nothing
/// is stated of what it holds.
#[verifier::external_type_specification]
#[verifier::external_body]
#[verifier::reject_recursive_types(T)]
pub struct ExReceiver<T>(Receiver<T>);

/// `Receiver::recv`: waits for the next message. There is none once every
/// sending half is gone and the channel is empty; when that is, is not
/// this side's to know.
#[verifier::external_body]
pub(crate) fn recv_item<T>(receiver: &Receiver<T>) -> (item: Option<T>) {
    receiver.recv().ok()
}

/// `Receiver::try_recv`: the next message if one is there already,
/// without waiting. That there is none says nothing of what is to come.
#[verifier::external_body]
pub(crate) fn poll_item<T>(receiver: &Receiver<T>) -> (item: Option<T>) {
    receiver.try_recv().ok()
}

/// The receiving half of a channel, with the log of the messages that
/// were taken from it, oldest first, a note of whether the channel has
/// reported its end, and, for a channel that was filled before the
/// generator was made, the log of what was handed to it.
#[verifier::reject_recursive_types(T)]
pub struct ChannelGenerator<T> {
    receiver: Receiver<T>,
    received: Ghost<Seq<T>>,
    ended: Ghost<bool>,
    fed: Ghost<Seq<Sent<T>>>,
    polls: Ghost<Seq<bool>>,
}

impl<T> ChannelGenerator<T> {
    /// The messages taken from the channel so far, oldest first.
    pub closed spec fn received(&self) -> Seq<T> {
        self.received@
    }

    /// Whether the channel has reported that no more messages will come:
    /// whether a wait for its next message has come back without one.
    pub closed spec fn ended(&self) -> bool {
        self.ended@
    }

    /// Every look into the channel that did not wait for a message, oldest
    /// first: whether it found one.
    pub closed spec fn polls(&self) -> Seq<bool> {
        self.polls@
    }

    /// What was handed to the channel before the generator was made, send
    /// by send; nothing, for a channel that others fill as it is read.
    pub closed spec fn fed(&self) -> Seq<Sent<T>> {
        self.fed@
    }

    /// A generator that has taken nothing yet, over a channel that others
    /// fill as it is read.
    pub fn new(receiver: Receiver<T>) -> (generator: Self)
        ensures
            generator.received() == Seq::<T>::empty(),
            generator.fed() == Seq::<Sent<T>>::empty(),
            generator.polls() == Seq::<bool>::empty(),
            !generator.ended(),
    {
        ChannelGenerator {
            receiver,
            received: Ghost(Seq::empty()),
            ended: Ghost(false),
            fed: Ghost(Seq::empty()),
            polls: Ghost(Seq::empty()),
        }
    }

    /// A generator that has taken nothing yet, over the channel that a
    /// seed has filled: `receiver` is the receiving half of the channel
    /// that `seed` sent to. The seed is let go of, so that the channel
    /// ends behind what it took.
    pub fn filled(receiver: Receiver<T>, seed: ItemSeed<T>) -> (generator: Self)
        ensures
            generator.received() == Seq::<T>::empty(),
            generator.fed() == seed.sends(),
            generator.polls() == Seq::<bool>::empty(),
            !generator.ended(),
    {
        ChannelGenerator {
            receiver,
            received: Ghost(Seq::empty()),
            ended: Ghost(false),
            fed: Ghost(seed.sends()),
            polls: Ghost(Seq::empty()),
        }
    }

    /// Waits for the next message of the channel and takes it; `None` once
    /// the channel has ended.
    pub fn next(&mut self) -> (item: Option<T>)
        ensures
            final(self).received() == match item {
                Some(message) => old(self).received().push(message),
                None => old(self).received(),
            },
            final(self).ended() == (old(self).ended() || item is None),
            final(self).polls() == old(self).polls(),
            final(self).fed() == old(self).fed(),
    {
        let item = recv_item(&self.receiver);
        proof {
            if item is Some {
                self.received@ = self.received@.push(item->Some_0);
            } else {
                self.ended@ = true;
            }
        }
        item
    }

    /// Takes the next message of the channel if one is there already;
    /// `None` if not, whatever may still come.
    pub fn poll(&mut self) -> (item: Option<T>)
        ensures
            final(self).received() == match item {
                Some(message) => old(self).received().push(message),
                None => old(self).received(),
            },
            final(self).ended() == old(self).ended(),
            final(self).polls() == old(self).polls().push(item is Some),
            final(self).fed() == old(self).fed(),
    {
        let item = poll_item(&self.receiver);
        proof {
            self.polls@ = self.polls@.push(item is Some);
            if item is Some {
                self.received@ = self.received@.push(item->Some_0);
            }
        }
        item
    }
}

} // verus!

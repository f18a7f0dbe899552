//! The decisions of a listener that fetches batches of messages from a
//! queue and hands each message to a callback: how long it waits after an
//! empty batch, and what it makes of the callback's answers. Fetching and
//! the callback itself are left to the program around it.

use vstd::prelude::*;

verus! {

/// What the listener does with the batch that it fetched.
#[derive(Debug, Clone, Copy, PartialEq, Eq, Structural)]
pub enum Listened {
    /// The batch was empty: wait this many seconds before the next fetch.
    Backoff(u64),
    /// The batch holds messages: hand them to the callback.
    Handle,
}

pub struct SqsQueueListener {
    queue_url: String,
    _backoff: u64,
}

/// Twice a wait, or the longest wait there is where twice does not fit.
pub open spec fn doubled(backoff: u64) -> u64 {
    if backoff <= u64::MAX / 2 {
        (2 * backoff) as u64
    } else {
        u64::MAX
    }
}

/// How many answers of the callback were failures.
pub open spec fn failures(answers: Seq<bool>) -> nat {
    answers.filter(|handled: bool| !handled).len()
}

impl SqsQueueListener {
    /// The queue that is listened to.
    pub closed spec fn url(&self) -> Seq<char> {
        self.queue_url@
    }

    pub fn queue_url(&self) -> (url: &str)
        ensures
            url@ == self.url(),
    {
        self.queue_url.as_str()
    }

    /// The seconds to wait after the next empty batch, before they double.
    pub closed spec fn wait(&self) -> u64 {
        self._backoff
    }

    /// A listener that waits one second after its first empty batch.
    pub fn new(queue_url: String) -> (listener: Self)
        ensures
            listener.url() == queue_url@,
            listener.wait() == 1,
    {
        SqsQueueListener { queue_url, _backoff: 1 }
    }

    /// Doubles the wait.
    pub fn backoff(&mut self)
        ensures
            final(self).url() == old(self).url(),
            final(self).wait() == doubled(old(self).wait()),
    {
        if self._backoff <= u64::MAX / 2 {
            self._backoff = 2 * self._backoff;
        } else {
            self._backoff = u64::MAX;
        }
    }

    /// Decides what to do with a fetched batch of `fetched` messages: an
    /// empty batch doubles the wait and asks for it; any other batch is
    /// to be handled, message by message, and the wait starts over at one
    /// second.
    pub fn listen(&mut self, fetched: usize) -> (listened: Listened)
        ensures
            final(self).url() == old(self).url(),
            fetched == 0 ==> final(self).wait() == doubled(old(self).wait()) && listened
                == Listened::Backoff(final(self).wait()),
            fetched != 0 ==> final(self).wait() == 1 && listened == Listened::Handle,
    {
        if fetched == 0 {
            self.backoff();
            Listened::Backoff(self._backoff)
        } else {
            self._backoff = 1;
            Listened::Handle
        }
    }

    /// Takes note of a handled batch, given as the callback's answer for
    /// each message in the batch's order; a message that the callback
    /// failed on does not stop the rest. The wait starts over at one
    /// second, and the result is the number of messages that the callback
    /// failed on.
    #[allow(non_snake_case)]
    pub fn handleMessages(&mut self, answers: &Vec<bool>) -> (failed: usize)
        ensures
            final(self).url() == old(self).url(),
            final(self).wait() == 1,
            failed == failures(answers@),
    {
        let ghost failure = |handled: bool| !handled;
        let mut failed: usize = 0;
        let mut i: usize = 0;
        assert(answers@.take(0).filter(failure) =~= Seq::<bool>::empty()) by {
            reveal(Seq::filter);
            assert(answers@.take(0) =~= Seq::<bool>::empty());
        }
        while i < answers.len()
            invariant
                i <= answers.len(),
                failure == |handled: bool| !handled,
                failed == answers@.take(i as int).filter(failure).len(),
                failed <= i,
            decreases answers.len() - i,
        {
            proof {
                assert(answers@.take(i + 1) =~= answers@.take(i as int).push(answers@[i as int]));
                answers@.take(i as int).lemma_filter_push(answers@[i as int], failure);
            }
            if !answers[i] {
                failed += 1;
            }
            i += 1;
        }
        assert(answers@.take(i as int) =~= answers@);
        self._backoff = 1;
        failed
    }
}

} // verus!

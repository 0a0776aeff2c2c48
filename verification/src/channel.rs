//! What ties a connection to the other tasks of the broker: the broadcast channel that it feeds
//! and the cancellation token that it obeys.
//!
//! Both belong to all tasks at once, so what becomes of a frame, and what the token will say
//! next, rests with the others. What a connection does with them is its own affair, and that is
//! what is recorded here: a [`Link`] keeps one log, in order, of the frames handed to the channel
//! and of the answers that the token gave. The log exists in proofs alone; only the calls below
//! write to it.

use tokio::sync::broadcast::Sender;
use tokio_util::sync::CancellationToken;
use vstd::prelude::*;

use crate::frame::Frame;

verus! {

/// The type `tokio::sync::broadcast::Sender`, held as an opaque value.
#[verifier::external_type_specification]
#[verifier::external_body]
#[verifier::reject_recursive_types(T)]
pub struct ExSender<T>(Sender<T>);

/// The type `tokio_util::sync::CancellationToken`, held as an opaque value.
#[verifier::external_type_specification]
#[verifier::external_body]
pub struct ExCancellationToken(CancellationToken);

/// One thing that a connection did with the channel or the token.
pub enum Entry {
    /// A frame with this payload was handed to the channel.
    Sent(Seq<u8>),
    /// The token was asked and gave this answer.
    Asked(bool),
}

/// The payloads that a log says were handed to the channel, in order.
pub open spec fn sent_in(log: Seq<Entry>) -> Seq<Seq<u8>>
    decreases log.len(),
{
    if log.len() == 0 {
        Seq::empty()
    } else {
        match log.last() {
            Entry::Sent(payload) => sent_in(log.drop_last()).push(payload),
            Entry::Asked(_) => sent_in(log.drop_last()),
        }
    }
}

/// The answers that a log says the token gave, in order.
pub open spec fn answers_in(log: Seq<Entry>) -> Seq<bool>
    decreases log.len(),
{
    if log.len() == 0 {
        Seq::empty()
    } else {
        match log.last() {
            Entry::Sent(_) => answers_in(log.drop_last()),
            Entry::Asked(answer) => answers_in(log.drop_last()).push(answer),
        }
    }
}

/// Whether a log shows the token being asked once after each frame, and at no other time.
pub open spec fn asks_after_each_frame(log: Seq<Entry>) -> bool {
    &&& log.len() % 2 == 0
    &&& forall|i: int| 0 <= i < log.len() ==> ((#[trigger] log[i]) is Sent <==> i % 2 == 0)
}

/// A log is read entry by entry, in order: each frame sent adds its payload to the payloads and
/// nothing to the answers, and each time the token is asked adds its answer to the answers and
/// nothing to the payloads.
pub proof fn law_log_is_read_entry_by_entry(log: Seq<Entry>, payload: Seq<u8>, answer: bool)
    ensures
        sent_in(Seq::empty()) == Seq::<Seq<u8>>::empty(),
        answers_in(Seq::empty()) == Seq::<bool>::empty(),
        sent_in(log.push(Entry::Sent(payload))) == sent_in(log).push(payload),
        answers_in(log.push(Entry::Sent(payload))) == answers_in(log),
        sent_in(log.push(Entry::Asked(answer))) == sent_in(log),
        answers_in(log.push(Entry::Asked(answer))) == answers_in(log).push(answer),
{
    assert(log.push(Entry::Sent(payload)).drop_last() =~= log);
    assert(log.push(Entry::Asked(answer)).drop_last() =~= log);
}

/// Where the token is asked once after each frame, and at no other time, a log is made of pairs:
/// each payload, then the answer given after it.
pub proof fn law_log_is_made_of_pairs(log: Seq<Entry>)
    requires
        asks_after_each_frame(log),
    ensures
        log.len() == 2 * sent_in(log).len(),
        log.len() == 2 * answers_in(log).len(),
        forall|i: int|
            #![trigger sent_in(log)[i]]
            #![trigger answers_in(log)[i]]
            0 <= i < sent_in(log).len() ==> log[2 * i] == Entry::Sent(sent_in(log)[i]) && log[2 * i
                + 1] == Entry::Asked(answers_in(log)[i]),
    decreases log.len(),
{
    if log.len() > 0 {
        assert(log.len() >= 2);
        let n = log.len() - 2;
        let shorter = log.take(n);
        assert(log[n] is Sent);
        assert(log[n + 1] is Asked);
        let payload = log[n]->Sent_0;
        let answer = log[n + 1]->Asked_0;
        assert forall|i: int| 0 <= i < shorter.len() implies ((#[trigger] shorter[i]) is Sent <==> i
            % 2 == 0) by {
            assert(shorter[i] == log[i]);
        }
        law_log_is_made_of_pairs(shorter);
        lemma_log_grows(shorter, payload, answer);
        assert(log =~= shorter.push(Entry::Sent(payload)).push(Entry::Asked(answer)));
        assert forall|i: int|
            #![trigger sent_in(log)[i]]
            #![trigger answers_in(log)[i]]
            0 <= i < sent_in(log).len() implies log[2 * i] == Entry::Sent(sent_in(log)[i])
            && log[2 * i + 1] == Entry::Asked(answers_in(log)[i]) by {
            if i < sent_in(shorter).len() {
                assert(sent_in(log)[i] == sent_in(shorter)[i]);
                assert(answers_in(log)[i] == answers_in(shorter)[i]);
                assert(shorter[2 * i] == log[2 * i]);
                assert(shorter[2 * i + 1] == log[2 * i + 1]);
            }
        }
    }
}

/// A frame sent and the token asked after it add just that to a log.
pub proof fn lemma_log_grows(log: Seq<Entry>, payload: Seq<u8>, answer: bool)
    ensures
        sent_in(log.push(Entry::Sent(payload)).push(Entry::Asked(answer))) == sent_in(log).push(
            payload,
        ),
        answers_in(log.push(Entry::Sent(payload)).push(Entry::Asked(answer))) == answers_in(
            log,
        ).push(answer),
        asks_after_each_frame(log) ==> asks_after_each_frame(
            log.push(Entry::Sent(payload)).push(Entry::Asked(answer)),
        ),
{
    reveal_with_fuel(sent_in, 3);
    reveal_with_fuel(answers_in, 3);
    let once = log.push(Entry::Sent(payload));
    let twice = once.push(Entry::Asked(answer));
    assert(once.drop_last() =~= log);
    assert(twice.drop_last() =~= once);
}

/// A connection's hold on the broadcast channel and on the cancellation token.
pub struct Link {
    tx: Sender<Frame>,
    cancel: CancellationToken,
    log: Ghost<Seq<Entry>>,
}

impl Link {
    /// The channel that frames are handed to.
    pub closed spec fn channel(&self) -> Sender<Frame> {
        self.tx
    }

    /// The token that is asked.
    pub closed spec fn token(&self) -> CancellationToken {
        self.cancel
    }

    /// What has been done with the two, in order.
    pub closed spec fn log(&self) -> Seq<Entry> {
        self.log@
    }

    /// A hold on the given channel and token, with nothing sent and nothing asked.
    pub fn new(tx: Sender<Frame>, cancel: CancellationToken) -> (link: Self)
        ensures
            link.channel() == tx,
            link.token() == cancel,
            link.log() == Seq::<Entry>::empty(),
    {
        Link { tx, cancel, log: Ghost(Seq::empty()) }
    }

    /// `broadcast::Sender::send` hands a frame to the channel, once and without waiting. It
    /// returns how many receivers are subscribed, at least one, or gives the frame back where
    /// there is none. Which of the two it is, and whether a receiver gets to see the frame before
    /// it is overwritten, rests with the other tasks and is not stated.
    #[verifier::external_body]
    pub(crate) fn send(&mut self, frame: Frame) -> (outcome: Result<usize, Frame>)
        ensures
            final(self).channel() == old(self).channel(),
            final(self).token() == old(self).token(),
            final(self).log() == old(self).log().push(Entry::Sent(frame@)),
            outcome matches Ok(receivers) ==> receivers >= 1,
            outcome matches Err(returned) ==> returned@ == frame@,
    {
        self.tx.send(frame).map_err(|unsent| unsent.0)
    }

    /// `CancellationToken::is_cancelled` tells whether some task has cancelled the token. Which
    /// answer it gives is not stated.
    #[verifier::external_body]
    pub(crate) fn is_cancelled(&mut self) -> (cancelled: bool)
        ensures
            final(self).channel() == old(self).channel(),
            final(self).token() == old(self).token(),
            final(self).log() == old(self).log().push(Entry::Asked(cancelled)),
    {
        self.cancel.is_cancelled()
    }
}

} // verus!

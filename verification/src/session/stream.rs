//! Per-stream state: sequence numbers, send history and lifecycle.
use std::collections::VecDeque;

use vstd::prelude::*;

use super::history::{
    acknowledge, after_ack, cap_bytes, capped, entries, law_ack_leaves_replay, law_bytes_add_up,
    law_capped_fits, law_nothing_goes_before_full, lemma_after_ack_suffix, lemma_numbered_ack,
    lemma_numbered_suffix, limit, limited, numbered, replay, replay_entries,
};
use crate::bytes::to_vec;
use crate::protocol::StreamType;

verus! {

/// How many entries a stream's history holds at most.
pub const MAX_HISTORY: usize = 10_000;

/// How many payload bytes a stream's history holds at most.
pub const MAX_HISTORY_BYTES: usize = 4 * 1024 * 1024;

/// Lifecycle of a single multiplexed stream.
#[derive(Debug, Clone, Copy, PartialEq, Eq, Structural)]
pub enum StreamLifecycle {
    /// The stream has been requested but the peer has not yet acknowledged it.
    Opening,
    /// The stream is established and data flows in both directions.
    Open,
    /// A close has been requested; data in flight is still to drain.
    Closing,
    /// The stream is closed.
    Closed,
}

/// State of one logical stream within a session.
///
/// Stream 0 is always the terminal. Other streams are forwarded connections, each with
/// sequence numbers of its own.
pub struct StreamState {
    /// The stream's number.
    pub stream_id: u32,
    /// What the stream carries.
    pub stream_type: StreamType,
    /// The number of the next outgoing payload.
    pub next_out_seq: u64,
    /// The number that the next incoming payload is expected to have.
    pub next_in_seq: u64,
    /// What has been sent and not yet acknowledged, oldest first.
    pub send_history: VecDeque<(u64, Vec<u8>)>,
    /// How many entries the history holds at most.
    pub max_history: usize,
    /// Where the stream is in its life.
    pub lifecycle: StreamLifecycle,
}

/// The number expected after the payload `seq` was received, where `next` was expected. The
/// highest number received counts.
pub open spec fn expected_after(next: u64, seq: u64) -> u64 {
    if seq + 1 > next {
        (seq + 1) as u64
    } else {
        next
    }
}

/// The number expected after all of `payloads` were received, where `next` was expected.
pub open spec fn expected_after_all(next: u64, payloads: Seq<(u64, Seq<u8>)>) -> u64
    decreases payloads.len(),
{
    if payloads.len() == 0 {
        next
    } else {
        expected_after(expected_after_all(next, payloads.drop_last()), payloads.last().0)
    }
}

/// Whether `after` is `before` when one more payload has been sent: it has the next number,
/// and is the newest in the history, from which the oldest go where it is full.
pub open spec fn sent(before: StreamState, payload: Seq<u8>, after: StreamState) -> bool {
    &&& after.same_but_history(
        StreamState { next_out_seq: (before.next_out_seq + 1) as u64, ..before },
    )
    &&& after.history() == capped(
        limited(
            before.history().push((before.next_out_seq, payload)),
            before.max_history as nat,
        ),
        MAX_HISTORY_BYTES as nat,
    )
}

/// The count of bytes in `payloads`.
pub open spec fn payload_bytes(payloads: Seq<Seq<u8>>) -> nat
    decreases payloads.len(),
{
    if payloads.len() == 0 {
        0
    } else {
        payload_bytes(payloads.drop_last()) + payloads.last().len()
    }
}

impl StreamState {
    /// The numbers and payloads in the history.
    pub open spec fn history(self) -> Seq<(u64, Seq<u8>)> {
        entries(self.send_history@)
    }

    /// Whether `self` and `other` differ at most in their histories.
    pub open spec fn same_but_history(self, other: StreamState) -> bool {
        &&& self.stream_id == other.stream_id
        &&& self.stream_type == other.stream_type
        &&& self.next_out_seq == other.next_out_seq
        &&& self.next_in_seq == other.next_in_seq
        &&& self.max_history == other.max_history
        &&& self.lifecycle == other.lifecycle
    }

    /// Whether this is a stream as it starts out: open, with nothing sent, and numbers that
    /// start at 1 (0 means that nothing has been received).
    pub open spec fn is_new(self, stream_id: u32, stream_type: StreamType) -> bool {
        &&& self.stream_id == stream_id
        &&& self.stream_type == stream_type
        &&& self.next_out_seq == 1
        &&& self.next_in_seq == 1
        &&& self.history() == Seq::<(u64, Seq<u8>)>::empty()
        &&& self.max_history == MAX_HISTORY
        &&& self.lifecycle == StreamLifecycle::Open
    }

    /// A new stream.
    pub fn new(stream_id: u32, stream_type: StreamType) -> (r: Self)
        ensures
            r.is_new(stream_id, stream_type),
            r.sequenced(),
    {
        let r = StreamState {
            stream_id,
            stream_type,
            next_out_seq: 1,
            next_in_seq: 1,
            send_history: VecDeque::new(),
            max_history: MAX_HISTORY,
            lifecycle: StreamLifecycle::Open,
        };
        assert(r.history() =~= Seq::empty());
        r
    }

    /// Records a payload that was sent. Where the history then has too many entries its
    /// oldest goes, and where it holds too many bytes its oldest go until the rest fits.
    pub fn record_send(&mut self, seq_num: u64, payload: Vec<u8>)
        ensures
            final(self).same_but_history(*old(self)),
            final(self).history() == capped(
                limited(old(self).history().push((seq_num, payload@)), old(self).max_history as nat),
                MAX_HISTORY_BYTES as nat,
            ),
    {
        self.send_history.push_back((seq_num, payload));
        assert(self.history() =~= old(self).history().push((seq_num, payload@)));
        limit(&mut self.send_history, self.max_history);
        cap_bytes(&mut self.send_history, MAX_HISTORY_BYTES);
    }

    /// Drops what the peer has acknowledged.
    pub fn acknowledge_up_to(&mut self, ack_seq: u64)
        ensures
            final(self).same_but_history(*old(self)),
            final(self).history() == after_ack(old(self).history(), ack_seq),
            old(self).sequenced() ==> final(self).sequenced(),
    {
        proof {
            if self.sequenced() {
                lemma_after_ack_suffix(self.history(), ack_seq);
                lemma_numbered_suffix(
                    self.history(),
                    self.next_out_seq as int,
                    self.history().len() - after_ack(self.history(), ack_seq).len(),
                );
            }
        }
        acknowledge(&mut self.send_history, ack_seq);
    }

    /// Whether the history is that of payloads numbered one after the other, up to the
    /// number before the next one.
    pub open spec fn sequenced(self) -> bool {
        numbered(self.history(), self.next_out_seq as int)
    }

    /// Numbers a payload that is about to be sent, and records it.
    pub fn send(&mut self, payload: &[u8]) -> (r: u64)
        requires
            old(self).next_out_seq < u64::MAX,
        ensures
            r == old(self).next_out_seq,
            final(self).next_out_seq == r + 1,
            final(self).same_but_history(
                StreamState { next_out_seq: (r + 1) as u64, ..*old(self) },
            ),
            final(self).history() == capped(
                limited(old(self).history().push((r, payload@)), old(self).max_history as nat),
                MAX_HISTORY_BYTES as nat,
            ),
            sent(*old(self), payload@, *final(self)),
            old(self).sequenced() ==> final(self).sequenced(),
    {
        let seq: u64 = self.next_out_seq;
        self.next_out_seq = seq + 1;
        self.record_send(seq, to_vec(payload));
        proof {
            if old(self).sequenced() {
                let h = old(self).history();
                let p = h.push((seq, payload@));
                let l = limited(p, old(self).max_history as nat);
                let c = capped(l, MAX_HISTORY_BYTES as nat);
                law_capped_fits(l, MAX_HISTORY_BYTES as nat);
                assert(numbered(p, self.next_out_seq as int));
                assert(c =~= p.skip(p.len() - c.len()));
                lemma_numbered_suffix(p, self.next_out_seq as int, p.len() - c.len());
            }
        }
        seq
    }

    /// Notes that the payload `seq` was received. The highest number counts, so that a
    /// payload which is replayed a second time moves nothing back.
    pub fn note_received(&mut self, seq: u64)
        requires
            seq < u64::MAX,
        ensures
            *final(self) == (StreamState {
                next_in_seq: expected_after(old(self).next_in_seq, seq),
                ..*old(self)
            }),
    {
        if seq + 1 > self.next_in_seq {
            self.next_in_seq = seq + 1;
        }
    }

    /// What is to be replayed to a peer that has received up to `peer_last_received`.
    pub fn replay_from(&self, peer_last_received: u64) -> (r: Vec<(u64, Vec<u8>)>)
        ensures
            entries(r@) == replay(self.history(), peer_last_received),
    {
        replay_entries(&self.send_history, peer_last_received)
    }
}

// ---------------------------------------------------------------------------
// Laws
// ---------------------------------------------------------------------------

/// The replay leaves no gap and repeats nothing: a peer that has received up to `last` is
/// replayed the payloads `last + 1`, `last + 2` and so on, up to the last one sent. Only a
/// peer that misses what the history no longer holds does not get all.
pub proof fn law_replay_closes_gap(sender: StreamState, last: u64)
    requires
        sender.sequenced(),
        last < sender.next_out_seq,
        sender.next_out_seq - sender.history().len() <= last + 1,
    ensures
        replay(sender.history(), last).len() == sender.next_out_seq - 1 - last,
        forall|i: int|
            0 <= i < replay(sender.history(), last).len() ==> (#[trigger] replay(
                sender.history(),
                last,
            )[i]).0 == last + 1 + i,
        replay(sender.history(), last) == sender.history().skip(
            sender.history().len() - (sender.next_out_seq - 1 - last),
        ),
{
    law_ack_leaves_replay(sender.history(), last);
    lemma_numbered_ack(sender.history(), sender.next_out_seq as int, last);
    lemma_after_ack_suffix(sender.history(), last);
}

/// After a replay the two sides agree: a peer that has received up to the number before
/// `next_in`, and then receives what is replayed to it, expects the number that the sender
/// uses next.
pub proof fn law_replay_catches_up(sender: StreamState, next_in: u64)
    requires
        sender.sequenced(),
        1 <= next_in <= sender.next_out_seq,
        sender.next_out_seq - sender.history().len() <= next_in,
    ensures
        expected_after_all(next_in, replay(sender.history(), (next_in - 1) as u64))
            == sender.next_out_seq,
{
    let r = replay(sender.history(), (next_in - 1) as u64);
    law_replay_closes_gap(sender, (next_in - 1) as u64);
    lemma_expected_after_run(next_in, r);
}

/// Payloads numbered one after the other, from the one expected on, are all counted.
pub proof fn lemma_expected_after_run(next: u64, run: Seq<(u64, Seq<u8>)>)
    requires
        forall|i: int| 0 <= i < run.len() ==> (#[trigger] run[i]).0 == next + i,
        next + run.len() <= u64::MAX,
    ensures
        expected_after_all(next, run) == next + run.len(),
    decreases run.len(),
{
    if run.len() > 0 {
        let init = run.drop_last();
        assert forall|i: int| 0 <= i < init.len() implies (#[trigger] init[i]).0 == next + i by {
            assert(init[i] == run[i]);
        }
        lemma_expected_after_run(next, init);
        assert(run[run.len() - 1].0 == next + run.len() - 1);
    }
}

/// Nothing that is sent while the peer is away is lost: of the payloads sent on a new stream,
/// 10 000 at most and of 4 MiB at most together, a peer that has received the first `last` is
/// replayed all others, in the order in which they were sent, each with its number.
pub proof fn law_outage_is_replayed(
    states: Seq<StreamState>,
    payloads: Seq<Seq<u8>>,
    stream_id: u32,
    stream_type: StreamType,
    last: u64,
)
    requires
        states.len() == payloads.len() + 1,
        states[0].is_new(stream_id, stream_type),
        forall|i: int|
            0 <= i < payloads.len() ==> sent(#[trigger] states[i], payloads[i], states[i + 1]),
        payloads.len() <= 10_000,
        payload_bytes(payloads) <= 4 * 1024 * 1024,
        last <= payloads.len(),
    ensures
        ({
            let r = replay(states.last().history(), last);
            &&& r.len() == payloads.len() - last
            &&& forall|i: int|
                0 <= i < r.len() ==> #[trigger] r[i] == ((last + 1 + i) as u64, payloads[last + i])
        }),
{
    lemma_history_of_new(states, payloads, stream_id, stream_type);
    law_replay_closes_gap(states.last(), last);
}

/// The history of a new stream to which no more than it holds has been sent is all of it.
proof fn lemma_history_of_new(
    states: Seq<StreamState>,
    payloads: Seq<Seq<u8>>,
    stream_id: u32,
    stream_type: StreamType,
)
    requires
        states.len() == payloads.len() + 1,
        states[0].is_new(stream_id, stream_type),
        forall|i: int|
            0 <= i < payloads.len() ==> sent(#[trigger] states[i], payloads[i], states[i + 1]),
        payloads.len() <= 10_000,
        payload_bytes(payloads) <= 4 * 1024 * 1024,
    ensures
        states.last().history().len() == payloads.len(),
        forall|i: int|
            0 <= i < payloads.len() ==> #[trigger] states.last().history()[i] == (
                (i + 1) as u64,
                payloads[i],
            ),
        states.last().next_out_seq == payloads.len() + 1,
        states.last().max_history == 10_000,
        states.last().sequenced(),
        crate::session::history::total_bytes(states.last().history()) == payload_bytes(payloads),
    decreases payloads.len(),
{
    if payloads.len() > 0 {
        let n = payloads.len() - 1;
        let prev = states.drop_last();
        let init = payloads.drop_last();
        assert forall|i: int| 0 <= i < init.len() implies sent(
            #[trigger] prev[i],
            init[i],
            prev[i + 1],
        ) by {
            assert(sent(states[i], payloads[i], states[i + 1]));
        }
        lemma_history_of_new(prev, init, stream_id, stream_type);
        let before = states[n];
        assert(prev.last() == before);
        assert(sent(states[n], payloads[n], states[n + 1]));
        let e = (before.next_out_seq, payloads[n]);
        law_bytes_add_up(before.history(), e);
        law_nothing_goes_before_full(before.history(), e, 10_000, 4 * 1024 * 1024);
        assert(states.last().history() == before.history().push(e));
        assert forall|i: int| 0 <= i < payloads.len() implies #[trigger] states.last().history()[i]
            == ((i + 1) as u64, payloads[i]) by {
            if i < n {
                assert(before.history()[i] == ((i + 1) as u64, init[i]));
            }
        }
    }
}

/// The number that is expected next is the one behind the highest that came, and a payload
/// that comes again moves nothing.
pub proof fn law_highest_counts(next: u64, seq: u64)
    requires
        seq < u64::MAX,
    ensures
        expected_after(next, seq) > seq,
        expected_after(next, seq) >= next,
        expected_after(next, seq) == next || expected_after(next, seq) == seq + 1,
        seq < next ==> expected_after(next, seq) == next,
{
}

} // verus!

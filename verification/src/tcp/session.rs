//! State of a TCP session that survives disconnections.
use std::collections::VecDeque;

use vstd::prelude::*;

use crate::session::history::{
    acknowledge, after_ack, entries, law_ack_takes_exactly, law_full_loses_oldest,
    law_replay_complete, law_replay_only_missing, limit, limited, replay, replay_entries, rising,
};

verus! {

/// State of a TCP session.
pub struct SessionState {
    /// Who the client is.
    pub client_id: String,
    /// The secret that both sides know.
    pub passkey: String,
    /// The number of the next outgoing packet.
    pub next_out_seq: u64,
    /// The number that the next incoming packet is expected to have.
    pub next_in_seq: u64,
    /// What has been sent and not yet acknowledged, oldest first.
    pub send_history: VecDeque<(u64, Vec<u8>)>,
    /// How many entries the history holds at most.
    pub max_history_size: usize,
}

/// Whether `after` is `before` with a packet recorded as the newest in its history, from which
/// the oldest goes where there are too many.
pub open spec fn recorded(
    before: SessionState,
    seq_num: u64,
    payload: Seq<u8>,
    after: SessionState,
) -> bool {
    &&& after.same_but_history(before)
    &&& after.history() == limited(
        before.history().push((seq_num, payload)),
        before.max_history_size as nat,
    )
}

/// Whether `after` is `before` without what `ack_seq` acknowledges.
pub open spec fn acknowledged(before: SessionState, ack_seq: u64, after: SessionState) -> bool {
    &&& after.same_but_history(before)
    &&& after.history() == after_ack(before.history(), ack_seq)
}

impl SessionState {
    /// The numbers and payloads in the history.
    pub open spec fn history(self) -> Seq<(u64, Seq<u8>)> {
        entries(self.send_history@)
    }

    /// Whether `self` and `other` differ at most in their histories.
    pub open spec fn same_but_history(self, other: SessionState) -> bool {
        &&& self.client_id == other.client_id
        &&& self.passkey == other.passkey
        &&& self.next_out_seq == other.next_out_seq
        &&& self.next_in_seq == other.next_in_seq
        &&& self.max_history_size == other.max_history_size
    }

    /// A new session. Numbers start at 1; 0 is left to the handshake.
    pub fn new(client_id: String, passkey: String) -> (r: Self)
        ensures
            r.client_id == client_id,
            r.passkey == passkey,
            r.next_out_seq == 1,
            r.next_in_seq == 1,
            r.history() == Seq::<(u64, Seq<u8>)>::empty(),
            r.max_history_size == 10_000,
    {
        let r = SessionState {
            client_id,
            passkey,
            next_out_seq: 1,
            next_in_seq: 1,
            send_history: VecDeque::new(),
            max_history_size: 10_000,
        };
        assert(r.history() =~= Seq::empty());
        r
    }

    /// Records a packet that was sent; where the history then has too many entries its
    /// oldest goes.
    pub fn record_send(&mut self, seq_num: u64, payload: Vec<u8>)
        ensures
            recorded(*old(self), seq_num, payload@, *final(self)),
    {
        self.send_history.push_back((seq_num, payload));
        assert(self.history() =~= old(self).history().push((seq_num, payload@)));
        limit(&mut self.send_history, self.max_history_size);
    }

    /// Drops what the peer has acknowledged.
    pub fn acknowledge_up_to(&mut self, ack_seq: u64)
        ensures
            acknowledged(*old(self), ack_seq, *final(self)),
    {
        acknowledge(&mut self.send_history, ack_seq);
    }

    /// What is to be replayed to a peer that has received up to `peer_last_received`.
    pub fn get_replay_packets(&self, peer_last_received: u64) -> (r: Vec<(u64, Vec<u8>)>)
        ensures
            entries(r@) == replay(self.history(), peer_last_received),
    {
        replay_entries(&self.send_history, peer_last_received)
    }
}

/// Nothing goes before the history is full: a packet that is recorded while there are fewer
/// than the history holds is added to all that was there; a full history loses its oldest
/// entry for it, and no other.
pub proof fn law_recorded(before: SessionState, seq_num: u64, payload: Seq<u8>, after: SessionState)
    requires
        recorded(before, seq_num, payload, after),
        before.max_history_size > 0,
    ensures
        before.history().len() < before.max_history_size ==> after.history()
            == before.history().push((seq_num, payload)),
        before.history().len() == before.max_history_size ==> {
            &&& after.history().len() == before.max_history_size
            &&& after.history().last() == (seq_num, payload)
            &&& forall|i: int|
                0 <= i < before.max_history_size - 1 ==> #[trigger] after.history()[i]
                    == before.history()[i + 1]
        },
        after.max_history_size == before.max_history_size,
        after.next_out_seq == before.next_out_seq,
{
    if before.history().len() == before.max_history_size {
        law_full_loses_oldest(
            before.history(),
            (seq_num, payload),
            before.max_history_size as nat,
        );
    }
}

/// An acknowledgement takes exactly what it acknowledges, and what is replayed is exactly what
/// the peer lacks.
pub proof fn law_acknowledged_and_replayed(
    before: SessionState,
    ack: u64,
    after: SessionState,
    last: u64,
    r: Vec<(u64, Vec<u8>)>,
    i: int,
)
    requires
        acknowledged(before, ack, after),
        call_ensures(SessionState::get_replay_packets, (&before, last), r),
        rising(before.history()),
        0 <= i < before.history().len(),
    ensures
        after.history().contains(before.history()[i]) <==> before.history()[i].0 > ack,
        entries(r@).contains(before.history()[i]) <==> before.history()[i].0 > last,
{
    let h = before.history();
    law_ack_takes_exactly(h, ack, i);
    if h[i].0 > last {
        law_replay_complete(h, last, i);
    } else if replay(h, last).contains(h[i]) {
        let j = choose|j: int| 0 <= j < replay(h, last).len() && replay(h, last)[j] == h[i];
        law_replay_only_missing(h, last, j);
    }
}

} // verus!

//! Session state that survives reconnections.
//!
//! A [`SessionState`] lives as long as a logical session, which may span many
//! connections. A connection delivers reliably and in order, so the stream states serve
//! only to replay across connections.
pub mod history;
pub mod stream;

pub use stream::{StreamLifecycle, StreamState};

use std::collections::hash_map::Entry;
use std::collections::HashMap;

use vstd::prelude::*;
use vstd::std_specs::hash::EntrySpecFns;

use crate::protocol::StreamType;
use history::{after_ack, capped, entries, law_ack_keeps_replay, limited, replay};
use stream::{expected_after, MAX_HISTORY_BYTES};

verus! {

/// State of a session.
pub struct SessionState {
    /// The session's identifier, the same across reconnections.
    pub session_id: [u8; 16],
    /// The secret that authenticates a client that reconnects.
    pub passkey: String,
    /// The streams, by number.
    pub streams: HashMap<u32, StreamState>,
}

/// The keys of `m`, in the order in which the map is walked.
pub fn keys_of<V>(m: &HashMap<u32, V>) -> (r: Vec<u32>)
    ensures
        r@.no_duplicates(),
        r@.to_set() == m@.dom(),
{
    broadcast use vstd::std_specs::hash::group_hash_axioms;

    let mut r: Vec<u32> = Vec::new();
    for k in it: m.keys()
        invariant
            r@.len() == it.index(),
            forall|i: int| 0 <= i < r@.len() ==> r@[i] == *(#[trigger] it.seq()[i]),
            it.seq().no_duplicates(),
            it.seq().unref().to_set() == m@.dom(),
            r@.no_duplicates(),
            it.index() == it.seq().len() ==> r@.to_set() == m@.dom(),
    {
        assert(it.seq()[it.index()] == k);
        assert(!r@.contains(*k)) by {
            if r@.contains(*k) {
                let i = choose|i: int| 0 <= i < r@.len() && r@[i] == *k;
                assert(it.seq()[i] == it.seq()[it.index()]);
            }
        }
        r.push(*k);
        assert(it.index() + 1 == it.seq().len() ==> r@ =~= it.seq().unref());
    }
    r
}

/// What has been received on each stream: the number before the next one expected.
pub open spec fn received(streams: Map<u32, StreamState>) -> Map<u32, u64> {
    Map::new(
        |id: u32| streams.contains_key(id) && streams[id].next_in_seq > 0,
        |id: u32| (streams[id].next_in_seq - 1) as u64,
    )
}

/// What a peer has received on stream `id`, going by its map.
pub open spec fn peer_last(peer: Map<u32, u64>, id: u32) -> u64 {
    if peer.contains_key(id) {
        peer[id]
    } else {
        0
    }
}

/// Whether `after` is `before` with the acknowledgements `acks` applied: every stream in
/// `acks` has dropped what was acknowledged, and nothing else has changed.
pub open spec fn acked(
    before: Map<u32, StreamState>,
    after: Map<u32, StreamState>,
    acks: Map<u32, u64>,
) -> bool {
    &&& after.dom() == before.dom()
    &&& forall|id: u32| #[trigger]
        after.contains_key(id) ==> if acks.contains_key(id) {
            &&& after[id].same_but_history(before[id])
            &&& after[id].history() == after_ack(before[id].history(), acks[id])
            &&& before[id].sequenced() ==> after[id].sequenced()
        } else {
            after[id] == before[id]
        }
}

/// Applying a peer's acknowledgements loses nothing that the peer is still to get: what is
/// replayed to it on each stream is the same before and after.
pub proof fn law_acks_lose_nothing(
    before: Map<u32, StreamState>,
    after: Map<u32, StreamState>,
    acks: Map<u32, u64>,
    id: u32,
)
    requires
        acked(before, after, acks),
        before.contains_key(id),
    ensures
        after.contains_key(id),
        replay(after[id].history(), peer_last(acks, id)) == replay(
            before[id].history(),
            peer_last(acks, id),
        ),
{
    assert(before.dom().contains(id));
    assert(after.dom().contains(id));
    if acks.contains_key(id) {
        law_ack_keeps_replay(before[id].history(), acks[id], acks[id]);
    }
}

/// What is replayed on the terminal stream to a peer that has received what `peer` says.
pub open spec fn to_replay(
    streams: Map<u32, StreamState>,
    peer: Map<u32, u64>,
) -> Seq<(u64, Seq<u8>)> {
    if streams.contains_key(0) {
        replay(streams[0].history(), peer_last(peer, 0))
    } else {
        Seq::empty()
    }
}

impl SessionState {
    /// Whether `self` and `other` differ at most in their streams.
    pub open spec fn same_but_streams(self, other: SessionState) -> bool {
        self.session_id == other.session_id && self.passkey == other.passkey
    }

    /// A new session, with stream 0 (the terminal) open.
    pub fn new(session_id: [u8; 16], passkey: String) -> (r: Self)
        ensures
            r.session_id == session_id,
            r.passkey == passkey,
            r.streams@.dom() == set![0u32],
            r.streams@[0].is_new(0, StreamType::Terminal),
            r.has_terminal(),
    {
        broadcast use vstd::std_specs::hash::group_hash_axioms;

        let mut streams: HashMap<u32, StreamState> = HashMap::new();
        streams.insert(0, StreamState::new(0, StreamType::Terminal));
        assert(streams@.dom() =~= set![0u32]);
        SessionState { session_id, passkey, streams }
    }

    /// Opens a stream, unless it is there already, and returns it.
    pub fn open_stream(&mut self, stream_id: u32, stream_type: StreamType) -> (r: &mut StreamState)
        ensures
            if old(self).streams@.contains_key(stream_id) {
                *r == old(self).streams@[stream_id]
            } else {
                r.is_new(stream_id, stream_type)
            },
            final(self).streams@ == old(self).streams@.insert(stream_id, *final(r)),
            final(self).same_but_streams(*old(self)),
    {
        broadcast use vstd::std_specs::hash::group_hash_axioms;

        self.streams.entry(stream_id).or_insert(StreamState::new(stream_id, stream_type))
    }

    /// The stream `stream_id`, if there is one.
    pub fn stream(&self, stream_id: u32) -> (r: Option<&StreamState>)
        ensures
            match r {
                Some(s) => self.streams@.contains_key(stream_id) && *s == self.streams@[stream_id],
                None => !self.streams@.contains_key(stream_id),
            },
    {
        broadcast use vstd::std_specs::hash::group_hash_axioms;

        self.streams.get(&stream_id)
    }

    /// The stream `stream_id`, if there is one, to be changed.
    pub fn stream_mut(&mut self, stream_id: u32) -> (r: Option<&mut StreamState>)
        ensures
            match r {
                Some(s) => {
                    &&& old(self).streams@.contains_key(stream_id)
                    &&& *s == old(self).streams@[stream_id]
                    &&& final(self).streams@ == old(self).streams@.insert(stream_id, *final(s))
                },
                None => {
                    &&& !old(self).streams@.contains_key(stream_id)
                    &&& final(self).streams@ == old(self).streams@
                },
            },
            final(self).same_but_streams(*old(self)),
    {
        broadcast use vstd::std_specs::hash::group_hash_axioms;

        match self.streams.entry(stream_id) {
            Entry::Occupied(e) => Some(e.into_mut()),
            Entry::Vacant(_) => None,
        }
    }

    /// Closes the stream `stream_id`, if there is one.
    pub fn close_stream(&mut self, stream_id: u32)
        ensures
            final(self).same_but_streams(*old(self)),
            final(self).streams@.dom() == old(self).streams@.dom(),
            forall|id: u32| #[trigger]
                final(self).streams@.contains_key(id) ==> final(self).streams@[id] == (if id
                    == stream_id {
                    StreamState { lifecycle: StreamLifecycle::Closed, ..old(self).streams@[id] }
                } else {
                    old(self).streams@[id]
                }),
            old(self).has_terminal() ==> final(self).has_terminal(),
    {
        match self.stream_mut(stream_id) {
            Some(s) => {
                s.lifecycle = StreamLifecycle::Closed;
            },
            None => {},
        }
        assert(self.streams@.dom() =~= old(self).streams@.dom());
    }

    /// The highest number received on each stream, for the peer to replay from. It is 0 on
    /// a stream that has received nothing: replay everything.
    pub fn last_received_map(&self) -> (r: HashMap<u32, u64>)
        ensures
            r@ == received(self.streams@),
    {
        broadcast use vstd::std_specs::hash::group_hash_axioms;

        let ids = keys_of(&self.streams);
        let mut r: HashMap<u32, u64> = HashMap::new();
        for i in 0..ids.len()
            invariant
                ids@.to_set() == self.streams@.dom(),
                forall|id: u32| #[trigger]
                    r@.contains_key(id) <==> ids@.take(i as int).contains(id)
                        && self.streams@[id].next_in_seq > 0,
                forall|id: u32| #[trigger]
                    r@.contains_key(id) ==> r@[id] == self.streams@[id].next_in_seq - 1,
        {
            let id: u32 = ids[i];
            assert(ids@.contains(id));
            assert(self.streams@.dom().contains(id));
            proof {
                lemma_take_contains(ids@, i as int);
            }
            match self.streams.get(&id) {
                Some(s) => {
                    if s.next_in_seq > 0 {
                        r.insert(id, s.next_in_seq - 1);
                    }
                },
                None => {},
            }
        }
        proof {
            assert(ids@.take(ids@.len() as int) =~= ids@);
            assert forall|id: u32| ids@.contains(id) == self.streams@.contains_key(id) by {
                assert(ids@.to_set().contains(id) == self.streams@.dom().contains(id));
            }
            assert(r@ =~= received(self.streams@));
        }
        r
    }

    /// Applies the peer's acknowledgements: each stream drops what the peer has received.
    pub fn apply_server_acks(&mut self, server_acks: &HashMap<u32, u64>)
        ensures
            final(self).same_but_streams(*old(self)),
            acked(old(self).streams@, final(self).streams@, server_acks@),
            old(self).has_terminal() ==> final(self).has_terminal(),
    {
        broadcast use vstd::std_specs::hash::group_hash_axioms;

        let ids = keys_of(server_acks);
        for i in 0..ids.len()
            invariant
                ids@.no_duplicates(),
                ids@.to_set() == server_acks@.dom(),
                self.same_but_streams(*old(self)),
                self.streams@.dom() == old(self).streams@.dom(),
                forall|id: u32| #[trigger]
                    self.streams@.contains_key(id) ==> {
                        let before = old(self).streams@[id];
                        let after = self.streams@[id];
                        if ids@.take(i as int).contains(id) {
                            &&& after.same_but_history(before)
                            &&& after.history() == after_ack(before.history(), server_acks@[id])
                            &&& before.sequenced() ==> after.sequenced()
                        } else {
                            after == before
                        }
                    },
        {
            let id: u32 = ids[i];
            let ghost streams = self.streams@;
            assert(ids@.contains(id));
            assert(server_acks@.dom().contains(id));
            proof {
                lemma_take_contains(ids@, i as int);
                if ids@.take(i as int).contains(id) {
                    let j = choose|j: int| 0 <= j < i && ids@.take(i as int)[j] == id;
                    assert(ids@[j] == ids@[i as int]);
                }
            }
            let ack: u64 = match server_acks.get(&id) {
                Some(a) => *a,
                None => 0,
            };
            match self.stream_mut(id) {
                Some(s) => {
                    s.acknowledge_up_to(ack);
                },
                None => {},
            }
            assert(self.streams@.dom() =~= streams.dom());
        }
        proof {
            assert(ids@.take(ids@.len() as int) =~= ids@);
            assert forall|id: u32| ids@.contains(id) == server_acks@.contains_key(id) by {
                assert(ids@.to_set().contains(id) == server_acks@.dom().contains(id));
            }
        }
    }

    /// Whether there is a terminal stream, whose payloads are numbered one after the other.
    pub open spec fn has_terminal(self) -> bool {
        self.streams@.contains_key(0) && self.streams@[0].sequenced()
    }

    /// Numbers and records bytes of the terminal that are about to be sent.
    pub fn send_terminal(&mut self, payload: &[u8]) -> (r: u64)
        requires
            old(self).has_terminal(),
            old(self).streams@[0].next_out_seq < u64::MAX,
        ensures
            final(self).same_but_streams(*old(self)),
            final(self).has_terminal(),
            r == old(self).streams@[0].next_out_seq,
            stream::sent(old(self).streams@[0], payload@, final(self).streams@[0]),
            final(self).streams@ == old(self).streams@.insert(0, final(self).streams@[0]),
            final(self).streams@[0].same_but_history(
                StreamState { next_out_seq: (r + 1) as u64, ..old(self).streams@[0] },
            ),
            final(self).streams@[0].history() == capped(
                limited(
                    old(self).streams@[0].history().push((r, payload@)),
                    old(self).streams@[0].max_history as nat,
                ),
                MAX_HISTORY_BYTES as nat,
            ),
    {
        match self.stream_mut(0) {
            Some(s) => s.send(payload),
            None => 0,
        }
    }

    /// Notes that the bytes `seq` of the terminal were received.
    pub fn terminal_received(&mut self, seq: u64)
        requires
            seq < u64::MAX,
        ensures
            final(self).same_but_streams(*old(self)),
            if old(self).streams@.contains_key(0) {
                let s = old(self).streams@[0];
                final(self).streams@ == old(self).streams@.insert(
                    0,
                    StreamState {
                        next_in_seq: expected_after(s.next_in_seq, seq),
                        ..s
                    },
                )
            } else {
                final(self).streams@ == old(self).streams@
            },
            old(self).has_terminal() ==> final(self).has_terminal(),
    {
        match self.stream_mut(0) {
            Some(s) => {
                s.note_received(seq);
            },
            None => {},
        }
    }

    /// Takes the peer's acknowledgements at the start of a connection, and returns what is to
    /// be replayed on the terminal stream.
    pub fn resume(&mut self, peer_last_received: &HashMap<u32, u64>) -> (r: Vec<(u64, Vec<u8>)>)
        ensures
            final(self).same_but_streams(*old(self)),
            acked(old(self).streams@, final(self).streams@, peer_last_received@),
            old(self).has_terminal() ==> final(self).has_terminal(),
            entries(r@) == to_replay(old(self).streams@, peer_last_received@),
    {
        broadcast use vstd::std_specs::hash::group_hash_axioms;

        self.apply_server_acks(peer_last_received);
        let mut replays = self.collect_replays(peer_last_received);
        proof {
            if old(self).streams@.contains_key(0) {
                assert(self.streams@.contains_key(0));
                law_acks_lose_nothing(
                    old(self).streams@,
                    self.streams@,
                    peer_last_received@,
                    0,
                );
            }
        }
        match replays.remove(&0) {
            Some(v) => v,
            None => {
                let v: Vec<(u64, Vec<u8>)> = Vec::new();
                assert(entries(v@) =~= Seq::empty());
                proof {
                    if old(self).streams@.contains_key(0) {
                        assert(!replays@.contains_key(0));
                        assert(replay(
                            self.streams@[0].history(),
                            peer_last(peer_last_received@, 0),
                        ) =~= Seq::empty());
                    }
                }
                v
            },
        }
    }

    /// What is to be replayed on each stream to a peer that has received what
    /// `peer_last_received` says; streams without anything to replay are left out.
    pub fn collect_replays(&self, peer_last_received: &HashMap<u32, u64>) -> (r: HashMap<
        u32,
        Vec<(u64, Vec<u8>)>,
    >)
        ensures
            forall|id: u32| #[trigger]
                r@.contains_key(id) <==> self.streams@.contains_key(id) && replay(
                    self.streams@[id].history(),
                    peer_last(peer_last_received@, id),
                ).len() > 0,
            forall|id: u32| #[trigger]
                r@.contains_key(id) ==> entries(r@[id]@) == replay(
                    self.streams@[id].history(),
                    peer_last(peer_last_received@, id),
                ),
    {
        broadcast use vstd::std_specs::hash::group_hash_axioms;

        let ids = keys_of(&self.streams);
        let mut r: HashMap<u32, Vec<(u64, Vec<u8>)>> = HashMap::new();
        for i in 0..ids.len()
            invariant
                ids@.to_set() == self.streams@.dom(),
                forall|id: u32| #[trigger]
                    r@.contains_key(id) <==> ids@.take(i as int).contains(id) && replay(
                        self.streams@[id].history(),
                        peer_last(peer_last_received@, id),
                    ).len() > 0,
                forall|id: u32| #[trigger]
                    r@.contains_key(id) ==> entries(r@[id]@) == replay(
                        self.streams@[id].history(),
                        peer_last(peer_last_received@, id),
                    ),
        {
            let id: u32 = ids[i];
            assert(ids@.contains(id));
            assert(self.streams@.dom().contains(id));
            proof {
                lemma_take_contains(ids@, i as int);
            }
            let last: u64 = match peer_last_received.get(&id) {
                Some(l) => *l,
                None => 0,
            };
            match self.streams.get(&id) {
                Some(s) => {
                    let replays = s.replay_from(last);
                    if replays.len() > 0 {
                        r.insert(id, replays);
                    }
                },
                None => {},
            }
        }
        proof {
            assert(ids@.take(ids@.len() as int) =~= ids@);
            assert forall|id: u32| ids@.contains(id) == self.streams@.contains_key(id) by {
                assert(ids@.to_set().contains(id) == self.streams@.dom().contains(id));
            }
        }
        r
    }
}

proof fn lemma_take_contains(s: Seq<u32>, i: int)
    requires
        0 <= i < s.len(),
    ensures
        forall|x: u32| s.take(i + 1).contains(x) <==> s.take(i).contains(x) || x == s[i],
{
    assert(s.take(i + 1) =~= s.take(i).push(s[i]));
    assert forall|x: u32| s.take(i + 1).contains(x) <==> s.take(i).contains(x) || x == s[i] by {
        let a = s.take(i + 1);
        let b = s.take(i);
        if b.contains(x) {
            let k = choose|k: int| 0 <= k < b.len() && b[k] == x;
            assert(a[k] == x);
        }
        if x == s[i] {
            assert(a[i] == x);
        }
        if a.contains(x) {
            let k = choose|k: int| 0 <= k < a.len() && a[k] == x;
            if k < i {
                assert(b[k] == x);
            }
        }
    }
}

/// What is acknowledged is what came: on a new stream on which the payloads 1 to `n` were
/// received, `n`; on one that received nothing, 0; and nothing on streams that are not there.
pub proof fn law_acknowledges_what_came(
    streams: Map<u32, StreamState>,
    id: u32,
    payloads: Seq<(u64, Seq<u8>)>,
)
    requires
        streams.contains_key(id),
        streams[id].next_in_seq == stream::expected_after_all(1, payloads),
        forall|i: int| 0 <= i < payloads.len() ==> (#[trigger] payloads[i]).0 == 1 + i,
        payloads.len() < u64::MAX,
    ensures
        received(streams).contains_key(id),
        received(streams)[id] == payloads.len(),
        forall|other: u32|
            received(streams).contains_key(other) ==> #[trigger] streams.contains_key(other),
{
    stream::lemma_expected_after_run(1, payloads);
}

/// What a peer has received is what it says; a peer that says nothing has received nothing.
pub proof fn law_peer_is_believed(peer: Map<u32, u64>, id: u32, n: u64)
    ensures
        peer_last(peer.insert(id, n), id) == n,
        peer_last(peer.remove(id), id) == 0,
{
}

/// Acknowledgements take exactly what they acknowledge, on the streams that they speak of:
/// there nothing is left that was acknowledged, nothing else goes, and other streams stay as
/// they are.
pub proof fn law_acks_take_exactly(
    before: Map<u32, StreamState>,
    after: Map<u32, StreamState>,
    acks: Map<u32, u64>,
    id: u32,
    i: int,
)
    requires
        acked(before, after, acks),
        before.contains_key(id),
        before[id].sequenced(),
        0 <= i < before[id].history().len(),
    ensures
        acks.contains_key(id) ==> (after[id].history().contains(before[id].history()[i])
            <==> before[id].history()[i].0 > acks[id]),
        !acks.contains_key(id) ==> after[id] == before[id],
        after[id].next_out_seq == before[id].next_out_seq,
        after[id].next_in_seq == before[id].next_in_seq,
{
    assert(after.contains_key(id));
    if acks.contains_key(id) {
        history::law_ack_takes_exactly(before[id].history(), acks[id], i);
    }
}

/// A peer that comes back gets what it missed: the terminal's payloads behind the last that it
/// received, up to the last one sent, each with its number. To a peer that missed nothing
/// nothing is replayed.
pub proof fn law_reconnect_replays(streams: Map<u32, StreamState>, peer: Map<u32, u64>, last: u64)
    requires
        streams.contains_key(0),
        streams[0].sequenced(),
        peer.contains_key(0) ==> peer[0] == last,
        !peer.contains_key(0) ==> last == 0,
        last < streams[0].next_out_seq,
        streams[0].next_out_seq - streams[0].history().len() <= last + 1,
    ensures
        ({
            let r = to_replay(streams, peer);
            let h = streams[0].history();
            &&& r.len() == streams[0].next_out_seq - 1 - last
            &&& r == h.skip(h.len() - r.len())
            &&& forall|i: int| 0 <= i < r.len() ==> (#[trigger] r[i]).0 == last + 1 + i
        }),
{
    stream::law_replay_closes_gap(streams[0], last);
}

/// What is collected for a peer is what each stream has that the peer lacks, and streams that
/// it lacks nothing of are left out.
pub proof fn law_collected_replays(
    session: SessionState,
    peer: HashMap<u32, u64>,
    r: HashMap<u32, Vec<(u64, Vec<u8>)>>,
    id: u32,
    i: int,
)
    requires
        call_ensures(SessionState::collect_replays, (&session, &peer), r),
        session.streams@.contains_key(id),
        0 <= i < session.streams@[id].history().len(),
    ensures
        ({
            let e = session.streams@[id].history()[i];
            let last = if peer@.contains_key(id) {
                peer@[id]
            } else {
                0
            };
            e.0 > last ==> r@.contains_key(id) && entries(r@[id]@).contains(e)
        }),
        r@.contains_key(id) ==> r@[id]@.len() > 0,
        forall|other: u32| #[trigger]
            r@.contains_key(other) ==> session.streams@.contains_key(other),
{
    let h = session.streams@[id].history();
    let last = peer_last(peer@, id);
    if h[i].0 > last {
        history::law_replay_complete(h, last, i);
    }
    if r@.contains_key(id) {
        assert(entries(r@[id]@).len() == r@[id]@.len());
    }
}

/// What a session acknowledges is what its streams received, stream by stream.
pub proof fn law_acknowledged_map(session: SessionState, r: HashMap<u32, u64>, id: u32)
    requires
        call_ensures(SessionState::last_received_map, (&session,), r),
    ensures
        r@.contains_key(id) ==> session.streams@.contains_key(id) && r@[id] + 1
            == session.streams@[id].next_in_seq,
        session.streams@.contains_key(id) && session.streams@[id].next_in_seq > 0
            ==> r@.contains_key(id),
{
}

/// A new session has a terminal stream, open and with nothing sent or received, and no other.
pub proof fn law_new_session(id: [u8; 16], passkey: String, r: SessionState, stream_id: u32)
    requires
        call_ensures(SessionState::new, (id, passkey), r),
    ensures
        r.session_id == id,
        r.passkey == passkey,
        r.streams@.contains_key(stream_id) <==> stream_id == 0,
        r.streams@[0].next_out_seq == 1,
        r.streams@[0].next_in_seq == 1,
        r.streams@[0].history().len() == 0,
        r.streams@[0].max_history == 10_000,
        r.streams@[0].lifecycle == StreamLifecycle::Open,
        r.streams@[0].stream_type == StreamType::Terminal,
{
}

} // verus!

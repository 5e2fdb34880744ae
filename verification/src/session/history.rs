//! What has been sent and not yet acknowledged.
//!
//! A history is a queue of numbered payloads, oldest first.
use std::collections::VecDeque;

use vstd::prelude::*;

use crate::bytes::to_vec;

verus! {

/// The numbers and payloads of a history.
pub open spec fn entries(h: Seq<(u64, Vec<u8>)>) -> Seq<(u64, Seq<u8>)> {
    h.map_values(|e: (u64, Vec<u8>)| (e.0, e.1@))
}

/// The count of payload bytes in a history.
pub open spec fn total_bytes(h: Seq<(u64, Seq<u8>)>) -> nat
    decreases h.len(),
{
    if h.len() == 0 {
        0
    } else {
        total_bytes(h.drop_last()) + h.last().1.len()
    }
}

/// A history without its oldest entry where it has more than `max` entries.
pub open spec fn limited(h: Seq<(u64, Seq<u8>)>, max: nat) -> Seq<(u64, Seq<u8>)> {
    if h.len() > max {
        h.skip(1)
    } else {
        h
    }
}

/// The newest entries of a history, as many as hold at most `cap` bytes together.
pub open spec fn capped(h: Seq<(u64, Seq<u8>)>, cap: nat) -> Seq<(u64, Seq<u8>)>
    decreases h.len(),
{
    if h.len() == 0 || total_bytes(h) <= cap {
        h
    } else {
        capped(h.skip(1), cap)
    }
}

/// A history without the entries at its front that are numbered up to `ack`.
pub open spec fn after_ack(h: Seq<(u64, Seq<u8>)>, ack: u64) -> Seq<(u64, Seq<u8>)>
    decreases h.len(),
{
    if h.len() > 0 && h[0].0 <= ack {
        after_ack(h.skip(1), ack)
    } else {
        h
    }
}

/// The entries of a history that are numbered above `last`, in order.
pub open spec fn replay(h: Seq<(u64, Seq<u8>)>, last: u64) -> Seq<(u64, Seq<u8>)>
    decreases h.len(),
{
    if h.len() == 0 {
        Seq::empty()
    } else if h.last().0 > last {
        replay(h.drop_last(), last).push(h.last())
    } else {
        replay(h.drop_last(), last)
    }
}

/// Drops the oldest entry where there are more than `max`.
pub fn limit(h: &mut VecDeque<(u64, Vec<u8>)>, max: usize)
    ensures
        entries(final(h)@) == limited(entries(old(h)@), max as nat),
{
    if h.len() > max {
        h.pop_front();
        assert(entries(h@) =~= entries(old(h)@).skip(1));
    }
}

/// Drops the oldest entries until the rest holds at most `cap` bytes.
pub fn cap_bytes(h: &mut VecDeque<(u64, Vec<u8>)>, cap: usize)
    ensures
        entries(final(h)@) == capped(entries(old(h)@), cap as nat),
{
    let ghost all = entries(h@);
    let n: usize = h.len();
    let mut keep: usize = 0;
    let mut size: usize = 0;
    assert(all.skip(n as int) =~= Seq::empty());
    // The newest entries that fit.
    while keep < n && h[n - keep - 1].1.len() <= cap - size
        invariant
            keep <= n == h@.len(),
            all == entries(h@),
            size <= cap,
            size == total_bytes(all.skip(n - keep)),
        decreases n - keep,
    {
        proof {
            let rest = all.skip(n - keep - 1);
            assert(rest.skip(1) =~= all.skip(n - keep));
            assert(rest[0] == all[n - keep - 1]);
            lemma_total_first(rest);
        }
        size = size + h[n - keep - 1].1.len();
        keep = keep + 1;
    }
    let mut over: usize = n - keep;
    let ghost cut = over as int;
    proof {
        if cut > 0 {
            let rest = all.skip(cut - 1);
            assert(rest.skip(1) =~= all.skip(cut));
            assert(rest[0] == all[cut - 1]);
            lemma_total_first(rest);
        }
        lemma_capped(all, cut, cap as nat);
        assert(all.skip(0) =~= all);
    }
    while over > 0
        invariant
            cut == n - keep,
            0 <= over <= cut <= n == all.len(),
            entries(h@) == all.skip(cut - over),
        decreases over,
    {
        let ghost before = entries(h@);
        h.pop_front();
        assert(entries(h@) =~= before.skip(1));
        assert(before.skip(1) =~= all.skip(cut - over + 1));
        over = over - 1;
    }
}

proof fn lemma_total_first(h: Seq<(u64, Seq<u8>)>)
    requires
        h.len() > 0,
    ensures
        total_bytes(h) == h[0].1.len() + total_bytes(h.skip(1)),
    decreases h.len(),
{
    if h.len() == 1 {
        assert(h.drop_last() =~= Seq::empty());
        assert(h.skip(1) =~= Seq::empty());
    } else {
        lemma_total_first(h.drop_last());
        assert(h.drop_last().skip(1) =~= h.skip(1).drop_last());
    }
}

/// Where the entries behind `cut` fit and those from the entry before do not, `capped`
/// cuts there.
proof fn lemma_capped(h: Seq<(u64, Seq<u8>)>, cut: int, cap: nat)
    requires
        0 <= cut <= h.len(),
        total_bytes(h.skip(cut)) <= cap,
        cut > 0 ==> total_bytes(h.skip(cut - 1)) > cap,
    ensures
        capped(h, cap) == h.skip(cut),
    decreases h.len(),
{
    if cut == 0 {
        assert(h.skip(0) =~= h);
    } else {
        let rest = h.skip(1);
        assert(rest.skip(cut - 1) =~= h.skip(cut));
        if cut > 1 {
            assert(rest.skip(cut - 2) =~= h.skip(cut - 1));
        }
        lemma_total_suffix(h, cut - 1);
        lemma_capped(rest, cut - 1, cap);
    }
}

proof fn lemma_total_suffix(h: Seq<(u64, Seq<u8>)>, k: int)
    requires
        0 <= k <= h.len(),
    ensures
        total_bytes(h.skip(k)) <= total_bytes(h),
    decreases k,
{
    if k == 0 {
        assert(h.skip(0) =~= h);
    } else {
        lemma_total_suffix(h, k - 1);
        assert(h.skip(k - 1).skip(1) =~= h.skip(k));
        lemma_total_first(h.skip(k - 1));
    }
}

/// Drops the entries at the front that are numbered up to `ack`.
pub fn acknowledge(h: &mut VecDeque<(u64, Vec<u8>)>, ack: u64)
    ensures
        entries(final(h)@) == after_ack(entries(old(h)@), ack),
{
    while h.len() > 0 && h[0].0 <= ack
        invariant
            after_ack(entries(h@), ack) == after_ack(entries(old(h)@), ack),
        decreases h@.len(),
    {
        let ghost before = entries(h@);
        h.pop_front();
        assert(entries(h@) =~= before.skip(1));
    }
}

/// Copies of the entries that are numbered above `last`.
pub fn replay_entries(h: &VecDeque<(u64, Vec<u8>)>, last: u64) -> (r: Vec<(u64, Vec<u8>)>)
    ensures
        entries(r@) == replay(entries(h@), last),
{
    let ghost all = entries(h@);
    let mut r: Vec<(u64, Vec<u8>)> = Vec::new();
    assert(all.take(0) =~= Seq::empty());
    assert(entries(r@) =~= Seq::empty());
    for i in 0..h.len()
        invariant
            all == entries(h@),
            entries(r@) == replay(all.take(i as int), last),
    {
        assert(all.take(i + 1).drop_last() =~= all.take(i as int));
        assert(all.take(i + 1).last() == all[i as int]);
        if h[i].0 > last {
            let ghost before = r@;
            let copy = (h[i].0, to_vec(h[i].1.as_slice()));
            r.push(copy);
            assert(entries(r@) =~= entries(before).push((copy.0, copy.1@)));
        }
    }
    assert(all.take(all.len() as int) =~= all);
    r
}

// ---------------------------------------------------------------------------
// Laws
// ---------------------------------------------------------------------------

/// Acknowledging loses nothing that is yet to be replayed: a peer that has received up to
/// `last`, and acknowledged no more than that, is replayed the same entries before and
/// after its acknowledgement is applied.
pub proof fn law_ack_keeps_replay(h: Seq<(u64, Seq<u8>)>, ack: u64, last: u64)
    requires
        ack <= last,
    ensures
        replay(after_ack(h, ack), last) == replay(h, last),
    decreases h.len(),
{
    if h.len() > 0 && h[0].0 <= ack {
        law_ack_keeps_replay(h.skip(1), ack, last);
        lemma_replay_first(h, last);
    }
}

proof fn lemma_replay_first(h: Seq<(u64, Seq<u8>)>, last: u64)
    requires
        h.len() > 0,
        h[0].0 <= last,
    ensures
        replay(h, last) == replay(h.skip(1), last),
    decreases h.len(),
{
    if h.len() == 1 {
        assert(h.drop_last() =~= Seq::empty());
        assert(h.skip(1) =~= Seq::empty());
    } else {
        lemma_replay_first(h.drop_last(), last);
        assert(h.drop_last().skip(1) =~= h.skip(1).drop_last());
        assert(h.skip(1).last() == h.last());
    }
}

/// Whether the numbers of a history rise.
pub open spec fn rising(h: Seq<(u64, Seq<u8>)>) -> bool {
    forall|i: int, j: int| 0 <= i < j < h.len() ==> (#[trigger] h[i]).0 < (#[trigger] h[j]).0
}

/// In a history with rising numbers an acknowledgement leaves exactly what is still to be
/// replayed: every entry above it, and no other.
pub proof fn law_ack_leaves_replay(h: Seq<(u64, Seq<u8>)>, ack: u64)
    requires
        rising(h),
    ensures
        after_ack(h, ack) == replay(h, ack),
        rising(after_ack(h, ack)),
    decreases h.len(),
{
    if h.len() > 0 && h[0].0 <= ack {
        let rest = h.skip(1);
        assert forall|i: int, j: int| 0 <= i < j < rest.len() implies (#[trigger] rest[i]).0 < (
        #[trigger] rest[j]).0 by {
            assert(rest[i] == h[i + 1] && rest[j] == h[j + 1]);
        }
        law_ack_leaves_replay(rest, ack);
        lemma_replay_first(h, ack);
    } else {
        assert forall|i: int| 0 <= i < h.len() implies (#[trigger] h[i]).0 > ack by {
            if i > 0 {
                assert(h[0].0 < h[i].0);
            }
        }
        lemma_replay_all(h, ack);
    }
}

/// Whether the entries of a history are numbered one after the other, up to the number
/// before `next`.
pub open spec fn numbered(h: Seq<(u64, Seq<u8>)>, next: int) -> bool {
    forall|i: int| 0 <= i < h.len() ==> (#[trigger] h[i]).0 == next - h.len() + i
}

/// The end of a history that is numbered one after the other is numbered so, too.
pub proof fn lemma_numbered_suffix(h: Seq<(u64, Seq<u8>)>, next: int, k: int)
    requires
        numbered(h, next),
        0 <= k <= h.len(),
    ensures
        numbered(h.skip(k), next),
{
    assert forall|i: int| 0 <= i < h.skip(k).len() implies (#[trigger] h.skip(k)[i]).0 == next
        - h.skip(k).len() + i by {
        assert(h.skip(k)[i] == h[i + k]);
    }
}

/// An acknowledgement leaves, of a history that is numbered one after the other, as many
/// entries as there are numbers above it, unless it goes back to before the history.
pub proof fn lemma_numbered_ack(h: Seq<(u64, Seq<u8>)>, next: int, ack: u64)
    requires
        numbered(h, next),
        next - h.len() <= ack + 1 <= next,
    ensures
        numbered(after_ack(h, ack), next),
        after_ack(h, ack).len() == next - 1 - ack,
    decreases h.len(),
{
    if h.len() > 0 && h[0].0 <= ack {
        lemma_numbered_suffix(h, next, 1);
        lemma_numbered_ack(h.skip(1), next, ack);
    }
}

/// What an acknowledgement leaves is the end of the history.
pub proof fn lemma_after_ack_suffix(h: Seq<(u64, Seq<u8>)>, ack: u64)
    ensures
        after_ack(h, ack).len() <= h.len(),
        after_ack(h, ack) == h.skip(h.len() - after_ack(h, ack).len()),
    decreases h.len(),
{
    if h.len() > 0 && h[0].0 <= ack {
        lemma_after_ack_suffix(h.skip(1), ack);
    }
    assert(after_ack(h, ack) =~= h.skip(h.len() - after_ack(h, ack).len()));
}

proof fn lemma_replay_all(h: Seq<(u64, Seq<u8>)>, last: u64)
    requires
        forall|i: int| 0 <= i < h.len() ==> (#[trigger] h[i]).0 > last,
    ensures
        replay(h, last) == h,
    decreases h.len(),
{
    if h.len() > 0 {
        let init = h.drop_last();
        assert forall|i: int| 0 <= i < init.len() implies (#[trigger] init[i]).0 > last by {
            assert(init[i] == h[i]);
        }
        lemma_replay_all(init, last);
        assert(h[h.len() - 1].0 > last);
        assert(init.push(h.last()) =~= h);
    } else {
        assert(h =~= Seq::empty());
    }
}

/// What is replayed is what is numbered above what the peer has, all of it and in order;
/// from a peer that has nothing, everything.
pub proof fn law_replay_complete(h: Seq<(u64, Seq<u8>)>, last: u64, i: int)
    requires
        0 <= i < h.len(),
        h[i].0 > last,
    ensures
        replay(h, last).contains(h[i]),
    decreases h.len(),
{
    let r = replay(h, last);
    if i == h.len() - 1 {
        assert(r[r.len() - 1] == h[i]);
    } else {
        law_replay_complete(h.drop_last(), last, i);
        let q = replay(h.drop_last(), last);
        assert(h.drop_last()[i] == h[i]);
        let k = choose|k: int| 0 <= k < q.len() && q[k] == h[i];
        assert(r[k] == h[i]);
    }
}

/// A history never holds more than its cap.
pub proof fn law_capped_fits(h: Seq<(u64, Seq<u8>)>, cap: nat)
    ensures
        total_bytes(capped(h, cap)) <= cap,
        capped(h, cap).len() <= h.len(),
        capped(h, cap) == h.skip(h.len() - capped(h, cap).len()),
    decreases h.len(),
{
    if h.len() > 0 && total_bytes(h) > cap {
        law_capped_fits(h.skip(1), cap);
        let c = capped(h, cap);
        assert(h.skip(1).skip(h.len() - 1 - c.len()) =~= h.skip(h.len() - c.len()));
    } else {
        assert(h.skip(0) =~= h);
    }
}

/// A history counts the bytes of every payload, and of nothing else.
pub proof fn law_bytes_add_up(h: Seq<(u64, Seq<u8>)>, e: (u64, Seq<u8>))
    ensures
        total_bytes(Seq::empty()) == 0,
        total_bytes(h.push(e)) == total_bytes(h) + e.1.len(),
{
    assert(h.push(e).drop_last() =~= h);
}

/// Nothing goes before the history is full: where one entry more is within the count and its
/// bytes are within the cap, the history grows by that entry and loses none.
pub proof fn law_nothing_goes_before_full(
    h: Seq<(u64, Seq<u8>)>,
    e: (u64, Seq<u8>),
    max: nat,
    cap: nat,
)
    requires
        h.len() + 1 <= max,
        total_bytes(h) + e.1.len() <= cap,
    ensures
        limited(h.push(e), max) == h.push(e),
        capped(limited(h.push(e), max), cap) == h.push(e),
{
    law_bytes_add_up(h, e);
}

/// A full history loses its oldest entry for a new one, and no other: it then holds as many
/// as it may, ending with the new one.
pub proof fn law_full_loses_oldest(h: Seq<(u64, Seq<u8>)>, e: (u64, Seq<u8>), max: nat)
    requires
        h.len() == max,
        max > 0,
    ensures
        limited(h.push(e), max).len() == max,
        limited(h.push(e), max).last() == e,
        forall|i: int| 0 <= i < max - 1 ==> #[trigger] limited(h.push(e), max)[i] == h[i + 1],
{
}

/// The cap takes no more than it must: what is kept is the end of the history, and with the
/// entry before it the bytes would be too many.
pub proof fn law_cap_takes_no_more(h: Seq<(u64, Seq<u8>)>, cap: nat)
    ensures
        ({
            let kept = capped(h, cap);
            &&& kept == h.skip(h.len() - kept.len())
            &&& kept.len() < h.len() ==> total_bytes(h.skip(h.len() - kept.len() - 1)) > cap
        }),
    decreases h.len(),
{
    law_capped_fits(h, cap);
    if h.len() > 0 && total_bytes(h) > cap {
        let rest = h.skip(1);
        law_cap_takes_no_more(rest, cap);
        let n = capped(h, cap).len();
        if n < rest.len() {
            assert(rest.skip(rest.len() - n - 1) =~= h.skip(h.len() - n - 1));
        } else {
            assert(h.skip(0) =~= h);
        }
    }
}

/// Only what the peer lacks is replayed: every replayed entry is one of the history, with a
/// number above what the peer has.
pub proof fn law_replay_only_missing(h: Seq<(u64, Seq<u8>)>, last: u64, i: int)
    requires
        0 <= i < replay(h, last).len(),
    ensures
        replay(h, last)[i].0 > last,
        h.contains(replay(h, last)[i]),
    decreases h.len(),
{
    let init = h.drop_last();
    let r = replay(h, last);
    if h.last().0 > last && i == r.len() - 1 {
        assert(h[h.len() - 1] == r[i]);
    } else {
        assert(r[i] == replay(init, last)[i]);
        law_replay_only_missing(init, last, i);
        let j = choose|j: int| 0 <= j < init.len() && init[j] == r[i];
        assert(h[j] == r[i]);
    }
}

/// An acknowledgement takes what it acknowledges and nothing else, in a history with rising
/// numbers.
pub proof fn law_ack_takes_exactly(h: Seq<(u64, Seq<u8>)>, ack: u64, i: int)
    requires
        rising(h),
        0 <= i < h.len(),
    ensures
        after_ack(h, ack).contains(h[i]) <==> h[i].0 > ack,
{
    law_ack_leaves_replay(h, ack);
    if h[i].0 > ack {
        law_replay_complete(h, ack, i);
    } else if replay(h, ack).contains(h[i]) {
        let j = choose|j: int| 0 <= j < replay(h, ack).len() && replay(h, ack)[j] == h[i];
        law_replay_only_missing(h, ack, j);
    }
}

} // verus!

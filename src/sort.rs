//! Ordering a batch of received packets by sequence id.
use vstd::prelude::*;

use vstd::seq_lib::to_multiset_len;

use crate::packet::{has_id, ids_ascending, packets_with_id, sequenced, VoicePacket};

verus! {

spec fn id_below(pivot: u32) -> spec_fn(VoicePacket) -> bool {
    |p: VoicePacket| p.id < pivot
}

spec fn id_above(pivot: u32) -> spec_fn(VoicePacket) -> bool {
    |p: VoicePacket| p.id > pivot
}

/// Filtering by `p` and then by a stronger `q` is filtering by `q`.
proof fn lemma_filter_filter<A>(s: Seq<A>, p: spec_fn(A) -> bool, q: spec_fn(A) -> bool)
    requires
        forall|x: A| #[trigger] q(x) ==> p(x),
    ensures
        s.filter(p).filter(q) == s.filter(q),
    decreases s.len(),
{
    if s.len() == 0 {
        reveal(Seq::filter);
        assert(s.filter(p) == s);
    } else {
        let t = s.drop_last();
        let x = s.last();
        lemma_filter_filter(t, p, q);
        assert(s == t.push(x));
        t.lemma_filter_push(x, p);
        t.lemma_filter_push(x, q);
        if p(x) {
            t.filter(p).lemma_filter_push(x, q);
        }
    }
}

/// A filter that no element of `s` passes leaves nothing.
proof fn lemma_filter_none<A>(s: Seq<A>, p: spec_fn(A) -> bool)
    requires
        forall|i: int| 0 <= i < s.len() ==> !p(#[trigger] s[i]),
    ensures
        s.filter(p) == Seq::<A>::empty(),
{
    if s.filter(p).len() > 0 {
        let x = s.filter(p)[0];
        s.lemma_filter_pred(p, 0);
        assert(s.filter(p).contains(x));
        s.lemma_filter_contains_rev(p, x);
    }
    assert(s.filter(p) =~= Seq::<A>::empty());
}

/// Every packet of the filter `p` of `s` passes `p`.
proof fn lemma_filter_passes(s: Seq<VoicePacket>, p: spec_fn(VoicePacket) -> bool)
    ensures
        forall|i: int| 0 <= i < s.filter(p).len() ==> p(#[trigger] s.filter(p)[i]),
{
    assert forall|i: int| 0 <= i < s.filter(p).len() implies p(#[trigger] s.filter(p)[i]) by {
        s.lemma_filter_pred(p, i);
    }
}

/// The three parts of a split around `pivot` hold all of `s` between them.
proof fn lemma_split_len(s: Seq<VoicePacket>, pivot: u32)
    ensures
        s.filter(id_below(pivot)).len() + s.filter(has_id(pivot)).len() + s.filter(
            id_above(pivot),
        ).len() == s.len(),
    decreases s.len(),
{
    if s.len() == 0 {
        reveal(Seq::filter);
    } else {
        let t = s.drop_last();
        let x = s.last();
        lemma_split_len(t, pivot);
        assert(s == t.push(x));
        t.lemma_filter_push(x, id_below(pivot));
        t.lemma_filter_push(x, has_id(pivot));
        t.lemma_filter_push(x, id_above(pivot));
    }
}

/// Each packet of a sequenced list comes from the packets it was made of.
proof fn lemma_sequenced_members(arrived: Seq<VoicePacket>, ordered: Seq<VoicePacket>)
    requires
        sequenced(arrived, ordered),
    ensures
        forall|i: int| 0 <= i < ordered.len() ==> arrived.contains(#[trigger] ordered[i]),
{
    assert forall|i: int| 0 <= i < ordered.len() implies arrived.contains(
        #[trigger] ordered[i],
    ) by {
        let k = ordered[i].id;
        ordered.lemma_filter_contains(has_id(k), i);
        assert(packets_with_id(ordered, k) == packets_with_id(arrived, k));
        arrived.lemma_filter_contains_rev(has_id(k), ordered[i]);
    }
}

/// Each packet occurs in `s` as often as among the packets of `s` with
/// its id.
proof fn lemma_count_with_id(s: Seq<VoicePacket>, x: VoicePacket)
    ensures
        s.to_multiset().count(x) == packets_with_id(s, x.id).to_multiset().count(x),
    decreases s.len(),
{
    broadcast use vstd::seq_lib::to_multiset_build;
    broadcast use vstd::multiset::group_multiset_axioms;

    if s.len() == 0 {
        reveal(Seq::filter);
    } else {
        let t = s.drop_last();
        let l = s.last();
        assert(s == t.push(l));
        lemma_count_with_id(t, x);
        t.lemma_filter_push(l, has_id(x.id));
    }
}

/// Sequencing is a permutation: no packet is dropped or repeated, so
/// packets with equal ids are all kept.
pub proof fn lemma_sequenced_permutes(arrived: Seq<VoicePacket>, ordered: Seq<VoicePacket>)
    requires
        sequenced(arrived, ordered),
    ensures
        ordered.to_multiset() == arrived.to_multiset(),
        ordered.len() == arrived.len(),
{
    assert forall|x: VoicePacket| #[trigger] ordered.to_multiset().count(x)
        == arrived.to_multiset().count(x) by {
        lemma_count_with_id(ordered, x);
        lemma_count_with_id(arrived, x);
        assert(packets_with_id(ordered, x.id) == packets_with_id(arrived, x.id));
    }
    assert(ordered.to_multiset() =~= arrived.to_multiset());
    to_multiset_len(ordered);
    to_multiset_len(arrived);
}

/// Splits `packets` into those with an id below, equal to and above
/// `pivot`, each part in the order of `packets`.
fn split_around(packets: Vec<VoicePacket>, pivot: u32) -> (r: (
    Vec<VoicePacket>,
    Vec<VoicePacket>,
    Vec<VoicePacket>,
))
    ensures
        r.0@ == packets@.filter(id_below(pivot)),
        r.1@ == packets@.filter(has_id(pivot)),
        r.2@ == packets@.filter(id_above(pivot)),
{
    let ghost s = packets@;
    let ghost n = s.len();
    let mut rest = packets;
    let mut reversed: Vec<VoicePacket> = Vec::new();
    while rest.len() > 0
        invariant
            n == s.len(),
            rest@.len() + reversed@.len() == n,
            rest@ == s.take(rest@.len() as int),
            forall|j: int| 0 <= j < reversed@.len() ==> #[trigger] reversed@[j] == s[n - 1 - j],
        decreases rest.len(),
    {
        let p = rest.pop().unwrap();
        assert(rest@ == s.take(rest@.len() as int));
        assert(p == s[n - 1 - reversed@.len()]);
        reversed.push(p);
    }
    let mut below: Vec<VoicePacket> = Vec::new();
    let mut same: Vec<VoicePacket> = Vec::new();
    let mut above: Vec<VoicePacket> = Vec::new();
    proof {
        reveal(Seq::filter);
        assert(s.take(0) == Seq::<VoicePacket>::empty());
    }
    while reversed.len() > 0
        invariant
            n == s.len(),
            reversed@.len() <= n,
            forall|j: int| 0 <= j < reversed@.len() ==> #[trigger] reversed@[j] == s[n - 1 - j],
            below@ == s.take(n - reversed@.len()).filter(id_below(pivot)),
            same@ == s.take(n - reversed@.len()).filter(has_id(pivot)),
            above@ == s.take(n - reversed@.len()).filter(id_above(pivot)),
        decreases reversed.len(),
    {
        let ghost i = n - reversed@.len();
        let ghost last = reversed@.len() - 1;
        assert(reversed@[last] == s[i]);
        let p = reversed.pop().unwrap();
        proof {
            let t = s.take(i);
            assert(s.take(i + 1) =~= t.push(p));
            t.lemma_filter_push(p, id_below(pivot));
            t.lemma_filter_push(p, has_id(pivot));
            t.lemma_filter_push(p, id_above(pivot));
        }
        if p.id < pivot {
            below.push(p);
        } else if p.id == pivot {
            same.push(p);
        } else {
            above.push(p);
        }
    }
    assert(s.take(n as int) == s);
    (below, same, above)
}

/// Sorts packets by ascending sequence id; packets with equal ids keep
/// their arrival order and none is dropped. Partitions around the id of
/// the last packet, then sorts the parts below and above it.
pub fn quick_sort(voice_packets: Vec<VoicePacket>) -> (r: Vec<VoicePacket>)
    ensures
        sequenced(voice_packets@, r@),
    decreases voice_packets@.len(),
{
    let ghost s = voice_packets@;
    let n = voice_packets.len();
    if n <= 1 {
        return voice_packets;
    }
    let pivot = voice_packets[n - 1].id;
    let (below, mut same, above) = split_around(voice_packets, pivot);
    proof {
        lemma_split_len(s, pivot);
        s.lemma_filter_contains(has_id(pivot), n - 1);
    }
    let ghost lo = below@;
    let ghost mid = same@;
    let ghost hi = above@;
    let mut sorted = quick_sort(below);
    let mut upper = quick_sort(above);
    let ghost sl = sorted@;
    let ghost su = upper@;
    sorted.append(&mut same);
    sorted.append(&mut upper);
    proof {
        let r = sorted@;
        assert(r == sl + mid + su);
        lemma_sequenced_members(lo, sl);
        lemma_sequenced_members(hi, su);
        lemma_filter_passes(s, id_below(pivot));
        lemma_filter_passes(s, has_id(pivot));
        lemma_filter_passes(s, id_above(pivot));
        assert forall|i: int| 0 <= i < sl.len() implies #[trigger] sl[i].id < pivot by {
            assert(lo.contains(sl[i]));
            let j = choose|j: int| 0 <= j < lo.len() && lo[j] == sl[i];
        }
        assert forall|i: int| 0 <= i < su.len() implies #[trigger] su[i].id > pivot by {
            assert(hi.contains(su[i]));
            let j = choose|j: int| 0 <= j < hi.len() && hi[j] == su[i];
        }
        assert forall|i: int, j: int| 0 <= i < j < r.len() implies r[i].id <= r[j].id by {
            if j < sl.len() {
                assert(r[i] == sl[i] && r[j] == sl[j]);
            } else if i >= sl.len() + mid.len() {
                assert(r[i] == su[i - sl.len() - mid.len()]);
                assert(r[j] == su[j - sl.len() - mid.len()]);
            } else {
                if i < sl.len() {
                    assert(r[i] == sl[i]);
                } else {
                    assert(r[i] == mid[i - sl.len()]);
                }
                if j < sl.len() + mid.len() {
                    assert(r[j] == mid[j - sl.len()]);
                } else {
                    assert(r[j] == su[j - sl.len() - mid.len()]);
                }
            }
        }
        assert forall|k: u32| #[trigger] packets_with_id(r, k) == packets_with_id(s, k) by {
            let q = has_id(k);
            Seq::filter_distributes_over_add(sl + mid, su, q);
            Seq::filter_distributes_over_add(sl, mid, q);
            assert(packets_with_id(sl, k) == packets_with_id(lo, k));
            assert(packets_with_id(su, k) == packets_with_id(hi, k));
            if k < pivot {
                lemma_filter_filter(s, id_below(pivot), q);
                lemma_filter_none(mid, q);
                lemma_filter_none(su, q);
            } else if k == pivot {
                lemma_filter_filter(s, has_id(pivot), q);
                lemma_filter_none(sl, q);
                lemma_filter_none(su, q);
            } else {
                lemma_filter_filter(s, id_above(pivot), q);
                lemma_filter_none(sl, q);
                lemma_filter_none(mid, q);
            }
        }
    }
    sorted
}

} // verus!

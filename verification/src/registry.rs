//! The registry of Atlas peers that discovery has heard from, keyed by
//! device ID.

use vstd::prelude::*;

use crate::clock::unix_time_secs;
use crate::ip::SocketAddress;
use crate::text::str_eq;

verus! {

broadcast use vstd::seq_lib::group_filter_ensures;

/// An Atlas device heard on the discovery channel.
#[derive(Clone, Debug)]
pub struct Peer {
    pub id: String,
    pub name: String,
    pub address: SocketAddress,
    /// Seconds since the Unix epoch when it was last heard from.
    pub last_seen: u64,
}

/// What the registry records of a peer besides its ID: its name, address
/// and the time it was last heard from.
pub type PeerRecord = (Seq<char>, SocketAddress, u64);

/// The record of a peer.
pub open spec fn record_of(p: Peer) -> PeerRecord {
    (p.name@, p.address, p.last_seen)
}

/// No device ID occurs twice.
pub open spec fn unique_ids(s: Seq<Peer>) -> bool {
    forall|i: int, j: int| 0 <= i < j < s.len() ==> s[i].id@ != s[j].id@
}

/// Whether some peer has device ID `id`.
pub open spec fn has_id(s: Seq<Peer>, id: Seq<char>) -> bool {
    exists|i: int| 0 <= i < s.len() && s[i].id@ == id
}

/// The peers as a map from device ID to record.
pub open spec fn peers_map(s: Seq<Peer>) -> Map<Seq<char>, PeerRecord> {
    Map::new(
        |id: Seq<char>| has_id(s, id),
        |id: Seq<char>| record_of(s[choose|i: int| 0 <= i < s.len() && s[i].id@ == id]),
    )
}

proof fn lemma_peers_map_entry(s: Seq<Peer>, i: int)
    requires
        unique_ids(s),
        0 <= i < s.len(),
    ensures
        peers_map(s).contains_key(s[i].id@),
        peers_map(s)[s[i].id@] == record_of(s[i]),
{
    let id = s[i].id@;
    assert(has_id(s, id));
    let k = choose|k: int| 0 <= k < s.len() && s[k].id@ == id;
    assert(k == i);
}

/// Whether a peer last heard from at `last_seen` is still fresh at `now`:
/// no more than `ttl_secs` seconds have passed (none, if `last_seen` lies
/// in the future).
pub open spec fn is_fresh(last_seen: u64, now: u64, ttl_secs: u64) -> bool {
    (if now >= last_seen { now - last_seen } else { 0 }) <= ttl_secs
}

/// A registry with only the peers that are fresh at `now`.
pub open spec fn spec_prune(m: Map<Seq<char>, PeerRecord>, now: u64, ttl_secs: u64) -> Map<
    Seq<char>,
    PeerRecord,
> {
    Map::new(|id: Seq<char>| m.contains_key(id) && is_fresh(m[id].2, now, ttl_secs), |id: Seq<char>| m[id])
}

/// Every element a filter keeps comes from the filtered sequence.
proof fn lemma_filter_from(s: Seq<Peer>, pred: spec_fn(Peer) -> bool, i: int)
    requires
        0 <= i < s.filter(pred).len(),
    ensures
        exists|j: int| 0 <= j < s.len() && s[j] == s.filter(pred)[i],
    decreases s.len(),
{
    reveal(Seq::filter);
    let rest = s.drop_last().filter(pred);
    if i < rest.len() {
        lemma_filter_from(s.drop_last(), pred, i);
        let j = choose|j: int| 0 <= j < s.drop_last().len() && s.drop_last()[j] == rest[i];
        assert(s[j] == s.filter(pred)[i]);
    } else {
        assert(s[s.len() - 1] == s.filter(pred)[i]);
    }
}

/// Filtering keeps device IDs unique.
proof fn lemma_filter_unique(s: Seq<Peer>, pred: spec_fn(Peer) -> bool)
    requires
        unique_ids(s),
    ensures
        unique_ids(s.filter(pred)),
    decreases s.len(),
{
    reveal(Seq::filter);
    if s.len() > 0 {
        lemma_filter_unique(s.drop_last(), pred);
        let rest = s.drop_last().filter(pred);
        if pred(s.last()) {
            assert forall|i: int| 0 <= i < rest.len() implies rest[i].id@ != s.last().id@ by {
                lemma_filter_from(s.drop_last(), pred, i);
            }
        }
    }
}

/// The peers that discovery has heard from, one per device ID.
///
/// The peers are held in a vector kept free of duplicate IDs (the type
/// invariant), not in a `HashMap` keyed by ID: vstd specifies `HashMap`
/// only for key types it knows to hash and compare deterministically (the
/// primitive integers, `bool` and boxes of them), and a `String` key is not
/// among them; without that, no operation on such a map carries a
/// contract, and stating it for `String` would be an unproved assumption.
pub struct PeerRegistry {
    peers: Vec<Peer>,
}

impl View for PeerRegistry {
    type V = Map<Seq<char>, PeerRecord>;

    closed spec fn view(&self) -> Self::V {
        peers_map(self.peers@)
    }
}

impl PeerRegistry {
    #[verifier::type_invariant]
    spec fn inv(self) -> bool {
        unique_ids(self.peers@)
    }

    /// An empty registry.
    pub fn new() -> (r: PeerRegistry)
        ensures
            r@ == Map::<Seq<char>, PeerRecord>::empty(),
    {
        let r = PeerRegistry { peers: Vec::new() };
        assert(r@ =~= Map::<Seq<char>, PeerRecord>::empty());
        r
    }

    /// Records `peer`, replacing what was recorded for its device ID.
    pub fn update(&mut self, peer: Peer)
        ensures
            final(self)@ == old(self)@.insert(peer.id@, record_of(peer)),
            final(self)@.len() == if old(self)@.contains_key(peer.id@) {
                old(self)@.len()
            } else {
                old(self)@.len() + 1
            },
    {
        proof {
            use_type_invariant(&*self);
            self.lemma_len();
        }
        let ghost old_map = self@;
        let ghost before = self.peers@;
        let ghost id = peer.id@;
        let ghost rec = record_of(peer);
        let mut k: usize = 0;
        while k < self.peers.len()
            invariant
                self.peers@ == before,
                unique_ids(before),
                k <= before.len(),
                forall|j: int| 0 <= j < k ==> before[j].id@ != id,
                peer.id@ == id,
            ensures
                self.peers@ == before,
                k <= before.len(),
                forall|j: int| 0 <= j < k ==> before[j].id@ != id,
                k < before.len() ==> before[k as int].id@ == id,
            decreases self.peers.len() - k,
        {
            if self.peers[k].id == peer.id {
                break;
            }
            k = k + 1;
        }
        let mut peers = Vec::new();
        std::mem::swap(&mut peers, &mut self.peers);
        if k < peers.len() {
            peers.set(k, peer);
            let ghost after = peers@;
            assert forall|m: int| 0 <= m < after.len() implies #[trigger] after[m].id@
                == before[m].id@ by {}
            assert(unique_ids(after)) by {
                assert forall|i: int, j: int| 0 <= i < j < after.len() implies after[i].id@
                    != after[j].id@ by {
                    assert(before[i].id@ != before[j].id@);
                }
            }
            assert forall|x: Seq<char>| #[trigger] peers_map(after).contains_key(x)
                <==> peers_map(before).insert(id, rec).contains_key(x) by {
                if has_id(after, x) {
                    let i = choose|i: int| 0 <= i < after.len() && after[i].id@ == x;
                    assert(before[i].id@ == x);
                }
                if has_id(before, x) {
                    let i = choose|i: int| 0 <= i < before.len() && before[i].id@ == x;
                    assert(after[i].id@ == x);
                }
                if x == id {
                    assert(after[k as int].id@ == id);
                }
            }
            assert forall|x: Seq<char>| #[trigger] peers_map(after).contains_key(x)
                implies peers_map(after)[x] == peers_map(before).insert(id, rec)[x] by {
                let i = choose|i: int| 0 <= i < after.len() && after[i].id@ == x;
                lemma_peers_map_entry(after, i);
                if x != id {
                    lemma_peers_map_entry(before, i);
                }
            }
            assert(peers_map(after) =~= peers_map(before).insert(id, rec));
        } else {
            peers.push(peer);
            let ghost after = peers@;
            assert(unique_ids(after)) by {
                assert forall|i: int, j: int| 0 <= i < j < after.len() implies after[i].id@
                    != after[j].id@ by {
                    if j < before.len() {
                        assert(before[i].id@ != before[j].id@);
                    }
                }
            }
            assert forall|x: Seq<char>| #[trigger] peers_map(after).contains_key(x)
                <==> peers_map(before).insert(id, rec).contains_key(x) by {
                if has_id(after, x) && x != id {
                    let i = choose|i: int| 0 <= i < after.len() && after[i].id@ == x;
                    assert(before[i].id@ == x);
                }
                if has_id(before, x) {
                    let i = choose|i: int| 0 <= i < before.len() && before[i].id@ == x;
                    assert(after[i].id@ == x);
                }
                if x == id {
                    assert(after[before.len() as int].id@ == id);
                }
            }
            assert forall|x: Seq<char>| #[trigger] peers_map(after).contains_key(x)
                implies peers_map(after)[x] == peers_map(before).insert(id, rec)[x] by {
                let i = choose|i: int| 0 <= i < after.len() && after[i].id@ == x;
                lemma_peers_map_entry(after, i);
                if i < before.len() {
                    lemma_peers_map_entry(before, i);
                }
            }
            assert(peers_map(after) =~= peers_map(before).insert(id, rec));
        }
        self.peers = peers;
        proof {
            if old_map.contains_key(id) {
                assert(old_map.insert(id, rec).dom() =~= old_map.dom());
            }
        }
    }

    /// Forgets the peer with device ID `id`, if there is one.
    pub fn remove(&mut self, id: &str)
        ensures
            final(self)@ == old(self)@.remove(id@),
            final(self)@.len() == if old(self)@.contains_key(id@) {
                old(self)@.len() - 1
            } else {
                old(self)@.len() as int
            },
    {
        proof {
            use_type_invariant(&*self);
            self.lemma_len();
        }
        let ghost before = self.peers@;
        let mut k: usize = 0;
        while k < self.peers.len()
            invariant
                self.peers@ == before,
                k <= before.len(),
                forall|j: int| 0 <= j < k ==> before[j].id@ != id@,
            ensures
                self.peers@ == before,
                k <= before.len(),
                forall|j: int| 0 <= j < k ==> before[j].id@ != id@,
                k < before.len() ==> before[k as int].id@ == id@,
            decreases self.peers.len() - k,
        {
            if str_eq(self.peers[k].id.as_str(), id) {
                break;
            }
            k = k + 1;
        }
        if k < self.peers.len() {
            let mut peers = Vec::new();
            std::mem::swap(&mut peers, &mut self.peers);
            let _gone = peers.remove(k);
            let ghost after = peers@;
            assert forall|m: int| 0 <= m < after.len() implies #[trigger] after[m] == (if m < k {
                before[m]
            } else {
                before[m + 1]
            }) by {}
            assert(unique_ids(after)) by {
                assert forall|i: int, j: int| 0 <= i < j < after.len() implies after[i].id@
                    != after[j].id@ by {
                    let bi = if i < k { i } else { i + 1 };
                    let bj = if j < k { j } else { j + 1 };
                    assert(after[i] == before[bi]);
                    assert(after[j] == before[bj]);
                    assert(before[bi].id@ != before[bj].id@);
                }
            }
            assert forall|x: Seq<char>| #[trigger] peers_map(after).contains_key(x)
                <==> peers_map(before).remove(id@).contains_key(x) by {
                if has_id(after, x) {
                    let i = choose|i: int| 0 <= i < after.len() && after[i].id@ == x;
                    let bi = if i < k { i } else { i + 1 };
                    assert(before[bi].id@ == x);
                    assert(before[bi].id@ != before[k as int].id@ || bi == k);
                }
                if has_id(before, x) && x != id@ {
                    let i = choose|i: int| 0 <= i < before.len() && before[i].id@ == x;
                    assert(i != k);
                    let ai = if i < k { i } else { i - 1 };
                    assert(after[ai].id@ == x);
                }
            }
            assert forall|x: Seq<char>| #[trigger] peers_map(after).contains_key(x)
                implies peers_map(after)[x] == peers_map(before).remove(id@)[x] by {
                let i = choose|i: int| 0 <= i < after.len() && after[i].id@ == x;
                lemma_peers_map_entry(after, i);
                let bi = if i < k { i } else { i + 1 };
                assert(after[i] == before[bi]);
                lemma_peers_map_entry(before, bi);
            }
            assert(peers_map(after) =~= peers_map(before).remove(id@));
            self.peers = peers;
        } else {
            assert forall|x: Seq<char>| #[trigger] peers_map(before).contains_key(x)
                implies x != id@ by {
                let i = choose|i: int| 0 <= i < before.len() && before[i].id@ == x;
            }
            assert(peers_map(before) =~= peers_map(before).remove(id@));
        }
    }

    /// The recorded peers, one per device ID, in no particular order.
    pub fn peers(&self) -> (r: Vec<&Peer>)
        ensures
            r@.len() == self@.len(),
            forall|i: int, j: int| 0 <= i < j < r@.len() ==> r@[i].id@ != r@[j].id@,
            forall|i: int|
                0 <= i < r@.len() ==> self@.contains_key(#[trigger] r@[i].id@) && self@[r@[i].id@]
                    == record_of(*r@[i]),
            forall|id: Seq<char>|
                self@.contains_key(id) ==> exists|i: int| 0 <= i < r@.len() && r@[i].id@ == id,
    {
        proof {
            use_type_invariant(self);
        }
        let mut r: Vec<&Peer> = Vec::new();
        let mut i: usize = 0;
        while i < self.peers.len()
            invariant
                i <= self.peers@.len(),
                r@.len() == i,
                forall|j: int| 0 <= j < i ==> *r@[j] == self.peers@[j],
            decreases self.peers.len() - i,
        {
            r.push(&self.peers[i]);
            i = i + 1;
        }
        proof {
            assert forall|i: int| 0 <= i < r@.len() implies self@.contains_key(
                #[trigger] r@[i].id@,
            ) && self@[r@[i].id@] == record_of(*r@[i]) by {
                lemma_peers_map_entry(self.peers@, i);
            }
            assert forall|id: Seq<char>| self@.contains_key(id) implies exists|i: int|
                0 <= i < r@.len() && r@[i].id@ == id by {
                let i = choose|i: int| 0 <= i < self.peers@.len() && self.peers@[i].id@ == id;
                assert(r@[i].id@ == id);
            }
            self.lemma_len();
        }
        r
    }

    proof fn lemma_len(&self)
        requires
            unique_ids(self.peers@),
        ensures
            self@.len() == self.peers@.len(),
            self@.dom().finite(),
    {
        let ids = self.peers@.map_values(|p: Peer| p.id@);
        assert(ids.no_duplicates());
        ids.unique_seq_to_set();
        assert forall|x: Seq<char>| #[trigger] self@.dom().contains(x) <==> ids.to_set().contains(x) by {
            if self@.dom().contains(x) {
                let i = choose|i: int| 0 <= i < self.peers@.len() && self.peers@[i].id@ == x;
                assert(ids[i] == x);
            }
            if ids.to_set().contains(x) {
                let i = choose|i: int| 0 <= i < ids.len() && ids[i] == x;
                assert(self.peers@[i].id@ == x);
            }
        }
        assert(self@.dom() =~= ids.to_set());
    }

    /// Number of recorded peers.
    pub fn count(&self) -> (r: usize)
        ensures
            r == self@.len(),
    {
        proof {
            use_type_invariant(self);
            self.lemma_len();
        }
        self.peers.len()
    }

    /// Whether a peer with device ID `id` is recorded.
    pub fn contains(&self, id: &str) -> (r: bool)
        ensures
            r == self@.contains_key(id@),
    {
        let mut k: usize = 0;
        while k < self.peers.len()
            invariant
                k <= self.peers@.len(),
                forall|j: int| 0 <= j < k ==> self.peers@[j].id@ != id@,
            decreases self.peers.len() - k,
        {
            if str_eq(self.peers[k].id.as_str(), id) {
                assert(has_id(self.peers@, id@));
                return true;
            }
            k = k + 1;
        }
        false
    }

    /// Drops every peer not heard from within `ttl_secs` seconds of `now`.
    pub fn prune_stale_at(&mut self, now: u64, ttl_secs: u64)
        ensures
            final(self)@ == spec_prune(old(self)@, now, ttl_secs),
    {
        proof {
            use_type_invariant(&*self);
        }
        let ghost orig = self.peers@;
        let ghost keep = |p: Peer| is_fresh(p.last_seen, now, ttl_secs);
        let mut peers = Vec::new();
        std::mem::swap(&mut peers, &mut self.peers);
        let mut i: usize = peers.len();
        assert(orig.skip(orig.len() as int) =~= Seq::<Peer>::empty());
        assert(orig.take(orig.len() as int) =~= orig);
        while i > 0
            invariant
                i <= orig.len(),
                peers@ == orig.take(i as int) + orig.skip(i as int).filter(keep),
                keep == (|p: Peer| is_fresh(p.last_seen, now, ttl_secs)),
            decreases i,
        {
            let fresh = now.saturating_sub(peers[i - 1].last_seen) <= ttl_secs;
            let ghost x = orig[i - 1];
            assert(peers@[i - 1] == x);
            proof {
                assert(orig.skip(i - 1) =~= seq![x] + orig.skip(i as int));
                Seq::filter_distributes_over_add(seq![x], orig.skip(i as int), keep);
                reveal_with_fuel(Seq::filter, 2);
                assert(seq![x].drop_last() =~= Seq::<Peer>::empty());
            }
            if !fresh {
                let _gone = peers.remove(i - 1);
                assert(peers@ =~= orig.take(i - 1) + orig.skip(i - 1).filter(keep));
            } else {
                assert(peers@ =~= orig.take(i - 1) + orig.skip(i - 1).filter(keep));
            }
            i = i - 1;
        }
        assert(orig.take(0) =~= Seq::<Peer>::empty());
        assert(orig.skip(0) =~= orig);
        let ghost after = peers@;
        assert(after =~= orig.filter(keep));
        proof {
            lemma_filter_unique(orig, keep);
            assert forall|x: Seq<char>| #[trigger] peers_map(after).contains_key(x)
                <==> spec_prune(peers_map(orig), now, ttl_secs).contains_key(x) by {
                if has_id(after, x) {
                    let i = choose|i: int| 0 <= i < after.len() && after[i].id@ == x;
                    lemma_filter_from(orig, keep, i);
                    let j = choose|j: int| 0 <= j < orig.len() && orig[j] == after[i];
                    lemma_peers_map_entry(orig, j);
                }
                if spec_prune(peers_map(orig), now, ttl_secs).contains_key(x) {
                    let j = choose|j: int| 0 <= j < orig.len() && orig[j].id@ == x;
                    lemma_peers_map_entry(orig, j);
                    assert(after.contains(orig[j]));
                    let i = choose|i: int| 0 <= i < after.len() && after[i] == orig[j];
                    assert(after[i].id@ == x);
                }
            }
            assert forall|x: Seq<char>| #[trigger] peers_map(after).contains_key(x)
                implies peers_map(after)[x] == spec_prune(peers_map(orig), now, ttl_secs)[x] by {
                let i = choose|i: int| 0 <= i < after.len() && after[i].id@ == x;
                lemma_peers_map_entry(after, i);
                lemma_filter_from(orig, keep, i);
                let j = choose|j: int| 0 <= j < orig.len() && orig[j] == after[i];
                lemma_peers_map_entry(orig, j);
            }
            assert(peers_map(after) =~= spec_prune(peers_map(orig), now, ttl_secs));
        }
        self.peers = peers;
    }

    /// Drops any peer not heard from in `ttl_secs` seconds, by the system
    /// clock. Without this, devices that went offline stay "online"
    /// forever.
    pub fn prune_stale(&mut self, ttl_secs: u64)
        ensures
            exists|now: u64| final(self)@ == spec_prune(old(self)@, now, ttl_secs),
    {
        let now = unix_time_secs();
        self.prune_stale_at(now, ttl_secs);
    }
}

/// After pruning at `now`, a peer last heard from more than `ttl_secs`
/// seconds before is gone, and one heard from at most `ttl_secs` seconds
/// before (or, by a clock that went back, after `now`) is kept with its
/// record, whatever `ttl_secs` is; pruning adds no peer and changes no
/// record, and pruning again at the same time changes nothing.
pub proof fn lemma_prune_keeps_exactly_fresh(
    m: Map<Seq<char>, PeerRecord>,
    now: u64,
    ttl_secs: u64,
    id: Seq<char>,
)
    ensures
        m.contains_key(id) && now >= m[id].2 && now - m[id].2 > ttl_secs ==> !spec_prune(
            m,
            now,
            ttl_secs,
        ).contains_key(id),
        m.contains_key(id) && is_fresh(m[id].2, now, ttl_secs) ==> spec_prune(
            m,
            now,
            ttl_secs,
        ).contains_key(id) && spec_prune(m, now, ttl_secs)[id] == m[id],
        m.contains_key(id) && now < m[id].2 ==> spec_prune(m, now, ttl_secs).contains_key(id)
            && spec_prune(m, now, ttl_secs)[id] == m[id],
        m.contains_key(id) && now >= m[id].2 && now - m[id].2 <= ttl_secs ==> spec_prune(
            m,
            now,
            ttl_secs,
        ).contains_key(id) && spec_prune(m, now, ttl_secs)[id] == m[id],
        spec_prune(m, now, ttl_secs).contains_key(id) ==> m.contains_key(id) && spec_prune(
            m,
            now,
            ttl_secs,
        )[id] == m[id],
        spec_prune(spec_prune(m, now, ttl_secs), now, ttl_secs) == spec_prune(m, now, ttl_secs),
{
    assert(spec_prune(spec_prune(m, now, ttl_secs), now, ttl_secs) =~= spec_prune(m, now, ttl_secs));
}

} // verus!

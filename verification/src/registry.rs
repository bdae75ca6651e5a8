//! The peer registry: who has been heard from, and when last.

use std::collections::HashMap;
use vstd::prelude::*;
use vstd::std_specs::iter::IteratorSpec;
use crate::model::{Info, InfoView, Peer, PeerId, PeerView};

verus! {

/// A peer together with the time of its most recent announce.
#[derive(Debug, PartialEq, Eq)]
pub struct Entry {
    pub peer: Peer,
    pub last_seen: u64,
}

/// What an [`Entry`] says.
pub struct EntryView {
    pub peer: PeerView,
    pub last_seen: u64,
}

impl View for Entry {
    type V = EntryView;

    open spec fn view(&self) -> EntryView {
        EntryView { peer: self.peer@, last_seen: self.last_seen }
    }
}

/// The entry after one more announce at `now`: the same peer, seen no
/// earlier than before.
pub open spec fn refreshed(e: EntryView, now: u64) -> EntryView {
    EntryView { peer: e.peer, last_seen: if now > e.last_seen { now } else { e.last_seen } }
}

/// The registry after an announce of `info` from address `ip` at `now`.
/// A known id keeps the peer and the address it was first seen with.
pub open spec fn after_announce(
    m: Map<u128, EntryView>,
    info: InfoView,
    ip: Seq<char>,
    now: u64,
) -> Map<u128, EntryView> {
    if m.contains_key(info.id) {
        m.insert(info.id, refreshed(m[info.id], now))
    } else {
        m.insert(info.id, EntryView { peer: PeerView { info, ip }, last_seen: now })
    }
}

/// How long ago `last_seen` was, read at `now`; zero if the clock reads
/// earlier than the entry.
pub open spec fn age(now: u64, last_seen: u64) -> int {
    if now > last_seen {
        now - last_seen
    } else {
        0
    }
}

/// Whether the entry has been silent for longer than `timeout`.
pub open spec fn is_stale(e: EntryView, now: u64, timeout: u64) -> bool {
    age(now, e.last_seen) > timeout
}

/// The ids whose entries are stale at `now`.
pub open spec fn stale_ids(m: Map<u128, EntryView>, now: u64, timeout: u64) -> Set<u128> {
    Set::new(|id: u128| m.contains_key(id) && is_stale(m[id], now, timeout))
}

/// The registry without its stale entries; the others are untouched.
pub open spec fn survivors(m: Map<u128, EntryView>, now: u64, timeout: u64) -> Map<
    u128,
    EntryView,
> {
    m.remove_keys(stale_ids(m, now, timeout))
}

/// Every entry is filed under the id that its peer announced.
pub open spec fn keyed_by_id(m: Map<u128, EntryView>) -> bool {
    forall|id: u128| m.contains_key(id) ==> (#[trigger] m[id]).peer.info.id == id
}

/// An announce leaves a registry keyed by id as it found it.
pub proof fn lemma_announce_keeps_keys(
    m: Map<u128, EntryView>,
    info: InfoView,
    ip: Seq<char>,
    now: u64,
)
    requires
        keyed_by_id(m),
    ensures
        keyed_by_id(after_announce(m, info, ip, now)),
{
    let after = after_announce(m, info, ip, now);
    assert forall|id: u128| after.contains_key(id) implies (#[trigger] after[id]).peer.info.id
        == id by {
        if id != info.id {
            assert(after[id] == m[id]);
        }
    }
}

/// An announce removes nobody, touches no entry but the one of the id it
/// names, and never moves a `last_seen` back.
pub proof fn lemma_announce_only_refreshes(
    m: Map<u128, EntryView>,
    info: InfoView,
    ip: Seq<char>,
    now: u64,
    id: u128,
)
    requires
        m.contains_key(id),
    ensures
        after_announce(m, info, ip, now).contains_key(id),
        after_announce(m, info, ip, now)[id].peer == m[id].peer,
        after_announce(m, info, ip, now)[id].last_seen >= m[id].last_seen,
        id != info.id ==> after_announce(m, info, ip, now)[id] == m[id],
        id == info.id ==> after_announce(m, info, ip, now)[id].last_seen >= now,
{
}

/// A peer whose entry is stale at a cycle of the reaper is gone after it
/// and is among the ids that the cycle reports.
pub proof fn lemma_stale_peer_leaves(m: Map<u128, EntryView>, now: u64, timeout: u64, id: u128)
    requires
        m.contains_key(id),
        is_stale(m[id], now, timeout),
    ensures
        !survivors(m, now, timeout).contains_key(id),
        stale_ids(m, now, timeout).contains(id),
{
}

/// A peer that was seen within the timeout survives a cycle of the reaper
/// with its entry unchanged, and the cycle does not report it.
pub proof fn lemma_fresh_peer_survives(m: Map<u128, EntryView>, now: u64, timeout: u64, id: u128)
    requires
        m.contains_key(id),
        !is_stale(m[id], now, timeout),
    ensures
        survivors(m, now, timeout).contains_key(id),
        survivors(m, now, timeout)[id] == m[id],
        !stale_ids(m, now, timeout).contains(id),
{
}

/// The reaper reports only peers that were in the registry, and enters
/// nobody: a `Leave` always follows an earlier `Join` of the same id.
pub proof fn lemma_reaper_only_removes(m: Map<u128, EntryView>, now: u64, timeout: u64)
    ensures
        stale_ids(m, now, timeout).subset_of(m.dom()),
        survivors(m, now, timeout).dom().subset_of(m.dom()),
        keyed_by_id(m) ==> keyed_by_id(survivors(m, now, timeout)),
{
}

/// A peer refreshed at `seen` survives every cycle of the reaper up to
/// `timeout` later.
pub proof fn lemma_refreshed_peer_survives(
    m: Map<u128, EntryView>,
    info: InfoView,
    ip: Seq<char>,
    seen: u64,
    now: u64,
    timeout: u64,
)
    requires
        now <= seen + timeout,
    ensures
        survivors(after_announce(m, info, ip, seen), now, timeout).contains_key(info.id),
{
    let after = after_announce(m, info, ip, seen);
    assert(after.contains_key(info.id));
    assert(after[info.id].last_seen >= seen);
}

/// One more element of a sequence without repeats: it was not among the
/// earlier ones, and the longer prefix holds exactly those and it.
proof fn lemma_take_one_more(s: Seq<u128>, n: int)
    requires
        0 <= n < s.len(),
        s.no_duplicates(),
    ensures
        !s.take(n).contains(s[n]),
        forall|x: u128| #[trigger] s.take(n + 1).contains(x) <==> s.take(n).contains(x) || x == s[n],
{
    let prev = s.take(n);
    let next = s.take(n + 1);
    assert(next =~= prev.push(s[n]));
    assert forall|x: u128| #[trigger] next.contains(x) <==> prev.contains(x) || x == s[n] by {
        if prev.contains(x) {
            let j = choose|j: int| 0 <= j < prev.len() && prev[j] == x;
            assert(next[j] == x);
        }
        if x == s[n] {
            assert(next[n] == x);
        }
    }
}

/// The peers this device currently knows, keyed by their id.
pub struct Registry {
    entries: HashMap<u128, Entry>,
}

impl View for Registry {
    type V = Map<u128, EntryView>;

    closed spec fn view(&self) -> Map<u128, EntryView> {
        model_of(self.entries@)
    }
}

/// The stored entries as the contracts see them.
spec fn model_of(entries: Map<u128, Entry>) -> Map<u128, EntryView> {
    Map::new(|id: u128| entries.contains_key(id), |id: u128| entries[id]@)
}

/// What being keyed by id means for the stored entries themselves.
proof fn lemma_keyed_entries(entries: Map<u128, Entry>)
    ensures
        keyed_by_id(model_of(entries)) <==> forall|id: u128|
            entries.contains_key(id) ==> (#[trigger] entries[id]).peer.info.id == id,
{
    if keyed_by_id(model_of(entries)) {
        assert forall|id: u128| entries.contains_key(id) implies (#[trigger] entries[id]).peer.info.id
            == id by {
            assert(model_of(entries)[id].peer.info.id == id);
        }
    }
}

impl Registry {
    /// Holds of every registry there is: entries are filed under the id of
    /// their peer.
    #[verifier::type_invariant]
    pub open spec fn well_formed(&self) -> bool {
        keyed_by_id(self@)
    }

    /// A registry that knows nobody.
    pub fn new() -> (out: Self)
        ensures
            out@ == Map::<u128, EntryView>::empty(),
    {
        let entries = HashMap::new();
        assert(model_of(entries@) =~= Map::<u128, EntryView>::empty());
        Registry { entries }
    }

    /// Records an announce of `info` that arrived from `ip` at time `now`.
    ///
    /// An id seen for the first time is entered and the new peer is
    /// returned. A known id only has its `last_seen` moved forward; the
    /// stored peer and address stay as they were, and nothing is returned.
    pub fn observe(&mut self, info: Info, ip: String, now: u64) -> (joined: Option<Peer>)
        ensures
            final(self)@ == after_announce(old(self)@, info@, ip@, now),
            keyed_by_id(final(self)@),
            joined is None <==> old(self)@.contains_key(info.id),
            joined matches Some(p) ==> p@ == (PeerView { info: info@, ip: ip@ }),
    {
        proof {
            use_type_invariant(&*self);
        }
        let id = info.id;
        let ghost before = self@;
        let mut entries = HashMap::new();
        core::mem::swap(&mut self.entries, &mut entries);
        let ghost start = entries@;
        let joined = match entries.remove(&id) {
            Some(entry) => {
                let last_seen = if now > entry.last_seen { now } else { entry.last_seen };
                entries.insert(id, Entry { peer: entry.peer, last_seen });
                None
            },
            None => {
                let peer = Peer { info, ip };
                entries.insert(id, Entry { peer: peer.clone(), last_seen: now });
                Some(peer)
            },
        };
        proof {
            lemma_keyed_entries(start);
            lemma_keyed_entries(entries@);
            assert(model_of(entries@) =~= after_announce(before, info@, ip@, now));
        }
        self.entries = entries;
        joined
    }

    /// How many peers are known.
    pub fn len(&self) -> (n: usize)
        ensures
            n == self@.len(),
            self@.dom().finite(),
    {
        assert(self@.dom() =~= self.entries@.dom());
        self.entries.len()
    }

    /// Whether a peer with this id is known.
    pub fn contains(&self, id: PeerId) -> (known: bool)
        ensures
            known == self@.contains_key(id),
    {
        self.entries.contains_key(&id)
    }

    /// The entry filed under `id`, if there is one.
    pub fn get(&self, id: PeerId) -> (found: Option<&Entry>)
        ensures
            found is Some <==> self@.contains_key(id),
            found matches Some(entry) ==> entry@ == self@[id] && entry.peer.info.id == id,
    {
        proof {
            use_type_invariant(self);
            lemma_keyed_entries(self.entries@);
        }
        self.entries.get(&id)
    }

    /// The ids of all known peers, each once, in no particular order.
    pub fn ids(&self) -> (out: Vec<PeerId>)
        ensures
            out@.no_duplicates(),
            out@.to_set() == self@.dom(),
    {
        let mut out: Vec<u128> = Vec::new();
        let ghost all = self.entries.keys().remaining().unref();
        for k in it: self.entries.keys()
            invariant
                it.seq().unref() == all,
                out@ == all.take(it.index()),
        {
            assert(all.take(it.index() + 1) =~= all.take(it.index()).push(*k));
            out.push(*k);
        }
        assert(out@ =~= all);
        assert(out@.to_set() =~= self@.dom());
        assert(out@.no_duplicates()) by {
            assert forall|i: int, j: int| 0 <= i < out@.len() && 0 <= j < out@.len() && i != j implies out@[i] != out@[j] by {
                let r = self.entries.keys().remaining();
                assert(*r[i] == out@[i] && *r[j] == out@[j]);
                assert(r[i] != r[j]);
            }
        }
        out
    }

    /// Removes every entry that has been silent for longer than `timeout`
    /// at time `now`, and returns the ids that were removed, each once.
    /// Entries seen within the timeout are left exactly as they were.
    pub fn evict_stale(&mut self, now: u64, timeout: u64) -> (evicted: Vec<PeerId>)
        ensures
            final(self)@ == survivors(old(self)@, now, timeout),
            keyed_by_id(final(self)@),
            evicted@.no_duplicates(),
            evicted@.to_set() == stale_ids(old(self)@, now, timeout),
            evicted@.len() == stale_ids(old(self)@, now, timeout).len(),
    {
        proof {
            use_type_invariant(&*self);
        }
        let ghost before = self@;
        let ids = self.ids();
        let mut entries = HashMap::new();
        core::mem::swap(&mut self.entries, &mut entries);
        let ghost start = entries@;
        proof {
            lemma_keyed_entries(start);
        }
        let mut evicted: Vec<u128> = Vec::new();
        let mut i: usize = 0;
        while i < ids.len()
            invariant
                0 <= i <= ids@.len(),
                ids@.no_duplicates(),
                ids@.to_set() == start.dom(),
                forall|id: u128|
                    start.contains_key(id) ==> (#[trigger] start[id]).peer.info.id == id,
                forall|id: u128|
                    entries@.contains_key(id) <==> start.contains_key(id) && !(ids@.take(
                        i as int,
                    ).contains(id) && is_stale(start[id]@, now, timeout)),
                forall|id: u128| entries@.contains_key(id) ==> entries@[id] == start[id],
                evicted@.no_duplicates(),
                forall|id: u128|
                    evicted@.contains(id) <==> ids@.take(i as int).contains(id) && is_stale(
                        start[id]@,
                        now,
                        timeout,
                    ),
            decreases ids@.len() - i,
        {
            let id = ids[i];
            proof {
                lemma_take_one_more(ids@, i as int);
                assert(!ids@.take(i as int).contains(id));
                assert(ids@.to_set().contains(id));
            }
            let silent_for = match entries.get(&id) {
                Some(entry) => if now > entry.last_seen {
                    now - entry.last_seen
                } else {
                    0
                },
                None => 0,
            };
            if silent_for > timeout {
                entries.remove(&id);
                let ghost kept = evicted@;
                evicted.push(id);
                proof {
                    assert(!kept.contains(id));
                    assert forall|x: u128| #[trigger]
                        evicted@.contains(x) <==> kept.contains(x) || x == id by {
                        if kept.contains(x) {
                            let j = choose|j: int| 0 <= j < kept.len() && kept[j] == x;
                            assert(evicted@[j] == x);
                        }
                        if x == id {
                            assert(evicted@[kept.len() as int] == x);
                        }
                    }
                }
            }
            i += 1;
        }
        proof {
            assert forall|id: u128| entries@.contains_key(id) implies (#[trigger] entries@[id]).peer.info.id
                == id by {
                assert(entries@[id] == start[id]);
            }
            lemma_keyed_entries(entries@);
            assert(ids@.take(ids@.len() as int) =~= ids@);
            assert(model_of(entries@) =~= survivors(before, now, timeout));
            assert(evicted@.to_set() =~= stale_ids(before, now, timeout));
            evicted@.unique_seq_to_set();
        }
        self.entries = entries;
        evicted
    }
}

} // verus!

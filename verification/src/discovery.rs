//! Discovery: what the listener does with a datagram, and what the reaper
//! does on each of its cycles.

use vstd::prelude::*;
use crate::model::{Event, Info, InfoView, PeerId, PeerView};
use crate::registry::{
    after_announce, keyed_by_id, lemma_announce_keeps_keys, lemma_reaper_only_removes, stale_ids,
    survivors, EntryView, Registry,
};

verus! {

/// Multicast group that announces are sent to.
pub const UDP_HOST: &'static str = "224.0.0.167";

/// Port of the multicast group.
pub const UDP_PORT: u16 = 53317;

/// The longest datagram the listener takes in, in bytes.
pub const MAX_DATAGRAM: usize = 1024;

/// Milliseconds between two announces of a device.
pub const ANNOUNCE_INTERVAL_MS: u64 = 2000;

/// Milliseconds between two cycles of the reaper.
pub const REAP_INTERVAL_MS: u64 = 5000;

/// Milliseconds of silence after which a peer is dropped. Longer than a few
/// announce intervals, so that a lost datagram or two does no harm.
pub const PEER_TIMEOUT_MS: u64 = 10000;

/// How many events may wait for their consumer. A producer that finds the
/// queue full waits; no event is dropped.
pub const EVENT_QUEUE_CAPACITY: usize = 32;

/// Whether a datagram counts as an announce of another device: it is not
/// empty, it parsed as an identity, and the identity is not this device's.
pub open spec fn is_foreign_announce(local_id: u128, len: usize, payload: Option<InfoView>) -> bool {
    len > 0 && payload is Some && payload->0.id != local_id
}

/// The registry after a datagram: changed by a foreign announce, and by
/// nothing else.
pub open spec fn after_datagram(
    m: Map<u128, EntryView>,
    local_id: u128,
    len: usize,
    payload: Option<InfoView>,
    ip: Seq<char>,
    now: u64,
) -> Map<u128, EntryView> {
    if is_foreign_announce(local_id, len, payload) {
        after_announce(m, payload->0, ip, now)
    } else {
        m
    }
}

/// The peer that a datagram makes known, if it makes one known: a foreign
/// announce of an id that the registry does not hold yet.
pub open spec fn joined_by_datagram(
    m: Map<u128, EntryView>,
    local_id: u128,
    len: usize,
    payload: Option<InfoView>,
    ip: Seq<char>,
) -> Option<PeerView> {
    if is_foreign_announce(local_id, len, payload) && !m.contains_key(payload->0.id) {
        Some(PeerView { info: payload->0, ip })
    } else {
        None
    }
}

/// The payload of a datagram as the contracts see it.
pub open spec fn payload_view(payload: Option<Info>) -> Option<InfoView> {
    match payload {
        Some(info) => Some(info@),
        None => None,
    }
}

/// Handles one received datagram of `len` bytes from address `source_ip`.
/// `payload` is the identity that the bytes parsed to, or `None` where they
/// did not parse.
///
/// Empty datagrams, unparsable ones and this device's own announces change
/// nothing and give no event. An announce of an unknown id enters the peer
/// and gives its `Join`; an announce of a known id only refreshes it.
pub fn receive(
    registry: &mut Registry,
    local_id: PeerId,
    len: usize,
    payload: Option<Info>,
    source_ip: String,
    now: u64,
) -> (event: Option<Event>)
    ensures
        final(registry)@ == after_datagram(
            old(registry)@,
            local_id,
            len,
            payload_view(payload),
            source_ip@,
            now,
        ),
        keyed_by_id(final(registry)@),
        match joined_by_datagram(old(registry)@, local_id, len, payload_view(payload), source_ip@) {
            Some(peer) => event matches Some(Event::Join(p)) && p@ == peer,
            None => event is None,
        },
{
    proof {
        use_type_invariant(&*registry);
    }
    if len == 0 {
        return None;
    }
    match payload {
        None => None,
        Some(info) => {
            if info.id == local_id {
                None
            } else {
                match registry.observe(info, source_ip, now) {
                    Some(peer) => Some(Event::Join(peer)),
                    None => None,
                }
            }
        },
    }
}

/// One received datagram, as the laws below speak of it: its length, what
/// it parsed to, where it came from and when.
pub struct Heard {
    pub len: usize,
    pub payload: Option<InfoView>,
    pub ip: Seq<char>,
    pub now: u64,
}

/// The registry after a run of datagrams, handled in order.
pub open spec fn after_run(m: Map<u128, EntryView>, local_id: u128, heard: Seq<Heard>) -> Map<
    u128,
    EntryView,
>
    decreases heard.len(),
{
    if heard.len() == 0 {
        m
    } else {
        let h = heard.last();
        after_datagram(after_run(m, local_id, heard.drop_last()), local_id, h.len, h.payload, h.ip, h.now)
    }
}

/// How many `Join` events a run of datagrams gives for the id `id`.
pub open spec fn joins_in_run(
    m: Map<u128, EntryView>,
    local_id: u128,
    heard: Seq<Heard>,
    id: u128,
) -> nat
    decreases heard.len(),
{
    if heard.len() == 0 {
        0
    } else {
        let h = heard.last();
        let earlier = heard.drop_last();
        let joined = joined_by_datagram(after_run(m, local_id, earlier), local_id, h.len, h.payload, h.ip);
        joins_in_run(m, local_id, earlier, id) + if joined is Some && joined->0.info.id == id {
            1nat
        } else {
            0nat
        }
    }
}

/// Whether some datagram of the run is a foreign announce of `id`.
pub open spec fn announced_in_run(local_id: u128, heard: Seq<Heard>, id: u128) -> bool {
    exists|i: int|
        0 <= i < heard.len() && is_foreign_announce(
            local_id,
            (#[trigger] heard[i]).len,
            heard[i].payload,
        ) && heard[i].payload->0.id == id
}

/// A datagram that is empty, that did not parse, or that is this device's
/// own announce changes nothing in the registry and gives no event.
pub proof fn lemma_noise_is_ignored(
    m: Map<u128, EntryView>,
    local_id: u128,
    len: usize,
    payload: Option<InfoView>,
    ip: Seq<char>,
    now: u64,
)
    requires
        len == 0 || payload is None || payload->0.id == local_id,
    ensures
        after_datagram(m, local_id, len, payload, ip, now) == m,
        joined_by_datagram(m, local_id, len, payload, ip) is None,
{
}

/// No run of datagrams ever enters this device's own id, whatever the
/// datagrams hold.
pub proof fn lemma_own_id_never_entered(m: Map<u128, EntryView>, local_id: u128, heard: Seq<Heard>)
    requires
        !m.contains_key(local_id),
    ensures
        !after_run(m, local_id, heard).contains_key(local_id),
        joins_in_run(m, local_id, heard, local_id) == 0,
    decreases heard.len(),
{
    if heard.len() > 0 {
        lemma_own_id_never_entered(m, local_id, heard.drop_last());
    }
}

/// After a run of datagrams the registry holds an id exactly if it held it
/// before or the run announced it: a datagram never removes a peer.
pub proof fn lemma_known_after_run(
    m: Map<u128, EntryView>,
    local_id: u128,
    heard: Seq<Heard>,
    id: u128,
)
    ensures
        after_run(m, local_id, heard).contains_key(id) <==> m.contains_key(id) || announced_in_run(
            local_id,
            heard,
            id,
        ),
    decreases heard.len(),
{
    if heard.len() > 0 {
        let earlier = heard.drop_last();
        let h = heard.last();
        lemma_known_after_run(m, local_id, earlier, id);
        if announced_in_run(local_id, earlier, id) {
            let i = choose|i: int|
                0 <= i < earlier.len() && is_foreign_announce(
                    local_id,
                    (#[trigger] earlier[i]).len,
                    earlier[i].payload,
                ) && earlier[i].payload->0.id == id;
            assert(heard[i] == earlier[i]);
        }
        if announced_in_run(local_id, heard, id) {
            let i = choose|i: int|
                0 <= i < heard.len() && is_foreign_announce(
                    local_id,
                    (#[trigger] heard[i]).len,
                    heard[i].payload,
                ) && heard[i].payload->0.id == id;
            if i < earlier.len() {
                assert(earlier[i] == heard[i]);
            }
        }
        if is_foreign_announce(local_id, h.len, h.payload) && h.payload->0.id == id {
            assert(heard[heard.len() - 1] == h);
        }
    }
}

/// Over any run of datagrams, an id that the registry did not hold gives
/// exactly one `Join` if the run announces it, at its first announce, and
/// every other id gives none: later announces of a known id only refresh it.
pub proof fn lemma_join_exactly_once(
    m: Map<u128, EntryView>,
    local_id: u128,
    heard: Seq<Heard>,
    id: u128,
)
    ensures
        joins_in_run(m, local_id, heard, id) == if !m.contains_key(id) && announced_in_run(
            local_id,
            heard,
            id,
        ) {
            1nat
        } else {
            0nat
        },
    decreases heard.len(),
{
    if heard.len() > 0 {
        let earlier = heard.drop_last();
        lemma_join_exactly_once(m, local_id, earlier, id);
        lemma_known_after_run(m, local_id, earlier, id);
        lemma_known_after_run(m, local_id, heard, id);
    }
}

/// The `Join` of a peer comes with its first announce and carries what that
/// announce said and the address it came from; no later datagram of the
/// run gives a `Join` for the same id.
pub proof fn lemma_join_at_first_announce(
    m: Map<u128, EntryView>,
    local_id: u128,
    heard: Seq<Heard>,
    first: int,
    later: int,
)
    requires
        0 <= first < later < heard.len(),
        is_foreign_announce(local_id, heard[first].len, heard[first].payload),
        !m.contains_key(heard[first].payload->0.id),
        !announced_in_run(local_id, heard.take(first), heard[first].payload->0.id),
    ensures
        joined_by_datagram(
            after_run(m, local_id, heard.take(first)),
            local_id,
            heard[first].len,
            heard[first].payload,
            heard[first].ip,
        ) == Some(PeerView { info: heard[first].payload->0, ip: heard[first].ip }),
        match joined_by_datagram(
            after_run(m, local_id, heard.take(later)),
            local_id,
            heard[later].len,
            heard[later].payload,
            heard[later].ip,
        ) {
            Some(peer) => peer.info.id != heard[first].payload->0.id,
            None => true,
        },
{
    let id = heard[first].payload->0.id;
    lemma_known_after_run(m, local_id, heard.take(first), id);
    lemma_known_after_run(m, local_id, heard.take(later), id);
    assert(heard.take(later)[first] == heard[first]);
}

/// One thing that happens to the registry: a datagram arrives, or the
/// reaper runs a cycle at some time.
pub enum Step {
    Datagram(Heard),
    Sweep(u64),
}

/// The registry after one step.
pub open spec fn after_step(m: Map<u128, EntryView>, local_id: u128, step: Step) -> Map<
    u128,
    EntryView,
> {
    match step {
        Step::Datagram(h) => after_datagram(m, local_id, h.len, h.payload, h.ip, h.now),
        Step::Sweep(now) => survivors(m, now, PEER_TIMEOUT_MS),
    }
}

/// The registry after a sequence of steps, taken in order.
pub open spec fn after_steps(m: Map<u128, EntryView>, local_id: u128, steps: Seq<Step>) -> Map<
    u128,
    EntryView,
>
    decreases steps.len(),
{
    if steps.len() == 0 {
        m
    } else {
        after_step(after_steps(m, local_id, steps.drop_last()), local_id, steps.last())
    }
}

/// How many `Join` events one step gives for `id`: one or none.
pub open spec fn joins_of_step(m: Map<u128, EntryView>, local_id: u128, step: Step, id: u128) -> nat {
    match step {
        Step::Datagram(h) => {
            let joined = joined_by_datagram(m, local_id, h.len, h.payload, h.ip);
            if joined is Some && joined->0.info.id == id {
                1
            } else {
                0
            }
        },
        Step::Sweep(_) => 0,
    }
}

/// How many `Leave` events one step gives for `id`: one or none.
pub open spec fn leaves_of_step(m: Map<u128, EntryView>, step: Step, id: u128) -> nat {
    match step {
        Step::Datagram(_) => 0,
        Step::Sweep(now) => if stale_ids(m, now, PEER_TIMEOUT_MS).contains(id) {
            1
        } else {
            0
        },
    }
}

/// How many `Join` events a sequence of steps gives for `id`.
pub open spec fn joins_of(m: Map<u128, EntryView>, local_id: u128, steps: Seq<Step>, id: u128) -> nat
    decreases steps.len(),
{
    if steps.len() == 0 {
        0
    } else {
        joins_of(m, local_id, steps.drop_last(), id) + joins_of_step(
            after_steps(m, local_id, steps.drop_last()),
            local_id,
            steps.last(),
            id,
        )
    }
}

/// How many `Leave` events a sequence of steps gives for `id`.
pub open spec fn leaves_of(m: Map<u128, EntryView>, local_id: u128, steps: Seq<Step>, id: u128) -> nat
    decreases steps.len(),
{
    if steps.len() == 0 {
        0
    } else {
        leaves_of(m, local_id, steps.drop_last(), id) + leaves_of_step(
            after_steps(m, local_id, steps.drop_last()),
            steps.last(),
            id,
        )
    }
}

/// Whether the registry holds `id`, as a number.
pub open spec fn held(m: Map<u128, EntryView>, id: u128) -> nat {
    if m.contains_key(id) {
        1
    } else {
        0
    }
}

/// Events and registry never part ways: through any sequence of datagrams
/// and reaper cycles, a peer is in the registry exactly if it has joined
/// once more often than it has left. So for one id `Join` and `Leave` take
/// turns, a `Leave` always has its `Join` before it, and a peer is never
/// reported as joined twice without having left in between.
pub proof fn lemma_events_track_registry(
    m: Map<u128, EntryView>,
    local_id: u128,
    steps: Seq<Step>,
    id: u128,
)
    ensures
        held(m, id) + joins_of(m, local_id, steps, id) == held(
            after_steps(m, local_id, steps),
            id,
        ) + leaves_of(m, local_id, steps, id),
        keyed_by_id(m) ==> keyed_by_id(after_steps(m, local_id, steps)),
    decreases steps.len(),
{
    if steps.len() > 0 {
        let earlier = steps.drop_last();
        lemma_events_track_registry(m, local_id, earlier, id);
        let before = after_steps(m, local_id, earlier);
        match steps.last() {
            Step::Datagram(h) => {
                if keyed_by_id(before) && is_foreign_announce(local_id, h.len, h.payload) {
                    lemma_announce_keeps_keys(before, h.payload->0, h.ip, h.now);
                }
            },
            Step::Sweep(now) => {
                lemma_reaper_only_removes(before, now, PEER_TIMEOUT_MS);
            },
        }
    }
}

/// The ids that a sequence of `Leave` events names, in order.
pub open spec fn left_ids(events: Seq<Event>) -> Seq<u128> {
    Seq::new(
        events.len(),
        |i: int|
            match events[i] {
                Event::Leave(id) => id,
                Event::Join(peer) => peer.info.id,
            },
    )
}

/// One cycle of the reaper at time `now`: drops every peer that has been
/// silent for more than [`PEER_TIMEOUT_MS`] and gives one `Leave` for each,
/// in no particular order. The events are to be sent after the registry has
/// been released.
pub fn sweep(registry: &mut Registry, now: u64) -> (events: Vec<Event>)
    ensures
        final(registry)@ == survivors(old(registry)@, now, PEER_TIMEOUT_MS),
        keyed_by_id(final(registry)@),
        forall|i: int| 0 <= i < events@.len() ==> events@[i] is Leave,
        left_ids(events@).no_duplicates(),
        left_ids(events@).to_set() == stale_ids(old(registry)@, now, PEER_TIMEOUT_MS),
        events@.len() == stale_ids(old(registry)@, now, PEER_TIMEOUT_MS).len(),
{
    let evicted = registry.evict_stale(now, PEER_TIMEOUT_MS);
    let mut events: Vec<Event> = Vec::new();
    let mut i: usize = 0;
    while i < evicted.len()
        invariant
            0 <= i <= evicted@.len(),
            events@.len() == i,
            forall|j: int| 0 <= j < i ==> events@[j] == Event::Leave(evicted@[j]),
        decreases evicted@.len() - i,
    {
        events.push(Event::Leave(evicted[i]));
        i += 1;
    }
    assert(left_ids(events@) =~= evicted@);
    events
}

} // verus!

//! What a client's handles share with its transceiver.

use vstd::prelude::*;

use crate::wrappers::{by_topic, topic_map_keys, topic_map_new, topic_map_remove};
use crate::wrappers::{id_map_insert, id_map_keys, id_map_new, LmcHashMap};
use crate::QoS;

verus! {

/// Describes awaiting states associated with a packet ID in a [`NotifierMap`].
/// A waker is known by its number.
#[derive(Debug, Clone, Copy, PartialEq, Eq, Structural)]
pub enum NotifyResult {
    /// The packet ID will be awaited on but has no waker yet.
    ///
    /// This value is set by the future.
    WithoutWaker,
    /// The packet ID is being awaited on and the specified waker
    /// should be woken up when the event is triggered.
    ///
    /// This value is set by the future.
    WithWaker(u64),
    /// The packet ID might not have been sent because the
    /// transceiver ended.
    ///
    /// This value is set by the transceiver.
    Failed,
}

/// A [`NotifierMap`] is used to await specific publish events.
///
/// The key is the ID of the publish packet and the value is
/// essentially used to provide a reference to the waker.
///
/// The entry is initially created by the future, so if the
/// entry corresponding to a publish packet is removed, that
/// means that the event was triggered (or that the future
/// got cancelled).
pub type NotifierMap = LmcHashMap<u32, NotifyResult>;

/// The value of an entry in the subscription map, describing the
/// state of the susbcription.
pub enum SubscriptionState {
    /// The subscription exists and has been validated by the broker.
    /// The value is the [`QoS`] of the subscription as defined by
    /// the broker.
    Existing(QoS),
    /// The subscription has yet to be validated by the broker.
    /// The value is a list of wakers waiting on the subscription
    /// to be established.
    Pending(Vec<Option<u64>>),
}

/// What a subscription state says.
pub enum SubscriptionStateView {
    Existing(QoS),
    Pending(Seq<Option<u64>>),
}

impl View for SubscriptionState {
    type V = SubscriptionStateView;

    open spec fn view(&self) -> SubscriptionStateView {
        match *self {
            SubscriptionState::Existing(qos) => SubscriptionStateView::Existing(qos),
            SubscriptionState::Pending(wakers) => SubscriptionStateView::Pending(wakers@),
        }
    }
}

/// Shared information between the client and the transceiver.
pub struct ClientShared {
    /// Value to be used for the next identifiable packet
    pub next_packet_id: u16,
    /// [`NotifierMap`] for the `PUBACK` stage
    pub notify_ack: NotifierMap,
    /// [`NotifierMap`] for the `PUBREC` stage
    pub notify_rec: NotifierMap,
    /// [`NotifierMap`] for the `PUBCOMP` stage
    pub notify_comp: NotifierMap,
    /// A map describing the state of each topic subscriptions
    pub subs: LmcHashMap<String, SubscriptionState>,
    /// Value to be used as an ID for the next "fast callback"
    /// topic subscription.
    pub next_callback_id: u32,
    /// True once the transceiver has ended.
    pub task_ended: bool,
}

/// What the shared information says.
pub struct SharedView {
    pub next_packet_id: u16,
    pub notify_ack: Map<u32, NotifyResult>,
    pub notify_rec: Map<u32, NotifyResult>,
    pub notify_comp: Map<u32, NotifyResult>,
    pub subs: Map<Seq<char>, SubscriptionStateView>,
    pub next_callback_id: u32,
    pub task_ended: bool,
}

/// What the states of all subscriptions say.
pub open spec fn states(subs: Map<Seq<char>, SubscriptionState>) -> Map<
    Seq<char>,
    SubscriptionStateView,
> {
    subs.map_values(|s: SubscriptionState| s@)
}

impl View for ClientShared {
    type V = SharedView;

    open spec fn view(&self) -> SharedView {
        SharedView {
            next_packet_id: self.next_packet_id,
            notify_ack: self.notify_ack@,
            notify_rec: self.notify_rec@,
            notify_comp: self.notify_comp@,
            subs: states(by_topic(self.subs@)),
            next_callback_id: self.next_callback_id,
            task_ended: self.task_ended,
        }
    }
}

impl SharedView {
    /// This information with the next packet ID taken. IDs start over after the last one.
    pub open spec fn packet_id_taken(self) -> Self {
        SharedView {
            next_packet_id: if self.next_packet_id == u16::MAX {
                0
            } else {
                (self.next_packet_id + 1) as u16
            },
            ..self
        }
    }
}

impl ClientShared {
    /// Instantiates a new [`ClientShared`] with the starting
    /// packet/callback IDs and empty notify/subscription maps.
    pub fn new() -> (r: Self)
        ensures
            r@ == (SharedView {
                next_packet_id: 1,
                notify_ack: Map::empty(),
                notify_rec: Map::empty(),
                notify_comp: Map::empty(),
                subs: Map::empty(),
                next_callback_id: 0,
                task_ended: false,
            }),
    {
        let r = ClientShared {
            next_packet_id: 1,
            notify_ack: id_map_new(),
            notify_rec: id_map_new(),
            notify_comp: id_map_new(),
            subs: topic_map_new(),
            next_callback_id: 0,
            task_ended: false,
        };
        assert(r@.subs =~= Map::empty());
        r
    }

    /// Takes the ID for the next identifiable packet.
    pub fn take_packet_id(&mut self) -> (r: u16)
        ensures
            r == old(self)@.next_packet_id,
            final(self)@ == old(self)@.packet_id_taken(),
            final(self).next_packet_id == (if r == 65535 {
                0
            } else {
                r + 1
            }),
    {
        let r: u16 = self.next_packet_id;
        self.next_packet_id = if r == u16::MAX {
            0
        } else {
            r + 1
        };
        r
    }

    /// Takes the ID for the next "fast callback". IDs start over after the last one.
    pub fn take_callback_id(&mut self) -> (r: u32)
        ensures
            r == old(self)@.next_callback_id,
            final(self)@ == (SharedView {
                next_callback_id: if r == u32::MAX {
                    0
                } else {
                    (r + 1) as u32
                },
                ..old(self)@
            }),
    {
        let r: u32 = self.next_callback_id;
        self.next_callback_id = if r == u32::MAX {
            0
        } else {
            r + 1
        };
        r
    }
}

/// The wakers that are there.
pub open spec fn present(wakers: Seq<Option<u64>>) -> Seq<u64>
    decreases wakers.len(),
{
    if wakers.len() == 0 {
        Seq::empty()
    } else {
        match wakers.last() {
            Some(w) => present(wakers.drop_last()).push(w),
            None => present(wakers.drop_last()),
        }
    }
}

/// The wakers that wait for a subscription.
pub open spec fn waiting_for(
    subs: Map<Seq<char>, SubscriptionStateView>,
    topic: Seq<char>,
) -> Seq<u64> {
    if subs.contains_key(topic) {
        match subs[topic] {
            SubscriptionStateView::Pending(wakers) => present(wakers),
            _ => Seq::empty(),
        }
    } else {
        Seq::empty()
    }
}

/// Lists the wakers that are there.
pub(crate) fn present_wakers(wakers: &Vec<Option<u64>>) -> (r: Vec<u64>)
    ensures
        r@ == present(wakers@),
{
    let mut ret: Vec<u64> = Vec::new();
    let mut i: usize = 0;
    while i < wakers.len()
        invariant
            i <= wakers@.len(),
            ret@ == present(wakers@.take(i as int)),
        decreases wakers@.len() - i,
    {
        if let Some(waker) = wakers[i] {
            ret.push(waker);
        }
        i += 1;
        assert(wakers@.take(i as int).drop_last() =~= wakers@.take(i - 1));
    }
    assert(wakers@.take(i as int) =~= wakers@);
    ret
}


/// The wakers of the specified entries of a notifier map, in that order.
pub open spec fn wakers_of(map: Map<u32, NotifyResult>, ids: Seq<u32>) -> Seq<u64>
    decreases ids.len(),
{
    if ids.len() == 0 {
        Seq::empty()
    } else {
        match map[ids.last()] {
            NotifyResult::WithWaker(w) => wakers_of(map, ids.drop_last()).push(w),
            _ => wakers_of(map, ids.drop_last()),
        }
    }
}

/// The wakers that wait for the specified subscriptions, in that order.
pub open spec fn all_waiting_for(
    subs: Map<Seq<char>, SubscriptionStateView>,
    topics: Seq<Seq<char>>,
) -> Seq<u64>
    decreases topics.len(),
{
    if topics.len() == 0 {
        Seq::empty()
    } else {
        all_waiting_for(subs, topics.drop_last()) + waiting_for(subs, topics.last())
    }
}

/// Whether `list` holds each element of `all` once and nothing else.
pub open spec fn lists<A>(list: Seq<A>, all: Set<A>) -> bool {
    list.no_duplicates() && list.to_set() == all
}

/// A notifier map with all its entries marked as failed.
pub open spec fn failed(map: Map<u32, NotifyResult>) -> Map<u32, NotifyResult> {
    map.map_values(|n: NotifyResult| NotifyResult::Failed)
}

/// Marks all the values in a [`NotifierMap`] as failed to make sure that no futures
/// are stuck when the transceiver shuts down. Appends the wakers to be woken up, in an
/// order that is left open.
fn fail_notify_map(map: &mut NotifierMap, wakers: &mut Vec<u64>)
    ensures
        final(map)@ == failed(old(map)@),
        exists|ids: Seq<u32>| #[trigger]
            lists(ids, old(map)@.dom()) && final(wakers)@ == old(wakers)@ + wakers_of(
                old(map)@,
                ids,
            ),
{
    let ids = id_map_keys(map);
    let ghost before = map@;
    let mut i: usize = 0;
    proof {
        assert(ids@.to_set() =~= before.dom()) by {
            assert forall|k: u32| ids@.to_set().contains(k) <==> before.dom().contains(k) by {
                assert(before.contains_key(k) <==> ids@.contains(k));
            }
        }
        assert(wakers@ =~= old(wakers)@ + wakers_of(before, ids@.take(0)));
    }
    while i < ids.len()
        invariant
            i <= ids@.len(),
            ids@.no_duplicates(),
            forall|k: u32| #[trigger] before.contains_key(k) <==> ids@.contains(k),
            wakers@ == old(wakers)@ + wakers_of(before, ids@.take(i as int)),
            map@.dom() == before.dom(),
            forall|j: int| 0 <= j < i ==> map@[#[trigger] ids@[j]] == NotifyResult::Failed,
            forall|j: int| i <= j < ids@.len() ==> map@[#[trigger] ids@[j]] == before[ids@[j]],
        decreases ids@.len() - i,
    {
        let id: u32 = ids[i];
        assert(ids@.contains(id));
        let ghost upto = ids@.take(i as int);
        assert(ids@.take(i + 1).drop_last() =~= upto);
        assert(map@.contains_key(id));
        if let Some(NotifyResult::WithWaker(w)) = id_map_insert(map, id, NotifyResult::Failed) {
            wakers.push(w);
        }
        i += 1;
        assert(wakers@ =~= old(wakers)@ + wakers_of(before, ids@.take(i as int)));
        assert(map@.dom() =~= before.dom());
    }
    proof {
        assert(ids@.take(i as int) =~= ids@);
        assert(map@ =~= failed(before)) by {
            assert forall|k: u32| before.contains_key(k) implies map@[k] == NotifyResult::Failed by {
                let j = ids@.index_of(k);
                assert(ids@[j] == k);
            }
        }
        assert(lists(ids@, before.dom()));
    }
}

/// Removes all subscriptions, to make sure that no futures are stuck when the transceiver
/// shuts down. Appends the wakers to be woken up, in an order that is left open.
fn drain_subs(subs: &mut LmcHashMap<String, SubscriptionState>, wakers: &mut Vec<u64>)
    ensures
        by_topic(final(subs)@) == Map::<Seq<char>, SubscriptionState>::empty(),
        exists|topics: Seq<Seq<char>>| #[trigger]
            lists(topics, by_topic(old(subs)@).dom()) && final(wakers)@ == old(wakers)@
                + all_waiting_for(states(by_topic(old(subs)@)), topics),
{
    let keys = topic_map_keys(subs);
    let ghost before = by_topic(subs@);
    let ghost topics = Seq::new(keys@.len(), |i: int| keys@[i]@);
    let mut i: usize = 0;
    proof {
        assert(topics.to_set() =~= before.dom()) by {
            assert forall|k: Seq<char>| topics.to_set().contains(k) <==> before.dom().contains(
                k,
            ) by {
                if topics.contains(k) {
                    let j = topics.index_of(k);
                    assert(keys@[j]@ == k);
                }
                if before.contains_key(k) {
                    let j = choose|j: int| 0 <= j < keys@.len() && keys@[j]@ == k;
                    assert(topics[j] == k);
                }
            }
        }
        assert(wakers@ =~= old(wakers)@ + all_waiting_for(states(before), topics.take(0)));
    }
    while i < keys.len()
        invariant
            i <= keys@.len(),
            topics == Seq::new(keys@.len(), |i: int| keys@[i]@),
            topics.no_duplicates(),
            forall|j: int| 0 <= j < keys@.len() ==> before.contains_key(#[trigger] topics[j]),
            wakers@ == old(wakers)@ + all_waiting_for(states(before), topics.take(i as int)),
            forall|k: Seq<char>| #[trigger]
                by_topic(subs@).contains_key(k) ==> before.contains_key(k) && by_topic(subs@)[k]
                    == before[k],
            forall|j: int| 0 <= j < i ==> !by_topic(subs@).contains_key(#[trigger] topics[j]),
            forall|j: int|
                i <= j < keys@.len() ==> by_topic(subs@).contains_key(#[trigger] topics[j]),
        decreases keys@.len() - i,
    {
        let ghost topic = topics[i as int];
        assert(topics.take(i + 1).drop_last() =~= topics.take(i as int));
        assert(topics.take(i + 1).last() == topic);
        assert(by_topic(subs@).contains_key(topic));
        let ghost held = wakers@;
        if let Some(SubscriptionState::Pending(pending)) = topic_map_remove(
            subs,
            keys[i].as_str(),
        ) {
            let mut woken = present_wakers(&pending);
            wakers.append(&mut woken);
            assert(states(before)[topic] == SubscriptionStateView::Pending(pending@));
            assert(wakers@ =~= held + waiting_for(states(before), topic));
        } else {
            assert(waiting_for(states(before), topic) =~= Seq::empty());
        }
        i += 1;
        assert(wakers@ =~= old(wakers)@ + all_waiting_for(states(before), topics.take(i as int)));
    }
    proof {
        assert(topics.take(i as int) =~= topics);
        assert(by_topic(subs@) =~= Map::empty()) by {
            assert forall|k: Seq<char>| !by_topic(subs@).contains_key(k) by {
                if before.contains_key(k) {
                    assert(topics.to_set().contains(k));
                    let j = topics.index_of(k);
                    assert(topics[j] == k);
                }
            }
        }
        assert(lists(topics, before.dom()));
    }
}

impl SharedView {
    /// Whether `wakers` are all those that wait for something, in some order.
    pub open spec fn is_awaited_by(self, wakers: Seq<u64>) -> bool {
        exists|acks: Seq<u32>, recs: Seq<u32>, comps: Seq<u32>, topics: Seq<Seq<char>>|
            #![trigger lists(acks, self.notify_ack.dom()), lists(recs, self.notify_rec.dom()), lists(comps, self.notify_comp.dom()), lists(topics, self.subs.dom())]
            {
                &&& lists(acks, self.notify_ack.dom())
                &&& lists(recs, self.notify_rec.dom())
                &&& lists(comps, self.notify_comp.dom())
                &&& lists(topics, self.subs.dom())
                &&& wakers == wakers_of(self.notify_ack, acks) + wakers_of(self.notify_rec, recs)
                    + wakers_of(self.notify_comp, comps) + all_waiting_for(self.subs, topics)
            }
    }
}

impl ClientShared {
    /// Makes sure that no futures are stuck when the transceiver shuts down: marks
    /// everything that is awaited as failed, notes that it ended, and returns the wakers to be woken up.
    pub fn fail_all(&mut self) -> (wakers: Vec<u64>)
        ensures
            final(self)@ == (SharedView {
                notify_ack: failed(old(self)@.notify_ack),
                notify_rec: failed(old(self)@.notify_rec),
                notify_comp: failed(old(self)@.notify_comp),
                subs: Map::empty(),
                task_ended: true,
                ..old(self)@
            }),
            old(self)@.is_awaited_by(wakers@),
    {
        let mut wakers: Vec<u64> = Vec::new();
        self.task_ended = true;
        fail_notify_map(&mut self.notify_ack, &mut wakers);
        let ghost w1 = wakers@;
        fail_notify_map(&mut self.notify_rec, &mut wakers);
        let ghost w2 = wakers@;
        fail_notify_map(&mut self.notify_comp, &mut wakers);
        let ghost w3 = wakers@;
        drain_subs(&mut self.subs, &mut wakers);
        proof {
            let before = old(self)@;
            let acks = choose|ids: Seq<u32>| #[trigger]
                lists(ids, before.notify_ack.dom()) && w1 == Seq::<u64>::empty() + wakers_of(
                    before.notify_ack,
                    ids,
                );
            let recs = choose|ids: Seq<u32>| #[trigger]
                lists(ids, before.notify_rec.dom()) && w2 == w1 + wakers_of(before.notify_rec, ids);
            let comps = choose|ids: Seq<u32>| #[trigger]
                lists(ids, before.notify_comp.dom()) && w3 == w2 + wakers_of(
                    before.notify_comp,
                    ids,
                );
            let topics = choose|topics: Seq<Seq<char>>| #[trigger]
                lists(topics, by_topic(old(self).subs@).dom()) && wakers@ == w3 + all_waiting_for(
                    before.subs,
                    topics,
                );
            assert(before.subs.dom() =~= by_topic(old(self).subs@).dom());
            assert(lists(topics, before.subs.dom()));
            assert(wakers@ =~= wakers_of(before.notify_ack, acks) + wakers_of(
                before.notify_rec,
                recs,
            ) + wakers_of(before.notify_comp, comps) + all_waiting_for(before.subs, topics));
            assert(self@.subs =~= Map::empty());
        }
        wakers
    }
}

/// Two identifiable packets in a row have different IDs.
pub proof fn law_packet_ids_change(shared: SharedView)
    ensures
        shared.packet_id_taken().next_packet_id != shared.next_packet_id,
        shared.packet_id_taken() == (SharedView {
            next_packet_id: shared.packet_id_taken().next_packet_id,
            ..shared
        }),
{
}

/// The wakers that are there are those in the list.
pub proof fn lemma_present(wakers: Seq<Option<u64>>, w: u64)
    ensures
        present(wakers).contains(w) <==> wakers.contains(Some(w)),
    decreases wakers.len(),
{
    if wakers.len() > 0 {
        let rest = wakers.drop_last();
        lemma_present(rest, w);
        if present(rest).contains(w) {
            let i = present(rest).index_of(w);
            assert(present(wakers)[i] == w);
        }
        if wakers.last() == Some(w) {
            assert(present(wakers).last() == w);
            assert(wakers[wakers.len() - 1] == Some(w));
        }
        if wakers.contains(Some(w)) && wakers.last() != Some(w) {
            let i = wakers.index_of(Some(w));
            assert(rest[i] == Some(w));
        }
        if rest.contains(Some(w)) {
            let i = rest.index_of(Some(w));
            assert(wakers[i] == Some(w));
        }
        if present(wakers).contains(w) && !present(rest).contains(w) {
            let i = present(wakers).index_of(w);
            if i < present(rest).len() {
                assert(present(rest)[i] == w);
            }
        }
    }
}

/// The wakers that are there are listed in their order, each as often as it is there.
pub proof fn law_present_in_order(wakers: Seq<Option<u64>>, w: u64)
    ensures
        present(Seq::empty()) == Seq::<u64>::empty(),
        present(wakers.push(None)) == present(wakers),
        present(wakers.push(Some(w))) == present(wakers).push(w),
{
    assert(wakers.push(None).drop_last() =~= wakers);
    assert(wakers.push(Some(w)).drop_last() =~= wakers);
}

/// What is said of the shared information is what it holds.
pub proof fn law_shared_says_what_it_holds(
    shared: ClientShared,
    state: SubscriptionState,
    map: Map<u32, NotifyResult>,
    k: u32,
)
    ensures
        shared@.next_packet_id == shared.next_packet_id,
        shared@.notify_ack == shared.notify_ack@,
        shared@.notify_rec == shared.notify_rec@,
        shared@.notify_comp == shared.notify_comp@,
        shared@.next_callback_id == shared.next_callback_id,
        shared@.task_ended == shared.task_ended,
        forall|topic: Seq<char>| #[trigger]
            shared@.subs.contains_key(topic) <==> by_topic(shared.subs@).contains_key(topic),
        forall|topic: Seq<char>| #[trigger]
            shared@.subs.contains_key(topic) ==> shared@.subs[topic] == by_topic(
                shared.subs@,
            )[topic]@,
        match state {
            SubscriptionState::Existing(qos) => state@ == SubscriptionStateView::Existing(qos),
            SubscriptionState::Pending(wakers) => state@ == SubscriptionStateView::Pending(wakers@),
        },
        shared@.packet_id_taken() == (SharedView {
            next_packet_id: if shared.next_packet_id == 65535 {
                0
            } else {
                (shared.next_packet_id + 1) as u16
            },
            ..shared@
        }),
        failed(map).contains_key(k) <==> map.contains_key(k),
        map.contains_key(k) ==> failed(map)[k] == NotifyResult::Failed,
{
}

proof fn lemma_wakers_of(map: Map<u32, NotifyResult>, ids: Seq<u32>, w: u64)
    ensures
        wakers_of(map, ids).contains(w) <==> exists|i: int|
            0 <= i < ids.len() && map[#[trigger] ids[i]] == NotifyResult::WithWaker(w),
    decreases ids.len(),
{
    if ids.len() > 0 {
        let rest = ids.drop_last();
        let all = wakers_of(map, ids);
        lemma_wakers_of(map, rest, w);
        if wakers_of(map, rest).contains(w) {
            let j = wakers_of(map, rest).index_of(w);
            assert(all[j] == w);
            let i = choose|i: int|
                0 <= i < rest.len() && map[#[trigger] rest[i]] == NotifyResult::WithWaker(w);
            assert(ids[i] == rest[i]);
        }
        if map[ids.last()] == NotifyResult::WithWaker(w) {
            assert(all.last() == w);
            assert(ids[ids.len() - 1] == ids.last());
        }
        if exists|i: int|
            0 <= i < ids.len() && map[#[trigger] ids[i]] == NotifyResult::WithWaker(w) {
            let i = choose|i: int|
                0 <= i < ids.len() && map[#[trigger] ids[i]] == NotifyResult::WithWaker(w);
            if i < ids.len() - 1 {
                assert(rest[i] == ids[i]);
            }
        }
        if all.contains(w) && map[ids.last()] != NotifyResult::WithWaker(w) {
            let j = all.index_of(w);
            assert(wakers_of(map, rest)[j] == w);
        }
    }
}

proof fn lemma_all_waiting_for(
    subs: Map<Seq<char>, SubscriptionStateView>,
    topics: Seq<Seq<char>>,
    w: u64,
)
    ensures
        all_waiting_for(subs, topics).contains(w) <==> exists|i: int|
            0 <= i < topics.len() && waiting_for(subs, #[trigger] topics[i]).contains(w),
    decreases topics.len(),
{
    if topics.len() > 0 {
        let rest = topics.drop_last();
        let a = all_waiting_for(subs, rest);
        let b = waiting_for(subs, topics.last());
        lemma_all_waiting_for(subs, rest, w);
        lemma_contains(a, b, w);
        assert(topics[topics.len() - 1] == topics.last());
        if a.contains(w) {
            let i = choose|i: int|
                0 <= i < rest.len() && waiting_for(subs, #[trigger] rest[i]).contains(w);
            assert(topics[i] == rest[i]);
        }
        if exists|i: int|
            0 <= i < topics.len() && waiting_for(subs, #[trigger] topics[i]).contains(w) {
            let i = choose|i: int|
                0 <= i < topics.len() && waiting_for(subs, #[trigger] topics[i]).contains(w);
            if i < topics.len() - 1 {
                assert(rest[i] == topics[i]);
            }
        }
    }
}

proof fn lemma_contains(a: Seq<u64>, b: Seq<u64>, w: u64)
    ensures
        (a + b).contains(w) <==> a.contains(w) || b.contains(w),
{
    let all = a + b;
    if a.contains(w) {
        assert(all[a.index_of(w)] == w);
    }
    if b.contains(w) {
        assert(all[a.len() + b.index_of(w)] == w);
    }
    if all.contains(w) {
        let i = all.index_of(w);
        if i < a.len() {
            assert(a[i] == w);
        } else {
            assert(b[i - a.len()] == w);
        }
    }
}

proof fn lemma_listed_wakers(map: Map<u32, NotifyResult>, ids: Seq<u32>, w: u64)
    requires
        lists(ids, map.dom()),
    ensures
        wakers_of(map, ids).contains(w) <==> exists|k: u32| #[trigger]
            map.contains_key(k) && map[k] == NotifyResult::WithWaker(w),
{
    lemma_wakers_of(map, ids, w);
    if wakers_of(map, ids).contains(w) {
        let i = choose|i: int|
            0 <= i < ids.len() && map[#[trigger] ids[i]] == NotifyResult::WithWaker(w);
        assert(ids.to_set().contains(ids[i]));
        assert(map.contains_key(ids[i]));
    }
    if exists|k: u32| #[trigger] map.contains_key(k) && map[k] == NotifyResult::WithWaker(w) {
        let k = choose|k: u32| #[trigger]
            map.contains_key(k) && map[k] == NotifyResult::WithWaker(w);
        assert(ids.to_set().contains(k));
        assert(ids[ids.index_of(k)] == k);
    }
}

/// The wakers that are woken up when the transceiver shuts down are exactly those that wait for
/// a stage of a message or for a subscription.
pub proof fn law_everyone_is_woken(shared: SharedView, wakers: Seq<u64>, w: u64)
    requires
        shared.is_awaited_by(wakers),
    ensures
        wakers.contains(w) <==> {
            ||| exists|k: u32| #[trigger]
                shared.notify_ack.contains_key(k) && shared.notify_ack[k]
                    == NotifyResult::WithWaker(w)
            ||| exists|k: u32| #[trigger]
                shared.notify_rec.contains_key(k) && shared.notify_rec[k]
                    == NotifyResult::WithWaker(w)
            ||| exists|k: u32| #[trigger]
                shared.notify_comp.contains_key(k) && shared.notify_comp[k]
                    == NotifyResult::WithWaker(w)
            ||| exists|t: Seq<char>| #[trigger]
                shared.subs.contains_key(t) && (
                shared.subs[t] matches SubscriptionStateView::Pending(list) && list.contains(
                    Some(w),
                ))
        },
{
    let (acks, recs, comps, topics) = choose|
        acks: Seq<u32>,
        recs: Seq<u32>,
        comps: Seq<u32>,
        topics: Seq<Seq<char>>,
    |
        #![trigger lists(acks, shared.notify_ack.dom()), lists(recs, shared.notify_rec.dom()), lists(comps, shared.notify_comp.dom()), lists(topics, shared.subs.dom())]
        {
            &&& lists(acks, shared.notify_ack.dom())
            &&& lists(recs, shared.notify_rec.dom())
            &&& lists(comps, shared.notify_comp.dom())
            &&& lists(topics, shared.subs.dom())
            &&& wakers == wakers_of(shared.notify_ack, acks) + wakers_of(shared.notify_rec, recs)
                + wakers_of(shared.notify_comp, comps) + all_waiting_for(shared.subs, topics)
        };
    let a = wakers_of(shared.notify_ack, acks);
    let b = wakers_of(shared.notify_rec, recs);
    let c = wakers_of(shared.notify_comp, comps);
    let d = all_waiting_for(shared.subs, topics);
    lemma_listed_wakers(shared.notify_ack, acks, w);
    lemma_listed_wakers(shared.notify_rec, recs, w);
    lemma_listed_wakers(shared.notify_comp, comps, w);
    lemma_all_waiting_for(shared.subs, topics, w);
    lemma_contains(a, b, w);
    lemma_contains(a + b, c, w);
    lemma_contains(a + b + c, d, w);
    if d.contains(w) {
        let i = choose|i: int|
            0 <= i < topics.len() && waiting_for(shared.subs, #[trigger] topics[i]).contains(w);
        assert(topics.to_set().contains(topics[i]));
        assert(shared.subs.contains_key(topics[i]));
        if let SubscriptionStateView::Pending(list) = shared.subs[topics[i]] {
            lemma_present(list, w);
        }
    }
    if exists|t: Seq<char>| #[trigger]
        shared.subs.contains_key(t) && (shared.subs[t] matches SubscriptionStateView::Pending(list)
            && list.contains(Some(w))) {
        let t = choose|t: Seq<char>| #[trigger]
            shared.subs.contains_key(t) && (
            shared.subs[t] matches SubscriptionStateView::Pending(list) && list.contains(Some(w)));
        assert(topics.to_set().contains(t));
        assert(topics[topics.index_of(t)] == t);
        if let SubscriptionStateView::Pending(list) = shared.subs[t] {
            lemma_present(list, w);
        }
    }
}

} // verus!

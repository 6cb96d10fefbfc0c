//! Futures that wait for the broker's answers, without the tasks that poll them.

use vstd::prelude::*;

use crate::errors::SubscribeError;
use crate::shared::{failed, lemma_present, present, ClientShared, NotifierMap, NotifyResult, SharedView};
use crate::shared::{SubscriptionState, SubscriptionStateView};
use crate::transceiver::packets::PacketView;
use crate::transceiver::state::{waker_of, TransceiverView};
use crate::transceiver::util::IdType;
use crate::wrappers::{id_map_get, id_map_insert, id_map_remove};
use crate::wrappers::{topic_map_get, topic_map_get_mut};
use crate::QoS;

verus! {

/// The message publish stages that can be awaited.
#[derive(Debug, Clone, Copy, PartialEq, Eq, Structural)]
pub enum PublishStage {
    /// The `PUBACK` packet of a message sent with [`QoS::AtLeastOnce`]
    Ack,
    /// The `PUBREC` packet of a message sent with [`QoS::ExactlyOnce`]
    Rec,
    /// The `PUBCOMP` packet of a message sent with [`QoS::ExactlyOnce`]
    Comp,
}

impl ClientShared {
    /// Accesses the [`NotifierMap`] of a publish stage.
    pub fn access_notifier_map(&mut self, stage: PublishStage) -> (r: &mut NotifierMap)
        ensures
            match stage {
                PublishStage::Ack => *r == old(self).notify_ack && *final(self) == (ClientShared {
                    notify_ack: *final(r),
                    ..*old(self)
                }),
                PublishStage::Rec => *r == old(self).notify_rec && *final(self) == (ClientShared {
                    notify_rec: *final(r),
                    ..*old(self)
                }),
                PublishStage::Comp => *r == old(self).notify_comp && *final(self) == (ClientShared {
                    notify_comp: *final(r),
                    ..*old(self)
                }),
            },
    {
        match stage {
            PublishStage::Ack => &mut self.notify_ack,
            PublishStage::Rec => &mut self.notify_rec,
            PublishStage::Comp => &mut self.notify_comp,
        }
    }
}

/// A future that can be used to await any of the message publish stages. It is polled with
/// the [`NotifierMap`] of its stage and the number of a waker.
///
/// Can be cancelled safely.
pub struct PublishFuture {
    pub packet_id: u16,
    pub result: Option<bool>,
}

/// What a future that awaits a message publish stage gives: whether it failed, or nothing if
/// it has to wait.
pub open spec fn publish_outcome(
    result: Option<bool>,
    map: Map<u32, NotifyResult>,
    packet_id: u16,
) -> Option<bool> {
    if result is Some {
        result
    } else if !map.contains_key(packet_id as u32) {
        Some(false)
    } else if map[packet_id as u32] == NotifyResult::Failed {
        Some(true)
    } else {
        None
    }
}

impl PublishFuture {
    /// Instantiates a [`PublishFuture`] for the specified packet ID and
    /// publish stage. Automatically registers itself into the corresponding
    /// [`NotifierMap`].
    pub fn new(packet_id: u16, map: &mut NotifierMap) -> (r: Self)
        ensures
            r == (PublishFuture { packet_id, result: None }),
            final(map)@ == old(map)@.insert(packet_id as u32, NotifyResult::WithoutWaker),
    {
        id_map_insert(map, packet_id as u32, NotifyResult::WithoutWaker);
        PublishFuture { packet_id, result: None }
    }

    /// Returns whether the stage failed, or nothing if it has not been reached yet. In that
    /// case the waker will be woken up.
    pub fn poll(&mut self, map: &mut NotifierMap, waker: u64) -> (r: Option<bool>)
        ensures
            r == publish_outcome(old(self).result, old(map)@, old(self).packet_id),
            *final(self) == (PublishFuture { result: r, ..*old(self) }),
            final(map)@ == (if r is None {
                old(map)@.insert(old(self).packet_id as u32, NotifyResult::WithWaker(waker))
            } else {
                old(map)@
            }),
    {
        if self.result.is_some() {
            return self.result;
        }
        let ret = match id_map_get(map, self.packet_id as u32) {
            Some(NotifyResult::Failed) => Some(true),
            Some(_) => None,
            None => Some(false),
        };
        if ret.is_none() {
            id_map_insert(map, self.packet_id as u32, NotifyResult::WithWaker(waker));
        }
        self.result = ret;
        ret
    }

    /// Stops waiting.
    pub fn cancel(&self, map: &mut NotifierMap)
        ensures
            final(map)@ == (if self.result is None {
                old(map)@.remove(self.packet_id as u32)
            } else {
                old(map)@
            }),
    {
        if self.result.is_none() {
            id_map_remove(map, self.packet_id as u32);
        }
    }
}

/// A future that can be used to await a `SUBACK` packet for the
/// specified topic. It is polled with the number of a waker.
///
/// Can be cancelled safely.
pub struct SubscribeFuture<'a> {
    pub topic: &'a str,
    /// Where the waker of this future is in the list of the pending subscription
    pub waker_index: Option<usize>,
    pub result: Option<Result<QoS, SubscribeError>>,
}

impl<'a> SubscribeFuture<'a> {
    /// Instantiates a [`SubscribeFuture`] for the specified topic. Note that
    /// an entry for the corresponding topic in the subscription map should
    /// exist prior to a call to this function or at least, prior to awaiting
    /// the returned future.
    pub fn new(topic: &'a str) -> (r: Self)
        ensures
            r == (SubscribeFuture { topic, waker_index: None, result: None }),
    {
        SubscribeFuture { topic, waker_index: None, result: None }
    }

    /// Whether the waker of this future, if it has one and still waits, is in the list of
    /// the pending subscription.
    pub open spec fn is_listed(self, subs: Map<Seq<char>, SubscriptionStateView>) -> bool {
        self.result is None && self.waker_index is Some && subs.contains_key(self.topic@)
            ==> match subs[self.topic@] {
            SubscriptionStateView::Pending(wakers) => self.waker_index->0 < wakers.len(),
            _ => true,
        }
    }

    /// Tells whether the waker of this future, if it has one and still waits, is in the list
    /// of the pending subscription.
    pub fn check_listed(&self, shared: &ClientShared) -> (r: bool)
        ensures
            r == self.is_listed(shared@.subs),
    {
        if self.result.is_some() {
            return true;
        }
        match self.waker_index {
            Some(i) => match topic_map_get(&shared.subs, self.topic) {
                Some(SubscriptionState::Pending(wakers)) => i < wakers.len(),
                _ => true,
            },
            None => true,
        }
    }

    /// What this future gives: the quality of service, or why there is no subscription, or
    /// nothing if it has to wait. There is nothing to wait for once the transceiver has ended.
    pub open spec fn outcome(self, shared: SharedView) -> Option<Result<QoS, SubscribeError>> {
        let subs = shared.subs;
        if self.result is Some {
            self.result
        } else if subs.contains_key(self.topic@) && subs[self.topic@] is Existing {
            Some(Ok(subs[self.topic@]->Existing_0))
        } else if shared.task_ended {
            Some(Err(SubscribeError::TransceiverTaskTerminated))
        } else if subs.contains_key(self.topic@) {
            None
        } else {
            Some(Err(SubscribeError::RefusedByBroker))
        }
    }

    /// Returns the quality of service that the broker granted, or an error if it refused the
    /// subscription or the transceiver ended, or nothing if the broker has not answered yet. In
    /// that case the waker will be woken up.
    pub fn poll(&mut self, shared: &mut ClientShared, waker: u64) -> (r: Option<
        Result<QoS, SubscribeError>,
    >)
        requires
            old(self).is_listed(old(shared)@.subs),
        ensures
            r == old(self).outcome(old(shared)@),
            final(self).topic == old(self).topic,
            final(self).result == r,
            final(self).is_listed(final(shared)@.subs),
            r is Some ==> final(shared)@ == old(shared)@ && final(self).waker_index == old(
                self,
            ).waker_index,
            r is None ==> match old(shared)@.subs[old(self).topic@] {
                SubscriptionStateView::Pending(wakers) => {
                    let i = match old(self).waker_index {
                        Some(i) => i as int,
                        None => wakers.len() as int,
                    };
                    let added = if i == wakers.len() {
                        wakers.push(Some(waker))
                    } else {
                        wakers.update(i, Some(waker))
                    };
                    &&& final(self).waker_index == Some(i as usize)
                    &&& i <= usize::MAX
                    &&& final(shared)@ == (SharedView {
                        subs: old(shared)@.subs.insert(
                            old(self).topic@,
                            SubscriptionStateView::Pending(added),
                        ),
                        ..old(shared)@
                    })
                },
                _ => false,
            },
    {
        if self.result.is_some() {
            return self.result;
        }
        let ghost before = shared@.subs;
        let topic = self.topic;
        let ended = shared.task_ended;
        if ended {
            self.result = match topic_map_get(&shared.subs, topic) {
                Some(SubscriptionState::Existing(qos)) => Some(Ok(*qos)),
                _ => Some(Err(SubscribeError::TransceiverTaskTerminated)),
            };
            return self.result;
        }
        match topic_map_get_mut(&mut shared.subs, topic) {
            None => {
                //Subscription failed
                assert(shared@.subs =~= before);
                self.result = Some(Err(SubscribeError::RefusedByBroker));
            },
            Some(SubscriptionState::Existing(qos)) => {
                //Subscription succeeded
                self.result = Some(Ok(*qos));
                assert(shared@.subs =~= before);
            },
            Some(SubscriptionState::Pending(wakers)) => {
                match self.waker_index {
                    Some(i) => {
                        wakers.set(i, Some(waker));
                    },
                    None => {
                        self.waker_index = Some(wakers.len());
                        wakers.push(Some(waker));
                    },
                }
                proof {
                    let old_wakers = before[topic@]->Pending_0;
                    let i = self.waker_index->0 as int;
                    let added = if i == old_wakers.len() {
                        old_wakers.push(Some(waker))
                    } else {
                        old_wakers.update(i, Some(waker))
                    };
                    assert(shared@.subs =~= before.insert(
                        topic@,
                        SubscriptionStateView::Pending(added),
                    ));
                }
            },
        }
        self.result
    }

    /// Stops waiting.
    pub fn cancel(&self, shared: &mut ClientShared)
        requires
            self.is_listed(old(shared)@.subs),
        ensures
            final(shared)@ == (SharedView {
                subs: if self.result is None && self.waker_index is Some && old(
                    shared,
                )@.subs.contains_key(self.topic@) {
                    match old(shared)@.subs[self.topic@] {
                        SubscriptionStateView::Pending(wakers) => old(shared)@.subs.insert(
                            self.topic@,
                            SubscriptionStateView::Pending(
                                wakers.update(self.waker_index->0 as int, None),
                            ),
                        ),
                        _ => old(shared)@.subs,
                    }
                } else {
                    old(shared)@.subs
                },
                ..old(shared)@
            }),
    {
        let ghost before = shared@.subs;
        let topic = self.topic;
        if self.result.is_none() {
            if let Some(i) = self.waker_index {
                if let Some(state) = topic_map_get_mut(&mut shared.subs, topic) {
                    match state {
                        SubscriptionState::Pending(wakers) => {
                            wakers.set(i, None);
                        },
                        SubscriptionState::Existing(_) => {},
                    }
                    proof {
                        match before[topic@] {
                            SubscriptionStateView::Pending(wakers) => {
                                assert(shared@.subs =~= before.insert(
                                    topic@,
                                    SubscriptionStateView::Pending(wakers.update(i as int, None)),
                                ));
                            },
                            _ => {
                                assert(shared@.subs =~= before);
                            },
                        }
                    }
                } else {
                    assert(shared@.subs =~= before);
                }
            }
        }
    }
}

/// Whoever awaits the acknowledgment of a message learns of it as soon as it comes, at each
/// stage.
pub proof fn law_awaited_publish_succeeds(
    t: TransceiverView,
    shared: SharedView,
    packet_id: u16,
    now: u128,
)
    requires
        t.connected,
    ensures
        t.is_pending(IdType::spec_publish(packet_id)) ==> publish_outcome(
            None,
            t.on_packet(shared, PacketView::PubAck(packet_id), now).shared.notify_ack,
            packet_id,
        ) == Some(false),
        t.is_pending(IdType::spec_publish(packet_id)) ==> publish_outcome(
            None,
            t.on_packet(shared, PacketView::PubRec(packet_id), now).shared.notify_rec,
            packet_id,
        ) == Some(false),
        t.is_pending(IdType::spec_pub_rel(packet_id)) ==> publish_outcome(
            None,
            t.on_packet(shared, PacketView::PubComp(packet_id), now).shared.notify_comp,
            packet_id,
        ) == Some(false),
{
}

/// Nobody is left waiting for a message or a subscription when the transceiver shuts down.
/// Who waits for the broker's answer to a subscription learns that the transceiver ended.
pub proof fn law_nothing_waits_after_shutdown(
    map: Map<u32, NotifyResult>,
    packet_id: u16,
    shared: SharedView,
    future: SubscribeFuture<'_>,
)
    requires
        shared.task_ended,
    ensures
        publish_outcome(None, failed(map), packet_id) is Some,
        map.contains_key(packet_id as u32) ==> publish_outcome(None, failed(map), packet_id)
            == Some(true),
        future.outcome(shared) is Some,
        future.result is None && !(shared.subs.contains_key(future.topic@)
            && shared.subs[future.topic@] is Existing) ==> future.outcome(shared) == Some(
            Err::<QoS, SubscribeError>(SubscribeError::TransceiverTaskTerminated),
        ),
{
}

/// Whoever awaits a subscription learns of the broker's answer.
pub proof fn law_awaited_subscription_is_answered(
    t: TransceiverView,
    shared: SharedView,
    packet_id: u16,
    answer: Result<QoS, ()>,
    now: u128,
    future: SubscribeFuture<'_>,
)
    requires
        t.connected,
        !shared.task_ended,
        t.pending_subs.contains_key(packet_id as u32),
        t.pending_subs[packet_id as u32].topic == future.topic@,
        future.result is None,
    ensures
        future.outcome(
            t.on_packet(shared, PacketView::SubAck((packet_id, seq![answer])), now).shared,
        ) == Some(
            match answer {
                Ok(qos) => Ok::<QoS, SubscribeError>(qos),
                Err(_) => Err(SubscribeError::RefusedByBroker),
            },
        ),
{
}

/// Waiting can be cancelled safely: whoever stops waiting is not woken up any more, and the
/// others still are.
pub proof fn law_cancelled_is_not_woken(
    map: Map<u32, NotifyResult>,
    packet_id: u16,
    wakers: Seq<Option<u64>>,
    i: int,
    w: u64,
)
    requires
        0 <= i < wakers.len(),
        forall|j: int| 0 <= j < wakers.len() && j != i ==> #[trigger] wakers[j] != wakers[i],
    ensures
        waker_of(map.remove(packet_id as u32), packet_id) == Seq::<u64>::empty(),
        present(wakers.update(i, None)).contains(w) <==> present(wakers).contains(w) && wakers[i]
            != Some(w),
{
    let left = wakers.update(i, None);
    lemma_present(wakers, w);
    lemma_present(left, w);
    if wakers.contains(Some(w)) && wakers[i] != Some(w) {
        let j = wakers.index_of(Some(w));
        assert(left[j] == Some(w));
    }
    if left.contains(Some(w)) {
        let j = left.index_of(Some(w));
        assert(wakers[j] == Some(w));
    }
}

/// A future that awaits a stage of a message goes on giving what it gave. Otherwise it gives
/// success if its entry is gone, failure if its entry is marked as failed, and waits while its
/// entry is there.
pub proof fn law_publish_future(
    result: Option<bool>,
    map: Map<u32, NotifyResult>,
    packet_id: u16,
)
    ensures
        result is Some ==> publish_outcome(result, map, packet_id) == result,
        !map.contains_key(packet_id as u32) ==> publish_outcome(None, map, packet_id) == Some(
            false,
        ),
        map.contains_key(packet_id as u32) ==> publish_outcome(None, map, packet_id) == (
        match map[packet_id as u32] {
            NotifyResult::Failed => Some(true),
            NotifyResult::WithoutWaker => None,
            NotifyResult::WithWaker(_) => None,
        }),
{
}

/// A future that awaits a subscription goes on giving what it gave. Otherwise it gives the
/// quality of service of a subscription that exists; the transceiver's end if it has ended; a
/// refusal if there is no subscription; and it waits while the subscription is pending.
pub proof fn law_subscribe_future(future: SubscribeFuture<'_>, shared: SharedView)
    ensures
        future.result is Some ==> future.outcome(shared) == future.result,
        future.result is None ==> ({
            let there = shared.subs.contains_key(future.topic@);
            let state = shared.subs[future.topic@];
            &&& there && state is Existing ==> (state matches SubscriptionStateView::Existing(qos)
                && future.outcome(shared) == Some(Ok::<QoS, SubscribeError>(qos)))
            &&& there && state is Pending && !shared.task_ended ==> future.outcome(shared) is None
            &&& !there && !shared.task_ended ==> future.outcome(shared) == Some(
                Err::<QoS, SubscribeError>(SubscribeError::RefusedByBroker),
            )
            &&& !(there && state is Existing) && shared.task_ended ==> future.outcome(shared)
                == Some(Err::<QoS, SubscribeError>(SubscribeError::TransceiverTaskTerminated))
        }),
        future.is_listed(shared.subs) <==> (future.result is None && shared.subs.contains_key(
            future.topic@,
        ) ==> match (future.waker_index, shared.subs[future.topic@]) {
            (Some(i), SubscriptionStateView::Pending(wakers)) => i < wakers.len(),
            _ => true,
        }),
{
}

} // verus!

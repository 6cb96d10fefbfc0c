//! Subscriptions, topic patterns, and who gets which message.

use vstd::prelude::*;

use super::commands::{FastCallback, SubscriptionKind};
use crate::text::{find, len_before, lemma_len_before};
use crate::wrappers::{by_topic, topic_map_get, topic_map_get_mut, topic_map_insert};
use crate::wrappers::{topic_map_keys, topic_map_new, LmcHashMap};

verus! {

/// A receiver of messages.
#[derive(Debug, Clone, Copy, PartialEq, Eq, Structural)]
pub enum Recipient {
    /// The bounded queue with this number.
    Lossy(u64),
    /// The unbounded queue with this number.
    Unbounded(u64),
    /// The callback with this ID.
    Callback(u32),
}

/// Store a subscription's message queues and fast callbacks.
/// Leaf in the subscriptions tree.
pub struct Subscription {
    /// Lossy subscriptions: unordered [`Vec`] of bounded queues.
    /// Queues where messages can't be sent immediately are skipped.
    lossy_queue: Vec<u64>,
    /// Unbounded subscriptions: unordered [`Vec`] of unbounded queues.
    /// Messages will always be pushed onto these queues.
    unbounded_queue: Vec<u64>,
    /// [`Vec`] of callback functions ordered by their IDs.
    fast_callbacks: Vec<u32>,
    /// Flag to indicate that the client is currently subscribed to the topic.
    /// If false, all collections (`lossy_queue`, `unbounded_queue`, `fast_callbacks`)
    /// should be empty.
    subscribed: bool,
}

/// The receiver that a kind of subscription adds, if any.
pub open spec fn receiver_of(kind: SubscriptionKind) -> Seq<Recipient> {
    match kind {
        SubscriptionKind::Void => Seq::empty(),
        SubscriptionKind::Lossy(q) => seq![Recipient::Lossy(q)],
        SubscriptionKind::Unbounded(q) => seq![Recipient::Unbounded(q)],
        SubscriptionKind::FastCallback(cb) => seq![Recipient::Callback(cb.id)],
    }
}

/// Lists the receiver that a kind of subscription adds, if any.
pub(crate) fn list_receiver(kind: SubscriptionKind) -> (r: Vec<Recipient>)
    ensures
        r@ == receiver_of(kind),
{
    let mut ret: Vec<Recipient> = Vec::new();
    match kind {
        SubscriptionKind::Void => {},
        SubscriptionKind::Lossy(q) => ret.push(Recipient::Lossy(q)),
        SubscriptionKind::Unbounded(q) => ret.push(Recipient::Unbounded(q)),
        SubscriptionKind::FastCallback(cb) => ret.push(Recipient::Callback(cb.id)),
    }
    assert(ret@ =~= receiver_of(kind));
    ret
}

/// What a subscription holds.
pub struct SubscriptionView {
    pub lossy: Seq<u64>,
    pub unbounded: Seq<u64>,
    pub callbacks: Seq<u32>,
    pub subscribed: bool,
}

impl View for Subscription {
    type V = SubscriptionView;

    closed spec fn view(&self) -> SubscriptionView {
        SubscriptionView {
            lossy: self.lossy_queue@,
            unbounded: self.unbounded_queue@,
            callbacks: self.fast_callbacks@,
            subscribed: self.subscribed,
        }
    }
}

impl SubscriptionView {
    /// What a topic is like that was never subscribed to.
    pub open spec fn empty() -> Self {
        SubscriptionView {
            lossy: Seq::empty(),
            unbounded: Seq::empty(),
            callbacks: Seq::empty(),
            subscribed: false,
        }
    }

    /// Everything that a message goes to, in that order.
    pub open spec fn recipients(self) -> Seq<Recipient> {
        self.lossy.map_values(|q: u64| Recipient::Lossy(q)) + self.unbounded.map_values(
            |q: u64| Recipient::Unbounded(q),
        ) + self.callbacks.map_values(|id: u32| Recipient::Callback(id))
    }

    /// This subscription with one more receiver. A callback that is there already is not
    /// added again.
    pub open spec fn with(self, kind: SubscriptionKind) -> Self {
        match kind {
            SubscriptionKind::Void => self,
            SubscriptionKind::Lossy(q) => SubscriptionView { lossy: self.lossy.push(q), ..self },
            SubscriptionKind::Unbounded(q) => SubscriptionView {
                unbounded: self.unbounded.push(q),
                ..self
            },
            SubscriptionKind::FastCallback(cb) => SubscriptionView {
                callbacks: insert_id(self.callbacks, cb.id),
                ..self
            },
        }
    }

    /// This subscription without a callback.
    pub open spec fn without_callback(self, id: u32) -> Self {
        SubscriptionView { callbacks: remove_id(self.callbacks, id), ..self }
    }
}

/// Whether some IDs are in strictly increasing order.
pub open spec fn increasing(ids: Seq<u32>) -> bool {
    forall|i: int, j: int| 0 <= i < j < ids.len() ==> ids[i] < ids[j]
}

/// Increasing IDs with one more, in its place.
pub open spec fn insert_id(ids: Seq<u32>, id: u32) -> Seq<u32>
    decreases ids.len(),
{
    if ids.len() == 0 {
        seq![id]
    } else if ids.last() < id {
        ids.push(id)
    } else if ids.last() == id {
        ids
    } else {
        insert_id(ids.drop_last(), id).push(ids.last())
    }
}

/// Increasing IDs with one left out.
pub open spec fn remove_id(ids: Seq<u32>, id: u32) -> Seq<u32>
    decreases ids.len(),
{
    if ids.len() == 0 {
        ids
    } else if ids.last() == id {
        ids.drop_last()
    } else {
        remove_id(ids.drop_last(), id).push(ids.last())
    }
}

proof fn lemma_insert_id(ids: Seq<u32>, id: u32, index: int)
    requires
        increasing(ids),
        0 <= index <= ids.len(),
        forall|i: int| 0 <= i < index ==> ids[i] < id,
        index < ids.len() ==> ids[index] >= id,
    ensures
        insert_id(ids, id) == (if index < ids.len() && ids[index] == id {
            ids
        } else {
            ids.insert(index, id)
        }),
        increasing(insert_id(ids, id)),
    decreases ids.len(),
{
    if ids.len() == 0 {
        assert(ids.insert(index, id) =~= seq![id]);
    } else if ids.last() < id {
        assert(ids.insert(index, id) =~= ids.push(id));
    } else if ids.last() == id {
        if index < ids.len() - 1 {
            assert(ids[index] < ids.last());
        }
    } else {
        let less = ids.drop_last();
        lemma_insert_id(less, id, index);
        if index < less.len() && less[index] == id {
            assert(less.push(ids.last()) =~= ids);
        } else {
            assert(less.insert(index, id).push(ids.last()) =~= ids.insert(index, id));
        }
    }
}

proof fn lemma_remove_id(ids: Seq<u32>, id: u32, index: int)
    requires
        increasing(ids),
        0 <= index <= ids.len(),
        forall|i: int| 0 <= i < index ==> ids[i] < id,
        index < ids.len() ==> ids[index] >= id,
    ensures
        remove_id(ids, id) == (if index < ids.len() && ids[index] == id {
            ids.remove(index)
        } else {
            ids
        }),
        increasing(remove_id(ids, id)),
    decreases ids.len(),
{
    if ids.len() > 0 {
        let less = ids.drop_last();
        if ids.last() == id {
            if index < ids.len() - 1 {
                assert(ids[index] < ids.last());
            }
            assert(ids.remove(index) =~= less);
        } else if index < ids.len() {
            lemma_remove_id(less, id, index);
            if index < less.len() && less[index] == id {
                assert(less.remove(index).push(ids.last()) =~= ids.remove(index));
            } else {
                assert(less.push(ids.last()) =~= ids);
            }
        } else {
            lemma_remove_id(less, id, index - 1);
            assert(less.push(ids.last()) =~= ids);
        }
    }
}

/// Callback IDs are a set that is kept in order: what is inserted is there and what is
/// removed is not, and nothing else changes.
pub proof fn law_callback_ids(ids: Seq<u32>, id: u32)
    requires
        increasing(ids),
    ensures
        increasing(insert_id(ids, id)),
        increasing(remove_id(ids, id)),
        forall|x: u32| #[trigger] insert_id(ids, id).contains(x) <==> ids.contains(x) || x == id,
        forall|x: u32| #[trigger] remove_id(ids, id).contains(x) <==> ids.contains(x) && x != id,
{
    let index = lemma_search(ids, id);
    lemma_insert_id(ids, id, index);
    lemma_remove_id(ids, id, index);
    let found = index < ids.len() && ids[index] == id;
    assert forall|x: u32| #[trigger] insert_id(ids, id).contains(x) <==> ids.contains(x) || x
        == id by {
        let all = insert_id(ids, id);
        if found {
            assert(ids[index] == id);
        } else {
            assert(all[index] == id);
            if ids.contains(x) {
                let i = ids.index_of(x);
                assert(all[if i < index { i } else { i + 1 }] == x);
            }
            if all.contains(x) && x != id {
                let i = all.index_of(x);
                assert(ids[if i < index { i } else { i - 1 }] == x);
            }
        }
    }
    assert forall|x: u32| #[trigger] remove_id(ids, id).contains(x) <==> ids.contains(x) && x
        != id by {
        let all = remove_id(ids, id);
        if found {
            if ids.contains(x) && x != id {
                let i = ids.index_of(x);
                assert(all[if i < index { i } else { i - 1 }] == x);
            }
            if all.contains(x) {
                let i = all.index_of(x);
                assert(ids[if i < index { i } else { i + 1 }] == x);
            }
        } else if index < ids.len() {
            assert forall|i: int| 0 <= i < ids.len() implies ids[i] != id by {
                assert(i < index || ids[index] <= ids[i]);
            }
        }
    }
}

/// Where `id` is or belongs.
proof fn lemma_search(ids: Seq<u32>, id: u32) -> (index: int)
    requires
        increasing(ids),
    ensures
        0 <= index <= ids.len(),
        forall|i: int| 0 <= i < index ==> ids[i] < id,
        index < ids.len() ==> ids[index] >= id,
    decreases ids.len(),
{
    if ids.len() == 0 || ids.last() < id {
        ids.len() as int
    } else {
        let index = lemma_search(ids.drop_last(), id);
        assert forall|i: int| 0 <= i < index implies ids[i] < id by {
            assert(ids.drop_last()[i] == ids[i]);
        }
        index
    }
}

/// The receiver that is a queue of the specified sort.
pub open spec fn queue_recipient(lossy: bool, q: u64) -> Recipient {
    if lossy {
        Recipient::Lossy(q)
    } else {
        Recipient::Unbounded(q)
    }
}

/// What is left of some queues without those in `closed`, where the first `i` are known to
/// stay: a queue that goes is replaced by the last one.
pub open spec fn prune_from(
    queues: Seq<u64>,
    i: nat,
    closed: Seq<Recipient>,
    lossy: bool,
) -> Seq<u64>
    decreases queues.len() - i,
{
    if i >= queues.len() {
        queues
    } else if closed.contains(queue_recipient(lossy, queues[i as int])) {
        prune_from(queues.update(i as int, queues.last()).drop_last(), i, closed, lossy)
    } else {
        prune_from(queues, i + 1, closed, lossy)
    }
}

impl SubscriptionView {
    /// This subscription without the queues in `closed`.
    pub open spec fn pruned(self, closed: Seq<Recipient>) -> Self {
        SubscriptionView {
            lossy: prune_from(self.lossy, 0, closed, true),
            unbounded: prune_from(self.unbounded, 0, closed, false),
            ..self
        }
    }
}

/// Whether `r` is one of `list`.
fn is_among(list: &Vec<Recipient>, r: Recipient) -> (b: bool)
    ensures
        b == list@.contains(r),
{
    let mut i: usize = 0;
    while i < list.len()
        invariant
            i <= list@.len(),
            forall|j: int| 0 <= j < i ==> list@[j] != r,
        decreases list@.len() - i,
    {
        if list[i] == r {
            return true;
        }
        i += 1;
    }
    false
}

proof fn lemma_swap_remove(v: Seq<u64>, i: int)
    requires
        0 <= i < v.len(),
    ensures
        v.update(i, v.last()).drop_last().to_multiset() == v.to_multiset().remove(v[i]),
{
    broadcast use vstd::seq_lib::group_to_multiset_ensures;

    let rest = v.drop_last();
    let new = v.update(i, v.last()).drop_last();
    assert(v =~= rest.push(v.last()));
    assert(v.to_multiset() == rest.to_multiset().insert(v.last()));
    if i == v.len() - 1 {
        assert(new =~= rest);
        assert(v.to_multiset().remove(v[i]) =~= rest.to_multiset());
    } else {
        assert(new.remove(i) =~= rest.remove(i));
        vstd::seq_lib::to_multiset_remove(new, i);
        vstd::seq_lib::to_multiset_remove(rest, i);
        assert(new.to_multiset().remove(v.last()) == rest.to_multiset().remove(v[i]));
        assert(new[i] == v.last() && rest[i] == v[i]);
        assert(new.contains(v.last()) && rest.contains(v[i]));
        assert(new.to_multiset().count(v.last()) > 0);
        assert(rest.to_multiset().count(v[i]) > 0);
        assert(new.to_multiset() =~= new.to_multiset().remove(v.last()).insert(v.last()));
        assert(new.to_multiset() =~= v.to_multiset().remove(v[i]));
    }
}

/// Removing closed queues removes exactly those, however often they are there. The order of
/// the others may change.
pub proof fn law_only_closed_queues_are_removed(
    queues: Seq<u64>,
    i: nat,
    closed: Seq<Recipient>,
    lossy: bool,
)
    requires
        forall|j: int|
            0 <= j < i && j < queues.len() ==> !closed.contains(
                queue_recipient(lossy, #[trigger] queues[j]),
            ),
    ensures
        prune_from(queues, i, closed, lossy).to_multiset() == queues.to_multiset().filter(
            |q: u64| !closed.contains(queue_recipient(lossy, q)),
        ),
    decreases queues.len() - i,
{
    broadcast use vstd::seq_lib::group_to_multiset_ensures;

    let keep = |q: u64| !closed.contains(queue_recipient(lossy, q));
    if i >= queues.len() {
        assert(queues.to_multiset().filter(keep) =~= queues.to_multiset()) by {
            assert forall|q: u64| queues.to_multiset().count(q) > 0 implies keep(q) by {
                assert(queues.contains(q));
            }
        }
    } else if closed.contains(queue_recipient(lossy, queues[i as int])) {
        let rest = queues.update(i as int, queues.last()).drop_last();
        lemma_swap_remove(queues, i as int);
        law_only_closed_queues_are_removed(rest, i, closed, lossy);
        assert(queues.to_multiset().remove(queues[i as int]).filter(keep)
            =~= queues.to_multiset().filter(keep));
    } else {
        law_only_closed_queues_are_removed(queues, i + 1, closed, lossy);
    }
}

/// Removes the queues that are in `closed`, using [`Vec::swap_remove()`].
///
/// This is faster but does not preserve ordering.
fn prune(vec: &mut Vec<u64>, closed: &Vec<Recipient>, lossy: bool)
    ensures
        final(vec)@ == prune_from(old(vec)@, 0, closed@, lossy),
{
    let mut i: usize = 0;
    while i < vec.len()
        invariant
            i <= vec@.len(),
            prune_from(vec@, i as nat, closed@, lossy) == prune_from(old(vec)@, 0, closed@, lossy),
        decreases vec@.len() - i,
    {
        let q: u64 = vec[i];
        let r = if lossy {
            Recipient::Lossy(q)
        } else {
            Recipient::Unbounded(q)
        };
        if is_among(closed, r) {
            vec.swap_remove(i);
        } else {
            i += 1;
        }
    }
}

impl Subscription {
    /// Instantiates a subscription without any receivers.
    pub fn new() -> (r: Self)
        ensures
            r@ == SubscriptionView::empty(),
    {
        Subscription {
            lossy_queue: Vec::new(),
            unbounded_queue: Vec::new(),
            fast_callbacks: Vec::new(),
            subscribed: false,
        }
    }

    /// Lists all queues and callbacks in this subscription, for a message to be handed
    /// to each of them.
    pub fn dispatch(&self, out: &mut Vec<Recipient>)
        ensures
            final(out)@ == old(out)@ + self@.recipients(),
    {
        let ghost lossy = self@.lossy.map_values(|q: u64| Recipient::Lossy(q));
        let ghost unbounded = self@.unbounded.map_values(|q: u64| Recipient::Unbounded(q));
        let ghost callbacks = self@.callbacks.map_values(|id: u32| Recipient::Callback(id));
        let mut i: usize = 0;
        while i < self.lossy_queue.len()
            invariant
                i <= self.lossy_queue@.len(),
                lossy == self.lossy_queue@.map_values(|q: u64| Recipient::Lossy(q)),
                out@ =~= old(out)@ + lossy.take(i as int),
            decreases self.lossy_queue@.len() - i,
        {
            out.push(Recipient::Lossy(self.lossy_queue[i]));
            i += 1;
        }
        i = 0;
        while i < self.unbounded_queue.len()
            invariant
                i <= self.unbounded_queue@.len(),
                unbounded == self.unbounded_queue@.map_values(|q: u64| Recipient::Unbounded(q)),
                out@ =~= old(out)@ + lossy + unbounded.take(i as int),
            decreases self.unbounded_queue@.len() - i,
        {
            out.push(Recipient::Unbounded(self.unbounded_queue[i]));
            i += 1;
        }
        i = 0;
        while i < self.fast_callbacks.len()
            invariant
                i <= self.fast_callbacks@.len(),
                callbacks == self.fast_callbacks@.map_values(|id: u32| Recipient::Callback(id)),
                out@ =~= old(out)@ + lossy + unbounded + callbacks.take(i as int),
            decreases self.fast_callbacks@.len() - i,
        {
            out.push(Recipient::Callback(self.fast_callbacks[i]));
            i += 1;
        }
        assert(out@ =~= old(out)@ + self@.recipients());
    }

    /// Removes the queues that turned out to be closed from this subscription.
    pub fn remove_closed(&mut self, closed: &Vec<Recipient>)
        ensures
            final(self)@ == old(self)@.pruned(closed@),
    {
        prune(&mut self.lossy_queue, closed, true);
        prune(&mut self.unbounded_queue, closed, false);
    }

    /// Adds a callback in its place. This looks for the place from the end: a new callback
    /// has the highest ID, but for a race condition between acquiring the ID and queuing
    /// the subscribe command.
    fn add_fast_callback(&mut self, new_cb: FastCallback)
        ensures
            final(self)@ == old(self)@.with(SubscriptionKind::FastCallback(new_cb)),
    {
        let id: u32 = new_cb.id;
        let ghost ids = self.fast_callbacks@;
        let mut index: usize = self.fast_callbacks.len();
        assert(ids.take(ids.len() as int) =~= ids);
        assert(ids =~= ids + ids.skip(ids.len() as int));
        assert(insert_id(ids, id) =~= insert_id(ids, id) + ids.skip(ids.len() as int));
        while index > 0 && self.fast_callbacks[index - 1] > id
            invariant
                index <= ids.len(),
                ids == self.fast_callbacks@,
                insert_id(ids, id) == insert_id(ids.take(index as int), id) + ids.skip(index as int),
            decreases index,
        {
            let ghost upto = ids.take(index as int);
            assert(upto.drop_last() =~= ids.take(index - 1));
            index -= 1;
            assert(insert_id(ids.take(index as int), id).push(ids[index as int]) + ids.skip(
                index + 1,
            ) =~= insert_id(ids.take(index as int), id) + ids.skip(index as int));
        }
        if index > 0 && self.fast_callbacks[index - 1] == id {
            assert(insert_id(ids, id) =~= ids);
        } else {
            assert(insert_id(ids, id) =~= ids.insert(index as int, id));
            self.fast_callbacks.insert(index, id);
        }
    }

    /// Removes the callback with the specified ID, if it is there. Returns whether it was.
    pub fn remove_fast_callback(&mut self, id: u32) -> (r: bool)
        ensures
            final(self)@ == old(self)@.without_callback(id),
            r == old(self)@.callbacks.contains(id),
    {
        let ghost ids = self.fast_callbacks@;
        let mut index: usize = self.fast_callbacks.len();
        assert(ids.take(ids.len() as int) =~= ids);
        assert(remove_id(ids, id) =~= remove_id(ids, id) + ids.skip(ids.len() as int));
        while index > 0 && self.fast_callbacks[index - 1] != id
            invariant
                index <= ids.len(),
                ids == self.fast_callbacks@,
                forall|i: int| index <= i < ids.len() ==> ids[i] != id,
                remove_id(ids, id) == remove_id(ids.take(index as int), id) + ids.skip(index as int),
            decreases index,
        {
            let ghost upto = ids.take(index as int);
            assert(upto.drop_last() =~= ids.take(index - 1));
            index -= 1;
            assert(remove_id(ids.take(index as int), id).push(ids[index as int]) + ids.skip(
                index + 1,
            ) =~= remove_id(ids.take(index as int), id) + ids.skip(index as int));
        }
        if index > 0 {
            assert(remove_id(ids, id) =~= ids.remove(index - 1));
            self.fast_callbacks.remove(index - 1);
            true
        } else {
            assert(remove_id(ids, id) =~= ids);
            false
        }
    }

    /// Inserts the contents of the specified [`SubscriptionKind`] in its approriate
    /// [`Vec`]. [`SubscriptionKind::Void`] has none.
    pub fn add(&mut self, kind: SubscriptionKind)
        ensures
            final(self)@ == old(self)@.with(kind),
    {
        match kind {
            SubscriptionKind::Void => {},
            SubscriptionKind::Lossy(queue) => self.lossy_queue.push(queue),
            SubscriptionKind::Unbounded(queue) => self.unbounded_queue.push(queue),
            SubscriptionKind::FastCallback(cb) => self.add_fast_callback(cb),
        }
    }

    /// Removes all subscriptions associated with this subscription object and
    /// clears the `subscribed` flag.
    fn clear(&mut self)
        ensures
            final(self)@ == SubscriptionView::empty(),
    {
        self.lossy_queue.clear();
        self.unbounded_queue.clear();
        self.fast_callbacks.clear();
        self.subscribed = false;
    }

    /// Notes that the client is subscribed to the topic.
    pub fn set_subscribed(&mut self)
        ensures
            final(self)@ == (SubscriptionView { subscribed: true, ..old(self)@ }),
    {
        self.subscribed = true;
    }

    /// Returns whether the client is subscribed to the topic.
    pub fn is_subscribed(&self) -> (r: bool)
        ensures
            r == self@.subscribed,
    {
        self.subscribed
    }
}

/// How many characters stand before the first slash.
pub open spec fn head_len(topic: Seq<char>) -> nat {
    len_before(topic, '/')
}

/// The first component of a topic.
pub open spec fn head(topic: Seq<char>) -> Seq<char> {
    topic.take(head_len(topic) as int)
}

/// What follows the first component of a topic and its slash.
pub open spec fn tail(topic: Seq<char>) -> Option<Seq<char>> {
    if head_len(topic) < topic.len() {
        Some(topic.skip(head_len(topic) as int + 1))
    } else {
        None
    }
}

proof fn lemma_head_len(topic: Seq<char>)
    ensures
        head_len(topic) <= topic.len(),
        head_len(topic) < topic.len() ==> topic[head_len(topic) as int] == '/',
        forall|i: int| 0 <= i < head_len(topic) ==> topic[i] != '/',
{
    lemma_len_before(topic, '/');
}

proof fn lemma_head_len_is(topic: Seq<char>, n: int)
    requires
        0 <= n <= topic.len(),
        n < topic.len() ==> topic[n] == '/',
        forall|i: int| 0 <= i < n ==> topic[i] != '/',
    ensures
        head_len(topic) == n,
{
    lemma_len_before(topic, '/');
}

/// A topic is its first component and what follows it.
proof fn lemma_split_is_unique(p: Seq<char>, q: Seq<char>)
    requires
        head(p) == head(q),
        tail(p) == tail(q),
    ensures
        p == q,
{
    lemma_head_len(p);
    lemma_head_len(q);
    match tail(p) {
        Some(rest) => {
            assert(p =~= head(p) + seq!['/'] + rest);
            assert(q =~= head(q) + seq!['/'] + rest);
        },
        None => {
            assert(p =~= head(p));
            assert(q =~= head(q));
        },
    }
}

/// The component that matches any single component.
pub open spec fn any() -> Seq<char> {
    seq!['*']
}

/// The last component that matches any number of components but none.
pub open spec fn any_recursive() -> Seq<char> {
    seq!['#']
}

/// Whether a topic pattern is valid: a '#' can only be its last component.
pub open spec fn valid_pattern(pattern: Seq<char>) -> bool
    decreases pattern.len(),
{
    match tail(pattern) {
        Some(rest) => head(pattern) != any_recursive() && valid_pattern(rest),
        None => true,
    }
}

/// Whether a topic pattern matches a topic: component by component, where a '*' stands for
/// any single component and a '#' at the end for one or more components.
pub open spec fn pattern_matches(pattern: Seq<char>, topic: Seq<char>) -> bool
    decreases pattern.len(),
{
    if head(pattern) == any_recursive() {
        tail(pattern) is None
    } else {
        &&& head(pattern) == any() || head(pattern) == head(topic)
        &&& match (tail(pattern), tail(topic)) {
            (Some(pattern), Some(topic)) => pattern_matches(pattern, topic),
            (None, None) => true,
            _ => false,
        }
    }
}

/// Whether what follows a path component in a pattern matches what follows it in a topic.
pub open spec fn rest_matches(pattern: Option<Seq<char>>, topic: Option<Seq<char>>) -> bool {
    match (pattern, topic) {
        (Some(pattern), Some(topic)) => pattern_matches(pattern, topic),
        (None, None) => true,
        _ => false,
    }
}

/// A path component followed by further ones.
pub open spec fn join(component: Seq<char>, rest: Seq<char>) -> Seq<char> {
    component + seq!['/'] + rest
}

/// Whether making a place for the subscription object of `topic` also makes one for that of
/// `pattern`: for each component of `topic` down to an invalid one, a place for what ends
/// there and for what matches everything below.
pub open spec fn makes_place(topic: Seq<char>, pattern: Seq<char>) -> bool
    decreases topic.len(),
{
    let k = head(topic);
    &&& k != any_recursive()
    &&& head(pattern) == k
    &&& tail(pattern) is None || tail(pattern) == Some(any_recursive()) || (tail(
        topic,
    ) matches Some(rest) && tail(pattern) matches Some(p) && makes_place(rest, p))
}

/// Whether a path component of a topic is an ordinary one.
pub open spec fn is_plain(component: Seq<char>) -> bool {
    component != any() && component != any_recursive()
}

/// The part of `at` that is about the patterns which start with the specified component.
pub open spec fn under(
    at: spec_fn(Seq<char>) -> SubscriptionView,
    component: Seq<char>,
) -> spec_fn(Seq<char>) -> SubscriptionView {
    |p: Seq<char>| at(join(component, p))
}

/// Everything that a message with the specified topic goes to, where `at` gives the
/// subscription of each topic pattern: the pattern '#' comes first, then the patterns
/// that start with a '*', then those that start with the topic's own first component.
pub open spec fn deliveries(
    at: spec_fn(Seq<char>) -> SubscriptionView,
    topic: Seq<char>,
) -> Seq<Recipient>
    decreases topic.len(),
{
    let own = head(topic);
    at(any_recursive()).recipients() + (match tail(topic) {
        Some(rest) => deliveries(under(at, any()), rest) + (if is_plain(own) {
            deliveries(under(at, own), rest)
        } else {
            Seq::empty()
        }),
        None => at(any()).recipients() + (if is_plain(own) {
            at(own).recipients()
        } else {
            Seq::empty()
        }),
    })
}

proof fn lemma_join(component: Seq<char>, rest: Seq<char>)
    requires
        !component.contains('/'),
    ensures
        head(join(component, rest)) == component,
        tail(join(component, rest)) == Some(rest),
{
    let p = join(component, rest);
    assert forall|i: int| 0 <= i < component.len() implies p[i] != '/' by {
        assert(component.contains(component[i]));
    }
    lemma_head_len_is(p, component.len() as int);
    assert(head(p) =~= component);
    assert(p.skip(component.len() as int + 1) =~= rest);
}

proof fn lemma_component(topic: Seq<char>)
    ensures
        !head(topic).contains('/'),
        !any().contains('/'),
        !any_recursive().contains('/'),
{
    lemma_head_len(topic);
}

/// A single component is its own head.
proof fn lemma_single(component: Seq<char>)
    requires
        !component.contains('/'),
    ensures
        head(component) == component,
        tail(component) is None,
{
    assert forall|i: int| 0 <= i < component.len() implies component[i] != '/' by {
        assert(component.contains(component[i]));
    }
    lemma_head_len_is(component, component.len() as int);
    assert(head(component) =~= component);
}

proof fn lemma_no_deliveries(at: spec_fn(Seq<char>) -> SubscriptionView, topic: Seq<char>)
    requires
        forall|p: Seq<char>| (#[trigger] at(p)).recipients() == Seq::<Recipient>::empty(),
    ensures
        deliveries(at, topic) == Seq::<Recipient>::empty(),
    decreases topic.len(),
{
    if let Some(rest) = tail(topic) {
        lemma_no_deliveries(under(at, any()), rest);
        lemma_no_deliveries(under(at, head(topic)), rest);
    }
    assert(deliveries(at, topic) =~= Seq::empty());
}

/// Utility struct to split topic strings on slashes. `head`
/// contains the first component, while `tail` contains the
/// rest of the topic path.
#[derive(Clone, Copy)]
struct TopicSlicer<'a> {
    head: &'a str,
    tail: Option<&'a str>,
}

impl<'a> TopicSlicer<'a> {
    fn new(s: &'a str) -> (r: Self)
        ensures
            r.head@ == head(s@),
            match tail(s@) {
                Some(rest) => r.tail matches Some(t) && t@ == rest && rest.len() < s@.len(),
                None => r.tail is None,
            },
    {
        match find(s, '/') {
            Some(head_pos) => {
                let len: usize = s.unicode_len();
                let head = s.substring_char(0, head_pos);
                let tail = s.substring_char(head_pos + 1, len);
                TopicSlicer { head, tail: Some(tail) }
            },
            None => {
                assert(s@.take(s@.len() as int) =~= s@);
                TopicSlicer { head: s, tail: None }
            },
        }
    }
}

/// Whether `s` is the single character `c`.
fn is_char(s: &str, c: char) -> (r: bool)
    ensures
        r == (s@ == seq![c]),
{
    let r = s.unicode_len() == 1 && s.get_char(0) == c;
    assert(r ==> s@ =~= seq![c]);
    r
}

/// Checks that a '#' is only used at the end of a topic pattern.
fn is_valid(pattern: &str) -> (r: bool)
    ensures
        r == valid_pattern(pattern@),
    decreases pattern@.len(),
{
    let slicer = TopicSlicer::new(pattern);
    match slicer.tail {
        Some(rest) => !is_char(slicer.head, '#') && is_valid(rest),
        None => true,
    }
}

/// The second piece of a node in the subscription tree
pub struct SubscriptionSetEntry {
    /// The subscription object (leaf) corresponding to this node
    sub: Subscription,
    /// Child nodes
    children: SubscriptionSetNode,
}

/// The first piece of a node in the subscription tree
pub struct SubscriptionSetNode {
    /// Entries that correspond to a regular (non-wildcard) path component.
    exact: LmcHashMap<String, Box<SubscriptionSetEntry>>,
    /// Entry that corresponds to the wildcard ('*') path component, if any.
    any: Option<Box<SubscriptionSetEntry>>,
    /// Subscription object (leaf) that corresponds to the recursive wildcard
    /// ('#') path component.
    any_recursive: Subscription,
}

impl SubscriptionSetEntry {
    /// What this entry holds under what follows the path component that led to it.
    spec fn at(self, rest: Option<Seq<char>>) -> SubscriptionView {
        match rest {
            Some(pattern) => self.children.at(pattern),
            None => self.sub@,
        }
    }

    /// Whether this entry has a place for what follows the path component that led to it.
    spec fn has(self, rest: Option<Seq<char>>) -> bool {
        match rest {
            Some(pattern) => self.children.has(pattern),
            None => true,
        }
    }

    fn new() -> (r: Self)
        ensures
            forall|p: Option<Seq<char>>| #[trigger] r.at(p) == SubscriptionView::empty(),
            forall|p: Option<Seq<char>>| #[trigger]
                r.has(p) <==> p is None || p == Some(any_recursive()),
    {
        SubscriptionSetEntry { sub: Subscription::new(), children: SubscriptionSetNode::new() }
    }
}

impl SubscriptionSetNode {
    fn new() -> (r: Self)
        ensures
            forall|p: Seq<char>| #[trigger] r.at(p) == SubscriptionView::empty(),
            forall|p: Seq<char>| #[trigger] r.has(p) <==> p == any_recursive(),
    {
        proof {
            lemma_component(any_recursive());
            lemma_single(any_recursive());
            assert forall|p: Seq<char>|
                #![trigger tail(p)]
                head(p) == any_recursive() && tail(p) is None implies p == any_recursive() by {
                lemma_split_is_unique(p, any_recursive());
            }
        }
        SubscriptionSetNode {
            exact: topic_map_new(),
            any: None,
            any_recursive: Subscription::new(),
        }
    }

    spec fn child(self, k: Seq<char>) -> Option<SubscriptionSetEntry> {
        if k == any() {
            match self.any {
                Some(e) => Some(*e),
                None => None,
            }
        } else if by_topic(self.exact@).contains_key(k) {
            Some(*by_topic(self.exact@)[k])
        } else {
            None
        }
    }

    spec fn at(self, pattern: Seq<char>) -> SubscriptionView
        decreases pattern.len(),
    {
        match tail(pattern) {
            Some(rest) => if head(pattern) == any_recursive() {
                SubscriptionView::empty()
            } else {
                match self.child(head(pattern)) {
                    Some(e) => e.children.at(rest),
                    None => SubscriptionView::empty(),
                }
            },
            None => if head(pattern) == any_recursive() {
                self.any_recursive@
            } else {
                match self.child(head(pattern)) {
                    Some(e) => e.sub@,
                    None => SubscriptionView::empty(),
                }
            },
        }
    }

    spec fn subs(self) -> spec_fn(Seq<char>) -> SubscriptionView {
        |p: Seq<char>| self.at(p)
    }

    spec fn has(self, pattern: Seq<char>) -> bool
        decreases pattern.len(),
    {
        match tail(pattern) {
            Some(rest) => head(pattern) != any_recursive() && match self.child(head(pattern)) {
                Some(e) => e.children.has(rest),
                None => false,
            },
            None => head(pattern) == any_recursive() || self.child(head(pattern)) is Some,
        }
    }

    proof fn lemma_absent(self, pattern: Seq<char>)
        ensures
            !valid_pattern(pattern) ==> self.at(pattern) == SubscriptionView::empty(),
        decreases pattern.len(),
    {
        if let Some(rest) = tail(pattern) {
            if let Some(e) = self.child(head(pattern)) {
                e.children.lemma_absent(rest);
            }
        }
    }

    /// Gets the entry that corresponds to a path component other than '#'. Creates it if
    /// it doesn't already exist.
    fn get_or_create_child(&mut self, k: &str) -> (r: &mut SubscriptionSetEntry)
        requires
            k@ != any_recursive(),
        ensures
            forall|p: Seq<char>| head(p) == k@ ==> #[trigger] old(self).at(p) == r.at(tail(p)),
            forall|p: Seq<char>| #[trigger]
                final(self).at(p) == (if head(p) == k@ {
                    final(r).at(tail(p))
                } else {
                    old(self).at(p)
                }),
            forall|p: Seq<char>|
                head(p) == k@ ==> (r.has(tail(p)) <==> #[trigger] old(self).has(p) || tail(
                    p,
                ) is None || tail(p) == Some(any_recursive())),
            forall|p: Seq<char>| #[trigger]
                final(self).has(p) == (if head(p) == k@ {
                    final(r).has(tail(p))
                } else {
                    old(self).has(p)
                }),
    {
        proof {
            lemma_component(any_recursive());
            lemma_single(any_recursive());
        }
        if is_char(k, '*') {
            &mut **self.any.get_or_insert(Box::new(SubscriptionSetEntry::new()))
        } else {
            if topic_map_get(&self.exact, k).is_none() {
                let entry = Box::new(SubscriptionSetEntry::new());
                topic_map_insert(&mut self.exact, k.to_owned(), entry);
            }
            &mut **topic_map_get_mut(&mut self.exact, k).unwrap()
        }
    }

    fn get_or_create(&mut self, topic: &str) -> (r: Result<&mut Subscription, ()>)
        ensures
            match r {
                Ok(sub) => {
                    &&& valid_pattern(topic@)
                    &&& sub@ == old(self).at(topic@)
                    &&& final(self).at(topic@) == (*final(sub))@
                    &&& forall|p: Seq<char>| p != topic@ ==> #[trigger] final(self).at(p) == old(
                        self,
                    ).at(p)
                },
                Err(_) => {
                    &&& !valid_pattern(topic@)
                    &&& forall|p: Seq<char>| #[trigger] final(self).at(p) == old(self).at(p)
                },
            },
            forall|p: Seq<char>| #[trigger]
                final(self).has(p) <==> old(self).has(p) || makes_place(topic@, p),
        decreases topic@.len(),
    {
        let slicer = TopicSlicer::new(topic);
        proof {
            assert forall|p: Seq<char>|
                #![trigger tail(p)]
                head(p) == head(topic@) && tail(p) == tail(topic@) implies p == topic@ by {
                lemma_split_is_unique(p, topic@);
            }
        }
        match slicer.tail {
            Some(rest) => {
                if is_char(slicer.head, '#') {
                    return Err(());
                }
                self.get_or_create_child(slicer.head).children.get_or_create(rest)
            },
            None => {
                if is_char(slicer.head, '#') {
                    Ok(&mut self.any_recursive)
                } else {
                    Ok(&mut self.get_or_create_child(slicer.head).sub)
                }
            },
        }
    }

    fn get(&mut self, topic: &str) -> (r: Result<Option<&mut Subscription>, ()>)
        ensures
            match r {
                Ok(Some(sub)) => {
                    &&& valid_pattern(topic@)
                    &&& old(self).has(topic@)
                    &&& sub@ == old(self).at(topic@)
                    &&& final(self).at(topic@) == (*final(sub))@
                    &&& forall|p: Seq<char>| p != topic@ ==> #[trigger] final(self).at(p) == old(
                        self,
                    ).at(p)
                },
                Ok(None) => {
                    &&& valid_pattern(topic@)
                    &&& !old(self).has(topic@)
                    &&& old(self).at(topic@) == SubscriptionView::empty()
                    &&& forall|p: Seq<char>| #[trigger] final(self).at(p) == old(self).at(p)
                },
                Err(_) => {
                    &&& !valid_pattern(topic@)
                    &&& forall|p: Seq<char>| #[trigger] final(self).at(p) == old(self).at(p)
                },
            },
            forall|p: Seq<char>| #[trigger] final(self).has(p) == old(self).has(p),
        decreases topic@.len(),
    {
        let slicer = TopicSlicer::new(topic);
        proof {
            assert forall|p: Seq<char>|
                #![trigger tail(p)]
                head(p) == head(topic@) && tail(p) == tail(topic@) implies p == topic@ by {
                lemma_split_is_unique(p, topic@);
            }
        }
        match slicer.tail {
            Some(rest) => {
                if is_char(slicer.head, '#') {
                    return Err(());
                }
                match self.get_child(slicer.head) {
                    Some(entry) => entry.children.get(rest),
                    None => if is_valid(rest) {
                        Ok(None)
                    } else {
                        Err(())
                    },
                }
            },
            None => {
                if is_char(slicer.head, '#') {
                    Ok(Some(&mut self.any_recursive))
                } else {
                    match self.get_child(slicer.head) {
                        Some(entry) => Ok(Some(&mut entry.sub)),
                        None => Ok(None),
                    }
                }
            },
        }
    }

    /// Gets the entry that corresponds to a path component other than '#', if it exists.
    fn get_child(&mut self, k: &str) -> (r: Option<&mut SubscriptionSetEntry>)
        requires
            k@ != any_recursive(),
        ensures
            match r {
                Some(e) => {
                    &&& old(self).child(k@) == Some(*e)
                    &&& forall|p: Seq<char>|
                        head(p) == k@ ==> #[trigger] old(self).at(p) == e.at(tail(p))
                    &&& forall|p: Seq<char>| #[trigger]
                        final(self).at(p) == (if head(p) == k@ {
                            final(e).at(tail(p))
                        } else {
                            old(self).at(p)
                        })
                    &&& forall|p: Seq<char>|
                        head(p) == k@ ==> #[trigger] old(self).has(p) == e.has(tail(p))
                    &&& forall|p: Seq<char>| #[trigger]
                        final(self).has(p) == (if head(p) == k@ {
                            final(e).has(tail(p))
                        } else {
                            old(self).has(p)
                        })
                },
                None => {
                    &&& old(self).child(k@) is None
                    &&& forall|p: Seq<char>| #[trigger] final(self).has(p) == old(self).has(p)
                    &&& forall|p: Seq<char>|
                        head(p) == k@ ==> #[trigger] old(self).at(p) == SubscriptionView::empty()
                    &&& forall|p: Seq<char>| #[trigger] final(self).at(p) == old(self).at(p)
                },
            },
    {
        if is_char(k, '*') {
            match &mut self.any {
                Some(e) => Some(&mut **e),
                None => None,
            }
        } else {
            match topic_map_get_mut(&mut self.exact, k) {
                Some(e) => Some(&mut **e),
                None => None,
            }
        }
    }

    fn dispatch(&self, topic: &str, out: &mut Vec<Recipient>)
        ensures
            final(out)@ == old(out)@ + deliveries(self.subs(), topic@),
        decreases topic@.len() + 1, 0nat,
    {
        let ghost at = self.subs();
        let topic_slicer = TopicSlicer::new(topic);
        let ghost own = head(topic@);
        proof {
            lemma_component(topic@);
            lemma_single(any_recursive());
        }
        self.any_recursive.dispatch(out);
        let ghost part1 = at(any_recursive()).recipients();
        assert(out@ == old(out)@ + part1);

        let ghost part2 = match tail(topic@) {
            Some(rest) => deliveries(under(at, any()), rest),
            None => at(any()).recipients(),
        };
        proof {
            self.lemma_child_deliveries(any(), tail(topic@));
        }
        if let Some(entry) = &self.any {
            entry.dispatch(topic_slicer.tail, out);
        }
        assert(out@ =~= old(out)@ + part1 + part2);

        let ghost part3 = if !is_plain(own) {
            Seq::empty()
        } else {
            match tail(topic@) {
                Some(rest) => deliveries(under(at, own), rest),
                None => at(own).recipients(),
            }
        };
        if !is_char(topic_slicer.head, '*') && !is_char(topic_slicer.head, '#') {
            proof {
                self.lemma_child_deliveries(own, tail(topic@));
            }
            if let Some(entry) = topic_map_get(&self.exact, topic_slicer.head) {
                entry.dispatch(topic_slicer.tail, out);
            }
        }
        assert(out@ =~= old(out)@ + part1 + part2 + part3);
        assert(deliveries(at, topic@) == part1 + (part2 + part3));
        assert(old(out)@ + part1 + part2 + part3 =~= old(out)@ + (part1 + (part2 + part3)));
    }

    /// What is delivered under one path component is what the entry for it delivers.
    proof fn lemma_child_deliveries(self, k: Seq<char>, rest: Option<Seq<char>>)
        requires
            !k.contains('/'),
            k != any_recursive(),
        ensures
            ({
                let delivered = match self.child(k) {
                    Some(e) => e.deliveries(rest),
                    None => Seq::empty(),
                };
                match rest {
                    Some(rest) => deliveries(under(self.subs(), k), rest) == delivered,
                    None => self.at(k).recipients() == delivered,
                }
            }),
    {
        lemma_single(k);
        assert(SubscriptionView::empty().recipients() =~= Seq::empty());
        if let Some(rest) = rest {
            let here = under(self.subs(), k);
            assert forall|p: Seq<char>| #[trigger]
                self.at(join(k, p)) == (match self.child(k) {
                    Some(e) => e.children.at(p),
                    None => SubscriptionView::empty(),
                }) by {
                lemma_join(k, p);
            }
            match self.child(k) {
                Some(e) => {
                    assert(here =~= e.children.subs());
                },
                None => {
                    lemma_no_deliveries(here, rest);
                },
            }
        }
    }

    fn remove_closed(&mut self, topic: &str, closed: &Vec<Recipient>)
        ensures
            forall|p: Seq<char>| #[trigger]
                final(self).at(p) == (if pattern_matches(p, topic@) {
                    old(self).at(p).pruned(closed@)
                } else {
                    old(self).at(p)
                }),
            forall|p: Seq<char>| #[trigger] final(self).has(p) == old(self).has(p),
        decreases topic@.len() + 1, 0nat,
    {
        let topic_slicer = TopicSlicer::new(topic);
        self.any_recursive.remove_closed(closed);
        if let Some(entry) = &mut self.any {
            entry.remove_closed(topic_slicer.tail, closed);
        }
        if !is_char(topic_slicer.head, '*') && !is_char(topic_slicer.head, '#') {
            if let Some(entry) = topic_map_get_mut(&mut self.exact, topic_slicer.head) {
                entry.remove_closed(topic_slicer.tail, closed);
            }
        }
        proof {
            assert(SubscriptionView::empty().pruned(closed@) == SubscriptionView::empty());
            assert forall|p: Seq<char>| #[trigger]
                self.at(p) == (if pattern_matches(p, topic@) {
                    old(self).at(p).pruned(closed@)
                } else {
                    old(self).at(p)
                }) by {
                let k = head(p);
                if k != any_recursive() {
                    assert(pattern_matches(p, topic@) == ((k == any() || k == head(topic@))
                        && rest_matches(tail(p), tail(topic@))));
                    match old(self).child(k) {
                        Some(e) => {
                            assert(old(self).at(p) == e.at(tail(p)));
                            let f = self.child(k)->0;
                            assert(self.at(p) == f.at(tail(p)));
                        },
                        None => {},
                    }
                }
            }
            assert forall|p: Seq<char>| #[trigger] self.has(p) == old(self).has(p) by {
                let k = head(p);
                if k != any_recursive() {
                    if let Some(e) = old(self).child(k) {
                        assert(old(self).has(p) == e.has(tail(p)));
                        assert(self.has(p) == (self.child(k)->0).has(tail(p)));
                    }
                }
            }
        }
    }
}

impl SubscriptionSetEntry {
    spec fn deliveries(self, rest: Option<Seq<char>>) -> Seq<Recipient> {
        match rest {
            Some(topic) => deliveries(self.children.subs(), topic),
            None => self.sub@.recipients(),
        }
    }

    fn dispatch(&self, rest: Option<&str>, out: &mut Vec<Recipient>)
        ensures
            final(out)@ == old(out)@ + self.deliveries(
                match rest {
                    Some(t) => Some(t@),
                    None => None,
                },
            ),
        decreases
                (match rest {
                    Some(t) => t@.len() + 1,
                    None => 0,
                }),
                1nat,
    {
        match rest {
            Some(sub_topic) => self.children.dispatch(sub_topic, out),
            None => self.sub.dispatch(out),
        }
    }

    fn remove_closed(&mut self, rest: Option<&str>, closed: &Vec<Recipient>)
        ensures
            forall|p: Option<Seq<char>>| #[trigger]
                final(self).at(p) == (if rest_matches(
                    p,
                    match rest {
                        Some(t) => Some(t@),
                        None => None,
                    },
                ) {
                    old(self).at(p).pruned(closed@)
                } else {
                    old(self).at(p)
                }),
            forall|p: Option<Seq<char>>| #[trigger] final(self).has(p) == old(self).has(p),
        decreases
                (match rest {
                    Some(t) => t@.len() + 1,
                    None => 0,
                }),
                1nat,
    {
        match rest {
            Some(sub_topic) => self.children.remove_closed(sub_topic, closed),
            None => self.sub.remove_closed(closed),
        }
    }
}

/// Root struct of the subscription tree
pub struct SubscriptionSet {
    root: SubscriptionSetNode,
}

impl SubscriptionSet {
    /// The subscription object corresponding to a topic pattern; an empty one for a topic
    /// pattern that was never subscribed to.
    pub closed spec fn at(&self, pattern: Seq<char>) -> SubscriptionView {
        self.root.at(pattern)
    }

    /// The subscription objects corresponding to all topic patterns.
    pub open spec fn subs(&self) -> spec_fn(Seq<char>) -> SubscriptionView {
        |p: Seq<char>| self.at(p)
    }

    /// Whether the tree has a place for the subscription object of a topic pattern.
    pub closed spec fn has(&self, pattern: Seq<char>) -> bool {
        self.root.has(pattern)
    }

    /// Nothing is held under an invalid pattern.
    pub proof fn lemma_absent(&self, pattern: Seq<char>)
        ensures
            !valid_pattern(pattern) ==> self.at(pattern) == SubscriptionView::empty(),
    {
        self.root.lemma_absent(pattern);
    }

    /// Every set has a place for the pattern that matches everything.
    pub proof fn law_has_any_recursive(&self)
        ensures
            self.has(any_recursive()),
    {
        lemma_component(any_recursive());
        lemma_single(any_recursive());
    }

    /// Instantiates an empty set.
    pub fn new() -> (r: Self)
        ensures
            forall|p: Seq<char>| #[trigger] r.at(p) == SubscriptionView::empty(),
            forall|p: Seq<char>| #[trigger] r.has(p) <==> p == any_recursive(),
    {
        SubscriptionSet { root: SubscriptionSetNode::new() }
    }

    /// Lists the receivers matching the topic of a message, for the message to be handed
    /// to each of them.
    pub fn dispatch(&self, topic: &str) -> (r: Vec<Recipient>)
        ensures
            r@ == deliveries(self.subs(), topic@),
    {
        let mut out: Vec<Recipient> = Vec::new();
        self.root.dispatch(topic, &mut out);
        assert(self.subs() =~= self.root.subs());
        assert(out@ =~= deliveries(self.subs(), topic@));
        out
    }

    /// Lists all the receivers in this set, those of each topic pattern in their order; the
    /// order of the topic patterns is left open.
    pub fn recipients(&self) -> (r: Vec<Recipient>)
        ensures
            exists|patterns: Seq<Seq<char>>| #[trigger]
                covers(self.subs(), patterns) && r@ == gathered(self.subs(), patterns),
    {
        let mut out: Vec<Recipient> = Vec::new();
        let Ghost(patterns) = self.root.collect(&mut out);
        assert(self.subs() =~= self.root.subs());
        assert(out@ =~= gathered(self.subs(), patterns));
        assert(covers(self.subs(), patterns));
        out
    }

    /// Removes the queues that turned out to be closed when a message with the specified
    /// topic was handed to them.
    pub fn remove_closed(&mut self, topic: &str, closed: &Vec<Recipient>)
        ensures
            forall|p: Seq<char>| #[trigger]
                final(self).at(p) == (if pattern_matches(p, topic@) {
                    old(self).at(p).pruned(closed@)
                } else {
                    old(self).at(p)
                }),
            forall|p: Seq<char>| #[trigger] final(self).has(p) == old(self).has(p),
    {
        self.root.remove_closed(topic, closed);
    }

    /// Gets the subscription object corresponding the provided topic pattern.
    /// Creates it if it doesn't already exist.
    ///
    /// Returns `Err(())` if the topic pattern is invalid (for instance, if a '#'
    /// is used before the end of the topic path).
    pub fn get_or_create(&mut self, topic: &str) -> (r: Result<&mut Subscription, ()>)
        ensures
            match r {
                Ok(sub) => {
                    &&& valid_pattern(topic@)
                    &&& final(self).has(topic@)
                    &&& sub@ == old(self).at(topic@)
                    &&& final(self).at(topic@) == (*final(sub))@
                    &&& forall|p: Seq<char>| p != topic@ ==> #[trigger] final(self).at(p) == old(
                        self,
                    ).at(p)
                },
                Err(_) => {
                    &&& !valid_pattern(topic@)
                    &&& forall|p: Seq<char>| #[trigger] final(self).at(p) == old(self).at(p)
                },
            },
            forall|p: Seq<char>| #[trigger]
                final(self).has(p) <==> old(self).has(p) || makes_place(topic@, p),
    {
        proof {
            if valid_pattern(topic@) && topic@ != any_recursive() {
                law_place_is_made(topic@);
            }
            self.law_has_any_recursive();
        }
        self.root.get_or_create(topic)
    }

    /// Gets the subscription object corresponding the provided topic pattern.
    ///
    /// Returns `Ok(Some(_))` if the subscription object exists, `Ok(None)` if
    /// it does not, and `Err(())` if the topic pattern is invalid (for instance,
    /// if a '#' is used before the end of the topic path).
    ///
    /// Note that if a value is returned, it doesn't necessarily mean that the
    /// client has subscribed to this topic. For that, check
    /// [`Subscription::is_subscribed()`].
    pub fn get(&mut self, topic: &str) -> (r: Result<Option<&mut Subscription>, ()>)
        ensures
            match r {
                Ok(Some(sub)) => {
                    &&& valid_pattern(topic@)
                    &&& old(self).has(topic@)
                    &&& sub@ == old(self).at(topic@)
                    &&& final(self).at(topic@) == (*final(sub))@
                    &&& forall|p: Seq<char>| p != topic@ ==> #[trigger] final(self).at(p) == old(
                        self,
                    ).at(p)
                },
                Ok(None) => {
                    &&& valid_pattern(topic@)
                    &&& !old(self).has(topic@)
                    &&& old(self).at(topic@) == SubscriptionView::empty()
                    &&& forall|p: Seq<char>| #[trigger] final(self).at(p) == old(self).at(p)
                },
                Err(_) => {
                    &&& !valid_pattern(topic@)
                    &&& forall|p: Seq<char>| #[trigger] final(self).at(p) == old(self).at(p)
                },
            },
            forall|p: Seq<char>| #[trigger] final(self).has(p) == old(self).has(p),
    {
        self.root.get(topic)
    }

    /// Removes all subscriptions contained in the subscription object corresponding
    /// the provided topic pattern.
    ///
    /// Returns `Ok(true)` if the subscription object exists, was subscribed and was
    /// cleared, `Ok(false)` otherwise or `Err(())` if the topic pattern is invalid
    /// (for instance, if a '#' is used before the end of the topic path).
    ///
    /// Intermediate nodes are kept, even if they do not contain any subscription.
    pub fn clear(&mut self, topic: &str) -> (r: Result<bool, ()>)
        ensures
            r == (if !valid_pattern(topic@) {
                Err::<bool, ()>(())
            } else {
                Ok::<bool, ()>(old(self).at(topic@).subscribed)
            }),
            forall|p: Seq<char>| #[trigger]
                final(self).at(p) == (if valid_pattern(p) && p == topic@ && old(self).at(
                    p,
                ).subscribed {
                    SubscriptionView::empty()
                } else {
                    old(self).at(p)
                }),
            forall|p: Seq<char>| #[trigger] final(self).has(p) == old(self).has(p),
    {
        if let Some(sub) = self.get(topic)? {
            if sub.is_subscribed() {
                sub.clear();
                return Ok(true);
            }
        }
        Ok(false)
    }
}

proof fn lemma_matching_is_reached(
    at: spec_fn(Seq<char>) -> SubscriptionView,
    topic: Seq<char>,
    p: Seq<char>,
    r: Recipient,
)
    requires
        pattern_matches(p, topic),
        at(p).recipients().contains(r),
    ensures
        deliveries(at, topic).contains(r),
    decreases topic.len(),
{
    let k = head(p);
    let own = head(topic);
    lemma_component(p);
    let part1 = at(any_recursive()).recipients();
    match tail(topic) {
        Some(rest) => {
            let part2 = deliveries(under(at, any()), rest);
            let part3 = if is_plain(own) {
                deliveries(under(at, own), rest)
            } else {
                Seq::empty()
            };
            assert(deliveries(at, topic) == part1 + (part2 + part3));
            lemma_contains3(part1, part2, part3, r);
            if k == any_recursive() {
                lemma_single(any_recursive());
                lemma_split_is_unique(p, any_recursive());
            } else {
                let q = tail(p)->0;
                lemma_join(k, q);
                lemma_split_is_unique(p, join(k, q));
                lemma_matching_is_reached(under(at, k), rest, q, r);
            }
        },
        None => {
            let part2 = at(any()).recipients();
            let part3 = if is_plain(own) {
                at(own).recipients()
            } else {
                Seq::empty()
            };
            assert(deliveries(at, topic) == part1 + (part2 + part3));
            lemma_contains3(part1, part2, part3, r);
            lemma_single(k);
            lemma_split_is_unique(p, k);
        },
    }
}

proof fn lemma_contains3(a: Seq<Recipient>, b: Seq<Recipient>, c: Seq<Recipient>, r: Recipient)
    ensures
        (a + (b + c)).contains(r) <==> a.contains(r) || b.contains(r) || c.contains(r),
{
    let all = a + (b + c);
    if a.contains(r) {
        assert(all[a.index_of(r)] == r);
    }
    if b.contains(r) {
        assert(all[a.len() + b.index_of(r)] == r);
    }
    if c.contains(r) {
        assert(all[a.len() + b.len() + c.index_of(r)] == r);
    }
    if all.contains(r) {
        let i = all.index_of(r);
        if i < a.len() {
            assert(a[i] == r);
        } else if i < a.len() + b.len() {
            assert(b[i - a.len()] == r);
        } else {
            assert(c[i - a.len() - b.len()] == r);
        }
    }
}

proof fn lemma_reached_is_matching(
    at: spec_fn(Seq<char>) -> SubscriptionView,
    topic: Seq<char>,
    r: Recipient,
) -> (p: Seq<char>)
    requires
        deliveries(at, topic).contains(r),
    ensures
        pattern_matches(p, topic),
        at(p).recipients().contains(r),
    decreases topic.len(),
{
    let own = head(topic);
    let part1 = at(any_recursive()).recipients();
    lemma_component(topic);
    lemma_single(any_recursive());
    lemma_single(any());
    match tail(topic) {
        Some(rest) => {
            let part2 = deliveries(under(at, any()), rest);
            let part3 = if is_plain(own) {
                deliveries(under(at, own), rest)
            } else {
                Seq::empty()
            };
            assert(deliveries(at, topic) == part1 + (part2 + part3));
            lemma_contains3(part1, part2, part3, r);
            if part1.contains(r) {
                any_recursive()
            } else {
                let k = if part2.contains(r) {
                    any()
                } else {
                    own
                };
                let q = lemma_reached_is_matching(under(at, k), rest, r);
                lemma_join(k, q);
                join(k, q)
            }
        },
        None => {
            let part2 = at(any()).recipients();
            let part3 = if is_plain(own) {
                at(own).recipients()
            } else {
                Seq::empty()
            };
            assert(deliveries(at, topic) == part1 + (part2 + part3));
            lemma_contains3(part1, part2, part3, r);
            lemma_single(own);
            if part1.contains(r) {
                any_recursive()
            } else if part2.contains(r) {
                any()
            } else {
                own
            }
        },
    }
}

/// A message goes to exactly the receivers that are subscribed to a pattern which matches
/// the message's topic.
pub proof fn law_dispatch_follows_patterns(
    at: spec_fn(Seq<char>) -> SubscriptionView,
    topic: Seq<char>,
    r: Recipient,
)
    ensures
        deliveries(at, topic).contains(r) <==> exists|p: Seq<char>| #[trigger]
            pattern_matches(p, topic) && at(p).recipients().contains(r),
{
    if deliveries(at, topic).contains(r) {
        let p = lemma_reached_is_matching(at, topic, r);
        assert(pattern_matches(p, topic) && at(p).recipients().contains(r));
    }
    if exists|p: Seq<char>| #[trigger]
        pattern_matches(p, topic) && at(p).recipients().contains(r) {
        let p = choose|p: Seq<char>| #[trigger]
            pattern_matches(p, topic) && at(p).recipients().contains(r);
        lemma_matching_is_reached(at, topic, p, r);
    }
}

/// Only a valid pattern matches anything.
pub proof fn law_matching_patterns_are_valid(pattern: Seq<char>, topic: Seq<char>)
    requires
        pattern_matches(pattern, topic),
    ensures
        valid_pattern(pattern),
    decreases pattern.len(),
{
    if let Some(rest) = tail(pattern) {
        law_matching_patterns_are_valid(rest, tail(topic)->0);
    }
}

/// A topic without wildcards in it is a pattern that matches itself and nothing else.
pub proof fn law_exact_pattern(pattern: Seq<char>, topic: Seq<char>)
    requires
        !pattern.contains('*'),
        !pattern.contains('#'),
    ensures
        pattern_matches(pattern, topic) <==> pattern == topic,
    decreases pattern.len(),
{
    let k = head(pattern);
    lemma_head_len(pattern);
    if k == any() || k == any_recursive() {
        assert(k.len() == 1);
        assert(pattern[0] == k[0]);
        assert(pattern.contains(k[0]));
    }
    if let Some(rest) = tail(pattern) {
        assert(rest == pattern.skip(k.len() as int + 1));
        assert forall|c: char| rest.contains(c) implies pattern.contains(c) by {
            let i = rest.index_of(c);
            assert(pattern[i + k.len() + 1] == c);
        }
        if let Some(rest_topic) = tail(topic) {
            law_exact_pattern(rest, rest_topic);
        }
    }
    if head(topic) == k && tail(topic) == tail(pattern) {
        lemma_split_is_unique(topic, pattern);
    }
}

/// The pattern '#' matches every topic, and '*' every topic of a single component.
pub proof fn law_wildcards(topic: Seq<char>)
    ensures
        pattern_matches(any_recursive(), topic),
        pattern_matches(any(), topic) <==> !topic.contains('/'),
{
    lemma_component(topic);
    lemma_single(any_recursive());
    lemma_single(any());
    lemma_head_len(topic);
    if topic.contains('/') {
        let i = topic.index_of('/');
        assert(i >= head_len(topic));
    } else if head_len(topic) < topic.len() {
        assert(topic.contains(topic[head_len(topic) as int]));
    }
}

/// A pattern with further components behind its first one matches a topic component by
/// component.
pub proof fn law_wildcards_by_component(component: Seq<char>, rest: Seq<char>, topic: Seq<char>)
    requires
        !component.contains('/'),
        component != any_recursive(),
    ensures
        pattern_matches(join(component, rest), topic) <==> (component == any() || component == head(
            topic,
        )) && (tail(topic) matches Some(t) && pattern_matches(rest, t)),
{
    lemma_join(component, rest);
}

/// A message is handed once to each receiver of the one subscription there is, if its
/// pattern matches the message's topic, and otherwise to nothing.
pub proof fn law_dispatch_of_one_subscription(
    at: spec_fn(Seq<char>) -> SubscriptionView,
    pattern: Seq<char>,
    topic: Seq<char>,
)
    requires
        forall|p: Seq<char>|
            p != pattern ==> (#[trigger] at(p)).recipients() == Seq::<Recipient>::empty(),
    ensures
        deliveries(at, topic) == (if pattern_matches(pattern, topic) {
            at(pattern).recipients()
        } else {
            Seq::empty()
        }),
    decreases topic.len(),
{
    let own = head(topic);
    let k = head(pattern);
    let part1 = at(any_recursive()).recipients();
    lemma_component(topic);
    lemma_component(pattern);
    lemma_single(any_recursive());
    lemma_single(any());
    lemma_single(own);
    if tail(pattern) is None {
        lemma_single(k);
        lemma_split_is_unique(pattern, k);
    }
    let expected = if pattern_matches(pattern, topic) {
        at(pattern).recipients()
    } else {
        Seq::empty()
    };
    match tail(topic) {
        Some(rest) => {
            lemma_deliveries_under(at, pattern, any(), rest);
            lemma_deliveries_under(at, pattern, own, rest);
            if let Some(q) = tail(pattern) {
                lemma_join(k, q);
                lemma_split_is_unique(pattern, join(k, q));
                if k == any() || k == own {
                    assert forall|p: Seq<char>| p != q implies (#[trigger] under(at, k)(
                        p,
                    )).recipients() == Seq::<Recipient>::empty() by {
                        lemma_join(k, p);
                    }
                    law_dispatch_of_one_subscription(under(at, k), q, rest);
                }
            }
            assert(deliveries(at, topic) =~= expected);
        },
        None => {
            assert(deliveries(at, topic) =~= expected);
        },
    }
}

/// What is delivered under a component that the one subscription there is does not start
/// with is nothing.
proof fn lemma_deliveries_under(
    at: spec_fn(Seq<char>) -> SubscriptionView,
    pattern: Seq<char>,
    component: Seq<char>,
    rest: Seq<char>,
)
    requires
        !component.contains('/'),
        forall|p: Seq<char>|
            p != pattern ==> (#[trigger] at(p)).recipients() == Seq::<Recipient>::empty(),
    ensures
        component != head(pattern) || tail(pattern) is None ==> deliveries(
            under(at, component),
            rest,
        ) == Seq::<Recipient>::empty(),
{
    if component != head(pattern) || tail(pattern) is None {
        assert forall|p: Seq<char>| (#[trigger] under(at, component)(p)).recipients() == Seq::<
            Recipient,
        >::empty() by {
            lemma_join(component, p);
        }
        lemma_no_deliveries(under(at, component), rest);
    }
}

/// A receiver that was added to a subscription is reached by every message whose topic
/// the pattern matches.
pub proof fn law_added_receiver_is_reached(
    at: spec_fn(Seq<char>) -> SubscriptionView,
    pattern: Seq<char>,
    kind: SubscriptionKind,
    before: SubscriptionView,
    topic: Seq<char>,
)
    requires
        at(pattern) == before.with(kind),
        increasing(before.callbacks),
        pattern_matches(pattern, topic),
    ensures
        kind matches SubscriptionKind::Lossy(q) ==> deliveries(at, topic).contains(
            Recipient::Lossy(q),
        ),
        kind matches SubscriptionKind::Unbounded(q) ==> deliveries(at, topic).contains(
            Recipient::Unbounded(q),
        ),
        kind matches SubscriptionKind::FastCallback(cb) ==> deliveries(at, topic).contains(
            Recipient::Callback(cb.id),
        ),
{
    let after = at(pattern);
    let lossy = after.lossy.map_values(|q: u64| Recipient::Lossy(q));
    let unbounded = after.unbounded.map_values(|q: u64| Recipient::Unbounded(q));
    let callbacks = after.callbacks.map_values(|id: u32| Recipient::Callback(id));
    assert(after.recipients() =~= lossy + (unbounded + callbacks));
    match kind {
        SubscriptionKind::Void => {},
        SubscriptionKind::Lossy(q) => {
            assert(lossy[before.lossy.len() as int] == Recipient::Lossy(q));
            lemma_contains3(lossy, unbounded, callbacks, Recipient::Lossy(q));
            lemma_matching_is_reached(at, topic, pattern, Recipient::Lossy(q));
        },
        SubscriptionKind::Unbounded(q) => {
            assert(unbounded[before.unbounded.len() as int] == Recipient::Unbounded(q));
            lemma_contains3(lossy, unbounded, callbacks, Recipient::Unbounded(q));
            lemma_matching_is_reached(at, topic, pattern, Recipient::Unbounded(q));
        },
        SubscriptionKind::FastCallback(cb) => {
            law_callback_ids(before.callbacks, cb.id);
            assert(after.callbacks.contains(cb.id));
            assert(callbacks[after.callbacks.index_of(cb.id)] == Recipient::Callback(cb.id));
            lemma_contains3(lossy, unbounded, callbacks, Recipient::Callback(cb.id));
            lemma_matching_is_reached(at, topic, pattern, Recipient::Callback(cb.id));
        },
    }
}

/// A valid pattern has a place for its subscription object once it was asked for.
pub proof fn law_place_is_made(topic: Seq<char>)
    requires
        valid_pattern(topic),
        topic != any_recursive(),
    ensures
        makes_place(topic, topic),
    decreases topic.len(),
{
    lemma_component(topic);
    lemma_single(any_recursive());
    if let Some(rest) = tail(topic) {
        if rest != any_recursive() {
            law_place_is_made(rest);
        }
    } else {
        lemma_single(head(topic));
        lemma_split_is_unique(topic, head(topic));
    }
}

/// The receivers of some topic patterns, one pattern after the other.
pub open spec fn gathered(
    at: spec_fn(Seq<char>) -> SubscriptionView,
    patterns: Seq<Seq<char>>,
) -> Seq<Recipient>
    decreases patterns.len(),
{
    if patterns.len() == 0 {
        Seq::empty()
    } else {
        gathered(at, patterns.drop_last()) + at(patterns.last()).recipients()
    }
}

/// Whether some topic patterns are different ones, and every other one has no receivers.
pub open spec fn covers(
    at: spec_fn(Seq<char>) -> SubscriptionView,
    patterns: Seq<Seq<char>>,
) -> bool {
    &&& patterns.no_duplicates()
    &&& forall|p: Seq<char>|
        (#[trigger] at(p)).recipients().len() > 0 ==> patterns.contains(p)
}

proof fn lemma_gathered_one(at: spec_fn(Seq<char>) -> SubscriptionView, pattern: Seq<char>)
    ensures
        gathered(at, seq![pattern]) == at(pattern).recipients(),
{
    assert(seq![pattern].drop_last() =~= Seq::empty());
    assert(gathered(at, Seq::<Seq<char>>::empty()) =~= Seq::empty());
    assert(gathered(at, seq![pattern]) =~= at(pattern).recipients());
}

proof fn lemma_gathered_concat(
    at: spec_fn(Seq<char>) -> SubscriptionView,
    a: Seq<Seq<char>>,
    b: Seq<Seq<char>>,
)
    ensures
        gathered(at, a + b) == gathered(at, a) + gathered(at, b),
    decreases b.len(),
{
    if b.len() == 0 {
        assert(a + b =~= a);
        assert(gathered(at, a) + gathered(at, b) =~= gathered(at, a));
    } else {
        assert((a + b).drop_last() =~= a + b.drop_last());
        lemma_gathered_concat(at, a, b.drop_last());
        assert(gathered(at, a + b) =~= gathered(at, a) + gathered(at, b));
    }
}

proof fn lemma_gathered_under(
    at: spec_fn(Seq<char>) -> SubscriptionView,
    component: Seq<char>,
    rests: Seq<Seq<char>>,
)
    ensures
        gathered(at, rests.map_values(|q: Seq<char>| join(component, q))) == gathered(
            under(at, component),
            rests,
        ),
    decreases rests.len(),
{
    let joined = rests.map_values(|q: Seq<char>| join(component, q));
    if rests.len() > 0 {
        assert(joined.drop_last() =~= rests.drop_last().map_values(
            |q: Seq<char>| join(component, q),
        ));
        lemma_gathered_under(at, component, rests.drop_last());
    }
}

/// What is gathered holds exactly the receivers of all topic patterns.
pub proof fn law_gathered_is_everything(
    at: spec_fn(Seq<char>) -> SubscriptionView,
    patterns: Seq<Seq<char>>,
    r: Recipient,
)
    requires
        covers(at, patterns),
    ensures
        gathered(at, patterns).contains(r) <==> exists|p: Seq<char>|
            (#[trigger] at(p)).recipients().contains(r),
{
    lemma_gathered_contains(at, patterns, r);
    if exists|p: Seq<char>| (#[trigger] at(p)).recipients().contains(r) {
        let p = choose|p: Seq<char>| (#[trigger] at(p)).recipients().contains(r);
        assert(at(p).recipients().len() > 0);
        let i = patterns.index_of(p);
        assert(at(patterns[i]).recipients().contains(r));
    }
}

proof fn lemma_gathered_contains(
    at: spec_fn(Seq<char>) -> SubscriptionView,
    patterns: Seq<Seq<char>>,
    r: Recipient,
)
    ensures
        gathered(at, patterns).contains(r) <==> exists|i: int|
            0 <= i < patterns.len() && at(#[trigger] patterns[i]).recipients().contains(r),
    decreases patterns.len(),
{
    if patterns.len() > 0 {
        let less = patterns.drop_last();
        let (a, b) = (gathered(at, less), at(patterns.last()).recipients());
        lemma_gathered_contains(at, less, r);
        lemma_contains3(a, b, Seq::empty(), r);
        assert(a + b =~= a + (b + Seq::empty()));
        if a.contains(r) {
            let i = choose|i: int|
                0 <= i < less.len() && at(#[trigger] less[i]).recipients().contains(r);
            assert(patterns[i] == less[i]);
        }
        if b.contains(r) {
            assert(at(patterns[patterns.len() - 1]).recipients().contains(r));
        }
        if exists|i: int|
            0 <= i < patterns.len() && at(#[trigger] patterns[i]).recipients().contains(r) {
            let i = choose|i: int|
                0 <= i < patterns.len() && at(#[trigger] patterns[i]).recipients().contains(r);
            if i < less.len() {
                assert(less[i] == patterns[i]);
            }
        }
    }
}

/// The patterns that start with the specified component: itself, and itself before each of
/// some further components.
spec fn starting_with(component: Seq<char>, rests: Seq<Seq<char>>) -> Seq<Seq<char>> {
    seq![component] + rests.map_values(|q: Seq<char>| join(component, q))
}

/// Whether a key of the tree can be the component of a topic pattern.
fn is_component(k: &str) -> (r: bool)
    ensures
        r == (!k@.contains('/') && is_plain(k@)),
{
    let r = find(k, '/').is_none() && !is_char(k, '*') && !is_char(k, '#');
    proof {
        lemma_len_before(k@, '/');
        if k@.contains('/') {
            let i = k@.index_of('/');
            assert(k@[i] == '/');
        }
    }
    r
}

impl SubscriptionSetNode {
    /// The receivers under one path component are those of the entry for it.
    proof fn lemma_gathered_child(self, k: Seq<char>, rests: Seq<Seq<char>>)
        requires
            !k.contains('/'),
            k != any_recursive(),
            self.child(k) is Some,
            covers((self.child(k)->0).children.subs(), rests),
        ensures
            ({
                let e = self.child(k)->0;
                let patterns = starting_with(k, rests);
                &&& gathered(self.subs(), patterns) == e.sub@.recipients() + gathered(
                    e.children.subs(),
                    rests,
                )
                &&& patterns.no_duplicates()
                &&& forall|i: int| 0 <= i < patterns.len() ==> head(#[trigger] patterns[i]) == k
                &&& forall|p: Seq<char>|
                    head(p) == k && (#[trigger] self.at(p)).recipients().len() > 0
                        ==> patterns.contains(p)
            }),
    {
        let e = self.child(k)->0;
        let at = self.subs();
        let joined = rests.map_values(|q: Seq<char>| join(k, q));
        let patterns = starting_with(k, rests);
        lemma_single(k);
        assert forall|q: Seq<char>| #[trigger] self.at(join(k, q)) == e.children.at(q) by {
            lemma_join(k, q);
        }
        assert(under(at, k) =~= e.children.subs());
        lemma_gathered_under(at, k, rests);
        lemma_gathered_concat(at, seq![k], joined);
        lemma_gathered_one(at, k);
        assert forall|i: int| 0 <= i < patterns.len() implies head(#[trigger] patterns[i]) == k && (
        i > 0 ==> tail(patterns[i]) == Some(rests[i - 1])) by {
            if i > 0 {
                assert(patterns[i] == join(k, rests[i - 1]));
                lemma_join(k, rests[i - 1]);
            }
        }
        assert forall|i: int, j: int|
            0 <= i < patterns.len() && 0 <= j < patterns.len() && i != j implies patterns[i]
            != patterns[j] by {
            if i > 0 && j > 0 {
                assert(rests[i - 1] != rests[j - 1]);
            } else if i > 0 {
                assert(tail(patterns[i]) is Some);
            } else {
                assert(tail(patterns[j]) is Some);
            }
        }
        assert forall|p: Seq<char>|
            head(p) == k && (#[trigger] self.at(p)).recipients().len() > 0 implies patterns.contains(
            p,
        ) by {
            match tail(p) {
                Some(q) => {
                    lemma_join(k, q);
                    lemma_split_is_unique(p, join(k, q));
                    assert(e.children.subs()(q).recipients().len() > 0);
                    let i = rests.index_of(q);
                    assert(patterns[i + 1] == join(k, q));
                },
                None => {
                    lemma_split_is_unique(p, k);
                    assert(patterns[0] == k);
                },
            }
        }
    }

    /// Lists the receivers below this node, and the patterns that lead to them.
    fn collect(&self, out: &mut Vec<Recipient>) -> (patterns: Ghost<Seq<Seq<char>>>)
        ensures
            covers(self.subs(), patterns@),
            final(out)@ == old(out)@ + gathered(self.subs(), patterns@),
        decreases self,
    {
        let ghost at = self.subs();
        let ghost mut patterns: Seq<Seq<char>> = seq![any_recursive()];
        proof {
            lemma_component(any_recursive());
            lemma_single(any_recursive());
            lemma_gathered_one(at, any_recursive());
        }
        self.any_recursive.dispatch(out);
        if let Some(entry) = &self.any {
            let ghost held = out@;
            entry.sub.dispatch(out);
            let Ghost(rests) = entry.children.collect(out);
            proof {
                let added = starting_with(any(), rests);
                self.lemma_gathered_child(any(), rests);
                lemma_gathered_concat(at, patterns, added);
                lemma_disjoint_concat(patterns, added, any());
                assert(out@ =~= old(out)@ + (gathered(at, patterns) + gathered(at, added)));
                patterns = patterns + added;
            }
        }
        let keys = topic_map_keys(&self.exact);
        let mut i: usize = 0;
        proof {
            vstd::seq_lib::seq_to_set_is_finite(keys@);
        }
        assert forall|p: Seq<char>|
            (head(p) == any() || head(p) == any_recursive()) && (
            #[trigger] self.at(p)).recipients().len() > 0 implies patterns.contains(p) by {
            assert(SubscriptionView::empty().recipients() =~= Seq::empty());
            if head(p) == any_recursive() {
                lemma_split_is_unique(p, any_recursive());
                assert(patterns[0] == p);
            } else {
                let added = patterns.skip(1);
                assert(added.contains(p));
                let j = added.index_of(p);
                assert(patterns[j + 1] == p);
            }
        }
        while i < keys.len()
            invariant
                i <= keys@.len(),
                at == self.subs(),
                self.exact@.dom().finite(),
                forall|a: int, b: int|
                    0 <= a < keys@.len() && 0 <= b < keys@.len() && a != b
                        ==> #[trigger] keys@[a]@ != #[trigger] keys@[b]@,
                forall|a: int|
                    0 <= a < keys@.len() ==> by_topic(self.exact@).contains_key(
                        #[trigger] keys@[a]@,
                    ),
                out@ == old(out)@ + gathered(at, patterns),
                patterns.no_duplicates(),
                forall|p: Seq<char>| #[trigger]
                    patterns.contains(p) ==> head(p) == any() || head(p) == any_recursive()
                        || exists|a: int| 0 <= a < i && head(p) == #[trigger] keys@[a]@,
                forall|p: Seq<char>|
                    (head(p) == any() || head(p) == any_recursive()) && (
                    #[trigger] self.at(p)).recipients().len() > 0 ==> patterns.contains(p),
                forall|a: int, p: Seq<char>|
                    0 <= a < i && head(p) == #[trigger] keys@[a]@ && (
                    #[trigger] self.at(p)).recipients().len() > 0 ==> patterns.contains(p),
            decreases keys@.len() - i,
        {
            let ghost k = keys@[i as int]@;
            let ghost before = patterns;
            if is_component(keys[i].as_str()) {
                if let Some(entry) = topic_map_get(&self.exact, keys[i].as_str()) {
                    proof {
                        self.lemma_child_is_smaller(k);
                    }
                    entry.sub.dispatch(out);
                    let Ghost(rests) = entry.children.collect(out);
                    proof {
                        let added = starting_with(k, rests);
                        self.lemma_gathered_child(k, rests);
                        lemma_gathered_concat(at, patterns, added);
                        assert forall|p: Seq<char>| #[trigger]
                            patterns.contains(p) implies head(p) != k by {}
                        lemma_disjoint_concat(patterns, added, k);
                        assert(out@ =~= old(out)@ + (gathered(at, patterns) + gathered(at, added)));
                        patterns = patterns + added;
                    }
                }
            }
            proof {
                assert forall|p: Seq<char>| #[trigger] before.contains(p) implies patterns.contains(
                    p,
                ) by {
                    assert(patterns[before.index_of(p)] == p);
                }
                assert forall|p: Seq<char>|
                    head(p) == k && (
                    #[trigger] self.at(p)).recipients().len() > 0 implies patterns.contains(p) by {
                    assert(SubscriptionView::empty().recipients() =~= Seq::empty());
                    lemma_component(p);
                    if is_plain(k) {
                        let added = patterns.skip(before.len() as int);
                        assert(added.contains(p));
                        assert(patterns[before.len() + added.index_of(p)] == p);
                    }
                }
                assert forall|p: Seq<char>| #[trigger] patterns.contains(p) implies head(p) == any()
                    || head(p) == any_recursive() || exists|a: int|
                    0 <= a < i + 1 && head(p) == #[trigger] keys@[a]@ by {
                    let j = patterns.index_of(p);
                    if j < before.len() {
                        assert(before[j] == p);
                        assert(before.contains(p));
                    } else {
                        assert(head(p) == keys@[i as int]@);
                    }
                }
            }
            i += 1;
        }
        proof {
            assert forall|p: Seq<char>|
                (#[trigger] at(p)).recipients().len() > 0 implies patterns.contains(p) by {
                assert(SubscriptionView::empty().recipients() =~= Seq::empty());
                assert(at(p) == self.at(p));
                if is_plain(head(p)) {
                    assert(by_topic(self.exact@).contains_key(head(p)));
                    let a = choose|a: int| 0 <= a < keys@.len() && keys@[a]@ == head(p);
                    assert(keys@[a]@ == head(p));
                }
            }
        }
        Ghost(patterns)
    }

    /// An entry is smaller than the node that it belongs to.
    proof fn lemma_child_is_smaller(self, k: Seq<char>)
        requires
            k != any(),
            self.child(k) is Some,
            self.exact@.dom().finite(),
        ensures
            decreases_to!(self => (self.child(k)->0).children),
    {
        let m = self.exact@;
        let s = choose|s: String| #[trigger] m.contains_key(s) && s@ == k;
        assert(m.contains_key(s));
        vstd::std_specs::hash::axiom_hashmap_decreases(self.exact);
        assert(decreases_to!(self => self.exact));
        assert(decreases_to!(m => m[s]));
        assert(decreases_to!(m[s] => m[s].children));
    }
}

proof fn lemma_disjoint_concat(a: Seq<Seq<char>>, b: Seq<Seq<char>>, k: Seq<char>)
    requires
        a.no_duplicates(),
        b.no_duplicates(),
        forall|p: Seq<char>| #[trigger] a.contains(p) ==> head(p) != k,
        forall|i: int| 0 <= i < b.len() ==> head(#[trigger] b[i]) == k,
    ensures
        (a + b).no_duplicates(),
        (a + b).skip(a.len() as int) == b,
{
    assert((a + b).skip(a.len() as int) =~= b);
    assert forall|i: int, j: int|
        0 <= i < (a + b).len() && 0 <= j < (a + b).len() && i != j implies (a + b)[i] != (a
        + b)[j] by {
        if i < a.len() {
            assert(a.contains(a[i]));
        }
        if j < a.len() {
            assert(a.contains(a[j]));
        }
    }
}

/// The components of a topic, between its slashes.
pub open spec fn components(topic: Seq<char>) -> Seq<Seq<char>>
    decreases topic.len(),
{
    match tail(topic) {
        Some(rest) => seq![head(topic)] + components(rest),
        None => seq![topic],
    }
}

/// A topic pattern is valid if and only if no component but the last is a '#'.
pub proof fn law_valid_patterns(pattern: Seq<char>)
    ensures
        components(pattern).len() > 0,
        valid_pattern(pattern) <==> forall|i: int|
            0 <= i < components(pattern).len() - 1 ==> #[trigger] components(pattern)[i]
                != any_recursive(),
    decreases pattern.len(),
{
    if let Some(rest) = tail(pattern) {
        law_valid_patterns(rest);
        let all = components(pattern);
        assert(all[0] == head(pattern));
        assert forall|i: int| 1 <= i < all.len() implies all[i] == components(rest)[i - 1] by {}
        if valid_pattern(pattern) {
            assert forall|i: int| 0 <= i < all.len() - 1 implies #[trigger] all[i]
                != any_recursive() by {
                if i > 0 {
                    assert(components(rest)[i - 1] != any_recursive());
                }
            }
        }
        if forall|i: int| 0 <= i < all.len() - 1 ==> #[trigger] all[i] != any_recursive() {
            assert(all[0] != any_recursive());
            assert forall|i: int| 0 <= i < components(rest).len() - 1 implies #[trigger] components(
                rest,
            )[i] != any_recursive() by {
                assert(all[i + 1] == components(rest)[i]);
            }
        }
    }
}

/// How often a receiver is in a list.
pub open spec fn times(list: Seq<Recipient>, r: Recipient) -> nat {
    list.to_multiset().count(r)
}

proof fn lemma_times3(a: Seq<Recipient>, b: Seq<Recipient>, c: Seq<Recipient>, r: Recipient)
    ensures
        times(a + (b + c), r) == times(a, r) + times(b, r) + times(c, r),
{
    vstd::seq_lib::lemma_multiset_commutative(b, c);
    vstd::seq_lib::lemma_multiset_commutative(a, b + c);
}

proof fn lemma_times_none(at: spec_fn(Seq<char>) -> SubscriptionView, topic: Seq<char>, r: Recipient)
    requires
        forall|p: Seq<char>| !(#[trigger] at(p)).recipients().contains(r),
    ensures
        times(deliveries(at, topic), r) == 0,
{
    broadcast use vstd::seq_lib::group_to_multiset_ensures;

    law_dispatch_follows_patterns(at, topic, r);
}

/// A message is handed to a receiver as often as the receiver is held under the one pattern
/// that holds it, if that pattern matches the message's topic, and otherwise never, whatever
/// other subscriptions there are. So a receiver that is held once gets a message once.
pub proof fn law_dispatch_hands_out_once(
    at: spec_fn(Seq<char>) -> SubscriptionView,
    pattern: Seq<char>,
    topic: Seq<char>,
    r: Recipient,
)
    requires
        forall|p: Seq<char>| p != pattern ==> !(#[trigger] at(p)).recipients().contains(r),
    ensures
        times(deliveries(at, topic), r) == (if pattern_matches(pattern, topic) {
            times(at(pattern).recipients(), r)
        } else {
            0
        }),
    decreases topic.len(),
{
    broadcast use vstd::seq_lib::group_to_multiset_ensures;

    let own = head(topic);
    let k = head(pattern);
    lemma_component(topic);
    lemma_component(pattern);
    lemma_single(any_recursive());
    lemma_single(any());
    lemma_single(own);
    if tail(pattern) is None {
        lemma_single(k);
        lemma_split_is_unique(pattern, k);
    }
    let part1 = at(any_recursive()).recipients();
    match tail(topic) {
        Some(rest) => {
            let part2 = deliveries(under(at, any()), rest);
            let part3 = if is_plain(own) {
                deliveries(under(at, own), rest)
            } else {
                Seq::empty()
            };
            assert(deliveries(at, topic) == part1 + (part2 + part3));
            lemma_times3(part1, part2, part3, r);
            lemma_times_under(at, pattern, any(), rest, r);
            lemma_times_under(at, pattern, own, rest, r);
            if let Some(q) = tail(pattern) {
                lemma_join(k, q);
                lemma_split_is_unique(pattern, join(k, q));
                if k == any() || k == own {
                    assert forall|p: Seq<char>| p != q implies !(#[trigger] under(at, k)(
                        p,
                    )).recipients().contains(r) by {
                        lemma_join(k, p);
                    }
                    law_dispatch_hands_out_once(under(at, k), q, rest, r);
                }
            }
        },
        None => {
            let part2 = at(any()).recipients();
            let part3 = if is_plain(own) {
                at(own).recipients()
            } else {
                Seq::empty()
            };
            assert(deliveries(at, topic) == part1 + (part2 + part3));
            lemma_times3(part1, part2, part3, r);
        },
    }
}

/// A receiver is not reached under a component that the one pattern which holds it does not
/// start with.
proof fn lemma_times_under(
    at: spec_fn(Seq<char>) -> SubscriptionView,
    pattern: Seq<char>,
    component: Seq<char>,
    rest: Seq<char>,
    r: Recipient,
)
    requires
        !component.contains('/'),
        forall|p: Seq<char>| p != pattern ==> !(#[trigger] at(p)).recipients().contains(r),
    ensures
        component != head(pattern) || tail(pattern) is None ==> times(
            deliveries(under(at, component), rest),
            r,
        ) == 0,
{
    if component != head(pattern) || tail(pattern) is None {
        assert forall|p: Seq<char>| !(#[trigger] under(at, component)(p)).recipients().contains(
            r,
        ) by {
            lemma_join(component, p);
        }
        lemma_times_none(under(at, component), rest, r);
    }
}

/// The recipients of a subscription are its queues and its callbacks.
pub proof fn law_recipients(sub: SubscriptionView, r: Recipient)
    ensures
        sub.recipients().contains(r) <==> match r {
            Recipient::Lossy(q) => sub.lossy.contains(q),
            Recipient::Unbounded(q) => sub.unbounded.contains(q),
            Recipient::Callback(id) => sub.callbacks.contains(id),
        },
        sub.recipients().len() == sub.lossy.len() + sub.unbounded.len() + sub.callbacks.len(),
        forall|i: int|
            0 <= i < sub.lossy.len() ==> sub.recipients()[i] == Recipient::Lossy(
                #[trigger] sub.lossy[i],
            ),
        forall|i: int|
            0 <= i < sub.unbounded.len() ==> sub.recipients()[sub.lossy.len() + i]
                == Recipient::Unbounded(#[trigger] sub.unbounded[i]),
        forall|i: int|
            0 <= i < sub.callbacks.len() ==> sub.recipients()[sub.lossy.len()
                + sub.unbounded.len() + i] == Recipient::Callback(#[trigger] sub.callbacks[i]),
{
    let lossy = sub.lossy.map_values(|q: u64| Recipient::Lossy(q));
    let unbounded = sub.unbounded.map_values(|q: u64| Recipient::Unbounded(q));
    let callbacks = sub.callbacks.map_values(|id: u32| Recipient::Callback(id));
    assert(sub.recipients() =~= lossy + (unbounded + callbacks));
    lemma_contains3(lossy, unbounded, callbacks, r);
    match r {
        Recipient::Lossy(q) => {
            if sub.lossy.contains(q) {
                assert(lossy[sub.lossy.index_of(q)] == r);
            }
            if lossy.contains(r) {
                assert(sub.lossy[lossy.index_of(r)] == q);
            }
        },
        Recipient::Unbounded(q) => {
            if sub.unbounded.contains(q) {
                assert(unbounded[sub.unbounded.index_of(q)] == r);
            }
            if unbounded.contains(r) {
                assert(sub.unbounded[unbounded.index_of(r)] == q);
            }
        },
        Recipient::Callback(id) => {
            if sub.callbacks.contains(id) {
                assert(callbacks[sub.callbacks.index_of(id)] == r);
            }
            if callbacks.contains(r) {
                assert(sub.callbacks[callbacks.index_of(r)] == id);
            }
        },
    }
}

/// A '*' and a '#' are the wildcards, and a topic is split at its slashes.
pub proof fn law_special_characters(topic: Seq<char>)
    ensures
        any() == seq!['*'],
        any_recursive() == seq!['#'],
        !head(topic).contains('/'),
        tail(topic) is None <==> !topic.contains('/'),
        tail(topic) is None ==> head(topic) == topic,
        tail(topic) matches Some(rest) ==> topic == head(topic) + seq!['/'] + rest,
        is_plain(topic) <==> topic != seq!['*'] && topic != seq!['#'],
{
    lemma_component(topic);
    lemma_head_len(topic);
    match tail(topic) {
        Some(rest) => {
            assert(topic =~= head(topic) + seq!['/'] + rest);
            assert(topic[head_len(topic) as int] == '/');
            assert(topic.contains('/'));
        },
        None => {
            assert(topic =~= head(topic));
        },
    }
}

/// When a pattern matches a topic: '#' matches any topic; a single component matches a topic of
/// that single component, or any single component if it is a '*'; further components match
/// component by component.
pub proof fn law_matching(pattern: Seq<char>, topic: Seq<char>)
    ensures
        pattern == seq!['#'] ==> pattern_matches(pattern, topic),
        pattern != seq!['#'] && tail(pattern) is None ==> (pattern_matches(pattern, topic) <==> !(
        topic.contains('/')) && (pattern == seq!['*'] || pattern == topic)),
        tail(pattern) matches Some(rest) ==> (pattern_matches(pattern, topic) <==> head(pattern)
            != seq!['#'] && (head(pattern) == seq!['*'] || head(pattern) == head(topic)) && (tail(
            topic,
        ) matches Some(t) && pattern_matches(rest, t))),
{
    law_special_characters(pattern);
    law_special_characters(topic);
}

/// What adding and removing does to a subscription, part by part.
pub proof fn law_adding(sub: SubscriptionView, q: u64, id: u32)
    requires
        increasing(sub.callbacks),
    ensures
        sub.with(SubscriptionKind::Void) == sub,
        sub.with(SubscriptionKind::Lossy(q)) == (SubscriptionView {
            lossy: sub.lossy.push(q),
            ..sub
        }),
        sub.with(SubscriptionKind::Unbounded(q)) == (SubscriptionView {
            unbounded: sub.unbounded.push(q),
            ..sub
        }),
        ({
            let more = sub.with(SubscriptionKind::FastCallback(FastCallback { id }));
            &&& more == (SubscriptionView { callbacks: more.callbacks, ..sub })
            &&& increasing(more.callbacks)
            &&& forall|x: u32| #[trigger]
                more.callbacks.contains(x) <==> sub.callbacks.contains(x) || x == id
        }),
        ({
            let less = sub.without_callback(id);
            &&& less == (SubscriptionView { callbacks: less.callbacks, ..sub })
            &&& increasing(less.callbacks)
            &&& forall|x: u32| #[trigger]
                less.callbacks.contains(x) <==> sub.callbacks.contains(x) && x != id
        }),
        SubscriptionView::empty().lossy.len() == 0 && SubscriptionView::empty().unbounded.len() == 0,
        SubscriptionView::empty().callbacks.len() == 0 && !SubscriptionView::empty().subscribed,
        increasing(sub.callbacks) <==> forall|i: int, j: int|
            0 <= i < j < sub.callbacks.len() ==> sub.callbacks[i] < sub.callbacks[j],
        receiver_of(SubscriptionKind::Void) == Seq::<Recipient>::empty(),
        receiver_of(SubscriptionKind::Lossy(q)) == seq![Recipient::Lossy(q)],
        receiver_of(SubscriptionKind::Unbounded(q)) == seq![Recipient::Unbounded(q)],
        receiver_of(SubscriptionKind::FastCallback(FastCallback { id })) == seq![
            Recipient::Callback(id),
        ],
{
    law_callback_ids(sub.callbacks, id);
}

proof fn lemma_gathered_times_zero(
    at: spec_fn(Seq<char>) -> SubscriptionView,
    patterns: Seq<Seq<char>>,
    r: Recipient,
)
    requires
        forall|i: int|
            0 <= i < patterns.len() ==> !at(#[trigger] patterns[i]).recipients().contains(r),
    ensures
        times(gathered(at, patterns), r) == 0,
{
    broadcast use vstd::seq_lib::group_to_multiset_ensures;

    lemma_gathered_contains(at, patterns, r);
}

/// A receiver that only one pattern holds is gathered as often as that pattern holds it.
pub proof fn law_gathered_once(
    at: spec_fn(Seq<char>) -> SubscriptionView,
    patterns: Seq<Seq<char>>,
    pattern: Seq<char>,
    r: Recipient,
)
    requires
        covers(at, patterns),
        forall|p: Seq<char>| p != pattern ==> !(#[trigger] at(p)).recipients().contains(r),
    ensures
        times(gathered(at, patterns), r) == times(at(pattern).recipients(), r),
{
    broadcast use vstd::seq_lib::group_to_multiset_ensures;

    if patterns.contains(pattern) {
        let i = patterns.index_of(pattern);
        let before = patterns.take(i);
        let after = patterns.skip(i + 1);
        assert(patterns =~= before + (seq![pattern] + after));
        lemma_gathered_concat(at, before, seq![pattern] + after);
        lemma_gathered_concat(at, seq![pattern], after);
        lemma_gathered_one(at, pattern);
        assert forall|j: int| 0 <= j < before.len() implies !at(
            #[trigger] before[j],
        ).recipients().contains(r) by {
            assert(before[j] == patterns[j]);
            assert(patterns[j] != patterns[i]);
        }
        assert forall|j: int| 0 <= j < after.len() implies !at(
            #[trigger] after[j],
        ).recipients().contains(r) by {
            assert(after[j] == patterns[i + 1 + j]);
            assert(patterns[i + 1 + j] != patterns[i]);
        }
        lemma_gathered_times_zero(at, before, r);
        lemma_gathered_times_zero(at, after, r);
        lemma_times3(gathered(at, before), at(pattern).recipients(), gathered(at, after), r);
    } else {
        assert(at(pattern).recipients().len() == 0);
        assert forall|j: int| 0 <= j < patterns.len() implies !at(
            #[trigger] patterns[j],
        ).recipients().contains(r) by {
            assert(patterns.contains(patterns[j]));
        }
        lemma_gathered_times_zero(at, patterns, r);
        assert(!at(pattern).recipients().contains(r));
    }
}

/// How often a receiver is held under those of some patterns that match a topic, all together.
pub open spec fn matched_times(
    at: spec_fn(Seq<char>) -> SubscriptionView,
    patterns: Seq<Seq<char>>,
    topic: Seq<char>,
    r: Recipient,
) -> nat
    decreases patterns.len(),
{
    if patterns.len() == 0 {
        0
    } else {
        matched_times(at, patterns.drop_last(), topic, r) + (if pattern_matches(
            patterns.last(),
            topic,
        ) {
            at(patterns.last()).recipients().to_multiset().count(r)
        } else {
            0
        })
    }
}

/// What is handed out for two parts of the subscriptions adds up.
proof fn lemma_deliveries_add_up(
    at: spec_fn(Seq<char>) -> SubscriptionView,
    a: spec_fn(Seq<char>) -> SubscriptionView,
    b: spec_fn(Seq<char>) -> SubscriptionView,
    topic: Seq<char>,
    r: Recipient,
)
    requires
        forall|p: Seq<char>|
            times((#[trigger] at(p)).recipients(), r) == times(a(p).recipients(), r) + times(
                b(p).recipients(),
                r,
            ),
    ensures
        times(deliveries(at, topic), r) == times(deliveries(a, topic), r) + times(
            deliveries(b, topic),
            r,
        ),
    decreases topic.len(),
{
    broadcast use vstd::seq_lib::group_to_multiset_ensures;

    let own = head(topic);
    let none = Seq::<Recipient>::empty();
    let here = at(any_recursive());
    match tail(topic) {
        Some(rest) => {
            assert forall|p: Seq<char>|
                times((#[trigger] under(at, any())(p)).recipients(), r) == times(
                    under(a, any())(p).recipients(),
                    r,
                ) + times(under(b, any())(p).recipients(), r) by {
                assert(at(join(any(), p)) == under(at, any())(p));
            }
            assert forall|p: Seq<char>|
                times((#[trigger] under(at, own)(p)).recipients(), r) == times(
                    under(a, own)(p).recipients(),
                    r,
                ) + times(under(b, own)(p).recipients(), r) by {
                assert(at(join(own, p)) == under(at, own)(p));
            }
            lemma_deliveries_add_up(under(at, any()), under(a, any()), under(b, any()), rest, r);
            lemma_deliveries_add_up(under(at, own), under(a, own), under(b, own), rest, r);
            let plain = is_plain(own);
            let part = |f: spec_fn(Seq<char>) -> SubscriptionView|
                if plain {
                    deliveries(under(f, own), rest)
                } else {
                    none
                };
            lemma_times3(here.recipients(), deliveries(under(at, any()), rest), part(at), r);
            lemma_times3(
                a(any_recursive()).recipients(),
                deliveries(under(a, any()), rest),
                part(a),
                r,
            );
            lemma_times3(
                b(any_recursive()).recipients(),
                deliveries(under(b, any()), rest),
                part(b),
                r,
            );
        },
        None => {
            let star = at(any());
            let exact = at(own);
            let plain = is_plain(own);
            let part = |f: spec_fn(Seq<char>) -> SubscriptionView|
                if plain {
                    f(own).recipients()
                } else {
                    none
                };
            lemma_times3(here.recipients(), star.recipients(), part(at), r);
            lemma_times3(a(any_recursive()).recipients(), a(any()).recipients(), part(a), r);
            lemma_times3(b(any_recursive()).recipients(), b(any()).recipients(), part(b), r);
        },
    }
}

proof fn lemma_matched_times_same(
    a: spec_fn(Seq<char>) -> SubscriptionView,
    b: spec_fn(Seq<char>) -> SubscriptionView,
    patterns: Seq<Seq<char>>,
    topic: Seq<char>,
    r: Recipient,
)
    requires
        forall|i: int| 0 <= i < patterns.len() ==> a(#[trigger] patterns[i]) == b(patterns[i]),
    ensures
        matched_times(a, patterns, topic, r) == matched_times(b, patterns, topic, r),
    decreases patterns.len(),
{
    if patterns.len() > 0 {
        let rest = patterns.drop_last();
        assert forall|i: int| 0 <= i < rest.len() implies a(#[trigger] rest[i]) == b(rest[i]) by {
            assert(rest[i] == patterns[i]);
        }
        lemma_matched_times_same(a, b, rest, topic, r);
        assert(patterns[patterns.len() - 1] == patterns.last());
    }
}

/// A message is handed to a receiver as often as the receiver is held under all the patterns
/// that match the message's topic together: a receiver that two of them hold gets it twice.
pub proof fn law_dispatch_counts(
    at: spec_fn(Seq<char>) -> SubscriptionView,
    patterns: Seq<Seq<char>>,
    topic: Seq<char>,
    r: Recipient,
)
    requires
        patterns.no_duplicates(),
        forall|p: Seq<char>| (#[trigger] at(p)).recipients().contains(r) ==> patterns.contains(p),
    ensures
        deliveries(at, topic).to_multiset().count(r) == matched_times(at, patterns, topic, r),
    decreases patterns.len(),
{
    broadcast use vstd::seq_lib::group_to_multiset_ensures;

    if patterns.len() == 0 {
        lemma_times_none(at, topic, r);
    } else {
        let last = patterns.last();
        let rest = patterns.drop_last();
        let none = SubscriptionView::empty();
        assert(none.recipients() =~= Seq::empty());
        let a = |p: Seq<char>|
            if p == last {
                at(p)
            } else {
                none
            };
        let b = |p: Seq<char>|
            if p == last {
                none
            } else {
                at(p)
            };
        assert forall|p: Seq<char>|
            times((#[trigger] at(p)).recipients(), r) == times(a(p).recipients(), r) + times(
                b(p).recipients(),
                r,
            ) by {
            assert(times(none.recipients(), r) == 0);
        }
        lemma_deliveries_add_up(at, a, b, topic, r);
        law_dispatch_hands_out_once(a, last, topic, r);
        assert forall|p: Seq<char>| (#[trigger] b(p)).recipients().contains(
            r,
        ) implies rest.contains(p) by {
            assert(at(p).recipients().contains(r));
            let i = patterns.index_of(p);
            assert(rest[i] == p);
        }
        law_dispatch_counts(b, rest, topic, r);
        assert forall|i: int| 0 <= i < rest.len() implies b(#[trigger] rest[i]) == at(rest[i]) by {
            assert(patterns[i] != patterns[patterns.len() - 1]);
        }
        lemma_matched_times_same(b, at, rest, topic, r);
    }
}

/// A message goes to the receivers of '#' first, then to those of the patterns that start with
/// a '*', then to those that start with the topic's own first component; among these, likewise
/// with what follows.
pub proof fn law_dispatch_order(at: spec_fn(Seq<char>) -> SubscriptionView, topic: Seq<char>)
    ensures
        ({
            let own = head(topic);
            let ordinary = own != seq!['*'] && own != seq!['#'];
            let all = at(seq!['#']).recipients();
            &&& tail(topic) is None ==> deliveries(at, topic) == all + at(seq!['*']).recipients() + (
            if ordinary {
                at(topic).recipients()
            } else {
                Seq::empty()
            })
            &&& tail(topic) matches Some(rest) ==> deliveries(at, topic) == all + deliveries(
                |p: Seq<char>| at(seq!['*', '/'] + p),
                rest,
            ) + (if ordinary {
                deliveries(|p: Seq<char>| at(own + seq!['/'] + p), rest)
            } else {
                Seq::empty()
            })
        }),
{
    let own = head(topic);
    law_special_characters(topic);
    match tail(topic) {
        Some(rest) => {
            assert forall|p: Seq<char>| seq!['*', '/'] + p =~= #[trigger] join(any(), p) by {}
            assert(under(at, any()) =~= |p: Seq<char>| at(seq!['*', '/'] + p));
            assert(under(at, own) =~= |p: Seq<char>| at(own + seq!['/'] + p));
            let third = if is_plain(own) {
                deliveries(under(at, own), rest)
            } else {
                Seq::empty()
            };
            assert(deliveries(at, topic) =~= at(seq!['#']).recipients() + deliveries(
                under(at, any()),
                rest,
            ) + third);
        },
        None => {
            let third = if is_plain(own) {
                at(own).recipients()
            } else {
                Seq::empty()
            };
            assert(deliveries(at, topic) =~= at(seq!['#']).recipients() + at(
                seq!['*'],
            ).recipients() + third);
        },
    }
}

} // verus!

//! Subscription objects.

use vstd::prelude::*;

use crate::transceiver::commands::{UnsubCommand, UnsubKind};

verus! {

/// A reference to a "fast callback" subscription that can be used to remove
/// the said callback.
///
/// Note that if this value is dropped before its removal,
/// there will be no way to remove it anymore.
///
/// Also note that removing a callback will never cause the client to
/// unsubscribe from the topic.
pub struct Callback {
    pub topic: String,
    pub id: u32,
}

impl Callback {
    /// Creates a [`Callback`] susbcription object.
    ///
    /// Note that an entry corresponding to this topic must already exist
    /// in the subscription map and that callback should have already
    /// been registered.
    pub fn new(topic: String, id: u32) -> (r: Self)
        ensures
            r == (Callback { topic, id }),
    {
        Callback { topic, id }
    }

    /// Makes the command that removes the callback from the susbcription.
    pub fn remove_callback(self) -> (r: UnsubCommand)
        ensures
            r == (UnsubCommand { topic: self.topic, kind: UnsubKind::FastCallback(self.id) }),
    {
        UnsubCommand { topic: self.topic, kind: UnsubKind::FastCallback(self.id) }
    }
}

} // verus!

use vstd::prelude::*;

verus! {

/// The kind of a queued subscription-management action.
///
/// `Refresh` asks the consumer to renew an existing lease; it is a no-op
/// when the registry no longer holds the channel.
#[derive(Debug, Clone, Copy, PartialEq, Eq, Structural)]
pub enum SubscriptionAction {
    Subscribe,
    Unsubscribe,
    Refresh,
}

} // verus!

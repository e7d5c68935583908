//! A backend node as the balancer sees it: its identifier, where it is
//! reached, whether it can take a request, and when it last announced itself.

use vstd::prelude::*;

verus! {

/// A point in time, or a span of time, in nanoseconds on the balancer's
/// monotonic clock.
pub type Nanos = u64;

/// The number of nanoseconds in one second.
pub const NANOS_PER_SEC: Nanos = 1_000_000_000;

/// Whether a node can take a request.
#[derive(Clone, Copy, Debug, PartialEq, Eq, Structural)]
pub enum NodeHealth {
    /// Idle: the selector may pick it.
    Available,
    /// Assigned to a request that is in flight.
    Busy,
    /// The last dispatch to it failed, at the given time. Only a fresh
    /// announcement makes such a node available again.
    Failed(Nanos),
}

/// The record of one node.
#[derive(Debug)]
pub struct NodeInfo {
    id: String,
    state: NodeHealth,
    service_url: String,
    last_seen: Nanos,
}

/// What a [`NodeInfo`] holds, as a mathematical value.
pub struct NodeView {
    pub id: Seq<char>,
    pub state: NodeHealth,
    pub service_url: Seq<char>,
    pub last_seen: Nanos,
}

impl View for NodeInfo {
    type V = NodeView;

    closed spec fn view(&self) -> NodeView {
        NodeView {
            id: self.id@,
            state: self.state,
            service_url: self.service_url@,
            last_seen: self.last_seen,
        }
    }
}

/// The record that an announcement received at `now` leaves behind.
pub open spec fn announced(id: Seq<char>, service_url: Seq<char>, now: Nanos) -> NodeView {
    NodeView { id, state: NodeHealth::Available, service_url, last_seen: now }
}

/// The record `node` with its health replaced.
pub open spec fn with_state(node: NodeView, state: NodeHealth) -> NodeView {
    NodeView { state, ..node }
}

impl NodeInfo {
    /// The record of a node that has just announced itself: available, and
    /// seen at `now`.
    pub fn new(id: String, service_url: String, now: Nanos) -> (node: NodeInfo)
        ensures
            node@ == announced(id@, service_url@, now),
    {
        NodeInfo { id, state: NodeHealth::Available, service_url, last_seen: now }
    }

    /// The node's identifier.
    pub fn id(&self) -> (id: &String)
        ensures
            id@ == self@.id,
    {
        &self.id
    }

    /// The node's health.
    pub fn state(&self) -> (state: NodeHealth)
        ensures
            state == self@.state,
    {
        self.state
    }

    /// The URL that requests for this node are sent to.
    pub fn service_url(&self) -> (url: &String)
        ensures
            url@ == self@.service_url,
    {
        &self.service_url
    }

    /// When the node last announced itself.
    pub fn last_seen(&self) -> (at: Nanos)
        ensures
            at == self@.last_seen,
    {
        self.last_seen
    }

    /// Replaces the node's health and leaves the rest as it is.
    pub fn set_state(&mut self, state: NodeHealth)
        ensures
            final(self)@ == with_state(old(self)@, state),
    {
        self.state = state;
    }

    /// Takes in a new announcement of this node: the node is available
    /// again, at the announced URL, and seen at `now`.
    pub fn refresh(&mut self, service_url: String, now: Nanos)
        ensures
            final(self)@ == announced(old(self)@.id, service_url@, now),
    {
        self.state = NodeHealth::Available;
        self.service_url = service_url;
        self.last_seen = now;
    }
}

impl Clone for NodeInfo {
    fn clone(&self) -> (copy: NodeInfo)
        ensures
            copy@ == self@,
    {
        NodeInfo {
            id: self.id.clone(),
            state: self.state,
            service_url: self.service_url.clone(),
            last_seen: self.last_seen,
        }
    }
}

} // verus!

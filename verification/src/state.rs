//! The balancer's whole state: one registry for each service class, and the
//! settings that requests are admitted by.

use vstd::prelude::*;
use crate::dispatch::{
    admission_spec, health_after, no_capacity_reply, no_capacity_reply_spec, poll_admission,
    reply_spec, settle, Admission, BackendOutcome, Reply,
};
use crate::endpoint::{effective_url, effective_url_spec};
use crate::node::{Nanos, NodeInfo, NodeView};
use crate::registry::{
    distinct_ids, fresh_nodes, node_views, occupy_spec, remove_stale_nodes, set_health_spec, stale_ids, texts,
    upsert_spec, Registry,
};
use crate::wire::{
    parse_announcement, parse_spec, parsed_view, Announcement, AnnouncementView, DatagramError,
    ServiceClass,
};

verus! {

/// How long a request waits for a node before it is rejected, unless
/// the state is made with another time: 30 seconds.
pub const DEFAULT_QUEUE_TIMEOUT: Nanos = 30_000_000_000;

/// How long a waiting request sleeps between two looks at the registry,
/// unless the state is made with another time: 200 milliseconds.
pub const DEFAULT_QUEUE_POLL_INTERVAL: Nanos = 200_000_000;

/// How long a node may stay silent before it is removed: 35 seconds.
pub const NODE_INACTIVITY_TIMEOUT: Nanos = 35_000_000_000;

/// The time between two removals of silent nodes: 30 seconds.
pub const CLEANUP_INTERVAL: Nanos = 30_000_000_000;

/// The state that the balancer's tasks share.
#[derive(Debug)]
pub struct AppState {
    pub lm_studio_nodes: Registry,
    pub ollama_nodes: Registry,
    pub listen_addr: String,
    pub queue_timeout: Nanos,
    pub queue_poll_interval: Nanos,
}

/// What an [`AppState`] holds, as a mathematical value.
pub struct AppStateView {
    pub lm_studio_nodes: Seq<NodeView>,
    pub ollama_nodes: Seq<NodeView>,
    pub listen_addr: Seq<char>,
    pub queue_timeout: Nanos,
    pub queue_poll_interval: Nanos,
}

impl View for AppState {
    type V = AppStateView;

    open spec fn view(&self) -> AppStateView {
        AppStateView {
            lm_studio_nodes: self.lm_studio_nodes@,
            ollama_nodes: self.ollama_nodes@,
            listen_addr: self.listen_addr@,
            queue_timeout: self.queue_timeout,
            queue_poll_interval: self.queue_poll_interval,
        }
    }
}

/// In neither registry does an identifier occur twice.
pub open spec fn well_formed(state: AppStateView) -> bool {
    distinct_ids(state.lm_studio_nodes) && distinct_ids(state.ollama_nodes)
}

/// The registry of `class` in `state`.
pub open spec fn nodes_of(state: AppStateView, class: ServiceClass) -> Seq<NodeView> {
    match class {
        ServiceClass::LmStudio => state.lm_studio_nodes,
        ServiceClass::Ollama => state.ollama_nodes,
    }
}

/// The state `state` with `nodes` as the registry of `class`.
pub open spec fn with_nodes(state: AppStateView, class: ServiceClass, nodes: Seq<NodeView>) -> AppStateView {
    match class {
        ServiceClass::LmStudio => AppStateView { lm_studio_nodes: nodes, ..state },
        ServiceClass::Ollama => AppStateView { ollama_nodes: nodes, ..state },
    }
}

/// What a datagram announces once the announced URL is replaced by the URL
/// under which the node is reached from here.
pub open spec fn heard_spec(datagram: Seq<u8>, source_ip: Seq<char>) -> Result<
    AnnouncementView,
    DatagramError,
> {
    match parse_spec(datagram) {
        Ok(a) => Ok(
            AnnouncementView {
                class: a.class,
                node_id: a.node_id,
                service_url: effective_url_spec(a.service_url, source_ip),
            },
        ),
        Err(e) => Err(e),
    }
}

/// The state after a datagram from `source_ip` arrived at `now`: the
/// announced node is taken into the registry of its class; a datagram that
/// announces nothing changes nothing.
pub open spec fn discovery_spec(
    state: AppStateView,
    datagram: Seq<u8>,
    source_ip: Seq<char>,
    now: Nanos,
) -> AppStateView {
    match heard_spec(datagram, source_ip) {
        Ok(a) => with_nodes(
            state,
            a.class,
            upsert_spec(nodes_of(state, a.class), a.node_id, a.service_url, now),
        ),
        Err(_) => state,
    }
}

/// The state after the nodes that are stale at `now` are removed from both
/// registries.
pub open spec fn cleanup_spec(state: AppStateView, timeout: Nanos, now: Nanos) -> AppStateView {
    AppStateView {
        lm_studio_nodes: fresh_nodes(state.lm_studio_nodes, now, timeout),
        ollama_nodes: fresh_nodes(state.ollama_nodes, now, timeout),
        ..state
    }
}

impl AppState {
    /// A state without nodes.
    pub fn new(listen_addr: &str, queue_timeout: Nanos, queue_poll_interval: Nanos) -> (state:
        AppState)
        ensures
            state@ == (AppStateView {
                lm_studio_nodes: Seq::empty(),
                ollama_nodes: Seq::empty(),
                listen_addr: listen_addr@,
                queue_timeout,
                queue_poll_interval,
            }),
            well_formed(state@),
    {
        AppState {
            lm_studio_nodes: Registry::new(),
            ollama_nodes: Registry::new(),
            listen_addr: listen_addr.to_owned(),
            queue_timeout,
            queue_poll_interval,
        }
    }

    /// The records of the nodes of `class`, in the registry's order.
    pub fn snapshot(&self, class: ServiceClass) -> (nodes: Vec<NodeInfo>)
        ensures
            node_views(nodes@) == nodes_of(self@, class),
    {
        match class {
            ServiceClass::LmStudio => self.lm_studio_nodes.snapshot(),
            ServiceClass::Ollama => self.ollama_nodes.snapshot(),
        }
    }

    /// Takes in one datagram that came from `source_ip` at `now`. A
    /// datagram that announces a node puts that node into the registry of
    /// its class, available, seen at `now`, under the URL that
    /// [`effective_url`] makes of the announced one; the result tells what
    /// was stored. Any other datagram changes nothing; the result tells
    /// what is wrong with it.
    pub fn handle_datagram(&mut self, datagram: &[u8], source_ip: &str, now: Nanos) -> (heard:
        Result<Announcement, DatagramError>)
        ensures
            parsed_view(heard) == heard_spec(datagram@, source_ip@),
            final(self)@ == discovery_spec(old(self)@, datagram@, source_ip@, now),
            well_formed(old(self)@) ==> well_formed(final(self)@),
    {
        match parse_announcement(datagram) {
            Ok(announcement) => {
                let service_url = effective_url(announcement.service_url.as_str(), source_ip);
                match announcement.class {
                    ServiceClass::LmStudio => self.lm_studio_nodes.upsert(
                        announcement.node_id.as_str(),
                        service_url.as_str(),
                        now,
                    ),
                    ServiceClass::Ollama => self.ollama_nodes.upsert(
                        announcement.node_id.as_str(),
                        service_url.as_str(),
                        now,
                    ),
                }
                Ok(
                    Announcement {
                        class: announcement.class,
                        node_id: announcement.node_id,
                        service_url,
                    },
                )
            },
            Err(e) => Err(e),
        }
    }

    /// One round of admission for a request for `class` that has waited
    /// since `started`, by the state's own timeout and poll interval.
    pub fn poll_admission(&mut self, class: ServiceClass, started: Nanos, now: Nanos) -> (next:
        Admission)
        ensures
            next@ == admission_spec(
                nodes_of(old(self)@, class),
                started,
                now,
                old(self)@.queue_timeout,
                old(self)@.queue_poll_interval,
            ),
            final(self)@ == with_nodes(old(self)@, class, occupy_spec(nodes_of(old(self)@, class))),
            well_formed(old(self)@) ==> well_formed(final(self)@),
    {
        let queue_timeout = self.queue_timeout;
        let poll_interval = self.queue_poll_interval;
        match class {
            ServiceClass::LmStudio => poll_admission(
                &mut self.lm_studio_nodes,
                started,
                now,
                queue_timeout,
                poll_interval,
            ),
            ServiceClass::Ollama => poll_admission(
                &mut self.ollama_nodes,
                started,
                now,
                queue_timeout,
                poll_interval,
            ),
        }
    }

    /// The reply that rejects a request for `class` whose time is up.
    pub fn reject(&self, class: ServiceClass) -> (reply: Reply)
        ensures
            reply@ == no_capacity_reply_spec(class, self@.queue_timeout),
    {
        no_capacity_reply(class, self.queue_timeout)
    }

    /// Ends the dispatch of a request for `class` to the node `node_id`:
    /// sets the node's health by the outcome and makes the reply.
    pub fn settle(
        &mut self,
        class: ServiceClass,
        node_id: &str,
        outcome: BackendOutcome,
        now: Nanos,
    ) -> (reply: Reply)
        ensures
            final(self)@ == with_nodes(
                old(self)@,
                class,
                set_health_spec(nodes_of(old(self)@, class), node_id@, health_after(outcome@, now)),
            ),
            reply@ == reply_spec(class, outcome@),
            well_formed(old(self)@) ==> well_formed(final(self)@),
    {
        match class {
            ServiceClass::LmStudio => settle(&mut self.lm_studio_nodes, class, node_id, outcome, now),
            ServiceClass::Ollama => settle(&mut self.ollama_nodes, class, node_id, outcome, now),
        }
    }

    /// Removes from both registries every node that has not been seen for
    /// longer than `timeout` at `now`. Returns the identifiers of the
    /// removed nodes, those of the first class and those of the second.
    pub fn cleanup(&mut self, timeout: Nanos, now: Nanos) -> (removed: (Vec<String>, Vec<String>))
        ensures
            final(self)@ == cleanup_spec(old(self)@, timeout, now),
            texts(removed.0@) == stale_ids(old(self)@.lm_studio_nodes, now, timeout),
            texts(removed.1@) == stale_ids(old(self)@.ollama_nodes, now, timeout),
            well_formed(old(self)@) ==> well_formed(final(self)@),
    {
        let lm_studio = remove_stale_nodes(&mut self.lm_studio_nodes, timeout, now);
        let ollama = remove_stale_nodes(&mut self.ollama_nodes, timeout, now);
        (lm_studio, ollama)
    }
}

} // verus!

//! Admission and dispatch of one request.
//!
//! A request waits until a node of its class is available or its time is
//! up. Once a node is occupied, the request is forwarded to it, and whatever
//! comes of that, the node is released: available again after a success,
//! failed after anything else. The balancer's tasks do the waiting and the
//! forwarding; the decisions are made here.

use vstd::prelude::*;
use vstd::utf8::encode_utf8;
use crate::node::{Nanos, NodeHealth, NodeView, NANOS_PER_SEC};
use crate::registry::{distinct_ids, occupied_node, occupy_spec, set_health_spec, Registry};
use crate::state::AppState;
use crate::text::{decimal, decimal_text};
use crate::wire::ServiceClass;

verus! {

/// The status of the reply to a request that found no node in time.
pub const STATUS_NO_CAPACITY: u16 = 503;

/// The status of the reply to a request whose node could not be reached or
/// did not deliver its answer.
pub const STATUS_BACKEND_FAILURE: u16 = 500;

/// What to do next with a request that waits for a node.
#[derive(Debug)]
pub enum Admission {
    /// A node is occupied for the request: forward the request to it.
    Dispatch { node_id: String, service_url: String },
    /// No node is available: ask again after the poll interval.
    Wait { poll_interval: Nanos },
    /// No node became available in time: reject the request.
    NoCapacity,
}

/// What an [`Admission`] holds, as a mathematical value.
pub enum AdmissionView {
    Dispatch { node_id: Seq<char>, service_url: Seq<char> },
    Wait { poll_interval: Nanos },
    NoCapacity,
}

impl View for Admission {
    type V = AdmissionView;

    open spec fn view(&self) -> AdmissionView {
        match *self {
            Admission::Dispatch { node_id, service_url } => AdmissionView::Dispatch {
                node_id: node_id@,
                service_url: service_url@,
            },
            Admission::Wait { poll_interval } => AdmissionView::Wait { poll_interval },
            Admission::NoCapacity => AdmissionView::NoCapacity,
        }
    }
}

/// What came of forwarding a request to a node.
#[derive(Debug)]
pub enum BackendOutcome {
    /// The node answered, and its answer was read to the end.
    Response { status: u16, body: Vec<u8> },
    /// The node began to answer, and reading its answer failed.
    ReadFailed,
    /// The node was not reached. `detail` says why.
    Unreachable { detail: String },
}

/// What a [`BackendOutcome`] holds, as a mathematical value.
pub enum BackendOutcomeView {
    Response { status: u16, body: Seq<u8> },
    ReadFailed,
    Unreachable { detail: Seq<char> },
}

impl View for BackendOutcome {
    type V = BackendOutcomeView;

    open spec fn view(&self) -> BackendOutcomeView {
        match *self {
            BackendOutcome::Response { status, body } => BackendOutcomeView::Response {
                status,
                body: body@,
            },
            BackendOutcome::ReadFailed => BackendOutcomeView::ReadFailed,
            BackendOutcome::Unreachable { detail } => BackendOutcomeView::Unreachable {
                detail: detail@,
            },
        }
    }
}

/// What the balancer answers to a request.
#[derive(Debug)]
pub struct Reply {
    pub status: u16,
    pub body: Vec<u8>,
}

/// What a [`Reply`] holds, as a mathematical value.
pub struct ReplyView {
    pub status: u16,
    pub body: Seq<u8>,
}

impl View for Reply {
    type V = ReplyView;

    open spec fn view(&self) -> ReplyView {
        ReplyView { status: self.status, body: self.body@ }
    }
}

/// Whether an HTTP status lies in the success class, 200 to 299.
pub open spec fn is_success_status(status: u16) -> bool {
    200 <= status < 300
}

/// What to do with a request that has waited since `started`, when it asks
/// at `now` and the registry is `s`.
pub open spec fn admission_spec(
    s: Seq<NodeView>,
    started: Nanos,
    now: Nanos,
    queue_timeout: Nanos,
    poll_interval: Nanos,
) -> AdmissionView {
    match occupied_node(s) {
        Some((node_id, service_url)) => AdmissionView::Dispatch { node_id, service_url },
        None => if now - started > queue_timeout {
            AdmissionView::NoCapacity
        } else {
            AdmissionView::Wait { poll_interval }
        },
    }
}

/// The health of a node after a dispatch to it ended at `now`: available
/// after an answer with a success status, failed after anything else.
pub open spec fn health_after(outcome: BackendOutcomeView, now: Nanos) -> NodeHealth {
    match outcome {
        BackendOutcomeView::Response { status, body } => if is_success_status(status) {
            NodeHealth::Available
        } else {
            NodeHealth::Failed(now)
        },
        _ => NodeHealth::Failed(now),
    }
}

/// The text that rejects a request for which no node was found in time.
pub open spec fn no_capacity_text(class: ServiceClass, queue_timeout: Nanos) -> Seq<char> {
    "No hay nodos "@ + class.display_name() + " disponibles (timeout "@ + decimal_text(
        (queue_timeout / NANOS_PER_SEC) as nat,
    ) + "s)"@
}

/// The text that tells of an answer that could not be read.
pub open spec fn read_failed_text(class: ServiceClass) -> Seq<char> {
    "Error leyendo respuesta de "@ + class.display_name()
}

/// The text that tells of a node that could not be reached.
pub open spec fn unreachable_text(class: ServiceClass, detail: Seq<char>) -> Seq<char> {
    "Error reenviando a "@ + class.display_name() + ": "@ + detail
}

/// The reply that rejects a request for which no node was found in time.
pub open spec fn no_capacity_reply_spec(class: ServiceClass, queue_timeout: Nanos) -> ReplyView {
    ReplyView {
        status: STATUS_NO_CAPACITY,
        body: encode_utf8(no_capacity_text(class, queue_timeout)),
    }
}

/// The reply to a request whose dispatch ended with `outcome`: the node's
/// own status and body where it answered, whatever the status; else an
/// error of the balancer.
pub open spec fn reply_spec(class: ServiceClass, outcome: BackendOutcomeView) -> ReplyView {
    match outcome {
        BackendOutcomeView::Response { status, body } => ReplyView { status, body },
        BackendOutcomeView::ReadFailed => ReplyView {
            status: STATUS_BACKEND_FAILURE,
            body: encode_utf8(read_failed_text(class)),
        },
        BackendOutcomeView::Unreachable { detail } => ReplyView {
            status: STATUS_BACKEND_FAILURE,
            body: encode_utf8(unreachable_text(class, detail)),
        },
    }
}

/// Tells whether `status` is a success status.
pub fn status_is_success(status: u16) -> (ok: bool)
    ensures
        ok == is_success_status(status),
{
    200 <= status && status < 300
}

/// One round of admission for a request that has waited since `started`.
/// Where a node of `nodes` is available, the first such node is marked
/// busy and handed out, however long the request has waited. Else the
/// request is rejected if it has waited longer than `queue_timeout`, and
/// told to wait for `poll_interval` if not; `nodes` is then left as it is.
pub fn poll_admission(
    nodes: &mut Registry,
    started: Nanos,
    now: Nanos,
    queue_timeout: Nanos,
    poll_interval: Nanos,
) -> (next: Admission)
    ensures
        next@ == admission_spec(old(nodes)@, started, now, queue_timeout, poll_interval),
        final(nodes)@ == occupy_spec(old(nodes)@),
        distinct_ids(old(nodes)@) ==> distinct_ids(final(nodes)@),
{
    match AppState::find_and_occupy_node(nodes) {
        Some((node_id, service_url)) => Admission::Dispatch { node_id, service_url },
        None => {
            if now > started && now - started > queue_timeout {
                Admission::NoCapacity
            } else {
                Admission::Wait { poll_interval }
            }
        },
    }
}

/// The reply that rejects a request for which no node was found in time.
pub fn no_capacity_reply(class: ServiceClass, queue_timeout: Nanos) -> (reply: Reply)
    ensures
        reply@ == no_capacity_reply_spec(class, queue_timeout),
{
    let mut text = "No hay nodos ".to_owned();
    text.append(class.label());
    text.append(" disponibles (timeout ");
    text.append(decimal(queue_timeout / NANOS_PER_SEC).as_str());
    text.append("s)");
    assert(text@ =~= no_capacity_text(class, queue_timeout));
    Reply { status: STATUS_NO_CAPACITY, body: text.as_str().as_bytes_vec() }
}

/// Ends the dispatch of a request to the node `node_id` of `nodes`: sets
/// the node's health by the outcome, once, and makes the reply. A node
/// that has left the registry in the meantime stays out of it.
pub fn settle(
    nodes: &mut Registry,
    class: ServiceClass,
    node_id: &str,
    outcome: BackendOutcome,
    now: Nanos,
) -> (reply: Reply)
    ensures
        final(nodes)@ == set_health_spec(old(nodes)@, node_id@, health_after(outcome@, now)),
        reply@ == reply_spec(class, outcome@),
        distinct_ids(old(nodes)@) ==> distinct_ids(final(nodes)@),
{
    match outcome {
        BackendOutcome::Response { status, body } => {
            let health = if status_is_success(status) {
                NodeHealth::Available
            } else {
                NodeHealth::Failed(now)
            };
            AppState::update_node_state(nodes, node_id, health);
            Reply { status, body }
        },
        BackendOutcome::ReadFailed => {
            AppState::update_node_state(nodes, node_id, NodeHealth::Failed(now));
            let mut text = "Error leyendo respuesta de ".to_owned();
            text.append(class.label());
            assert(text@ =~= read_failed_text(class));
            Reply { status: STATUS_BACKEND_FAILURE, body: text.as_str().as_bytes_vec() }
        },
        BackendOutcome::Unreachable { detail } => {
            AppState::update_node_state(nodes, node_id, NodeHealth::Failed(now));
            let mut text = "Error reenviando a ".to_owned();
            text.append(class.label());
            text.append(": ");
            text.append(detail.as_str());
            assert(text@ =~= unreachable_text(class, detail@));
            Reply { status: STATUS_BACKEND_FAILURE, body: text.as_str().as_bytes_vec() }
        },
    }
}

} // verus!

//! What holds of the balancer whatever its tasks do, stated over the
//! functions that the contracts of the library use, and proved.

use vstd::prelude::*;
use crate::dispatch::{
    admission_spec, health_after, is_success_status, reply_spec, AdmissionView, BackendOutcomeView,
    ReplyView,
};
use crate::endpoint::{
    effective_url_spec, is_loopback_host, url_host, url_with_host, within_limits,
};
use crate::node::{announced, with_state, Nanos, NodeHealth, NodeView};
use crate::registry::{
    distinct_ids, first_available, fresh_at, has_node, is_stale,
    lemma_filter_distinct, lemma_upsert_distinct, occupied_node, occupy_spec, position,
    set_health_spec, upsert_spec,
};
use crate::seqs::{first_where, lemma_first_where, lemma_first_where_is};
use crate::state::{
    cleanup_spec, discovery_spec, heard_spec, nodes_of, well_formed, AppStateView,
};
use crate::text::{ascii_text, is_ascii_bytes, is_whitespace, trim};
use crate::wire::{
    class_named, comma, fields, parse_spec, split_once, wire_text, AnnouncementView, DatagramError,
    ServiceClass, MAX_DATAGRAM_LEN,
};

verus! {

/// The number of busy nodes.
pub open spec fn busy_count(s: Seq<NodeView>) -> nat
    decreases s.len(),
{
    if s.len() == 0 {
        0
    } else {
        busy_count(s.drop_last()) + if s.last().state is Busy {
            1nat
        } else {
            0nat
        }
    }
}

/// There are no more busy nodes than nodes.
pub proof fn lemma_busy_count_bound(s: Seq<NodeView>)
    ensures
        busy_count(s) <= s.len(),
    decreases s.len(),
{
    if s.len() > 0 {
        lemma_busy_count_bound(s.drop_last());
    }
}

/// Replacing one record changes the number of busy nodes by what the two
/// records differ in.
pub proof fn lemma_busy_count_update(s: Seq<NodeView>, p: int, n: NodeView)
    requires
        0 <= p < s.len(),
    ensures
        busy_count(s.update(p, n)) + (if s[p].state is Busy {
            1nat
        } else {
            0nat
        }) == busy_count(s) + (if n.state is Busy {
            1nat
        } else {
            0nat
        }),
    decreases s.len(),
{
    let t = s.update(p, n);
    if p == s.len() - 1 {
        assert(t.drop_last() =~= s.drop_last());
    } else {
        assert(t.drop_last() =~= s.drop_last().update(p, n));
        lemma_busy_count_update(s.drop_last(), p, n);
    }
}

/// What the requests of one class do to its registry, one after another:
/// a round of admission, or the end of a dispatch.
pub enum Step {
    /// A request looks for a node.
    Occupy,
    /// A dispatch to the node `node_id` ends and leaves it with `health`.
    Release { node_id: Seq<char>, health: NodeHealth },
}

/// A registry together with the nodes that dispatches hold.
pub struct Pool {
    pub nodes: Seq<NodeView>,
    pub held: Set<Seq<char>>,
}

/// A dispatch only ends on a node that it holds, and never leaves it busy.
pub open spec fn legal(pool: Pool, step: Step) -> bool {
    match step {
        Step::Occupy => true,
        Step::Release { node_id, health } => pool.held.contains(node_id) && !(health is Busy),
    }
}

/// The pool after one step.
pub open spec fn after_step(pool: Pool, step: Step) -> Pool {
    match step {
        Step::Occupy => match occupied_node(pool.nodes) {
            Some((node_id, service_url)) => Pool {
                nodes: occupy_spec(pool.nodes),
                held: pool.held.insert(node_id),
            },
            None => pool,
        },
        Step::Release { node_id, health } => Pool {
            nodes: set_health_spec(pool.nodes, node_id, health),
            held: pool.held.remove(node_id),
        },
    }
}

/// The pool after a run of steps.
pub open spec fn after_steps(pool: Pool, steps: Seq<Step>) -> Pool
    decreases steps.len(),
{
    if steps.len() == 0 {
        pool
    } else {
        after_step(after_steps(pool, steps.drop_last()), steps.last())
    }
}

/// Every step of the run is legal at its time.
pub open spec fn all_legal(pool: Pool, steps: Seq<Step>) -> bool
    decreases steps.len(),
{
    steps.len() == 0 || (all_legal(pool, steps.drop_last()) && legal(
        after_steps(pool, steps.drop_last()),
        steps.last(),
    ))
}

/// The number of rounds of admission in a run.
pub open spec fn occupations(steps: Seq<Step>) -> nat
    decreases steps.len(),
{
    if steps.len() == 0 {
        0
    } else {
        occupations(steps.drop_last()) + if steps.last() is Occupy {
            1nat
        } else {
            0nat
        }
    }
}

/// Every node that a dispatch holds is in the registry and busy.
pub open spec fn held_are_busy(pool: Pool) -> bool {
    forall|id: Seq<char>| #[trigger]
        pool.held.contains(id) ==> has_node(pool.nodes, id) && pool.nodes[position(
            pool.nodes,
            id,
        )].state is Busy
}

/// The selector hands out an available node, marks it busy, and touches
/// no other record.
pub proof fn law_occupy_takes_available(s: Seq<NodeView>)
    requires
        distinct_ids(s),
    ensures
        match occupied_node(s) {
            Some((node_id, service_url)) => {
                let p = position(s, node_id);
                &&& p == first_available(s)
                &&& 0 <= p < s.len()
                &&& s[p].state is Available
                &&& s[p].service_url == service_url
                &&& occupy_spec(s) == s.update(p, with_state(s[p], NodeHealth::Busy))
                &&& busy_count(occupy_spec(s)) == busy_count(s) + 1
            },
            None => occupy_spec(s) == s && forall|i: int|
                0 <= i < s.len() ==> !((#[trigger] s[i]).state is Available),
        },
{
    lemma_first_where(s, |n: NodeView| n.state is Available);
    let p = first_available(s);
    if p < s.len() {
        lemma_busy_count_update(s, p, with_state(s[p], NodeHealth::Busy));
        lemma_first_where_is(s, |n: NodeView| n.id == s[p].id, p);
    }
}

/// Every busy node is held by a dispatch.
pub open spec fn busy_are_held(pool: Pool) -> bool {
    forall|i: int|
        0 <= i < pool.nodes.len() && (#[trigger] pool.nodes[i]).state is Busy
            ==> pool.held.contains(pool.nodes[i].id)
}

/// A registry in which no node is busy counts no busy node.
pub proof fn lemma_none_busy(s: Seq<NodeView>)
    requires
        forall|i: int| 0 <= i < s.len() ==> !((#[trigger] s[i]).state is Busy),
    ensures
        busy_count(s) == 0,
    decreases s.len(),
{
    if s.len() > 0 {
        let front = s.drop_last();
        assert forall|i: int| 0 <= i < front.len() implies !((#[trigger] front[i]).state is Busy) by {
            assert(front[i] == s[i]);
        }
        lemma_none_busy(front);
    }
}

/// Two lists with the same identifiers find a node at the same place.
pub proof fn lemma_position_by_ids(s: Seq<NodeView>, t: Seq<NodeView>, id: Seq<char>)
    requires
        s.len() == t.len(),
        forall|i: int| 0 <= i < s.len() ==> (#[trigger] s[i]).id == t[i].id,
    ensures
        position(s, id) == position(t, id),
{
    lemma_first_where(s, |n: NodeView| n.id == id);
    let p = position(s, id);
    assert forall|j: int| 0 <= j < p implies !(|n: NodeView| n.id == id)(#[trigger] t[j]) by {
        assert(s[j].id == t[j].id);
    }
    if p < s.len() {
        assert(s[p].id == t[p].id);
    }
    lemma_first_where_is(t, |n: NodeView| n.id == id, p);
}

/// One legal step keeps the identifiers distinct and the number of nodes,
/// keeps the held nodes and the busy nodes the same nodes, and adds at
/// most one busy node, and that only in a round of admission.
pub proof fn lemma_step(pool: Pool, step: Step)
    requires
        distinct_ids(pool.nodes),
        held_are_busy(pool),
        busy_are_held(pool),
        legal(pool, step),
    ensures
        distinct_ids(after_step(pool, step).nodes),
        held_are_busy(after_step(pool, step)),
        busy_are_held(after_step(pool, step)),
        after_step(pool, step).nodes.len() == pool.nodes.len(),
        busy_count(after_step(pool, step).nodes) <= busy_count(pool.nodes) + (if step is Occupy {
            1nat
        } else {
            0nat
        }),
{
    let s = pool.nodes;
    let next = after_step(pool, step);
    let t = next.nodes;
    match step {
        Step::Occupy => {
            law_occupy_takes_available(s);
            if occupied_node(s) is Some {
                let p = first_available(s);
                let taken = s[p].id;
                assert forall|id: Seq<char>| #[trigger] next.held.contains(id) implies has_node(
                    t,
                    id,
                ) && t[position(t, id)].state is Busy by {
                    lemma_position_by_ids(s, t, id);
                    lemma_first_where(s, |n: NodeView| n.id == id);
                    if id != taken {
                        assert(pool.held.contains(id));
                    }
                }
                assert forall|i: int|
                    0 <= i < t.len() && (#[trigger] t[i]).state is Busy implies next.held.contains(
                    t[i].id,
                ) by {
                    if i != p {
                        assert(s[i].state is Busy);
                    }
                }
            }
        },
        Step::Release { node_id, health } => {
            lemma_first_where(s, |n: NodeView| n.id == node_id);
            let p = position(s, node_id);
            assert(p < s.len());
            lemma_busy_count_update(s, p, with_state(s[p], health));
            assert forall|id: Seq<char>| #[trigger] next.held.contains(id) implies has_node(t, id)
                && t[position(t, id)].state is Busy by {
                lemma_position_by_ids(s, t, id);
                assert(pool.held.contains(id));
                lemma_first_where(s, |n: NodeView| n.id == id);
            }
            assert forall|i: int|
                0 <= i < t.len() && (#[trigger] t[i]).state is Busy implies next.held.contains(
                t[i].id,
            ) by {
                assert(i != p);
                assert(s[i].state is Busy);
            }
        },
    }
}

/// Mutual exclusion. Take a registry with distinct identifiers in which no
/// node is busy, and let requests work on it in any order: rounds of
/// admission, and dispatches that end on the node they hold. Then at every
/// time each node that a dispatch holds is busy and each busy node is held,
/// there are no more busy nodes than there were rounds of admission and no
/// more than there are nodes, and the next round of admission hands out no
/// node that a dispatch holds.
pub proof fn law_mutual_exclusion(nodes: Seq<NodeView>, steps: Seq<Step>)
    requires
        distinct_ids(nodes),
        forall|i: int| 0 <= i < nodes.len() ==> !((#[trigger] nodes[i]).state is Busy),
        all_legal(Pool { nodes, held: Set::empty() }, steps),
    ensures
        ({
            let pool = after_steps(Pool { nodes, held: Set::empty() }, steps);
            &&& distinct_ids(pool.nodes)
            &&& pool.nodes.len() == nodes.len()
            &&& held_are_busy(pool)
            &&& busy_are_held(pool)
            &&& busy_count(pool.nodes) <= occupations(steps)
            &&& busy_count(pool.nodes) <= nodes.len()
            &&& match occupied_node(pool.nodes) {
                Some((node_id, service_url)) => !pool.held.contains(node_id),
                None => true,
            }
        }),
    decreases steps.len(),
{
    let start = Pool { nodes, held: Set::empty() };
    let pool = after_steps(start, steps);
    if steps.len() == 0 {
        lemma_none_busy(nodes);
    } else {
        law_mutual_exclusion(nodes, steps.drop_last());
        lemma_step(after_steps(start, steps.drop_last()), steps.last());
    }
    lemma_busy_count_bound(pool.nodes);
    law_occupy_takes_available(pool.nodes);
}

/// No leakage. However a dispatch ends, the health that it leaves its
/// node with is not busy: the node, if the registry still has it, is
/// available or failed afterwards, and a registry that has lost the node
/// in the meantime is left as it is.
pub proof fn law_no_leakage(
    s: Seq<NodeView>,
    node_id: Seq<char>,
    outcome: BackendOutcomeView,
    now: Nanos,
)
    ensures
        !(health_after(outcome, now) is Busy),
        has_node(s, node_id) ==> ({
            let after = set_health_spec(s, node_id, health_after(outcome, now));
            &&& has_node(after, node_id)
            &&& after[position(after, node_id)].state == health_after(outcome, now)
            &&& !(after[position(after, node_id)].state is Busy)
        }),
        !has_node(s, node_id) ==> set_health_spec(s, node_id, health_after(outcome, now)) == s,
{
    lemma_first_where(s, |n: NodeView| n.id == node_id);
    let after = set_health_spec(s, node_id, health_after(outcome, now));
    if has_node(s, node_id) {
        lemma_position_by_ids(s, after, node_id);
    }
}

/// Response faithfulness. The reply to a request whose node answered has
/// the node's status and the node's body, byte for byte, whatever the
/// status is. After a success status the node is available again.
pub proof fn law_response_faithful(class: ServiceClass, status: u16, body: Seq<u8>, now: Nanos)
    ensures
        reply_spec(class, BackendOutcomeView::Response { status, body }) == (ReplyView {
            status,
            body,
        }),
        is_success_status(status) ==> health_after(
            BackendOutcomeView::Response { status, body },
            now,
        ) == NodeHealth::Available,
{
}

/// Errors pass through. An answer with a status outside 200 to 299 is
/// handed on as it came, and the node that gave it is marked failed.
pub proof fn law_error_passes_through(
    s: Seq<NodeView>,
    class: ServiceClass,
    node_id: Seq<char>,
    status: u16,
    body: Seq<u8>,
    now: Nanos,
)
    requires
        !is_success_status(status),
        has_node(s, node_id),
    ensures
        reply_spec(class, BackendOutcomeView::Response { status, body }) == (ReplyView {
            status,
            body,
        }),
        ({
            let after = set_health_spec(
                s,
                node_id,
                health_after(BackendOutcomeView::Response { status, body }, now),
            );
            has_node(after, node_id) && after[position(after, node_id)].state == NodeHealth::Failed(
                now,
            )
        }),
{
    law_no_leakage(s, node_id, BackendOutcomeView::Response { status, body }, now);
}

/// The time of the tick with the number `k`, where ticks come every
/// `period` from `origin` on.
pub open spec fn tick(origin: int, period: int, k: int) -> int {
    origin + k * period
}

/// The number of the first tick that lies after `deadline`.
pub open spec fn first_tick_after(origin: int, period: int, deadline: int) -> int {
    (deadline - origin) / period + 1
}

/// Of ticks that come every `period`, the first that lies after a deadline
/// lies at most one period after it, and every earlier tick lies at or
/// before the deadline.
pub proof fn lemma_first_tick_after(origin: int, period: int, deadline: int)
    requires
        period > 0,
        origin <= deadline,
    ensures
        first_tick_after(origin, period, deadline) >= 1,
        deadline < tick(origin, period, first_tick_after(origin, period, deadline)) <= deadline
            + period,
        forall|j: int|
            0 <= j < first_tick_after(origin, period, deadline) ==> #[trigger] tick(
                origin,
                period,
                j,
            ) <= deadline,
{
    let d = deadline - origin;
    let q = d / period;
    assert(q * period <= d < (q + 1) * period && q >= 0) by (nonlinear_arith)
        requires
            period > 0,
            d >= 0,
            q == d / period,
    ;
    assert((q + 1) * period == q * period + period) by (nonlinear_arith);
    assert forall|j: int| 0 <= j < q + 1 implies #[trigger] tick(origin, period, j) <= deadline by {
        assert(j * period <= q * period) by (nonlinear_arith)
            requires
                0 <= j <= q,
                period > 0,
        ;
    }
}

/// The timeout is honoured. A request that finds no available node
/// changes nothing in the registry; it is told to wait at every poll up to
/// `queue_timeout` after its arrival and rejected at every later one. With
/// one poll every `poll_interval` from its arrival on, the poll that
/// rejects it comes no later than `queue_timeout + poll_interval` after its
/// arrival.
pub proof fn law_timeout_honoured(
    s: Seq<NodeView>,
    started: Nanos,
    queue_timeout: Nanos,
    poll_interval: Nanos,
)
    requires
        occupied_node(s) is None,
        poll_interval > 0,
        started + queue_timeout + poll_interval <= u64::MAX,
    ensures
        occupy_spec(s) == s,
        forall|now: Nanos| #[trigger]
            admission_spec(s, started, now, queue_timeout, poll_interval) == if now - started
                > queue_timeout {
                AdmissionView::NoCapacity
            } else {
                AdmissionView::Wait { poll_interval }
            },
        ({
            let k = first_tick_after(started as int, poll_interval as int, started + queue_timeout);
            let at = tick(started as int, poll_interval as int, k);
            &&& at - started <= queue_timeout + poll_interval
            &&& admission_spec(s, started, at as Nanos, queue_timeout, poll_interval)
                == AdmissionView::NoCapacity
            &&& forall|j: int|
                0 <= j < k ==> admission_spec(
                    s,
                    started,
                    #[trigger] tick(started as int, poll_interval as int, j) as Nanos,
                    queue_timeout,
                    poll_interval,
                ) == (AdmissionView::Wait { poll_interval })
        }),
{
    lemma_first_tick_after(started as int, poll_interval as int, started + queue_timeout);
    let k = first_tick_after(started as int, poll_interval as int, started + queue_timeout);
    assert forall|j: int| 0 <= j < k implies admission_spec(
        s,
        started,
        #[trigger] tick(started as int, poll_interval as int, j) as Nanos,
        queue_timeout,
        poll_interval,
    ) == (AdmissionView::Wait { poll_interval }) by {
        let at = tick(started as int, poll_interval as int, j);
        assert(started <= at) by (nonlinear_arith)
            requires
                at == started + j * poll_interval,
                j >= 0,
                poll_interval > 0,
        ;
    }
}

/// With distinct identifiers, a node's record stands where its
/// identifier is found, and nowhere else.
pub proof fn lemma_position_unique(s: Seq<NodeView>, i: int)
    requires
        distinct_ids(s),
        0 <= i < s.len(),
    ensures
        position(s, s[i].id) == i,
{
    lemma_first_where_is(s, |n: NodeView| n.id == s[i].id, i);
}

/// The same announcement taken in twice leaves what the second alone
/// leaves.
pub proof fn lemma_upsert_twice(
    s: Seq<NodeView>,
    id: Seq<char>,
    service_url: Seq<char>,
    first: Nanos,
    second: Nanos,
)
    ensures
        upsert_spec(upsert_spec(s, id, service_url, first), id, service_url, second)
            == upsert_spec(s, id, service_url, second),
        has_node(upsert_spec(s, id, service_url, second), id),
        upsert_spec(s, id, service_url, second)[position(
            upsert_spec(s, id, service_url, second),
            id,
        )] == announced(id, service_url, second),
{
    lemma_first_where(s, |n: NodeView| n.id == id);
    let p = position(s, id);
    let once = upsert_spec(s, id, service_url, first);
    let late = upsert_spec(s, id, service_url, second);
    lemma_first_where_is(once, |n: NodeView| n.id == id, p);
    lemma_first_where_is(late, |n: NodeView| n.id == id, p);
    assert(upsert_spec(once, id, service_url, second) =~= late);
}

/// Discovery is idempotent. The same datagram received a second time
/// leaves the state that this second receipt alone would have left. Where
/// the datagram announces a node, the registry of its class then holds
/// exactly one record of that node, seen at the time of the second receipt.
pub proof fn law_discovery_idempotent(
    state: AppStateView,
    datagram: Seq<u8>,
    source_ip: Seq<char>,
    first: Nanos,
    second: Nanos,
)
    requires
        well_formed(state),
    ensures
        discovery_spec(discovery_spec(state, datagram, source_ip, first), datagram, source_ip, second)
            == discovery_spec(state, datagram, source_ip, second),
        well_formed(discovery_spec(state, datagram, source_ip, second)),
        match heard_spec(datagram, source_ip) {
            Ok(a) => ({
                let nodes = nodes_of(
                    discovery_spec(state, datagram, source_ip, second),
                    a.class,
                );
                let p = position(nodes, a.node_id);
                &&& 0 <= p < nodes.len()
                &&& nodes[p] == announced(a.node_id, a.service_url, second)
                &&& forall|i: int|
                    0 <= i < nodes.len() && (#[trigger] nodes[i]).id == a.node_id ==> i == p
            }),
            Err(_) => true,
        },
{
    match heard_spec(datagram, source_ip) {
        Ok(a) => {
            let before = nodes_of(state, a.class);
            lemma_upsert_twice(before, a.node_id, a.service_url, first, second);
            lemma_upsert_distinct(before, a.node_id, a.service_url, second);
            let nodes = upsert_spec(before, a.node_id, a.service_url, second);
            lemma_first_where(nodes, |n: NodeView| n.id == a.node_id);
            assert forall|i: int|
                0 <= i < nodes.len() && (#[trigger] nodes[i]).id == a.node_id implies i
                == position(nodes, a.node_id) by {
                lemma_position_unique(nodes, i);
            }
        },
        Err(_) => {},
    }
}

/// A node is seen later and later. On a clock that does not run back, an
/// announcement moves a node's `last_seen` forward or leaves it, and
/// neither marking a node busy nor setting its health touches it.
pub proof fn law_last_seen_advances(
    s: Seq<NodeView>,
    id: Seq<char>,
    service_url: Seq<char>,
    now: Nanos,
    other: Seq<char>,
    state: NodeHealth,
)
    requires
        has_node(s, id),
        s[position(s, id)].last_seen <= now,
    ensures
        has_node(upsert_spec(s, id, service_url, now), id),
        upsert_spec(s, id, service_url, now)[position(upsert_spec(s, id, service_url, now), id)].last_seen
            >= s[position(s, id)].last_seen,
        has_node(set_health_spec(s, other, state), id),
        set_health_spec(s, other, state)[position(set_health_spec(s, other, state), id)].last_seen
            == s[position(s, id)].last_seen,
        has_node(occupy_spec(s), id),
        occupy_spec(s)[position(occupy_spec(s), id)].last_seen == s[position(s, id)].last_seen,
{
    lemma_first_where(s, |n: NodeView| n.id == id);
    lemma_first_where(s, |n: NodeView| n.id == other);
    lemma_first_where(s, |n: NodeView| n.state is Available);
    lemma_position_by_ids(s, upsert_spec(s, id, service_url, now), id);
    lemma_position_by_ids(s, set_health_spec(s, other, state), id);
    lemma_position_by_ids(s, occupy_spec(s), id);
}

/// A node that comes back is a new node. An announcement of a node that
/// the registry does not hold, be it for the first time or after the node
/// was removed, adds a record at the end that is available and seen at the
/// time of the announcement, and keeps every other record.
pub proof fn law_reannounced_is_new(
    s: Seq<NodeView>,
    id: Seq<char>,
    service_url: Seq<char>,
    now: Nanos,
)
    requires
        !has_node(s, id),
    ensures
        upsert_spec(s, id, service_url, now) == s.push(announced(id, service_url, now)),
{
    lemma_first_where(s, |n: NodeView| n.id == id);
}

/// A datagram that fails the grammar changes neither registry.
pub proof fn law_malformed_dropped(
    state: AppStateView,
    datagram: Seq<u8>,
    source_ip: Seq<char>,
    now: Nanos,
)
    requires
        parse_spec(datagram) is Err,
    ensures
        discovery_spec(state, datagram, source_ip, now) == state,
{
}

/// A node whose record is found in a list that was filtered stood in the
/// list before, with the same record, and the filter kept it.
pub proof fn lemma_filter_has_node(
    s: Seq<NodeView>,
    keep: spec_fn(NodeView) -> bool,
    id: Seq<char>,
)
    requires
        distinct_ids(s),
        has_node(s.filter(keep), id),
    ensures
        has_node(s, id),
        keep(s[position(s, id)]),
        s.filter(keep)[position(s.filter(keep), id)] == s[position(s, id)],
{
    let kept = s.filter(keep);
    lemma_first_where(kept, |n: NodeView| n.id == id);
    let q = position(kept, id);
    s.lemma_filter_contains_rev(keep, kept[q]);
    s.lemma_filter_pred(keep, q);
    let j = choose|j: int| 0 <= j < s.len() && s[j] == kept[q];
    lemma_position_unique(s, j);
}

/// Eviction. After a cleanup, neither registry holds a node that was stale
/// at that time, whatever the node's health: a node that was not seen for
/// longer than `timeout` is gone, and every node that is left was seen
/// within `timeout`.
pub proof fn law_stale_evicted(state: AppStateView, timeout: Nanos, now: Nanos, id: Seq<char>)
    requires
        well_formed(state),
    ensures
        well_formed(cleanup_spec(state, timeout, now)),
        forall|class: ServiceClass|
            {
                let before = nodes_of(state, class);
                let after = #[trigger] nodes_of(cleanup_spec(state, timeout, now), class);
                has_node(after, id) <==> has_node(before, id) && !is_stale(
                    before[position(before, id)],
                    now,
                    timeout,
                )
            },
{
    lemma_filter_distinct(state.lm_studio_nodes, fresh_at(now, timeout));
    lemma_filter_distinct(state.ollama_nodes, fresh_at(now, timeout));
    assert forall|class: ServiceClass|
        {
            let before = nodes_of(state, class);
            let after = #[trigger] nodes_of(cleanup_spec(state, timeout, now), class);
            has_node(after, id) <==> has_node(before, id) && !is_stale(
                before[position(before, id)],
                now,
                timeout,
            )
        } by {
        let before = nodes_of(state, class);
        let after = nodes_of(cleanup_spec(state, timeout, now), class);
        assert(after == before.filter(fresh_at(now, timeout)));
        if has_node(after, id) {
            lemma_filter_has_node(before, fresh_at(now, timeout), id);
        }
        if has_node(before, id) && !is_stale(before[position(before, id)], now, timeout) {
            lemma_first_where(before, |n: NodeView| n.id == id);
            let p = position(before, id);
            before.lemma_filter_contains(fresh_at(now, timeout), p);
            let q = choose|q: int| 0 <= q < after.len() && after[q] == before[p];
            lemma_first_where(after, |n: NodeView| n.id == id);
            if position(after, id) >= after.len() {
                assert(!(|n: NodeView| n.id == id)(after[q]));
            }
        }
    }
}

/// Eviction in time. With one cleanup every `cleanup_interval`, a node
/// that was last seen at `last_seen` and stays silent is removed by a
/// cleanup that comes no later than `timeout + cleanup_interval` after
/// `last_seen`: the first cleanup later than `last_seen + timeout`.
pub proof fn law_evicted_in_time(
    state: AppStateView,
    class: ServiceClass,
    id: Seq<char>,
    timeout: Nanos,
    cleanup_interval: Nanos,
    first_cleanup: Nanos,
)
    requires
        well_formed(state),
        has_node(nodes_of(state, class), id),
        cleanup_interval > 0,
        first_cleanup <= nodes_of(state, class)[position(nodes_of(state, class), id)].last_seen
            + timeout,
        nodes_of(state, class)[position(nodes_of(state, class), id)].last_seen + timeout
            + cleanup_interval <= u64::MAX,
    ensures
        ({
            let last_seen = nodes_of(state, class)[position(nodes_of(state, class), id)].last_seen;
            let k = first_tick_after(
                first_cleanup as int,
                cleanup_interval as int,
                last_seen + timeout,
            );
            let at = tick(first_cleanup as int, cleanup_interval as int, k);
            &&& last_seen + timeout < at <= last_seen + timeout + cleanup_interval
            &&& !has_node(nodes_of(cleanup_spec(state, timeout, at as Nanos), class), id)
        }),
{
    let last_seen = nodes_of(state, class)[position(nodes_of(state, class), id)].last_seen;
    lemma_first_tick_after(first_cleanup as int, cleanup_interval as int, last_seen + timeout);
    let k = first_tick_after(first_cleanup as int, cleanup_interval as int, last_seen + timeout);
    let at = tick(first_cleanup as int, cleanup_interval as int, k);
    law_stale_evicted(state, timeout, at as Nanos, id);
    assert(nodes_of(cleanup_spec(state, timeout, at as Nanos), class) == nodes_of(
        cleanup_spec(state, timeout, at as Nanos),
        class,
    ));
}

/// Only loopback hosts are rewritten. A URL whose host is neither
/// `localhost` nor `127.0.0.1`, and a URL in which the `url` crate finds no
/// host, is stored as it was announced. A URL with such a host, short
/// enough for a datagram, is stored as the `url` crate writes it once the
/// datagram's source address stands in the host's place, or as it was
/// announced where the crate refuses that address.
pub proof fn law_loopback_rewrite(announced_url: Seq<char>, source_ip: Seq<char>)
    ensures
        url_host(announced_url) is None ==> effective_url_spec(announced_url, source_ip)
            == announced_url,
        url_host(announced_url) matches Some(host) && !is_loopback_host(host)
            ==> effective_url_spec(announced_url, source_ip) == announced_url,
        url_host(announced_url) matches Some(host) && is_loopback_host(host) && within_limits(
            announced_url,
            source_ip,
        ) ==> effective_url_spec(announced_url, source_ip) == match url_with_host(
            announced_url,
            source_ip,
        ) {
            Some(rewritten) => rewritten,
            None => announced_url,
        },
{
}

/// No element of `s` is a comma.
pub open spec fn comma_free(s: Seq<char>) -> bool {
    forall|i: int| 0 <= i < s.len() ==> #[trigger] s[i] != ','
}

/// A text that begins with a field without commas and a comma is split
/// behind that field.
pub proof fn lemma_split_once(field: Seq<char>, rest: Seq<char>)
    requires
        comma_free(field),
    ensures
        split_once(field + seq![','] + rest) == Some((field, rest)),
{
    let s = field + seq![','] + rest;
    assert forall|j: int| 0 <= j < field.len() implies !comma()(#[trigger] s[j]) by {
        assert(s[j] == field[j]);
    }
    assert(s[field.len() as int] == ',');
    lemma_first_where_is(s, comma(), field.len() as int);
    assert(s.take(field.len() as int) =~= field);
    assert(s.skip(field.len() as int + 1) =~= rest);
}

/// A text that is split is its first field, a comma, and the rest, and the
/// first field holds no comma.
pub proof fn lemma_split_once_joins(s: Seq<char>)
    requires
        split_once(s) is Some,
    ensures
        ({
            let (field, rest) = split_once(s)->0;
            s == field + seq![','] + rest && comma_free(field)
        }),
{
    lemma_first_where(s, comma());
    let c = first_where(s, comma());
    assert(s =~= s.take(c) + seq![','] + s.skip(c + 1));
    assert forall|i: int| 0 <= i < s.take(c).len() implies #[trigger] s.take(c)[i] != ',' by {
        assert(!comma()(s[i]));
    }
}

/// The names of the service classes hold no comma and differ, and neither
/// does the word that opens a datagram hold one.
pub proof fn lemma_wire_words()
    ensures
        comma_free("DISCOVER"@),
        "DISCOVER"@.len() == 8,
        "DISCOVER"@[0] == 'D',
        forall|class: ServiceClass| #[trigger] comma_free(class.wire_name()),
        forall|class: ServiceClass| class_named(#[trigger] class.wire_name()) == Some(class),
{
    reveal_strlit("DISCOVER");
    reveal_strlit("lmstudio");
    reveal_strlit("ollama");
    assert("lmstudio"@.len() != "ollama"@.len());
    assert forall|class: ServiceClass| #[trigger] comma_free(class.wire_name()) by {
        match class {
            ServiceClass::LmStudio => {},
            ServiceClass::Ollama => {},
        }
    }
}

/// What is written is read back. The datagram that announces a node is
/// read as the announcement of that node, provided that it fits a
/// datagram, that the identifier is not empty and holds no comma, and that
/// the URL does not end in white space.
pub proof fn law_announcement_round_trip(
    datagram: Seq<u8>,
    class: ServiceClass,
    node_id: Seq<char>,
    service_url: Seq<char>,
)
    requires
        datagram.len() <= MAX_DATAGRAM_LEN,
        is_ascii_bytes(datagram),
        ascii_text(datagram) == wire_text(class, node_id, service_url),
        node_id.len() > 0,
        comma_free(node_id),
        service_url.len() > 0 ==> !is_whitespace(service_url.last()),
    ensures
        parse_spec(datagram) == Ok::<AnnouncementView, DatagramError>(
            AnnouncementView { class, node_id, service_url },
        ),
{
    lemma_wire_words();
    let text = wire_text(class, node_id, service_url);
    let after_id = service_url;
    let after_class = node_id + seq![','] + after_id;
    let after_tag = class.wire_name() + seq![','] + after_class;
    assert(text =~= "DISCOVER"@ + seq![','] + after_tag);
    assert(text.first() == 'D');
    assert(!is_whitespace(text.last())) by {
        if service_url.len() > 0 {
            assert(text.last() == service_url.last());
        } else {
            assert(text.last() == ',');
        }
    }
    assert(trim(text) == text);
    lemma_split_once("DISCOVER"@, after_tag);
    lemma_split_once(class.wire_name(), after_class);
    lemma_split_once(node_id, after_id);
    assert(fields(text) == Some(("DISCOVER"@, class.wire_name(), node_id, service_url)));
}

/// What is read was written. A datagram that announces a node is, white
/// space at its ends apart, the text that announces that node, and the
/// node's identifier is not empty and holds no comma.
pub proof fn law_parsed_was_written(datagram: Seq<u8>)
    requires
        parse_spec(datagram) is Ok,
    ensures
        ({
            let a = parse_spec(datagram)->Ok_0;
            &&& datagram.len() <= MAX_DATAGRAM_LEN
            &&& is_ascii_bytes(datagram)
            &&& trim(ascii_text(datagram)) == wire_text(a.class, a.node_id, a.service_url)
            &&& a.node_id.len() > 0
            &&& comma_free(a.node_id)
        }),
{
    let text = trim(ascii_text(datagram));
    lemma_split_once_joins(text);
    let (tag, after_tag) = split_once(text)->0;
    lemma_split_once_joins(after_tag);
    let (class, after_class) = split_once(after_tag)->0;
    lemma_split_once_joins(after_class);
    let a = parse_spec(datagram)->Ok_0;
    assert(text =~= wire_text(a.class, a.node_id, a.service_url));
}

} // verus!

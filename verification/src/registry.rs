//! The registry of one service class: its nodes, in the order in which they
//! first announced themselves, no identifier twice.

use vstd::prelude::*;
use crate::node::{announced, with_state, Nanos, NodeHealth, NodeInfo, NodeView};
use crate::seqs::{first_where, lemma_filter_step, lemma_first_where, lemma_first_where_is};
use crate::state::AppState;
use crate::text::same_text;

verus! {

/// Where the record of the node `id` stands in `s`, or `s.len()` where `s`
/// has no such node.
pub open spec fn position(s: Seq<NodeView>, id: Seq<char>) -> int {
    first_where(s, |n: NodeView| n.id == id)
}

/// Whether `s` holds a record of the node `id`.
pub open spec fn has_node(s: Seq<NodeView>, id: Seq<char>) -> bool {
    position(s, id) < s.len()
}

/// Where the first available node stands in `s`, or `s.len()` where no node
/// of `s` is available.
pub open spec fn first_available(s: Seq<NodeView>) -> int {
    first_where(s, |n: NodeView| n.state is Available)
}

/// No identifier occurs twice in `s`.
pub open spec fn distinct_ids(s: Seq<NodeView>) -> bool {
    forall|i: int, j: int| 0 <= i < j < s.len() ==> s[i].id != s[j].id
}

/// The registry after an announcement of the node `id` at `now`: a known
/// node gets a fresh record in its place, a new node is added at the end.
pub open spec fn upsert_spec(
    s: Seq<NodeView>,
    id: Seq<char>,
    service_url: Seq<char>,
    now: Nanos,
) -> Seq<NodeView> {
    let p = position(s, id);
    if p < s.len() {
        s.update(p, announced(id, service_url, now))
    } else {
        s.push(announced(id, service_url, now))
    }
}

/// The registry after the health of the node `id` is set to `state`;
/// unchanged where `s` has no such node.
pub open spec fn set_health_spec(s: Seq<NodeView>, id: Seq<char>, state: NodeHealth) -> Seq<
    NodeView,
> {
    let p = position(s, id);
    if p < s.len() {
        s.update(p, with_state(s[p], state))
    } else {
        s
    }
}

/// The registry after its first available node is marked busy; unchanged
/// where no node is available.
pub open spec fn occupy_spec(s: Seq<NodeView>) -> Seq<NodeView> {
    let p = first_available(s);
    if p < s.len() {
        s.update(p, with_state(s[p], NodeHealth::Busy))
    } else {
        s
    }
}

/// A node is stale at `now` when it has not announced itself for longer
/// than `timeout`.
pub open spec fn is_stale(n: NodeView, now: Nanos, timeout: Nanos) -> bool {
    now - n.last_seen > timeout
}

/// The test that [`is_stale`] makes at `now`.
pub open spec fn stale_at(now: Nanos, timeout: Nanos) -> spec_fn(NodeView) -> bool {
    |n: NodeView| is_stale(n, now, timeout)
}

/// The opposite of [`stale_at`].
pub open spec fn fresh_at(now: Nanos, timeout: Nanos) -> spec_fn(NodeView) -> bool {
    |n: NodeView| !is_stale(n, now, timeout)
}

/// The identifiers of the records of `s`, in their order.
pub open spec fn ids_of(s: Seq<NodeView>) -> Seq<Seq<char>> {
    Seq::new(s.len(), |i: int| s[i].id)
}

/// The records of `s` that are not stale at `now`, in their order.
pub open spec fn fresh_nodes(s: Seq<NodeView>, now: Nanos, timeout: Nanos) -> Seq<NodeView> {
    s.filter(fresh_at(now, timeout))
}

/// The identifiers of the records of `s` that are stale at `now`, in their
/// order.
pub open spec fn stale_ids(s: Seq<NodeView>, now: Nanos, timeout: Nanos) -> Seq<Seq<char>> {
    ids_of(s.filter(stale_at(now, timeout)))
}

/// The identifier and the URL of the node that [`occupy_spec`] marks busy.
pub open spec fn occupied_node(s: Seq<NodeView>) -> Option<(Seq<char>, Seq<char>)> {
    let p = first_available(s);
    if p < s.len() {
        Some((s[p].id, s[p].service_url))
    } else {
        None
    }
}

/// The views of a list of records.
pub open spec fn node_views(nodes: Seq<NodeInfo>) -> Seq<NodeView> {
    nodes.map_values(|n: NodeInfo| n@)
}

/// The texts of a list of strings.
pub open spec fn texts(strings: Seq<String>) -> Seq<Seq<char>> {
    strings.map_values(|t: String| t@)
}

/// The views of a list with one record more are the views of the list with
/// the view of that record more.
pub proof fn lemma_node_views_push(nodes: Seq<NodeInfo>, node: NodeInfo)
    ensures
        node_views(nodes.push(node)) == node_views(nodes).push(node@),
{
    assert(node_views(nodes.push(node)) =~= node_views(nodes).push(node@));
}

/// The texts of a list with one string more are the texts of the list with
/// the text of that string more.
pub proof fn lemma_texts_push(strings: Seq<String>, text: String)
    ensures
        texts(strings.push(text)) == texts(strings).push(text@),
{
    assert(texts(strings.push(text)) =~= texts(strings).push(text@));
}

/// The identifiers of a list with one record more are the identifiers of
/// the list with the identifier of that record more.
pub proof fn lemma_ids_push(s: Seq<NodeView>, n: NodeView)
    ensures
        ids_of(s.push(n)) == ids_of(s).push(n.id),
{
    assert(ids_of(s.push(n)) =~= ids_of(s).push(n.id));
}

/// An announcement keeps the identifiers distinct.
pub proof fn lemma_upsert_distinct(
    s: Seq<NodeView>,
    id: Seq<char>,
    service_url: Seq<char>,
    now: Nanos,
)
    requires
        distinct_ids(s),
    ensures
        distinct_ids(upsert_spec(s, id, service_url, now)),
{
    lemma_first_where(s, |n: NodeView| n.id == id);
}

/// A change of health changes no identifier, and so keeps them distinct.
pub proof fn lemma_set_health_distinct(s: Seq<NodeView>, id: Seq<char>, state: NodeHealth)
    ensures
        ids_of(set_health_spec(s, id, state)) == ids_of(s),
        distinct_ids(s) ==> distinct_ids(set_health_spec(s, id, state)),
{
    lemma_first_where(s, |n: NodeView| n.id == id);
    assert(ids_of(set_health_spec(s, id, state)) =~= ids_of(s));
}

/// Marking a node busy changes no identifier, and so keeps them distinct.
pub proof fn lemma_occupy_distinct(s: Seq<NodeView>)
    ensures
        ids_of(occupy_spec(s)) == ids_of(s),
        distinct_ids(s) ==> distinct_ids(occupy_spec(s)),
{
    lemma_first_where(s, |n: NodeView| n.state is Available);
    assert(ids_of(occupy_spec(s)) =~= ids_of(s));
}

/// What is left of a list with distinct identifiers has distinct
/// identifiers.
pub proof fn lemma_filter_distinct(s: Seq<NodeView>, keep: spec_fn(NodeView) -> bool)
    requires
        distinct_ids(s),
    ensures
        distinct_ids(s.filter(keep)),
    decreases s.len(),
{
    reveal(Seq::filter);
    if s.len() > 0 {
        let front = s.drop_last();
        lemma_filter_distinct(front, keep);
        if keep(s.last()) {
            let kept = front.filter(keep);
            assert forall|i: int| 0 <= i < kept.len() implies (#[trigger] kept[i]).id
                != s.last().id by {
                front.lemma_filter_contains_rev(keep, kept[i]);
                let j = choose|j: int| 0 <= j < front.len() && front[j] == kept[i];
                assert(s[j] == kept[i]);
            }
        }
    }
}

/// The nodes of one service class.
#[derive(Debug)]
pub struct Registry {
    entries: Vec<NodeInfo>,
}

impl View for Registry {
    type V = Seq<NodeView>;

    closed spec fn view(&self) -> Seq<NodeView> {
        self.entries@.map_values(|n: NodeInfo| n@)
    }
}

impl Registry {
    /// A registry without nodes.
    pub fn new() -> (registry: Registry)
        ensures
            registry@ == Seq::<NodeView>::empty(),
    {
        let registry = Registry { entries: Vec::new() };
        assert(registry@ =~= Seq::<NodeView>::empty());
        registry
    }

    /// The number of nodes.
    pub fn len(&self) -> (n: usize)
        ensures
            n == self@.len(),
    {
        self.entries.len()
    }

    /// The index of the node `id`, or the number of nodes where there is
    /// none.
    fn index_of(&self, id: &str) -> (p: usize)
        ensures
            p as int == position(self@, id@),
            p <= self@.len(),
    {
        let mut i: usize = 0;
        while i < self.entries.len()
            invariant
                i <= self.entries.len(),
                forall|j: int| 0 <= j < i ==> (#[trigger] self@[j]).id != id@,
            decreases self.entries.len() - i,
        {
            if same_text(self.entries[i].id().as_str(), id) {
                proof {
                    lemma_first_where_is(self@, |n: NodeView| n.id == id@, i as int);
                }
                return i;
            }
            i += 1;
        }
        proof {
            lemma_first_where_is(self@, |n: NodeView| n.id == id@, i as int);
        }
        i
    }

    /// Takes in an announcement of the node `id`, received at `now`: the
    /// node is available at `service_url` and was last seen at `now`,
    /// whatever the registry held of it before.
    pub fn upsert(&mut self, id: &str, service_url: &str, now: Nanos)
        ensures
            final(self)@ == upsert_spec(old(self)@, id@, service_url@, now),
            distinct_ids(old(self)@) ==> distinct_ids(final(self)@),
    {
        proof {
            if distinct_ids(old(self)@) {
                lemma_upsert_distinct(old(self)@, id@, service_url@, now);
            }
        }
        let p = self.index_of(id);
        if p < self.entries.len() {
            proof {
                lemma_first_where(old(self)@, |n: NodeView| n.id == id@);
            }
            self.entries[p].refresh(service_url.to_owned(), now);
            assert(self@ =~= old(self)@.update(p as int, announced(id@, service_url@, now)));
        } else {
            self.entries.push(NodeInfo::new(id.to_owned(), service_url.to_owned(), now));
            assert(self@ =~= old(self)@.push(announced(id@, service_url@, now)));
        }
    }

    /// The records of all nodes, in the registry's order. The registry is
    /// left as it is.
    pub fn snapshot(&self) -> (nodes: Vec<NodeInfo>)
        ensures
            node_views(nodes@) == self@,
    {
        let mut nodes: Vec<NodeInfo> = Vec::new();
        let mut i: usize = 0;
        while i < self.entries.len()
            invariant
                i <= self.entries.len(),
                node_views(nodes@) == self@.take(i as int),
            decreases self.entries.len() - i,
        {
            let node = self.entries[i].clone();
            proof {
                lemma_node_views_push(nodes@, node);
                assert(self@.take(i + 1) =~= self@.take(i as int).push(self@[i as int]));
            }
            nodes.push(node);
            i += 1;
        }
        assert(self@.take(i as int) =~= self@);
        nodes
    }

    /// The record of the node `id`, if the registry has one.
    pub fn get(&self, id: &str) -> (node: Option<NodeInfo>)
        ensures
            node is Some == has_node(self@, id@),
            node matches Some(n) ==> n@ == self@[position(self@, id@)],
    {
        let p = self.index_of(id);
        if p < self.entries.len() {
            Some(self.entries[p].clone())
        } else {
            None
        }
    }
}

impl AppState {
    /// Picks the first available node of `nodes`, marks it busy, and
    /// returns its identifier and its URL. Where no node is available,
    /// returns `None` and leaves `nodes` as it is.
    pub fn find_and_occupy_node(nodes: &mut Registry) -> (found: Option<(String, String)>)
        ensures
            final(nodes)@ == occupy_spec(old(nodes)@),
            match found {
                Some((id, url)) => occupied_node(old(nodes)@) == Some((id@, url@)),
                None => occupied_node(old(nodes)@) is None,
            },
            distinct_ids(old(nodes)@) ==> distinct_ids(final(nodes)@),
    {
        proof {
            lemma_occupy_distinct(old(nodes)@);
        }
        let mut i: usize = 0;
        while i < nodes.entries.len()
            invariant
                i <= nodes.entries.len(),
                *nodes == *old(nodes),
                forall|j: int| 0 <= j < i ==> !((#[trigger] nodes@[j]).state is Available),
            decreases nodes.entries.len() - i,
        {
            if nodes.entries[i].state() == NodeHealth::Available {
                proof {
                    lemma_first_where_is(nodes@, |n: NodeView| n.state is Available, i as int);
                }
                let id = nodes.entries[i].id().clone();
                let url = nodes.entries[i].service_url().clone();
                nodes.entries[i].set_state(NodeHealth::Busy);
                assert(nodes@ =~= occupy_spec(old(nodes)@));
                return Some((id, url));
            }
            i += 1;
        }
        proof {
            lemma_first_where_is(nodes@, |n: NodeView| n.state is Available, i as int);
        }
        None
    }

    /// Sets the health of the node `unique_node_id` to `new_health`. Where
    /// `nodes` has no such node, nothing changes.
    pub fn update_node_state(nodes: &mut Registry, unique_node_id: &str, new_health: NodeHealth)
        ensures
            final(nodes)@ == set_health_spec(old(nodes)@, unique_node_id@, new_health),
            distinct_ids(old(nodes)@) ==> distinct_ids(final(nodes)@),
    {
        proof {
            lemma_set_health_distinct(old(nodes)@, unique_node_id@, new_health);
        }
        let p = nodes.index_of(unique_node_id);
        if p < nodes.entries.len() {
            nodes.entries[p].set_state(new_health);
            assert(nodes@ =~= set_health_spec(old(nodes)@, unique_node_id@, new_health));
        }
    }
}

/// Removes from `nodes_map` every node that is stale at `now`, that is, not
/// seen for longer than `timeout`, whatever its health. Returns the
/// identifiers of the removed nodes, in the registry's order.
pub fn remove_stale_nodes(nodes_map: &mut Registry, timeout: Nanos, now: Nanos) -> (removed: Vec<
    String,
>)
    ensures
        final(nodes_map)@ == fresh_nodes(old(nodes_map)@, now, timeout),
        texts(removed@) == stale_ids(old(nodes_map)@, now, timeout),
        distinct_ids(old(nodes_map)@) ==> distinct_ids(final(nodes_map)@),
{
    proof {
        if distinct_ids(old(nodes_map)@) {
            lemma_filter_distinct(old(nodes_map)@, fresh_at(now, timeout));
        }
    }
    let ghost before = nodes_map@;
    let mut kept: Vec<NodeInfo> = Vec::new();
    let mut removed: Vec<String> = Vec::new();
    let mut i: usize = 0;
    while i < nodes_map.entries.len()
        invariant
            i <= nodes_map.entries.len(),
            nodes_map@ == before,
            node_views(kept@) == fresh_nodes(before.take(i as int), now, timeout),
            texts(removed@) == stale_ids(before.take(i as int), now, timeout),
        decreases nodes_map.entries.len() - i,
    {
        proof {
            lemma_filter_step(before, fresh_at(now, timeout), i as int);
            lemma_filter_step(before, stale_at(now, timeout), i as int);
        }
        let last_seen = nodes_map.entries[i].last_seen();
        if now > last_seen && now - last_seen > timeout {
            let id = nodes_map.entries[i].id().clone();
            proof {
                lemma_texts_push(removed@, id);
                lemma_ids_push(
                    before.take(i as int).filter(stale_at(now, timeout)),
                    before[i as int],
                );
            }
            removed.push(id);
        } else {
            let node = nodes_map.entries[i].clone();
            proof {
                lemma_node_views_push(kept@, node);
            }
            kept.push(node);
        }
        i += 1;
    }
    assert(before.take(i as int) =~= before);
    nodes_map.entries = kept;
    assert(nodes_map@ =~= node_views(kept@));
    removed
}

} // verus!

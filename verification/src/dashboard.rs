//! How a node is shown to people: its health and the time since it was
//! last seen, in words.

use vstd::prelude::*;
use vstd::string::StringSliceAdditionalSpecFns;
use vstd::utf8::encode_utf8;
use crate::node::{Nanos, NodeHealth, NodeInfo, NodeView, NANOS_PER_SEC};
use crate::registry::node_views;
use crate::text::{decimal, decimal_text};

verus! {

/// The whole seconds from `then` to `now`; none where `then` is not
/// before `now`.
pub open spec fn seconds_between(then: Nanos, now: Nanos) -> nat {
    if now > then {
        ((now - then) / NANOS_PER_SEC as int) as nat
    } else {
        0
    }
}

/// The words for a node's health at `now`.
pub open spec fn health_text(state: NodeHealth, now: Nanos) -> Seq<char> {
    match state {
        NodeHealth::Available => "Available"@,
        NodeHealth::Busy => "Busy"@,
        NodeHealth::Failed(since) => "Failed ("@ + decimal_text(seconds_between(since, now))
            + "s)"@,
    }
}

/// The words for the time since a node was last seen.
pub open spec fn seen_text(last_seen: Nanos, now: Nanos) -> Seq<char> {
    decimal_text(seconds_between(last_seen, now)) + "s ago"@
}

/// The whole seconds from `then` to `now`.
pub fn seconds_since(then: Nanos, now: Nanos) -> (seconds: u64)
    ensures
        seconds == seconds_between(then, now),
{
    if now > then {
        (now - then) / NANOS_PER_SEC
    } else {
        0
    }
}

/// Says a node's health in words: `Available`, `Busy`, or `Failed` with
/// the seconds since the failure.
pub fn health_label(state: NodeHealth, now: Nanos) -> (label: String)
    ensures
        label@ == health_text(state, now),
{
    match state {
        NodeHealth::Available => "Available".to_owned(),
        NodeHealth::Busy => "Busy".to_owned(),
        NodeHealth::Failed(since) => {
            let mut label = "Failed (".to_owned();
            label.append(decimal(seconds_since(since, now)).as_str());
            label.append("s)");
            assert(label@ =~= health_text(state, now));
            label
        },
    }
}

/// Says how long ago a node was last seen, in seconds.
pub fn seen_label(last_seen: Nanos, now: Nanos) -> (label: String)
    ensures
        label@ == seen_text(last_seen, now),
{
    let mut label = decimal(seconds_since(last_seen, now));
    label.append("s ago");
    label
}

/// The order of byte strings: the first byte in which two strings differ
/// decides, and a string comes before every string that it begins.
pub open spec fn bytes_le(a: Seq<u8>, b: Seq<u8>) -> bool
    decreases a.len(),
{
    if a.len() == 0 {
        true
    } else if b.len() == 0 {
        false
    } else if a[0] != b[0] {
        a[0] < b[0]
    } else {
        bytes_le(a.drop_first(), b.drop_first())
    }
}

/// The order of texts, which is the order of their bytes in UTF-8.
pub open spec fn text_le(a: Seq<char>, b: Seq<char>) -> bool {
    bytes_le(encode_utf8(a), encode_utf8(b))
}

/// The records stand in the order of their identifiers.
pub open spec fn is_sorted_by_id(s: Seq<NodeView>) -> bool {
    forall|i: int, j: int| 0 <= i < j < s.len() ==> text_le(s[i].id, s[j].id)
}

/// Of two byte strings, one comes before or with the other.
pub proof fn lemma_bytes_le_total(a: Seq<u8>, b: Seq<u8>)
    ensures
        bytes_le(a, b) || bytes_le(b, a),
    decreases a.len(),
{
    if a.len() > 0 && b.len() > 0 && a[0] == b[0] {
        lemma_bytes_le_total(a.drop_first(), b.drop_first());
    }
}

/// What comes before something that comes before a third comes before
/// the third.
pub proof fn lemma_bytes_le_transitive(a: Seq<u8>, b: Seq<u8>, c: Seq<u8>)
    requires
        bytes_le(a, b),
        bytes_le(b, c),
    ensures
        bytes_le(a, c),
    decreases a.len(),
{
    if a.len() > 0 && b.len() > 0 && c.len() > 0 && a[0] == b[0] && b[0] == c[0] {
        lemma_bytes_le_transitive(a.drop_first(), b.drop_first(), c.drop_first());
    }
}

/// Tells whether `a` comes before or with `b` in the order of texts.
pub fn text_comes_first(a: &str, b: &str) -> (first: bool)
    ensures
        first == text_le(a@, b@),
{
    let left = a.as_bytes();
    let right = b.as_bytes();
    let mut i: usize = 0;
    assert(left@.skip(0) =~= left@ && right@.skip(0) =~= right@);
    while i < left.len() && i < right.len()
        invariant
            i <= left@.len(),
            i <= right@.len(),
            left@ == a.spec_bytes(),
            right@ == b.spec_bytes(),
            bytes_le(left@, right@) == bytes_le(left@.skip(i as int), right@.skip(i as int)),
        decreases left@.len() - i,
    {
        assert(left@.skip(i as int).drop_first() =~= left@.skip(i + 1));
        assert(right@.skip(i as int).drop_first() =~= right@.skip(i + 1));
        assert(left@.skip(i as int)[0] == left@[i as int]);
        assert(right@.skip(i as int)[0] == right@[i as int]);
        if left[i] != right[i] {
            return left[i] < right[i];
        }
        i += 1;
    }
    assert(left@.skip(i as int).len() == left@.len() - i);
    assert(right@.skip(i as int).len() == right@.len() - i);
    i >= left.len()
}

/// Putting one element into a list adds it to what the list holds.
pub proof fn lemma_insert_to_multiset<A>(s: Seq<A>, k: int, x: A)
    requires
        0 <= k <= s.len(),
    ensures
        s.insert(k, x).to_multiset() == s.to_multiset().insert(x),
{
    broadcast use vstd::seq_lib::group_to_multiset_ensures;

    let t = s.insert(k, x);
    assert(t.remove(k) =~= s);
    assert(t[k] == x);
    assert(t.contains(x));
    assert(t.to_multiset() =~= s.to_multiset().insert(x));
}

/// The records in the order of their identifiers: the same records, each
/// as often as before.
pub fn sort_by_id(nodes: Vec<NodeInfo>) -> (sorted: Vec<NodeInfo>)
    ensures
        is_sorted_by_id(node_views(sorted@)),
        node_views(sorted@).to_multiset() == node_views(nodes@).to_multiset(),
{
    broadcast use vstd::seq_lib::group_to_multiset_ensures;

    let ghost all = node_views(nodes@);
    let mut sorted: Vec<NodeInfo> = Vec::new();
    let mut i: usize = 0;
    assert(all.take(0) =~= node_views(sorted@));
    while i < nodes.len()
        invariant
            i <= nodes.len(),
            all == node_views(nodes@),
            is_sorted_by_id(node_views(sorted@)),
            node_views(sorted@).to_multiset() == all.take(i as int).to_multiset(),
        decreases nodes.len() - i,
    {
        let node = nodes[i].clone();
        let ghost placed = node_views(sorted@);
        let mut k: usize = 0;
        while k < sorted.len() && text_comes_first(sorted[k].id().as_str(), node.id().as_str())
            invariant
                k <= sorted.len(),
                placed == node_views(sorted@),
                forall|j: int| 0 <= j < k ==> text_le((#[trigger] placed[j]).id, node@.id),
            decreases sorted.len() - k,
        {
            k += 1;
        }
        proof {
            assert forall|j: int| k <= j < placed.len() implies text_le(
                node@.id,
                (#[trigger] placed[j]).id,
            ) by {
                lemma_bytes_le_total(encode_utf8(placed[k as int].id), encode_utf8(node@.id));
                if j > k {
                    assert(text_le(placed[k as int].id, placed[j].id));
                    lemma_bytes_le_transitive(
                        encode_utf8(node@.id),
                        encode_utf8(placed[k as int].id),
                        encode_utf8(placed[j].id),
                    );
                }
            }
            lemma_insert_to_multiset(placed, k as int, node@);
            assert(all.take(i + 1) =~= all.take(i as int).push(all[i as int]));
        }
        assert(node@ == all[i as int]);
        sorted.insert(k, node);
        assert(node_views(sorted@) =~= placed.insert(k as int, node@));
        proof {
            vstd::seq_lib::to_multiset_build(all.take(i as int), all[i as int]);
        }
        i += 1;
    }
    assert(all.take(i as int) =~= all);
    sorted
}

} // verus!

//! The rules of a well-formed topology, and the verdict on any topology.
//!
//! A topology is the sequence of its nodes in declaration order: drones first, then
//! clients, then servers. All nodes share one space of identifiers, and a neighbour may
//! be a node of any category: a client or a server may list another client or server
//! as long as the link is returned.

use crate::types::parsed_nodes::{NodeId, NodeSpec, NodeType};
use crate::utils::errors::ConfigError;
use vstd::prelude::*;

verus! {

/// Some node of `t` has the identifier `id`.
pub open spec fn has_node(t: Seq<NodeSpec>, id: NodeId) -> bool {
    exists|m: int| 0 <= m < t.len() && (#[trigger] t[m]).id == id
}

/// The identifiers in use.
pub open spec fn id_set(t: Seq<NodeSpec>) -> Set<NodeId> {
    Set::new(|id: NodeId| has_node(t, id))
}

/// No two nodes share an identifier.
pub open spec fn distinct_ids(t: Seq<NodeSpec>) -> bool {
    forall|a: int, b: int| 0 <= a < b < t.len() ==> (#[trigger] t[a]).id != (#[trigger] t[b]).id
}

/// `(i, j)` names a declared link: the `j`-th neighbour of the `i`-th node.
pub open spec fn is_link(t: Seq<NodeSpec>, i: int, j: int) -> bool {
    0 <= i < t.len() && 0 <= j < t[i].neighbors.len()
}

/// Link `(a, b)` is declared before link `(i, j)`.
pub open spec fn before(a: int, b: int, i: int, j: int) -> bool {
    a < i || (a == i && b < j)
}

/// The `j`-th neighbour of `node` is the node itself, repeats an earlier neighbour of
/// it, or is not among the `known` identifiers.
pub open spec fn neighbor_invalid(node: NodeSpec, known: Set<NodeId>, j: int) -> bool {
    let to = node.neighbors[j];
    ||| to == node.id
    ||| exists|k: int| 0 <= k < j && #[trigger] node.neighbors[k] == to
    ||| !known.contains(to)
}

/// Some node of `t` carries the identifier of the `j`-th neighbour of `node` and does
/// not list `node` in return.
pub open spec fn neighbor_one_way(node: NodeSpec, t: Seq<NodeSpec>, j: int) -> bool {
    exists|m: int|
        0 <= m < t.len() && (#[trigger] t[m]).id == node.neighbors[j] && !t[m].neighbors.contains(
            node.id,
        )
}

/// A client has at most two neighbours, a server at least two.
pub open spec fn degree_ok(node: NodeSpec) -> bool {
    match node.kind {
        NodeType::Drone => true,
        NodeType::Client => node.neighbors.len() <= 2,
        NodeType::Server => node.neighbors.len() >= 2,
    }
}

/// The rule "this link is structurally invalid", given the identifiers in use.
pub open spec fn invalid_among(known: Set<NodeId>) -> spec_fn(NodeSpec, int) -> bool {
    |node: NodeSpec, j: int| neighbor_invalid(node, known, j)
}

/// The rule "this link is structurally invalid in `t`".
pub open spec fn invalid_in(t: Seq<NodeSpec>) -> spec_fn(NodeSpec, int) -> bool {
    invalid_among(id_set(t))
}

/// The rule "this link has no return link in `t`".
pub open spec fn one_way_in(t: Seq<NodeSpec>) -> spec_fn(NodeSpec, int) -> bool {
    |node: NodeSpec, j: int| neighbor_one_way(node, t, j)
}

/// No declared link of `t` breaks the rule `bad`.
pub open spec fn no_link(t: Seq<NodeSpec>, bad: spec_fn(NodeSpec, int) -> bool) -> bool {
    forall|a: int, b: int| #![trigger bad(t[a], b)] is_link(t, a, b) ==> !bad(t[a], b)
}

/// `(i, j)` is the first declared link of `t` that breaks the rule `bad`.
pub open spec fn first_link(
    t: Seq<NodeSpec>,
    bad: spec_fn(NodeSpec, int) -> bool,
    i: int,
    j: int,
) -> bool {
    &&& is_link(t, i, j)
    &&& bad(t[i], j)
    &&& forall|a: int, b: int|
        #![trigger bad(t[a], b)]
        is_link(t, a, b) && before(a, b, i, j) ==> !bad(t[a], b)
}

/// Every node of `t` meets the bound on its number of neighbours.
pub open spec fn degrees_ok(t: Seq<NodeSpec>) -> bool {
    forall|a: int| 0 <= a < t.len() ==> degree_ok(#[trigger] t[a])
}

/// The `i`-th node is the first of `t` that misses the bound on its number of
/// neighbours.
pub open spec fn first_degree_offender(t: Seq<NodeSpec>, i: int) -> bool {
    &&& 0 <= i < t.len()
    &&& !degree_ok(t[i])
    &&& forall|a: int| 0 <= a < i ==> degree_ok(#[trigger] t[a])
}

/// The topology is one that a network can be built from.
pub open spec fn well_formed(t: Seq<NodeSpec>) -> bool {
    &&& distinct_ids(t)
    &&& t.len() > 0
    &&& no_link(t, invalid_in(t))
    &&& no_link(t, one_way_in(t))
    &&& degrees_ok(t)
}

/// The verdict on a topology: success, or the first failure in the fixed order of the
/// checks. Identifiers are checked first, then emptiness, then every link for its
/// structure, then every link for its return link, then the number of neighbours of
/// every node; within a check the first offender in declaration order is reported.
pub open spec fn verdict(t: Seq<NodeSpec>) -> Result<(), ConfigError> {
    if !distinct_ids(t) {
        Err(ConfigError::DuplicatedNodeId)
    } else if t.len() == 0 {
        Err(ConfigError::EmptyTopology)
    } else if !no_link(t, invalid_in(t)) {
        let (i, j) = choose|i: int, j: int| first_link(t, invalid_in(t), i, j);
        Err(ConfigError::InvalidNodeConnection(t[i].id, t[i].neighbors[j]))
    } else if !no_link(t, one_way_in(t)) {
        let (i, j) = choose|i: int, j: int| first_link(t, one_way_in(t), i, j);
        Err(ConfigError::UnidirectionalConnection(t[i].id, t[i].neighbors[j]))
    } else if !degrees_ok(t) {
        let i = choose|i: int| first_degree_offender(t, i);
        match t[i].kind {
            NodeType::Server => Err(ConfigError::ServerWithLessThanTwoConnections(t[i].id)),
            _ => Err(ConfigError::ClientWithMoreThanTwoConnections(t[i].id)),
        }
    } else {
        Ok(())
    }
}

/// At most one link is the first to break a rule.
pub proof fn lemma_first_link_unique(
    t: Seq<NodeSpec>,
    bad: spec_fn(NodeSpec, int) -> bool,
    i: int,
    j: int,
    i2: int,
    j2: int,
)
    requires
        first_link(t, bad, i, j),
        first_link(t, bad, i2, j2),
    ensures
        i == i2,
        j == j2,
{
    if before(i, j, i2, j2) {
        assert(!bad(t[i], j));
    }
    if before(i2, j2, i, j) {
        assert(!bad(t[i2], j2));
    }
}

/// A first offending link of a sequence is the first offending link of the sequence
/// extended at its end.
pub proof fn lemma_first_link_in_front(
    p: Seq<NodeSpec>,
    q: Seq<NodeSpec>,
    bad: spec_fn(NodeSpec, int) -> bool,
    i: int,
    j: int,
)
    requires
        first_link(p, bad, i, j),
    ensures
        first_link(p + q, bad, i, j),
{
    let t = p + q;
    assert(t[i] == p[i]);
    assert forall|a: int, b: int|
        #![trigger bad(t[a], b)]
        is_link(t, a, b) && before(a, b, i, j) implies !bad(t[a], b) by {
        assert(t[a] == p[a]);
        assert(is_link(p, a, b));
        assert(!bad(p[a], b));
    }
}

/// Behind a sequence without offending link, the first offending link of the rest is
/// the first offending link of the whole.
pub proof fn lemma_first_link_behind(
    p: Seq<NodeSpec>,
    q: Seq<NodeSpec>,
    bad: spec_fn(NodeSpec, int) -> bool,
    i: int,
    j: int,
)
    requires
        no_link(p, bad),
        first_link(q, bad, i, j),
    ensures
        first_link(p + q, bad, p.len() + i, j),
{
    let t = p + q;
    let n = p.len() as int;
    assert(t[n + i] == q[i]);
    assert forall|a: int, b: int|
        #![trigger bad(t[a], b)]
        is_link(t, a, b) && before(a, b, n + i, j) implies !bad(t[a], b) by {
        if a < n {
            assert(t[a] == p[a]);
            assert(is_link(p, a, b));
            assert(!bad(p[a], b));
        } else {
            assert(t[a] == q[a - n]);
            assert(is_link(q, a - n, b));
            assert(before(a - n, b, i, j));
            assert(!bad(q[a - n], b));
        }
    }
}

/// Two sequences without offending link make one without.
pub proof fn lemma_no_link_joined(
    p: Seq<NodeSpec>,
    q: Seq<NodeSpec>,
    bad: spec_fn(NodeSpec, int) -> bool,
)
    requires
        no_link(p, bad),
        no_link(q, bad),
    ensures
        no_link(p + q, bad),
{
    let t = p + q;
    let n = p.len() as int;
    assert forall|a: int, b: int| #![trigger bad(t[a], b)] is_link(t, a, b) implies !bad(
        t[a],
        b,
    ) by {
        if a < n {
            assert(t[a] == p[a]);
            assert(is_link(p, a, b));
            assert(!bad(p[a], b));
        } else {
            assert(t[a] == q[a - n]);
            assert(is_link(q, a - n, b));
            assert(!bad(q[a - n], b));
        }
    }
}

/// Two sequences with distinct identifiers that share none make one with distinct
/// identifiers.
pub proof fn lemma_distinct_joined(p: Seq<NodeSpec>, q: Seq<NodeSpec>)
    requires
        distinct_ids(p),
        distinct_ids(q),
        forall|b: int| 0 <= b < q.len() ==> !has_node(p, (#[trigger] q[b]).id),
    ensures
        distinct_ids(p + q),
{
    let t = p + q;
    let n = p.len() as int;
    assert forall|a: int, b: int| 0 <= a < b < t.len() implies (#[trigger] t[a]).id != (
    #[trigger] t[b]).id by {
        if b < n {
            assert(t[a] == p[a] && t[b] == p[b]);
        } else if a < n {
            assert(t[a] == p[a] && t[b] == q[b - n]);
            assert(!has_node(p, q[b - n].id));
        } else {
            assert(t[a] == q[a - n] && t[b] == q[b - n]);
        }
    }
}

/// A sequence that repeats an identifier still does so when extended at its end.
pub proof fn lemma_duplicate_in_front(p: Seq<NodeSpec>, q: Seq<NodeSpec>)
    requires
        !distinct_ids(p),
    ensures
        !distinct_ids(p + q),
{
    let t = p + q;
    let (a, b) = choose|a: int, b: int|
        0 <= a < b < p.len() && (#[trigger] p[a]).id == (#[trigger] p[b]).id;
    assert(t[a] == p[a] && t[b] == p[b]);
}

/// A sequence whose rest repeats an identifier, of the rest or of the front, repeats
/// an identifier.
pub proof fn lemma_duplicate_behind(p: Seq<NodeSpec>, q: Seq<NodeSpec>)
    requires
        !distinct_ids(q) || exists|b: int| 0 <= b < q.len() && has_node(p, (#[trigger] q[b]).id),
    ensures
        !distinct_ids(p + q),
{
    let t = p + q;
    let n = p.len() as int;
    if !distinct_ids(q) {
        let (a, b) = choose|a: int, b: int|
            0 <= a < b < q.len() && (#[trigger] q[a]).id == (#[trigger] q[b]).id;
        assert(t[n + a] == q[a] && t[n + b] == q[b]);
    } else {
        let b = choose|b: int| 0 <= b < q.len() && has_node(p, (#[trigger] q[b]).id);
        let a = choose|a: int| 0 <= a < p.len() && (#[trigger] p[a]).id == q[b].id;
        assert(t[a] == p[a] && t[n + b] == q[b]);
    }
}

/// The identifiers of a joined sequence are those of its two parts.
pub proof fn lemma_id_set_joined(p: Seq<NodeSpec>, q: Seq<NodeSpec>)
    ensures
        id_set(p + q) == id_set(p).union(id_set(q)),
{
    let t = p + q;
    let n = p.len() as int;
    assert forall|id: NodeId| id_set(t).contains(id) <==> id_set(p).contains(id) || id_set(
        q,
    ).contains(id) by {
        if has_node(t, id) {
            let m = choose|m: int| 0 <= m < t.len() && (#[trigger] t[m]).id == id;
            if m < n {
                assert(p[m].id == id);
            } else {
                assert(q[m - n].id == id);
            }
        }
        if has_node(p, id) {
            let m = choose|m: int| 0 <= m < p.len() && (#[trigger] p[m]).id == id;
            assert(t[m].id == id);
        }
        if has_node(q, id) {
            let m = choose|m: int| 0 <= m < q.len() && (#[trigger] q[m]).id == id;
            assert(t[n + m].id == id);
        }
    }
    assert(id_set(t) =~= id_set(p).union(id_set(q)));
}

/// With distinct identifiers the topology has as many identifiers as nodes.
pub proof fn lemma_id_count(t: Seq<NodeSpec>)
    requires
        distinct_ids(t),
    ensures
        id_set(t).finite(),
        id_set(t).len() == t.len(),
    decreases t.len(),
{
    if t.len() == 0 {
        assert(id_set(t) =~= Set::<NodeId>::empty());
    } else {
        let front = t.drop_last();
        let last = t.last();
        assert forall|a: int, b: int| 0 <= a < b < front.len() implies (#[trigger] front[a]).id
            != (#[trigger] front[b]).id by {
            assert(front[a] == t[a] && front[b] == t[b]);
        }
        lemma_id_count(front);
        assert(!has_node(front, last.id)) by {
            if has_node(front, last.id) {
                let m = choose|m: int| 0 <= m < front.len() && (#[trigger] front[m]).id == last.id;
                assert(t[m] == front[m]);
                assert(t[t.len() - 1] == last);
            }
        }
        assert(t == front + seq![last]);
        lemma_id_set_joined(front, seq![last]);
        assert(id_set(seq![last]) =~= set![last.id]) by {
            assert(seq![last][0].id == last.id);
        }
        assert(id_set(t) =~= id_set(front).insert(last.id));
    }
}

/// The verdict when a link is the first to be structurally invalid.
pub proof fn lemma_verdict_invalid(t: Seq<NodeSpec>, i: int, j: int)
    requires
        distinct_ids(t),
        first_link(t, invalid_in(t), i, j),
    ensures
        verdict(t) == Err::<(), ConfigError>(
            ConfigError::InvalidNodeConnection(t[i].id, t[i].neighbors[j]),
        ),
{
    let bad = invalid_in(t);
    assert(!no_link(t, bad)) by {
        assert(is_link(t, i, j) && bad(t[i], j));
    }
    let (ci, cj) = choose|ci: int, cj: int| first_link(t, bad, ci, cj);
    lemma_first_link_unique(t, bad, i, j, ci, cj);
}

/// The verdict when every link is structurally valid and a link is the first without
/// return link.
pub proof fn lemma_verdict_one_way(t: Seq<NodeSpec>, i: int, j: int)
    requires
        distinct_ids(t),
        no_link(t, invalid_in(t)),
        first_link(t, one_way_in(t), i, j),
    ensures
        verdict(t) == Err::<(), ConfigError>(
            ConfigError::UnidirectionalConnection(t[i].id, t[i].neighbors[j]),
        ),
{
    let bad = one_way_in(t);
    assert(!no_link(t, bad)) by {
        assert(is_link(t, i, j) && bad(t[i], j));
    }
    let (ci, cj) = choose|ci: int, cj: int| first_link(t, bad, ci, cj);
    lemma_first_link_unique(t, bad, i, j, ci, cj);
}

/// The verdict when every link is valid and returned and a node is the first to miss
/// the bound on its number of neighbours.
pub proof fn lemma_verdict_degree(t: Seq<NodeSpec>, i: int)
    requires
        distinct_ids(t),
        no_link(t, invalid_in(t)),
        no_link(t, one_way_in(t)),
        first_degree_offender(t, i),
    ensures
        verdict(t) == match t[i].kind {
            NodeType::Server => Err::<(), ConfigError>(
                ConfigError::ServerWithLessThanTwoConnections(t[i].id),
            ),
            _ => Err::<(), ConfigError>(ConfigError::ClientWithMoreThanTwoConnections(t[i].id)),
        },
{
    assert(!degrees_ok(t));
    let c = choose|c: int| first_degree_offender(t, c);
    if c < i {
        assert(degree_ok(t[c]));
    }
    if i < c {
        assert(degree_ok(t[i]));
    }
}

/// The verdict is success exactly on the well-formed topologies.
pub proof fn lemma_verdict_ok(t: Seq<NodeSpec>)
    ensures
        verdict(t) is Ok <==> well_formed(t),
{
}

/// No node lists itself as a neighbour.
pub open spec fn no_self_loops(t: Seq<NodeSpec>) -> bool {
    forall|i: int, j: int| is_link(t, i, j) ==> #[trigger] t[i].neighbors[j] != t[i].id
}

/// No node lists a neighbour twice.
pub open spec fn no_repeated_neighbors(t: Seq<NodeSpec>) -> bool {
    forall|i: int| 0 <= i < t.len() ==> (#[trigger] t[i]).neighbors.no_duplicates()
}

/// Every declared neighbour is a node of the topology that lists the declaring node
/// in return.
pub open spec fn edges_symmetric(t: Seq<NodeSpec>) -> bool {
    forall|i: int, j: int|
        is_link(t, i, j) ==> exists|m: int|
            0 <= m < t.len() && (#[trigger] t[m]).id == (#[trigger] t[i].neighbors[j])
                && t[m].neighbors.contains(t[i].id)
}

/// A topology with a node in which every identifier is unique, no node lists itself or
/// lists a neighbour twice, every edge is symmetric and every node meets the bound on
/// its number of neighbours is accepted; and only such a topology is.
pub proof fn lemma_accepted_topologies(t: Seq<NodeSpec>)
    ensures
        verdict(t) == Ok::<(), ConfigError>(()) <==> {
            &&& t.len() > 0
            &&& distinct_ids(t)
            &&& no_self_loops(t)
            &&& no_repeated_neighbors(t)
            &&& edges_symmetric(t)
            &&& degrees_ok(t)
        },
{
    let invalid = invalid_in(t);
    let one_way = one_way_in(t);
    if t.len() > 0 && distinct_ids(t) && no_self_loops(t) && no_repeated_neighbors(t)
        && edges_symmetric(t) && degrees_ok(t) {
        assert forall|a: int, b: int| #![trigger invalid(t[a], b)] is_link(t, a, b) implies !invalid(
            t[a],
            b,
        ) by {
            let m = choose|m: int|
                0 <= m < t.len() && (#[trigger] t[m]).id == t[a].neighbors[b]
                    && t[m].neighbors.contains(t[a].id);
            assert(has_node(t, t[a].neighbors[b]));
            assert(t[a].neighbors.no_duplicates());
        }
        assert forall|a: int, b: int| #![trigger one_way(t[a], b)] is_link(t, a, b) implies !one_way(
            t[a],
            b,
        ) by {
            let m = choose|m: int|
                0 <= m < t.len() && (#[trigger] t[m]).id == t[a].neighbors[b]
                    && t[m].neighbors.contains(t[a].id);
            assert forall|w: int|
                0 <= w < t.len() && (#[trigger] t[w]).id
                    == t[a].neighbors[b] implies t[w].neighbors.contains(t[a].id) by {
                if w < m {
                    assert(t[w].id != t[m].id);
                }
                if m < w {
                    assert(t[m].id != t[w].id);
                }
            }
        }
    }
    if well_formed(t) {
        assert forall|i: int, j: int| is_link(t, i, j) implies #[trigger] t[i].neighbors[j]
            != t[i].id by {
            assert(!invalid(t[i], j));
        }
        assert forall|i: int| 0 <= i < t.len() implies (#[trigger] t[i]).neighbors.no_duplicates() by {
            assert forall|k: int, j: int|
                0 <= k < t[i].neighbors.len() && 0 <= j < t[i].neighbors.len() && k
                    != j implies t[i].neighbors[k] != t[i].neighbors[j] by {
                if k < j {
                    assert(is_link(t, i, j));
                    assert(!invalid(t[i], j));
                } else {
                    assert(is_link(t, i, k));
                    assert(!invalid(t[i], k));
                }
            }
        }
        assert forall|i: int, j: int| is_link(t, i, j) implies exists|m: int|
            0 <= m < t.len() && (#[trigger] t[m]).id == (#[trigger] t[i].neighbors[j])
                && t[m].neighbors.contains(t[i].id) by {
            assert(!invalid(t[i], j));
            assert(!one_way(t[i], j));
            assert(has_node(t, t[i].neighbors[j]));
            let m = choose|m: int| 0 <= m < t.len() && (#[trigger] t[m]).id == t[i].neighbors[j];
            assert(t[m].neighbors.contains(t[i].id));
        }
    }
}

/// The verdict speaks of the topology only: it never blames the configuration file.
pub proof fn lemma_verdict_blames_topology(t: Seq<NodeSpec>)
    ensures
        !(verdict(t) matches Err(ConfigError::FileReadError(_))),
        !(verdict(t) matches Err(ConfigError::ParseError(_))),
{
}

/// A topology that repeats an identifier is refused for that, whatever else is wrong
/// with it.
pub proof fn lemma_duplicate_refused(t: Seq<NodeSpec>)
    requires
        !distinct_ids(t),
    ensures
        verdict(t) == Err::<(), ConfigError>(ConfigError::DuplicatedNodeId),
{
}

} // verus!

//! Lemmas about the model of flattening that the executable code rests on.

use vstd::prelude::*;
use crate::graph::{GraphExposedMessageType, GraphView};
use crate::graph::connection::{
    GraphConnectionView,
    GraphDestinationView,
    GraphMessageFlowView,
    MessageKind,
};
use crate::graph::node::GraphNodeView;
use crate::graph::subgraph_model::{
    connection_with_flow,
    empty_group,
    flatten_connections,
    flows_of,
    group_of,
    grouped,
    inline_nodes,
    LoadTree,
    optional,
    overlay,
    overlay_reached,
    own_flows,
    OwnedFlow,
    owners,
    resolve_connections,
    resolve_destinations,
    resolve_flows,
    walk,
    with_flow,
};
use crate::json::DocView;

verus! {

/// Once a destination fails to resolve, resolving more of them fails alike.
pub proof fn lemma_resolve_destinations_fails(
    dests: Seq<GraphDestinationView>,
    j: nat,
    n: nat,
    table: Map<Seq<char>, GraphView>,
    flow_name: Seq<char>,
    msg_type: GraphExposedMessageType,
)
    requires
        j <= n,
        resolve_destinations(dests, j, table, flow_name, msg_type) is Err,
    ensures
        resolve_destinations(dests, n, table, flow_name, msg_type) == resolve_destinations(
            dests,
            j,
            table,
            flow_name,
            msg_type,
        ),
    decreases n - j,
{
    if j < n {
        lemma_resolve_destinations_fails(dests, j, (n - 1) as nat, table, flow_name, msg_type);
    }
}

/// Once a flow fails to resolve, resolving more of them fails alike.
pub proof fn lemma_resolve_flows_fails(
    flows: Seq<GraphMessageFlowView>,
    j: nat,
    n: nat,
    table: Map<Seq<char>, GraphView>,
    msg_type: GraphExposedMessageType,
)
    requires
        j <= n,
        resolve_flows(flows, j, table, msg_type) is Err,
    ensures
        resolve_flows(flows, n, table, msg_type) == resolve_flows(flows, j, table, msg_type),
    decreases n - j,
{
    if j < n {
        lemma_resolve_flows_fails(flows, j, (n - 1) as nat, table, msg_type);
    }
}

/// Once a connection fails to resolve, resolving more of them fails alike.
pub proof fn lemma_resolve_connections_fails(
    connections: Seq<GraphConnectionView>,
    j: nat,
    n: nat,
    table: Map<Seq<char>, GraphView>,
)
    requires
        j <= n,
        resolve_connections(connections, j, table) is Err,
    ensures
        resolve_connections(connections, n, table) == resolve_connections(connections, j, table),
    decreases n - j,
{
    if j < n {
        lemma_resolve_connections_fails(connections, j, (n - 1) as nat, table);
    }
}

/// Once a flow has no owner, finding the owners of more flows fails alike.
pub proof fn lemma_own_flows_fails(
    flows: Seq<GraphMessageFlowView>,
    j: nat,
    n: nat,
    kind: MessageKind,
    subgraph_name: Seq<char>,
    sub: GraphView,
)
    requires
        j <= n,
        own_flows(flows, j, kind, subgraph_name, sub) is Err,
    ensures
        own_flows(flows, n, kind, subgraph_name, sub) == own_flows(
            flows,
            j,
            kind,
            subgraph_name,
            sub,
        ),
    decreases n - j,
{
    if j < n {
        lemma_own_flows_fails(flows, j, (n - 1) as nat, kind, subgraph_name, sub);
    }
}

/// Once a connection fails to flatten, flattening more of them fails alike.
pub proof fn lemma_flatten_connections_fails(
    connections: Seq<GraphConnectionView>,
    j: nat,
    n: nat,
    table: Map<Seq<char>, GraphView>,
)
    requires
        j <= n,
        flatten_connections(connections, j, table) is Err,
    ensures
        flatten_connections(connections, n, table) == flatten_connections(connections, j, table),
    decreases n - j,
{
    if j < n {
        lemma_flatten_connections_fails(connections, j, (n - 1) as nat, table);
    }
}

/// Once a member of the overlay fails, applying more members fails alike.
pub proof fn lemma_overlay_fails(
    doc: Option<DocView>,
    members: Seq<(Seq<char>, serde_json::Value)>,
    j: nat,
    n: nat,
    sub: GraphView,
    inner_name: Seq<char>,
    owner_name: Seq<char>,
)
    requires
        j <= n,
        overlay(doc, members, j, sub, inner_name, owner_name) is Err,
    ensures
        overlay(doc, members, n, sub, inner_name, owner_name) == overlay(
            doc,
            members,
            j,
            sub,
            inner_name,
            owner_name,
        ),
    decreases n - j,
{
    if j < n {
        lemma_overlay_fails(doc, members, j, (n - 1) as nat, sub, inner_name, owner_name);
    }
}

/// Where no member fails, the document that is reached is the one that the
/// overlay gives.
pub proof fn lemma_overlay_reached_ok(
    doc: Option<DocView>,
    members: Seq<(Seq<char>, serde_json::Value)>,
    n: nat,
    sub: GraphView,
    inner_name: Seq<char>,
    owner_name: Seq<char>,
)
    requires
        overlay(doc, members, n, sub, inner_name, owner_name) is Ok,
    ensures
        overlay_reached(doc, members, n, sub, inner_name, owner_name) == overlay(
            doc,
            members,
            n,
            sub,
            inner_name,
            owner_name,
        )->Ok_0,
{
}

/// Where member `j` is the first that fails, the document that is reached
/// is the one that the members before `j` give.
pub proof fn lemma_overlay_reached_fails(
    doc: Option<DocView>,
    members: Seq<(Seq<char>, serde_json::Value)>,
    j: nat,
    n: nat,
    sub: GraphView,
    inner_name: Seq<char>,
    owner_name: Seq<char>,
)
    requires
        j < n,
        overlay(doc, members, j, sub, inner_name, owner_name) is Ok,
        overlay(doc, members, j + 1, sub, inner_name, owner_name) is Err,
    ensures
        overlay_reached(doc, members, n, sub, inner_name, owner_name) == overlay(
            doc,
            members,
            j,
            sub,
            inner_name,
            owner_name,
        )->Ok_0,
    decreases n - j,
{
    if j + 1 < n {
        lemma_overlay_reached_fails(doc, members, j, (n - 1) as nat, sub, inner_name, owner_name);
        lemma_overlay_fails(doc, members, j + 1, (n - 1) as nat, sub, inner_name, owner_name);
    }
}

/// Once a node fails to inline, inlining more nodes fails alike.
pub proof fn lemma_inline_nodes_fails(
    nodes: Seq<GraphNodeView>,
    j: nat,
    n: nat,
    owner: GraphNodeView,
    sub: GraphView,
)
    requires
        j <= n,
        inline_nodes(nodes, j, owner, sub) is Err,
    ensures
        inline_nodes(nodes, n, owner, sub) == inline_nodes(nodes, j, owner, sub),
    decreases n - j,
{
    if j < n {
        lemma_inline_nodes_fails(nodes, j, (n - 1) as nat, owner, sub);
    }
}

/// The walk over the first `n` nodes depends on what was loaded for those
/// nodes only.
pub proof fn lemma_walk_prefix(
    graph: GraphView,
    a: Seq<LoadTree>,
    b: Seq<LoadTree>,
    depth: nat,
    n: nat,
)
    requires
        forall|k: int| 0 <= k < n ==> a[k] == b[k],
    ensures
        walk(graph, a, depth, n) == walk(graph, b, depth, n),
    decreases n,
{
    if n > 0 {
        lemma_walk_prefix(graph, a, b, depth, (n - 1) as nat);
    }
}

/// Once the walk fails at a node, walking further fails alike.
pub proof fn lemma_walk_fails(graph: GraphView, loads: Seq<LoadTree>, depth: nat, j: nat, n: nat)
    requires
        j <= n,
        walk(graph, loads, depth, j) is Err,
    ensures
        walk(graph, loads, depth, n) == walk(graph, loads, depth, j),
    decreases n - j,
{
    if j < n {
        lemma_walk_fails(graph, loads, depth, j, (n - 1) as nat);
    }
}

/// The distinct owners among the first `n` flows depend on those flows only.
pub proof fn lemma_owners_prefix(a: Seq<OwnedFlow>, b: Seq<OwnedFlow>, n: nat)
    requires
        n <= a.len(),
        n <= b.len(),
        forall|i: int| 0 <= i < n ==> a[i] == b[i],
    ensures
        owners(a, n) == owners(b, n),
    decreases n,
{
    if n > 0 {
        lemma_owners_prefix(a, b, (n - 1) as nat);
    }
}

/// The flows of one owner among the first `n` flows depend on those flows
/// only.
pub proof fn lemma_flows_of_prefix(
    a: Seq<OwnedFlow>,
    b: Seq<OwnedFlow>,
    n: nat,
    kind: MessageKind,
    owner: Seq<char>,
)
    requires
        n <= a.len(),
        n <= b.len(),
        forall|i: int| 0 <= i < n ==> a[i] == b[i],
    ensures
        flows_of(a, n, kind, owner) == flows_of(b, n, kind, owner),
    decreases n,
{
    if n > 0 {
        lemma_flows_of_prefix(a, b, (n - 1) as nat, kind, owner);
    }
}

/// No owner occurs twice among the distinct owners.
pub proof fn lemma_owners_distinct(flows: Seq<OwnedFlow>, n: nat)
    ensures
        forall|i: int, j: int|
            0 <= i < j < owners(flows, n).len() ==> owners(flows, n)[i] != owners(flows, n)[j],
    decreases n,
{
    if n > 0 {
        lemma_owners_distinct(flows, (n - 1) as nat);
        let before = owners(flows, (n - 1) as nat);
        let now = owners(flows, n);
        assert forall|i: int, j: int| 0 <= i < j < now.len() implies now[i] != now[j] by {
            if !before.contains(flows[n - 1].owner) && j == before.len() {
                assert(before[i] == now[i]);
            }
        }
    }
}

/// The owner of each of the first `n` flows is among the distinct owners.
pub proof fn lemma_owners_complete(flows: Seq<OwnedFlow>, n: nat)
    ensures
        forall|i: int| 0 <= i < n ==> owners(flows, n).contains(#[trigger] flows[i].owner),
    decreases n,
{
    if n > 0 {
        lemma_owners_complete(flows, (n - 1) as nat);
        let before = owners(flows, (n - 1) as nat);
        let now = owners(flows, n);
        assert forall|i: int| 0 <= i < n implies now.contains(#[trigger] flows[i].owner) by {
            if i < n - 1 {
                assert(before.contains(flows[i].owner));
                let k = choose|k: int| 0 <= k < before.len() && before[k] == flows[i].owner;
                assert(now[k] == flows[i].owner);
            } else {
                if before.contains(flows[n - 1].owner) {
                } else {
                    assert(now[now.len() - 1] == flows[n - 1].owner);
                }
            }
        }
    }
}

/// An extension that is not among the distinct owners gives none of the
/// first `n` flows.
pub proof fn lemma_flows_of_absent(
    flows: Seq<OwnedFlow>,
    n: nat,
    kind: MessageKind,
    owner: Seq<char>,
)
    requires
        !owners(flows, n).contains(owner),
    ensures
        flows_of(flows, n, kind, owner) == Seq::<GraphMessageFlowView>::empty(),
    decreases n,
{
    if n > 0 {
        let before = owners(flows, (n - 1) as nat);
        let now = owners(flows, n);
        if before.contains(owner) {
            let k = choose|k: int| 0 <= k < before.len() && before[k] == owner;
            assert(now[k] == owner);
        }
        if flows[n - 1].owner == owner {
            if before.contains(flows[n - 1].owner) {
            } else {
                assert(now[now.len() - 1] == owner);
            }
        }
        lemma_flows_of_absent(flows, (n - 1) as nat, kind, owner);
    }
}

/// How the groups change when one more flow arrives: the group of its owner
/// gets the flow at the end of its list of that kind, or, where the owner is
/// new, a group that holds only this flow is added at the end.
pub proof fn lemma_group_step(all: Seq<OwnedFlow>, app: Option<Seq<char>>, next: OwnedFlow)
    ensures
        ({
            let n = all.len();
            let names = owners(all, n);
            let before = grouped(all, n, app);
            let after = grouped(all.push(next), n + 1, app);
            &&& before.len() == names.len()
            &&& forall|m: int|
                0 <= m < before.len() ==> (#[trigger] before[m]).loc.extension == Some(names[m])
            &&& forall|i: int, j: int| 0 <= i < j < names.len() ==> names[i] != names[j]
            &&& names.contains(next.owner) ==> after.len() == before.len() && forall|m: int|
                0 <= m < before.len() ==> #[trigger] after[m] == if names[m] == next.owner {
                    connection_with_flow(before[m], next.kind, next.flow)
                } else {
                    before[m]
                }
            &&& !names.contains(next.owner) ==> after == before.push(
                connection_with_flow(empty_group(app, next.owner), next.kind, next.flow),
            )
        }),
{
    let n = all.len();
    let more = all.push(next);
    let names = owners(all, n);
    let before = grouped(all, n, app);
    let after = grouped(more, n + 1, app);
    lemma_owners_distinct(all, n);
    lemma_owners_prefix(all, more, n);
    assert(owners(more, n) == names);
    assert forall|kind: MessageKind, owner: Seq<char>|
        flows_of(more, n, kind, owner) == flows_of(all, n, kind, owner) by {
        lemma_flows_of_prefix(all, more, n, kind, owner);
    }
    assert forall|kind: MessageKind, owner: Seq<char>|
        #[trigger] flows_of(more, n + 1, kind, owner) == if next.kind == kind && next.owner
            == owner {
            flows_of(all, n, kind, owner).push(next.flow)
        } else {
            flows_of(all, n, kind, owner)
        } by {
        assert(flows_of(more, n, kind, owner) == flows_of(all, n, kind, owner));
        assert(more[n as int] == next);
    }
    assert forall|kind: MessageKind, owner: Seq<char>|
        optional(flows_of(all, n, kind, owner).push(next.flow)) == with_flow(
            #[trigger] optional(flows_of(all, n, kind, owner)),
            next.flow,
        ) by {
        let list = flows_of(all, n, kind, owner);
        if list.len() == 0 {
            assert(list.push(next.flow) =~= seq![next.flow]);
        }
    }
    assert(more[n as int] == next);
    if names.contains(next.owner) {
        assert(owners(more, n + 1) == names);
        assert forall|m: int| 0 <= m < before.len() implies #[trigger] after[m] == if names[m]
            == next.owner {
            connection_with_flow(before[m], next.kind, next.flow)
        } else {
            before[m]
        } by {
            let owner = names[m];
            assert(flows_of(more, n + 1, MessageKind::Cmd, owner) == if next.kind
                == MessageKind::Cmd && next.owner == owner {
                flows_of(all, n, MessageKind::Cmd, owner).push(next.flow)
            } else {
                flows_of(all, n, MessageKind::Cmd, owner)
            });
            assert(flows_of(more, n + 1, MessageKind::Data, owner) == if next.kind
                == MessageKind::Data && next.owner == owner {
                flows_of(all, n, MessageKind::Data, owner).push(next.flow)
            } else {
                flows_of(all, n, MessageKind::Data, owner)
            });
            assert(flows_of(more, n + 1, MessageKind::AudioFrame, owner) == if next.kind
                == MessageKind::AudioFrame && next.owner == owner {
                flows_of(all, n, MessageKind::AudioFrame, owner).push(next.flow)
            } else {
                flows_of(all, n, MessageKind::AudioFrame, owner)
            });
            assert(flows_of(more, n + 1, MessageKind::VideoFrame, owner) == if next.kind
                == MessageKind::VideoFrame && next.owner == owner {
                flows_of(all, n, MessageKind::VideoFrame, owner).push(next.flow)
            } else {
                flows_of(all, n, MessageKind::VideoFrame, owner)
            });
        }
    } else {
        assert(owners(more, n + 1) == names.push(next.owner));
        let added = connection_with_flow(empty_group(app, next.owner), next.kind, next.flow);
        assert forall|kind: MessageKind|
            #[trigger] flows_of(all, n, kind, next.owner) == Seq::<
                GraphMessageFlowView,
            >::empty() by {
            lemma_flows_of_absent(all, n, kind, next.owner);
        }
        assert(flows_of(all, n, MessageKind::Cmd, next.owner).len() == 0);
        assert(flows_of(all, n, MessageKind::Data, next.owner).len() == 0);
        assert(flows_of(all, n, MessageKind::AudioFrame, next.owner).len() == 0);
        assert(flows_of(all, n, MessageKind::VideoFrame, next.owner).len() == 0);
        assert(group_of(more, n + 1, app, next.owner) == added) by {
            assert(flows_of(more, n + 1, MessageKind::Cmd, next.owner) == if next.kind
                == MessageKind::Cmd {
                flows_of(all, n, MessageKind::Cmd, next.owner).push(next.flow)
            } else {
                flows_of(all, n, MessageKind::Cmd, next.owner)
            });
            assert(flows_of(more, n + 1, MessageKind::Data, next.owner) == if next.kind
                == MessageKind::Data {
                flows_of(all, n, MessageKind::Data, next.owner).push(next.flow)
            } else {
                flows_of(all, n, MessageKind::Data, next.owner)
            });
            assert(flows_of(more, n + 1, MessageKind::AudioFrame, next.owner) == if next.kind
                == MessageKind::AudioFrame {
                flows_of(all, n, MessageKind::AudioFrame, next.owner).push(next.flow)
            } else {
                flows_of(all, n, MessageKind::AudioFrame, next.owner)
            });
            assert(flows_of(more, n + 1, MessageKind::VideoFrame, next.owner) == if next.kind
                == MessageKind::VideoFrame {
                flows_of(all, n, MessageKind::VideoFrame, next.owner).push(next.flow)
            } else {
                flows_of(all, n, MessageKind::VideoFrame, next.owner)
            });
        }
        assert forall|m: int| 0 <= m < before.len() implies after[m] == before[m] by {
            let owner = names[m];
            assert(owner != next.owner);
            assert(flows_of(more, n + 1, MessageKind::Cmd, owner) == flows_of(
                all,
                n,
                MessageKind::Cmd,
                owner,
            ));
            assert(flows_of(more, n + 1, MessageKind::Data, owner) == flows_of(
                all,
                n,
                MessageKind::Data,
                owner,
            ));
            assert(flows_of(more, n + 1, MessageKind::AudioFrame, owner) == flows_of(
                all,
                n,
                MessageKind::AudioFrame,
                owner,
            ));
            assert(flows_of(more, n + 1, MessageKind::VideoFrame, owner) == flows_of(
                all,
                n,
                MessageKind::VideoFrame,
                owner,
            ));
        }
        assert(after =~= before.push(added));
    }
}

} // verus!

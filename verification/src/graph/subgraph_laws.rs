//! Laws of flattening, stated over the model and proved from it.

use vstd::prelude::*;
use crate::graph::{Graph, GraphExposedMessageType, GraphView, incoming};
use crate::graph::connection::{
    GraphConnectionView,
    GraphDestinationView,
    GraphLocView,
    GraphMessageFlowView,
    MessageKind,
};
use crate::graph::error::{GraphError, GraphErrorView};
use crate::graph::node::{GraphNodeType, GraphNodeView};
use crate::graph::subgraph_model::{
    is_loaded_at,
    load_agrees,
    loader_gave,
    loads_agree,
    connection_in_subgraph,
    connection_is_flat,
    connections_are_flat,
    flow_is_flat,
    flows_are_flat,
    flows_in_subgraph,
    internal_connections,
    expand_source,
    flatten_connection,
    flatten_connections,
    flatten_graph,
    flatten_loaded,
    flows_of,
    group_of,
    grouped,
    inline_loaded,
    inline_node,
    inline_nodes,
    inline_subgraph,
    Inlined,
    LoadTree,
    optional,
    OwnedFlow,
    owners,
    resolve_connection,
    resolve_connections,
    resolve_destination,
    resolve_destinations,
    resolve_flow,
    resolve_flows,
    resolve_optional_flows,
    rewrite_extension,
    walk,
    walk_step,
};
use crate::graph::subgraph_proofs::{lemma_owners_complete, lemma_owners_distinct};
use crate::text::{is_shorthand, prefixed};

verus! {

// ---------------------------------------------------------------------------
// Names of inlined nodes
// ---------------------------------------------------------------------------

/// Inlining the first `n` nodes of a subgraph inlines each of them, in
/// order.
pub proof fn lemma_inline_nodes_elements(
    nodes: Seq<GraphNodeView>,
    n: nat,
    owner: GraphNodeView,
    sub: GraphView,
)
    requires
        inline_nodes(nodes, n, owner, sub) is Ok,
    ensures
        inline_nodes(nodes, n, owner, sub)->Ok_0.len() == n,
        forall|i: int|
            0 <= i < n ==> inline_node(#[trigger] nodes[i], owner, sub) is Ok && inline_nodes(
                nodes,
                n,
                owner,
                sub,
            )->Ok_0[i] == inline_node(nodes[i], owner, sub)->Ok_0,
    decreases n,
{
    if n > 0 {
        lemma_inline_nodes_elements(nodes, (n - 1) as nat, owner, sub);
    }
}

/// Prefix law. When the flattened subgraph `flat` is inlined under the
/// subgraph node `owner`, the nodes that were there stay, and each node of
/// `flat` follows them, in order, as an extension of the same addon under the
/// name of `owner`, an underscore, and its own name.
pub proof fn law_prefix(acc: Inlined, owner: GraphNodeView, flat: GraphView)
    requires
        inline_subgraph(acc, owner, flat) is Ok,
    ensures
        ({
            let next = inline_subgraph(acc, owner, flat)->Ok_0;
            &&& next.nodes.len() == acc.nodes.len() + flat.nodes.len()
            &&& forall|i: int| 0 <= i < acc.nodes.len() ==> next.nodes[i] == acc.nodes[i]
            &&& forall|i: int|
                0 <= i < flat.nodes.len() ==> {
                    let inner = #[trigger] flat.nodes[i];
                    let node = next.nodes[acc.nodes.len() + i];
                    &&& node.name == prefixed(owner.name, inner.name)
                    &&& node.type_ == inner.type_
                    &&& node.addon == inner.addon
                    &&& node.extension_group == inner.extension_group
                    &&& node.app == inner.app
                }
        }),
{
    lemma_inline_nodes_elements(flat.nodes, flat.nodes.len(), owner, flat);
}

/// Prefix law for two levels. A node named `N` of a subgraph that is inlined
/// under `inner_owner`, and then, as part of the subgraph that holds
/// `inner_owner`, under `outer_owner`, ends up under the name
/// `outer_inner_N`.
pub proof fn law_prefix_nested(
    nodes: Seq<GraphNodeView>,
    inner_owner: GraphNodeView,
    inner_sub: GraphView,
    outer_owner: GraphNodeView,
    outer_sub: GraphView,
)
    requires
        inline_nodes(nodes, nodes.len(), inner_owner, inner_sub) is Ok,
        inline_nodes(
            inline_nodes(nodes, nodes.len(), inner_owner, inner_sub)->Ok_0,
            nodes.len(),
            outer_owner,
            outer_sub,
        ) is Ok,
    ensures
        ({
            let once = inline_nodes(nodes, nodes.len(), inner_owner, inner_sub)->Ok_0;
            let twice = inline_nodes(once, nodes.len(), outer_owner, outer_sub)->Ok_0;
            &&& twice.len() == nodes.len()
            &&& forall|i: int|
                0 <= i < nodes.len() ==> (#[trigger] twice[i]).name == outer_owner.name
                    + seq!['_'] + inner_owner.name + seq!['_'] + nodes[i].name
        }),
{
    let once = inline_nodes(nodes, nodes.len(), inner_owner, inner_sub)->Ok_0;
    let twice = inline_nodes(once, nodes.len(), outer_owner, outer_sub)->Ok_0;
    lemma_inline_nodes_elements(nodes, nodes.len(), inner_owner, inner_sub);
    lemma_inline_nodes_elements(once, nodes.len(), outer_owner, outer_sub);
    assert forall|i: int| 0 <= i < nodes.len() implies (#[trigger] twice[i]).name
        == outer_owner.name + seq!['_'] + inner_owner.name + seq!['_'] + nodes[i].name by {
        assert(once[i] == inline_node(nodes[i], inner_owner, inner_sub)->Ok_0);
        assert(twice[i] == inline_node(once[i], outer_owner, outer_sub)->Ok_0);
        assert(prefixed(outer_owner.name, prefixed(inner_owner.name, nodes[i].name))
            =~= outer_owner.name + seq!['_'] + inner_owner.name + seq!['_'] + nodes[i].name);
    }
}

// ---------------------------------------------------------------------------
// The place of a node in the flattened graph
// ---------------------------------------------------------------------------

/// A walk that comes through `n` nodes has come through the first `k`, and
/// what it gathered there stands at the front of what it gathers later.
pub proof fn lemma_walk_grows(graph: GraphView, loads: Seq<LoadTree>, depth: nat, k: nat, n: nat)
    requires
        k <= n,
        walk(graph, loads, depth, n) is Ok,
    ensures
        walk(graph, loads, depth, k) is Ok,
        ({
            let early = walk(graph, loads, depth, k)->Ok_0.nodes;
            let late = walk(graph, loads, depth, n)->Ok_0.nodes;
            &&& early.len() <= late.len()
            &&& forall|j: int| 0 <= j < early.len() ==> late[j] == early[j]
        }),
    decreases n - k,
{
    if k < n {
        let acc = walk(graph, loads, depth, (n - 1) as nat)->Ok_0;
        let node = graph.nodes[n - 1];
        assert(walk(graph, loads, depth, (n - 1) as nat) is Ok);
        assert(walk(graph, loads, depth, n) == walk_step(acc, node, loads[n - 1], depth));
        lemma_walk_grows(graph, loads, depth, k, (n - 1) as nat);
        let late = walk(graph, loads, depth, n)->Ok_0.nodes;
        match node.type_ {
            GraphNodeType::Extension => {
                assert(late == acc.nodes.push(node));
            },
            GraphNodeType::Subgraph => {
                assert(walk_step(acc, node, loads[n - 1], depth) == inline_loaded(
                    acc,
                    node,
                    loads[n - 1],
                    depth,
                ));
                match loads[n - 1] {
                    LoadTree::Loaded(sub, children) => {
                        let flat = flatten_loaded(sub@, children, depth)->Ok_0;
                        assert(inline_subgraph(acc, node, flat) is Ok);
                        law_prefix(acc, node, flat);
                    },
                    _ => {},
                }
            },
        }
    }
}

/// Place law. In the flattened form of a graph, what node `i` of the graph
/// becomes stands right behind what the nodes before it became. An extension
/// node stands there as it is. A subgraph node has given way to the nodes of
/// its flattened subgraph, which is the loaded graph itself where that holds
/// no subgraph nodes: they stand there in order, each as a node of the same
/// type, addon, extension group and app under the name of the subgraph node,
/// an underscore and its own name, and, where the subgraph node has no
/// property document, with its own property document.
pub proof fn law_flatten_place(graph: GraphView, loads: Seq<LoadTree>, depth: nat, i: int)
    requires
        flatten_graph(graph, loads, depth) is Ok,
        0 <= i < graph.nodes.len(),
    ensures
        walk(graph, loads, depth, i as nat) is Ok,
        ({
            let flat = flatten_graph(graph, loads, depth)->Ok_0;
            let at = walk(graph, loads, depth, i as nat)->Ok_0.nodes.len();
            let node = graph.nodes[i];
            match node.type_ {
                GraphNodeType::Extension => at < flat.nodes.len() && flat.nodes[at as int] == node,
                GraphNodeType::Subgraph => {
                    &&& node.source_uri is Some
                    &&& loads[i] is Loaded
                    &&& flatten_loaded(loads[i]->Loaded_0@, loads[i]->Loaded_1, depth) is Ok
                    &&& !loads[i]->Loaded_0@.has_subgraph_node() ==> flatten_loaded(
                        loads[i]->Loaded_0@,
                        loads[i]->Loaded_1,
                        depth,
                    )->Ok_0 == loads[i]->Loaded_0@
                    &&& ({
                        let sub = flatten_loaded(
                            loads[i]->Loaded_0@,
                            loads[i]->Loaded_1,
                            depth,
                        )->Ok_0;
                        &&& at + sub.nodes.len() <= flat.nodes.len()
                        &&& forall|j: int|
                            0 <= j < sub.nodes.len() ==> {
                                let inner = #[trigger] sub.nodes[j];
                                let out = flat.nodes[at + j];
                                &&& out.name == prefixed(node.name, inner.name)
                                &&& out.type_ == inner.type_
                                &&& out.addon == inner.addon
                                &&& out.extension_group == inner.extension_group
                                &&& out.app == inner.app
                                &&& node.property is None ==> out.property == inner.property
                            }
                    })
                },
            }
        }),
{
    let n = graph.nodes.len();
    let flat = flatten_graph(graph, loads, depth)->Ok_0;
    assert(walk(graph, loads, depth, n) is Ok);
    assert(flat.nodes == walk(graph, loads, depth, n)->Ok_0.nodes);
    lemma_walk_grows(graph, loads, depth, (i + 1) as nat, n);
    lemma_walk_grows(graph, loads, depth, i as nat, (i + 1) as nat);
    let acc = walk(graph, loads, depth, i as nat)->Ok_0;
    let node = graph.nodes[i];
    let next = walk(graph, loads, depth, (i + 1) as nat)->Ok_0;
    assert(walk(graph, loads, depth, (i + 1) as nat) == walk_step(acc, node, loads[i], depth));
    let at = acc.nodes.len();
    match node.type_ {
        GraphNodeType::Extension => {
            assert(next.nodes == acc.nodes.push(node));
            assert(next.nodes[at as int] == node);
        },
        GraphNodeType::Subgraph => {
            assert(walk_step(acc, node, loads[i], depth) == inline_loaded(
                acc,
                node,
                loads[i],
                depth,
            ));
            match loads[i] {
                LoadTree::Loaded(loaded, children) => {
                    let sub = flatten_loaded(loaded@, children, depth)->Ok_0;
                    assert(inline_subgraph(acc, node, sub) is Ok);
                    law_prefix(acc, node, sub);
                    lemma_inline_nodes_elements(sub.nodes, sub.nodes.len(), node, sub);
                    let inlined = inline_nodes(sub.nodes, sub.nodes.len(), node, sub)->Ok_0;
                    assert(next.nodes == acc.nodes + inlined);
                    assert forall|j: int| 0 <= j < sub.nodes.len() implies {
                        let inner = #[trigger] sub.nodes[j];
                        let out = flat.nodes[at + j];
                        &&& out.name == prefixed(node.name, inner.name)
                        &&& out.type_ == inner.type_
                        &&& out.addon == inner.addon
                        &&& out.extension_group == inner.extension_group
                        &&& out.app == inner.app
                        &&& node.property is None ==> out.property == inner.property
                    } by {
                        assert(flat.nodes[at + j] == next.nodes[at + j]);
                        assert(next.nodes[at + j] == inlined[j]);
                        assert(inlined[j] == inline_node(sub.nodes[j], node, sub)->Ok_0);
                    }
                },
                _ => {},
            }
        },
    }
}

/// What stands in the place of a subgraph node was loaded for that node:
/// where the flattened form of a graph exists, the record of loads holds, for
/// each subgraph node, a graph that the loader gave for the source that the
/// node names.
pub proof fn law_flatten_loads<F: Fn(&str) -> Result<Graph, GraphError>>(
    loader: F,
    graph: GraphView,
    loads: Seq<LoadTree>,
    depth: nat,
    i: int,
)
    requires
        loads_agree(loader, graph, loads, depth),
        flatten_graph(graph, loads, depth) is Ok,
        0 <= i < graph.nodes.len(),
        graph.nodes[i].type_ == GraphNodeType::Subgraph,
    ensures
        graph.nodes[i].source_uri is Some,
        loads[i] is Loaded,
        loader_gave(loader, graph.nodes[i].source_uri->Some_0, Ok(loads[i]->Loaded_0)),
{
    law_flatten_place(graph, loads, depth, i);
    assert(is_loaded_at(graph, loads, depth, i));
    assert(load_agrees(loader, graph.nodes[i], loads[i], depth));
}

// ---------------------------------------------------------------------------
// A flattened graph holds extensions only
// ---------------------------------------------------------------------------

/// Every node in `nodes` is an extension.
pub open spec fn all_extensions(nodes: Seq<GraphNodeView>) -> bool {
    forall|i: int| 0 <= i < nodes.len() ==> (#[trigger] nodes[i]).type_ == GraphNodeType::Extension
}

/// A flattened subgraph holds extensions only.
pub proof fn lemma_flatten_loaded_extension_only(sub: GraphView, loads: Seq<LoadTree>, depth: nat)
    requires
        flatten_loaded(sub, loads, depth) is Ok,
    ensures
        all_extensions(flatten_loaded(sub, loads, depth)->Ok_0.nodes),
    decreases depth, 0nat, 0nat,
{
    if !sub.has_subgraph_node() {
        assert forall|i: int| 0 <= i < sub.nodes.len() implies (#[trigger] sub.nodes[i]).type_
            == GraphNodeType::Extension by {
            if sub.nodes[i].type_ == GraphNodeType::Subgraph {
                assert(sub.has_subgraph_node());
            }
        }
    } else {
        lemma_walk_extension_only(sub, loads, (depth - 1) as nat, sub.nodes.len());
    }
}

/// The walk gathers extensions only.
pub proof fn lemma_walk_extension_only(graph: GraphView, loads: Seq<LoadTree>, depth: nat, n: nat)
    requires
        walk(graph, loads, depth, n) is Ok,
    ensures
        all_extensions(walk(graph, loads, depth, n)->Ok_0.nodes),
    decreases depth, 3nat, n,
{
    if n > 0 {
        lemma_walk_extension_only(graph, loads, depth, (n - 1) as nat);
        let acc = walk(graph, loads, depth, (n - 1) as nat)->Ok_0;
        let node = graph.nodes[n - 1];
        let next = walk(graph, loads, depth, n)->Ok_0;
        assert(walk(graph, loads, depth, n) == walk_step(acc, node, loads[n - 1], depth));
        match node.type_ {
            GraphNodeType::Extension => {
                assert(next.nodes == acc.nodes.push(node));
            },
            GraphNodeType::Subgraph => {
                assert(walk_step(acc, node, loads[n - 1], depth) == inline_loaded(
                    acc,
                    node,
                    loads[n - 1],
                    depth,
                ));
                match loads[n - 1] {
                    LoadTree::Loaded(sub, children) => {
                        lemma_flatten_loaded_extension_only(sub@, children, depth);
                        let flat = flatten_loaded(sub@, children, depth)->Ok_0;
                        assert(inline_subgraph(acc, node, flat) is Ok);
                        law_prefix(acc, node, flat);
                        assert forall|i: int| 0 <= i < next.nodes.len() implies (
                        #[trigger] next.nodes[i]).type_ == GraphNodeType::Extension by {
                            if i >= acc.nodes.len() {
                                let k = i - acc.nodes.len();
                                assert(flat.nodes[k].type_ == GraphNodeType::Extension);
                                assert(next.nodes[acc.nodes.len() + k].type_
                                    == flat.nodes[k].type_);
                            } else {
                                assert(next.nodes[i] == acc.nodes[i]);
                            }
                        }
                    },
                    _ => {},
                }
            },
        }
    }
}

/// A flattened graph holds extensions only, and exposes nothing.
pub proof fn law_flatten_extension_only(graph: GraphView, loads: Seq<LoadTree>, depth: nat)
    requires
        flatten_graph(graph, loads, depth) is Ok,
    ensures
        ({
            let flat = flatten_graph(graph, loads, depth)->Ok_0;
            &&& flat.is_extension_only()
            &&& !flat.has_subgraph_node()
            &&& flat.exposed_messages is None
            &&& flat.exposed_properties is None
        }),
{
    lemma_walk_extension_only(graph, loads, depth, graph.nodes.len());
}

// ---------------------------------------------------------------------------
// A flattened graph addresses extensions only
// ---------------------------------------------------------------------------

proof fn lemma_resolve_destinations_flat(
    dests: Seq<GraphDestinationView>,
    n: nat,
    table: Map<Seq<char>, GraphView>,
    flow_name: Seq<char>,
    msg_type: GraphExposedMessageType,
)
    requires
        resolve_destinations(dests, n, table, flow_name, msg_type) is Ok,
    ensures
        ({
            let out = resolve_destinations(dests, n, table, flow_name, msg_type)->Ok_0;
            &&& out.len() == n
            &&& forall|j: int| 0 <= j < n ==> (#[trigger] out[j]).loc.subgraph is None
        }),
    decreases n,
{
    if n > 0 {
        lemma_resolve_destinations_flat(dests, (n - 1) as nat, table, flow_name, msg_type);
    }
}

proof fn lemma_resolve_flows_flat(
    flows: Seq<GraphMessageFlowView>,
    n: nat,
    table: Map<Seq<char>, GraphView>,
    msg_type: GraphExposedMessageType,
)
    requires
        resolve_flows(flows, n, table, msg_type) is Ok,
    ensures
        forall|i: int|
            0 <= i < resolve_flows(flows, n, table, msg_type)->Ok_0.len() ==> flow_is_flat(
                #[trigger] resolve_flows(flows, n, table, msg_type)->Ok_0[i],
            ),
    decreases n,
{
    if n > 0 {
        lemma_resolve_flows_flat(flows, (n - 1) as nat, table, msg_type);
        let flow = flows[n - 1];
        lemma_resolve_destinations_flat(flow.dest, flow.dest.len(), table, flow.name, msg_type);
        let before = resolve_flows(flows, (n - 1) as nat, table, msg_type)->Ok_0;
        let out = resolve_flows(flows, n, table, msg_type)->Ok_0;
        let last = resolve_flow(flow, table, msg_type)->Ok_0;
        assert(out == before.push(last));
        assert(flow_is_flat(last));
        assert forall|i: int| 0 <= i < out.len() implies flow_is_flat(#[trigger] out[i]) by {
            if i < before.len() {
                assert(out[i] == before[i]);
                assert(flow_is_flat(before[i]));
            } else {
                assert(out[i] == last);
            }
        }
    }
}

proof fn lemma_resolve_optional_flows_flat(
    flows: Option<Seq<GraphMessageFlowView>>,
    table: Map<Seq<char>, GraphView>,
    kind: MessageKind,
)
    requires
        resolve_optional_flows(flows, table, kind) is Ok,
    ensures
        flows_are_flat(resolve_optional_flows(flows, table, kind)->Ok_0),
{
    match flows {
        Some(list) => {
            lemma_resolve_flows_flat(list, list.len(), table, incoming(kind));
        },
        None => {},
    }
}

/// A connection whose destinations are resolved addresses no subgraph, if
/// its source addresses none.
proof fn lemma_resolve_connection_flat(
    connection: GraphConnectionView,
    table: Map<Seq<char>, GraphView>,
)
    requires
        resolve_connection(connection, table) is Ok,
        connection.loc.subgraph is None,
    ensures
        connection_is_flat(resolve_connection(connection, table)->Ok_0),
{
    lemma_resolve_optional_flows_flat(connection.cmd, table, MessageKind::Cmd);
    lemma_resolve_optional_flows_flat(connection.data, table, MessageKind::Data);
    lemma_resolve_optional_flows_flat(connection.audio_frame, table, MessageKind::AudioFrame);
    lemma_resolve_optional_flows_flat(connection.video_frame, table, MessageKind::VideoFrame);
}

proof fn lemma_resolve_connections_flat(
    connections: Seq<GraphConnectionView>,
    n: nat,
    table: Map<Seq<char>, GraphView>,
)
    requires
        resolve_connections(connections, n, table) is Ok,
        forall|k: int| 0 <= k < n ==> (#[trigger] connections[k]).loc.subgraph is None,
    ensures
        connections_are_flat(resolve_connections(connections, n, table)->Ok_0),
    decreases n,
{
    if n > 0 {
        lemma_resolve_connections_flat(connections, (n - 1) as nat, table);
        let before = resolve_connections(connections, (n - 1) as nat, table)->Ok_0;
        let out = resolve_connections(connections, n, table)->Ok_0;
        let last = resolve_connection(connections[n - 1], table)->Ok_0;
        assert(connections[n - 1].loc.subgraph is None);
        lemma_resolve_connection_flat(connections[n - 1], table);
        assert(out == before.push(last));
        assert forall|i: int| 0 <= i < out.len() implies connection_is_flat(#[trigger] out[i]) by {
            if i < before.len() {
                assert(out[i] == before[i]);
            }
        }
    }
}

/// What a connection of a graph becomes addresses no subgraph.
pub proof fn lemma_flatten_connection_flat(
    connection: GraphConnectionView,
    table: Map<Seq<char>, GraphView>,
)
    requires
        flatten_connection(connection, table) is Ok,
    ensures
        connections_are_flat(flatten_connection(connection, table)->Ok_0),
{
    let expanded = expand_source(connection, table)->Ok_0;
    assert forall|k: int| 0 <= k < expanded.len() implies (#[trigger] expanded[k]).loc.subgraph
        is None by {}
    lemma_resolve_connections_flat(expanded, expanded.len(), table);
}

proof fn lemma_flatten_connections_flat(
    connections: Seq<GraphConnectionView>,
    n: nat,
    table: Map<Seq<char>, GraphView>,
)
    requires
        flatten_connections(connections, n, table) is Ok,
    ensures
        connections_are_flat(flatten_connections(connections, n, table)->Ok_0),
    decreases n,
{
    if n > 0 {
        lemma_flatten_connections_flat(connections, (n - 1) as nat, table);
        lemma_flatten_connection_flat(connections[n - 1], table);
        let before = flatten_connections(connections, (n - 1) as nat, table)->Ok_0;
        let more = flatten_connection(connections[n - 1], table)->Ok_0;
        let out = flatten_connections(connections, n, table)->Ok_0;
        assert(out == before + more);
        assert forall|i: int| 0 <= i < out.len() implies connection_is_flat(#[trigger] out[i]) by {
            if i < before.len() {
                assert(out[i] == before[i]);
            } else {
                assert(out[i] == more[i - before.len()]);
            }
        }
    }
}

/// The connections that an inlined subgraph brings address no subgraph.
proof fn lemma_internal_connections_flat(sub: GraphView, owner: Seq<char>)
    requires
        internal_connections(sub, owner) is Ok,
    ensures
        connections_are_flat(internal_connections(sub, owner)->Ok_0),
{
    match sub.connections {
        Some(list) => {
            let out = internal_connections(sub, owner)->Ok_0;
            assert forall|i: int| 0 <= i < out.len() implies connection_is_flat(#[trigger] out[i]) by {
                let given = list[i];
                assert(connection_is_flat(given));
                assert(out[i] == connection_in_subgraph(given, owner));
                lemma_flows_in_subgraph_flat(given.cmd, owner);
                lemma_flows_in_subgraph_flat(given.data, owner);
                lemma_flows_in_subgraph_flat(given.audio_frame, owner);
                lemma_flows_in_subgraph_flat(given.video_frame, owner);
            }
        },
        None => {},
    }
}

proof fn lemma_flows_in_subgraph_flat(flows: Option<Seq<GraphMessageFlowView>>, owner: Seq<char>)
    requires
        flows_are_flat(flows),
    ensures
        flows_are_flat(flows_in_subgraph(flows, owner)),
{
    match flows {
        Some(list) => {
            let out = flows_in_subgraph(flows, owner)->Some_0;
            assert forall|i: int| 0 <= i < out.len() implies flow_is_flat(#[trigger] out[i]) by {
                assert(flow_is_flat(list[i]));
                assert forall|j: int| 0 <= j < out[i].dest.len() implies (
                #[trigger] out[i].dest[j]).loc.subgraph is None by {
                    assert(list[i].dest[j].loc.subgraph is None);
                }
            }
        },
        None => {},
    }
}

/// The walk gathers connections that address no subgraph.
proof fn lemma_walk_flat(graph: GraphView, loads: Seq<LoadTree>, depth: nat, n: nat)
    requires
        walk(graph, loads, depth, n) is Ok,
    ensures
        connections_are_flat(walk(graph, loads, depth, n)->Ok_0.connections),
    decreases n,
{
    if n > 0 {
        lemma_walk_flat(graph, loads, depth, (n - 1) as nat);
        let acc = walk(graph, loads, depth, (n - 1) as nat)->Ok_0;
        let node = graph.nodes[n - 1];
        let next = walk(graph, loads, depth, n)->Ok_0;
        assert(walk(graph, loads, depth, n) == walk_step(acc, node, loads[n - 1], depth));
        match node.type_ {
            GraphNodeType::Extension => {},
            GraphNodeType::Subgraph => {
                assert(walk_step(acc, node, loads[n - 1], depth) == inline_loaded(
                    acc,
                    node,
                    loads[n - 1],
                    depth,
                ));
                match loads[n - 1] {
                    LoadTree::Loaded(sub, children) => {
                        let flat = flatten_loaded(sub@, children, depth)->Ok_0;
                        assert(inline_subgraph(acc, node, flat) is Ok);
                        lemma_internal_connections_flat(flat, node.name);
                        let added = internal_connections(flat, node.name)->Ok_0;
                        assert(next.connections == acc.connections + added);
                        assert forall|i: int|
                            0 <= i < next.connections.len() implies connection_is_flat(
                            #[trigger] next.connections[i],
                        ) by {
                            if i < acc.connections.len() {
                                assert(next.connections[i] == acc.connections[i]);
                            } else {
                                assert(next.connections[i] == added[i - acc.connections.len()]);
                            }
                        }
                    },
                    _ => {},
                }
            },
        }
    }
}

/// No location in a flattened graph addresses a subgraph.
pub proof fn law_flatten_addresses_extensions(graph: GraphView, loads: Seq<LoadTree>, depth: nat)
    requires
        flatten_graph(graph, loads, depth) is Ok,
    ensures
        match flatten_graph(graph, loads, depth)->Ok_0.connections {
            Some(list) => connections_are_flat(list),
            None => true,
        },
{
    lemma_walk_flat(graph, loads, depth, graph.nodes.len());
    let acc = walk(graph, loads, depth, graph.nodes.len())->Ok_0;
    match graph.connections {
        Some(list) => {
            lemma_flatten_connections_flat(list, list.len(), acc.table);
            let more = flatten_connections(list, list.len(), acc.table)->Ok_0;
            let all = acc.connections + more;
            assert forall|i: int| 0 <= i < all.len() implies connection_is_flat(#[trigger] all[i]) by {
                if i < acc.connections.len() {
                    assert(all[i] == acc.connections[i]);
                } else {
                    assert(all[i] == more[i - acc.connections.len()]);
                }
            }
        },
        None => {},
    }
}

// ---------------------------------------------------------------------------
// A graph without subgraphs
// ---------------------------------------------------------------------------

/// A location that flattening leaves as it is: it addresses no subgraph,
/// and its extension is not written in shorthand.
pub open spec fn loc_is_plain(loc: GraphLocView) -> bool {
    &&& loc.subgraph is None
    &&& loc.extension is Some ==> !is_shorthand(loc.extension->Some_0)
}

pub open spec fn flow_is_plain(flow: GraphMessageFlowView) -> bool {
    forall|j: int| 0 <= j < flow.dest.len() ==> loc_is_plain((#[trigger] flow.dest[j]).loc)
}

pub open spec fn flows_are_plain(flows: Option<Seq<GraphMessageFlowView>>) -> bool {
    match flows {
        Some(list) => forall|i: int| 0 <= i < list.len() ==> flow_is_plain(#[trigger] list[i]),
        None => true,
    }
}

/// A connection whose locations are all plain.
pub open spec fn connection_is_plain(connection: GraphConnectionView) -> bool {
    &&& loc_is_plain(connection.loc)
    &&& flows_are_plain(connection.cmd)
    &&& flows_are_plain(connection.data)
    &&& flows_are_plain(connection.audio_frame)
    &&& flows_are_plain(connection.video_frame)
}

/// The connections of a graph that flattening leaves as they are: absent,
/// or a list that is not empty and holds plain connections only.
pub open spec fn connections_are_plain(connections: Option<Seq<GraphConnectionView>>) -> bool {
    match connections {
        Some(list) => list.len() > 0 && forall|i: int|
            0 <= i < list.len() ==> connection_is_plain(#[trigger] list[i]),
        None => true,
    }
}

/// A graph with other exposed messages and properties.
pub open spec fn without_exposed(graph: GraphView) -> GraphView {
    GraphView {
        nodes: graph.nodes,
        connections: graph.connections,
        exposed_messages: None,
        exposed_properties: None,
    }
}

proof fn lemma_resolve_destinations_plain(
    dests: Seq<GraphDestinationView>,
    n: nat,
    table: Map<Seq<char>, GraphView>,
    flow_name: Seq<char>,
    msg_type: GraphExposedMessageType,
)
    requires
        n <= dests.len(),
        forall|j: int| 0 <= j < n ==> loc_is_plain((#[trigger] dests[j]).loc),
    ensures
        resolve_destinations(dests, n, table, flow_name, msg_type) == Ok::<
            Seq<GraphDestinationView>,
            GraphErrorView,
        >(dests.take(n as int)),
    decreases n,
{
    if n > 0 {
        lemma_resolve_destinations_plain(dests, (n - 1) as nat, table, flow_name, msg_type);
        let dest = dests[n - 1];
        assert(loc_is_plain(dest.loc));
        assert(resolve_destination(dest.loc, table, flow_name, msg_type) == Ok::<
            GraphLocView,
            GraphErrorView,
        >(dest.loc));
        assert(dests.take(n as int) =~= dests.take(n - 1).push(dest));
    } else {
        assert(dests.take(0) =~= Seq::empty());
    }
}

proof fn lemma_resolve_flows_plain(
    flows: Seq<GraphMessageFlowView>,
    n: nat,
    table: Map<Seq<char>, GraphView>,
    msg_type: GraphExposedMessageType,
)
    requires
        n <= flows.len(),
        forall|i: int| 0 <= i < n ==> flow_is_plain(#[trigger] flows[i]),
    ensures
        resolve_flows(flows, n, table, msg_type) == Ok::<
            Seq<GraphMessageFlowView>,
            GraphErrorView,
        >(flows.take(n as int)),
    decreases n,
{
    if n > 0 {
        lemma_resolve_flows_plain(flows, (n - 1) as nat, table, msg_type);
        let flow = flows[n - 1];
        assert(flow_is_plain(flow));
        lemma_resolve_destinations_plain(flow.dest, flow.dest.len(), table, flow.name, msg_type);
        assert(flow.dest.take(flow.dest.len() as int) =~= flow.dest);
        assert(resolve_flow(flow, table, msg_type) == Ok::<
            GraphMessageFlowView,
            GraphErrorView,
        >(flow));
        assert(flows.take(n as int) =~= flows.take(n - 1).push(flow));
    } else {
        assert(flows.take(0) =~= Seq::empty());
    }
}

proof fn lemma_resolve_optional_flows_plain(
    flows: Option<Seq<GraphMessageFlowView>>,
    table: Map<Seq<char>, GraphView>,
    kind: MessageKind,
)
    requires
        flows_are_plain(flows),
    ensures
        resolve_optional_flows(flows, table, kind) == Ok::<
            Option<Seq<GraphMessageFlowView>>,
            GraphErrorView,
        >(flows),
{
    match flows {
        Some(list) => {
            lemma_resolve_flows_plain(list, list.len(), table, incoming(kind));
            assert(list.take(list.len() as int) =~= list);
        },
        None => {},
    }
}

/// Flattening leaves a plain connection as it is.
pub proof fn lemma_flatten_connection_plain(
    connection: GraphConnectionView,
    table: Map<Seq<char>, GraphView>,
)
    requires
        connection_is_plain(connection),
    ensures
        flatten_connection(connection, table) == Ok::<
            Seq<GraphConnectionView>,
            GraphErrorView,
        >(seq![connection]),
{
    lemma_resolve_optional_flows_plain(connection.cmd, table, MessageKind::Cmd);
    lemma_resolve_optional_flows_plain(connection.data, table, MessageKind::Data);
    lemma_resolve_optional_flows_plain(connection.audio_frame, table, MessageKind::AudioFrame);
    lemma_resolve_optional_flows_plain(connection.video_frame, table, MessageKind::VideoFrame);
    assert(resolve_connection(connection, table) == Ok::<
        GraphConnectionView,
        GraphErrorView,
    >(connection));
    assert(rewrite_extension(connection.loc.extension) == connection.loc.extension);
    let expanded = seq![connection];
    assert(expand_source(connection, table)->Ok_0 =~= expanded);
    assert(expand_source(connection, table) == Ok::<
        Seq<GraphConnectionView>,
        GraphErrorView,
    >(expanded));
    assert(resolve_connections(expanded, 0, table) == Ok::<
        Seq<GraphConnectionView>,
        GraphErrorView,
    >(Seq::empty()));
    assert(Seq::<GraphConnectionView>::empty().push(connection) =~= expanded);
    assert(resolve_connections(expanded, 1, table) == Ok::<
        Seq<GraphConnectionView>,
        GraphErrorView,
    >(expanded));
}

proof fn lemma_flatten_connections_plain(
    connections: Seq<GraphConnectionView>,
    n: nat,
    table: Map<Seq<char>, GraphView>,
)
    requires
        n <= connections.len(),
        forall|i: int| 0 <= i < n ==> connection_is_plain(#[trigger] connections[i]),
    ensures
        flatten_connections(connections, n, table) == Ok::<
            Seq<GraphConnectionView>,
            GraphErrorView,
        >(connections.take(n as int)),
    decreases n,
{
    if n > 0 {
        lemma_flatten_connections_plain(connections, (n - 1) as nat, table);
        let connection = connections[n - 1];
        assert(connection_is_plain(connection));
        lemma_flatten_connection_plain(connection, table);
        assert(connections.take(n as int) =~= connections.take(n - 1) + seq![connection]);
    } else {
        assert(connections.take(0) =~= Seq::empty());
    }
}

proof fn lemma_walk_without_subgraphs(graph: GraphView, loads: Seq<LoadTree>, depth: nat, n: nat)
    requires
        n <= graph.nodes.len(),
        !graph.has_subgraph_node(),
    ensures
        walk(graph, loads, depth, n) == Ok::<Inlined, GraphErrorView>(
            Inlined {
                nodes: graph.nodes.take(n as int),
                connections: Seq::empty(),
                table: Map::empty(),
            },
        ),
    decreases n,
{
    if n > 0 {
        lemma_walk_without_subgraphs(graph, loads, depth, (n - 1) as nat);
        let node = graph.nodes[n - 1];
        if node.type_ == GraphNodeType::Subgraph {
            assert(graph.has_subgraph_node());
        }
        let acc = walk(graph, loads, depth, (n - 1) as nat)->Ok_0;
        assert(walk(graph, loads, depth, n) == walk_step(acc, node, loads[n - 1], depth));
        assert(graph.nodes.take(n as int) =~= graph.nodes.take(n - 1).push(node));
    } else {
        assert(graph.nodes.take(0) =~= Seq::empty());
    }
}

/// A graph without subgraph nodes and with plain connections is its own
/// flattened form, but for what it exposes, whatever the loader would give
/// and at any depth.
pub proof fn law_flatten_without_subgraphs(graph: GraphView, loads: Seq<LoadTree>, depth: nat)
    requires
        !graph.has_subgraph_node(),
        connections_are_plain(graph.connections),
    ensures
        flatten_graph(graph, loads, depth) == Ok::<GraphView, GraphErrorView>(
            without_exposed(graph),
        ),
{
    lemma_walk_without_subgraphs(graph, loads, depth, graph.nodes.len());
    assert(graph.nodes.take(graph.nodes.len() as int) =~= graph.nodes);
    let table = Map::<Seq<char>, GraphView>::empty();
    match graph.connections {
        Some(list) => {
            lemma_flatten_connections_plain(list, list.len(), table);
            assert(list.take(list.len() as int) =~= list);
            assert(Seq::<GraphConnectionView>::empty() + list =~= list);
        },
        None => {},
    }
}

// ---------------------------------------------------------------------------
// Grouping the flows of a connection that starts at a subgraph
// ---------------------------------------------------------------------------

/// Whether a flow is of the given kind and owner.
pub open spec fn owned_by(kind: MessageKind, owner: Seq<char>) -> spec_fn(OwnedFlow) -> bool {
    |f: OwnedFlow| f.kind == kind && f.owner == owner
}

/// The message flow that an owned flow carries.
pub open spec fn carried() -> spec_fn(OwnedFlow) -> GraphMessageFlowView {
    |f: OwnedFlow| f.flow
}

/// The flows of one kind and owner are those that a filter keeps, in their
/// given order.
pub proof fn lemma_flows_of_is_filter(
    flows: Seq<OwnedFlow>,
    n: nat,
    kind: MessageKind,
    owner: Seq<char>,
)
    requires
        n <= flows.len(),
    ensures
        flows_of(flows, n, kind, owner) == flows.take(n as int).filter(
            owned_by(kind, owner),
        ).map_values(carried()),
    decreases n,
{
    reveal(Seq::filter);
    let keep = owned_by(kind, owner);
    if n > 0 {
        lemma_flows_of_is_filter(flows, (n - 1) as nat, kind, owner);
        let now = flows.take(n as int);
        let before = flows.take(n - 1);
        assert(now.drop_last() =~= before);
        assert(now.last() == flows[n - 1]);
        if keep(flows[n - 1]) {
            assert(now.filter(keep) == before.filter(keep).push(flows[n - 1]));
            assert(before.filter(keep).push(flows[n - 1]).map_values(carried())
                =~= before.filter(keep).map_values(carried()).push(flows[n - 1].flow));
        } else {
            assert(now.filter(keep) == before.filter(keep));
        }
    } else {
        assert(flows.take(0).filter(keep).map_values(carried()) =~= Seq::<
            GraphMessageFlowView,
        >::empty());
    }
}

/// Each of the distinct owners gives one of the first `n` flows.
pub proof fn lemma_owners_sound(flows: Seq<OwnedFlow>, n: nat)
    ensures
        forall|k: int|
            0 <= k < owners(flows, n).len() ==> exists|i: int|
                0 <= i < n && flows[i].owner == #[trigger] owners(flows, n)[k],
    decreases n,
{
    if n > 0 {
        lemma_owners_sound(flows, (n - 1) as nat);
        let before = owners(flows, (n - 1) as nat);
        let now = owners(flows, n);
        assert forall|k: int| 0 <= k < now.len() implies exists|i: int|
            0 <= i < n && flows[i].owner == #[trigger] now[k] by {
            if k < before.len() {
                assert(now[k] == before[k]);
                let i = choose|i: int| 0 <= i < n - 1 && flows[i].owner == before[k];
                assert(0 <= i < n && flows[i].owner == now[k]);
            } else {
                assert(flows[n - 1].owner == now[k]);
            }
        }
    }
}

/// Grouping law. The flows that leave a subgraph are split into one
/// connection for each distinct extension that gives one of them: the
/// connections come in the order in which the extensions are first named,
/// each starts at its extension, and each holds, for every kind of message,
/// exactly the flows of that kind that the extension gives, in their
/// given order.
pub proof fn law_grouping(flows: Seq<OwnedFlow>, app: Option<Seq<char>>)
    ensures
        ({
            let names = owners(flows, flows.len());
            let groups = grouped(flows, flows.len(), app);
            &&& groups.len() == names.len()
            &&& names.no_duplicates()
            &&& forall|i: int| 0 <= i < flows.len() ==> names.contains(#[trigger] flows[i].owner)
            &&& forall|k: int|
                0 <= k < names.len() ==> exists|i: int|
                    0 <= i < flows.len() && flows[i].owner == #[trigger] names[k]
            &&& forall|k: int|
                0 <= k < groups.len() ==> (#[trigger] groups[k]).loc == GraphLocView {
                    app,
                    extension: Some(names[k]),
                    subgraph: None,
                }
            &&& forall|k: int, kind: MessageKind|
                0 <= k < groups.len() ==> #[trigger] groups[k].flows(kind) == optional(
                    flows.filter(owned_by(kind, names[k])).map_values(carried()),
                )
        }),
{
    let n = flows.len();
    let names = owners(flows, n);
    let groups = grouped(flows, n, app);
    lemma_owners_distinct(flows, n);
    lemma_owners_complete(flows, n);
    lemma_owners_sound(flows, n);
    assert(flows.take(n as int) =~= flows);
    assert forall|k: int, kind: MessageKind| 0 <= k < groups.len() implies #[trigger] groups[k].flows(
        kind,
    ) == optional(flows.filter(owned_by(kind, names[k])).map_values(carried())) by {
        lemma_flows_of_is_filter(flows, n, kind, names[k]);
        assert(groups[k] == group_of(flows, n, app, names[k]));
    }
}

} // verus!

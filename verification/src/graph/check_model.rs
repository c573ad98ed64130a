//! The mathematical model of graph validation.

use vstd::prelude::*;
use crate::graph::connection::{
    GraphConnectionView,
    GraphDestinationView,
    GraphLocView,
    GraphMessageFlowView,
    MessageKind,
};
use crate::graph::error::{
    err_addon_not_installed,
    err_extension_not_defined,
    err_missing_addon,
    err_subgraph_not_defined,
    GraphErrorView,
};
use crate::graph::GraphView;
use crate::graph::node::{GraphNodeType, GraphNodeView};
use crate::text::{is_shorthand, shorthand_owner};

verus! {

// ---------------------------------------------------------------------------
// References
// ---------------------------------------------------------------------------

/// Whether a node of the given type and name is among `nodes`.
pub open spec fn declares(nodes: Seq<GraphNodeView>, type_: GraphNodeType, name: Seq<char>) -> bool {
    exists|i: int|
        0 <= i < nodes.len() && (#[trigger] nodes[i]).type_ == type_ && nodes[i].name == name
}

/// Whether a location refers to a node of the graph. A location that names a
/// subgraph needs a subgraph node of that name; so does the owner in the
/// shorthand `owner:member`, whose member is not looked at. Any other
/// extension needs an extension node of its name.
pub open spec fn check_loc(nodes: Seq<GraphNodeView>, loc: GraphLocView) -> Result<
    (),
    GraphErrorView,
> {
    match loc.subgraph {
        Some(subgraph) => if declares(nodes, GraphNodeType::Subgraph, subgraph) {
            Ok(())
        } else {
            Err(err_subgraph_not_defined(subgraph))
        },
        None => match loc.extension {
            None => Ok(()),
            Some(extension) => if is_shorthand(extension) {
                if declares(nodes, GraphNodeType::Subgraph, shorthand_owner(extension)) {
                    Ok(())
                } else {
                    Err(err_subgraph_not_defined(shorthand_owner(extension)))
                }
            } else if declares(nodes, GraphNodeType::Extension, extension) {
                Ok(())
            } else {
                Err(err_extension_not_defined(extension))
            },
        },
    }
}

/// The first `n` destinations refer to nodes of the graph.
pub open spec fn check_destinations(
    nodes: Seq<GraphNodeView>,
    dests: Seq<GraphDestinationView>,
    n: nat,
) -> Result<(), GraphErrorView>
    decreases n,
{
    if n == 0 {
        Ok(())
    } else {
        match check_destinations(nodes, dests, (n - 1) as nat) {
            Err(e) => Err(e),
            Ok(_) => check_loc(nodes, dests[n - 1].loc),
        }
    }
}

/// The destinations of the first `n` flows refer to nodes of the graph.
pub open spec fn check_flows(
    nodes: Seq<GraphNodeView>,
    flows: Seq<GraphMessageFlowView>,
    n: nat,
) -> Result<(), GraphErrorView>
    decreases n,
{
    if n == 0 {
        Ok(())
    } else {
        match check_flows(nodes, flows, (n - 1) as nat) {
            Err(e) => Err(e),
            Ok(_) => check_destinations(nodes, flows[n - 1].dest, flows[n - 1].dest.len()),
        }
    }
}

pub open spec fn check_optional_flows(
    nodes: Seq<GraphNodeView>,
    flows: Option<Seq<GraphMessageFlowView>>,
) -> Result<(), GraphErrorView> {
    match flows {
        None => Ok(()),
        Some(list) => check_flows(nodes, list, list.len()),
    }
}

/// The source and all destinations of a connection refer to nodes of the
/// graph: the source is looked at first, then the flows of commands, data,
/// audio frames and video frames.
pub open spec fn check_connection(
    nodes: Seq<GraphNodeView>,
    connection: GraphConnectionView,
) -> Result<(), GraphErrorView> {
    match check_loc(nodes, connection.loc) {
        Err(e) => Err(e),
        Ok(_) => match check_optional_flows(nodes, connection.cmd) {
            Err(e) => Err(e),
            Ok(_) => match check_optional_flows(nodes, connection.data) {
                Err(e) => Err(e),
                Ok(_) => match check_optional_flows(nodes, connection.audio_frame) {
                    Err(e) => Err(e),
                    Ok(_) => check_optional_flows(nodes, connection.video_frame),
                },
            },
        },
    }
}

/// The first `n` connections refer to nodes of the graph.
pub open spec fn check_connections(
    nodes: Seq<GraphNodeView>,
    connections: Seq<GraphConnectionView>,
    n: nat,
) -> Result<(), GraphErrorView>
    decreases n,
{
    if n == 0 {
        Ok(())
    } else {
        match check_connections(nodes, connections, (n - 1) as nat) {
            Err(e) => Err(e),
            Ok(_) => check_connection(nodes, connections[n - 1]),
        }
    }
}

/// Every location in the connections of the graph refers to a node of the
/// graph; else the failure of the first location that does not.
pub open spec fn check_references(graph: GraphView) -> Result<(), GraphErrorView> {
    match graph.connections {
        None => Ok(()),
        Some(list) => check_connections(graph.nodes, list, list.len()),
    }
}

// ---------------------------------------------------------------------------
// Installed packages
// ---------------------------------------------------------------------------

/// The mathematical view of the packages of one app.
pub struct AppPackagesView {
    pub app: Seq<char>,
    pub extension_addons: Seq<Seq<char>>,
}

/// The mathematical view of a package catalogue.
pub struct PackageCatalogueView {
    pub apps: Seq<AppPackagesView>,
    pub builtin_addons: Seq<Seq<char>>,
}

/// The app that a node or a location belongs to: the one it names, or else
/// the app of the graph.
pub open spec fn scope_of(app: Option<Seq<char>>, graph_app: Option<Seq<char>>) -> Option<
    Seq<char>,
> {
    match app {
        Some(named) => Some(named),
        None => graph_app,
    }
}

/// Whether the catalogue lists the extension addon as installed in the app.
pub open spec fn is_installed(
    catalogue: PackageCatalogueView,
    app: Seq<char>,
    addon: Seq<char>,
) -> bool {
    exists|i: int|
        0 <= i < catalogue.apps.len() && (#[trigger] catalogue.apps[i]).app == app
            && catalogue.apps[i].extension_addons.contains(addon)
}

/// Whether the addon of a node can be resolved. A node that is no extension
/// passes, and so does, where a single app is checked, an extension of
/// another app. The addon of any other extension must be built in, or
/// installed in the app of the extension.
pub open spec fn check_node(
    node: GraphNodeView,
    graph_app: Option<Seq<char>>,
    catalogue: PackageCatalogueView,
    single_app: bool,
) -> Result<(), GraphErrorView> {
    if node.type_ != GraphNodeType::Extension {
        Ok(())
    } else if single_app && scope_of(node.app, graph_app) != graph_app {
        Ok(())
    } else {
        match node.addon {
            None => Err(err_missing_addon(node.name)),
            Some(addon) => if catalogue.builtin_addons.contains(addon) {
                Ok(())
            } else {
                match scope_of(node.app, graph_app) {
                    Some(app) => if is_installed(catalogue, app, addon) {
                        Ok(())
                    } else {
                        Err(err_addon_not_installed(addon, node.name))
                    },
                    None => Err(err_addon_not_installed(addon, node.name)),
                }
            },
        }
    }
}

/// The addons of the first `n` nodes can be resolved.
pub open spec fn check_nodes(
    nodes: Seq<GraphNodeView>,
    n: nat,
    graph_app: Option<Seq<char>>,
    catalogue: PackageCatalogueView,
    single_app: bool,
) -> Result<(), GraphErrorView>
    decreases n,
{
    if n == 0 {
        Ok(())
    } else {
        match check_nodes(nodes, (n - 1) as nat, graph_app, catalogue, single_app) {
            Err(e) => Err(e),
            Ok(_) => check_node(nodes[n - 1], graph_app, catalogue, single_app),
        }
    }
}

// ---------------------------------------------------------------------------
// Questions to the schema arbiter
// ---------------------------------------------------------------------------

/// One question to the schema arbiter: whether the message `flow` of the
/// given kind can go from `source` to `dest`.
pub struct SchemaQuery {
    pub source: GraphLocView,
    pub kind: MessageKind,
    pub flow: Seq<char>,
    pub dest: GraphLocView,
}

/// Whether the schema arbiter is asked about a flow between two locations.
/// Where a single app is checked, it is asked only about flows that stay
/// inside that app.
pub open spec fn is_asked(
    source: GraphLocView,
    dest: GraphLocView,
    graph_app: Option<Seq<char>>,
    single_app: bool,
) -> bool {
    single_app ==> scope_of(source.app, graph_app) == graph_app && scope_of(dest.app, graph_app)
        == graph_app
}

/// The questions about the first `n` destinations of one flow.
pub open spec fn destination_queries(
    source: GraphLocView,
    kind: MessageKind,
    flow: GraphMessageFlowView,
    n: nat,
    graph_app: Option<Seq<char>>,
    single_app: bool,
) -> Seq<SchemaQuery>
    decreases n,
{
    if n == 0 {
        Seq::empty()
    } else {
        let before = destination_queries(source, kind, flow, (n - 1) as nat, graph_app, single_app);
        let dest = flow.dest[n - 1].loc;
        if is_asked(source, dest, graph_app, single_app) {
            before.push(SchemaQuery { source, kind, flow: flow.name, dest })
        } else {
            before
        }
    }
}

/// The questions about the first `n` flows of one kind.
pub open spec fn flow_queries(
    source: GraphLocView,
    kind: MessageKind,
    flows: Seq<GraphMessageFlowView>,
    n: nat,
    graph_app: Option<Seq<char>>,
    single_app: bool,
) -> Seq<SchemaQuery>
    decreases n,
{
    if n == 0 {
        Seq::empty()
    } else {
        flow_queries(source, kind, flows, (n - 1) as nat, graph_app, single_app)
            + destination_queries(
            source,
            kind,
            flows[n - 1],
            flows[n - 1].dest.len(),
            graph_app,
            single_app,
        )
    }
}

pub open spec fn optional_flow_queries(
    source: GraphLocView,
    kind: MessageKind,
    flows: Option<Seq<GraphMessageFlowView>>,
    graph_app: Option<Seq<char>>,
    single_app: bool,
) -> Seq<SchemaQuery> {
    match flows {
        None => Seq::empty(),
        Some(list) => flow_queries(source, kind, list, list.len(), graph_app, single_app),
    }
}

/// The questions about one connection: commands first, then data, audio
/// frames and video frames.
pub open spec fn connection_queries(
    connection: GraphConnectionView,
    graph_app: Option<Seq<char>>,
    single_app: bool,
) -> Seq<SchemaQuery> {
    optional_flow_queries(connection.loc, MessageKind::Cmd, connection.cmd, graph_app, single_app)
        + optional_flow_queries(
        connection.loc,
        MessageKind::Data,
        connection.data,
        graph_app,
        single_app,
    ) + optional_flow_queries(
        connection.loc,
        MessageKind::AudioFrame,
        connection.audio_frame,
        graph_app,
        single_app,
    ) + optional_flow_queries(
        connection.loc,
        MessageKind::VideoFrame,
        connection.video_frame,
        graph_app,
        single_app,
    )
}

/// The questions about the first `n` connections.
pub open spec fn connections_queries(
    connections: Seq<GraphConnectionView>,
    n: nat,
    graph_app: Option<Seq<char>>,
    single_app: bool,
) -> Seq<SchemaQuery>
    decreases n,
{
    if n == 0 {
        Seq::empty()
    } else {
        connections_queries(connections, (n - 1) as nat, graph_app, single_app)
            + connection_queries(connections[n - 1], graph_app, single_app)
    }
}

/// All questions that validating a graph puts to the schema arbiter, in
/// order.
pub open spec fn schema_queries(
    graph: GraphView,
    graph_app: Option<Seq<char>>,
    single_app: bool,
) -> Seq<SchemaQuery> {
    match graph.connections {
        None => Seq::empty(),
        Some(list) => connections_queries(list, list.len(), graph_app, single_app),
    }
}

} // verus!

//! The mathematical model of subgraph flattening.
//!
//! Every function here works on the views of the data model. Functions that
//! walk a sequence and may fail take the number of leading elements to
//! process: the failure reported is that of the first element that fails.

use vstd::prelude::*;
use crate::graph::{
    Graph,
    GraphExposedMessageType,
    GraphExposedMessageView,
    GraphExposedPropertyView,
    GraphView,
    incoming,
    message_type_name,
    outgoing,
};
use crate::graph::connection::{
    GraphConnectionView,
    GraphDestinationView,
    GraphLocView,
    GraphMessageFlowView,
    MessageKind,
};
use crate::graph::error::{
    err_exposed_message_without_extension,
    err_exposed_property_without_extension,
    err_message_not_exposed,
    err_missing_source_uri,
    err_nesting_too_deep,
    err_destination_not_found,
    err_no_exposed_messages,
    err_no_exposed_properties,
    err_no_message_flows,
    err_property_not_exposed,
    err_subgraph_not_found,
    err_subgraph_reference_inside,
    GraphError,
    GraphErrorView,
};
use crate::graph::node::{GraphNodeType, GraphNodeView};
use crate::json::{DocView, members_set};
use crate::text::{prefixed, rewrite_shorthand};

verus! {

/// The views of the graphs that a table of subgraphs holds, by name.
pub open spec fn table_view(table: Map<Seq<char>, Graph>) -> Map<Seq<char>, GraphView> {
    Map::new(|name: Seq<char>| table.contains_key(name), |name: Seq<char>| table[name]@)
}

/// A list of flows as a connection holds it: absent when empty.
pub open spec fn optional<T>(items: Seq<T>) -> Option<Seq<T>> {
    if items.len() == 0 {
        None
    } else {
        Some(items)
    }
}

// ---------------------------------------------------------------------------
// Renaming inside an inlined subgraph
// ---------------------------------------------------------------------------

/// A location of a subgraph, renamed for the graph that inlines the subgraph
/// under the node `owner`.
pub open spec fn loc_in_subgraph(loc: GraphLocView, owner: Seq<char>) -> GraphLocView {
    GraphLocView {
        app: loc.app,
        extension: match loc.extension {
            Some(e) => Some(prefixed(owner, e)),
            None => None,
        },
        subgraph: loc.subgraph,
    }
}

pub open spec fn destination_in_subgraph(
    dest: GraphDestinationView,
    owner: Seq<char>,
) -> GraphDestinationView {
    GraphDestinationView {
        loc: loc_in_subgraph(dest.loc, owner),
        msg_conversion: dest.msg_conversion,
    }
}

pub open spec fn flow_in_subgraph(flow: GraphMessageFlowView, owner: Seq<char>) -> GraphMessageFlowView {
    GraphMessageFlowView {
        name: flow.name,
        dest: Seq::new(flow.dest.len(), |i: int| destination_in_subgraph(flow.dest[i], owner)),
    }
}

pub open spec fn flows_in_subgraph(
    flows: Option<Seq<GraphMessageFlowView>>,
    owner: Seq<char>,
) -> Option<Seq<GraphMessageFlowView>> {
    match flows {
        Some(list) => Some(Seq::new(list.len(), |i: int| flow_in_subgraph(list[i], owner))),
        None => None,
    }
}

/// A connection of a subgraph with every location renamed: the wiring stays,
/// the names change.
pub open spec fn connection_in_subgraph(
    connection: GraphConnectionView,
    owner: Seq<char>,
) -> GraphConnectionView {
    GraphConnectionView {
        loc: loc_in_subgraph(connection.loc, owner),
        cmd: flows_in_subgraph(connection.cmd, owner),
        data: flows_in_subgraph(connection.data, owner),
        audio_frame: flows_in_subgraph(connection.audio_frame, owner),
        video_frame: flows_in_subgraph(connection.video_frame, owner),
    }
}

/// No destination of the flow addresses a subgraph.
pub open spec fn flow_is_flat(flow: GraphMessageFlowView) -> bool {
    forall|j: int| 0 <= j < flow.dest.len() ==> (#[trigger] flow.dest[j]).loc.subgraph is None
}

pub open spec fn flows_are_flat(flows: Option<Seq<GraphMessageFlowView>>) -> bool {
    match flows {
        Some(list) => forall|i: int| 0 <= i < list.len() ==> flow_is_flat(#[trigger] list[i]),
        None => true,
    }
}

/// No location of the connection addresses a subgraph.
pub open spec fn connection_is_flat(connection: GraphConnectionView) -> bool {
    &&& connection.loc.subgraph is None
    &&& flows_are_flat(connection.cmd)
    &&& flows_are_flat(connection.data)
    &&& flows_are_flat(connection.audio_frame)
    &&& flows_are_flat(connection.video_frame)
}

pub open spec fn connections_are_flat(connections: Seq<GraphConnectionView>) -> bool {
    forall|i: int| 0 <= i < connections.len() ==> connection_is_flat(#[trigger] connections[i])
}

/// `value` where `flat` holds, else the failure that reports a reference to
/// a subgraph inside the subgraph inlined under `owner`.
pub open spec fn when_flat<V>(flat: bool, value: V, owner: Seq<char>) -> Result<V, GraphErrorView> {
    if flat {
        Ok(value)
    } else {
        Err(err_subgraph_reference_inside(owner))
    }
}

/// The connections that a flattened subgraph brings into the graph that
/// inlines it under the node `owner`.
pub open spec fn internal_connections(sub: GraphView, owner: Seq<char>) -> Result<
    Seq<GraphConnectionView>,
    GraphErrorView,
> {
    match sub.connections {
        None => Ok(Seq::empty()),
        Some(list) => if connections_are_flat(list) {
            Ok(Seq::new(list.len(), |i: int| connection_in_subgraph(list[i], owner)))
        } else {
            Err(err_subgraph_reference_inside(owner))
        },
    }
}

// ---------------------------------------------------------------------------
// Resolving names against what a subgraph exposes
// ---------------------------------------------------------------------------

pub open spec fn exposed_matches(
    exposed: GraphExposedMessageView,
    msg_type: GraphExposedMessageType,
    name: Seq<char>,
) -> bool {
    exposed.msg_type == msg_type && exposed.name == name
}

/// Whether a message of the given type and name is among the exposed ones.
pub open spec fn exposes(
    exposed: Seq<GraphExposedMessageView>,
    msg_type: GraphExposedMessageType,
    name: Seq<char>,
) -> bool {
    exists|i: int| 0 <= i < exposed.len() && exposed_matches(#[trigger] exposed[i], msg_type, name)
}

/// `index` is the first position that exposes the message.
pub open spec fn is_exposed_at(
    exposed: Seq<GraphExposedMessageView>,
    msg_type: GraphExposedMessageType,
    name: Seq<char>,
    index: int,
) -> bool {
    &&& 0 <= index < exposed.len()
    &&& exposed_matches(exposed[index], msg_type, name)
    &&& forall|j: int| 0 <= j < index ==> !exposed_matches(#[trigger] exposed[j], msg_type, name)
}

/// The first position that exposes the message.
pub open spec fn exposed_index(
    exposed: Seq<GraphExposedMessageView>,
    msg_type: GraphExposedMessageType,
    name: Seq<char>,
) -> int {
    choose|i: int| is_exposed_at(exposed, msg_type, name, i)
}

/// The flattened name of the extension of subgraph `sub`, inlined under the
/// name `subgraph_name`, that takes or gives the message `flow_name`.
pub open spec fn resolve_exposed(
    subgraph_name: Seq<char>,
    sub: GraphView,
    flow_name: Seq<char>,
    msg_type: GraphExposedMessageType,
) -> Result<Seq<char>, GraphErrorView> {
    match sub.exposed_messages {
        None => Err(
            err_no_exposed_messages(flow_name, message_type_name(msg_type), subgraph_name),
        ),
        Some(exposed) => if !exposes(exposed, msg_type, flow_name) {
            Err(err_message_not_exposed(flow_name, message_type_name(msg_type), subgraph_name))
        } else {
            match exposed[exposed_index(exposed, msg_type, flow_name)].extension {
                None => Err(err_exposed_message_without_extension(flow_name, subgraph_name)),
                Some(extension) => Ok(prefixed(subgraph_name, extension)),
            }
        },
    }
}

/// The extension field of a location with its shorthand, if any, rewritten.
pub open spec fn rewrite_extension(extension: Option<Seq<char>>) -> Option<Seq<char>> {
    match extension {
        Some(e) => Some(rewrite_shorthand(e)),
        None => None,
    }
}

/// A destination location of a flow, resolved to an extension. A location
/// that names a subgraph is looked up in what that subgraph exposes; any
/// other has its shorthand rewritten, unchecked.
pub open spec fn resolve_destination(
    loc: GraphLocView,
    table: Map<Seq<char>, GraphView>,
    flow_name: Seq<char>,
    msg_type: GraphExposedMessageType,
) -> Result<GraphLocView, GraphErrorView> {
    match loc.subgraph {
        Some(subgraph) => if !table.contains_key(subgraph) {
            Err(err_destination_not_found(flow_name, message_type_name(msg_type), subgraph))
        } else {
            match resolve_exposed(subgraph, table[subgraph], flow_name, msg_type) {
                Ok(extension) => Ok(
                    GraphLocView { app: loc.app, extension: Some(extension), subgraph: None },
                ),
                Err(e) => Err(e),
            }
        },
        None => Ok(
            GraphLocView {
                app: loc.app,
                extension: rewrite_extension(loc.extension),
                subgraph: None,
            },
        ),
    }
}

/// The first `n` destinations of a flow, resolved.
pub open spec fn resolve_destinations(
    dests: Seq<GraphDestinationView>,
    n: nat,
    table: Map<Seq<char>, GraphView>,
    flow_name: Seq<char>,
    msg_type: GraphExposedMessageType,
) -> Result<Seq<GraphDestinationView>, GraphErrorView>
    decreases n,
{
    if n == 0 {
        Ok(Seq::empty())
    } else {
        match resolve_destinations(dests, (n - 1) as nat, table, flow_name, msg_type) {
            Err(e) => Err(e),
            Ok(done) => match resolve_destination(dests[n - 1].loc, table, flow_name, msg_type) {
                Err(e) => Err(e),
                Ok(loc) => Ok(
                    done.push(
                        GraphDestinationView { loc, msg_conversion: dests[n - 1].msg_conversion },
                    ),
                ),
            },
        }
    }
}

/// A flow with all its destinations resolved.
pub open spec fn resolve_flow(
    flow: GraphMessageFlowView,
    table: Map<Seq<char>, GraphView>,
    msg_type: GraphExposedMessageType,
) -> Result<GraphMessageFlowView, GraphErrorView> {
    match resolve_destinations(flow.dest, flow.dest.len(), table, flow.name, msg_type) {
        Ok(dest) => Ok(GraphMessageFlowView { name: flow.name, dest }),
        Err(e) => Err(e),
    }
}

/// The first `n` flows of a list, each with its destinations resolved.
pub open spec fn resolve_flows(
    flows: Seq<GraphMessageFlowView>,
    n: nat,
    table: Map<Seq<char>, GraphView>,
    msg_type: GraphExposedMessageType,
) -> Result<Seq<GraphMessageFlowView>, GraphErrorView>
    decreases n,
{
    if n == 0 {
        Ok(Seq::empty())
    } else {
        match resolve_flows(flows, (n - 1) as nat, table, msg_type) {
            Err(e) => Err(e),
            Ok(done) => match resolve_flow(flows[n - 1], table, msg_type) {
                Err(e) => Err(e),
                Ok(flow) => Ok(done.push(flow)),
            },
        }
    }
}

pub open spec fn resolve_optional_flows(
    flows: Option<Seq<GraphMessageFlowView>>,
    table: Map<Seq<char>, GraphView>,
    kind: MessageKind,
) -> Result<Option<Seq<GraphMessageFlowView>>, GraphErrorView> {
    match flows {
        None => Ok(None),
        Some(list) => match resolve_flows(list, list.len(), table, incoming(kind)) {
            Ok(done) => Ok(Some(done)),
            Err(e) => Err(e),
        },
    }
}

/// A connection with the destinations of all its flows resolved: commands
/// first, then data, audio frames and video frames.
pub open spec fn resolve_connection(
    connection: GraphConnectionView,
    table: Map<Seq<char>, GraphView>,
) -> Result<GraphConnectionView, GraphErrorView> {
    match resolve_optional_flows(connection.cmd, table, MessageKind::Cmd) {
        Err(e) => Err(e),
        Ok(cmd) => match resolve_optional_flows(connection.data, table, MessageKind::Data) {
            Err(e) => Err(e),
            Ok(data) => match resolve_optional_flows(
                connection.audio_frame,
                table,
                MessageKind::AudioFrame,
            ) {
                Err(e) => Err(e),
                Ok(audio_frame) => match resolve_optional_flows(
                    connection.video_frame,
                    table,
                    MessageKind::VideoFrame,
                ) {
                    Err(e) => Err(e),
                    Ok(video_frame) => Ok(
                        GraphConnectionView {
                            loc: connection.loc,
                            cmd,
                            data,
                            audio_frame,
                            video_frame,
                        },
                    ),
                },
            },
        },
    }
}

/// The first `n` connections of a list, each with its destinations resolved.
pub open spec fn resolve_connections(
    connections: Seq<GraphConnectionView>,
    n: nat,
    table: Map<Seq<char>, GraphView>,
) -> Result<Seq<GraphConnectionView>, GraphErrorView>
    decreases n,
{
    if n == 0 {
        Ok(Seq::empty())
    } else {
        match resolve_connections(connections, (n - 1) as nat, table) {
            Err(e) => Err(e),
            Ok(done) => match resolve_connection(connections[n - 1], table) {
                Err(e) => Err(e),
                Ok(connection) => Ok(done.push(connection)),
            },
        }
    }
}

// ---------------------------------------------------------------------------
// Connections that start at a subgraph
// ---------------------------------------------------------------------------

/// A flow that leaves a subgraph, with its kind and the flattened name of
/// the extension that gives it.
pub struct OwnedFlow {
    pub kind: MessageKind,
    pub flow: GraphMessageFlowView,
    pub owner: Seq<char>,
}

/// The first `n` flows of one kind, each with the extension that gives it.
pub open spec fn own_flows(
    flows: Seq<GraphMessageFlowView>,
    n: nat,
    kind: MessageKind,
    subgraph_name: Seq<char>,
    sub: GraphView,
) -> Result<Seq<OwnedFlow>, GraphErrorView>
    decreases n,
{
    if n == 0 {
        Ok(Seq::empty())
    } else {
        match own_flows(flows, (n - 1) as nat, kind, subgraph_name, sub) {
            Err(e) => Err(e),
            Ok(done) => match resolve_exposed(subgraph_name, sub, flows[n - 1].name, outgoing(kind)) {
                Err(e) => Err(e),
                Ok(owner) => Ok(done.push(OwnedFlow { kind, flow: flows[n - 1], owner })),
            },
        }
    }
}

pub open spec fn own_optional_flows(
    flows: Option<Seq<GraphMessageFlowView>>,
    kind: MessageKind,
    subgraph_name: Seq<char>,
    sub: GraphView,
) -> Result<Seq<OwnedFlow>, GraphErrorView> {
    match flows {
        None => Ok(Seq::empty()),
        Some(list) => own_flows(list, list.len(), kind, subgraph_name, sub),
    }
}

/// All flows of a connection that starts at a subgraph, each with the
/// extension that gives it: commands first, then data, audio frames and
/// video frames.
pub open spec fn own_connection_flows(
    connection: GraphConnectionView,
    subgraph_name: Seq<char>,
    sub: GraphView,
) -> Result<Seq<OwnedFlow>, GraphErrorView> {
    match own_optional_flows(connection.cmd, MessageKind::Cmd, subgraph_name, sub) {
        Err(e) => Err(e),
        Ok(cmd) => match own_optional_flows(connection.data, MessageKind::Data, subgraph_name, sub) {
            Err(e) => Err(e),
            Ok(data) => match own_optional_flows(
                connection.audio_frame,
                MessageKind::AudioFrame,
                subgraph_name,
                sub,
            ) {
                Err(e) => Err(e),
                Ok(audio_frame) => match own_optional_flows(
                    connection.video_frame,
                    MessageKind::VideoFrame,
                    subgraph_name,
                    sub,
                ) {
                    Err(e) => Err(e),
                    Ok(video_frame) => Ok(cmd + data + audio_frame + video_frame),
                },
            },
        },
    }
}

/// The distinct owners among the first `n` flows, in the order in which they
/// first occur.
pub open spec fn owners(flows: Seq<OwnedFlow>, n: nat) -> Seq<Seq<char>>
    decreases n,
{
    if n == 0 {
        Seq::empty()
    } else {
        let before = owners(flows, (n - 1) as nat);
        if before.contains(flows[n - 1].owner) {
            before
        } else {
            before.push(flows[n - 1].owner)
        }
    }
}

/// The flows of one kind and one owner among the first `n` flows, in their
/// given order.
pub open spec fn flows_of(
    flows: Seq<OwnedFlow>,
    n: nat,
    kind: MessageKind,
    owner: Seq<char>,
) -> Seq<GraphMessageFlowView>
    decreases n,
{
    if n == 0 {
        Seq::empty()
    } else {
        let before = flows_of(flows, (n - 1) as nat, kind, owner);
        if flows[n - 1].kind == kind && flows[n - 1].owner == owner {
            before.push(flows[n - 1].flow)
        } else {
            before
        }
    }
}

/// The connection that collects, among the first `n` flows, those of one
/// owner.
pub open spec fn group_of(
    flows: Seq<OwnedFlow>,
    n: nat,
    app: Option<Seq<char>>,
    owner: Seq<char>,
) -> GraphConnectionView {
    GraphConnectionView {
        loc: GraphLocView { app, extension: Some(owner), subgraph: None },
        cmd: optional(flows_of(flows, n, MessageKind::Cmd, owner)),
        data: optional(flows_of(flows, n, MessageKind::Data, owner)),
        audio_frame: optional(flows_of(flows, n, MessageKind::AudioFrame, owner)),
        video_frame: optional(flows_of(flows, n, MessageKind::VideoFrame, owner)),
    }
}

/// The first `n` flows grouped by owner: one connection for each distinct
/// owner, in the order in which the owners first occur.
pub open spec fn grouped(flows: Seq<OwnedFlow>, n: nat, app: Option<Seq<char>>) -> Seq<
    GraphConnectionView,
> {
    let names = owners(flows, n);
    Seq::new(names.len(), |i: int| group_of(flows, n, app, names[i]))
}

/// A list of flows with one more flow at its end.
pub open spec fn with_flow(
    list: Option<Seq<GraphMessageFlowView>>,
    flow: GraphMessageFlowView,
) -> Option<Seq<GraphMessageFlowView>> {
    match list {
        Some(flows) => Some(flows.push(flow)),
        None => Some(seq![flow]),
    }
}

/// A connection with one more flow of the given kind.
pub open spec fn connection_with_flow(
    connection: GraphConnectionView,
    kind: MessageKind,
    flow: GraphMessageFlowView,
) -> GraphConnectionView {
    GraphConnectionView {
        loc: connection.loc,
        cmd: if kind == MessageKind::Cmd {
            with_flow(connection.cmd, flow)
        } else {
            connection.cmd
        },
        data: if kind == MessageKind::Data {
            with_flow(connection.data, flow)
        } else {
            connection.data
        },
        audio_frame: if kind == MessageKind::AudioFrame {
            with_flow(connection.audio_frame, flow)
        } else {
            connection.audio_frame
        },
        video_frame: if kind == MessageKind::VideoFrame {
            with_flow(connection.video_frame, flow)
        } else {
            connection.video_frame
        },
    }
}

/// A connection of the extension `owner` without flows.
pub open spec fn empty_group(app: Option<Seq<char>>, owner: Seq<char>) -> GraphConnectionView {
    GraphConnectionView {
        loc: GraphLocView { app, extension: Some(owner), subgraph: None },
        cmd: None,
        data: None,
        audio_frame: None,
        video_frame: None,
    }
}

/// The connections that take the place of one connection once its source is
/// an extension. A connection that starts at a subgraph is split by the
/// extensions that give its flows; any other keeps its flows and has the
/// shorthand of its source rewritten.
pub open spec fn expand_source(
    connection: GraphConnectionView,
    table: Map<Seq<char>, GraphView>,
) -> Result<Seq<GraphConnectionView>, GraphErrorView> {
    match connection.loc.subgraph {
        Some(subgraph) => if !table.contains_key(subgraph) {
            Err(err_subgraph_not_found(subgraph))
        } else {
            match own_connection_flows(connection, subgraph, table[subgraph]) {
                Err(e) => Err(e),
                Ok(flows) => if flows.len() == 0 {
                    Err(err_no_message_flows(subgraph))
                } else {
                    Ok(grouped(flows, flows.len(), connection.loc.app))
                },
            }
        },
        None => Ok(
            seq![
                GraphConnectionView {
                    loc: GraphLocView {
                        app: connection.loc.app,
                        extension: rewrite_extension(connection.loc.extension),
                        subgraph: None,
                    },
                    cmd: connection.cmd,
                    data: connection.data,
                    audio_frame: connection.audio_frame,
                    video_frame: connection.video_frame,
                },
            ],
        ),
    }
}

/// What one connection of a graph becomes: its source expanded, then the
/// destinations of each resulting connection resolved.
pub open spec fn flatten_connection(
    connection: GraphConnectionView,
    table: Map<Seq<char>, GraphView>,
) -> Result<Seq<GraphConnectionView>, GraphErrorView> {
    match expand_source(connection, table) {
        Err(e) => Err(e),
        Ok(expanded) => resolve_connections(expanded, expanded.len(), table),
    }
}

/// What the first `n` connections of a graph become.
pub open spec fn flatten_connections(
    connections: Seq<GraphConnectionView>,
    n: nat,
    table: Map<Seq<char>, GraphView>,
) -> Result<Seq<GraphConnectionView>, GraphErrorView>
    decreases n,
{
    if n == 0 {
        Ok(Seq::empty())
    } else {
        match flatten_connections(connections, (n - 1) as nat, table) {
            Err(e) => Err(e),
            Ok(done) => match flatten_connection(connections[n - 1], table) {
                Err(e) => Err(e),
                Ok(more) => Ok(done + more),
            },
        }
    }
}

// ---------------------------------------------------------------------------
// Inlining the nodes of a subgraph
// ---------------------------------------------------------------------------

/// Whether an exposed property has the given alias.
pub open spec fn has_alias(properties: Seq<GraphExposedPropertyView>, alias: Seq<char>) -> bool {
    exists|i: int| 0 <= i < properties.len() && (#[trigger] properties[i]).alias == alias
}

/// `index` is the first position of an exposed property with the alias.
pub open spec fn is_alias_at(
    properties: Seq<GraphExposedPropertyView>,
    alias: Seq<char>,
    index: int,
) -> bool {
    &&& 0 <= index < properties.len()
    &&& properties[index].alias == alias
    &&& forall|j: int| 0 <= j < index ==> (#[trigger] properties[j]).alias != alias
}

/// The first position of an exposed property with the alias.
pub open spec fn alias_index(properties: Seq<GraphExposedPropertyView>, alias: Seq<char>) -> int {
    choose|i: int| is_alias_at(properties, alias, i)
}

/// A property document after `key` is set in it. An absent document becomes
/// an object; a document that is not an object stays as it is.
pub open spec fn doc_with(
    doc: Option<DocView>,
    key: Seq<char>,
    value: serde_json::Value,
) -> Option<DocView> {
    match doc {
        None => Some(DocView::Object(members_set(Seq::empty(), key, value))),
        Some(DocView::Object(members)) => Some(DocView::Object(members_set(members, key, value))),
        Some(DocView::Other(other)) => Some(DocView::Other(other)),
    }
}

/// The property document of the inner node `inner_name` after the subgraph
/// node `owner_name` has set `alias` to `value`.
pub open spec fn overlay_member(
    doc: Option<DocView>,
    alias: Seq<char>,
    value: serde_json::Value,
    sub: GraphView,
    inner_name: Seq<char>,
    owner_name: Seq<char>,
) -> Result<Option<DocView>, GraphErrorView> {
    match sub.exposed_properties {
        None => Err(err_no_exposed_properties(alias, owner_name)),
        Some(properties) => if !has_alias(properties, alias) {
            Err(err_property_not_exposed(alias, owner_name))
        } else {
            let property = properties[alias_index(properties, alias)];
            match property.extension {
                None => Err(err_exposed_property_without_extension(alias, owner_name)),
                Some(target) => if target == inner_name {
                    Ok(doc_with(doc, property.name, value))
                } else {
                    Ok(doc)
                },
            }
        },
    }
}

/// The property document of an inner node after the first `n` members of
/// the subgraph node's property document have been applied.
pub open spec fn overlay(
    doc: Option<DocView>,
    members: Seq<(Seq<char>, serde_json::Value)>,
    n: nat,
    sub: GraphView,
    inner_name: Seq<char>,
    owner_name: Seq<char>,
) -> Result<Option<DocView>, GraphErrorView>
    decreases n,
{
    if n == 0 {
        Ok(doc)
    } else {
        match overlay(doc, members, (n - 1) as nat, sub, inner_name, owner_name) {
            Err(e) => Err(e),
            Ok(before) => overlay_member(
                before,
                members[n - 1].0,
                members[n - 1].1,
                sub,
                inner_name,
                owner_name,
            ),
        }
    }
}

/// The property document of an inner node after those of the first `n`
/// members that come before the first member that fails: where none fails,
/// what `overlay` gives, else the document as it stood when the failure
/// came.
pub open spec fn overlay_reached(
    doc: Option<DocView>,
    members: Seq<(Seq<char>, serde_json::Value)>,
    n: nat,
    sub: GraphView,
    inner_name: Seq<char>,
    owner_name: Seq<char>,
) -> Option<DocView>
    decreases n,
{
    if n == 0 {
        doc
    } else {
        match overlay(doc, members, (n - 1) as nat, sub, inner_name, owner_name) {
            Err(_) => overlay_reached(doc, members, (n - 1) as nat, sub, inner_name, owner_name),
            Ok(before) => match overlay_member(
                before,
                members[n - 1].0,
                members[n - 1].1,
                sub,
                inner_name,
                owner_name,
            ) {
                Ok(after) => after,
                Err(_) => before,
            },
        }
    }
}

/// The property document `doc` of the inner node `inner_name` after the
/// subgraph node `owner` has set what it sets before the first member of its
/// property document that fails.
pub open spec fn property_reached(
    doc: Option<DocView>,
    inner_name: Seq<char>,
    owner: GraphNodeView,
    sub: GraphView,
) -> Option<DocView> {
    match owner.property {
        Some(DocView::Object(members)) => overlay_reached(
            doc,
            members,
            members.len(),
            sub,
            inner_name,
            owner.name,
        ),
        _ => doc,
    }
}

/// The property document `doc` of the inner node `inner_name` once the node
/// is inlined under `owner`: the members of the property document of `owner`
/// are applied in order. An `owner` without a property document, or with one
/// that is not an object, sets nothing.
pub open spec fn inlined_property(
    doc: Option<DocView>,
    inner_name: Seq<char>,
    owner: GraphNodeView,
    sub: GraphView,
) -> Result<Option<DocView>, GraphErrorView> {
    match owner.property {
        Some(DocView::Object(members)) => overlay(
            doc,
            members,
            members.len(),
            sub,
            inner_name,
            owner.name,
        ),
        _ => Ok(doc),
    }
}

/// A node with another property document.
pub open spec fn node_with_property(node: GraphNodeView, property: Option<DocView>) -> GraphNodeView {
    GraphNodeView {
        type_: node.type_,
        name: node.name,
        addon: node.addon,
        extension_group: node.extension_group,
        app: node.app,
        property,
        source_uri: node.source_uri,
    }
}

/// A node under another name.
pub open spec fn node_with_name(node: GraphNodeView, name: Seq<char>) -> GraphNodeView {
    GraphNodeView {
        type_: node.type_,
        name,
        addon: node.addon,
        extension_group: node.extension_group,
        app: node.app,
        property: node.property,
        source_uri: node.source_uri,
    }
}

/// An inner node of subgraph `sub` as it enters the graph that holds the
/// subgraph node `owner`: renamed, and with the properties that `owner` sets.
pub open spec fn inline_node(inner: GraphNodeView, owner: GraphNodeView, sub: GraphView) -> Result<
    GraphNodeView,
    GraphErrorView,
> {
    match inlined_property(inner.property, inner.name, owner, sub) {
        Err(e) => Err(e),
        Ok(property) => Ok(
            node_with_property(node_with_name(inner, prefixed(owner.name, inner.name)), property),
        ),
    }
}

/// The first `n` nodes of a subgraph, inlined.
pub open spec fn inline_nodes(
    nodes: Seq<GraphNodeView>,
    n: nat,
    owner: GraphNodeView,
    sub: GraphView,
) -> Result<Seq<GraphNodeView>, GraphErrorView>
    decreases n,
{
    if n == 0 {
        Ok(Seq::empty())
    } else {
        match inline_nodes(nodes, (n - 1) as nat, owner, sub) {
            Err(e) => Err(e),
            Ok(done) => match inline_node(nodes[n - 1], owner, sub) {
                Err(e) => Err(e),
                Ok(node) => Ok(done.push(node)),
            },
        }
    }
}

// ---------------------------------------------------------------------------
// What a flattened subgraph exposes
// ---------------------------------------------------------------------------

/// The entries that take the place of `exposed`, an exposed message whose
/// extension is the inlined subgraph `owner`: one for each of the first `n`
/// messages that `owner` itself exposes under the same type and name, with
/// the flattened name of the extension that it names.
pub open spec fn matching_exposed(
    nested: Seq<GraphExposedMessageView>,
    n: nat,
    exposed: GraphExposedMessageView,
    owner: Seq<char>,
) -> Seq<GraphExposedMessageView>
    decreases n,
{
    if n == 0 {
        Seq::empty()
    } else {
        let before = matching_exposed(nested, (n - 1) as nat, exposed, owner);
        let candidate = nested[n - 1];
        if exposed_matches(candidate, exposed.msg_type, exposed.name)
            && candidate.extension is Some {
            before.push(
                GraphExposedMessageView {
                    msg_type: exposed.msg_type,
                    name: exposed.name,
                    extension: Some(prefixed(owner, candidate.extension->Some_0)),
                },
            )
        } else {
            before
        }
    }
}

/// What an exposed message of a graph becomes once the subgraphs of the
/// graph are inlined. A message of an inlined subgraph is traced to the
/// extensions inside that subgraph; any other stays as it is.
pub open spec fn reproject(
    exposed: GraphExposedMessageView,
    table: Map<Seq<char>, GraphView>,
) -> Seq<GraphExposedMessageView> {
    match exposed.extension {
        Some(target) => if table.contains_key(target) {
            match table[target].exposed_messages {
                Some(nested) => matching_exposed(nested, nested.len(), exposed, target),
                None => Seq::empty(),
            }
        } else {
            seq![exposed]
        },
        None => seq![exposed],
    }
}

/// What the first `n` exposed messages of a graph become.
pub open spec fn reproject_all(
    exposed: Seq<GraphExposedMessageView>,
    n: nat,
    table: Map<Seq<char>, GraphView>,
) -> Seq<GraphExposedMessageView>
    decreases n,
{
    if n == 0 {
        Seq::empty()
    } else {
        reproject_all(exposed, (n - 1) as nat, table) + reproject(exposed[n - 1], table)
    }
}

/// The exposed messages of a graph once its subgraphs are inlined.
pub open spec fn reprojected(
    exposed: Option<Seq<GraphExposedMessageView>>,
    table: Map<Seq<char>, GraphView>,
) -> Option<Seq<GraphExposedMessageView>> {
    match exposed {
        None => None,
        Some(list) => optional(reproject_all(list, list.len(), table)),
    }
}

// ---------------------------------------------------------------------------
// The walk over the nodes of a graph
// ---------------------------------------------------------------------------

/// What has been built while the nodes of a graph are walked: the nodes and
/// connections of the flattened graph so far, and the flattened subgraph of
/// each subgraph node met so far, by the node's name.
pub struct Inlined {
    pub nodes: Seq<GraphNodeView>,
    pub connections: Seq<GraphConnectionView>,
    pub table: Map<Seq<char>, GraphView>,
}

/// What loading the subgraph of one node gave: a failure, or a graph
/// together with what loading gave for each of that graph's own nodes.
pub enum LoadTree {
    /// Nothing was loaded for this node.
    NotLoaded,
    /// The loader failed.
    Failed(GraphError),
    /// The loader gave a graph; the sequence has one entry for each of its
    /// nodes.
    Loaded(Graph, Seq<LoadTree>),
}

/// The state of the walk after the flattened subgraph `flat` of the subgraph
/// node `owner` is inlined.
pub open spec fn inline_subgraph(acc: Inlined, owner: GraphNodeView, flat: GraphView) -> Result<
    Inlined,
    GraphErrorView,
> {
    match inline_nodes(flat.nodes, flat.nodes.len(), owner, flat) {
        Err(e) => Err(e),
        Ok(nodes) => match internal_connections(flat, owner.name) {
            Err(e) => Err(e),
            Ok(connections) => Ok(
                Inlined {
                    nodes: acc.nodes + nodes,
                    connections: acc.connections + connections,
                    table: acc.table.insert(owner.name, flat),
                },
            ),
        },
    }
}

/// The flattened form of a loaded subgraph, where `depth` more levels of
/// nesting are supported below it. A subgraph without subgraph nodes is taken
/// as it is. Any other is flattened like a graph, keeps those of its exposed
/// messages that can be traced to extensions, and loses its exposed
/// properties.
pub open spec fn flatten_loaded(sub: GraphView, loads: Seq<LoadTree>, depth: nat) -> Result<
    GraphView,
    GraphErrorView,
>
    decreases depth, 0nat, 0nat,
{
    if !sub.has_subgraph_node() {
        Ok(sub)
    } else if depth == 0 {
        Err(err_nesting_too_deep())
    } else {
        match flatten_parts(sub, loads, (depth - 1) as nat) {
            Err(e) => Err(e),
            Ok(parts) => Ok(
                GraphView {
                    nodes: parts.nodes,
                    connections: optional(parts.connections),
                    exposed_messages: reprojected(sub.exposed_messages, parts.table),
                    exposed_properties: None,
                },
            ),
        }
    }
}

/// The state of the walk after the subgraph node `node` is processed, where
/// `load` is what loading its subgraph gave.
pub open spec fn inline_loaded(acc: Inlined, node: GraphNodeView, load: LoadTree, depth: nat) -> Result<
    Inlined,
    GraphErrorView,
>
    decreases depth, 1nat, 0nat,
{
    if node.source_uri is None {
        Err(err_missing_source_uri(node.name))
    } else {
        match load {
            LoadTree::NotLoaded => Err(err_missing_source_uri(node.name)),
            LoadTree::Failed(e) => Err(e@),
            LoadTree::Loaded(sub, children) => match flatten_loaded(sub@, children, depth) {
                Err(e) => Err(e),
                Ok(flat) => inline_subgraph(acc, node, flat),
            },
        }
    }
}

/// The state of the walk after one more node: an extension node is taken
/// over as it is, a subgraph node is replaced by its flattened subgraph.
pub open spec fn walk_step(acc: Inlined, node: GraphNodeView, load: LoadTree, depth: nat) -> Result<
    Inlined,
    GraphErrorView,
>
    decreases depth, 2nat, 0nat,
{
    match node.type_ {
        GraphNodeType::Extension => Ok(
            Inlined {
                nodes: acc.nodes.push(node),
                connections: acc.connections,
                table: acc.table,
            },
        ),
        GraphNodeType::Subgraph => inline_loaded(acc, node, load, depth),
    }
}

/// The state of the walk after the first `n` nodes of a graph, where
/// `loads[i]` is what loading gave for node `i`.
pub open spec fn walk(graph: GraphView, loads: Seq<LoadTree>, depth: nat, n: nat) -> Result<
    Inlined,
    GraphErrorView,
>
    decreases depth, 3nat, n,
{
    if n == 0 {
        Ok(Inlined { nodes: Seq::empty(), connections: Seq::empty(), table: Map::empty() })
    } else {
        match walk(graph, loads, depth, (n - 1) as nat) {
            Err(e) => Err(e),
            Ok(acc) => walk_step(acc, graph.nodes[n - 1], loads[n - 1], depth),
        }
    }
}

/// The nodes and connections of the flattened form of a graph: all nodes
/// are walked, then the graph's own connections are flattened against the
/// subgraphs that the walk has inlined.
pub open spec fn flatten_parts(graph: GraphView, loads: Seq<LoadTree>, depth: nat) -> Result<
    Inlined,
    GraphErrorView,
>
    decreases depth, 4nat, 0nat,
{
    match walk(graph, loads, depth, graph.nodes.len()) {
        Err(e) => Err(e),
        Ok(acc) => match graph.connections {
            None => Ok(acc),
            Some(list) => match flatten_connections(list, list.len(), acc.table) {
                Err(e) => Err(e),
                Ok(more) => Ok(
                    Inlined {
                        nodes: acc.nodes,
                        connections: acc.connections + more,
                        table: acc.table,
                    },
                ),
            },
        },
    }
}

/// The flattened form of a graph, where `loads[i]` is what loading gave for
/// node `i` and `depth` levels of nesting are supported: the nodes in walk
/// order, the connections of the inlined subgraphs followed by the graph's
/// own, and nothing exposed.
pub open spec fn flatten_graph(graph: GraphView, loads: Seq<LoadTree>, depth: nat) -> Result<
    GraphView,
    GraphErrorView,
> {
    match flatten_parts(graph, loads, depth) {
        Err(e) => Err(e),
        Ok(parts) => Ok(
            GraphView {
                nodes: parts.nodes,
                connections: optional(parts.connections),
                exposed_messages: None,
                exposed_properties: None,
            },
        ),
    }
}

/// Whether the loader, called with the locator `uri`, may give `result`.
pub open spec fn loader_gave<F: Fn(&str) -> Result<Graph, GraphError>>(
    loader: F,
    uri: Seq<char>,
    result: Result<Graph, GraphError>,
) -> bool {
    exists|locator: &str| locator@ == uri && call_ensures(loader, (locator,), result)
}

/// Whether node `index` of the graph is a subgraph node whose subgraph the
/// walk loads: it names a source, and the walk reaches it without failing.
pub open spec fn is_loaded_at(graph: GraphView, loads: Seq<LoadTree>, depth: nat, index: int) -> bool {
    &&& graph.nodes[index].type_ == GraphNodeType::Subgraph
    &&& graph.nodes[index].source_uri is Some
    &&& walk(graph, loads, depth, index as nat) is Ok
}

/// Whether `load` is what the loader gave for the subgraph node `node`, and,
/// where the loaded graph is walked in turn, for its nodes.
pub open spec fn load_agrees<F: Fn(&str) -> Result<Graph, GraphError>>(
    loader: F,
    node: GraphNodeView,
    load: LoadTree,
    depth: nat,
) -> bool
    decreases depth, 0nat,
{
    match load {
        LoadTree::NotLoaded => false,
        LoadTree::Failed(e) => loader_gave(loader, node.source_uri->Some_0, Err(e)),
        LoadTree::Loaded(sub, children) => {
            &&& loader_gave(loader, node.source_uri->Some_0, Ok(sub))
            &&& sub@.has_subgraph_node() && depth > 0 ==> loads_agree(
                loader,
                sub@,
                children,
                (depth - 1) as nat,
            )
        },
    }
}

/// Whether `loads` records what the loader gave during the walk of a graph:
/// one entry for each node, and for each subgraph node that the walk loads,
/// a result of the loader for the source that the node names.
pub open spec fn loads_agree<F: Fn(&str) -> Result<Graph, GraphError>>(
    loader: F,
    graph: GraphView,
    loads: Seq<LoadTree>,
    depth: nat,
) -> bool
    decreases depth, 1nat,
{
    &&& loads.len() == graph.nodes.len()
    &&& forall|i: int|
        0 <= i < graph.nodes.len() && is_loaded_at(graph, loads, depth, i) ==> load_agrees(
            loader,
            graph.nodes[i],
            #[trigger] loads[i],
            depth,
        )
}

} // verus!

//! Flattening: inlining the subgraphs of a graph.

use vstd::prelude::*;
use vstd::hash_map::StringHashMap;
use crate::graph::{
    Graph,
    GraphExposedMessage,
    GraphExposedMessageType,
    GraphExposedMessageView,
    GraphExposedProperty,
    GraphView,
    incoming,
    outgoing,
};
use crate::graph::connection::{
    GraphConnection,
    GraphConnectionView,
    GraphDestinationView,
    GraphLoc,
    GraphMessageFlow,
    GraphMessageFlowView,
    MessageKind,
};
use crate::graph::error::{
    err_missing_source_uri,
    GraphError,
    GraphErrorView,
    outcome,
    updated,
};
use crate::graph::node::{GraphNode, GraphNodeType, GraphNodeView};
use crate::graph::subgraph_laws::{
    law_flatten_addresses_extensions,
    connections_are_plain,
    law_flatten_extension_only,
    law_flatten_without_subgraphs,
    without_exposed,
};
use crate::graph::subgraph_model::{
    alias_index,
    connection_in_subgraph,
    connection_is_flat,
    connection_with_flow,
    connections_are_flat,
    destination_in_subgraph,
    doc_with,
    empty_group,
    expand_source,
    exposed_index,
    exposed_matches,
    exposes,
    flatten_connections,
    flatten_graph,
    flatten_loaded,
    flatten_parts,
    flow_in_subgraph,
    flow_is_flat,
    flows_are_flat,
    flows_in_subgraph,
    grouped,
    has_alias,
    inline_loaded,
    inline_nodes,
    inline_subgraph,
    Inlined,
    inlined_property,
    internal_connections,
    is_alias_at,
    is_exposed_at,
    is_loaded_at,
    load_agrees,
    loader_gave,
    loads_agree,
    LoadTree,
    loc_in_subgraph,
    matching_exposed,
    node_with_property,
    overlay,
    overlay_member,
    property_reached,
    own_connection_flows,
    own_flows,
    own_optional_flows,
    OwnedFlow,
    owners,
    reproject_all,
    reprojected,
    resolve_connection,
    resolve_connections,
    resolve_destination,
    resolve_destinations,
    resolve_exposed,
    resolve_flow,
    resolve_flows,
    resolve_optional_flows,
    rewrite_extension,
    table_view,
    walk,
    walk_step,
    when_flat,
    with_flow,
};
use crate::graph::subgraph_proofs::{
    lemma_flatten_connections_fails,
    lemma_group_step,
    lemma_inline_nodes_fails,
    lemma_overlay_fails,
    lemma_overlay_reached_fails,
    lemma_overlay_reached_ok,
    lemma_own_flows_fails,
    lemma_owners_complete,
    lemma_resolve_connections_fails,
    lemma_resolve_destinations_fails,
    lemma_resolve_flows_fails,
    lemma_walk_fails,
    lemma_walk_prefix,
};
use crate::json::{
    DocView,
    json_empty_object,
    json_object_insert,
    json_object_members,
    members_view,
    opt_doc_view,
};
use crate::text::{find_separator, join_names, lemma_sole_separator_unique, separator_index, str_eq};

verus! {

/// How many levels of subgraphs inside subgraphs are flattened. A subgraph
/// that still holds subgraph nodes at this depth is refused.
pub const MAX_SUBGRAPH_DEPTH: usize = 32;

/// The state of the walk that the three collections hold.
pub open spec fn walk_state(
    nodes: Vec<GraphNode>,
    connections: Vec<GraphConnection>,
    table: StringHashMap<Graph>,
) -> Inlined {
    Inlined {
        nodes: nodes.deep_view(),
        connections: connections.deep_view(),
        table: table_view(table@),
    }
}

impl Graph {
    /// Renames a location of a subgraph for the graph that inlines it: the
    /// extension gets the name of the subgraph node as a prefix. A location
    /// that addresses a subgraph is refused.
    pub fn flatten_graph_loc_in_subgraph(loc: &mut GraphLoc, subgraph_name: &str) -> (r: Result<
        (),
        GraphError,
    >)
        ensures
            updated(
                r,
                final(loc)@,
                when_flat(
                    old(loc)@.subgraph is None,
                    loc_in_subgraph(old(loc)@, subgraph_name@),
                    subgraph_name@,
                ),
            ),
            r is Err ==> *final(loc) == *old(loc),
    {
        if loc.subgraph.is_some() {
            return Err(GraphError::subgraph_reference_inside(subgraph_name));
        }
        let renamed = match &loc.extension {
            Some(extension) => Some(join_names(subgraph_name, extension.as_str())),
            None => None,
        };
        loc.extension = renamed;
        Ok(())
    }

    /// Renames the source of a connection of a subgraph.
    pub fn flatten_connection_source_in_subgraph(
        connection: &mut GraphConnection,
        subgraph_name: &str,
    ) -> (r: Result<(), GraphError>)
        ensures
            updated(
                r,
                final(connection)@,
                when_flat(
                    old(connection)@.loc.subgraph is None,
                    GraphConnectionView {
                        loc: loc_in_subgraph(old(connection)@.loc, subgraph_name@),
                        cmd: old(connection)@.cmd,
                        data: old(connection)@.data,
                        audio_frame: old(connection)@.audio_frame,
                        video_frame: old(connection)@.video_frame,
                    },
                    subgraph_name@,
                ),
            ),
            r is Err ==> *final(connection) == *old(connection),
    {
        Self::flatten_graph_loc_in_subgraph(&mut connection.loc, subgraph_name)
    }

    /// Whether no destination of the flows addresses a subgraph.
    fn flows_address_extensions(flows: &Option<Vec<GraphMessageFlow>>) -> (r: bool)
        ensures
            r == flows_are_flat(flows.deep_view()),
    {
        let list = match flows {
            Some(list) => list,
            None => {
                return true;
            },
        };
        let ghost views = list.deep_view();
        let n = list.len();
        let mut i: usize = 0;
        while i < n
            invariant
                i <= n,
                n == list.len(),
                views == list.deep_view(),
                flows.deep_view() == Some(views),
                forall|k: int| 0 <= k < i ==> flow_is_flat(#[trigger] views[k]),
            decreases n - i,
        {
            let flow = &list[i];
            proof {
                assert(views[i as int] == flow@);
            }
            let m = flow.dest.len();
            let mut j: usize = 0;
            while j < m
                invariant
                    j <= m,
                    m == flow.dest.len(),
                    i < n,
                    n == list.len(),
                    views == list.deep_view(),
                    views[i as int] == flow@,
                    flows.deep_view() == Some(views),
                    forall|k: int|
                        0 <= k < j ==> (#[trigger] flow@.dest[k]).loc.subgraph is None,
                decreases m - j,
            {
                proof {
                    assert(flow@.dest[j as int] == flow.dest[j as int]@);
                }
                if flow.dest[j].loc.subgraph.is_some() {
                    proof {
                        assert(!flow_is_flat(views[i as int]));
                        assert(flows.deep_view()->Some_0[i as int] == views[i as int]);
                    }
                    return false;
                }
                j += 1;
            }
            i += 1;
        }
        true
    }

    /// Renames the destinations of one flow of a subgraph, none of which
    /// addresses a subgraph.
    fn flatten_flow_in_subgraph(flow: &mut GraphMessageFlow, subgraph_name: &str)
        requires
            flow_is_flat(old(flow)@),
        ensures
            final(flow)@ == flow_in_subgraph(old(flow)@, subgraph_name@),
    {
        let n = flow.dest.len();
        let mut j: usize = 0;
        while j < n
            invariant
                j <= n,
                n == flow.dest.len(),
                n == old(flow).dest.len(),
                flow.name == old(flow).name,
                flow_is_flat(old(flow)@),
                forall|k: int|
                    0 <= k < j ==> (#[trigger] flow.dest[k])@ == destination_in_subgraph(
                        old(flow).dest[k]@,
                        subgraph_name@,
                    ),
                forall|k: int| j <= k < n ==> flow.dest[k] == old(flow).dest[k],
            decreases n - j,
        {
            proof {
                assert(old(flow)@.dest[j as int] == old(flow).dest[j as int]@);
            }
            let step = Self::flatten_graph_loc_in_subgraph(&mut flow.dest[j].loc, subgraph_name);
            proof {
                assert(step is Ok);
            }
            j += 1;
        }
        proof {
            assert(flow@.dest =~= flow_in_subgraph(old(flow)@, subgraph_name@).dest);
        }
    }

    /// Renames the destinations of a list of flows of a subgraph, none of
    /// which addresses a subgraph.
    fn flatten_flows_in_subgraph(flows: &mut Option<Vec<GraphMessageFlow>>, subgraph_name: &str)
        requires
            flows_are_flat(old(flows).deep_view()),
        ensures
            final(flows).deep_view() == flows_in_subgraph(old(flows).deep_view(), subgraph_name@),
    {
        match flows {
            Some(list) => {
                let ghost before = list.deep_view();
                let n = list.len();
                let mut i: usize = 0;
                proof {
                    assert(old(flows).deep_view() == Some(before));
                    assert forall|k: int| 0 <= k < n implies flow_is_flat(#[trigger] before[k]) by {
                        assert(before[k] == old(flows).deep_view()->Some_0[k]);
                    }
                }
                while i < n
                    invariant
                        i <= n,
                        n == list.len(),
                        n == before.len(),
                        old(flows).deep_view() == Some(before),
                        forall|k: int| 0 <= k < n ==> flow_is_flat(#[trigger] before[k]),
                        forall|k: int|
                            0 <= k < i ==> (#[trigger] list[k])@ == flow_in_subgraph(
                                before[k],
                                subgraph_name@,
                            ),
                        forall|k: int| i <= k < n ==> list[k]@ == before[k],
                    decreases n - i,
                {
                    proof {
                        assert(flow_is_flat(before[i as int]));
                    }
                    Self::flatten_flow_in_subgraph(&mut list[i], subgraph_name);
                    i += 1;
                }
                proof {
                    assert(list.deep_view() =~= flows_in_subgraph(
                        Some(before),
                        subgraph_name@,
                    )->Some_0);
                }
            },
            None => {},
        }
    }

    /// Renames the destinations of all flows of a connection of a subgraph.
    /// Where one of them addresses a subgraph, the connection is left as it
    /// is.
    pub fn flatten_connection_destinations_in_subgraph(
        connection: &mut GraphConnection,
        subgraph_name: &str,
    ) -> (r: Result<(), GraphError>)
        ensures
            updated(
                r,
                final(connection)@,
                when_flat(
                    flows_are_flat(old(connection)@.cmd) && flows_are_flat(old(connection)@.data)
                        && flows_are_flat(old(connection)@.audio_frame) && flows_are_flat(
                        old(connection)@.video_frame,
                    ),
                    GraphConnectionView {
                        loc: old(connection)@.loc,
                        cmd: flows_in_subgraph(old(connection)@.cmd, subgraph_name@),
                        data: flows_in_subgraph(old(connection)@.data, subgraph_name@),
                        audio_frame: flows_in_subgraph(
                            old(connection)@.audio_frame,
                            subgraph_name@,
                        ),
                        video_frame: flows_in_subgraph(
                            old(connection)@.video_frame,
                            subgraph_name@,
                        ),
                    },
                    subgraph_name@,
                ),
            ),
            r is Err ==> *final(connection) == *old(connection),
    {
        let flat = Self::flows_address_extensions(&connection.cmd) && Self::flows_address_extensions(
            &connection.data,
        ) && Self::flows_address_extensions(&connection.audio_frame)
            && Self::flows_address_extensions(&connection.video_frame);
        if !flat {
            return Err(GraphError::subgraph_reference_inside(subgraph_name));
        }
        Self::flatten_flows_in_subgraph(&mut connection.cmd, subgraph_name);
        Self::flatten_flows_in_subgraph(&mut connection.data, subgraph_name);
        Self::flatten_flows_in_subgraph(&mut connection.audio_frame, subgraph_name);
        Self::flatten_flows_in_subgraph(&mut connection.video_frame, subgraph_name);
        Ok(())
    }

    /// The flattened name of the extension of a subgraph that takes or gives
    /// the message `flow_name`, found in what the subgraph exposes.
    pub fn resolve_subgraph_to_extension(
        subgraph_name: &str,
        subgraph: &Graph,
        flow_name: &str,
        msg_type: GraphExposedMessageType,
    ) -> (r: Result<String, GraphError>)
        ensures
            outcome(r) == resolve_exposed(subgraph_name@, subgraph@, flow_name@, msg_type),
    {
        match &subgraph.exposed_messages {
            Some(exposed) => {
                let mut i: usize = 0;
                while i < exposed.len()
                    invariant
                        i <= exposed.len(),
                        subgraph@.exposed_messages == Some(exposed.deep_view()),
                        forall|j: int|
                            0 <= j < i ==> !exposed_matches(
                                #[trigger] exposed.deep_view()[j],
                                msg_type,
                                flow_name@,
                            ),
                    decreases exposed.len() - i,
                {
                    let candidate = &exposed[i];
                    if candidate.msg_type == msg_type && str_eq(candidate.name.as_str(), flow_name) {
                        proof {
                            let list = exposed.deep_view();
                            assert(list[i as int] == candidate@);
                            assert(is_exposed_at(list, msg_type, flow_name@, i as int));
                            assert(exposes(list, msg_type, flow_name@));
                            let chosen = exposed_index(list, msg_type, flow_name@);
                            assert(is_exposed_at(list, msg_type, flow_name@, chosen));
                            assert(chosen == i);
                        }
                        return match &candidate.extension {
                            Some(extension) => Ok(join_names(subgraph_name, extension.as_str())),
                            None => Err(
                                GraphError::exposed_message_without_extension(
                                    flow_name,
                                    subgraph_name,
                                ),
                            ),
                        };
                    }
                    i += 1;
                }
                Err(GraphError::message_not_exposed(flow_name, msg_type.name(), subgraph_name))
            },
            None => Err(
                GraphError::no_exposed_messages(flow_name, msg_type.name(), subgraph_name),
            ),
        }
    }

    /// Appends a flow to a list of flows that may be absent.
    fn push_flow(list: &mut Option<Vec<GraphMessageFlow>>, flow: GraphMessageFlow)
        ensures
            final(list).deep_view() == with_flow(old(list).deep_view(), flow@),
    {
        match list {
            Some(flows) => {
                let ghost before = flows.deep_view();
                flows.push(flow);
                proof {
                    assert(flows.deep_view() =~= before.push(flow@));
                }
            },
            None => {
                let mut flows: Vec<GraphMessageFlow> = Vec::new();
                flows.push(flow);
                proof {
                    assert(flows.deep_view() =~= seq![flow@]);
                }
                *list = Some(flows);
            },
        }
    }

    /// Appends a flow of the given kind to a connection.
    fn add_flow(entry: &mut GraphConnection, kind: MessageKind, flow: GraphMessageFlow)
        ensures
            final(entry)@ == connection_with_flow(old(entry)@, kind, flow@),
    {
        match kind {
            MessageKind::Cmd => Self::push_flow(&mut entry.cmd, flow),
            MessageKind::Data => Self::push_flow(&mut entry.data, flow),
            MessageKind::AudioFrame => Self::push_flow(&mut entry.audio_frame, flow),
            MessageKind::VideoFrame => Self::push_flow(&mut entry.video_frame, flow),
        }
    }

    /// The position of the connection that starts at the extension `owner`.
    fn find_group(groups: &Vec<GraphConnection>, owner: &str) -> (r: Option<usize>)
        ensures
            match r {
                Some(k) => k < groups.len() && groups[k as int]@.loc.extension == Some(owner@),
                None => forall|m: int|
                    0 <= m < groups.len() ==> (#[trigger] groups[m])@.loc.extension != Some(owner@),
            },
    {
        let mut k: usize = 0;
        while k < groups.len()
            invariant
                k <= groups.len(),
                forall|m: int|
                    0 <= m < k ==> (#[trigger] groups[m])@.loc.extension != Some(owner@),
            decreases groups.len() - k,
        {
            let found = match &groups[k].loc.extension {
                Some(extension) => str_eq(extension.as_str(), owner),
                None => false,
            };
            if found {
                return Some(k);
            }
            k += 1;
        }
        None
    }

    /// Distributes the flows of one kind of a connection that starts at a
    /// subgraph over the connections of the extensions that give them.
    ///
    /// `extension_flows` holds one connection for each extension met so far,
    /// in the order in which they were first met; `seen` is the flows that
    /// were distributed before this call.
    fn flatten_connection_source_of_one_type_for_subgraph(
        flows: &Vec<GraphMessageFlow>,
        kind: MessageKind,
        subgraph_name: &str,
        subgraph: &Graph,
        base_connection: &GraphConnection,
        extension_flows: &mut Vec<GraphConnection>,
        Ghost(seen): Ghost<Seq<OwnedFlow>>,
    ) -> (r: Result<(), GraphError>)
        requires
            old(extension_flows).deep_view() == grouped(
                seen,
                seen.len(),
                base_connection@.loc.app,
            ),
        ensures
            match own_flows(
                flows.deep_view(),
                flows.len() as nat,
                kind,
                subgraph_name@,
                subgraph@,
            ) {
                Ok(more) => r is Ok && final(extension_flows).deep_view() == grouped(
                    seen + more,
                    (seen + more).len(),
                    base_connection@.loc.app,
                ),
                Err(e) => r is Err && r->Err_0@ == e,
            },
    {
        let ghost app = base_connection@.loc.app;
        let ghost list = flows.deep_view();
        let ghost mut more: Seq<OwnedFlow> = Seq::empty();
        let msg_type = match kind {
            MessageKind::Cmd => GraphExposedMessageType::CmdOut,
            MessageKind::Data => GraphExposedMessageType::DataOut,
            MessageKind::AudioFrame => GraphExposedMessageType::AudioFrameOut,
            MessageKind::VideoFrame => GraphExposedMessageType::VideoFrameOut,
        };
        proof {
            assert(seen + more =~= seen);
        }
        let n = flows.len();
        let mut i: usize = 0;
        while i < n
            invariant
                i <= n,
                n == flows.len(),
                list == flows.deep_view(),
                app == base_connection@.loc.app,
                msg_type == outgoing(kind),
                own_flows(list, i as nat, kind, subgraph_name@, subgraph@) == Ok::<
                    Seq<OwnedFlow>,
                    GraphErrorView,
                >(more),
                extension_flows.deep_view() == grouped(seen + more, (seen + more).len(), app),
            decreases n - i,
        {
            let flow = &flows[i];
            let resolved = Self::resolve_subgraph_to_extension(
                subgraph_name,
                subgraph,
                flow.name.as_str(),
                msg_type,
            );
            let extension_name = match resolved {
                Ok(name) => name,
                Err(e) => {
                    proof {
                        assert(list[i as int] == flow@);
                        lemma_own_flows_fails(
                            list,
                            (i + 1) as nat,
                            n as nat,
                            kind,
                            subgraph_name@,
                            subgraph@,
                        );
                    }
                    return Err(e);
                },
            };
            let ghost next = OwnedFlow { kind, flow: flow@, owner: extension_name@ };
            let ghost all = seen + more;
            proof {
                assert(list[i as int] == flow@);
                lemma_group_step(all, app, next);
            }
            let ghost before = extension_flows.deep_view();
            match Self::find_group(extension_flows, extension_name.as_str()) {
                Some(k) => {
                    proof {
                        let names = owners(all, all.len());
                        assert(before[k as int] == extension_flows[k as int]@);
                        assert(names[k as int] == next.owner);
                        assert(names.contains(next.owner));
                    }
                    Self::add_flow(&mut extension_flows[k], kind, flow.clone());
                    proof {
                        let names = owners(all, all.len());
                        let after = grouped(all.push(next), all.len() + 1, app);
                        assert forall|m: int| 0 <= m < after.len() implies after[m]
                            == extension_flows.deep_view()[m] by {
                            if m != k {
                                assert(names[m] != names[k as int]);
                                assert(extension_flows.deep_view()[m] == before[m]);
                            }
                        }
                        assert(extension_flows.deep_view() =~= after);
                    }
                },
                None => {
                    proof {
                        let names = owners(all, all.len());
                        assert forall|m: int| 0 <= m < names.len() implies names[m]
                            != next.owner by {
                            assert(before[m] == extension_flows[m]@);
                        }
                        assert(!names.contains(next.owner));
                    }
                    let mut entry = GraphConnection {
                        loc: GraphLoc {
                            app: base_connection.loc.app.clone(),
                            extension: Some(extension_name),
                            subgraph: None,
                        },
                        cmd: None,
                        data: None,
                        audio_frame: None,
                        video_frame: None,
                    };
                    proof {
                        assert(entry@ == empty_group(app, next.owner));
                    }
                    Self::add_flow(&mut entry, kind, flow.clone());
                    extension_flows.push(entry);
                    proof {
                        assert(extension_flows.deep_view() =~= before.push(
                            connection_with_flow(
                                empty_group(app, next.owner),
                                next.kind,
                                next.flow,
                            ),
                        ));
                    }
                },
            }
            proof {
                assert(seen + more.push(next) =~= all.push(next));
                more = more.push(next);
            }
            i += 1;
        }
        Ok(())
    }

    /// Rewrites the shorthand `owner:member` in the extension field of a
    /// location to `owner_member`.
    pub fn handle_colon_notation(field: &mut Option<String>)
        ensures
            final(field).deep_view() == rewrite_extension(old(field).deep_view()),
    {
        let rewritten = match field {
            Some(value) => {
                let s = value.as_str();
                match find_separator(s) {
                    Some(at) => {
                        let n = s.unicode_len();
                        let owner = s.substring_char(0, at);
                        let member = s.substring_char(at + 1, n);
                        proof {
                            lemma_sole_separator_unique(s@, at as int, separator_index(s@));
                            assert(owner@ =~= s@.take(at as int));
                            assert(member@ =~= s@.skip(at + 1));
                        }
                        Some(join_names(owner, member))
                    },
                    None => None,
                }
            },
            None => None,
        };
        if let Some(name) = rewritten {
            *field = Some(name);
        }
    }

    /// Resolves a destination location of the flow `flow_name` to an
    /// extension. A location that names a subgraph is looked up in what that
    /// subgraph exposes; any other has its shorthand rewritten.
    pub fn process_dest_location_for_subgraph_resolution(
        loc: &mut GraphLoc,
        subgraph_mappings: &StringHashMap<Graph>,
        flow_name: &str,
        msg_type: GraphExposedMessageType,
    ) -> (r: Result<(), GraphError>)
        ensures
            updated(
                r,
                final(loc)@,
                resolve_destination(old(loc)@, table_view(subgraph_mappings@), flow_name@, msg_type),
            ),
            r is Err ==> *final(loc) == *old(loc),
    {
        let resolved = match &loc.subgraph {
            Some(subgraph_name) => {
                let subgraph = match subgraph_mappings.get(subgraph_name.as_str()) {
                    Some(found) => found,
                    None => {
                        return Err(
                            GraphError::destination_not_found(
                                flow_name,
                                msg_type.name(),
                                subgraph_name.as_str(),
                            ),
                        );
                    },
                };
                let extension_name = Self::resolve_subgraph_to_extension(
                    subgraph_name.as_str(),
                    subgraph,
                    flow_name,
                    msg_type,
                )?;
                Some(extension_name)
            },
            None => None,
        };
        match resolved {
            Some(extension_name) => {
                loc.subgraph = None;
                loc.extension = Some(extension_name);
            },
            None => {
                Self::handle_colon_notation(&mut loc.extension);
            },
        }
        Ok(())
    }

    /// The connections that take the place of `connection` once its source
    /// is an extension. A connection that starts at a subgraph becomes one
    /// connection for each extension of the subgraph that gives one of its
    /// flows, in the order in which the flows first name them; any other
    /// connection keeps its flows and has the shorthand of its source
    /// rewritten.
    pub fn flatten_connection_source_for_subgraph(
        connection: &GraphConnection,
        subgraph_mappings: &StringHashMap<Graph>,
    ) -> (r: Result<Vec<GraphConnection>, GraphError>)
        ensures
            outcome(r) == expand_source(connection@, table_view(subgraph_mappings@)),
    {
        let mut expanded_connections: Vec<GraphConnection> = Vec::new();
        let mut base_connection = connection.clone();
        if base_connection.loc.subgraph.is_some() {
            let subgraph_name = base_connection.loc.subgraph.as_ref().unwrap();
            let subgraph = match subgraph_mappings.get(subgraph_name.as_str()) {
                Some(found) => found,
                None => {
                    return Err(GraphError::subgraph_not_found(subgraph_name.as_str()));
                },
            };
            let ghost name = subgraph_name@;
            let ghost app = connection@.loc.app;
            let ghost cmd = own_optional_flows(connection@.cmd, MessageKind::Cmd, name, subgraph@);
            let ghost data = own_optional_flows(
                connection@.data,
                MessageKind::Data,
                name,
                subgraph@,
            );
            let ghost audio = own_optional_flows(
                connection@.audio_frame,
                MessageKind::AudioFrame,
                name,
                subgraph@,
            );
            let ghost video = own_optional_flows(
                connection@.video_frame,
                MessageKind::VideoFrame,
                name,
                subgraph@,
            );
            let ghost mut seen: Seq<OwnedFlow> = Seq::empty();
            proof {
                assert(expanded_connections.deep_view() =~= grouped(seen, 0, app));
            }
            if let Some(ref cmd_flows) = base_connection.cmd {
                Self::flatten_connection_source_of_one_type_for_subgraph(
                    cmd_flows,
                    MessageKind::Cmd,
                    subgraph_name.as_str(),
                    subgraph,
                    &base_connection,
                    &mut expanded_connections,
                    Ghost(seen),
                )?;
            }
            proof {
                assert(seen + cmd->Ok_0 =~= cmd->Ok_0);
                seen = cmd->Ok_0;
            }
            if let Some(ref data_flows) = base_connection.data {
                Self::flatten_connection_source_of_one_type_for_subgraph(
                    data_flows,
                    MessageKind::Data,
                    subgraph_name.as_str(),
                    subgraph,
                    &base_connection,
                    &mut expanded_connections,
                    Ghost(seen),
                )?;
            }
            proof {
                assert(seen + Seq::<OwnedFlow>::empty() =~= seen);
                seen = seen + data->Ok_0;
            }
            if let Some(ref audio_frame_flows) = base_connection.audio_frame {
                Self::flatten_connection_source_of_one_type_for_subgraph(
                    audio_frame_flows,
                    MessageKind::AudioFrame,
                    subgraph_name.as_str(),
                    subgraph,
                    &base_connection,
                    &mut expanded_connections,
                    Ghost(seen),
                )?;
            }
            proof {
                assert(seen + Seq::<OwnedFlow>::empty() =~= seen);
                seen = seen + audio->Ok_0;
            }
            if let Some(ref video_frame_flows) = base_connection.video_frame {
                Self::flatten_connection_source_of_one_type_for_subgraph(
                    video_frame_flows,
                    MessageKind::VideoFrame,
                    subgraph_name.as_str(),
                    subgraph,
                    &base_connection,
                    &mut expanded_connections,
                    Ghost(seen),
                )?;
            }
            proof {
                assert(seen + Seq::<OwnedFlow>::empty() =~= seen);
                seen = seen + video->Ok_0;
                lemma_owners_complete(seen, seen.len());
                if seen.len() > 0 {
                    assert(owners(seen, seen.len()).contains(seen[0].owner));
                }
            }
            if expanded_connections.is_empty() {
                proof {
                    assert(expanded_connections.deep_view().len() == 0);
                    assert(owners(seen, seen.len()).len() == 0);
                    assert(seen.len() == 0);
                    assert(own_connection_flows(connection@, name, subgraph@) == Ok::<
                        Seq<OwnedFlow>,
                        GraphErrorView,
                    >(seen));
                }
                return Err(GraphError::no_message_flows(subgraph_name.as_str()));
            }
        } else {
            Self::handle_colon_notation(&mut base_connection.loc.extension);
            expanded_connections.push(base_connection);
            proof {
                assert(expanded_connections.deep_view() =~= expand_source(
                    connection@,
                    table_view(subgraph_mappings@),
                )->Ok_0);
            }
        }
        Ok(expanded_connections)
    }

    /// The type of a message of the given kind as the subgraph it is sent to
    /// exposes it.
    pub fn get_exposed_message_type_for_dest_subgraph(kind: MessageKind) -> (r:
        GraphExposedMessageType)
        ensures
            r == incoming(kind),
    {
        match kind {
            MessageKind::Cmd => GraphExposedMessageType::CmdIn,
            MessageKind::Data => GraphExposedMessageType::DataIn,
            MessageKind::AudioFrame => GraphExposedMessageType::AudioFrameIn,
            MessageKind::VideoFrame => GraphExposedMessageType::VideoFrameIn,
        }
    }

    /// Resolves the destinations of one flow.
    fn resolve_flow_destinations(
        flow: &mut GraphMessageFlow,
        subgraph_mappings: &StringHashMap<Graph>,
        msg_type: GraphExposedMessageType,
    ) -> (r: Result<(), GraphError>)
        ensures
            updated(r, final(flow)@, resolve_flow(old(flow)@, table_view(subgraph_mappings@), msg_type)),
    {
        let ghost before = flow@;
        let ghost table = table_view(subgraph_mappings@);
        let n = flow.dest.len();
        let mut j: usize = 0;
        proof {
            assert(flow.dest.deep_view().take(0) =~= Seq::empty());
        }
        while j < n
            invariant
                j <= n,
                n == flow.dest.len(),
                n == before.dest.len(),
                before == old(flow)@,
                table == table_view(subgraph_mappings@),
                flow.name == old(flow).name,
                resolve_destinations(before.dest, j as nat, table, before.name, msg_type) == Ok::<
                    Seq<GraphDestinationView>,
                    GraphErrorView,
                >(flow.dest.deep_view().take(j as int)),
                forall|k: int| j <= k < n ==> flow.dest[k]@ == #[trigger] before.dest[k],
            decreases n - j,
        {
            let ghost done = flow.dest.deep_view().take(j as int);
            let step = Self::process_dest_location_for_subgraph_resolution(
                &mut flow.dest[j].loc,
                subgraph_mappings,
                flow.name.as_str(),
                msg_type,
            );
            match step {
                Ok(()) => {
                    proof {
                        assert(flow.dest.deep_view().take(j + 1) =~= done.push(flow.dest[j as int]@));
                    }
                },
                Err(e) => {
                    proof {
                        lemma_resolve_destinations_fails(
                            before.dest,
                            (j + 1) as nat,
                            n as nat,
                            table,
                            before.name,
                            msg_type,
                        );
                    }
                    return Err(e);
                },
            }
            j += 1;
        }
        proof {
            assert(flow.dest.deep_view().take(n as int) =~= flow.dest.deep_view());
        }
        Ok(())
    }

    /// Resolves the destinations of the flows of one kind.
    fn resolve_flows_destinations(
        flows: &mut Option<Vec<GraphMessageFlow>>,
        subgraph_mappings: &StringHashMap<Graph>,
        kind: MessageKind,
    ) -> (r: Result<(), GraphError>)
        ensures
            updated(
                r,
                final(flows).deep_view(),
                resolve_optional_flows(old(flows).deep_view(), table_view(subgraph_mappings@), kind),
            ),
    {
        let msg_type = Self::get_exposed_message_type_for_dest_subgraph(kind);
        match flows {
            Some(list) => {
                let ghost before = list.deep_view();
                let ghost table = table_view(subgraph_mappings@);
                let n = list.len();
                let mut i: usize = 0;
                proof {
                    assert(list.deep_view().take(0) =~= Seq::empty());
                }
                while i < n
                    invariant
                        i <= n,
                        n == list.len(),
                        n == before.len(),
                        old(flows).deep_view() == Some(before),
                        table == table_view(subgraph_mappings@),
                        msg_type == incoming(kind),
                        resolve_flows(before, i as nat, table, msg_type) == Ok::<
                            Seq<GraphMessageFlowView>,
                            GraphErrorView,
                        >(list.deep_view().take(i as int)),
                        forall|k: int| i <= k < n ==> list[k]@ == #[trigger] before[k],
                    decreases n - i,
                {
                    let ghost done = list.deep_view().take(i as int);
                    let step = Self::resolve_flow_destinations(
                        &mut list[i],
                        subgraph_mappings,
                        msg_type,
                    );
                    match step {
                        Ok(()) => {
                            proof {
                                assert(list.deep_view().take(i + 1) =~= done.push(list[i as int]@));
                            }
                        },
                        Err(e) => {
                            proof {
                                lemma_resolve_flows_fails(
                                    before,
                                    (i + 1) as nat,
                                    n as nat,
                                    table,
                                    msg_type,
                                );
                            }
                            return Err(e);
                        },
                    }
                    i += 1;
                }
                proof {
                    assert(list.deep_view().take(n as int) =~= list.deep_view());
                }
                Ok(())
            },
            None => Ok(()),
        }
    }

    /// Resolves the destinations of all flows of a connection: each location
    /// that names a subgraph is replaced by the extension that the subgraph
    /// exposes for the flow, each shorthand is rewritten. Where a destination
    /// cannot be resolved, the connection is left as it is.
    pub fn flatten_connection_destinations_for_subgraph(
        connection: &mut GraphConnection,
        subgraph_mappings: &StringHashMap<Graph>,
    ) -> (r: Result<(), GraphError>)
        ensures
            updated(
                r,
                final(connection)@,
                resolve_connection(old(connection)@, table_view(subgraph_mappings@)),
            ),
            r is Err ==> *final(connection) == *old(connection),
    {
        let mut resolved = connection.clone();
        Self::resolve_flows_destinations(&mut resolved.cmd, subgraph_mappings, MessageKind::Cmd)?;
        Self::resolve_flows_destinations(&mut resolved.data, subgraph_mappings, MessageKind::Data)?;
        Self::resolve_flows_destinations(
            &mut resolved.audio_frame,
            subgraph_mappings,
            MessageKind::AudioFrame,
        )?;
        Self::resolve_flows_destinations(
            &mut resolved.video_frame,
            subgraph_mappings,
            MessageKind::VideoFrame,
        )?;
        *connection = resolved;
        Ok(())
    }

    /// The position of the first exposed property with the given alias.
    fn find_exposed_property(properties: &Vec<GraphExposedProperty>, alias: &str) -> (r: Option<usize>)
        ensures
            match r {
                Some(i) => is_alias_at(properties.deep_view(), alias@, i as int),
                None => !has_alias(properties.deep_view(), alias@),
            },
    {
        let mut i: usize = 0;
        while i < properties.len()
            invariant
                i <= properties.len(),
                forall|j: int| 0 <= j < i ==> (#[trigger] properties.deep_view()[j]).alias != alias@,
            decreases properties.len() - i,
        {
            if str_eq(properties[i].alias.as_str(), alias) {
                proof {
                    assert(properties.deep_view()[i as int] == properties[i as int]@);
                }
                return Some(i);
            }
            i += 1;
        }
        None
    }

    /// Sets `key` to `value` in a property document. An absent document
    /// becomes an object first; a document that is not an object stays as it
    /// is.
    fn set_property(property: &mut Option<serde_json::Value>, key: String, value: serde_json::Value)
        ensures
            opt_doc_view(*final(property)) == doc_with(opt_doc_view(*old(property)), key@, value),
    {
        if property.is_none() {
            *property = Some(json_empty_object());
        }
        if let Some(doc) = property {
            json_object_insert(doc, key, value);
        }
    }

    /// Applies one member of the property document of a subgraph node to the
    /// property document of the copy of the inner node `sub_node`.
    fn apply_subgraph_property(
        property: &mut Option<serde_json::Value>,
        alias: &str,
        value: &serde_json::Value,
        sub_node: &GraphNode,
        subgraph_node: &GraphNode,
        subgraph: &Graph,
    ) -> (r: Result<(), GraphError>)
        ensures
            updated(
                r,
                opt_doc_view(*final(property)),
                overlay_member(
                    opt_doc_view(*old(property)),
                    alias@,
                    *value,
                    subgraph@,
                    sub_node@.name,
                    subgraph_node@.name,
                ),
            ),
            r is Err ==> *final(property) == *old(property),
    {
        let properties = match &subgraph.exposed_properties {
            Some(properties) => properties,
            None => {
                return Err(
                    GraphError::no_exposed_properties(alias, subgraph_node.name.as_str()),
                );
            },
        };
        let index = match Self::find_exposed_property(properties, alias) {
            Some(index) => index,
            None => {
                return Err(
                    GraphError::property_not_exposed(alias, subgraph_node.name.as_str()),
                );
            },
        };
        proof {
            let list = properties.deep_view();
            assert(has_alias(list, alias@));
            assert(is_alias_at(list, alias@, alias_index(list, alias@)));
            assert(alias_index(list, alias@) == index);
            assert(list[index as int] == properties[index as int]@);
        }
        let exposed = &properties[index];
        match &exposed.extension {
            Some(target) => {
                if str_eq(target.as_str(), sub_node.name.as_str()) {
                    Self::set_property(property, exposed.name.clone(), value.clone());
                }
                Ok(())
            },
            None => Err(
                GraphError::exposed_property_without_extension(
                    alias,
                    subgraph_node.name.as_str(),
                ),
            ),
        }
    }

    /// Applies the properties that a subgraph node sets to the copy
    /// `flattened_node` of the inner node `sub_node`: each member of the
    /// property document of `subgraph_node` names an exposed property of
    /// `subgraph` by its alias, and is written to `flattened_node` where that
    /// exposed property belongs to `sub_node`. The first member that fails
    /// ends the call: what the members before it have set stays, and neither
    /// it nor a later member is written.
    pub fn apply_subgraph_properties_to_extension(
        flattened_node: &mut GraphNode,
        sub_node: &GraphNode,
        subgraph_node: &GraphNode,
        subgraph: &Graph,
    ) -> (r: Result<(), GraphError>)
        ensures
            match inlined_property(
                old(flattened_node)@.property,
                sub_node@.name,
                subgraph_node@,
                subgraph@,
            ) {
                Ok(property) => r is Ok && final(flattened_node)@ == node_with_property(
                    old(flattened_node)@,
                    property,
                ),
                Err(e) => r is Err && r->Err_0@ == e,
            },
            final(flattened_node)@ == node_with_property(
                old(flattened_node)@,
                property_reached(
                    old(flattened_node)@.property,
                    sub_node@.name,
                    subgraph_node@,
                    subgraph@,
                ),
            ),
    {
        let listed = match &subgraph_node.property {
            Some(doc) => json_object_members(doc),
            None => None,
        };
        let members = match listed {
            Some(members) => members,
            None => {
                return Ok(());
            },
        };
        let ghost entries = members_view(members@);
        let ghost start = flattened_node@;
        let ghost inner_name = sub_node@.name;
        let ghost owner_name = subgraph_node@.name;
        let n = members.len();
        let mut i: usize = 0;
        while i < n
            invariant
                i <= n,
                n == members.len(),
                entries == members_view(members@),
                subgraph_node@.property == Some(DocView::Object(entries)),
                start == old(flattened_node)@,
                inner_name == sub_node@.name,
                owner_name == subgraph_node@.name,
                overlay(start.property, entries, i as nat, subgraph@, inner_name, owner_name)
                    == Ok::<Option<DocView>, GraphErrorView>(flattened_node@.property),
                flattened_node@ == node_with_property(start, flattened_node@.property),
            decreases n - i,
        {
            proof {
                assert(entries[i as int] == (members[i as int].0@, members[i as int].1));
            }
            let step = Self::apply_subgraph_property(
                &mut flattened_node.property,
                members[i].0.as_str(),
                &members[i].1,
                sub_node,
                subgraph_node,
                subgraph,
            );
            match step {
                Ok(()) => {},
                Err(e) => {
                    proof {
                        lemma_overlay_fails(
                            start.property,
                            entries,
                            (i + 1) as nat,
                            n as nat,
                            subgraph@,
                            inner_name,
                            owner_name,
                        );
                        lemma_overlay_reached_fails(
                            start.property,
                            entries,
                            i as nat,
                            n as nat,
                            subgraph@,
                            inner_name,
                            owner_name,
                        );
                    }
                    return Err(e);
                },
            }
            i += 1;
        }
        proof {
            lemma_overlay_reached_ok(
                start.property,
                entries,
                n as nat,
                subgraph@,
                inner_name,
                owner_name,
            );
        }
        Ok(())
    }

    /// Appends the connections of a flattened subgraph, renamed for the
    /// graph that inlines it, to `flattened_connections`. Where a connection
    /// addresses a subgraph, nothing is appended.
    pub fn add_internal_connections_from_subgraph(
        subgraph: &Graph,
        subgraph_name: &str,
        flattened_connections: &mut Vec<GraphConnection>,
    ) -> (r: Result<(), GraphError>)
        ensures
            match internal_connections(subgraph@, subgraph_name@) {
                Ok(added) => r is Ok && final(flattened_connections).deep_view() == old(
                    flattened_connections,
                ).deep_view() + added,
                Err(e) => r is Err && r->Err_0@ == e,
            },
            r is Err ==> *final(flattened_connections) == *old(flattened_connections),
    {
        match &subgraph.connections {
            Some(list) => {
                let ghost start = flattened_connections.deep_view();
                let mut renamed: Vec<GraphConnection> = Vec::new();
                proof {
                    assert(renamed.deep_view() =~= Seq::new(
                        0nat,
                        |k: int| connection_in_subgraph(list[k]@, subgraph_name@),
                    ));
                }
                let n = list.len();
                let mut i: usize = 0;
                while i < n
                    invariant
                        i <= n,
                        n == list.len(),
                        subgraph@.connections == Some(list.deep_view()),
                        forall|k: int| 0 <= k < i ==> connection_is_flat(#[trigger] list[k]@),
                        renamed.deep_view() == Seq::new(
                            i as nat,
                            |k: int| connection_in_subgraph(list[k]@, subgraph_name@),
                        ),
                    decreases n - i,
                {
                    let mut flattened_connection = list[i].clone();
                    let ghost given = list[i as int]@;
                    proof {
                        assert(list.deep_view()[i as int] == given);
                    }
                    let source = Self::flatten_connection_source_in_subgraph(
                        &mut flattened_connection,
                        subgraph_name,
                    );
                    match source {
                        Ok(()) => {},
                        Err(e) => {
                            proof {
                                assert(!connection_is_flat(given));
                            }
                            return Err(e);
                        },
                    }
                    let dests = Self::flatten_connection_destinations_in_subgraph(
                        &mut flattened_connection,
                        subgraph_name,
                    );
                    match dests {
                        Ok(()) => {},
                        Err(e) => {
                            proof {
                                assert(!connection_is_flat(given));
                            }
                            return Err(e);
                        },
                    }
                    proof {
                        assert(connection_is_flat(given));
                        assert(flattened_connection@ == connection_in_subgraph(
                            given,
                            subgraph_name@,
                        ));
                    }
                    let ghost before = renamed.deep_view();
                    renamed.push(flattened_connection);
                    proof {
                        assert(renamed.deep_view() =~= before.push(
                            connection_in_subgraph(given, subgraph_name@),
                        ));
                        assert(renamed.deep_view() =~= Seq::new(
                            (i + 1) as nat,
                            |k: int| connection_in_subgraph(list[k]@, subgraph_name@),
                        ));
                    }
                    i += 1;
                }
                proof {
                    assert(connections_are_flat(list.deep_view()));
                    assert(Seq::new(
                        n as nat,
                        |k: int| connection_in_subgraph(list[k]@, subgraph_name@),
                    ) =~= internal_connections(subgraph@, subgraph_name@)->Ok_0);
                }
                flattened_connections.append(&mut renamed);
                proof {
                    assert(flattened_connections.deep_view() =~= start + internal_connections(
                        subgraph@,
                        subgraph_name@,
                    )->Ok_0);
                }
                Ok(())
            },
            None => {
                proof {
                    assert(flattened_connections.deep_view() =~= old(
                        flattened_connections,
                    ).deep_view() + Seq::<GraphConnectionView>::empty());
                }
                Ok(())
            },
        }
    }

    /// Inlines the nodes of a flattened subgraph: each node is copied,
    /// renamed with the name of the subgraph node as a prefix, given the
    /// properties that the subgraph node sets, and appended to
    /// `flattened_nodes`. Where a node fails, nothing is appended.
    pub fn process_extension_nodes_from_subgraph(
        subgraph_node: &GraphNode,
        subgraph: &Graph,
        flattened_nodes: &mut Vec<GraphNode>,
    ) -> (r: Result<(), GraphError>)
        ensures
            match inline_nodes(
                subgraph@.nodes,
                subgraph@.nodes.len(),
                subgraph_node@,
                subgraph@,
            ) {
                Ok(added) => r is Ok && final(flattened_nodes).deep_view() == old(
                    flattened_nodes,
                ).deep_view() + added,
                Err(e) => r is Err && r->Err_0@ == e,
            },
            r is Err ==> *final(flattened_nodes) == *old(flattened_nodes),
    {
        let ghost start = flattened_nodes.deep_view();
        let ghost list = subgraph@.nodes;
        let ghost mut added: Seq<GraphNodeView> = Seq::empty();
        let mut inlined: Vec<GraphNode> = Vec::new();
        proof {
            assert(inlined.deep_view() =~= added);
        }
        let n = subgraph.nodes.len();
        let mut i: usize = 0;
        while i < n
            invariant
                i <= n,
                n == subgraph.nodes.len(),
                list == subgraph@.nodes,
                inline_nodes(list, i as nat, subgraph_node@, subgraph@) == Ok::<
                    Seq<GraphNodeView>,
                    GraphErrorView,
                >(added),
                inlined.deep_view() == added,
            decreases n - i,
        {
            let sub_node = &subgraph.nodes[i];
            proof {
                assert(list[i as int] == sub_node@);
            }
            let mut flattened_node = sub_node.clone();
            flattened_node.name = join_names(subgraph_node.name.as_str(), sub_node.name.as_str());
            let step = Self::apply_subgraph_properties_to_extension(
                &mut flattened_node,
                sub_node,
                subgraph_node,
                subgraph,
            );
            match step {
                Ok(()) => {},
                Err(e) => {
                    proof {
                        lemma_inline_nodes_fails(
                            list,
                            (i + 1) as nat,
                            n as nat,
                            subgraph_node@,
                            subgraph@,
                        );
                    }
                    return Err(e);
                },
            }
            let ghost node = flattened_node@;
            inlined.push(flattened_node);
            proof {
                assert(inlined.deep_view() =~= added.push(node));
                added = added.push(node);
            }
            i += 1;
        }
        flattened_nodes.append(&mut inlined);
        proof {
            assert(flattened_nodes.deep_view() =~= start + added);
        }
        Ok(())
    }

    /// Inlines a loaded subgraph in place of its subgraph node: the subgraph
    /// is flattened first, entered into `subgraph_mappings` under the name
    /// of the node, and its nodes and connections are appended, renamed.
    ///
    /// The ghost result records what the loader gave for each node of the
    /// loaded subgraph.
    fn process_loaded_subgraph<F>(
        subgraph_node: &GraphNode,
        loaded_subgraph: Graph,
        subgraph_loader: &F,
        depth: usize,
        flattened_nodes: &mut Vec<GraphNode>,
        flattened_connections: &mut Vec<GraphConnection>,
        subgraph_mappings: &mut StringHashMap<Graph>,
    ) -> (r: (Result<(), GraphError>, Ghost<Seq<LoadTree>>)) where
        F: Fn(&str) -> Result<Graph, GraphError>,

        requires
            forall|s: &str| call_requires(subgraph_loader, (s,)),
        ensures
            loaded_subgraph@.has_subgraph_node() && depth > 0 ==> loads_agree(
                *subgraph_loader,
                loaded_subgraph@,
                r.1@,
                (depth - 1) as nat,
            ),
            match flatten_loaded(loaded_subgraph@, r.1@, depth as nat) {
                Err(e) => r.0 is Err && r.0->Err_0@ == e,
                Ok(flat) => match inline_subgraph(
                    walk_state(
                        *old(flattened_nodes),
                        *old(flattened_connections),
                        *old(subgraph_mappings),
                    ),
                    subgraph_node@,
                    flat,
                ) {
                    Err(e) => r.0 is Err && r.0->Err_0@ == e,
                    Ok(state) => r.0 is Ok && state == walk_state(
                        *final(flattened_nodes),
                        *final(flattened_connections),
                        *final(subgraph_mappings),
                    ),
                },
            },
        decreases depth, 1nat,
    {
        let ghost start = walk_state(*flattened_nodes, *flattened_connections, *subgraph_mappings);
        let (flattened, children) = Self::flatten_subgraph_recursively(
            loaded_subgraph,
            subgraph_loader,
            depth,
        );
        let flattened_subgraph = match flattened {
            Ok(graph) => graph,
            Err(e) => {
                return (Err(e), children);
            },
        };
        let ghost flat = flattened_subgraph@;
        subgraph_mappings.insert(subgraph_node.name.clone(), flattened_subgraph.clone());
        proof {
            assert(table_view(subgraph_mappings@) =~= start.table.insert(subgraph_node@.name, flat));
        }
        let nodes = Self::process_extension_nodes_from_subgraph(
            subgraph_node,
            &flattened_subgraph,
            flattened_nodes,
        );
        match nodes {
            Ok(()) => {},
            Err(e) => {
                return (Err(e), children);
            },
        }
        let connections = Self::add_internal_connections_from_subgraph(
            &flattened_subgraph,
            subgraph_node.name.as_str(),
            flattened_connections,
        );
        match connections {
            Ok(()) => {},
            Err(e) => {
                return (Err(e), children);
            },
        }
        (Ok(()), children)
    }

    /// Loads the subgraph that a subgraph node names and inlines it in place
    /// of the node. A node that names no source fails before the loader is
    /// called; a failure of the loader is handed on as it is. In both cases
    /// the three collections stay as they were.
    ///
    /// The ghost result records what the loader gave.
    fn process_subgraph_node<F>(
        subgraph_node: &GraphNode,
        subgraph_loader: &F,
        depth: usize,
        flattened_nodes: &mut Vec<GraphNode>,
        flattened_connections: &mut Vec<GraphConnection>,
        subgraph_mappings: &mut StringHashMap<Graph>,
    ) -> (r: (Result<(), GraphError>, Ghost<LoadTree>)) where
        F: Fn(&str) -> Result<Graph, GraphError>,

        requires
            forall|s: &str| call_requires(subgraph_loader, (s,)),
        ensures
            subgraph_node@.source_uri is Some ==> load_agrees(
                *subgraph_loader,
                subgraph_node@,
                r.1@,
                depth as nat,
            ),
            match inline_loaded(
                walk_state(
                    *old(flattened_nodes),
                    *old(flattened_connections),
                    *old(subgraph_mappings),
                ),
                subgraph_node@,
                r.1@,
                depth as nat,
            ) {
                Err(e) => r.0 is Err && r.0->Err_0@ == e,
                Ok(state) => r.0 is Ok && state == walk_state(
                    *final(flattened_nodes),
                    *final(flattened_connections),
                    *final(subgraph_mappings),
                ),
            },
            subgraph_node@.source_uri is None ==> r.0 is Err && r.0->Err_0@
                == err_missing_source_uri(subgraph_node@.name),
            subgraph_node@.source_uri is None || r.1@ is Failed ==> {
                &&& r.0 is Err
                &&& *final(flattened_nodes) == *old(flattened_nodes)
                &&& *final(flattened_connections) == *old(flattened_connections)
                &&& *final(subgraph_mappings) == *old(subgraph_mappings)
            },
            r.1@ is Failed ==> r.0->Err_0 == r.1@->Failed_0,
        decreases depth, 2nat,
    {
        let source_uri = match &subgraph_node.source_uri {
            Some(uri) => uri,
            None => {
                return (
                    Err(GraphError::missing_source_uri(subgraph_node.name.as_str())),
                    Ghost(LoadTree::NotLoaded),
                );
            },
        };
        let locator = source_uri.as_str();
        let loaded = subgraph_loader(locator);
        proof {
            assert(loader_gave(*subgraph_loader, source_uri@, loaded));
        }
        let subgraph = match loaded {
            Ok(graph) => graph,
            Err(e) => {
                let ghost load = LoadTree::Failed(e);
                return (Err(e), Ghost(load));
            },
        };
        let ghost loaded_graph = subgraph;
        let (result, Ghost(children)) = Self::process_loaded_subgraph(
            subgraph_node,
            subgraph,
            subgraph_loader,
            depth,
            flattened_nodes,
            flattened_connections,
            subgraph_mappings,
        );
        (result, Ghost(LoadTree::Loaded(loaded_graph, children)))
    }

    /// Resolves the destinations of every connection of a list.
    fn resolve_expanded_connections(
        expanded_connections: &mut Vec<GraphConnection>,
        subgraph_mappings: &StringHashMap<Graph>,
    ) -> (r: Result<(), GraphError>)
        ensures
            updated(
                r,
                final(expanded_connections).deep_view(),
                resolve_connections(
                    old(expanded_connections).deep_view(),
                    old(expanded_connections).len() as nat,
                    table_view(subgraph_mappings@),
                ),
            ),
    {
        let ghost given = expanded_connections.deep_view();
        let ghost table = table_view(subgraph_mappings@);
        let count = expanded_connections.len();
        let mut k: usize = 0;
        proof {
            assert(expanded_connections.deep_view().take(0) =~= Seq::empty());
        }
        while k < count
            invariant
                k <= count,
                count == expanded_connections.len(),
                count == given.len(),
                given == old(expanded_connections).deep_view(),
                table == table_view(subgraph_mappings@),
                resolve_connections(given, k as nat, table) == Ok::<
                    Seq<GraphConnectionView>,
                    GraphErrorView,
                >(expanded_connections.deep_view().take(k as int)),
                forall|m: int|
                    k <= m < count ==> expanded_connections[m]@ == #[trigger] given[m],
            decreases count - k,
        {
            let ghost done = expanded_connections.deep_view().take(k as int);
            let step = Self::flatten_connection_destinations_for_subgraph(
                &mut expanded_connections[k],
                subgraph_mappings,
            );
            match step {
                Ok(()) => {
                    proof {
                        assert(expanded_connections.deep_view().take(k + 1) =~= done.push(
                            expanded_connections[k as int]@,
                        ));
                    }
                },
                Err(e) => {
                    proof {
                        lemma_resolve_connections_fails(
                            given,
                            (k + 1) as nat,
                            count as nat,
                            table,
                        );
                    }
                    return Err(e);
                },
            }
            k += 1;
        }
        proof {
            assert(expanded_connections.deep_view().take(count as int)
                =~= expanded_connections.deep_view());
        }
        Ok(())
    }

    /// Flattens the connections of a graph, given the flattened subgraphs of
    /// its subgraph nodes, and appends the result to
    /// `flattened_connections`. Where a connection fails, nothing is
    /// appended.
    pub fn process_graph_connections(
        connections: &Vec<GraphConnection>,
        subgraph_mappings: &StringHashMap<Graph>,
        flattened_connections: &mut Vec<GraphConnection>,
    ) -> (r: Result<(), GraphError>)
        ensures
            match flatten_connections(
                connections.deep_view(),
                connections.len() as nat,
                table_view(subgraph_mappings@),
            ) {
                Ok(added) => r is Ok && final(flattened_connections).deep_view() == old(
                    flattened_connections,
                ).deep_view() + added,
                Err(e) => r is Err && r->Err_0@ == e,
            },
            r is Err ==> *final(flattened_connections) == *old(flattened_connections),
    {
        let ghost start = flattened_connections.deep_view();
        let ghost list = connections.deep_view();
        let ghost table = table_view(subgraph_mappings@);
        let ghost mut added: Seq<GraphConnectionView> = Seq::empty();
        let mut gathered: Vec<GraphConnection> = Vec::new();
        proof {
            assert(gathered.deep_view() =~= added);
        }
        let n = connections.len();
        let mut i: usize = 0;
        while i < n
            invariant
                i <= n,
                n == connections.len(),
                list == connections.deep_view(),
                table == table_view(subgraph_mappings@),
                flatten_connections(list, i as nat, table) == Ok::<
                    Seq<GraphConnectionView>,
                    GraphErrorView,
                >(added),
                gathered.deep_view() == added,
            decreases n - i,
        {
            proof {
                assert(list[i as int] == connections[i as int]@);
            }
            let expanded = Self::flatten_connection_source_for_subgraph(
                &connections[i],
                subgraph_mappings,
            );
            let mut expanded_connections = match expanded {
                Ok(list) => list,
                Err(e) => {
                    proof {
                        lemma_flatten_connections_fails(list, (i + 1) as nat, n as nat, table);
                    }
                    return Err(e);
                },
            };
            let step = Self::resolve_expanded_connections(
                &mut expanded_connections,
                subgraph_mappings,
            );
            match step {
                Ok(()) => {},
                Err(e) => {
                    proof {
                        lemma_flatten_connections_fails(list, (i + 1) as nat, n as nat, table);
                    }
                    return Err(e);
                },
            }
            let ghost resolved = expanded_connections.deep_view();
            gathered.append(&mut expanded_connections);
            proof {
                assert(gathered.deep_view() =~= added + resolved);
                added = added + resolved;
            }
            i += 1;
        }
        flattened_connections.append(&mut gathered);
        proof {
            assert(flattened_connections.deep_view() =~= start + added);
        }
        Ok(())
    }

    /// Flattens the nodes and the connections of a graph into the three
    /// collections, which are empty at the start: every node is walked in
    /// order, then the graph's own connections are flattened.
    ///
    /// The ghost result records what the loader gave for each node.
    #[verifier::rlimit(40)]
    fn flatten_graph_internal<F>(
        graph: &Graph,
        subgraph_loader: &F,
        depth: usize,
        flattened_nodes: &mut Vec<GraphNode>,
        flattened_connections: &mut Vec<GraphConnection>,
        subgraph_mappings: &mut StringHashMap<Graph>,
    ) -> (r: (Result<(), GraphError>, Ghost<Seq<LoadTree>>)) where
        F: Fn(&str) -> Result<Graph, GraphError>,

        requires
            forall|s: &str| call_requires(subgraph_loader, (s,)),
            old(flattened_nodes).len() == 0,
            old(flattened_connections).len() == 0,
            old(subgraph_mappings)@ == Map::<Seq<char>, Graph>::empty(),
        ensures
            loads_agree(*subgraph_loader, graph@, r.1@, depth as nat),
            match flatten_parts(graph@, r.1@, depth as nat) {
                Err(e) => r.0 is Err && r.0->Err_0@ == e,
                Ok(parts) => r.0 is Ok && parts == walk_state(
                    *final(flattened_nodes),
                    *final(flattened_connections),
                    *final(subgraph_mappings),
                ),
            },
        decreases depth, 3nat,
    {
        let n = graph.nodes.len();
        let ghost g = graph@;
        let ghost level = depth as nat;
        let ghost mut loads: Seq<LoadTree> = Seq::new(n as nat, |k: int| LoadTree::NotLoaded);
        proof {
            let state = walk_state(*flattened_nodes, *flattened_connections, *subgraph_mappings);
            assert(state.nodes =~= Seq::empty());
            assert(state.connections =~= Seq::empty());
            assert(state.table =~= Map::empty());
        }
        let mut i: usize = 0;
        while i < n
            invariant
                i <= n,
                n == graph.nodes.len(),
                g == graph@,
                level == depth as nat,
                loads.len() == n,
                forall|s: &str| call_requires(subgraph_loader, (s,)),
                walk(g, loads, level, i as nat) == Ok::<Inlined, GraphErrorView>(
                    walk_state(*flattened_nodes, *flattened_connections, *subgraph_mappings),
                ),
                forall|k: int|
                    0 <= k < i && is_loaded_at(g, loads, level, k) ==> load_agrees(
                        *subgraph_loader,
                        g.nodes[k],
                        #[trigger] loads[k],
                        level,
                    ),
            decreases n - i,
        {
            let node = &graph.nodes[i];
            let ghost state = walk_state(*flattened_nodes, *flattened_connections, *subgraph_mappings);
            proof {
                assert(g.nodes[i as int] == node@);
            }
            match node.type_ {
                GraphNodeType::Extension => {
                    let copy = node.clone();
                    flattened_nodes.push(copy);
                    proof {
                        assert(flattened_nodes.deep_view() =~= state.nodes.push(node@));
                        assert(walk_step(state, node@, loads[i as int], level) == Ok::<
                            Inlined,
                            GraphErrorView,
                        >(
                            walk_state(
                                *flattened_nodes,
                                *flattened_connections,
                                *subgraph_mappings,
                            ),
                        ));
                        assert(walk(g, loads, level, (i + 1) as nat) == walk_step(
                            state,
                            node@,
                            loads[i as int],
                            level,
                        ));
                    }
                },
                GraphNodeType::Subgraph => {
                    let (result, Ghost(load)) = Self::process_subgraph_node(
                        node,
                        subgraph_loader,
                        depth,
                        flattened_nodes,
                        flattened_connections,
                        subgraph_mappings,
                    );
                    proof {
                        let next = loads.update(i as int, load);
                        assert forall|k: nat| k <= i implies #[trigger] walk(g, next, level, k)
                            == walk(g, loads, level, k) by {
                            lemma_walk_prefix(g, next, loads, level, k);
                        }
                        assert forall|k: int|
                            0 <= k < i + 1 && is_loaded_at(g, next, level, k) implies load_agrees(
                            *subgraph_loader,
                            g.nodes[k],
                            #[trigger] next[k],
                            level,
                        ) by {
                            if k < i {
                                assert(is_loaded_at(g, loads, level, k));
                                assert(next[k] == loads[k]);
                            }
                        }
                        loads = next;
                        assert(walk(g, loads, level, i as nat) == Ok::<Inlined, GraphErrorView>(
                            state,
                        ));
                        assert(loads[i as int] == load);
                        assert(walk(g, loads, level, (i + 1) as nat) == walk_step(
                            state,
                            node@,
                            load,
                            level,
                        ));
                        assert(walk_step(state, node@, load, level) == inline_loaded(
                            state,
                            node@,
                            load,
                            level,
                        ));
                    }
                    match result {
                        Ok(()) => {},
                        Err(e) => {
                            proof {
                                lemma_walk_fails(g, loads, level, (i + 1) as nat, n as nat);
                                assert forall|k: int|
                                    0 <= k < n && is_loaded_at(
                                        g,
                                        loads,
                                        level,
                                        k,
                                    ) implies load_agrees(
                                    *subgraph_loader,
                                    g.nodes[k],
                                    #[trigger] loads[k],
                                    level,
                                ) by {
                                    if k > i {
                                        lemma_walk_fails(g, loads, level, (i + 1) as nat, k as nat);
                                    }
                                }
                            }
                            return (Err(e), Ghost(loads));
                        },
                    }
                },
            }
            i += 1;
        }
        if let Some(connections) = &graph.connections {
            let step = Self::process_graph_connections(
                connections,
                subgraph_mappings,
                flattened_connections,
            );
            match step {
                Ok(()) => {},
                Err(e) => {
                    return (Err(e), Ghost(loads));
                },
            }
        }
        (Ok(()), Ghost(loads))
    }

    /// Flattens the graph: every subgraph node is replaced by the nodes and
    /// connections of the graph that `subgraph_loader` gives for its source,
    /// itself flattened first, and every connection is rewritten to run
    /// between extensions. The graph itself is left as it is.
    ///
    /// The result is the flattened form of the graph for what the loader
    /// gave when it was called: a failure of the loader, a subgraph node
    /// without a source, a reference that cannot be resolved, or nesting
    /// beyond [`MAX_SUBGRAPH_DEPTH`] levels fails the whole call.
    pub fn flatten<F>(&self, subgraph_loader: F) -> (r: Result<Graph, GraphError>) where
        F: Fn(&str) -> Result<Graph, GraphError>,

        requires
            forall|s: &str| call_requires(subgraph_loader, (s,)),
        ensures
            exists|loads: Seq<LoadTree>|
                loads_agree(subgraph_loader, self@, loads, MAX_SUBGRAPH_DEPTH as nat) && outcome(r)
                    == flatten_graph(self@, loads, MAX_SUBGRAPH_DEPTH as nat),
            r is Ok ==> r->Ok_0@.is_extension_only() && !r->Ok_0@.has_subgraph_node(),
            r is Ok ==> r->Ok_0@.exposed_messages is None && r->Ok_0@.exposed_properties is None,
            r is Ok && r->Ok_0@.connections is Some ==> connections_are_flat(
                r->Ok_0@.connections->Some_0,
            ),
            !self@.has_subgraph_node() && connections_are_plain(self@.connections) ==> outcome(r)
                == Ok::<GraphView, GraphErrorView>(without_exposed(self@)),
    {
        let mut flattened_nodes: Vec<GraphNode> = Vec::new();
        let mut flattened_connections: Vec<GraphConnection> = Vec::new();
        let mut subgraph_mappings: StringHashMap<Graph> = StringHashMap::new();
        let (result, Ghost(loads)) = Self::flatten_graph_internal(
            self,
            &subgraph_loader,
            MAX_SUBGRAPH_DEPTH,
            &mut flattened_nodes,
            &mut flattened_connections,
            &mut subgraph_mappings,
        );
        match result {
            Ok(()) => {},
            Err(e) => {
                proof {
                    assert(loads_agree(subgraph_loader, self@, loads, MAX_SUBGRAPH_DEPTH as nat));
                    assert(Err::<GraphView, GraphErrorView>(e@) == flatten_graph(
                        self@,
                        loads,
                        MAX_SUBGRAPH_DEPTH as nat,
                    ));
                    if !self@.has_subgraph_node() && connections_are_plain(self@.connections) {
                        law_flatten_without_subgraphs(self@, loads, MAX_SUBGRAPH_DEPTH as nat);
                    }
                }
                return Err(e);
            },
        }
        let connections = if flattened_connections.is_empty() {
            None
        } else {
            Some(flattened_connections)
        };
        let flattened = Graph {
            nodes: flattened_nodes,
            connections,
            exposed_messages: None,
            exposed_properties: None,
        };
        proof {
            assert(loads_agree(subgraph_loader, self@, loads, MAX_SUBGRAPH_DEPTH as nat));
            assert(Ok::<GraphView, GraphErrorView>(flattened@) == flatten_graph(
                self@,
                loads,
                MAX_SUBGRAPH_DEPTH as nat,
            ));
            law_flatten_extension_only(self@, loads, MAX_SUBGRAPH_DEPTH as nat);
            law_flatten_addresses_extensions(self@, loads, MAX_SUBGRAPH_DEPTH as nat);
            if !self@.has_subgraph_node() && connections_are_plain(self@.connections) {
                law_flatten_without_subgraphs(self@, loads, MAX_SUBGRAPH_DEPTH as nat);
            }
        }
        Ok(flattened)
    }

    /// Whether the graph holds a subgraph node.
    pub fn has_subgraph_nodes(&self) -> (r: bool)
        ensures
            r == self@.has_subgraph_node(),
    {
        let mut i: usize = 0;
        while i < self.nodes.len()
            invariant
                i <= self.nodes.len(),
                forall|j: int|
                    0 <= j < i ==> (#[trigger] self@.nodes[j]).type_ != GraphNodeType::Subgraph,
            decreases self.nodes.len() - i,
        {
            if self.nodes[i].type_ == GraphNodeType::Subgraph {
                proof {
                    assert(self@.nodes[i as int] == self.nodes[i as int]@);
                }
                return true;
            }
            proof {
                assert(self@.nodes[i as int] == self.nodes[i as int]@);
            }
            i += 1;
        }
        false
    }

    /// Traces the exposed messages of a graph whose subgraphs have been
    /// inlined: a message of an inlined subgraph is replaced by one entry
    /// for each extension inside that subgraph that the subgraph exposes
    /// for it; any other message is kept.
    pub fn update_exposed_messages(
        exposed_messages: &Option<Vec<GraphExposedMessage>>,
        subgraph_mappings: &StringHashMap<Graph>,
    ) -> (r: Option<Vec<GraphExposedMessage>>)
        ensures
            r.deep_view() == reprojected(
                exposed_messages.deep_view(),
                table_view(subgraph_mappings@),
            ),
    {
        let list = match exposed_messages {
            Some(list) => list,
            None => {
                return None;
            },
        };
        let ghost table = table_view(subgraph_mappings@);
        let mut updated: Vec<GraphExposedMessage> = Vec::new();
        let n = list.len();
        let mut i: usize = 0;
        while i < n
            invariant
                i <= n,
                n == list.len(),
                table == table_view(subgraph_mappings@),
                updated.deep_view() == reproject_all(list.deep_view(), i as nat, table),
            decreases n - i,
        {
            let exposed = &list[i];
            let ghost before = updated.deep_view();
            proof {
                assert(list.deep_view()[i as int] == exposed@);
            }
            let inlined = match &exposed.extension {
                Some(extension_name) => match subgraph_mappings.get(extension_name.as_str()) {
                    Some(flattened_subgraph) => Some((extension_name, flattened_subgraph)),
                    None => None,
                },
                None => None,
            };
            match inlined {
                Some((extension_name, flattened_subgraph)) => {
                    match &flattened_subgraph.exposed_messages {
                        Some(nested) => {
                            let m = nested.len();
                            let mut j: usize = 0;
                            proof {
                                assert(before + Seq::<GraphExposedMessageView>::empty()
                                    =~= before);
                            }
                            while j < m
                                invariant
                                    j <= m,
                                    m == nested.len(),
                                    updated.deep_view() == before + matching_exposed(
                                        nested.deep_view(),
                                        j as nat,
                                        exposed@,
                                        extension_name@,
                                    ),
                                decreases m - j,
                            {
                                let candidate = &nested[j];
                                let ghost so_far = updated.deep_view();
                                proof {
                                    assert(nested.deep_view()[j as int] == candidate@);
                                }
                                if candidate.msg_type == exposed.msg_type && str_eq(
                                    candidate.name.as_str(),
                                    exposed.name.as_str(),
                                ) {
                                    if let Some(ref nested_extension) = candidate.extension {
                                        let mut new_exposed = exposed.clone();
                                        new_exposed.extension = Some(
                                            join_names(
                                                extension_name.as_str(),
                                                nested_extension.as_str(),
                                            ),
                                        );
                                        let ghost entry = new_exposed@;
                                        updated.push(new_exposed);
                                        proof {
                                            assert(updated.deep_view() =~= so_far.push(entry));
                                            assert(so_far.push(entry) =~= before
                                                + matching_exposed(
                                                nested.deep_view(),
                                                (j + 1) as nat,
                                                exposed@,
                                                extension_name@,
                                            ));
                                        }
                                    }
                                }
                                j += 1;
                            }
                        },
                        None => {
                            proof {
                                assert(before + Seq::<GraphExposedMessageView>::empty()
                                    =~= before);
                            }
                        },
                    }
                },
                None => {
                    let kept = exposed.clone();
                    updated.push(kept);
                    proof {
                        assert(updated.deep_view() =~= before + seq![exposed@]);
                    }
                },
            }
            i += 1;
        }
        if updated.is_empty() {
            None
        } else {
            Some(updated)
        }
    }

    /// Flattens a loaded subgraph before it is inlined. A subgraph without
    /// subgraph nodes is returned as it is. Any other is flattened like a
    /// graph, with one level of nesting less to go; it keeps those of its
    /// exposed messages that can be traced to extensions and loses its
    /// exposed properties.
    ///
    /// The ghost result records what the loader gave for each node.
    fn flatten_subgraph_recursively<F>(subgraph: Graph, subgraph_loader: &F, depth: usize) -> (r: (
        Result<Graph, GraphError>,
        Ghost<Seq<LoadTree>>,
    )) where F: Fn(&str) -> Result<Graph, GraphError>
        requires
            forall|s: &str| call_requires(subgraph_loader, (s,)),
        ensures
            subgraph@.has_subgraph_node() && depth > 0 ==> loads_agree(
                *subgraph_loader,
                subgraph@,
                r.1@,
                (depth - 1) as nat,
            ),
            outcome(r.0) == flatten_loaded(subgraph@, r.1@, depth as nat),
        decreases depth, 0nat,
    {
        if !subgraph.has_subgraph_nodes() {
            return (Ok(subgraph), Ghost(Seq::empty()));
        }
        if depth == 0 {
            return (Err(GraphError::nesting_too_deep()), Ghost(Seq::empty()));
        }
        let mut flattened_nodes: Vec<GraphNode> = Vec::new();
        let mut flattened_connections: Vec<GraphConnection> = Vec::new();
        let mut subgraph_mappings: StringHashMap<Graph> = StringHashMap::new();
        let (result, loads) = Self::flatten_graph_internal(
            &subgraph,
            subgraph_loader,
            depth - 1,
            &mut flattened_nodes,
            &mut flattened_connections,
            &mut subgraph_mappings,
        );
        match result {
            Ok(()) => {},
            Err(e) => {
                return (Err(e), loads);
            },
        }
        let updated_exposed_messages = Self::update_exposed_messages(
            &subgraph.exposed_messages,
            &subgraph_mappings,
        );
        let connections = if flattened_connections.is_empty() {
            None
        } else {
            Some(flattened_connections)
        };
        (
            Ok(
                Graph {
                    nodes: flattened_nodes,
                    connections,
                    exposed_messages: updated_exposed_messages,
                    exposed_properties: None,
                },
            ),
            loads,
        )
    }
}

} // verus!

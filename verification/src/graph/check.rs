//! Validation: whether the references of a graph hold.

use vstd::prelude::*;
use crate::graph::{Graph, GraphView};
use crate::graph::check_model::{
    AppPackagesView,
    check_connection,
    check_connections,
    check_destinations,
    check_flows,
    check_loc,
    check_node,
    check_nodes,
    check_optional_flows,
    check_references,
    connection_queries,
    connections_queries,
    declares,
    destination_queries,
    flow_queries,
    is_asked,
    is_installed,
    optional_flow_queries,
    PackageCatalogueView,
    schema_queries,
    SchemaQuery,
    scope_of,
};
use crate::graph::connection::{
    GraphConnection,
    GraphConnectionView,
    GraphDestinationView,
    GraphLoc,
    GraphLocView,
    GraphMessageFlow,
    GraphMessageFlowView,
    MessageKind,
};
use crate::graph::error::{GraphError, GraphErrorView};
use crate::graph::node::{GraphNode, GraphNodeType, GraphNodeView};
use crate::text::{find_separator, lemma_sole_separator_unique, separator_index, str_eq};

verus! {

/// The extension addons that are installed in one app.
#[derive(Debug, PartialEq)]
pub struct AppPackages {
    pub app: String,
    pub extension_addons: Vec<String>,
}

impl View for AppPackages {
    type V = AppPackagesView;

    open spec fn view(&self) -> AppPackagesView {
        AppPackagesView { app: self.app@, extension_addons: self.extension_addons.deep_view() }
    }
}

impl DeepView for AppPackages {
    type V = AppPackagesView;

    open spec fn deep_view(&self) -> AppPackagesView {
        self@
    }
}

/// What is installed, by app, and the addons that need no installation.
#[derive(Debug, PartialEq)]
pub struct PackageCatalogue {
    pub apps: Vec<AppPackages>,
    pub builtin_addons: Vec<String>,
}

impl View for PackageCatalogue {
    type V = PackageCatalogueView;

    open spec fn view(&self) -> PackageCatalogueView {
        PackageCatalogueView {
            apps: self.apps.deep_view(),
            builtin_addons: self.builtin_addons.deep_view(),
        }
    }
}

/// Whether a check has returned what `expected` says.
pub open spec fn verdict(result: Result<(), GraphError>, expected: Result<(), GraphErrorView>) -> bool {
    match expected {
        Ok(_) => result is Ok,
        Err(e) => result is Err && result->Err_0@ == e,
    }
}

/// Whether the schema arbiter, asked `query`, may give `result`.
pub open spec fn arbiter_gave<F: Fn(&GraphLoc, MessageKind, &str, &GraphLoc) -> Result<(), GraphError>>(
    arbiter: F,
    query: SchemaQuery,
    result: Result<(), GraphError>,
) -> bool {
    exists|source: GraphLoc, flow: &str, dest: GraphLoc|
        source@ == query.source && flow@ == query.flow && dest@ == query.dest && call_ensures(
            arbiter,
            (&source, query.kind, flow, &dest),
            result,
        )
}

/// Whether `result` is what asking the schema arbiter the `queries` in order
/// comes to: success where it accepted them all, else the failure that it
/// gave for the first query it refused.
pub open spec fn schema_outcome<F: Fn(&GraphLoc, MessageKind, &str, &GraphLoc) -> Result<(), GraphError>>(
    arbiter: F,
    queries: Seq<SchemaQuery>,
    result: Result<(), GraphError>,
) -> bool {
    match result {
        Ok(_) => forall|i: int|
            0 <= i < queries.len() ==> arbiter_gave(arbiter, #[trigger] queries[i], Ok(())),
        Err(e) => exists|i: int|
            0 <= i < queries.len() && arbiter_gave(arbiter, #[trigger] queries[i], Err(e))
                && forall|j: int|
                0 <= j < i ==> arbiter_gave(arbiter, #[trigger] queries[j], Ok(())),
    }
}

/// Whether `result` is what validating a graph comes to: the failure of the
/// first reference that does not hold, else that of the first addon that
/// cannot be resolved, else what the schema arbiter gave.
pub open spec fn validated<F: Fn(&GraphLoc, MessageKind, &str, &GraphLoc) -> Result<(), GraphError>>(
    graph: GraphView,
    graph_app: Option<Seq<char>>,
    catalogue: PackageCatalogueView,
    single_app: bool,
    arbiter: F,
    result: Result<(), GraphError>,
) -> bool {
    match check_references(graph) {
        Err(e) => result is Err && result->Err_0@ == e,
        Ok(_) => match check_nodes(graph.nodes, graph.nodes.len(), graph_app, catalogue, single_app) {
            Err(e) => result is Err && result->Err_0@ == e,
            Ok(_) => schema_outcome(
                arbiter,
                schema_queries(graph, graph_app, single_app),
                result,
            ),
        },
    }
}

proof fn lemma_check_destinations_fails(
    nodes: Seq<GraphNodeView>,
    dests: Seq<GraphDestinationView>,
    j: nat,
    n: nat,
)
    requires
        j <= n,
        check_destinations(nodes, dests, j) is Err,
    ensures
        check_destinations(nodes, dests, n) == check_destinations(nodes, dests, j),
    decreases n - j,
{
    if j < n {
        lemma_check_destinations_fails(nodes, dests, j, (n - 1) as nat);
    }
}

proof fn lemma_check_flows_fails(
    nodes: Seq<GraphNodeView>,
    flows: Seq<GraphMessageFlowView>,
    j: nat,
    n: nat,
)
    requires
        j <= n,
        check_flows(nodes, flows, j) is Err,
    ensures
        check_flows(nodes, flows, n) == check_flows(nodes, flows, j),
    decreases n - j,
{
    if j < n {
        lemma_check_flows_fails(nodes, flows, j, (n - 1) as nat);
    }
}

proof fn lemma_check_connections_fails(
    nodes: Seq<GraphNodeView>,
    connections: Seq<GraphConnectionView>,
    j: nat,
    n: nat,
)
    requires
        j <= n,
        check_connections(nodes, connections, j) is Err,
    ensures
        check_connections(nodes, connections, n) == check_connections(nodes, connections, j),
    decreases n - j,
{
    if j < n {
        lemma_check_connections_fails(nodes, connections, j, (n - 1) as nat);
    }
}

proof fn lemma_check_nodes_fails(
    nodes: Seq<GraphNodeView>,
    j: nat,
    n: nat,
    graph_app: Option<Seq<char>>,
    catalogue: PackageCatalogueView,
    single_app: bool,
)
    requires
        j <= n,
        check_nodes(nodes, j, graph_app, catalogue, single_app) is Err,
    ensures
        check_nodes(nodes, n, graph_app, catalogue, single_app) == check_nodes(
            nodes,
            j,
            graph_app,
            catalogue,
            single_app,
        ),
    decreases n - j,
{
    if j < n {
        lemma_check_nodes_fails(nodes, j, (n - 1) as nat, graph_app, catalogue, single_app);
    }
}

/// Asking more queries after all of `first` were accepted comes to what
/// asking the further queries comes to.
proof fn lemma_schema_outcome_append<F: Fn(&GraphLoc, MessageKind, &str, &GraphLoc) -> Result<(), GraphError>>(
    arbiter: F,
    first: Seq<SchemaQuery>,
    second: Seq<SchemaQuery>,
    result: Result<(), GraphError>,
)
    requires
        schema_outcome(arbiter, first, Ok(())),
        schema_outcome(arbiter, second, result),
    ensures
        schema_outcome(arbiter, first + second, result),
{
    let all = first + second;
    match result {
        Ok(_) => {
            assert forall|i: int| 0 <= i < all.len() implies arbiter_gave(
                arbiter,
                #[trigger] all[i],
                Ok(()),
            ) by {
                if i < first.len() {
                    assert(all[i] == first[i]);
                } else {
                    assert(all[i] == second[i - first.len()]);
                }
            }
        },
        Err(e) => {
            let at = choose|i: int|
                0 <= i < second.len() && arbiter_gave(arbiter, #[trigger] second[i], Err(e))
                    && forall|j: int|
                    0 <= j < i ==> arbiter_gave(arbiter, #[trigger] second[j], Ok(()));
            let i = first.len() + at;
            assert(all[i] == second[at]);
            assert forall|j: int| 0 <= j < i implies arbiter_gave(
                arbiter,
                #[trigger] all[j],
                Ok(()),
            ) by {
                if j < first.len() {
                    assert(all[j] == first[j]);
                } else {
                    assert(all[j] == second[j - first.len()]);
                }
            }
            assert(0 <= i < all.len() && arbiter_gave(arbiter, all[i], Err(e)));
        },
    }
}

/// A failure among the first queries is a failure of the whole list.
proof fn lemma_schema_outcome_extend<F: Fn(&GraphLoc, MessageKind, &str, &GraphLoc) -> Result<(), GraphError>>(
    arbiter: F,
    first: Seq<SchemaQuery>,
    second: Seq<SchemaQuery>,
    result: Result<(), GraphError>,
)
    requires
        result is Err,
        schema_outcome(arbiter, first, result),
    ensures
        schema_outcome(arbiter, first + second, result),
{
    let all = first + second;
    let e = result->Err_0;
    let at = choose|i: int|
        0 <= i < first.len() && arbiter_gave(arbiter, #[trigger] first[i], Err(e)) && forall|
            j: int,
        |
            0 <= j < i ==> arbiter_gave(arbiter, #[trigger] first[j], Ok(()));
    assert(all[at] == first[at]);
    assert forall|j: int| 0 <= j < at implies arbiter_gave(arbiter, #[trigger] all[j], Ok(())) by {
        assert(all[j] == first[j]);
    }
    assert(0 <= at < all.len() && arbiter_gave(arbiter, all[at], Err(e)));
}

/// Whether two optional strings hold the same.
fn same_text(a: &Option<String>, b: &Option<String>) -> (r: bool)
    ensures
        r == (a.deep_view() == b.deep_view()),
{
    match (a, b) {
        (Some(x), Some(y)) => str_eq(x.as_str(), y.as_str()),
        (None, None) => true,
        _ => false,
    }
}

/// The app that a node or location belongs to.
fn scope<'a>(app: &'a Option<String>, graph_app: &'a Option<String>) -> (r: &'a Option<String>)
    ensures
        r.deep_view() == scope_of(app.deep_view(), graph_app.deep_view()),
{
    match app {
        Some(_) => app,
        None => graph_app,
    }
}

/// Whether `name` is in the list.
fn lists(names: &Vec<String>, name: &str) -> (r: bool)
    ensures
        r == names.deep_view().contains(name@),
{
    let mut i: usize = 0;
    while i < names.len()
        invariant
            i <= names.len(),
            forall|j: int| 0 <= j < i ==> names.deep_view()[j] != name@,
        decreases names.len() - i,
    {
        if str_eq(names[i].as_str(), name) {
            proof {
                assert(names.deep_view()[i as int] == name@);
            }
            return true;
        }
        i += 1;
    }
    false
}

impl PackageCatalogue {
    /// Whether the extension addon is installed in the app.
    pub fn is_installed(&self, app: &str, addon: &str) -> (r: bool)
        ensures
            r == is_installed(self@, app@, addon@),
    {
        let mut i: usize = 0;
        while i < self.apps.len()
            invariant
                i <= self.apps.len(),
                forall|j: int|
                    0 <= j < i ==> !((#[trigger] self@.apps[j]).app == app@
                        && self@.apps[j].extension_addons.contains(addon@)),
            decreases self.apps.len() - i,
        {
            proof {
                assert(self@.apps[i as int] == self.apps[i as int]@);
            }
            if str_eq(self.apps[i].app.as_str(), app) && lists(&self.apps[i].extension_addons, addon) {
                return true;
            }
            i += 1;
        }
        false
    }
}

impl Graph {
    /// Whether a node of the given type and name is among the nodes.
    pub fn declares_node(&self, type_: GraphNodeType, name: &str) -> (r: bool)
        ensures
            r == declares(self@.nodes, type_, name@),
    {
        let mut i: usize = 0;
        while i < self.nodes.len()
            invariant
                i <= self.nodes.len(),
                forall|j: int|
                    0 <= j < i ==> !((#[trigger] self@.nodes[j]).type_ == type_
                        && self@.nodes[j].name == name@),
            decreases self.nodes.len() - i,
        {
            proof {
                assert(self@.nodes[i as int] == self.nodes[i as int]@);
            }
            if self.nodes[i].type_ == type_ && str_eq(self.nodes[i].name.as_str(), name) {
                return true;
            }
            i += 1;
        }
        false
    }

    /// Whether a location refers to a node of the graph.
    pub fn check_loc_reference(&self, loc: &GraphLoc) -> (r: Result<(), GraphError>)
        ensures
            verdict(r, check_loc(self@.nodes, loc@)),
    {
        match &loc.subgraph {
            Some(subgraph) => {
                if self.declares_node(GraphNodeType::Subgraph, subgraph.as_str()) {
                    Ok(())
                } else {
                    Err(GraphError::subgraph_not_defined(subgraph.as_str()))
                }
            },
            None => match &loc.extension {
                None => Ok(()),
                Some(extension) => {
                    let s = extension.as_str();
                    match find_separator(s) {
                        Some(at) => {
                            let owner = s.substring_char(0, at);
                            proof {
                                lemma_sole_separator_unique(s@, at as int, separator_index(s@));
                                assert(owner@ =~= s@.take(at as int));
                            }
                            if self.declares_node(GraphNodeType::Subgraph, owner) {
                                Ok(())
                            } else {
                                Err(GraphError::subgraph_not_defined(owner))
                            }
                        },
                        None => {
                            if self.declares_node(GraphNodeType::Extension, s) {
                                Ok(())
                            } else {
                                Err(GraphError::extension_not_defined(s))
                            }
                        },
                    }
                },
            },
        }
    }

    /// Whether the destinations of a list of flows refer to nodes of the
    /// graph.
    fn check_flow_references(&self, flows: &Option<Vec<GraphMessageFlow>>) -> (r: Result<
        (),
        GraphError,
    >)
        ensures
            verdict(r, check_optional_flows(self@.nodes, flows.deep_view())),
    {
        let list = match flows {
            Some(list) => list,
            None => {
                return Ok(());
            },
        };
        let ghost nodes = self@.nodes;
        let n = list.len();
        let mut i: usize = 0;
        while i < n
            invariant
                i <= n,
                n == list.len(),
                nodes == self@.nodes,
                flows.deep_view() == Some(list.deep_view()),
                check_flows(nodes, list.deep_view(), i as nat) is Ok,
            decreases n - i,
        {
            let flow = &list[i];
            proof {
                assert(list.deep_view()[i as int] == flow@);
            }
            let m = flow.dest.len();
            let mut j: usize = 0;
            while j < m
                invariant
                    j <= m,
                    m == flow.dest.len(),
                    i < n,
                    n == list.len(),
                    nodes == self@.nodes,
                    flows.deep_view() == Some(list.deep_view()),
                    list.deep_view()[i as int] == flow@,
                    check_flows(nodes, list.deep_view(), i as nat) is Ok,
                    check_destinations(nodes, flow@.dest, j as nat) is Ok,
                decreases m - j,
            {
                proof {
                    assert(flow@.dest[j as int] == flow.dest[j as int]@);
                }
                match self.check_loc_reference(&flow.dest[j].loc) {
                    Ok(()) => {},
                    Err(e) => {
                        proof {
                            lemma_check_destinations_fails(
                                nodes,
                                flow@.dest,
                                (j + 1) as nat,
                                m as nat,
                            );
                            lemma_check_flows_fails(
                                nodes,
                                list.deep_view(),
                                (i + 1) as nat,
                                n as nat,
                            );
                        }
                        return Err(e);
                    },
                }
                j += 1;
            }
            i += 1;
        }
        Ok(())
    }

    /// Whether the source and the destinations of a connection refer to
    /// nodes of the graph.
    pub fn check_connection_references(&self, connection: &GraphConnection) -> (r: Result<
        (),
        GraphError,
    >)
        ensures
            verdict(r, check_connection(self@.nodes, connection@)),
    {
        self.check_loc_reference(&connection.loc)?;
        self.check_flow_references(&connection.cmd)?;
        self.check_flow_references(&connection.data)?;
        self.check_flow_references(&connection.audio_frame)?;
        self.check_flow_references(&connection.video_frame)?;
        Ok(())
    }

    /// Whether every location in the connections of the graph refers to a
    /// node of the graph: a subgraph that is named must be a subgraph node,
    /// an extension an extension node, and the owner in a shorthand
    /// `owner:member` a subgraph node.
    pub fn check_references(&self) -> (r: Result<(), GraphError>)
        ensures
            verdict(r, check_references(self@)),
    {
        let list = match &self.connections {
            Some(list) => list,
            None => {
                return Ok(());
            },
        };
        let n = list.len();
        let mut i: usize = 0;
        while i < n
            invariant
                i <= n,
                n == list.len(),
                self@.connections == Some(list.deep_view()),
                check_connections(self@.nodes, list.deep_view(), i as nat) is Ok,
            decreases n - i,
        {
            proof {
                assert(list.deep_view()[i as int] == list[i as int]@);
            }
            match self.check_connection_references(&list[i]) {
                Ok(()) => {},
                Err(e) => {
                    proof {
                        lemma_check_connections_fails(
                            self@.nodes,
                            list.deep_view(),
                            (i + 1) as nat,
                            n as nat,
                        );
                    }
                    return Err(e);
                },
            }
            i += 1;
        }
        Ok(())
    }

    /// Whether the addon of a node can be resolved.
    pub fn check_node_installation(
        node: &GraphNode,
        app_scope: &Option<String>,
        catalogue: &PackageCatalogue,
        single_app: bool,
    ) -> (r: Result<(), GraphError>)
        ensures
            verdict(r, check_node(node@, app_scope.deep_view(), catalogue@, single_app)),
    {
        if node.type_ != GraphNodeType::Extension {
            return Ok(());
        }
        let node_app = scope(&node.app, app_scope);
        if single_app && !same_text(node_app, app_scope) {
            return Ok(());
        }
        let addon = match &node.addon {
            Some(addon) => addon,
            None => {
                return Err(GraphError::missing_addon(node.name.as_str()));
            },
        };
        if lists(&catalogue.builtin_addons, addon.as_str()) {
            return Ok(());
        }
        let installed = match node_app {
            Some(app) => catalogue.is_installed(app.as_str(), addon.as_str()),
            None => false,
        };
        if installed {
            Ok(())
        } else {
            Err(GraphError::addon_not_installed(addon.as_str(), node.name.as_str()))
        }
    }

    /// Whether the addon of every extension node is built in or installed in
    /// the app of the node. Where `single_app` is set, only the extensions of
    /// the app `app_scope` are looked at.
    pub fn check_nodes_installation(
        &self,
        app_scope: &Option<String>,
        catalogue: &PackageCatalogue,
        single_app: bool,
    ) -> (r: Result<(), GraphError>)
        ensures
            verdict(
                r,
                check_nodes(
                    self@.nodes,
                    self@.nodes.len(),
                    app_scope.deep_view(),
                    catalogue@,
                    single_app,
                ),
            ),
    {
        let n = self.nodes.len();
        let mut i: usize = 0;
        while i < n
            invariant
                i <= n,
                n == self.nodes.len(),
                check_nodes(
                    self@.nodes,
                    i as nat,
                    app_scope.deep_view(),
                    catalogue@,
                    single_app,
                ) is Ok,
            decreases n - i,
        {
            proof {
                assert(self@.nodes[i as int] == self.nodes[i as int]@);
            }
            match Self::check_node_installation(&self.nodes[i], app_scope, catalogue, single_app) {
                Ok(()) => {},
                Err(e) => {
                    proof {
                        lemma_check_nodes_fails(
                            self@.nodes,
                            (i + 1) as nat,
                            n as nat,
                            app_scope.deep_view(),
                            catalogue@,
                            single_app,
                        );
                    }
                    return Err(e);
                },
            }
            i += 1;
        }
        Ok(())
    }

    /// Asks the schema arbiter about every destination of one flow.
    fn check_flow_compatibility<F>(
        source: &GraphLoc,
        kind: MessageKind,
        flow: &GraphMessageFlow,
        app_scope: &Option<String>,
        single_app: bool,
        schema_arbiter: &F,
    ) -> (r: Result<(), GraphError>) where
        F: Fn(&GraphLoc, MessageKind, &str, &GraphLoc) -> Result<(), GraphError>,

        requires
            forall|s: &GraphLoc, k: MessageKind, f: &str, d: &GraphLoc|
                call_requires(schema_arbiter, (s, k, f, d)),
        ensures
            schema_outcome(
                *schema_arbiter,
                destination_queries(
                    source@,
                    kind,
                    flow@,
                    flow@.dest.len(),
                    app_scope.deep_view(),
                    single_app,
                ),
                r,
            ),
    {
        let ghost graph_app = app_scope.deep_view();
        let in_scope = !single_app || same_text(scope(&source.app, app_scope), app_scope);
        let m = flow.dest.len();
        let mut j: usize = 0;
        while j < m
            invariant
                j <= m,
                m == flow.dest.len(),
                graph_app == app_scope.deep_view(),
                in_scope == (single_app ==> scope_of(source@.app, graph_app) == graph_app),
                forall|s: &GraphLoc, k: MessageKind, f: &str, d: &GraphLoc|
                    call_requires(schema_arbiter, (s, k, f, d)),
                schema_outcome(
                    *schema_arbiter,
                    destination_queries(source@, kind, flow@, j as nat, graph_app, single_app),
                    Ok(()),
                ),
            decreases m - j,
        {
            let dest = &flow.dest[j].loc;
            let ghost before = destination_queries(
                source@,
                kind,
                flow@,
                j as nat,
                graph_app,
                single_app,
            );
            proof {
                assert(flow@.dest[j as int] == flow.dest[j as int]@);
            }
            if in_scope && (!single_app || same_text(scope(&dest.app, app_scope), app_scope)) {
                let answer = schema_arbiter(source, kind, flow.name.as_str(), dest);
                let ghost query = SchemaQuery { source: source@, kind, flow: flow@.name, dest: dest@ };
                proof {
                    assert(is_asked(source@, dest@, graph_app, single_app));
                    assert(arbiter_gave(*schema_arbiter, query, answer));
                    let now = destination_queries(
                        source@,
                        kind,
                        flow@,
                        (j + 1) as nat,
                        graph_app,
                        single_app,
                    );
                    assert(now == before.push(query));
                    assert(before.push(query) =~= before + seq![query]);
                    assert(schema_outcome(*schema_arbiter, seq![query], answer)) by {
                        let one = seq![query];
                        assert(one[0] == query);
                        match answer {
                            Ok(unit) => {
                                assert(answer == Ok::<(), GraphError>(()));
                                assert forall|i: int| 0 <= i < one.len() implies arbiter_gave(
                                    *schema_arbiter,
                                    #[trigger] one[i],
                                    Ok(()),
                                ) by {
                                    assert(one[i] == query);
                                }
                            },
                            Err(e) => {
                                assert(0 <= 0 < one.len() && arbiter_gave(
                                    *schema_arbiter,
                                    one[0],
                                    Err(e),
                                ));
                            },
                        }
                    }
                    lemma_schema_outcome_append(*schema_arbiter, before, seq![query], answer);
                }
                match answer {
                    Ok(()) => {},
                    Err(e) => {
                        proof {
                            lemma_destination_queries_split(
                                source@,
                                kind,
                                flow@,
                                (j + 1) as nat,
                                m as nat,
                                graph_app,
                                single_app,
                            );
                            let now = destination_queries(
                                source@,
                                kind,
                                flow@,
                                (j + 1) as nat,
                                graph_app,
                                single_app,
                            );
                            let all = destination_queries(
                                source@,
                                kind,
                                flow@,
                                m as nat,
                                graph_app,
                                single_app,
                            );
                            let rest = choose|rest: Seq<SchemaQuery>| all == now + rest;
                            lemma_schema_outcome_extend(*schema_arbiter, now, rest, Err(e));
                        }
                        return Err(e);
                    },
                }
            } else {
                proof {
                    assert(!is_asked(source@, dest@, graph_app, single_app));
                }
            }
            j += 1;
        }
        Ok(())
    }

    /// Asks the schema arbiter about the flows of one kind.
    fn check_flows_compatibility<F>(
        source: &GraphLoc,
        kind: MessageKind,
        flows: &Option<Vec<GraphMessageFlow>>,
        app_scope: &Option<String>,
        single_app: bool,
        schema_arbiter: &F,
    ) -> (r: Result<(), GraphError>) where
        F: Fn(&GraphLoc, MessageKind, &str, &GraphLoc) -> Result<(), GraphError>,

        requires
            forall|s: &GraphLoc, k: MessageKind, f: &str, d: &GraphLoc|
                call_requires(schema_arbiter, (s, k, f, d)),
        ensures
            schema_outcome(
                *schema_arbiter,
                optional_flow_queries(
                    source@,
                    kind,
                    flows.deep_view(),
                    app_scope.deep_view(),
                    single_app,
                ),
                r,
            ),
    {
        let list = match flows {
            Some(list) => list,
            None => {
                return Ok(());
            },
        };
        let ghost graph_app = app_scope.deep_view();
        let ghost views = list.deep_view();
        let n = list.len();
        let mut i: usize = 0;
        while i < n
            invariant
                i <= n,
                n == list.len(),
                views == list.deep_view(),
                flows.deep_view() == Some(views),
                graph_app == app_scope.deep_view(),
                forall|s: &GraphLoc, k: MessageKind, f: &str, d: &GraphLoc|
                    call_requires(schema_arbiter, (s, k, f, d)),
                schema_outcome(
                    *schema_arbiter,
                    flow_queries(source@, kind, views, i as nat, graph_app, single_app),
                    Ok(()),
                ),
            decreases n - i,
        {
            proof {
                assert(views[i as int] == list[i as int]@);
            }
            let answer = Self::check_flow_compatibility(
                source,
                kind,
                &list[i],
                app_scope,
                single_app,
                schema_arbiter,
            );
            proof {
                lemma_schema_outcome_append(
                    *schema_arbiter,
                    flow_queries(source@, kind, views, i as nat, graph_app, single_app),
                    destination_queries(
                        source@,
                        kind,
                        views[i as int],
                        views[i as int].dest.len(),
                        graph_app,
                        single_app,
                    ),
                    answer,
                );
            }
            match answer {
                Ok(()) => {},
                Err(e) => {
                    proof {
                        lemma_flow_queries_split(
                            source@,
                            kind,
                            views,
                            (i + 1) as nat,
                            n as nat,
                            graph_app,
                            single_app,
                        );
                        let now = flow_queries(
                            source@,
                            kind,
                            views,
                            (i + 1) as nat,
                            graph_app,
                            single_app,
                        );
                        let all = flow_queries(source@, kind, views, n as nat, graph_app, single_app);
                        let rest = choose|rest: Seq<SchemaQuery>| all == now + rest;
                        lemma_schema_outcome_extend(*schema_arbiter, now, rest, Err(e));
                    }
                    return Err(e);
                },
            }
            i += 1;
        }
        Ok(())
    }

    /// Asks the schema arbiter about every flow of a connection.
    fn check_connection_compatibility<F>(
        connection: &GraphConnection,
        app_scope: &Option<String>,
        single_app: bool,
        schema_arbiter: &F,
    ) -> (r: Result<(), GraphError>) where
        F: Fn(&GraphLoc, MessageKind, &str, &GraphLoc) -> Result<(), GraphError>,

        requires
            forall|s: &GraphLoc, k: MessageKind, f: &str, d: &GraphLoc|
                call_requires(schema_arbiter, (s, k, f, d)),
        ensures
            schema_outcome(
                *schema_arbiter,
                connection_queries(connection@, app_scope.deep_view(), single_app),
                r,
            ),
    {
        let ghost graph_app = app_scope.deep_view();
        let ghost cmd = optional_flow_queries(
            connection@.loc,
            MessageKind::Cmd,
            connection@.cmd,
            graph_app,
            single_app,
        );
        let ghost data = optional_flow_queries(
            connection@.loc,
            MessageKind::Data,
            connection@.data,
            graph_app,
            single_app,
        );
        let ghost audio = optional_flow_queries(
            connection@.loc,
            MessageKind::AudioFrame,
            connection@.audio_frame,
            graph_app,
            single_app,
        );
        let ghost video = optional_flow_queries(
            connection@.loc,
            MessageKind::VideoFrame,
            connection@.video_frame,
            graph_app,
            single_app,
        );
        let first = Self::check_flows_compatibility(
            &connection.loc,
            MessageKind::Cmd,
            &connection.cmd,
            app_scope,
            single_app,
            schema_arbiter,
        );
        if let Err(e) = first {
            proof {
                lemma_schema_outcome_extend(*schema_arbiter, cmd, data + audio + video, Err(e));
                assert(cmd + (data + audio + video) =~= cmd + data + audio + video);
            }
            return Err(e);
        }
        let second = Self::check_flows_compatibility(
            &connection.loc,
            MessageKind::Data,
            &connection.data,
            app_scope,
            single_app,
            schema_arbiter,
        );
        proof {
            lemma_schema_outcome_append(*schema_arbiter, cmd, data, second);
        }
        if let Err(e) = second {
            proof {
                lemma_schema_outcome_extend(*schema_arbiter, cmd + data, audio + video, Err(e));
                assert((cmd + data) + (audio + video) =~= cmd + data + audio + video);
            }
            return Err(e);
        }
        let third = Self::check_flows_compatibility(
            &connection.loc,
            MessageKind::AudioFrame,
            &connection.audio_frame,
            app_scope,
            single_app,
            schema_arbiter,
        );
        proof {
            lemma_schema_outcome_append(*schema_arbiter, cmd + data, audio, third);
        }
        if let Err(e) = third {
            proof {
                lemma_schema_outcome_extend(*schema_arbiter, cmd + data + audio, video, Err(e));
            }
            return Err(e);
        }
        let fourth = Self::check_flows_compatibility(
            &connection.loc,
            MessageKind::VideoFrame,
            &connection.video_frame,
            app_scope,
            single_app,
            schema_arbiter,
        );
        proof {
            lemma_schema_outcome_append(*schema_arbiter, cmd + data + audio, video, fourth);
        }
        fourth
    }

    /// Asks the schema arbiter about every flow of the graph, in order, and
    /// returns the first failure it gives as it is. Where `single_app` is
    /// set, it is asked only about flows between locations of the app
    /// `app_scope`.
    pub fn check_connections_compatibility<F>(
        &self,
        app_scope: &Option<String>,
        single_app: bool,
        schema_arbiter: &F,
    ) -> (r: Result<(), GraphError>) where
        F: Fn(&GraphLoc, MessageKind, &str, &GraphLoc) -> Result<(), GraphError>,

        requires
            forall|s: &GraphLoc, k: MessageKind, f: &str, d: &GraphLoc|
                call_requires(schema_arbiter, (s, k, f, d)),
        ensures
            schema_outcome(
                *schema_arbiter,
                schema_queries(self@, app_scope.deep_view(), single_app),
                r,
            ),
    {
        let list = match &self.connections {
            Some(list) => list,
            None => {
                return Ok(());
            },
        };
        let ghost graph_app = app_scope.deep_view();
        let ghost views = list.deep_view();
        let n = list.len();
        let mut i: usize = 0;
        while i < n
            invariant
                i <= n,
                n == list.len(),
                views == list.deep_view(),
                self@.connections == Some(views),
                graph_app == app_scope.deep_view(),
                forall|s: &GraphLoc, k: MessageKind, f: &str, d: &GraphLoc|
                    call_requires(schema_arbiter, (s, k, f, d)),
                schema_outcome(
                    *schema_arbiter,
                    connections_queries(views, i as nat, graph_app, single_app),
                    Ok(()),
                ),
            decreases n - i,
        {
            proof {
                assert(views[i as int] == list[i as int]@);
            }
            let answer = Self::check_connection_compatibility(
                &list[i],
                app_scope,
                single_app,
                schema_arbiter,
            );
            proof {
                lemma_schema_outcome_append(
                    *schema_arbiter,
                    connections_queries(views, i as nat, graph_app, single_app),
                    connection_queries(views[i as int], graph_app, single_app),
                    answer,
                );
            }
            match answer {
                Ok(()) => {},
                Err(e) => {
                    proof {
                        lemma_connections_queries_split(
                            views,
                            (i + 1) as nat,
                            n as nat,
                            graph_app,
                            single_app,
                        );
                        let now = connections_queries(views, (i + 1) as nat, graph_app, single_app);
                        let all = connections_queries(views, n as nat, graph_app, single_app);
                        let rest = choose|rest: Seq<SchemaQuery>| all == now + rest;
                        lemma_schema_outcome_extend(*schema_arbiter, now, rest, Err(e));
                    }
                    return Err(e);
                },
            }
            i += 1;
        }
        Ok(())
    }

    /// Validates the graph: references first, then installed addons, then
    /// the schema arbiter.
    fn check_internal<F>(
        &self,
        app_scope: &Option<String>,
        catalogue: &PackageCatalogue,
        single_app: bool,
        schema_arbiter: &F,
    ) -> (r: Result<(), GraphError>) where
        F: Fn(&GraphLoc, MessageKind, &str, &GraphLoc) -> Result<(), GraphError>,

        requires
            forall|s: &GraphLoc, k: MessageKind, f: &str, d: &GraphLoc|
                call_requires(schema_arbiter, (s, k, f, d)),
        ensures
            validated(self@, app_scope.deep_view(), catalogue@, single_app, *schema_arbiter, r),
    {
        self.check_references()?;
        self.check_nodes_installation(app_scope, catalogue, single_app)?;
        self.check_connections_compatibility(app_scope, single_app, schema_arbiter)
    }

    /// Validates the graph against the packages of all apps. Every location
    /// in a connection must refer to a node of the graph; the addon of every
    /// extension node must be built in or installed in the app of the node,
    /// which is the app the node names or else `app_scope`; and
    /// `schema_arbiter` must accept every message flow. The first failure, in
    /// this order, is returned; what `schema_arbiter` gives is returned as it
    /// is.
    pub fn check<F>(
        &self,
        app_scope: &Option<String>,
        catalogue: &PackageCatalogue,
        schema_arbiter: F,
    ) -> (r: Result<(), GraphError>) where
        F: Fn(&GraphLoc, MessageKind, &str, &GraphLoc) -> Result<(), GraphError>,

        requires
            forall|s: &GraphLoc, k: MessageKind, f: &str, d: &GraphLoc|
                call_requires(schema_arbiter, (s, k, f, d)),
        ensures
            validated(self@, app_scope.deep_view(), catalogue@, false, schema_arbiter, r),
    {
        self.check_internal(app_scope, catalogue, false, &schema_arbiter)
    }

    /// Validates the graph for the app `app_scope` alone: as [`Graph::check`],
    /// but extension nodes of other apps are not looked up in the catalogue,
    /// and `schema_arbiter` is asked only about flows between locations of
    /// this app.
    pub fn check_for_single_app<F>(
        &self,
        app_scope: &Option<String>,
        catalogue: &PackageCatalogue,
        schema_arbiter: F,
    ) -> (r: Result<(), GraphError>) where
        F: Fn(&GraphLoc, MessageKind, &str, &GraphLoc) -> Result<(), GraphError>,

        requires
            forall|s: &GraphLoc, k: MessageKind, f: &str, d: &GraphLoc|
                call_requires(schema_arbiter, (s, k, f, d)),
        ensures
            validated(self@, app_scope.deep_view(), catalogue@, true, schema_arbiter, r),
    {
        self.check_internal(app_scope, catalogue, true, &schema_arbiter)
    }
}

/// The questions about the first `n` destinations begin with those about
/// the first `j`.
proof fn lemma_destination_queries_split(
    source: GraphLocView,
    kind: MessageKind,
    flow: GraphMessageFlowView,
    j: nat,
    n: nat,
    graph_app: Option<Seq<char>>,
    single_app: bool,
)
    requires
        j <= n,
    ensures
        exists|rest: Seq<SchemaQuery>|
            destination_queries(source, kind, flow, n, graph_app, single_app)
                == destination_queries(source, kind, flow, j, graph_app, single_app) + rest,
    decreases n - j,
{
    let first = destination_queries(source, kind, flow, j, graph_app, single_app);
    if j < n {
        lemma_destination_queries_split(source, kind, flow, j, (n - 1) as nat, graph_app, single_app);
        let before = destination_queries(source, kind, flow, (n - 1) as nat, graph_app, single_app);
        let rest = choose|rest: Seq<SchemaQuery>| before == first + rest;
        let now = destination_queries(source, kind, flow, n, graph_app, single_app);
        let dest = flow.dest[n - 1].loc;
        if is_asked(source, dest, graph_app, single_app) {
            let query = SchemaQuery { source, kind, flow: flow.name, dest };
            assert(now =~= first + rest.push(query));
        } else {
            assert(now == first + rest);
        }
    } else {
        assert(first =~= first + Seq::<SchemaQuery>::empty());
    }
}

/// The questions about the first `n` flows begin with those about the first
/// `j`.
proof fn lemma_flow_queries_split(
    source: GraphLocView,
    kind: MessageKind,
    flows: Seq<GraphMessageFlowView>,
    j: nat,
    n: nat,
    graph_app: Option<Seq<char>>,
    single_app: bool,
)
    requires
        j <= n,
    ensures
        exists|rest: Seq<SchemaQuery>|
            flow_queries(source, kind, flows, n, graph_app, single_app) == flow_queries(
                source,
                kind,
                flows,
                j,
                graph_app,
                single_app,
            ) + rest,
    decreases n - j,
{
    let first = flow_queries(source, kind, flows, j, graph_app, single_app);
    if j < n {
        lemma_flow_queries_split(source, kind, flows, j, (n - 1) as nat, graph_app, single_app);
        let before = flow_queries(source, kind, flows, (n - 1) as nat, graph_app, single_app);
        let rest = choose|rest: Seq<SchemaQuery>| before == first + rest;
        let more = destination_queries(
            source,
            kind,
            flows[n - 1],
            flows[n - 1].dest.len(),
            graph_app,
            single_app,
        );
        assert(flow_queries(source, kind, flows, n, graph_app, single_app) =~= first + (rest
            + more));
    } else {
        assert(first =~= first + Seq::<SchemaQuery>::empty());
    }
}

/// The questions about the first `n` connections begin with those about the
/// first `j`.
proof fn lemma_connections_queries_split(
    connections: Seq<GraphConnectionView>,
    j: nat,
    n: nat,
    graph_app: Option<Seq<char>>,
    single_app: bool,
)
    requires
        j <= n,
    ensures
        exists|rest: Seq<SchemaQuery>|
            connections_queries(connections, n, graph_app, single_app) == connections_queries(
                connections,
                j,
                graph_app,
                single_app,
            ) + rest,
    decreases n - j,
{
    let first = connections_queries(connections, j, graph_app, single_app);
    if j < n {
        lemma_connections_queries_split(connections, j, (n - 1) as nat, graph_app, single_app);
        let before = connections_queries(connections, (n - 1) as nat, graph_app, single_app);
        let rest = choose|rest: Seq<SchemaQuery>| before == first + rest;
        let more = connection_queries(connections[n - 1], graph_app, single_app);
        assert(connections_queries(connections, n, graph_app, single_app) =~= first + (rest
            + more));
    } else {
        assert(first =~= first + Seq::<SchemaQuery>::empty());
    }
}

} // verus!

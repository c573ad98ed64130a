use std::cell::RefCell;

use ten_rust::graph::check::{AppPackages, PackageCatalogue};
use ten_rust::graph::connection::{
    GraphConnection, GraphDestination, GraphLoc, GraphMessageFlow, MessageKind,
};
use ten_rust::graph::error::{GraphError, GraphErrorKind};
use ten_rust::graph::node::{GraphNode, GraphNodeType};
use ten_rust::graph::Graph;

fn extension(name: &str, addon: &str) -> GraphNode {
    GraphNode {
        type_: GraphNodeType::Extension,
        name: name.to_string(),
        addon: Some(addon.to_string()),
        extension_group: Some("some_group".to_string()),
        app: None,
        property: None,
        source_uri: None,
    }
}

fn subgraph_node(name: &str, uri: &str) -> GraphNode {
    GraphNode {
        type_: GraphNodeType::Subgraph,
        name: name.to_string(),
        addon: None,
        extension_group: None,
        app: None,
        property: None,
        source_uri: Some(uri.to_string()),
    }
}

fn loc(app: Option<&str>, extension: Option<&str>, subgraph: Option<&str>) -> GraphLoc {
    GraphLoc {
        app: app.map(str::to_string),
        extension: extension.map(str::to_string),
        subgraph: subgraph.map(str::to_string),
    }
}

fn cmd_connection(source: GraphLoc, name: &str, dests: Vec<GraphLoc>) -> GraphConnection {
    GraphConnection {
        loc: source,
        cmd: Some(vec![GraphMessageFlow {
            name: name.to_string(),
            dest: dests
                .into_iter()
                .map(|loc| GraphDestination {
                    loc,
                    msg_conversion: None,
                })
                .collect(),
        }]),
        data: None,
        audio_frame: None,
        video_frame: None,
    }
}

fn graph(nodes: Vec<GraphNode>, connections: Vec<GraphConnection>) -> Graph {
    Graph {
        nodes,
        connections: Some(connections),
        exposed_messages: None,
        exposed_properties: None,
    }
}

fn empty_catalogue() -> PackageCatalogue {
    PackageCatalogue {
        apps: vec![],
        builtin_addons: vec![],
    }
}

fn catalogue(apps: Vec<(&str, Vec<&str>)>, builtin: Vec<&str>) -> PackageCatalogue {
    PackageCatalogue {
        apps: apps
            .into_iter()
            .map(|(app, addons)| AppPackages {
                app: app.to_string(),
                extension_addons: addons.into_iter().map(str::to_string).collect(),
            })
            .collect(),
        builtin_addons: builtin.into_iter().map(str::to_string).collect(),
    }
}

fn accept(
    _source: &GraphLoc,
    _kind: MessageKind,
    _flow: &str,
    _dest: &GraphLoc,
) -> Result<(), GraphError> {
    Ok(())
}

#[test]
fn test_graph_check_subgraph_reference_missing() {
    // Test that subgraph references in connections are validated
    let graph = graph(
        vec![extension("ext_a", "addon_a")],
        vec![cmd_connection(
            loc(None, Some("ext_a"), None),
            "test_cmd",
            vec![loc(None, Some("subgraph_1:ext_b"), None)],
        )],
    );
    let pkgs_cache = empty_catalogue();

    let result = graph.check(&None, &pkgs_cache, accept);
    assert!(result.is_err());

    let error_msg = result.err().unwrap().to_string();
    assert!(error_msg.contains("subgraph 'subgraph_1'"));
    assert!(error_msg.contains("is not defined in nodes"));
}

#[test]
fn test_graph_check_subgraph_reference_valid() {
    // Test that valid subgraph references pass validation
    let graph = graph(
        vec![
            extension("ext_a", "addon_a"),
            subgraph_node("subgraph_1", "./subgraph.json"),
        ],
        vec![cmd_connection(
            loc(None, Some("ext_a"), None),
            "test_cmd",
            vec![loc(None, Some("subgraph_1:ext_b"), None)],
        )],
    );
    let pkgs_cache = empty_catalogue();

    let result = graph.check(&None, &pkgs_cache, accept);
    // This should fail due to missing extension installation, but not due
    // to subgraph reference
    assert!(result.is_err());

    let error_msg = result.err().unwrap().to_string();
    println!("error_msg: {error_msg}");
    // Should not contain subgraph error
    assert!(!error_msg.contains("subgraph 'subgraph_1'"));
}

#[test]
fn test_graph_check_direct_subgraph_reference_missing() {
    // Test that direct subgraph references in connections are validated
    let graph = graph(
        vec![extension("ext_a", "addon_a")],
        vec![cmd_connection(
            loc(None, None, Some("missing_subgraph")),
            "test_cmd",
            vec![loc(None, Some("ext_a"), None)],
        )],
    );
    let pkgs_cache = empty_catalogue();

    let result = graph.check(&None, &pkgs_cache, accept);
    assert!(result.is_err());
    let error_msg = result.err().unwrap().to_string();
    assert!(error_msg.contains("subgraph 'missing_subgraph'"));
    assert!(error_msg.contains("is not defined in nodes"));
}

#[test]
fn reference_failures_carry_their_kind_and_name() {
    let graph = graph(
        vec![
            extension("ext_a", "addon_a"),
            subgraph_node("sg", "uri"),
        ],
        vec![cmd_connection(
            loc(None, Some("ext_a"), None),
            "hello",
            vec![
                loc(None, Some("sg:inner"), None),
                loc(None, None, Some("sg")),
                loc(None, Some("ext_b"), None),
            ],
        )],
    );
    let error = graph.check_references().unwrap_err();
    assert_eq!(error.kind, GraphErrorKind::UnresolvedReference);
    assert_eq!(
        error.to_string(),
        "The extension 'ext_b' is not defined in nodes"
    );
}

#[test]
fn a_subgraph_node_is_no_extension_and_an_extension_no_subgraph() {
    let nodes = vec![extension("ext_a", "addon_a"), subgraph_node("sg", "uri")];
    let as_extension = graph(
        nodes.clone(),
        vec![cmd_connection(loc(None, Some("sg"), None), "hello", vec![])],
    );
    assert_eq!(
        as_extension.check_references().unwrap_err().to_string(),
        "The extension 'sg' is not defined in nodes"
    );
    let as_subgraph = graph(
        nodes.clone(),
        vec![cmd_connection(loc(None, None, Some("ext_a")), "hello", vec![])],
    );
    assert_eq!(
        as_subgraph.check_references().unwrap_err().to_string(),
        "The subgraph 'ext_a' is not defined in nodes"
    );
    let as_owner = graph(
        nodes,
        vec![cmd_connection(
            loc(None, Some("ext_a:inner"), None),
            "hello",
            vec![],
        )],
    );
    assert_eq!(
        as_owner.check_references().unwrap_err().to_string(),
        "The subgraph 'ext_a' is not defined in nodes"
    );
}

#[test]
fn graph_with_sound_references_and_installed_addons_passes() {
    let graph = graph(
        vec![
            extension("ext_a", "addon_a"),
            extension("ext_b", "builtin_addon"),
            subgraph_node("sg", "uri"),
        ],
        vec![cmd_connection(
            loc(None, Some("ext_a"), None),
            "hello",
            vec![loc(None, Some("ext_b"), None), loc(None, None, Some("sg"))],
        )],
    );
    let catalogue = catalogue(
        vec![("other", vec!["x"]), ("app_1", vec!["y", "addon_a"])],
        vec!["builtin_addon"],
    );
    assert_eq!(
        graph.check(&Some("app_1".to_string()), &catalogue, accept),
        Ok(())
    );
    let graph_without_connections = Graph {
        connections: None,
        ..graph.clone()
    };
    assert_eq!(
        graph_without_connections.check(&Some("app_1".to_string()), &catalogue, accept),
        Ok(())
    );
}

#[test]
fn addon_must_be_installed_in_the_app_of_its_node() {
    let mut remote = extension("ext_b", "addon_b");
    remote.app = Some("app_2".to_string());
    let graph = graph(vec![extension("ext_a", "addon_a"), remote], vec![]);
    let only_first = catalogue(
        vec![("app_1", vec!["addon_a", "addon_b"]), ("app_2", vec!["addon_a"])],
        vec![],
    );
    let error = graph
        .check(&Some("app_1".to_string()), &only_first, accept)
        .unwrap_err();
    assert_eq!(error.kind, GraphErrorKind::UnresolvedReference);
    assert_eq!(
        error.to_string(),
        "The addon 'addon_b' of extension node 'ext_b' is not installed in its app"
    );
    // The other app is not looked at where a single app is checked.
    assert_eq!(
        graph.check_for_single_app(&Some("app_1".to_string()), &only_first, accept),
        Ok(())
    );
    // Without an app there is nowhere to look.
    let error = graph.check(&None, &only_first, accept).unwrap_err();
    assert_eq!(
        error.to_string(),
        "The addon 'addon_a' of extension node 'ext_a' is not installed in its app"
    );
}

#[test]
fn extension_without_addon_is_a_missing_field() {
    let mut node = extension("ext_a", "addon_a");
    node.addon = None;
    let graph = graph(vec![node], vec![]);
    let error = graph
        .check(&Some("app_1".to_string()), &empty_catalogue(), accept)
        .unwrap_err();
    assert_eq!(error.kind, GraphErrorKind::MissingField);
    assert_eq!(error.to_string(), "Extension node 'ext_a' must have addon");
}

fn two_app_graph() -> Graph {
    let mut remote = extension("ext_b", "addon_b");
    remote.app = Some("app_2".to_string());
    Graph {
        nodes: vec![extension("ext_a", "addon_a"), remote],
        connections: Some(vec![GraphConnection {
            loc: loc(None, Some("ext_a"), None),
            cmd: Some(vec![GraphMessageFlow {
                name: "first".to_string(),
                dest: vec![
                    GraphDestination {
                        loc: loc(None, Some("ext_a"), None),
                        msg_conversion: None,
                    },
                    GraphDestination {
                        loc: loc(Some("app_2"), Some("ext_b"), None),
                        msg_conversion: None,
                    },
                ],
            }]),
            data: Some(vec![GraphMessageFlow {
                name: "second".to_string(),
                dest: vec![GraphDestination {
                    loc: loc(Some("app_1"), Some("ext_a"), None),
                    msg_conversion: None,
                }],
            }]),
            audio_frame: None,
            video_frame: None,
        }]),
        exposed_messages: None,
        exposed_properties: None,
    }
}

#[test]
fn schema_arbiter_is_asked_about_every_flow_in_order() {
    let asked = RefCell::new(Vec::new());
    let record = |source: &GraphLoc,
                  kind: MessageKind,
                  flow: &str,
                  dest: &GraphLoc|
     -> Result<(), GraphError> {
        asked.borrow_mut().push((
            source.extension.clone().unwrap(),
            kind,
            flow.to_string(),
            dest.app.clone(),
            dest.extension.clone().unwrap(),
        ));
        Ok(())
    };
    let catalogue = catalogue(
        vec![("app_1", vec!["addon_a"]), ("app_2", vec!["addon_b"])],
        vec![],
    );
    let graph = two_app_graph();
    assert_eq!(
        graph.check(&Some("app_1".to_string()), &catalogue, record),
        Ok(())
    );
    assert_eq!(
        *asked.borrow(),
        vec![
            (
                "ext_a".to_string(),
                MessageKind::Cmd,
                "first".to_string(),
                None,
                "ext_a".to_string()
            ),
            (
                "ext_a".to_string(),
                MessageKind::Cmd,
                "first".to_string(),
                Some("app_2".to_string()),
                "ext_b".to_string()
            ),
            (
                "ext_a".to_string(),
                MessageKind::Data,
                "second".to_string(),
                Some("app_1".to_string()),
                "ext_a".to_string()
            ),
        ]
    );
}

#[test]
fn single_app_check_asks_only_about_flows_inside_the_app() {
    let asked = RefCell::new(Vec::new());
    let record = |_source: &GraphLoc,
                  _kind: MessageKind,
                  flow: &str,
                  dest: &GraphLoc|
     -> Result<(), GraphError> {
        asked
            .borrow_mut()
            .push((flow.to_string(), dest.app.clone()));
        Ok(())
    };
    let catalogue = catalogue(vec![("app_1", vec!["addon_a"])], vec![]);
    let graph = two_app_graph();
    assert_eq!(
        graph.check_for_single_app(&Some("app_1".to_string()), &catalogue, record),
        Ok(())
    );
    assert_eq!(
        *asked.borrow(),
        vec![
            ("first".to_string(), None),
            ("second".to_string(), Some("app_1".to_string())),
        ]
    );
}

#[test]
fn failure_of_the_schema_arbiter_is_returned_as_it_is() {
    let calls = RefCell::new(0usize);
    let refuse_second = |_source: &GraphLoc,
                         _kind: MessageKind,
                         flow: &str,
                         dest: &GraphLoc|
     -> Result<(), GraphError> {
        *calls.borrow_mut() += 1;
        if dest.app.is_some() {
            Err(GraphError {
                kind: GraphErrorKind::IncompatibleSchema,
                message: format!("flow {flow} does not fit"),
            })
        } else {
            Ok(())
        }
    };
    let catalogue = catalogue(
        vec![("app_1", vec!["addon_a"]), ("app_2", vec!["addon_b"])],
        vec![],
    );
    let error = two_app_graph()
        .check(&Some("app_1".to_string()), &catalogue, refuse_second)
        .unwrap_err();
    assert_eq!(
        error,
        GraphError {
            kind: GraphErrorKind::IncompatibleSchema,
            message: "flow first does not fit".to_string(),
        }
    );
    assert_eq!(*calls.borrow(), 2);
}

#[test]
fn catalogue_lookup_needs_app_and_addon_in_one_entry() {
    let catalogue = catalogue(
        vec![("app_1", vec!["a"]), ("app_2", vec!["b"]), ("app_1", vec!["c"])],
        vec![],
    );
    assert!(catalogue.is_installed("app_1", "a"));
    assert!(catalogue.is_installed("app_1", "c"));
    assert!(catalogue.is_installed("app_2", "b"));
    assert!(!catalogue.is_installed("app_1", "b"));
    assert!(!catalogue.is_installed("app_3", "a"));
}

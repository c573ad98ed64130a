use std::cell::Cell;

use ten_rust::graph::connection::{
    GraphConnection, GraphDestination, GraphLoc, GraphMessageFlow,
};
use ten_rust::graph::error::{GraphError, GraphErrorKind};
use ten_rust::graph::node::{GraphNode, GraphNodeType};
use ten_rust::graph::subgraph::MAX_SUBGRAPH_DEPTH;
use ten_rust::graph::{
    Graph, GraphExposedMessage, GraphExposedMessageType, GraphExposedProperty,
};

fn extension(name: &str, addon: &str) -> GraphNode {
    GraphNode {
        type_: GraphNodeType::Extension,
        name: name.to_string(),
        addon: Some(addon.to_string()),
        extension_group: None,
        app: None,
        property: None,
        source_uri: None,
    }
}

fn subgraph_node(name: &str, uri: &str) -> GraphNode {
    GraphNode {
        type_: GraphNodeType::Subgraph,
        name: name.to_string(),
        addon: None,
        extension_group: None,
        app: None,
        property: None,
        source_uri: Some(uri.to_string()),
    }
}

fn to_extension(name: &str) -> GraphLoc {
    GraphLoc {
        app: None,
        extension: Some(name.to_string()),
        subgraph: None,
    }
}

fn to_subgraph(name: &str) -> GraphLoc {
    GraphLoc {
        app: None,
        extension: None,
        subgraph: Some(name.to_string()),
    }
}

fn flow(name: &str, dests: Vec<GraphLoc>) -> GraphMessageFlow {
    GraphMessageFlow {
        name: name.to_string(),
        dest: dests
            .into_iter()
            .map(|loc| GraphDestination {
                loc,
                msg_conversion: None,
            })
            .collect(),
    }
}

fn cmd_connection(loc: GraphLoc, flows: Vec<GraphMessageFlow>) -> GraphConnection {
    GraphConnection {
        loc,
        cmd: Some(flows),
        data: None,
        audio_frame: None,
        video_frame: None,
    }
}

fn exposed(
    msg_type: GraphExposedMessageType,
    name: &str,
    extension: &str,
) -> GraphExposedMessage {
    GraphExposedMessage {
        msg_type,
        name: name.to_string(),
        extension: Some(extension.to_string()),
    }
}

fn graph(nodes: Vec<GraphNode>, connections: Option<Vec<GraphConnection>>) -> Graph {
    Graph {
        nodes,
        connections,
        exposed_messages: None,
        exposed_properties: None,
    }
}

fn object(members: Vec<(&str, serde_json::Value)>) -> serde_json::Value {
    let mut map = serde_json::Map::new();
    for (key, value) in members {
        map.insert(key.to_string(), value);
    }
    serde_json::Value::Object(map)
}

fn text(value: &str) -> serde_json::Value {
    serde_json::Value::String(value.to_string())
}

fn no_loader(_uri: &str) -> Result<Graph, GraphError> {
    panic!("the loader must not be called")
}

fn names(graph: &Graph) -> Vec<String> {
    graph.nodes.iter().map(|node| node.name.clone()).collect()
}

#[test]
fn graph_without_subgraphs_is_returned_without_what_it_exposes() {
    let mut given = graph(
        vec![extension("ext_a", "addon_a"), extension("ext_b", "addon_b")],
        Some(vec![cmd_connection(
            to_extension("ext_a"),
            vec![flow("hello", vec![to_extension("ext_b")])],
        )]),
    );
    given.exposed_messages = Some(vec![exposed(
        GraphExposedMessageType::CmdIn,
        "hello",
        "ext_b",
    )]);
    given.exposed_properties = Some(vec![GraphExposedProperty {
        extension: Some("ext_b".to_string()),
        name: "key".to_string(),
        alias: "alias".to_string(),
    }]);

    let flattened = given.flatten(no_loader).unwrap();

    assert_eq!(flattened.nodes, given.nodes);
    assert_eq!(flattened.connections, given.connections);
    assert!(flattened.exposed_messages.is_none());
    assert!(flattened.exposed_properties.is_none());
}

#[test]
fn flatten_leaves_its_input_as_it_was() {
    let given = graph(
        vec![extension("ext_a", "addon_a")],
        Some(vec![cmd_connection(
            to_extension("x:y"),
            vec![flow("hello", vec![to_extension("ext_a")])],
        )]),
    );
    let copy = given.clone();
    let _ = given.flatten(no_loader).unwrap();
    assert_eq!(given, copy);
}

#[test]
fn empty_connection_list_becomes_absent() {
    let given = graph(vec![extension("ext_a", "addon_a")], Some(vec![]));
    let flattened = given.flatten(no_loader).unwrap();
    assert_eq!(flattened.nodes.len(), 1);
    assert!(flattened.connections.is_none());
}

#[test]
fn shorthand_is_rewritten_even_without_subgraphs() {
    let given = graph(
        vec![extension("ext_a", "addon_a")],
        Some(vec![cmd_connection(
            to_extension("owner:member"),
            vec![flow("hello", vec![to_extension("other:inner")])],
        )]),
    );
    let flattened = given.flatten(no_loader).unwrap();
    let connections = flattened.connections.unwrap();
    assert_eq!(connections.len(), 1);
    assert_eq!(connections[0].loc.extension.as_deref(), Some("owner_member"));
    let cmd = connections[0].cmd.as_ref().unwrap();
    assert_eq!(cmd[0].dest[0].loc.extension.as_deref(), Some("other_inner"));
}

#[test]
fn shorthand_needs_one_separator_between_two_parts() {
    for (given, expected) in [
        ("a:b", "a_b"),
        ("subgraph_1:ext_d", "subgraph_1_ext_d"),
        ("plain", "plain"),
        (":b", ":b"),
        ("a:", "a:"),
        (":", ":"),
        ("a:b:c", "a:b:c"),
        ("a::b", "a::b"),
        ("", ""),
        ("é:ü", "é_ü"),
    ] {
        let mut field = Some(given.to_string());
        Graph::handle_colon_notation(&mut field);
        assert_eq!(field.as_deref(), Some(expected), "for {given:?}");
    }
    let mut absent: Option<String> = None;
    Graph::handle_colon_notation(&mut absent);
    assert_eq!(absent, None);
}

#[test]
fn basic_scenario_gives_nodes_in_walk_order_and_one_connection() {
    let main = graph(
        vec![
            extension("ext_a", "addon_a"),
            subgraph_node("subgraph_1", "the_subgraph"),
        ],
        Some(vec![cmd_connection(
            to_extension("ext_a"),
            vec![flow("B", vec![to_extension("subgraph_1:ext_d")])],
        )]),
    );
    let mut sub = graph(
        vec![extension("ext_c", "addon_c"), extension("ext_d", "addon_d")],
        None,
    );
    sub.exposed_messages = Some(vec![exposed(
        GraphExposedMessageType::CmdIn,
        "B",
        "ext_d",
    )]);

    let flattened = main
        .flatten(|uri: &str| -> Result<Graph, GraphError> {
            assert_eq!(uri, "the_subgraph");
            Ok(sub.clone())
        })
        .unwrap();

    assert_eq!(
        names(&flattened),
        vec!["ext_a", "subgraph_1_ext_c", "subgraph_1_ext_d"]
    );
    assert_eq!(flattened.nodes[1].addon.as_deref(), Some("addon_c"));
    assert_eq!(flattened.nodes[2].addon.as_deref(), Some("addon_d"));
    assert_eq!(
        flattened.connections,
        Some(vec![cmd_connection(
            to_extension("ext_a"),
            vec![flow("B", vec![to_extension("subgraph_1_ext_d")])],
        )])
    );
    assert!(flattened.exposed_messages.is_none());
    assert!(flattened.exposed_properties.is_none());
}

#[test]
fn internal_connections_keep_their_wiring_under_new_names() {
    let main = graph(vec![subgraph_node("outer", "uri")], None);
    let sub = graph(
        vec![extension("a", "addon_a"), extension("b", "addon_b")],
        Some(vec![GraphConnection {
            loc: to_extension("a"),
            cmd: Some(vec![flow("one", vec![to_extension("b")])]),
            data: Some(vec![flow("two", vec![to_extension("b"), to_extension("a")])]),
            audio_frame: None,
            video_frame: Some(vec![flow("three", vec![])]),
        }]),
    );

    let flattened = main
        .flatten(|_uri: &str| -> Result<Graph, GraphError> { Ok(sub.clone()) })
        .unwrap();

    assert_eq!(names(&flattened), vec!["outer_a", "outer_b"]);
    assert_eq!(
        flattened.connections,
        Some(vec![GraphConnection {
            loc: to_extension("outer_a"),
            cmd: Some(vec![flow("one", vec![to_extension("outer_b")])]),
            data: Some(vec![flow(
                "two",
                vec![to_extension("outer_b"), to_extension("outer_a")]
            )]),
            audio_frame: None,
            video_frame: Some(vec![flow("three", vec![])]),
        }])
    );
}

fn nested_fixture(uri: &str) -> Result<Graph, GraphError> {
    match uri {
        "middle" => {
            let mut middle = graph(
                vec![
                    extension("m", "addon_m"),
                    subgraph_node("s2", "leaf"),
                ],
                Some(vec![cmd_connection(
                    to_extension("m"),
                    vec![flow("ping", vec![to_subgraph("s2")])],
                )]),
            );
            middle.exposed_messages = Some(vec![
                exposed(GraphExposedMessageType::CmdIn, "ping", "s2"),
                exposed(GraphExposedMessageType::CmdIn, "direct", "m"),
                exposed(GraphExposedMessageType::DataIn, "gone", "s2"),
            ]);
            Ok(middle)
        }
        "leaf" => {
            let mut leaf = graph(vec![extension("n", "addon_n")], None);
            leaf.exposed_messages = Some(vec![exposed(
                GraphExposedMessageType::CmdIn,
                "ping",
                "n",
            )]);
            Ok(leaf)
        }
        other => Err(GraphError {
            kind: GraphErrorKind::LoadFailed,
            message: format!("no graph at {other}"),
        }),
    }
}

#[test]
fn two_levels_of_nesting_prefix_twice() {
    let main = graph(
        vec![extension("top", "addon_top"), subgraph_node("s", "middle")],
        Some(vec![cmd_connection(
            to_extension("top"),
            vec![
                flow("ping", vec![to_subgraph("s")]),
                flow("direct", vec![to_subgraph("s")]),
            ],
        )]),
    );

    let flattened = main.flatten(nested_fixture).unwrap();

    assert_eq!(names(&flattened), vec!["top", "s_m", "s_s2_n"]);
    assert!(flattened
        .nodes
        .iter()
        .all(|node| node.type_ == GraphNodeType::Extension));
    assert_eq!(
        flattened.connections,
        Some(vec![
            cmd_connection(
                to_extension("s_m"),
                vec![flow("ping", vec![to_extension("s_s2_n")])],
            ),
            cmd_connection(
                to_extension("top"),
                vec![
                    flow("ping", vec![to_extension("s_s2_n")]),
                    flow("direct", vec![to_extension("s_m")]),
                ],
            ),
        ])
    );
}

#[test]
fn exposed_message_of_nested_subgraph_that_cannot_be_traced_is_dropped() {
    let main = graph(
        vec![extension("top", "addon_top"), subgraph_node("s", "middle")],
        Some(vec![GraphConnection {
            loc: to_extension("top"),
            cmd: None,
            data: Some(vec![flow("gone", vec![to_subgraph("s")])]),
            audio_frame: None,
            video_frame: None,
        }]),
    );
    let error = main.flatten(nested_fixture).unwrap_err();
    assert_eq!(error.kind, GraphErrorKind::UnresolvedReference);
    assert_eq!(
        error.to_string(),
        "Message 'gone' of type 'DataIn' is not exposed by subgraph 's'"
    );
}

#[test]
fn nested_nodes_keep_their_place_and_a_source_without_flows_is_refused() {
    let mut inner = graph(vec![extension("x", "addon_x"), extension("y", "addon_y")], None);
    inner.exposed_messages = Some(vec![
        exposed(GraphExposedMessageType::CmdIn, "m", "x"),
        exposed(GraphExposedMessageType::CmdOut, "m", "x"),
        exposed(GraphExposedMessageType::CmdIn, "m", "y"),
        GraphExposedMessage {
            msg_type: GraphExposedMessageType::CmdIn,
            name: "m".to_string(),
            extension: None,
        },
    ]);
    let main = graph(vec![subgraph_node("outer", "mid")], None);
    let mut mid = graph(vec![subgraph_node("sg", "inner"), extension("e", "addon_e")], None);
    mid.exposed_messages = Some(vec![
        exposed(GraphExposedMessageType::CmdIn, "m", "sg"),
        exposed(GraphExposedMessageType::CmdIn, "keep", "e"),
        GraphExposedMessage {
            msg_type: GraphExposedMessageType::DataOut,
            name: "nowhere".to_string(),
            extension: None,
        },
    ]);
    let with_connection = Graph {
        connections: Some(vec![GraphConnection {
            loc: to_subgraph("outer"),
            cmd: None,
            data: None,
            audio_frame: None,
            video_frame: None,
        }]),
        ..main.clone()
    };
    let loader = |uri: &str| -> Result<Graph, GraphError> {
        match uri {
            "mid" => Ok(mid.clone()),
            _ => Ok(inner.clone()),
        }
    };
    // No connection: the flattened graph only shows the names.
    let flattened = main.flatten(loader).unwrap();
    assert_eq!(names(&flattened), vec!["outer_sg_x", "outer_sg_y", "outer_e"]);
    // A source without flows is refused.
    let error = with_connection.flatten(loader).unwrap_err();
    assert_eq!(error.kind, GraphErrorKind::InternalInvariantViolation);
    assert_eq!(error.to_string(), "No message flows found for subgraph: outer");
}

#[test]
fn grouping_splits_a_subgraph_source_by_owner_and_keeps_order() {
    let main = graph(
        vec![extension("sink", "addon_sink"), subgraph_node("sg", "uri")],
        Some(vec![GraphConnection {
            loc: GraphLoc {
                app: Some("app_1".to_string()),
                extension: None,
                subgraph: Some("sg".to_string()),
            },
            cmd: Some(vec![
                flow("first", vec![to_extension("sink")]),
                flow("second", vec![to_extension("sink")]),
                flow("third", vec![to_extension("sink")]),
            ]),
            data: Some(vec![flow("fourth", vec![to_extension("sink")])]),
            audio_frame: None,
            video_frame: None,
        }]),
    );
    let mut sub = graph(
        vec![extension("one", "addon_one"), extension("two", "addon_two")],
        None,
    );
    sub.exposed_messages = Some(vec![
        exposed(GraphExposedMessageType::CmdOut, "first", "two"),
        exposed(GraphExposedMessageType::CmdOut, "second", "one"),
        exposed(GraphExposedMessageType::CmdOut, "third", "two"),
        exposed(GraphExposedMessageType::DataOut, "fourth", "one"),
        exposed(GraphExposedMessageType::CmdOut, "first", "one"),
    ]);

    let flattened = main
        .flatten(|_uri: &str| -> Result<Graph, GraphError> { Ok(sub.clone()) })
        .unwrap();

    let owner = |name: &str| GraphLoc {
        app: Some("app_1".to_string()),
        extension: Some(name.to_string()),
        subgraph: None,
    };
    assert_eq!(
        flattened.connections,
        Some(vec![
            GraphConnection {
                loc: owner("sg_two"),
                cmd: Some(vec![
                    flow("first", vec![to_extension("sink")]),
                    flow("third", vec![to_extension("sink")]),
                ]),
                data: None,
                audio_frame: None,
                video_frame: None,
            },
            GraphConnection {
                loc: owner("sg_one"),
                cmd: Some(vec![flow("second", vec![to_extension("sink")])]),
                data: Some(vec![flow("fourth", vec![to_extension("sink")])]),
                audio_frame: None,
                video_frame: None,
            },
        ])
    );
}

#[test]
fn missing_source_fails_before_the_loader_is_called() {
    let calls = Cell::new(0usize);
    let mut node = subgraph_node("second", "unused");
    node.source_uri = None;
    let main = graph(vec![extension("first", "addon"), node], None);
    let error = main
        .flatten(|_uri: &str| -> Result<Graph, GraphError> {
            calls.set(calls.get() + 1);
            Ok(graph(vec![], None))
        })
        .unwrap_err();
    assert_eq!(calls.get(), 0);
    assert_eq!(error.kind, GraphErrorKind::MissingField);
    assert_eq!(
        error.to_string(),
        "Subgraph node 'second' must have source_uri"
    );
}

#[test]
fn loader_is_called_once_for_each_subgraph_node_in_order() {
    let seen = std::cell::RefCell::new(Vec::new());
    let main = graph(
        vec![
            subgraph_node("a", "uri_a"),
            extension("x", "addon_x"),
            subgraph_node("b", "uri_a"),
            subgraph_node("c", "uri_c"),
        ],
        None,
    );
    let flattened = main
        .flatten(|uri: &str| -> Result<Graph, GraphError> {
            seen.borrow_mut().push(uri.to_string());
            Ok(graph(vec![extension("n", "addon_n")], None))
        })
        .unwrap();
    assert_eq!(*seen.borrow(), vec!["uri_a", "uri_a", "uri_c"]);
    assert_eq!(names(&flattened), vec!["a_n", "x", "b_n", "c_n"]);
}

#[test]
fn loader_failure_is_handed_on_as_it_is() {
    let main = graph(vec![subgraph_node("a", "uri_a")], None);
    let error = main
        .flatten(|uri: &str| -> Result<Graph, GraphError> {
            Err(GraphError {
                kind: GraphErrorKind::LoadFailed,
                message: format!("cannot fetch {uri}"),
            })
        })
        .unwrap_err();
    assert_eq!(
        error,
        GraphError {
            kind: GraphErrorKind::LoadFailed,
            message: "cannot fetch uri_a".to_string(),
        }
    );
}

#[test]
fn destination_that_names_an_unknown_subgraph_is_refused() {
    let main = graph(
        vec![extension("ext_a", "addon_a")],
        Some(vec![cmd_connection(
            to_extension("ext_a"),
            vec![flow("B", vec![to_subgraph("nowhere")])],
        )]),
    );
    let error = main.flatten(no_loader).unwrap_err();
    assert_eq!(error.kind, GraphErrorKind::UnresolvedReference);
    assert_eq!(
        error.to_string(),
        "Subgraph 'nowhere' not found for message 'B' of type 'CmdIn'"
    );
}

#[test]
fn source_that_names_an_unknown_subgraph_is_refused() {
    let main = graph(
        vec![extension("ext_a", "addon_a")],
        Some(vec![cmd_connection(
            to_subgraph("nowhere"),
            vec![flow("B", vec![to_extension("ext_a")])],
        )]),
    );
    let error = main.flatten(no_loader).unwrap_err();
    assert_eq!(error.kind, GraphErrorKind::UnresolvedReference);
    assert_eq!(error.to_string(), "Subgraph 'nowhere' not found");
}

#[test]
fn subgraph_without_exposed_messages_names_flow_direction_and_subgraph() {
    let sub = graph(vec![extension("ext_d", "addon_d")], None);
    let error =
        Graph::resolve_subgraph_to_extension("subgraph_2", &sub, "B", GraphExposedMessageType::CmdIn)
            .unwrap_err();
    assert_eq!(error.kind, GraphErrorKind::UnresolvedReference);
    assert_eq!(
        error.to_string(),
        "Subgraph 'subgraph_2' does not have exposed_messages defined, so message 'B' of type 'CmdIn' is not exposed"
    );
    let main = graph(
        vec![extension("sink", "addon_sink"), subgraph_node("sg", "uri")],
        Some(vec![GraphConnection {
            loc: to_subgraph("sg"),
            cmd: None,
            data: None,
            audio_frame: Some(vec![flow("pcm", vec![to_extension("sink")])]),
            video_frame: None,
        }]),
    );
    let error = main
        .flatten(|_uri: &str| -> Result<Graph, GraphError> { Ok(sub.clone()) })
        .unwrap_err();
    assert_eq!(
        error.to_string(),
        "Subgraph 'sg' does not have exposed_messages defined, so message 'pcm' of type 'AudioFrameOut' is not exposed"
    );
}

#[test]
fn exposed_message_without_extension_is_a_missing_field() {
    let main = graph(
        vec![extension("ext_a", "addon_a"), subgraph_node("sg", "uri")],
        Some(vec![cmd_connection(
            to_extension("ext_a"),
            vec![flow("B", vec![to_subgraph("sg")])],
        )]),
    );
    let mut sub = graph(vec![extension("n", "addon_n")], None);
    sub.exposed_messages = Some(vec![GraphExposedMessage {
        msg_type: GraphExposedMessageType::CmdIn,
        name: "B".to_string(),
        extension: None,
    }]);
    let error = main
        .flatten(|_uri: &str| -> Result<Graph, GraphError> { Ok(sub.clone()) })
        .unwrap_err();
    assert_eq!(error.kind, GraphErrorKind::MissingField);
    assert_eq!(
        error.to_string(),
        "Exposed message 'B' in subgraph 'sg' does not specify an extension"
    );
}

#[test]
fn subgraph_reference_inside_a_leaf_subgraph_is_refused() {
    let main = graph(vec![subgraph_node("sg", "uri")], None);
    let sub = graph(
        vec![extension("n", "addon_n")],
        Some(vec![cmd_connection(
            to_extension("n"),
            vec![flow("B", vec![to_subgraph("ghost")])],
        )]),
    );
    let error = main
        .flatten(|_uri: &str| -> Result<Graph, GraphError> { Ok(sub.clone()) })
        .unwrap_err();
    assert_eq!(error.kind, GraphErrorKind::InternalInvariantViolation);
    assert_eq!(
        error.to_string(),
        "Unexpected subgraph reference in a connection of flattened subgraph 'sg'"
    );
}

fn chain(levels: usize) -> impl Fn(&str) -> Result<Graph, GraphError> {
    move |uri: &str| -> Result<Graph, GraphError> {
        let level: usize = uri.parse().unwrap();
        if level >= levels {
            Ok(graph(vec![extension("leaf", "addon_leaf")], None))
        } else {
            Ok(graph(
                vec![subgraph_node("s", &(level + 1).to_string())],
                None,
            ))
        }
    }
}

#[test]
fn nesting_up_to_the_maximum_depth_is_flattened() {
    let main = graph(vec![subgraph_node("s", "0")], None);
    let flattened = main.flatten(chain(MAX_SUBGRAPH_DEPTH)).unwrap();
    let expected = format!("{}leaf", "s_".repeat(MAX_SUBGRAPH_DEPTH + 1));
    assert_eq!(names(&flattened), vec![expected]);
}

#[test]
fn nesting_beyond_the_maximum_depth_is_refused() {
    let main = graph(vec![subgraph_node("s", "0")], None);
    let error = main.flatten(chain(MAX_SUBGRAPH_DEPTH + 1)).unwrap_err();
    assert_eq!(error.kind, GraphErrorKind::UnsupportedStructure);
    assert_eq!(
        error.to_string(),
        "Nested subgraphs are not supported beyond the maximum nesting depth"
    );
}

fn property_fixture(owner_property: Option<serde_json::Value>) -> (Graph, Graph) {
    let mut owner = subgraph_node("sg", "uri");
    owner.property = owner_property;
    let main = graph(vec![owner], None);
    let mut first = extension("first", "addon_first");
    first.property = Some(object(vec![("kept", text("old")), ("port", text("80"))]));
    let mut third = extension("third", "addon_third");
    third.property = Some(text("not an object"));
    let mut sub = graph(
        vec![first, extension("second", "addon_second"), third],
        None,
    );
    sub.exposed_properties = Some(vec![
        GraphExposedProperty {
            extension: Some("first".to_string()),
            name: "port".to_string(),
            alias: "first_port".to_string(),
        },
        GraphExposedProperty {
            extension: Some("second".to_string()),
            name: "mode".to_string(),
            alias: "mode".to_string(),
        },
        GraphExposedProperty {
            extension: Some("third".to_string()),
            name: "level".to_string(),
            alias: "level".to_string(),
        },
        GraphExposedProperty {
            extension: None,
            name: "orphan".to_string(),
            alias: "orphan".to_string(),
        },
        GraphExposedProperty {
            extension: Some("second".to_string()),
            name: "shadowed".to_string(),
            alias: "mode".to_string(),
        },
    ]);
    (main, sub)
}

#[test]
fn properties_of_the_subgraph_node_reach_the_extensions_they_are_exposed_for() {
    let (main, sub) = property_fixture(Some(object(vec![
        ("first_port", text("8080")),
        ("level", text("high")),
        ("mode", object(vec![("fast", serde_json::Value::Bool(true))])),
    ])));
    let flattened = main
        .flatten(|_uri: &str| -> Result<Graph, GraphError> { Ok(sub.clone()) })
        .unwrap();
    assert_eq!(names(&flattened), vec!["sg_first", "sg_second", "sg_third"]);
    assert_eq!(
        flattened.nodes[0].property,
        Some(object(vec![("kept", text("old")), ("port", text("8080"))]))
    );
    assert_eq!(
        flattened.nodes[1].property,
        Some(object(vec![(
            "mode",
            object(vec![("fast", serde_json::Value::Bool(true))])
        )]))
    );
    assert_eq!(flattened.nodes[2].property, Some(text("not an object")));
}

#[test]
fn property_document_that_is_not_an_object_sets_nothing() {
    let (main, sub) = property_fixture(Some(text("first_port")));
    let flattened = main
        .flatten(|_uri: &str| -> Result<Graph, GraphError> { Ok(sub.clone()) })
        .unwrap();
    assert_eq!(flattened.nodes[0].property, sub.nodes[0].property);
    assert_eq!(flattened.nodes[1].property, None);
}

#[test]
fn property_under_an_alias_that_is_not_exposed_is_refused() {
    let (main, sub) = property_fixture(Some(object(vec![("unknown", text("x"))])));
    let error = main
        .flatten(|_uri: &str| -> Result<Graph, GraphError> { Ok(sub.clone()) })
        .unwrap_err();
    assert_eq!(error.kind, GraphErrorKind::UnresolvedReference);
    assert_eq!(
        error.to_string(),
        "Property 'unknown' specified in subgraph node 'sg' is not exposed by the subgraph"
    );
}

#[test]
fn property_for_a_subgraph_that_exposes_none_is_refused() {
    let (main, mut sub) = property_fixture(Some(object(vec![("mode", text("x"))])));
    sub.exposed_properties = None;
    let error = main
        .flatten(|_uri: &str| -> Result<Graph, GraphError> { Ok(sub.clone()) })
        .unwrap_err();
    assert_eq!(error.kind, GraphErrorKind::UnresolvedReference);
    assert_eq!(
        error.to_string(),
        "Subgraph 'sg' does not have exposed_properties defined, but property 'mode' is specified in the subgraph node"
    );
}

#[test]
fn exposed_property_without_extension_is_a_missing_field() {
    let (main, sub) = property_fixture(Some(object(vec![("orphan", text("x"))])));
    let error = main
        .flatten(|_uri: &str| -> Result<Graph, GraphError> { Ok(sub.clone()) })
        .unwrap_err();
    assert_eq!(error.kind, GraphErrorKind::MissingField);
    assert_eq!(
        error.to_string(),
        "Exposed property 'orphan' in subgraph 'sg' does not specify an extension"
    );
}

#[test]
fn message_conversion_is_carried_along() {
    let conversion = object(vec![("type", text("per_property"))]);
    let main = graph(
        vec![extension("ext_a", "addon_a"), subgraph_node("sg", "uri")],
        Some(vec![cmd_connection(
            to_extension("ext_a"),
            vec![GraphMessageFlow {
                name: "B".to_string(),
                dest: vec![GraphDestination {
                    loc: to_subgraph("sg"),
                    msg_conversion: Some(conversion.clone()),
                }],
            }],
        )]),
    );
    let mut sub = graph(vec![extension("n", "addon_n")], None);
    sub.exposed_messages = Some(vec![exposed(GraphExposedMessageType::CmdIn, "B", "n")]);
    let flattened = main
        .flatten(|_uri: &str| -> Result<Graph, GraphError> { Ok(sub.clone()) })
        .unwrap();
    let connections = flattened.connections.unwrap();
    let dest = &connections[0].cmd.as_ref().unwrap()[0].dest[0];
    assert_eq!(dest.loc, to_extension("sg_n"));
    assert_eq!(dest.msg_conversion, Some(conversion));
}

#[test]
fn resolve_subgraph_to_extension_takes_the_first_match() {
    let mut sub = graph(vec![], None);
    sub.exposed_messages = Some(vec![
        exposed(GraphExposedMessageType::DataIn, "m", "wrong_type"),
        exposed(GraphExposedMessageType::CmdIn, "other", "wrong_name"),
        exposed(GraphExposedMessageType::CmdIn, "m", "first"),
        exposed(GraphExposedMessageType::CmdIn, "m", "second"),
    ]);
    let resolved =
        Graph::resolve_subgraph_to_extension("sg", &sub, "m", GraphExposedMessageType::CmdIn);
    assert_eq!(resolved, Ok("sg_first".to_string()));
    let missing =
        Graph::resolve_subgraph_to_extension("sg", &sub, "m", GraphExposedMessageType::CmdOut);
    assert_eq!(
        missing.unwrap_err().to_string(),
        "Message 'm' of type 'CmdOut' is not exposed by subgraph 'sg'"
    );
}

#[test]
fn failed_overlay_keeps_what_was_set_before_and_sets_nothing_after() {
    let (main, sub) = property_fixture(Some(object(vec![
        ("first_port", text("8080")),
        ("orphan", text("never written")),
        ("zz_later", text("never reached")),
    ])));
    let owner = &main.nodes[0];
    let inner = &sub.nodes[0];
    let mut copy = inner.clone();
    let error =
        Graph::apply_subgraph_properties_to_extension(&mut copy, inner, owner, &sub).unwrap_err();
    assert_eq!(error.kind, GraphErrorKind::MissingField);
    assert_eq!(
        copy.property,
        Some(object(vec![("kept", text("old")), ("port", text("8080"))]))
    );
    assert_eq!(copy.name, inner.name);
}

#[test]
fn failed_inlining_appends_nothing() {
    let (main, sub) = property_fixture(Some(object(vec![("unknown", text("x"))])));
    let mut nodes = vec![extension("already", "addon_there")];
    let result = Graph::process_extension_nodes_from_subgraph(&main.nodes[0], &sub, &mut nodes);
    assert!(result.is_err());
    assert_eq!(nodes, vec![extension("already", "addon_there")]);

    let inner = graph(
        vec![extension("n", "addon_n")],
        Some(vec![
            cmd_connection(to_extension("n"), vec![flow("fine", vec![to_extension("n")])]),
            cmd_connection(to_extension("n"), vec![flow("bad", vec![to_subgraph("ghost")])]),
        ]),
    );
    let mut connections = vec![cmd_connection(to_extension("already"), vec![])];
    let result = Graph::add_internal_connections_from_subgraph(&inner, "sg", &mut connections);
    assert!(result.is_err());
    assert_eq!(connections, vec![cmd_connection(to_extension("already"), vec![])]);
}

#[test]
fn connection_that_addresses_a_subgraph_is_left_as_it_is() {
    let given = GraphConnection {
        loc: to_extension("n"),
        cmd: Some(vec![flow("fine", vec![to_extension("a"), to_extension("b")])]),
        data: Some(vec![flow("bad", vec![to_extension("c"), to_subgraph("ghost")])]),
        audio_frame: None,
        video_frame: None,
    };
    let mut connection = given.clone();
    let result = Graph::flatten_connection_destinations_in_subgraph(&mut connection, "sg");
    assert_eq!(
        result.unwrap_err().to_string(),
        "Unexpected subgraph reference in a connection of flattened subgraph 'sg'"
    );
    assert_eq!(connection, given);

    let mut source = GraphConnection {
        loc: to_subgraph("ghost"),
        cmd: None,
        data: None,
        audio_frame: None,
        video_frame: None,
    };
    assert!(Graph::flatten_connection_source_in_subgraph(&mut source, "sg").is_err());
    assert_eq!(source.loc, to_subgraph("ghost"));

    let mut fine = GraphConnection {
        loc: to_extension("n"),
        cmd: Some(vec![flow("fine", vec![to_extension("a")])]),
        data: None,
        audio_frame: None,
        video_frame: Some(vec![flow("video", vec![to_extension("b")])]),
    };
    assert_eq!(
        Graph::flatten_connection_destinations_in_subgraph(&mut fine, "sg"),
        Ok(())
    );
    assert_eq!(
        fine,
        GraphConnection {
            loc: to_extension("n"),
            cmd: Some(vec![flow("fine", vec![to_extension("sg_a")])]),
            data: None,
            audio_frame: None,
            video_frame: Some(vec![flow("video", vec![to_extension("sg_b")])]),
        }
    );
}

#[test]
fn node_of_a_subgraph_stands_in_the_place_of_its_subgraph_node() {
    let main = graph(
        vec![
            extension("before", "addon_before"),
            subgraph_node("s", "uri"),
            extension("after", "addon_after"),
        ],
        None,
    );
    let mut first = extension("one", "addon_one");
    first.extension_group = Some("group".to_string());
    first.app = Some("app_1".to_string());
    first.property = Some(object(vec![("k", text("v"))]));
    let sub = graph(vec![first.clone(), extension("two", "addon_two")], None);
    let flattened = main
        .flatten(|_uri: &str| -> Result<Graph, GraphError> { Ok(sub.clone()) })
        .unwrap();
    assert_eq!(names(&flattened), vec!["before", "s_one", "s_two", "after"]);
    let mut expected = first;
    expected.name = "s_one".to_string();
    assert_eq!(flattened.nodes[1], expected);
    assert!(flattened.nodes.iter().all(|node| node.name != "s"));
}

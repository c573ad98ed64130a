//! Graphs of extension nodes and the messages they exchange.

pub mod check;
pub mod check_model;
pub mod connection;
pub mod error;
pub mod node;
pub mod subgraph;
pub mod subgraph_laws;
pub mod subgraph_model;
pub mod subgraph_proofs;

use vstd::prelude::*;
use crate::graph::connection::{GraphConnection, GraphConnectionView, MessageKind};
use crate::graph::node::{GraphNode, GraphNodeType, GraphNodeView};

verus! {

/// The kind of a message together with the direction in which it crosses the
/// boundary of a graph.
#[derive(Clone, Copy, Debug, PartialEq, Eq, Structural)]
pub enum GraphExposedMessageType {
    CmdIn,
    CmdOut,
    DataIn,
    DataOut,
    AudioFrameIn,
    AudioFrameOut,
    VideoFrameIn,
    VideoFrameOut,
}

/// The type of a message of `kind` that enters a graph.
pub open spec fn incoming(kind: MessageKind) -> GraphExposedMessageType {
    match kind {
        MessageKind::Cmd => GraphExposedMessageType::CmdIn,
        MessageKind::Data => GraphExposedMessageType::DataIn,
        MessageKind::AudioFrame => GraphExposedMessageType::AudioFrameIn,
        MessageKind::VideoFrame => GraphExposedMessageType::VideoFrameIn,
    }
}

/// The type of a message of `kind` that leaves a graph.
pub open spec fn outgoing(kind: MessageKind) -> GraphExposedMessageType {
    match kind {
        MessageKind::Cmd => GraphExposedMessageType::CmdOut,
        MessageKind::Data => GraphExposedMessageType::DataOut,
        MessageKind::AudioFrame => GraphExposedMessageType::AudioFrameOut,
        MessageKind::VideoFrame => GraphExposedMessageType::VideoFrameOut,
    }
}

/// The name under which a message type appears in messages.
pub open spec fn message_type_name(msg_type: GraphExposedMessageType) -> Seq<char> {
    match msg_type {
        GraphExposedMessageType::CmdIn => "CmdIn"@,
        GraphExposedMessageType::CmdOut => "CmdOut"@,
        GraphExposedMessageType::DataIn => "DataIn"@,
        GraphExposedMessageType::DataOut => "DataOut"@,
        GraphExposedMessageType::AudioFrameIn => "AudioFrameIn"@,
        GraphExposedMessageType::AudioFrameOut => "AudioFrameOut"@,
        GraphExposedMessageType::VideoFrameIn => "VideoFrameIn"@,
        GraphExposedMessageType::VideoFrameOut => "VideoFrameOut"@,
    }
}

impl GraphExposedMessageType {
    /// The name of this message type.
    pub fn name(&self) -> (r: &'static str)
        ensures
            r@ == message_type_name(*self),
    {
        match self {
            GraphExposedMessageType::CmdIn => "CmdIn",
            GraphExposedMessageType::CmdOut => "CmdOut",
            GraphExposedMessageType::DataIn => "DataIn",
            GraphExposedMessageType::DataOut => "DataOut",
            GraphExposedMessageType::AudioFrameIn => "AudioFrameIn",
            GraphExposedMessageType::AudioFrameOut => "AudioFrameOut",
            GraphExposedMessageType::VideoFrameIn => "VideoFrameIn",
            GraphExposedMessageType::VideoFrameOut => "VideoFrameOut",
        }
    }
}

/// A graph's declaration that one of its extensions takes or gives a message
/// across the graph's boundary.
#[derive(Debug, PartialEq)]
pub struct GraphExposedMessage {
    pub msg_type: GraphExposedMessageType,
    pub name: String,
    pub extension: Option<String>,
}

/// The mathematical view of a [`GraphExposedMessage`].
pub struct GraphExposedMessageView {
    pub msg_type: GraphExposedMessageType,
    pub name: Seq<char>,
    pub extension: Option<Seq<char>>,
}

impl View for GraphExposedMessage {
    type V = GraphExposedMessageView;

    open spec fn view(&self) -> GraphExposedMessageView {
        GraphExposedMessageView {
            msg_type: self.msg_type,
            name: self.name@,
            extension: self.extension.deep_view(),
        }
    }
}

impl DeepView for GraphExposedMessage {
    type V = GraphExposedMessageView;

    open spec fn deep_view(&self) -> GraphExposedMessageView {
        self@
    }
}

impl Clone for GraphExposedMessage {
    fn clone(&self) -> (r: Self)
        ensures
            r@ == self@,
    {
        GraphExposedMessage {
            msg_type: self.msg_type,
            name: self.name.clone(),
            extension: self.extension.clone(),
        }
    }
}

/// A graph's declaration that a property of one of its extensions can be set
/// from outside under an alias.
#[derive(Debug, PartialEq)]
pub struct GraphExposedProperty {
    pub extension: Option<String>,
    pub name: String,
    pub alias: String,
}

/// The mathematical view of a [`GraphExposedProperty`].
pub struct GraphExposedPropertyView {
    pub extension: Option<Seq<char>>,
    pub name: Seq<char>,
    pub alias: Seq<char>,
}

impl View for GraphExposedProperty {
    type V = GraphExposedPropertyView;

    open spec fn view(&self) -> GraphExposedPropertyView {
        GraphExposedPropertyView {
            extension: self.extension.deep_view(),
            name: self.name@,
            alias: self.alias@,
        }
    }
}

impl DeepView for GraphExposedProperty {
    type V = GraphExposedPropertyView;

    open spec fn deep_view(&self) -> GraphExposedPropertyView {
        self@
    }
}

impl Clone for GraphExposedProperty {
    fn clone(&self) -> (r: Self)
        ensures
            r@ == self@,
    {
        GraphExposedProperty {
            extension: self.extension.clone(),
            name: self.name.clone(),
            alias: self.alias.clone(),
        }
    }
}

/// A graph: its nodes in order, the connections between them, and what it
/// exposes to a graph that holds it as a subgraph.
#[derive(Debug, PartialEq)]
pub struct Graph {
    pub nodes: Vec<GraphNode>,
    pub connections: Option<Vec<GraphConnection>>,
    pub exposed_messages: Option<Vec<GraphExposedMessage>>,
    pub exposed_properties: Option<Vec<GraphExposedProperty>>,
}

/// The mathematical view of a [`Graph`].
pub struct GraphView {
    pub nodes: Seq<GraphNodeView>,
    pub connections: Option<Seq<GraphConnectionView>>,
    pub exposed_messages: Option<Seq<GraphExposedMessageView>>,
    pub exposed_properties: Option<Seq<GraphExposedPropertyView>>,
}

impl GraphView {
    /// Whether the graph holds a subgraph node.
    pub open spec fn has_subgraph_node(self) -> bool {
        exists|i: int| 0 <= i < self.nodes.len() && self.nodes[i].type_ == GraphNodeType::Subgraph
    }

    /// Whether every node of the graph is an extension.
    pub open spec fn is_extension_only(self) -> bool {
        forall|i: int|
            0 <= i < self.nodes.len() ==> (#[trigger] self.nodes[i]).type_
                == GraphNodeType::Extension
    }
}

impl View for Graph {
    type V = GraphView;

    open spec fn view(&self) -> GraphView {
        GraphView {
            nodes: self.nodes.deep_view(),
            connections: self.connections.deep_view(),
            exposed_messages: self.exposed_messages.deep_view(),
            exposed_properties: self.exposed_properties.deep_view(),
        }
    }
}

impl DeepView for Graph {
    type V = GraphView;

    open spec fn deep_view(&self) -> GraphView {
        self@
    }
}

impl Clone for Graph {
    fn clone(&self) -> (r: Self)
        ensures
            r@ == self@,
    {
        let mut nodes: Vec<GraphNode> = Vec::new();
        let mut i: usize = 0;
        while i < self.nodes.len()
            invariant
                i <= self.nodes.len(),
                nodes.len() == i,
                forall|j: int| 0 <= j < i ==> nodes[j]@ == self.nodes[j]@,
            decreases self.nodes.len() - i,
        {
            nodes.push(self.nodes[i].clone());
            i += 1;
        }
        assert(nodes.deep_view() =~= self.nodes.deep_view());
        let connections = match &self.connections {
            Some(list) => {
                let mut out: Vec<GraphConnection> = Vec::new();
                let mut i: usize = 0;
                while i < list.len()
                    invariant
                        i <= list.len(),
                        out.len() == i,
                        forall|j: int| 0 <= j < i ==> out[j]@ == list[j]@,
                    decreases list.len() - i,
                {
                    out.push(list[i].clone());
                    i += 1;
                }
                assert(out.deep_view() =~= list.deep_view());
                Some(out)
            },
            None => None,
        };
        let exposed_messages = match &self.exposed_messages {
            Some(list) => {
                let mut out: Vec<GraphExposedMessage> = Vec::new();
                let mut i: usize = 0;
                while i < list.len()
                    invariant
                        i <= list.len(),
                        out.len() == i,
                        forall|j: int| 0 <= j < i ==> out[j]@ == list[j]@,
                    decreases list.len() - i,
                {
                    out.push(list[i].clone());
                    i += 1;
                }
                assert(out.deep_view() =~= list.deep_view());
                Some(out)
            },
            None => None,
        };
        let exposed_properties = match &self.exposed_properties {
            Some(list) => {
                let mut out: Vec<GraphExposedProperty> = Vec::new();
                let mut i: usize = 0;
                while i < list.len()
                    invariant
                        i <= list.len(),
                        out.len() == i,
                        forall|j: int| 0 <= j < i ==> out[j]@ == list[j]@,
                    decreases list.len() - i,
                {
                    out.push(list[i].clone());
                    i += 1;
                }
                assert(out.deep_view() =~= list.deep_view());
                Some(out)
            },
            None => None,
        };
        Graph { nodes, connections, exposed_messages, exposed_properties }
    }
}

} // verus!

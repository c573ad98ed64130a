//! The nodes of a graph.

use vstd::prelude::*;
use crate::json::{DocView, opt_doc_view};

verus! {

/// What a node stands for.
#[derive(Clone, Copy, Debug, PartialEq, Eq, Structural)]
pub enum GraphNodeType {
    /// An instance of an extension addon.
    Extension,
    /// A reference to another graph, to be inlined.
    Subgraph,
}

/// A named participant of a graph.
///
/// An extension node names its addon and may carry a property document. A
/// subgraph node names the source of the graph it stands for, and its
/// property document sets exposed properties of that graph by alias.
#[derive(Debug, PartialEq)]
pub struct GraphNode {
    pub type_: GraphNodeType,
    pub name: String,
    pub addon: Option<String>,
    pub extension_group: Option<String>,
    pub app: Option<String>,
    pub property: Option<serde_json::Value>,
    pub source_uri: Option<String>,
}

/// The mathematical view of a [`GraphNode`].
pub struct GraphNodeView {
    pub type_: GraphNodeType,
    pub name: Seq<char>,
    pub addon: Option<Seq<char>>,
    pub extension_group: Option<Seq<char>>,
    pub app: Option<Seq<char>>,
    pub property: Option<DocView>,
    pub source_uri: Option<Seq<char>>,
}

impl View for GraphNode {
    type V = GraphNodeView;

    open spec fn view(&self) -> GraphNodeView {
        GraphNodeView {
            type_: self.type_,
            name: self.name@,
            addon: self.addon.deep_view(),
            extension_group: self.extension_group.deep_view(),
            app: self.app.deep_view(),
            property: opt_doc_view(self.property),
            source_uri: self.source_uri.deep_view(),
        }
    }
}

impl DeepView for GraphNode {
    type V = GraphNodeView;

    open spec fn deep_view(&self) -> GraphNodeView {
        self@
    }
}

impl Clone for GraphNode {
    fn clone(&self) -> (r: Self)
        ensures
            r@ == self@,
    {
        GraphNode {
            type_: self.type_,
            name: self.name.clone(),
            addon: self.addon.clone(),
            extension_group: self.extension_group.clone(),
            app: self.app.clone(),
            property: self.property.clone(),
            source_uri: self.source_uri.clone(),
        }
    }
}

} // verus!

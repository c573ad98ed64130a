//! The errors of graph composition, each with the text it reports.

use vstd::prelude::*;
use vstd::string::StringExecFns;

verus! {

/// The kinds of failure.
#[derive(Clone, Copy, Debug, PartialEq, Eq, Structural)]
pub enum GraphErrorKind {
    /// A field that must be present is absent.
    MissingField,
    /// A name refers to nothing that is declared.
    UnresolvedReference,
    /// A graph that was taken to be flat is not.
    InternalInvariantViolation,
    /// The graph is nested more deeply than is supported.
    UnsupportedStructure,
    /// A message flow connects endpoints whose schemas do not fit.
    IncompatibleSchema,
    /// A subgraph could not be loaded.
    LoadFailed,
}

/// A failure: its kind, and a message that names what was involved.
#[derive(Debug, PartialEq, Eq)]
pub struct GraphError {
    pub kind: GraphErrorKind,
    pub message: String,
}

/// The mathematical view of a [`GraphError`].
pub struct GraphErrorView {
    pub kind: GraphErrorKind,
    pub message: Seq<char>,
}

impl View for GraphError {
    type V = GraphErrorView;

    open spec fn view(&self) -> GraphErrorView {
        GraphErrorView { kind: self.kind, message: self.message@ }
    }
}

impl Clone for GraphError {
    fn clone(&self) -> (r: Self)
        ensures
            r@ == self@,
    {
        GraphError { kind: self.kind, message: self.message.clone() }
    }
}

/// The view of what a fallible operation returned.
pub open spec fn outcome<T: DeepView>(result: Result<T, GraphError>) -> Result<T::V, GraphErrorView> {
    match result {
        Ok(value) => Ok(value.deep_view()),
        Err(e) => Err(e@),
    }
}

/// Whether a fallible operation that changes its argument in place and
/// returns nothing has done what `expected` says: on success the argument
/// holds the expected value, on failure the expected error is returned.
pub open spec fn updated<V>(
    result: Result<(), GraphError>,
    after: V,
    expected: Result<V, GraphErrorView>,
) -> bool {
    match expected {
        Ok(value) => result is Ok && after == value,
        Err(e) => result is Err && result->Err_0@ == e,
    }
}

/// A subgraph node names no source to load it from.
pub open spec fn err_missing_source_uri(node: Seq<char>) -> GraphErrorView {
    GraphErrorView {
        kind: GraphErrorKind::MissingField,
        message: "Subgraph node '"@ + node + "' must have source_uri"@,
    }
}

/// An exposed message of a subgraph names no extension.
pub open spec fn err_exposed_message_without_extension(
    flow: Seq<char>,
    subgraph: Seq<char>,
) -> GraphErrorView {
    GraphErrorView {
        kind: GraphErrorKind::MissingField,
        message: "Exposed message '"@ + flow + "' in subgraph '"@ + subgraph
            + "' does not specify an extension"@,
    }
}

/// An exposed property of a subgraph names no extension.
pub open spec fn err_exposed_property_without_extension(
    alias: Seq<char>,
    subgraph: Seq<char>,
) -> GraphErrorView {
    GraphErrorView {
        kind: GraphErrorKind::MissingField,
        message: "Exposed property '"@ + alias + "' in subgraph '"@ + subgraph
            + "' does not specify an extension"@,
    }
}

/// A subgraph exposes no message of the given name and direction.
pub open spec fn err_message_not_exposed(
    flow: Seq<char>,
    direction: Seq<char>,
    subgraph: Seq<char>,
) -> GraphErrorView {
    GraphErrorView {
        kind: GraphErrorKind::UnresolvedReference,
        message: "Message '"@ + flow + "' of type '"@ + direction + "' is not exposed by subgraph '"@
            + subgraph + "'"@,
    }
}

/// A message flow addresses a subgraph that exposes no messages at all.
pub open spec fn err_no_exposed_messages(
    flow: Seq<char>,
    direction: Seq<char>,
    subgraph: Seq<char>,
) -> GraphErrorView {
    GraphErrorView {
        kind: GraphErrorKind::UnresolvedReference,
        message: "Subgraph '"@ + subgraph + "' does not have exposed_messages defined, so message '"@
            + flow + "' of type '"@ + direction + "' is not exposed"@,
    }
}

/// A destination of a message flow names a subgraph that the graph does not
/// hold.
pub open spec fn err_destination_not_found(
    flow: Seq<char>,
    direction: Seq<char>,
    subgraph: Seq<char>,
) -> GraphErrorView {
    GraphErrorView {
        kind: GraphErrorKind::UnresolvedReference,
        message: "Subgraph '"@ + subgraph + "' not found for message '"@ + flow + "' of type '"@
            + direction + "'"@,
    }
}

/// The source of a connection names a subgraph that the graph does not hold.
pub open spec fn err_subgraph_not_found(subgraph: Seq<char>) -> GraphErrorView {
    GraphErrorView {
        kind: GraphErrorKind::UnresolvedReference,
        message: "Subgraph '"@ + subgraph + "' not found"@,
    }
}

/// A subgraph node sets a property under an alias that its subgraph does not
/// expose.
pub open spec fn err_property_not_exposed(alias: Seq<char>, node: Seq<char>) -> GraphErrorView {
    GraphErrorView {
        kind: GraphErrorKind::UnresolvedReference,
        message: "Property '"@ + alias + "' specified in subgraph node '"@ + node
            + "' is not exposed by the subgraph"@,
    }
}

/// A subgraph node sets a property, and its subgraph exposes none.
pub open spec fn err_no_exposed_properties(alias: Seq<char>, node: Seq<char>) -> GraphErrorView {
    GraphErrorView {
        kind: GraphErrorKind::UnresolvedReference,
        message: "Subgraph '"@ + node + "' does not have exposed_properties defined, but property '"@
            + alias + "' is specified in the subgraph node"@,
    }
}

/// A connection that starts at a subgraph carries no message flow.
pub open spec fn err_no_message_flows(subgraph: Seq<char>) -> GraphErrorView {
    GraphErrorView {
        kind: GraphErrorKind::InternalInvariantViolation,
        message: "No message flows found for subgraph: "@ + subgraph,
    }
}

/// A connection inside a subgraph that holds no subgraph nodes still
/// addresses a subgraph.
pub open spec fn err_subgraph_reference_inside(owner: Seq<char>) -> GraphErrorView {
    GraphErrorView {
        kind: GraphErrorKind::InternalInvariantViolation,
        message: "Unexpected subgraph reference in a connection of flattened subgraph '"@ + owner
            + "'"@,
    }
}

/// Subgraphs are nested more deeply than is supported.
pub open spec fn err_nesting_too_deep() -> GraphErrorView {
    GraphErrorView {
        kind: GraphErrorKind::UnsupportedStructure,
        message: "Nested subgraphs are not supported beyond the maximum nesting depth"@,
    }
}

/// A location names a subgraph that is not among the nodes of the graph.
pub open spec fn err_subgraph_not_defined(subgraph: Seq<char>) -> GraphErrorView {
    GraphErrorView {
        kind: GraphErrorKind::UnresolvedReference,
        message: "The subgraph '"@ + subgraph + "' is not defined in nodes"@,
    }
}

/// A location names an extension that is not among the nodes of the graph.
pub open spec fn err_extension_not_defined(extension: Seq<char>) -> GraphErrorView {
    GraphErrorView {
        kind: GraphErrorKind::UnresolvedReference,
        message: "The extension '"@ + extension + "' is not defined in nodes"@,
    }
}

/// An extension node names no addon.
pub open spec fn err_missing_addon(node: Seq<char>) -> GraphErrorView {
    GraphErrorView {
        kind: GraphErrorKind::MissingField,
        message: "Extension node '"@ + node + "' must have addon"@,
    }
}

/// The addon of an extension node is not installed in the app of the node.
pub open spec fn err_addon_not_installed(addon: Seq<char>, node: Seq<char>) -> GraphErrorView {
    GraphErrorView {
        kind: GraphErrorKind::UnresolvedReference,
        message: "The addon '"@ + addon + "' of extension node '"@ + node
            + "' is not installed in its app"@,
    }
}

fn text3(a: &str, x: &str, b: &str) -> (r: String)
    ensures
        r@ == a@ + x@ + b@,
{
    let mut s = String::from_str(a);
    s.append(x);
    s.append(b);
    s
}

fn text5(a: &str, x: &str, b: &str, y: &str, c: &str) -> (r: String)
    ensures
        r@ == a@ + x@ + b@ + y@ + c@,
{
    let mut s = text3(a, x, b);
    s.append(y);
    s.append(c);
    s
}

impl GraphError {
    /// The message of this error.
    pub fn to_string(&self) -> (r: String)
        ensures
            r@ == self@.message,
    {
        self.message.clone()
    }

    pub fn missing_source_uri(node: &str) -> (e: GraphError)
        ensures
            e@ == err_missing_source_uri(node@),
    {
        GraphError {
            kind: GraphErrorKind::MissingField,
            message: text3("Subgraph node '", node, "' must have source_uri"),
        }
    }

    pub fn exposed_message_without_extension(flow: &str, subgraph: &str) -> (e: GraphError)
        ensures
            e@ == err_exposed_message_without_extension(flow@, subgraph@),
    {
        GraphError {
            kind: GraphErrorKind::MissingField,
            message: text5(
                "Exposed message '",
                flow,
                "' in subgraph '",
                subgraph,
                "' does not specify an extension",
            ),
        }
    }

    pub fn exposed_property_without_extension(alias: &str, subgraph: &str) -> (e: GraphError)
        ensures
            e@ == err_exposed_property_without_extension(alias@, subgraph@),
    {
        GraphError {
            kind: GraphErrorKind::MissingField,
            message: text5(
                "Exposed property '",
                alias,
                "' in subgraph '",
                subgraph,
                "' does not specify an extension",
            ),
        }
    }

    pub fn message_not_exposed(flow: &str, direction: &str, subgraph: &str) -> (e: GraphError)
        ensures
            e@ == err_message_not_exposed(flow@, direction@, subgraph@),
    {
        let mut message = text5(
            "Message '",
            flow,
            "' of type '",
            direction,
            "' is not exposed by subgraph '",
        );
        message.append(subgraph);
        message.append("'");
        GraphError { kind: GraphErrorKind::UnresolvedReference, message }
    }

    pub fn no_exposed_messages(flow: &str, direction: &str, subgraph: &str) -> (e: GraphError)
        ensures
            e@ == err_no_exposed_messages(flow@, direction@, subgraph@),
    {
        let mut message = text5(
            "Subgraph '",
            subgraph,
            "' does not have exposed_messages defined, so message '",
            flow,
            "' of type '",
        );
        message.append(direction);
        message.append("' is not exposed");
        GraphError { kind: GraphErrorKind::UnresolvedReference, message }
    }

    pub fn destination_not_found(flow: &str, direction: &str, subgraph: &str) -> (e: GraphError)
        ensures
            e@ == err_destination_not_found(flow@, direction@, subgraph@),
    {
        let mut message = text5(
            "Subgraph '",
            subgraph,
            "' not found for message '",
            flow,
            "' of type '",
        );
        message.append(direction);
        message.append("'");
        GraphError { kind: GraphErrorKind::UnresolvedReference, message }
    }

    pub fn subgraph_not_found(subgraph: &str) -> (e: GraphError)
        ensures
            e@ == err_subgraph_not_found(subgraph@),
    {
        GraphError {
            kind: GraphErrorKind::UnresolvedReference,
            message: text3("Subgraph '", subgraph, "' not found"),
        }
    }

    pub fn property_not_exposed(alias: &str, node: &str) -> (e: GraphError)
        ensures
            e@ == err_property_not_exposed(alias@, node@),
    {
        GraphError {
            kind: GraphErrorKind::UnresolvedReference,
            message: text5(
                "Property '",
                alias,
                "' specified in subgraph node '",
                node,
                "' is not exposed by the subgraph",
            ),
        }
    }

    pub fn no_exposed_properties(alias: &str, node: &str) -> (e: GraphError)
        ensures
            e@ == err_no_exposed_properties(alias@, node@),
    {
        GraphError {
            kind: GraphErrorKind::UnresolvedReference,
            message: text5(
                "Subgraph '",
                node,
                "' does not have exposed_properties defined, but property '",
                alias,
                "' is specified in the subgraph node",
            ),
        }
    }

    pub fn no_message_flows(subgraph: &str) -> (e: GraphError)
        ensures
            e@ == err_no_message_flows(subgraph@),
    {
        let mut message = String::from_str("No message flows found for subgraph: ");
        message.append(subgraph);
        GraphError { kind: GraphErrorKind::InternalInvariantViolation, message }
    }

    pub fn subgraph_reference_inside(owner: &str) -> (e: GraphError)
        ensures
            e@ == err_subgraph_reference_inside(owner@),
    {
        GraphError {
            kind: GraphErrorKind::InternalInvariantViolation,
            message: text3(
                "Unexpected subgraph reference in a connection of flattened subgraph '",
                owner,
                "'",
            ),
        }
    }

    pub fn subgraph_not_defined(subgraph: &str) -> (e: GraphError)
        ensures
            e@ == err_subgraph_not_defined(subgraph@),
    {
        GraphError {
            kind: GraphErrorKind::UnresolvedReference,
            message: text3("The subgraph '", subgraph, "' is not defined in nodes"),
        }
    }

    pub fn extension_not_defined(extension: &str) -> (e: GraphError)
        ensures
            e@ == err_extension_not_defined(extension@),
    {
        GraphError {
            kind: GraphErrorKind::UnresolvedReference,
            message: text3("The extension '", extension, "' is not defined in nodes"),
        }
    }

    pub fn missing_addon(node: &str) -> (e: GraphError)
        ensures
            e@ == err_missing_addon(node@),
    {
        GraphError {
            kind: GraphErrorKind::MissingField,
            message: text3("Extension node '", node, "' must have addon"),
        }
    }

    pub fn addon_not_installed(addon: &str, node: &str) -> (e: GraphError)
        ensures
            e@ == err_addon_not_installed(addon@, node@),
    {
        GraphError {
            kind: GraphErrorKind::UnresolvedReference,
            message: text5(
                "The addon '",
                addon,
                "' of extension node '",
                node,
                "' is not installed in its app",
            ),
        }
    }

    pub fn nesting_too_deep() -> (e: GraphError)
        ensures
            e@ == err_nesting_too_deep(),
    {
        GraphError {
            kind: GraphErrorKind::UnsupportedStructure,
            message: String::from_str(
                "Nested subgraphs are not supported beyond the maximum nesting depth",
            ),
        }
    }
}

} // verus!

//! Locations, message flows and connections.

use vstd::prelude::*;

verus! {

/// An address in a graph: an extension or a subgraph, optionally in a given
/// app. The extension field may hold the shorthand `owner:member` for a
/// member of a subgraph.
#[derive(Debug, PartialEq)]
pub struct GraphLoc {
    pub app: Option<String>,
    pub extension: Option<String>,
    pub subgraph: Option<String>,
}

/// The mathematical view of a [`GraphLoc`].
pub struct GraphLocView {
    pub app: Option<Seq<char>>,
    pub extension: Option<Seq<char>>,
    pub subgraph: Option<Seq<char>>,
}

impl View for GraphLoc {
    type V = GraphLocView;

    open spec fn view(&self) -> GraphLocView {
        GraphLocView {
            app: self.app.deep_view(),
            extension: self.extension.deep_view(),
            subgraph: self.subgraph.deep_view(),
        }
    }
}

impl DeepView for GraphLoc {
    type V = GraphLocView;

    open spec fn deep_view(&self) -> GraphLocView {
        self@
    }
}

impl Clone for GraphLoc {
    fn clone(&self) -> (r: Self)
        ensures
            r@ == self@,
    {
        GraphLoc {
            app: self.app.clone(),
            extension: self.extension.clone(),
            subgraph: self.subgraph.clone(),
        }
    }
}

/// Where a message flow delivers to, with a conversion document that is
/// carried along as it is.
#[derive(Debug, PartialEq)]
pub struct GraphDestination {
    pub loc: GraphLoc,
    pub msg_conversion: Option<serde_json::Value>,
}

/// The mathematical view of a [`GraphDestination`].
pub struct GraphDestinationView {
    pub loc: GraphLocView,
    pub msg_conversion: Option<serde_json::Value>,
}

impl View for GraphDestination {
    type V = GraphDestinationView;

    open spec fn view(&self) -> GraphDestinationView {
        GraphDestinationView { loc: self.loc@, msg_conversion: self.msg_conversion }
    }
}

impl DeepView for GraphDestination {
    type V = GraphDestinationView;

    open spec fn deep_view(&self) -> GraphDestinationView {
        self@
    }
}

impl Clone for GraphDestination {
    fn clone(&self) -> (r: Self)
        ensures
            r@ == self@,
    {
        GraphDestination { loc: self.loc.clone(), msg_conversion: self.msg_conversion.clone() }
    }
}

/// A named message and the destinations it fans out to.
#[derive(Debug, PartialEq)]
pub struct GraphMessageFlow {
    pub name: String,
    pub dest: Vec<GraphDestination>,
}

/// The mathematical view of a [`GraphMessageFlow`].
pub struct GraphMessageFlowView {
    pub name: Seq<char>,
    pub dest: Seq<GraphDestinationView>,
}

impl View for GraphMessageFlow {
    type V = GraphMessageFlowView;

    open spec fn view(&self) -> GraphMessageFlowView {
        GraphMessageFlowView { name: self.name@, dest: self.dest.deep_view() }
    }
}

impl DeepView for GraphMessageFlow {
    type V = GraphMessageFlowView;

    open spec fn deep_view(&self) -> GraphMessageFlowView {
        self@
    }
}

impl Clone for GraphMessageFlow {
    fn clone(&self) -> (r: Self)
        ensures
            r@ == self@,
    {
        let mut dest: Vec<GraphDestination> = Vec::new();
        let mut i: usize = 0;
        while i < self.dest.len()
            invariant
                i <= self.dest.len(),
                dest.len() == i,
                forall|j: int| 0 <= j < i ==> dest[j]@ == self.dest[j]@,
            decreases self.dest.len() - i,
        {
            dest.push(self.dest[i].clone());
            i += 1;
        }
        assert(dest.deep_view() =~= self.dest.deep_view());
        GraphMessageFlow { name: self.name.clone(), dest }
    }
}

/// The four kinds of message.
#[derive(Clone, Copy, Debug, PartialEq, Eq, Structural)]
pub enum MessageKind {
    Cmd,
    Data,
    AudioFrame,
    VideoFrame,
}

/// The message flows that leave one location, by kind of message.
#[derive(Debug, PartialEq)]
pub struct GraphConnection {
    pub loc: GraphLoc,
    pub cmd: Option<Vec<GraphMessageFlow>>,
    pub data: Option<Vec<GraphMessageFlow>>,
    pub audio_frame: Option<Vec<GraphMessageFlow>>,
    pub video_frame: Option<Vec<GraphMessageFlow>>,
}

/// The mathematical view of a [`GraphConnection`].
pub struct GraphConnectionView {
    pub loc: GraphLocView,
    pub cmd: Option<Seq<GraphMessageFlowView>>,
    pub data: Option<Seq<GraphMessageFlowView>>,
    pub audio_frame: Option<Seq<GraphMessageFlowView>>,
    pub video_frame: Option<Seq<GraphMessageFlowView>>,
}

impl GraphConnectionView {
    /// The flows of one kind.
    pub open spec fn flows(self, kind: MessageKind) -> Option<Seq<GraphMessageFlowView>> {
        match kind {
            MessageKind::Cmd => self.cmd,
            MessageKind::Data => self.data,
            MessageKind::AudioFrame => self.audio_frame,
            MessageKind::VideoFrame => self.video_frame,
        }
    }
}

impl View for GraphConnection {
    type V = GraphConnectionView;

    open spec fn view(&self) -> GraphConnectionView {
        GraphConnectionView {
            loc: self.loc@,
            cmd: self.cmd.deep_view(),
            data: self.data.deep_view(),
            audio_frame: self.audio_frame.deep_view(),
            video_frame: self.video_frame.deep_view(),
        }
    }
}

impl DeepView for GraphConnection {
    type V = GraphConnectionView;

    open spec fn deep_view(&self) -> GraphConnectionView {
        self@
    }
}

/// Copies a list of message flows.
pub fn clone_flows(flows: &Vec<GraphMessageFlow>) -> (r: Vec<GraphMessageFlow>)
    ensures
        r.deep_view() == flows.deep_view(),
{
    let mut out: Vec<GraphMessageFlow> = Vec::new();
    let mut i: usize = 0;
    while i < flows.len()
        invariant
            i <= flows.len(),
            out.len() == i,
            forall|j: int| 0 <= j < i ==> out[j]@ == flows[j]@,
        decreases flows.len() - i,
    {
        out.push(flows[i].clone());
        i += 1;
    }
    assert(out.deep_view() =~= flows.deep_view());
    out
}

/// Copies an optional list of message flows.
pub fn clone_optional_flows(flows: &Option<Vec<GraphMessageFlow>>) -> (r: Option<
    Vec<GraphMessageFlow>,
>)
    ensures
        r.deep_view() == flows.deep_view(),
{
    match flows {
        Some(list) => Some(clone_flows(list)),
        None => None,
    }
}

impl Clone for GraphConnection {
    fn clone(&self) -> (r: Self)
        ensures
            r@ == self@,
    {
        GraphConnection {
            loc: self.loc.clone(),
            cmd: clone_optional_flows(&self.cmd),
            data: clone_optional_flows(&self.data),
            audio_frame: clone_optional_flows(&self.audio_frame),
            video_frame: clone_optional_flows(&self.video_frame),
        }
    }
}

} // verus!

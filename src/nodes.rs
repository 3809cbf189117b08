use vstd::prelude::*;

verus! {

/// A node of a document tree.
#[derive(Debug, PartialEq, Eq)]
pub enum Node {
    Document(Vec<Node>),
    Title(String),
    Date(String),
    Description(String),
    Content(Vec<ContentNode>),
}

/// The mathematical value of a document node.
pub enum NodeV {
    Document(Seq<NodeV>),
    Title(Seq<char>),
    Date(Seq<char>),
    Description(Seq<char>),
    Content(Seq<ContentV>),
}

/// The values of a sequence of document nodes, in order.
pub open spec fn node_views_of(kids: Seq<Node>) -> Seq<NodeV>
    decreases kids, 0int,
{
    Seq::new(kids.len(), |i: int| if 0 <= i < kids.len() { kids[i]@ } else { NodeV::Title(Seq::empty()) })
}

impl View for Node {
    type V = NodeV;

    open spec fn view(&self) -> NodeV
        decreases self, 1int,
    {
        proof {
            broadcast use vstd::std_specs::vec::axiom_vec_decreases_to_view;
        }
        match self {
            Node::Document(kids) => NodeV::Document(node_views_of(kids@)),
            Node::Title(s) => NodeV::Title(s@),
            Node::Date(s) => NodeV::Date(s@),
            Node::Description(s) => NodeV::Description(s@),
            Node::Content(kids) => NodeV::Content(views_of(kids@)),
        }
    }
}

/// A node inside a `content:` section.
#[derive(Debug, PartialEq, Eq)]
pub enum ContentNode {
    /// A segment of formatted text.
    Paragraph(Vec<ContentNode>),
    /// A link to another page, with its body.
    Link(String, Vec<ContentNode>),
    /// An image with its caption.
    Image(String, String),
    /// A run of text.
    Text(String),
}

/// The mathematical value of a content node.
pub enum ContentV {
    Paragraph(Seq<ContentV>),
    Link(Seq<char>, Seq<ContentV>),
    Image(Seq<char>, Seq<char>),
    Text(Seq<char>),
}

/// The values of a sequence of content nodes, in order.
pub open spec fn views_of(kids: Seq<ContentNode>) -> Seq<ContentV>
    decreases kids, 0int,
{
    Seq::new(kids.len(), |i: int| if 0 <= i < kids.len() { kids[i]@ } else { ContentV::Text(Seq::empty()) })
}

impl View for ContentNode {
    type V = ContentV;

    open spec fn view(&self) -> ContentV
        decreases self, 1int,
    {
        proof {
            broadcast use vstd::std_specs::vec::axiom_vec_decreases_to_view;
        }
        match self {
            ContentNode::Paragraph(kids) => ContentV::Paragraph(views_of(kids@)),
            ContentNode::Link(url, kids) => ContentV::Link(url@, views_of(kids@)),
            ContentNode::Image(url, cap) => ContentV::Image(url@, cap@),
            ContentNode::Text(s) => ContentV::Text(s@),
        }
    }
}

} // verus!

use vstd::prelude::*;
use vstd::string::*;

use crate::nodes::{node_views_of, views_of, ContentNode, ContentV, Node, NodeV};

verus! {

/// The Markdown of a content node.
pub open spec fn markdown_of_content(n: ContentV) -> Seq<char>
    decreases n, 1int,
{
    match n {
        ContentV::Paragraph(kids) => markdown_of_contents(kids) + "\n\n"@,
        ContentV::Link(url, kids) => "["@ + markdown_of_contents(kids) + "]("@ + url + ")"@,
        ContentV::Image(url, caption) => "| ![]("@ + url + ") |"@ + "\n"@ + "|:--:|"@ + "\n"@
            + "| *"@ + caption + "* |"@ + "\n"@,
        ContentV::Text(s) => s,
    }
}

/// The Markdown of content nodes, one after another.
pub open spec fn markdown_of_contents(ns: Seq<ContentV>) -> Seq<char>
    decreases ns, 0int,
{
    if ns.len() == 0 {
        seq![]
    } else {
        markdown_of_contents(ns.drop_last()) + markdown_of_content(ns.last())
    }
}

/// The Markdown of a document node.
pub open spec fn markdown_of(n: NodeV) -> Seq<char>
    decreases n, 1int,
{
    match n {
        NodeV::Document(kids) => markdown_of_nodes(kids),
        NodeV::Title(s) => "# "@ + s + " #"@,
        NodeV::Date(s) => "## "@ + s + " ##"@,
        NodeV::Description(s) => "### "@ + s + " ###"@,
        NodeV::Content(kids) => markdown_of_contents(kids),
    }
}

/// The Markdown of document nodes, each followed by a line feed.
pub open spec fn markdown_of_nodes(ns: Seq<NodeV>) -> Seq<char>
    decreases ns, 0int,
{
    if ns.len() == 0 {
        seq![]
    } else {
        markdown_of_nodes(ns.drop_last()) + markdown_of(ns.last()) + "\n"@
    }
}

fn push_content_markdown(kids: &Vec<ContentNode>, out: &mut String)
    ensures
        final(out)@ == old(out)@ + markdown_of_contents(views_of(kids@)),
    decreases kids, 0int,
{
    let ghost start = out@;
    let mut i: usize = 0;
    assert(views_of(kids@).take(0) =~= seq![]);
    while i < kids.len()
        invariant
            i <= kids.len(),
            out@ == start + markdown_of_contents(views_of(kids@).take(i as int)),
        decreases kids.len() - i,
    {
        proof {
            vstd::std_specs::vec::axiom_vec_index_decreases(*kids, i as int);
        }
        content_markdown(&kids[i], out);
        assert(views_of(kids@).take(i + 1).drop_last() =~= views_of(kids@).take(i as int));
        i = i + 1;
    }
    assert(views_of(kids@).take(i as int) =~= views_of(kids@));
}

fn content_markdown(n: &ContentNode, out: &mut String)
    ensures
        final(out)@ == old(out)@ + markdown_of_content(n@),
    decreases n, 1int,
{
    match n {
        ContentNode::Paragraph(kids) => {
            push_content_markdown(kids, out);
            out.append("\n\n");
        },
        ContentNode::Link(url, kids) => {
            out.append("[");
            push_content_markdown(kids, out);
            out.append("](");
            out.append(url.as_str());
            out.append(")");
        },
        ContentNode::Image(url, caption) => {
            out.append("| ![](");
            out.append(url.as_str());
            out.append(") |");
            out.append("\n");
            out.append("|:--:|");
            out.append("\n");
            out.append("| *");
            out.append(caption.as_str());
            out.append("* |");
            out.append("\n");
        },
        ContentNode::Text(s) => {
            out.append(s.as_str());
        },
    }
}

fn push_nodes_markdown(kids: &Vec<Node>, out: &mut String)
    ensures
        final(out)@ == old(out)@ + markdown_of_nodes(node_views_of(kids@)),
    decreases kids, 0int,
{
    let ghost start = out@;
    let mut i: usize = 0;
    assert(node_views_of(kids@).take(0) =~= seq![]);
    while i < kids.len()
        invariant
            i <= kids.len(),
            out@ == start + markdown_of_nodes(node_views_of(kids@).take(i as int)),
        decreases kids.len() - i,
    {
        proof {
            vstd::std_specs::vec::axiom_vec_index_decreases(*kids, i as int);
        }
        node_markdown(&kids[i], out);
        out.append("\n");
        assert(node_views_of(kids@).take(i + 1).drop_last() =~= node_views_of(kids@).take(
            i as int,
        ));
        i = i + 1;
    }
    assert(node_views_of(kids@).take(i as int) =~= node_views_of(kids@));
}

fn node_markdown(n: &Node, out: &mut String)
    ensures
        final(out)@ == old(out)@ + markdown_of(n@),
    decreases n, 1int,
{
    match n {
        Node::Document(kids) => {
            push_nodes_markdown(kids, out);
        },
        Node::Title(s) => {
            out.append("# ");
            out.append(s.as_str());
            out.append(" #");
        },
        Node::Date(s) => {
            out.append("## ");
            out.append(s.as_str());
            out.append(" ##");
        },
        Node::Description(s) => {
            out.append("### ");
            out.append(s.as_str());
            out.append(" ###");
        },
        Node::Content(kids) => {
            push_content_markdown(kids, out);
        },
    }
}

/// Renders a document tree as Markdown.
pub fn to_markdown(document: &Node) -> (r: String)
    ensures
        r@ == markdown_of(document@),
{
    let mut md = String::new();
    node_markdown(document, &mut md);
    assert(md@ =~= markdown_of(document@));
    md
}

} // verus!

use vstd::prelude::*;
use vstd::string::*;

use crate::nodes::{node_views_of, views_of, ContentNode, ContentV, Node, NodeV};

verus! {

/// The HTML of a content node.
pub open spec fn html_of_content(n: ContentV) -> Seq<char>
    decreases n, 1int,
{
    match n {
        ContentV::Paragraph(kids) => "<p id='paragraph'>"@ + html_of_contents(kids) + "</p>"@,
        ContentV::Link(url, kids) => "<a href='"@ + url + "'>"@ + html_of_contents(kids)
            + "</a>"@,
        ContentV::Image(url, caption) => "<figure>"@ + "<img src='"@ + url + "'>"@
            + "<figcaption>"@ + caption + "</figcaption>"@ + "</figure>"@,
        ContentV::Text(s) => s,
    }
}

/// The HTML of content nodes, one after another.
pub open spec fn html_of_contents(ns: Seq<ContentV>) -> Seq<char>
    decreases ns, 0int,
{
    if ns.len() == 0 {
        seq![]
    } else {
        html_of_contents(ns.drop_last()) + html_of_content(ns.last())
    }
}

/// The HTML of a document node.
pub open spec fn html_of(n: NodeV) -> Seq<char>
    decreases n, 1int,
{
    match n {
        NodeV::Document(kids) => "<div id='document'>"@ + html_of_nodes(kids) + "</div>"@,
        NodeV::Title(s) => "<h1 id='title'>"@ + s + "</h1>"@,
        NodeV::Date(s) => "<h2 id='date'>"@ + s + "</h2>"@,
        NodeV::Description(s) => "<p id='description'>"@ + s + "</p>"@,
        NodeV::Content(kids) => "<div id='content'>"@ + html_of_contents(kids) + "</div>"@,
    }
}

/// The HTML of document nodes, one after another.
pub open spec fn html_of_nodes(ns: Seq<NodeV>) -> Seq<char>
    decreases ns, 0int,
{
    if ns.len() == 0 {
        seq![]
    } else {
        html_of_nodes(ns.drop_last()) + html_of(ns.last())
    }
}

fn push_content_html(kids: &Vec<ContentNode>, out: &mut String)
    ensures
        final(out)@ == old(out)@ + html_of_contents(views_of(kids@)),
    decreases kids, 0int,
{
    let ghost start = out@;
    let mut i: usize = 0;
    assert(views_of(kids@).take(0) =~= seq![]);
    while i < kids.len()
        invariant
            i <= kids.len(),
            out@ == start + html_of_contents(views_of(kids@).take(i as int)),
        decreases kids.len() - i,
    {
        proof {
            vstd::std_specs::vec::axiom_vec_index_decreases(*kids, i as int);
        }
        content_html(&kids[i], out);
        assert(views_of(kids@).take(i + 1).drop_last() =~= views_of(kids@).take(i as int));
        i = i + 1;
    }
    assert(views_of(kids@).take(i as int) =~= views_of(kids@));
}

fn content_html(n: &ContentNode, out: &mut String)
    ensures
        final(out)@ == old(out)@ + html_of_content(n@),
    decreases n, 1int,
{
    match n {
        ContentNode::Paragraph(kids) => {
            out.append("<p id='paragraph'>");
            push_content_html(kids, out);
            out.append("</p>");
        },
        ContentNode::Link(url, kids) => {
            out.append("<a href='");
            out.append(url.as_str());
            out.append("'>");
            push_content_html(kids, out);
            out.append("</a>");
        },
        ContentNode::Image(url, caption) => {
            out.append("<figure>");
            out.append("<img src='");
            out.append(url.as_str());
            out.append("'>");
            out.append("<figcaption>");
            out.append(caption.as_str());
            out.append("</figcaption>");
            out.append("</figure>");
        },
        ContentNode::Text(s) => {
            out.append(s.as_str());
        },
    }
}

fn push_nodes_html(kids: &Vec<Node>, out: &mut String)
    ensures
        final(out)@ == old(out)@ + html_of_nodes(node_views_of(kids@)),
    decreases kids, 0int,
{
    let ghost start = out@;
    let mut i: usize = 0;
    assert(node_views_of(kids@).take(0) =~= seq![]);
    while i < kids.len()
        invariant
            i <= kids.len(),
            out@ == start + html_of_nodes(node_views_of(kids@).take(i as int)),
        decreases kids.len() - i,
    {
        proof {
            vstd::std_specs::vec::axiom_vec_index_decreases(*kids, i as int);
        }
        node_html(&kids[i], out);
        assert(node_views_of(kids@).take(i + 1).drop_last() =~= node_views_of(kids@).take(
            i as int,
        ));
        i = i + 1;
    }
    assert(node_views_of(kids@).take(i as int) =~= node_views_of(kids@));
}

fn node_html(n: &Node, out: &mut String)
    ensures
        final(out)@ == old(out)@ + html_of(n@),
    decreases n, 1int,
{
    match n {
        Node::Document(kids) => {
            out.append("<div id='document'>");
            push_nodes_html(kids, out);
            out.append("</div>");
        },
        Node::Title(s) => {
            out.append("<h1 id='title'>");
            out.append(s.as_str());
            out.append("</h1>");
        },
        Node::Date(s) => {
            out.append("<h2 id='date'>");
            out.append(s.as_str());
            out.append("</h2>");
        },
        Node::Description(s) => {
            out.append("<p id='description'>");
            out.append(s.as_str());
            out.append("</p>");
        },
        Node::Content(kids) => {
            out.append("<div id='content'>");
            push_content_html(kids, out);
            out.append("</div>");
        },
    }
}

/// Renders a document tree as HTML.
pub fn to_html(document: &Node) -> (r: String)
    ensures
        r@ == html_of(document@),
{
    let mut html = String::new();
    node_html(document, &mut html);
    assert(html@ =~= html_of(document@));
    html
}

} // verus!

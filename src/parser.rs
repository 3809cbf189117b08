use vstd::prelude::*;
use vstd::string::*;

use crate::lexer::{lemma_views_push, token_views, Token, TokenV};
use crate::nodes::{node_views_of, views_of, ContentNode, ContentV, Node, NodeV};

verus! {

/// Why a token sequence is not a well-formed document.
#[derive(Debug, Clone, Copy, PartialEq, Eq, Structural)]
pub enum ParseError {
    /// A tag expected a nested body, but no `Indent` followed it.
    MissingIndent,
    /// A token stood where the grammar forbids it.
    UnexpectedToken,
    /// An image's body was not exactly one run of text.
    MalformedImageBody,
    /// The tokens ended before a block's body.
    UnterminatedBlock,
}

/// The text run under way extended by `a`: runs are joined by one space.
pub open spec fn merge(p: Option<Seq<char>>, a: Seq<char>) -> Seq<char> {
    match p {
        Some(q) => q + seq![' '] + a,
        None => a,
    }
}

/// The text run under way as tokens: none, or one `Text`.
pub open spec fn flush(p: Option<Seq<char>>) -> Seq<TokenV> {
    match p {
        Some(q) => seq![TokenV::Text(q)],
        None => seq![],
    }
}

/// The coalesced tokens of `t` from `i` on, with the text run `p` under way.
pub open spec fn coalesce_at(t: Seq<TokenV>, i: int, p: Option<Seq<char>>) -> Seq<TokenV>
    decreases t.len() - i,
{
    if i < 0 || i >= t.len() {
        flush(p)
    } else {
        match t[i] {
            TokenV::Text(a) => coalesce_at(t, i + 1, Some(merge(p, a))),
            _ => flush(p) + seq![t[i]] + coalesce_at(t, i + 1, None),
        }
    }
}

/// `t` with each maximal run of adjacent `Text` tokens merged into one, the
/// values joined by single spaces; other tokens are kept as they are.
pub open spec fn coalesce(t: Seq<TokenV>) -> Seq<TokenV> {
    coalesce_at(t, 0, None)
}

/// The value of a text run under way.
pub open spec fn pending_view(text: Option<String>) -> Option<Seq<char>> {
    match text {
        Some(q) => Some(q@),
        None => None,
    }
}

/// A copy of a token.
fn copy_token(t: &Token) -> (r: Token)
    ensures
        r@ == t@,
{
    match t {
        Token::Title => Token::Title,
        Token::Date => Token::Date,
        Token::Description => Token::Description,
        Token::Content => Token::Content,
        Token::Text(s) => Token::Text(s.clone()),
        Token::Indent => Token::Indent,
        Token::Dedent => Token::Dedent,
        Token::Paragraph => Token::Paragraph,
        Token::Link(u) => Token::Link(u.clone()),
        Token::Image(u) => Token::Image(u.clone()),
    }
}

/// Merges each run of adjacent text tokens into one text token, the values
/// joined by single spaces.
pub fn concatenate_consecutive_text_tokens(tokens: Vec<Token>) -> (r: Vec<Token>)
    ensures
        token_views(r@) == coalesce(token_views(tokens@)),
{
    let ghost tv = token_views(tokens@);
    let mut out: Vec<Token> = Vec::new();
    let mut text: Option<String> = None;
    let mut i: usize = 0;
    assert(token_views(out@) =~= seq![]);
    while i < tokens.len()
        invariant
            tv == token_views(tokens@),
            i <= tokens.len(),
            coalesce(tv) == token_views(out@) + coalesce_at(tv, i as int, pending_view(text)),
        decreases tokens.len() - i,
    {
        let ghost out0 = token_views(out@);
        let ghost p0 = pending_view(text);
        match &tokens[i] {
            Token::Text(a) => {
                let merged = match text {
                    Some(q) => {
                        let mut q = q;
                        q.append(" ");
                        q.append(a.as_str());
                        proof {
                            reveal_strlit(" ");
                        }
                        assert(q@ =~= merge(p0, a@));
                        q
                    },
                    None => a.clone(),
                };
                text = Some(merged);
            },
            t => {
                if let Some(q) = text {
                    let tok = Token::Text(q);
                    proof {
                        lemma_views_push(out@, tok);
                    }
                    out.push(tok);
                }
                text = None;
                let tok = copy_token(t);
                proof {
                    lemma_views_push(out@, tok);
                }
                out.push(tok);
                assert(token_views(out@) =~= out0 + flush(p0) + seq![tv[i as int]]);
            },
        }
        i = i + 1;
    }
    if let Some(q) = text {
        let tok = Token::Text(q);
        proof {
            lemma_views_push(out@, tok);
        }
        out.push(tok);
    }
    assert(token_views(out@) =~= coalesce(tv));
    out
}

/// A block's result with the nodes `ns` put in front.
pub open spec fn prepend(ns: Seq<ContentV>, r: Result<(Seq<ContentV>, int), ParseError>) -> Result<
    (Seq<ContentV>, int),
    ParseError,
> {
    match r {
        Ok((xs, k)) => Ok((ns + xs, k)),
        Err(e) => Err(e),
    }
}

/// The node that a block tag makes of its body: an image's body must be one
/// text run, which becomes its caption.
pub open spec fn block_node(tag: TokenV, kids: Seq<ContentV>) -> Result<ContentV, ParseError> {
    match tag {
        TokenV::Paragraph => Ok(ContentV::Paragraph(kids)),
        TokenV::Link(u) => Ok(ContentV::Link(u, kids)),
        TokenV::Image(u) => {
            if kids.len() == 1 {
                match kids[0] {
                    ContentV::Text(c) => Ok(ContentV::Image(u, c)),
                    _ => Err(ParseError::MalformedImageBody),
                }
            } else {
                Err(ParseError::MalformedImageBody)
            }
        },
        _ => Err(ParseError::UnexpectedToken),
    }
}

/// Whether `t` opens a nested block inside content.
pub open spec fn is_block_tag(t: TokenV) -> bool {
    t is Paragraph || t is Link || t is Image
}

/// The content nodes of the block whose body starts at `i`, `d` indents deep,
/// with the index just past its closing `Dedent` (or the length, where the
/// tokens end first).
pub open spec fn content_at(t: Seq<TokenV>, i: int, d: int) -> Result<
    (Seq<ContentV>, int),
    ParseError,
>
    decreases t.len() - i,
{
    if i < 0 || i >= t.len() {
        Ok((seq![], t.len() as int))
    } else if is_block_tag(t[i]) {
        if i + 1 >= t.len() || !(t[i + 1] is Indent) {
            Err(ParseError::MissingIndent)
        } else {
            match content_at(t, i + 2, 1) {
                Err(e) => Err(e),
                Ok((kids, j)) => match block_node(t[i], kids) {
                    Err(e) => Err(e),
                    Ok(n) => if i < j <= t.len() {
                        prepend(seq![n], content_at(t, j, d))
                    } else {
                        Ok((seq![n], j))
                    },
                },
            }
        }
    } else {
        match t[i] {
            TokenV::Text(s) => prepend(seq![ContentV::Text(s)], content_at(t, i + 1, d)),
            TokenV::Indent => content_at(t, i + 1, d + 1),
            TokenV::Dedent => if d <= 1 {
                Ok((seq![], i + 1))
            } else {
                content_at(t, i + 1, d - 1)
            },
            _ => Err(ParseError::UnexpectedToken),
        }
    }
}

proof fn lemma_prepend(a: Seq<ContentV>, b: Seq<ContentV>, r: Result<(Seq<ContentV>, int), ParseError>)
    ensures
        prepend(a, prepend(b, r)) == prepend(a + b, r),
        prepend(seq![], r) == r,
{
    match r {
        Ok((xs, k)) => {
            assert(a + (b + xs) =~= (a + b) + xs);
            assert(seq![] + xs =~= xs);
        },
        Err(e) => {},
    }
}

proof fn lemma_content_views_push(s: Seq<ContentNode>, x: ContentNode)
    ensures
        views_of(s.push(x)) == views_of(s) + seq![x@],
{
    assert(views_of(s.push(x)) =~= views_of(s) + seq![x@]);
}

/// Builds the content nodes of the block whose body starts at `start`.
fn content_block(t: &Vec<Token>, start: usize) -> (r: Result<(Vec<ContentNode>, usize), ParseError>)
    requires
        1 <= start <= t.len(),
    ensures
        match r {
            Ok((ns, j)) => content_at(token_views(t@), start as int, 1) == Ok::<
                (Seq<ContentV>, int),
                ParseError,
            >((views_of(ns@), j as int)) && start <= j <= t.len(),
            Err(e) => content_at(token_views(t@), start as int, 1) == Err::<
                (Seq<ContentV>, int),
                ParseError,
            >(e),
        },
    decreases t.len() - start,
{
    let ghost tv = token_views(t@);
    let mut nodes: Vec<ContentNode> = Vec::new();
    let mut i: usize = start;
    let mut d: usize = 1;
    assert(views_of(nodes@) =~= seq![]);
    proof {
        lemma_prepend(seq![], seq![], content_at(tv, start as int, 1));
    }
    while i < t.len()
        invariant
            tv == token_views(t@),
            1 <= start <= i <= t.len(),
            1 <= d <= i - start + 1,
            content_at(tv, start as int, 1) == prepend(
                views_of(nodes@),
                content_at(tv, i as int, d as int),
            ),
        decreases t.len() - i,
    {
        let ghost n0 = views_of(nodes@);
        assert(tv[i as int] == t@[i as int]@);
        match &t[i] {
            Token::Text(s) => {
                let n = ContentNode::Text(s.clone());
                proof {
                    lemma_content_views_push(nodes@, n);
                    lemma_prepend(n0, seq![n@], content_at(tv, i + 1, d as int));
                }
                nodes.push(n);
                i = i + 1;
            },
            Token::Indent => {
                d = d + 1;
                i = i + 1;
            },
            Token::Dedent => {
                if d <= 1 {
                    assert(n0 + seq![] =~= n0);
                    return Ok((nodes, i + 1));
                }
                d = d - 1;
                i = i + 1;
            },
            Token::Paragraph | Token::Link(_) | Token::Image(_) => {
                if i + 1 >= t.len() {
                    return Err(ParseError::MissingIndent);
                }
                assert(tv[i + 1] == t@[i + 1]@);
                match &t[i + 1] {
                    Token::Indent => {},
                    _ => {
                        return Err(ParseError::MissingIndent);
                    },
                }
                let (kids, j) = match content_block(t, i + 2) {
                    Ok(v) => v,
                    Err(e) => {
                        return Err(e);
                    },
                };
                let n = match &t[i] {
                    Token::Paragraph => ContentNode::Paragraph(kids),
                    Token::Link(u) => ContentNode::Link(u.clone(), kids),
                    Token::Image(u) => {
                        if kids.len() != 1 {
                            return Err(ParseError::MalformedImageBody);
                        }
                        match &kids[0] {
                            ContentNode::Text(c) => ContentNode::Image(u.clone(), c.clone()),
                            _ => {
                                return Err(ParseError::MalformedImageBody);
                            },
                        }
                    },
                    _ => {
                        return Err(ParseError::UnexpectedToken);
                    },
                };
                proof {
                    lemma_content_views_push(nodes@, n);
                    lemma_prepend(n0, seq![n@], content_at(tv, j as int, d as int));
                }
                nodes.push(n);
                i = j;
            },
            _ => {
                return Err(ParseError::UnexpectedToken);
            },
        }
    }
    assert(views_of(nodes@) + seq![] =~= views_of(nodes@));
    Ok((nodes, t.len()))
}

/// The leaf node that a header tag makes of its text.
pub open spec fn leaf(tag: TokenV, s: Seq<char>) -> NodeV {
    match tag {
        TokenV::Title => NodeV::Title(s),
        TokenV::Date => NodeV::Date(s),
        _ => NodeV::Description(s),
    }
}

/// A root-level result with the nodes `ns` put in front.
pub open spec fn prepend_nodes(ns: Seq<NodeV>, r: Result<Seq<NodeV>, ParseError>) -> Result<
    Seq<NodeV>,
    ParseError,
> {
    match r {
        Ok(xs) => Ok(ns + xs),
        Err(e) => Err(e),
    }
}

/// The top-level nodes of `t` from `i` on. `title:`, `date:` and
/// `description:` take an `Indent` and one `Text`; `content:` takes an
/// `Indent` and a block; other tokens are passed over.
pub open spec fn root_at(t: Seq<TokenV>, i: int) -> Result<Seq<NodeV>, ParseError>
    decreases t.len() - i,
{
    if i < 0 || i >= t.len() {
        Ok(seq![])
    } else if t[i] is Title || t[i] is Date || t[i] is Description {
        if i + 1 >= t.len() || !(t[i + 1] is Indent) {
            Err(ParseError::MissingIndent)
        } else if i + 2 >= t.len() {
            Err(ParseError::UnterminatedBlock)
        } else {
            match t[i + 2] {
                TokenV::Text(s) => prepend_nodes(seq![leaf(t[i], s)], root_at(t, i + 3)),
                _ => Err(ParseError::UnexpectedToken),
            }
        }
    } else if t[i] is Content {
        if i + 1 >= t.len() || !(t[i + 1] is Indent) {
            Err(ParseError::MissingIndent)
        } else {
            match content_at(t, i + 2, 1) {
                Err(e) => Err(e),
                Ok((kids, j)) => if i < j <= t.len() {
                    prepend_nodes(seq![NodeV::Content(kids)], root_at(t, j))
                } else {
                    Ok(seq![NodeV::Content(kids)])
                },
            }
        }
    } else {
        root_at(t, i + 1)
    }
}

/// The document tree of a coalesced token sequence.
pub open spec fn build(t: Seq<TokenV>) -> Result<NodeV, ParseError> {
    match root_at(t, 0) {
        Ok(ns) => Ok(NodeV::Document(ns)),
        Err(e) => Err(e),
    }
}

/// The result of parsing `t`: its tokens coalesced, then built into a tree.
pub open spec fn parse_spec(t: Seq<TokenV>) -> Result<NodeV, ParseError> {
    build(coalesce(t))
}

/// The value of a parse result.
pub open spec fn result_view(r: Result<Node, ParseError>) -> Result<NodeV, ParseError> {
    match r {
        Ok(n) => Ok(n@),
        Err(e) => Err(e),
    }
}

proof fn lemma_prepend_nodes(a: Seq<NodeV>, b: Seq<NodeV>, r: Result<Seq<NodeV>, ParseError>)
    ensures
        prepend_nodes(a, prepend_nodes(b, r)) == prepend_nodes(a + b, r),
        prepend_nodes(seq![], r) == r,
{
    match r {
        Ok(xs) => {
            assert(a + (b + xs) =~= (a + b) + xs);
            assert(seq![] + xs =~= xs);
        },
        Err(e) => {},
    }
}

proof fn lemma_node_views_push(s: Seq<Node>, x: Node)
    ensures
        node_views_of(s.push(x)) == node_views_of(s) + seq![x@],
{
    assert(node_views_of(s.push(x)) =~= node_views_of(s) + seq![x@]);
}

/// Builds the top-level nodes of a coalesced token sequence.
fn root_nodes(t: &Vec<Token>) -> (r: Result<Vec<Node>, ParseError>)
    ensures
        match r {
            Ok(ns) => root_at(token_views(t@), 0) == Ok::<Seq<NodeV>, ParseError>(
                node_views_of(ns@),
            ),
            Err(e) => root_at(token_views(t@), 0) == Err::<Seq<NodeV>, ParseError>(e),
        },
{
    let ghost tv = token_views(t@);
    let mut nodes: Vec<Node> = Vec::new();
    let mut i: usize = 0;
    assert(node_views_of(nodes@) =~= seq![]);
    proof {
        lemma_prepend_nodes(seq![], seq![], root_at(tv, 0));
    }
    while i < t.len()
        invariant
            tv == token_views(t@),
            i <= t.len(),
            root_at(tv, 0) == prepend_nodes(node_views_of(nodes@), root_at(tv, i as int)),
        decreases t.len() - i,
    {
        let ghost n0 = node_views_of(nodes@);
        assert(tv[i as int] == t@[i as int]@);
        match &t[i] {
            Token::Title | Token::Date | Token::Description => {
                if i + 1 >= t.len() {
                    return Err(ParseError::MissingIndent);
                }
                assert(tv[i + 1] == t@[i + 1]@);
                match &t[i + 1] {
                    Token::Indent => {},
                    _ => {
                        return Err(ParseError::MissingIndent);
                    },
                }
                if i + 2 >= t.len() {
                    return Err(ParseError::UnterminatedBlock);
                }
                assert(tv[i + 2] == t@[i + 2]@);
                let text = match &t[i + 2] {
                    Token::Text(s) => s.clone(),
                    _ => {
                        return Err(ParseError::UnexpectedToken);
                    },
                };
                let n = match &t[i] {
                    Token::Title => Node::Title(text),
                    Token::Date => Node::Date(text),
                    _ => Node::Description(text),
                };
                proof {
                    lemma_node_views_push(nodes@, n);
                    lemma_prepend_nodes(n0, seq![n@], root_at(tv, i + 3));
                }
                nodes.push(n);
                i = i + 3;
            },
            Token::Content => {
                if i + 1 >= t.len() {
                    return Err(ParseError::MissingIndent);
                }
                assert(tv[i + 1] == t@[i + 1]@);
                match &t[i + 1] {
                    Token::Indent => {},
                    _ => {
                        return Err(ParseError::MissingIndent);
                    },
                }
                let (kids, j) = match content_block(t, i + 2) {
                    Ok(v) => v,
                    Err(e) => {
                        return Err(e);
                    },
                };
                let n = Node::Content(kids);
                proof {
                    lemma_node_views_push(nodes@, n);
                    lemma_prepend_nodes(n0, seq![n@], root_at(tv, j as int));
                }
                nodes.push(n);
                i = j;
            },
            _ => {
                i = i + 1;
            },
        }
    }
    proof {
        lemma_prepend_nodes(node_views_of(nodes@), seq![], Ok(seq![]));
        assert(node_views_of(nodes@) + seq![] =~= node_views_of(nodes@));
    }
    Ok(nodes)
}

/// Parses a token sequence into a document: adjacent text tokens are merged
/// first, then the tree is built; the first structural error ends the parse.
pub fn parse(tokens: Vec<Token>) -> (r: Result<Node, ParseError>)
    ensures
        result_view(r) == parse_spec(token_views(tokens@)),
{
    let t = concatenate_consecutive_text_tokens(tokens);
    match root_nodes(&t) {
        Ok(ns) => Ok(Node::Document(ns)),
        Err(e) => Err(e),
    }
}

} // verus!

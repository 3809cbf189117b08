use vstd::prelude::*;

pub mod conversion;
pub mod laws;
pub mod lexer;
pub mod nodes;
pub mod parser;
pub mod text;

use crate::conversion::html::html_of;
use crate::lexer::{lex, lex_spec};
use crate::nodes::{Node, NodeV};
use crate::parser::{parse, parse_spec, ParseError};

verus! {

/// A parsed document, ready to be rendered.
pub struct KMLDocument {
    document: Node,
}

impl View for KMLDocument {
    type V = NodeV;

    closed spec fn view(&self) -> NodeV {
        self.document@
    }
}

impl KMLDocument {
    /// Parses source text: it is split into tokens, adjacent text is merged,
    /// and the tree is built. Fails with the first structural error.
    pub fn new(input: &str) -> (r: Result<KMLDocument, ParseError>)
        ensures
            match r {
                Ok(d) => parse_spec(lex_spec(input@)) == Ok::<NodeV, ParseError>(d@),
                Err(e) => parse_spec(lex_spec(input@)) == Err::<NodeV, ParseError>(e),
            },
    {
        match parse(lex(input)) {
            Ok(document) => Ok(KMLDocument { document }),
            Err(e) => Err(e),
        }
    }

    /// The document tree.
    pub fn document(&self) -> (r: &Node)
        ensures
            r@ == self@,
    {
        &self.document
    }

    /// The document as HTML.
    pub fn to_html(&self) -> (r: String)
        ensures
            r@ == html_of(self@),
    {
        conversion::html::to_html(&self.document)
    }
}

} // verus!

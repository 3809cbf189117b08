use vstd::prelude::*;
use vstd::string::*;

use crate::text::{
    chars_of, indent_width, same_chars, starts_with_chars, trim, trim_bounds,
};

verus! {

/// A lexical token of the markup language.
#[derive(Debug, PartialEq, Eq)]
pub enum Token {
    Title,
    Date,
    Description,
    Content,
    Text(String),
    Indent,
    Dedent,
    Paragraph,
    Link(String),
    Image(String),
}

/// The mathematical value of a token.
pub enum TokenV {
    Title,
    Date,
    Description,
    Content,
    Text(Seq<char>),
    Indent,
    Dedent,
    Paragraph,
    Link(Seq<char>),
    Image(Seq<char>),
}

impl View for Token {
    type V = TokenV;

    open spec fn view(&self) -> TokenV {
        match self {
            Token::Title => TokenV::Title,
            Token::Date => TokenV::Date,
            Token::Description => TokenV::Description,
            Token::Content => TokenV::Content,
            Token::Text(s) => TokenV::Text(s@),
            Token::Indent => TokenV::Indent,
            Token::Dedent => TokenV::Dedent,
            Token::Paragraph => TokenV::Paragraph,
            Token::Link(u) => TokenV::Link(u@),
            Token::Image(u) => TokenV::Image(u@),
        }
    }
}

/// The values of a sequence of tokens.
pub open spec fn token_views(ts: Seq<Token>) -> Seq<TokenV> {
    ts.map_values(|t: Token| t@)
}

/// Whether `t` begins with `w`.
pub open spec fn has_prefix(t: Seq<char>, w: Seq<char>) -> bool {
    t.len() >= w.len() && t.take(w.len() as int) == w
}

/// The token of one line: a keyword tag, a link or image with its trimmed
/// address, or the trimmed line as text.
pub open spec fn line_token(t: Seq<char>) -> TokenV {
    if t == "title:"@ {
        TokenV::Title
    } else if t == "date:"@ {
        TokenV::Date
    } else if t == "description:"@ {
        TokenV::Description
    } else if t == "content:"@ {
        TokenV::Content
    } else if t == "p:"@ {
        TokenV::Paragraph
    } else if has_prefix(t, "link:"@) {
        TokenV::Link(trim(t.skip("link:"@.len() as int)))
    } else if has_prefix(t, "image:"@) {
        TokenV::Image(trim(t.skip("image:"@.len() as int)))
    } else {
        TokenV::Text(trim(t))
    }
}

/// The index of the first line feed at or after `i`, or the length of `s`.
pub open spec fn line_end(s: Seq<char>, i: int) -> int
    decreases s.len() - i,
{
    if i >= s.len() || s[i] == '\n' {
        i
    } else {
        line_end(s, i + 1)
    }
}

/// The line that starts at `pos`, without its line ending (`\n` or `\r\n`).
pub open spec fn line_at(s: Seq<char>, pos: int) -> Seq<char> {
    let e = line_end(s, pos);
    let raw = s.subrange(pos, e);
    if e < s.len() && raw.len() > 0 && raw.last() == '\r' {
        raw.drop_last()
    } else {
        raw
    }
}

/// The innermost open indentation width, 0 when none is open.
pub open spec fn top(stack: Seq<int>) -> int {
    if stack.len() == 0 {
        0
    } else {
        stack.last()
    }
}

/// How many of the innermost open widths are greater than `w`.
pub open spec fn pop_count(stack: Seq<int>, w: int) -> nat
    decreases stack.len(),
{
    if stack.len() > 0 && stack.last() > w {
        1 + pop_count(stack.drop_last(), w)
    } else {
        0
    }
}

/// `n` dedent tokens.
pub open spec fn dedents(n: int) -> Seq<TokenV> {
    Seq::new(n as nat, |i: int| TokenV::Dedent)
}

/// The tokens of one line and the open widths after it, given those before.
pub open spec fn line_step(line: Seq<char>, stack: Seq<int>) -> (Seq<TokenV>, Seq<int>) {
    let w = indent_width(line);
    if trim(line).len() == 0 {
        (seq![], stack)
    } else if w == 0 {
        (dedents(stack.len() as int).push(line_token(line)), seq![])
    } else if w > top(stack) {
        (seq![TokenV::Indent, line_token(trim(line))], stack.push(w))
    } else if w < top(stack) {
        let k = pop_count(stack, w);
        (dedents(k as int).push(line_token(trim(line))), stack.take(stack.len() - k))
    } else {
        (seq![line_token(trim(line))], stack)
    }
}

pub proof fn lemma_line_end(s: Seq<char>, i: int)
    requires
        0 <= i <= s.len(),
    ensures
        i <= line_end(s, i) <= s.len(),
        line_end(s, i) < s.len() ==> s[line_end(s, i)] == '\n',
    decreases s.len() - i,
{
    if i < s.len() && s[i] != '\n' {
        lemma_line_end(s, i + 1);
    }
}

/// The tokens of the lines of `s` from `pos` on, with `stack` open before them.
pub open spec fn lex_at(s: Seq<char>, pos: int, stack: Seq<int>) -> Seq<TokenV>
    decreases s.len() + 1 - pos,
{
    if pos < 0 || pos >= s.len() {
        seq![]
    } else {
        proof {
            lemma_line_end(s, pos);
        }
        let (t, st) = line_step(line_at(s, pos), stack);
        t + lex_at(s, line_end(s, pos) + 1, st)
    }
}

/// The tokens of a whole text.
pub open spec fn lex_spec(s: Seq<char>) -> Seq<TokenV> {
    lex_at(s, 0, seq![])
}

/// The token of `cs[a..b]`, with payloads copied from `src`.
fn token_of(src: &str, cs: &Vec<char>, a: usize, b: usize) -> (t: Token)
    requires
        cs@ == src@,
        a <= b <= cs.len(),
    ensures
        t@ == line_token(cs@.subrange(a as int, b as int)),
{
    if same_chars(cs, a, b, &chars_of("title:")) {
        return Token::Title;
    }
    if same_chars(cs, a, b, &chars_of("date:")) {
        return Token::Date;
    }
    if same_chars(cs, a, b, &chars_of("description:")) {
        return Token::Description;
    }
    if same_chars(cs, a, b, &chars_of("content:")) {
        return Token::Content;
    }
    if same_chars(cs, a, b, &chars_of("p:")) {
        return Token::Paragraph;
    }
    let link = chars_of("link:");
    if b - a >= link.len() {
        assert(cs@.subrange(a as int, b as int).take(link.len() as int) =~= cs@.subrange(
            a as int,
            a + link.len(),
        ));
    }
    if starts_with_chars(cs, a, b, &link) {
        let (x, y) = trim_bounds(cs, a + link.len(), b);
        assert(cs@.subrange(a as int, b as int).skip(link.len() as int) =~= cs@.subrange(
            a + link.len(),
            b as int,
        ));
        return Token::Link(String::from_str(src.substring_char(x, y)));
    }
    let image = chars_of("image:");
    if b - a >= image.len() {
        assert(cs@.subrange(a as int, b as int).take(image.len() as int) =~= cs@.subrange(
            a as int,
            a + image.len(),
        ));
    }
    if starts_with_chars(cs, a, b, &image) {
        let (x, y) = trim_bounds(cs, a + image.len(), b);
        assert(cs@.subrange(a as int, b as int).skip(image.len() as int) =~= cs@.subrange(
            a + image.len(),
            b as int,
        ));
        return Token::Image(String::from_str(src.substring_char(x, y)));
    }
    let (x, y) = trim_bounds(cs, a, b);
    Token::Text(String::from_str(src.substring_char(x, y)))
}

/// The token of one line: a keyword tag (`title:`, `date:`, `description:`,
/// `content:`, `p:`), a `link:` or `image:` with its trimmed address, or else
/// the trimmed line as text.
pub fn tokenize_line(token: &str) -> (t: Token)
    ensures
        t@ == line_token(token@),
{
    let cs = chars_of(token);
    assert(cs@.subrange(0, cs@.len() as int) =~= cs@);
    token_of(token, &cs, 0, cs.len())
}

/// The open widths of an exec stack, as integers.
pub open spec fn widths(stack: Seq<usize>) -> Seq<int> {
    stack.map_values(|w: usize| w as int)
}

pub proof fn lemma_views_push(ts: Seq<Token>, t: Token)
    ensures
        token_views(ts.push(t)) == token_views(ts).push(t@),
{
    assert(token_views(ts.push(t)) =~= token_views(ts).push(t@));
}

/// The index of the first line feed at or after `pos`, or the length.
fn find_line_end(cs: &Vec<char>, pos: usize) -> (e: usize)
    requires
        pos <= cs.len(),
    ensures
        e == line_end(cs@, pos as int),
{
    let mut j: usize = pos;
    while j < cs.len() && cs[j] != '\n'
        invariant
            pos <= j <= cs.len(),
            line_end(cs@, j as int) == line_end(cs@, pos as int),
        decreases cs.len() - j,
    {
        j = j + 1;
    }
    j
}

/// Turns text into tokens, line by line. Blank lines are skipped; a change of
/// indentation opens blocks with `Indent` and closes them with `Dedent`.
pub fn lex(input: &str) -> (r: Vec<Token>)
    ensures
        token_views(r@) == lex_spec(input@),
{
    let cs = chars_of(input);
    let mut out: Vec<Token> = Vec::new();
    let mut stack: Vec<usize> = Vec::new();
    let mut pos: usize = 0;
    assert(token_views(out@) =~= seq![]);
    assert(widths(stack@) =~= seq![]);
    while pos < cs.len()
        invariant
            cs@ == input@,
            pos <= cs.len(),
            lex_spec(cs@) == token_views(out@) + lex_at(cs@, pos as int, widths(stack@)),
        decreases cs.len() - pos,
    {
        let ghost out0 = token_views(out@);
        let ghost st0 = widths(stack@);
        let ghost line = line_at(cs@, pos as int);
        let ghost pos0 = pos as int;
        proof {
            lemma_line_end(cs@, pos as int);
        }
        let e = find_line_end(&cs, pos);
        let mut b = e;
        if e < cs.len() && b > pos && cs[b - 1] == '\r' {
            b = b - 1;
        }
        assert(cs@.subrange(pos as int, b as int) =~= line);
        let (x, y) = trim_bounds(&cs, pos, b);
        if x < y {
            let w = x - pos;
            if w == 0 {
                let n = stack.len();
                let mut k: usize = 0;
                while k < n
                    invariant
                        k <= n,
                        token_views(out@) == out0 + dedents(k as int),
                    decreases n - k,
                {
                    let tok = Token::Dedent;
                    proof {
                        lemma_views_push(out@, tok);
                    }
                    out.push(tok);
                    assert(token_views(out@) =~= out0 + dedents(k + 1));
                    k = k + 1;
                }
                stack.clear();
                let tok = token_of(input, &cs, pos, b);
                proof {
                    lemma_views_push(out@, tok);
                }
                out.push(tok);
                assert(token_views(out@) =~= out0 + line_step(line, st0).0);
            } else {
                let t: usize = if stack.len() == 0 {
                    0
                } else {
                    stack[stack.len() - 1]
                };
                if w > t {
                    let tok = Token::Indent;
                    proof {
                        lemma_views_push(out@, tok);
                    }
                    out.push(tok);
                    let tok = token_of(input, &cs, x, y);
                    proof {
                        lemma_views_push(out@, tok);
                    }
                    out.push(tok);
                    stack.push(w);
                    assert(token_views(out@) =~= out0 + line_step(line, st0).0);
                    assert(widths(stack@) =~= line_step(line, st0).1);
                } else if w < t {
                    let ghost s0 = stack@;
                    while stack.len() > 0 && stack[stack.len() - 1] > w
                        invariant
                            stack@.len() <= s0.len(),
                            stack@ == s0.take(stack@.len() as int),
                            pop_count(widths(s0), w as int) == (s0.len() - stack@.len())
                                + pop_count(widths(stack@), w as int),
                            token_views(out@) == out0 + dedents(s0.len() - stack@.len()),
                        decreases stack.len(),
                    {
                        let ghost before = stack@;
                        stack.pop();
                        assert(widths(before).drop_last() =~= widths(stack@));
                        assert(stack@ =~= s0.take(stack@.len() as int));
                        let tok = Token::Dedent;
                        proof {
                            lemma_views_push(out@, tok);
                        }
                        out.push(tok);
                        assert(token_views(out@) =~= out0 + dedents(s0.len() - stack@.len()));
                    }
                    let tok = token_of(input, &cs, x, y);
                    proof {
                        lemma_views_push(out@, tok);
                    }
                    out.push(tok);
                    assert(token_views(out@) =~= out0 + line_step(line, st0).0);
                    assert(widths(stack@) =~= line_step(line, st0).1);
                } else {
                    let tok = token_of(input, &cs, x, y);
                    proof {
                        lemma_views_push(out@, tok);
                    }
                    out.push(tok);
                    assert(token_views(out@) =~= out0 + line_step(line, st0).0);
                }
            }
        } else {
            assert(line_step(line, st0).0 =~= seq![]);
        }
        assert(widths(stack@) =~= line_step(line, st0).1);
        assert(token_views(out@) =~= out0 + line_step(line, st0).0);
        pos = if e < cs.len() {
            e + 1
        } else {
            e
        };
        proof {
            let step = line_step(line, st0);
            assert(lex_at(cs@, pos0, st0) == step.0 + lex_at(cs@, e + 1, step.1));
            assert(lex_at(cs@, pos as int, step.1) == lex_at(cs@, e + 1, step.1));
            assert(out0 + (step.0 + lex_at(cs@, e + 1, step.1)) =~= (out0 + step.0) + lex_at(
                cs@,
                e + 1,
                step.1,
            ));
        }
    }
    out
}

} // verus!

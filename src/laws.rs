use vstd::prelude::*;

use crate::lexer::{
    dedents, lemma_line_end, lex_at, lex_spec, line_at, line_end, line_step, line_token, pop_count,
    top, TokenV,
};
use crate::nodes::NodeV;
use crate::parser::{build, coalesce, coalesce_at, flush, merge, parse_spec, ParseError};
use crate::text::{indent_width, is_space, trim, trim_end, trim_start};

verus! {

/// Whether every character of `s` is whitespace.
pub open spec fn all_space(s: Seq<char>) -> bool {
    forall|i: int| 0 <= i < s.len() ==> is_space(#[trigger] s[i])
}

proof fn lemma_trim_all_space(s: Seq<char>)
    requires
        all_space(s),
    ensures
        trim_start(s) == Seq::<char>::empty(),
        trim(s).len() == 0,
    decreases s.len(),
{
    if s.len() > 0 {
        assert(all_space(s.drop_first()));
        lemma_trim_all_space(s.drop_first());
    } else {
        assert(s =~= Seq::<char>::empty());
    }
}

proof fn lemma_lex_blank(s: Seq<char>, pos: int)
    requires
        all_space(s),
        0 <= pos,
    ensures
        lex_at(s, pos, seq![]) == Seq::<TokenV>::empty(),
    decreases s.len() + 1 - pos,
{
    if pos < s.len() {
        lemma_line_end(s, pos);
        let line = line_at(s, pos);
        assert(all_space(line));
        lemma_trim_all_space(line);
        assert(line_step(line, seq![]).0 =~= seq![]);
        lemma_lex_blank(s, line_end(s, pos) + 1);
        assert(lex_at(s, pos, seq![]) =~= Seq::<TokenV>::empty());
    }
}

/// Text made only of whitespace and line breaks yields no tokens, and its
/// document is empty.
pub proof fn lemma_blank_input(s: Seq<char>)
    requires
        all_space(s),
    ensures
        lex_spec(s) == Seq::<TokenV>::empty(),
        parse_spec(lex_spec(s)) == Ok::<NodeV, ParseError>(NodeV::Document(seq![])),
{
    lemma_lex_blank(s, 0);
    assert(coalesce(Seq::<TokenV>::empty()) =~= Seq::<TokenV>::empty());
}

/// A `content:` tag that is not followed by an `Indent` stops the build with
/// the missing-indent error, and no tree is returned.
pub proof fn lemma_content_needs_indent(t: Seq<TokenV>)
    requires
        t.len() >= 1,
        t[0] is Content,
        t.len() == 1 || !(t[1] is Indent),
    ensures
        build(t) == Err::<NodeV, ParseError>(ParseError::MissingIndent),
{
}

/// Whether no two adjacent tokens of `s` are both text.
pub open spec fn no_adjacent_text(s: Seq<TokenV>) -> bool {
    forall|j: int| 0 <= j && j + 1 < s.len() ==> !(#[trigger] s[j] is Text && s[j + 1] is Text)
}

proof fn lemma_coalesce_no_adjacent(t: Seq<TokenV>, i: int, p: Option<Seq<char>>)
    ensures
        no_adjacent_text(coalesce_at(t, i, p)),
    decreases t.len() - i,
{
    if 0 <= i < t.len() {
        match t[i] {
            TokenV::Text(a) => {
                lemma_coalesce_no_adjacent(t, i + 1, Some(merge(p, a)));
            },
            _ => {
                lemma_coalesce_no_adjacent(t, i + 1, None);
                let head = flush(p) + seq![t[i]];
                let rest = coalesce_at(t, i + 1, None);
                let all = head + rest;
                assert forall|j: int| 0 <= j && j + 1 < all.len() implies !(
                #[trigger] all[j] is Text && all[j + 1] is Text) by {
                    if j + 1 < head.len() {
                        assert(all[j + 1] == t[i]);
                    } else if j + 1 == head.len() {
                        assert(all[j] == t[i]);
                    } else {
                        assert(all[j] == rest[j - head.len()]);
                        assert(all[j + 1] == rest[j + 1 - head.len()]);
                    }
                }
            },
        }
    }
}

proof fn lemma_coalesce_identity(s: Seq<TokenV>, i: int)
    requires
        no_adjacent_text(s),
        0 <= i <= s.len(),
    ensures
        coalesce_at(s, i, None) == s.skip(i),
    decreases s.len() - i,
{
    if i == s.len() {
        assert(s.skip(i) =~= Seq::<TokenV>::empty());
    } else {
        match s[i] {
            TokenV::Text(a) => {
                assert(coalesce_at(s, i, None) == coalesce_at(s, i + 1, Some(a)));
                if i + 1 == s.len() {
                    assert(s.skip(i) =~= seq![s[i]]);
                } else {
                    assert(!(s[i + 1] is Text));
                    assert(coalesce_at(s, i + 1, Some(a)) == flush(Some(a)) + seq![s[i + 1]]
                        + coalesce_at(s, i + 2, None));
                    lemma_coalesce_identity(s, i + 2);
                    assert(s.skip(i) =~= seq![s[i]] + seq![s[i + 1]] + s.skip(i + 2));
                }
            },
            _ => {
                lemma_coalesce_identity(s, i + 1);
                assert(s.skip(i) =~= Seq::<TokenV>::empty() + seq![s[i]] + s.skip(i + 1));
            },
        }
    }
}

/// Coalescing twice gives what coalescing once gives.
pub proof fn lemma_coalesce_idempotent(t: Seq<TokenV>)
    ensures
        coalesce(coalesce(t)) == coalesce(t),
{
    let c = coalesce(t);
    lemma_coalesce_no_adjacent(t, 0, None);
    lemma_coalesce_identity(c, 0);
    assert(c.skip(0) =~= c);
}

/// How a token changes the nesting depth.
pub open spec fn delta(t: TokenV) -> int {
    if t is Indent {
        1
    } else if t is Dedent {
        -1
    } else {
        0
    }
}

/// The nesting depth after `t`: its `Indent`s less its `Dedent`s.
pub open spec fn depth(t: Seq<TokenV>) -> int
    decreases t.len(),
{
    if t.len() == 0 {
        0
    } else {
        depth(t.drop_last()) + delta(t.last())
    }
}

proof fn lemma_depth_concat(a: Seq<TokenV>, b: Seq<TokenV>)
    ensures
        depth(a + b) == depth(a) + depth(b),
    decreases b.len(),
{
    if b.len() == 0 {
        assert(a + b =~= a);
    } else {
        assert((a + b).drop_last() =~= a + b.drop_last());
        lemma_depth_concat(a, b.drop_last());
    }
}

proof fn lemma_depth_dedents(n: int)
    requires
        n >= 0,
    ensures
        depth(dedents(n)) == -n,
    decreases n,
{
    if n > 0 {
        assert(dedents(n).drop_last() =~= dedents(n - 1));
        lemma_depth_dedents(n - 1);
    }
}

proof fn lemma_pop_count_bound(stack: Seq<int>, w: int)
    ensures
        pop_count(stack, w) <= stack.len(),
    decreases stack.len(),
{
    if stack.len() > 0 && stack.last() > w {
        lemma_pop_count_bound(stack.drop_last(), w);
    }
}

/// Whether `d` open blocks before `t` keep its running depth at or above zero.
pub open spec fn stays_open(t: Seq<TokenV>, d: int) -> bool {
    forall|n: int| 0 <= n <= t.len() ==> d + depth(#[trigger] t.take(n)) >= 0
}

proof fn lemma_dedents_then(k: int, tok: TokenV, d: int)
    requires
        0 <= k <= d,
        delta(tok) == 0,
    ensures
        stays_open(dedents(k).push(tok), d),
        depth(dedents(k).push(tok)) == -k,
{
    let t = dedents(k).push(tok);
    assert(t.drop_last() =~= dedents(k));
    lemma_depth_dedents(k);
    assert forall|n: int| 0 <= n <= t.len() implies d + depth(#[trigger] t.take(n)) >= 0 by {
        if n <= k {
            assert(t.take(n) =~= dedents(n));
            lemma_depth_dedents(n);
        } else {
            assert(t.take(n) =~= t);
        }
    }
}

proof fn lemma_line_token_flat(x: Seq<char>)
    ensures
        delta(line_token(x)) == 0,
{
}

proof fn lemma_step_depth(line: Seq<char>, st: Seq<int>)
    ensures
        stays_open(line_step(line, st).0, st.len() as int),
        st.len() + depth(line_step(line, st).0) == line_step(line, st).1.len(),
{
    let step = line_step(line, st);
    let w = indent_width(line);
    lemma_line_token_flat(line);
    lemma_line_token_flat(trim(line));
    if trim(line).len() == 0 {
        assert forall|n: int| 0 <= n <= step.0.len() implies st.len() + depth(
            #[trigger] step.0.take(n),
        ) >= 0 by {
            assert(step.0.take(n) =~= Seq::<TokenV>::empty());
        }
    } else if w == 0 {
        lemma_dedents_then(st.len() as int, line_token(line), st.len() as int);
    } else if w > top(st) {
        let t = step.0;
        assert(t.drop_last() =~= seq![TokenV::Indent]);
        assert(seq![TokenV::Indent].drop_last() =~= Seq::<TokenV>::empty());
        assert(seq![TokenV::Indent].last() == TokenV::Indent);
        assert(depth(Seq::<TokenV>::empty()) == 0);
        assert(depth(seq![TokenV::Indent]) == 1);
        assert(depth(t) == 1);
        assert forall|n: int| 0 <= n <= t.len() implies st.len() + depth(#[trigger] t.take(n))
            >= 0 by {
            if n == 0 {
                assert(t.take(n) =~= Seq::<TokenV>::empty());
            } else if n == 1 {
                assert(t.take(n) =~= seq![TokenV::Indent]);
            } else {
                assert(t.take(n) =~= t);
            }
        }
    } else if w < top(st) {
        lemma_pop_count_bound(st, w);
        lemma_dedents_then(pop_count(st, w) as int, line_token(trim(line)), st.len() as int);
    } else {
        lemma_dedents_then(0, line_token(trim(line)), st.len() as int);
        assert(dedents(0).push(line_token(trim(line))) =~= step.0);
    }
}

proof fn lemma_lex_depth(s: Seq<char>, pos: int, st: Seq<int>)
    requires
        0 <= pos,
    ensures
        stays_open(lex_at(s, pos, st), st.len() as int),
    decreases s.len() + 1 - pos,
{
    let out = lex_at(s, pos, st);
    if pos >= s.len() {
        assert forall|n: int| 0 <= n <= out.len() implies st.len() + depth(#[trigger] out.take(n))
            >= 0 by {
            assert(out.take(n) =~= Seq::<TokenV>::empty());
        }
    } else {
        lemma_line_end(s, pos);
        let step = line_step(line_at(s, pos), st);
        let rest = lex_at(s, line_end(s, pos) + 1, step.1);
        lemma_step_depth(line_at(s, pos), st);
        lemma_lex_depth(s, line_end(s, pos) + 1, step.1);
        assert(out == step.0 + rest);
        assert forall|n: int| 0 <= n <= out.len() implies st.len() + depth(#[trigger] out.take(n))
            >= 0 by {
            if n <= step.0.len() {
                assert(out.take(n) =~= step.0.take(n));
            } else {
                let m = n - step.0.len();
                assert(out.take(n) =~= step.0 + rest.take(m));
                lemma_depth_concat(step.0, rest.take(m));
                assert(step.1.len() + depth(rest.take(m)) >= 0);
            }
        }
    }
}

/// In the tokens of any text, every `Dedent` closes an earlier `Indent`: the
/// running depth never drops below zero.
pub proof fn lemma_depth_never_negative(s: Seq<char>)
    ensures
        forall|n: int|
            0 <= n <= lex_spec(s).len() ==> depth(#[trigger] lex_spec(s).take(n)) >= 0,
{
    lemma_lex_depth(s, 0, seq![]);
}

/// The open indentation widths after the lines of `s` from `pos` on.
pub open spec fn open_at(s: Seq<char>, pos: int, stack: Seq<int>) -> Seq<int>
    decreases s.len() + 1 - pos,
{
    if pos < 0 || pos >= s.len() {
        stack
    } else {
        proof {
            lemma_line_end(s, pos);
        }
        open_at(s, line_end(s, pos) + 1, line_step(line_at(s, pos), stack).1)
    }
}

proof fn lemma_lex_depth_total(s: Seq<char>, pos: int, st: Seq<int>)
    requires
        0 <= pos,
    ensures
        st.len() + depth(lex_at(s, pos, st)) == open_at(s, pos, st).len(),
    decreases s.len() + 1 - pos,
{
    if pos < s.len() {
        lemma_line_end(s, pos);
        let step = line_step(line_at(s, pos), st);
        lemma_step_depth(line_at(s, pos), st);
        lemma_lex_depth_total(s, line_end(s, pos) + 1, step.1);
        lemma_depth_concat(step.0, lex_at(s, line_end(s, pos) + 1, step.1));
    }
}

proof fn lemma_line_end_before(s: Seq<char>, i: int, k: int)
    requires
        0 <= i <= k < s.len(),
        s[k] == '\n',
    ensures
        line_end(s, i) <= k,
    decreases k - i,
{
    if s[i] != '\n' {
        lemma_line_end_before(s, i + 1, k);
    }
}

proof fn lemma_line_end_last(s: Seq<char>, i: int)
    requires
        0 <= i <= s.len(),
        forall|j: int| i <= j < s.len() ==> s[j] != '\n',
    ensures
        line_end(s, i) == s.len(),
    decreases s.len() - i,
{
    if i < s.len() {
        lemma_line_end_last(s, i + 1);
    }
}

proof fn lemma_trim_end_keeps_first(x: Seq<char>)
    requires
        x.len() > 0,
        !is_space(x[0]),
    ensures
        trim_end(x).len() > 0,
    decreases x.len(),
{
    if x.len() > 1 && is_space(x.last()) {
        lemma_trim_end_keeps_first(x.drop_last());
    }
}

proof fn lemma_open_at_last_line(s: Seq<char>, k: int, pos: int, st: Seq<int>)
    requires
        0 <= pos <= k < s.len(),
        k == 0 || s[k - 1] == '\n',
        !is_space(s[k]),
        forall|j: int| k <= j < s.len() ==> s[j] != '\n',
    ensures
        open_at(s, pos, st) == Seq::<int>::empty(),
    decreases k - pos,
{
    lemma_line_end(s, pos);
    if pos == k {
        lemma_line_end_last(s, k);
        let line = line_at(s, k);
        assert(line == s.subrange(k, s.len() as int));
        assert(trim_start(line) == line);
        lemma_trim_end_keeps_first(line);
        assert(line_step(line, st).1 == Seq::<int>::empty());
        assert(open_at(s, s.len() as int + 1, Seq::<int>::empty()) == Seq::<int>::empty());
        assert(open_at(s, k, st) == open_at(s, s.len() as int + 1, Seq::<int>::empty()));
    } else {
        lemma_line_end_before(s, pos, k - 1);
        lemma_open_at_last_line(s, k, line_end(s, pos) + 1, line_step(line_at(s, pos), st).1);
    }
}

/// Text whose last line starts at the left margin closes every block that it
/// opens: its tokens hold as many `Dedent`s as `Indent`s.
pub proof fn lemma_balanced_when_last_line_unindented(s: Seq<char>, k: int)
    requires
        0 <= k < s.len(),
        k == 0 || s[k - 1] == '\n',
        !is_space(s[k]),
        forall|j: int| k <= j < s.len() ==> s[j] != '\n',
    ensures
        depth(lex_spec(s)) == 0,
{
    lemma_lex_depth_total(s, 0, seq![]);
    lemma_open_at_last_line(s, k, 0, seq![]);
}

} // verus!

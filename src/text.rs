use vstd::prelude::*;

verus! {

/// Unicode's `White_Space` property.
pub open spec fn is_space(c: char) -> bool {
    ||| ('\u{9}' <= c && c <= '\u{d}')
    ||| c == ' '
    ||| c == '\u{85}'
    ||| c == '\u{a0}'
    ||| c == '\u{1680}'
    ||| ('\u{2000}' <= c && c <= '\u{200a}')
    ||| c == '\u{2028}'
    ||| c == '\u{2029}'
    ||| c == '\u{202f}'
    ||| c == '\u{205f}'
    ||| c == '\u{3000}'
}

/// Whether `c` is a whitespace character.
pub fn space(c: char) -> (r: bool)
    ensures
        r == is_space(c),
{
    ('\u{9}' <= c && c <= '\u{d}') || c == ' ' || c == '\u{85}' || c == '\u{a0}' || c == '\u{1680}'
        || ('\u{2000}' <= c && c <= '\u{200a}') || c == '\u{2028}' || c == '\u{2029}' || c
        == '\u{202f}' || c == '\u{205f}' || c == '\u{3000}'
}

/// `s` without its leading whitespace.
pub open spec fn trim_start(s: Seq<char>) -> Seq<char>
    decreases s.len(),
{
    if s.len() > 0 && is_space(s[0]) {
        trim_start(s.drop_first())
    } else {
        s
    }
}

/// `s` without its trailing whitespace.
pub open spec fn trim_end(s: Seq<char>) -> Seq<char>
    decreases s.len(),
{
    if s.len() > 0 && is_space(s.last()) {
        trim_end(s.drop_last())
    } else {
        s
    }
}

/// `s` without leading and trailing whitespace.
pub open spec fn trim(s: Seq<char>) -> Seq<char> {
    trim_end(trim_start(s))
}

/// The number of whitespace characters that `s` starts with.
pub open spec fn indent_width(s: Seq<char>) -> int {
    s.len() - trim_start(s).len()
}

/// The first index in `a..b` whose character is not whitespace, or `b`.
pub fn skip_spaces(cs: &Vec<char>, a: usize, b: usize) -> (i: usize)
    requires
        a <= b <= cs.len(),
    ensures
        a <= i <= b,
        cs@.subrange(i as int, b as int) == trim_start(cs@.subrange(a as int, b as int)),
{
    let mut i: usize = a;
    while i < b && space(cs[i])
        invariant
            a <= i <= b <= cs.len(),
            trim_start(cs@.subrange(i as int, b as int)) == trim_start(
                cs@.subrange(a as int, b as int),
            ),
        decreases b - i,
    {
        assert(cs@.subrange(i as int, b as int).drop_first() =~= cs@.subrange(
            i + 1,
            b as int,
        ));
        i = i + 1;
    }
    assert(cs@.subrange(i as int, b as int).len() == 0 || !is_space(
        cs@.subrange(i as int, b as int)[0],
    ));
    i
}

/// One past the last index in `a..b` whose character is not whitespace, or `a`.
pub fn skip_spaces_back(cs: &Vec<char>, a: usize, b: usize) -> (j: usize)
    requires
        a <= b <= cs.len(),
    ensures
        a <= j <= b,
        cs@.subrange(a as int, j as int) == trim_end(cs@.subrange(a as int, b as int)),
{
    let mut j: usize = b;
    while j > a && space(cs[j - 1])
        invariant
            a <= j <= b <= cs.len(),
            trim_end(cs@.subrange(a as int, j as int)) == trim_end(
                cs@.subrange(a as int, b as int),
            ),
        decreases j,
    {
        assert(cs@.subrange(a as int, j as int).drop_last() =~= cs@.subrange(
            a as int,
            j - 1,
        ));
        j = j - 1;
    }
    assert(cs@.subrange(a as int, j as int).len() == 0 || !is_space(
        cs@.subrange(a as int, j as int).last(),
    ));
    j
}

/// The bounds of the trimmed part of `cs[a..b]`.
pub fn trim_bounds(cs: &Vec<char>, a: usize, b: usize) -> (r: (usize, usize))
    requires
        a <= b <= cs.len(),
    ensures
        a <= r.0 <= r.1 <= b,
        cs@.subrange(a as int, r.0 as int).len() == indent_width(cs@.subrange(a as int, b as int)),
        cs@.subrange(r.0 as int, r.1 as int) == trim(cs@.subrange(a as int, b as int)),
{
    let i = skip_spaces(cs, a, b);
    let j = skip_spaces_back(cs, i, b);
    assert(cs@.subrange(i as int, b as int) =~= cs@.subrange(a as int, b as int).subrange(
        (i - a) as int,
        (b - a) as int,
    ));
    (i, j)
}

/// Whether `cs[a..b]` is exactly `w`.
pub fn same_chars(cs: &Vec<char>, a: usize, b: usize, w: &Vec<char>) -> (r: bool)
    requires
        a <= b <= cs.len(),
    ensures
        r == (cs@.subrange(a as int, b as int) == w@),
{
    if b - a != w.len() {
        return false;
    }
    let mut k: usize = 0;
    while k < w.len()
        invariant
            b - a == w.len(),
            a <= b <= cs.len(),
            k <= w.len(),
            cs@.subrange(a as int, a + k) == w@.take(k as int),
        decreases w.len() - k,
    {
        if cs[a + k] != w[k] {
            assert(cs@.subrange(a as int, b as int)[k as int] != w@[k as int]);
            return false;
        }
        assert(cs@.subrange(a as int, a + k + 1) =~= w@.take(k + 1));
        k = k + 1;
    }
    assert(w@.take(k as int) =~= w@);
    true
}

/// Whether `cs[a..b]` starts with `w`.
pub fn starts_with_chars(cs: &Vec<char>, a: usize, b: usize, w: &Vec<char>) -> (r: bool)
    requires
        a <= b <= cs.len(),
    ensures
        r == (b - a >= w.len() && cs@.subrange(a as int, a + w.len()) == w@),
{
    if b - a < w.len() {
        return false;
    }
    same_chars(cs, a, a + w.len(), w)
}

/// The characters of `s`, in order.
pub fn chars_of(s: &str) -> (r: Vec<char>)
    ensures
        r@ == s@,
{
    broadcast use vstd::string::axiom_spec_iter;

    let mut r: Vec<char> = Vec::new();
    for c in it: s.chars()
        invariant
            it.seq() == s@,
            r@ == s@.take(it.index() as int),
    {
        r.push(c);
    }
    assert(r@ =~= s@);
    r
}

} // verus!

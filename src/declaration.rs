//! Reading the `encoding` value out of an XML declaration. The declaration
//! is split into tokens at white space and at `=`, empty tokens dropped; the
//! token after the first `encoding` token is the quoted value.
use vstd::prelude::*;
use crate::text::{is_white_space, same_chars, white_space};

verus! {

pub open spec fn is_separator(c: char) -> bool {
    is_white_space(c) || c == '='
}

/// The tokens completed within `s`, and the token still open at its end.
pub open spec fn token_scan(s: Seq<char>) -> (Seq<Seq<char>>, Seq<char>)
    decreases s.len(),
{
    if s.len() == 0 {
        (Seq::empty(), Seq::empty())
    } else {
        let prev = token_scan(s.drop_last());
        let c = s.last();
        if is_separator(c) {
            if prev.1.len() > 0 {
                (prev.0.push(prev.1), Seq::empty())
            } else {
                prev
            }
        } else {
            (prev.0, prev.1.push(c))
        }
    }
}

/// The maximal runs of `s` that hold no white space and no `=`.
pub open spec fn tokens(s: Seq<char>) -> Seq<Seq<char>> {
    let scan = token_scan(s);
    if scan.1.len() > 0 {
        scan.0.push(scan.1)
    } else {
        scan.0
    }
}

pub open spec fn encoding_keyword() -> Seq<char> {
    seq!['e', 'n', 'c', 'o', 'd', 'i', 'n', 'g']
}

/// The index of the first token at or after `from` that is `encoding`.
pub open spec fn find_keyword(toks: Seq<Seq<char>>, from: nat) -> Option<nat>
    decreases toks.len() - from,
{
    if from >= toks.len() {
        None
    } else if toks[from as int] == encoding_keyword() {
        Some(from)
    } else {
        find_keyword(toks, from + 1)
    }
}

/// The index of the first `q` in `v` at or after `from`.
pub open spec fn find_char(v: Seq<char>, q: char, from: nat) -> Option<nat>
    decreases v.len() - from,
{
    if from >= v.len() {
        None
    } else if v[from as int] == q {
        Some(from)
    } else {
        find_char(v, q, from + 1)
    }
}

/// The name inside a quoted value: the first character is the quote, `'`
/// or `"`, and the name runs up to its next occurrence.
pub open spec fn quoted_name(v: Seq<char>) -> Option<Seq<char>> {
    if v.len() == 0 || (v[0] != '"' && v[0] != '\'') {
        None
    } else {
        match find_char(v, v[0], 1) {
            Some(j) => Some(v.subrange(1, j as int)),
            None => None,
        }
    }
}

/// What a declaration says of its encoding: `None` where it has no
/// `encoding` token; `Some(None)` where the value is missing or not
/// properly quoted; `Some(Some(name))` otherwise.
pub open spec fn declared_encoding(decl: Seq<char>) -> Option<Option<Seq<char>>> {
    let toks = tokens(decl);
    match find_keyword(toks, 0) {
        None => None,
        Some(i) => if i + 1 < toks.len() {
            Some(quoted_name(toks[i + 1 as int]))
        } else {
            Some(None)
        },
    }
}

/// Whether a declaration read so far ends with `?>`.
pub open spec fn closes_declaration(d: Seq<char>) -> bool {
    d.len() >= 2 && d[d.len() - 2] == '?' && d[d.len() - 1] == '>'
}

pub fn ends_declaration(d: &[char]) -> (r: bool)
    ensures
        r == closes_declaration(d@),
{
    let n = d.len();
    n >= 2 && d[n - 2] == '?' && d[n - 1] == '>'
}

pub open spec fn deep(v: Seq<Vec<char>>) -> Seq<Seq<char>> {
    v.map_values(|t: Vec<char>| t@)
}

/// Splits a declaration into its tokens.
pub fn split_tokens(s: &[char]) -> (r: Vec<Vec<char>>)
    ensures
        deep(r@) == tokens(s@),
{
    let mut done: Vec<Vec<char>> = Vec::new();
    let mut cur: Vec<char> = Vec::new();
    let mut i: usize = 0;
    while i < s.len()
        invariant
            i <= s@.len(),
            (deep(done@), cur@) == token_scan(s@.take(i as int)),
        decreases s@.len() - i,
    {
        let c = s[i];
        assert(s@.take(i + 1).drop_last() =~= s@.take(i as int));
        assert(s@.take(i + 1).last() == c);
        if white_space(c) || c == '=' {
            if cur.len() > 0 {
                let ghost before = done@;
                done.push(cur);
                assert(deep(done@) =~= deep(before).push(cur@));
                cur = Vec::new();
            }
        } else {
            cur.push(c);
        }
        i = i + 1;
        assert(cur@ =~= token_scan(s@.take(i as int)).1);
    }
    assert(s@.take(i as int) =~= s@);
    if cur.len() > 0 {
        let ghost before = done@;
        done.push(cur);
        assert(deep(done@) =~= deep(before).push(cur@));
    }
    done
}

/// The name that a quoted value holds, or `None` for a value that is not
/// quoted or whose quote does not recur.
pub fn unquote(v: &[char]) -> (r: Option<Vec<char>>)
    ensures
        match quoted_name(v@) {
            Some(n) => (r matches Some(x) && x@ == n),
            None => r is None,
        },
{
    if v.len() == 0 || (v[0] != '"' && v[0] != '\'') {
        return None;
    }
    let q = v[0];
    let mut j: usize = 1;
    while j < v.len()
        invariant
            1 <= j <= v@.len(),
            q == v@[0],
            q == '"' || q == '\'',
            find_char(v@, q, 1) == find_char(v@, q, j as nat),
        decreases v@.len() - j,
    {
        if v[j] == q {
            let mut name: Vec<char> = Vec::new();
            let mut k: usize = 1;
            while k < j
                invariant
                    1 <= k <= j,
                    j < v@.len(),
                    q == v@[0],
                    q == '"' || q == '\'',
                    v@[j as int] == q,
                    find_char(v@, q, 1) == find_char(v@, q, j as nat),
                    name@ == v@.subrange(1, k as int),
                decreases j - k,
            {
                name.push(v[k]);
                k = k + 1;
                assert(name@ =~= v@.subrange(1, k as int));
            }
            assert(find_char(v@, q, j as nat) == Some(j as nat));
            return Some(name);
        }
        j = j + 1;
    }
    None
}

/// Reads the `encoding` value of a declaration; see `declared_encoding`.
pub fn encoding_value(decl: &[char]) -> (r: Option<Option<Vec<char>>>)
    ensures
        match declared_encoding(decl@) {
            None => r is None,
            Some(None) => r == Some(None::<Vec<char>>),
            Some(Some(n)) => (r matches Some(Some(x)) && x@ == n),
        },
{
    let toks = split_tokens(decl);
    proof {
        reveal_strlit("encoding");
        assert("encoding"@ =~= encoding_keyword());
    }
    let mut i: usize = 0;
    while i < toks.len()
        invariant
            i <= toks@.len(),
            deep(toks@) == tokens(decl@),
            "encoding"@ == encoding_keyword(),
            find_keyword(tokens(decl@), 0) == find_keyword(tokens(decl@), i as nat),
        decreases toks@.len() - i,
    {
        assert(deep(toks@)[i as int] == toks@[i as int]@);
        if same_chars(toks[i].as_slice(), "encoding") {
            assert(tokens(decl@)[i as int] == encoding_keyword());
            assert(find_keyword(tokens(decl@), i as nat) == Some(i as nat));
            assert(toks@.len() == tokens(decl@).len());
            if i + 1 < toks.len() {
                assert(deep(toks@)[i + 1] == toks@[i + 1]@);
                return Some(unquote(toks[i + 1].as_slice()));
            } else {
                return Some(None);
            }
        }
        i = i + 1;
    }
    None
}

} // verus!

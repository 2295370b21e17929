//! Brace expansion and the sentinel protection around it. Quoted text has its
//! brace characters replaced by private-use sentinels before brace expansion,
//! so that quoting protects it; after expansion the sentinels are restored.
//! Expansion itself handles one unnested `{a,b,...}` group per token.
use vstd::prelude::*;
use vstd::string::StrSliceExecFns;

use crate::strutil::{chars_of, string_of};

verus! {

pub open spec fn spec_protect_char(c: char) -> char {
    if c == '{' {
        '\u{e000}'
    } else if c == '}' {
        '\u{e001}'
    } else {
        c
    }
}

pub open spec fn spec_restore_char(c: char) -> char {
    if c == '\u{e000}' {
        '{'
    } else if c == '\u{e001}' {
        '}'
    } else {
        c
    }
}

pub open spec fn spec_brace_protect(s: Seq<char>) -> Seq<char> {
    s.map_values(|c: char| spec_protect_char(c))
}

pub open spec fn spec_brace_restore(s: Seq<char>) -> Seq<char> {
    s.map_values(|c: char| spec_restore_char(c))
}

/// Protection and restoration cancel out on text that does not itself use
/// the private sentinel characters.
pub proof fn lemma_brace_round_trip(s: Seq<char>)
    requires
        forall|i: int| 0 <= i < s.len() ==> s[i] != '\u{e000}' && s[i] != '\u{e001}',
    ensures
        spec_brace_restore(spec_brace_protect(s)) == s,
{
    assert(spec_brace_restore(spec_brace_protect(s)) =~= s);
}

/// Replaces brace characters by sentinels.
pub fn protect_braces(s: &str) -> (r: String)
    ensures
        r@ == spec_brace_protect(s@),
{
    let n = s.unicode_len();
    let mut out: Vec<char> = Vec::new();
    let mut i: usize = 0;
    while i < n
        invariant
            0 <= i <= n,
            n == s@.len(),
            out@ == spec_brace_protect(s@.subrange(0, i as int)),
        decreases n - i,
    {
        let c = s.get_char(i);
        if c == '{' {
            out.push('\u{e000}');
        } else if c == '}' {
            out.push('\u{e001}');
        } else {
            out.push(c);
        }
        i += 1;
        proof {
            assert(out@ =~= spec_brace_protect(s@.subrange(0, i as int)));
        }
    }
    proof {
        assert(s@.subrange(0, n as int) =~= s@);
    }
    string_of(&out)
}

fn restore_token(s: &str) -> (r: String)
    ensures
        r@ == spec_brace_restore(s@),
{
    let n = s.unicode_len();
    let mut out: Vec<char> = Vec::new();
    let mut i: usize = 0;
    while i < n
        invariant
            0 <= i <= n,
            n == s@.len(),
            out@ == spec_brace_restore(s@.subrange(0, i as int)),
        decreases n - i,
    {
        let c = s.get_char(i);
        if c == '\u{e000}' {
            out.push('{');
        } else if c == '\u{e001}' {
            out.push('}');
        } else {
            out.push(c);
        }
        i += 1;
        proof {
            assert(out@ =~= spec_brace_restore(s@.subrange(0, i as int)));
        }
    }
    proof {
        assert(s@.subrange(0, n as int) =~= s@);
    }
    string_of(&out)
}

/// Restores sentinels to brace characters in every token.
pub fn restore_brace_sentinels(tokens: &Vec<String>) -> (r: Vec<String>)
    ensures
        r.deep_view() == tokens.deep_view().map_values(|s: Seq<char>| spec_brace_restore(s)),
{
    let mut out: Vec<String> = Vec::new();
    let mut i: usize = 0;
    while i < tokens.len()
        invariant
            0 <= i <= tokens@.len(),
            out.deep_view() == tokens.deep_view().subrange(0, i as int).map_values(
                |s: Seq<char>| spec_brace_restore(s),
            ),
        decreases tokens@.len() - i,
    {
        let restored = restore_token(tokens[i].as_str());
        let ghost prev = out.deep_view();
        out.push(restored);
        i += 1;
        proof {
            assert(out.deep_view() =~= prev.push(restored@));
            assert(tokens.deep_view()[i - 1] == tokens@[i - 1]@);
            assert(out.deep_view() =~= tokens.deep_view().subrange(0, i as int).map_values(
                |s: Seq<char>| spec_brace_restore(s),
            ));
        }
    }
    proof {
        assert(tokens.deep_view().subrange(0, tokens@.len() as int) =~= tokens.deep_view());
    }
    out
}

pub open spec fn spec_has_open_brace(s: Seq<char>) -> bool {
    exists|i: int| 0 <= i < s.len() && s[i] == '{'
}

/// The comma-separated alternatives of one unnested group body.
fn split_alternatives(inner: &Vec<char>) -> (r: Vec<Vec<char>>) {
    let mut out: Vec<Vec<char>> = Vec::new();
    let mut cur: Vec<char> = Vec::new();
    let mut i: usize = 0;
    while i < inner.len()
        decreases inner@.len() - i,
    {
        if inner[i] == ',' {
            out.push(cur);
            cur = Vec::new();
        } else {
            cur.push(inner[i]);
        }
        i += 1;
    }
    out.push(cur);
    out
}

/// The position of the first `target` at or after `from`, or the length.
fn find_char(chars: &Vec<char>, from: usize, target: char) -> (r: usize)
    requires
        from <= chars@.len(),
    ensures
        from <= r <= chars@.len(),
        r < chars@.len() ==> chars@[r as int] == target,
        r == chars@.len() ==> forall|j: int| from <= j < chars@.len() ==> chars@[j] != target,
{
    let mut i: usize = from;
    while i < chars.len()
        invariant
            from <= i <= chars@.len(),
            forall|j: int| from <= j < i ==> chars@[j] != target,
        decreases chars@.len() - i,
    {
        if chars[i] == target {
            return i;
        }
        i += 1;
    }
    i
}

/// Expands the first `{a,b,...}` group of one token; a token without an
/// expandable group stands unchanged.
fn expand_brace_token(token: &str) -> (r: Vec<String>)
    ensures
        !spec_has_open_brace(token@) ==> r.deep_view() == seq![token@],
{
    let chars = chars_of(token);
    let open = find_char(&chars, 0, '{');
    if open == chars.len() {
        let mut r: Vec<String> = Vec::new();
        r.push(token.to_owned());
        proof {
            assert(r.deep_view() =~= seq![token@]);
        }
        return r;
    }
    proof {
        assert(spec_has_open_brace(token@)) by {
            assert(0 <= open < token@.len() && token@[open as int] == '{');
        }
    }
    let close = find_char(&chars, open + 1, '}');
    let mut r: Vec<String> = Vec::new();
    if close == chars.len() {
        r.push(token.to_owned());
        return r;
    }
    // split the group body at commas; a body without a comma is no group
    let mut inner: Vec<char> = Vec::new();
    let mut has_comma = false;
    let mut k: usize = open + 1;
    while k < close
        invariant
            open < k <= close < chars@.len(),
        decreases close - k,
    {
        if chars[k] == ',' {
            has_comma = true;
        }
        inner.push(chars[k]);
        k += 1;
    }
    if !has_comma {
        r.push(token.to_owned());
        return r;
    }
    let alts = split_alternatives(&inner);
    let mut prefix: Vec<char> = Vec::new();
    let mut p: usize = 0;
    while p < open
        invariant
            0 <= p <= open < chars@.len(),
        decreases open - p,
    {
        prefix.push(chars[p]);
        p += 1;
    }
    let mut suffix: Vec<char> = Vec::new();
    let mut q: usize = close + 1;
    while q < chars.len()
        invariant
            close < q <= chars@.len(),
        decreases chars@.len() - q,
    {
        suffix.push(chars[q]);
        q += 1;
    }
    let mut a: usize = 0;
    while a < alts.len()
        decreases alts@.len() - a,
    {
        let mut piece: Vec<char> = Vec::new();
        let mut x: usize = 0;
        while x < prefix.len()
            decreases prefix@.len() - x,
        {
            piece.push(prefix[x]);
            x += 1;
        }
        let alt = &alts[a];
        let mut y: usize = 0;
        while y < alt.len()
            decreases alt@.len() - y,
        {
            piece.push(alt[y]);
            y += 1;
        }
        let mut z: usize = 0;
        while z < suffix.len()
            decreases suffix@.len() - z,
        {
            piece.push(suffix[z]);
            z += 1;
        }
        r.push(string_of(&piece));
        a += 1;
    }
    r
}

/// Brace expansion over a token list: tokens without an open brace pass
/// through unchanged, in order; a token with an unnested comma group is
/// replaced by its enumeration.
pub fn expand_braces(tokens: &Vec<String>) -> (r: Vec<String>)
    ensures
        (forall|j: int|
            0 <= j < tokens@.len() ==> !spec_has_open_brace(#[trigger] tokens.deep_view()[j]))
            ==> r.deep_view() == tokens.deep_view(),
{
    let mut out: Vec<String> = Vec::new();
    let mut i: usize = 0;
    while i < tokens.len()
        invariant
            0 <= i <= tokens@.len(),
            (forall|j: int|
                0 <= j < i ==> !spec_has_open_brace(#[trigger] tokens.deep_view()[j]))
                ==> out.deep_view() == tokens.deep_view().subrange(0, i as int),
        decreases tokens@.len() - i,
    {
        let pieces = expand_brace_token(tokens[i].as_str());
        let ghost prev = out.deep_view();
        proof {
            assert(prev + pieces.deep_view().subrange(0, 0) =~= prev);
        }
        let mut k: usize = 0;
        while k < pieces.len()
            invariant
                0 <= k <= pieces@.len(),
                out.deep_view() == prev + pieces.deep_view().subrange(0, k as int),
            decreases pieces@.len() - k,
        {
            let ghost cur = out.deep_view();
            out.push(pieces[k].clone());
            k += 1;
            proof {
                assert(out.deep_view() =~= cur.push(pieces@[k - 1]@));
                assert(pieces.deep_view()[k - 1] == pieces@[k - 1]@);
                assert(out.deep_view() =~= prev + pieces.deep_view().subrange(0, k as int));
            }
        }
        i += 1;
        proof {
            assert(pieces.deep_view().subrange(0, pieces@.len() as int) =~= pieces.deep_view());
            if forall|j: int|
                0 <= j < i ==> !spec_has_open_brace(#[trigger] tokens.deep_view()[j]) {
                assert(!spec_has_open_brace(tokens.deep_view()[i - 1]));
                assert(tokens.deep_view()[i - 1] == tokens@[i - 1]@);
                assert(pieces.deep_view() == seq![tokens.deep_view()[i - 1]]);
                assert(out.deep_view() =~= tokens.deep_view().subrange(0, i as int));
            }
        }
    }
    proof {
        assert(tokens.deep_view().subrange(0, tokens@.len() as int) =~= tokens.deep_view());
    }
    out
}

} // verus!

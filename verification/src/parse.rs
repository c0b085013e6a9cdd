//! The path-and-list parser: the first stage of the pipeline.
//!
//! An invocation is a token sequence of the shape
//! `seg1 :: seg2 :: ... :: { item1 sep item2 sep ... }` with one or more path
//! segments, zero or more items, and each separator either `|` or `,`.  The
//! parser is greedy on the path: it consumes `ident ::` pairs as long as they
//! last, then requires the remainder to be one brace-enclosed item list that
//! reaches the end of the input.
//!
//! An input whose remainder after the path is not a brace-enclosed group, or
//! whose list does not match the grammar, is rejected with
//! [`FlagsError::MalformedListError`].  An input with a brace-enclosed
//! remainder but no path segment at all is rejected with
//! [`FlagsError::EmptyPathError`]: with no path there is no way to tell whose
//! flags are meant, whatever the list holds.

use vstd::prelude::*;
use vstd::pervasive::unreached;

use crate::token::{Tok, Token, is_close_brace, is_ident, is_list_sep, is_open_brace, is_path_sep,
    is_sep, toks_of};

verus! {

/// Why an invocation was rejected.
#[derive(Debug, Clone, Copy, PartialEq, Eq, Structural)]
pub enum FlagsError {
    /// The path prefix (`A::` of `A::{...}`) is missing.
    EmptyPathError,
    /// The input is not one path followed by one brace-enclosed,
    /// separator-joined list of identifiers.
    MalformedListError,
    /// A qualified element is bound to no value in the caller's bindings.
    UnresolvedElementError,
}

/// A parsed invocation: the path segments before the braces and the bare
/// item names inside them, each in source order.
pub struct Invocation {
    pub path: Vec<String>,
    pub items: Vec<String>,
}

/// How many leading `ident ::` pairs the token sequence has.
pub open spec fn path_seg_count(ts: Seq<Tok>) -> nat
    decreases ts.len(),
{
    if ts.len() >= 2 && ts[0] is Ident && ts[1] is PathSep {
        1 + path_seg_count(ts.skip(2))
    } else {
        0
    }
}

/// The path segments named by the leading `ident ::` pairs.
pub open spec fn path_segs(ts: Seq<Tok>) -> Seq<Seq<char>>
    decreases ts.len(),
{
    if ts.len() >= 2 && ts[0] is Ident && ts[1] is PathSep {
        seq![ts[0]->Ident_0] + path_segs(ts.skip(2))
    } else {
        Seq::empty()
    }
}

/// The item names of a brace interior, or `None` where the interior is not
/// zero or more identifiers joined by single separators.
pub open spec fn items_of(interior: Seq<Tok>) -> Option<Seq<Seq<char>>>
    decreases interior.len(),
{
    if interior.len() == 0 {
        Some(Seq::empty())
    } else if !(interior[0] is Ident) {
        None
    } else if interior.len() == 1 {
        Some(seq![interior[0]->Ident_0])
    } else if !is_sep(interior[1]) {
        None
    } else if interior.len() == 2 {
        // a trailing separator with no item after it
        None
    } else {
        match items_of(interior.skip(2)) {
            Some(rest) => Some(seq![interior[0]->Ident_0] + rest),
            None => None,
        }
    }
}

/// Whether the remainder after the path is one brace-enclosed group that
/// reaches the end of the input.
pub open spec fn brace_shape_ok(rest: Seq<Tok>) -> bool {
    rest.len() >= 2 && rest[0] is OpenBrace && rest.last() is CloseBrace
}

/// What parsing a token sequence yields: the path segments and item names of
/// a well-formed invocation, or the error that rejects it.
pub open spec fn parse_toks(ts: Seq<Tok>) -> Result<(Seq<Seq<char>>, Seq<Seq<char>>), FlagsError> {
    let n = path_seg_count(ts);
    let rest = ts.skip(2 * (n as int));
    if !brace_shape_ok(rest) {
        Err(FlagsError::MalformedListError)
    } else if n == 0 {
        Err(FlagsError::EmptyPathError)
    } else {
        match items_of(rest.subrange(1, rest.len() - 1)) {
            Some(items) => Ok((path_segs(ts), items)),
            None => Err(FlagsError::MalformedListError),
        }
    }
}

/// Parse one invocation.  Returns the path and items exactly when the token
/// sequence matches the grammar, and the rejecting error otherwise.
pub fn parse(tokens: &Vec<Token>) -> (r: Result<Invocation, FlagsError>)
    ensures
        match r {
            Ok(inv) => parse_toks(toks_of(tokens@)) == Ok::<_, FlagsError>(
                (inv.path.deep_view(), inv.items.deep_view()),
            ),
            Err(e) => parse_toks(toks_of(tokens@)) == Err::<(Seq<Seq<char>>, Seq<Seq<char>>), _>(e),
        },
{
    let ghost ts = toks_of(tokens@);
    let n = tokens.len();
    let mut path: Vec<String> = Vec::new();
    let mut i: usize = 0;
    proof {
        assert(ts.skip(0) =~= ts);
        assert(path.deep_view() =~= Seq::<Seq<char>>::empty());
        assert(Seq::<Seq<char>>::empty() + path_segs(ts) =~= path_segs(ts));
    }
    loop
        invariant
            ts == toks_of(tokens@),
            n == tokens.len(),
            i <= n,
            i == 2 * path.len(),
            path_seg_count(ts) == path.len() + path_seg_count(ts.skip(i as int)),
            path_segs(ts) == path.deep_view() + path_segs(ts.skip(i as int)),
        ensures
            i <= n,
            i == 2 * path.len(),
            path_seg_count(ts.skip(i as int)) == 0,
            path_seg_count(ts) == path.len(),
            path_segs(ts) == path.deep_view() + path_segs(ts.skip(i as int)),
        decreases n - i,
    {
        if i + 1 >= n {
            break;
        }
        proof {
            assert(ts.skip(i as int)[0] == ts[i as int]);
            assert(ts.skip(i as int)[1] == ts[i + 1]);
        }
        if !is_ident(&tokens[i]) {
            break;
        }
        if !is_path_sep(&tokens[i + 1]) {
            break;
        }
        let seg = match &tokens[i] {
            Token::Ident(s) => s.clone(),
            _ => unreached(),
        };
        let ghost path0 = path.deep_view();
        let ghost segv = seg@;
        proof {
            assert(segv == ts[i as int]->Ident_0);
            assert(ts.skip(i as int).skip(2) =~= ts.skip(i + 2));
        }
        path.push(seg);
        proof {
            assert(path.deep_view() =~= path0.push(segv));
            assert(path0.push(segv) =~= path0 + seq![ts[i as int]->Ident_0]);
            assert((path0 + seq![ts[i as int]->Ident_0]) + path_segs(ts.skip(i + 2)) =~= path0 + (
            seq![ts[i as int]->Ident_0] + path_segs(ts.skip(i + 2))));
        }
        i = i + 2;
    }
    proof {
        assert(path_segs(ts.skip(i as int)) =~= Seq::<Seq<char>>::empty());
        assert(path_segs(ts) =~= path.deep_view());
        assert(ts.skip(2 * (path_seg_count(ts) as int)) == ts.skip(i as int));
    }
    let ghost rest = ts.skip(i as int);
    if n - i < 2 {
        assert(rest.len() < 2);
        return Err(FlagsError::MalformedListError);
    }
    proof {
        assert(rest[0] == ts[i as int]);
        assert(rest.last() == ts[n - 1]);
    }
    if !is_open_brace(&tokens[i]) {
        return Err(FlagsError::MalformedListError);
    }
    if !is_close_brace(&tokens[n - 1]) {
        return Err(FlagsError::MalformedListError);
    }
    assert(brace_shape_ok(rest));
    if path.len() == 0 {
        return Err(FlagsError::EmptyPathError);
    }
    let items = parse_items(tokens, i + 1, n - 1);
    proof {
        assert(rest.subrange(1, rest.len() - 1) =~= ts.subrange(i + 1, n - 1));
    }
    match items {
        Some(items) => Ok(Invocation { path, items }),
        None => Err(FlagsError::MalformedListError),
    }
}

/// Parse the interior of the braces, `tokens[lo..hi]`, as an item list.
fn parse_items(tokens: &Vec<Token>, lo: usize, hi: usize) -> (r: Option<Vec<String>>)
    requires
        lo <= hi <= tokens.len(),
    ensures
        match r {
            Some(v) => items_of(toks_of(tokens@).subrange(lo as int, hi as int)) == Some(
                v.deep_view(),
            ),
            None => items_of(toks_of(tokens@).subrange(lo as int, hi as int)) is None,
        },
    decreases hi - lo,
{
    let ghost interior = toks_of(tokens@).subrange(lo as int, hi as int);
    if lo == hi {
        let v: Vec<String> = Vec::new();
        assert(v.deep_view() =~= Seq::<Seq<char>>::empty());
        return Some(v);
    }
    assert(interior[0] == toks_of(tokens@)[lo as int]);
    if !is_ident(&tokens[lo]) {
        return None;
    }
    let head = match &tokens[lo] {
        Token::Ident(s) => s.clone(),
        _ => unreached(),
    };
    let ghost headv = head@;
    assert(headv == interior[0]->Ident_0);
    if lo + 1 == hi {
        let mut v: Vec<String> = Vec::new();
        v.push(head);
        assert(v.deep_view() =~= seq![interior[0]->Ident_0]);
        return Some(v);
    }
    assert(interior[1] == toks_of(tokens@)[lo + 1]);
    if !is_list_sep(&tokens[lo + 1]) {
        return None;
    }
    if lo + 2 == hi {
        return None;
    }
    proof {
        assert(interior.skip(2) =~= toks_of(tokens@).subrange(lo + 2, hi as int));
    }
    match parse_items(tokens, lo + 2, hi) {
        Some(mut rest) => {
            let ghost restv = rest.deep_view();
            let mut v: Vec<String> = Vec::new();
            v.push(head);
            v.append(&mut rest);
            assert(v.deep_view() =~= seq![headv] + restv);
            Some(v)
        },
        None => None,
    }
}

} // verus!

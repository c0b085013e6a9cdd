//! Reassembly of fully qualified element names, and the first-stage-only
//! entry point.
//!
//! For a parsed invocation with path `["Mod", "Type"]` and items
//! `["A", "B"]`, the element sequence is `["Mod::Type::A", "Mod::Type::B"]`:
//! each item name prefixed by every path segment, in source order.  No name
//! resolution happens here; the names are handed on as plain text.

use vstd::prelude::*;
use vstd::string::StringExecFns;

use crate::parse::{FlagsError, parse, parse_toks};
use crate::token::{Tok, Token, toks_of};

verus! {

/// The two characters of the path separator `::`.
pub open spec fn path_sep_chars() -> Seq<char> {
    seq![':', ':']
}

/// The characters of the path prefix `seg1::seg2::...::`, every segment
/// followed by the separator.
pub open spec fn path_prefix_chars(path: Seq<Seq<char>>) -> Seq<char>
    decreases path.len(),
{
    if path.len() == 0 {
        Seq::empty()
    } else {
        path_prefix_chars(path.drop_last()) + path.last() + path_sep_chars()
    }
}

/// The characters of the fully qualified name `seg1::...::segN::item`.
pub open spec fn qualified_chars(path: Seq<Seq<char>>, item: Seq<char>) -> Seq<char> {
    path_prefix_chars(path) + item
}

/// The ordered element sequence of an invocation: each item name fully
/// qualified by the path.
pub open spec fn element_names(path: Seq<Seq<char>>, items: Seq<Seq<char>>) -> Seq<Seq<char>> {
    items.map_values(|item: Seq<char>| qualified_chars(path, item))
}

/// What the first stage yields for a token sequence: the ordered fully
/// qualified element names of a well-formed invocation, or the rejecting
/// error.
pub open spec fn set_array_spec(ts: Seq<Tok>) -> Result<Seq<Seq<char>>, FlagsError> {
    match parse_toks(ts) {
        Ok(pi) => Ok(element_names(pi.0, pi.1)),
        Err(e) => Err(e),
    }
}

/// Join one path and one item name into the fully qualified name, with `::`
/// after every path segment.
pub fn qualified_name(path: &Vec<String>, item: &String) -> (r: String)
    ensures
        r@ == qualified_chars(path.deep_view(), item@),
{
    let ghost pathv = path.deep_view();
    let mut s = String::new();
    proof {
        reveal_strlit("::");
        assert("::"@ =~= path_sep_chars());
        assert(path_prefix_chars(pathv.take(0)) =~= Seq::<char>::empty());
    }
    let mut k: usize = 0;
    while k < path.len()
        invariant
            pathv == path.deep_view(),
            k <= path.len(),
            "::"@ == path_sep_chars(),
            s@ == path_prefix_chars(pathv.take(k as int)),
        decreases path.len() - k,
    {
        proof {
            assert(pathv.take(k + 1).drop_last() =~= pathv.take(k as int));
            assert(pathv.take(k + 1).last() == pathv[k as int]);
        }
        s.append(path[k].as_str());
        s.append("::");
        k = k + 1;
    }
    proof {
        assert(pathv.take(path.len() as int) =~= pathv);
    }
    s.append(item.as_str());
    s
}

/// The first stage's reassembly: every item name of the list, prefixed by
/// the path, in source order.
pub fn build_sequence(path: &Vec<String>, items: &Vec<String>) -> (r: Vec<String>)
    ensures
        r.deep_view() == element_names(path.deep_view(), items.deep_view()),
{
    let ghost pathv = path.deep_view();
    let ghost itemsv = items.deep_view();
    let mut out: Vec<String> = Vec::new();
    let mut k: usize = 0;
    proof {
        assert(out.deep_view() =~= element_names(pathv, itemsv.take(0)));
    }
    while k < items.len()
        invariant
            pathv == path.deep_view(),
            itemsv == items.deep_view(),
            k <= items.len(),
            out.deep_view() == element_names(pathv, itemsv.take(k as int)),
        decreases items.len() - k,
    {
        let ghost out0 = out.deep_view();
        let q = qualified_name(path, &items[k]);
        let ghost qv = q@;
        out.push(q);
        proof {
            assert(out.deep_view() =~= out0.push(qv));
            assert(out0.push(qv) =~= element_names(pathv, itemsv.take(k + 1)));
        }
        k = k + 1;
    }
    proof {
        assert(itemsv.take(items.len() as int) =~= itemsv);
    }
    out
}

/// The first-stage-only entry point: parse the invocation and return the
/// ordered fully qualified element names, without building any set value.
pub fn set_array(tokens: &Vec<Token>) -> (r: Result<Vec<String>, FlagsError>)
    ensures
        match r {
            Ok(v) => set_array_spec(toks_of(tokens@)) == Ok::<_, FlagsError>(v.deep_view()),
            Err(e) => set_array_spec(toks_of(tokens@)) == Err::<Seq<Seq<char>>, _>(e),
        },
{
    match parse(tokens) {
        Err(e) => Err(e),
        Ok(inv) => Ok(build_sequence(&inv.path, &inv.items)),
    }
}

} // verus!

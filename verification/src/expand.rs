//! The two stages composed: from a token sequence and a set of name
//! bindings to one set value.
//!
//! The host language would resolve each reassembled qualified name to the
//! flag value it denotes.  Here that resolver is modelled by the bindings
//! the caller passes in: an ordered list of pairs of a fully qualified name
//! and its flag value, searched front to back.  A well-formed invocation
//! whose every element resolves yields the fold of the resolved values, in
//! source order; an element bound to no value is rejected with
//! [`FlagsError::UnresolvedElementError`]; a parse failure is handed
//! through unchanged.

use vstd::prelude::*;

use crate::builder::{DefaultSet, FlagElement, fold_set};
use crate::elements::{element_names, set_array, set_array_spec};
use crate::parse::{FlagsError, parse_toks};
use crate::token::{Tok, Token, toks_of};

verus! {

/// The ghost bindings that a binding vector denotes: each name as its
/// character sequence.
pub open spec fn bindings_of<E>(env: Seq<(String, E)>) -> Seq<(Seq<char>, E)> {
    env.map_values(|b: (String, E)| (b.0@, b.1))
}

/// The value bound to a name: the first pair with that name wins, and a
/// name that no pair holds is unbound.
pub open spec fn lookup_spec<E>(env: Seq<(Seq<char>, E)>, name: Seq<char>) -> Option<E>
    decreases env.len(),
{
    if env.len() == 0 {
        None
    } else if env[0].0 == name {
        Some(env[0].1)
    } else {
        lookup_spec(env.skip(1), name)
    }
}

/// The values bound to the given names, in order, or `None` as soon as any
/// name is unbound.
pub open spec fn resolve_all<E>(env: Seq<(Seq<char>, E)>, names: Seq<Seq<char>>) -> Option<Seq<E>>
    decreases names.len(),
{
    if names.len() == 0 {
        Some(Seq::empty())
    } else {
        match lookup_spec(env, names[0]) {
            None => None,
            Some(v) => match resolve_all(env, names.skip(1)) {
                None => None,
                Some(rest) => Some(seq![v] + rest),
            },
        }
    }
}

/// What the full pipeline yields for a token sequence and bindings: the
/// fold of the values bound to the invocation's qualified element names,
/// or the error that rejects it.
pub open spec fn flags_spec<E: FlagElement>(ts: Seq<Tok>, env: Seq<(Seq<char>, E)>) -> Result<
    E::SetType,
    FlagsError,
> {
    match parse_toks(ts) {
        Err(e) => Err(e),
        Ok(pi) => match resolve_all(env, element_names(pi.0, pi.1)) {
            None => Err(FlagsError::UnresolvedElementError),
            Some(vals) => Ok(fold_set::<E>(vals)),
        },
    }
}

/// Find the value bound to a fully qualified name, front to back.
pub fn lookup<E: Copy>(env: &Vec<(String, E)>, name: &String) -> (r: Option<E>)
    ensures
        r == lookup_spec(bindings_of(env@), name@),
{
    let ghost envv = bindings_of(env@);
    let mut k: usize = 0;
    proof {
        assert(envv.skip(0) =~= envv);
    }
    while k < env.len()
        invariant
            envv == bindings_of(env@),
            k <= env.len(),
            lookup_spec(envv, name@) == lookup_spec(envv.skip(k as int), name@),
        decreases env.len() - k,
    {
        proof {
            assert(envv.skip(k as int)[0] == envv[k as int]);
            assert(envv.skip(k as int).skip(1) =~= envv.skip(k + 1));
        }
        if env[k].0 == *name {
            return Some(env[k].1);
        }
        k = k + 1;
    }
    None
}

/// The helper the resolving loop's invariant speaks of: what the whole
/// resolution yields, given the values already resolved for the first `k`
/// names.
spec fn resolved_from<E>(
    env: Seq<(Seq<char>, E)>,
    names: Seq<Seq<char>>,
    k: int,
    acc: Seq<E>,
) -> Option<Seq<E>> {
    match resolve_all(env, names.skip(k)) {
        None => None,
        Some(rest) => Some(acc + rest),
    }
}

/// The full pipeline: parse the invocation, reassemble its qualified
/// element names, resolve each against the bindings, and fold the resolved
/// values into one set value.
pub fn flags<E: DefaultSet + Copy>(tokens: &Vec<Token>, env: &Vec<(String, E)>) -> (r: Result<
    E::SetType,
    FlagsError,
>)
    ensures
        r == flags_spec::<E>(toks_of(tokens@), bindings_of(env@)),
{
    let ghost ts = toks_of(tokens@);
    let ghost envv = bindings_of(env@);
    let names = match set_array(tokens) {
        Err(e) => {
            return Err(e);
        },
        Ok(v) => v,
    };
    let ghost namesv = names.deep_view();
    let mut vals: Vec<E> = Vec::new();
    let mut k: usize = 0;
    proof {
        assert(namesv.skip(0) =~= namesv);
        if resolve_all(envv, namesv) is Some {
            assert(vals@ + resolve_all(envv, namesv).unwrap() =~= resolve_all(
                envv,
                namesv,
            ).unwrap());
        }
    }
    while k < names.len()
        invariant
            ts == toks_of(tokens@),
            envv == bindings_of(env@),
            namesv == names.deep_view(),
            set_array_spec(ts) == Ok::<_, FlagsError>(namesv),
            k <= names.len(),
            resolve_all(envv, namesv) == resolved_from(envv, namesv, k as int, vals@),
        decreases names.len() - k,
    {
        proof {
            assert(namesv.skip(k as int)[0] == namesv[k as int]);
            assert(namesv.skip(k as int).skip(1) =~= namesv.skip(k + 1));
            assert(names@[k as int]@ == namesv[k as int]);
        }
        let v = match lookup(env, &names[k]) {
            None => {
                return Err(FlagsError::UnresolvedElementError);
            },
            Some(v) => v,
        };
        let ghost vals0 = vals@;
        vals.push(v);
        proof {
            if resolve_all(envv, namesv.skip(k + 1)) is Some {
                let rest = resolve_all(envv, namesv.skip(k + 1)).unwrap();
                assert(vals0 + (seq![v] + rest) =~= vals@ + rest);
            }
        }
        k = k + 1;
    }
    proof {
        assert(namesv.skip(names.len() as int) =~= Seq::<Seq<char>>::empty());
        assert(vals@ + Seq::<E>::empty() =~= vals@);
    }
    Ok(E::set_from_iter(vals))
}

} // verus!

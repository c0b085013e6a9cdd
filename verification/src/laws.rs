//! The laws the pipeline obeys, stated over whole families of invocations.
//!
//! An invocation here is written down by rendering: [`render_invocation`]
//! lays out any path, item list and separator choice as the token sequence a
//! caller would pass in.  The laws then say what parsing, the first stage
//! and the full pipeline yield for every such rendering: a well-formed
//! invocation parses back to exactly its path and items, the choice between
//! `|` and `,` never shows in the result, an empty list yields the empty
//! set, a single item yields the singleton set, a missing path is rejected
//! whatever the list holds, and — for any combine operation that is
//! associative and commutative in the way a fold can use — the listing
//! order of the items never shows in the result.

use vstd::prelude::*;

use crate::builder::{FlagElement, fold_set};
use crate::elements::{element_names, qualified_chars, set_array_spec};
use crate::expand::{flags_spec, lookup_spec, resolve_all};
use crate::parse::{FlagsError, brace_shape_ok, items_of, parse_toks, path_seg_count, path_segs};
use crate::token::{Tok, is_sep};

verus! {

/// The tokens of a path prefix: every segment as an identifier followed by
/// the path separator.
pub open spec fn render_path(path: Seq<Seq<char>>) -> Seq<Tok>
    decreases path.len(),
{
    if path.len() == 0 {
        Seq::empty()
    } else {
        seq![Tok::Ident(path[0]), Tok::PathSep] + render_path(path.skip(1))
    }
}

/// The tokens of an item list: the items as identifiers, joined by the
/// given separators.
pub open spec fn render_list(items: Seq<Seq<char>>, seps: Seq<Tok>) -> Seq<Tok>
    decreases items.len(),
{
    if items.len() == 0 {
        Seq::empty()
    } else if items.len() == 1 {
        seq![Tok::Ident(items[0])]
    } else {
        seq![Tok::Ident(items[0]), seps[0]] + render_list(items.skip(1), seps.skip(1))
    }
}

/// The tokens of one whole invocation: the path prefix, then the item list
/// in braces.
pub open spec fn render_invocation(
    path: Seq<Seq<char>>,
    items: Seq<Seq<char>>,
    seps: Seq<Tok>,
) -> Seq<Tok> {
    render_path(path) + seq![Tok::OpenBrace] + render_list(items, seps) + seq![Tok::CloseBrace]
}

/// Whether a separator choice fits an item list: one separator between each
/// neighbouring pair of items, each either `|` or `,`.
pub open spec fn seps_wf(items: Seq<Seq<char>>, seps: Seq<Tok>) -> bool {
    &&& seps.len() == (if items.len() == 0 {
        0int
    } else {
        items.len() - 1
    })
    &&& forall|i: int| 0 <= i < seps.len() ==> is_sep(#[trigger] seps[i])
}

/// The rendered path prefix is exactly what the greedy path pass consumes:
/// before anything that opens a brace, it yields the path back and stops at
/// the brace.
proof fn lemma_path_round_trip(path: Seq<Seq<char>>, rest: Seq<Tok>)
    requires
        rest.len() > 0,
        rest[0] is OpenBrace,
    ensures
        render_path(path).len() == 2 * path.len(),
        path_seg_count(render_path(path) + rest) == path.len(),
        path_segs(render_path(path) + rest) == path,
        (render_path(path) + rest).skip(2 * (path.len() as int)) == rest,
    decreases path.len(),
{
    let ts = render_path(path) + rest;
    if path.len() == 0 {
        assert(ts =~= rest);
        assert(path_segs(ts) =~= path);
        assert(ts.skip(0) =~= rest);
    } else {
        let tail = render_path(path.skip(1)) + rest;
        lemma_path_round_trip(path.skip(1), rest);
        assert(ts[0] == Tok::Ident(path[0]));
        assert(ts[1] == Tok::PathSep);
        assert(ts.skip(2) =~= tail);
        assert(path_segs(ts) == seq![path[0]] + path_segs(tail));
        assert(seq![path[0]] + path.skip(1) =~= path);
        assert(tail.len() == 2 * (path.len() - 1) + rest.len());
        assert(2 + 2 * (path.len() - 1) <= ts.len());
        vstd::seq_lib::lemma_seq_skip_of_skip(ts, 2, 2 * (path.len() - 1));
        assert(ts.skip(2).skip(2 * (path.len() - 1)) =~= ts.skip(2 * (path.len() as int)));
        assert(ts.skip(2 * (path.len() as int)) == tail.skip(2 * (path.len() - 1)));
    }
}

/// The rendered item list is exactly what the list pass accepts: it yields
/// the items back, whichever fitting separators were chosen.
proof fn lemma_list_round_trip(items: Seq<Seq<char>>, seps: Seq<Tok>)
    requires
        seps_wf(items, seps),
    ensures
        items_of(render_list(items, seps)) == Some(items),
    decreases items.len(),
{
    let interior = render_list(items, seps);
    if items.len() == 0 {
        assert(items =~= Seq::<Seq<char>>::empty());
    } else if items.len() == 1 {
        assert(seq![items[0]] =~= items);
    } else {
        let tail = render_list(items.skip(1), seps.skip(1));
        assert(seps_wf(items.skip(1), seps.skip(1))) by {
            assert(forall|i: int|
                0 <= i < seps.skip(1).len() ==> #[trigger] seps.skip(1)[i] == seps[i + 1]);
        }
        lemma_list_round_trip(items.skip(1), seps.skip(1));
        assert(tail.len() >= 1);
        assert(interior[0] == Tok::Ident(items[0]));
        assert(interior[1] == seps[0]);
        assert(is_sep(seps[0]));
        assert(interior.skip(2) =~= tail);
        assert(interior.len() >= 3);
        assert(seq![items[0]] + items.skip(1) =~= items);
    }
}

/// Parser completeness: every rendered invocation with at least one path
/// segment and fitting separators parses back to exactly its path and its
/// items, in order.
pub proof fn lemma_parse_render(path: Seq<Seq<char>>, items: Seq<Seq<char>>, seps: Seq<Tok>)
    requires
        path.len() >= 1,
        seps_wf(items, seps),
    ensures
        parse_toks(render_invocation(path, items, seps)) == Ok::<_, FlagsError>((path, items)),
{
    let ts = render_invocation(path, items, seps);
    let rest = seq![Tok::OpenBrace] + render_list(items, seps) + seq![Tok::CloseBrace];
    assert(ts =~= render_path(path) + rest);
    lemma_path_round_trip(path, rest);
    assert(rest.last() is CloseBrace);
    assert(brace_shape_ok(rest));
    assert(rest.subrange(1, rest.len() - 1) =~= render_list(items, seps));
    lemma_list_round_trip(items, seps);
}

/// First-stage completeness: every rendered invocation yields exactly its
/// items, each qualified by the whole path, in listing order.
pub proof fn lemma_elements_of_render(path: Seq<Seq<char>>, items: Seq<Seq<char>>, seps: Seq<Tok>)
    requires
        path.len() >= 1,
        seps_wf(items, seps),
    ensures
        set_array_spec(render_invocation(path, items, seps)) == Ok::<_, FlagsError>(
            element_names(path, items),
        ),
{
    lemma_parse_render(path, items, seps);
}

/// An empty item list yields the empty set value, for every path, every
/// binding set and every element type: the fold of no elements is the
/// identity.
pub proof fn lemma_empty_list_empty_set<E: FlagElement>(
    path: Seq<Seq<char>>,
    env: Seq<(Seq<char>, E)>,
)
    requires
        path.len() >= 1,
    ensures
        flags_spec::<E>(render_invocation(path, Seq::empty(), Seq::empty()), env) == Ok::<
            _,
            FlagsError,
        >(E::spec_empty()),
{
    let items = Seq::<Seq<char>>::empty();
    lemma_parse_render(path, items, Seq::empty());
    assert(element_names(path, items) =~= Seq::<Seq<char>>::empty());
}

/// A single item yields the singleton set: the empty value combined with
/// exactly the one value its qualified name is bound to.
pub proof fn lemma_singleton_flag<E: FlagElement>(
    path: Seq<Seq<char>>,
    item: Seq<char>,
    env: Seq<(Seq<char>, E)>,
)
    requires
        path.len() >= 1,
        lookup_spec(env, qualified_chars(path, item)) is Some,
    ensures
        flags_spec::<E>(render_invocation(path, seq![item], Seq::empty()), env) == Ok::<
            _,
            FlagsError,
        >(E::spec_combine(E::spec_empty(), lookup_spec(env, qualified_chars(path, item)).unwrap())),
{
    let items = seq![item];
    lemma_parse_render(path, items, Seq::empty());
    let names = element_names(path, items);
    assert(names =~= seq![qualified_chars(path, item)]);
    let v = lookup_spec(env, qualified_chars(path, item)).unwrap();
    assert(names.skip(1) =~= Seq::<Seq<char>>::empty());
    assert(resolve_all(env, Seq::<Seq<char>>::empty()) == Some(Seq::<E>::empty()));
    assert(names[0] == qualified_chars(path, item));
    assert(resolve_all(env, names) == Some(seq![v] + Seq::<E>::empty()));
    assert(seq![v] + Seq::<E>::empty() =~= seq![v]);
    assert(seq![v].drop_last() =~= Seq::<E>::empty());
    assert(fold_set::<E>(Seq::<E>::empty()) == E::spec_empty());
    assert(seq![v].last() == v);
    assert(fold_set::<E>(seq![v]) == E::spec_combine(E::spec_empty(), v));
}

/// For a bitmask flag type, the singleton set is the flag itself: combining
/// the all-zero empty set with one flag value yields that value.
pub proof fn lemma_bitmask_singleton_u32(v: u32)
    ensures
        <u32 as FlagElement>::spec_combine(<u32 as FlagElement>::spec_empty(), v) == v,
{
    assert(0u32 | v == v) by (bit_vector);
}

/// For a bitmask flag type, the singleton set is the flag itself: combining
/// the all-zero empty set with one flag value yields that value.
pub proof fn lemma_bitmask_singleton_u64(v: u64)
    ensures
        <u64 as FlagElement>::spec_combine(<u64 as FlagElement>::spec_empty(), v) == v,
{
    assert(0u64 | v == v) by (bit_vector);
}

/// The choice of separators never shows in the result: pipe-separated and
/// comma-separated renderings of the same path and items — mixed forms
/// included — yield identical results, stage for stage.
pub proof fn lemma_separator_choice_irrelevant<E: FlagElement>(
    path: Seq<Seq<char>>,
    items: Seq<Seq<char>>,
    seps1: Seq<Tok>,
    seps2: Seq<Tok>,
    env: Seq<(Seq<char>, E)>,
)
    requires
        path.len() >= 1,
        seps_wf(items, seps1),
        seps_wf(items, seps2),
    ensures
        set_array_spec(render_invocation(path, items, seps1)) == set_array_spec(
            render_invocation(path, items, seps2),
        ),
        flags_spec::<E>(render_invocation(path, items, seps1), env) == flags_spec::<E>(
            render_invocation(path, items, seps2),
            env,
        ),
{
    lemma_parse_render(path, items, seps1);
    lemma_parse_render(path, items, seps2);
}

/// A path with zero segments is rejected with the empty-path error, for
/// every item list with fitting separators and every binding set.
pub proof fn lemma_empty_path_rejected<E: FlagElement>(
    items: Seq<Seq<char>>,
    seps: Seq<Tok>,
    env: Seq<(Seq<char>, E)>,
)
    requires
        seps_wf(items, seps),
    ensures
        parse_toks(render_invocation(Seq::empty(), items, seps)) == Err::<
            (Seq<Seq<char>>, Seq<Seq<char>>),
            _,
        >(FlagsError::EmptyPathError),
        flags_spec::<E>(render_invocation(Seq::empty(), items, seps), env) == Err::<E::SetType, _>(
            FlagsError::EmptyPathError,
        ),
{
    let ts = render_invocation(Seq::empty(), items, seps);
    let rest = seq![Tok::OpenBrace] + render_list(items, seps) + seq![Tok::CloseBrace];
    assert(ts =~= rest);
    assert(ts[0] is OpenBrace);
    assert(path_seg_count(ts) == 0);
    assert(ts.skip(0) =~= ts);
    assert(ts.last() is CloseBrace);
    assert(brace_shape_ok(ts));
}

/// The first stage is all the full pipeline folds: for every token
/// sequence, the pipeline's result is exactly the fold of the values bound
/// to the first stage's element names — and the first stage's error where
/// it rejects.
pub proof fn lemma_stages_agree<E: FlagElement>(ts: Seq<Tok>, env: Seq<(Seq<char>, E)>)
    ensures
        match set_array_spec(ts) {
            Ok(names) => flags_spec::<E>(ts, env) == (match resolve_all(env, names) {
                None => Err::<E::SetType, FlagsError>(FlagsError::UnresolvedElementError),
                Some(vals) => Ok::<E::SetType, FlagsError>(fold_set::<E>(vals)),
            }),
            Err(e) => flags_spec::<E>(ts, env) == Err::<E::SetType, FlagsError>(e),
        },
{
}

/// The form that associativity and commutativity of flag union take for a
/// fold: a set may take two elements in either order.
pub open spec fn combine_order_insensitive<E: FlagElement>() -> bool {
    forall|acc: E::SetType, x: E, y: E|
        #[trigger] E::spec_combine(E::spec_combine(acc, x), y) == E::spec_combine(
            E::spec_combine(acc, y),
            x,
        )
}

/// Bitwise or takes two flags in either order.
pub proof fn lemma_bitmask_order_insensitive_u32()
    ensures
        combine_order_insensitive::<u32>(),
{
    assert forall|acc: u32, x: u32, y: u32|
        #[trigger] <u32 as FlagElement>::spec_combine(
            <u32 as FlagElement>::spec_combine(acc, x),
            y,
        ) == <u32 as FlagElement>::spec_combine(
            <u32 as FlagElement>::spec_combine(acc, y),
            x,
        ) by {
        assert(((acc | x) | y) == ((acc | y) | x)) by (bit_vector);
    };
}

/// Bitwise or takes two flags in either order.
pub proof fn lemma_bitmask_order_insensitive_u64()
    ensures
        combine_order_insensitive::<u64>(),
{
    assert forall|acc: u64, x: u64, y: u64|
        #[trigger] <u64 as FlagElement>::spec_combine(
            <u64 as FlagElement>::spec_combine(acc, x),
            y,
        ) == <u64 as FlagElement>::spec_combine(
            <u64 as FlagElement>::spec_combine(acc, y),
            x,
        ) by {
        assert(((acc | x) | y) == ((acc | y) | x)) by (bit_vector);
    };
}

/// For an order-insensitive combine, a fold may take any one element out
/// last: the fold of a sequence is the fold without that element, combined
/// with it.
pub proof fn lemma_fold_set_remove<E: FlagElement>(s: Seq<E>, i: int)
    requires
        combine_order_insensitive::<E>(),
        0 <= i < s.len(),
    ensures
        fold_set::<E>(s) == E::spec_combine(fold_set::<E>(s.remove(i)), s[i]),
    decreases s.len(),
{
    if i == s.len() - 1 {
        assert(s.remove(i) =~= s.drop_last());
    } else {
        let t = s.drop_last();
        lemma_fold_set_remove(t, i);
        assert(t[i] == s[i]);
        assert(s.remove(i).drop_last() =~= t.remove(i));
        assert(s.remove(i).last() == s.last());
        assert(s.remove(i).len() >= 1);
        assert(fold_set::<E>(s) == E::spec_combine(fold_set::<E>(t), s.last()));
        assert(fold_set::<E>(t) == E::spec_combine(fold_set::<E>(t.remove(i)), s[i]));
        assert(E::spec_combine(E::spec_combine(fold_set::<E>(t.remove(i)), s[i]), s.last())
            == E::spec_combine(E::spec_combine(fold_set::<E>(t.remove(i)), s.last()), s[i]));
        assert(fold_set::<E>(s.remove(i)) == E::spec_combine(
            fold_set::<E>(t.remove(i)),
            s.last(),
        ));
    }
}

/// For an order-insensitive combine, the fold of a sequence depends only on
/// which elements it holds, with multiplicity — never on their order.
pub proof fn lemma_fold_set_permutation<E: FlagElement>(s1: Seq<E>, s2: Seq<E>)
    requires
        combine_order_insensitive::<E>(),
        s1.to_multiset() == s2.to_multiset(),
    ensures
        fold_set::<E>(s1) == fold_set::<E>(s2),
    decreases s1.len(),
{
    broadcast use vstd::seq_lib::group_to_multiset_ensures;

    if s1.len() == 0 {
        assert(s1.len() == s1.to_multiset().len());
        assert(s2.len() == s2.to_multiset().len());
        assert(s2 =~= Seq::<E>::empty());
    } else {
        let x = s1.last();
        assert(s1[s1.len() - 1] == x);
        assert(s1.contains(x));
        assert(s2.to_multiset().count(x) > 0);
        assert(s2.contains(x));
        let j = choose|j: int| 0 <= j < s2.len() && s2[j] == x;
        let s1p = s1.drop_last();
        let s2p = s2.remove(j);
        assert(s1p =~= s1.remove(s1.len() - 1));
        assert(s1p.to_multiset() == s1.to_multiset().remove(x));
        assert(s2p.to_multiset() == s2.to_multiset().remove(x));
        lemma_fold_set_permutation::<E>(s1p, s2p);
        lemma_fold_set_remove::<E>(s2, j);
        assert(fold_set::<E>(s1) == E::spec_combine(fold_set::<E>(s1p), x));
    }
}

/// Resolution, name by name: the whole resolution succeeds exactly when
/// every single name is bound, and then hands back the bound values
/// pointwise, in order.
pub proof fn lemma_resolve_all_pointwise<E>(env: Seq<(Seq<char>, E)>, names: Seq<Seq<char>>)
    ensures
        (resolve_all(env, names) is Some) <==> (forall|i: int|
            0 <= i < names.len() ==> lookup_spec(env, #[trigger] names[i]) is Some),
        resolve_all(env, names) is Some ==> resolve_all(env, names).unwrap().len() == names.len(),
        resolve_all(env, names) is Some ==> forall|i: int|
            0 <= i < names.len() ==> #[trigger] resolve_all(env, names).unwrap()[i] == lookup_spec(
                env,
                names[i],
            ).unwrap(),
    decreases names.len(),
{
    if names.len() == 0 {
    } else {
        lemma_resolve_all_pointwise(env, names.skip(1));
        assert(forall|i: int| 0 <= i < names.skip(1).len() ==> #[trigger] names.skip(1)[i]
            == names[i + 1]);
        match lookup_spec(env, names[0]) {
            None => {
                assert(!(forall|i: int|
                    0 <= i < names.len() ==> lookup_spec(env, #[trigger] names[i]) is Some)) by {
                    assert(!(lookup_spec(env, names[0]) is Some));
                }
            },
            Some(v) => {
                if resolve_all(env, names.skip(1)) is Some {
                    let rest = resolve_all(env, names.skip(1)).unwrap();
                    let r = resolve_all(env, names).unwrap();
                    assert(r == seq![v] + rest);
                    assert forall|i: int| 0 <= i < names.len() implies lookup_spec(
                        env,
                        #[trigger] names[i],
                    ) is Some by {
                        if i > 0 {
                            assert(names.skip(1)[i - 1] == names[i]);
                        }
                    };
                    assert forall|i: int| 0 <= i < names.len() implies #[trigger] r[i]
                        == lookup_spec(env, names[i]).unwrap() by {
                        if i == 0 {
                            assert(r[0] == v);
                        } else {
                            assert(names.skip(1)[i - 1] == names[i]);
                            assert(r[i] == rest[i - 1]);
                        }
                    };
                } else {
                    assert(exists|i: int|
                        0 <= i < names.skip(1).len() && !(lookup_spec(
                            env,
                            #[trigger] names.skip(1)[i],
                        ) is Some));
                    let w = choose|i: int|
                        0 <= i < names.skip(1).len() && !(lookup_spec(
                            env,
                            #[trigger] names.skip(1)[i],
                        ) is Some);
                    assert(names.skip(1)[w] == names[w + 1]);
                    assert(!(forall|i: int|
                        0 <= i < names.len() ==> lookup_spec(env, #[trigger] names[i]) is Some))
                        by {
                        assert(!(lookup_spec(env, names[w + 1]) is Some));
                    }
                }
            },
        }
    }
}

/// A map of equal multisets yields equal multisets: renaming or resolving
/// every element of two listings of the same items keeps them listings of
/// the same items.
pub proof fn lemma_map_values_multiset<A, B>(s1: Seq<A>, s2: Seq<A>, f: spec_fn(A) -> B)
    requires
        s1.to_multiset() == s2.to_multiset(),
    ensures
        s1.map_values(f).to_multiset() == s2.map_values(f).to_multiset(),
    decreases s1.len(),
{
    broadcast use vstd::seq_lib::group_to_multiset_ensures;

    if s1.len() == 0 {
        assert(s1.len() == s1.to_multiset().len());
        assert(s2.len() == s2.to_multiset().len());
        assert(s2 =~= Seq::<A>::empty());
        assert(s1.map_values(f) =~= Seq::<B>::empty());
        assert(s2.map_values(f) =~= Seq::<B>::empty());
    } else {
        let x = s1.last();
        assert(s1[s1.len() - 1] == x);
        assert(s1.contains(x));
        assert(s2.to_multiset().count(x) > 0);
        assert(s2.contains(x));
        let j = choose|j: int| 0 <= j < s2.len() && s2[j] == x;
        let s1p = s1.drop_last();
        let s2p = s2.remove(j);
        assert(s1p =~= s1.remove(s1.len() - 1));
        assert(s1p.to_multiset() == s1.to_multiset().remove(x));
        assert(s2p.to_multiset() == s2.to_multiset().remove(x));
        lemma_map_values_multiset(s1p, s2p, f);
        assert(s1.map_values(f) =~= s1p.map_values(f).push(f(x)));
        assert(s1.map_values(f).to_multiset() == s1p.map_values(f).to_multiset().insert(f(x)));
        assert(s2.map_values(f).remove(j) =~= s2p.map_values(f));
        assert(s2.map_values(f)[j] == f(x));
        assert(s2.map_values(f).remove(j).to_multiset() == s2.map_values(f).to_multiset().remove(
            f(x),
        ));
        assert(s2.map_values(f).contains(f(x)));
        assert(s2.map_values(f).to_multiset().count(f(x)) > 0);
        assert(s2p.map_values(f).to_multiset().insert(f(x)) =~= s2.map_values(f).to_multiset());
    }
}

/// The listing order of the items never shows in the result: two renderings
/// whose item lists hold the same items, with multiplicity, yield the same
/// set value — for every path, every separator choice, every binding set,
/// and every element type whose combine is order-insensitive.
pub proof fn lemma_listing_order_irrelevant<E: FlagElement>(
    path: Seq<Seq<char>>,
    items1: Seq<Seq<char>>,
    seps1: Seq<Tok>,
    items2: Seq<Seq<char>>,
    seps2: Seq<Tok>,
    env: Seq<(Seq<char>, E)>,
)
    requires
        combine_order_insensitive::<E>(),
        path.len() >= 1,
        seps_wf(items1, seps1),
        seps_wf(items2, seps2),
        items1.to_multiset() == items2.to_multiset(),
        resolve_all(env, element_names(path, items1)) is Some,
    ensures
        flags_spec::<E>(render_invocation(path, items1, seps1), env) is Ok,
        flags_spec::<E>(render_invocation(path, items1, seps1), env) == flags_spec::<E>(
            render_invocation(path, items2, seps2),
            env,
        ),
{
    broadcast use vstd::seq_lib::group_to_multiset_ensures;

    lemma_parse_render(path, items1, seps1);
    lemma_parse_render(path, items2, seps2);
    let names1 = element_names(path, items1);
    let names2 = element_names(path, items2);
    let q = |item: Seq<char>| qualified_chars(path, item);
    assert(names1 =~= items1.map_values(q));
    assert(names2 =~= items2.map_values(q));
    lemma_map_values_multiset(items1, items2, q);
    assert(names1.to_multiset() == names2.to_multiset());
    lemma_resolve_all_pointwise(env, names1);
    lemma_resolve_all_pointwise(env, names2);
    assert forall|i: int| 0 <= i < names2.len() implies lookup_spec(
        env,
        #[trigger] names2[i],
    ) is Some by {
        assert(names2.contains(names2[i]));
        assert(names2.to_multiset().count(names2[i]) > 0);
        assert(names1.to_multiset().count(names2[i]) > 0);
        assert(names1.contains(names2[i]));
        let k = choose|k: int| 0 <= k < names1.len() && names1[k] == names2[i];
        assert(lookup_spec(env, names1[k]) is Some);
    };
    assert(resolve_all(env, names2) is Some);
    let vals1 = resolve_all(env, names1).unwrap();
    let vals2 = resolve_all(env, names2).unwrap();
    let g = |name: Seq<char>| lookup_spec(env, name).unwrap();
    assert(vals1 =~= names1.map_values(g));
    assert(vals2 =~= names2.map_values(g));
    lemma_map_values_multiset(names1, names2, g);
    lemma_fold_set_permutation::<E>(vals1, vals2);
}

} // verus!

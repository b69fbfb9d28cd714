//! The laws this library guarantees, stated and proved over the models that
//! the executable functions' contracts use.

use vstd::prelude::*;

use crate::api::paths_of;
use crate::node::{
    empty_node, insert_observe, item_or_empty, obs_pairs, observe_spec, seq_observe, NodeModel,
};
use crate::paths::{seq_diff, seq_inter};
use crate::tags::lemma_tagset_insert_commutes;
use crate::value::JsonVal;

verus! {

/// What [`seq_diff`] holds: the elements of `a` outside `b`.
proof fn lemma_seq_diff_contains(a: Seq<Seq<char>>, b: Seq<Seq<char>>)
    ensures
        forall|x: Seq<char>|
            #[trigger] seq_diff(a, b).contains(x) <==> (a.contains(x) && !b.contains(x)),
    decreases a.len(),
{
    broadcast use vstd::seq_lib::lemma_seq_concat_contains_all_elements;
    broadcast use vstd::seq_lib::lemma_seq_empty_contains_nothing;

    if a.len() == 0 {
        assert forall|x: Seq<char>| !(#[trigger] a.contains(x)) by {}
    } else {
        let at = a.subrange(1, a.len() as int);
        lemma_seq_diff_contains(at, b);
        assert forall|x: Seq<char>| #[trigger] seq_diff(a, b).contains(x) <==> (a.contains(x)
            && !b.contains(x)) by {
            let h = if b.contains(a[0]) {
                Seq::<Seq<char>>::empty()
            } else {
                seq![a[0]]
            };
            assert(seq_diff(a, b) == h + seq_diff(at, b));
            assert(h.contains(x) <==> (!b.contains(a[0]) && x == a[0])) by {
                if !b.contains(a[0]) {
                    assert(h[0] == a[0]);
                }
            }
            assert(a.contains(x) <==> (x == a[0] || at.contains(x))) by {
                if a.contains(x) {
                    let i = choose|i: int| 0 <= i < a.len() && a[i] == x;
                    if i > 0 {
                        assert(at[i - 1] == x);
                    }
                }
                if at.contains(x) {
                    let i = choose|i: int| 0 <= i < at.len() && at[i] == x;
                    assert(a[i + 1] == x);
                }
            }
        }
    }
}

/// What [`seq_inter`] holds: the elements of `a` also in `b`.
proof fn lemma_seq_inter_contains(a: Seq<Seq<char>>, b: Seq<Seq<char>>)
    ensures
        forall|x: Seq<char>|
            #[trigger] seq_inter(a, b).contains(x) <==> (a.contains(x) && b.contains(x)),
    decreases a.len(),
{
    broadcast use vstd::seq_lib::lemma_seq_concat_contains_all_elements;
    broadcast use vstd::seq_lib::lemma_seq_empty_contains_nothing;

    if a.len() == 0 {
        assert forall|x: Seq<char>| !(#[trigger] a.contains(x)) by {}
    } else {
        let at = a.subrange(1, a.len() as int);
        lemma_seq_inter_contains(at, b);
        assert forall|x: Seq<char>| #[trigger] seq_inter(a, b).contains(x) <==> (a.contains(x)
            && b.contains(x)) by {
            let h = if b.contains(a[0]) {
                seq![a[0]]
            } else {
                Seq::<Seq<char>>::empty()
            };
            assert(seq_inter(a, b) == h + seq_inter(at, b));
            assert(h.contains(x) <==> (b.contains(a[0]) && x == a[0])) by {
                if b.contains(a[0]) {
                    assert(h[0] == a[0]);
                }
            }
            assert(a.contains(x) <==> (x == a[0] || at.contains(x))) by {
                if a.contains(x) {
                    let i = choose|i: int| 0 <= i < a.len() && a[i] == x;
                    if i > 0 {
                        assert(at[i - 1] == x);
                    }
                }
                if at.contains(x) {
                    let i = choose|i: int| 0 <= i < at.len() && at[i] == x;
                    assert(a[i + 1] == x);
                }
            }
        }
    }
}

/// Set algebra of the diff: for any two schema documents, the added and
/// removed path sets are disjoint, the common paths are exactly the
/// intersection, added and common together are the second document's paths,
/// and removed and common together the first's.
pub proof fn lemma_diff_set_algebra(a: JsonVal, b: JsonVal)
    ensures
        seq_diff(paths_of(b), paths_of(a)).to_set().intersect(
            seq_diff(paths_of(a), paths_of(b)).to_set(),
        ) =~= Set::<Seq<char>>::empty(),
        seq_inter(paths_of(a), paths_of(b)).to_set() =~= paths_of(a).to_set().intersect(
            paths_of(b).to_set(),
        ),
        seq_diff(paths_of(b), paths_of(a)).to_set().union(
            seq_inter(paths_of(a), paths_of(b)).to_set(),
        ) =~= paths_of(b).to_set(),
        seq_diff(paths_of(a), paths_of(b)).to_set().union(
            seq_inter(paths_of(a), paths_of(b)).to_set(),
        ) =~= paths_of(a).to_set(),
{
    let pa = paths_of(a);
    let pb = paths_of(b);
    lemma_seq_diff_contains(pa, pb);
    lemma_seq_diff_contains(pb, pa);
    lemma_seq_inter_contains(pa, pb);
}

/// Observing an empty array adds the `array` tag and changes nothing else;
/// and the schema of a node that never saw an array element carries no
/// `items` entry.
pub proof fn lemma_empty_array_observation(n: NodeModel)
    ensures
        observe_spec(n, JsonVal::Arr(Seq::empty())) == (NodeModel {
            types: n.types.spec_insert(crate::tags::TypeTag::Array),
            props: n.props,
            items: n.items,
        }),
        n.items.len() == 0 ==> forall|t: int|
            0 <= t < crate::emit::schema_of(n)->Obj_0.len() ==> (
            #[trigger] crate::emit::schema_of(n)->Obj_0[t].0) != crate::emit::items_key(),
{
    assert(observe_spec(n, JsonVal::Arr(Seq::empty())) =~= (NodeModel {
        types: n.types.spec_insert(crate::tags::TypeTag::Array),
        props: n.props,
        items: n.items,
    }));
    if n.items.len() == 0 {
        crate::emit::lemma_schema_keys_sorted();
        crate::emit::lemma_lex_lt_trans_keys();
        crate::value::lemma_lex_lt_irrefl(crate::emit::properties_key());
        crate::value::lemma_lex_lt_irrefl(crate::emit::type_key());
        crate::emit::lemma_type_entry_canonical(n.types);
        let entries = crate::emit::schema_of(n)->Obj_0;
        assert forall|t: int| 0 <= t < entries.len() implies (#[trigger] entries[t].0)
            != crate::emit::items_key() by {
            let pp: int = if n.types.object && n.props.len() > 0 {
                1
            } else {
                0
            };
            if t < pp {
                assert(entries[t].0 == crate::emit::properties_key());
                if entries[t].0 == crate::emit::items_key() {
                    assert(crate::value::lex_lt(
                        crate::emit::properties_key(),
                        crate::emit::properties_key(),
                    ));
                }
            } else {
                assert(entries[t].0 == crate::emit::type_key());
                if entries[t].0 == crate::emit::items_key() {
                    assert(crate::value::lex_lt(crate::emit::type_key(), crate::emit::type_key()));
                }
            }
        }
    }
}

/// Observing two values in either order yields the same node: merging is
/// commutative, so the schema inferred from a sample set does not depend on
/// the order of the samples.
#[verifier::rlimit(60)]
pub proof fn lemma_observe_commutes(n: NodeModel, a: JsonVal, b: JsonVal)
    ensures
        observe_spec(observe_spec(n, a), b) == observe_spec(observe_spec(n, b), a),
    decreases a, b, 0int,
{
    lemma_tagset_insert_commutes(n.types, tag_of(a), tag_of(b));
    match (a, b) {
        (JsonVal::Arr(ea), JsonVal::Arr(eb)) => {
            assert(decreases_to!(a => a->Arr_0));
            if ea.len() > 0 && eb.len() > 0 {
                lemma_seq_observe_swap(item_or_empty(n), ea, eb);
            }
            assert(observe_spec(observe_spec(n, a), b) =~= observe_spec(observe_spec(n, b), a));
        },
        (JsonVal::Obj(pa), JsonVal::Obj(pb)) => {
            assert(decreases_to!(a => a->Obj_0));
            lemma_obs_pairs_swap(n.props, pa, pb);
            assert(observe_spec(observe_spec(n, a), b) =~= observe_spec(observe_spec(n, b), a));
        },
        _ => {
            assert(observe_spec(observe_spec(n, a), b) =~= observe_spec(observe_spec(n, b), a));
        },
    }
}

/// The tag a value inserts.
spec fn tag_of(v: JsonVal) -> crate::tags::TypeTag {
    match v {
        JsonVal::Null => crate::tags::TypeTag::Null,
        JsonVal::Bool(_) => crate::tags::TypeTag::Boolean,
        JsonVal::Int(_) => crate::tags::TypeTag::Integer,
        JsonVal::UInt(_) => crate::tags::TypeTag::Integer,
        JsonVal::Num => crate::tags::TypeTag::Number,
        JsonVal::Str(_) => crate::tags::TypeTag::String,
        JsonVal::Arr(_) => crate::tags::TypeTag::Array,
        JsonVal::Obj(_) => crate::tags::TypeTag::Object,
    }
}

/// Observing one value after a sequence is observing it before the sequence.
proof fn lemma_one_vs_seq(c: NodeModel, x: JsonVal, s: Seq<JsonVal>)
    ensures
        seq_observe(observe_spec(c, x), s) == observe_spec(seq_observe(c, s), x),
    decreases x, s, 0int,
{
    if s.len() > 0 {
        vstd::seq::axiom_seq_index_decreases(s, 0);
        lemma_observe_commutes(c, x, s[0]);
        lemma_one_vs_seq(observe_spec(c, s[0]), x, s.subrange(1, s.len() as int));
        assert(seq_observe(observe_spec(c, x), s) == seq_observe(
            observe_spec(observe_spec(c, x), s[0]),
            s.subrange(1, s.len() as int),
        ));
        assert(seq_observe(c, s) == seq_observe(
            observe_spec(c, s[0]),
            s.subrange(1, s.len() as int),
        ));
    }
}

/// Observing two element sequences in either order yields the same node.
proof fn lemma_seq_observe_swap(c: NodeModel, s1: Seq<JsonVal>, s2: Seq<JsonVal>)
    ensures
        seq_observe(seq_observe(c, s1), s2) == seq_observe(seq_observe(c, s2), s1),
    decreases s1, s2, 1int,
{
    if s1.len() > 0 {
        vstd::seq::axiom_seq_index_decreases(s1, 0);
        let s1t = s1.subrange(1, s1.len() as int);
        lemma_seq_observe_swap(observe_spec(c, s1[0]), s1t, s2);
        lemma_one_vs_seq(c, s1[0], s2);
        assert(seq_observe(c, s1) == seq_observe(observe_spec(c, s1[0]), s1t));
        assert(seq_observe(seq_observe(c, s2), s1) == seq_observe(
            observe_spec(seq_observe(c, s2), s1[0]),
            s1t,
        ));
    }
}

/// Observing at two keys in either order yields the same properties.
proof fn lemma_insert_observe_commutes(
    p: Seq<(Seq<char>, NodeModel)>,
    x: (Seq<char>, JsonVal),
    y: (Seq<char>, JsonVal),
)
    ensures
        insert_observe(insert_observe(p, x.0, x.1), y.0, y.1) == insert_observe(
            insert_observe(p, y.0, y.1),
            x.0,
            x.1,
        ),
    decreases x, y, p.len() + 2,
{
    let lhs = insert_observe(insert_observe(p, x.0, x.1), y.0, y.1);
    let rhs = insert_observe(insert_observe(p, y.0, y.1), x.0, x.1);
    crate::value::lemma_lex_lt_total(x.0, y.0);
    if x.0 == y.0 {
        assert(decreases_to!(x => x.1));
        if p.len() == 0 {
            lemma_observe_commutes(empty_node(), x.1, y.1);
            assert(lhs =~= rhs);
        } else if p[0].0 == x.0 {
            lemma_observe_commutes(p[0].1, x.1, y.1);
            assert(insert_observe(p, x.0, x.1)[0] == (x.0, observe_spec(p[0].1, x.1)));
            assert(lhs =~= rhs);
        } else if crate::value::lex_lt(x.0, p[0].0) {
            lemma_observe_commutes(empty_node(), x.1, y.1);
            assert(insert_observe(p, x.0, x.1)[0] == (x.0, observe_spec(empty_node(), x.1)));
            assert(lhs =~= rhs);
        } else {
            let pt = p.subrange(1, p.len() as int);
            lemma_insert_observe_commutes(pt, x, y);
            assert(insert_observe(p, x.0, x.1) == seq![p[0]] + insert_observe(pt, x.0, x.1));
            assert((seq![p[0]] + insert_observe(pt, x.0, x.1))[0] == p[0]);
            assert((seq![p[0]] + insert_observe(pt, x.0, x.1)).subrange(
                1,
                (seq![p[0]] + insert_observe(pt, x.0, x.1)).len() as int,
            ) =~= insert_observe(pt, x.0, x.1));
            assert((seq![p[0]] + insert_observe(pt, y.0, y.1))[0] == p[0]);
            assert((seq![p[0]] + insert_observe(pt, y.0, y.1)).subrange(
                1,
                (seq![p[0]] + insert_observe(pt, y.0, y.1)).len() as int,
            ) =~= insert_observe(pt, y.0, y.1));
            assert(lhs =~= seq![p[0]] + insert_observe(insert_observe(pt, x.0, x.1), y.0, y.1));
            assert(rhs =~= seq![p[0]] + insert_observe(insert_observe(pt, y.0, y.1), x.0, x.1));
            assert(lhs =~= rhs);
        }
    } else {
        lemma_insert_observe_commutes_distinct(p, x, y);
    }
}

/// The distinct-key case of [`lemma_insert_observe_commutes`].
proof fn lemma_insert_observe_commutes_distinct(
    p: Seq<(Seq<char>, NodeModel)>,
    x: (Seq<char>, JsonVal),
    y: (Seq<char>, JsonVal),
)
    requires
        x.0 != y.0,
    ensures
        insert_observe(insert_observe(p, x.0, x.1), y.0, y.1) == insert_observe(
            insert_observe(p, y.0, y.1),
            x.0,
            x.1,
        ),
    decreases x, y, p.len() + 1,
{
    let lhs = insert_observe(insert_observe(p, x.0, x.1), y.0, y.1);
    let rhs = insert_observe(insert_observe(p, y.0, y.1), x.0, x.1);
    crate::value::lemma_lex_lt_total(x.0, y.0);
    crate::value::lemma_lex_lt_irrefl(x.0);
    crate::value::lemma_lex_lt_irrefl(y.0);
    if crate::value::lex_lt(x.0, y.0) && crate::value::lex_lt(y.0, x.0) {
        crate::value::lemma_lex_lt_trans(x.0, y.0, x.0);
    }
    let cx = observe_spec(empty_node(), x.1);
    let cy = observe_spec(empty_node(), y.1);
    if p.len() == 0 {
        if crate::value::lex_lt(x.0, y.0) {
            assert(insert_observe(p, x.0, x.1) == seq![(x.0, cx)]);
            assert(seq![(x.0, cx)][0] == (x.0, cx));
            assert(lhs =~= seq![(x.0, cx)] + insert_observe(
                seq![(x.0, cx)].subrange(1, 1),
                y.0,
                y.1,
            ));
            assert(seq![(x.0, cx)].subrange(1, 1) =~= Seq::<(Seq<char>, NodeModel)>::empty());
            assert(seq![(y.0, cy)][0] == (y.0, cy));
            assert(lhs =~= rhs);
        } else {
            assert(seq![(y.0, cy)][0] == (y.0, cy));
            assert(seq![(y.0, cy)].subrange(1, 1) =~= Seq::<(Seq<char>, NodeModel)>::empty());
            assert(seq![(x.0, cx)][0] == (x.0, cx));
            assert(rhs =~= seq![(y.0, cy)] + insert_observe(
                seq![(y.0, cy)].subrange(1, 1),
                x.0,
                x.1,
            ));
            assert(lhs =~= rhs);
        }
    } else {
        let h = p[0];
        let pt = p.subrange(1, p.len() as int);
        crate::value::lemma_lex_lt_total(x.0, h.0);
        crate::value::lemma_lex_lt_total(y.0, h.0);
        crate::value::lemma_lex_lt_irrefl(h.0);
        if h.0 == x.0 {
            let ix = seq![(x.0, observe_spec(h.1, x.1))] + pt;
            assert(insert_observe(p, x.0, x.1) == ix);
            assert(ix[0] == (x.0, observe_spec(h.1, x.1)));
            assert(ix.subrange(1, ix.len() as int) =~= pt);
            if crate::value::lex_lt(y.0, x.0) {
                assert(lhs =~= seq![(y.0, cy)] + ix);
                let iy = seq![(y.0, cy)] + p;
                assert(insert_observe(p, y.0, y.1) == iy);
                assert(iy[0] == (y.0, cy));
                assert(iy.subrange(1, iy.len() as int) =~= p);
                assert(rhs =~= seq![(y.0, cy)] + insert_observe(p, x.0, x.1));
                assert(lhs =~= rhs);
            } else {
                assert(crate::value::lex_lt(x.0, y.0));
                assert(lhs =~= seq![(x.0, observe_spec(h.1, x.1))] + insert_observe(pt, y.0, y.1));
                let iy = seq![h] + insert_observe(pt, y.0, y.1);
                assert(insert_observe(p, y.0, y.1) == iy);
                assert(iy[0] == h);
                assert(iy.subrange(1, iy.len() as int) =~= insert_observe(pt, y.0, y.1));
                assert(rhs =~= seq![(x.0, observe_spec(h.1, x.1))] + insert_observe(pt, y.0, y.1));
                assert(lhs =~= rhs);
            }
        } else if h.0 == y.0 {
            let iy = seq![(y.0, observe_spec(h.1, y.1))] + pt;
            assert(insert_observe(p, y.0, y.1) == iy);
            assert(iy[0] == (y.0, observe_spec(h.1, y.1)));
            assert(iy.subrange(1, iy.len() as int) =~= pt);
            if crate::value::lex_lt(x.0, y.0) {
                assert(rhs =~= seq![(x.0, cx)] + iy);
                let ix = seq![(x.0, cx)] + p;
                assert(insert_observe(p, x.0, x.1) == ix);
                assert(ix[0] == (x.0, cx));
                assert(ix.subrange(1, ix.len() as int) =~= p);
                assert(lhs =~= seq![(x.0, cx)] + insert_observe(p, y.0, y.1));
                assert(lhs =~= rhs);
            } else {
                assert(crate::value::lex_lt(y.0, x.0));
                assert(rhs =~= seq![(y.0, observe_spec(h.1, y.1))] + insert_observe(pt, x.0, x.1));
                let ix = seq![h] + insert_observe(pt, x.0, x.1);
                assert(insert_observe(p, x.0, x.1) == ix);
                assert(ix[0] == h);
                assert(ix.subrange(1, ix.len() as int) =~= insert_observe(pt, x.0, x.1));
                assert(lhs =~= seq![(y.0, observe_spec(h.1, y.1))] + insert_observe(pt, x.0, x.1));
                assert(lhs =~= rhs);
            }
        } else if crate::value::lex_lt(x.0, h.0) && crate::value::lex_lt(y.0, h.0) {
            let ix = seq![(x.0, cx)] + p;
            let iy = seq![(y.0, cy)] + p;
            assert(insert_observe(p, x.0, x.1) == ix);
            assert(insert_observe(p, y.0, y.1) == iy);
            assert(ix[0] == (x.0, cx));
            assert(iy[0] == (y.0, cy));
            assert(ix.subrange(1, ix.len() as int) =~= p);
            assert(iy.subrange(1, iy.len() as int) =~= p);
            if crate::value::lex_lt(x.0, y.0) {
                assert(lhs =~= seq![(x.0, cx)] + insert_observe(p, y.0, y.1));
                assert(rhs =~= seq![(x.0, cx)] + iy);
                assert(lhs =~= rhs);
            } else {
                assert(lhs =~= seq![(y.0, cy)] + ix);
                assert(rhs =~= seq![(y.0, cy)] + insert_observe(p, x.0, x.1));
                assert(lhs =~= rhs);
            }
        } else if crate::value::lex_lt(x.0, h.0) {
            assert(crate::value::lex_lt(h.0, y.0) || h.0 == y.0);
            assert(crate::value::lex_lt(h.0, y.0));
            let ix = seq![(x.0, cx)] + p;
            assert(insert_observe(p, x.0, x.1) == ix);
            assert(ix[0] == (x.0, cx));
            assert(ix.subrange(1, ix.len() as int) =~= p);
            crate::value::lemma_lex_lt_trans(x.0, h.0, y.0);
            assert(lhs =~= seq![(x.0, cx)] + insert_observe(p, y.0, y.1));
            let iy = seq![h] + insert_observe(pt, y.0, y.1);
            assert(insert_observe(p, y.0, y.1) == iy);
            assert(iy[0] == h);
            assert(iy.subrange(1, iy.len() as int) =~= insert_observe(pt, y.0, y.1));
            assert(rhs =~= seq![(x.0, cx)] + iy);
            assert(lhs =~= rhs);
        } else if crate::value::lex_lt(y.0, h.0) {
            assert(crate::value::lex_lt(h.0, x.0));
            let iy = seq![(y.0, cy)] + p;
            assert(insert_observe(p, y.0, y.1) == iy);
            assert(iy[0] == (y.0, cy));
            assert(iy.subrange(1, iy.len() as int) =~= p);
            crate::value::lemma_lex_lt_trans(y.0, h.0, x.0);
            assert(rhs =~= seq![(y.0, cy)] + insert_observe(p, x.0, x.1));
            let ix = seq![h] + insert_observe(pt, x.0, x.1);
            assert(insert_observe(p, x.0, x.1) == ix);
            assert(ix[0] == h);
            assert(ix.subrange(1, ix.len() as int) =~= insert_observe(pt, x.0, x.1));
            assert(lhs =~= seq![(y.0, cy)] + ix);
            assert(lhs =~= rhs);
        } else {
            assert(crate::value::lex_lt(h.0, x.0) && crate::value::lex_lt(h.0, y.0));
            lemma_insert_observe_commutes_distinct(pt, x, y);
            let ix = seq![h] + insert_observe(pt, x.0, x.1);
            let iy = seq![h] + insert_observe(pt, y.0, y.1);
            assert(insert_observe(p, x.0, x.1) == ix);
            assert(insert_observe(p, y.0, y.1) == iy);
            assert(ix[0] == h);
            assert(iy[0] == h);
            assert(ix.subrange(1, ix.len() as int) =~= insert_observe(pt, x.0, x.1));
            assert(iy.subrange(1, iy.len() as int) =~= insert_observe(pt, y.0, y.1));
            assert(lhs =~= seq![h] + insert_observe(insert_observe(pt, x.0, x.1), y.0, y.1));
            assert(rhs =~= seq![h] + insert_observe(insert_observe(pt, y.0, y.1), x.0, x.1));
            assert(lhs =~= rhs);
        }
    }
}

/// Observing one member after a pair sequence is observing it before.
proof fn lemma_one_vs_pairs(
    p: Seq<(Seq<char>, NodeModel)>,
    x: (Seq<char>, JsonVal),
    ps: Seq<(Seq<char>, JsonVal)>,
)
    ensures
        obs_pairs(insert_observe(p, x.0, x.1), ps) == insert_observe(obs_pairs(p, ps), x.0, x.1),
    decreases x, ps, 0int,
{
    if ps.len() > 0 {
        vstd::seq::axiom_seq_index_decreases(ps, 0);
        lemma_insert_observe_commutes(p, x, ps[0]);
        lemma_one_vs_pairs(
            insert_observe(p, ps[0].0, ps[0].1),
            x,
            ps.subrange(1, ps.len() as int),
        );
        assert(obs_pairs(insert_observe(p, x.0, x.1), ps) == obs_pairs(
            insert_observe(insert_observe(p, x.0, x.1), ps[0].0, ps[0].1),
            ps.subrange(1, ps.len() as int),
        ));
        assert(obs_pairs(p, ps) == obs_pairs(
            insert_observe(p, ps[0].0, ps[0].1),
            ps.subrange(1, ps.len() as int),
        ));
    }
}

/// Observing two member sequences in either order yields the same
/// properties.
proof fn lemma_obs_pairs_swap(
    p: Seq<(Seq<char>, NodeModel)>,
    ps1: Seq<(Seq<char>, JsonVal)>,
    ps2: Seq<(Seq<char>, JsonVal)>,
)
    ensures
        obs_pairs(obs_pairs(p, ps1), ps2) == obs_pairs(obs_pairs(p, ps2), ps1),
    decreases ps1, ps2, 1int,
{
    if ps1.len() > 0 {
        vstd::seq::axiom_seq_index_decreases(ps1, 0);
        let t1 = ps1.subrange(1, ps1.len() as int);
        lemma_obs_pairs_swap(insert_observe(p, ps1[0].0, ps1[0].1), t1, ps2);
        lemma_one_vs_pairs(p, ps1[0], ps2);
        assert(obs_pairs(p, ps1) == obs_pairs(insert_observe(p, ps1[0].0, ps1[0].1), t1));
        assert(obs_pairs(obs_pairs(p, ps2), ps1) == obs_pairs(
            insert_observe(obs_pairs(p, ps2), ps1[0].0, ps1[0].1),
            t1,
        ));
    }
}


/// Exchanging two adjacent samples does not change the inferred tree: with
/// [`lemma_observe_commutes`], any permutation of the sample set yields the
/// same root node, hence the same types at every path.
pub proof fn lemma_build_swap_adjacent(n: NodeModel, ss: Seq<Seq<char>>, i: int)
    requires
        0 <= i,
        i + 1 < ss.len(),
    ensures
        crate::node::build_obs(n, ss) == crate::node::build_obs(
            n,
            ss.update(i, ss[i + 1]).update(i + 1, ss[i]),
        ),
    decreases i,
{
    let sw = ss.update(i, ss[i + 1]).update(i + 1, ss[i]);
    if i == 0 {
        let v0 = crate::codec::json_of(ss[0])->Some_0;
        let v1 = crate::codec::json_of(ss[1])->Some_0;
        lemma_observe_commutes(n, v0, v1);
        assert(sw[0] == ss[1]);
        let st = ss.subrange(1, ss.len() as int);
        let swt = sw.subrange(1, sw.len() as int);
        assert(st[0] == ss[1] && swt[0] == ss[0]);
        assert(st.subrange(1, st.len() as int) =~= swt.subrange(1, swt.len() as int));
        assert(crate::node::build_obs(n, ss) == crate::node::build_obs(observe_spec(n, v0), st));
        assert(crate::node::build_obs(observe_spec(n, v0), st) == crate::node::build_obs(
            observe_spec(observe_spec(n, v0), v1),
            st.subrange(1, st.len() as int),
        ));
        assert(crate::node::build_obs(n, sw) == crate::node::build_obs(observe_spec(n, v1), swt));
        assert(crate::node::build_obs(observe_spec(n, v1), swt) == crate::node::build_obs(
            observe_spec(observe_spec(n, v1), v0),
            swt.subrange(1, swt.len() as int),
        ));
    } else {
        assert(sw[0] == ss[0]);
        let st = ss.subrange(1, ss.len() as int);
        let swt = sw.subrange(1, sw.len() as int);
        assert(st[i - 1] == ss[i] && st[i] == ss[i + 1]);
        assert(swt =~= st.update(i - 1, st[i]).update(i, st[i - 1]));
        lemma_build_swap_adjacent(
            observe_spec(n, crate::codec::json_of(ss[0])->Some_0),
            st,
            i - 1,
        );
    }
}


/// Appending an absent path keeps the accumulator duplicate-free.
proof fn lemma_add_if_absent_no_dup(acc: Seq<Seq<char>>, p: Seq<char>)
    requires
        acc.no_duplicates(),
    ensures
        crate::paths::add_if_absent(acc, p).no_duplicates(),
{
    if !acc.contains(p) {
        let r = acc.push(p);
        assert forall|i: int, j: int| 0 <= i < r.len() && 0 <= j < r.len() && i != j implies r[i]
            != r[j] by {
            if i < acc.len() && j < acc.len() {
                assert(r[i] == acc[i] && r[j] == acc[j]);
            } else if j == acc.len() && i < acc.len() {
                assert(r[i] == acc[i] && r[j] == p);
                if acc[i] == p {
                    assert(acc.contains(p));
                }
            } else {
                assert(r[j] == acc[j] && r[i] == p);
                if acc[j] == p {
                    assert(acc.contains(p));
                }
            }
        }
    }
}

/// Walking a schema never introduces a duplicate path.
proof fn lemma_walk_paths_no_dup(acc: Seq<Seq<char>>, v: JsonVal, prefix: Seq<char>)
    requires
        acc.no_duplicates(),
    ensures
        crate::paths::walk_paths(acc, v, prefix).no_duplicates(),
    decreases v, 1int,
{
    match v {
        JsonVal::Obj(ps) => {
            let acc1 = match crate::value::obj_lookup(ps, "properties"@) {
                Some(pv) => match pv {
                    JsonVal::Obj(pp) => crate::paths::walk_props(acc, pp, prefix),
                    _ => acc,
                },
                _ => acc,
            };
            match crate::value::obj_lookup(ps, "properties"@) {
                Some(pv) => match pv {
                    JsonVal::Obj(pp) => {
                        crate::paths::lemma_obj_lookup_decreases(ps, "properties"@);
                        assert(decreases_to!(v => v->Obj_0));
                        assert(decreases_to!(pv => pv->Obj_0));
                        lemma_walk_props_no_dup(acc, pp, prefix);
                    },
                    _ => {},
                },
                _ => {},
            }
            assert(acc1.no_duplicates());
            match crate::value::obj_lookup(ps, "items"@) {
                Some(iv) => {
                    crate::paths::lemma_obj_lookup_decreases(ps, "items"@);
                    assert(decreases_to!(v => v->Obj_0));
                    lemma_add_if_absent_no_dup(acc1, crate::paths::brackets_join(prefix));
                    lemma_walk_paths_no_dup(
                        crate::paths::add_if_absent(acc1, crate::paths::brackets_join(prefix)),
                        iv,
                        crate::paths::brackets_join(prefix),
                    );
                },
                _ => {},
            }
        },
        _ => {},
    }
}

/// Walking the members of a `properties` object never introduces a
/// duplicate path.
proof fn lemma_walk_props_no_dup(
    acc: Seq<Seq<char>>,
    pp: Seq<(Seq<char>, JsonVal)>,
    prefix: Seq<char>,
)
    requires
        acc.no_duplicates(),
    ensures
        crate::paths::walk_props(acc, pp, prefix).no_duplicates(),
    decreases pp, 0int,
{
    if pp.len() > 0 {
        let path = crate::paths::dot_join(prefix, pp[0].0);
        vstd::seq::axiom_seq_index_decreases(pp, 0);
        assert(decreases_to!(pp[0] => pp[0].1));
        lemma_add_if_absent_no_dup(acc, path);
        lemma_walk_paths_no_dup(crate::paths::add_if_absent(acc, path), pp[0].1, path);
        lemma_walk_props_no_dup(
            crate::paths::walk_paths(crate::paths::add_if_absent(acc, path), pp[0].1, path),
            pp.subrange(1, pp.len() as int),
            prefix,
        );
    }
}

/// [`seq_diff`] of a duplicate-free sequence is duplicate-free.
proof fn lemma_seq_diff_no_dup(a: Seq<Seq<char>>, b: Seq<Seq<char>>)
    requires
        a.no_duplicates(),
    ensures
        seq_diff(a, b).no_duplicates(),
    decreases a.len(),
{
    broadcast use vstd::seq_lib::lemma_seq_concat_contains_all_elements;
    broadcast use vstd::seq_lib::lemma_seq_empty_contains_nothing;

    if a.len() > 0 {
        let at = a.subrange(1, a.len() as int);
        assert forall|i: int, j: int|
            0 <= i < at.len() && 0 <= j < at.len() && i != j implies at[i] != at[j] by {
            assert(at[i] == a[i + 1] && at[j] == a[j + 1]);
        }
        lemma_seq_diff_no_dup(at, b);
        lemma_seq_diff_contains(at, b);
        let h = if b.contains(a[0]) {
            Seq::<Seq<char>>::empty()
        } else {
            seq![a[0]]
        };
        let r = h + seq_diff(at, b);
        assert(seq_diff(a, b) == r);
        if !b.contains(a[0]) {
            assert(!seq_diff(at, b).contains(a[0])) by {
                if at.contains(a[0]) {
                    let w = choose|w: int| 0 <= w < at.len() && at[w] == a[0];
                    assert(a[w + 1] == a[0]);
                }
            }
            assert forall|i: int, j: int|
                0 <= i < r.len() && 0 <= j < r.len() && i != j implies r[i] != r[j] by {
                if i > 0 && j > 0 {
                    assert(r[i] == seq_diff(at, b)[i - 1] && r[j] == seq_diff(at, b)[j - 1]);
                } else if i == 0 {
                    assert(r[j] == seq_diff(at, b)[j - 1]);
                    if r[j] == a[0] {
                        assert(seq_diff(at, b).contains(a[0]));
                    }
                } else {
                    assert(r[i] == seq_diff(at, b)[i - 1]);
                    if r[i] == a[0] {
                        assert(seq_diff(at, b).contains(a[0]));
                    }
                }
            }
        } else {
            assert(r =~= seq_diff(at, b));
        }
    }
}

/// [`seq_inter`] of a duplicate-free sequence is duplicate-free.
proof fn lemma_seq_inter_no_dup(a: Seq<Seq<char>>, b: Seq<Seq<char>>)
    requires
        a.no_duplicates(),
    ensures
        seq_inter(a, b).no_duplicates(),
    decreases a.len(),
{
    broadcast use vstd::seq_lib::lemma_seq_concat_contains_all_elements;
    broadcast use vstd::seq_lib::lemma_seq_empty_contains_nothing;

    if a.len() > 0 {
        let at = a.subrange(1, a.len() as int);
        assert forall|i: int, j: int|
            0 <= i < at.len() && 0 <= j < at.len() && i != j implies at[i] != at[j] by {
            assert(at[i] == a[i + 1] && at[j] == a[j + 1]);
        }
        lemma_seq_inter_no_dup(at, b);
        lemma_seq_inter_contains(at, b);
        let h = if b.contains(a[0]) {
            seq![a[0]]
        } else {
            Seq::<Seq<char>>::empty()
        };
        let r = h + seq_inter(at, b);
        assert(seq_inter(a, b) == r);
        if b.contains(a[0]) {
            assert(!seq_inter(at, b).contains(a[0])) by {
                if at.contains(a[0]) {
                    let w = choose|w: int| 0 <= w < at.len() && at[w] == a[0];
                    assert(a[w + 1] == a[0]);
                }
            }
            assert forall|i: int, j: int|
                0 <= i < r.len() && 0 <= j < r.len() && i != j implies r[i] != r[j] by {
                if i > 0 && j > 0 {
                    assert(r[i] == seq_inter(at, b)[i - 1] && r[j] == seq_inter(at, b)[j - 1]);
                } else if i == 0 {
                    assert(r[j] == seq_inter(at, b)[j - 1]);
                    if r[j] == a[0] {
                        assert(seq_inter(at, b).contains(a[0]));
                    }
                } else {
                    assert(r[i] == seq_inter(at, b)[i - 1]);
                    if r[i] == a[0] {
                        assert(seq_inter(at, b).contains(a[0]));
                    }
                }
            }
        } else {
            assert(r =~= seq_inter(at, b));
        }
    }
}

/// The three lists of the diff document are duplicate-free: each serialized
/// path set truly is a set.
pub proof fn lemma_diff_lists_no_duplicates(a: JsonVal, b: JsonVal)
    ensures
        seq_diff(paths_of(b), paths_of(a)).no_duplicates(),
        seq_inter(paths_of(a), paths_of(b)).no_duplicates(),
        seq_diff(paths_of(a), paths_of(b)).no_duplicates(),
{
    assert(Seq::<Seq<char>>::empty().no_duplicates());
    lemma_walk_paths_no_dup(Seq::empty(), a, Seq::empty());
    lemma_walk_paths_no_dup(Seq::empty(), b, Seq::empty());
    lemma_seq_diff_no_dup(paths_of(b), paths_of(a));
    lemma_seq_inter_no_dup(paths_of(a), paths_of(b));
    lemma_seq_diff_no_dup(paths_of(a), paths_of(b));
}

} // verus!

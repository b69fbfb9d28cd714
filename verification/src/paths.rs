//! The path collector: linearizing a schema document into a flat set of
//! path strings, and the set operations the differ needs.

use vstd::prelude::*;

use crate::value::{obj_lookup, JsonVal, JsonValue};

verus! {

/// The path of property `k` under `prefix`: bare `k` at the root, else
/// `prefix.k`.
pub open spec fn dot_join(prefix: Seq<char>, k: Seq<char>) -> Seq<char> {
    if prefix.len() == 0 {
        k
    } else {
        prefix + "."@ + k
    }
}

/// The path of the array elements under `prefix`: `[]` at the root, else
/// `prefix[]`.
pub open spec fn brackets_join(prefix: Seq<char>) -> Seq<char> {
    if prefix.len() == 0 {
        "[]"@
    } else {
        prefix + "[]"@
    }
}

/// `acc` with `p` appended, unless already present.
pub open spec fn add_if_absent(acc: Seq<Seq<char>>, p: Seq<char>) -> Seq<Seq<char>> {
    if acc.contains(p) {
        acc
    } else {
        acc.push(p)
    }
}

/// The views of a vector of path strings.
pub open spec fn views_of(acc: Seq<String>) -> Seq<Seq<char>> {
    acc.map_values(|s: String| s@)
}

/// A found value under key `k` is a strict sub-part of the member sequence.
pub proof fn lemma_obj_lookup_decreases(ps: Seq<(Seq<char>, JsonVal)>, k: Seq<char>)
    requires
        obj_lookup(ps, k) is Some,
    ensures
        decreases_to!(ps => obj_lookup(ps, k)->Some_0),
    decreases ps.len(),
{
    if ps.len() > 0 {
        if ps[0].0 == k {
            vstd::seq::axiom_seq_index_decreases(ps, 0);
            assert(decreases_to!(ps[0] => ps[0].1));
        } else {
            let tail = ps.subrange(1, ps.len() as int);
            lemma_obj_lookup_decreases(tail, k);
            assert(decreases_to!(ps => tail));
        }
    }
}

/// The accumulator after walking the schema document `v` under `prefix`:
/// every property path and array path reachable in `v` is appended, in
/// walking order, skipping those already present.
///
/// A document whose `properties` member is not itself an object contributes
/// nothing for it; fragments other than objects contribute nothing at all.
pub open spec fn walk_paths(acc: Seq<Seq<char>>, v: JsonVal, prefix: Seq<char>) -> Seq<Seq<char>>
    decreases v, 1int,
{
    match v {
        JsonVal::Obj(ps) => {
            let acc1 = match obj_lookup(ps, "properties"@) {
                Some(pv) => match pv {
                    JsonVal::Obj(pp) => {
                        proof {
                            lemma_obj_lookup_decreases(ps, "properties"@);
                            let vv = v;
                            assert(decreases_to!(vv => vv->Obj_0));
                            assert(decreases_to!(pv => pv->Obj_0));
                        }
                        walk_props(acc, pp, prefix)
                    },
                    _ => acc,
                },
                _ => acc,
            };
            match obj_lookup(ps, "items"@) {
                Some(iv) => {
                    proof {
                        lemma_obj_lookup_decreases(ps, "items"@);
                        let vv = v;
                        assert(decreases_to!(vv => vv->Obj_0));
                    }
                    walk_paths(add_if_absent(acc1, brackets_join(prefix)), iv, brackets_join(prefix))
                },
                _ => acc1,
            }
        },
        _ => acc,
    }
}

/// Walks each member of a `properties` object: the member's own path is
/// appended, then its schema is walked beneath that path.
pub open spec fn walk_props(
    acc: Seq<Seq<char>>,
    pp: Seq<(Seq<char>, JsonVal)>,
    prefix: Seq<char>,
) -> Seq<Seq<char>>
    decreases pp, 0int,
{
    if pp.len() == 0 {
        acc
    } else {
        let path = dot_join(prefix, pp[0].0);
        let acc1 = walk_paths(add_if_absent(acc, path), pp[0].1, path);
        proof {
            vstd::seq::axiom_seq_index_decreases(pp, 0);
            assert(decreases_to!(pp[0] => pp[0].1));
        }
        walk_props(acc1, pp.subrange(1, pp.len() as int), prefix)
    }
}

/// One more member pair: walking `pp.push(x)` is walking `pp`, then `x`.
pub proof fn lemma_walk_props_snoc(
    acc: Seq<Seq<char>>,
    pp: Seq<(Seq<char>, JsonVal)>,
    x: (Seq<char>, JsonVal),
    prefix: Seq<char>,
)
    ensures
        walk_props(acc, pp.push(x), prefix) == walk_paths(
            add_if_absent(walk_props(acc, pp, prefix), dot_join(prefix, x.0)),
            x.1,
            dot_join(prefix, x.0),
        ),
    decreases pp.len(),
{
    if pp.len() == 0 {
        assert(pp.push(x)[0] == x);
        assert(pp.push(x).subrange(1, pp.push(x).len() as int) =~= Seq::<(
            Seq<char>,
            JsonVal,
        )>::empty());
        let path = dot_join(prefix, x.0);
        let acc1 = walk_paths(add_if_absent(acc, path), x.1, path);
        assert(walk_props(acc1, Seq::<(Seq<char>, JsonVal)>::empty(), prefix) == acc1);
        assert(walk_props(acc, pp, prefix) == acc);
    } else {
        assert(pp.push(x)[0] == pp[0]);
        assert(pp.push(x).subrange(1, pp.push(x).len() as int) =~= pp.subrange(
            1,
            pp.len() as int,
        ).push(x));
        let path0 = dot_join(prefix, pp[0].0);
        let acc1 = walk_paths(add_if_absent(acc, path0), pp[0].1, path0);
        lemma_walk_props_snoc(acc1, pp.subrange(1, pp.len() as int), x, prefix);
        assert(walk_props(acc, pp.push(x), prefix) == walk_props(
            acc1,
            pp.subrange(1, pp.len() as int).push(x),
            prefix,
        ));
        assert(walk_props(acc, pp, prefix) == walk_props(
            acc1,
            pp.subrange(1, pp.len() as int),
            prefix,
        ));
    }
}

/// The value under `k` among the members of `entries`, if any.
fn find_key<'a>(entries: &'a Vec<(String, JsonValue)>, k: &String) -> (r: Option<&'a JsonValue>)
    ensures
        match r {
            Some(x) => obj_lookup(crate::value::jv_model_pairs(entries@), k@) == Some(x@)
                && decreases_to!(entries@ => *x),
            None => obj_lookup(crate::value::jv_model_pairs(entries@), k@) is None,
        },
{
    let ghost m = crate::value::jv_model_pairs(entries@);
    let n = entries.len();
    let mut i: usize = 0;
    proof {
        crate::value::lemma_jv_model_pairs_index(entries@);
    }
    while i < n
        invariant
            n == entries.len(),
            i <= n,
            m == crate::value::jv_model_pairs(entries@),
            forall|j: int| 0 <= j < i ==> (#[trigger] entries@[j].0@) != k@,
        decreases n - i,
    {
        proof {
            crate::value::lemma_jv_model_pairs_index(entries@);
        }
        if entries[i].0 == *k {
            proof {
                assert forall|j: int| 0 <= j < i implies (#[trigger] m[j].0) != k@ by {
                    assert(m[j] == (entries@[j].0@, crate::value::jv_model(entries@[j].1)));
                }
                lemma_obj_lookup_skip(m, k@, i as int);
                assert(m.skip(i as int)[0] == m[i as int]);
                vstd::seq::axiom_seq_index_decreases(entries@, i as int);
                assert(decreases_to!(entries@[i as int] => entries@[i as int].1));
            }
            return Some(&entries[i].1);
        }
        i += 1;
    }
    proof {
        crate::value::lemma_jv_model_pairs_index(entries@);
        assert forall|j: int| 0 <= j < n implies (#[trigger] m[j].0) != k@ by {
            assert(m[j] == (entries@[j].0@, crate::value::jv_model(entries@[j].1)));
        }
        lemma_obj_lookup_skip(m, k@, n as int);
        assert(m.skip(n as int) =~= Seq::<(Seq<char>, JsonVal)>::empty());
        assert(obj_lookup(Seq::<(Seq<char>, JsonVal)>::empty(), k@) is None);
    }
    None
}

/// Entries whose keys differ from `k` pass over the lookup.
pub proof fn lemma_obj_lookup_skip(ps: Seq<(Seq<char>, JsonVal)>, k: Seq<char>, i: int)
    requires
        0 <= i <= ps.len(),
        forall|j: int| 0 <= j < i ==> (#[trigger] ps[j].0) != k,
    ensures
        obj_lookup(ps, k) == obj_lookup(ps.skip(i), k),
    decreases i,
{
    if i > 0 {
        let tail = ps.subrange(1, ps.len() as int);
        assert forall|j: int| 0 <= j < i - 1 implies (#[trigger] tail[j].0) != k by {
            assert(tail[j] == ps[j + 1]);
        }
        lemma_obj_lookup_skip(tail, k, i - 1);
        assert(tail.skip(i - 1) =~= ps.skip(i));
    } else {
        assert(ps.skip(0) =~= ps);
    }
}

/// The elements of `a` that are not in `b`, in order.
pub open spec fn seq_diff(a: Seq<Seq<char>>, b: Seq<Seq<char>>) -> Seq<Seq<char>>
    decreases a.len(),
{
    if a.len() == 0 {
        Seq::empty()
    } else {
        (if b.contains(a[0]) {
            Seq::empty()
        } else {
            seq![a[0]]
        }) + seq_diff(a.subrange(1, a.len() as int), b)
    }
}

/// The elements of `a` that are also in `b`, in order.
pub open spec fn seq_inter(a: Seq<Seq<char>>, b: Seq<Seq<char>>) -> Seq<Seq<char>>
    decreases a.len(),
{
    if a.len() == 0 {
        Seq::empty()
    } else {
        (if b.contains(a[0]) {
            seq![a[0]]
        } else {
            Seq::empty()
        }) + seq_inter(a.subrange(1, a.len() as int), b)
    }
}

/// One more element of `a`: [`seq_diff`] grows by it exactly when absent
/// from `b`.
pub proof fn lemma_seq_diff_snoc(a: Seq<Seq<char>>, b: Seq<Seq<char>>, x: Seq<char>)
    ensures
        seq_diff(a.push(x), b) == seq_diff(a, b) + (if b.contains(x) {
            Seq::<Seq<char>>::empty()
        } else {
            seq![x]
        }),
    decreases a.len(),
{
    if a.len() == 0 {
        assert(a.push(x)[0] == x);
        assert(a.push(x).subrange(1, a.push(x).len() as int) =~= Seq::<Seq<char>>::empty());
        assert(seq_diff(Seq::<Seq<char>>::empty(), b) == Seq::<Seq<char>>::empty());
        assert(seq_diff(a, b) == Seq::<Seq<char>>::empty());
        assert(seq_diff(a.push(x), b) =~= seq_diff(a, b) + (if b.contains(x) {
            Seq::<Seq<char>>::empty()
        } else {
            seq![x]
        }));
    } else {
        assert(a.push(x)[0] == a[0]);
        assert(a.push(x).subrange(1, a.push(x).len() as int) =~= a.subrange(
            1,
            a.len() as int,
        ).push(x));
        lemma_seq_diff_snoc(a.subrange(1, a.len() as int), b, x);
        assert(seq_diff(a.push(x), b) =~= seq_diff(a, b) + (if b.contains(x) {
            Seq::<Seq<char>>::empty()
        } else {
            seq![x]
        }));
    }
}

/// One more element of `a`: [`seq_inter`] grows by it exactly when present
/// in `b`.
pub proof fn lemma_seq_inter_snoc(a: Seq<Seq<char>>, b: Seq<Seq<char>>, x: Seq<char>)
    ensures
        seq_inter(a.push(x), b) == seq_inter(a, b) + (if b.contains(x) {
            seq![x]
        } else {
            Seq::<Seq<char>>::empty()
        }),
    decreases a.len(),
{
    if a.len() == 0 {
        assert(a.push(x)[0] == x);
        assert(a.push(x).subrange(1, a.push(x).len() as int) =~= Seq::<Seq<char>>::empty());
        assert(seq_inter(Seq::<Seq<char>>::empty(), b) == Seq::<Seq<char>>::empty());
        assert(seq_inter(a, b) == Seq::<Seq<char>>::empty());
        assert(seq_inter(a.push(x), b) =~= seq_inter(a, b) + (if b.contains(x) {
            seq![x]
        } else {
            Seq::<Seq<char>>::empty()
        }));
    } else {
        assert(a.push(x)[0] == a[0]);
        assert(a.push(x).subrange(1, a.push(x).len() as int) =~= a.subrange(
            1,
            a.len() as int,
        ).push(x));
        lemma_seq_inter_snoc(a.subrange(1, a.len() as int), b, x);
        assert(seq_inter(a.push(x), b) =~= seq_inter(a, b) + (if b.contains(x) {
            seq![x]
        } else {
            Seq::<Seq<char>>::empty()
        }));
    }
}

/// Builds the property path of `k` under `prefix`.
fn join_dot(prefix: &str, k: &String) -> (r: String)
    ensures
        r@ == dot_join(prefix@, k@),
{
    if prefix.unicode_len() == 0 {
        k.clone()
    } else {
        let mut s = prefix.to_owned();
        s.append(".");
        s.append(k.as_str());
        s
    }
}

/// Builds the array-element path under `prefix`.
fn join_brackets(prefix: &str) -> (r: String)
    ensures
        r@ == brackets_join(prefix@),
{
    if prefix.unicode_len() == 0 {
        "[]".to_owned()
    } else {
        let mut s = prefix.to_owned();
        s.append("[]");
        s
    }
}

/// Appends `p` to `acc` unless an equal path is already present.
fn push_if_absent(acc: &mut Vec<String>, p: String)
    ensures
        views_of(final(acc)@) == add_if_absent(views_of(old(acc)@), p@),
{
    let present = contains_string(acc, &p);
    if !present {
        let ghost pre = acc@;
        acc.push(p);
        proof {
            assert(views_of(acc@) =~= views_of(pre).push(acc@.last()@));
        }
    }
}

/// Walks the schema document `schema` under `prefix`, appending into `acc`
/// every property path and array path it reaches, skipping paths already
/// present.  Fragments that are not objects, and `properties` members that
/// are not objects, contribute nothing.
pub fn collect_paths(schema: &JsonValue, prefix: &str, acc: &mut Vec<String>)
    ensures
        views_of(final(acc)@) == walk_paths(views_of(old(acc)@), schema@, prefix@),
    decreases schema,
{
    let ghost acc0 = views_of(old(acc)@);
    let entries = match schema {
        JsonValue::Obj(es) => es,
        _ => {
            return ;
        },
    };
    let pk = "properties".to_owned();
    let found = find_key(entries, &pk);
    match found {
        Some(pv) => {
            match pv {
                JsonValue::Obj(pp) => {
                    let ghost ppm = crate::value::jv_model_pairs(pp@);
                    proof {
                        assert(ppm.take(0) =~= Seq::<(Seq<char>, JsonVal)>::empty());
                        assert(walk_props(acc0, ppm.take(0), prefix@) == acc0);
                    }
                    let n = pp.len();
                    let mut j: usize = 0;
                    while j < n
                        invariant
                            *schema is Obj,
                            schema->Obj_0@ == entries@,
                            *pv is Obj,
                            pv->Obj_0@ == pp@,
                            decreases_to!(entries@ => *pv),
                            n == pp.len(),
                            j <= n,
                            ppm == crate::value::jv_model_pairs(pp@),
                            views_of(acc@) == walk_props(acc0, ppm.take(j as int), prefix@),
                        decreases n - j,
                    {
                        proof {
                            crate::value::lemma_jv_model_pairs_index(pp@);
                            let sv = *schema;
                            assert(decreases_to!(sv => sv->Obj_0));
                            assert(decreases_to!(sv->Obj_0 => sv->Obj_0@));
                            let pvv = *pv;
                            assert(decreases_to!(pvv => pvv->Obj_0));
                            assert(decreases_to!(pvv->Obj_0 => pvv->Obj_0@));
                            vstd::seq::axiom_seq_index_decreases(pp@, j as int);
                            assert(decreases_to!(pp@[j as int] => pp@[j as int].1));
                            assert(decreases_to!(*schema => pp@[j as int].1));
                        }
                        let pair = &pp[j];
                        let path = join_dot(prefix, &pair.0);
                        let ghost before = views_of(acc@);
                        push_if_absent(acc, path.clone());
                        collect_paths(&pair.1, path.as_str(), acc);
                        proof {
                            assert(ppm.take(j + 1) =~= ppm.take(j as int).push(ppm[j as int]));
                            lemma_walk_props_snoc(acc0, ppm.take(j as int), ppm[j as int], prefix@);
                        }
                        j += 1;
                    }
                    proof {
                        crate::value::lemma_jv_model_pairs_index(pp@);
                        assert(ppm.take(n as int) =~= ppm);
                    }
                },
                _ => {},
            }
        },
        None => {},
    }
    let ghost acc1 = views_of(acc@);
    proof {
        assert(acc1 == (match obj_lookup(schema@->Obj_0, "properties"@) {
            Some(pvx) => match pvx {
                JsonVal::Obj(ppx) => walk_props(acc0, ppx, prefix@),
                _ => acc0,
            },
            _ => acc0,
        }));
    }
    let ik = "items".to_owned();
    let found_items = find_key(entries, &ik);
    match found_items {
        Some(iv) => {
            proof {
                let sv = *schema;
                assert(decreases_to!(sv => sv->Obj_0));
                assert(decreases_to!(sv->Obj_0 => sv->Obj_0@));
                assert(decreases_to!(*schema => *iv));
            }
            let path = join_brackets(prefix);
            push_if_absent(acc, path.clone());
            collect_paths(iv, path.as_str(), acc);
        },
        None => {},
    }
}

/// Whether the view of `s` occurs among the views of `v`'s elements.
pub fn contains_string(v: &Vec<String>, s: &String) -> (r: bool)
    ensures
        r == views_of(v@).contains(s@),
{
    let n = v.len();
    let mut i: usize = 0;
    while i < n
        invariant
            n == v.len(),
            i <= n,
            forall|j: int| 0 <= j < i ==> views_of(v@)[j] != s@,
        decreases n - i,
    {
        if v[i] == *s {
            proof {
                assert(views_of(v@)[i as int] == s@);
            }
            return true;
        }
        proof {
            assert(views_of(v@)[i as int] == v@[i as int]@);
        }
        i += 1;
    }
    proof {
        assert forall|j: int| 0 <= j < views_of(v@).len() implies views_of(v@)[j] != s@ by {}
    }
    false
}

/// The elements of `a` whose views are not among those of `b`, in order.
pub fn diff_strings(a: &Vec<String>, b: &Vec<String>) -> (r: Vec<String>)
    ensures
        views_of(r@) == seq_diff(views_of(a@), views_of(b@)),
{
    let mut r: Vec<String> = Vec::new();
    let n = a.len();
    let mut i: usize = 0;
    proof {
        assert(views_of(a@).take(0) =~= Seq::<Seq<char>>::empty());
        assert(views_of(r@) =~= seq_diff(views_of(a@).take(0), views_of(b@)));
    }
    while i < n
        invariant
            n == a.len(),
            i <= n,
            views_of(r@) == seq_diff(views_of(a@).take(i as int), views_of(b@)),
        decreases n - i,
    {
        let ghost pre = r@;
        let present = contains_string(b, &a[i]);
        if !present {
            r.push(a[i].clone());
        }
        proof {
            let av = views_of(a@);
            assert(av.take(i + 1) =~= av.take(i as int).push(av[i as int]));
            lemma_seq_diff_snoc(av.take(i as int), views_of(b@), av[i as int]);
            assert(av[i as int] == a@[i as int]@);
            if !views_of(b@).contains(av[i as int]) {
                assert(views_of(r@) =~= views_of(pre).push(a@[i as int]@));
            } else {
                assert(views_of(r@) =~= views_of(pre));
            }
            assert(views_of(r@) =~= seq_diff(av.take(i + 1), views_of(b@)));
        }
        i += 1;
    }
    proof {
        assert(views_of(a@).take(n as int) =~= views_of(a@));
    }
    r
}

/// The elements of `a` whose views are among those of `b`, in order.
pub fn intersect_strings(a: &Vec<String>, b: &Vec<String>) -> (r: Vec<String>)
    ensures
        views_of(r@) == seq_inter(views_of(a@), views_of(b@)),
{
    let mut r: Vec<String> = Vec::new();
    let n = a.len();
    let mut i: usize = 0;
    proof {
        assert(views_of(a@).take(0) =~= Seq::<Seq<char>>::empty());
        assert(views_of(r@) =~= seq_inter(views_of(a@).take(0), views_of(b@)));
    }
    while i < n
        invariant
            n == a.len(),
            i <= n,
            views_of(r@) == seq_inter(views_of(a@).take(i as int), views_of(b@)),
        decreases n - i,
    {
        let ghost pre = r@;
        let present = contains_string(b, &a[i]);
        if present {
            r.push(a[i].clone());
        }
        proof {
            let av = views_of(a@);
            assert(av.take(i + 1) =~= av.take(i as int).push(av[i as int]));
            lemma_seq_inter_snoc(av.take(i as int), views_of(b@), av[i as int]);
            assert(av[i as int] == a@[i as int]@);
            if views_of(b@).contains(av[i as int]) {
                assert(views_of(r@) =~= views_of(pre).push(a@[i as int]@));
            } else {
                assert(views_of(r@) =~= views_of(pre));
            }
            assert(views_of(r@) =~= seq_inter(av.take(i + 1), views_of(b@)));
        }
        i += 1;
    }
    proof {
        assert(views_of(a@).take(n as int) =~= views_of(a@));
    }
    r
}

} // verus!

//! The observation tree: one node per structural position, accumulating the
//! set of JSON types seen there across all samples.

use vstd::prelude::*;

use crate::tags::{TagSet, TypeTag};
use crate::value::{jv_model_pairs, jv_models, lemma_jv_model_pairs_index, lemma_jv_models_index, lemma_lex_lt_irrefl, lex_lt, string_lt, JsonVal, JsonValue};

verus! {

/// The model of an observation tree node.
///
/// `props` is a sequence of key/child pairs with strictly sorted keys (see
/// [`node_wf`]); `items` holds at most one element and stands for an optional
/// child, so the model stays free of boxes.
#[verifier::ext_equal]
pub struct NodeModel {
    pub types: TagSet,
    pub props: Seq<(Seq<char>, NodeModel)>,
    pub items: Seq<NodeModel>,
}

/// The node that has observed nothing.
pub open spec fn empty_node() -> NodeModel {
    NodeModel { types: TagSet::spec_empty(), props: Seq::empty(), items: Seq::empty() }
}

/// The existing array-element child of `n`, or a fresh node.
pub open spec fn item_or_empty(n: NodeModel) -> NodeModel {
    if n.items.len() == 0 {
        empty_node()
    } else {
        n.items[0]
    }
}

/// Keys of `props` are strictly sorted (hence unique).
pub open spec fn props_sorted(props: Seq<(Seq<char>, NodeModel)>) -> bool {
    forall|i: int, j: int|
        0 <= i < j < props.len() ==> lex_lt(#[trigger] props[i].0, #[trigger] props[j].0)
}

/// Well-formedness of a node model: sorted property keys, at most one items
/// child, and the same recursively.
pub open spec fn node_wf(n: NodeModel) -> bool
    decreases n,
{
    &&& props_sorted(n.props)
    &&& n.items.len() <= 1
    &&& forall|i: int| 0 <= i < n.props.len() ==> node_wf(#[trigger] n.props[i].1)
    &&& forall|i: int| 0 <= i < n.items.len() ==> node_wf(#[trigger] n.items[i])
}

/// The node `n` after additionally observing the value `v`.
///
/// Scalars insert their tag.  An array inserts `Array` and folds every
/// element into the single shared items child, which is created on the first
/// element ever seen: observing only empty arrays leaves `items` absent.  An
/// object inserts `Object` and folds each member into the child named by its
/// key, creating missing children in sorted key position.
pub open spec fn observe_spec(n: NodeModel, v: JsonVal) -> NodeModel
    decreases v, 0int,
{
    match v {
        JsonVal::Null => NodeModel { types: n.types.spec_insert(TypeTag::Null), ..n },
        JsonVal::Bool(_) => NodeModel { types: n.types.spec_insert(TypeTag::Boolean), ..n },
        JsonVal::Int(_) => NodeModel { types: n.types.spec_insert(TypeTag::Integer), ..n },
        JsonVal::UInt(_) => NodeModel { types: n.types.spec_insert(TypeTag::Integer), ..n },
        JsonVal::Num => NodeModel { types: n.types.spec_insert(TypeTag::Number), ..n },
        JsonVal::Str(_) => NodeModel { types: n.types.spec_insert(TypeTag::String), ..n },
        JsonVal::Arr(es) => NodeModel {
            types: n.types.spec_insert(TypeTag::Array),
            items: if es.len() == 0 {
                n.items
            } else {
                seq![seq_observe(item_or_empty(n), es)]
            },
            ..n
        },
        JsonVal::Obj(ps) => NodeModel {
            types: n.types.spec_insert(TypeTag::Object),
            props: obs_pairs(n.props, ps),
            ..n
        },
    }
}

/// `c` after observing every element of `es`, in order.
pub open spec fn seq_observe(c: NodeModel, es: Seq<JsonVal>) -> NodeModel
    decreases es, 1int,
{
    if es.len() == 0 {
        c
    } else {
        seq_observe(observe_spec(c, es[0]), es.subrange(1, es.len() as int))
    }
}

/// `props` after observing value `val` at key `k`: the child at `k` (created
/// in sorted position when absent) additionally observes `val`.
pub open spec fn insert_observe(
    props: Seq<(Seq<char>, NodeModel)>,
    k: Seq<char>,
    val: JsonVal,
) -> Seq<(Seq<char>, NodeModel)>
    decreases val, props.len() + 1,
{
    if props.len() == 0 {
        seq![(k, observe_spec(empty_node(), val))]
    } else if props[0].0 == k {
        seq![(k, observe_spec(props[0].1, val))] + props.subrange(1, props.len() as int)
    } else if lex_lt(k, props[0].0) {
        seq![(k, observe_spec(empty_node(), val))] + props
    } else {
        seq![props[0]] + insert_observe(props.subrange(1, props.len() as int), k, val)
    }
}

/// `props` after observing every member pair of `ps`, in order.
pub open spec fn obs_pairs(
    props: Seq<(Seq<char>, NodeModel)>,
    ps: Seq<(Seq<char>, JsonVal)>,
) -> Seq<(Seq<char>, NodeModel)>
    decreases ps, 1int,
{
    if ps.len() == 0 {
        props
    } else {
        obs_pairs(insert_observe(props, ps[0].0, ps[0].1), ps.subrange(1, ps.len() as int))
    }
}

/// Well-formedness of a property sequence alone: sorted keys, each child
/// well-formed.
pub open spec fn props_wf(props: Seq<(Seq<char>, NodeModel)>) -> bool {
    &&& props_sorted(props)
    &&& forall|t: int| 0 <= t < props.len() ==> node_wf(#[trigger] props[t].1)
}

/// The empty node is well-formed.
pub proof fn lemma_empty_wf()
    ensures
        node_wf(empty_node()),
{
}

/// Observing preserves well-formedness.
pub proof fn lemma_observe_wf(n: NodeModel, v: JsonVal)
    requires
        node_wf(n),
    ensures
        node_wf(observe_spec(n, v)),
    decreases v, 0int,
{
    match v {
        JsonVal::Arr(es) => {
            if es.len() > 0 {
                lemma_empty_wf();
                assert(node_wf(item_or_empty(n)));
                assert(decreases_to!(v => v->Arr_0));
                lemma_seq_observe_wf(item_or_empty(n), es);
            }
        },
        JsonVal::Obj(ps) => {
            assert(decreases_to!(v => v->Obj_0));
            lemma_obs_pairs_wf(n.props, ps);
        },
        _ => {},
    }
}

/// Observing a sequence of values preserves well-formedness.
pub proof fn lemma_seq_observe_wf(c: NodeModel, es: Seq<JsonVal>)
    requires
        node_wf(c),
    ensures
        node_wf(seq_observe(c, es)),
    decreases es, 1int,
{
    if es.len() > 0 {
        lemma_observe_wf(c, es[0]);
        lemma_seq_observe_wf(observe_spec(c, es[0]), es.subrange(1, es.len() as int));
    }
}

/// Observing member pairs preserves property well-formedness.
pub proof fn lemma_obs_pairs_wf(props: Seq<(Seq<char>, NodeModel)>, ps: Seq<(Seq<char>, JsonVal)>)
    requires
        props_wf(props),
    ensures
        props_wf(obs_pairs(props, ps)),
    decreases ps, 1int,
{
    if ps.len() > 0 {
        vstd::seq::axiom_seq_index_decreases(ps, 0);
        assert(decreases_to!(ps[0] => ps[0].1));
        lemma_insert_observe_wf(props, ps[0].0, ps[0].1);
        lemma_obs_pairs_wf(insert_observe(props, ps[0].0, ps[0].1), ps.subrange(1, ps.len() as int));
    }
}

/// Observing at one key keeps the keys sorted and the children well-formed,
/// and introduces no key beyond `k` and those already present.
pub proof fn lemma_insert_observe_wf(props: Seq<(Seq<char>, NodeModel)>, k: Seq<char>, val: JsonVal)
    requires
        props_wf(props),
    ensures
        props_wf(insert_observe(props, k, val)),
        forall|t: int|
            0 <= t < insert_observe(props, k, val).len() ==> (#[trigger] insert_observe(
                props,
                k,
                val,
            )[t].0 == k || exists|j: int|
                0 <= j < props.len() && props[j].0 == insert_observe(props, k, val)[t].0),
    decreases val, props.len() + 1,
{
    let res = insert_observe(props, k, val);
    lemma_empty_wf();
    if props.len() == 0 {
        lemma_observe_wf(empty_node(), val);
    } else if props[0].0 == k {
        lemma_observe_wf(props[0].1, val);
        let tail = props.subrange(1, props.len() as int);
        assert forall|i: int, j: int| 0 <= i < j < res.len() implies lex_lt(
            #[trigger] res[i].0,
            #[trigger] res[j].0,
        ) by {
            assert(res[j].0 == props[j].0);
            if i > 0 {
                assert(res[i].0 == props[i].0);
            }
        }
        assert forall|t: int| 0 <= t < res.len() implies (#[trigger] res[t].0 == k || exists|j: int|
            0 <= j < props.len() && props[j].0 == res[t].0) by {
            if t > 0 {
                assert(props[t].0 == res[t].0);
            }
        }
    } else if lex_lt(k, props[0].0) {
        lemma_observe_wf(empty_node(), val);
        assert forall|i: int, j: int| 0 <= i < j < res.len() implies lex_lt(
            #[trigger] res[i].0,
            #[trigger] res[j].0,
        ) by {
            assert(res[j].0 == props[j - 1].0);
            if i == 0 {
                if j > 1 {
                    crate::value::lemma_lex_lt_trans(k, props[0].0, props[j - 1].0);
                }
            } else {
                assert(res[i].0 == props[i - 1].0);
            }
        }
        assert forall|t: int| 0 <= t < res.len() implies (#[trigger] res[t].0 == k || exists|j: int|
            0 <= j < props.len() && props[j].0 == res[t].0) by {
            if t > 0 {
                assert(props[t - 1].0 == res[t].0);
            }
        }
    } else {
        let tail = props.subrange(1, props.len() as int);
        assert(props_wf(tail)) by {
            assert forall|t: int| 0 <= t < tail.len() implies node_wf(#[trigger] tail[t].1) by {
                assert(tail[t] == props[t + 1]);
            }
            assert forall|i: int, j: int| 0 <= i < j < tail.len() implies lex_lt(
                #[trigger] tail[i].0,
                #[trigger] tail[j].0,
            ) by {
                assert(tail[i] == props[i + 1]);
                assert(tail[j] == props[j + 1]);
            }
        }
        lemma_insert_observe_wf(tail, k, val);
        let sub = insert_observe(tail, k, val);
        crate::value::lemma_lex_lt_total(k, props[0].0);
        assert(lex_lt(props[0].0, k));
        assert forall|i: int, j: int| 0 <= i < j < res.len() implies lex_lt(
            #[trigger] res[i].0,
            #[trigger] res[j].0,
        ) by {
            if i == 0 {
                assert(res[j].0 == sub[j - 1].0);
                if sub[j - 1].0 == k {
                    assert(lex_lt(props[0].0, k));
                } else {
                    let w = choose|w: int| 0 <= w < tail.len() && tail[w].0 == sub[j - 1].0;
                    assert(tail[w] == props[w + 1]);
                    assert(lex_lt(props[0].0, props[w + 1].0));
                }
            } else {
                assert(res[i].0 == sub[i - 1].0);
                assert(res[j].0 == sub[j - 1].0);
            }
        }
        assert forall|t: int| 0 <= t < res.len() implies (#[trigger] res[t].0 == k || exists|j: int|
            0 <= j < props.len() && props[j].0 == res[t].0) by {
            if t == 0 {
                assert(props[0].0 == res[0].0);
            } else {
                assert(res[t].0 == sub[t - 1].0);
                if sub[t - 1].0 != k {
                    let w = choose|w: int| 0 <= w < tail.len() && tail[w].0 == sub[t - 1].0;
                    assert(tail[w] == props[w + 1]);
                    assert(props[w + 1].0 == res[t].0);
                }
            }
        }
        assert forall|t: int| 0 <= t < res.len() implies node_wf(#[trigger] res[t].1) by {
            if t > 0 {
                assert(res[t].1 == sub[t - 1].1);
            }
        }
    }
}

/// One structural position of the observation tree.
///
/// `properties` is kept sorted strictly ascending by key; `items` holds at
/// most one node, the single child shared by all array elements ever observed
/// here.
#[derive(Debug)]
pub struct Node {
    pub types: TagSet,
    pub properties: Vec<(String, Node)>,
    pub items: Vec<Node>,
}

/// The model of an executable node.
pub open spec fn node_model(n: Node) -> NodeModel
    decreases n,
{
    NodeModel {
        types: n.types,
        props: node_model_pairs(n.properties@),
        items: node_models(n.items@),
    }
}

/// The models of a sequence of key/child pairs, element-wise.
pub open spec fn node_model_pairs(ps: Seq<(String, Node)>) -> Seq<(Seq<char>, NodeModel)>
    decreases ps,
{
    if ps.len() == 0 {
        Seq::empty()
    } else {
        seq![(ps[0].0@, node_model(ps[0].1))] + node_model_pairs(ps.subrange(1, ps.len() as int))
    }
}

/// The models of a sequence of nodes, element-wise.
pub open spec fn node_models(ns: Seq<Node>) -> Seq<NodeModel>
    decreases ns,
{
    if ns.len() == 0 {
        Seq::empty()
    } else {
        seq![node_model(ns[0])] + node_models(ns.subrange(1, ns.len() as int))
    }
}

impl View for Node {
    type V = NodeModel;

    open spec fn view(&self) -> NodeModel {
        node_model(*self)
    }
}

/// Element-wise reading of [`node_model_pairs`].
pub proof fn lemma_node_model_pairs_index(ps: Seq<(String, Node)>)
    ensures
        node_model_pairs(ps).len() == ps.len(),
        forall|i: int|
            0 <= i < ps.len() ==> node_model_pairs(ps)[i] == (
                #[trigger] ps[i].0@,
                node_model(ps[i].1),
            ),
    decreases ps,
{
    if ps.len() > 0 {
        let tail = ps.subrange(1, ps.len() as int);
        lemma_node_model_pairs_index(tail);
        assert forall|i: int| 0 <= i < ps.len() implies node_model_pairs(ps)[i] == (
            #[trigger] ps[i].0@,
            node_model(ps[i].1),
        ) by {
            if i >= 1 {
                assert(tail[i - 1] == ps[i]);
            }
        }
    }
}

/// Element-wise reading of [`node_models`].
pub proof fn lemma_node_models_index(ns: Seq<Node>)
    ensures
        node_models(ns).len() == ns.len(),
        forall|i: int| 0 <= i < ns.len() ==> node_models(ns)[i] == node_model(#[trigger] ns[i]),
    decreases ns,
{
    if ns.len() > 0 {
        let tail = ns.subrange(1, ns.len() as int);
        lemma_node_models_index(tail);
        assert forall|i: int| 0 <= i < ns.len() implies node_models(ns)[i] == node_model(
            #[trigger] ns[i],
        ) by {
            if i >= 1 {
                assert(tail[i - 1] == ns[i]);
            }
        }
    }
}

/// [`node_model_pairs`] maps an update through, element-wise.
pub proof fn lemma_node_model_pairs_update(s: Seq<(String, Node)>, i: int, x: (String, Node))
    requires
        0 <= i < s.len(),
    ensures
        node_model_pairs(s.update(i, x)) == node_model_pairs(s).update(
            i,
            (x.0@, node_model(x.1)),
        ),
{
    lemma_node_model_pairs_index(s);
    lemma_node_model_pairs_index(s.update(i, x));
    let lhs = node_model_pairs(s.update(i, x));
    let rhs = node_model_pairs(s).update(i, (x.0@, node_model(x.1)));
    assert forall|t: int| 0 <= t < lhs.len() implies lhs[t] == rhs[t] by {
        assert(lhs[t] == (s.update(i, x)[t].0@, node_model(s.update(i, x)[t].1)));
        if t != i {
            assert(s.update(i, x)[t] == s[t]);
            assert(node_model_pairs(s)[t] == (s[t].0@, node_model(s[t].1)));
        }
    }
    assert(lhs =~= rhs);
}

/// [`node_model_pairs`] maps an insertion through, element-wise.
pub proof fn lemma_node_model_pairs_insert(s: Seq<(String, Node)>, i: int, x: (String, Node))
    requires
        0 <= i <= s.len(),
    ensures
        node_model_pairs(s.insert(i, x)) == node_model_pairs(s).insert(
            i,
            (x.0@, node_model(x.1)),
        ),
{
    lemma_node_model_pairs_index(s);
    lemma_node_model_pairs_index(s.insert(i, x));
    let lhs = node_model_pairs(s.insert(i, x));
    let rhs = node_model_pairs(s).insert(i, (x.0@, node_model(x.1)));
    assert forall|t: int| 0 <= t < lhs.len() implies lhs[t] == rhs[t] by {
        assert(lhs[t] == (s.insert(i, x)[t].0@, node_model(s.insert(i, x)[t].1)));
        if t < i {
            assert(s.insert(i, x)[t] == s[t]);
            assert(node_model_pairs(s)[t] == (s[t].0@, node_model(s[t].1)));
        } else if t > i {
            assert(s.insert(i, x)[t] == s[t - 1]);
            assert(node_model_pairs(s)[t - 1] == (s[t - 1].0@, node_model(s[t - 1].1)));
        } else {
            assert(s.insert(i, x)[t] == x);
        }
    }
    assert(lhs =~= rhs);
}

/// Folding one more element: observing `s.push(x)` is observing `s`, then `x`.
pub proof fn lemma_seq_observe_snoc(c: NodeModel, s: Seq<JsonVal>, x: JsonVal)
    ensures
        seq_observe(c, s.push(x)) == observe_spec(seq_observe(c, s), x),
    decreases s.len(),
{
    if s.len() == 0 {
        assert(s.push(x)[0] == x);
        assert(s.push(x).subrange(1, s.push(x).len() as int) =~= Seq::<JsonVal>::empty());
        assert(seq_observe(c, s.push(x)) == seq_observe(
            observe_spec(c, x),
            Seq::<JsonVal>::empty(),
        ));
        assert(seq_observe(observe_spec(c, x), Seq::<JsonVal>::empty()) == observe_spec(c, x));
        assert(seq_observe(c, s) == c);
    } else {
        assert(s.push(x)[0] == s[0]);
        assert(s.push(x).subrange(1, s.push(x).len() as int) =~= s.subrange(
            1,
            s.len() as int,
        ).push(x));
        lemma_seq_observe_snoc(observe_spec(c, s[0]), s.subrange(1, s.len() as int), x);
        assert(seq_observe(c, s.push(x)) == seq_observe(
            observe_spec(c, s[0]),
            s.subrange(1, s.len() as int).push(x),
        ));
        assert(seq_observe(c, s) == seq_observe(
            observe_spec(c, s[0]),
            s.subrange(1, s.len() as int),
        ));
    }
}

/// Folding one more member pair, as [`lemma_seq_observe_snoc`].
pub proof fn lemma_obs_pairs_snoc(
    props: Seq<(Seq<char>, NodeModel)>,
    s: Seq<(Seq<char>, JsonVal)>,
    x: (Seq<char>, JsonVal),
)
    ensures
        obs_pairs(props, s.push(x)) == insert_observe(obs_pairs(props, s), x.0, x.1),
    decreases s.len(),
{
    if s.len() == 0 {
        assert(s.push(x)[0] == x);
        assert(s.push(x).subrange(1, s.push(x).len() as int) =~= Seq::<(
            Seq<char>,
            JsonVal,
        )>::empty());
        assert(obs_pairs(props, s.push(x)) == obs_pairs(
            insert_observe(props, x.0, x.1),
            Seq::<(Seq<char>, JsonVal)>::empty(),
        ));
        assert(obs_pairs(insert_observe(props, x.0, x.1), Seq::<(Seq<char>, JsonVal)>::empty())
            == insert_observe(props, x.0, x.1));
        assert(obs_pairs(props, s) == props);
    } else {
        assert(s.push(x)[0] == s[0]);
        assert(s.push(x).subrange(1, s.push(x).len() as int) =~= s.subrange(
            1,
            s.len() as int,
        ).push(x));
        lemma_obs_pairs_snoc(insert_observe(props, s[0].0, s[0].1), s.subrange(1, s.len() as int), x);
        assert(obs_pairs(props, s.push(x)) == obs_pairs(
            insert_observe(props, s[0].0, s[0].1),
            s.subrange(1, s.len() as int).push(x),
        ));
        assert(obs_pairs(props, s) == obs_pairs(
            insert_observe(props, s[0].0, s[0].1),
            s.subrange(1, s.len() as int),
        ));
    }
}

/// Entries that neither match `k` nor sort after it pass unchanged in front
/// of the insertion.
pub proof fn lemma_insert_observe_peel(
    ps: Seq<(Seq<char>, NodeModel)>,
    k: Seq<char>,
    val: JsonVal,
    i: int,
)
    requires
        0 <= i <= ps.len(),
        forall|j: int| 0 <= j < i ==> (#[trigger] ps[j].0) != k && !lex_lt(k, ps[j].0),
    ensures
        insert_observe(ps, k, val) == ps.take(i) + insert_observe(ps.skip(i), k, val),
    decreases i,
{
    if i == 0 {
        assert(ps.take(0) =~= Seq::<(Seq<char>, NodeModel)>::empty());
        assert(ps.skip(0) =~= ps);
        assert(ps.take(0) + insert_observe(ps.skip(0), k, val) =~= insert_observe(ps, k, val));
    } else {
        let tail = ps.subrange(1, ps.len() as int);
        assert(ps[0].0 != k && !lex_lt(k, ps[0].0));
        assert forall|j: int| 0 <= j < i - 1 implies (#[trigger] tail[j].0) != k && !lex_lt(
            k,
            tail[j].0,
        ) by {
            assert(tail[j] == ps[j + 1]);
        }
        lemma_insert_observe_peel(tail, k, val, i - 1);
        assert(tail.take(i - 1) =~= ps.take(i).subrange(1, i));
        assert(tail.skip(i - 1) =~= ps.skip(i));
        assert(seq![ps[0]] + (tail.take(i - 1) + insert_observe(tail.skip(i - 1), k, val)) =~= ps.take(
            i,
        ) + insert_observe(ps.skip(i), k, val));
    }
}

impl Node {
    /// The node that has observed nothing.
    pub fn empty() -> (r: Node)
        ensures
            r@ == empty_node(),
    {
        let r = Node { types: TagSet::empty(), properties: Vec::new(), items: Vec::new() };
        proof {
            assert(node_model_pairs(r.properties@) =~= Seq::<(Seq<char>, NodeModel)>::empty());
            assert(node_models(r.items@) =~= Seq::<NodeModel>::empty());
            assert(r@ =~= empty_node());
        }
        r
    }

    /// Mutates the node to additionally account for the value `v`.
    pub fn observe(&mut self, v: &JsonValue)
        ensures
            final(self)@ == observe_spec(old(self)@, v@),
        decreases v, 0int,
    {
        match v {
            JsonValue::Null => {
                self.types.insert(TypeTag::Null);
                proof {
                    assert(self@ =~= observe_spec(old(self)@, v@));
                }
            },
            JsonValue::Bool(_) => {
                self.types.insert(TypeTag::Boolean);
                proof {
                    assert(self@ =~= observe_spec(old(self)@, v@));
                }
            },
            JsonValue::Int(_) => {
                self.types.insert(TypeTag::Integer);
                proof {
                    assert(self@ =~= observe_spec(old(self)@, v@));
                }
            },
            JsonValue::UInt(_) => {
                self.types.insert(TypeTag::Integer);
                proof {
                    assert(self@ =~= observe_spec(old(self)@, v@));
                }
            },
            JsonValue::Num => {
                self.types.insert(TypeTag::Number);
                proof {
                    assert(self@ =~= observe_spec(old(self)@, v@));
                }
            },
            JsonValue::Str(_) => {
                self.types.insert(TypeTag::String);
                proof {
                    assert(self@ =~= observe_spec(old(self)@, v@));
                }
            },
            JsonValue::Arr(es) => {
                self.types.insert(TypeTag::Array);
                if es.len() > 0 {
                    let mut child: Node = if self.items.len() > 0 {
                        self.items.remove(0)
                    } else {
                        Node::empty()
                    };
                    self.items.clear();
                    let ghost c0 = item_or_empty(old(self)@);
                    let ghost ems = jv_models(es@);
                    proof {
                        lemma_node_models_index(old(self).items@);
                        lemma_jv_models_index(es@);
                        assert(child@ == c0);
                        assert(seq_observe(c0, ems.take(0)) == c0) by {
                            assert(ems.take(0) =~= Seq::<JsonVal>::empty());
                        }
                    }
                    let n = es.len();
                    let mut i: usize = 0;
                    while i < n
                        invariant
                            *v is Arr,
                            v->Arr_0@ == es@,
                            n == es.len(),
                            i <= n,
                            ems == jv_models(es@),
                            child@ == seq_observe(c0, ems.take(i as int)),
                        decreases n - i,
                    {
                        proof {
                            lemma_jv_models_index(es@);
                            let vv = *v;
                            assert(vv->Arr_0@ == es@);
                            assert(decreases_to!(vv => vv->Arr_0));
                            assert(decreases_to!(vv->Arr_0 => vv->Arr_0@));
                            vstd::seq::axiom_seq_index_decreases(vv->Arr_0@, i as int);
                            assert(vv->Arr_0@[i as int] == es@[i as int]);
                            assert(decreases_to!(*v => es@[i as int]));
                        }
                        child.observe(&es[i]);
                        proof {
                            assert(ems.take(i + 1) =~= ems.take(i as int).push(ems[i as int]));
                            lemma_seq_observe_snoc(c0, ems.take(i as int), ems[i as int]);
                        }
                        i += 1;
                    }
                    self.items.push(child);
                    proof {
                        assert(ems.take(n as int) =~= ems);
                        lemma_node_models_index(self.items@);
                        assert(node_models(self.items@) =~= seq![
                            seq_observe(item_or_empty(old(self)@), ems),
                        ]);
                        assert(self@ =~= observe_spec(old(self)@, v@));
                    }
                } else {
                    proof {
                        assert(jv_models(es@) =~= Seq::<JsonVal>::empty());
                        assert(self@ =~= observe_spec(old(self)@, v@));
                    }
                }
            },
            JsonValue::Obj(ps) => {
                self.types.insert(TypeTag::Object);
                let ghost pms = jv_model_pairs(ps@);
                let ghost props0 = node_model_pairs(old(self).properties@);
                proof {
                    assert(obs_pairs(props0, pms.take(0)) == props0) by {
                        assert(pms.take(0) =~= Seq::<(Seq<char>, JsonVal)>::empty());
                    }
                }
                let n = ps.len();
                let mut j: usize = 0;
                while j < n
                    invariant
                        *v is Obj,
                        v->Obj_0@ == ps@,
                        n == ps.len(),
                        j <= n,
                        pms == jv_model_pairs(ps@),
                        self.types == old(self).types.spec_insert(TypeTag::Object),
                        self.items@ == old(self).items@,
                        node_model_pairs(self.properties@) == obs_pairs(props0, pms.take(j as int)),
                        props0 == node_model_pairs(old(self).properties@),
                    decreases n - j,
                {
                    let pair = &ps[j];
                    proof {
                        lemma_jv_model_pairs_index(ps@);
                        let vv = *v;
                        assert(vv->Obj_0@ == ps@);
                        assert(decreases_to!(vv => vv->Obj_0));
                        assert(decreases_to!(vv->Obj_0 => vv->Obj_0@));
                        vstd::seq::axiom_seq_index_decreases(vv->Obj_0@, j as int);
                        assert(decreases_to!(vv->Obj_0@[j as int] => vv->Obj_0@[j as int].1));
                        assert(vv->Obj_0@[j as int].1 == ps@[j as int].1);
                        assert(decreases_to!(*v => ps@[j as int].1));
                    }
                    observe_at_key(&mut self.properties, &pair.0, &pair.1);
                    proof {
                        assert(pms.take(j + 1) =~= pms.take(j as int).push(pms[j as int]));
                        lemma_obs_pairs_snoc(props0, pms.take(j as int), pms[j as int]);
                    }
                    j += 1;
                }
                proof {
                    lemma_jv_model_pairs_index(ps@);
                    assert(pms.take(n as int) =~= pms);
                    assert(self@ =~= observe_spec(old(self)@, v@));
                }
            },
        }
    }
}

/// Observes `v` at key `k` among `props`: the child at `k` is found or
/// created in sorted position, and observes `v`.
fn observe_at_key(props: &mut Vec<(String, Node)>, k: &String, v: &JsonValue)
    ensures
        node_model_pairs(final(props)@) == insert_observe(node_model_pairs(old(props)@), k@, v@),
    decreases v, 1int,
{
    let ghost m0 = node_model_pairs(old(props)@);
    let n = props.len();
    let mut i: usize = 0;
    while i < n
        invariant
            n == props.len(),
            props@ == old(props)@,
            i <= n,
            m0 == node_model_pairs(old(props)@),
            forall|j: int|
                0 <= j < i ==> (#[trigger] props@[j].0@) != k@ && !lex_lt(k@, props@[j].0@),
        decreases n - i,
    {
        proof {
            lemma_node_model_pairs_index(props@);
        }
        if props[i].0 == *k {
            let mut entry = props.remove(i);
            entry.1.observe(v);
            props.insert(i, entry);
            proof {
                let pold = old(props)@;
                let x = props@[i as int];
                lemma_node_model_pairs_index(pold);
                assert(props@ =~= pold.update(i as int, x));
                assert(x.0 == pold[i as int].0);
                assert(node_model(x.1) == observe_spec(node_model(pold[i as int].1), v@));
                assert(x.0@ == k@);
                lemma_node_model_pairs_update(pold, i as int, x);
                assert forall|j: int| 0 <= j < i implies (#[trigger] m0[j].0) != k@ && !lex_lt(
                    k@,
                    m0[j].0,
                ) by {
                    assert(m0[j] == (pold[j].0@, node_model(pold[j].1)));
                }
                lemma_insert_observe_peel(m0, k@, v@, i as int);
                assert(m0.skip(i as int)[0] == m0[i as int]);
                assert(m0.skip(i as int).subrange(1, m0.skip(i as int).len() as int) =~= m0.skip(
                    i + 1,
                ));
                assert(insert_observe(m0.skip(i as int), k@, v@) == seq![
                    (k@, observe_spec(m0[i as int].1, v@)),
                ] + m0.skip(i + 1));
                assert(node_model_pairs(props@) == m0.update(
                    i as int,
                    (k@, observe_spec(m0[i as int].1, v@)),
                ));
                assert(node_model_pairs(props@) =~= m0.take(i as int) + (seq![
                    (k@, observe_spec(m0[i as int].1, v@)),
                ] + m0.skip(i + 1)));
            }
            return ;
        }
        if string_lt(k, &props[i].0) {
            let mut child = Node::empty();
            child.observe(v);
            props.insert(i, (k.clone(), child));
            proof {
                let pold = old(props)@;
                let x = props@[i as int];
                lemma_node_model_pairs_index(pold);
                assert(props@ =~= pold.insert(i as int, x));
                assert(x.0@ == k@);
                assert(node_model(x.1) == observe_spec(empty_node(), v@));
                lemma_node_model_pairs_insert(pold, i as int, x);
                assert forall|j: int| 0 <= j < i implies (#[trigger] m0[j].0) != k@ && !lex_lt(
                    k@,
                    m0[j].0,
                ) by {
                    assert(m0[j] == (pold[j].0@, node_model(pold[j].1)));
                }
                lemma_insert_observe_peel(m0, k@, v@, i as int);
                assert(m0.skip(i as int)[0] == m0[i as int]);
                assert(m0[i as int].0 == pold[i as int].0@);
                assert(lex_lt(k@, m0[i as int].0));
                lemma_lex_lt_irrefl(k@);
                assert(m0.skip(i as int)[0].0 != k@);
                assert(insert_observe(m0.skip(i as int), k@, v@) == seq![
                    (k@, observe_spec(empty_node(), v@)),
                ] + m0.skip(i as int));
                assert(node_model_pairs(props@) == m0.insert(
                    i as int,
                    (k@, observe_spec(empty_node(), v@)),
                ));
                assert(node_model_pairs(props@) =~= m0.take(i as int) + (seq![
                    (k@, observe_spec(empty_node(), v@)),
                ] + m0.skip(i as int)));
            }
            return ;
        }
        i += 1;
    }
    let mut child = Node::empty();
    child.observe(v);
    props.push((k.clone(), child));
    proof {
        let pold = old(props)@;
        let x = props@[n as int];
        lemma_node_model_pairs_index(pold);
        assert(props@ =~= pold.insert(n as int, x));
        assert(x.0@ == k@);
        assert(node_model(x.1) == observe_spec(empty_node(), v@));
        lemma_node_model_pairs_insert(pold, n as int, x);
        assert forall|j: int| 0 <= j < n implies (#[trigger] m0[j].0) != k@ && !lex_lt(
            k@,
            m0[j].0,
        ) by {
            assert(m0[j] == (pold[j].0@, node_model(pold[j].1)));
        }
        lemma_insert_observe_peel(m0, k@, v@, n as int);
        assert(m0.skip(n as int) =~= Seq::<(Seq<char>, NodeModel)>::empty());
        assert(insert_observe(Seq::<(Seq<char>, NodeModel)>::empty(), k@, v@) == seq![
            (k@, observe_spec(empty_node(), v@)),
        ]);
        assert(m0.take(n as int) =~= m0);
        assert(node_model_pairs(props@) == m0.insert(
            n as int,
            (k@, observe_spec(empty_node(), v@)),
        ));
        assert(node_model_pairs(props@) =~= m0 + seq![(k@, observe_spec(empty_node(), v@))]);
    }
}


/// The node `n` after observing every sample text of `ss`, in order; each
/// text's value is what it parses to.
pub open spec fn build_obs(n: NodeModel, ss: Seq<Seq<char>>) -> NodeModel
    decreases ss.len(),
{
    if ss.len() == 0 {
        n
    } else {
        build_obs(
            observe_spec(n, crate::codec::json_of(ss[0])->Some_0),
            ss.subrange(1, ss.len() as int),
        )
    }
}

/// One more sample: building over `ss.push(x)` is building over `ss`, then
/// observing `x`'s value.
pub proof fn lemma_build_obs_snoc(n: NodeModel, ss: Seq<Seq<char>>, x: Seq<char>)
    ensures
        build_obs(n, ss.push(x)) == observe_spec(
            build_obs(n, ss),
            crate::codec::json_of(x)->Some_0,
        ),
    decreases ss.len(),
{
    if ss.len() == 0 {
        assert(ss.push(x)[0] == x);
        assert(ss.push(x).subrange(1, ss.push(x).len() as int) =~= Seq::<Seq<char>>::empty());
        assert(build_obs(n, ss) == n);
        assert(build_obs(observe_spec(n, crate::codec::json_of(x)->Some_0), Seq::<Seq<char>>::empty())
            == observe_spec(n, crate::codec::json_of(x)->Some_0));
    } else {
        assert(ss.push(x)[0] == ss[0]);
        assert(ss.push(x).subrange(1, ss.push(x).len() as int) =~= ss.subrange(
            1,
            ss.len() as int,
        ).push(x));
        lemma_build_obs_snoc(
            observe_spec(n, crate::codec::json_of(ss[0])->Some_0),
            ss.subrange(1, ss.len() as int),
            x,
        );
        assert(build_obs(n, ss.push(x)) == build_obs(
            observe_spec(n, crate::codec::json_of(ss[0])->Some_0),
            ss.subrange(1, ss.len() as int).push(x),
        ));
        assert(build_obs(n, ss) == build_obs(
            observe_spec(n, crate::codec::json_of(ss[0])->Some_0),
            ss.subrange(1, ss.len() as int),
        ));
    }
}

/// Building preserves well-formedness.
pub proof fn lemma_build_obs_wf(n: NodeModel, ss: Seq<Seq<char>>)
    requires
        node_wf(n),
    ensures
        node_wf(build_obs(n, ss)),
    decreases ss.len(),
{
    if ss.len() > 0 {
        lemma_observe_wf(n, crate::codec::json_of(ss[0])->Some_0);
        lemma_build_obs_wf(
            observe_spec(n, crate::codec::json_of(ss[0])->Some_0),
            ss.subrange(1, ss.len() as int),
        );
    }
}


/// The structural invariant of built nodes: properties occur only beside the
/// `object` tag, an items child only beside the `array` tag, recursively.
pub open spec fn node_tidy(n: NodeModel) -> bool
    decreases n,
{
    &&& (n.props.len() > 0 ==> n.types.object)
    &&& (n.items.len() > 0 ==> n.types.array)
    &&& forall|i: int| 0 <= i < n.props.len() ==> node_tidy(#[trigger] n.props[i].1)
    &&& forall|i: int| 0 <= i < n.items.len() ==> node_tidy(#[trigger] n.items[i])
}

/// Observing preserves the structural invariant: in particular every node
/// built from samples has properties only where an object was observed and
/// an items child only where an array element was observed.
pub proof fn lemma_observe_tidy(n: NodeModel, v: JsonVal)
    requires
        node_tidy(n),
    ensures
        node_tidy(observe_spec(n, v)),
    decreases v, 0int,
{
    let r = observe_spec(n, v);
    match v {
        JsonVal::Arr(es) => {
            assert(observe_spec(n, v).props == n.props);
            if es.len() > 0 {
                assert(node_tidy(item_or_empty(n)));
                assert(decreases_to!(v => v->Arr_0));
                lemma_seq_observe_tidy(item_or_empty(n), es);
                assert(r.items[0] == seq_observe(item_or_empty(n), es));
                assert forall|i: int| 0 <= i < r.items.len() implies node_tidy(
                    #[trigger] r.items[i],
                ) by {
                    assert(r.items[i] == r.items[0]);
                }
            }
            assert forall|i: int| 0 <= i < observe_spec(n, v).props.len() implies node_tidy(
                #[trigger] observe_spec(n, v).props[i].1,
            ) by {
                assert(observe_spec(n, v).props[i] == n.props[i]);
                assert(node_tidy(n.props[i].1));
            }
            assert(node_tidy(observe_spec(n, v)));
        },
        JsonVal::Obj(ps) => {
            assert(decreases_to!(v => v->Obj_0));
            lemma_obs_pairs_tidy(n.props, ps);
            assert(v->Obj_0 == ps);
            assert(observe_spec(n, v).props == obs_pairs(n.props, ps));
            assert(observe_spec(n, v).items == n.items);
            assert forall|i: int| 0 <= i < observe_spec(n, v).items.len() implies node_tidy(
                #[trigger] observe_spec(n, v).items[i],
            ) by {
                assert(observe_spec(n, v).items[i] == n.items[i]);
                assert(node_tidy(n.items[i]));
            }
            assert(node_tidy(observe_spec(n, v)));
        },
        _ => {},
    }
}

/// Observing a sequence of values preserves the structural invariant.
proof fn lemma_seq_observe_tidy(c: NodeModel, es: Seq<JsonVal>)
    requires
        node_tidy(c),
    ensures
        node_tidy(seq_observe(c, es)),
    decreases es, 1int,
{
    if es.len() > 0 {
        lemma_observe_tidy(c, es[0]);
        lemma_seq_observe_tidy(observe_spec(c, es[0]), es.subrange(1, es.len() as int));
    }
}

/// Observing member pairs keeps every child tidy.
proof fn lemma_obs_pairs_tidy(props: Seq<(Seq<char>, NodeModel)>, ps: Seq<(Seq<char>, JsonVal)>)
    requires
        forall|t: int| 0 <= t < props.len() ==> node_tidy(#[trigger] props[t].1),
    ensures
        forall|t: int|
            0 <= t < obs_pairs(props, ps).len() ==> node_tidy(#[trigger] obs_pairs(props, ps)[t].1),
    decreases ps, 1int,
{
    if ps.len() > 0 {
        vstd::seq::axiom_seq_index_decreases(ps, 0);
        assert(decreases_to!(ps[0] => ps[0].1));
        lemma_insert_observe_tidy(props, ps[0].0, ps[0].1);
        lemma_obs_pairs_tidy(
            insert_observe(props, ps[0].0, ps[0].1),
            ps.subrange(1, ps.len() as int),
        );
        assert(obs_pairs(props, ps) == obs_pairs(
            insert_observe(props, ps[0].0, ps[0].1),
            ps.subrange(1, ps.len() as int),
        ));
    }
}

/// Observing at one key keeps every child tidy.
proof fn lemma_insert_observe_tidy(props: Seq<(Seq<char>, NodeModel)>, k: Seq<char>, val: JsonVal)
    requires
        forall|t: int| 0 <= t < props.len() ==> node_tidy(#[trigger] props[t].1),
    ensures
        forall|t: int|
            0 <= t < insert_observe(props, k, val).len() ==> node_tidy(
                #[trigger] insert_observe(props, k, val)[t].1,
            ),
    decreases val, props.len() + 1,
{
    let res = insert_observe(props, k, val);
    assert(node_tidy(empty_node()));
    if props.len() == 0 {
        lemma_observe_tidy(empty_node(), val);
    } else if props[0].0 == k {
        lemma_observe_tidy(props[0].1, val);
        assert forall|t: int| 0 <= t < res.len() implies node_tidy(#[trigger] res[t].1) by {
            if t > 0 {
                assert(res[t].1 == props[t].1);
            }
        }
    } else if lex_lt(k, props[0].0) {
        lemma_observe_tidy(empty_node(), val);
        assert forall|t: int| 0 <= t < res.len() implies node_tidy(#[trigger] res[t].1) by {
            if t > 0 {
                assert(res[t].1 == props[t - 1].1);
            }
        }
    } else {
        let tail = props.subrange(1, props.len() as int);
        assert forall|t: int| 0 <= t < tail.len() implies node_tidy(#[trigger] tail[t].1) by {
            assert(tail[t] == props[t + 1]);
        }
        lemma_insert_observe_tidy(tail, k, val);
        assert forall|t: int| 0 <= t < res.len() implies node_tidy(#[trigger] res[t].1) by {
            if t > 0 {
                assert(res[t].1 == insert_observe(tail, k, val)[t - 1].1);
            }
        }
    }
}

/// Every node built from a sample set satisfies the structural invariant.
pub proof fn lemma_build_obs_tidy(n: NodeModel, ss: Seq<Seq<char>>)
    requires
        node_tidy(n),
    ensures
        node_tidy(build_obs(n, ss)),
    decreases ss.len(),
{
    if ss.len() > 0 {
        lemma_observe_tidy(n, crate::codec::json_of(ss[0])->Some_0);
        lemma_build_obs_tidy(
            observe_spec(n, crate::codec::json_of(ss[0])->Some_0),
            ss.subrange(1, ss.len() as int),
        );
    }
}

} // verus!

//! The schema emitter: turning an observation tree into a schema document
//! built from the `type`, `properties` and `items` keywords alone.

use vstd::prelude::*;

use crate::node::{node_model_pairs, node_wf, props_wf, Node, NodeModel};
use crate::tags::{tag_name, TagSet, TypeTag};
use crate::value::{canonical, jv_model_pairs, lemma_jv_model_pairs_index, lex_lt, JsonVal, JsonValue};

verus! {

/// The `type` keyword.
pub open spec fn type_key() -> Seq<char> {
    "type"@
}

/// The `properties` keyword.
pub open spec fn properties_key() -> Seq<char> {
    "properties"@
}

/// The `items` keyword.
pub open spec fn items_key() -> Seq<char> {
    "items"@
}

/// The names of the tags present in `ts`, in lexicographic order.
pub open spec fn type_names(ts: TagSet) -> Seq<Seq<char>> {
    (if ts.array {
        seq![tag_name(TypeTag::Array)]
    } else {
        Seq::empty()
    }) + (if ts.boolean {
        seq![tag_name(TypeTag::Boolean)]
    } else {
        Seq::empty()
    }) + (if ts.integer {
        seq![tag_name(TypeTag::Integer)]
    } else {
        Seq::empty()
    }) + (if ts.null {
        seq![tag_name(TypeTag::Null)]
    } else {
        Seq::empty()
    }) + (if ts.number {
        seq![tag_name(TypeTag::Number)]
    } else {
        Seq::empty()
    }) + (if ts.object {
        seq![tag_name(TypeTag::Object)]
    } else {
        Seq::empty()
    }) + (if ts.string {
        seq![tag_name(TypeTag::String)]
    } else {
        Seq::empty()
    })
}

/// Each name as a JSON string value.
pub open spec fn strs_of(names: Seq<Seq<char>>) -> Seq<JsonVal>
    decreases names,
{
    if names.len() == 0 {
        Seq::empty()
    } else {
        seq![JsonVal::Str(names[0])] + strs_of(names.subrange(1, names.len() as int))
    }
}

/// Element-wise reading of [`strs_of`].
pub proof fn lemma_strs_of_index(names: Seq<Seq<char>>)
    ensures
        strs_of(names).len() == names.len(),
        forall|i: int|
            0 <= i < names.len() ==> strs_of(names)[i] == JsonVal::Str(#[trigger] names[i]),
    decreases names,
{
    if names.len() > 0 {
        let tail = names.subrange(1, names.len() as int);
        lemma_strs_of_index(tail);
        assert forall|i: int| 0 <= i < names.len() implies strs_of(names)[i] == JsonVal::Str(
            #[trigger] names[i],
        ) by {
            if i >= 1 {
                assert(tail[i - 1] == names[i]);
            }
        }
    }
}

/// The member pairs of a schema's `type` entry: absent when nothing was
/// observed, a single name string when exactly one tag is present, else the
/// sorted array of name strings.
pub open spec fn type_entry(ts: TagSet) -> Seq<(Seq<char>, JsonVal)> {
    let names = type_names(ts);
    if names.len() == 0 {
        Seq::empty()
    } else if names.len() == 1 {
        seq![(type_key(), JsonVal::Str(names[0]))]
    } else {
        seq![(type_key(), JsonVal::Arr(strs_of(names)))]
    }
}

/// The schema document of a node: `items`, `properties` and `type` entries,
/// each present only when it has something to say.
pub open spec fn schema_of(n: NodeModel) -> JsonVal
    decreases n, 1int,
{
    JsonVal::Obj(
        (if n.types.array && n.items.len() > 0 {
            seq![(items_key(), schema_of(n.items[0]))]
        } else {
            Seq::empty()
        }) + (if n.types.object && n.props.len() > 0 {
            seq![(properties_key(), JsonVal::Obj(schema_props(n.props)))]
        } else {
            Seq::empty()
        }) + type_entry(n.types),
    )
}

/// The `properties` member pairs: each child rendered by [`schema_of`].
pub open spec fn schema_props(ps: Seq<(Seq<char>, NodeModel)>) -> Seq<(Seq<char>, JsonVal)>
    decreases ps, 0int,
{
    if ps.len() == 0 {
        Seq::empty()
    } else {
        seq![(ps[0].0, schema_of(ps[0].1))] + schema_props(ps.subrange(1, ps.len() as int))
    }
}

/// Element-wise reading of [`schema_props`].
pub proof fn lemma_schema_props_index(ps: Seq<(Seq<char>, NodeModel)>)
    ensures
        schema_props(ps).len() == ps.len(),
        forall|i: int|
            0 <= i < ps.len() ==> schema_props(ps)[i] == (
                #[trigger] ps[i].0,
                schema_of(ps[i].1),
            ),
    decreases ps,
{
    if ps.len() > 0 {
        let tail = ps.subrange(1, ps.len() as int);
        lemma_schema_props_index(tail);
        assert forall|i: int| 0 <= i < ps.len() implies schema_props(ps)[i] == (
            #[trigger] ps[i].0,
            schema_of(ps[i].1),
        ) by {
            if i >= 1 {
                assert(tail[i - 1] == ps[i]);
            }
        }
    }
}

impl Node {
    /// Renders this node as a schema document.
    #[verifier::rlimit(60)]
    pub fn to_json_schema(&self) -> (r: JsonValue)
        ensures
            r@ == schema_of(self@),
        decreases self, 1int,
    {
        let mut entries: Vec<(String, JsonValue)> = Vec::new();
        if self.types.has(TypeTag::Array) && self.items.len() > 0 {
            proof {
                let sv = *self;
                assert(decreases_to!(sv => sv.items));
                assert(decreases_to!(sv.items => sv.items@));
                vstd::seq::axiom_seq_index_decreases(sv.items@, 0int);
                assert(decreases_to!(*self => self.items@[0]));
            }
            let child_schema = self.items[0].to_json_schema();
            entries.push(("items".to_owned(), child_schema));
            proof {
                crate::node::lemma_node_models_index(self.items@);
            }
        }
        let ghost items_part = jv_model_pairs(entries@);
        proof {
            lemma_jv_model_pairs_index(entries@);
            assert(items_part =~= (if self@.types.array && self@.items.len() > 0 {
                seq![(items_key(), schema_of(self@.items[0]))]
            } else {
                Seq::<(Seq<char>, JsonVal)>::empty()
            }));
        }
        if self.types.has(TypeTag::Object) && self.properties.len() > 0 {
            proof {
                let sv = *self;
                assert(decreases_to!(sv => sv.properties));
            }
            let props = properties_pairs(&self.properties);
            let ghost pre_p = entries@;
            entries.push(("properties".to_owned(), JsonValue::Obj(props)));
            proof {
                assert(entries@ == pre_p.push(entries@.last()));
                crate::value::lemma_jv_model_pairs_push(pre_p, entries@.last());
            }
        }
        let ghost pre_type = jv_model_pairs(entries@);
        proof {
            lemma_jv_model_pairs_index(entries@);
            assert(pre_type =~= items_part + (if self@.types.object && self@.props.len() > 0 {
                seq![(properties_key(), JsonVal::Obj(schema_props(self@.props)))]
            } else {
                Seq::<(Seq<char>, JsonVal)>::empty()
            }));
        }
        let mut tv = type_entries(self.types);
        let ghost pre_a = entries@;
        let ghost tv0 = tv@;
        entries.append(&mut tv);
        let r = JsonValue::Obj(entries);
        proof {
            crate::value::lemma_jv_model_pairs_concat(pre_a, tv0);
            assert(r->Obj_0@ == pre_a + tv0);
            assert(jv_model_pairs(r->Obj_0@) == pre_type + type_entry(self@.types));
            assert(r@ =~= schema_of(self@));
        }
        r
    }
}

/// Renders each key/child pair of a node's properties.
pub(crate) fn properties_pairs(properties: &Vec<(String, Node)>) -> (r: Vec<(String, JsonValue)>)
    ensures
        jv_model_pairs(r@) == schema_props(node_model_pairs(properties@)),
    decreases properties, 0int,
{
    let ghost nprops = node_model_pairs(properties@);
    let mut props: Vec<(String, JsonValue)> = Vec::new();
    let n = properties.len();
    let mut j: usize = 0;
    while j < n
        invariant
            n == properties.len(),
            j <= n,
            nprops == node_model_pairs(properties@),
            props@.len() == j,
            forall|t: int|
                0 <= t < j ==> jv_model_pairs(props@)[t] == (
                    #[trigger] nprops[t].0,
                    schema_of(nprops[t].1),
                ),
        decreases n - j,
    {
        proof {
            let pv = *properties;
            assert(decreases_to!(pv => pv@));
            vstd::seq::axiom_seq_index_decreases(pv@, j as int);
            assert(decreases_to!(pv@[j as int] => pv@[j as int].1));
            assert(decreases_to!(*properties => properties@[j as int].1));
        }
        let pair = &properties[j];
        let child_schema = pair.1.to_json_schema();
        let ghost pre = props@;
        props.push((pair.0.clone(), child_schema));
        proof {
            crate::node::lemma_node_model_pairs_index(properties@);
            lemma_jv_model_pairs_index(pre);
            lemma_jv_model_pairs_index(props@);
            assert(props@ == pre.push((pair.0, child_schema)));
            assert(props@[j as int] == (pair.0, child_schema));
            assert(pair.0@ == nprops[j as int].0);
            assert(child_schema@ == schema_of(nprops[j as int].1));
            assert forall|t: int| 0 <= t < j + 1 implies jv_model_pairs(props@)[t] == (
                #[trigger] nprops[t].0,
                schema_of(nprops[t].1),
            ) by {
                assert(jv_model_pairs(props@)[t] == (props@[t].0@, crate::value::jv_model(
                    props@[t].1,
                )));
                if t < j {
                    assert(props@[t] == pre[t]);
                    assert(jv_model_pairs(pre)[t] == (pre[t].0@, crate::value::jv_model(
                        pre[t].1,
                    )));
                } else {
                    assert(props@[t] == (pair.0, child_schema));
                }
            }
        }
        j += 1;
    }
    proof {
        lemma_jv_model_pairs_index(props@);
        lemma_schema_props_index(nprops);
        crate::node::lemma_node_model_pairs_index(properties@);
        assert forall|t: int| 0 <= t < nprops.len() implies jv_model_pairs(props@)[t]
            == schema_props(nprops)[t] by {
            assert(schema_props(nprops)[t] == (nprops[t].0, schema_of(nprops[t].1)));
        }
        assert(jv_model_pairs(props@) =~= schema_props(nprops));
    }
    props
}

/// Builds the `type` entry of a schema document for the tag set `ts`.
#[verifier::rlimit(100)]
fn type_entries(ts: TagSet) -> (r: Vec<(String, JsonValue)>)
    ensures
        jv_model_pairs(r@) == type_entry(ts),
{
    let mut names: Vec<String> = Vec::new();
    if ts.has(TypeTag::Array) {
        names.push(TypeTag::Array.as_str().to_owned());
    }
    if ts.has(TypeTag::Boolean) {
        names.push(TypeTag::Boolean.as_str().to_owned());
    }
    if ts.has(TypeTag::Integer) {
        names.push(TypeTag::Integer.as_str().to_owned());
    }
    if ts.has(TypeTag::Null) {
        names.push(TypeTag::Null.as_str().to_owned());
    }
    if ts.has(TypeTag::Number) {
        names.push(TypeTag::Number.as_str().to_owned());
    }
    if ts.has(TypeTag::Object) {
        names.push(TypeTag::Object.as_str().to_owned());
    }
    if ts.has(TypeTag::String) {
        names.push(TypeTag::String.as_str().to_owned());
    }
    let ghost tnames = type_names(ts);
    proof {
        assert(names@.map_values(|s: String| s@) =~= tnames);
    }
    let mut out: Vec<(String, JsonValue)> = Vec::new();
    proof {
        lemma_jv_model_pairs_index(out@);
    }
    if names.len() == 1 {
        let name = names.pop().unwrap();
        out.push(("type".to_owned(), JsonValue::Str(name)));
        proof {
            assert(name@ == tnames[0]);
            lemma_jv_model_pairs_index(out@);
            assert(jv_model_pairs(out@) =~= type_entry(ts));
        }
    } else if names.len() > 1 {
        let m = names.len();
        let mut vals: Vec<JsonValue> = Vec::new();
        let mut t: usize = 0;
        while t < m
            invariant
                m == names.len(),
                t <= m,
                tnames == names@.map_values(|s: String| s@),
                vals@.len() == t,
                forall|u: int|
                    0 <= u < t ==> crate::value::jv_models(vals@)[u] == JsonVal::Str(
                        #[trigger] tnames[u],
                    ),
            decreases m - t,
        {
            let ghost pre = vals@;
            vals.push(JsonValue::Str(names[t].clone()));
            proof {
                crate::value::lemma_jv_models_index(pre);
                crate::value::lemma_jv_models_index(vals@);
                assert(names@.map_values(|s: String| s@)[t as int] == names@[t as int]@);
                assert forall|u: int| 0 <= u < t + 1 implies crate::value::jv_models(vals@)[u]
                    == JsonVal::Str(#[trigger] tnames[u]) by {
                    if u < t {
                        assert(vals@[u] == pre[u]);
                        assert(crate::value::jv_models(pre)[u] == crate::value::jv_model(pre[u]));
                    } else {
                        assert(vals@[u] == JsonValue::Str(names@[t as int]));
                    }
                }
            }
            t += 1;
        }
        proof {
            crate::value::lemma_jv_models_index(vals@);
            lemma_strs_of_index(tnames);
            assert forall|u: int| 0 <= u < tnames.len() implies crate::value::jv_models(vals@)[u]
                == strs_of(tnames)[u] by {
                assert(strs_of(tnames)[u] == JsonVal::Str(tnames[u]));
            }
            assert(crate::value::jv_models(vals@) =~= strs_of(tnames));
        }
        out.push(("type".to_owned(), JsonValue::Arr(vals)));
        proof {
            lemma_jv_model_pairs_index(out@);
            assert(jv_model_pairs(out@) =~= type_entry(ts));
        }
    } else {
        proof {
            assert(jv_model_pairs(out@) =~= type_entry(ts));
        }
    }
    out
}


/// The three keyword keys stand in lexicographic order.
pub proof fn lemma_schema_keys_sorted()
    ensures
        lex_lt(items_key(), properties_key()),
        lex_lt(properties_key(), type_key()),
{
    reveal_strlit("items");
    reveal_strlit("properties");
    reveal_strlit("type");
}

/// The keyword keys are pairwise ordered, `items` before `type` included.
pub proof fn lemma_lex_lt_trans_keys()
    ensures
        lex_lt(items_key(), type_key()),
{
    lemma_schema_keys_sorted();
    crate::value::lemma_lex_lt_trans(items_key(), properties_key(), type_key());
}

/// Every `type` entry carries the `type` key and a canonical value, and
/// there is at most one.
pub proof fn lemma_type_entry_canonical(ts: TagSet)
    ensures
        type_entry(ts).len() <= 1,
        forall|t: int| 0 <= t < type_entry(ts).len() ==> #[trigger] type_entry(ts)[t].0
            == type_key(),
        forall|t: int| 0 <= t < type_entry(ts).len() ==> canonical(#[trigger] type_entry(ts)[t].1),
{
    let names = type_names(ts);
    if names.len() > 1 {
        lemma_strs_of_index(names);
        assert(canonical(JsonVal::Arr(strs_of(names)))) by {
            assert forall|i: int| 0 <= i < strs_of(names).len() implies canonical(
                #[trigger] strs_of(names)[i],
            ) by {
                assert(strs_of(names)[i] == JsonVal::Str(names[i]));
            }
        }
    }
}

/// The schema document of a well-formed node is canonical: object keys
/// strictly sorted throughout, and no dropped-payload number anywhere.
pub proof fn lemma_schema_canonical(n: NodeModel)
    requires
        node_wf(n),
    ensures
        canonical(schema_of(n)),
    decreases n, 1int,
{
    lemma_schema_keys_sorted();
    lemma_type_entry_canonical(n.types);
    let entries = schema_of(n)->Obj_0;
    if n.types.array && n.items.len() > 0 {
        assert(decreases_to!(n => n.items));
        vstd::seq::axiom_seq_index_decreases(n.items, 0);
        lemma_schema_canonical(n.items[0]);
    }
    if n.types.object && n.props.len() > 0 {
        assert(decreases_to!(n => n.props));
        lemma_schema_props_canonical(n.props);
    }
    assert forall|i: int| 0 <= i < entries.len() implies canonical(#[trigger] entries[i].1) by {}
    lemma_lex_lt_trans_keys();
    assert forall|i: int| 0 <= i && i + 1 < entries.len() implies lex_lt(
        entries[i].0,
        #[trigger] entries[i + 1].0,
    ) by {
        let ip: int = if n.types.array && n.items.len() > 0 {
            1
        } else {
            0
        };
        let pp: int = if n.types.object && n.props.len() > 0 {
            1
        } else {
            0
        };
        assert(entries.len() == ip + pp + type_entry(n.types).len());
        if i < ip {
            assert(entries[i].0 == items_key());
        } else if i < ip + pp {
            assert(entries[i].0 == properties_key());
        } else {
            assert(entries[i].0 == type_key());
        }
        if i + 1 < ip {
            assert(entries[i + 1].0 == items_key());
        } else if i + 1 < ip + pp {
            assert(entries[i + 1].0 == properties_key());
        } else {
            assert(entries[i + 1].0 == type_key());
        }
    }
    assert(canonical(schema_of(n)));
}

/// The `properties` object of a well-formed property sequence is canonical.
pub proof fn lemma_schema_props_canonical(ps: Seq<(Seq<char>, NodeModel)>)
    requires
        props_wf(ps),
    ensures
        canonical(JsonVal::Obj(schema_props(ps))),
    decreases ps, 0int,
{
    lemma_schema_props_index(ps);
    assert forall|i: int| 0 <= i < schema_props(ps).len() implies canonical(
        #[trigger] schema_props(ps)[i].1,
    ) by {
        assert(schema_props(ps)[i] == (ps[i].0, schema_of(ps[i].1)));
        vstd::seq::axiom_seq_index_decreases(ps, i);
        assert(decreases_to!(ps[i] => ps[i].1));
        lemma_schema_canonical(ps[i].1);
    }
    assert forall|i: int| 0 <= i && i + 1 < schema_props(ps).len() implies lex_lt(
        schema_props(ps)[i].0,
        #[trigger] schema_props(ps)[i + 1].0,
    ) by {
        assert(schema_props(ps)[i] == (ps[i].0, schema_of(ps[i].1)));
        assert(schema_props(ps)[i + 1] == (ps[i + 1].0, schema_of(ps[i + 1].1)));
    }
}


/// All names in `s` sort strictly before `x`.
pub open spec fn all_lex_lt(s: Seq<Seq<char>>, x: Seq<char>) -> bool {
    forall|i: int| 0 <= i < s.len() ==> lex_lt(#[trigger] s[i], x)
}

/// Names in `s` are strictly sorted.
pub open spec fn names_sorted(s: Seq<Seq<char>>) -> bool {
    forall|i: int, j: int| 0 <= i < j < s.len() ==> lex_lt(#[trigger] s[i], #[trigger] s[j])
}

/// A bound below `y` survives extending the sequence by a name below `y`.
proof fn lemma_bound_extend(s: Seq<Seq<char>>, x: Seq<char>, cond: bool, y: Seq<char>)
    requires
        all_lex_lt(s, y),
        lex_lt(x, y),
    ensures
        all_lex_lt(
            s + (if cond {
                seq![x]
            } else {
                Seq::<Seq<char>>::empty()
            }),
            y,
        ),
{
    let part = if cond {
        seq![x]
    } else {
        Seq::<Seq<char>>::empty()
    };
    assert forall|i: int| 0 <= i < (s + part).len() implies lex_lt(#[trigger] (s + part)[i], y) by {
        if i < s.len() {
            assert((s + part)[i] == s[i]);
        } else {
            assert((s + part)[i] == part[0]);
        }
    }
}

/// A sorted sequence extended by a name above all its members stays sorted.
proof fn lemma_sorted_extend(s: Seq<Seq<char>>, x: Seq<char>, cond: bool)
    requires
        names_sorted(s),
        all_lex_lt(s, x),
    ensures
        names_sorted(
            s + (if cond {
                seq![x]
            } else {
                Seq::<Seq<char>>::empty()
            }),
        ),
{
    let part = if cond {
        seq![x]
    } else {
        Seq::<Seq<char>>::empty()
    };
    let r = s + part;
    assert forall|i: int, j: int| 0 <= i < j < r.len() implies lex_lt(
        #[trigger] r[i],
        #[trigger] r[j],
    ) by {
        if j < s.len() {
            assert(r[i] == s[i] && r[j] == s[j]);
        } else {
            assert(r[j] == part[0]);
            assert(r[i] == s[i]);
        }
    }
}

/// The seven tag names stand in strict lexicographic order.
proof fn lemma_tag_names_order()
    ensures
        lex_lt(tag_name(TypeTag::Array), tag_name(TypeTag::Boolean)),
        lex_lt(tag_name(TypeTag::Boolean), tag_name(TypeTag::Integer)),
        lex_lt(tag_name(TypeTag::Integer), tag_name(TypeTag::Null)),
        lex_lt(tag_name(TypeTag::Null), tag_name(TypeTag::Number)),
        lex_lt(tag_name(TypeTag::Number), tag_name(TypeTag::Object)),
        lex_lt(tag_name(TypeTag::Object), tag_name(TypeTag::String)),
{
    assert(lex_lt(tag_name(TypeTag::Array), tag_name(TypeTag::Boolean)));
    assert(lex_lt(tag_name(TypeTag::Boolean), tag_name(TypeTag::Integer)));
    assert(lex_lt(tag_name(TypeTag::Integer), tag_name(TypeTag::Null)));
    let a0 = seq!['l', 'l'];
    let b0 = seq!['m', 'b', 'e', 'r'];
    assert(lex_lt(a0, b0));
    let a1 = seq!['u', 'l', 'l'];
    let b1 = seq!['u', 'm', 'b', 'e', 'r'];
    assert(a1.drop_first() =~= a0);
    assert(b1.drop_first() =~= b0);
    assert(lex_lt(a1, b1));
    assert(tag_name(TypeTag::Null).drop_first() =~= a1);
    assert(tag_name(TypeTag::Number).drop_first() =~= b1);
    assert(lex_lt(tag_name(TypeTag::Null), tag_name(TypeTag::Number)));
    assert(lex_lt(tag_name(TypeTag::Number), tag_name(TypeTag::Object)));
    assert(lex_lt(tag_name(TypeTag::Object), tag_name(TypeTag::String)));
}

/// The `type` names a schema lists are strictly sorted: the one normative
/// ordering guarantee of the emitted document.
pub proof fn lemma_type_names_sorted(ts: TagSet)
    ensures
        names_sorted(type_names(ts)),
{
    lemma_tag_names_order();
    let n1 = tag_name(TypeTag::Array);
    let n2 = tag_name(TypeTag::Boolean);
    let n3 = tag_name(TypeTag::Integer);
    let n4 = tag_name(TypeTag::Null);
    let n5 = tag_name(TypeTag::Number);
    let n6 = tag_name(TypeTag::Object);
    let n7 = tag_name(TypeTag::String);
    crate::value::lemma_lex_lt_trans(n1, n2, n3);
    crate::value::lemma_lex_lt_trans(n1, n3, n4);
    crate::value::lemma_lex_lt_trans(n1, n4, n5);
    crate::value::lemma_lex_lt_trans(n1, n5, n6);
    crate::value::lemma_lex_lt_trans(n1, n6, n7);
    crate::value::lemma_lex_lt_trans(n2, n3, n4);
    crate::value::lemma_lex_lt_trans(n2, n4, n5);
    crate::value::lemma_lex_lt_trans(n2, n5, n6);
    crate::value::lemma_lex_lt_trans(n2, n6, n7);
    crate::value::lemma_lex_lt_trans(n3, n4, n5);
    crate::value::lemma_lex_lt_trans(n3, n5, n6);
    crate::value::lemma_lex_lt_trans(n3, n6, n7);
    crate::value::lemma_lex_lt_trans(n4, n5, n6);
    crate::value::lemma_lex_lt_trans(n4, n6, n7);
    crate::value::lemma_lex_lt_trans(n5, n6, n7);
    let s0 = Seq::<Seq<char>>::empty();
    assert(names_sorted(s0));
    assert(all_lex_lt(s0, n1));
    lemma_sorted_extend(s0, n1, ts.array);
    lemma_bound_extend(s0, n1, ts.array, n2);
    lemma_bound_extend(s0, n1, ts.array, n3);
    lemma_bound_extend(s0, n1, ts.array, n4);
    lemma_bound_extend(s0, n1, ts.array, n5);
    lemma_bound_extend(s0, n1, ts.array, n6);
    lemma_bound_extend(s0, n1, ts.array, n7);
    let s1 = s0 + (if ts.array {
        seq![n1]
    } else {
        Seq::<Seq<char>>::empty()
    });
    lemma_sorted_extend(s1, n2, ts.boolean);
    lemma_bound_extend(s1, n2, ts.boolean, n3);
    lemma_bound_extend(s1, n2, ts.boolean, n4);
    lemma_bound_extend(s1, n2, ts.boolean, n5);
    lemma_bound_extend(s1, n2, ts.boolean, n6);
    lemma_bound_extend(s1, n2, ts.boolean, n7);
    let s2 = s1 + (if ts.boolean {
        seq![n2]
    } else {
        Seq::<Seq<char>>::empty()
    });
    lemma_sorted_extend(s2, n3, ts.integer);
    lemma_bound_extend(s2, n3, ts.integer, n4);
    lemma_bound_extend(s2, n3, ts.integer, n5);
    lemma_bound_extend(s2, n3, ts.integer, n6);
    lemma_bound_extend(s2, n3, ts.integer, n7);
    let s3 = s2 + (if ts.integer {
        seq![n3]
    } else {
        Seq::<Seq<char>>::empty()
    });
    lemma_sorted_extend(s3, n4, ts.null);
    lemma_bound_extend(s3, n4, ts.null, n5);
    lemma_bound_extend(s3, n4, ts.null, n6);
    lemma_bound_extend(s3, n4, ts.null, n7);
    let s4 = s3 + (if ts.null {
        seq![n4]
    } else {
        Seq::<Seq<char>>::empty()
    });
    lemma_sorted_extend(s4, n5, ts.number);
    lemma_bound_extend(s4, n5, ts.number, n6);
    lemma_bound_extend(s4, n5, ts.number, n7);
    let s5 = s4 + (if ts.number {
        seq![n5]
    } else {
        Seq::<Seq<char>>::empty()
    });
    lemma_sorted_extend(s5, n6, ts.object);
    lemma_bound_extend(s5, n6, ts.object, n7);
    let s6 = s5 + (if ts.object {
        seq![n6]
    } else {
        Seq::<Seq<char>>::empty()
    });
    lemma_sorted_extend(s6, n7, ts.string);
    let s7 = s6 + (if ts.string {
        seq![n7]
    } else {
        Seq::<Seq<char>>::empty()
    });
    assert(type_names(ts) =~= s7);
}

} // verus!

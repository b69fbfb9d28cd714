//! The two entry points: schema inference over a set of samples, and the
//! structural diff of two schema documents.

use vstd::prelude::*;

use crate::codec::{json_of, parse_json, render_doc, rendered};
use crate::emit::{schema_props, strs_of};
use crate::node::{
    build_obs, empty_node, lemma_build_obs_snoc, lemma_build_obs_wf, node_wf, observe_spec, Node,
    NodeModel,
};
use crate::paths::{
    collect_paths, diff_strings, intersect_strings, seq_diff, seq_inter, views_of, walk_paths,
};
use crate::tags::TypeTag;
use crate::value::{canonical, jv_model_pairs, jv_models, lex_lt, JsonVal, JsonValue};

verus! {

/// Why schema inference failed.
#[derive(Debug)]
pub enum InferError {
    /// A sample is not valid JSON; carries the parser's diagnostic.
    ParseError(String),
    /// The final document could not be rendered; carries the diagnostic.
    SerializeError(String),
}

/// Why the schema diff failed.
#[derive(Debug)]
pub enum DiffError {
    /// The first schema is not valid JSON; carries the diagnostic.
    ParseErrorA(String),
    /// The second schema is not valid JSON; carries the diagnostic.
    ParseErrorB(String),
    /// The result document could not be rendered; carries the diagnostic.
    SerializeError(String),
}

/// The character sequences of a vector of sample texts.
pub open spec fn sample_views(samples: Seq<String>) -> Seq<Seq<char>> {
    samples.map_values(|s: String| s@)
}

/// Every sample text is valid JSON.
pub open spec fn samples_ok(ss: Seq<Seq<char>>) -> bool {
    forall|i: int| 0 <= i < ss.len() ==> json_of(#[trigger] ss[i]) is Some
}

/// The root node after observing every sample, in order.
pub open spec fn build_root(ss: Seq<Seq<char>>) -> NodeModel {
    build_obs(empty_node(), ss)
}

/// The JSON Schema 2020-12 identifier.
pub open spec fn schema_uri() -> Seq<char> {
    "https://json-schema.org/draft/2020-12/schema"@
}

/// The `properties` value of the wrapped document: the root's rendered
/// properties, or an empty object when the root observed none.
pub open spec fn props_value(n: NodeModel) -> JsonVal {
    if n.types.object && n.props.len() > 0 {
        JsonVal::Obj(schema_props(n.props))
    } else {
        JsonVal::Obj(Seq::empty())
    }
}

/// The document that schema inference renders: `$schema` fixed to the
/// 2020-12 identifier, `type` forced to `object`, and the root's properties.
pub open spec fn infer_doc(ss: Seq<Seq<char>>) -> JsonVal {
    JsonVal::Obj(
        seq![
            ("$schema"@, JsonVal::Str(schema_uri())),
            ("properties"@, props_value(build_root(ss))),
            ("type"@, JsonVal::Str("object"@)),
        ],
    )
}

/// The path sequence of a schema document, from an empty accumulator and the
/// root prefix.
pub open spec fn paths_of(v: JsonVal) -> Seq<Seq<char>> {
    walk_paths(Seq::empty(), v, Seq::empty())
}

/// The document that the diff renders: paths of `b` not in `a` under
/// `added`, paths of both under `common`, paths of `a` not in `b` under
/// `removed`.
pub open spec fn diff_doc(a: JsonVal, b: JsonVal) -> JsonVal {
    JsonVal::Obj(
        seq![
            ("added"@, JsonVal::Arr(strs_of(seq_diff(paths_of(b), paths_of(a))))),
            ("common"@, JsonVal::Arr(strs_of(seq_inter(paths_of(a), paths_of(b))))),
            ("removed"@, JsonVal::Arr(strs_of(seq_diff(paths_of(a), paths_of(b))))),
        ],
    )
}

/// Each path as a JSON string value.
fn str_values(v: &Vec<String>) -> (r: Vec<JsonValue>)
    ensures
        jv_models(r@) == strs_of(views_of(v@)),
{
    let mut r: Vec<JsonValue> = Vec::new();
    let n = v.len();
    let mut i: usize = 0;
    proof {
        crate::value::lemma_jv_models_index(r@);
    }
    while i < n
        invariant
            n == v.len(),
            i <= n,
            r@.len() == i,
            forall|u: int|
                0 <= u < i ==> jv_models(r@)[u] == JsonVal::Str(#[trigger] views_of(v@)[u]),
        decreases n - i,
    {
        let ghost pre = r@;
        r.push(JsonValue::Str(v[i].clone()));
        proof {
            crate::value::lemma_jv_models_index(pre);
            crate::value::lemma_jv_models_index(r@);
            assert forall|u: int| 0 <= u < i + 1 implies jv_models(r@)[u] == JsonVal::Str(
                #[trigger] views_of(v@)[u],
            ) by {
                if u < i {
                    assert(r@[u] == pre[u]);
                    assert(jv_models(pre)[u] == crate::value::jv_model(pre[u]));
                } else {
                    assert(r@[u] == JsonValue::Str(v@[i as int]));
                    assert(views_of(v@)[u] == v@[u]@);
                }
            }
        }
        i += 1;
    }
    proof {
        crate::value::lemma_jv_models_index(r@);
        crate::emit::lemma_strs_of_index(views_of(v@));
        assert forall|u: int| 0 <= u < n implies jv_models(r@)[u] == strs_of(views_of(v@))[u] by {
            assert(strs_of(views_of(v@))[u] == JsonVal::Str(views_of(v@)[u]));
        }
        assert(jv_models(r@) =~= strs_of(views_of(v@)));
    }
    r
}

/// The keys of the wrapped inference document stand sorted.
proof fn lemma_infer_keys_sorted()
    ensures
        lex_lt("$schema"@, "properties"@),
        lex_lt("properties"@, "type"@),
{
    reveal_strlit("$schema");
    reveal_strlit("properties");
    reveal_strlit("type");
}

/// The keys of the diff document stand sorted.
proof fn lemma_diff_keys_sorted()
    ensures
        lex_lt("added"@, "common"@),
        lex_lt("common"@, "removed"@),
{
    reveal_strlit("added");
    reveal_strlit("common");
    reveal_strlit("removed");
}

/// The wrapped inference document is canonical.
proof fn lemma_infer_doc_canonical(ss: Seq<Seq<char>>)
    ensures
        canonical(infer_doc(ss)),
{
    lemma_infer_keys_sorted();
    lemma_build_obs_wf(empty_node(), ss);
    let root = build_root(ss);
    if root.types.object && root.props.len() > 0 {
        crate::emit::lemma_schema_props_canonical(root.props);
    }
    assert(canonical(props_value(root)));
    let entries = infer_doc(ss)->Obj_0;
    assert forall|i: int| 0 <= i < entries.len() implies canonical(#[trigger] entries[i].1) by {}
    assert(canonical(infer_doc(ss)));
}

/// The diff document is canonical.
proof fn lemma_diff_doc_canonical(a: JsonVal, b: JsonVal)
    ensures
        canonical(diff_doc(a, b)),
{
    lemma_diff_keys_sorted();
    let entries = diff_doc(a, b)->Obj_0;
    assert forall|i: int| 0 <= i < entries.len() implies canonical(#[trigger] entries[i].1) by {
        lemma_strs_canonical(seq_diff(paths_of(b), paths_of(a)));
        lemma_strs_canonical(seq_inter(paths_of(a), paths_of(b)));
        lemma_strs_canonical(seq_diff(paths_of(a), paths_of(b)));
    }
    assert(canonical(diff_doc(a, b)));
}

/// An array of strings is flat: its elements have depth zero.
proof fn lemma_strs_depth(names: Seq<Seq<char>>)
    ensures
        crate::value::depth_of_seq(strs_of(names)) == 0,
    decreases names.len(),
{
    crate::emit::lemma_strs_of_index(names);
    if names.len() > 0 {
        lemma_strs_depth(names.subrange(1, names.len() as int));
        assert(strs_of(names)[0] == JsonVal::Str(names[0]));
        assert(crate::value::depth_of(strs_of(names)[0]) == 0);
        assert(strs_of(names).subrange(1, strs_of(names).len() as int) =~= strs_of(
            names.subrange(1, names.len() as int),
        ));
    }
}

/// The diff document is two levels deep: an object of string arrays.
proof fn lemma_diff_doc_depth(a: JsonVal, b: JsonVal)
    ensures
        crate::value::depth_of(diff_doc(a, b)) <= 127,
{
    let ps = diff_doc(a, b)->Obj_0;
    lemma_strs_depth(seq_diff(paths_of(b), paths_of(a)));
    lemma_strs_depth(seq_inter(paths_of(a), paths_of(b)));
    lemma_strs_depth(seq_diff(paths_of(a), paths_of(b)));
    assert(crate::value::depth_of(ps[0].1) == 1);
    assert(crate::value::depth_of(ps[1].1) == 1);
    assert(crate::value::depth_of(ps[2].1) == 1);
    let t1 = ps.subrange(1, ps.len() as int);
    let t2 = t1.subrange(1, t1.len() as int);
    assert(t1[0] == ps[1]);
    assert(t2[0] == ps[2]);
    assert(t2.subrange(1, t2.len() as int) =~= Seq::<(Seq<char>, JsonVal)>::empty());
    assert(crate::value::depth_of_pairs(Seq::<(Seq<char>, JsonVal)>::empty()) == 0);
    assert(crate::value::depth_of_pairs(t2) == 1);
    assert(crate::value::depth_of_pairs(t1) == 1);
    assert(crate::value::depth_of_pairs(ps) == 1);
    assert(crate::value::depth_of(diff_doc(a, b)) == 2);
}

/// An array of strings is canonical.
proof fn lemma_strs_canonical(names: Seq<Seq<char>>)
    ensures
        canonical(JsonVal::Arr(strs_of(names))),
{
    crate::emit::lemma_strs_of_index(names);
    assert forall|i: int| 0 <= i < strs_of(names).len() implies canonical(
        #[trigger] strs_of(names)[i],
    ) by {
        assert(strs_of(names)[i] == JsonVal::Str(names[i]));
    }
}

/// `s` begins with `p`.
pub open spec fn starts_with(s: Seq<char>, p: Seq<char>) -> bool {
    s.len() >= p.len() && s.subrange(0, p.len() as int) == p
}

/// Sample `i` is the first that is not valid JSON.
pub open spec fn first_failure(ss: Seq<Seq<char>>, i: int) -> bool {
    &&& 0 <= i < ss.len()
    &&& json_of(ss[i]) is None
    &&& forall|j: int| 0 <= j < i ==> json_of(#[trigger] ss[j]) is Some
}

/// Builds the observation tree over a set of JSON-encoded samples.
/// Fails exactly when some sample is not valid JSON: parsing short-circuits
/// at the first invalid sample, whose diagnostic is carried after the
/// `Invalid JSON: ` prefix.
pub fn parse_samples(samples: &Vec<String>) -> (r: Result<Node, String>)
    ensures
        r is Ok <==> samples_ok(sample_views(samples@)),
        r matches Ok(node) ==> node@ == build_root(sample_views(samples@)),
        r matches Err(m) ==> (exists|i: int| first_failure(sample_views(samples@), i))
            && starts_with(m@, "Invalid JSON: "@),
{
    let ghost sv = sample_views(samples@);
    let mut root = Node::empty();
    let n = samples.len();
    let mut i: usize = 0;
    proof {
        assert(sv.take(0) =~= Seq::<Seq<char>>::empty());
    }
    while i < n
        invariant
            n == samples.len(),
            i <= n,
            sv == sample_views(samples@),
            root@ == build_obs(empty_node(), sv.take(i as int)),
            forall|j: int| 0 <= j < i ==> json_of(#[trigger] sv[j]) is Some,
        decreases n - i,
    {
        match parse_json(samples[i].as_str()) {
            Ok(jv) => {
                root.observe(&jv);
                proof {
                    assert(sv[i as int] == samples@[i as int]@);
                    assert(sv.take(i + 1) =~= sv.take(i as int).push(sv[i as int]));
                    lemma_build_obs_snoc(empty_node(), sv.take(i as int), sv[i as int]);
                }
            },
            Err(e) => {
                let mut m = "Invalid JSON: ".to_owned();
                m.append(e.as_str());
                proof {
                    assert(sv[i as int] == samples@[i as int]@);
                    assert(json_of(sv[i as int]) is None);
                    assert(first_failure(sv, i as int));
                    assert(m@.subrange(0, "Invalid JSON: "@.len() as int) =~= "Invalid JSON: "@);
                }
                return Err(m);
            },
        }
        i += 1;
    }
    proof {
        assert(sv.take(n as int) =~= sv);
    }
    Ok(root)
}

/// Infers a JSON Schema from a set of JSON-encoded samples and renders it as
/// pretty-printed text.
///
/// Succeeds exactly when every sample is valid JSON, and then returns the
/// rendering of the fully determined document `infer_doc`; within the
/// parser's nesting limit the output parses back to that document.  Fails
/// with `ParseError` carrying the first invalid sample's diagnostic;
/// `SerializeError` is never produced (rendering cannot fail) and remains
/// only to complete the error taxonomy.
pub fn infer_schema_rs(samples: &Vec<String>) -> (r: Result<String, InferError>)
    ensures
        r is Ok <==> samples_ok(sample_views(samples@)),
        r matches Ok(t) ==> t@ == rendered(infer_doc(sample_views(samples@))),
        r matches Ok(t) ==> (crate::value::depth_of(infer_doc(sample_views(samples@))) <= 127
            ==> json_of(t@) == Some(infer_doc(sample_views(samples@)))),
        r matches Err(e) ==> match e {
            InferError::ParseError(m) => (exists|i: int|
                first_failure(sample_views(samples@), i)) && starts_with(m@, "Invalid JSON: "@),
            InferError::SerializeError(_) => false,
        },
{
    let ghost sv = sample_views(samples@);
    let root = match parse_samples(samples) {
        Ok(node) => node,
        Err(e) => {
            return Err(InferError::ParseError(e));
        },
    };
    let props_doc = if root.types.has(TypeTag::Object) && root.properties.len() > 0 {
        JsonValue::Obj(crate::emit::properties_pairs(&root.properties))
    } else {
        JsonValue::Obj(Vec::new())
    };
    proof {
        if !(root@.types.object && root@.props.len() > 0) {
            assert(jv_model_pairs(props_doc->Obj_0@) =~= Seq::<(Seq<char>, JsonVal)>::empty());
        }
        assert(props_doc@ == props_value(build_root(sv)));
    }
    let mut entries: Vec<(String, JsonValue)> = Vec::new();
    entries.push((
        "$schema".to_owned(),
        JsonValue::Str("https://json-schema.org/draft/2020-12/schema".to_owned()),
    ));
    let ghost e1 = entries@;
    entries.push(("properties".to_owned(), props_doc));
    let ghost e2 = entries@;
    entries.push(("type".to_owned(), JsonValue::Str("object".to_owned())));
    let doc = JsonValue::Obj(entries);
    proof {
        crate::value::lemma_jv_model_pairs_push(Seq::empty(), e1[0]);
        assert(e1 == Seq::<(String, JsonValue)>::empty().push(e1[0]));
        crate::value::lemma_jv_model_pairs_push(e1, e2[1]);
        assert(e2 == e1.push(e2[1]));
        crate::value::lemma_jv_model_pairs_push(e2, doc->Obj_0@[2]);
        assert(doc->Obj_0@ == e2.push(doc->Obj_0@[2]));
        assert(jv_model_pairs(Seq::<(String, JsonValue)>::empty()) == Seq::<(
            Seq<char>,
            JsonVal,
        )>::empty());
        assert(jv_model_pairs(doc->Obj_0@).len() == 3);
        assert(jv_model_pairs(doc->Obj_0@)[0] == ("$schema"@, JsonVal::Str(schema_uri())));
        assert(jv_model_pairs(doc->Obj_0@)[1] == ("properties"@, props_value(build_root(sv))));
        assert(jv_model_pairs(doc->Obj_0@)[2] == ("type"@, JsonVal::Str("object"@)));
        assert(jv_model_pairs(doc->Obj_0@) =~= infer_doc(sv)->Obj_0);
        assert(doc@ =~= infer_doc(sv));
        lemma_infer_doc_canonical(sv);
    }
    match render_doc(&doc) {
        Ok(t) => Ok(t),
        Err(e) => Err(InferError::SerializeError(e)),
    }
}

/// Computes the structural diff of two JSON Schema documents and renders it
/// as pretty-printed text.
///
/// Succeeds exactly when both inputs are valid JSON, and then returns the
/// rendering of the fully determined document `diff_doc`, which parses back
/// to that document.  Fails with `ParseErrorA` when the first input is not
/// valid JSON (checked first, whatever the second holds), with `ParseErrorB`
/// when the first is valid and the second is not; each message names its
/// side.  `SerializeError` is never produced (rendering cannot fail) and
/// remains only to complete the error taxonomy.
pub fn diff_schemas_rs(a: &str, b: &str) -> (r: Result<String, DiffError>)
    ensures
        r is Ok <==> (json_of(a@) is Some && json_of(b@) is Some),
        r matches Ok(t) ==> {
            &&& t@ == rendered(diff_doc(json_of(a@)->Some_0, json_of(b@)->Some_0))
            &&& json_of(t@) == Some(diff_doc(json_of(a@)->Some_0, json_of(b@)->Some_0))
        },
        r matches Err(e) ==> match e {
            DiffError::ParseErrorA(m) => json_of(a@) is None && starts_with(
                m@,
                "schema A parse error: "@,
            ),
            DiffError::ParseErrorB(m) => json_of(a@) is Some && json_of(b@) is None
                && starts_with(m@, "schema B parse error: "@),
            DiffError::SerializeError(_) => false,
        },
{
    let va = match parse_json(a) {
        Ok(v) => v,
        Err(e) => {
            let mut m = "schema A parse error: ".to_owned();
            m.append(e.as_str());
            proof {
                assert(m@.subrange(0, "schema A parse error: "@.len() as int)
                    =~= "schema A parse error: "@);
            }
            return Err(DiffError::ParseErrorA(m));
        },
    };
    let vb = match parse_json(b) {
        Ok(v) => v,
        Err(e) => {
            let mut m = "schema B parse error: ".to_owned();
            m.append(e.as_str());
            proof {
                assert(m@.subrange(0, "schema B parse error: "@.len() as int)
                    =~= "schema B parse error: "@);
            }
            return Err(DiffError::ParseErrorB(m));
        },
    };
    let mut pa: Vec<String> = Vec::new();
    let mut pb: Vec<String> = Vec::new();
    proof {
        reveal_strlit("");
        assert(""@ =~= Seq::<char>::empty());
        assert(views_of(pa@) =~= Seq::<Seq<char>>::empty());
        assert(views_of(pb@) =~= Seq::<Seq<char>>::empty());
    }
    collect_paths(&va, "", &mut pa);
    collect_paths(&vb, "", &mut pb);
    let added = diff_strings(&pb, &pa);
    let removed = diff_strings(&pa, &pb);
    let common = intersect_strings(&pa, &pb);
    let added_vals = str_values(&added);
    let common_vals = str_values(&common);
    let removed_vals = str_values(&removed);
    let ghost ja = json_of(a@)->Some_0;
    let ghost jb = json_of(b@)->Some_0;
    let mut entries: Vec<(String, JsonValue)> = Vec::new();
    entries.push(("added".to_owned(), JsonValue::Arr(added_vals)));
    let ghost e1 = entries@;
    entries.push(("common".to_owned(), JsonValue::Arr(common_vals)));
    let ghost e2 = entries@;
    entries.push(("removed".to_owned(), JsonValue::Arr(removed_vals)));
    let doc = JsonValue::Obj(entries);
    proof {
        crate::value::lemma_jv_model_pairs_push(Seq::empty(), e1[0]);
        assert(e1 == Seq::<(String, JsonValue)>::empty().push(e1[0]));
        crate::value::lemma_jv_model_pairs_push(e1, e2[1]);
        assert(e2 == e1.push(e2[1]));
        crate::value::lemma_jv_model_pairs_push(e2, doc->Obj_0@[2]);
        assert(doc->Obj_0@ == e2.push(doc->Obj_0@[2]));
        assert(jv_model_pairs(Seq::<(String, JsonValue)>::empty()) == Seq::<(
            Seq<char>,
            JsonVal,
        )>::empty());
        assert(views_of(pa@) == paths_of(ja));
        assert(views_of(pb@) == paths_of(jb));
        assert(jv_model_pairs(doc->Obj_0@).len() == 3);
        assert(jv_model_pairs(doc->Obj_0@)[0] == (
            "added"@,
            JsonVal::Arr(strs_of(seq_diff(paths_of(jb), paths_of(ja)))),
        ));
        assert(jv_model_pairs(doc->Obj_0@)[1] == (
            "common"@,
            JsonVal::Arr(strs_of(seq_inter(paths_of(ja), paths_of(jb)))),
        ));
        assert(jv_model_pairs(doc->Obj_0@)[2] == (
            "removed"@,
            JsonVal::Arr(strs_of(seq_diff(paths_of(ja), paths_of(jb)))),
        ));
        assert(jv_model_pairs(doc->Obj_0@) =~= diff_doc(ja, jb)->Obj_0);
        assert(doc@ =~= diff_doc(ja, jb));
        lemma_diff_doc_canonical(ja, jb);
        lemma_diff_doc_depth(ja, jb);
    }
    match render_doc(&doc) {
        Ok(t) => Ok(t),
        Err(e) => Err(DiffError::SerializeError(e)),
    }
}

} // verus!

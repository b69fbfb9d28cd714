//! A self-contained JSON value type and its mathematical model.
//!
//! [`JsonValue`] holds everything the library reads of a JSON document as
//! plain values: scalars, strings, element vectors and key/value pair vectors.
//! Its model [`JsonVal`] keeps the same shape over `Seq`, so contracts can
//! speak of a document's structure directly.  A non-integral number carries no
//! payload: the library classifies numbers but never reads a fractional value.

use vstd::prelude::*;

verus! {

/// The mathematical model of a JSON document.
///
/// Object members are a sequence of key/value pairs: order and duplicates are
/// kept, so the model matches the executable representation exactly.  Values
/// decoded from text never carry duplicate keys and arrive with keys sorted.
#[verifier::ext_equal]
pub enum JsonVal {
    Null,
    Bool(bool),
    Int(i64),
    UInt(u64),
    Num,
    Str(Seq<char>),
    Arr(Seq<JsonVal>),
    Obj(Seq<(Seq<char>, JsonVal)>),
}

/// A JSON document as plain executable values.
///
/// `Int` holds numbers representable as `i64`, `UInt` the remaining numbers
/// representable as `u64`, and `Num` stands for any other (non-integral)
/// number; the fractional payload is dropped, since no operation of this
/// library reads it.
#[derive(Debug, PartialEq, Eq)]
pub enum JsonValue {
    Null,
    Bool(bool),
    Int(i64),
    UInt(u64),
    Num,
    Str(String),
    Arr(Vec<JsonValue>),
    Obj(Vec<(String, JsonValue)>),
}

/// The model of an executable JSON value.
pub open spec fn jv_model(v: JsonValue) -> JsonVal
    decreases v,
{
    match v {
        JsonValue::Null => JsonVal::Null,
        JsonValue::Bool(b) => JsonVal::Bool(b),
        JsonValue::Int(i) => JsonVal::Int(i),
        JsonValue::UInt(u) => JsonVal::UInt(u),
        JsonValue::Num => JsonVal::Num,
        JsonValue::Str(s) => JsonVal::Str(s@),
        JsonValue::Arr(es) => JsonVal::Arr(jv_models(es@)),
        JsonValue::Obj(ps) => JsonVal::Obj(jv_model_pairs(ps@)),
    }
}

/// The models of a sequence of executable JSON values, element-wise.
pub open spec fn jv_models(es: Seq<JsonValue>) -> Seq<JsonVal>
    decreases es,
{
    if es.len() == 0 {
        Seq::empty()
    } else {
        seq![jv_model(es[0])] + jv_models(es.subrange(1, es.len() as int))
    }
}

/// The models of a sequence of executable key/value pairs, element-wise.
pub open spec fn jv_model_pairs(ps: Seq<(String, JsonValue)>) -> Seq<(Seq<char>, JsonVal)>
    decreases ps,
{
    if ps.len() == 0 {
        Seq::empty()
    } else {
        seq![(ps[0].0@, jv_model(ps[0].1))] + jv_model_pairs(ps.subrange(1, ps.len() as int))
    }
}

/// Element-wise reading of [`jv_models`].
pub proof fn lemma_jv_models_index(es: Seq<JsonValue>)
    ensures
        jv_models(es).len() == es.len(),
        forall|i: int| 0 <= i < es.len() ==> jv_models(es)[i] == jv_model(#[trigger] es[i]),
    decreases es,
{
    if es.len() > 0 {
        let tail = es.subrange(1, es.len() as int);
        lemma_jv_models_index(tail);
        assert forall|i: int| 0 <= i < es.len() implies jv_models(es)[i] == jv_model(
            #[trigger] es[i],
        ) by {
            if i >= 1 {
                assert(tail[i - 1] == es[i]);
            }
        }
    }
}

/// Element-wise reading of [`jv_model_pairs`].
pub proof fn lemma_jv_model_pairs_index(ps: Seq<(String, JsonValue)>)
    ensures
        jv_model_pairs(ps).len() == ps.len(),
        forall|i: int|
            0 <= i < ps.len() ==> jv_model_pairs(ps)[i] == (
                #[trigger] ps[i].0@,
                jv_model(ps[i].1),
            ),
    decreases ps,
{
    if ps.len() > 0 {
        let tail = ps.subrange(1, ps.len() as int);
        lemma_jv_model_pairs_index(tail);
        assert forall|i: int| 0 <= i < ps.len() implies jv_model_pairs(ps)[i] == (
            #[trigger] ps[i].0@,
            jv_model(ps[i].1),
        ) by {
            if i >= 1 {
                assert(tail[i - 1] == ps[i]);
            }
        }
    }
}

impl View for JsonValue {
    type V = JsonVal;

    open spec fn view(&self) -> JsonVal {
        jv_model(*self)
    }
}

/// [`jv_model_pairs`] maps a push through, element-wise.
pub proof fn lemma_jv_model_pairs_push(s: Seq<(String, JsonValue)>, x: (String, JsonValue))
    ensures
        jv_model_pairs(s.push(x)) == jv_model_pairs(s).push((x.0@, jv_model(x.1))),
{
    lemma_jv_model_pairs_index(s);
    lemma_jv_model_pairs_index(s.push(x));
    let lhs = jv_model_pairs(s.push(x));
    let rhs = jv_model_pairs(s).push((x.0@, jv_model(x.1)));
    assert forall|t: int| 0 <= t < s.len() + 1 implies lhs[t] == rhs[t] by {
        assert(lhs[t] == (s.push(x)[t].0@, jv_model(s.push(x)[t].1)));
        if t < s.len() {
            assert(s.push(x)[t] == s[t]);
            assert(jv_model_pairs(s)[t] == (s[t].0@, jv_model(s[t].1)));
        } else {
            assert(s.push(x)[t] == x);
        }
    }
    assert(lhs =~= rhs);
}

/// [`jv_model_pairs`] distributes over concatenation.
pub proof fn lemma_jv_model_pairs_concat(a: Seq<(String, JsonValue)>, b: Seq<(String, JsonValue)>)
    ensures
        jv_model_pairs(a + b) == jv_model_pairs(a) + jv_model_pairs(b),
{
    lemma_jv_model_pairs_index(a);
    lemma_jv_model_pairs_index(b);
    lemma_jv_model_pairs_index(a + b);
    let lhs = jv_model_pairs(a + b);
    let rhs = jv_model_pairs(a) + jv_model_pairs(b);
    assert forall|t: int| 0 <= t < a.len() + b.len() implies lhs[t] == rhs[t] by {
        assert(lhs[t] == ((a + b)[t].0@, jv_model((a + b)[t].1)));
        if t < a.len() {
            assert((a + b)[t] == a[t]);
            assert(jv_model_pairs(a)[t] == (a[t].0@, jv_model(a[t].1)));
        } else {
            assert((a + b)[t] == b[t - a.len()]);
            assert(jv_model_pairs(b)[t - a.len()] == (b[t - a.len()].0@, jv_model(
                b[t - a.len()].1,
            )));
        }
    }
    assert(lhs =~= rhs);
}

/// Strict lexicographic order on character sequences, by code point.
pub open spec fn lex_lt(a: Seq<char>, b: Seq<char>) -> bool
    decreases a.len(),
{
    if b.len() == 0 {
        false
    } else if a.len() == 0 {
        true
    } else if a[0] == b[0] {
        lex_lt(a.drop_first(), b.drop_first())
    } else {
        (a[0] as int) < (b[0] as int)
    }
}

/// `lex_lt` is irreflexive.
pub proof fn lemma_lex_lt_irrefl(a: Seq<char>)
    ensures
        !lex_lt(a, a),
    decreases a.len(),
{
    if a.len() > 0 {
        lemma_lex_lt_irrefl(a.drop_first());
    }
}

/// `lex_lt` is transitive.
pub proof fn lemma_lex_lt_trans(a: Seq<char>, b: Seq<char>, c: Seq<char>)
    requires
        lex_lt(a, b),
        lex_lt(b, c),
    ensures
        lex_lt(a, c),
    decreases a.len(),
{
    if a.len() > 0 && b.len() > 0 && c.len() > 0 && a[0] == b[0] && b[0] == c[0] {
        lemma_lex_lt_trans(a.drop_first(), b.drop_first(), c.drop_first());
    }
}

/// `lex_lt` is total: two sequences are equal or ordered one way.
pub proof fn lemma_lex_lt_total(a: Seq<char>, b: Seq<char>)
    ensures
        a == b || lex_lt(a, b) || lex_lt(b, a),
    decreases a.len(),
{
    if a.len() == 0 && b.len() == 0 {
        assert(a =~= b);
    } else if a.len() > 0 && b.len() > 0 && a[0] == b[0] {
        lemma_lex_lt_total(a.drop_first(), b.drop_first());
        if a.drop_first() == b.drop_first() {
            assert(a.drop_first().len() == a.len() - 1);
            assert(b.drop_first().len() == b.len() - 1);
            assert(a.len() == b.len());
            assert forall|i: int| 0 <= i < a.len() implies a[i] == b[i] by {
                if i >= 1 {
                    assert(a.drop_first()[i - 1] == a[i]);
                    assert(b.drop_first()[i - 1] == b[i]);
                    assert(a.drop_first()[i - 1] == b.drop_first()[i - 1]);
                }
            }
            assert(a =~= b);
        }
    }
}

/// Relies on `str`'s `<` (its `Ord` impl): `&str` compares lexicographically
/// by byte, which over UTF-8 text coincides with the lexicographic order of
/// the character sequences by code point.
#[verifier::external_body]
pub fn string_lt(a: &String, b: &String) -> (r: bool)
    ensures
        r == lex_lt(a@, b@),
{
    a.as_str() < b.as_str()
}

/// A value in the canonical form in which this library renders documents:
/// no number variant whose payload was dropped, integers in the canonically
/// signed variant, and every object's keys strictly sorted.
pub open spec fn canonical(v: JsonVal) -> bool
    decreases v,
{
    match v {
        JsonVal::Num => false,
        JsonVal::UInt(u) => u > i64::MAX,
        JsonVal::Arr(es) => forall|i: int| 0 <= i < es.len() ==> canonical(#[trigger] es[i]),
        JsonVal::Obj(ps) => {
            &&& forall|i: int| 0 <= i < ps.len() ==> canonical(#[trigger] ps[i].1)
            &&& forall|i: int|
                0 <= i && i + 1 < ps.len() ==> lex_lt(ps[i].0, #[trigger] ps[i + 1].0)
        },
        _ => true,
    }
}

/// The value at key `k` among object members `ps`: the first match, if any.
pub open spec fn obj_lookup(ps: Seq<(Seq<char>, JsonVal)>, k: Seq<char>) -> Option<JsonVal>
    decreases ps.len(),
{
    if ps.len() == 0 {
        None
    } else if ps[0].0 == k {
        Some(ps[0].1)
    } else {
        obj_lookup(ps.drop_first(), k)
    }
}


/// Nesting depth of a document: scalars and strings are flat, each array or
/// object level adds one.
pub open spec fn depth_of(v: JsonVal) -> nat
    decreases v, 1int,
{
    match v {
        JsonVal::Arr(es) => 1 + depth_of_seq(es),
        JsonVal::Obj(ps) => 1 + depth_of_pairs(ps),
        _ => 0,
    }
}

/// The largest depth among the elements of `es`.
pub open spec fn depth_of_seq(es: Seq<JsonVal>) -> nat
    decreases es, 0int,
{
    if es.len() == 0 {
        0
    } else if depth_of(es[0]) > depth_of_seq(es.subrange(1, es.len() as int)) {
        depth_of(es[0])
    } else {
        depth_of_seq(es.subrange(1, es.len() as int))
    }
}

/// The largest depth among the member values of `ps`.
pub open spec fn depth_of_pairs(ps: Seq<(Seq<char>, JsonVal)>) -> nat
    decreases ps, 0int,
{
    if ps.len() == 0 {
        0
    } else if depth_of(ps[0].1) > depth_of_pairs(ps.subrange(1, ps.len() as int)) {
        depth_of(ps[0].1)
    } else {
        depth_of_pairs(ps.subrange(1, ps.len() as int))
    }
}

} // verus!

//! JSON text to and from [`Json`] trees.
//!
//! Parsing and printing are done by serde_json; everything this module
//! assumes about it is collected in a few small trusted items, each of which
//! names the serde_json function it relies on. The crate is built with
//! serde_json's `preserve_order` feature (object members keep their order)
//! and `arbitrary_precision` feature (a number is carried as its token text),
//! so a text-faithful tree (see `text_faithful`: well formed, free of the
//! reserved number key, nested within the parser's recursion limit) passes
//! through text unchanged.
use vstd::prelude::*;

use serde_json::Value;

use crate::MobiledocError;
use crate::json::{Json, JsonV, is_number_token, json_view, json_views, json_pair_views,
    lemma_json_views, lemma_json_pair_views, lemma_nums_ok_obj_intro, lemma_obj_keys_distinct,
    lemma_wf_arr_child, lemma_wf_arr_intro, lemma_wf_obj_child, nums_ok, spec_number_token,
    text_faithful, wf_jsonv};

verus! {

#[verifier::external_type_specification]
#[verifier::external_body]
pub struct ExValue(Value);

/// The tree that a `serde_json::Value` holds, as a [`JsonV`]; a number is
/// taken as its stored token text, an object as its members in order.
pub uninterp spec fn value_model(v: Value) -> JsonV;

/// The structural size of a `serde_json::Value`, used only as a recursion
/// measure: [`value_parts`] states that a child is smaller than its parent.
pub uninterp spec fn value_size(v: Value) -> nat;

/// What `serde_json::from_str::<Value>` returns for a given text: `None`
/// where it fails, otherwise the model of the parsed tree. The result
/// depends on the text alone.
pub uninterp spec fn parse_result(s: Seq<char>) -> Option<JsonV>;

/// The text that `serde_json::to_string` produces for a `Value` with the
/// given model: the compact canonical rendering. The bytes depend only on
/// the model (token-text numbers, ordered members, deterministic escaping),
/// so equal trees always render to identical text.
pub uninterp spec fn render_result(j: JsonV) -> Seq<char>;

/// One level of a `Value`, with plain-value leaves.
pub(crate) enum ValueParts {
    Null,
    Bool(bool),
    Num(String),
    Str(String),
    Arr(Vec<Value>),
    Obj(Vec<(String, Value)>),
}

/// The model of a destructured level, each child taken by [`value_model`].
pub(crate) open spec fn parts_model(p: ValueParts) -> JsonV {
    match p {
        ValueParts::Null => JsonV::Null,
        ValueParts::Bool(b) => JsonV::Bool(b),
        ValueParts::Num(s) => JsonV::Num(s@),
        ValueParts::Str(s) => JsonV::Str(s@),
        ValueParts::Arr(vs) => JsonV::Arr(vs@.map_values(|v: Value| value_model(v))),
        ValueParts::Obj(ps) => JsonV::Obj(
            ps@.map_values(|p: (String, Value)| (p.0@, value_model(p.1))),
        ),
    }
}

/// Whether the keys of a pair list are pairwise distinct.
pub(crate) open spec fn distinct_key_views(ps: Seq<(String, Value)>) -> bool {
    forall|i: int, k: int| 0 <= i < k < ps.len() ==> (#[trigger] ps[i].0@) != (#[trigger] ps[k].0@)
}

/// Relies on `serde_json::Value::Null`: the null JSON value.
#[verifier::external_body]
fn value_null() -> (r: Value)
    ensures
        value_model(r) == JsonV::Null,
{
    Value::Null
}

/// Relies on `serde_json::Value::Bool`: a JSON boolean.
#[verifier::external_body]
fn value_bool(b: bool) -> (r: Value)
    ensures
        value_model(r) == JsonV::Bool(b),
{
    Value::Bool(b)
}

/// Relies on `serde_json::Number`'s `FromStr`: on a token in normalized JSON
/// number form it succeeds, and with the `arbitrary_precision` feature the
/// number stores exactly that text (an in-range integer is re-rendered by
/// itoa, which gives the same digits back).
#[verifier::external_body]
fn value_num(s: &String) -> (r: Value)
    requires
        spec_number_token(s@),
    ensures
        value_model(r) == JsonV::Num(s@),
{
    Value::Number(s.parse().unwrap())
}

/// Relies on `serde_json::Value::String`: a JSON string holding this text.
#[verifier::external_body]
fn value_str(s: String) -> (r: Value)
    ensures
        value_model(r) == JsonV::Str(s@),
{
    Value::String(s)
}

/// Relies on `serde_json::Value::Array`: a JSON array of these elements in
/// this order.
#[verifier::external_body]
fn value_arr(items: Vec<Value>) -> (r: Value)
    ensures
        value_model(r) == JsonV::Arr(items@.map_values(|v: Value| value_model(v))),
{
    Value::Array(items)
}

/// Relies on `serde_json::Map`'s `FromIterator`: with the `preserve_order`
/// feature the map keeps insertion order, so with pairwise distinct keys the
/// members come out exactly as they went in.
#[verifier::external_body]
fn value_obj(pairs: Vec<(String, Value)>) -> (r: Value)
    ensures
        distinct_key_views(pairs@) ==> value_model(r) == JsonV::Obj(
            pairs@.map_values(|p: (String, Value)| (p.0@, value_model(p.1))),
        ),
{
    Value::Object(pairs.into_iter().collect())
}

/// Relies on matching `serde_json::Value`'s six variants one for one; the
/// number's text is its `Display` form, which with `arbitrary_precision` is
/// the stored token, and the map iterates its members in order
/// (`preserve_order`). Each child of an array or object is structurally
/// smaller than its parent, which [`value_size`] records.
#[verifier::external_body]
fn value_parts(v: Value) -> (r: ValueParts)
    ensures
        parts_model(r) == value_model(v),
        r matches ValueParts::Arr(vs) ==> forall|i: int|
            0 <= i < vs@.len() ==> value_size(#[trigger] vs@[i]) < value_size(v),
        r matches ValueParts::Obj(ps) ==> forall|i: int|
            0 <= i < ps@.len() ==> value_size(#[trigger] ps@[i].1) < value_size(v),
{
    match v {
        Value::Null => ValueParts::Null,
        Value::Bool(b) => ValueParts::Bool(b),
        Value::Number(n) => ValueParts::Num(n.to_string()),
        Value::String(s) => ValueParts::Str(s),
        Value::Array(a) => ValueParts::Arr(a),
        Value::Object(m) => ValueParts::Obj(m.into_iter().collect()),
    }
}

/// Relies on `serde_json::from_str::<Value>`: it fails exactly where
/// [`parse_result`] is `None` and otherwise returns the tree that
/// [`parse_result`] gives; the error's message is passed along.
#[verifier::external_body]
fn text_to_value(s: &str) -> (r: Result<Value, String>)
    ensures
        r matches Ok(v) ==> parse_result(s@) == Some(value_model(v)),
        r is Err <==> parse_result(s@) is None,
{
    serde_json::from_str::<Value>(s).map_err(|e| e.to_string())
}

/// Relies on `serde_json::to_string`: its output is a function of the
/// `Value`'s model alone, named [`render_result`]; on a well-formed model
/// it succeeds; and on a text-faithful model, parsing the produced text
/// gives an equal tree back — `preserve_order` keeps member order,
/// `arbitrary_precision` writes each number token verbatim, and string
/// escaping round-trips. The parse-back claim needs all of
/// [`text_faithful`]: an object keyed by the reserved number key is read
/// back as a number, and the parser stops at its recursion limit while the
/// printer has none.
#[verifier::external_body]
fn value_to_text(v: &Value) -> (r: Result<String, String>)
    ensures
        r is Err ==> !wf_jsonv(value_model(*v)),
        r matches Ok(s) ==> s@ == render_result(value_model(*v)),
        r matches Ok(s) ==> text_faithful(value_model(*v)) ==> parse_result(s@) == Some(
            value_model(*v),
        ),
{
    serde_json::to_string(v).map_err(|e| e.to_string())
}

/// Builds the `serde_json` tree for `j`; `None` exactly when some number in
/// `j` is not a normalized token.
#[verifier::loop_isolation(false)]
fn json_to_value(j: &Json) -> (r: Option<Value>)
    ensures
        r is Some <==> nums_ok(j@),
        r matches Some(v) ==> wf_jsonv(j@) ==> value_model(v) == j@,
    decreases *j,
{
    match j {
        Json::Null => Some(value_null()),
        Json::Bool(b) => Some(value_bool(*b)),
        Json::Num(s) => {
            if is_number_token(s.as_str()) {
                Some(value_num(s))
            } else {
                None
            }
        },
        Json::Str(s) => Some(value_str(s.clone())),
        Json::Arr(items) => {
            proof {
                lemma_json_views(items@);
                assert(j@ == JsonV::Arr(json_views(items@)));
            }
            let mut out: Vec<Value> = Vec::new();
            let mut i: usize = 0;
            while i < items.len()
                invariant
                    0 <= i <= items@.len(),
                    out@.len() == i,
                    forall|k: int| 0 <= k < i ==> nums_ok(json_view(#[trigger] items@[k])),
                    wf_jsonv(j@) ==> forall|k: int|
                        0 <= k < i ==> value_model(#[trigger] out@[k]) == json_view(items@[k]),
                decreases items@.len() - i,
            {
                proof {
                    assert(decreases_to!(*j => *items));
                    assert(decreases_to!(*items => items@));
                    assert(decreases_to!(items@ => items@[i as int]));
                    assert(json_views(items@)[i as int] == json_view(items@[i as int]));
                    lemma_wf_arr_child(json_views(items@), i as int);
                }
                match json_to_value(&items[i]) {
                    Some(v) => out.push(v),
                    None => {
                        proof {
                            assert(json_views(items@)[i as int] == json_view(items@[i as int]));
                            lemma_wf_arr_child(json_views(items@), i as int);
                            assert(!nums_ok(j@));
                        }
                        return None;
                    },
                }
                i = i + 1;
            }
            proof {
                assert forall|k: int| 0 <= k < json_views(items@).len() implies nums_ok(
                    #[trigger] json_views(items@)[k],
                ) by {
                    assert(json_views(items@)[k] == json_view(items@[k]));
                }
                lemma_wf_arr_intro(json_views(items@));
                assert(nums_ok(j@));
                if wf_jsonv(j@) {
                    assert forall|k: int| 0 <= k < items@.len() implies out@.map_values(
                        |v: Value| value_model(v),
                    )[k] == json_views(items@)[k] by {
                        assert(json_views(items@)[k] == json_view(items@[k]));
                        assert(value_model(out@[k]) == json_view(items@[k]));
                    }
                    assert(out@.map_values(|v: Value| value_model(v)) =~= json_views(items@));
                }
            }
            Some(value_arr(out))
        },
        Json::Obj(pairs) => {
            proof {
                lemma_json_pair_views(pairs@);
                assert(j@ == JsonV::Obj(json_pair_views(pairs@)));
            }
            let mut out: Vec<(String, Value)> = Vec::new();
            let mut i: usize = 0;
            while i < pairs.len()
                invariant
                    0 <= i <= pairs@.len(),
                    out@.len() == i,
                    forall|k: int| 0 <= k < i ==> nums_ok(json_view(#[trigger] pairs@[k].1)),
                    forall|k: int| 0 <= k < i ==> (#[trigger] out@[k].0)@ == pairs@[k].0@,
                    wf_jsonv(j@) ==> forall|k: int|
                        0 <= k < i ==> value_model(#[trigger] out@[k].1) == json_view(
                            pairs@[k].1,
                        ),
                decreases pairs@.len() - i,
            {
                proof {
                    assert(decreases_to!(*j => *pairs));
                    assert(decreases_to!(*pairs => pairs@));
                    assert(decreases_to!(pairs@ => pairs@[i as int]));
                    assert(decreases_to!(pairs@[i as int] => pairs@[i as int].1));
                    assert(json_pair_views(pairs@)[i as int] == (
                        pairs@[i as int].0@,
                        json_view(pairs@[i as int].1),
                    ));
                    lemma_wf_obj_child(json_pair_views(pairs@), i as int);
                }
                let key = pairs[i].0.clone();
                match json_to_value(&pairs[i].1) {
                    Some(v) => out.push((key, v)),
                    None => {
                        proof {
                            assert(json_pair_views(pairs@)[i as int] == (
                                pairs@[i as int].0@,
                                json_view(pairs@[i as int].1),
                            ));
                            lemma_wf_obj_child(json_pair_views(pairs@), i as int);
                            assert(!nums_ok(j@));
                        }
                        return None;
                    },
                }
                i = i + 1;
            }
            proof {
                assert forall|k: int| 0 <= k < json_pair_views(pairs@).len() implies nums_ok(
                    (#[trigger] json_pair_views(pairs@)[k]).1,
                ) by {
                    assert(json_pair_views(pairs@)[k] == (pairs@[k].0@, json_view(pairs@[k].1)));
                }
                lemma_nums_ok_obj_intro(json_pair_views(pairs@));
                assert(nums_ok(j@));
                if wf_jsonv(j@) {
                    assert forall|a: int, b: int| 0 <= a < b < out@.len() implies (
                    #[trigger] out@[a].0)@ != (#[trigger] out@[b].0)@ by {
                        assert(json_pair_views(pairs@)[a].0 == pairs@[a].0@);
                        assert(json_pair_views(pairs@)[b].0 == pairs@[b].0@);
                        lemma_obj_keys_distinct(json_pair_views(pairs@), a, b);
                    }
                    assert(distinct_key_views(out@));
                    assert forall|k: int| 0 <= k < pairs@.len() implies out@.map_values(
                        |p: (String, Value)| (p.0@, value_model(p.1)),
                    )[k] == json_pair_views(pairs@)[k] by {
                        assert(json_pair_views(pairs@)[k] == (
                            pairs@[k].0@,
                            json_view(pairs@[k].1),
                        ));
                    }
                    assert(out@.map_values(|p: (String, Value)| (p.0@, value_model(p.1)))
                        =~= json_pair_views(pairs@));
                }
            }
            Some(value_obj(out))
        },
    }
}

/// Rebuilds the [`Json`] tree that a `serde_json::Value` holds.
#[verifier::loop_isolation(false)]
fn value_to_json(v: Value) -> (r: Json)
    ensures
        r@ == value_model(v),
    decreases value_size(v),
{
    match value_parts(v) {
        ValueParts::Null => Json::Null,
        ValueParts::Bool(b) => Json::Bool(b),
        ValueParts::Num(s) => Json::Num(s),
        ValueParts::Str(s) => Json::Str(s),
        ValueParts::Arr(mut vs) => {
            let ghost orig = vs@;
            let mut out: Vec<Json> = Vec::new();
            while vs.len() > 0
                invariant
                    out@.len() + vs@.len() == orig.len(),
                    vs@ =~= orig.subrange(out@.len() as int, orig.len() as int),
                    forall|k: int| 0 <= k < out@.len() ==> (#[trigger] out@[k])@ == value_model(
                        orig[k],
                    ),
                decreases vs@.len(),
            {
                let ghost i = out@.len() as int;
                let child = vs.remove(0);
                proof {
                    assert(child == orig[i]);
                    assert(vs@ =~= orig.subrange(i + 1, orig.len() as int));
                }
                out.push(value_to_json(child));
            }
            proof {
                lemma_json_views(out@);
                assert forall|k: int| 0 <= k < orig.len() implies json_views(out@)[k]
                    == orig.map_values(|x: Value| value_model(x))[k] by {
                    assert(json_views(out@)[k] == json_view(out@[k]));
                    assert((out@[k])@ == value_model(orig[k]));
                }
                assert(json_views(out@) =~= orig.map_values(|x: Value| value_model(x)));
            }
            Json::Arr(out)
        },
        ValueParts::Obj(mut ps) => {
            let ghost orig = ps@;
            let mut out: Vec<(String, Json)> = Vec::new();
            while ps.len() > 0
                invariant
                    out@.len() + ps@.len() == orig.len(),
                    ps@ =~= orig.subrange(out@.len() as int, orig.len() as int),
                    forall|k: int| 0 <= k < out@.len() ==> (#[trigger] out@[k]).0@ == orig[k].0@
                        && out@[k].1@ == value_model(orig[k].1),
                decreases ps@.len(),
            {
                let ghost i = out@.len() as int;
                let child = ps.remove(0);
                proof {
                    assert(child == orig[i]);
                    assert(ps@ =~= orig.subrange(i + 1, orig.len() as int));
                }
                let cj = value_to_json(child.1);
                out.push((child.0, cj));
            }
            proof {
                lemma_json_pair_views(out@);
                assert forall|k: int| 0 <= k < orig.len() implies json_pair_views(out@)[k]
                    == orig.map_values(|p: (String, Value)| (p.0@, value_model(p.1)))[k] by {
                    assert(json_pair_views(out@)[k] == (out@[k].0@, json_view(out@[k].1)));
                    assert((out@[k]).0@ == orig[k].0@ && out@[k].1@ == value_model(orig[k].1));
                }
                assert(json_pair_views(out@) =~= orig.map_values(
                    |p: (String, Value)| (p.0@, value_model(p.1)),
                ));
            }
            Json::Obj(out)
        },
    }
}

/// Renders a tree as compact JSON text. A well-formed tree (see
/// [`wf_jsonv`]) renders, to text that is a function of the tree alone; a
/// text-faithful tree (see [`text_faithful`]) renders to text that parses
/// back to an equal tree; a tree holding a number that is not a normalized
/// token cannot be rendered.
pub fn json_to_text(j: &Json) -> (r: Result<String, MobiledocError>)
    ensures
        wf_jsonv(j@) ==> r is Ok,
        r matches Ok(s) ==> wf_jsonv(j@) ==> s@ == render_result(j@),
        r matches Ok(s) ==> text_faithful(j@) ==> parse_result(s@) == Some(j@),
        !nums_ok(j@) ==> r is Err,
        r matches Err(e) ==> e == MobiledocError::EncodingFailure,
{
    match json_to_value(j) {
        Some(v) => match value_to_text(&v) {
            Ok(s) => Ok(s),
            Err(_) => Err(MobiledocError::EncodingFailure),
        },
        None => Err(MobiledocError::EncodingFailure),
    }
}

/// Parses JSON text into a tree; fails exactly where serde_json's parser
/// fails, carrying its message.
pub fn json_from_text(s: &str) -> (r: Result<Json, MobiledocError>)
    ensures
        r matches Ok(j) ==> parse_result(s@) == Some(j@),
        r is Err <==> parse_result(s@) is None,
        r matches Err(e) ==> e is InvalidInput,
{
    match text_to_value(s) {
        Ok(v) => Ok(value_to_json(v)),
        Err(msg) => Err(MobiledocError::InvalidInput(msg)),
    }
}

} // verus!

//! A JSON tree with plain-value leaves.
//!
//! `Json` is the library's representation of an arbitrary JSON value: atom and
//! card payloads and every `sections` entry of a document are such trees, and
//! the whole document codec goes through them. Numbers are carried as their
//! wire token text, in the normalized form defined by [`spec_number_token`]
//! (lowercase `e`, explicit exponent sign, no leading zeros, no bare `-0`),
//! which is exactly the form the text layer preserves verbatim.
use vstd::prelude::*;

verus! {

/// An arbitrary JSON value. Object members keep their order; nothing
/// forbids duplicate keys in an `Obj`, but only text-faithful trees (see
/// [`text_faithful`]) round-trip through text.
#[derive(Debug, PartialEq, Eq)]
pub enum Json {
    Null,
    Bool(bool),
    /// A number, as its wire token text (for example `"42"` or `"-1.5e+3"`).
    Num(String),
    Str(String),
    Arr(Vec<Json>),
    Obj(Vec<(String, Json)>),
}

/// The mathematical model of a [`Json`] tree.
pub enum JsonV {
    Null,
    Bool(bool),
    Num(Seq<char>),
    Str(Seq<char>),
    Arr(Seq<JsonV>),
    Obj(Seq<(Seq<char>, JsonV)>),
}

/// The model of a [`Json`] tree: the same shape over `Seq` and `Seq<char>`.
pub open spec fn json_view(j: Json) -> JsonV
    decreases j,
    via json_view_decreases
{
    match j {
        Json::Null => JsonV::Null,
        Json::Bool(b) => JsonV::Bool(b),
        Json::Num(s) => JsonV::Num(s@),
        Json::Str(s) => JsonV::Str(s@),
        Json::Arr(items) => JsonV::Arr(json_views(items@)),
        Json::Obj(pairs) => JsonV::Obj(json_pair_views(pairs@)),
    }
}

/// The models of a sequence of trees, in order.
pub open spec fn json_views(items: Seq<Json>) -> Seq<JsonV>
    decreases items,
{
    if items.len() == 0 {
        Seq::empty()
    } else {
        seq![json_view(items[0])] + json_views(items.subrange(1, items.len() as int))
    }
}

/// The models of a sequence of key/value pairs, in order.
pub open spec fn json_pair_views(pairs: Seq<(String, Json)>) -> Seq<(Seq<char>, JsonV)>
    decreases pairs,
{
    if pairs.len() == 0 {
        Seq::empty()
    } else {
        seq![(pairs[0].0@, json_view(pairs[0].1))] + json_pair_views(
            pairs.subrange(1, pairs.len() as int),
        )
    }
}

#[via_fn]
proof fn json_view_decreases(j: Json) {
    match j {
        Json::Arr(items) => {
            assert(decreases_to!(j => items));
            assert(decreases_to!(items => items@));
        },
        Json::Obj(pairs) => {
            assert(decreases_to!(j => pairs));
            assert(decreases_to!(pairs => pairs@));
        },
        _ => {},
    }
}

/// `json_views` is the pointwise model of its argument.
pub proof fn lemma_json_views(items: Seq<Json>)
    ensures
        json_views(items).len() == items.len(),
        forall|i: int| 0 <= i < items.len() ==> json_views(items)[i] == json_view(
            #[trigger] items[i],
        ),
    decreases items.len(),
{
    if items.len() > 0 {
        let rest = items.subrange(1, items.len() as int);
        lemma_json_views(rest);
        assert forall|i: int| 0 <= i < items.len() implies json_views(items)[i] == json_view(
            #[trigger] items[i],
        ) by {
            if i > 0 {
                assert(rest[i - 1] == items[i]);
                assert(json_views(items)[i] == json_views(rest)[i - 1]);
            }
        }
    }
}

/// `json_pair_views` keeps each key and models each value, pointwise.
pub proof fn lemma_json_pair_views(pairs: Seq<(String, Json)>)
    ensures
        json_pair_views(pairs).len() == pairs.len(),
        forall|i: int| 0 <= i < pairs.len() ==> json_pair_views(pairs)[i] == ((
        #[trigger] pairs[i]).0@, json_view(pairs[i].1)),
    decreases pairs.len(),
{
    if pairs.len() > 0 {
        let rest = pairs.subrange(1, pairs.len() as int);
        lemma_json_pair_views(rest);
        assert forall|i: int| 0 <= i < pairs.len() implies json_pair_views(pairs)[i] == ((
        #[trigger] pairs[i]).0@, json_view(pairs[i].1)) by {
            if i > 0 {
                assert(rest[i - 1] == pairs[i]);
                assert(json_pair_views(pairs)[i] == json_pair_views(rest)[i - 1]);
            }
        }
    }
}

impl View for Json {
    type V = JsonV;

    open spec fn view(&self) -> JsonV {
        json_view(*self)
    }
}

impl Clone for Json {
    /// A deep copy with the same model.
    #[verifier::loop_isolation(false)]
    fn clone(&self) -> (res: Json)
        ensures
            res@ == self@,
        decreases *self,
    {
        match self {
            Json::Null => Json::Null,
            Json::Bool(b) => Json::Bool(*b),
            Json::Num(s) => Json::Num(s.clone()),
            Json::Str(s) => Json::Str(s.clone()),
            Json::Arr(items) => {
                proof {
                    lemma_json_views(items@);
                }
                let mut out: Vec<Json> = Vec::new();
                let mut i: usize = 0;
                while i < items.len()
                    invariant
                        0 <= i <= items@.len(),
                        out@.len() == i,
                        forall|k: int| 0 <= k < i ==> (#[trigger] out@[k])@ == json_view(
                            items@[k],
                        ),
                    decreases items@.len() - i,
                {
                    proof {
                        assert(decreases_to!(*self => *items));
                        assert(decreases_to!(*items => items@));
                        assert(decreases_to!(items@ => items@[i as int]));
                    }
                    out.push(items[i].clone());
                    i = i + 1;
                }
                proof {
                    lemma_json_views(out@);
                    assert forall|k: int| 0 <= k < out@.len() implies json_views(out@)[k]
                        == json_views(items@)[k] by {
                        assert(json_views(out@)[k] == json_view(out@[k]));
                        assert(json_views(items@)[k] == json_view(items@[k]));
                    }
                    assert(json_views(out@) =~= json_views(items@));
                }
                Json::Arr(out)
            },
            Json::Obj(pairs) => {
                proof {
                    lemma_json_pair_views(pairs@);
                }
                let mut out: Vec<(String, Json)> = Vec::new();
                let mut i: usize = 0;
                while i < pairs.len()
                    invariant
                        0 <= i <= pairs@.len(),
                        out@.len() == i,
                        forall|k: int| 0 <= k < i ==> (#[trigger] out@[k]).0@ == pairs@[k].0@
                            && out@[k].1@ == json_view(pairs@[k].1),
                    decreases pairs@.len() - i,
                {
                    proof {
                        assert(decreases_to!(*self => *pairs));
                        assert(decreases_to!(*pairs => pairs@));
                        assert(decreases_to!(pairs@ => pairs@[i as int]));
                        assert(decreases_to!(pairs@[i as int] => pairs@[i as int].1));
                    }
                    let key = pairs[i].0.clone();
                    let val = pairs[i].1.clone();
                    out.push((key, val));
                    i = i + 1;
                }
                proof {
                    lemma_json_pair_views(out@);
                    assert forall|k: int| 0 <= k < out@.len() implies json_pair_views(out@)[k]
                        == json_pair_views(pairs@)[k] by {
                        assert(json_pair_views(out@)[k] == (out@[k].0@, json_view(out@[k].1)));
                        assert(json_pair_views(pairs@)[k] == (
                            pairs@[k].0@,
                            json_view(pairs@[k].1),
                        ));
                    }
                    assert(json_pair_views(out@) =~= json_pair_views(pairs@));
                }
                Json::Obj(out)
            },
        }
    }
}

impl DeepView for Json {
    type V = JsonV;

    open spec fn deep_view(&self) -> JsonV {
        self.view()
    }
}

pub open spec fn is_digit(c: char) -> bool {
    48 <= c as u32 <= 57
}

/// The first index at or after `i` that does not hold a decimal digit.
pub open spec fn spec_scan_digits(s: Seq<char>, i: int) -> int
    recommends
        0 <= i <= s.len(),
    decreases s.len() - i when 0 <= i <= s.len()
{
    if i < s.len() && is_digit(s[i]) {
        spec_scan_digits(s, i + 1)
    } else {
        i
    }
}

/// Whether `s` is a JSON number token in normalized form: an optional minus
/// sign, an integer part without leading zeros, an optional `.` fraction,
/// an optional exponent written as `e` with an explicit sign, and not the
/// token `-0` itself.
pub open spec fn spec_number_token(s: Seq<char>) -> bool {
    let i0: int = if s.len() > 0 && s[0] == '-' { 1 } else { 0 };
    &&& i0 < s.len()
    &&& is_digit(s[i0])
    &&& {
        let i1: int = if s[i0] == '0' { i0 + 1 } else { spec_scan_digits(s, i0) };
        let i2: int = if i1 < s.len() && s[i1] == '.' {
            if spec_scan_digits(s, i1 + 1) == i1 + 1 {
                -1
            } else {
                spec_scan_digits(s, i1 + 1)
            }
        } else {
            i1
        };
        &&& i2 >= 0
        &&& {
            let i3: int = if i2 < s.len() && s[i2] == 'e' {
                if i2 + 1 < s.len() && (s[i2 + 1] == '+' || s[i2 + 1] == '-') {
                    if spec_scan_digits(s, i2 + 2) == i2 + 2 {
                        -1
                    } else {
                        spec_scan_digits(s, i2 + 2)
                    }
                } else {
                    -1
                }
            } else {
                i2
            };
            i3 == s.len()
        }
    }
    &&& !(s =~= seq!['-', '0'])
}

/// Whether every number in the tree is a normalized token.
pub open spec fn nums_ok(j: JsonV) -> bool
    decreases j,
{
    match j {
        JsonV::Null => true,
        JsonV::Bool(_) => true,
        JsonV::Num(s) => spec_number_token(s),
        JsonV::Str(_) => true,
        JsonV::Arr(items) => forall|i: int| 0 <= i < items.len() ==> nums_ok(#[trigger] items[i]),
        JsonV::Obj(pairs) => forall|i: int|
            0 <= i < pairs.len() ==> nums_ok(#[trigger] pairs[i].1),
    }
}

/// Whether every object in the tree has pairwise distinct keys.
pub open spec fn keys_distinct(j: JsonV) -> bool
    decreases j,
{
    match j {
        JsonV::Null => true,
        JsonV::Bool(_) => true,
        JsonV::Num(_) => true,
        JsonV::Str(_) => true,
        JsonV::Arr(items) => forall|i: int|
            0 <= i < items.len() ==> keys_distinct(#[trigger] items[i]),
        JsonV::Obj(pairs) => {
            &&& forall|i: int| 0 <= i < pairs.len() ==> keys_distinct(#[trigger] pairs[i].1)
            &&& forall|i: int, k: int|
                0 <= i < k < pairs.len() ==> (#[trigger] pairs[i].0) != (#[trigger] pairs[k].0)
        },
    }
}

/// A well-formed tree: every number a normalized token, every object with
/// distinct keys. This is the image of any real JSON value, and what the
/// text layer's constructors preserve.
pub open spec fn wf_jsonv(j: JsonV) -> bool {
    nums_ok(j) && keys_distinct(j)
}

/// The object key that serde_json's `arbitrary_precision` feature reserves
/// for carrying a number through serde: an object whose first member has
/// this key is read back as a number, not as an object.
pub open spec fn reserved_number_key() -> Seq<char> {
    "$serde_json::private::Number"@
}

/// Whether no object anywhere in the tree has a member under the reserved
/// number key.
pub open spec fn no_reserved_keys(j: JsonV) -> bool
    decreases j,
{
    match j {
        JsonV::Null => true,
        JsonV::Bool(_) => true,
        JsonV::Num(_) => true,
        JsonV::Str(_) => true,
        JsonV::Arr(items) => forall|i: int|
            0 <= i < items.len() ==> no_reserved_keys(#[trigger] items[i]),
        JsonV::Obj(pairs) => {
            &&& forall|i: int| 0 <= i < pairs.len() ==> (#[trigger] pairs[i]).0
                != reserved_number_key()
            &&& forall|i: int| 0 <= i < pairs.len() ==> no_reserved_keys((#[trigger] pairs[i]).1)
        },
    }
}

/// Whether every chain of nested arrays and objects in the tree is shorter
/// than `limit`: a leaf fits under any limit, a container needs one level
/// for itself and `limit - 1` for its children.
pub open spec fn depth_below(j: JsonV, limit: nat) -> bool
    decreases j,
{
    match j {
        JsonV::Null => true,
        JsonV::Bool(_) => true,
        JsonV::Num(_) => true,
        JsonV::Str(_) => true,
        JsonV::Arr(items) => limit >= 1 && forall|i: int|
            0 <= i < items.len() ==> depth_below(#[trigger] items[i], (limit - 1) as nat),
        JsonV::Obj(pairs) => limit >= 1 && forall|i: int|
            0 <= i < pairs.len() ==> depth_below((#[trigger] pairs[i]).1, (limit - 1) as nat),
    }
}

/// A tree in this form is preserved exactly by a round trip through text:
/// well formed, free of the reserved number key, and nested within the
/// parser's recursion limit (128 levels, of which the last may not be
/// entered, so 127 nested containers parse).
pub open spec fn text_faithful(j: JsonV) -> bool {
    wf_jsonv(j) && no_reserved_keys(j) && depth_below(j, 127)
}

/// A deeper limit admits every tree a shallower one does.
pub proof fn lemma_depth_below_mono(j: JsonV, a: nat, b: nat)
    requires
        depth_below(j, a),
        a <= b,
    ensures
        depth_below(j, b),
    decreases j,
{
    match j {
        JsonV::Arr(items) => {
            assert(j->Arr_0 == items);
            assert forall|i: int| 0 <= i < items.len() implies depth_below(
                #[trigger] items[i],
                (b - 1) as nat,
            ) by {
                lemma_depth_below_mono(items[i], (a - 1) as nat, (b - 1) as nat);
            }
        },
        JsonV::Obj(pairs) => {
            assert(j->Obj_0 == pairs);
            assert forall|i: int| 0 <= i < pairs.len() implies depth_below(
                (#[trigger] pairs[i]).1,
                (b - 1) as nat,
            ) by {
                lemma_depth_below_mono(pairs[i].1, (a - 1) as nat, (b - 1) as nat);
            }
        },
        _ => {},
    }
}

/// An array of elements free of the reserved key is free of it as a whole.
pub proof fn lemma_no_reserved_arr_intro(vs: Seq<JsonV>)
    requires
        forall|i: int| 0 <= i < vs.len() ==> no_reserved_keys(#[trigger] vs[i]),
    ensures
        no_reserved_keys(JsonV::Arr(vs)),
{
    let j = JsonV::Arr(vs);
    assert(j->Arr_0 == vs);
}

/// An object none of whose keys is the reserved key, with member values
/// free of it below, is free of it as a whole.
pub proof fn lemma_no_reserved_obj_intro(ps: Seq<(Seq<char>, JsonV)>)
    requires
        forall|i: int| 0 <= i < ps.len() ==> (#[trigger] ps[i]).0 != reserved_number_key(),
        forall|i: int| 0 <= i < ps.len() ==> no_reserved_keys((#[trigger] ps[i]).1),
    ensures
        no_reserved_keys(JsonV::Obj(ps)),
{
    let j = JsonV::Obj(ps);
    assert(j->Obj_0 == ps);
}

/// An array whose elements fit under `limit - 1` fits under `limit`.
pub proof fn lemma_depth_arr_intro(vs: Seq<JsonV>, limit: nat)
    requires
        limit >= 1,
        forall|i: int| 0 <= i < vs.len() ==> depth_below(#[trigger] vs[i], (limit - 1) as nat),
    ensures
        depth_below(JsonV::Arr(vs), limit),
{
    let j = JsonV::Arr(vs);
    assert(j->Arr_0 == vs);
}

/// An object whose member values fit under `limit - 1` fits under `limit`.
pub proof fn lemma_depth_obj_intro(ps: Seq<(Seq<char>, JsonV)>, limit: nat)
    requires
        limit >= 1,
        forall|i: int| 0 <= i < ps.len() ==> depth_below((#[trigger] ps[i]).1, (limit - 1) as nat),
    ensures
        depth_below(JsonV::Obj(ps), limit),
{
    let j = JsonV::Obj(ps);
    assert(j->Obj_0 == ps);
}

/// A well-formed array has well-formed elements.
pub proof fn lemma_wf_arr_child(vs: Seq<JsonV>, i: int)
    requires
        0 <= i < vs.len(),
    ensures
        nums_ok(JsonV::Arr(vs)) ==> nums_ok(vs[i]),
        keys_distinct(JsonV::Arr(vs)) ==> keys_distinct(vs[i]),
{
    let j = JsonV::Arr(vs);
    assert(j->Arr_0 == vs);
}

/// A well-formed object has well-formed member values.
pub proof fn lemma_wf_obj_child(ps: Seq<(Seq<char>, JsonV)>, i: int)
    requires
        0 <= i < ps.len(),
    ensures
        nums_ok(JsonV::Obj(ps)) ==> nums_ok(ps[i].1),
        keys_distinct(JsonV::Obj(ps)) ==> keys_distinct(ps[i].1),
{
    let j = JsonV::Obj(ps);
    assert(j->Obj_0 == ps);
}

/// An array whose elements all have well-formed numbers has well-formed
/// numbers as a whole.
pub proof fn lemma_wf_arr_intro(vs: Seq<JsonV>)
    requires
        forall|i: int| 0 <= i < vs.len() ==> nums_ok(#[trigger] vs[i]),
    ensures
        nums_ok(JsonV::Arr(vs)),
{
    let j = JsonV::Arr(vs);
    assert(j->Arr_0 == vs);
}

/// An array whose elements all have distinct keys below has distinct keys
/// as a whole.
pub proof fn lemma_keys_distinct_arr_intro(vs: Seq<JsonV>)
    requires
        forall|i: int| 0 <= i < vs.len() ==> keys_distinct(#[trigger] vs[i]),
    ensures
        keys_distinct(JsonV::Arr(vs)),
{
    let j = JsonV::Arr(vs);
    assert(j->Arr_0 == vs);
}

/// An object with pairwise distinct keys whose member values all have
/// distinct keys below has distinct keys as a whole.
pub proof fn lemma_keys_distinct_obj_intro(ps: Seq<(Seq<char>, JsonV)>)
    requires
        forall|i: int| 0 <= i < ps.len() ==> keys_distinct((#[trigger] ps[i]).1),
        forall|a: int, b: int| 0 <= a < b < ps.len() ==> (#[trigger] ps[a]).0 != (
        #[trigger] ps[b]).0,
    ensures
        keys_distinct(JsonV::Obj(ps)),
{
    let j = JsonV::Obj(ps);
    assert(j->Obj_0 == ps);
}

/// In a well-formed object two different members have different keys.
pub proof fn lemma_obj_keys_distinct(ps: Seq<(Seq<char>, JsonV)>, a: int, b: int)
    requires
        keys_distinct(JsonV::Obj(ps)),
        0 <= a < b < ps.len(),
    ensures
        ps[a].0 != ps[b].0,
{
    let j = JsonV::Obj(ps);
    assert(j->Obj_0 == ps);
}

/// An object whose member values all have well-formed numbers has
/// well-formed numbers as a whole.
pub proof fn lemma_nums_ok_obj_intro(ps: Seq<(Seq<char>, JsonV)>)
    requires
        forall|i: int| 0 <= i < ps.len() ==> nums_ok((#[trigger] ps[i]).1),
    ensures
        nums_ok(JsonV::Obj(ps)),
{
    let j = JsonV::Obj(ps);
    assert(j->Obj_0 == ps);
}

fn scan_digits(s: &str, from: usize, len: usize) -> (r: usize)
    requires
        from <= len,
        len == s@.len(),
    ensures
        r == spec_scan_digits(s@, from as int),
        from <= r <= len,
    decreases len - from,
{
    if from < len {
        let u = s.get_char(from) as u32;
        if 48 <= u && u <= 57 {
            return scan_digits(s, from + 1, len);
        }
    }
    from
}

/// Whether `s` is a normalized JSON number token, exactly as
/// [`spec_number_token`] defines it.
pub fn is_number_token(s: &str) -> (r: bool)
    ensures
        r == spec_number_token(s@),
{
    let len = s.unicode_len();
    let i0: usize = if len > 0 && s.get_char(0) == '-' { 1 } else { 0 };
    if i0 >= len {
        return false;
    }
    let c0 = s.get_char(i0) as u32;
    if !(48 <= c0 && c0 <= 57) {
        return false;
    }
    if i0 == 1 && s.get_char(1) == '0' && len == 2 {
        // the token `-0`
        assert(s@ =~= seq!['-', '0']);
        return false;
    }
    let i1: usize = if s.get_char(i0) == '0' { i0 + 1 } else { scan_digits(s, i0, len) };
    let i2: usize = if i1 < len && s.get_char(i1) == '.' {
        let d = scan_digits(s, i1 + 1, len);
        if d == i1 + 1 {
            return false;
        }
        d
    } else {
        i1
    };
    let i3: usize = if i2 < len && s.get_char(i2) == 'e' {
        if i2 + 1 < len && (s.get_char(i2 + 1) == '+' || s.get_char(i2 + 1) == '-') {
            let d = scan_digits(s, i2 + 2, len);
            if d == i2 + 2 {
                return false;
            }
            d
        } else {
            return false;
        }
    } else {
        i2
    };
    if i3 != len {
        return false;
    }
    assert(!(s@ =~= seq!['-', '0']));
    true
}

} // verus!

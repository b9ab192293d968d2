//! Data model and JSON codec for the Mobiledoc rich-content document format.
//!
//! A [`Mobiledoc`] document is a version string plus four ordered collections:
//! inline style [`Markup`]s (with a flattened attribute-array wire form),
//! inline [`Atom`]s, block-level [`Card`]s, and opaque `sections` entries.
//! The codec translates between the in-memory types and the canonical JSON
//! wire shapes; the `serde_str` and `serde_str_option` modules additionally
//! embed a whole document as a single JSON string field of a host record.
use vstd::prelude::*;

pub mod json;
pub mod serde_str;
pub mod serde_str_option;
pub mod text;

use crate::json::{Json, JsonV, depth_below, json_view, json_views, keys_distinct,
    lemma_depth_arr_intro, lemma_depth_below_mono, lemma_depth_obj_intro, lemma_json_views,
    lemma_json_pair_views, lemma_keys_distinct_arr_intro, lemma_keys_distinct_obj_intro,
    lemma_no_reserved_arr_intro, lemma_no_reserved_obj_intro, lemma_nums_ok_obj_intro,
    lemma_wf_arr_intro, json_pair_views, no_reserved_keys, nums_ok, reserved_number_key,
    text_faithful, wf_jsonv};
use crate::text::{json_from_text, json_to_text, parse_result, render_result};

verus! {

/// The two failure kinds of this library: wire data of the wrong shape,
/// and an in-memory value that cannot be rendered to JSON text.
#[derive(Debug, Clone, PartialEq, Eq)]
pub enum MobiledocError {
    /// Wire data does not match the expected shape; carries a description.
    InvalidInput(String),
    /// An in-memory value could not be rendered to its textual form.
    EncodingFailure,
}

/// One name/value pair of a markup's attribute list.
#[derive(Debug, Clone, PartialEq, Eq)]
pub struct MarkupAttribute {
    pub name: String,
    pub value: String,
}

/// The model of a [`MarkupAttribute`].
pub struct MarkupAttributeV {
    pub name: Seq<char>,
    pub value: Seq<char>,
}

impl View for MarkupAttribute {
    type V = MarkupAttributeV;

    open spec fn view(&self) -> MarkupAttributeV {
        MarkupAttributeV { name: self.name@, value: self.value@ }
    }
}

/// An inline style descriptor, akin to an HTML tag: a tag name and an
/// ordered attribute list. On the wire it is `[tag, flat]`, where `flat`
/// lists each attribute's name and value in turn.
#[derive(Debug, Clone, PartialEq, Eq)]
pub struct Markup {
    pub tag: String,
    pub attributes: Vec<MarkupAttribute>,
}

/// The model of a [`Markup`].
pub struct MarkupV {
    pub tag: Seq<char>,
    pub attributes: Seq<MarkupAttributeV>,
}

impl View for Markup {
    type V = MarkupV;

    open spec fn view(&self) -> MarkupV {
        MarkupV {
            tag: self.tag@,
            attributes: Seq::new(self.attributes@.len(), |i: int| self.attributes@[i]@),
        }
    }
}

/// A named inline embed: a kind name, display text, and an arbitrary JSON
/// payload. On the wire it is `[name, text, payload]`.
#[derive(Debug, Clone, PartialEq, Eq)]
pub struct Atom {
    pub name: String,
    pub text: String,
    pub payload: Json,
}

/// The model of an [`Atom`].
pub struct AtomV {
    pub name: Seq<char>,
    pub text: Seq<char>,
    pub payload: JsonV,
}

impl View for Atom {
    type V = AtomV;

    open spec fn view(&self) -> AtomV {
        AtomV { name: self.name@, text: self.text@, payload: self.payload@ }
    }
}

/// A named block embed: a kind name and an arbitrary JSON payload. On the
/// wire it is `[name, payload]`.
#[derive(Debug, Clone, PartialEq, Eq)]
pub struct Card {
    pub name: String,
    pub payload: Json,
}

/// The model of a [`Card`].
pub struct CardV {
    pub name: Seq<char>,
    pub payload: JsonV,
}

impl View for Card {
    type V = CardV;

    open spec fn view(&self) -> CardV {
        CardV { name: self.name@, payload: self.payload@ }
    }
}

/// The four section kinds and their wire-encoded integer codes. The codec
/// never consults this when handling `sections`, which stay opaque; it is
/// vocabulary for consumers that do parse them.
#[derive(Debug, Clone, Copy, PartialEq, Eq)]
pub enum SectionType {
    Text,
    Image,
    List,
    Card,
}

/// A Mobiledoc document: a free-form version string, the three collections
/// that sections refer to by position, and the sections themselves, which
/// this library carries verbatim as opaque JSON values.
#[derive(Debug, Clone, PartialEq, Eq)]
pub struct Mobiledoc {
    pub version: String,
    pub markups: Vec<Markup>,
    pub atoms: Vec<Atom>,
    pub cards: Vec<Card>,
    pub sections: Vec<Json>,
}

/// The model of a [`Mobiledoc`].
pub struct MobiledocV {
    pub version: Seq<char>,
    pub markups: Seq<MarkupV>,
    pub atoms: Seq<AtomV>,
    pub cards: Seq<CardV>,
    pub sections: Seq<JsonV>,
}

impl View for Mobiledoc {
    type V = MobiledocV;

    open spec fn view(&self) -> MobiledocV {
        MobiledocV {
            version: self.version@,
            markups: Seq::new(self.markups@.len(), |i: int| self.markups@[i]@),
            atoms: Seq::new(self.atoms@.len(), |i: int| self.atoms@[i]@),
            cards: Seq::new(self.cards@.len(), |i: int| self.cards@[i]@),
            sections: Seq::new(self.sections@.len(), |i: int| self.sections@[i]@),
        }
    }
}

// ---------------------------------------------------------------------------
// Wire shapes, as spec functions.
// ---------------------------------------------------------------------------

/// The flat attribute array: name then value for each attribute, in order.
pub open spec fn spec_flat_attrs(attrs: Seq<MarkupAttributeV>) -> Seq<JsonV> {
    Seq::new(
        2 * attrs.len(),
        |i: int|
            if i % 2 == 0 {
                JsonV::Str(attrs[i / 2].name)
            } else {
                JsonV::Str(attrs[i / 2].value)
            },
    )
}

/// A markup encodes as `[tag, flat]`; the flat array is present even when
/// empty.
pub open spec fn spec_markup_to_json(m: MarkupV) -> JsonV {
    JsonV::Arr(seq![JsonV::Str(m.tag), JsonV::Arr(spec_flat_attrs(m.attributes))])
}

/// An atom encodes as `[name, text, payload]`.
pub open spec fn spec_atom_to_json(a: AtomV) -> JsonV {
    JsonV::Arr(seq![JsonV::Str(a.name), JsonV::Str(a.text), a.payload])
}

/// A card encodes as `[name, payload]`.
pub open spec fn spec_card_to_json(c: CardV) -> JsonV {
    JsonV::Arr(seq![JsonV::Str(c.name), c.payload])
}

/// A document encodes as an object with exactly these five members, in this
/// order; `sections` entries pass through verbatim.
pub open spec fn spec_doc_to_json(d: MobiledocV) -> JsonV {
    JsonV::Obj(
        seq![
            ("version"@, JsonV::Str(d.version)),
            ("markups"@, JsonV::Arr(d.markups.map_values(|m: MarkupV| spec_markup_to_json(m)))),
            ("atoms"@, JsonV::Arr(d.atoms.map_values(|a: AtomV| spec_atom_to_json(a)))),
            ("cards"@, JsonV::Arr(d.cards.map_values(|c: CardV| spec_card_to_json(c)))),
            ("sections"@, JsonV::Arr(d.sections)),
        ],
    )
}

/// Whether every element of `flat` is a JSON string.
pub open spec fn spec_all_str(flat: Seq<JsonV>) -> bool {
    forall|i: int| 0 <= i < flat.len() ==> (#[trigger] flat[i]) is Str
}

/// The attribute list read from a flat array of strings, two at a time.
pub open spec fn spec_attrs_from_flat(flat: Seq<JsonV>) -> Seq<MarkupAttributeV> {
    Seq::new(
        flat.len() / 2,
        |i: int| MarkupAttributeV { name: flat[2 * i]->Str_0, value: flat[2 * i + 1]->Str_0 },
    )
}

/// Markup decoding: a one-element array `[tag]` means no attributes; a
/// two-element array `[tag, flat]` needs a flat array of strings of even
/// length. Anything else is rejected.
pub open spec fn spec_markup_from_json(j: JsonV) -> Option<MarkupV> {
    match j {
        JsonV::Arr(items) => {
            if items.len() == 1 {
                if items[0] is Str {
                    Some(MarkupV { tag: items[0]->Str_0, attributes: Seq::empty() })
                } else {
                    None
                }
            } else if items.len() == 2 {
                match (items[0], items[1]) {
                    (JsonV::Str(tag), JsonV::Arr(flat)) => {
                        if spec_all_str(flat) && flat.len() % 2 == 0 {
                            Some(MarkupV { tag, attributes: spec_attrs_from_flat(flat) })
                        } else {
                            None
                        }
                    },
                    _ => None,
                }
            } else {
                None
            }
        },
        _ => None,
    }
}

/// Atom decoding: exactly `[name, text, payload]` with two leading strings.
pub open spec fn spec_atom_from_json(j: JsonV) -> Option<AtomV> {
    match j {
        JsonV::Arr(items) => {
            if items.len() == 3 && items[0] is Str && items[1] is Str {
                Some(
                    AtomV {
                        name: items[0]->Str_0,
                        text: items[1]->Str_0,
                        payload: items[2],
                    },
                )
            } else {
                None
            }
        },
        _ => None,
    }
}

/// Card decoding: exactly `[name, payload]` with a leading string.
pub open spec fn spec_card_from_json(j: JsonV) -> Option<CardV> {
    match j {
        JsonV::Arr(items) => {
            if items.len() == 2 && items[0] is Str {
                Some(CardV { name: items[0]->Str_0, payload: items[1] })
            } else {
                None
            }
        },
        _ => None,
    }
}

/// How many members of `ps` carry `key`.
pub open spec fn key_count(ps: Seq<(Seq<char>, JsonV)>, key: Seq<char>) -> nat
    decreases ps.len(),
{
    if ps.len() == 0 {
        0
    } else {
        (if ps[0].0 == key {
            1nat
        } else {
            0nat
        }) + key_count(ps.drop_first(), key)
    }
}

/// The value of the first member of `ps` carrying `key`.
pub open spec fn key_find(ps: Seq<(Seq<char>, JsonV)>, key: Seq<char>) -> Option<JsonV>
    decreases ps.len(),
{
    if ps.len() == 0 {
        None
    } else if ps[0].0 == key {
        Some(ps[0].1)
    } else {
        key_find(ps.drop_first(), key)
    }
}

/// All markups of a wire array, or `None` if any is rejected.
pub open spec fn spec_decode_markups(items: Seq<JsonV>) -> Option<Seq<MarkupV>>
    decreases items.len(),
{
    if items.len() == 0 {
        Some(Seq::empty())
    } else {
        match (spec_markup_from_json(items[0]), spec_decode_markups(items.drop_first())) {
            (Some(m), Some(rest)) => Some(seq![m] + rest),
            _ => None,
        }
    }
}

/// All atoms of a wire array, or `None` if any is rejected.
pub open spec fn spec_decode_atoms(items: Seq<JsonV>) -> Option<Seq<AtomV>>
    decreases items.len(),
{
    if items.len() == 0 {
        Some(Seq::empty())
    } else {
        match (spec_atom_from_json(items[0]), spec_decode_atoms(items.drop_first())) {
            (Some(a), Some(rest)) => Some(seq![a] + rest),
            _ => None,
        }
    }
}

/// All cards of a wire array, or `None` if any is rejected.
pub open spec fn spec_decode_cards(items: Seq<JsonV>) -> Option<Seq<CardV>>
    decreases items.len(),
{
    if items.len() == 0 {
        Some(Seq::empty())
    } else {
        match (spec_card_from_json(items[0]), spec_decode_cards(items.drop_first())) {
            (Some(c), Some(rest)) => Some(seq![c] + rest),
            _ => None,
        }
    }
}

/// Document decoding: the object must carry each of the five fields exactly
/// once, with the right shape; members under other keys are ignored.
pub open spec fn spec_doc_from_json(j: JsonV) -> Option<MobiledocV> {
    match j {
        JsonV::Obj(ps) => {
            if key_count(ps, "version"@) == 1 && key_count(ps, "markups"@) == 1 && key_count(
                ps,
                "atoms"@,
            ) == 1 && key_count(ps, "cards"@) == 1 && key_count(ps, "sections"@) == 1 {
                match (
                    key_find(ps, "version"@),
                    key_find(ps, "markups"@),
                    key_find(ps, "atoms"@),
                    key_find(ps, "cards"@),
                    key_find(ps, "sections"@),
                ) {
                    (
                        Some(JsonV::Str(version)),
                        Some(JsonV::Arr(markups)),
                        Some(JsonV::Arr(atoms)),
                        Some(JsonV::Arr(cards)),
                        Some(JsonV::Arr(sections)),
                    ) => {
                        match (
                            spec_decode_markups(markups),
                            spec_decode_atoms(atoms),
                            spec_decode_cards(cards),
                        ) {
                            (Some(ms), Some(avs), Some(cs)) => Some(
                                MobiledocV {
                                    version,
                                    markups: ms,
                                    atoms: avs,
                                    cards: cs,
                                    sections,
                                },
                            ),
                            _ => None,
                        }
                    },
                    _ => None,
                }
            } else {
                None
            }
        },
        _ => None,
    }
}

/// Appending a member changes a key's count by one exactly when it carries
/// that key, and fills its find slot only if the key was absent.
proof fn lemma_key_push(ps: Seq<(Seq<char>, JsonV)>, p: (Seq<char>, JsonV), key: Seq<char>)
    ensures
        key_count(ps.push(p), key) == key_count(ps, key) + (if p.0 == key {
            1nat
        } else {
            0nat
        }),
        key_find(ps.push(p), key) == (if key_find(ps, key) is Some {
            key_find(ps, key)
        } else if p.0 == key {
            Some(p.1)
        } else {
            None
        }),
    decreases ps.len(),
{
    if ps.len() == 0 {
        assert(ps.push(p)[0] == p);
        assert(ps.push(p).drop_first() =~= Seq::<(Seq<char>, JsonV)>::empty());
        assert(key_count(Seq::<(Seq<char>, JsonV)>::empty(), key) == 0);
        assert(key_find(Seq::<(Seq<char>, JsonV)>::empty(), key) is None);
        assert(key_count(ps, key) == 0);
        assert(key_find(ps, key) is None);
    } else {
        assert(ps.push(p)[0] == ps[0]);
        assert(ps.push(p).drop_first() =~= ps.drop_first().push(p));
        lemma_key_push(ps.drop_first(), p, key);
        assert(key_count(ps.push(p), key) == (if ps[0].0 == key {
            1nat
        } else {
            0nat
        }) + key_count(ps.drop_first().push(p), key));
        assert(key_count(ps, key) == (if ps[0].0 == key {
            1nat
        } else {
            0nat
        }) + key_count(ps.drop_first(), key));
        assert(key_find(ps.push(p), key) == (if ps[0].0 == key {
            Some(ps[0].1)
        } else {
            key_find(ps.drop_first().push(p), key)
        }));
    }
}

/// A key is found exactly where its count is not zero.
proof fn lemma_key_count_find(ps: Seq<(Seq<char>, JsonV)>, key: Seq<char>)
    ensures
        (key_count(ps, key) == 0) <==> (key_find(ps, key) is None),
    decreases ps.len(),
{
    if ps.len() > 0 {
        lemma_key_count_find(ps.drop_first(), key);
    }
}

/// A key's count over a whole list is the sum of its counts over a prefix
/// and the matching suffix.
proof fn lemma_key_count_split(ps: Seq<(Seq<char>, JsonV)>, key: Seq<char>, i: int)
    requires
        0 <= i <= ps.len(),
    ensures
        key_count(ps, key) == key_count(ps.subrange(0, i), key) + key_count(
            ps.subrange(i, ps.len() as int),
            key,
        ),
    decreases i,
{
    if i == 0 {
        assert(ps.subrange(0, 0) =~= Seq::<(Seq<char>, JsonV)>::empty());
        assert(ps.subrange(0, ps.len() as int) =~= ps);
    } else {
        lemma_key_count_split(ps.drop_first(), key, i - 1);
        assert(ps.subrange(0, i)[0] == ps[0]);
        assert(ps.subrange(0, i).drop_first() =~= ps.drop_first().subrange(0, i - 1));
        assert(ps.subrange(i, ps.len() as int) =~= ps.drop_first().subrange(
            i - 1,
            ps.drop_first().len() as int,
        ));
    }
}

/// A rejected element anywhere rejects the whole markup array.
proof fn lemma_decode_markups_none(vs: Seq<JsonV>, i: int)
    requires
        0 <= i < vs.len(),
        spec_markup_from_json(vs[i]) is None,
    ensures
        spec_decode_markups(vs) is None,
    decreases i,
{
    if i > 0 {
        assert(vs.drop_first()[i - 1] == vs[i]);
        lemma_decode_markups_none(vs.drop_first(), i - 1);
    }
}

/// Element-wise accepted markups are accepted as a whole, in order.
proof fn lemma_decode_markups_all(vs: Seq<JsonV>, ms: Seq<MarkupV>)
    requires
        ms.len() == vs.len(),
        forall|k: int| 0 <= k < vs.len() ==> spec_markup_from_json(#[trigger] vs[k]) == Some(
            ms[k],
        ),
    ensures
        spec_decode_markups(vs) == Some(ms),
    decreases vs.len(),
{
    if vs.len() > 0 {
        assert forall|k: int| 0 <= k < vs.drop_first().len() implies spec_markup_from_json(
            #[trigger] vs.drop_first()[k],
        ) == Some(ms.drop_first()[k]) by {
            assert(vs.drop_first()[k] == vs[k + 1]);
        }
        lemma_decode_markups_all(vs.drop_first(), ms.drop_first());
        assert(seq![ms[0]] + ms.drop_first() =~= ms);
    }
}

/// A rejected element anywhere rejects the whole atom array.
proof fn lemma_decode_atoms_none(vs: Seq<JsonV>, i: int)
    requires
        0 <= i < vs.len(),
        spec_atom_from_json(vs[i]) is None,
    ensures
        spec_decode_atoms(vs) is None,
    decreases i,
{
    if i > 0 {
        assert(vs.drop_first()[i - 1] == vs[i]);
        lemma_decode_atoms_none(vs.drop_first(), i - 1);
    }
}

/// Element-wise accepted atoms are accepted as a whole, in order.
proof fn lemma_decode_atoms_all(vs: Seq<JsonV>, avs: Seq<AtomV>)
    requires
        avs.len() == vs.len(),
        forall|k: int| 0 <= k < vs.len() ==> spec_atom_from_json(#[trigger] vs[k]) == Some(
            avs[k],
        ),
    ensures
        spec_decode_atoms(vs) == Some(avs),
    decreases vs.len(),
{
    if vs.len() > 0 {
        assert forall|k: int| 0 <= k < vs.drop_first().len() implies spec_atom_from_json(
            #[trigger] vs.drop_first()[k],
        ) == Some(avs.drop_first()[k]) by {
            assert(vs.drop_first()[k] == vs[k + 1]);
        }
        lemma_decode_atoms_all(vs.drop_first(), avs.drop_first());
        assert(seq![avs[0]] + avs.drop_first() =~= avs);
    }
}

/// A rejected element anywhere rejects the whole card array.
proof fn lemma_decode_cards_none(vs: Seq<JsonV>, i: int)
    requires
        0 <= i < vs.len(),
        spec_card_from_json(vs[i]) is None,
    ensures
        spec_decode_cards(vs) is None,
    decreases i,
{
    if i > 0 {
        assert(vs.drop_first()[i - 1] == vs[i]);
        lemma_decode_cards_none(vs.drop_first(), i - 1);
    }
}

/// Element-wise accepted cards are accepted as a whole, in order.
proof fn lemma_decode_cards_all(vs: Seq<JsonV>, cs: Seq<CardV>)
    requires
        cs.len() == vs.len(),
        forall|k: int| 0 <= k < vs.len() ==> spec_card_from_json(#[trigger] vs[k]) == Some(
            cs[k],
        ),
    ensures
        spec_decode_cards(vs) == Some(cs),
    decreases vs.len(),
{
    if vs.len() > 0 {
        assert forall|k: int| 0 <= k < vs.drop_first().len() implies spec_card_from_json(
            #[trigger] vs.drop_first()[k],
        ) == Some(cs.drop_first()[k]) by {
            assert(vs.drop_first()[k] == vs[k + 1]);
        }
        lemma_decode_cards_all(vs.drop_first(), cs.drop_first());
        assert(seq![cs[0]] + cs.drop_first() =~= cs);
    }
}

fn invalid(msg: &str) -> (r: MobiledocError)
    ensures
        r is InvalidInput,
{
    MobiledocError::InvalidInput(msg.to_owned())
}

impl Markup {
    /// Encodes this markup as `[tag, flat]`; the flat array lists each
    /// attribute's name and value in turn and is present even when empty.
    #[verifier::loop_isolation(false)]
    pub fn to_json(&self) -> (r: Json)
        ensures
            r@ == spec_markup_to_json(self@),
    {
        let mut flat: Vec<Json> = Vec::new();
        let mut i: usize = 0;
        while i < self.attributes.len()
            invariant
                0 <= i <= self.attributes@.len(),
                flat@.len() == 2 * i,
                forall|k: int| 0 <= k < flat@.len() ==> (#[trigger] flat@[k])@ == spec_flat_attrs(
                    self@.attributes,
                )[k],
            decreases self.attributes@.len() - i,
        {
            flat.push(Json::Str(self.attributes[i].name.clone()));
            flat.push(Json::Str(self.attributes[i].value.clone()));
            i = i + 1;
        }
        proof {
            lemma_json_views(flat@);
            assert forall|k: int| 0 <= k < json_views(flat@).len() implies json_views(flat@)[k]
                == spec_flat_attrs(self@.attributes)[k] by {
                assert(json_views(flat@)[k] == json_view(flat@[k]));
                assert(flat@[k]@ == spec_flat_attrs(self@.attributes)[k]);
            }
            assert(json_views(flat@) =~= spec_flat_attrs(self@.attributes));
        }
        let ghost flatv = flat@;
        let mut items: Vec<Json> = Vec::new();
        items.push(Json::Str(self.tag.clone()));
        items.push(Json::Arr(flat));
        proof {
            lemma_json_views(items@);
            assert(json_views(items@)[0] == json_view(items@[0]));
            assert(json_views(items@)[1] == json_view(items@[1]));
            assert(json_views(items@) =~= seq![
                JsonV::Str(self@.tag),
                JsonV::Arr(spec_flat_attrs(self@.attributes)),
            ]);
        }
        Json::Arr(items)
    }

    /// Decodes `[tag]` or `[tag, flat]`; rejects a missing or non-string
    /// tag, a flat element that is not a string, an odd flat length, and
    /// any extra array element.
    #[verifier::loop_isolation(false)]
    pub fn from_json(j: &Json) -> (r: Result<Markup, MobiledocError>)
        ensures
            r matches Ok(m) ==> spec_markup_from_json(j@) == Some(m@),
            r is Err <==> spec_markup_from_json(j@) is None,
            r matches Err(e) ==> e is InvalidInput,
    {
        proof {
            match j {
                Json::Arr(its) => lemma_json_views(its@),
                _ => (),
            }
        }
        match j {
            Json::Arr(items) => {
                if items.len() == 0 || items.len() > 2 {
                    return Err(invalid("invalid length for a markup array"));
                }
                let tag = match &items[0] {
                    Json::Str(s) => s.clone(),
                    _ => {
                        return Err(invalid("a markup's tag must be a string"));
                    },
                };
                if items.len() == 1 {
                    let m = Markup { tag, attributes: Vec::new() };
                    proof {
                        assert(m@.attributes =~= Seq::<MarkupAttributeV>::empty());
                    }
                    return Ok(m);
                }
                let flat = match &items[1] {
                    Json::Arr(flat) => flat,
                    _ => {
                        return Err(invalid("a markup's attributes must be an array"));
                    },
                };
                proof {
                    lemma_json_views(flat@);
                }
                if flat.len() % 2 != 0 {
                    return Err(invalid("a markup's flat attribute array must pair names with values"));
                }
                let mut attributes: Vec<MarkupAttribute> = Vec::new();
                let mut i: usize = 0;
                while i < flat.len()
                    invariant
                        0 <= i <= flat@.len(),
                        i % 2 == 0,
                        attributes@.len() * 2 == i,
                        forall|k: int| 0 <= k < i ==> (#[trigger] json_views(flat@)[k]) is Str,
                        forall|k: int| 0 <= k < attributes@.len() ==> (#[trigger] attributes@[k])@
                            == spec_attrs_from_flat(json_views(flat@))[k],
                    decreases flat@.len() - i,
                {
                    let name = match &flat[i] {
                        Json::Str(s) => s.clone(),
                        _ => {
                            return Err(invalid("a markup attribute name must be a string"));
                        },
                    };
                    let value = match &flat[i + 1] {
                        Json::Str(s) => s.clone(),
                        _ => {
                            return Err(invalid("a markup attribute value must be a string"));
                        },
                    };
                    attributes.push(MarkupAttribute { name, value });
                    i = i + 2;
                }
                proof {
                    assert(spec_all_str(json_views(flat@)));
                    assert(Seq::new(attributes@.len(), |k: int| attributes@[k]@)
                        =~= spec_attrs_from_flat(json_views(flat@)));
                }
                Ok(Markup { tag, attributes })
            },
            _ => Err(invalid("a markup must be an array")),
        }
    }
}

impl Atom {
    /// Encodes this atom as `[name, text, payload]`.
    pub fn to_json(&self) -> (r: Json)
        ensures
            r@ == spec_atom_to_json(self@),
    {
        let mut items: Vec<Json> = Vec::new();
        items.push(Json::Str(self.name.clone()));
        items.push(Json::Str(self.text.clone()));
        items.push(self.payload.clone());
        proof {
            lemma_json_views(items@);
            assert(json_views(items@)[0] == json_view(items@[0]));
            assert(json_views(items@)[1] == json_view(items@[1]));
            assert(json_views(items@)[2] == json_view(items@[2]));
            assert(json_views(items@) =~= seq![
                JsonV::Str(self@.name),
                JsonV::Str(self@.text),
                self@.payload,
            ]);
        }
        Json::Arr(items)
    }

    /// Decodes exactly `[name, text, payload]`; rejects any other length
    /// and non-string leading elements.
    pub fn from_json(j: &Json) -> (r: Result<Atom, MobiledocError>)
        ensures
            r matches Ok(a) ==> spec_atom_from_json(j@) == Some(a@),
            r is Err <==> spec_atom_from_json(j@) is None,
            r matches Err(e) ==> e is InvalidInput,
    {
        proof {
            match j {
                Json::Arr(its) => lemma_json_views(its@),
                _ => (),
            }
        }
        match j {
            Json::Arr(items) => {
                if items.len() != 3 {
                    return Err(invalid("an atom must be a three-element array"));
                }
                let name = match &items[0] {
                    Json::Str(s) => s.clone(),
                    _ => {
                        return Err(invalid("an atom's name must be a string"));
                    },
                };
                let text = match &items[1] {
                    Json::Str(s) => s.clone(),
                    _ => {
                        return Err(invalid("an atom's text must be a string"));
                    },
                };
                let payload = items[2].clone();
                Ok(Atom { name, text, payload })
            },
            _ => Err(invalid("an atom must be an array")),
        }
    }
}

impl Card {
    /// Encodes this card as `[name, payload]`.
    pub fn to_json(&self) -> (r: Json)
        ensures
            r@ == spec_card_to_json(self@),
    {
        let mut items: Vec<Json> = Vec::new();
        items.push(Json::Str(self.name.clone()));
        items.push(self.payload.clone());
        proof {
            lemma_json_views(items@);
            assert(json_views(items@)[0] == json_view(items@[0]));
            assert(json_views(items@)[1] == json_view(items@[1]));
            assert(json_views(items@) =~= seq![JsonV::Str(self@.name), self@.payload]);
        }
        Json::Arr(items)
    }

    /// Decodes exactly `[name, payload]`; rejects any other length and a
    /// non-string name.
    pub fn from_json(j: &Json) -> (r: Result<Card, MobiledocError>)
        ensures
            r matches Ok(c) ==> spec_card_from_json(j@) == Some(c@),
            r is Err <==> spec_card_from_json(j@) is None,
            r matches Err(e) ==> e is InvalidInput,
    {
        proof {
            match j {
                Json::Arr(its) => lemma_json_views(its@),
                _ => (),
            }
        }
        match j {
            Json::Arr(items) => {
                if items.len() != 2 {
                    return Err(invalid("a card must be a two-element array"));
                }
                let name = match &items[0] {
                    Json::Str(s) => s.clone(),
                    _ => {
                        return Err(invalid("a card's name must be a string"));
                    },
                };
                let payload = items[1].clone();
                Ok(Card { name, payload })
            },
            _ => Err(invalid("a card must be an array")),
        }
    }
}

impl SectionType {
    /// The wire code of each kind.
    pub open spec fn spec_code(self) -> u8 {
        match self {
            SectionType::Text => 1,
            SectionType::Image => 2,
            SectionType::List => 3,
            SectionType::Card => 10,
        }
    }

    /// The integer this kind encodes to: Text 1, Image 2, List 3, Card 10.
    pub fn code(&self) -> (r: u8)
        ensures
            r == self.spec_code(),
    {
        match self {
            SectionType::Text => 1,
            SectionType::Image => 2,
            SectionType::List => 3,
            SectionType::Card => 10,
        }
    }

    /// The kind a wire code decodes to; exactly 1, 2, 3 and 10 are
    /// accepted.
    pub fn from_code(code: u8) -> (r: Result<SectionType, MobiledocError>)
        ensures
            r matches Ok(s) ==> s.spec_code() == code,
            r is Ok <==> (code == 1 || code == 2 || code == 3 || code == 10),
            r matches Err(e) ==> e is InvalidInput,
    {
        if code == 1 {
            Ok(SectionType::Text)
        } else if code == 2 {
            Ok(SectionType::Image)
        } else if code == 3 {
            Ok(SectionType::List)
        } else if code == 10 {
            Ok(SectionType::Card)
        } else {
            Err(invalid("a section type must be 1, 2, 3 or 10"))
        }
    }

    /// The wire form as a JSON value: the code as a number token.
    pub open spec fn spec_to_json(self) -> JsonV {
        match self {
            SectionType::Text => JsonV::Num("1"@),
            SectionType::Image => JsonV::Num("2"@),
            SectionType::List => JsonV::Num("3"@),
            SectionType::Card => JsonV::Num("10"@),
        }
    }

    /// Encodes this kind as its JSON integer.
    pub fn to_json(&self) -> (r: Json)
        ensures
            r@ == self.spec_to_json(),
    {
        match self {
            SectionType::Text => Json::Num("1".to_owned()),
            SectionType::Image => Json::Num("2".to_owned()),
            SectionType::List => Json::Num("3".to_owned()),
            SectionType::Card => Json::Num("10".to_owned()),
        }
    }

    /// Decodes a JSON integer; exactly the tokens `1`, `2`, `3` and `10`
    /// are accepted.
    pub fn from_json(j: &Json) -> (r: Result<SectionType, MobiledocError>)
        ensures
            r matches Ok(s) ==> j@ == s.spec_to_json(),
            r is Ok <==> (j@ == JsonV::Num("1"@) || j@ == JsonV::Num("2"@) || j@ == JsonV::Num(
                "3"@,
            ) || j@ == JsonV::Num("10"@)),
            r matches Err(e) ==> e is InvalidInput,
    {
        match j {
            Json::Num(s) => {
                if s.eq(&"1".to_owned()) {
                    Ok(SectionType::Text)
                } else if s.eq(&"2".to_owned()) {
                    Ok(SectionType::Image)
                } else if s.eq(&"3".to_owned()) {
                    Ok(SectionType::List)
                } else if s.eq(&"10".to_owned()) {
                    Ok(SectionType::Card)
                } else {
                    Err(invalid("a section type must be 1, 2, 3 or 10"))
                }
            },
            _ => Err(invalid("a section type must be a number")),
        }
    }
}

impl Mobiledoc {
    /// Encodes this document as its canonical JSON object, with the fields
    /// `version`, `markups`, `atoms`, `cards` and `sections` in that order.
    #[verifier::loop_isolation(false)]
    pub fn to_json(&self) -> (r: Json)
        ensures
            r@ == spec_doc_to_json(self@),
    {
        let mut markups_json: Vec<Json> = Vec::new();
        let mut i: usize = 0;
        while i < self.markups.len()
            invariant
                0 <= i <= self.markups@.len(),
                markups_json@.len() == i,
                forall|k: int| 0 <= k < i ==> (#[trigger] markups_json@[k])@
                    == spec_markup_to_json(self@.markups[k]),
            decreases self.markups@.len() - i,
        {
            markups_json.push(self.markups[i].to_json());
            i = i + 1;
        }
        let mut atoms_json: Vec<Json> = Vec::new();
        let mut i: usize = 0;
        while i < self.atoms.len()
            invariant
                0 <= i <= self.atoms@.len(),
                atoms_json@.len() == i,
                forall|k: int| 0 <= k < i ==> (#[trigger] atoms_json@[k])@ == spec_atom_to_json(
                    self@.atoms[k],
                ),
            decreases self.atoms@.len() - i,
        {
            atoms_json.push(self.atoms[i].to_json());
            i = i + 1;
        }
        let mut cards_json: Vec<Json> = Vec::new();
        let mut i: usize = 0;
        while i < self.cards.len()
            invariant
                0 <= i <= self.cards@.len(),
                cards_json@.len() == i,
                forall|k: int| 0 <= k < i ==> (#[trigger] cards_json@[k])@ == spec_card_to_json(
                    self@.cards[k],
                ),
            decreases self.cards@.len() - i,
        {
            cards_json.push(self.cards[i].to_json());
            i = i + 1;
        }
        let mut sections_json: Vec<Json> = Vec::new();
        let mut i: usize = 0;
        while i < self.sections.len()
            invariant
                0 <= i <= self.sections@.len(),
                sections_json@.len() == i,
                forall|k: int| 0 <= k < i ==> (#[trigger] sections_json@[k])@
                    == self@.sections[k],
            decreases self.sections@.len() - i,
        {
            sections_json.push(self.sections[i].clone());
            i = i + 1;
        }
        proof {
            lemma_json_views(markups_json@);
            assert forall|k: int| 0 <= k < markups_json@.len() implies json_views(
                markups_json@,
            )[k] == self@.markups.map_values(|m: MarkupV| spec_markup_to_json(m))[k] by {
                assert(json_views(markups_json@)[k] == json_view(markups_json@[k]));
            }
            assert(json_views(markups_json@) =~= self@.markups.map_values(
                |m: MarkupV| spec_markup_to_json(m),
            ));
            lemma_json_views(atoms_json@);
            assert forall|k: int| 0 <= k < atoms_json@.len() implies json_views(atoms_json@)[k]
                == self@.atoms.map_values(|a: AtomV| spec_atom_to_json(a))[k] by {
                assert(json_views(atoms_json@)[k] == json_view(atoms_json@[k]));
            }
            assert(json_views(atoms_json@) =~= self@.atoms.map_values(
                |a: AtomV| spec_atom_to_json(a),
            ));
            lemma_json_views(cards_json@);
            assert forall|k: int| 0 <= k < cards_json@.len() implies json_views(cards_json@)[k]
                == self@.cards.map_values(|c: CardV| spec_card_to_json(c))[k] by {
                assert(json_views(cards_json@)[k] == json_view(cards_json@[k]));
            }
            assert(json_views(cards_json@) =~= self@.cards.map_values(
                |c: CardV| spec_card_to_json(c),
            ));
            lemma_json_views(sections_json@);
            assert forall|k: int| 0 <= k < sections_json@.len() implies json_views(
                sections_json@,
            )[k] == self@.sections[k] by {
                assert(json_views(sections_json@)[k] == json_view(sections_json@[k]));
            }
            assert(json_views(sections_json@) =~= self@.sections);
        }
        let mut pairs: Vec<(String, Json)> = Vec::new();
        pairs.push(("version".to_owned(), Json::Str(self.version.clone())));
        pairs.push(("markups".to_owned(), Json::Arr(markups_json)));
        pairs.push(("atoms".to_owned(), Json::Arr(atoms_json)));
        pairs.push(("cards".to_owned(), Json::Arr(cards_json)));
        pairs.push(("sections".to_owned(), Json::Arr(sections_json)));
        proof {
            lemma_json_pair_views(pairs@);
            assert(json_pair_views(pairs@)[0] == (pairs@[0].0@, json_view(pairs@[0].1)));
            assert(json_pair_views(pairs@)[1] == (pairs@[1].0@, json_view(pairs@[1].1)));
            assert(json_pair_views(pairs@)[2] == (pairs@[2].0@, json_view(pairs@[2].1)));
            assert(json_pair_views(pairs@)[3] == (pairs@[3].0@, json_view(pairs@[3].1)));
            assert(json_pair_views(pairs@)[4] == (pairs@[4].0@, json_view(pairs@[4].1)));
            assert(json_pair_views(pairs@) =~= seq![
                ("version"@, JsonV::Str(self@.version)),
                (
                    "markups"@,
                    JsonV::Arr(self@.markups.map_values(|m: MarkupV| spec_markup_to_json(m))),
                ),
                ("atoms"@, JsonV::Arr(self@.atoms.map_values(|a: AtomV| spec_atom_to_json(a)))),
                ("cards"@, JsonV::Arr(self@.cards.map_values(|c: CardV| spec_card_to_json(c)))),
                ("sections"@, JsonV::Arr(self@.sections)),
            ]);
        }
        Json::Obj(pairs)
    }

    /// Decodes the canonical JSON object. Each of the five fields must be
    /// present exactly once with the right shape; members under other keys
    /// are ignored, and a repeated field is rejected.
    #[verifier::loop_isolation(false)]
    pub fn from_json(j: &Json) -> (r: Result<Mobiledoc, MobiledocError>)
        ensures
            r matches Ok(m) ==> spec_doc_from_json(j@) == Some(m@),
            r is Err <==> spec_doc_from_json(j@) is None,
            r matches Err(e) ==> e is InvalidInput,
    {
        let pairs = match j {
            Json::Obj(pairs) => pairs,
            _ => {
                return Err(invalid("a document must be an object"));
            },
        };
        proof {
            lemma_json_pair_views(pairs@);
        }
        let ghost ps = json_pair_views(pairs@);
        proof {
            assert(j@ == JsonV::Obj(ps));
            assert(ps.subrange(0, 0) =~= Seq::<(Seq<char>, JsonV)>::empty());
            assert(key_count(Seq::<(Seq<char>, JsonV)>::empty(), "version"@) == 0);
            assert(key_find(Seq::<(Seq<char>, JsonV)>::empty(), "version"@) is None);
            reveal_strlit("version");
            reveal_strlit("markups");
            reveal_strlit("atoms");
            reveal_strlit("cards");
            reveal_strlit("sections");
            assert("version"@[0] == 'v');
            assert("markups"@[0] == 'm');
            assert("atoms"@[0] == 'a');
            assert("cards"@[0] == 'c');
            assert("sections"@[0] == 's');
            assert("version"@ != "markups"@ && "version"@ != "atoms"@ && "version"@ != "cards"@
                && "version"@ != "sections"@);
            assert("markups"@ != "atoms"@ && "markups"@ != "cards"@ && "markups"@
                != "sections"@);
            assert("atoms"@ != "cards"@ && "atoms"@ != "sections"@);
            assert("cards"@ != "sections"@);
        }
        let key_version = "version".to_owned();
        let key_markups = "markups".to_owned();
        let key_atoms = "atoms".to_owned();
        let key_cards = "cards".to_owned();
        let key_sections = "sections".to_owned();
        let mut version_j: Option<&Json> = None;
        let mut markups_j: Option<&Json> = None;
        let mut atoms_j: Option<&Json> = None;
        let mut cards_j: Option<&Json> = None;
        let mut sections_j: Option<&Json> = None;
        let mut i: usize = 0;
        while i < pairs.len()
            invariant
                0 <= i <= pairs@.len(),
                version_j matches Some(v) ==> key_find(ps.subrange(0, i as int), "version"@)
                    == Some(v@),
                version_j is Some <==> key_count(ps.subrange(0, i as int), "version"@) == 1,
                key_count(ps.subrange(0, i as int), "version"@) <= 1,
                markups_j matches Some(v) ==> key_find(ps.subrange(0, i as int), "markups"@)
                    == Some(v@),
                markups_j is Some <==> key_count(ps.subrange(0, i as int), "markups"@) == 1,
                key_count(ps.subrange(0, i as int), "markups"@) <= 1,
                atoms_j matches Some(v) ==> key_find(ps.subrange(0, i as int), "atoms"@) == Some(
                    v@,
                ),
                atoms_j is Some <==> key_count(ps.subrange(0, i as int), "atoms"@) == 1,
                key_count(ps.subrange(0, i as int), "atoms"@) <= 1,
                cards_j matches Some(v) ==> key_find(ps.subrange(0, i as int), "cards"@) == Some(
                    v@,
                ),
                cards_j is Some <==> key_count(ps.subrange(0, i as int), "cards"@) == 1,
                key_count(ps.subrange(0, i as int), "cards"@) <= 1,
                sections_j matches Some(v) ==> key_find(ps.subrange(0, i as int), "sections"@)
                    == Some(v@),
                sections_j is Some <==> key_count(ps.subrange(0, i as int), "sections"@) == 1,
                key_count(ps.subrange(0, i as int), "sections"@) <= 1,
            decreases pairs@.len() - i,
        {
            proof {
                assert(ps.subrange(0, i + 1) =~= ps.subrange(0, i as int).push(ps[i as int]));
                lemma_key_push(ps.subrange(0, i as int), ps[i as int], "version"@);
                lemma_key_push(ps.subrange(0, i as int), ps[i as int], "markups"@);
                lemma_key_push(ps.subrange(0, i as int), ps[i as int], "atoms"@);
                lemma_key_push(ps.subrange(0, i as int), ps[i as int], "cards"@);
                lemma_key_push(ps.subrange(0, i as int), ps[i as int], "sections"@);
                lemma_key_count_find(ps.subrange(0, i as int), "version"@);
                lemma_key_count_find(ps.subrange(0, i as int), "markups"@);
                lemma_key_count_find(ps.subrange(0, i as int), "atoms"@);
                lemma_key_count_find(ps.subrange(0, i as int), "cards"@);
                lemma_key_count_find(ps.subrange(0, i as int), "sections"@);
                assert(ps[i as int] == (pairs@[i as int].0@, json_view(pairs@[i as int].1)));
            }
            if pairs[i].0.eq(&key_version) {
                if version_j.is_some() {
                    proof {
                        lemma_key_count_split(ps, "version"@, i + 1);
                    }
                    return Err(invalid("the version field is repeated"));
                }
                version_j = Some(&pairs[i].1);
            } else if pairs[i].0.eq(&key_markups) {
                if markups_j.is_some() {
                    proof {
                        lemma_key_count_split(ps, "markups"@, i + 1);
                    }
                    return Err(invalid("the markups field is repeated"));
                }
                markups_j = Some(&pairs[i].1);
            } else if pairs[i].0.eq(&key_atoms) {
                if atoms_j.is_some() {
                    proof {
                        lemma_key_count_split(ps, "atoms"@, i + 1);
                    }
                    return Err(invalid("the atoms field is repeated"));
                }
                atoms_j = Some(&pairs[i].1);
            } else if pairs[i].0.eq(&key_cards) {
                if cards_j.is_some() {
                    proof {
                        lemma_key_count_split(ps, "cards"@, i + 1);
                    }
                    return Err(invalid("the cards field is repeated"));
                }
                cards_j = Some(&pairs[i].1);
            } else if pairs[i].0.eq(&key_sections) {
                if sections_j.is_some() {
                    proof {
                        lemma_key_count_split(ps, "sections"@, i + 1);
                    }
                    return Err(invalid("the sections field is repeated"));
                }
                sections_j = Some(&pairs[i].1);
            }
            i = i + 1;
        }
        proof {
            assert(ps.subrange(0, i as int) =~= ps);
        }
        let vj = match version_j {
            Some(v) => v,
            None => {
                return Err(invalid("the version field is missing"));
            },
        };
        let mj = match markups_j {
            Some(v) => v,
            None => {
                return Err(invalid("the markups field is missing"));
            },
        };
        let aj = match atoms_j {
            Some(v) => v,
            None => {
                return Err(invalid("the atoms field is missing"));
            },
        };
        let cj = match cards_j {
            Some(v) => v,
            None => {
                return Err(invalid("the cards field is missing"));
            },
        };
        let sj = match sections_j {
            Some(v) => v,
            None => {
                return Err(invalid("the sections field is missing"));
            },
        };
        let version = match vj {
            Json::Str(s) => s.clone(),
            _ => {
                return Err(invalid("the version must be a string"));
            },
        };
        let markups_arr = match mj {
            Json::Arr(v) => v,
            _ => {
                return Err(invalid("the markups must be an array"));
            },
        };
        let atoms_arr = match aj {
            Json::Arr(v) => v,
            _ => {
                return Err(invalid("the atoms must be an array"));
            },
        };
        let cards_arr = match cj {
            Json::Arr(v) => v,
            _ => {
                return Err(invalid("the cards must be an array"));
            },
        };
        let sections_arr = match sj {
            Json::Arr(v) => v,
            _ => {
                return Err(invalid("the sections must be an array"));
            },
        };
        proof {
            lemma_json_views(markups_arr@);
            lemma_json_views(atoms_arr@);
            lemma_json_views(cards_arr@);
            lemma_json_views(sections_arr@);
        }
        let mut markups: Vec<Markup> = Vec::new();
        let mut k: usize = 0;
        while k < markups_arr.len()
            invariant
                0 <= k <= markups_arr@.len(),
                markups@.len() == k,
                forall|t: int| 0 <= t < k ==> spec_markup_from_json(json_views(markups_arr@)[t])
                    == Some((#[trigger] markups@[t])@),
            decreases markups_arr@.len() - k,
        {
            proof {
                assert(json_views(markups_arr@)[k as int] == json_view(markups_arr@[k as int]));
            }
            match Markup::from_json(&markups_arr[k]) {
                Ok(m) => markups.push(m),
                Err(e) => {
                    proof {
                        lemma_decode_markups_none(json_views(markups_arr@), k as int);
                    }
                    return Err(e);
                },
            }
            k = k + 1;
        }
        proof {
            lemma_decode_markups_all(
                json_views(markups_arr@),
                Seq::new(markups@.len(), |t: int| markups@[t]@),
            );
        }
        let mut atoms: Vec<Atom> = Vec::new();
        let mut k: usize = 0;
        while k < atoms_arr.len()
            invariant
                0 <= k <= atoms_arr@.len(),
                atoms@.len() == k,
                forall|t: int| 0 <= t < k ==> spec_atom_from_json(json_views(atoms_arr@)[t])
                    == Some((#[trigger] atoms@[t])@),
            decreases atoms_arr@.len() - k,
        {
            proof {
                assert(json_views(atoms_arr@)[k as int] == json_view(atoms_arr@[k as int]));
            }
            match Atom::from_json(&atoms_arr[k]) {
                Ok(a) => atoms.push(a),
                Err(e) => {
                    proof {
                        lemma_decode_atoms_none(json_views(atoms_arr@), k as int);
                    }
                    return Err(e);
                },
            }
            k = k + 1;
        }
        proof {
            lemma_decode_atoms_all(
                json_views(atoms_arr@),
                Seq::new(atoms@.len(), |t: int| atoms@[t]@),
            );
        }
        let mut cards: Vec<Card> = Vec::new();
        let mut k: usize = 0;
        while k < cards_arr.len()
            invariant
                0 <= k <= cards_arr@.len(),
                cards@.len() == k,
                forall|t: int| 0 <= t < k ==> spec_card_from_json(json_views(cards_arr@)[t])
                    == Some((#[trigger] cards@[t])@),
            decreases cards_arr@.len() - k,
        {
            proof {
                assert(json_views(cards_arr@)[k as int] == json_view(cards_arr@[k as int]));
            }
            match Card::from_json(&cards_arr[k]) {
                Ok(c) => cards.push(c),
                Err(e) => {
                    proof {
                        lemma_decode_cards_none(json_views(cards_arr@), k as int);
                    }
                    return Err(e);
                },
            }
            k = k + 1;
        }
        proof {
            lemma_decode_cards_all(
                json_views(cards_arr@),
                Seq::new(cards@.len(), |t: int| cards@[t]@),
            );
        }
        let mut sections: Vec<Json> = Vec::new();
        let mut k: usize = 0;
        while k < sections_arr.len()
            invariant
                0 <= k <= sections_arr@.len(),
                sections@.len() == k,
                forall|t: int| 0 <= t < k ==> (#[trigger] sections@[t])@ == json_views(
                    sections_arr@,
                )[t],
            decreases sections_arr@.len() - k,
        {
            proof {
                assert(json_views(sections_arr@)[k as int] == json_view(sections_arr@[k as int]));
            }
            sections.push(sections_arr[k].clone());
            k = k + 1;
        }
        let doc = Mobiledoc { version, markups, atoms, cards, sections };
        proof {
            assert(doc@.markups =~= Seq::new(markups@.len(), |t: int| markups@[t]@));
            assert(doc@.atoms =~= Seq::new(atoms@.len(), |t: int| atoms@[t]@));
            assert(doc@.cards =~= Seq::new(cards@.len(), |t: int| cards@[t]@));
            assert(doc@.sections =~= json_views(sections_arr@));
            assert(spec_doc_from_json(j@) == Some(doc@));
        }
        Ok(doc)
    }

    /// Renders this document as its canonical compact JSON text. A document
    /// whose encoding is a well-formed tree renders, and the text is a
    /// function of the document alone; if the encoding is also text-faithful
    /// (see [`json::text_faithful`] and [`lemma_doc_encoding_faithful`]),
    /// the text parses back to the encoded tree.
    pub fn to_json_string(&self) -> (r: Result<String, MobiledocError>)
        ensures
            wf_jsonv(spec_doc_to_json(self@)) ==> r is Ok,
            r matches Ok(s) ==> wf_jsonv(spec_doc_to_json(self@)) ==> s@ == render_result(
                spec_doc_to_json(self@),
            ),
            r matches Ok(s) ==> text_faithful(spec_doc_to_json(self@)) ==> parse_result(s@)
                == Some(spec_doc_to_json(self@)),
            r matches Err(e) ==> e == MobiledocError::EncodingFailure,
    {
        let tree = self.to_json();
        json_to_text(&tree)
    }

    /// Parses JSON text and decodes the document it holds; fails on
    /// malformed JSON and on a tree the document decoder rejects. A member
    /// repeated in the text itself collapses to its last value in the
    /// parsed tree, as the underlying parser does; the repeated-field
    /// rejection applies to the tree this function hands to `from_json`.
    pub fn from_json_str(s: &str) -> (r: Result<Mobiledoc, MobiledocError>)
        ensures
            r matches Ok(m) ==> (parse_result(s@) matches Some(jv) && spec_doc_from_json(jv)
                == Some(m@)),
            r is Err <==> (parse_result(s@) is None || (parse_result(s@) matches Some(jv)
                && spec_doc_from_json(jv) is None)),
            r matches Err(e) ==> e is InvalidInput,
    {
        match json_from_text(s) {
            Ok(tree) => Self::from_json(&tree),
            Err(e) => Err(e),
        }
    }
}

/// A key that no member carries is neither counted nor found.
proof fn lemma_key_absent(ps: Seq<(Seq<char>, JsonV)>, key: Seq<char>)
    requires
        forall|t: int| 0 <= t < ps.len() ==> (#[trigger] ps[t].0) != key,
    ensures
        key_count(ps, key) == 0,
        key_find(ps, key) is None,
    decreases ps.len(),
{
    if ps.len() > 0 {
        assert forall|t: int| 0 <= t < ps.drop_first().len() implies ((
        #[trigger] ps.drop_first()[t]).0) != key by {
            assert(ps.drop_first()[t] == ps[t + 1]);
        }
        lemma_key_absent(ps.drop_first(), key);
    }
}

/// With pairwise distinct keys, each member's key is counted once and found
/// at that member.
proof fn lemma_key_at(ps: Seq<(Seq<char>, JsonV)>, i: int)
    requires
        0 <= i < ps.len(),
        forall|a: int, b: int| 0 <= a < b < ps.len() ==> (#[trigger] ps[a].0) != (
        #[trigger] ps[b].0),
    ensures
        key_count(ps, ps[i].0) == 1,
        key_find(ps, ps[i].0) == Some(ps[i].1),
    decreases i,
{
    if i == 0 {
        assert forall|t: int| 0 <= t < ps.drop_first().len() implies ((
        #[trigger] ps.drop_first()[t]).0) != ps[0].0 by {
            assert(ps.drop_first()[t] == ps[t + 1]);
        }
        lemma_key_absent(ps.drop_first(), ps[0].0);
    } else {
        assert(ps[0].0 != ps[i].0);
        assert forall|a: int, b: int|
            0 <= a < b < ps.drop_first().len() implies ((#[trigger] ps.drop_first()[a]).0) != ((
        #[trigger] ps.drop_first()[b]).0) by {
            assert(ps.drop_first()[a] == ps[a + 1]);
            assert(ps.drop_first()[b] == ps[b + 1]);
        }
        assert(ps.drop_first()[i - 1] == ps[i]);
        lemma_key_at(ps.drop_first(), i - 1);
    }
}

/// Law: decoding an encoded markup gives the markup back, for every markup.
pub proof fn lemma_markup_round_trip(m: MarkupV)
    ensures
        spec_markup_from_json(spec_markup_to_json(m)) == Some(m),
{
    let flat = spec_flat_attrs(m.attributes);
    let items = seq![JsonV::Str(m.tag), JsonV::Arr(flat)];
    assert(items.len() == 2);
    assert(items[0] == JsonV::Str(m.tag));
    assert(items[1] == JsonV::Arr(flat));
    assert forall|i: int| 0 <= i < flat.len() implies (#[trigger] flat[i]) is Str by {}
    assert(flat.len() % 2 == 0);
    assert forall|i: int| 0 <= i < m.attributes.len() implies spec_attrs_from_flat(flat)[i] == (
    #[trigger] m.attributes[i]) by {
        assert(flat[2 * i] == JsonV::Str(m.attributes[i].name));
        assert(flat[2 * i + 1] == JsonV::Str(m.attributes[i].value));
    }
    assert(spec_attrs_from_flat(flat) =~= m.attributes);
}

/// Law: decoding an encoded atom gives the atom back, for every atom.
pub proof fn lemma_atom_round_trip(a: AtomV)
    ensures
        spec_atom_from_json(spec_atom_to_json(a)) == Some(a),
{
    let items = seq![JsonV::Str(a.name), JsonV::Str(a.text), a.payload];
    assert(items.len() == 3);
    assert(items[0] == JsonV::Str(a.name));
    assert(items[1] == JsonV::Str(a.text));
    assert(items[2] == a.payload);
}

/// Law: decoding an encoded card gives the card back, for every card.
pub proof fn lemma_card_round_trip(c: CardV)
    ensures
        spec_card_from_json(spec_card_to_json(c)) == Some(c),
{
    let items = seq![JsonV::Str(c.name), c.payload];
    assert(items.len() == 2);
    assert(items[0] == JsonV::Str(c.name));
    assert(items[1] == c.payload);
}

/// Law: decoding an encoded document gives the document back, for every
/// document, whatever its payloads and sections hold.
pub proof fn lemma_mobiledoc_round_trip(d: MobiledocV)
    ensures
        spec_doc_from_json(spec_doc_to_json(d)) == Some(d),
{
    reveal_strlit("version");
    reveal_strlit("markups");
    reveal_strlit("atoms");
    reveal_strlit("cards");
    reveal_strlit("sections");
    assert("version"@[0] == 'v');
    assert("markups"@[0] == 'm');
    assert("atoms"@[0] == 'a');
    assert("cards"@[0] == 'c');
    assert("sections"@[0] == 's');
    let ps = seq![
        ("version"@, JsonV::Str(d.version)),
        ("markups"@, JsonV::Arr(d.markups.map_values(|m: MarkupV| spec_markup_to_json(m)))),
        ("atoms"@, JsonV::Arr(d.atoms.map_values(|a: AtomV| spec_atom_to_json(a)))),
        ("cards"@, JsonV::Arr(d.cards.map_values(|c: CardV| spec_card_to_json(c)))),
        ("sections"@, JsonV::Arr(d.sections)),
    ];
    assert(spec_doc_to_json(d) == JsonV::Obj(ps));
    assert forall|a: int, b: int| 0 <= a < b < ps.len() implies (#[trigger] ps[a].0) != (
    #[trigger] ps[b].0) by {}
    lemma_key_at(ps, 0);
    lemma_key_at(ps, 1);
    lemma_key_at(ps, 2);
    lemma_key_at(ps, 3);
    lemma_key_at(ps, 4);
    let ms = d.markups.map_values(|m: MarkupV| spec_markup_to_json(m));
    assert forall|k: int| 0 <= k < ms.len() implies spec_markup_from_json(#[trigger] ms[k])
        == Some(d.markups[k]) by {
        lemma_markup_round_trip(d.markups[k]);
    }
    lemma_decode_markups_all(ms, d.markups);
    let avs = d.atoms.map_values(|a: AtomV| spec_atom_to_json(a));
    assert forall|k: int| 0 <= k < avs.len() implies spec_atom_from_json(#[trigger] avs[k])
        == Some(d.atoms[k]) by {
        lemma_atom_round_trip(d.atoms[k]);
    }
    lemma_decode_atoms_all(avs, d.atoms);
    let cs = d.cards.map_values(|c: CardV| spec_card_to_json(c));
    assert forall|k: int| 0 <= k < cs.len() implies spec_card_from_json(#[trigger] cs[k]) == Some(
        d.cards[k],
    ) by {
        lemma_card_round_trip(d.cards[k]);
    }
    lemma_decode_cards_all(cs, d.cards);
}


/// An encoded markup is a well-formed tree: it holds only strings and
/// arrays.
pub proof fn lemma_markup_encoding_wf(m: MarkupV)
    ensures
        wf_jsonv(spec_markup_to_json(m)),
{
    let flat = spec_flat_attrs(m.attributes);
    assert forall|i: int| 0 <= i < flat.len() implies nums_ok(#[trigger] flat[i]) && keys_distinct(
        flat[i],
    ) by {
        assert(flat[i] is Str);
    }
    lemma_wf_arr_intro(flat);
    lemma_keys_distinct_arr_intro(flat);
    let items = seq![JsonV::Str(m.tag), JsonV::Arr(flat)];
    assert forall|i: int| 0 <= i < items.len() implies nums_ok(#[trigger] items[i])
        && keys_distinct(items[i]) by {
        assert(items[0] == JsonV::Str(m.tag));
        assert(items[1] == JsonV::Arr(flat));
    }
    lemma_wf_arr_intro(items);
    lemma_keys_distinct_arr_intro(items);
}

/// An encoded atom whose payload is a well-formed tree is a well-formed
/// tree.
pub proof fn lemma_atom_encoding_wf(a: AtomV)
    requires
        wf_jsonv(a.payload),
    ensures
        wf_jsonv(spec_atom_to_json(a)),
{
    let items = seq![JsonV::Str(a.name), JsonV::Str(a.text), a.payload];
    assert forall|i: int| 0 <= i < items.len() implies nums_ok(#[trigger] items[i])
        && keys_distinct(items[i]) by {
        assert(items[0] == JsonV::Str(a.name));
        assert(items[1] == JsonV::Str(a.text));
        assert(items[2] == a.payload);
    }
    lemma_wf_arr_intro(items);
    lemma_keys_distinct_arr_intro(items);
}

/// An encoded card whose payload is a well-formed tree is a well-formed
/// tree.
pub proof fn lemma_card_encoding_wf(c: CardV)
    requires
        wf_jsonv(c.payload),
    ensures
        wf_jsonv(spec_card_to_json(c)),
{
    let items = seq![JsonV::Str(c.name), c.payload];
    assert forall|i: int| 0 <= i < items.len() implies nums_ok(#[trigger] items[i])
        && keys_distinct(items[i]) by {
        assert(items[0] == JsonV::Str(c.name));
        assert(items[1] == c.payload);
    }
    lemma_wf_arr_intro(items);
    lemma_keys_distinct_arr_intro(items);
}

/// Law: a document whose atom payloads, card payloads and sections are all
/// well-formed trees encodes to a well-formed tree, so its canonical text
/// parses back to that tree (see `Mobiledoc::to_json_string`), and by the
/// round-trip law decodes to the document itself.
pub proof fn lemma_doc_encoding_wf(d: MobiledocV)
    requires
        forall|i: int| 0 <= i < d.atoms.len() ==> wf_jsonv((#[trigger] d.atoms[i]).payload),
        forall|i: int| 0 <= i < d.cards.len() ==> wf_jsonv((#[trigger] d.cards[i]).payload),
        forall|i: int| 0 <= i < d.sections.len() ==> wf_jsonv(#[trigger] d.sections[i]),
    ensures
        wf_jsonv(spec_doc_to_json(d)),
{
    reveal_strlit("version");
    reveal_strlit("markups");
    reveal_strlit("atoms");
    reveal_strlit("cards");
    reveal_strlit("sections");
    assert("version"@[0] == 'v');
    assert("markups"@[0] == 'm');
    assert("atoms"@[0] == 'a');
    assert("cards"@[0] == 'c');
    assert("sections"@[0] == 's');
    let ms = d.markups.map_values(|m: MarkupV| spec_markup_to_json(m));
    assert forall|k: int| 0 <= k < ms.len() implies nums_ok(#[trigger] ms[k]) && keys_distinct(
        ms[k],
    ) by {
        lemma_markup_encoding_wf(d.markups[k]);
    }
    lemma_wf_arr_intro(ms);
    lemma_keys_distinct_arr_intro(ms);
    let avs = d.atoms.map_values(|a: AtomV| spec_atom_to_json(a));
    assert forall|k: int| 0 <= k < avs.len() implies nums_ok(#[trigger] avs[k]) && keys_distinct(
        avs[k],
    ) by {
        lemma_atom_encoding_wf(d.atoms[k]);
    }
    lemma_wf_arr_intro(avs);
    lemma_keys_distinct_arr_intro(avs);
    let cs = d.cards.map_values(|c: CardV| spec_card_to_json(c));
    assert forall|k: int| 0 <= k < cs.len() implies nums_ok(#[trigger] cs[k]) && keys_distinct(
        cs[k],
    ) by {
        lemma_card_encoding_wf(d.cards[k]);
    }
    lemma_wf_arr_intro(cs);
    lemma_keys_distinct_arr_intro(cs);
    lemma_wf_arr_intro(d.sections);
    lemma_keys_distinct_arr_intro(d.sections);
    let ps = seq![
        ("version"@, JsonV::Str(d.version)),
        ("markups"@, JsonV::Arr(ms)),
        ("atoms"@, JsonV::Arr(avs)),
        ("cards"@, JsonV::Arr(cs)),
        ("sections"@, JsonV::Arr(d.sections)),
    ];
    assert(spec_doc_to_json(d) == JsonV::Obj(ps));
    assert forall|i: int| 0 <= i < ps.len() implies nums_ok((#[trigger] ps[i]).1)
        && keys_distinct(ps[i].1) by {
        assert(ps[0].1 == JsonV::Str(d.version));
        assert(ps[1].1 == JsonV::Arr(ms));
        assert(ps[2].1 == JsonV::Arr(avs));
        assert(ps[3].1 == JsonV::Arr(cs));
        assert(ps[4].1 == JsonV::Arr(d.sections));
    }
    assert forall|a: int, b: int| 0 <= a < b < ps.len() implies (#[trigger] ps[a]).0 != (
    #[trigger] ps[b]).0 by {}
    lemma_nums_ok_obj_intro(ps);
    lemma_keys_distinct_obj_intro(ps);
}


/// An encoded markup is free of the reserved key and two container levels
/// deep.
pub proof fn lemma_markup_encoding_faithful(m: MarkupV, limit: nat)
    requires
        limit >= 2,
    ensures
        no_reserved_keys(spec_markup_to_json(m)),
        depth_below(spec_markup_to_json(m), limit),
{
    let flat = spec_flat_attrs(m.attributes);
    assert forall|i: int| 0 <= i < flat.len() implies no_reserved_keys(#[trigger] flat[i])
        && depth_below(flat[i], (limit - 2) as nat) by {
        assert(flat[i] is Str);
    }
    lemma_no_reserved_arr_intro(flat);
    lemma_depth_arr_intro(flat, (limit - 1) as nat);
    let items = seq![JsonV::Str(m.tag), JsonV::Arr(flat)];
    assert forall|i: int| 0 <= i < items.len() implies no_reserved_keys(#[trigger] items[i])
        && depth_below(items[i], (limit - 1) as nat) by {
        assert(items[0] == JsonV::Str(m.tag));
        assert(items[1] == JsonV::Arr(flat));
    }
    lemma_no_reserved_arr_intro(items);
    lemma_depth_arr_intro(items, limit);
}

/// An encoded atom is free of the reserved key and fits under `limit` when
/// its payload does so with one level to spare.
pub proof fn lemma_atom_encoding_faithful(a: AtomV, limit: nat)
    requires
        limit >= 1,
        no_reserved_keys(a.payload),
        depth_below(a.payload, (limit - 1) as nat),
    ensures
        no_reserved_keys(spec_atom_to_json(a)),
        depth_below(spec_atom_to_json(a), limit),
{
    let items = seq![JsonV::Str(a.name), JsonV::Str(a.text), a.payload];
    assert forall|i: int| 0 <= i < items.len() implies no_reserved_keys(#[trigger] items[i])
        && depth_below(items[i], (limit - 1) as nat) by {
        assert(items[0] == JsonV::Str(a.name));
        assert(items[1] == JsonV::Str(a.text));
        assert(items[2] == a.payload);
    }
    lemma_no_reserved_arr_intro(items);
    lemma_depth_arr_intro(items, limit);
}

/// An encoded card is free of the reserved key and fits under `limit` when
/// its payload does so with one level to spare.
pub proof fn lemma_card_encoding_faithful(c: CardV, limit: nat)
    requires
        limit >= 1,
        no_reserved_keys(c.payload),
        depth_below(c.payload, (limit - 1) as nat),
    ensures
        no_reserved_keys(spec_card_to_json(c)),
        depth_below(spec_card_to_json(c), limit),
{
    let items = seq![JsonV::Str(c.name), c.payload];
    assert forall|i: int| 0 <= i < items.len() implies no_reserved_keys(#[trigger] items[i])
        && depth_below(items[i], (limit - 1) as nat) by {
        assert(items[0] == JsonV::Str(c.name));
        assert(items[1] == c.payload);
    }
    lemma_no_reserved_arr_intro(items);
    lemma_depth_arr_intro(items, limit);
}

/// Law: a document whose atom payloads, card payloads and sections are all
/// well formed, free of serde_json's reserved number key, and nested within
/// 124 container levels encodes to a text-faithful tree: its canonical text
/// parses back to the encoded tree (see `Mobiledoc::to_json_string`), and
/// by the round-trip law decodes to the document itself. The margin of
/// three levels is what the document encoding wraps around a payload.
pub proof fn lemma_doc_encoding_faithful(d: MobiledocV)
    requires
        forall|i: int| 0 <= i < d.atoms.len() ==> wf_jsonv((#[trigger] d.atoms[i]).payload)
            && no_reserved_keys(d.atoms[i].payload) && depth_below(d.atoms[i].payload, 124),
        forall|i: int| 0 <= i < d.cards.len() ==> wf_jsonv((#[trigger] d.cards[i]).payload)
            && no_reserved_keys(d.cards[i].payload) && depth_below(d.cards[i].payload, 124),
        forall|i: int| 0 <= i < d.sections.len() ==> wf_jsonv(#[trigger] d.sections[i])
            && no_reserved_keys(d.sections[i]) && depth_below(d.sections[i], 124),
    ensures
        text_faithful(spec_doc_to_json(d)),
{
    lemma_doc_encoding_wf(d);
    reveal_strlit("version");
    reveal_strlit("markups");
    reveal_strlit("atoms");
    reveal_strlit("cards");
    reveal_strlit("sections");
    reveal_strlit("$serde_json::private::Number");
    assert("version"@.len() == 7);
    assert("markups"@.len() == 7);
    assert("atoms"@.len() == 5);
    assert("cards"@.len() == 5);
    assert("sections"@.len() == 8);
    assert(reserved_number_key().len() == 28);
    let ms = d.markups.map_values(|m: MarkupV| spec_markup_to_json(m));
    assert forall|k: int| 0 <= k < ms.len() implies no_reserved_keys(#[trigger] ms[k])
        && depth_below(ms[k], 125) by {
        lemma_markup_encoding_faithful(d.markups[k], 125);
    }
    lemma_no_reserved_arr_intro(ms);
    lemma_depth_arr_intro(ms, 126);
    let avs = d.atoms.map_values(|a: AtomV| spec_atom_to_json(a));
    assert forall|k: int| 0 <= k < avs.len() implies no_reserved_keys(#[trigger] avs[k])
        && depth_below(avs[k], 125) by {
        lemma_atom_encoding_faithful(d.atoms[k], 125);
    }
    lemma_no_reserved_arr_intro(avs);
    lemma_depth_arr_intro(avs, 126);
    let cs = d.cards.map_values(|c: CardV| spec_card_to_json(c));
    assert forall|k: int| 0 <= k < cs.len() implies no_reserved_keys(#[trigger] cs[k])
        && depth_below(cs[k], 125) by {
        lemma_card_encoding_faithful(d.cards[k], 125);
    }
    lemma_no_reserved_arr_intro(cs);
    lemma_depth_arr_intro(cs, 126);
    assert forall|k: int| 0 <= k < d.sections.len() implies depth_below(
        #[trigger] d.sections[k],
        125,
    ) by {
        lemma_depth_below_mono(d.sections[k], 124, 125);
    }
    lemma_no_reserved_arr_intro(d.sections);
    lemma_depth_arr_intro(d.sections, 126);
    let ps = seq![
        ("version"@, JsonV::Str(d.version)),
        ("markups"@, JsonV::Arr(ms)),
        ("atoms"@, JsonV::Arr(avs)),
        ("cards"@, JsonV::Arr(cs)),
        ("sections"@, JsonV::Arr(d.sections)),
    ];
    assert(spec_doc_to_json(d) == JsonV::Obj(ps));
    assert forall|i: int| 0 <= i < ps.len() implies (#[trigger] ps[i]).0 != reserved_number_key()
        && no_reserved_keys(ps[i].1) && depth_below(ps[i].1, 126) by {
        assert(ps[0].1 == JsonV::Str(d.version));
        assert(ps[1].1 == JsonV::Arr(ms));
        assert(ps[2].1 == JsonV::Arr(avs));
        assert(ps[3].1 == JsonV::Arr(cs));
        assert(ps[4].1 == JsonV::Arr(d.sections));
    }
    lemma_no_reserved_obj_intro(ps);
    lemma_depth_obj_intro(ps, 127);
}

} // verus!

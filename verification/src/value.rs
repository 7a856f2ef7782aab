//! The generic JSON data model both engines share: primitives, arrays and
//! ordered objects, together with a ghost model of each value, numeric-token
//! canonicalization, and normalization.
//!
//! Numbers are carried as their canonical decimal token. A token is made
//! canonical once, when it enters the model: zero in any spelling becomes
//! `0`, every other in-range number becomes the form serde_json writes for
//! it, and numbers outside the finite double range become `Null`.

use vstd::prelude::*;

verus! {

use crate::literals::json_number_core;

/// A JSON primitive: string, number (as its canonical token), boolean, null.
#[derive(Debug, PartialEq)]
pub enum StringOrNumberOrBoolOrNull {
    String(String),
    Number(String),
    Bool(bool),
    Null,
}

pub type JsonPrimitive = StringOrNumberOrBoolOrNull;

/// A JSON value: a primitive, an ordered array, or an ordered object whose
/// entry order is significant and preserved end-to-end.
#[derive(Debug, PartialEq)]
pub enum JsonValue {
    Primitive(JsonPrimitive),
    Array(Vec<JsonValue>),
    Object(Vec<(String, JsonValue)>),
}

pub type JsonObject = Vec<(String, JsonValue)>;

pub type JsonArray = Vec<JsonValue>;

/// One event of the canonical intermediate representation shared by the
/// decoder and the encoder.
#[derive(Debug, PartialEq)]
pub enum JsonStreamEvent {
    StartObject,
    EndObject,
    StartArray { length: usize },
    EndArray,
    Key { key: String, was_quoted: bool },
    Primitive { value: JsonPrimitive },
}

/// The ghost model of a primitive: the same shape over character sequences.
pub ghost enum PrimModel {
    Str(Seq<char>),
    Num(Seq<char>),
    Bool(bool),
    Null,
}

/// The ghost model of a value tree.
pub ghost enum ValueModel {
    Prim(PrimModel),
    Arr(Seq<ValueModel>),
    Obj(Seq<(Seq<char>, ValueModel)>),
}

/// The model of a primitive.
pub open spec fn prim_model(p: JsonPrimitive) -> PrimModel {
    match p {
        StringOrNumberOrBoolOrNull::String(s) => PrimModel::Str(s@),
        StringOrNumberOrBoolOrNull::Number(s) => PrimModel::Num(s@),
        StringOrNumberOrBoolOrNull::Bool(b) => PrimModel::Bool(b),
        StringOrNumberOrBoolOrNull::Null => PrimModel::Null,
    }
}

/// The model of a value tree.
pub open spec fn value_model(v: JsonValue) -> ValueModel
    decreases v,
{
    match v {
        JsonValue::Primitive(p) => ValueModel::Prim(prim_model(p)),
        JsonValue::Array(items) => ValueModel::Arr(arr_model(items@)),
        JsonValue::Object(entries) => ValueModel::Obj(obj_model(entries@)),
    }
}

/// The models of an array's items, in order.
pub open spec fn arr_model(s: Seq<JsonValue>) -> Seq<ValueModel>
    decreases s,
{
    if s.len() == 0 {
        Seq::empty()
    } else {
        seq![value_model(s[0])] + arr_model(s.drop_first())
    }
}

/// The models of an object's entries, in order.
pub open spec fn obj_model(s: Seq<(String, JsonValue)>) -> Seq<(Seq<char>, ValueModel)>
    decreases s,
{
    if s.len() == 0 {
        Seq::empty()
    } else {
        seq![(s[0].0@, value_model(s[0].1))] + obj_model(s.drop_first())
    }
}

/// [`arr_model`] maps the sequence index for index.
pub proof fn lemma_arr_model(s: Seq<JsonValue>)
    ensures
        arr_model(s).len() == s.len(),
        forall|i: int| 0 <= i < s.len() ==> #[trigger] arr_model(s)[i] == value_model(s[i]),
    decreases s,
{
    if s.len() > 0 {
        lemma_arr_model(s.drop_first());
    }
}

/// [`obj_model`] maps the sequence index for index.
pub proof fn lemma_obj_model(s: Seq<(String, JsonValue)>)
    ensures
        obj_model(s).len() == s.len(),
        forall|i: int|
            0 <= i < s.len() ==> #[trigger] obj_model(s)[i] == (s[i].0@, value_model(s[i].1)),
    decreases s,
{
    if s.len() > 0 {
        lemma_obj_model(s.drop_first());
    }
}

/// Is the mantissa of a grammar-valid numeric token all zeros? Such a token
/// denotes exactly zero, whatever its exponent says.
pub open spec fn zero_mantissa_from(s: Seq<char>, i: int) -> bool
    decreases s.len() - i,
{
    if i < 0 || i >= s.len() {
        true
    } else if s[i] == 'e' || s[i] == 'E' {
        true
    } else if '1' <= s[i] && s[i] <= '9' {
        false
    } else {
        zero_mantissa_from(s, i + 1)
    }
}

/// Does the token denote zero: no nonzero digit before the exponent part?
pub open spec fn is_zero_token(s: Seq<char>) -> bool {
    zero_mantissa_from(s, 0)
}

/// Executable form of [`is_zero_token`].
pub fn chars_zero_token(cs: &Vec<char>) -> (r: bool)
    ensures
        r == is_zero_token(cs@),
{
    let mut i: usize = 0;
    while i < cs.len()
        invariant
            0 <= i <= cs.len(),
            zero_mantissa_from(cs@, 0) == zero_mantissa_from(cs@, i as int),
        decreases cs.len() - i,
    {
        let c = cs[i];
        if c == 'e' || c == 'E' {
            return true;
        }
        if '1' <= c && c <= '9' {
            return false;
        }
        i += 1;
    }
    true
}

/// What serde_json makes of a numeric token: the parsed number written back
/// in serde_json's canonical spelling, or nothing when the number lies
/// outside the finite double range.
pub uninterp spec fn number_canon(s: Seq<char>) -> Option<Seq<char>>;

/// Relies on serde_json's `Number` parser and `Display`, with the crate's
/// float-roundtrip feature enabled so that float parsing is exact: a token
/// in the JSON numeric grammar parses unless the number is out of the
/// finite double range, `Display` writes the parsed number back as a valid
/// JSON numeric token, and — because the exact parser recovers precisely
/// the number the shortest-form writer printed — writing then parsing again
/// is a fixed point.
#[verifier::external_body]
fn canonical_number_token(tok: &str) -> (r: Option<String>)
    requires
        json_number_core(tok@),
    ensures
        r is Some <==> number_canon(tok@) is Some,
        r matches Some(c) ==> c@ == number_canon(tok@).unwrap(),
        r matches Some(c) ==> json_number_core(c@),
        r matches Some(c) ==> number_canon(c@) == Some(c@),
{
    match tok.parse::<serde_json::Number>() {
        Ok(n) => Some(n.to_string()),
        Err(_) => None,
    }
}

/// The canonical spelling of a grammar-valid numeric token: `0` for any
/// spelling of zero, serde_json's spelling otherwise, `None` when the number
/// is out of range.
pub open spec fn number_norm(s: Seq<char>) -> Option<Seq<char>> {
    if is_zero_token(s) {
        Some(seq!['0'])
    } else {
        match number_canon(s) {
            Option::None => None,
            Option::Some(c) => if is_zero_token(c) {
                Some(seq!['0'])
            } else {
                Some(c)
            },
        }
    }
}

/// A token the model accepts as a stored number: `0`, or a nonzero canonical
/// token that canonicalizes to itself.
pub open spec fn is_canon_number(t: Seq<char>) -> bool {
    ||| t == seq!['0']
    ||| (number_canon(t) == Some(t) && !is_zero_token(t) && json_number_core(t))
}

/// Canonical tokens are fixed points of [`number_norm`].
pub proof fn lemma_canon_number_fixed(t: Seq<char>)
    requires
        is_canon_number(t),
    ensures
        number_norm(t) == Some(t),
{
    if t == seq!['0'] {
        assert(zero_mantissa_from(seq!['0'], 1));
        assert(is_zero_token(t));
    }
}

/// The canonical form `0` is in the numeric grammar.
pub proof fn lemma_zero_is_number()
    ensures
        json_number_core(seq!['0']),
        is_canon_number(seq!['0']),
{
    let t = seq!['0'];
    assert(t[0] == '0');
    assert(crate::literals::numeric_tail_ok(t, 1));
}

/// Canonical number tokens are in the numeric grammar.
pub proof fn lemma_canon_number_grammar(t: Seq<char>)
    requires
        is_canon_number(t),
    ensures
        json_number_core(t),
{
    if t == seq!['0'] {
        lemma_zero_is_number();
    }
}

/// Bring a grammar-valid trimmed numeric token into canonical form, or
/// report that the number is out of the finite double range.
pub fn normalize_number_token(tok: &str) -> (r: Option<String>)
    requires
        json_number_core(tok@),
    ensures
        match r {
            Option::Some(c) => number_norm(tok@) == Some(c@) && is_canon_number(c@),
            Option::None => number_norm(tok@) is None,
        },
{
    let cs = crate::text::chars_of(tok);
    if chars_zero_token(&cs) {
        let z = zero_string();
        return Some(z);
    }
    match canonical_number_token(tok) {
        Option::Some(c) => {
            let ccs = crate::text::chars_of(c.as_str());
            if chars_zero_token(&ccs) {
                let z = zero_string();
                Some(z)
            } else {
                Some(c)
            }
        },
        Option::None => None,
    }
}

/// The one-character string `0`.
fn zero_string() -> (r: String)
    ensures
        r@ == seq!['0'],
        is_canon_number(r@),
{
    let mut v: Vec<char> = Vec::new();
    v.push('0');
    proof {
        assert(v@ =~= seq!['0']);
        assert(zero_mantissa_from(seq!['0'], 1));
        lemma_zero_is_number();
    }
    crate::text::string_from_chars(v.as_slice())
}

/// Every number stored in the primitive is canonical.
pub open spec fn prim_normal(p: PrimModel) -> bool {
    match p {
        PrimModel::Num(t) => is_canon_number(t),
        _ => true,
    }
}

/// Every number stored anywhere in the tree is canonical.
pub open spec fn model_normal(m: ValueModel) -> bool
    decreases m,
{
    match m {
        ValueModel::Prim(p) => prim_normal(p),
        ValueModel::Arr(items) => forall|i: int|
            0 <= i < items.len() ==> model_normal(#[trigger] items[i]),
        ValueModel::Obj(entries) => forall|i: int|
            0 <= i < entries.len() ==> model_normal(#[trigger] entries[i].1),
    }
}

/// The normal form of a primitive model: numeric tokens are canonicalized,
/// out-of-range and malformed numeric tokens become null.
pub open spec fn norm_prim(p: PrimModel) -> PrimModel {
    match p {
        PrimModel::Num(t) => if json_number_core(t) {
            match number_norm(t) {
                Option::Some(c) => PrimModel::Num(c),
                Option::None => PrimModel::Null,
            }
        } else {
            PrimModel::Null
        },
        _ => p,
    }
}

/// The normal form of a value model.
pub open spec fn norm_model(m: ValueModel) -> ValueModel
    decreases m,
{
    match m {
        ValueModel::Prim(p) => ValueModel::Prim(norm_prim(p)),
        ValueModel::Arr(items) => ValueModel::Arr(norm_arr(items)),
        ValueModel::Obj(entries) => ValueModel::Obj(norm_obj(entries)),
    }
}

/// The normal forms of an array model's items, in order.
pub open spec fn norm_arr(s: Seq<ValueModel>) -> Seq<ValueModel>
    decreases s,
{
    if s.len() == 0 {
        Seq::empty()
    } else {
        seq![norm_model(s[0])] + norm_arr(s.drop_first())
    }
}

/// The normal forms of an object model's entries, in order.
pub open spec fn norm_obj(s: Seq<(Seq<char>, ValueModel)>) -> Seq<(Seq<char>, ValueModel)>
    decreases s,
{
    if s.len() == 0 {
        Seq::empty()
    } else {
        seq![(s[0].0, norm_model(s[0].1))] + norm_obj(s.drop_first())
    }
}

/// [`norm_arr`] maps the sequence index for index.
pub proof fn lemma_norm_arr(s: Seq<ValueModel>)
    ensures
        norm_arr(s).len() == s.len(),
        forall|i: int| 0 <= i < s.len() ==> #[trigger] norm_arr(s)[i] == norm_model(s[i]),
    decreases s,
{
    if s.len() > 0 {
        lemma_norm_arr(s.drop_first());
    }
}

/// [`norm_obj`] maps the sequence index for index.
pub proof fn lemma_norm_obj(s: Seq<(Seq<char>, ValueModel)>)
    ensures
        norm_obj(s).len() == s.len(),
        forall|i: int|
            0 <= i < s.len() ==> #[trigger] norm_obj(s)[i] == (s[i].0, norm_model(s[i].1)),
    decreases s,
{
    if s.len() > 0 {
        lemma_norm_obj(s.drop_first());
    }
}

/// Canonicalize the numeric edge cases of one primitive: any spelling of
/// zero becomes `0`, an out-of-range or malformed numeric token becomes
/// `Null`, everything else is unchanged.
pub fn normalize_primitive(value: JsonPrimitive) -> (r: JsonPrimitive)
    ensures
        prim_model(r) == norm_prim(prim_model(value)),
        prim_normal(prim_model(r)),
{
    match value {
        StringOrNumberOrBoolOrNull::Number(s) => {
            let cs = crate::text::chars_of(s.as_str());
            if !crate::literals::chars_json_number_trimmed(&cs) {
                return StringOrNumberOrBoolOrNull::Null;
            }
            match normalize_number_token(s.as_str()) {
                Option::Some(c) => StringOrNumberOrBoolOrNull::Number(c),
                Option::None => StringOrNumberOrBoolOrNull::Null,
            }
        },
        other => other,
    }
}

/// A copy of a primitive, equal to the original.
pub fn clone_primitive(p: &JsonPrimitive) -> (r: JsonPrimitive)
    ensures
        r == *p,
{
    match p {
        StringOrNumberOrBoolOrNull::String(s) => StringOrNumberOrBoolOrNull::String(s.clone()),
        StringOrNumberOrBoolOrNull::Number(s) => StringOrNumberOrBoolOrNull::Number(s.clone()),
        StringOrNumberOrBoolOrNull::Bool(b) => StringOrNumberOrBoolOrNull::Bool(*b),
        StringOrNumberOrBoolOrNull::Null => StringOrNumberOrBoolOrNull::Null,
    }
}

/// A copy of a value tree, with the same model.
#[verifier::loop_isolation(false)]
pub fn clone_value(v: &JsonValue) -> (r: JsonValue)
    ensures
        value_model(r) == value_model(*v),
    decreases *v,
{
    match v {
        JsonValue::Primitive(p) => JsonValue::Primitive(clone_primitive(p)),
        JsonValue::Array(items) => {
            let mut out: Vec<JsonValue> = Vec::new();
            let mut i: usize = 0;
            while i < items.len()
                invariant
                    0 <= i <= items.len(),
                    out@.len() == i,
                    forall|k: int|
                        0 <= k < i ==> value_model(#[trigger] out@[k]) == value_model(items@[k]),
                decreases items.len() - i,
            {
                proof {
                    assert(decreases_to!(*v => *items));
                    assert(decreases_to!(items@ => items@[i as int]));
                }
                out.push(clone_value(&items[i]));
                i += 1;
            }
            proof {
                lemma_arr_model(out@);
                lemma_arr_model(items@);
                assert(arr_model(out@) =~= arr_model(items@));
            }
            JsonValue::Array(out)
        },
        JsonValue::Object(entries) => {
            let mut out: Vec<(String, JsonValue)> = Vec::new();
            let mut i: usize = 0;
            while i < entries.len()
                invariant
                    0 <= i <= entries.len(),
                    out@.len() == i,
                    forall|k: int|
                        0 <= k < i ==> (#[trigger] out@[k]).0@ == entries@[k].0@ && value_model(
                            out@[k].1,
                        ) == value_model(entries@[k].1),
                decreases entries.len() - i,
            {
                proof {
                    assert(decreases_to!(*v => *entries));
                    assert(decreases_to!(entries@ => entries@[i as int]));
                    assert(decreases_to!(entries@[i as int] => entries@[i as int].1));
                }
                let key = entries[i].0.clone();
                let val = clone_value(&entries[i].1);
                out.push((key, val));
                i += 1;
            }
            proof {
                lemma_obj_model(out@);
                lemma_obj_model(entries@);
                assert(obj_model(out@) =~= obj_model(entries@));
            }
            JsonValue::Object(out)
        },
    }
}

/// Canonicalize numeric edge cases everywhere in the tree before encoding.
pub fn normalize_json_value(value: JsonValue) -> (r: JsonValue)
    ensures
        value_model(r) == norm_model(value_model(value)),
        model_normal(value_model(r)),
{
    normalize_value_ref(&value)
}

#[verifier::loop_isolation(false)]
fn normalize_value_ref(v: &JsonValue) -> (r: JsonValue)
    ensures
        value_model(r) == norm_model(value_model(*v)),
        model_normal(value_model(r)),
    decreases *v,
{
    match v {
        JsonValue::Primitive(p) => JsonValue::Primitive(normalize_primitive(clone_primitive(p))),
        JsonValue::Array(items) => {
            let mut out: Vec<JsonValue> = Vec::new();
            let mut i: usize = 0;
            while i < items.len()
                invariant
                    0 <= i <= items.len(),
                    out@.len() == i,
                    forall|k: int|
                        0 <= k < i ==> value_model(#[trigger] out@[k]) == norm_model(
                            value_model(items@[k]),
                        ) && model_normal(value_model(out@[k])),
                decreases items.len() - i,
            {
                proof {
                    assert(decreases_to!(*v => *items));
                    assert(decreases_to!(items@ => items@[i as int]));
                }
                out.push(normalize_value_ref(&items[i]));
                i += 1;
            }
            proof {
                lemma_arr_model(out@);
                lemma_arr_model(items@);
                lemma_norm_arr(arr_model(items@));
                assert(arr_model(out@) =~= norm_arr(arr_model(items@)));
            }
            JsonValue::Array(out)
        },
        JsonValue::Object(entries) => {
            let mut out: Vec<(String, JsonValue)> = Vec::new();
            let mut i: usize = 0;
            while i < entries.len()
                invariant
                    0 <= i <= entries.len(),
                    out@.len() == i,
                    forall|k: int|
                        0 <= k < i ==> (#[trigger] out@[k]).0@ == entries@[k].0@ && value_model(
                            out@[k].1,
                        ) == norm_model(value_model(entries@[k].1)) && model_normal(
                            value_model(out@[k].1),
                        ),
                decreases entries.len() - i,
            {
                proof {
                    assert(decreases_to!(*v => *entries));
                    assert(decreases_to!(entries@ => entries@[i as int]));
                    assert(decreases_to!(entries@[i as int] => entries@[i as int].1));
                }
                let key = entries[i].0.clone();
                let val = normalize_value_ref(&entries[i].1);
                out.push((key, val));
                i += 1;
            }
            proof {
                lemma_obj_model(out@);
                lemma_obj_model(entries@);
                lemma_norm_obj(obj_model(entries@));
                assert(obj_model(out@) =~= norm_obj(obj_model(entries@)));
            }
            JsonValue::Object(out)
        },
    }
}

/// Is the value a primitive?
pub fn is_json_primitive(value: &JsonValue) -> (r: bool)
    ensures
        r == (value matches JsonValue::Primitive(_)),
{
    match value {
        JsonValue::Primitive(_) => true,
        _ => false,
    }
}

/// Is the value an array?
pub fn is_json_array(value: &JsonValue) -> (r: bool)
    ensures
        r == (value matches JsonValue::Array(_)),
{
    match value {
        JsonValue::Array(_) => true,
        _ => false,
    }
}

/// Is the value an object?
pub fn is_json_object(value: &JsonValue) -> (r: bool)
    ensures
        r == (value matches JsonValue::Object(_)),
{
    match value {
        JsonValue::Object(_) => true,
        _ => false,
    }
}

/// Has the object no entries?
pub fn is_empty_object(value: &JsonObject) -> (r: bool)
    ensures
        r == (value@.len() == 0),
{
    value.len() == 0
}

/// Is every element of the array a primitive?
pub fn is_array_of_primitives(value: &JsonArray) -> (r: bool)
    ensures
        r == (forall|i: int|
            0 <= i < value@.len() ==> #[trigger] value@[i] matches JsonValue::Primitive(_)),
{
    let mut i: usize = 0;
    while i < value.len()
        invariant
            0 <= i <= value.len(),
            forall|k: int| 0 <= k < i ==> #[trigger] value@[k] matches JsonValue::Primitive(_),
        decreases value.len() - i,
    {
        if !is_json_primitive(&value[i]) {
            return false;
        }
        i += 1;
    }
    true
}

/// Is every element of the array itself an array?
pub fn is_array_of_arrays(value: &JsonArray) -> (r: bool)
    ensures
        r == (forall|i: int|
            0 <= i < value@.len() ==> #[trigger] value@[i] matches JsonValue::Array(_)),
{
    let mut i: usize = 0;
    while i < value.len()
        invariant
            0 <= i <= value.len(),
            forall|k: int| 0 <= k < i ==> #[trigger] value@[k] matches JsonValue::Array(_),
        decreases value.len() - i,
    {
        if !is_json_array(&value[i]) {
            return false;
        }
        i += 1;
    }
    true
}

/// Is every element of the array an object?
pub fn is_array_of_objects(value: &JsonArray) -> (r: bool)
    ensures
        r == (forall|i: int|
            0 <= i < value@.len() ==> #[trigger] value@[i] matches JsonValue::Object(_)),
{
    let mut i: usize = 0;
    while i < value.len()
        invariant
            0 <= i <= value.len(),
            forall|k: int| 0 <= k < i ==> #[trigger] value@[k] matches JsonValue::Object(_),
        decreases value.len() - i,
    {
        if !is_json_object(&value[i]) {
            return false;
        }
        i += 1;
    }
    true
}

} // verus!

//! The `GeoJSON` document model, as `geojson` and `serde_json` define it.
//!
//! Structs and enums whose fields are public are declared with their fields,
//! so the rest of the crate matches on them directly. The others (`Position`,
//! `serde_json::Value`, `serde_json::Number`, `serde_json::Map`) are opaque: a
//! specification function names what a value of each holds, and the contracts
//! of the foreign functions below are stated over those names.

use geojson::{GeoJson, JsonObject, JsonValue, Position};
use mlt_core::PropValue;
use serde_json::Number;
use vstd::float::FloatBitsProperties;
use vstd::prelude::*;

verus! {

/// A `GeoJSON` document: a feature collection, a feature or a bare geometry.
#[verifier::external_type_specification]
pub struct ExGeoJson(geojson::GeoJson);

/// A list of features.
#[verifier::external_type_specification]
pub struct ExFeatureCollection(geojson::FeatureCollection);

/// A feature: an optional geometry, an optional identifier and optional
/// properties.
#[verifier::external_type_specification]
pub struct ExFeature(geojson::Feature);

/// A feature identifier: a string or a number.
#[verifier::external_type_specification]
pub struct ExId(geojson::feature::Id);

/// A geometry value with its bounding box and foreign members.
#[verifier::external_type_specification]
pub struct ExGeometry(geojson::Geometry);

/// The seven kinds of geometry.
#[verifier::external_type_specification]
pub struct ExGeometryValue(geojson::GeometryValue);

/// A position: a sequence of ordinates, see [`ordinates`].
#[verifier::external_type_specification]
#[verifier::external_body]
pub struct ExPosition(geojson::Position);

/// What is wrong with a text that is no `GeoJSON`.
#[verifier::external_type_specification]
#[verifier::external_body]
pub struct ExGeoJsonError(geojson::Error);

/// A JSON value, see [`json_node`].
#[verifier::external_type_specification]
#[verifier::external_body]
pub struct ExJsonValue(serde_json::Value);

/// A JSON number, see [`number_model`].
#[verifier::external_type_specification]
#[verifier::external_body]
pub struct ExJsonNumber(serde_json::Number);

/// A JSON object, see [`object_entries`].
#[verifier::external_type_specification]
#[verifier::external_body]
#[verifier::reject_recursive_types(K)]
#[verifier::reject_recursive_types(V)]
pub struct ExJsonMap<K, V>(serde_json::Map<K, V>);

/// What a JSON number is: a non-negative integer, a negative integer, or
/// anything else, held as the bits of an IEEE 754 double.
pub enum NumberModel {
    PosInt(u64),
    NegInt(i64),
    Float(u64),
}

/// The outermost constructor of a JSON value, with the scalar it carries.
pub enum JsonNode {
    Null,
    Bool(bool),
    Number(Number),
    String(Seq<char>),
    Array,
    Object,
}

/// The outermost constructor of a borrowed JSON value.
pub enum JsonRef<'a> {
    Null,
    Bool(bool),
    Number(&'a Number),
    String(&'a String),
    Array,
    Object,
}

impl<'a> JsonRef<'a> {
    /// The constructor that `self` shows.
    pub open spec fn node(self) -> JsonNode {
        match self {
            JsonRef::Null => JsonNode::Null,
            JsonRef::Bool(b) => JsonNode::Bool(b),
            JsonRef::Number(n) => JsonNode::Number(*n),
            JsonRef::String(s) => JsonNode::String(s@),
            JsonRef::Array => JsonNode::Array,
            JsonRef::Object => JsonNode::Object,
        }
    }
}

impl NumberModel {
    /// The number as a `u64`, where it is one.
    pub open spec fn unsigned(self) -> Option<u64> {
        match self {
            NumberModel::PosInt(v) => Some(v),
            _ => None,
        }
    }

    /// The number as an `i64`, where it is one.
    pub open spec fn signed(self) -> Option<i64> {
        match self {
            NumberModel::PosInt(v) => if v <= i64::MAX {
                Some(v as i64)
            } else {
                None
            },
            NumberModel::NegInt(v) => Some(v),
            NumberModel::Float(_) => None,
        }
    }
}

/// The ordinates of a position, each as the bits of an IEEE 754 double.
pub uninterp spec fn ordinates(p: Position) -> Seq<u64>;

/// The outermost constructor of a JSON value.
pub uninterp spec fn json_node(v: JsonValue) -> JsonNode;

/// The compact JSON text of a JSON value.
pub uninterp spec fn json_text(v: JsonValue) -> Seq<char>;

/// What a JSON number is.
pub uninterp spec fn number_model(n: Number) -> NumberModel;

/// The bits of the double nearest to a number, ties to even.
pub uninterp spec fn nearest_double(m: NumberModel) -> u64;

/// The members of a JSON object in the order in which the object is walked.
pub uninterp spec fn object_entries(object: JsonObject) -> Seq<(Seq<char>, JsonValue)>;

/// The document that a text denotes, where it denotes one.
pub uninterp spec fn parsed_geojson(text: Seq<char>) -> Option<GeoJson>;

/// The value that `entries` gives for `key`.
pub open spec fn lookup(entries: Seq<(Seq<char>, JsonValue)>, key: Seq<char>) -> Option<JsonValue>
    decreases entries.len(),
{
    if entries.len() == 0 {
        None
    } else if entries.last().0 == key {
        Some(entries.last().1)
    } else {
        lookup(entries.drop_last(), key)
    }
}

/// The bits of the double that a property value holds, where it holds one.
pub open spec fn double_bits(value: PropValue) -> Option<u64> {
    match value {
        PropValue::F64(Some(d)) => Some(d.to_bits_spec()),
        _ => None,
    }
}

/// `geojson::Position::len` counts the ordinates.
#[verifier::external_body]
pub(crate) fn ordinate_count(p: &Position) -> (n: usize)
    ensures
        n == ordinates(*p).len(),
{
    p.len()
}

/// `geojson::Position::as_slice` gives the ordinates; this is the one at
/// `index`, as its bits.
#[verifier::external_body]
pub(crate) fn ordinate(p: &Position, index: usize) -> (bits: u64)
    requires
        index < ordinates(*p).len(),
    ensures
        bits == ordinates(*p)[index as int],
{
    p.as_slice()[index].to_bits()
}

/// The variants of `serde_json::Value` told apart.
#[verifier::external_body]
pub(crate) fn open_json(v: &JsonValue) -> (r: JsonRef<'_>)
    ensures
        r.node() == json_node(*v),
{
    match v {
        JsonValue::Null => JsonRef::Null,
        JsonValue::Bool(b) => JsonRef::Bool(*b),
        JsonValue::Number(n) => JsonRef::Number(n),
        JsonValue::String(s) => JsonRef::String(s),
        JsonValue::Array(_) => JsonRef::Array,
        JsonValue::Object(_) => JsonRef::Object,
    }
}

/// The `Display` of `serde_json::Value`, which writes compact JSON.
#[verifier::external_body]
pub(crate) fn json_string(v: &JsonValue) -> (s: String)
    ensures
        s@ == json_text(*v),
{
    v.to_string()
}

/// `serde_json::Number::is_u64` holds of the non-negative integers.
pub assume_specification[ serde_json::Number::is_u64 ](n: &Number) -> (r: bool)
    ensures
        r == (number_model(*n).unsigned() is Some),
;

/// `serde_json::Number::is_i64` holds of the integers in the range of `i64`.
pub assume_specification[ serde_json::Number::is_i64 ](n: &Number) -> (r: bool)
    ensures
        r == (number_model(*n).signed() is Some),
;

/// `serde_json::Number::as_u64` gives the non-negative integers.
pub assume_specification[ serde_json::Number::as_u64 ](n: &Number) -> (r: Option<u64>)
    ensures
        r == number_model(*n).unsigned(),
;

/// `serde_json::Number::as_i64` gives the integers in the range of `i64`.
pub assume_specification[ serde_json::Number::as_i64 ](n: &Number) -> (r: Option<i64>)
    ensures
        r == number_model(*n).signed(),
;

/// `serde_json::Number::as_f64` always gives a double: the number itself where
/// it is held as one, else the double nearest to the integer.
#[verifier::external_body]
pub(crate) fn double_value(n: &Number) -> (r: PropValue)
    ensures
        double_bits(r) == Some(nearest_double(number_model(*n))),
        number_model(*n) matches NumberModel::Float(bits) ==> double_bits(r) == Some(bits),
{
    PropValue::F64(n.as_f64())
}

/// `serde_json::Map::iter` walks the members of an object, whose names are
/// distinct.
#[verifier::external_body]
pub(crate) fn object_items(object: &JsonObject) -> (items: Vec<(&String, &JsonValue)>)
    ensures
        items.len() == object_entries(*object).len(),
        forall|i: int|
            0 <= i < items.len() ==> (#[trigger] items[i]).0@ == object_entries(*object)[i].0
                && *items[i].1 == object_entries(*object)[i].1,
        forall|i: int, j: int|
            0 <= i < j < items.len() ==> (#[trigger] items[i]).0@ != (#[trigger] items[j]).0@,
{
    object.iter().collect()
}

/// `serde_json::Map::get` gives the value of the member named `key`.
#[verifier::external_body]
pub(crate) fn object_get<'a>(object: &'a JsonObject, key: &String) -> (value: Option<&'a JsonValue>)
    ensures
        value matches Some(v) ==> lookup(object_entries(*object), key@) == Some(*v),
        value is None ==> lookup(object_entries(*object), key@) is None,
{
    object.get(key)
}

/// The `FromStr` of `geojson::GeoJson`, which depends on the text alone.
#[verifier::external_body]
pub(crate) fn parse_geojson(text: &str) -> (document: Result<GeoJson, geojson::Error>)
    ensures
        document matches Ok(g) ==> parsed_geojson(text@) == Some(g),
        document is Err ==> parsed_geojson(text@) is None,
{
    text.parse()
}

/// A JSON number is an integer or not. A non-negative one is a `u64`, and an `i64`
/// too where it is in range; a negative one is an `i64` only; any other number is
/// neither.
pub proof fn law_integers_split_by_sign(v: u64, w: i64, bits: u64)
    ensures
        NumberModel::PosInt(v).unsigned() == Some(v),
        NumberModel::PosInt(v).signed() matches Some(s) ==> s as int == v as int,
        NumberModel::PosInt(v).signed() is Some <==> v <= 0x7fff_ffff_ffff_ffff,
        NumberModel::NegInt(w).unsigned() is None,
        NumberModel::NegInt(w).signed() == Some(w),
        NumberModel::Float(bits).unsigned() is None,
        NumberModel::Float(bits).signed() is None,
{
}

/// A borrowed JSON value shows the constructor and the scalar that the value has.
pub proof fn law_references_show_their_value(b: bool, n: &Number, s: &String)
    ensures
        JsonRef::Null.node() == JsonNode::Null,
        JsonRef::Bool(b).node() == JsonNode::Bool(b),
        JsonRef::Number(n).node() == JsonNode::Number(*n),
        JsonRef::String(s).node() == JsonNode::String(s@),
        JsonRef::Array.node() == JsonNode::Array,
        JsonRef::Object.node() == JsonNode::Object,
{
}

/// Looking a name up finds a value that stands under it, and finds none only where
/// none stands there. Where one stands there it is that one.
pub proof fn law_lookup_finds_what_is_there(entries: Seq<(Seq<char>, JsonValue)>, key: Seq<char>)
    ensures
        lookup(entries, key) is None <==> (forall|i: int|
            0 <= i < entries.len() ==> (#[trigger] entries[i]).0 != key),
        lookup(entries, key) matches Some(value) ==> entries.contains((key, value)),
        forall|i: int|
            0 <= i < entries.len() && (#[trigger] entries[i]).0 == key && (forall|j: int|
                0 <= j < entries.len() && j != i ==> (#[trigger] entries[j]).0 != key) ==> lookup(
                entries,
                key,
            ) == Some(entries[i].1),
    decreases entries.len(),
{
    if entries.len() > 0 {
        let rest = entries.drop_last();
        law_lookup_finds_what_is_there(rest, key);
        assert(entries[entries.len() - 1] == entries.last());
        assert(forall|i: int| 0 <= i < rest.len() ==> rest[i] == #[trigger] entries[i]);
        if entries.last().0 == key {
            assert(entries.contains((key, entries.last().1)));
        } else if lookup(rest, key) is Some {
            let value = lookup(rest, key)->0;
            let i = choose|i: int| 0 <= i < rest.len() && rest[i] == (key, value);
            assert(entries[i] == (key, value));
        }
    }
}

} // verus!

//! Property schema inference and value conversion.
//!
//! `GeoJSON` properties are dynamically typed JSON, while a layer needs one
//! fixed [`PropKind`] per column, shared by every feature and every tile. All
//! features are therefore scanned once to infer the kind of each column:
//! conflicting columns collapse to `Str`, integer and float ranges widen, and a
//! column that is always absent or null becomes `Str`.

use geojson::feature::Id;
use geojson::{Feature, JsonValue};
use mlt_core::{PropKind, PropValue};
use vstd::float::FloatBitsProperties;
use vstd::prelude::*;

use crate::json::{
    double_bits, double_value, json_node, json_string, json_text, law_lookup_finds_what_is_there,
    lookup, nearest_double, number_model, object_entries, object_get, object_items, open_json,
    JsonNode, JsonRef, NumberModel,
};
use crate::mlt::{kind_of, null_of, row_fits};

verus! {

/// Column type inferred from JSON property values across all features.
///
/// `Unknown` is the state of a column seen only as absent or null; it resolves
/// to `Str`.
#[derive(Debug, Clone, Copy, PartialEq, Eq, Structural)]
pub enum InferredKind {
    Unknown,
    Bool,
    I64,
    U64,
    F64,
    Str,
}

impl InferredKind {
    /// The kind of a single JSON value.
    pub open spec fn of(node: JsonNode) -> Self {
        match node {
            JsonNode::Null => InferredKind::Unknown,
            JsonNode::Bool(_) => InferredKind::Bool,
            JsonNode::Number(n) => if number_model(n).unsigned() is Some {
                InferredKind::U64
            } else if number_model(n).signed() is Some {
                InferredKind::I64
            } else {
                InferredKind::F64
            },
            JsonNode::String(_) | JsonNode::Array | JsonNode::Object => InferredKind::Str,
        }
    }

    /// How wide a numeric kind is: zero for the others.
    pub open spec fn width(self) -> int {
        match self {
            InferredKind::U64 => 1,
            InferredKind::I64 => 2,
            InferredKind::F64 => 3,
            _ => 0,
        }
    }

    /// The kind that has the values of both: the other one for `Unknown`, the
    /// wider of two numeric kinds, else `Str` unless the kinds are equal.
    pub open spec fn join(self, other: Self) -> Self {
        if self == InferredKind::Unknown {
            other
        } else if other == InferredKind::Unknown || self == other {
            self
        } else if self.width() > 0 && other.width() > 0 {
            if self.width() > other.width() {
                self
            } else {
                other
            }
        } else {
            InferredKind::Str
        }
    }

    /// The kind of column for the kind of its values.
    pub open spec fn column(self) -> PropKind {
        match self {
            InferredKind::Unknown | InferredKind::Str => PropKind::Str,
            InferredKind::Bool => PropKind::Bool,
            InferredKind::I64 => PropKind::I64,
            InferredKind::U64 => PropKind::U64,
            InferredKind::F64 => PropKind::F64,
        }
    }

    /// Classifies a single JSON value. Integers split by sign: the non-negative
    /// ones are `U64`, the negative ones `I64`. Other numbers are `F64`. Arrays
    /// and objects are stringified, so they read as `Str`. JSON null is
    /// `Unknown`.
    pub fn from_json(val: &JsonValue) -> (r: Self)
        ensures
            r == Self::of(json_node(*val)),
    {
        match open_json(val) {
            JsonRef::Null => InferredKind::Unknown,
            JsonRef::Bool(_) => InferredKind::Bool,
            JsonRef::Number(n) => {
                if n.is_u64() {
                    InferredKind::U64
                } else if n.is_i64() {
                    InferredKind::I64
                } else {
                    InferredKind::F64
                }
            },
            JsonRef::String(_) | JsonRef::Array | JsonRef::Object => InferredKind::Str,
        }
    }

    /// Merges with another kind, widening when necessary and falling back to
    /// `Str` on any irreconcilable conflict.
    pub fn merge(self, other: Self) -> (r: Self)
        ensures
            r == self.join(other),
    {
        if self == InferredKind::Unknown {
            return other;
        }
        if other == InferredKind::Unknown || self == other {
            return self;
        }
        match (self, other) {
            (InferredKind::I64, InferredKind::U64) | (InferredKind::U64, InferredKind::I64) => {
                InferredKind::I64
            },
            (InferredKind::F64, InferredKind::I64 | InferredKind::U64) => InferredKind::F64,
            (InferredKind::I64 | InferredKind::U64, InferredKind::F64) => InferredKind::F64,
            _ => InferredKind::Str,
        }
    }

    /// The kind of column.
    pub fn to_kind(self) -> (r: PropKind)
        ensures
            r == self.column(),
    {
        match self {
            InferredKind::Unknown | InferredKind::Str => PropKind::Str,
            InferredKind::Bool => PropKind::Bool,
            InferredKind::I64 => PropKind::I64,
            InferredKind::U64 => PropKind::U64,
            InferredKind::F64 => PropKind::F64,
        }
    }
}

/// Merging does not depend on order or grouping, and merging a kind with itself
/// changes nothing.
pub proof fn law_join_is_semilattice(a: InferredKind, b: InferredKind, c: InferredKind)
    ensures
        a.join(b) == b.join(a),
        a.join(b).join(c) == a.join(b.join(c)),
        a.join(a) == a,
{
}

/// `Unknown` gives way to every kind, and every kind gives way to `Str`.
pub proof fn law_join_bounds(kind: InferredKind)
    ensures
        kind.join(InferredKind::Unknown) == kind,
        InferredKind::Unknown.join(kind) == kind,
        kind.join(InferredKind::Str) == InferredKind::Str,
        InferredKind::Str.join(kind) == InferredKind::Str,
{
}

/// Kinds that are neither equal nor `Unknown` nor both numeric end in `Str`.
pub proof fn law_conflicts_end_in_str(a: InferredKind, b: InferredKind)
    requires
        a != b,
        a != InferredKind::Unknown,
        b != InferredKind::Unknown,
        a.width() == 0 || b.width() == 0,
    ensures
        a.join(b) == InferredKind::Str,
        a.join(b).column() == PropKind::Str,
{
}

/// A property: its name and its value.
pub type Entry = (Seq<char>, JsonValue);

/// The properties of a feature, in order.
pub open spec fn feature_entries(feature: Feature) -> Seq<Entry> {
    match feature.properties {
        Some(object) => object_entries(object),
        None => seq![],
    }
}

/// The properties of all features, one feature after the other.
pub open spec fn all_entries(features: Seq<Feature>) -> Seq<Entry>
    decreases features.len(),
{
    if features.len() == 0 {
        seq![]
    } else {
        all_entries(features.drop_last()) + feature_entries(features.last())
    }
}

/// The names that occur, each once, in the order of their first occurrence.
pub open spec fn first_seen(entries: Seq<Entry>) -> Seq<Seq<char>>
    decreases entries.len(),
{
    if entries.len() == 0 {
        seq![]
    } else {
        let seen = first_seen(entries.drop_last());
        if seen.contains(entries.last().0) {
            seen
        } else {
            seen.push(entries.last().0)
        }
    }
}

/// The kind that has all the values that occur under a name.
pub open spec fn merged(entries: Seq<Entry>, name: Seq<char>) -> InferredKind
    decreases entries.len(),
{
    if entries.len() == 0 {
        InferredKind::Unknown
    } else {
        let kind = merged(entries.drop_last(), name);
        if entries.last().0 == name {
            kind.join(InferredKind::of(json_node(entries.last().1)))
        } else {
            kind
        }
    }
}

/// The columns for properties: their names in the order of first occurrence,
/// each with the kind that has all its values.
pub open spec fn columns_for(entries: Seq<Entry>) -> Seq<(Seq<char>, PropKind)> {
    first_seen(entries).map_values(|name: Seq<char>| (name, merged(entries, name).column()))
}

/// The columns of a schema.
pub open spec fn columns_of(schema: Seq<(String, PropKind)>) -> Seq<(Seq<char>, PropKind)> {
    schema.map_values(|c: (String, PropKind)| (c.0@, c.1))
}

/// The texts of strings.
pub open spec fn texts(names: Seq<String>) -> Seq<Seq<char>> {
    names.map_values(|s: String| s@)
}

/// A name that has not been seen has no value.
proof fn lemma_unseen(entries: Seq<Entry>, name: Seq<char>)
    requires
        !first_seen(entries).contains(name),
    ensures
        merged(entries, name) == InferredKind::Unknown,
    decreases entries.len(),
{
    if entries.len() > 0 {
        let seen = first_seen(entries.drop_last());
        let all = first_seen(entries);
        if seen.contains(name) {
            let i = choose|i: int| 0 <= i < seen.len() && seen[i] == name;
            assert(all[i] == name);
        }
        if entries.last().0 == name {
            assert(all.contains(name)) by {
                if !seen.contains(name) {
                    assert(all[all.len() - 1] == name);
                }
            }
        }
        lemma_unseen(entries.drop_last(), name);
    }
}

/// The kind of every value of a name is merged in already.
proof fn lemma_merged_covers(entries: Seq<Entry>, name: Seq<char>, i: int)
    requires
        0 <= i < entries.len(),
        entries[i].0 == name,
    ensures
        merged(entries, name).join(InferredKind::of(json_node(entries[i].1))) == merged(
            entries,
            name,
        ),
    decreases entries.len(),
{
    if i < entries.len() - 1 {
        assert(entries.drop_last()[i] == entries[i]);
        lemma_merged_covers(entries.drop_last(), name, i);
    }
}

/// A kind into which every value of a name is merged has the merged kind merged
/// in.
proof fn lemma_merged_least(entries: Seq<Entry>, name: Seq<char>, kind: InferredKind)
    requires
        forall|i: int|
            0 <= i < entries.len() && (#[trigger] entries[i]).0 == name ==> kind.join(
                InferredKind::of(json_node(entries[i].1)),
            ) == kind,
    ensures
        kind.join(merged(entries, name)) == kind,
    decreases entries.len(),
{
    if entries.len() > 0 {
        let rest = entries.drop_last();
        assert forall|i: int| 0 <= i < rest.len() && (
        #[trigger] rest[i]).0 == name implies kind.join(InferredKind::of(json_node(rest[i].1)))
            == kind by {
            assert(entries[i] == rest[i]);
        }
        lemma_merged_least(rest, name, kind);
        assert(entries[entries.len() - 1] == entries.last());
    }
}

/// The kind of a column depends on which properties occur, not on their order
/// or on how often they occur.
pub proof fn law_merged_ignores_order(a: Seq<Entry>, b: Seq<Entry>, name: Seq<char>)
    requires
        forall|entry: Entry| a.contains(entry) <==> b.contains(entry),
    ensures
        merged(a, name) == merged(b, name),
{
    lemma_merged_absorbs(a, b, name);
    lemma_merged_absorbs(b, a, name);
}

/// The merged kind of `b` covers that of `a` where `b` has all properties of `a`.
proof fn lemma_merged_absorbs(a: Seq<Entry>, b: Seq<Entry>, name: Seq<char>)
    requires
        forall|entry: Entry| a.contains(entry) ==> b.contains(entry),
    ensures
        merged(b, name).join(merged(a, name)) == merged(b, name),
{
    let kind = merged(b, name);
    assert forall|i: int| 0 <= i < a.len() && (#[trigger] a[i]).0 == name implies kind.join(
        InferredKind::of(json_node(a[i].1)),
    ) == kind by {
        assert(a.contains(a[i]));
        let j = choose|j: int| 0 <= j < b.len() && b[j] == a[i];
        lemma_merged_covers(b, name, j);
    }
    lemma_merged_least(a, name, kind);
}

/// A column whose values are all null is a `Str` column.
pub proof fn law_null_column_is_str(entries: Seq<Entry>, name: Seq<char>)
    requires
        forall|i: int|
            0 <= i < entries.len() && (#[trigger] entries[i]).0 == name ==> json_node(entries[i].1)
                is Null,
    ensures
        merged(entries, name).column() == PropKind::Str,
{
    lemma_merged_least(entries, name, InferredKind::Unknown);
}

/// Finds the column of a name.
fn position(names: &Vec<String>, name: &String) -> (r: Option<usize>)
    ensures
        r matches Some(i) ==> i < names.len() && names[i as int]@ == name@,
        r is None ==> !texts(names@).contains(name@),
{
    for i in 0..names.len()
        invariant
            forall|j: int| 0 <= j < i ==> (#[trigger] names[j])@ != name@,
    {
        if names[i] == *name {
            return Some(i);
        }
    }
    None
}

/// Whether `names` and `kinds` are the columns for `entries`.
spec fn tallied(names: Seq<String>, kinds: Seq<InferredKind>, entries: Seq<Entry>) -> bool {
    &&& texts(names) == first_seen(entries)
    &&& kinds.len() == names.len()
    &&& forall|i: int|
        0 <= i < kinds.len() ==> #[trigger] kinds[i] == merged(entries, names[i]@)
}

/// The names of columns are distinct.
proof fn lemma_first_seen_distinct(entries: Seq<Entry>)
    ensures
        first_seen(entries).no_duplicates(),
    decreases entries.len(),
{
    if entries.len() > 0 {
        lemma_first_seen_distinct(entries.drop_last());
    }
}

/// Every name that occurs has a column, and every column has a name that
/// occurs. No two columns have the same name.
pub proof fn law_columns_are_the_names(entries: Seq<Entry>)
    ensures
        first_seen(entries).no_duplicates(),
        forall|i: int|
            0 <= i < entries.len() ==> first_seen(entries).contains((#[trigger] entries[i]).0),
        forall|k: int|
            0 <= k < first_seen(entries).len() ==> exists|i: int|
                0 <= i < entries.len() && (#[trigger] entries[i]).0 == #[trigger] first_seen(
                    entries,
                )[k],
    decreases entries.len(),
{
    lemma_first_seen_distinct(entries);
    if entries.len() > 0 {
        let rest = entries.drop_last();
        let seen = first_seen(rest);
        let all = first_seen(entries);
        law_columns_are_the_names(rest);
        assert(entries[entries.len() - 1] == entries.last());
        assert forall|i: int| 0 <= i < entries.len() implies all.contains(
            (#[trigger] entries[i]).0,
        ) by {
            if i < rest.len() {
                assert(rest[i] == entries[i]);
                let k = choose|k: int| 0 <= k < seen.len() && seen[k] == entries[i].0;
                assert(all[k] == entries[i].0);
            } else if !seen.contains(entries.last().0) {
                assert(all[all.len() - 1] == entries.last().0);
            }
        }
        assert forall|k: int| 0 <= k < all.len() implies exists|i: int|
            0 <= i < entries.len() && (#[trigger] entries[i]).0 == #[trigger] all[k] by {
            if k < seen.len() {
                assert(seen[k] == all[k]);
                let i = choose|i: int|
                    0 <= i < rest.len() && (#[trigger] rest[i]).0 == seen[k];
                assert(entries[i].0 == all[k]);
            } else {
                assert(entries[entries.len() - 1].0 == all[k]);
            }
        }
    }
}

/// Counts one more property in.
fn tally(
    names: &mut Vec<String>,
    kinds: &mut Vec<InferredKind>,
    name: &String,
    value: &JsonValue,
    Ghost(entries): Ghost<Seq<Entry>>,
)
    requires
        tallied(old(names)@, old(kinds)@, entries),
    ensures
        tallied(final(names)@, final(kinds)@, entries.push((name@, *value))),
{
    let ghost next = entries.push((name@, *value));
    let ghost before = names@;
    proof {
        assert(next.drop_last() == entries);
        lemma_first_seen_distinct(entries);
    }
    match position(names, name) {
        Some(i) => {
            proof {
                assert(texts(names@)[i as int] == name@);
                assert forall|j: int| 0 <= j < names.len() && j != i implies (
                #[trigger] names@[j])@ != name@ by {
                    assert(texts(names@)[j] != texts(names@)[i as int]);
                }
            }
            let kind: InferredKind = kinds[i].merge(InferredKind::from_json(value));
            kinds.set(i, kind);
        },
        None => {
            proof {
                lemma_unseen(entries, name@);
                assert forall|j: int| 0 <= j < names.len() implies (#[trigger] names@[j])@
                    != name@ by {
                    assert(texts(names@)[j] == names@[j]@);
                }
            }
            names.push(name.clone());
            kinds.push(InferredKind::Unknown.merge(InferredKind::from_json(value)));
            assert(texts(names@) == texts(before).push(name@));
        },
    }
}

/// Builds the ordered, shared property schema for a set of features. The order
/// of the columns is that in which they are first seen, across features. A
/// column that is always null is `Str`.
pub fn infer_schema(features: &[Feature]) -> (r: Vec<(String, PropKind)>)
    ensures
        columns_of(r@) == columns_for(all_entries(features@)),
{
    let mut names: Vec<String> = Vec::new();
    let mut kinds: Vec<InferredKind> = Vec::new();
    assert(texts(names@) == first_seen(seq![]));
    for f in 0..features.len()
        invariant
            tallied(names@, kinds@, all_entries(features@.take(f as int))),
    {
        let ghost before = all_entries(features@.take(f as int));
        let ghost own = feature_entries(features@[f as int]);
        assert(features@.take(f + 1).drop_last() == features@.take(f as int));
        match &features[f].properties {
            Some(object) => {
                let items = object_items(object);
                assert(before + own.take(0) == before);
                for i in 0..items.len()
                    invariant
                        items.len() == own.len(),
                        forall|j: int|
                            0 <= j < items.len() ==> (#[trigger] items[j]).0@ == own[j].0
                                && *items[j].1 == own[j].1,
                        tallied(names@, kinds@, before + own.take(i as int)),
                {
                    let (name, value) = items[i];
                    assert(own[i as int] == (name@, *value));
                    assert(before + own.take(i + 1) == (before + own.take(i as int)).push(
                        (name@, *value),
                    ));
                    tally(
                        &mut names,
                        &mut kinds,
                        name,
                        value,
                        Ghost(before + own.take(i as int)),
                    );
                }
                assert(own.take(own.len() as int) == own);
            },
            None => {
                assert(before + own == before);
            },
        }
    }
    assert(features@.take(features@.len() as int) == features@);
    let ghost entries = all_entries(features@);
    let mut schema: Vec<(String, PropKind)> = Vec::new();
    for i in 0..names.len()
        invariant
            tallied(names@, kinds@, entries),
            schema.len() == i,
            forall|j: int|
                0 <= j < i ==> (#[trigger] schema[j]).0 == names[j] && schema[j].1
                    == kinds[j].column(),
    {
        schema.push((names[i].clone(), kinds[i].to_kind()));
    }
    assert forall|i: int| 0 <= i < schema.len() implies columns_of(schema@)[i] == columns_for(
        entries,
    )[i] by {
        assert(texts(names@)[i] == first_seen(entries)[i]);
        assert(schema[i].0 == names[i]);
    }
    assert(texts(names@).len() == first_seen(entries).len());
    schema
}

/// Whether `r` is what a JSON value, or the lack of one, becomes in a column.
pub open spec fn converts(kind: PropKind, value: Option<JsonValue>, r: PropValue) -> bool {
    match value {
        None => r == null_of(kind),
        Some(value) => match (kind, json_node(value)) {
            (_, JsonNode::Null) => r == null_of(kind),
            (PropKind::Bool, JsonNode::Bool(b)) => r == PropValue::Bool(Some(b)),
            (PropKind::I64, JsonNode::Number(n)) => r == PropValue::I64(number_model(n).signed()),
            (PropKind::U64, JsonNode::Number(n)) => r == PropValue::U64(number_model(n).unsigned()),
            (PropKind::F64, JsonNode::Number(n)) => {
                &&& double_bits(r) == Some(nearest_double(number_model(n)))
                &&& number_model(n) matches NumberModel::Float(bits) ==> double_bits(r) == Some(
                    bits,
                )
            },
            (PropKind::Str, JsonNode::String(text)) => text_of(r) == Some(text),
            (PropKind::Str, _) => text_of(r) == Some(json_text(value)),
            _ => r == null_of(kind),
        },
    }
}

/// The text that a property value holds, where it holds one.
pub open spec fn text_of(value: PropValue) -> Option<Seq<char>> {
    match value {
        PropValue::Str(Some(text)) => Some(text@),
        _ => None,
    }
}

/// The value behind an optional reference.
pub open spec fn unref_value(value: Option<&JsonValue>) -> Option<JsonValue> {
    match value {
        Some(value) => Some(*value),
        None => None,
    }
}

/// Converts one JSON value into the value of a column of the given kind. A
/// missing property or a JSON null yields the null of the column. In a `Str`
/// column whatever is no string becomes its compact JSON text; any other
/// mismatch falls back to the null of the column.
pub fn to_prop_value(kind: PropKind, value: Option<&JsonValue>) -> (r: PropValue)
    ensures
        converts(kind, unref_value(value), r),
{
    match value {
        None => PropValue::null(kind),
        Some(value) => match (kind, open_json(value)) {
            (_, JsonRef::Null) => PropValue::null(kind),
            (PropKind::Bool, JsonRef::Bool(b)) => PropValue::Bool(Some(b)),
            (PropKind::I64, JsonRef::Number(n)) => PropValue::I64(n.as_i64()),
            (PropKind::U64, JsonRef::Number(n)) => PropValue::U64(n.as_u64()),
            (PropKind::F64, JsonRef::Number(n)) => double_value(n),
            (PropKind::Str, JsonRef::String(text)) => PropValue::Str(Some(text.clone())),
            (PropKind::Str, _) => PropValue::Str(Some(json_string(value))),
            _ => PropValue::null(kind),
        },
    }
}

/// Whether `values` are the property values of a feature, column by column.
pub open spec fn values_for(
    feature: Feature,
    columns: Seq<(Seq<char>, PropKind)>,
    values: Seq<PropValue>,
) -> bool {
    &&& values.len() == columns.len()
    &&& forall|i: int|
        0 <= i < values.len() ==> converts(
            columns[i].1,
            lookup(feature_entries(feature), columns[i].0),
            #[trigger] values[i],
        )
}

/// Produces the property values of one feature, in the order of the columns.
pub fn feature_values(feature: &Feature, schema: &[(String, PropKind)]) -> (r: Vec<PropValue>)
    ensures
        values_for(*feature, columns_of(schema@), r@),
{
    let mut values: Vec<PropValue> = Vec::new();
    for i in 0..schema.len()
        invariant
            values.len() == i,
            forall|j: int|
                0 <= j < i ==> converts(
                    columns_of(schema@)[j].1,
                    lookup(feature_entries(*feature), columns_of(schema@)[j].0),
                    #[trigger] values[j],
                ),
    {
        let value: Option<&JsonValue> = match &feature.properties {
            Some(object) => object_get(object, &schema[i].0),
            None => None,
        };
        values.push(to_prop_value(schema[i].1, value));
    }
    values
}

/// The values of a feature fit the columns that they were made for.
pub proof fn law_values_fit(
    feature: Feature,
    columns: Seq<(Seq<char>, PropKind)>,
    values: Seq<PropValue>,
)
    requires
        values_for(feature, columns, values),
    ensures
        row_fits(values, columns),
{
}

/// Whether two values hold the same.
pub open spec fn same_value(a: PropValue, b: PropValue) -> bool {
    match (a, b) {
        (PropValue::F64(_), PropValue::F64(_)) => double_bits(a) == double_bits(b),
        (PropValue::Str(_), PropValue::Str(_)) => text_of(a) == text_of(b),
        _ => a == b,
    }
}

/// A feature has the same values whenever they are made for the same columns.
pub proof fn law_values_agree(
    feature: Feature,
    columns: Seq<(Seq<char>, PropKind)>,
    a: Seq<PropValue>,
    b: Seq<PropValue>,
)
    requires
        values_for(feature, columns, a),
        values_for(feature, columns, b),
    ensures
        a.len() == b.len(),
        forall|i: int| 0 <= i < a.len() ==> same_value(#[trigger] a[i], b[i]),
{
    assert(forall|i: int| 0 <= i < a.len() ==> same_value(#[trigger] a[i], b[i]));
}

/// In the column inferred for it, a value that is not null stays so. The one
/// exception is an integer above the range of `i64` in a column that has
/// negative integers.
pub proof fn law_values_survive(entries: Seq<Entry>, i: int, r: PropValue)
    requires
        0 <= i < entries.len(),
        !(json_node(entries[i].1) is Null),
        converts(merged(entries, entries[i].0).column(), Some(entries[i].1), r),
        merged(entries, entries[i].0) == InferredKind::I64 ==> (json_node(
            entries[i].1,
        ) matches JsonNode::Number(n) ==> number_model(n).signed() is Some),
    ensures
        r != null_of(merged(entries, entries[i].0).column()),
{
    lemma_merged_covers(entries, entries[i].0, i);
}

/// The identifier that a feature keeps.
pub open spec fn id_of(feature: Feature) -> Option<u64> {
    match feature.id {
        Some(Id::Number(n)) => number_model(n).unsigned(),
        _ => None,
    }
}

/// Maps the identifier of a feature to an MLT feature id. Only integers in the
/// `u64` range survive; string ids, negative numbers and non-integers drop.
pub fn feature_id(feature: &Feature) -> (r: Option<u64>)
    ensures
        r == id_of(*feature),
{
    match &feature.id {
        Some(Id::Number(n)) => n.as_u64(),
        Some(Id::String(_)) => None,
        None => None,
    }
}

/// Integers are of a numeric kind by their sign, and every other JSON value is of
/// the kind of its constructor: a value that a column of its own would hold.
pub proof fn law_kinds_of_json_values(node: JsonNode)
    ensures
        InferredKind::of(node) is Unknown <==> node is Null,
        InferredKind::of(node) is Bool <==> node is Bool,
        InferredKind::of(node) is Str <==> node is String || node is Array || node is Object,
        node matches JsonNode::Number(n) ==> match number_model(n) {
            NumberModel::PosInt(_) => InferredKind::of(node) is U64,
            NumberModel::NegInt(_) => InferredKind::of(node) is I64,
            NumberModel::Float(_) => InferredKind::of(node) is F64,
        },
        InferredKind::of(node).column() is Bool <==> node is Bool,
        InferredKind::of(node).column() is Str <==> node is Null || node is String || node is Array
            || node is Object,
{
}

/// Merging widens numbers: a kind of integers gives way to `F64`, and `U64` to
/// `I64`. Booleans beside numbers are texts. Each kind has a column of its own
/// name, and `Unknown` that of `Str`.
pub proof fn law_numbers_widen()
    ensures
        InferredKind::U64.join(InferredKind::I64) is I64,
        InferredKind::U64.join(InferredKind::F64) is F64,
        InferredKind::I64.join(InferredKind::F64) is F64,
        InferredKind::Bool.join(InferredKind::U64) is Str,
        InferredKind::Bool.join(InferredKind::I64) is Str,
        InferredKind::Bool.join(InferredKind::F64) is Str,
        InferredKind::Bool.column() is Bool,
        InferredKind::U64.column() is U64,
        InferredKind::I64.column() is I64,
        InferredKind::F64.column() is F64,
        InferredKind::Str.column() is Str,
        InferredKind::Unknown.column() is Str,
{
}

/// The properties of several features are those of the first, then those of the
/// second, and so on to the last.
pub proof fn law_all_features_are_scanned(features: Seq<Feature>)
    ensures
        all_entries(features) == features.flat_map(
            |feature: Feature|
                match feature.properties {
                    Some(object) => object_entries(object),
                    None => seq![],
                },
        ),
    decreases features.len(),
{
    let own = |feature: Feature|
        match feature.properties {
            Some(object) => object_entries(object),
            None => Seq::<Entry>::empty(),
        };
    if features.len() > 0 {
        let rest = features.drop_last();
        law_all_features_are_scanned(rest);
        assert(features.map_values(own) == rest.map_values(own).push(own(features.last())));
        rest.map_values(own).lemma_flatten_push(own(features.last()));
        assert(all_entries(features) == rest.flat_map(own) + own(features.last()));
    }
}

/// The properties of a feature are among those of all features.
proof fn lemma_own_among_all(features: Seq<Feature>, i: int, k: int) -> (m: int)
    requires
        0 <= i < features.len(),
        0 <= k < feature_entries(features[i]).len(),
    ensures
        0 <= m < all_entries(features).len(),
        all_entries(features)[m] == feature_entries(features[i])[k],
    decreases features.len(),
{
    let rest = features.drop_last();
    if i < rest.len() {
        assert(rest[i] == features[i]);
        lemma_own_among_all(rest, i, k)
    } else {
        all_entries(rest).len() + k
    }
}

/// The properties of all features are each one of a feature.
proof fn lemma_all_among_own(features: Seq<Feature>, m: int) -> (at: (int, int))
    requires
        0 <= m < all_entries(features).len(),
    ensures
        0 <= at.0 < features.len(),
        0 <= at.1 < feature_entries(features[at.0]).len(),
        feature_entries(features[at.0])[at.1] == all_entries(features)[m],
    decreases features.len(),
{
    let rest = features.drop_last();
    if m < all_entries(rest).len() {
        let at = lemma_all_among_own(rest, m);
        assert(rest[at.0] == features[at.0]);
        at
    } else {
        (features.len() - 1, m - all_entries(rest).len())
    }
}

/// Every property of every feature has a column of its name, of a kind that has
/// its value: numbers fit the kinds that are as wide or wider, anything fits
/// `Str`, and null fits every kind.
pub proof fn law_every_property_has_a_column(features: Seq<Feature>, i: int, k: int)
    requires
        0 <= i < features.len(),
        features[i].properties is Some,
        0 <= k < object_entries(features[i].properties->0).len(),
    ensures
        ({
            let entry = object_entries(features[i].properties->0)[k];
            let columns = columns_for(all_entries(features));
            exists|j: int|
                0 <= j < columns.len() && (#[trigger] columns[j]).0 == entry.0 && match json_node(
                    entry.1,
                ) {
                    JsonNode::Null => true,
                    JsonNode::Bool(_) => columns[j].1 is Bool || columns[j].1 is Str,
                    JsonNode::Number(n) => match number_model(n) {
                        NumberModel::PosInt(_) => columns[j].1 is U64 || columns[j].1 is I64
                            || columns[j].1 is F64 || columns[j].1 is Str,
                        NumberModel::NegInt(_) => columns[j].1 is I64 || columns[j].1 is F64
                            || columns[j].1 is Str,
                        NumberModel::Float(_) => columns[j].1 is F64 || columns[j].1 is Str,
                    },
                    _ => columns[j].1 is Str,
                }
        }),
{
    let entries = all_entries(features);
    let columns = columns_for(entries);
    let entry = object_entries(features[i].properties->0)[k];
    let m = lemma_own_among_all(features, i, k);
    law_columns_are_the_names(entries);
    assert(first_seen(entries).contains(entries[m].0));
    let j = choose|j: int|
        0 <= j < first_seen(entries).len() && first_seen(entries)[j] == entry.0;
    assert(columns[j].0 == entry.0);
    lemma_merged_covers(entries, entry.0, m);
}

/// A kind that has not come from nowhere has come from a value of that name.
proof fn lemma_merged_attained(entries: Seq<Entry>, name: Seq<char>)
    ensures
        ({
            let kind = merged(entries, name);
            let some = |want: InferredKind|
                exists|m: int|
                    0 <= m < entries.len() && (#[trigger] entries[m]).0 == name && InferredKind::of(
                        json_node(entries[m].1),
                    ) == want;
            &&& kind is Bool ==> some(InferredKind::Bool)
            &&& kind is U64 ==> some(InferredKind::U64)
            &&& kind is I64 ==> some(InferredKind::I64)
            &&& kind is F64 ==> some(InferredKind::F64)
            &&& kind is Str ==> some(InferredKind::Str) || (some(InferredKind::Bool) && (some(
                InferredKind::U64,
            ) || some(InferredKind::I64) || some(InferredKind::F64)))
        }),
    decreases entries.len(),
{
    if entries.len() > 0 {
        let rest = entries.drop_last();
        lemma_merged_attained(rest, name);
        assert(forall|m: int| 0 <= m < rest.len() ==> rest[m] == #[trigger] entries[m]);
        assert(entries[entries.len() - 1] == entries.last());
        assert forall|want: InferredKind| #[trigger]
            InferredKind::Unknown.join(want) == want && (exists|m: int|
                0 <= m < rest.len() && (#[trigger] rest[m]).0 == name && InferredKind::of(
                    json_node(rest[m].1),
                ) == want) implies exists|m: int|
            0 <= m < entries.len() && (#[trigger] entries[m]).0 == name && InferredKind::of(
                json_node(entries[m].1),
            ) == want by {
            let m = choose|m: int|
                0 <= m < rest.len() && (#[trigger] rest[m]).0 == name && InferredKind::of(
                    json_node(rest[m].1),
                ) == want;
            assert(entries[m] == rest[m]);
        }
        assert(InferredKind::Unknown.join(InferredKind::Bool) is Bool);
        assert(InferredKind::Unknown.join(InferredKind::U64) is U64);
        assert(InferredKind::Unknown.join(InferredKind::I64) is I64);
        assert(InferredKind::Unknown.join(InferredKind::F64) is F64);
        assert(InferredKind::Unknown.join(InferredKind::Str) is Str);
    }
}

/// A column is no wider than its values ask. Each column has a name that occurs.
/// One of Booleans has a Boolean, one of integers has an integer, a signed one a
/// negative integer, and one of doubles has a number that is no integer. One of
/// texts has a value that only text can hold, or Booleans beside numbers, or has
/// nulls alone.
pub proof fn law_columns_are_no_wider_than_needed(features: Seq<Feature>, j: int)
    requires
        0 <= j < columns_for(all_entries(features)).len(),
    ensures
        ({
            let column = columns_for(all_entries(features))[j];
            let occurs = |i: int, k: int|
                0 <= i < features.len() && features[i].properties is Some && 0 <= k
                    < object_entries(features[i].properties->0).len() && object_entries(
                    features[i].properties->0,
                )[k].0 == column.0;
            let node = |i: int, k: int|
                json_node(object_entries(features[i].properties->0)[k].1);
            let number = |i: int, k: int|
                node(i, k) is Number;
            &&& exists|i: int, k: int| #[trigger] occurs(i, k)
            &&& column.1 is Bool ==> exists|i: int, k: int| #[trigger]
                occurs(i, k) && node(i, k) is Bool
            &&& column.1 is U64 ==> exists|i: int, k: int| #[trigger]
                occurs(i, k) && number(i, k)
            &&& column.1 is I64 ==> exists|i: int, k: int| #[trigger]
                occurs(i, k) && number(i, k) && number_model(node(i, k)->Number_0) is NegInt
            &&& column.1 is F64 ==> exists|i: int, k: int| #[trigger]
                occurs(i, k) && number(i, k) && number_model(node(i, k)->Number_0) is Float
            &&& column.1 is Str ==> {
                ||| forall|i: int, k: int| #[trigger] occurs(i, k) ==> node(i, k) is Null
                ||| exists|i: int, k: int| #[trigger]
                    occurs(i, k) && (node(i, k) is String || node(i, k) is Array || node(
                        i,
                        k,
                    ) is Object)
                ||| (exists|i: int, k: int| #[trigger] occurs(i, k) && node(i, k) is Bool) && (
                exists|i: int, k: int| #[trigger] occurs(i, k) && number(i, k))
            }
            &&& column.1 is Bool || column.1 is U64 || column.1 is I64 || column.1 is F64
                || column.1 is Str
        }),
{
    let entries = all_entries(features);
    let column = columns_for(entries)[j];
    let kind = merged(entries, column.0);
    let occurs = |i: int, k: int|
        0 <= i < features.len() && features[i].properties is Some && 0 <= k < object_entries(
            features[i].properties->0,
        ).len() && object_entries(features[i].properties->0)[k].0 == column.0;
    let node = |i: int, k: int| json_node(object_entries(features[i].properties->0)[k].1);
    law_columns_are_the_names(entries);
    assert(column.0 == first_seen(entries)[j]);
    let first = choose|m: int| 0 <= m < entries.len() && (#[trigger] entries[m]).0 == column.0;
    let at = lemma_all_among_own(features, first);
    assert(occurs(at.0, at.1));
    lemma_merged_attained(entries, column.0);
    assert forall|m: int| 0 <= m < entries.len() && (#[trigger] entries[m]).0
        == column.0 implies exists|i: int, k: int| #[trigger]
        occurs(i, k) && node(i, k) == json_node(entries[m].1) by {
        let at = lemma_all_among_own(features, m);
        assert(occurs(at.0, at.1));
    }
    if kind is Unknown {
        assert forall|i: int, k: int| #[trigger] occurs(i, k) implies node(i, k) is Null by {
            let m = lemma_own_among_all(features, i, k);
            lemma_merged_covers(entries, column.0, m);
        }
    }
}

/// Columns stand in the order in which their names are first seen: of two columns
/// the name of the first is seen before every place where that of the second is.
pub proof fn law_columns_are_in_order_of_sight(entries: Seq<Entry>, a: int, b: int)
    requires
        0 <= a < b < columns_for(entries).len(),
    ensures
        exists|m: int|
            0 <= m < entries.len() && (#[trigger] entries[m]).0 == columns_for(entries)[a].0
                && forall|n: int|
                0 <= n < entries.len() && (#[trigger] entries[n]).0 == columns_for(entries)[b].0
                    ==> m < n,
{
    lemma_sight(entries, a, b);
    let seen = first_seen(entries);
    assert(columns_for(entries)[a].0 == seen[a]);
    assert(columns_for(entries)[b].0 == seen[b]);
}

/// Of two names the first is seen before every place where the second is.
proof fn lemma_sight(entries: Seq<Entry>, a: int, b: int)
    requires
        0 <= a < b < first_seen(entries).len(),
    ensures
        exists|m: int|
            0 <= m < entries.len() && (#[trigger] entries[m]).0 == first_seen(entries)[a]
                && forall|n: int|
                0 <= n < entries.len() && (#[trigger] entries[n]).0 == first_seen(entries)[b] ==> m
                    < n,
    decreases entries.len(),
{
    let rest = entries.drop_last();
    let seen = first_seen(rest);
    let all = first_seen(entries);
    assert(forall|m: int| 0 <= m < rest.len() ==> rest[m] == #[trigger] entries[m]);
    if b < seen.len() {
        lemma_sight(rest, a, b);
        let m = choose|m: int|
            0 <= m < rest.len() && (#[trigger] rest[m]).0 == seen[a] && forall|n: int|
                0 <= n < rest.len() && (#[trigger] rest[n]).0 == seen[b] ==> m < n;
        assert(entries[m].0 == all[a]);
        assert forall|n: int|
            0 <= n < entries.len() && (#[trigger] entries[n]).0 == all[b] implies m < n by {
            if n < rest.len() {
                assert(rest[n].0 == seen[b]);
            }
        }
    } else {
        law_columns_are_the_names(rest);
        assert(seen[a] == all[a]);
        let m = choose|m: int| 0 <= m < rest.len() && (#[trigger] rest[m]).0 == seen[a];
        assert(entries[m].0 == all[a]);
        assert forall|n: int|
            0 <= n < entries.len() && (#[trigger] entries[n]).0 == all[b] implies m < n by {
            if n < rest.len() {
                assert(seen.contains(rest[n].0));
            }
        }
    }
}

/// The columns of a schema are its names and kinds, in its order.
pub proof fn law_columns_of_a_schema(schema: Seq<(String, PropKind)>)
    ensures
        columns_of(schema).len() == schema.len(),
        forall|i: int|
            0 <= i < schema.len() ==> columns_of(schema)[i].0 == (#[trigger] schema[i]).0@
                && columns_of(schema)[i].1 == schema[i].1,
{
}

/// A feature that lacks a property, or has no properties, has the null of its
/// column there, whatever the kind: a value that holds nothing.
pub proof fn law_missing_properties_are_null(
    feature: Feature,
    columns: Seq<(Seq<char>, PropKind)>,
    values: Seq<PropValue>,
    j: int,
)
    requires
        values_for(feature, columns, values),
        0 <= j < columns.len(),
        feature.properties is None || forall|k: int|
            0 <= k < object_entries(feature.properties->0).len() ==> (
            #[trigger] object_entries(feature.properties->0)[k]).0 != columns[j].0,
    ensures
        values.len() == columns.len(),
        match columns[j].1 {
            PropKind::Bool => values[j] == PropValue::Bool(None),
            PropKind::I8 => values[j] == PropValue::I8(None),
            PropKind::U8 => values[j] == PropValue::U8(None),
            PropKind::I32 => values[j] == PropValue::I32(None),
            PropKind::U32 => values[j] == PropValue::U32(None),
            PropKind::I64 => values[j] == PropValue::I64(None),
            PropKind::U64 => values[j] == PropValue::U64(None),
            PropKind::F32 => values[j] == PropValue::F32(None),
            PropKind::F64 => values[j] == PropValue::F64(None),
            PropKind::Str => values[j] == PropValue::Str(None),
        },
{
    law_lookup_finds_what_is_there(feature_entries(feature), columns[j].0);
    assert(converts(
        columns[j].1,
        lookup(feature_entries(feature), columns[j].0),
        values[j],
    ));
}

/// A feature that has a property under the name of a column has its value there.
/// Null stays null. Booleans, texts and doubles are kept as they are, integers
/// where the column can hold them; a column of texts holds the JSON text of
/// whatever is no string; anything else becomes null.
pub proof fn law_properties_keep_their_values(
    feature: Feature,
    columns: Seq<(Seq<char>, PropKind)>,
    values: Seq<PropValue>,
    j: int,
    k: int,
)
    requires
        values_for(feature, columns, values),
        0 <= j < columns.len(),
        feature.properties is Some,
        0 <= k < object_entries(feature.properties->0).len(),
        object_entries(feature.properties->0)[k].0 == columns[j].0,
        forall|m: int|
            0 <= m < object_entries(feature.properties->0).len() && m != k ==> (
            #[trigger] object_entries(feature.properties->0)[m]).0 != columns[j].0,
    ensures
        ({
            let value = object_entries(feature.properties->0)[k].1;
            let node = json_node(value);
            match columns[j].1 {
                PropKind::Bool => values[j] == PropValue::Bool(
                    match node {
                        JsonNode::Bool(b) => Some(b),
                        _ => None,
                    },
                ),
                PropKind::U64 => values[j] matches PropValue::U64(held) && match node {
                    JsonNode::Number(n) => match number_model(n) {
                        NumberModel::PosInt(v) => held == Some(v),
                        _ => held is None,
                    },
                    _ => held is None,
                },
                PropKind::I64 => values[j] matches PropValue::I64(held) && match node {
                    JsonNode::Number(n) => match number_model(n) {
                        NumberModel::PosInt(v) => if v <= 0x7fff_ffff_ffff_ffff {
                            held matches Some(w) && w as int == v as int
                        } else {
                            held is None
                        },
                        NumberModel::NegInt(w) => held == Some(w),
                        NumberModel::Float(_) => held is None,
                    },
                    _ => held is None,
                },
                PropKind::F64 => match node {
                    JsonNode::Number(n) => values[j] matches PropValue::F64(Some(d))
                        && d.to_bits_spec() == nearest_double(number_model(n)) && (number_model(
                        n,
                    ) matches NumberModel::Float(bits) ==> d.to_bits_spec() == bits),
                    _ => values[j] == PropValue::F64(None),
                },
                PropKind::Str => match node {
                    JsonNode::Null => values[j] == PropValue::Str(None),
                    JsonNode::String(text) => values[j] matches PropValue::Str(Some(held)) && held@
                        == text,
                    _ => values[j] matches PropValue::Str(Some(held)) && held@ == json_text(value),
                },
                PropKind::I8 => values[j] == PropValue::I8(None),
                PropKind::U8 => values[j] == PropValue::U8(None),
                PropKind::I32 => values[j] == PropValue::I32(None),
                PropKind::U32 => values[j] == PropValue::U32(None),
                PropKind::F32 => values[j] == PropValue::F32(None),
            }
        }),
{
    let entries = feature_entries(feature);
    law_lookup_finds_what_is_there(entries, columns[j].0);
    assert(entries[k].0 == columns[j].0);
    assert(lookup(entries, columns[j].0) == Some(entries[k].1));
    assert(converts(columns[j].1, lookup(entries, columns[j].0), values[j]));
}

/// A feature keeps its identifier where that is a non-negative integer, and has
/// none otherwise.
pub proof fn law_integer_ids_survive(feature: Feature)
    ensures
        feature.id is None ==> id_of(feature) is None,
        feature.id matches Some(Id::String(_)) ==> id_of(feature) is None,
        feature.id matches Some(Id::Number(n)) ==> match number_model(n) {
            NumberModel::PosInt(v) => id_of(feature) == Some(v),
            _ => id_of(feature) is None,
        },
{
}

/// What a missing value becomes holds nothing, and so does what a null becomes.
pub proof fn law_nothing_becomes_null(kind: PropKind, value: Option<JsonValue>, r: PropValue)
    requires
        converts(kind, value, r),
        value matches Some(v) ==> json_node(v) is Null,
    ensures
        match r {
            PropValue::Bool(held) => kind is Bool && held is None,
            PropValue::I8(held) => kind is I8 && held is None,
            PropValue::U8(held) => kind is U8 && held is None,
            PropValue::I32(held) => kind is I32 && held is None,
            PropValue::U32(held) => kind is U32 && held is None,
            PropValue::I64(held) => kind is I64 && held is None,
            PropValue::U64(held) => kind is U64 && held is None,
            PropValue::F32(held) => kind is F32 && held is None,
            PropValue::F64(held) => kind is F64 && held is None,
            PropValue::Str(held) => kind is Str && held is None,
        },
{
}

/// Values that hold the same are of one kind and hold it both or neither: the same
/// text, the bits of the same double, or else the same value.
pub proof fn law_same_values_hold_the_same(a: PropValue, b: PropValue, s: String, t: String)
    ensures
        same_value(a, b) ==> kind_of(a) == kind_of(b),
        same_value(a, b) && !(a is F64) && !(a is Str) ==> a == b,
        same_value(a, b) ==> match (a, b) {
            (PropValue::F64(Some(x)), PropValue::F64(Some(y))) => x.to_bits_spec()
                == y.to_bits_spec(),
            (PropValue::F64(None), PropValue::F64(Some(_))) => false,
            (PropValue::F64(Some(_)), PropValue::F64(None)) => false,
            _ => true,
        },
        same_value(PropValue::Str(Some(s)), PropValue::Str(Some(t))) <==> s@ == t@,
        !same_value(PropValue::Str(Some(s)), PropValue::Str(None)),
        text_of(PropValue::Str(Some(s))) == Some(s@),
        text_of(PropValue::Str(None)) is None,
        same_value(a, a),
{
}

/// A reference shows its value, and strings their texts, one for one.
pub proof fn law_references_and_strings_show_what_they_hold(value: &JsonValue, names: Seq<String>)
    ensures
        unref_value(Some(value)) == Some(*value),
        unref_value(None) is None,
        texts(names).len() == names.len(),
        forall|i: int| 0 <= i < names.len() ==> texts(names)[i] == (#[trigger] names[i])@,
{
}

/// Later properties keep the columns of the earlier ones in their places, and only
/// add columns behind them. A kind stays as it is, or becomes that of wider
/// numbers or of texts; a column of nulls alone may become of any kind.
pub proof fn law_later_properties_only_add_columns(entries: Seq<Entry>, next: Entry, j: int)
    requires
        0 <= j < columns_for(entries).len(),
    ensures
        columns_for(entries).len() <= columns_for(entries.push(next)).len(),
        columns_for(entries.push(next)).len() <= columns_for(entries).len() + 1,
        columns_for(entries.push(next))[j].0 == columns_for(entries)[j].0,
        next.0 != columns_for(entries)[j].0 || json_node(next.1) is Null ==> columns_for(
            entries.push(next),
        )[j].1 == columns_for(entries)[j].1,
        ({
            let (old_kind, new_kind) = (
                columns_for(entries)[j].1,
                columns_for(entries.push(next))[j].1,
            );
            &&& old_kind is Bool ==> new_kind is Bool || new_kind is Str
            &&& old_kind is U64 ==> !(new_kind is Bool)
            &&& old_kind is I64 ==> new_kind is I64 || new_kind is F64 || new_kind is Str
            &&& old_kind is F64 ==> new_kind is F64 || new_kind is Str
        }),
{
    assert(entries.push(next).drop_last() == entries);
    let name = first_seen(entries)[j];
    assert(first_seen(entries.push(next))[j] == name);
}

} // verus!

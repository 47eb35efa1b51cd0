//! Schema inference and value conversion.

use std::collections::BTreeMap;

use geojson::Feature;
use mlt_core::{PropKind, PropValue};
use mlt_geojson::properties::{
    feature_id, feature_values, infer_schema, to_prop_value, InferredKind,
};
use serde_json::Value;

fn json(text: &str) -> Value {
    serde_json::from_str(text).expect("valid JSON")
}

fn feature_with_props(props: &str) -> Feature {
    let text = format!(r#"{{ "type": "Feature", "geometry": null, "properties": {props} }}"#);
    serde_json::from_str(&text).expect("valid feature")
}

fn schema_of(features: &[Feature]) -> Vec<(String, PropKind)> {
    infer_schema(features)
}

#[test]
fn infers_scalar_kinds() {
    let f = feature_with_props(r#"{ "b": true, "u": 5, "i": -3, "f": 3.5, "s": "hi" }"#);
    let schema = schema_of(std::slice::from_ref(&f));
    let kinds: BTreeMap<_, _> = schema.into_iter().collect();
    assert_eq!(kinds["b"], PropKind::Bool);
    assert_eq!(kinds["u"], PropKind::U64);
    assert_eq!(kinds["i"], PropKind::I64);
    assert_eq!(kinds["f"], PropKind::F64);
    assert_eq!(kinds["s"], PropKind::Str);
}

#[test]
fn merge_int_unsigned_to_signed() {
    let f1 = feature_with_props(r#"{ "n": -1 }"#);
    let f2 = feature_with_props(r#"{ "n": 5 }"#);
    let schema = schema_of(&[f1, f2]);
    assert_eq!(schema, vec![("n".to_string(), PropKind::I64)]);
}

#[test]
fn merge_float_widens_integers() {
    let f1 = feature_with_props(r#"{ "n": 3.5 }"#);
    let f2 = feature_with_props(r#"{ "n": 1 }"#);
    let schema = schema_of(&[f1, f2]);
    assert_eq!(schema, vec![("n".to_string(), PropKind::F64)]);
}

#[test]
fn conflicting_kinds_fall_back_to_str() {
    let f1 = feature_with_props(r#"{ "a": true, "b": 1 }"#);
    let f2 = feature_with_props(r#"{ "a": "x", "b": "y" }"#);
    let schema: BTreeMap<_, _> = schema_of(&[f1, f2]).into_iter().collect();
    assert_eq!(schema["a"], PropKind::Str); // Bool + Str
    assert_eq!(schema["b"], PropKind::Str); // Number + Str
}

#[test]
fn always_null_column_is_str() {
    let f1 = feature_with_props(r#"{ "x": null }"#);
    let f2 = feature_with_props(r#"{ "x": null }"#);
    let schema = schema_of(&[f1, f2]);
    assert_eq!(schema, vec![("x".to_string(), PropKind::Str)]);
    let vals = feature_values(&schema_features(&schema)[0], &schema);
    assert_eq!(vals, vec![PropValue::Str(None)]);
}

// A fresh feature carrying a JSON null for every schema column.
fn schema_features(schema: &[(String, PropKind)]) -> Vec<Feature> {
    let props: serde_json::Map<String, Value> = schema
        .iter()
        .map(|(name, _)| (name.clone(), Value::Null))
        .collect();
    vec![feature_with_props(&Value::Object(props).to_string())]
}

#[test]
fn missing_key_is_typed_null() {
    let schema = vec![
        ("present".to_string(), PropKind::U64),
        ("absent".to_string(), PropKind::I64),
    ];
    let f = feature_with_props(r#"{ "present": 7 }"#);
    let vals = feature_values(&f, &schema);
    assert_eq!(vals, vec![PropValue::U64(Some(7)), PropValue::I64(None)]);
}

#[test]
fn json_null_in_typed_column_is_typed_null() {
    let schema = vec![("n".to_string(), PropKind::I64)];
    let f = feature_with_props(r#"{ "n": null }"#);
    let vals = feature_values(&f, &schema);
    assert_eq!(vals, vec![PropValue::I64(None)]);
}

#[test]
fn nested_values_stringify_compactly() {
    let f = feature_with_props(r#"{ "obj": { "x": 1 }, "arr": [1, 2] }"#);
    let schema: BTreeMap<_, _> = schema_of(std::slice::from_ref(&f)).into_iter().collect();
    assert_eq!(schema["obj"], PropKind::Str);
    assert_eq!(schema["arr"], PropKind::Str);

    let ordered: Vec<_> = schema.into_iter().collect();
    let vals = feature_values(&f, &ordered);
    let map: BTreeMap<_, _> = ordered.iter().map(|(n, _)| n.clone()).zip(vals).collect();
    assert_eq!(map["obj"], PropValue::Str(Some("{\"x\":1}".to_string())));
    assert_eq!(map["arr"], PropValue::Str(Some("[1,2]".to_string())));
}

fn feature_with_id(id: &str) -> Feature {
    let text =
        format!(r#"{{ "type": "Feature", "id": {id}, "geometry": null, "properties": {{}} }}"#);
    serde_json::from_str(&text).expect("valid feature")
}

#[test]
fn feature_id_mapping() {
    assert_eq!(feature_id(&feature_with_id("42")), Some(42));
    assert_eq!(feature_id(&feature_with_id("0")), Some(0));
    assert_eq!(feature_id(&feature_with_id("-1")), None);
    assert_eq!(feature_id(&feature_with_id("3.5")), None);
    assert_eq!(feature_id(&feature_with_id("\"abc\"")), None);

    let absent: Feature =
        serde_json::from_str(r#"{ "type": "Feature", "geometry": null, "properties": {} }"#)
            .unwrap();
    assert_eq!(feature_id(&absent), None);
}

#[test]
fn the_largest_id_survives() {
    let f = feature_with_id("18446744073709551615");
    assert_eq!(feature_id(&f), Some(u64::MAX));
}

#[test]
fn classifies_every_json_value() {
    let kind = |text: &str| InferredKind::from_json(&json(text));
    assert_eq!(kind("null"), InferredKind::Unknown);
    assert_eq!(kind("false"), InferredKind::Bool);
    assert_eq!(kind("0"), InferredKind::U64);
    assert_eq!(kind("18446744073709551615"), InferredKind::U64);
    assert_eq!(kind("-9223372036854775808"), InferredKind::I64);
    assert_eq!(kind("-9223372036854775809"), InferredKind::F64);
    assert_eq!(kind("1.0"), InferredKind::F64);
    assert_eq!(kind("\"\""), InferredKind::Str);
    assert_eq!(kind("[]"), InferredKind::Str);
    assert_eq!(kind("{}"), InferredKind::Str);
}

const KINDS: [InferredKind; 6] = [
    InferredKind::Unknown,
    InferredKind::Bool,
    InferredKind::I64,
    InferredKind::U64,
    InferredKind::F64,
    InferredKind::Str,
];

#[test]
fn merging_is_a_semilattice() {
    for a in KINDS {
        assert_eq!(a.merge(a), a);
        assert_eq!(a.merge(InferredKind::Unknown), a);
        assert_eq!(a.merge(InferredKind::Str), InferredKind::Str);
        for b in KINDS {
            assert_eq!(a.merge(b), b.merge(a));
            for c in KINDS {
                assert_eq!(a.merge(b).merge(c), a.merge(b.merge(c)));
            }
        }
    }
}

#[test]
fn merging_widens_numbers() {
    assert_eq!(InferredKind::U64.merge(InferredKind::I64), InferredKind::I64);
    assert_eq!(InferredKind::U64.merge(InferredKind::F64), InferredKind::F64);
    assert_eq!(InferredKind::I64.merge(InferredKind::F64), InferredKind::F64);
    assert_eq!(InferredKind::Bool.merge(InferredKind::U64), InferredKind::Str);
}

#[test]
fn every_kind_has_a_column() {
    assert_eq!(InferredKind::Unknown.to_kind(), PropKind::Str);
    assert_eq!(InferredKind::Bool.to_kind(), PropKind::Bool);
    assert_eq!(InferredKind::I64.to_kind(), PropKind::I64);
    assert_eq!(InferredKind::U64.to_kind(), PropKind::U64);
    assert_eq!(InferredKind::F64.to_kind(), PropKind::F64);
    assert_eq!(InferredKind::Str.to_kind(), PropKind::Str);
}

#[test]
fn columns_stand_in_the_order_of_first_sight() {
    let f1 = feature_with_props(r#"{ "m": 1 }"#);
    let f2 = feature_with_props(r#"{ "a": 1, "m": 2 }"#);
    let f3 = feature_with_props(r#"{ "b": true }"#);
    let names: Vec<String> = schema_of(&[f1, f2, f3]).into_iter().map(|c| c.0).collect();
    assert_eq!(names, vec!["m", "a", "b"]);
}

#[test]
fn kinds_do_not_depend_on_the_order_of_features() {
    let texts = [r#"{ "n": -1 }"#, r#"{ "n": 2.5 }"#, r#"{ "n": 7 }"#, r#"{ "n": null }"#];
    let forward: Vec<Feature> = texts.iter().map(|t| feature_with_props(t)).collect();
    let backward: Vec<Feature> = texts.iter().rev().map(|t| feature_with_props(t)).collect();
    assert_eq!(schema_of(&forward), vec![("n".to_string(), PropKind::F64)]);
    assert_eq!(schema_of(&forward), schema_of(&backward));
}

#[test]
fn no_features_have_no_columns() {
    assert_eq!(schema_of(&[]), vec![]);
    let bare: Feature =
        serde_json::from_str(r#"{ "type": "Feature", "geometry": null, "properties": null }"#)
            .unwrap();
    assert_eq!(schema_of(std::slice::from_ref(&bare)), vec![]);
    let schema = vec![("n".to_string(), PropKind::Bool)];
    assert_eq!(feature_values(&bare, &schema), vec![PropValue::Bool(None)]);
}

#[test]
fn values_become_those_of_their_column() {
    let value = |kind, text: &str| to_prop_value(kind, Some(&json(text)));
    assert_eq!(value(PropKind::Bool, "true"), PropValue::Bool(Some(true)));
    assert_eq!(value(PropKind::I64, "-3"), PropValue::I64(Some(-3)));
    assert_eq!(value(PropKind::I64, "5"), PropValue::I64(Some(5)));
    assert_eq!(value(PropKind::U64, "5"), PropValue::U64(Some(5)));
    assert_eq!(value(PropKind::F64, "3.5"), PropValue::F64(Some(3.5)));
    assert_eq!(value(PropKind::F64, "1"), PropValue::F64(Some(1.0)));
    assert_eq!(
        value(PropKind::F64, "9007199254740993"),
        PropValue::F64(Some(9007199254740992.0))
    );
    assert_eq!(value(PropKind::Str, "\"hi\""), PropValue::Str(Some("hi".to_string())));
    assert_eq!(value(PropKind::Str, "7"), PropValue::Str(Some("7".to_string())));
    assert_eq!(value(PropKind::Str, "true"), PropValue::Str(Some("true".to_string())));
    assert_eq!(to_prop_value(PropKind::F64, None), PropValue::F64(None));
}

#[test]
fn mismatched_values_become_the_null_of_their_column() {
    let value = |kind, text: &str| to_prop_value(kind, Some(&json(text)));
    assert_eq!(value(PropKind::Bool, "1"), PropValue::Bool(None));
    assert_eq!(value(PropKind::I64, "\"x\""), PropValue::I64(None));
    assert_eq!(value(PropKind::U64, "-1"), PropValue::U64(None));
    assert_eq!(value(PropKind::F64, "[]"), PropValue::F64(None));
    assert_eq!(value(PropKind::I8, "1"), PropValue::I8(None));
    assert_eq!(value(PropKind::Str, "null"), PropValue::Str(None));
}

#[test]
fn a_large_integer_is_lost_beside_negative_ones() {
    let f1 = feature_with_props(r#"{ "n": 18446744073709551615 }"#);
    let f2 = feature_with_props(r#"{ "n": -1 }"#);
    let schema = schema_of(&[f1.clone(), f2]);
    assert_eq!(schema, vec![("n".to_string(), PropKind::I64)]);
    assert_eq!(feature_values(&f1, &schema), vec![PropValue::I64(None)]);
}

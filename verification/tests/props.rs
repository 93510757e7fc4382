//! Concrete instances of the library's general properties.

use visit_diff::debug::debug_diff;
use visit_diff::record::{record_diff, Element, Value, Variant};
use visit_diff::{all_different, any_difference, entry, field, Shape};

fn nested_value() -> Shape {
    Shape::Struct {
        name: "Outer".to_string(),
        fields: vec![
            field(
                "items".to_string(),
                Shape::Sequence {
                    elems: vec![Shape::atom_u64(1), Shape::atom_u64(2)],
                },
            ),
            field(
                "table".to_string(),
                Shape::MapLike {
                    ordered: true,
                    entries: vec![
                        entry(1, Shape::atom_bool(true)),
                        entry(5, Shape::atom_bool(false)),
                    ],
                },
            ),
            field(
                "tags".to_string(),
                Shape::SetLike {
                    ordered: false,
                    elems: vec![
                        entry(9, Shape::atom_u64(9)),
                        entry(4, Shape::atom_u64(4)),
                    ],
                },
            ),
            field(
                "wrapped".to_string(),
                Shape::Newtype {
                    name: "Wrapper".to_string(),
                    inner: Box::new(Shape::atom_bool(false)),
                },
            ),
        ],
    }
}

/// Walks a recorded tree looking for any `Difference`, `LeftOnly` or
/// `RightOnly` node.
fn is_clean(v: &Value) -> bool {
    match v {
        Value::Same(..) => true,
        Value::Difference(..) => false,
        Value::Newtype(_, inner) => is_clean(inner),
        Value::Struct(s) => s
            .fields
            .iter()
            .all(|f| f.1.as_ref().map_or(true, is_clean)),
        Value::Tuple(t) => t.fields.iter().all(|f| f.as_ref().map_or(true, is_clean)),
        Value::Enum(e) => match &e.variant {
            Variant::Struct(s) => s
                .fields
                .iter()
                .all(|f| f.1.as_ref().map_or(true, is_clean)),
            Variant::Tuple(t) => t.fields.iter().all(|f| f.as_ref().map_or(true, is_clean)),
        },
        Value::Sequence(es) | Value::SetLike(es) => es.iter().all(elem_clean),
        Value::MapLike(es) => es.iter().all(|e| elem_clean(&e.1)),
    }
}

fn elem_clean(e: &Element) -> bool {
    match e {
        Element::LeftOnly(..) | Element::RightOnly(..) => false,
        Element::Both(v) => is_clean(v),
    }
}

#[test]
fn reflexivity_any_difference() {
    let v = nested_value();
    assert_eq!(any_difference(&v, &v), false);
}

#[test]
fn reflexivity_rendering() {
    let v = nested_value();
    let w = nested_value();
    let canonical_compact = debug_diff(nested_value(), nested_value()).left_value(false);
    let canonical_pretty = debug_diff(nested_value(), nested_value()).left_value(true);
    let diff = debug_diff(v, w);
    assert_eq!(diff.compact(), canonical_compact);
    assert_eq!(diff.pretty(), canonical_pretty);
}

#[test]
fn reflexivity_all_different() {
    let v = nested_value();
    assert_eq!(all_different(&v, &v), false);
}

#[test]
fn all_different_empty_composites() {
    let a = Shape::Struct {
        name: "Unit".to_string(),
        fields: vec![],
    };
    let b = Shape::Struct {
        name: "Unit".to_string(),
        fields: vec![],
    };
    assert_eq!(all_different(&a, &b), false);

    let s = Shape::Sequence { elems: vec![] };
    let t = Shape::Sequence { elems: vec![] };
    assert_eq!(all_different(&s, &t), false);
}

#[test]
fn all_different_needs_every_part() {
    let a = Shape::Tuple {
        name: String::new(),
        fields: vec![Some(Shape::atom_u64(1)), Some(Shape::atom_u64(2))],
    };
    let b = Shape::Tuple {
        name: String::new(),
        fields: vec![Some(Shape::atom_u64(9)), Some(Shape::atom_u64(2))],
    };
    assert_eq!(all_different(&a, &b), false);
    assert!(any_difference(&a, &b));
}

#[test]
fn all_different_implies_any_difference() {
    let a = Shape::atom_u64(1);
    let b = Shape::atom_u64(2);
    assert!(all_different(&a, &b));
    assert!(any_difference(&a, &b));
}

#[test]
fn sequence_excess_is_any_difference() {
    let a = Shape::Sequence {
        elems: vec![Shape::atom_u64(1), Shape::atom_u64(2), Shape::atom_u64(3)],
    };
    let b = Shape::Sequence {
        elems: vec![Shape::atom_u64(1), Shape::atom_u64(2)],
    };
    assert!(any_difference(&a, &b));
    assert!(!all_different(&a, &b), "two of three positions are equal");
}

#[test]
fn recording_reflexive_is_clean() {
    let v = nested_value();
    let diff = record_diff(&v, &v);
    assert!(is_clean(&diff));
}

#[test]
fn recording_difference_is_not_clean() {
    let a = nested_value();
    let b = Shape::Struct {
        name: "Outer".to_string(),
        fields: match nested_value() {
            Shape::Struct { mut fields, .. } => {
                fields[3] = field(
                    "wrapped".to_string(),
                    Shape::Newtype {
                        name: "Wrapper".to_string(),
                        inner: Box::new(Shape::atom_bool(true)),
                    },
                );
                fields
            },
            _ => unreachable!(),
        },
    };
    let diff = record_diff(&a, &b);
    assert!(!is_clean(&diff));
}

#[test]
fn option_shapes() {
    let some_one = Shape::option_of(Some(Shape::atom_u64(1)));
    let some_two = Shape::option_of(Some(Shape::atom_u64(2)));
    let none = Shape::option_of(None);

    assert!(!any_difference(&some_one, &Shape::option_of(Some(Shape::atom_u64(1)))));
    assert!(any_difference(&some_one, &some_two));
    assert!(any_difference(&some_one, &none));
    // The single compared field differs, so the whole pair is one marker.
    assert_eq!(
        debug_diff(Shape::option_of(Some(Shape::atom_u64(1))), some_two).compact(),
        "DIFF { L: Some(1), R: Some(2) }"
    );
}

#[test]
fn result_shapes() {
    let ok = Shape::result_of(Ok(Shape::atom_u64(1)));
    let err = Shape::result_of(Err(Shape::atom_u64(1)));
    assert!(any_difference(&ok, &err));
    assert!(!any_difference(&ok, &Shape::result_of(Ok(Shape::atom_u64(1)))));
    assert_eq!(
        debug_diff(Shape::result_of(Ok(Shape::atom_u64(1))), err).compact(),
        "DIFF { L: Ok(1), R: Err(1) }"
    );
}

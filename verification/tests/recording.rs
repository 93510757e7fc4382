//! Tests of the tree-recording consumer.

use visit_diff::record::{record_diff, Element, Value, Variant};
use visit_diff::{entry, field, Shape};

fn is_same(v: &Value, l: &str, r: &str) -> bool {
    matches!(v, Value::Same(a, b) if a == l && b == r)
}

fn is_difference(v: &Value, l: &str, r: &str) -> bool {
    matches!(v, Value::Difference(a, b) if a == l && b == r)
}

#[test]
fn record_unit() {
    let diff = record_diff(&Shape::unit(), &Shape::unit());
    assert!(is_same(&diff, "()", "()"));
}

#[test]
fn record_int() {
    let diff = record_diff(&Shape::atom_u64(0), &Shape::atom_u64(0));
    assert!(is_same(&diff, "0", "0"));

    let diff = record_diff(&Shape::atom_u64(0), &Shape::atom_u64(1));
    assert!(is_difference(&diff, "0", "1"));
}

fn unit_enum(variant: &str) -> Shape {
    Shape::Atom {
        text: variant.to_string(),
    }
}

fn enum_b(size: u64) -> Shape {
    Shape::StructVariant {
        enum_name: "TestEnum".to_string(),
        variant: "B".to_string(),
        fields: vec![
            field("unit".to_string(), Shape::unit()),
            field("size".to_string(), Shape::atom_u64(size)),
        ],
    }
}

fn enum_c(flag: bool, size: u64) -> Shape {
    Shape::TupleVariant {
        enum_name: "TestEnum".to_string(),
        variant: "C".to_string(),
        fields: vec![
            Some(Shape::atom_bool(flag)),
            Some(Shape::atom_u64(size)),
        ],
    }
}

#[test]
fn unit_enum_same() {
    let diff = record_diff(&unit_enum("A"), &unit_enum("A"));
    assert!(is_same(&diff, "A", "A"));
}

#[test]
fn enum_different_shape() {
    let b = Shape::StructVariant {
        enum_name: "TestEnum".to_string(),
        variant: "B".to_string(),
        fields: vec![
            field("unit".to_string(), Shape::unit()),
            field("size".to_string(), Shape::atom_u64(12)),
        ],
    };
    let diff = record_diff(&unit_enum("A"), &b);
    assert!(is_difference(&diff, "A", "B { unit: (), size: 12 }"));
}

#[test]
fn enum_different_field_struct() {
    let diff = record_diff(&enum_b(14), &enum_b(12));
    match diff {
        Value::Enum(e) => {
            assert_eq!(e.name, "TestEnum");
            match e.variant {
                Variant::Struct(s) => {
                    assert_eq!(s.name, "B");
                    assert_eq!(s.fields.len(), 2);
                    assert_eq!(s.fields[0].0, "unit");
                    assert!(matches!(&s.fields[0].1, Some(v) if is_same(v, "()", "()")));
                    assert_eq!(s.fields[1].0, "size");
                    assert!(matches!(&s.fields[1].1, Some(v) if is_difference(v, "14", "12")));
                },
                _ => panic!("expected a struct variant"),
            }
        },
        _ => panic!("expected an enum record"),
    }
}

#[test]
fn enum_different_field_tuple() {
    let diff = record_diff(&enum_c(true, 14), &enum_c(true, 12));
    match diff {
        Value::Enum(e) => {
            assert_eq!(e.name, "TestEnum");
            match e.variant {
                Variant::Tuple(t) => {
                    assert_eq!(t.name, "C");
                    assert_eq!(t.fields.len(), 2);
                    assert!(matches!(&t.fields[0], Some(v) if is_same(v, "true", "true")));
                    assert!(matches!(&t.fields[1], Some(v) if is_difference(v, "14", "12")));
                },
                _ => panic!("expected a tuple variant"),
            }
        },
        _ => panic!("expected an enum record"),
    }
}

#[test]
fn unit_struct_same() {
    let u = Shape::Atom {
        text: "TestUStruct".to_string(),
    };
    let diff = record_diff(&u, &u);
    assert!(is_same(&diff, "TestUStruct", "TestUStruct"));
}

#[test]
fn field_struct_same() {
    let a = Shape::Struct {
        name: "TestStruct".to_string(),
        fields: vec![
            field("a".to_string(), Shape::atom_bool(false)),
            field("b".to_string(), Shape::unit()),
        ],
    };
    let diff = record_diff(&a, &a);
    match diff {
        Value::Struct(s) => {
            assert_eq!(s.name, "TestStruct");
            assert_eq!(s.fields.len(), 2);
            assert_eq!(s.fields[0].0, "a");
            assert!(matches!(&s.fields[0].1, Some(v) if is_same(v, "false", "false")));
            assert_eq!(s.fields[1].0, "b");
            assert!(matches!(&s.fields[1].1, Some(v) if is_same(v, "()", "()")));
        },
        _ => panic!("expected a struct record"),
    }
}

#[test]
fn tuple_struct_same() {
    let a = Shape::Tuple {
        name: "TestTStruct".to_string(),
        fields: vec![Some(Shape::atom_bool(false)), Some(Shape::unit())],
    };
    let diff = record_diff(&a, &a);
    match diff {
        Value::Tuple(t) => {
            assert_eq!(t.name, "TestTStruct");
            assert_eq!(t.fields.len(), 2);
            assert!(matches!(&t.fields[0], Some(v) if is_same(v, "false", "false")));
            assert!(matches!(&t.fields[1], Some(v) if is_same(v, "()", "()")));
        },
        _ => panic!("expected a tuple record"),
    }
}

#[test]
fn skipped_field_recorded_as_none() {
    let mk = || Shape::Struct {
        name: "S".to_string(),
        fields: vec![
            visit_diff::skipped_field("hidden".to_string()),
            field("shown".to_string(), Shape::atom_u64(1)),
        ],
    };
    let diff = record_diff(&mk(), &mk());
    match diff {
        Value::Struct(s) => {
            assert_eq!(s.fields[0].0, "hidden");
            assert!(s.fields[0].1.is_none());
            assert_eq!(s.fields[1].0, "shown");
            assert!(s.fields[1].1.is_some());
        },
        _ => panic!("expected a struct record"),
    }
}

#[test]
fn ordered_map_merge_order() {
    let a = Shape::MapLike {
        ordered: true,
        entries: vec![
            entry(0, Shape::atom_bool(true)),
            entry(2, Shape::atom_bool(false)),
        ],
    };
    let b = Shape::MapLike {
        ordered: true,
        entries: vec![
            entry(0, Shape::atom_bool(false)),
            entry(1, Shape::atom_bool(false)),
        ],
    };
    let diff = record_diff(&a, &b);
    match diff {
        Value::MapLike(entries) => {
            assert_eq!(entries.len(), 3);
            assert_eq!(entries[0].0, "0");
            assert!(matches!(&entries[0].1, Element::Both(v)
                if is_difference(v, "true", "false")));
            assert_eq!(entries[1].0, "1");
            assert!(matches!(&entries[1].1, Element::RightOnly(t) if t == "false"));
            assert_eq!(entries[2].0, "2");
            assert!(matches!(&entries[2].1, Element::LeftOnly(t) if t == "false"));
        },
        _ => panic!("expected a map record"),
    }
}

#[test]
fn sequence_excess_recorded() {
    let a = Shape::Sequence {
        elems: vec![Shape::atom_u64(1), Shape::atom_u64(2), Shape::atom_u64(3)],
    };
    let b = Shape::Sequence {
        elems: vec![Shape::atom_u64(1), Shape::atom_u64(2)],
    };
    let diff = record_diff(&a, &b);
    match diff {
        Value::Sequence(elems) => {
            assert_eq!(elems.len(), 3);
            assert!(matches!(&elems[0], Element::Both(v) if is_same(v, "1", "1")));
            assert!(matches!(&elems[1], Element::Both(v) if is_same(v, "2", "2")));
            assert!(matches!(&elems[2], Element::LeftOnly(t) if t == "3"));
        },
        _ => panic!("expected a sequence record"),
    }
    assert!(visit_diff::any_difference(&a, &b));
}

#[test]
fn unordered_set_recorded() {
    let a = Shape::SetLike {
        ordered: false,
        elems: vec![
            entry(1, Shape::atom_u64(1)),
            entry(2, Shape::atom_u64(2)),
        ],
    };
    let b = Shape::SetLike {
        ordered: false,
        elems: vec![
            entry(2, Shape::atom_u64(2)),
            entry(4, Shape::atom_u64(4)),
        ],
    };
    let diff = record_diff(&a, &b);
    match diff {
        Value::SetLike(elems) => {
            assert_eq!(elems.len(), 3);
            assert!(matches!(&elems[0], Element::LeftOnly(t) if t == "1"));
            assert!(matches!(&elems[1], Element::Both(v) if is_same(v, "2", "2")));
            assert!(matches!(&elems[2], Element::RightOnly(t) if t == "4"));
        },
        _ => panic!("expected a set record"),
    }
}

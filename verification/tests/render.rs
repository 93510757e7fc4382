//! Tests of the two-sided text renderer.

use visit_diff::debug::debug_diff;
use visit_diff::refl::{make_debug, Gen, Struct};
use visit_diff::{field, Shape};

fn test_struct(distance: u64, silly: bool) -> Shape {
    Shape::Struct {
        name: "TestStruct".to_string(),
        fields: vec![
            field("distance".to_string(), Shape::atom_u64(distance)),
            field("silly".to_string(), Shape::atom_bool(silly)),
        ],
    }
}

fn enum_first() -> Shape {
    Shape::Atom {
        text: "First".to_string(),
    }
}

fn enum_second() -> Shape {
    Shape::Atom {
        text: "Second".to_string(),
    }
}

fn enum_struct_variant(a: u64, b: bool) -> Shape {
    Shape::StructVariant {
        enum_name: "TestEnum".to_string(),
        variant: "Struct".to_string(),
        fields: vec![
            field("a".to_string(), Shape::atom_u64(a)),
            field("b".to_string(), Shape::atom_bool(b)),
        ],
    }
}

#[test]
fn debug_self_usize() {
    let formatted = format!("{:?}", 32_usize);
    let diff = debug_diff(Shape::atom_u64(32), Shape::atom_u64(32));
    assert_eq!(diff.compact(), formatted);
}

#[test]
fn debug_debug_self_usize() {
    let formatted = format!("{:?}", 32_usize);
    let diff = debug_diff(Shape::atom_u64(32), Shape::atom_u64(32));
    assert_eq!(diff.compact(), formatted);
}

#[test]
fn debug_self_struct() {
    let diff = debug_diff(test_struct(12, false), test_struct(12, false));
    assert_eq!(diff.compact(), "TestStruct { distance: 12, silly: false }");
}

#[test]
fn debug_debug_self_struct() {
    let diff = debug_diff(test_struct(12, false), test_struct(12, false));
    assert_eq!(diff.compact(), "TestStruct { distance: 12, silly: false }");
}

#[test]
fn debug_delta_struct() {
    let expected = "TestStruct { distance: DIFF { L: 12, R: 10 }, silly: false }";
    let diff = debug_diff(test_struct(12, false), test_struct(10, false));
    assert_eq!(diff.compact(), expected);
}

#[test]
fn debug_debug_delta_struct() {
    let expected = "TestStruct { distance: DIFF { L: 12, R: 10 }, silly: false }";
    let diff = debug_diff(test_struct(12, false), test_struct(10, false));
    assert_eq!(diff.compact(), expected);
}

#[test]
fn debug_full_delta_struct() {
    let expected = "DIFF { L: TestStruct { distance: 12, silly: false }, \
                    R: TestStruct { distance: 10, silly: true } }";
    let diff = debug_diff(test_struct(12, false), test_struct(10, true));
    assert_eq!(diff.compact(), expected);
}

#[test]
fn debug_delta_struct_pretty() {
    let expected = "\
TestStruct {
    distance: DIFF {
        L: 12,
        R: 10,
    },
    silly: false,
}";
    let diff = debug_diff(test_struct(12, false), test_struct(10, false));
    assert_eq!(diff.pretty(), expected);
}

#[test]
fn debug_debug_delta_struct_pretty() {
    let expected = "\
TestStruct {
    distance: DIFF {
        L: 12,
        R: 10,
    },
    silly: false,
}";
    let diff = debug_diff(test_struct(12, false), test_struct(10, false));
    assert_eq!(diff.pretty(), expected);
}

#[test]
fn debug_enum_same() {
    let diff = debug_diff(enum_first(), enum_first());
    assert_eq!(diff.pretty(), "First");
}

#[test]
fn debug_debug_enum_same() {
    let diff = debug_diff(enum_first(), enum_first());
    assert_eq!(diff.pretty(), "First");
}

#[test]
fn debug_enum_different() {
    let diff = debug_diff(enum_first(), enum_second());
    assert_eq!(diff.compact(), "DIFF { L: First, R: Second }");
}

#[test]
fn debug_debug_enum_different() {
    let diff = debug_diff(enum_first(), enum_second());
    assert_eq!(diff.compact(), "DIFF { L: First, R: Second }");
}

#[test]
fn struct_variant_same() {
    let diff = debug_diff(enum_struct_variant(12, false), enum_struct_variant(12, false));
    assert_eq!(diff.compact(), "Struct { a: 12, b: false }");
}

#[test]
fn debug_struct_variant_same() {
    let diff = debug_diff(enum_struct_variant(12, false), enum_struct_variant(12, false));
    assert_eq!(diff.compact(), "Struct { a: 12, b: false }");
}

#[test]
fn struct_variant_different() {
    let diff = debug_diff(enum_struct_variant(12, false), enum_struct_variant(14, false));
    assert_eq!(diff.compact(), "Struct { a: DIFF { L: 12, R: 14 }, b: false }");
}

#[test]
fn debug_struct_variant_different() {
    // With every field changed, the whole pair is shown as one marker.
    let diff = debug_diff(enum_struct_variant(12, false), enum_struct_variant(14, true));
    assert_eq!(
        diff.compact(),
        "DIFF { L: Struct { a: 12, b: false }, R: Struct { a: 14, b: true } }"
    );
}

fn bool_map(pairs: &[(u64, bool)]) -> Shape {
    Shape::MapLike {
        ordered: true,
        entries: pairs
            .iter()
            .map(|&(k, v)| visit_diff::entry(k, Shape::atom_bool(v)))
            .collect(),
    }
}

#[test]
fn map() {
    let a = bool_map(&[(0, true), (2, false)]);
    let b = bool_map(&[(0, false), (1, false)]);
    println!("{}", debug_diff(a, b).pretty());
}

#[test]
fn debug_map() {
    let a = bool_map(&[(0, true), (2, false)]);
    let b = bool_map(&[(0, false), (1, false)]);
    // Every entry differs (one changed value, two excess keys), so the
    // whole pair is shown as one marker.
    let diff = debug_diff(a, b);
    assert_eq!(
        diff.compact(),
        "DIFF { L: {0: true, 2: false}, R: {0: false, 1: false} }"
    );
    let c = bool_map(&[(0, true), (2, false)]);
    let d = bool_map(&[(0, true), (1, false)]);
    // With the shared entry 0 equal, the map is walked entry by entry.
    let diff = debug_diff(c, d);
    assert_eq!(
        diff.compact(),
        "{0: true, 1: DIFF { L: (missing), R: false }, 2: DIFF { L: false, R: (missing) }}"
    );
}

#[test]
fn debug() {
    let value = Gen::Struct(
        "TestStruct".to_string(),
        Struct {
            fields: vec![
                ("a".to_string(), Gen::Bool(true)),
                ("b".to_string(), Gen::Unit),
            ],
        },
    );
    let adapter = make_debug(value);
    assert_eq!(adapter.compact(), "TestStruct { a: true, b: () }");
    assert_eq!(adapter.pretty(), "TestStruct {\n    a: true,\n    b: (),\n}");
}

#[test]
fn newtype_rendering() {
    let a = Shape::Newtype {
        name: "MyInt".to_string(),
        inner: Box::new(Shape::atom_u64(1)),
    };
    let b = Shape::Newtype {
        name: "MyInt".to_string(),
        inner: Box::new(Shape::atom_u64(1)),
    };
    let diff = debug_diff(a, b);
    assert_eq!(diff.compact(), "MyInt(1)");
    assert_eq!(diff.pretty(), "MyInt(\n    1,\n)");
}

#[test]
fn sequence_excess_rendering() {
    let a = Shape::Sequence {
        elems: vec![Shape::atom_u64(1), Shape::atom_u64(2), Shape::atom_u64(3)],
    };
    let b = Shape::Sequence {
        elems: vec![Shape::atom_u64(1), Shape::atom_u64(2)],
    };
    let diff = debug_diff(a, b);
    assert_eq!(diff.compact(), "[1, 2, DIFF { L: 3, R: (missing) }]");
}

#[test]
fn large_number_text() {
    let diff = debug_diff(Shape::atom_u64(1234), Shape::atom_u64(1234));
    assert_eq!(diff.compact(), "1234");
    let diff = debug_diff(Shape::atom_u64(0), Shape::atom_u64(0));
    assert_eq!(diff.compact(), "0");
}

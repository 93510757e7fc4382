//! Tests of the boolean difference detectors.

use visit_diff::{all_different, any_difference, field, Shape};

fn test_struct(distance: u64, silly: bool) -> Shape {
    Shape::Struct {
        name: "TestStruct".to_string(),
        fields: vec![
            field("distance".to_string(), Shape::atom_u64(distance)),
            field("silly".to_string(), Shape::atom_bool(silly)),
        ],
    }
}

fn enum_first() -> Shape {
    Shape::Atom {
        text: "First".to_string(),
    }
}

fn enum_second() -> Shape {
    Shape::Atom {
        text: "Second".to_string(),
    }
}

fn enum_struct_variant(a: u64, b: bool) -> Shape {
    Shape::StructVariant {
        enum_name: "TestEnum".to_string(),
        variant: "Struct".to_string(),
        fields: vec![
            field("a".to_string(), Shape::atom_u64(a)),
            field("b".to_string(), Shape::atom_bool(b)),
        ],
    }
}

#[test]
fn detect_detector_self_false() {
    let a = test_struct(12, false);
    assert_eq!(any_difference(&a, &a), false)
}

#[test]
fn detect_detector_other_false() {
    let a = test_struct(12, false);
    let b = test_struct(12, false);
    assert_eq!(any_difference(&a, &b), false)
}

#[test]
fn detect_detector_first_field_true() {
    let a = test_struct(12, false);
    let b = test_struct(10, false);
    assert!(any_difference(&a, &b))
}

#[test]
fn detect_detector_second_field_true() {
    let a = test_struct(12, false);
    let b = test_struct(12, true);
    assert!(any_difference(&a, &b))
}

#[test]
fn detect_detector_enum() {
    assert_eq!(any_difference(&enum_first(), &enum_first()), false);
    assert_eq!(any_difference(&enum_second(), &enum_second()), false);

    assert!(any_difference(&enum_first(), &enum_second()));
    assert!(any_difference(&enum_second(), &enum_first()));
}

#[test]
fn detect_detector_struct_variant() {
    let a = enum_struct_variant(12, false);

    assert_eq!(any_difference(&a, &a), false);
    assert!(any_difference(&a, &enum_first()));

    let b = enum_struct_variant(14, true);

    assert!(any_difference(&a, &b));
}

#[test]
fn all_self_false() {
    let a = test_struct(12, false);
    assert_eq!(all_different(&a, &a), false)
}

#[test]
fn all_one_field_false() {
    let a = test_struct(12, false);
    let b = test_struct(10, false);
    assert_eq!(all_different(&a, &b), false)
}

#[test]
fn all_both_fields_true() {
    let a = test_struct(12, false);
    let b = test_struct(10, true);
    assert!(all_different(&a, &b))
}

#[test]
fn empty_slice() {
    let s = Shape::Sequence { elems: vec![] };
    let t = Shape::Sequence { elems: vec![] };
    assert!(
        !all_different(&s, &t),
        "empty slices should all be the same."
    );
    assert!(
        !any_difference(&s, &t),
        "empty slices should all be the same."
    );
}

#[test]
fn detect_unit() {
    assert!(
        !all_different(&Shape::unit(), &Shape::unit()),
        "units should all be the same."
    );
    assert!(
        !any_difference(&Shape::unit(), &Shape::unit()),
        "units should all be the same."
    );
}

#[test]
fn detect_all_detector_self_false() {
    let a = test_struct(12, false);
    assert_eq!(visit_diff::detect_all::all_different(&a, &a), false)
}

#[test]
fn detector_one_field_false() {
    let a = test_struct(12, false);
    let b = test_struct(10, false);
    assert_eq!(visit_diff::detect_all::all_different(&a, &b), false)
}

#[test]
fn detector_both_fields_true() {
    let a = test_struct(12, false);
    let b = test_struct(10, true);
    assert!(visit_diff::detect_all::all_different(&a, &b))
}

#[test]
fn counting_matches_folding() {
    let cases = [
        (test_struct(12, false), test_struct(12, false)),
        (test_struct(12, false), test_struct(10, false)),
        (test_struct(12, false), test_struct(10, true)),
        (enum_first(), enum_second()),
        (enum_struct_variant(1, true), enum_first()),
    ];
    for (a, b) in cases.iter() {
        assert_eq!(
            visit_diff::detect_all::all_different(a, b),
            all_different(a, b)
        );
    }
}

#[test]
fn ordered_set_detection() {
    let a = Shape::SetLike {
        ordered: true,
        elems: vec![
            visit_diff::entry(1, Shape::atom_u64(1)),
            visit_diff::entry(2, Shape::atom_u64(2)),
        ],
    };
    let b = Shape::SetLike {
        ordered: true,
        elems: vec![
            visit_diff::entry(2, Shape::atom_u64(2)),
            visit_diff::entry(3, Shape::atom_u64(3)),
        ],
    };
    assert!(any_difference(&a, &b));
    assert!(!all_different(&a, &b), "the shared element 2 is equal");
    assert!(!any_difference(&a, &a));
}

#[test]
fn unordered_map_detection() {
    let a = Shape::MapLike {
        ordered: false,
        entries: vec![
            visit_diff::entry(7, Shape::atom_bool(true)),
            visit_diff::entry(3, Shape::atom_bool(false)),
        ],
    };
    let b = Shape::MapLike {
        ordered: false,
        entries: vec![
            visit_diff::entry(3, Shape::atom_bool(false)),
            visit_diff::entry(7, Shape::atom_bool(true)),
        ],
    };
    assert!(
        !any_difference(&a, &b),
        "unordered pairing ignores entry order"
    );
    let c = Shape::MapLike {
        ordered: false,
        entries: vec![visit_diff::entry(3, Shape::atom_bool(true))],
    };
    assert!(any_difference(&a, &c));
}

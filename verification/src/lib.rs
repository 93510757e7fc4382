//! Structural comparison of values: report *where* two values of one shape
//! differ, not merely *whether* they differ.
//!
//! A value that wants to be compared is first decomposed into a [`Shape`]:
//! one of the nine forms the comparison protocol recognizes (atomic value,
//! newtype, struct, struct variant, tuple, tuple variant, sequence, set,
//! map). One traversal definition then serves several consumers:
//!
//! - [`any_difference`] and [`all_different`] reduce a comparison to a
//!   boolean (is anything different; is every top-level part different);
//! - [`debug_diff`] renders a two-sided human-readable diff, in compact or
//!   pretty form;
//! - [`record_diff`] materializes a structured diff tree that can be
//!   inspected without formatting.
//!
//! Sequences are paired positionally (zip-longest); ordered sets and maps by
//! merge-join over sorted keys; unordered ones by intersection and
//! difference of their key sets.
//!
//! The two boolean questions are specified once, by [`detect::any_diff`]
//! and [`detect::all_diff`]; the renderer and the recorder are proved to
//! follow the same pairing discipline exactly, and the laws that tie the
//! consumers together (reflexivity, the vacuous-composite rule, and
//! all-different implying any-difference) are proved alongside them.

use vstd::prelude::*;

pub mod debug;
pub mod detect;
pub mod detect_all;
pub mod record;
pub mod refl;
pub mod text;

pub use debug::debug_diff;
pub use detect::all_different;
pub use detect::any_difference;
pub use record::record_diff;

verus! {

/// A comparable value, decomposed into exactly one of the shapes the
/// comparison protocol recognizes.
///
/// Atomic values carry their canonical text form; two atoms are the same
/// exactly when their texts are equal. Set elements and map entries carry a
/// `u64` key that provides identity and ordering.
#[derive(Debug)]
#[allow(inconsistent_fields)]
pub enum Shape {
    /// An indivisible value in its canonical text form.
    Atom { text: String },
    /// A newtype wrapper around a single inner value.
    Newtype { name: String, inner: Box<Shape> },
    /// A struct with named fields.
    Struct { name: String, fields: Vec<Field> },
    /// A struct-like variant of an enum.
    StructVariant { enum_name: String, variant: String, fields: Vec<Field> },
    /// A tuple or tuple struct; the name is empty for a raw tuple.
    Tuple { name: String, fields: Vec<Option<Shape>> },
    /// A tuple-like variant of an enum.
    TupleVariant { enum_name: String, variant: String, fields: Vec<Option<Shape>> },
    /// A variable-length ordered collection.
    Sequence { elems: Vec<Shape> },
    /// A collection of unique elements, keyed for identity.
    SetLike { ordered: bool, elems: Vec<Entry> },
    /// A collection of key-value entries.
    MapLike { ordered: bool, entries: Vec<Entry> },
}

/// A named struct field. A `None` value means the field is excluded from
/// comparison, which is distinct from "compared and found equal".
#[derive(Debug)]
pub struct Field {
    pub name: String,
    pub value: Option<Shape>,
}

/// A keyed element of a set or entry of a map.
#[derive(Debug)]
pub struct Entry {
    pub key: u64,
    pub value: Shape,
}

/// Whether the keys of consecutive entries are strictly increasing.
pub open spec fn keys_sorted(entries: Seq<Entry>) -> bool {
    forall|i: int, j: int|
        0 <= i < j < entries.len() ==> #[trigger] entries[i].key < #[trigger] entries[j].key
}

/// Whether no two entries share a key.
pub open spec fn keys_distinct(entries: Seq<Entry>) -> bool {
    forall|i: int, j: int|
        0 <= i < j < entries.len() ==> #[trigger] entries[i].key != #[trigger] entries[j].key
}

/// Well-formedness of a shape: ordered sets and maps have strictly
/// increasing keys, unordered ones have distinct keys, and every nested
/// value is well-formed in turn.
pub open spec fn wf(s: Shape) -> bool
    decreases s,
{
    match s {
        Shape::Atom { .. } => true,
        Shape::Newtype { inner, .. } => wf(*inner),
        Shape::Struct { fields, .. } => forall|i: int|
            0 <= i < fields@.len() ==> wf_field(#[trigger] fields@[i]),
        Shape::StructVariant { fields, .. } => forall|i: int|
            0 <= i < fields@.len() ==> wf_field(#[trigger] fields@[i]),
        Shape::Tuple { fields, .. } => forall|i: int|
            0 <= i < fields@.len() ==> wf_opt(#[trigger] fields@[i]),
        Shape::TupleVariant { fields, .. } => forall|i: int|
            0 <= i < fields@.len() ==> wf_opt(#[trigger] fields@[i]),
        Shape::Sequence { elems } => forall|i: int|
            0 <= i < elems@.len() ==> wf(#[trigger] elems@[i]),
        Shape::SetLike { ordered, elems } => {
            &&& if ordered {
                keys_sorted(elems@)
            } else {
                keys_distinct(elems@)
            }
            &&& forall|i: int| 0 <= i < elems@.len() ==> wf(#[trigger] elems@[i].value)
        },
        Shape::MapLike { ordered, entries } => {
            &&& if ordered {
                keys_sorted(entries@)
            } else {
                keys_distinct(entries@)
            }
            &&& forall|i: int| 0 <= i < entries@.len() ==> wf(#[trigger] entries@[i].value)
        },
    }
}

/// Well-formedness of a struct field.
pub open spec fn wf_field(f: Field) -> bool
    decreases f,
{
    match f.value {
        Option::Some(s) => wf(s),
        Option::None => true,
    }
}

/// Well-formedness of an optional tuple field.
pub open spec fn wf_opt(o: Option<Shape>) -> bool
    decreases o,
{
    match o {
        Option::Some(s) => wf(s),
        Option::None => true,
    }
}

/// The canonical text of `true` or `false`.
pub open spec fn spec_bool_text(b: bool) -> Seq<char> {
    if b {
        "true"@
    } else {
        "false"@
    }
}

impl Shape {
    /// An atom with the given canonical text.
    pub fn atom(text: String) -> (s: Shape)
        ensures
            s == (Shape::Atom { text }),
    {
        Shape::Atom { text }
    }

    /// An atom for a boolean, in its canonical text form.
    pub fn atom_bool(b: bool) -> (s: Shape)
        ensures
            s matches Shape::Atom { text } && text@ == spec_bool_text(b),
    {
        if b {
            Shape::Atom { text: String::from_str("true") }
        } else {
            Shape::Atom { text: String::from_str("false") }
        }
    }

    /// An atom for an unsigned integer, in decimal.
    pub fn atom_u64(n: u64) -> (s: Shape)
        ensures
            s matches Shape::Atom { text } && text@ == crate::text::dec_digits(n as nat),
    {
        Shape::Atom { text: crate::text::u64_to_string(n) }
    }

    /// The unit value, `()`.
    pub fn unit() -> (s: Shape)
        ensures
            s matches Shape::Atom { text } && text@ == "()"@,
    {
        Shape::Atom { text: String::from_str("()") }
    }

    /// An optional value: `None` is an atomic unit variant, `Some` a tuple
    /// variant holding the inner value.
    pub fn option_of(o: Option<Shape>) -> (s: Shape)
        ensures
            o matches Option::Some(v) ==> (s matches Shape::TupleVariant {
                enum_name,
                variant,
                fields,
            } && enum_name@ == "Option"@ && variant@ == "Some"@ && fields@ == seq![
                Option::Some(v),
            ]),
            o is None ==> (s matches Shape::Atom { text } && text@ == "None"@),
    {
        match o {
            Option::Some(v) => {
                let mut fields: Vec<Option<Shape>> = Vec::new();
                fields.push(Option::Some(v));
                proof {
                    assert(fields@ =~= seq![Option::Some(o->0)]);
                }
                Shape::TupleVariant {
                    enum_name: String::from_str("Option"),
                    variant: String::from_str("Some"),
                    fields,
                }
            },
            Option::None => Shape::Atom { text: String::from_str("None") },
        }
    }

    /// A fallible value: `Ok` and `Err` are tuple variants holding the
    /// inner value.
    pub fn result_of(r: Result<Shape, Shape>) -> (s: Shape)
        ensures
            r matches Result::Ok(v) ==> (s matches Shape::TupleVariant {
                enum_name,
                variant,
                fields,
            } && enum_name@ == "Result"@ && variant@ == "Ok"@ && fields@ == seq![
                Option::Some(v),
            ]),
            r matches Result::Err(e) ==> (s matches Shape::TupleVariant {
                enum_name,
                variant,
                fields,
            } && enum_name@ == "Result"@ && variant@ == "Err"@ && fields@ == seq![
                Option::Some(e),
            ]),
    {
        match r {
            Result::Ok(v) => {
                let mut fields: Vec<Option<Shape>> = Vec::new();
                fields.push(Option::Some(v));
                proof {
                    assert(fields@ =~= seq![Option::Some(r->Ok_0)]);
                }
                Shape::TupleVariant {
                    enum_name: String::from_str("Result"),
                    variant: String::from_str("Ok"),
                    fields,
                }
            },
            Result::Err(e) => {
                let mut fields: Vec<Option<Shape>> = Vec::new();
                fields.push(Option::Some(e));
                proof {
                    assert(fields@ =~= seq![Option::Some(r->Err_0)]);
                }
                Shape::TupleVariant {
                    enum_name: String::from_str("Result"),
                    variant: String::from_str("Err"),
                    fields,
                }
            },
        }
    }
}

/// A field compared under the given name.
pub fn field(name: String, value: Shape) -> (f: Field)
    ensures
        f == (Field { name, value: Option::Some(value) }),
{
    Field { name, value: Option::Some(value) }
}

/// A field excluded from comparison.
pub fn skipped_field(name: String) -> (f: Field)
    ensures
        f == (Field { name, value: Option::<Shape>::None }),
{
    Field { name, value: Option::None }
}

/// A set element or map entry under the given key.
pub fn entry(key: u64, value: Shape) -> (e: Entry)
    ensures
        e == (Entry { key, value }),
{
    Entry { key, value }
}

} // verus!

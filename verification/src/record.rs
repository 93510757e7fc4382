//! The tree-recording consumer: a structured, inspectable diff value.
//!
//! [`record_diff`] materializes where two values agree or disagree as a
//! [`Value`] tree, so the outcome can be examined without parsing any
//! formatted text. Atomic leaves store both sides' canonical text form;
//! everything else keeps its structure.
//!
//! The spec function [`record`] defines the recorded tree exactly, over the
//! ghost model [`ValueV`]; the executable recorder is proved to produce it.

use vstd::prelude::*;

use crate::debug::render_value;
use crate::detect::{fields_compat, find_entry, tuple_compat};
use crate::text::dec_digits;
use crate::{Entry, Field, Shape};

verus! {

/// A recorded comparison of two values of one common shape.
///
/// Atomic values are flattened into their canonical text; everything else
/// is represented as a structure that can be examined.
#[derive(Debug)]
pub enum Value {
    /// Two atomic values that were reported as equivalent, in text form.
    Same(String, String),
    /// Two atomic values that were reported as different, in text form.
    Difference(String, String),
    /// A newtype.
    Newtype(String, Box<Value>),
    /// A struct type.
    Struct(Struct),
    /// A tuple or tuple struct type.
    Tuple(Tuple),
    /// An enumerated type whose operands use the same variant.
    Enum(Enum),
    /// An abstract sequence.
    Sequence(Vec<Element>),
    /// An abstract set.
    SetLike(Vec<Element>),
    /// An abstract map.
    MapLike(Vec<(String, Element)>),
}

/// Recorded differences between two structs of a common type.
#[derive(Debug)]
pub struct Struct {
    /// Type name for a standalone struct, variant name for a struct
    /// variant.
    pub name: String,
    /// The fields in declaration order; a field excluded from comparison
    /// records `None`.
    pub fields: Vec<(String, Option<Value>)>,
}

/// Recorded differences between two tuples of a common type.
#[derive(Debug)]
pub struct Tuple {
    /// Type name for a tuple struct, variant name for a tuple variant, or
    /// the empty string for a raw tuple.
    pub name: String,
    /// The fields in order; a field excluded from comparison records
    /// `None`.
    pub fields: Vec<Option<Value>>,
}

/// Recorded differences between two values of an enum type that use the
/// same variant.
#[derive(Debug)]
pub struct Enum {
    /// Name of the enum type.
    pub name: String,
    /// Shape of the variant.
    pub variant: Variant,
}

/// Shape of a recorded enum variant.
#[derive(Debug)]
pub enum Variant {
    /// A struct variant.
    Struct(Struct),
    /// A tuple variant.
    Tuple(Tuple),
}

/// One recorded position of a sequence, set or map pairing.
#[derive(Debug)]
pub enum Element {
    /// A flattened value that appears on the left side only.
    LeftOnly(String),
    /// A flattened value that appears on the right side only.
    RightOnly(String),
    /// Both sides hold a value at this position.
    Both(Value),
}

/// The mathematical model of a recorded [`Value`].
#[verifier::ext_equal]
pub enum ValueV {
    Same(Seq<char>, Seq<char>),
    Difference(Seq<char>, Seq<char>),
    Newtype(Seq<char>, Box<ValueV>),
    Struct(StructV),
    Tuple(TupleV),
    Enum(EnumV),
    Sequence(Seq<ElementV>),
    SetLike(Seq<ElementV>),
    MapLike(Seq<(Seq<char>, ElementV)>),
}

/// The model of a recorded [`Struct`].
#[verifier::ext_equal]
pub struct StructV {
    pub name: Seq<char>,
    pub fields: Seq<(Seq<char>, Option<ValueV>)>,
}

/// The model of a recorded [`Tuple`].
#[verifier::ext_equal]
pub struct TupleV {
    pub name: Seq<char>,
    pub fields: Seq<Option<ValueV>>,
}

/// The model of a recorded [`Enum`].
#[verifier::ext_equal]
pub struct EnumV {
    pub name: Seq<char>,
    pub variant: VariantV,
}

/// The model of a recorded [`Variant`].
#[verifier::ext_equal]
pub enum VariantV {
    Struct(StructV),
    Tuple(TupleV),
}

/// The model of a recorded [`Element`].
#[verifier::ext_equal]
pub enum ElementV {
    LeftOnly(Seq<char>),
    RightOnly(Seq<char>),
    Both(ValueV),
}

/// The model of a recorded value.
pub open spec fn view_value(v: Value) -> ValueV
    decreases v, 0int,
{
    match v {
        Value::Same(l, r) => ValueV::Same(l@, r@),
        Value::Difference(l, r) => ValueV::Difference(l@, r@),
        Value::Newtype(n, inner) => ValueV::Newtype(n@, Box::new(view_value(*inner))),
        Value::Struct(s) => ValueV::Struct(view_struct(s)),
        Value::Tuple(t) => ValueV::Tuple(view_tuple(t)),
        Value::Enum(e) => ValueV::Enum(
            EnumV {
                name: e.name@,
                variant: match e.variant {
                    Variant::Struct(s) => VariantV::Struct(view_struct(s)),
                    Variant::Tuple(t) => VariantV::Tuple(view_tuple(t)),
                },
            },
        ),
        Value::Sequence(elems) => ValueV::Sequence(view_elements(elems@)),
        Value::SetLike(elems) => ValueV::SetLike(view_elements(elems@)),
        Value::MapLike(entries) => ValueV::MapLike(view_map_entries(entries@)),
    }
}

/// The model of a recorded struct.
pub open spec fn view_struct(s: Struct) -> StructV
    decreases s, 1int,
{
    StructV { name: s.name@, fields: view_fields(s.fields@) }
}

/// The model of a recorded tuple.
pub open spec fn view_tuple(t: Tuple) -> TupleV
    decreases t, 1int,
{
    TupleV { name: t.name@, fields: view_tuple_fields(t.fields@) }
}

/// The model of a recorded field list.
pub open spec fn view_fields(fields: Seq<(String, Option<Value>)>) -> Seq<
    (Seq<char>, Option<ValueV>),
>
    decreases fields, 2int,
{
    if fields.len() == 0 {
        Seq::empty()
    } else {
        seq![
            (
                fields[0].0@,
                match fields[0].1 {
                    Option::Some(v) => Option::Some(view_value(v)),
                    Option::None => Option::None,
                },
            ),
        ] + view_fields(fields.drop_first())
    }
}

/// The model of a recorded tuple field list.
pub open spec fn view_tuple_fields(fields: Seq<Option<Value>>) -> Seq<Option<ValueV>>
    decreases fields, 2int,
{
    if fields.len() == 0 {
        Seq::empty()
    } else {
        seq![
            match fields[0] {
                Option::Some(v) => Option::Some(view_value(v)),
                Option::None => Option::None,
            },
        ] + view_tuple_fields(fields.drop_first())
    }
}

/// The model of a recorded element list.
pub open spec fn view_elements(elems: Seq<Element>) -> Seq<ElementV>
    decreases elems, 2int,
{
    if elems.len() == 0 {
        Seq::empty()
    } else {
        seq![
            match elems[0] {
                Element::LeftOnly(t) => ElementV::LeftOnly(t@),
                Element::RightOnly(t) => ElementV::RightOnly(t@),
                Element::Both(v) => ElementV::Both(view_value(v)),
            },
        ] + view_elements(elems.drop_first())
    }
}

/// The model of a recorded map entry list.
pub open spec fn view_map_entries(entries: Seq<(String, Element)>) -> Seq<(Seq<char>, ElementV)>
    decreases entries, 2int,
{
    if entries.len() == 0 {
        Seq::empty()
    } else {
        seq![
            (
                entries[0].0@,
                match entries[0].1 {
                    Element::LeftOnly(t) => ElementV::LeftOnly(t@),
                    Element::RightOnly(t) => ElementV::RightOnly(t@),
                    Element::Both(v) => ElementV::Both(view_value(v)),
                },
            ),
        ] + view_map_entries(entries.drop_first())
    }
}

impl View for Value {
    type V = ValueV;

    open spec fn view(&self) -> ValueV {
        view_value(*self)
    }
}

impl View for Element {
    type V = ElementV;

    open spec fn view(&self) -> ElementV {
        match *self {
            Element::LeftOnly(t) => ElementV::LeftOnly(t@),
            Element::RightOnly(t) => ElementV::RightOnly(t@),
            Element::Both(v) => ElementV::Both(view_value(v)),
        }
    }
}

/// The flattened, compact text of a whole value, as a `Difference` leaf or
/// an excess element stores it.
pub open spec fn flat(s: Shape) -> Seq<char> {
    render_value(s, false, Seq::empty())
}

/// The recorded tree for a comparison of `a` and `b`.
///
/// Operands of mismatched shape (different variants of one enum, in
/// particular) record a whole-value `Difference` leaf: no sub-structure is
/// entered.
pub open spec fn record(a: Shape, b: Shape) -> ValueV
    decreases a, b, 0int,
{
    match (a, b) {
        (Shape::Atom { text: ta }, Shape::Atom { text: tb }) => {
            if ta@ == tb@ {
                ValueV::Same(ta@, tb@)
            } else {
                ValueV::Difference(ta@, tb@)
            }
        },
        (Shape::Newtype { name: na, inner: ia }, Shape::Newtype { name: nb, inner: ib }) => {
            if na@ == nb@ {
                ValueV::Newtype(na@, Box::new(record(*ia, *ib)))
            } else {
                ValueV::Difference(flat(a), flat(b))
            }
        },
        (Shape::Struct { name: na, fields: fa }, Shape::Struct { name: nb, fields: fb }) => {
            if na@ == nb@ && fields_compat(fa@, fb@) {
                ValueV::Struct(StructV { name: na@, fields: record_fields(fa@, fb@) })
            } else {
                ValueV::Difference(flat(a), flat(b))
            }
        },
        (
            Shape::StructVariant { enum_name: ea, variant: va, fields: fa },
            Shape::StructVariant { enum_name: eb, variant: vb, fields: fb },
        ) => {
            if ea@ == eb@ && va@ == vb@ && fields_compat(fa@, fb@) {
                ValueV::Enum(
                    EnumV {
                        name: ea@,
                        variant: VariantV::Struct(
                            StructV { name: va@, fields: record_fields(fa@, fb@) },
                        ),
                    },
                )
            } else {
                ValueV::Difference(flat(a), flat(b))
            }
        },
        (Shape::Tuple { name: na, fields: fa }, Shape::Tuple { name: nb, fields: fb }) => {
            if na@ == nb@ && tuple_compat(fa@, fb@) {
                ValueV::Tuple(TupleV { name: na@, fields: record_tuple(fa@, fb@) })
            } else {
                ValueV::Difference(flat(a), flat(b))
            }
        },
        (
            Shape::TupleVariant { enum_name: ea, variant: va, fields: fa },
            Shape::TupleVariant { enum_name: eb, variant: vb, fields: fb },
        ) => {
            if ea@ == eb@ && va@ == vb@ && tuple_compat(fa@, fb@) {
                ValueV::Enum(
                    EnumV {
                        name: ea@,
                        variant: VariantV::Tuple(
                            TupleV { name: va@, fields: record_tuple(fa@, fb@) },
                        ),
                    },
                )
            } else {
                ValueV::Difference(flat(a), flat(b))
            }
        },
        (Shape::Sequence { elems: ea }, Shape::Sequence { elems: eb }) => {
            ValueV::Sequence(record_seq(ea@, eb@))
        },
        (
            Shape::SetLike { ordered: oa, elems: ea },
            Shape::SetLike { ordered: ob, elems: eb },
        ) => {
            if oa == ob {
                if oa {
                    ValueV::SetLike(record_merge_set(ea@, eb@))
                } else {
                    ValueV::SetLike(
                        record_uleft_set(ea@, eb@) + record_uright_set(eb@, ea@),
                    )
                }
            } else {
                ValueV::Difference(flat(a), flat(b))
            }
        },
        (
            Shape::MapLike { ordered: oa, entries: ea },
            Shape::MapLike { ordered: ob, entries: eb },
        ) => {
            if oa == ob {
                if oa {
                    ValueV::MapLike(record_merge_map(ea@, eb@))
                } else {
                    ValueV::MapLike(
                        record_uleft_map(ea@, eb@) + record_uright_map(eb@, ea@),
                    )
                }
            } else {
                ValueV::Difference(flat(a), flat(b))
            }
        },
        _ => ValueV::Difference(flat(a), flat(b)),
    }
}

/// The recorded fields of a struct pair, in declaration order.
pub open spec fn record_fields(fa: Seq<Field>, fb: Seq<Field>) -> Seq<
    (Seq<char>, Option<ValueV>),
>
    decreases fa, fb, 1int,
{
    if fa.len() == 0 || fb.len() == 0 {
        Seq::empty()
    } else {
        match (fa[0].value, fb[0].value) {
            (Option::Some(va), Option::Some(vb)) => seq![
                (fa[0].name@, Option::Some(record(va, vb))),
            ] + record_fields(fa.drop_first(), fb.drop_first()),
            _ => seq![(fa[0].name@, Option::<ValueV>::None)] + record_fields(
                fa.drop_first(),
                fb.drop_first(),
            ),
        }
    }
}

/// The recorded fields of a tuple pair, in order.
pub open spec fn record_tuple(fa: Seq<Option<Shape>>, fb: Seq<Option<Shape>>) -> Seq<
    Option<ValueV>,
>
    decreases fa, fb, 1int,
{
    if fa.len() == 0 || fb.len() == 0 {
        Seq::empty()
    } else {
        match (fa[0], fb[0]) {
            (Option::Some(va), Option::Some(vb)) => seq![Option::Some(record(va, vb))]
                + record_tuple(fa.drop_first(), fb.drop_first()),
            _ => seq![Option::<ValueV>::None] + record_tuple(fa.drop_first(), fb.drop_first()),
        }
    }
}

/// The recorded elements of a sequence pair under zip-longest pairing.
pub open spec fn record_seq(sa: Seq<Shape>, sb: Seq<Shape>) -> Seq<ElementV>
    decreases sa, sb, 1int,
{
    if sa.len() == 0 && sb.len() == 0 {
        Seq::empty()
    } else if sa.len() > 0 && sb.len() > 0 {
        seq![ElementV::Both(record(sa[0], sb[0]))] + record_seq(sa.drop_first(), sb.drop_first())
    } else if sa.len() > 0 {
        seq![ElementV::LeftOnly(flat(sa[0]))] + record_seq(sa.drop_first(), sb)
    } else {
        seq![ElementV::RightOnly(flat(sb[0]))] + record_seq(sa, sb.drop_first())
    }
}

/// The recorded elements of an ordered set pair under merge-join pairing.
pub open spec fn record_merge_set(s: Seq<Entry>, t: Seq<Entry>) -> Seq<ElementV>
    decreases s, t, 1int,
{
    if s.len() == 0 && t.len() == 0 {
        Seq::empty()
    } else if s.len() == 0 {
        seq![ElementV::RightOnly(flat(t[0].value))] + record_merge_set(s, t.drop_first())
    } else if t.len() == 0 {
        seq![ElementV::LeftOnly(flat(s[0].value))] + record_merge_set(s.drop_first(), t)
    } else if s[0].key == t[0].key {
        seq![ElementV::Both(record(s[0].value, t[0].value))] + record_merge_set(
            s.drop_first(),
            t.drop_first(),
        )
    } else if s[0].key < t[0].key {
        seq![ElementV::LeftOnly(flat(s[0].value))] + record_merge_set(s.drop_first(), t)
    } else {
        seq![ElementV::RightOnly(flat(t[0].value))] + record_merge_set(s, t.drop_first())
    }
}

/// The recorded entries of an ordered map pair under merge-join pairing,
/// keyed by the key's decimal text.
pub open spec fn record_merge_map(s: Seq<Entry>, t: Seq<Entry>) -> Seq<(Seq<char>, ElementV)>
    decreases s, t, 1int,
{
    if s.len() == 0 && t.len() == 0 {
        Seq::empty()
    } else if s.len() == 0 {
        seq![(dec_digits(t[0].key as nat), ElementV::RightOnly(flat(t[0].value)))]
            + record_merge_map(s, t.drop_first())
    } else if t.len() == 0 {
        seq![(dec_digits(s[0].key as nat), ElementV::LeftOnly(flat(s[0].value)))]
            + record_merge_map(s.drop_first(), t)
    } else if s[0].key == t[0].key {
        seq![(dec_digits(s[0].key as nat), ElementV::Both(record(s[0].value, t[0].value)))]
            + record_merge_map(s.drop_first(), t.drop_first())
    } else if s[0].key < t[0].key {
        seq![(dec_digits(s[0].key as nat), ElementV::LeftOnly(flat(s[0].value)))]
            + record_merge_map(s.drop_first(), t)
    } else {
        seq![(dec_digits(t[0].key as nat), ElementV::RightOnly(flat(t[0].value)))]
            + record_merge_map(s, t.drop_first())
    }
}

/// The left half of unordered set pairing: one element per left entry.
pub open spec fn record_uleft_set(s: Seq<Entry>, t: Seq<Entry>) -> Seq<ElementV>
    decreases s, t, 1int,
{
    if s.len() == 0 {
        Seq::empty()
    } else {
        match find_entry(t, s[0].key) {
            Option::Some(e) => seq![ElementV::Both(record(s[0].value, e.value))]
                + record_uleft_set(s.drop_first(), t),
            Option::None => seq![ElementV::LeftOnly(flat(s[0].value))] + record_uleft_set(
                s.drop_first(),
                t,
            ),
        }
    }
}

/// The right half of unordered set pairing: the right-only entries.
pub open spec fn record_uright_set(t: Seq<Entry>, s: Seq<Entry>) -> Seq<ElementV>
    decreases t,
{
    if t.len() == 0 {
        Seq::empty()
    } else if find_entry(s, t[0].key) is None {
        seq![ElementV::RightOnly(flat(t[0].value))] + record_uright_set(t.drop_first(), s)
    } else {
        record_uright_set(t.drop_first(), s)
    }
}

/// The left half of unordered map pairing.
pub open spec fn record_uleft_map(s: Seq<Entry>, t: Seq<Entry>) -> Seq<(Seq<char>, ElementV)>
    decreases s, t, 1int,
{
    if s.len() == 0 {
        Seq::empty()
    } else {
        match find_entry(t, s[0].key) {
            Option::Some(e) => seq![
                (dec_digits(s[0].key as nat), ElementV::Both(record(s[0].value, e.value))),
            ] + record_uleft_map(s.drop_first(), t),
            Option::None => seq![
                (dec_digits(s[0].key as nat), ElementV::LeftOnly(flat(s[0].value))),
            ] + record_uleft_map(s.drop_first(), t),
        }
    }
}

/// The right half of unordered map pairing.
pub open spec fn record_uright_map(t: Seq<Entry>, s: Seq<Entry>) -> Seq<(Seq<char>, ElementV)>
    decreases t,
{
    if t.len() == 0 {
        Seq::empty()
    } else if find_entry(s, t[0].key) is None {
        seq![(dec_digits(t[0].key as nat), ElementV::RightOnly(flat(t[0].value)))]
            + record_uright_map(t.drop_first(), s)
    } else {
        record_uright_map(t.drop_first(), s)
    }
}

/// Whether a recorded tree holds no `Difference` leaf and no `LeftOnly` or
/// `RightOnly` element anywhere.
pub open spec fn clean(v: ValueV) -> bool
    decreases v,
{
    match v {
        ValueV::Same(..) => true,
        ValueV::Difference(..) => false,
        ValueV::Newtype(_, inner) => clean(*inner),
        ValueV::Struct(s) => forall|i: int|
            0 <= i < s.fields.len() ==> clean_opt(#[trigger] s.fields[i].1),
        ValueV::Tuple(t) => forall|i: int|
            0 <= i < t.fields.len() ==> clean_opt(#[trigger] t.fields[i]),
        ValueV::Enum(e) => match e.variant {
            VariantV::Struct(s) => forall|i: int|
                0 <= i < s.fields.len() ==> clean_opt(#[trigger] s.fields[i].1),
            VariantV::Tuple(t) => forall|i: int|
                0 <= i < t.fields.len() ==> clean_opt(#[trigger] t.fields[i]),
        },
        ValueV::Sequence(es) => forall|i: int| 0 <= i < es.len() ==> clean_elem(#[trigger] es[i]),
        ValueV::SetLike(es) => forall|i: int| 0 <= i < es.len() ==> clean_elem(#[trigger] es[i]),
        ValueV::MapLike(es) => forall|i: int|
            0 <= i < es.len() ==> clean_elem((#[trigger] es[i]).1),
    }
}

/// Cleanliness of an optional recorded subtree.
pub open spec fn clean_opt(o: Option<ValueV>) -> bool
    decreases o,
{
    match o {
        Option::Some(v) => clean(v),
        Option::None => true,
    }
}

/// Cleanliness of one recorded element.
pub open spec fn clean_elem(e: ElementV) -> bool
    decreases e,
{
    match e {
        ElementV::LeftOnly(..) => false,
        ElementV::RightOnly(..) => false,
        ElementV::Both(v) => clean(v),
    }
}

/// Recording the struct fields of a well-formed value against themselves
/// yields only clean entries.
proof fn lemma_record_fields_reflexive(fields: Seq<Field>)
    requires
        forall|i: int| 0 <= i < fields.len() ==> crate::wf_field(#[trigger] fields[i]),
    ensures
        forall|i: int|
            0 <= i < record_fields(fields, fields).len() ==> clean_opt(
                (#[trigger] record_fields(fields, fields)[i]).1,
            ),
    decreases fields, 1int, 0int,
{
    if fields.len() > 0 {
        assert forall|i: int| 0 <= i < fields.drop_first().len() implies crate::wf_field(
            #[trigger] fields.drop_first()[i],
        ) by {
            assert(fields.drop_first()[i] == fields[i + 1]);
        };
        match fields[0].value {
            Option::Some(v) => {
                assert(crate::wf_field(fields[0]));
                lemma_record_reflexive(v);
            },
            Option::None => {},
        }
        lemma_record_fields_reflexive(fields.drop_first());
        assert forall|i: int|
            0 <= i < record_fields(fields, fields).len() implies clean_opt(
            (#[trigger] record_fields(fields, fields)[i]).1,
        ) by {
            if i > 0 {
                assert(record_fields(fields, fields)[i] == record_fields(
                    fields.drop_first(),
                    fields.drop_first(),
                )[i - 1]);
            }
        };
    }
}

/// Recording the tuple fields of a well-formed value against themselves
/// yields only clean entries.
proof fn lemma_record_tuple_reflexive(fields: Seq<Option<Shape>>)
    requires
        forall|i: int| 0 <= i < fields.len() ==> crate::wf_opt(#[trigger] fields[i]),
    ensures
        forall|i: int|
            0 <= i < record_tuple(fields, fields).len() ==> clean_opt(
                #[trigger] record_tuple(fields, fields)[i],
            ),
    decreases fields, 1int, 0int,
{
    if fields.len() > 0 {
        assert forall|i: int| 0 <= i < fields.drop_first().len() implies crate::wf_opt(
            #[trigger] fields.drop_first()[i],
        ) by {
            assert(fields.drop_first()[i] == fields[i + 1]);
        };
        match fields[0] {
            Option::Some(v) => {
                assert(crate::wf_opt(fields[0]));
                lemma_record_reflexive(v);
            },
            Option::None => {},
        }
        lemma_record_tuple_reflexive(fields.drop_first());
        assert forall|i: int|
            0 <= i < record_tuple(fields, fields).len() implies clean_opt(
            #[trigger] record_tuple(fields, fields)[i],
        ) by {
            if i > 0 {
                assert(record_tuple(fields, fields)[i] == record_tuple(
                    fields.drop_first(),
                    fields.drop_first(),
                )[i - 1]);
            }
        };
    }
}

/// Recording a sequence against itself yields only clean elements.
proof fn lemma_record_seq_reflexive(elems: Seq<Shape>)
    requires
        forall|i: int| 0 <= i < elems.len() ==> crate::wf(#[trigger] elems[i]),
    ensures
        forall|i: int|
            0 <= i < record_seq(elems, elems).len() ==> clean_elem(
                #[trigger] record_seq(elems, elems)[i],
            ),
    decreases elems, 1int, 0int,
{
    if elems.len() > 0 {
        assert forall|i: int| 0 <= i < elems.drop_first().len() implies crate::wf(
            #[trigger] elems.drop_first()[i],
        ) by {
            assert(elems.drop_first()[i] == elems[i + 1]);
        };
        lemma_record_reflexive(elems[0]);
        lemma_record_seq_reflexive(elems.drop_first());
        assert forall|i: int|
            0 <= i < record_seq(elems, elems).len() implies clean_elem(
            #[trigger] record_seq(elems, elems)[i],
        ) by {
            if i > 0 {
                assert(record_seq(elems, elems)[i] == record_seq(
                    elems.drop_first(),
                    elems.drop_first(),
                )[i - 1]);
            }
        };
    }
}

/// Merge-join recording of an entry list against itself yields only clean
/// elements.
proof fn lemma_record_merge_set_reflexive(entries: Seq<Entry>)
    requires
        forall|i: int| 0 <= i < entries.len() ==> crate::wf(#[trigger] entries[i].value),
    ensures
        forall|i: int|
            0 <= i < record_merge_set(entries, entries).len() ==> clean_elem(
                #[trigger] record_merge_set(entries, entries)[i],
            ),
    decreases entries, 1int, 0int,
{
    if entries.len() > 0 {
        assert forall|i: int| 0 <= i < entries.drop_first().len() implies crate::wf(
            #[trigger] entries.drop_first()[i].value,
        ) by {
            assert(entries.drop_first()[i] == entries[i + 1]);
        };
        lemma_record_reflexive(entries[0].value);
        lemma_record_merge_set_reflexive(entries.drop_first());
        assert forall|i: int|
            0 <= i < record_merge_set(entries, entries).len() implies clean_elem(
            #[trigger] record_merge_set(entries, entries)[i],
        ) by {
            if i > 0 {
                assert(record_merge_set(entries, entries)[i] == record_merge_set(
                    entries.drop_first(),
                    entries.drop_first(),
                )[i - 1]);
            }
        };
    }
}

/// Merge-join recording of a map entry list against itself yields only
/// clean entries.
proof fn lemma_record_merge_map_reflexive(entries: Seq<Entry>)
    requires
        forall|i: int| 0 <= i < entries.len() ==> crate::wf(#[trigger] entries[i].value),
    ensures
        forall|i: int|
            0 <= i < record_merge_map(entries, entries).len() ==> clean_elem(
                (#[trigger] record_merge_map(entries, entries)[i]).1,
            ),
    decreases entries, 1int, 0int,
{
    if entries.len() > 0 {
        assert forall|i: int| 0 <= i < entries.drop_first().len() implies crate::wf(
            #[trigger] entries.drop_first()[i].value,
        ) by {
            assert(entries.drop_first()[i] == entries[i + 1]);
        };
        lemma_record_reflexive(entries[0].value);
        lemma_record_merge_map_reflexive(entries.drop_first());
        assert forall|i: int|
            0 <= i < record_merge_map(entries, entries).len() implies clean_elem(
            (#[trigger] record_merge_map(entries, entries)[i]).1,
        ) by {
            if i > 0 {
                assert(record_merge_map(entries, entries)[i] == record_merge_map(
                    entries.drop_first(),
                    entries.drop_first(),
                )[i - 1]);
            }
        };
    }
}

/// Unordered left-half recording of an entry list against itself yields
/// only clean elements: every entry finds itself.
proof fn lemma_record_uleft_set_reflexive(entries: Seq<Entry>, k: int)
    requires
        0 <= k <= entries.len(),
        crate::keys_distinct(entries),
        forall|i: int| 0 <= i < entries.len() ==> crate::wf(#[trigger] entries[i].value),
    ensures
        forall|i: int|
            0 <= i < record_uleft_set(entries.skip(k), entries).len() ==> clean_elem(
                #[trigger] record_uleft_set(entries.skip(k), entries)[i],
            ),
    decreases entries, 1int, entries.len() - k,
{
    if k < entries.len() {
        assert(entries.skip(k)[0] == entries[k]);
        assert(entries.skip(k).drop_first() =~= entries.skip(k + 1));
        crate::detect::lemma_find_entry_at(entries, entries[k].key, k);
        lemma_record_reflexive(entries[k].value);
        lemma_record_uleft_set_reflexive(entries, k + 1);
        assert forall|i: int|
            0 <= i < record_uleft_set(entries.skip(k), entries).len() implies clean_elem(
            #[trigger] record_uleft_set(entries.skip(k), entries)[i],
        ) by {
            if i > 0 {
                assert(record_uleft_set(entries.skip(k), entries)[i] == record_uleft_set(
                    entries.skip(k + 1),
                    entries,
                )[i - 1]);
            }
        };
    } else {
        assert(entries.skip(k).len() == 0);
    }
}

/// Unordered right-half recording of an entry list against itself is
/// empty: every key is found on the left.
proof fn lemma_record_uright_set_reflexive(entries: Seq<Entry>, k: int)
    requires
        0 <= k <= entries.len(),
        crate::keys_distinct(entries),
    ensures
        record_uright_set(entries.skip(k), entries) == Seq::<ElementV>::empty(),
    decreases entries.len() - k,
{
    if k < entries.len() {
        assert(entries.skip(k)[0] == entries[k]);
        assert(entries.skip(k).drop_first() =~= entries.skip(k + 1));
        crate::detect::lemma_find_entry_at(entries, entries[k].key, k);
        lemma_record_uright_set_reflexive(entries, k + 1);
    } else {
        assert(entries.skip(k).len() == 0);
    }
}

/// Unordered left-half map recording of an entry list against itself
/// yields only clean entries.
proof fn lemma_record_uleft_map_reflexive(entries: Seq<Entry>, k: int)
    requires
        0 <= k <= entries.len(),
        crate::keys_distinct(entries),
        forall|i: int| 0 <= i < entries.len() ==> crate::wf(#[trigger] entries[i].value),
    ensures
        forall|i: int|
            0 <= i < record_uleft_map(entries.skip(k), entries).len() ==> clean_elem(
                (#[trigger] record_uleft_map(entries.skip(k), entries)[i]).1,
            ),
    decreases entries, 1int, entries.len() - k,
{
    if k < entries.len() {
        assert(entries.skip(k)[0] == entries[k]);
        assert(entries.skip(k).drop_first() =~= entries.skip(k + 1));
        crate::detect::lemma_find_entry_at(entries, entries[k].key, k);
        lemma_record_reflexive(entries[k].value);
        lemma_record_uleft_map_reflexive(entries, k + 1);
        assert forall|i: int|
            0 <= i < record_uleft_map(entries.skip(k), entries).len() implies clean_elem(
            (#[trigger] record_uleft_map(entries.skip(k), entries)[i]).1,
        ) by {
            if i > 0 {
                assert(record_uleft_map(entries.skip(k), entries)[i] == record_uleft_map(
                    entries.skip(k + 1),
                    entries,
                )[i - 1]);
            }
        };
    } else {
        assert(entries.skip(k).len() == 0);
    }
}

/// Unordered right-half map recording of an entry list against itself is
/// empty.
proof fn lemma_record_uright_map_reflexive(entries: Seq<Entry>, k: int)
    requires
        0 <= k <= entries.len(),
        crate::keys_distinct(entries),
    ensures
        record_uright_map(entries.skip(k), entries) == Seq::<(Seq<char>, ElementV)>::empty(),
    decreases entries.len() - k,
{
    if k < entries.len() {
        assert(entries.skip(k)[0] == entries[k]);
        assert(entries.skip(k).drop_first() =~= entries.skip(k + 1));
        crate::detect::lemma_find_entry_at(entries, entries[k].key, k);
        lemma_record_uright_map_reflexive(entries, k + 1);
    } else {
        assert(entries.skip(k).len() == 0);
    }
}

/// Idempotence of recording: comparing a well-formed value with itself
/// records a tree with no `Difference` leaf and no `LeftOnly` or
/// `RightOnly` element anywhere.
pub proof fn lemma_record_reflexive(v: Shape)
    requires
        crate::wf(v),
    ensures
        clean(record(v, v)),
    decreases v, 0int, 0int,
{
    match v {
        Shape::Atom { .. } => {},
        Shape::Newtype { name, inner } => {
            lemma_record_reflexive(*inner);
        },
        Shape::Struct { name, fields } => {
            lemma_record_fields_reflexive(fields@);
            assert(fields_compat(fields@, fields@));
            assert(record(v, v) == ValueV::Struct(
                StructV { name: name@, fields: record_fields(fields@, fields@) },
            ));
        },
        Shape::StructVariant { enum_name, variant, fields } => {
            lemma_record_fields_reflexive(fields@);
            assert(fields_compat(fields@, fields@));
            assert(record(v, v) == ValueV::Enum(
                EnumV {
                    name: enum_name@,
                    variant: VariantV::Struct(
                        StructV { name: variant@, fields: record_fields(fields@, fields@) },
                    ),
                },
            ));
        },
        Shape::Tuple { name, fields } => {
            lemma_record_tuple_reflexive(fields@);
            assert(tuple_compat(fields@, fields@));
            assert(record(v, v) == ValueV::Tuple(
                TupleV { name: name@, fields: record_tuple(fields@, fields@) },
            ));
        },
        Shape::TupleVariant { enum_name, variant, fields } => {
            lemma_record_tuple_reflexive(fields@);
            assert(tuple_compat(fields@, fields@));
            assert(record(v, v) == ValueV::Enum(
                EnumV {
                    name: enum_name@,
                    variant: VariantV::Tuple(
                        TupleV { name: variant@, fields: record_tuple(fields@, fields@) },
                    ),
                },
            ));
        },
        Shape::Sequence { elems } => {
            lemma_record_seq_reflexive(elems@);
            assert(record(v, v) == ValueV::Sequence(record_seq(elems@, elems@)));
        },
        Shape::SetLike { ordered, elems } => {
            if ordered {
                lemma_record_merge_set_reflexive(elems@);
                assert(record(v, v) == ValueV::SetLike(record_merge_set(elems@, elems@)));
            } else {
                assert(elems@.skip(0) =~= elems@);
                lemma_record_uleft_set_reflexive(elems@, 0);
                lemma_record_uright_set_reflexive(elems@, 0);
                assert(record_uleft_set(elems@, elems@) + record_uright_set(elems@, elems@)
                    =~= record_uleft_set(elems@, elems@));
                assert(record(v, v) == ValueV::SetLike(record_uleft_set(elems@, elems@)));
            }
        },
        Shape::MapLike { ordered, entries } => {
            if ordered {
                lemma_record_merge_map_reflexive(entries@);
                assert(record(v, v) == ValueV::MapLike(record_merge_map(entries@, entries@)));
            } else {
                assert(entries@.skip(0) =~= entries@);
                lemma_record_uleft_map_reflexive(entries@, 0);
                lemma_record_uright_map_reflexive(entries@, 0);
                assert(record_uleft_map(entries@, entries@) + record_uright_map(entries@, entries@)
                    =~= record_uleft_map(entries@, entries@));
                assert(record(v, v) == ValueV::MapLike(record_uleft_map(entries@, entries@)));
            }
        },
    }
}

/// The model of one recorded struct field.
pub open spec fn view_field_one(x: (String, Option<Value>)) -> (Seq<char>, Option<ValueV>) {
    (
        x.0@,
        match x.1 {
            Option::Some(v) => Option::Some(view_value(v)),
            Option::None => Option::None,
        },
    )
}

/// Appending a recorded field appends its model.
proof fn lemma_view_fields_push(s: Seq<(String, Option<Value>)>, x: (String, Option<Value>))
    ensures
        view_fields(s.push(x)) == view_fields(s) + seq![view_field_one(x)],
    decreases s.len(),
{
    if s.len() == 0 {
        assert(s.push(x)[0] == x);
        assert(s.push(x).drop_first() =~= s);
        assert(view_fields(s.push(x)) =~= view_fields(s) + seq![view_field_one(x)]);
    } else {
        assert(s.push(x)[0] == s[0]);
        assert(s.push(x).drop_first() =~= s.drop_first().push(x));
        lemma_view_fields_push(s.drop_first(), x);
        assert(view_fields(s.push(x)) =~= view_fields(s) + seq![view_field_one(x)]);
    }
}

/// The model of one recorded tuple field.
pub open spec fn view_tuple_one(x: Option<Value>) -> Option<ValueV> {
    match x {
        Option::Some(v) => Option::Some(view_value(v)),
        Option::None => Option::None,
    }
}

/// Appending a recorded tuple field appends its model.
proof fn lemma_view_tuple_fields_push(s: Seq<Option<Value>>, x: Option<Value>)
    ensures
        view_tuple_fields(s.push(x)) == view_tuple_fields(s) + seq![view_tuple_one(x)],
    decreases s.len(),
{
    if s.len() == 0 {
        assert(s.push(x)[0] == x);
        assert(s.push(x).drop_first() =~= s);
        assert(view_tuple_fields(s.push(x)) =~= view_tuple_fields(s) + seq![view_tuple_one(x)]);
    } else {
        assert(s.push(x)[0] == s[0]);
        assert(s.push(x).drop_first() =~= s.drop_first().push(x));
        lemma_view_tuple_fields_push(s.drop_first(), x);
        assert(view_tuple_fields(s.push(x)) =~= view_tuple_fields(s) + seq![view_tuple_one(x)]);
    }
}

/// Appending a recorded element appends its model.
proof fn lemma_view_elements_push(s: Seq<Element>, x: Element)
    ensures
        view_elements(s.push(x)) == view_elements(s) + seq![x@],
    decreases s.len(),
{
    if s.len() == 0 {
        assert(s.push(x)[0] == x);
        assert(s.push(x).drop_first() =~= s);
        assert(view_elements(s.push(x)) =~= view_elements(s) + seq![x@]);
    } else {
        assert(s.push(x)[0] == s[0]);
        assert(s.push(x).drop_first() =~= s.drop_first().push(x));
        lemma_view_elements_push(s.drop_first(), x);
        assert(view_elements(s.push(x)) =~= view_elements(s) + seq![x@]);
    }
}

/// The model of one recorded map entry.
pub open spec fn view_map_one(x: (String, Element)) -> (Seq<char>, ElementV) {
    (x.0@, x.1@)
}

/// Appending a recorded map entry appends its model.
proof fn lemma_view_map_entries_push(s: Seq<(String, Element)>, x: (String, Element))
    ensures
        view_map_entries(s.push(x)) == view_map_entries(s) + seq![view_map_one(x)],
    decreases s.len(),
{
    if s.len() == 0 {
        assert(s.push(x)[0] == x);
        assert(s.push(x).drop_first() =~= s);
        assert(view_map_entries(s.push(x)) =~= view_map_entries(s) + seq![view_map_one(x)]);
    } else {
        assert(s.push(x)[0] == s[0]);
        assert(s.push(x).drop_first() =~= s.drop_first().push(x));
        lemma_view_map_entries_push(s.drop_first(), x);
        assert(view_map_entries(s.push(x)) =~= view_map_entries(s) + seq![view_map_one(x)]);
    }
}

/// The flattened, compact text of a whole value.
fn flat_string(s: &Shape) -> (out: String)
    ensures
        out@ == flat(*s),
{
    let pad = String::new();
    crate::debug::value_string(s, false, &pad)
}

/// A whole-value `Difference` leaf.
fn diff_leaf(a: &Shape, b: &Shape) -> (v: Value)
    ensures
        view_value(v) == ValueV::Difference(flat(*a), flat(*b)),
{
    Value::Difference(flat_string(a), flat_string(b))
}

/// Records the fields of a struct pair.
fn rec_fields(fa: &Vec<Field>, fb: &Vec<Field>) -> (out: Vec<(String, Option<Value>)>)
    ensures
        view_fields(out@) == record_fields(fa@, fb@),
    decreases fa@, fb@, 1int,
{
    let mut out: Vec<(String, Option<Value>)> = Vec::new();
    let mut i: usize = 0;
    proof {
        assert(fa@.skip(0) =~= fa@);
        assert(fb@.skip(0) =~= fb@);
        assert(view_fields(out@) =~= Seq::empty());
    }
    while i < fa.len() && i < fb.len()
        invariant
            i <= fa@.len(),
            i <= fb@.len(),
            record_fields(fa@, fb@) == view_fields(out@) + record_fields(
                fa@.skip(i as int),
                fb@.skip(i as int),
            ),
        decreases fa@.len() - i,
    {
        let ghost rema = fa@.skip(i as int);
        let ghost remb = fb@.skip(i as int);
        proof {
            assert(rema[0] == fa@[i as int]);
            assert(remb[0] == fb@[i as int]);
            assert(rema.drop_first() =~= fa@.skip(i as int + 1));
            assert(remb.drop_first() =~= fb@.skip(i as int + 1));
        }
        let ghost out0 = out@;
        let item: (String, Option<Value>) = match (&fa[i].value, &fb[i].value) {
            (Option::Some(va), Option::Some(vb)) => (
                fa[i].name.clone(),
                Option::Some(record_diff(va, vb)),
            ),
            _ => (fa[i].name.clone(), Option::None),
        };
        out.push(item);
        proof {
            lemma_view_fields_push(out0, item);
            assert((view_fields(out0) + seq![view_field_one(item)]) + record_fields(
                rema.drop_first(),
                remb.drop_first(),
            ) =~= view_fields(out0) + (seq![view_field_one(item)] + record_fields(
                rema.drop_first(),
                remb.drop_first(),
            )));
        }
        i += 1;
    }
    proof {
        assert(fa@.skip(i as int).len() == 0 || fb@.skip(i as int).len() == 0);
        assert(view_fields(out@) + Seq::<(Seq<char>, Option<ValueV>)>::empty() =~= view_fields(
            out@,
        ));
    }
    out
}

/// Records the fields of a tuple pair.
fn rec_tuple(fa: &Vec<Option<Shape>>, fb: &Vec<Option<Shape>>) -> (out: Vec<Option<Value>>)
    ensures
        view_tuple_fields(out@) == record_tuple(fa@, fb@),
    decreases fa@, fb@, 1int,
{
    let mut out: Vec<Option<Value>> = Vec::new();
    let mut i: usize = 0;
    proof {
        assert(fa@.skip(0) =~= fa@);
        assert(fb@.skip(0) =~= fb@);
        assert(view_tuple_fields(out@) =~= Seq::empty());
    }
    while i < fa.len() && i < fb.len()
        invariant
            i <= fa@.len(),
            i <= fb@.len(),
            record_tuple(fa@, fb@) == view_tuple_fields(out@) + record_tuple(
                fa@.skip(i as int),
                fb@.skip(i as int),
            ),
        decreases fa@.len() - i,
    {
        let ghost rema = fa@.skip(i as int);
        let ghost remb = fb@.skip(i as int);
        proof {
            assert(rema[0] == fa@[i as int]);
            assert(remb[0] == fb@[i as int]);
            assert(rema.drop_first() =~= fa@.skip(i as int + 1));
            assert(remb.drop_first() =~= fb@.skip(i as int + 1));
        }
        let ghost out0 = out@;
        let item: Option<Value> = match (&fa[i], &fb[i]) {
            (Option::Some(va), Option::Some(vb)) => Option::Some(record_diff(va, vb)),
            _ => Option::None,
        };
        out.push(item);
        proof {
            lemma_view_tuple_fields_push(out0, item);
            assert((view_tuple_fields(out0) + seq![view_tuple_one(item)]) + record_tuple(
                rema.drop_first(),
                remb.drop_first(),
            ) =~= view_tuple_fields(out0) + (seq![view_tuple_one(item)] + record_tuple(
                rema.drop_first(),
                remb.drop_first(),
            )));
        }
        i += 1;
    }
    proof {
        assert(fa@.skip(i as int).len() == 0 || fb@.skip(i as int).len() == 0);
        assert(view_tuple_fields(out@) + Seq::<Option<ValueV>>::empty() =~= view_tuple_fields(
            out@,
        ));
    }
    out
}

/// Records the elements of a sequence pair under zip-longest pairing.
fn rec_seq(sa: &Vec<Shape>, sb: &Vec<Shape>) -> (out: Vec<Element>)
    ensures
        view_elements(out@) == record_seq(sa@, sb@),
    decreases sa@, sb@, 1int,
{
    let mut out: Vec<Element> = Vec::new();
    let mut i: usize = 0;
    let mut j: usize = 0;
    proof {
        assert(sa@.skip(0) =~= sa@);
        assert(sb@.skip(0) =~= sb@);
        assert(view_elements(out@) =~= Seq::empty());
    }
    while i < sa.len() || j < sb.len()
        invariant
            i <= sa@.len(),
            j <= sb@.len(),
            i == j || i == sa@.len() || j == sb@.len(),
            record_seq(sa@, sb@) == view_elements(out@) + record_seq(
                sa@.skip(i as int),
                sb@.skip(j as int),
            ),
        decreases sa@.len() - i + sb@.len() - j,
    {
        let ghost rema = sa@.skip(i as int);
        let ghost remb = sb@.skip(j as int);
        proof {
            if i < sa@.len() {
                assert(rema[0] == sa@[i as int]);
                assert(rema.drop_first() =~= sa@.skip(i as int + 1));
            }
            if j < sb@.len() {
                assert(remb[0] == sb@[j as int]);
                assert(remb.drop_first() =~= sb@.skip(j as int + 1));
            }
        }
        let ghost out0 = out@;
        if i < sa.len() && j < sb.len() {
            let item = Element::Both(record_diff(&sa[i], &sb[j]));
            out.push(item);
            proof {
                lemma_view_elements_push(out0, item);
                assert((view_elements(out0) + seq![item@]) + record_seq(
                    rema.drop_first(),
                    remb.drop_first(),
                ) =~= view_elements(out0) + (seq![item@] + record_seq(
                    rema.drop_first(),
                    remb.drop_first(),
                )));
            }
            i += 1;
            j += 1;
        } else if i < sa.len() {
            let item = Element::LeftOnly(flat_string(&sa[i]));
            out.push(item);
            proof {
                lemma_view_elements_push(out0, item);
                assert((view_elements(out0) + seq![item@]) + record_seq(rema.drop_first(), remb)
                    =~= view_elements(out0) + (seq![item@] + record_seq(
                    rema.drop_first(),
                    remb,
                )));
            }
            i += 1;
        } else {
            let item = Element::RightOnly(flat_string(&sb[j]));
            out.push(item);
            proof {
                lemma_view_elements_push(out0, item);
                assert((view_elements(out0) + seq![item@]) + record_seq(rema, remb.drop_first())
                    =~= view_elements(out0) + (seq![item@] + record_seq(
                    rema,
                    remb.drop_first(),
                )));
            }
            j += 1;
        }
    }
    proof {
        assert(sa@.skip(i as int).len() == 0);
        assert(sb@.skip(j as int).len() == 0);
        assert(view_elements(out@) + Seq::<ElementV>::empty() =~= view_elements(out@));
    }
    out
}

/// Records an ordered set pair under merge-join pairing.
#[verifier::rlimit(60)]
fn rec_merge_set(s: &Vec<Entry>, t: &Vec<Entry>) -> (out: Vec<Element>)
    ensures
        view_elements(out@) == record_merge_set(s@, t@),
    decreases s@, t@, 1int,
{
    let mut out: Vec<Element> = Vec::new();
    let mut i: usize = 0;
    let mut j: usize = 0;
    proof {
        assert(s@.skip(0) =~= s@);
        assert(t@.skip(0) =~= t@);
        assert(view_elements(out@) =~= Seq::empty());
    }
    while i < s.len() || j < t.len()
        invariant
            i <= s@.len(),
            j <= t@.len(),
            record_merge_set(s@, t@) == view_elements(out@) + record_merge_set(
                s@.skip(i as int),
                t@.skip(j as int),
            ),
        decreases s@.len() - i + t@.len() - j,
    {
        let ghost rema = s@.skip(i as int);
        let ghost remb = t@.skip(j as int);
        proof {
            if i < s@.len() {
                assert(rema[0] == s@[i as int]);
                assert(rema.drop_first() =~= s@.skip(i as int + 1));
            }
            if j < t@.len() {
                assert(remb[0] == t@[j as int]);
                assert(remb.drop_first() =~= t@.skip(j as int + 1));
            }
        }
        let ghost out0 = out@;
        let take_left: bool = if i >= s.len() {
            false
        } else if j >= t.len() {
            true
        } else {
            s[i].key <= t[j].key
        };
        if take_left && j < t.len() && s[i].key == t[j].key {
            let item = Element::Both(record_diff(&s[i].value, &t[j].value));
            out.push(item);
            proof {
                lemma_view_elements_push(out0, item);
                assert((view_elements(out0) + seq![item@]) + record_merge_set(
                    rema.drop_first(),
                    remb.drop_first(),
                ) =~= view_elements(out0) + (seq![item@] + record_merge_set(
                    rema.drop_first(),
                    remb.drop_first(),
                )));
            }
            i += 1;
            j += 1;
        } else if take_left {
            let item = Element::LeftOnly(flat_string(&s[i].value));
            out.push(item);
            proof {
                lemma_view_elements_push(out0, item);
                assert((view_elements(out0) + seq![item@]) + record_merge_set(
                    rema.drop_first(),
                    remb,
                ) =~= view_elements(out0) + (seq![item@] + record_merge_set(
                    rema.drop_first(),
                    remb,
                )));
            }
            i += 1;
        } else {
            let item = Element::RightOnly(flat_string(&t[j].value));
            out.push(item);
            proof {
                lemma_view_elements_push(out0, item);
                assert((view_elements(out0) + seq![item@]) + record_merge_set(
                    rema,
                    remb.drop_first(),
                ) =~= view_elements(out0) + (seq![item@] + record_merge_set(
                    rema,
                    remb.drop_first(),
                )));
            }
            j += 1;
        }
    }
    proof {
        assert(s@.skip(i as int).len() == 0);
        assert(t@.skip(j as int).len() == 0);
        assert(view_elements(out@) + Seq::<ElementV>::empty() =~= view_elements(out@));
    }
    out
}

/// Records an ordered map pair under merge-join pairing.
#[verifier::rlimit(60)]
fn rec_merge_map(s: &Vec<Entry>, t: &Vec<Entry>) -> (out: Vec<(String, Element)>)
    ensures
        view_map_entries(out@) == record_merge_map(s@, t@),
    decreases s@, t@, 1int,
{
    let mut out: Vec<(String, Element)> = Vec::new();
    let mut i: usize = 0;
    let mut j: usize = 0;
    proof {
        assert(s@.skip(0) =~= s@);
        assert(t@.skip(0) =~= t@);
        assert(view_map_entries(out@) =~= Seq::empty());
    }
    while i < s.len() || j < t.len()
        invariant
            i <= s@.len(),
            j <= t@.len(),
            record_merge_map(s@, t@) == view_map_entries(out@) + record_merge_map(
                s@.skip(i as int),
                t@.skip(j as int),
            ),
        decreases s@.len() - i + t@.len() - j,
    {
        let ghost rema = s@.skip(i as int);
        let ghost remb = t@.skip(j as int);
        proof {
            if i < s@.len() {
                assert(rema[0] == s@[i as int]);
                assert(rema.drop_first() =~= s@.skip(i as int + 1));
            }
            if j < t@.len() {
                assert(remb[0] == t@[j as int]);
                assert(remb.drop_first() =~= t@.skip(j as int + 1));
            }
        }
        let ghost out0 = out@;
        let take_left: bool = if i >= s.len() {
            false
        } else if j >= t.len() {
            true
        } else {
            s[i].key <= t[j].key
        };
        if take_left && j < t.len() && s[i].key == t[j].key {
            let item = (
                crate::text::u64_to_string(s[i].key),
                Element::Both(record_diff(&s[i].value, &t[j].value)),
            );
            out.push(item);
            proof {
                lemma_view_map_entries_push(out0, item);
                assert((view_map_entries(out0) + seq![view_map_one(item)]) + record_merge_map(
                    rema.drop_first(),
                    remb.drop_first(),
                ) =~= view_map_entries(out0) + (seq![view_map_one(item)] + record_merge_map(
                    rema.drop_first(),
                    remb.drop_first(),
                )));
            }
            i += 1;
            j += 1;
        } else if take_left {
            let item = (
                crate::text::u64_to_string(s[i].key),
                Element::LeftOnly(flat_string(&s[i].value)),
            );
            out.push(item);
            proof {
                lemma_view_map_entries_push(out0, item);
                assert((view_map_entries(out0) + seq![view_map_one(item)]) + record_merge_map(
                    rema.drop_first(),
                    remb,
                ) =~= view_map_entries(out0) + (seq![view_map_one(item)] + record_merge_map(
                    rema.drop_first(),
                    remb,
                )));
            }
            i += 1;
        } else {
            let item = (
                crate::text::u64_to_string(t[j].key),
                Element::RightOnly(flat_string(&t[j].value)),
            );
            out.push(item);
            proof {
                lemma_view_map_entries_push(out0, item);
                assert((view_map_entries(out0) + seq![view_map_one(item)]) + record_merge_map(
                    rema,
                    remb.drop_first(),
                ) =~= view_map_entries(out0) + (seq![view_map_one(item)] + record_merge_map(
                    rema,
                    remb.drop_first(),
                )));
            }
            j += 1;
        }
    }
    proof {
        assert(s@.skip(i as int).len() == 0);
        assert(t@.skip(j as int).len() == 0);
        assert(view_map_entries(out@) + Seq::<(Seq<char>, ElementV)>::empty() =~= view_map_entries(
            out@,
        ));
    }
    out
}

/// Records an unordered set pair by key intersection and difference.
fn rec_unordered_set(s: &Vec<Entry>, t: &Vec<Entry>) -> (out: Vec<Element>)
    ensures
        view_elements(out@) == record_uleft_set(s@, t@) + record_uright_set(t@, s@),
    decreases s@, t@, 1int,
{
    let mut out: Vec<Element> = Vec::new();
    let mut i: usize = 0;
    proof {
        assert(s@.skip(0) =~= s@);
        assert(view_elements(out@) =~= Seq::empty());
    }
    while i < s.len()
        invariant
            i <= s@.len(),
            record_uleft_set(s@, t@) == view_elements(out@) + record_uleft_set(
                s@.skip(i as int),
                t@,
            ),
        decreases s@.len() - i,
    {
        let ghost rema = s@.skip(i as int);
        proof {
            assert(rema[0] == s@[i as int]);
            assert(rema.drop_first() =~= s@.skip(i as int + 1));
        }
        let ghost out0 = out@;
        let item = match crate::detect::find_key(t, s[i].key) {
            Option::Some(j) => Element::Both(record_diff(&s[i].value, &t[j].value)),
            Option::None => Element::LeftOnly(flat_string(&s[i].value)),
        };
        out.push(item);
        proof {
            lemma_view_elements_push(out0, item);
            assert((view_elements(out0) + seq![item@]) + record_uleft_set(rema.drop_first(), t@)
                =~= view_elements(out0) + (seq![item@] + record_uleft_set(
                rema.drop_first(),
                t@,
            )));
        }
        i += 1;
    }
    proof {
        assert(s@.skip(i as int).len() == 0);
        assert(view_elements(out@) + Seq::<ElementV>::empty() =~= view_elements(out@));
        assert(t@.skip(0) =~= t@);
    }
    let ghost left_part = view_elements(out@);
    let mut j: usize = 0;
    while j < t.len()
        invariant
            j <= t@.len(),
            left_part + record_uright_set(t@, s@) == view_elements(out@) + record_uright_set(
                t@.skip(j as int),
                s@,
            ),
            left_part == record_uleft_set(s@, t@),
        decreases t@.len() - j,
    {
        let ghost remb = t@.skip(j as int);
        proof {
            assert(remb[0] == t@[j as int]);
            assert(remb.drop_first() =~= t@.skip(j as int + 1));
        }
        let ghost out0 = out@;
        match crate::detect::find_key(s, t[j].key) {
            Option::Some(_) => {},
            Option::None => {
                let item = Element::RightOnly(flat_string(&t[j].value));
                out.push(item);
                proof {
                    lemma_view_elements_push(out0, item);
                    assert((view_elements(out0) + seq![item@]) + record_uright_set(
                        remb.drop_first(),
                        s@,
                    ) =~= view_elements(out0) + (seq![item@] + record_uright_set(
                        remb.drop_first(),
                        s@,
                    )));
                }
            },
        }
        j += 1;
    }
    proof {
        assert(t@.skip(j as int).len() == 0);
        assert(view_elements(out@) + Seq::<ElementV>::empty() =~= view_elements(out@));
    }
    out
}

/// Records an unordered map pair by key intersection and difference.
fn rec_unordered_map(s: &Vec<Entry>, t: &Vec<Entry>) -> (out: Vec<(String, Element)>)
    ensures
        view_map_entries(out@) == record_uleft_map(s@, t@) + record_uright_map(t@, s@),
    decreases s@, t@, 1int,
{
    let mut out: Vec<(String, Element)> = Vec::new();
    let mut i: usize = 0;
    proof {
        assert(s@.skip(0) =~= s@);
        assert(view_map_entries(out@) =~= Seq::empty());
    }
    while i < s.len()
        invariant
            i <= s@.len(),
            record_uleft_map(s@, t@) == view_map_entries(out@) + record_uleft_map(
                s@.skip(i as int),
                t@,
            ),
        decreases s@.len() - i,
    {
        let ghost rema = s@.skip(i as int);
        proof {
            assert(rema[0] == s@[i as int]);
            assert(rema.drop_first() =~= s@.skip(i as int + 1));
        }
        let ghost out0 = out@;
        let elem = match crate::detect::find_key(t, s[i].key) {
            Option::Some(j) => Element::Both(record_diff(&s[i].value, &t[j].value)),
            Option::None => Element::LeftOnly(flat_string(&s[i].value)),
        };
        let item = (crate::text::u64_to_string(s[i].key), elem);
        out.push(item);
        proof {
            lemma_view_map_entries_push(out0, item);
            assert((view_map_entries(out0) + seq![view_map_one(item)]) + record_uleft_map(
                rema.drop_first(),
                t@,
            ) =~= view_map_entries(out0) + (seq![view_map_one(item)] + record_uleft_map(
                rema.drop_first(),
                t@,
            )));
        }
        i += 1;
    }
    proof {
        assert(s@.skip(i as int).len() == 0);
        assert(view_map_entries(out@) + Seq::<(Seq<char>, ElementV)>::empty() =~= view_map_entries(
            out@,
        ));
        assert(t@.skip(0) =~= t@);
    }
    let ghost left_part = view_map_entries(out@);
    let mut j: usize = 0;
    while j < t.len()
        invariant
            j <= t@.len(),
            left_part + record_uright_map(t@, s@) == view_map_entries(out@) + record_uright_map(
                t@.skip(j as int),
                s@,
            ),
            left_part == record_uleft_map(s@, t@),
        decreases t@.len() - j,
    {
        let ghost remb = t@.skip(j as int);
        proof {
            assert(remb[0] == t@[j as int]);
            assert(remb.drop_first() =~= t@.skip(j as int + 1));
        }
        let ghost out0 = out@;
        match crate::detect::find_key(s, t[j].key) {
            Option::Some(_) => {},
            Option::None => {
                let item = (
                    crate::text::u64_to_string(t[j].key),
                    Element::RightOnly(flat_string(&t[j].value)),
                );
                out.push(item);
                proof {
                    lemma_view_map_entries_push(out0, item);
                    assert((view_map_entries(out0) + seq![view_map_one(item)])
                        + record_uright_map(remb.drop_first(), s@) =~= view_map_entries(out0) + (
                    seq![view_map_one(item)] + record_uright_map(remb.drop_first(), s@)));
                }
            },
        }
        j += 1;
    }
    proof {
        assert(t@.skip(j as int).len() == 0);
        assert(view_map_entries(out@) + Seq::<(Seq<char>, ElementV)>::empty() =~= view_map_entries(
            out@,
        ));
    }
    out
}

/// Produces a [`Value`] describing the differences between `a` and `b`.
pub fn record_diff(a: &Shape, b: &Shape) -> (v: Value)
    ensures
        v@ == record(*a, *b),
    decreases *a, *b, 0int,
{
    match (a, b) {
        (Shape::Atom { text: ta }, Shape::Atom { text: tb }) => {
            if *ta == *tb {
                Value::Same(ta.clone(), tb.clone())
            } else {
                Value::Difference(ta.clone(), tb.clone())
            }
        },
        (Shape::Newtype { name: na, inner: ia }, Shape::Newtype { name: nb, inner: ib }) => {
            if *na == *nb {
                Value::Newtype(na.clone(), Box::new(record_diff(&**ia, &**ib)))
            } else {
                diff_leaf(a, b)
            }
        },
        (Shape::Struct { name: na, fields: fa }, Shape::Struct { name: nb, fields: fb }) => {
            if *na == *nb && crate::detect::check_fields_compat(fa, fb) {
                let v = Value::Struct(Struct { name: na.clone(), fields: rec_fields(fa, fb) });
                proof {
                    assert(view_struct(v->Struct_0).name =~~= na@);
                    assert(view_struct(v->Struct_0).fields =~~= record_fields(fa@, fb@));
                    assert(v@ =~~= record(*a, *b));
                }
                v
            } else {
                diff_leaf(a, b)
            }
        },
        (
            Shape::StructVariant { enum_name: ea, variant: va, fields: fa },
            Shape::StructVariant { enum_name: eb, variant: vb, fields: fb },
        ) => {
            if *ea == *eb && *va == *vb && crate::detect::check_fields_compat(fa, fb) {
                let v = Value::Enum(
                    Enum {
                        name: ea.clone(),
                        variant: Variant::Struct(
                            Struct { name: va.clone(), fields: rec_fields(fa, fb) },
                        ),
                    },
                );
                proof {
                    assert(v->Enum_0.variant is Struct);
                    assert(view_struct(v->Enum_0.variant->Struct_0).name =~~= va@);
                    assert(view_struct(v->Enum_0.variant->Struct_0).fields =~~= record_fields(
                        fa@,
                        fb@,
                    ));
                    assert(v@ =~~= record(*a, *b));
                }
                v
            } else {
                diff_leaf(a, b)
            }
        },
        (Shape::Tuple { name: na, fields: fa }, Shape::Tuple { name: nb, fields: fb }) => {
            if *na == *nb && crate::detect::check_tuple_compat(fa, fb) {
                let v = Value::Tuple(Tuple { name: na.clone(), fields: rec_tuple(fa, fb) });
                proof {
                    assert(view_value(v) == ValueV::Tuple(view_tuple(v->Tuple_0)));
                    assert(view_tuple(v->Tuple_0).name =~~= na@);
                    assert(view_tuple(v->Tuple_0).fields =~~= record_tuple(fa@, fb@));
                    assert(v@ =~~= record(*a, *b));
                }
                v
            } else {
                diff_leaf(a, b)
            }
        },
        (
            Shape::TupleVariant { enum_name: ea, variant: va, fields: fa },
            Shape::TupleVariant { enum_name: eb, variant: vb, fields: fb },
        ) => {
            if *ea == *eb && *va == *vb && crate::detect::check_tuple_compat(fa, fb) {
                let v = Value::Enum(
                    Enum {
                        name: ea.clone(),
                        variant: Variant::Tuple(
                            Tuple { name: va.clone(), fields: rec_tuple(fa, fb) },
                        ),
                    },
                );
                proof {
                    assert(v->Enum_0.variant is Tuple);
                    assert(view_tuple(v->Enum_0.variant->Tuple_0).name =~~= va@);
                    assert(view_tuple(v->Enum_0.variant->Tuple_0).fields =~~= record_tuple(
                        fa@,
                        fb@,
                    ));
                    assert(v@ =~~= record(*a, *b));
                }
                v
            } else {
                diff_leaf(a, b)
            }
        },
        (Shape::Sequence { elems: ea }, Shape::Sequence { elems: eb }) => {
            Value::Sequence(rec_seq(ea, eb))
        },
        (
            Shape::SetLike { ordered: oa, elems: ea },
            Shape::SetLike { ordered: ob, elems: eb },
        ) => {
            if *oa == *ob {
                if *oa {
                    Value::SetLike(rec_merge_set(ea, eb))
                } else {
                    Value::SetLike(rec_unordered_set(ea, eb))
                }
            } else {
                diff_leaf(a, b)
            }
        },
        (
            Shape::MapLike { ordered: oa, entries: ea },
            Shape::MapLike { ordered: ob, entries: eb },
        ) => {
            if *oa == *ob {
                if *oa {
                    Value::MapLike(rec_merge_map(ea, eb))
                } else {
                    Value::MapLike(rec_unordered_map(ea, eb))
                }
            } else {
                diff_leaf(a, b)
            }
        },
        _ => diff_leaf(a, b),
    }
}

} // verus!

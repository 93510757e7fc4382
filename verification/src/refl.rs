//! Reflection of simple values, and rendering through it.
//!
//! A [`Gen`] is a reified description of a simple value: the unit value, a
//! boolean, a newtype, or a struct of such values. The [`Reflect`]
//! capability produces it. [`make_debug`] adapts any reflectable value into
//! an object whose compact and pretty renderings read exactly as plain
//! debug formatting of the value itself would.

use vstd::prelude::*;

use crate::debug::render_value;
use crate::{Field, Shape};

verus! {

/// A reified description of a simple value.
#[derive(Debug)]
pub enum Gen {
    /// The unit value.
    Unit,
    /// A boolean.
    Bool(bool),
    /// A newtype wrapper around another value.
    Newtype(String, Box<Gen>),
    /// A struct with named fields.
    Struct(String, Struct),
}

/// The named fields of a reified struct.
#[derive(Debug)]
pub struct Struct {
    pub fields: Vec<(String, Gen)>,
}

/// The mathematical model of a [`Gen`].
#[verifier::ext_equal]
pub enum GenV {
    Unit,
    Bool(bool),
    Newtype(Seq<char>, Box<GenV>),
    Struct(Seq<char>, Seq<(Seq<char>, GenV)>),
}

/// The model of a reified value.
pub open spec fn view_gen(g: Gen) -> GenV
    decreases g, 0int,
{
    match g {
        Gen::Unit => GenV::Unit,
        Gen::Bool(b) => GenV::Bool(b),
        Gen::Newtype(n, inner) => GenV::Newtype(n@, Box::new(view_gen(*inner))),
        Gen::Struct(n, s) => GenV::Struct(n@, view_gen_fields(s.fields@)),
    }
}

/// The model of a reified field list.
pub open spec fn view_gen_fields(fields: Seq<(String, Gen)>) -> Seq<(Seq<char>, GenV)>
    decreases fields, 1int,
{
    if fields.len() == 0 {
        Seq::empty()
    } else {
        seq![(fields[0].0@, view_gen(fields[0].1))] + view_gen_fields(fields.drop_first())
    }
}

impl View for Gen {
    type V = GenV;

    open spec fn view(&self) -> GenV {
        view_gen(*self)
    }
}

/// Whether a comparison shape describes exactly the value a reified
/// description stands for: the unit value and booleans as atoms in their
/// canonical text, newtypes and structs structurally, every field
/// compared.
pub open spec fn shape_matches_gen(s: Shape, g: GenV) -> bool
    decreases g,
{
    match g {
        GenV::Unit => s matches Shape::Atom { text } && text@ == "()"@,
        GenV::Bool(b) => s matches Shape::Atom { text } && text@ == crate::spec_bool_text(b),
        GenV::Newtype(n, inner) => s matches Shape::Newtype { name, inner: si }
            && name@ == n && shape_matches_gen(*si, *inner),
        GenV::Struct(n, gf) => s matches Shape::Struct { name, fields }
            && name@ == n && fields@.len() == gf.len() && forall|k: int|
            0 <= k < gf.len() ==> {
                &&& (#[trigger] fields@[k]).name@ == gf[k].0
                &&& fields@[k].value is Some
                &&& shape_matches_gen(fields@[k].value->0, gf[k].1)
            },
    }
}

/// The capability of reporting one's own reified description.
pub trait Reflect {
    /// The value's reified model.
    spec fn model(&self) -> GenV;

    /// Reports the value's reified description.
    fn reflect(&self) -> (g: Gen)
        ensures
            g@ == self.model(),
    ;
}

impl Reflect for bool {
    open spec fn model(&self) -> GenV {
        GenV::Bool(*self)
    }

    fn reflect(&self) -> (g: Gen)
        ensures
            g@ == self.model(),
    {
        Gen::Bool(*self)
    }
}

impl Reflect for () {
    open spec fn model(&self) -> GenV {
        GenV::Unit
    }

    fn reflect(&self) -> (g: Gen)
        ensures
            g@ == self.model(),
    {
        Gen::Unit
    }
}

/// A deep copy of a reified value.
fn gen_clone(g: &Gen) -> (c: Gen)
    ensures
        c@ == g@,
    decreases *g, 0int,
{
    match g {
        Gen::Unit => Gen::Unit,
        Gen::Bool(b) => Gen::Bool(*b),
        Gen::Newtype(n, inner) => Gen::Newtype(n.clone(), Box::new(gen_clone(&**inner))),
        Gen::Struct(n, s) => {
            let c = Gen::Struct(n.clone(), Struct { fields: clone_fields(s) });
            proof {
                assert(c@ =~~= g@);
            }
            c
        },
    }
}

/// A deep copy of a reified field list.
fn clone_fields(st: &Struct) -> (out: Vec<(String, Gen)>)
    ensures
        view_gen_fields(out@) == view_gen_fields(st.fields@),
    decreases *st, 1int,
{
    let mut out: Vec<(String, Gen)> = Vec::new();
    let mut i: usize = 0;
    proof {
        assert(st.fields@.skip(0) =~= st.fields@);
        assert(view_gen_fields(out@) =~= Seq::empty());
    }
    while i < st.fields.len()
        invariant
            i <= st.fields@.len(),
            view_gen_fields(st.fields@) == view_gen_fields(out@) + view_gen_fields(
                st.fields@.skip(i as int),
            ),
        decreases st.fields@.len() - i,
    {
        let ghost rem = st.fields@.skip(i as int);
        proof {
            assert(rem[0] == st.fields@[i as int]);
            assert(rem.drop_first() =~= st.fields@.skip(i as int + 1));
        }
        let ghost out0 = out@;
        let item = (st.fields[i].0.clone(), gen_clone(&st.fields[i].1));
        out.push(item);
        proof {
            lemma_view_gen_fields_push(out0, item);
            assert((view_gen_fields(out0) + seq![(item.0@, view_gen(item.1))])
                + view_gen_fields(rem.drop_first()) =~= view_gen_fields(out0) + (
            seq![(item.0@, view_gen(item.1))] + view_gen_fields(rem.drop_first())));
        }
        i += 1;
    }
    proof {
        assert(st.fields@.skip(i as int).len() == 0);
        assert(view_gen_fields(out@) + Seq::<(Seq<char>, GenV)>::empty()
            =~= view_gen_fields(out@));
    }
    out
}

/// Appending a reified field appends its model.
proof fn lemma_view_gen_fields_push(s: Seq<(String, Gen)>, x: (String, Gen))
    ensures
        view_gen_fields(s.push(x)) == view_gen_fields(s) + seq![(x.0@, view_gen(x.1))],
    decreases s.len(),
{
    if s.len() == 0 {
        assert(s.push(x)[0] == x);
        assert(s.push(x).drop_first() =~= s);
        assert(view_gen_fields(s.push(x)) =~= view_gen_fields(s) + seq![(x.0@, view_gen(x.1))]);
    } else {
        assert(s.push(x)[0] == s[0]);
        assert(s.push(x).drop_first() =~= s.drop_first().push(x));
        lemma_view_gen_fields_push(s.drop_first(), x);
        assert(view_gen_fields(s.push(x)) =~= view_gen_fields(s) + seq![(x.0@, view_gen(x.1))]);
    }
}

impl Reflect for Gen {
    /// A reified description reflects as itself.
    open spec fn model(&self) -> GenV {
        view_gen(*self)
    }

    fn reflect(&self) -> (g: Gen)
        ensures
            g@ == self.model(),
    {
        gen_clone(self)
    }
}

/// The comparison shape that stands for a reified value.
fn gen_to_shape(g: &Gen) -> (s: Shape)
    ensures
        shape_matches_gen(s, g@),
        crate::wf(s),
    decreases *g, 0int,
{
    match g {
        Gen::Unit => Shape::unit(),
        Gen::Bool(b) => Shape::atom_bool(*b),
        Gen::Newtype(n, inner) => Shape::Newtype {
            name: n.clone(),
            inner: Box::new(gen_to_shape(&**inner)),
        },
        Gen::Struct(n, st) => {
            Shape::Struct { name: n.clone(), fields: fields_to_shape(st) }
        },
    }
}

/// The comparison fields that stand for a reified field list.
fn fields_to_shape(st: &Struct) -> (fields: Vec<Field>)
    ensures
        fields@.len() == view_gen_fields(st.fields@).len(),
        forall|k: int|
            0 <= k < fields@.len() ==> {
                &&& (#[trigger] fields@[k]).name@ == view_gen_fields(st.fields@)[k].0
                &&& fields@[k].value is Some
                &&& shape_matches_gen(fields@[k].value->0, view_gen_fields(st.fields@)[k].1)
                &&& crate::wf_field(fields@[k])
            },
    decreases *st, 1int,
{
    let mut fields: Vec<Field> = Vec::new();
    let mut i: usize = 0;
    while i < st.fields.len()
        invariant
            i <= st.fields@.len(),
            fields@.len() == i,
            forall|k: int|
                0 <= k < i ==> {
                    &&& (#[trigger] fields@[k]).name@ == view_gen_fields(st.fields@)[k].0
                    &&& fields@[k].value is Some
                    &&& shape_matches_gen(
                        fields@[k].value->0,
                        view_gen_fields(st.fields@)[k].1,
                    )
                    &&& crate::wf_field(fields@[k])
                },
        decreases st.fields@.len() - i,
    {
        proof {
            lemma_view_gen_fields_index(st.fields@, i as int);
        }
        let value = gen_to_shape(&st.fields[i].1);
        fields.push(Field { name: st.fields[i].0.clone(), value: Option::Some(value) });
        i += 1;
    }
    proof {
        lemma_view_gen_fields_len(st.fields@);
    }
    fields
}

/// The model of a field list has one entry per field.
proof fn lemma_view_gen_fields_len(s: Seq<(String, Gen)>)
    ensures
        view_gen_fields(s).len() == s.len(),
    decreases s.len(),
{
    if s.len() > 0 {
        lemma_view_gen_fields_len(s.drop_first());
    }
}

/// The model of a field list, entry by entry.
proof fn lemma_view_gen_fields_index(s: Seq<(String, Gen)>, i: int)
    requires
        0 <= i < s.len(),
    ensures
        view_gen_fields(s).len() == s.len(),
        view_gen_fields(s)[i] == (s[i].0@, view_gen(s[i].1)),
    decreases i,
{
    lemma_view_gen_fields_len(s);
    if i > 0 {
        lemma_view_gen_fields_index(s.drop_first(), i - 1);
    }
}

/// An adapter that renders a reflected value the way plain debug
/// formatting of the value itself would.
pub struct GenDebug {
    shape: Shape,
}

impl GenDebug {
    /// The comparison shape the adapter renders.
    pub closed spec fn model(&self) -> Shape {
        self.shape
    }

    /// The compact, single-line rendering.
    pub fn compact(&self) -> (out: String)
        ensures
            out@ == render_value(self.model(), false, Seq::empty()),
    {
        let pad = String::new();
        crate::debug::value_string(&self.shape, false, &pad)
    }

    /// The pretty, multi-line rendering.
    pub fn pretty(&self) -> (out: String)
        ensures
            out@ == render_value(self.model(), true, Seq::empty()),
    {
        let pad = String::new();
        crate::debug::value_string(&self.shape, true, &pad)
    }
}

/// Adapts any reflectable value into a debug-renderable object whose
/// output stands for exactly the value's reified description.
pub fn make_debug<T: Reflect>(value: T) -> (d: GenDebug)
    ensures
        shape_matches_gen(d.model(), value.model()),
        crate::wf(d.model()),
{
    let g = value.reflect();
    GenDebug { shape: gen_to_shape(&g) }
}

} // verus!

//! Difference detection: reduce a comparison to a boolean.
//!
//! Two related questions are answered. [`any_difference`] asks whether there
//! is a difference *anywhere* in the pair, however deeply nested.
//! [`all_different`] asks whether *every top-level part* differs; the
//! individual parts are themselves compared with [`any_difference`].
//!
//! The spec functions [`any_diff`] and [`all_diff`] define the two answers;
//! the executable detectors are proved to return exactly them.

use vstd::prelude::*;

use crate::{Entry, Field, Shape};

verus! {

/// Whether two struct field lists describe one common struct type: same
/// length, same field names in order, and the same fields excluded.
pub open spec fn fields_compat(fa: Seq<Field>, fb: Seq<Field>) -> bool {
    &&& fa.len() == fb.len()
    &&& forall|i: int| 0 <= i < fa.len() ==> (#[trigger] fa[i]).name@ == fb[i].name@
    &&& forall|i: int|
        0 <= i < fa.len() ==> ((#[trigger] fa[i]).value is Some <==> fb[i].value is Some)
}

/// Whether two tuple field lists describe one common tuple type.
pub open spec fn tuple_compat(fa: Seq<Option<Shape>>, fb: Seq<Option<Shape>>) -> bool {
    &&& fa.len() == fb.len()
    &&& forall|i: int| 0 <= i < fa.len() ==> ((#[trigger] fa[i]) is Some <==> fb[i] is Some)
}

/// The first entry of `t` whose key is `k`, if any.
pub open spec fn find_entry(t: Seq<Entry>, k: u64) -> Option<Entry>
    decreases t.len(),
{
    if t.len() == 0 {
        Option::None
    } else if t[0].key == k {
        Option::Some(t[0])
    } else {
        find_entry(t.drop_first(), k)
    }
}

/// Whether any difference at all separates `a` from `b`.
///
/// Operands of mismatched shape (different variants of one enum, in
/// particular) count as one whole difference. Excess sequence elements, set
/// elements and map entries count as differences unconditionally.
pub open spec fn any_diff(a: Shape, b: Shape) -> bool
    decreases a, b,
{
    match (a, b) {
        (Shape::Atom { text: ta }, Shape::Atom { text: tb }) => ta@ != tb@,
        (Shape::Newtype { name: na, inner: ia }, Shape::Newtype { name: nb, inner: ib }) => {
            if na@ == nb@ {
                any_diff(*ia, *ib)
            } else {
                true
            }
        },
        (Shape::Struct { name: na, fields: fa }, Shape::Struct { name: nb, fields: fb }) => {
            if na@ == nb@ && fields_compat(fa@, fb@) {
                any_diff_fields(fa@, fb@)
            } else {
                true
            }
        },
        (
            Shape::StructVariant { enum_name: ea, variant: va, fields: fa },
            Shape::StructVariant { enum_name: eb, variant: vb, fields: fb },
        ) => {
            if ea@ == eb@ && va@ == vb@ && fields_compat(fa@, fb@) {
                any_diff_fields(fa@, fb@)
            } else {
                true
            }
        },
        (Shape::Tuple { name: na, fields: fa }, Shape::Tuple { name: nb, fields: fb }) => {
            if na@ == nb@ && tuple_compat(fa@, fb@) {
                any_diff_tuple(fa@, fb@)
            } else {
                true
            }
        },
        (
            Shape::TupleVariant { enum_name: ea, variant: va, fields: fa },
            Shape::TupleVariant { enum_name: eb, variant: vb, fields: fb },
        ) => {
            if ea@ == eb@ && va@ == vb@ && tuple_compat(fa@, fb@) {
                any_diff_tuple(fa@, fb@)
            } else {
                true
            }
        },
        (Shape::Sequence { elems: ea }, Shape::Sequence { elems: eb }) => any_diff_seq(ea@, eb@),
        (
            Shape::SetLike { ordered: oa, elems: ea },
            Shape::SetLike { ordered: ob, elems: eb },
        ) => {
            if oa == ob {
                if oa {
                    any_diff_merge(ea@, eb@)
                } else {
                    any_diff_unordered(ea@, eb@)
                }
            } else {
                true
            }
        },
        (
            Shape::MapLike { ordered: oa, entries: ea },
            Shape::MapLike { ordered: ob, entries: eb },
        ) => {
            if oa == ob {
                if oa {
                    any_diff_merge(ea@, eb@)
                } else {
                    any_diff_unordered(ea@, eb@)
                }
            } else {
                true
            }
        },
        _ => true,
    }
}

/// Any difference among the compared fields of a struct pair.
pub open spec fn any_diff_fields(fa: Seq<Field>, fb: Seq<Field>) -> bool
    decreases fa, fb,
{
    exists|i: int|
        0 <= i < fa.len() && i < fb.len() && (#[trigger] fa[i]).value is Some && fb[i].value is Some
            && any_diff(fa[i].value->0, fb[i].value->0)
}

/// Any difference among the compared fields of a tuple pair.
pub open spec fn any_diff_tuple(fa: Seq<Option<Shape>>, fb: Seq<Option<Shape>>) -> bool
    decreases fa, fb,
{
    exists|i: int|
        0 <= i < fa.len() && i < fb.len() && (#[trigger] fa[i]) is Some && fb[i] is Some
            && any_diff(fa[i]->0, fb[i]->0)
}

/// Any difference under positional (zip-longest) sequence pairing: a length
/// mismatch, or a differing pair of elements.
pub open spec fn any_diff_seq(sa: Seq<Shape>, sb: Seq<Shape>) -> bool
    decreases sa, sb,
{
    sa.len() != sb.len() || exists|i: int|
        0 <= i < sa.len() && i < sb.len() && any_diff(#[trigger] sa[i], sb[i])
}

/// Any difference under merge-join pairing of two key-ordered entry lists:
/// a key present on one side only, or a differing pair of values under one
/// key.
pub open spec fn any_diff_merge(s: Seq<Entry>, t: Seq<Entry>) -> bool
    decreases s, t,
{
    if s.len() == 0 && t.len() == 0 {
        false
    } else if s.len() == 0 || t.len() == 0 {
        true
    } else if s[0].key == t[0].key {
        any_diff(s[0].value, t[0].value) || any_diff_merge(s.drop_first(), t.drop_first())
    } else {
        true
    }
}

/// Any difference under unordered (intersection and difference) pairing: a
/// key in one side only, or a differing pair of values under a shared key.
pub open spec fn any_diff_unordered(s: Seq<Entry>, t: Seq<Entry>) -> bool
    decreases s, t,
{
    ||| exists|i: int|
        0 <= i < s.len() && match find_entry(t, (#[trigger] s[i]).key) {
            Option::Some(e) => any_diff(s[i].value, e.value),
            Option::None => true,
        }
    ||| exists|j: int| 0 <= j < t.len() && find_entry(s, (#[trigger] t[j]).key) is None
}

/// Whether every top-level part of `a` differs from its counterpart in `b`.
///
/// A bare atomic difference counts as "all different"; so do operands of
/// mismatched shape. A composite with no observed part is never "all
/// different", and the parts themselves are judged by [`any_diff`].
pub open spec fn all_diff(a: Shape, b: Shape) -> bool
    decreases a, b,
{
    match (a, b) {
        (Shape::Atom { text: ta }, Shape::Atom { text: tb }) => ta@ != tb@,
        (Shape::Newtype { name: na, inner: ia }, Shape::Newtype { name: nb, inner: ib }) => {
            if na@ == nb@ {
                all_diff(*ia, *ib)
            } else {
                true
            }
        },
        (Shape::Struct { name: na, fields: fa }, Shape::Struct { name: nb, fields: fb }) => {
            if na@ == nb@ && fields_compat(fa@, fb@) {
                all_diff_fields(fa@, fb@)
            } else {
                true
            }
        },
        (
            Shape::StructVariant { enum_name: ea, variant: va, fields: fa },
            Shape::StructVariant { enum_name: eb, variant: vb, fields: fb },
        ) => {
            if ea@ == eb@ && va@ == vb@ && fields_compat(fa@, fb@) {
                all_diff_fields(fa@, fb@)
            } else {
                true
            }
        },
        (Shape::Tuple { name: na, fields: fa }, Shape::Tuple { name: nb, fields: fb }) => {
            if na@ == nb@ && tuple_compat(fa@, fb@) {
                all_diff_tuple(fa@, fb@)
            } else {
                true
            }
        },
        (
            Shape::TupleVariant { enum_name: ea, variant: va, fields: fa },
            Shape::TupleVariant { enum_name: eb, variant: vb, fields: fb },
        ) => {
            if ea@ == eb@ && va@ == vb@ && tuple_compat(fa@, fb@) {
                all_diff_tuple(fa@, fb@)
            } else {
                true
            }
        },
        (Shape::Sequence { elems: ea }, Shape::Sequence { elems: eb }) => all_diff_seq(ea@, eb@),
        (
            Shape::SetLike { ordered: oa, elems: ea },
            Shape::SetLike { ordered: ob, elems: eb },
        ) => {
            if oa == ob {
                if oa {
                    all_diff_merge(ea@, eb@)
                } else {
                    all_diff_unordered(ea@, eb@)
                }
            } else {
                true
            }
        },
        (
            Shape::MapLike { ordered: oa, entries: ea },
            Shape::MapLike { ordered: ob, entries: eb },
        ) => {
            if oa == ob {
                if oa {
                    all_diff_merge(ea@, eb@)
                } else {
                    all_diff_unordered(ea@, eb@)
                }
            } else {
                true
            }
        },
        _ => true,
    }
}

/// All-different over struct fields: at least one field is compared, and
/// every compared field differs.
pub open spec fn all_diff_fields(fa: Seq<Field>, fb: Seq<Field>) -> bool {
    &&& exists|i: int| 0 <= i < fa.len() && i < fb.len() && (#[trigger] fa[i]).value is Some
    &&& forall|i: int|
        0 <= i < fa.len() && i < fb.len() && (#[trigger] fa[i]).value is Some && fb[i].value is Some
            ==> any_diff(fa[i].value->0, fb[i].value->0)
}

/// All-different over tuple fields.
pub open spec fn all_diff_tuple(fa: Seq<Option<Shape>>, fb: Seq<Option<Shape>>) -> bool {
    &&& exists|i: int| 0 <= i < fa.len() && i < fb.len() && (#[trigger] fa[i]) is Some
    &&& forall|i: int|
        0 <= i < fa.len() && i < fb.len() && (#[trigger] fa[i]) is Some && fb[i] is Some
            ==> any_diff(fa[i]->0, fb[i]->0)
}

/// All-different over zip-longest sequence pairing: something was observed,
/// every element pair differs, and excess elements differ unconditionally.
pub open spec fn all_diff_seq(sa: Seq<Shape>, sb: Seq<Shape>) -> bool {
    &&& sa.len() > 0 || sb.len() > 0
    &&& forall|i: int| 0 <= i < sa.len() && i < sb.len() ==> any_diff(#[trigger] sa[i], sb[i])
}

/// The universally-quantified half of all-different under merge-join
/// pairing: every pair of values sharing a key differs. Keys present on one
/// side only differ unconditionally.
pub open spec fn all_diff_merge_pairs(s: Seq<Entry>, t: Seq<Entry>) -> bool
    decreases s.len() + t.len(),
{
    if s.len() == 0 || t.len() == 0 {
        true
    } else if s[0].key == t[0].key {
        any_diff(s[0].value, t[0].value) && all_diff_merge_pairs(s.drop_first(), t.drop_first())
    } else if s[0].key < t[0].key {
        all_diff_merge_pairs(s.drop_first(), t)
    } else {
        all_diff_merge_pairs(s, t.drop_first())
    }
}

/// All-different under merge-join pairing.
pub open spec fn all_diff_merge(s: Seq<Entry>, t: Seq<Entry>) -> bool {
    (s.len() > 0 || t.len() > 0) && all_diff_merge_pairs(s, t)
}

/// All-different under unordered pairing: something was observed, and every
/// pair of values sharing a key differs.
pub open spec fn all_diff_unordered(s: Seq<Entry>, t: Seq<Entry>) -> bool {
    &&& s.len() > 0 || exists|j: int|
        0 <= j < t.len() && find_entry(s, (#[trigger] t[j]).key) is None
    &&& forall|i: int|
        0 <= i < s.len() ==> match find_entry(t, (#[trigger] s[i]).key) {
            Option::Some(e) => any_diff(s[i].value, e.value),
            Option::None => true,
        }
}

/// Establishes [`find_entry`] when the first occurrence of `k` is at `j`.
pub(crate) proof fn lemma_find_entry_at(t: Seq<Entry>, k: u64, j: int)
    requires
        0 <= j < t.len(),
        t[j].key == k,
        forall|m: int| 0 <= m < j ==> t[m].key != k,
    ensures
        find_entry(t, k) == Option::Some(t[j]),
    decreases j,
{
    if j > 0 {
        lemma_find_entry_at(t.drop_first(), k, j - 1);
    }
}

/// Establishes [`find_entry`] when `k` occurs nowhere in `t`.
proof fn lemma_find_entry_absent(t: Seq<Entry>, k: u64)
    requires
        forall|m: int| 0 <= m < t.len() ==> t[m].key != k,
    ensures
        find_entry(t, k) is None,
    decreases t.len(),
{
    if t.len() > 0 {
        lemma_find_entry_absent(t.drop_first(), k);
    }
}

/// The index of the first entry of `t` with key `k`, if any.
pub(crate) fn find_key(t: &Vec<Entry>, k: u64) -> (o: Option<usize>)
    ensures
        match o {
            Option::Some(j) => j < t@.len() && t@[j as int].key == k && find_entry(t@, k)
                == Option::Some(t@[j as int]),
            Option::None => find_entry(t@, k) is None,
        },
{
    let mut j: usize = 0;
    while j < t.len()
        invariant
            j <= t@.len(),
            forall|m: int| 0 <= m < j ==> t@[m].key != k,
        decreases t@.len() - j,
    {
        if t[j].key == k {
            proof {
                lemma_find_entry_at(t@, k, j as int);
            }
            return Option::Some(j);
        }
        j += 1;
    }
    proof {
        lemma_find_entry_absent(t@, k);
    }
    Option::None
}

/// Accumulator for the "any difference anywhere" question: a monotonic OR
/// over everything it is shown.
pub struct Any(pub bool);

/// Accumulator for the "all top-level parts different" question: `all`
/// records whether every observed part differed, `any` whether any part was
/// observed at all.
pub struct All {
    pub all: bool,
    pub any: bool,
}

impl Any {
    /// Folds in one pair of nested values.
    pub fn consider(&mut self, a: &Shape, b: &Shape)
        ensures
            final(self).0 == (old(self).0 || any_diff(*a, *b)),
        decreases *a, *b, 1int,
    {
        if !self.0 {
            self.0 = any_difference(a, b);
        }
    }

    /// Folds in two whole sequences under zip-longest pairing.
    pub fn consider_all(&mut self, a: &Vec<Shape>, b: &Vec<Shape>)
        ensures
            final(self).0 == (old(self).0 || any_diff_seq(a@, b@)),
        decreases a@, b@, 1int,
    {
        if !self.0 {
            let mut r = false;
            let mut i: usize = 0;
            while i < a.len() && i < b.len()
                invariant
                    i <= a@.len(),
                    i <= b@.len(),
                    r == exists|k: int|
                        0 <= k < i && any_diff(#[trigger] a@[k], b@[k]),
                decreases a@.len() - i,
            {
                if !r {
                    r = any_difference(&a[i], &b[i]);
                }
                i += 1;
            }
            self.0 = r || a.len() != b.len();
        }
    }

    /// Notes a difference that needs no inspection, such as an excess entry.
    pub fn diff(&mut self)
        ensures
            final(self).0,
    {
        self.0 = true
    }
}

impl Default for Any {
    /// Starts with no difference seen.
    fn default() -> (a: Any)
        ensures
            a.0 == false,
    {
        Any(false)
    }
}

impl From<Any> for bool {
    /// The answer accumulated so far.
    fn from(x: Any) -> (r: bool)
        ensures
            r == x.0,
    {
        x.0
    }
}

impl vstd::std_specs::convert::FromSpecImpl<Any> for bool {
    open spec fn obeys_from_spec() -> bool {
        true
    }

    open spec fn from_spec(x: Any) -> bool {
        x.0
    }
}

impl All {
    /// Folds in one pair of nested values as one observed part.
    pub fn consider(&mut self, a: &Shape, b: &Shape)
        ensures
            final(self).all == (old(self).all && any_diff(*a, *b)),
            final(self).any,
        decreases *a, *b, 1int,
    {
        let d = any_difference(a, b);
        self.all = self.all && d;
        self.any = true;
    }

    /// Folds in two whole sequences under zip-longest pairing; excess
    /// elements count as differing parts.
    pub fn consider_all(&mut self, a: &Vec<Shape>, b: &Vec<Shape>)
        ensures
            final(self).all == (old(self).all && forall|i: int|
                0 <= i < a@.len() && i < b@.len() ==> any_diff(#[trigger] a@[i], b@[i])),
            final(self).any == (old(self).any || a@.len() > 0 || b@.len() > 0),
        decreases a@, b@, 1int,
    {
        if a.len() > 0 || b.len() > 0 {
            self.any = true;
        }
        let mut i: usize = 0;
        while i < a.len() && i < b.len()
            invariant
                i <= a@.len(),
                i <= b@.len(),
                self.any == (old(self).any || a@.len() > 0 || b@.len() > 0),
                self.all == (old(self).all && forall|k: int|
                    0 <= k < i ==> any_diff(#[trigger] a@[k], b@[k])),
            decreases a@.len() - i,
        {
            let d = any_difference(&a[i], &b[i]);
            self.all = self.all && d;
            i += 1;
        }
    }

    /// Notes an excess entry: an observed part that differs by absence.
    pub fn diff(&mut self)
        ensures
            final(self).all == old(self).all,
            final(self).any,
    {
        self.any = true
    }
}

impl Default for All {
    /// Starts with nothing observed, so far vacuously all-different.
    fn default() -> (a: All)
        ensures
            a.all == true,
            a.any == false,
    {
        All { all: true, any: false }
    }
}

impl From<All> for bool {
    /// All-different holds when something was observed and every observed
    /// part differed.
    fn from(x: All) -> (r: bool)
        ensures
            r == (x.any && x.all),
    {
        x.any && x.all
    }
}

impl vstd::std_specs::convert::FromSpecImpl<All> for bool {
    open spec fn obeys_from_spec() -> bool {
        true
    }

    open spec fn from_spec(x: All) -> bool {
        x.any && x.all
    }
}

/// Whether two struct field lists describe one common struct type.
pub(crate) fn check_fields_compat(fa: &Vec<Field>, fb: &Vec<Field>) -> (r: bool)
    ensures
        r == fields_compat(fa@, fb@),
{
    if fa.len() != fb.len() {
        return false;
    }
    let mut i: usize = 0;
    while i < fa.len()
        invariant
            i <= fa@.len(),
            fa@.len() == fb@.len(),
            forall|k: int| 0 <= k < i ==> (#[trigger] fa@[k]).name@ == fb@[k].name@,
            forall|k: int|
                0 <= k < i ==> ((#[trigger] fa@[k]).value is Some <==> fb@[k].value is Some),
        decreases fa@.len() - i,
    {
        if !(fa[i].name == fb[i].name) {
            return false;
        }
        let sa = fa[i].value.is_some();
        let sb = fb[i].value.is_some();
        if sa != sb {
            return false;
        }
        i += 1;
    }
    true
}

/// Whether two tuple field lists describe one common tuple type.
pub(crate) fn check_tuple_compat(fa: &Vec<Option<Shape>>, fb: &Vec<Option<Shape>>) -> (r: bool)
    ensures
        r == tuple_compat(fa@, fb@),
{
    if fa.len() != fb.len() {
        return false;
    }
    let mut i: usize = 0;
    while i < fa.len()
        invariant
            i <= fa@.len(),
            fa@.len() == fb@.len(),
            forall|k: int| 0 <= k < i ==> ((#[trigger] fa@[k]) is Some <==> fb@[k] is Some),
        decreases fa@.len() - i,
    {
        let sa = fa[i].is_some();
        let sb = fb[i].is_some();
        if sa != sb {
            return false;
        }
        i += 1;
    }
    true
}

/// Walks the compared fields of a struct pair for any difference.
fn any_fields(fa: &Vec<Field>, fb: &Vec<Field>) -> (r: bool)
    ensures
        r == any_diff_fields(fa@, fb@),
    decreases fa@, fb@, 1int,
{
    let mut acc = Any(false);
    let mut i: usize = 0;
    while i < fa.len() && i < fb.len()
        invariant
            i <= fa@.len(),
            i <= fb@.len(),
            acc.0 == exists|k: int|
                0 <= k < i && (#[trigger] fa@[k]).value is Some && fb@[k].value is Some
                    && any_diff(fa@[k].value->0, fb@[k].value->0),
        decreases fa@.len() - i,
    {
        match (&fa[i].value, &fb[i].value) {
            (Option::Some(va), Option::Some(vb)) => acc.consider(va, vb),
            _ => {},
        }
        i += 1;
    }
    bool::from(acc)
}

/// Walks the compared fields of a tuple pair for any difference.
fn any_tuple(fa: &Vec<Option<Shape>>, fb: &Vec<Option<Shape>>) -> (r: bool)
    ensures
        r == any_diff_tuple(fa@, fb@),
    decreases fa@, fb@, 1int,
{
    let mut acc = Any(false);
    let mut i: usize = 0;
    while i < fa.len() && i < fb.len()
        invariant
            i <= fa@.len(),
            i <= fb@.len(),
            acc.0 == exists|k: int|
                0 <= k < i && (#[trigger] fa@[k]) is Some && fb@[k] is Some
                    && any_diff(fa@[k]->0, fb@[k]->0),
        decreases fa@.len() - i,
    {
        match (&fa[i], &fb[i]) {
            (Option::Some(va), Option::Some(vb)) => acc.consider(va, vb),
            _ => {},
        }
        i += 1;
    }
    bool::from(acc)
}

/// Merge-join pairing of two key-ordered entry lists, folded into an [`Any`].
fn any_merge(s: &Vec<Entry>, t: &Vec<Entry>) -> (r: bool)
    ensures
        r == any_diff_merge(s@, t@),
    decreases s@, t@, 1int,
{
    let mut acc = Any(false);
    let mut i: usize = 0;
    let mut j: usize = 0;
    proof {
        assert(s@.skip(0) =~= s@);
        assert(t@.skip(0) =~= t@);
    }
    while i < s.len() && j < t.len()
        invariant
            i <= s@.len(),
            j <= t@.len(),
            any_diff_merge(s@, t@) == (acc.0 || any_diff_merge(
                s@.skip(i as int),
                t@.skip(j as int),
            )),
        decreases s@.len() - i + t@.len() - j,
    {
        proof {
            assert(s@.skip(i as int)[0] == s@[i as int]);
            assert(t@.skip(j as int)[0] == t@[j as int]);
            assert(s@.skip(i as int).drop_first() =~= s@.skip(i as int + 1));
            assert(t@.skip(j as int).drop_first() =~= t@.skip(j as int + 1));
        }
        if s[i].key < t[j].key {
            acc.diff();
            i += 1;
        } else if s[i].key == t[j].key {
            acc.consider(&s[i].value, &t[j].value);
            i += 1;
            j += 1;
        } else {
            acc.diff();
            j += 1;
        }
    }
    while i < s.len()
        invariant
            i <= s@.len(),
            j == t@.len() || i == s@.len(),
            any_diff_merge(s@, t@) == (acc.0 || any_diff_merge(
                s@.skip(i as int),
                t@.skip(j as int),
            )),
        decreases s@.len() - i,
    {
        acc.diff();
        i += 1;
    }
    while j < t.len()
        invariant
            i == s@.len(),
            j <= t@.len(),
            any_diff_merge(s@, t@) == (acc.0 || any_diff_merge(
                s@.skip(i as int),
                t@.skip(j as int),
            )),
        decreases t@.len() - j,
    {
        acc.diff();
        j += 1;
    }
    proof {
        assert(s@.skip(i as int).len() == 0);
        assert(t@.skip(j as int).len() == 0);
    }
    bool::from(acc)
}

/// Unordered pairing by key intersection and difference, folded into an
/// [`Any`].
fn any_unordered(s: &Vec<Entry>, t: &Vec<Entry>) -> (r: bool)
    ensures
        r == any_diff_unordered(s@, t@),
    decreases s@, t@, 1int,
{
    let mut acc = Any(false);
    let mut i: usize = 0;
    while i < s.len()
        invariant
            i <= s@.len(),
            acc.0 == exists|k: int|
                0 <= k < i && match find_entry(t@, (#[trigger] s@[k]).key) {
                    Option::Some(e) => any_diff(s@[k].value, e.value),
                    Option::None => true,
                },
        decreases s@.len() - i,
    {
        match find_key(t, s[i].key) {
            Option::Some(j) => acc.consider(&s[i].value, &t[j].value),
            Option::None => acc.diff(),
        }
        i += 1;
    }
    let ghost left_any = acc.0;
    let mut j: usize = 0;
    while j < t.len()
        invariant
            j <= t@.len(),
            acc.0 == (left_any || exists|m: int|
                0 <= m < j && find_entry(s@, (#[trigger] t@[m]).key) is None),
        decreases t@.len() - j,
    {
        match find_key(s, t[j].key) {
            Option::Some(_) => {},
            Option::None => acc.diff(),
        }
        j += 1;
    }
    bool::from(acc)
}

/// Checks for any difference between `a` and `b`, however deeply nested.
pub fn any_difference(a: &Shape, b: &Shape) -> (r: bool)
    ensures
        r == any_diff(*a, *b),
    decreases *a, *b, 0int,
{
    match (a, b) {
        (Shape::Atom { text: ta }, Shape::Atom { text: tb }) => !(*ta == *tb),
        (Shape::Newtype { name: na, inner: ia }, Shape::Newtype { name: nb, inner: ib }) => {
            if *na == *nb {
                any_difference(&**ia, &**ib)
            } else {
                true
            }
        },
        (Shape::Struct { name: na, fields: fa }, Shape::Struct { name: nb, fields: fb }) => {
            if *na == *nb && check_fields_compat(fa, fb) {
                any_fields(fa, fb)
            } else {
                true
            }
        },
        (
            Shape::StructVariant { enum_name: ea, variant: va, fields: fa },
            Shape::StructVariant { enum_name: eb, variant: vb, fields: fb },
        ) => {
            if *ea == *eb && *va == *vb && check_fields_compat(fa, fb) {
                any_fields(fa, fb)
            } else {
                true
            }
        },
        (Shape::Tuple { name: na, fields: fa }, Shape::Tuple { name: nb, fields: fb }) => {
            if *na == *nb && check_tuple_compat(fa, fb) {
                any_tuple(fa, fb)
            } else {
                true
            }
        },
        (
            Shape::TupleVariant { enum_name: ea, variant: va, fields: fa },
            Shape::TupleVariant { enum_name: eb, variant: vb, fields: fb },
        ) => {
            if *ea == *eb && *va == *vb && check_tuple_compat(fa, fb) {
                any_tuple(fa, fb)
            } else {
                true
            }
        },
        (Shape::Sequence { elems: ea }, Shape::Sequence { elems: eb }) => {
            let mut acc = Any(false);
            acc.consider_all(ea, eb);
            bool::from(acc)
        },
        (
            Shape::SetLike { ordered: oa, elems: ea },
            Shape::SetLike { ordered: ob, elems: eb },
        ) => {
            if *oa == *ob {
                if *oa {
                    any_merge(ea, eb)
                } else {
                    any_unordered(ea, eb)
                }
            } else {
                true
            }
        },
        (
            Shape::MapLike { ordered: oa, entries: ea },
            Shape::MapLike { ordered: ob, entries: eb },
        ) => {
            if *oa == *ob {
                if *oa {
                    any_merge(ea, eb)
                } else {
                    any_unordered(ea, eb)
                }
            } else {
                true
            }
        },
        _ => true,
    }
}

/// Walks the compared fields of a struct pair, asking whether all of them
/// differ.
fn all_fields(fa: &Vec<Field>, fb: &Vec<Field>) -> (r: bool)
    requires
        fields_compat(fa@, fb@),
    ensures
        r == all_diff_fields(fa@, fb@),
{
    let mut acc = All::default();
    let mut i: usize = 0;
    while i < fa.len()
        invariant
            i <= fa@.len(),
            fields_compat(fa@, fb@),
            acc.any == exists|k: int| 0 <= k < i && (#[trigger] fa@[k]).value is Some,
            acc.all == (forall|k: int|
                0 <= k < i && (#[trigger] fa@[k]).value is Some && fb@[k].value is Some
                    ==> any_diff(fa@[k].value->0, fb@[k].value->0)),
        decreases fa@.len() - i,
    {
        match (&fa[i].value, &fb[i].value) {
            (Option::Some(va), Option::Some(vb)) => acc.consider(va, vb),
            _ => {},
        }
        i += 1;
    }
    bool::from(acc)
}

/// Walks the compared fields of a tuple pair, asking whether all of them
/// differ.
fn all_tuple(fa: &Vec<Option<Shape>>, fb: &Vec<Option<Shape>>) -> (r: bool)
    requires
        tuple_compat(fa@, fb@),
    ensures
        r == all_diff_tuple(fa@, fb@),
{
    let mut acc = All::default();
    let mut i: usize = 0;
    while i < fa.len()
        invariant
            i <= fa@.len(),
            tuple_compat(fa@, fb@),
            acc.any == exists|k: int| 0 <= k < i && (#[trigger] fa@[k]) is Some,
            acc.all == (forall|k: int|
                0 <= k < i && (#[trigger] fa@[k]) is Some && fb@[k] is Some
                    ==> any_diff(fa@[k]->0, fb@[k]->0)),
        decreases fa@.len() - i,
    {
        match (&fa[i], &fb[i]) {
            (Option::Some(va), Option::Some(vb)) => acc.consider(va, vb),
            _ => {},
        }
        i += 1;
    }
    bool::from(acc)
}

/// Merge-join pairing of two key-ordered entry lists, folded into an [`All`].
fn all_merge(s: &Vec<Entry>, t: &Vec<Entry>) -> (r: bool)
    ensures
        r == all_diff_merge(s@, t@),
{
    let mut acc = All::default();
    let mut i: usize = 0;
    let mut j: usize = 0;
    proof {
        assert(s@.skip(0) =~= s@);
        assert(t@.skip(0) =~= t@);
    }
    while i < s.len() && j < t.len()
        invariant
            i <= s@.len(),
            j <= t@.len(),
            acc.any == (i > 0 || j > 0),
            all_diff_merge_pairs(s@, t@) == (acc.all && all_diff_merge_pairs(
                s@.skip(i as int),
                t@.skip(j as int),
            )),
        decreases s@.len() - i + t@.len() - j,
    {
        proof {
            assert(s@.skip(i as int)[0] == s@[i as int]);
            assert(t@.skip(j as int)[0] == t@[j as int]);
            assert(s@.skip(i as int).drop_first() =~= s@.skip(i as int + 1));
            assert(t@.skip(j as int).drop_first() =~= t@.skip(j as int + 1));
        }
        if s[i].key < t[j].key {
            acc.diff();
            i += 1;
        } else if s[i].key == t[j].key {
            acc.consider(&s[i].value, &t[j].value);
            i += 1;
            j += 1;
        } else {
            acc.diff();
            j += 1;
        }
    }
    while i < s.len()
        invariant
            i <= s@.len(),
            j == t@.len() || i == s@.len(),
            acc.any == (i > 0 || j > 0),
            all_diff_merge_pairs(s@, t@) == (acc.all && all_diff_merge_pairs(
                s@.skip(i as int),
                t@.skip(j as int),
            )),
        decreases s@.len() - i,
    {
        proof {
            assert(t@.skip(j as int).len() == 0);
            assert(s@.skip(i as int).drop_first() =~= s@.skip(i as int + 1));
        }
        acc.diff();
        i += 1;
    }
    while j < t.len()
        invariant
            i == s@.len(),
            j <= t@.len(),
            acc.any == (i > 0 || j > 0),
            all_diff_merge_pairs(s@, t@) == (acc.all && all_diff_merge_pairs(
                s@.skip(i as int),
                t@.skip(j as int),
            )),
        decreases t@.len() - j,
    {
        proof {
            assert(s@.skip(i as int).len() == 0);
            assert(t@.skip(j as int).drop_first() =~= t@.skip(j as int + 1));
        }
        acc.diff();
        j += 1;
    }
    proof {
        assert(s@.skip(i as int).len() == 0);
        assert(t@.skip(j as int).len() == 0);
    }
    bool::from(acc)
}

/// Unordered pairing by key intersection and difference, folded into an
/// [`All`].
fn all_unordered(s: &Vec<Entry>, t: &Vec<Entry>) -> (r: bool)
    ensures
        r == all_diff_unordered(s@, t@),
{
    let mut acc = All::default();
    let mut i: usize = 0;
    while i < s.len()
        invariant
            i <= s@.len(),
            acc.any == (i > 0),
            acc.all == (forall|k: int|
                0 <= k < i ==> match find_entry(t@, (#[trigger] s@[k]).key) {
                    Option::Some(e) => any_diff(s@[k].value, e.value),
                    Option::None => true,
                }),
        decreases s@.len() - i,
    {
        match find_key(t, s[i].key) {
            Option::Some(j) => acc.consider(&s[i].value, &t[j].value),
            Option::None => acc.diff(),
        }
        i += 1;
    }
    let mut j: usize = 0;
    while j < t.len()
        invariant
            i == s@.len(),
            j <= t@.len(),
            acc.any == (s@.len() > 0 || exists|m: int|
                0 <= m < j && find_entry(s@, (#[trigger] t@[m]).key) is None),
            acc.all == (forall|k: int|
                0 <= k < s@.len() ==> match find_entry(t@, (#[trigger] s@[k]).key) {
                    Option::Some(e) => any_diff(s@[k].value, e.value),
                    Option::None => true,
                }),
        decreases t@.len() - j,
    {
        match find_key(s, t[j].key) {
            Option::Some(_) => {},
            Option::None => acc.diff(),
        }
        j += 1;
    }
    bool::from(acc)
}

/// Checks whether every top-level part of `a` differs from its counterpart
/// in `b`; the parts are compared with [`any_difference`].
pub fn all_different(a: &Shape, b: &Shape) -> (r: bool)
    ensures
        r == all_diff(*a, *b),
    decreases *a, *b,
{
    match (a, b) {
        (Shape::Atom { text: ta }, Shape::Atom { text: tb }) => !(*ta == *tb),
        (Shape::Newtype { name: na, inner: ia }, Shape::Newtype { name: nb, inner: ib }) => {
            if *na == *nb {
                all_different(&**ia, &**ib)
            } else {
                true
            }
        },
        (Shape::Struct { name: na, fields: fa }, Shape::Struct { name: nb, fields: fb }) => {
            if *na == *nb && check_fields_compat(fa, fb) {
                all_fields(fa, fb)
            } else {
                true
            }
        },
        (
            Shape::StructVariant { enum_name: ea, variant: va, fields: fa },
            Shape::StructVariant { enum_name: eb, variant: vb, fields: fb },
        ) => {
            if *ea == *eb && *va == *vb && check_fields_compat(fa, fb) {
                all_fields(fa, fb)
            } else {
                true
            }
        },
        (Shape::Tuple { name: na, fields: fa }, Shape::Tuple { name: nb, fields: fb }) => {
            if *na == *nb && check_tuple_compat(fa, fb) {
                all_tuple(fa, fb)
            } else {
                true
            }
        },
        (
            Shape::TupleVariant { enum_name: ea, variant: va, fields: fa },
            Shape::TupleVariant { enum_name: eb, variant: vb, fields: fb },
        ) => {
            if *ea == *eb && *va == *vb && check_tuple_compat(fa, fb) {
                all_tuple(fa, fb)
            } else {
                true
            }
        },
        (Shape::Sequence { elems: ea }, Shape::Sequence { elems: eb }) => {
            let mut acc = All::default();
            acc.consider_all(ea, eb);
            bool::from(acc)
        },
        (
            Shape::SetLike { ordered: oa, elems: ea },
            Shape::SetLike { ordered: ob, elems: eb },
        ) => {
            if *oa == *ob {
                if *oa {
                    all_merge(ea, eb)
                } else {
                    all_unordered(ea, eb)
                }
            } else {
                true
            }
        },
        (
            Shape::MapLike { ordered: oa, entries: ea },
            Shape::MapLike { ordered: ob, entries: eb },
        ) => {
            if *oa == *ob {
                if *oa {
                    all_merge(ea, eb)
                } else {
                    all_unordered(ea, eb)
                }
            } else {
                true
            }
        },
        _ => true,
    }
}

/// Reflexivity of merge-join pairing: a well-formed entry list paired with
/// itself shows no difference.
proof fn lemma_any_merge_reflexive(e: Seq<Entry>)
    requires
        forall|i: int| 0 <= i < e.len() ==> crate::wf(#[trigger] e[i].value),
    ensures
        !any_diff_merge(e, e),
    decreases e, 1int,
{
    if e.len() > 0 {
        lemma_any_difference_reflexive(e[0].value);
        assert forall|i: int| 0 <= i < e.drop_first().len() implies crate::wf(
            #[trigger] e.drop_first()[i].value,
        ) by {
            assert(e.drop_first()[i] == e[i + 1]);
        };
        lemma_any_merge_reflexive(e.drop_first());
    }
}

/// Reflexivity: comparing a well-formed value with itself finds no
/// difference anywhere.
pub proof fn lemma_any_difference_reflexive(v: Shape)
    requires
        crate::wf(v),
    ensures
        !any_diff(v, v),
    decreases v, 0int,
{
    match v {
        Shape::Atom { .. } => {},
        Shape::Newtype { name, inner } => {
            lemma_any_difference_reflexive(*inner);
        },
        Shape::Struct { name, fields } => {
            assert forall|i: int|
                0 <= i < fields@.len() && (#[trigger] fields@[i]).value is Some implies !any_diff(
                fields@[i].value->0,
                fields@[i].value->0,
            ) by {
                assert(crate::wf_field(fields@[i]));
                lemma_any_difference_reflexive(fields@[i].value->0);
            };
            assert(!any_diff_fields(fields@, fields@));
        },
        Shape::StructVariant { enum_name, variant, fields } => {
            assert forall|i: int|
                0 <= i < fields@.len() && (#[trigger] fields@[i]).value is Some implies !any_diff(
                fields@[i].value->0,
                fields@[i].value->0,
            ) by {
                assert(crate::wf_field(fields@[i]));
                lemma_any_difference_reflexive(fields@[i].value->0);
            };
            assert(!any_diff_fields(fields@, fields@));
        },
        Shape::Tuple { name, fields } => {
            assert forall|i: int|
                0 <= i < fields@.len() && (#[trigger] fields@[i]) is Some implies !any_diff(
                fields@[i]->0,
                fields@[i]->0,
            ) by {
                assert(crate::wf_opt(fields@[i]));
                lemma_any_difference_reflexive(fields@[i]->0);
            };
            assert(!any_diff_tuple(fields@, fields@));
        },
        Shape::TupleVariant { enum_name, variant, fields } => {
            assert forall|i: int|
                0 <= i < fields@.len() && (#[trigger] fields@[i]) is Some implies !any_diff(
                fields@[i]->0,
                fields@[i]->0,
            ) by {
                assert(crate::wf_opt(fields@[i]));
                lemma_any_difference_reflexive(fields@[i]->0);
            };
            assert(!any_diff_tuple(fields@, fields@));
        },
        Shape::Sequence { elems } => {
            assert forall|i: int| 0 <= i < elems@.len() implies !any_diff(
                #[trigger] elems@[i],
                elems@[i],
            ) by {
                lemma_any_difference_reflexive(elems@[i]);
            };
            assert(!any_diff_seq(elems@, elems@));
        },
        Shape::SetLike { ordered, elems } => {
            if ordered {
                lemma_any_merge_reflexive(elems@);
            } else {
                lemma_any_unordered_reflexive(elems@);
            }
        },
        Shape::MapLike { ordered, entries } => {
            if ordered {
                lemma_any_merge_reflexive(entries@);
            } else {
                lemma_any_unordered_reflexive(entries@);
            }
        },
    }
}

/// Reflexivity of unordered pairing: an entry list with distinct keys
/// paired with itself shows no difference.
proof fn lemma_any_unordered_reflexive(e: Seq<Entry>)
    requires
        crate::keys_distinct(e),
        forall|i: int| 0 <= i < e.len() ==> crate::wf(#[trigger] e[i].value),
    ensures
        !any_diff_unordered(e, e),
    decreases e, 1int,
{
    assert forall|i: int| 0 <= i < e.len() implies find_entry(e, (#[trigger] e[i]).key)
        == Option::Some(e[i]) by {
        lemma_find_entry_at(e, e[i].key, i);
    };
    assert forall|i: int| 0 <= i < e.len() implies !(match find_entry(e, (#[trigger] e[i]).key) {
        Option::Some(f) => any_diff(e[i].value, f.value),
        Option::None => true,
    }) by {
        lemma_any_difference_reflexive(e[i].value);
    };
}

/// Reflexivity of the all-different question: a well-formed value is never
/// all-different from itself.
pub proof fn lemma_all_different_reflexive(v: Shape)
    requires
        crate::wf(v),
    ensures
        !all_diff(v, v),
    decreases v,
{
    match v {
        Shape::Atom { .. } => {},
        Shape::Newtype { name, inner } => {
            lemma_all_different_reflexive(*inner);
        },
        Shape::Struct { name, fields } => {
            if exists|i: int|
                0 <= i < fields@.len() && (#[trigger] fields@[i]).value is Some {
                let i = choose|i: int|
                    0 <= i < fields@.len() && (#[trigger] fields@[i]).value is Some;
                assert(crate::wf_field(fields@[i]));
                lemma_any_difference_reflexive(fields@[i].value->0);
                assert(!all_diff_fields(fields@, fields@));
            }
        },
        Shape::StructVariant { enum_name, variant, fields } => {
            if exists|i: int|
                0 <= i < fields@.len() && (#[trigger] fields@[i]).value is Some {
                let i = choose|i: int|
                    0 <= i < fields@.len() && (#[trigger] fields@[i]).value is Some;
                assert(crate::wf_field(fields@[i]));
                lemma_any_difference_reflexive(fields@[i].value->0);
                assert(!all_diff_fields(fields@, fields@));
            }
        },
        Shape::Tuple { name, fields } => {
            if exists|i: int| 0 <= i < fields@.len() && (#[trigger] fields@[i]) is Some {
                let i = choose|i: int|
                    0 <= i < fields@.len() && (#[trigger] fields@[i]) is Some;
                assert(crate::wf_opt(fields@[i]));
                lemma_any_difference_reflexive(fields@[i]->0);
                assert(!all_diff_tuple(fields@, fields@));
            }
        },
        Shape::TupleVariant { enum_name, variant, fields } => {
            if exists|i: int| 0 <= i < fields@.len() && (#[trigger] fields@[i]) is Some {
                let i = choose|i: int|
                    0 <= i < fields@.len() && (#[trigger] fields@[i]) is Some;
                assert(crate::wf_opt(fields@[i]));
                lemma_any_difference_reflexive(fields@[i]->0);
                assert(!all_diff_tuple(fields@, fields@));
            }
        },
        Shape::Sequence { elems } => {
            if elems@.len() > 0 {
                lemma_any_difference_reflexive(elems@[0]);
                assert(!all_diff_seq(elems@, elems@));
            }
        },
        Shape::SetLike { ordered, elems } => {
            if elems@.len() > 0 {
                lemma_any_difference_reflexive(elems@[0].value);
                if ordered {
                    assert(!all_diff_merge_pairs(elems@, elems@));
                } else {
                    lemma_find_entry_at(elems@, elems@[0].key, 0);
                    assert(!all_diff_unordered(elems@, elems@));
                }
            } else {
                if !ordered {
                    assert(!all_diff_unordered(elems@, elems@));
                }
            }
        },
        Shape::MapLike { ordered, entries } => {
            if entries@.len() > 0 {
                lemma_any_difference_reflexive(entries@[0].value);
                if ordered {
                    assert(!all_diff_merge_pairs(entries@, entries@));
                } else {
                    lemma_find_entry_at(entries@, entries@[0].key, 0);
                    assert(!all_diff_unordered(entries@, entries@));
                }
            } else {
                if !ordered {
                    assert(!all_diff_unordered(entries@, entries@));
                }
            }
        },
    }
}

/// Whether a comparison of two operands of one common composite shape
/// observes no top-level part at all: unit-like structs and tuples, or
/// empty collections on both sides.
pub open spec fn no_observed_parts(a: Shape, b: Shape) -> bool {
    match (a, b) {
        (Shape::Struct { name: na, fields: fa }, Shape::Struct { name: nb, fields: fb }) => {
            na@ == nb@ && fields_compat(fa@, fb@) && forall|i: int|
                0 <= i < fa@.len() ==> (#[trigger] fa@[i]).value is None
        },
        (
            Shape::StructVariant { enum_name: ea, variant: va, fields: fa },
            Shape::StructVariant { enum_name: eb, variant: vb, fields: fb },
        ) => {
            ea@ == eb@ && va@ == vb@ && fields_compat(fa@, fb@) && forall|i: int|
                0 <= i < fa@.len() ==> (#[trigger] fa@[i]).value is None
        },
        (Shape::Tuple { name: na, fields: fa }, Shape::Tuple { name: nb, fields: fb }) => {
            na@ == nb@ && tuple_compat(fa@, fb@) && forall|i: int|
                0 <= i < fa@.len() ==> (#[trigger] fa@[i]) is None
        },
        (
            Shape::TupleVariant { enum_name: ea, variant: va, fields: fa },
            Shape::TupleVariant { enum_name: eb, variant: vb, fields: fb },
        ) => {
            ea@ == eb@ && va@ == vb@ && tuple_compat(fa@, fb@) && forall|i: int|
                0 <= i < fa@.len() ==> (#[trigger] fa@[i]) is None
        },
        (Shape::Sequence { elems: ea }, Shape::Sequence { elems: eb }) => {
            ea@.len() == 0 && eb@.len() == 0
        },
        (
            Shape::SetLike { ordered: oa, elems: ea },
            Shape::SetLike { ordered: ob, elems: eb },
        ) => oa == ob && ea@.len() == 0 && eb@.len() == 0,
        (
            Shape::MapLike { ordered: oa, entries: ea },
            Shape::MapLike { ordered: ob, entries: eb },
        ) => oa == ob && ea@.len() == 0 && eb@.len() == 0,
        _ => false,
    }
}

/// A composite comparison with no observed top-level part is never
/// all-different.
pub proof fn lemma_all_different_vacuous(a: Shape, b: Shape)
    requires
        no_observed_parts(a, b),
    ensures
        !all_diff(a, b),
{
}

/// Whether some observed top-level part of a common composite shape is
/// equal between the two operands.
pub open spec fn some_part_equal(a: Shape, b: Shape) -> bool {
    match (a, b) {
        (Shape::Struct { name: na, fields: fa }, Shape::Struct { name: nb, fields: fb }) => {
            na@ == nb@ && fields_compat(fa@, fb@) && exists|i: int|
                0 <= i < fa@.len() && i < fb@.len() && (#[trigger] fa@[i]).value is Some
                    && fb@[i].value is Some && !any_diff(fa@[i].value->0, fb@[i].value->0)
        },
        (
            Shape::StructVariant { enum_name: ena, variant: va, fields: fa },
            Shape::StructVariant { enum_name: enb, variant: vb, fields: fb },
        ) => {
            ena@ == enb@ && va@ == vb@ && fields_compat(fa@, fb@) && exists|i: int|
                0 <= i < fa@.len() && i < fb@.len() && (#[trigger] fa@[i]).value is Some
                    && fb@[i].value is Some && !any_diff(fa@[i].value->0, fb@[i].value->0)
        },
        (Shape::Tuple { name: na, fields: fa }, Shape::Tuple { name: nb, fields: fb }) => {
            na@ == nb@ && tuple_compat(fa@, fb@) && exists|i: int|
                0 <= i < fa@.len() && i < fb@.len() && (#[trigger] fa@[i]) is Some
                    && fb@[i] is Some && !any_diff(fa@[i]->0, fb@[i]->0)
        },
        (
            Shape::TupleVariant { enum_name: ena, variant: va, fields: fa },
            Shape::TupleVariant { enum_name: enb, variant: vb, fields: fb },
        ) => {
            ena@ == enb@ && va@ == vb@ && tuple_compat(fa@, fb@) && exists|i: int|
                0 <= i < fa@.len() && i < fb@.len() && (#[trigger] fa@[i]) is Some
                    && fb@[i] is Some && !any_diff(fa@[i]->0, fb@[i]->0)
        },
        (Shape::Sequence { elems: ea }, Shape::Sequence { elems: eb }) => exists|i: int|
            0 <= i < ea@.len() && i < eb@.len() && !any_diff(#[trigger] ea@[i], eb@[i]),
        (
            Shape::SetLike { ordered: oa, elems: ea },
            Shape::SetLike { ordered: ob, elems: eb },
        ) => {
            if oa == ob {
                if oa {
                    merge_some_equal(ea@, eb@)
                } else {
                    unordered_some_equal(ea@, eb@)
                }
            } else {
                false
            }
        },
        (
            Shape::MapLike { ordered: oa, entries: ea },
            Shape::MapLike { ordered: ob, entries: eb },
        ) => {
            if oa == ob {
                if oa {
                    merge_some_equal(ea@, eb@)
                } else {
                    unordered_some_equal(ea@, eb@)
                }
            } else {
                false
            }
        },
        _ => false,
    }
}

/// Whether merge-join pairing of two entry lists pairs some equal values
/// under one key.
pub open spec fn merge_some_equal(s: Seq<Entry>, t: Seq<Entry>) -> bool
    decreases s.len() + t.len(),
{
    if s.len() == 0 || t.len() == 0 {
        false
    } else if s[0].key == t[0].key {
        !any_diff(s[0].value, t[0].value) || merge_some_equal(s.drop_first(), t.drop_first())
    } else if s[0].key < t[0].key {
        merge_some_equal(s.drop_first(), t)
    } else {
        merge_some_equal(s, t.drop_first())
    }
}

/// Whether unordered pairing of two entry lists pairs some equal values
/// under one shared key.
pub open spec fn unordered_some_equal(s: Seq<Entry>, t: Seq<Entry>) -> bool {
    exists|i: int|
        0 <= i < s.len() && match find_entry(t, (#[trigger] s[i]).key) {
            Option::Some(e) => !any_diff(s[i].value, e.value),
            Option::None => false,
        }
}

/// Merge-join pairing with an equal pair somewhere never reports all parts
/// different.
proof fn lemma_merge_some_equal(s: Seq<Entry>, t: Seq<Entry>)
    requires
        merge_some_equal(s, t),
    ensures
        !all_diff_merge_pairs(s, t),
    decreases s.len() + t.len(),
{
    if s.len() == 0 || t.len() == 0 {
    } else if s[0].key == t[0].key {
        if any_diff(s[0].value, t[0].value) {
            lemma_merge_some_equal(s.drop_first(), t.drop_first());
        }
    } else if s[0].key < t[0].key {
        lemma_merge_some_equal(s.drop_first(), t);
    } else {
        lemma_merge_some_equal(s, t.drop_first());
    }
}

/// A composite comparison in which at least one observed top-level part is
/// equal is never all-different.
pub proof fn lemma_all_different_needs_every_part(a: Shape, b: Shape)
    requires
        some_part_equal(a, b),
    ensures
        !all_diff(a, b),
{
    match (a, b) {
        (
            Shape::SetLike { ordered: oa, elems: ea },
            Shape::SetLike { ordered: ob, elems: eb },
        ) => {
            if oa == ob && oa {
                lemma_merge_some_equal(ea@, eb@);
            }
        },
        (
            Shape::MapLike { ordered: oa, entries: ea },
            Shape::MapLike { ordered: ob, entries: eb },
        ) => {
            if oa == ob && oa {
                lemma_merge_some_equal(ea@, eb@);
            }
        },
        _ => {},
    }
}

/// All-different implies any-difference: a comparison in which every
/// top-level part differs certainly holds some difference. The converse
/// does not hold in general.
#[verifier::rlimit(30)]
pub proof fn lemma_all_different_implies_any_difference(a: Shape, b: Shape)
    ensures
        all_diff(a, b) ==> any_diff(a, b),
    decreases a, b,
{
    match (a, b) {
        (Shape::Newtype { name: na, inner: ia }, Shape::Newtype { name: nb, inner: ib }) => {
            lemma_all_different_implies_any_difference(*ia, *ib);
        },
        (Shape::Struct { name: na, fields: fa }, Shape::Struct { name: nb, fields: fb }) => {
            if na@ == nb@ && fields_compat(fa@, fb@) && all_diff_fields(fa@, fb@) {
                let i = choose|i: int|
                    0 <= i < fa@.len() && i < fb@.len() && (#[trigger] fa@[i]).value is Some;
                assert(any_diff(fa@[i].value->0, fb@[i].value->0));
                assert(any_diff_fields(fa@, fb@));
            }
        },
        (
            Shape::StructVariant { fields: fa, .. },
            Shape::StructVariant { fields: fb, .. },
        ) => {
            if fields_compat(fa@, fb@) && all_diff_fields(fa@, fb@) {
                let i = choose|i: int|
                    0 <= i < fa@.len() && i < fb@.len() && (#[trigger] fa@[i]).value is Some;
                assert(any_diff(fa@[i].value->0, fb@[i].value->0));
                assert(any_diff_fields(fa@, fb@));
            }
        },
        (Shape::Tuple { fields: fa, .. }, Shape::Tuple { fields: fb, .. }) => {
            if tuple_compat(fa@, fb@) && all_diff_tuple(fa@, fb@) {
                let i = choose|i: int|
                    0 <= i < fa@.len() && i < fb@.len() && (#[trigger] fa@[i]) is Some;
                assert(any_diff(fa@[i]->0, fb@[i]->0));
                assert(any_diff_tuple(fa@, fb@));
            }
        },
        (
            Shape::TupleVariant { fields: fa, .. },
            Shape::TupleVariant { fields: fb, .. },
        ) => {
            if tuple_compat(fa@, fb@) && all_diff_tuple(fa@, fb@) {
                let i = choose|i: int|
                    0 <= i < fa@.len() && i < fb@.len() && (#[trigger] fa@[i]) is Some;
                assert(any_diff(fa@[i]->0, fb@[i]->0));
                assert(any_diff_tuple(fa@, fb@));
            }
        },
        (Shape::Sequence { elems: ea }, Shape::Sequence { elems: eb }) => {
            assert(all_diff(a, b) == all_diff_seq(ea@, eb@));
            assert(any_diff(a, b) == any_diff_seq(ea@, eb@));
            if all_diff_seq(ea@, eb@) && ea@.len() == eb@.len() {
                assert(ea@.len() > 0);
                assert(any_diff(ea@[0], eb@[0]));
                assert(any_diff_seq(ea@, eb@));
            }
        },
        (
            Shape::SetLike { ordered: oa, elems: ea },
            Shape::SetLike { ordered: ob, elems: eb },
        ) => {
            if oa == ob && oa {
                lemma_merge_all_implies_any(ea@, eb@);
            } else if oa == ob {
                lemma_unordered_all_implies_any(ea@, eb@);
            }
        },
        (
            Shape::MapLike { ordered: oa, entries: ea },
            Shape::MapLike { ordered: ob, entries: eb },
        ) => {
            if oa == ob && oa {
                lemma_merge_all_implies_any(ea@, eb@);
            } else if oa == ob {
                lemma_unordered_all_implies_any(ea@, eb@);
            }
        },
        _ => {
        },
    }
}

/// All-different implies any-difference, for merge-join pairing.
proof fn lemma_merge_all_implies_any(s: Seq<Entry>, t: Seq<Entry>)
    ensures
        all_diff_merge(s, t) ==> any_diff_merge(s, t),
{
}

/// All-different implies any-difference, for unordered pairing.
proof fn lemma_unordered_all_implies_any(s: Seq<Entry>, t: Seq<Entry>)
    ensures
        all_diff_unordered(s, t) ==> any_diff_unordered(s, t),
{
    if all_diff_unordered(s, t) {
        if s.len() > 0 {
            assert(0 <= 0 < s.len() && match find_entry(t, s[0].key) {
                Option::Some(e) => any_diff(s[0].value, e.value),
                Option::None => true,
            });
        }
    }
}

} // verus!

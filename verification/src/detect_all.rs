//! A counting variant of the all-different detector.
//!
//! Instead of folding flags as [`crate::detect::all_different`] does, this
//! detector counts the observed parts and the differing parts and compares
//! the two counts at the end. Whether the scan short-circuits or counts to
//! the end is a performance choice, not a correctness one: this detector is
//! proved to return exactly the same answer, [`crate::detect::all_diff`].

use vstd::prelude::*;

use crate::detect::{
    all_diff, all_diff_fields, all_diff_merge, all_diff_merge_pairs, all_diff_seq,
    all_diff_tuple, all_diff_unordered, any_diff, any_difference, check_fields_compat,
    check_tuple_compat, find_entry, find_key,
};
use crate::{Entry, Field, Shape};

verus! {

/// Counts how many parts were observed and how many of them differed.
///
/// The counters are wide enough that they cannot saturate on any pair of
/// in-memory collections.
pub struct DiffCounter {
    pub diffs: u128,
    pub total: u128,
}

impl DiffCounter {
    /// Observes one pair of nested values, counting it as differing when
    /// [`any_difference`] finds something.
    pub fn consider(&mut self, a: &Shape, b: &Shape)
        requires
            old(self).total < u128::MAX,
            old(self).diffs <= old(self).total,
        ensures
            final(self).total == old(self).total + 1,
            final(self).diffs == old(self).diffs + (if any_diff(*a, *b) {
                1int
            } else {
                0int
            }),
    {
        self.total = self.total + 1;
        if any_difference(a, b) {
            self.diffs = self.diffs + 1;
        }
    }

    /// Observes one part that differs by its absence from the other side.
    pub fn diff(&mut self)
        requires
            old(self).total < u128::MAX,
            old(self).diffs <= old(self).total,
        ensures
            final(self).total == old(self).total + 1,
            final(self).diffs == old(self).diffs + 1,
    {
        self.total = self.total + 1;
        self.diffs = self.diffs + 1;
    }

    /// Whether something was observed and everything observed differed.
    pub fn all(self) -> (r: bool)
        ensures
            r == (self.total == self.diffs && self.total != 0),
    {
        self.total == self.diffs && self.total != 0
    }
}

impl Default for DiffCounter {
    /// Starts with nothing observed.
    fn default() -> (c: DiffCounter)
        ensures
            c.diffs == 0,
            c.total == 0,
    {
        DiffCounter { diffs: 0, total: 0 }
    }
}

/// Counts the compared fields of a struct pair.
fn count_fields(fa: &Vec<Field>, fb: &Vec<Field>) -> (r: bool)
    requires
        crate::detect::fields_compat(fa@, fb@),
    ensures
        r == all_diff_fields(fa@, fb@),
{
    let mut dc = DiffCounter::default();
    let mut i: usize = 0;
    while i < fa.len()
        invariant
            i <= fa@.len(),
            crate::detect::fields_compat(fa@, fb@),
            dc.diffs <= dc.total,
            dc.total as int <= i,
            (dc.total == 0) == !(exists|k: int|
                0 <= k < i && (#[trigger] fa@[k]).value is Some),
            (dc.diffs == dc.total) == (forall|k: int|
                0 <= k < i && (#[trigger] fa@[k]).value is Some && fb@[k].value is Some
                    ==> any_diff(fa@[k].value->0, fb@[k].value->0)),
        decreases fa@.len() - i,
    {
        match (&fa[i].value, &fb[i].value) {
            (Option::Some(va), Option::Some(vb)) => dc.consider(va, vb),
            _ => {},
        }
        i += 1;
    }
    dc.all()
}

/// Counts the compared fields of a tuple pair.
fn count_tuple(fa: &Vec<Option<Shape>>, fb: &Vec<Option<Shape>>) -> (r: bool)
    requires
        crate::detect::tuple_compat(fa@, fb@),
    ensures
        r == all_diff_tuple(fa@, fb@),
{
    let mut dc = DiffCounter::default();
    let mut i: usize = 0;
    while i < fa.len()
        invariant
            i <= fa@.len(),
            crate::detect::tuple_compat(fa@, fb@),
            dc.diffs <= dc.total,
            dc.total as int <= i,
            (dc.total == 0) == !(exists|k: int| 0 <= k < i && (#[trigger] fa@[k]) is Some),
            (dc.diffs == dc.total) == (forall|k: int|
                0 <= k < i && (#[trigger] fa@[k]) is Some && fb@[k] is Some
                    ==> any_diff(fa@[k]->0, fb@[k]->0)),
        decreases fa@.len() - i,
    {
        match (&fa[i], &fb[i]) {
            (Option::Some(va), Option::Some(vb)) => dc.consider(va, vb),
            _ => {},
        }
        i += 1;
    }
    dc.all()
}

/// Counts the elements of a sequence pair under zip-longest pairing.
fn count_seq(sa: &Vec<Shape>, sb: &Vec<Shape>) -> (r: bool)
    ensures
        r == all_diff_seq(sa@, sb@),
{
    let mut dc = DiffCounter::default();
    let mut i: usize = 0;
    while i < sa.len() && i < sb.len()
        invariant
            i <= sa@.len(),
            i <= sb@.len(),
            dc.diffs <= dc.total,
            dc.total as int == i,
            (dc.diffs == dc.total) == (forall|k: int|
                0 <= k < i ==> any_diff(#[trigger] sa@[k], sb@[k])),
        decreases sa@.len() - i,
    {
        dc.consider(&sa[i], &sb[i]);
        i += 1;
    }
    let ghost min = i as int;
    let mut j: usize = i;
    while j < sa.len()
        invariant
            min <= j <= sa@.len(),
            min == sb@.len() || min == sa@.len(),
            dc.diffs <= dc.total,
            dc.total as int == j,
            (dc.diffs == dc.total) == (forall|k: int|
                0 <= k < min ==> any_diff(#[trigger] sa@[k], sb@[k])),
        decreases sa@.len() - j,
    {
        dc.diff();
        j += 1;
    }
    let mut l: usize = j;
    while l < sb.len()
        invariant
            min <= l <= sb@.len() || l == sa@.len(),
            min == sb@.len() || min == sa@.len(),
            j as int == if sa@.len() > min {
                sa@.len() as int
            } else {
                min
            },
            l >= j,
            dc.diffs <= dc.total,
            dc.total as int == l,
            (dc.diffs == dc.total) == (forall|k: int|
                0 <= k < min ==> any_diff(#[trigger] sa@[k], sb@[k])),
        decreases sb@.len() - l,
    {
        dc.diff();
        l += 1;
    }
    dc.all()
}

/// Counts merge-join pairing of two key-ordered entry lists.
fn count_merge(s: &Vec<Entry>, t: &Vec<Entry>) -> (r: bool)
    ensures
        r == all_diff_merge(s@, t@),
{
    let mut dc = DiffCounter::default();
    let mut i: usize = 0;
    let mut j: usize = 0;
    proof {
        assert(s@.skip(0) =~= s@);
        assert(t@.skip(0) =~= t@);
    }
    while i < s.len() && j < t.len()
        invariant
            i <= s@.len(),
            j <= t@.len(),
            dc.diffs <= dc.total,
            dc.total as int <= i + j,
            (dc.total == 0) == (i == 0 && j == 0),
            all_diff_merge_pairs(s@, t@) == ((dc.diffs == dc.total) && all_diff_merge_pairs(
                s@.skip(i as int),
                t@.skip(j as int),
            )),
        decreases s@.len() - i + t@.len() - j,
    {
        proof {
            assert(s@.skip(i as int)[0] == s@[i as int]);
            assert(t@.skip(j as int)[0] == t@[j as int]);
            assert(s@.skip(i as int).drop_first() =~= s@.skip(i as int + 1));
            assert(t@.skip(j as int).drop_first() =~= t@.skip(j as int + 1));
        }
        if s[i].key < t[j].key {
            dc.diff();
            i += 1;
        } else if s[i].key == t[j].key {
            dc.consider(&s[i].value, &t[j].value);
            i += 1;
            j += 1;
        } else {
            dc.diff();
            j += 1;
        }
    }
    while i < s.len()
        invariant
            i <= s@.len(),
            j == t@.len() || i == s@.len(),
            dc.diffs <= dc.total,
            dc.total as int <= i + j,
            (dc.total == 0) == (i == 0 && j == 0),
            all_diff_merge_pairs(s@, t@) == ((dc.diffs == dc.total) && all_diff_merge_pairs(
                s@.skip(i as int),
                t@.skip(j as int),
            )),
        decreases s@.len() - i,
    {
        proof {
            assert(t@.skip(j as int).len() == 0);
            assert(s@.skip(i as int).drop_first() =~= s@.skip(i as int + 1));
        }
        dc.diff();
        i += 1;
    }
    while j < t.len()
        invariant
            i == s@.len(),
            j <= t@.len(),
            dc.diffs <= dc.total,
            dc.total as int <= i + j,
            (dc.total == 0) == (i == 0 && j == 0),
            all_diff_merge_pairs(s@, t@) == ((dc.diffs == dc.total) && all_diff_merge_pairs(
                s@.skip(i as int),
                t@.skip(j as int),
            )),
        decreases t@.len() - j,
    {
        proof {
            assert(s@.skip(i as int).len() == 0);
            assert(t@.skip(j as int).drop_first() =~= t@.skip(j as int + 1));
        }
        dc.diff();
        j += 1;
    }
    proof {
        assert(s@.skip(i as int).len() == 0);
        assert(t@.skip(j as int).len() == 0);
    }
    dc.all()
}

/// Counts unordered pairing by key intersection and difference.
fn count_unordered(s: &Vec<Entry>, t: &Vec<Entry>) -> (r: bool)
    ensures
        r == all_diff_unordered(s@, t@),
{
    let mut dc = DiffCounter::default();
    let mut i: usize = 0;
    while i < s.len()
        invariant
            i <= s@.len(),
            dc.diffs <= dc.total,
            dc.total as int == i,
            (dc.diffs == dc.total) == (forall|k: int|
                0 <= k < i ==> match find_entry(t@, (#[trigger] s@[k]).key) {
                    Option::Some(e) => any_diff(s@[k].value, e.value),
                    Option::None => true,
                }),
        decreases s@.len() - i,
    {
        match find_key(t, s[i].key) {
            Option::Some(j) => dc.consider(&s[i].value, &t[j].value),
            Option::None => dc.diff(),
        }
        i += 1;
    }
    let mut j: usize = 0;
    while j < t.len()
        invariant
            i == s@.len(),
            j <= t@.len(),
            dc.diffs <= dc.total,
            dc.total as int <= s@.len() + j,
            (dc.total == 0) == !(s@.len() > 0 || exists|m: int|
                0 <= m < j && find_entry(s@, (#[trigger] t@[m]).key) is None),
            (dc.diffs == dc.total) == (forall|k: int|
                0 <= k < s@.len() ==> match find_entry(t@, (#[trigger] s@[k]).key) {
                    Option::Some(e) => any_diff(s@[k].value, e.value),
                    Option::None => true,
                }),
        decreases t@.len() - j,
    {
        match find_key(s, t[j].key) {
            Option::Some(_) => {},
            Option::None => dc.diff(),
        }
        j += 1;
    }
    dc.all()
}

/// Checks whether every top-level part of `a` differs from its counterpart
/// in `b`, by counting observed and differing parts.
pub fn all_different(a: &Shape, b: &Shape) -> (r: bool)
    ensures
        r == all_diff(*a, *b),
    decreases *a, *b,
{
    match (a, b) {
        (Shape::Atom { text: ta }, Shape::Atom { text: tb }) => !(*ta == *tb),
        (Shape::Newtype { name: na, inner: ia }, Shape::Newtype { name: nb, inner: ib }) => {
            if *na == *nb {
                all_different(&**ia, &**ib)
            } else {
                true
            }
        },
        (Shape::Struct { name: na, fields: fa }, Shape::Struct { name: nb, fields: fb }) => {
            if *na == *nb && check_fields_compat(fa, fb) {
                count_fields(fa, fb)
            } else {
                true
            }
        },
        (
            Shape::StructVariant { enum_name: ea, variant: va, fields: fa },
            Shape::StructVariant { enum_name: eb, variant: vb, fields: fb },
        ) => {
            if *ea == *eb && *va == *vb && check_fields_compat(fa, fb) {
                count_fields(fa, fb)
            } else {
                true
            }
        },
        (Shape::Tuple { name: na, fields: fa }, Shape::Tuple { name: nb, fields: fb }) => {
            if *na == *nb && check_tuple_compat(fa, fb) {
                count_tuple(fa, fb)
            } else {
                true
            }
        },
        (
            Shape::TupleVariant { enum_name: ea, variant: va, fields: fa },
            Shape::TupleVariant { enum_name: eb, variant: vb, fields: fb },
        ) => {
            if *ea == *eb && *va == *vb && check_tuple_compat(fa, fb) {
                count_tuple(fa, fb)
            } else {
                true
            }
        },
        (Shape::Sequence { elems: ea }, Shape::Sequence { elems: eb }) => count_seq(ea, eb),
        (
            Shape::SetLike { ordered: oa, elems: ea },
            Shape::SetLike { ordered: ob, elems: eb },
        ) => {
            if *oa == *ob {
                if *oa {
                    count_merge(ea, eb)
                } else {
                    count_unordered(ea, eb)
                }
            } else {
                true
            }
        },
        (
            Shape::MapLike { ordered: oa, entries: ea },
            Shape::MapLike { ordered: ob, entries: eb },
        ) => {
            if *oa == *ob {
                if *oa {
                    count_merge(ea, eb)
                } else {
                    count_unordered(ea, eb)
                }
            } else {
                true
            }
        },
        _ => true,
    }
}

} // verus!

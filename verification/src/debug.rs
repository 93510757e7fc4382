//! The text-rendering consumer: a two-sided, human-readable diff.
//!
//! [`debug_diff`] produces a [`DebugDiff`] whose [`DebugDiff::compact`] and
//! [`DebugDiff::pretty`] methods render the pair the way the standard
//! debug formatting would, except that differing parts are shown as a
//! two-column marker `DIFF { L: ..., R: ... }`. Whenever *every* top-level
//! part of a subtree differs, the whole subtree is shown as one marker
//! rather than descending further; [`crate::detect::all_diff`] decides.
//!
//! The spec functions [`render_value`] (a value's own canonical text) and
//! [`render_diff`] (the two-sided diff text) define the output exactly; the
//! executable renderer is proved to produce it.

use vstd::prelude::*;

use crate::detect::{all_diff, all_different, find_entry};
use crate::text::dec_digits;
use crate::{Entry, Field, Shape};

verus! {

/// One item of a composite rendering: indented on its own line with a
/// trailing comma in pretty mode, joined by `", "` in compact mode.
pub open spec fn item_piece(txt: Seq<char>, alt: bool, pad: Seq<char>, first: bool) -> Seq<char> {
    if alt {
        pad + "    "@ + txt + ",\n"@
    } else {
        if first {
            txt
        } else {
            ", "@ + txt
        }
    }
}

/// A named, brace-delimited rendering (structs and struct variants).
pub open spec fn brace_wrap(
    name: Seq<char>,
    body: Seq<char>,
    has_items: bool,
    alt: bool,
    pad: Seq<char>,
) -> Seq<char> {
    if !has_items {
        name
    } else if alt {
        name + " {\n"@ + body + pad + "}"@
    } else {
        name + " { "@ + body + " }"@
    }
}

/// A named, parenthesized rendering (tuples, tuple variants, newtypes).
pub open spec fn paren_wrap(
    name: Seq<char>,
    body: Seq<char>,
    has_items: bool,
    alt: bool,
    pad: Seq<char>,
) -> Seq<char> {
    if !has_items {
        name
    } else if alt {
        name + "(\n"@ + body + pad + ")"@
    } else {
        name + "("@ + body + ")"@
    }
}

/// A bracket-delimited rendering (sequences).
pub open spec fn bracket_wrap(body: Seq<char>, has_items: bool, alt: bool, pad: Seq<char>) -> Seq<
    char,
> {
    if !has_items {
        "[]"@
    } else if alt {
        "[\n"@ + body + pad + "]"@
    } else {
        "["@ + body + "]"@
    }
}

/// A curly-brace rendering without a name (sets and maps).
pub open spec fn curly_wrap(body: Seq<char>, has_items: bool, alt: bool, pad: Seq<char>) -> Seq<
    char,
> {
    if !has_items {
        "{}"@
    } else if alt {
        "{\n"@ + body + pad + "}"@
    } else {
        "{"@ + body + "}"@
    }
}

/// The key prefix of a map entry, or nothing for a set element.
pub open spec fn key_prefix(e: Entry, keyed: bool) -> Seq<char> {
    if keyed {
        dec_digits(e.key as nat) + ": "@
    } else {
        Seq::empty()
    }
}

/// Whether a struct field list has any compared field.
pub open spec fn fields_have_present(fields: Seq<Field>) -> bool {
    exists|i: int| 0 <= i < fields.len() && (#[trigger] fields[i]).value is Some
}

/// Whether a tuple field list has any compared field.
pub open spec fn tuple_has_present(fields: Seq<Option<Shape>>) -> bool {
    exists|i: int| 0 <= i < fields.len() && (#[trigger] fields[i]) is Some
}

/// The canonical text of a value: what plain debug formatting of the value
/// itself would print, in compact or pretty (`alt`) mode, continuation
/// lines indented by `pad`.
pub open spec fn render_value(s: Shape, alt: bool, pad: Seq<char>) -> Seq<char>
    decreases s, 0int,
{
    match s {
        Shape::Atom { text } => text@,
        Shape::Newtype { name, inner } => paren_wrap(
            name@,
            item_piece(render_value(*inner, alt, pad + "    "@), alt, pad, true),
            true,
            alt,
            pad,
        ),
        Shape::Struct { name, fields } => brace_wrap(
            name@,
            rv_fields_body(fields@, alt, pad, true),
            fields_have_present(fields@),
            alt,
            pad,
        ),
        Shape::StructVariant { enum_name, variant, fields } => brace_wrap(
            variant@,
            rv_fields_body(fields@, alt, pad, true),
            fields_have_present(fields@),
            alt,
            pad,
        ),
        Shape::Tuple { name, fields } => paren_wrap(
            name@,
            rv_tuple_body(fields@, alt, pad, true),
            tuple_has_present(fields@),
            alt,
            pad,
        ),
        Shape::TupleVariant { enum_name, variant, fields } => paren_wrap(
            variant@,
            rv_tuple_body(fields@, alt, pad, true),
            tuple_has_present(fields@),
            alt,
            pad,
        ),
        Shape::Sequence { elems } => bracket_wrap(
            rv_seq_body(elems@, alt, pad, true),
            elems@.len() > 0,
            alt,
            pad,
        ),
        Shape::SetLike { ordered, elems } => curly_wrap(
            rv_entries_body(elems@, false, alt, pad, true),
            elems@.len() > 0,
            alt,
            pad,
        ),
        Shape::MapLike { ordered, entries } => curly_wrap(
            rv_entries_body(entries@, true, alt, pad, true),
            entries@.len() > 0,
            alt,
            pad,
        ),
    }
}

/// The canonical body of a struct: its compared fields as `name: value`
/// items, skipped fields omitted.
pub open spec fn rv_fields_body(fields: Seq<Field>, alt: bool, pad: Seq<char>, first: bool) -> Seq<
    char,
>
    decreases fields, 1int,
{
    if fields.len() == 0 {
        Seq::empty()
    } else {
        match fields[0].value {
            Option::Some(v) => item_piece(
                fields[0].name@ + ": "@ + render_value(v, alt, pad + "    "@),
                alt,
                pad,
                first,
            ) + rv_fields_body(fields.drop_first(), alt, pad, false),
            Option::None => rv_fields_body(fields.drop_first(), alt, pad, first),
        }
    }
}

/// The canonical body of a tuple: its compared fields in order.
pub open spec fn rv_tuple_body(
    fields: Seq<Option<Shape>>,
    alt: bool,
    pad: Seq<char>,
    first: bool,
) -> Seq<char>
    decreases fields, 1int,
{
    if fields.len() == 0 {
        Seq::empty()
    } else {
        match fields[0] {
            Option::Some(v) => item_piece(render_value(v, alt, pad + "    "@), alt, pad, first)
                + rv_tuple_body(fields.drop_first(), alt, pad, false),
            Option::None => rv_tuple_body(fields.drop_first(), alt, pad, first),
        }
    }
}

/// The canonical body of a sequence: its elements in order.
pub open spec fn rv_seq_body(elems: Seq<Shape>, alt: bool, pad: Seq<char>, first: bool) -> Seq<
    char,
>
    decreases elems, 1int,
{
    if elems.len() == 0 {
        Seq::empty()
    } else {
        item_piece(render_value(elems[0], alt, pad + "    "@), alt, pad, first) + rv_seq_body(
            elems.drop_first(),
            alt,
            pad,
            false,
        )
    }
}

/// The canonical body of a set or map: its entries in order, keyed entries
/// with a `key: ` prefix.
pub open spec fn rv_entries_body(
    entries: Seq<Entry>,
    keyed: bool,
    alt: bool,
    pad: Seq<char>,
    first: bool,
) -> Seq<char>
    decreases entries, 1int,
{
    if entries.len() == 0 {
        Seq::empty()
    } else {
        item_piece(
            key_prefix(entries[0], keyed) + render_value(entries[0].value, alt, pad + "    "@),
            alt,
            pad,
            first,
        ) + rv_entries_body(entries.drop_first(), keyed, alt, pad, false)
    }
}

/// The two-column marker over two already-rendered sides.
pub open spec fn marker_text(lt: Seq<char>, rt: Seq<char>, alt: bool, pad: Seq<char>) -> Seq<char> {
    brace_wrap(
        "DIFF"@,
        item_piece("L: "@ + lt, alt, pad, true) + item_piece("R: "@ + rt, alt, pad, false),
        true,
        alt,
        pad,
    )
}

/// The marker for a pair of values that are shown whole.
pub open spec fn marker_both(a: Shape, b: Shape, alt: bool, pad: Seq<char>) -> Seq<char> {
    marker_text(
        render_value(a, alt, pad + "    "@),
        render_value(b, alt, pad + "    "@),
        alt,
        pad,
    )
}

/// The marker for a value present on the left side only.
pub open spec fn marker_left_only(a: Shape, alt: bool, pad: Seq<char>) -> Seq<char> {
    marker_text(render_value(a, alt, pad + "    "@), "(missing)"@, alt, pad)
}

/// The marker for a value present on the right side only.
pub open spec fn marker_right_only(b: Shape, alt: bool, pad: Seq<char>) -> Seq<char> {
    marker_text("(missing)"@, render_value(b, alt, pad + "    "@), alt, pad)
}

/// The two-sided diff text for `a` and `b`.
///
/// A pair whose every top-level part differs is shown as one whole-value
/// marker; otherwise the pair's structure is walked, and only differing
/// subtrees are marked.
pub open spec fn render_diff(a: Shape, b: Shape, alt: bool, pad: Seq<char>) -> Seq<char>
    decreases a, b, 0int,
{
    if all_diff(a, b) {
        marker_both(a, b, alt, pad)
    } else {
        match (a, b) {
            (Shape::Atom { text: ta }, Shape::Atom { text: tb }) => ta@,
            (Shape::Newtype { name: na, inner: ia }, Shape::Newtype { name: nb, inner: ib }) => {
                if na@ == nb@ {
                    paren_wrap(
                        na@,
                        item_piece(render_diff(*ia, *ib, alt, pad + "    "@), alt, pad, true),
                        true,
                        alt,
                        pad,
                    )
                } else {
                    marker_both(a, b, alt, pad)
                }
            },
            (Shape::Struct { name: na, fields: fa }, Shape::Struct { name: nb, fields: fb }) => {
                brace_wrap(
                    na@,
                    rd_fields_body(fa@, fb@, alt, pad, true),
                    fields_have_present(fa@),
                    alt,
                    pad,
                )
            },
            (
                Shape::StructVariant { variant: va, fields: fa, .. },
                Shape::StructVariant { fields: fb, .. },
            ) => {
                brace_wrap(
                    va@,
                    rd_fields_body(fa@, fb@, alt, pad, true),
                    fields_have_present(fa@),
                    alt,
                    pad,
                )
            },
            (Shape::Tuple { name: na, fields: fa }, Shape::Tuple { fields: fb, .. }) => {
                paren_wrap(
                    na@,
                    rd_tuple_body(fa@, fb@, alt, pad, true),
                    tuple_has_present(fa@),
                    alt,
                    pad,
                )
            },
            (
                Shape::TupleVariant { variant: va, fields: fa, .. },
                Shape::TupleVariant { fields: fb, .. },
            ) => {
                paren_wrap(
                    va@,
                    rd_tuple_body(fa@, fb@, alt, pad, true),
                    tuple_has_present(fa@),
                    alt,
                    pad,
                )
            },
            (Shape::Sequence { elems: ea }, Shape::Sequence { elems: eb }) => {
                bracket_wrap(
                    rd_seq_body(ea@, eb@, alt, pad, true),
                    ea@.len() > 0 || eb@.len() > 0,
                    alt,
                    pad,
                )
            },
            (
                Shape::SetLike { ordered: oa, elems: ea },
                Shape::SetLike { ordered: ob, elems: eb },
            ) => {
                if oa {
                    curly_wrap(
                        rd_merge_body(ea@, eb@, false, alt, pad, true),
                        ea@.len() > 0 || eb@.len() > 0,
                        alt,
                        pad,
                    )
                } else {
                    curly_wrap(
                        rd_unordered_left(ea@, eb@, false, alt, pad, true) + rd_unordered_right(
                            eb@,
                            ea@,
                            false,
                            alt,
                            pad,
                            ea@.len() == 0,
                        ),
                        unordered_has_items(ea@, eb@),
                        alt,
                        pad,
                    )
                }
            },
            (
                Shape::MapLike { ordered: oa, entries: ea },
                Shape::MapLike { ordered: ob, entries: eb },
            ) => {
                if oa {
                    curly_wrap(
                        rd_merge_body(ea@, eb@, true, alt, pad, true),
                        ea@.len() > 0 || eb@.len() > 0,
                        alt,
                        pad,
                    )
                } else {
                    curly_wrap(
                        rd_unordered_left(ea@, eb@, true, alt, pad, true) + rd_unordered_right(
                            eb@,
                            ea@,
                            true,
                            alt,
                            pad,
                            ea@.len() == 0,
                        ),
                        unordered_has_items(ea@, eb@),
                        alt,
                        pad,
                    )
                }
            },
            _ => marker_both(a, b, alt, pad),
        }
    }
}

/// Whether an unordered pairing renders any item.
pub open spec fn unordered_has_items(s: Seq<Entry>, t: Seq<Entry>) -> bool {
    s.len() > 0 || exists|j: int| 0 <= j < t.len() && find_entry(s, (#[trigger] t[j]).key) is None
}

/// The diff body of a struct pair: one item per compared field pair.
pub open spec fn rd_fields_body(
    fa: Seq<Field>,
    fb: Seq<Field>,
    alt: bool,
    pad: Seq<char>,
    first: bool,
) -> Seq<char>
    decreases fa, fb, 1int,
{
    if fa.len() == 0 || fb.len() == 0 {
        Seq::empty()
    } else {
        match (fa[0].value, fb[0].value) {
            (Option::Some(va), Option::Some(vb)) => item_piece(
                fa[0].name@ + ": "@ + render_diff(va, vb, alt, pad + "    "@),
                alt,
                pad,
                first,
            ) + rd_fields_body(fa.drop_first(), fb.drop_first(), alt, pad, false),
            _ => rd_fields_body(fa.drop_first(), fb.drop_first(), alt, pad, first),
        }
    }
}

/// The diff body of a tuple pair.
pub open spec fn rd_tuple_body(
    fa: Seq<Option<Shape>>,
    fb: Seq<Option<Shape>>,
    alt: bool,
    pad: Seq<char>,
    first: bool,
) -> Seq<char>
    decreases fa, fb, 1int,
{
    if fa.len() == 0 || fb.len() == 0 {
        Seq::empty()
    } else {
        match (fa[0], fb[0]) {
            (Option::Some(va), Option::Some(vb)) => item_piece(
                render_diff(va, vb, alt, pad + "    "@),
                alt,
                pad,
                first,
            ) + rd_tuple_body(fa.drop_first(), fb.drop_first(), alt, pad, false),
            _ => rd_tuple_body(fa.drop_first(), fb.drop_first(), alt, pad, first),
        }
    }
}

/// The diff body of a sequence pair under zip-longest pairing: element
/// pairs first, then excess elements with a `(missing)` marker on the
/// absent side.
pub open spec fn rd_seq_body(
    sa: Seq<Shape>,
    sb: Seq<Shape>,
    alt: bool,
    pad: Seq<char>,
    first: bool,
) -> Seq<char>
    decreases sa, sb, 1int,
{
    if sa.len() == 0 && sb.len() == 0 {
        Seq::empty()
    } else if sa.len() > 0 && sb.len() > 0 {
        item_piece(render_diff(sa[0], sb[0], alt, pad + "    "@), alt, pad, first) + rd_seq_body(
            sa.drop_first(),
            sb.drop_first(),
            alt,
            pad,
            false,
        )
    } else if sa.len() > 0 {
        item_piece(marker_left_only(sa[0], alt, pad), alt, pad, first) + rd_seq_body(
            sa.drop_first(),
            sb,
            alt,
            pad,
            false,
        )
    } else {
        item_piece(marker_right_only(sb[0], alt, pad), alt, pad, first) + rd_seq_body(
            sa,
            sb.drop_first(),
            alt,
            pad,
            false,
        )
    }
}

/// The diff body of an ordered set or map pair under merge-join pairing.
pub open spec fn rd_merge_body(
    s: Seq<Entry>,
    t: Seq<Entry>,
    keyed: bool,
    alt: bool,
    pad: Seq<char>,
    first: bool,
) -> Seq<char>
    decreases s, t, 1int,
{
    if s.len() == 0 && t.len() == 0 {
        Seq::empty()
    } else if s.len() == 0 {
        item_piece(
            key_prefix(t[0], keyed) + marker_right_only(t[0].value, alt, pad),
            alt,
            pad,
            first,
        ) + rd_merge_body(s, t.drop_first(), keyed, alt, pad, false)
    } else if t.len() == 0 {
        item_piece(
            key_prefix(s[0], keyed) + marker_left_only(s[0].value, alt, pad),
            alt,
            pad,
            first,
        ) + rd_merge_body(s.drop_first(), t, keyed, alt, pad, false)
    } else if s[0].key == t[0].key {
        item_piece(
            key_prefix(s[0], keyed) + render_diff(s[0].value, t[0].value, alt, pad + "    "@),
            alt,
            pad,
            first,
        ) + rd_merge_body(s.drop_first(), t.drop_first(), keyed, alt, pad, false)
    } else if s[0].key < t[0].key {
        item_piece(
            key_prefix(s[0], keyed) + marker_left_only(s[0].value, alt, pad),
            alt,
            pad,
            first,
        ) + rd_merge_body(s.drop_first(), t, keyed, alt, pad, false)
    } else {
        item_piece(
            key_prefix(t[0], keyed) + marker_right_only(t[0].value, alt, pad),
            alt,
            pad,
            first,
        ) + rd_merge_body(s, t.drop_first(), keyed, alt, pad, false)
    }
}

/// The left half of an unordered pairing: one item per left entry, paired
/// with its counterpart when the key is shared.
pub open spec fn rd_unordered_left(
    s: Seq<Entry>,
    t: Seq<Entry>,
    keyed: bool,
    alt: bool,
    pad: Seq<char>,
    first: bool,
) -> Seq<char>
    decreases s, t, 1int,
{
    if s.len() == 0 {
        Seq::empty()
    } else {
        match find_entry(t, s[0].key) {
            Option::Some(e) => item_piece(
                key_prefix(s[0], keyed) + render_diff(s[0].value, e.value, alt, pad + "    "@),
                alt,
                pad,
                first,
            ) + rd_unordered_left(s.drop_first(), t, keyed, alt, pad, false),
            Option::None => item_piece(
                key_prefix(s[0], keyed) + marker_left_only(s[0].value, alt, pad),
                alt,
                pad,
                first,
            ) + rd_unordered_left(s.drop_first(), t, keyed, alt, pad, false),
        }
    }
}

/// The right half of an unordered pairing: the right-only entries.
pub open spec fn rd_unordered_right(
    t: Seq<Entry>,
    s: Seq<Entry>,
    keyed: bool,
    alt: bool,
    pad: Seq<char>,
    first: bool,
) -> Seq<char>
    decreases t,
{
    if t.len() == 0 {
        Seq::empty()
    } else if find_entry(s, t[0].key) is None {
        item_piece(
            key_prefix(t[0], keyed) + marker_right_only(t[0].value, alt, pad),
            alt,
            pad,
            first,
        ) + rd_unordered_right(t.drop_first(), s, keyed, alt, pad, false)
    } else {
        rd_unordered_right(t.drop_first(), s, keyed, alt, pad, first)
    }
}

/// The indentation one level deeper than `pad`.
fn child_pad(pad: &String) -> (p: String)
    ensures
        p@ == pad@ + "    "@,
{
    let mut p = pad.clone();
    p.append("    ");
    p
}

/// Appends one composite item to `out`.
fn append_item(out: &mut String, txt: &str, alt: bool, pad: &String, first: bool)
    ensures
        final(out)@ == old(out)@ + item_piece(txt@, alt, pad@, first),
{
    let ghost out0 = out@;
    if alt {
        out.append(pad.as_str());
        out.append("    ");
        out.append(txt);
        out.append(",\n");
        proof {
            assert(out@ =~= out0 + item_piece(txt@, alt, pad@, first));
        }
    } else {
        if !first {
            out.append(", ");
        }
        out.append(txt);
        proof {
            assert(out@ =~= out0 + item_piece(txt@, alt, pad@, first));
        }
    }
}

/// Assembles a named, brace-delimited rendering.
fn brace_wrap_string(name: &str, body: &str, has_items: bool, alt: bool, pad: &String) -> (out:
    String)
    ensures
        out@ == brace_wrap(name@, body@, has_items, alt, pad@),
{
    let mut out = String::from_str(name);
    if has_items {
        if alt {
            out.append(" {\n");
            out.append(body);
            out.append(pad.as_str());
            out.append("}");
            proof {
                assert(out@ =~= brace_wrap(name@, body@, has_items, alt, pad@));
            }
        } else {
            out.append(" { ");
            out.append(body);
            out.append(" }");
            proof {
                assert(out@ =~= brace_wrap(name@, body@, has_items, alt, pad@));
            }
        }
    }
    out
}

/// Assembles a named, parenthesized rendering.
fn paren_wrap_string(name: &str, body: &str, has_items: bool, alt: bool, pad: &String) -> (out:
    String)
    ensures
        out@ == paren_wrap(name@, body@, has_items, alt, pad@),
{
    let mut out = String::from_str(name);
    if has_items {
        if alt {
            out.append("(\n");
            out.append(body);
            out.append(pad.as_str());
            out.append(")");
            proof {
                assert(out@ =~= paren_wrap(name@, body@, has_items, alt, pad@));
            }
        } else {
            out.append("(");
            out.append(body);
            out.append(")");
            proof {
                assert(out@ =~= paren_wrap(name@, body@, has_items, alt, pad@));
            }
        }
    }
    out
}

/// Assembles a bracket-delimited rendering.
fn bracket_wrap_string(body: &str, has_items: bool, alt: bool, pad: &String) -> (out: String)
    ensures
        out@ == bracket_wrap(body@, has_items, alt, pad@),
{
    if !has_items {
        String::from_str("[]")
    } else if alt {
        let mut out = String::from_str("[\n");
        out.append(body);
        out.append(pad.as_str());
        out.append("]");
        proof {
            assert(out@ =~= bracket_wrap(body@, has_items, alt, pad@));
        }
        out
    } else {
        let mut out = String::from_str("[");
        out.append(body);
        out.append("]");
        proof {
            assert(out@ =~= bracket_wrap(body@, has_items, alt, pad@));
        }
        out
    }
}

/// Assembles a curly-brace rendering.
fn curly_wrap_string(body: &str, has_items: bool, alt: bool, pad: &String) -> (out: String)
    ensures
        out@ == curly_wrap(body@, has_items, alt, pad@),
{
    if !has_items {
        String::from_str("{}")
    } else if alt {
        let mut out = String::from_str("{\n");
        out.append(body);
        out.append(pad.as_str());
        out.append("}");
        proof {
            assert(out@ =~= curly_wrap(body@, has_items, alt, pad@));
        }
        out
    } else {
        let mut out = String::from_str("{");
        out.append(body);
        out.append("}");
        proof {
            assert(out@ =~= curly_wrap(body@, has_items, alt, pad@));
        }
        out
    }
}

/// The `key: ` prefix of a keyed entry, or nothing.
fn key_prefix_string(e: &Entry, keyed: bool) -> (out: String)
    ensures
        out@ == key_prefix(*e, keyed),
{
    if keyed {
        let mut out = crate::text::u64_to_string(e.key);
        out.append(": ");
        out
    } else {
        String::new()
    }
}

/// Renders a value canonically, as plain debug formatting would.
pub fn value_string(s: &Shape, alt: bool, pad: &String) -> (out: String)
    ensures
        out@ == render_value(*s, alt, pad@),
    decreases *s, 0int,
{
    match s {
        Shape::Atom { text } => text.clone(),
        Shape::Newtype { name, inner } => {
            let cp = child_pad(pad);
            let inner_text = value_string(&**inner, alt, &cp);
            let mut body = String::new();
            append_item(&mut body, inner_text.as_str(), alt, pad, true);
            proof {
                assert(body@ =~= item_piece(inner_text@, alt, pad@, true));
            }
            paren_wrap_string(name.as_str(), body.as_str(), true, alt, pad)
        },
        Shape::Struct { name, fields } => {
            let body = value_fields_body(fields, alt, pad);
            let has = has_present_field(fields);
            brace_wrap_string(name.as_str(), body.as_str(), has, alt, pad)
        },
        Shape::StructVariant { enum_name, variant, fields } => {
            let body = value_fields_body(fields, alt, pad);
            let has = has_present_field(fields);
            brace_wrap_string(variant.as_str(), body.as_str(), has, alt, pad)
        },
        Shape::Tuple { name, fields } => {
            let body = value_tuple_body(fields, alt, pad);
            let has = has_present_opt(fields);
            paren_wrap_string(name.as_str(), body.as_str(), has, alt, pad)
        },
        Shape::TupleVariant { enum_name, variant, fields } => {
            let body = value_tuple_body(fields, alt, pad);
            let has = has_present_opt(fields);
            paren_wrap_string(variant.as_str(), body.as_str(), has, alt, pad)
        },
        Shape::Sequence { elems } => {
            let body = value_seq_body(elems, alt, pad);
            bracket_wrap_string(body.as_str(), elems.len() > 0, alt, pad)
        },
        Shape::SetLike { ordered, elems } => {
            let body = value_entries_body(elems, false, alt, pad);
            curly_wrap_string(body.as_str(), elems.len() > 0, alt, pad)
        },
        Shape::MapLike { ordered, entries } => {
            let body = value_entries_body(entries, true, alt, pad);
            curly_wrap_string(body.as_str(), entries.len() > 0, alt, pad)
        },
    }
}

/// Whether a struct field list has any compared field.
fn has_present_field(fields: &Vec<Field>) -> (r: bool)
    ensures
        r == fields_have_present(fields@),
{
    let mut i: usize = 0;
    while i < fields.len()
        invariant
            i <= fields@.len(),
            forall|k: int| 0 <= k < i ==> (#[trigger] fields@[k]).value is None,
        decreases fields@.len() - i,
    {
        if fields[i].value.is_some() {
            return true;
        }
        i += 1;
    }
    false
}

/// Whether a tuple field list has any compared field.
fn has_present_opt(fields: &Vec<Option<Shape>>) -> (r: bool)
    ensures
        r == tuple_has_present(fields@),
{
    let mut i: usize = 0;
    while i < fields.len()
        invariant
            i <= fields@.len(),
            forall|k: int| 0 <= k < i ==> (#[trigger] fields@[k]) is None,
        decreases fields@.len() - i,
    {
        if fields[i].is_some() {
            return true;
        }
        i += 1;
    }
    false
}

/// The canonical body of a struct.
fn value_fields_body(fields: &Vec<Field>, alt: bool, pad: &String) -> (out: String)
    ensures
        out@ == rv_fields_body(fields@, alt, pad@, true),
    decreases fields@, 1int,
{
    let cp = child_pad(pad);
    let mut out = String::new();
    let mut first = true;
    let mut i: usize = 0;
    proof {
        assert(fields@.skip(0) =~= fields@);
    }
    while i < fields.len()
        invariant
            i <= fields@.len(),
            cp@ == pad@ + "    "@,
            rv_fields_body(fields@, alt, pad@, true) == out@ + rv_fields_body(
                fields@.skip(i as int),
                alt,
                pad@,
                first,
            ),
        decreases fields@.len() - i,
    {
        let ghost rem = fields@.skip(i as int);
        proof {
            assert(rem[0] == fields@[i as int]);
            assert(rem.drop_first() =~= fields@.skip(i as int + 1));
        }
        match &fields[i].value {
            Option::Some(v) => {
                let ghost out0 = out@;
                let ghost first0 = first;
                let vt = value_string(v, alt, &cp);
                let mut txt = fields[i].name.clone();
                txt.append(": ");
                txt.append(vt.as_str());
                proof {
                    assert(txt@ =~= fields@[i as int].name@ + ": "@ + render_value(
                        *v,
                        alt,
                        pad@ + "    "@,
                    ));
                }
                append_item(&mut out, txt.as_str(), alt, pad, first);
                first = false;
                proof {
                    assert((out0 + item_piece(txt@, alt, pad@, first0)) + rv_fields_body(
                        rem.drop_first(),
                        alt,
                        pad@,
                        false,
                    ) =~= out0 + (item_piece(txt@, alt, pad@, first0) + rv_fields_body(
                        rem.drop_first(),
                        alt,
                        pad@,
                        false,
                    )));
                }
            },
            Option::None => {},
        }
        i += 1;
    }
    proof {
        assert(fields@.skip(fields@.len() as int).len() == 0);
        assert(out@ + Seq::<char>::empty() =~= out@);
    }
    out
}

/// The canonical body of a tuple.
fn value_tuple_body(fields: &Vec<Option<Shape>>, alt: bool, pad: &String) -> (out: String)
    ensures
        out@ == rv_tuple_body(fields@, alt, pad@, true),
    decreases fields@, 1int,
{
    let cp = child_pad(pad);
    let mut out = String::new();
    let mut first = true;
    let mut i: usize = 0;
    proof {
        assert(fields@.skip(0) =~= fields@);
    }
    while i < fields.len()
        invariant
            i <= fields@.len(),
            cp@ == pad@ + "    "@,
            rv_tuple_body(fields@, alt, pad@, true) == out@ + rv_tuple_body(
                fields@.skip(i as int),
                alt,
                pad@,
                first,
            ),
        decreases fields@.len() - i,
    {
        let ghost rem = fields@.skip(i as int);
        proof {
            assert(rem[0] == fields@[i as int]);
            assert(rem.drop_first() =~= fields@.skip(i as int + 1));
        }
        match &fields[i] {
            Option::Some(v) => {
                let ghost out0 = out@;
                let ghost first0 = first;
                let vt = value_string(v, alt, &cp);
                append_item(&mut out, vt.as_str(), alt, pad, first);
                first = false;
                proof {
                    assert((out0 + item_piece(vt@, alt, pad@, first0)) + rv_tuple_body(
                        rem.drop_first(),
                        alt,
                        pad@,
                        false,
                    ) =~= out0 + (item_piece(vt@, alt, pad@, first0) + rv_tuple_body(
                        rem.drop_first(),
                        alt,
                        pad@,
                        false,
                    )));
                }
            },
            Option::None => {},
        }
        i += 1;
    }
    proof {
        assert(fields@.skip(fields@.len() as int).len() == 0);
        assert(out@ + Seq::<char>::empty() =~= out@);
    }
    out
}

/// The canonical body of a sequence.
fn value_seq_body(elems: &Vec<Shape>, alt: bool, pad: &String) -> (out: String)
    ensures
        out@ == rv_seq_body(elems@, alt, pad@, true),
    decreases elems@, 1int,
{
    let cp = child_pad(pad);
    let mut out = String::new();
    let mut first = true;
    let mut i: usize = 0;
    proof {
        assert(elems@.skip(0) =~= elems@);
    }
    while i < elems.len()
        invariant
            i <= elems@.len(),
            cp@ == pad@ + "    "@,
            rv_seq_body(elems@, alt, pad@, true) == out@ + rv_seq_body(
                elems@.skip(i as int),
                alt,
                pad@,
                first,
            ),
        decreases elems@.len() - i,
    {
        let ghost rem = elems@.skip(i as int);
        proof {
            assert(rem[0] == elems@[i as int]);
            assert(rem.drop_first() =~= elems@.skip(i as int + 1));
        }
        let ghost out0 = out@;
        let ghost first0 = first;
        let vt = value_string(&elems[i], alt, &cp);
        append_item(&mut out, vt.as_str(), alt, pad, first);
        first = false;
        proof {
            assert((out0 + item_piece(vt@, alt, pad@, first0)) + rv_seq_body(
                rem.drop_first(),
                alt,
                pad@,
                false,
            ) =~= out0 + (item_piece(vt@, alt, pad@, first0) + rv_seq_body(
                rem.drop_first(),
                alt,
                pad@,
                false,
            )));
        }
        i += 1;
    }
    proof {
        assert(elems@.skip(elems@.len() as int).len() == 0);
        assert(out@ + Seq::<char>::empty() =~= out@);
    }
    out
}

/// The canonical body of a set or map.
fn value_entries_body(entries: &Vec<Entry>, keyed: bool, alt: bool, pad: &String) -> (out: String)
    ensures
        out@ == rv_entries_body(entries@, keyed, alt, pad@, true),
    decreases entries@, 1int,
{
    let cp = child_pad(pad);
    let mut out = String::new();
    let mut first = true;
    let mut i: usize = 0;
    proof {
        assert(entries@.skip(0) =~= entries@);
    }
    while i < entries.len()
        invariant
            i <= entries@.len(),
            cp@ == pad@ + "    "@,
            rv_entries_body(entries@, keyed, alt, pad@, true) == out@ + rv_entries_body(
                entries@.skip(i as int),
                keyed,
                alt,
                pad@,
                first,
            ),
        decreases entries@.len() - i,
    {
        let ghost rem = entries@.skip(i as int);
        proof {
            assert(rem[0] == entries@[i as int]);
            assert(rem.drop_first() =~= entries@.skip(i as int + 1));
        }
        let ghost out0 = out@;
        let ghost first0 = first;
        let vt = value_string(&entries[i].value, alt, &cp);
        let mut txt = key_prefix_string(&entries[i], keyed);
        txt.append(vt.as_str());
        proof {
            assert(txt@ =~= key_prefix(entries@[i as int], keyed) + render_value(
                entries@[i as int].value,
                alt,
                pad@ + "    "@,
            ));
        }
        append_item(&mut out, txt.as_str(), alt, pad, first);
        first = false;
        proof {
            assert((out0 + item_piece(txt@, alt, pad@, first0)) + rv_entries_body(
                rem.drop_first(),
                keyed,
                alt,
                pad@,
                false,
            ) =~= out0 + (item_piece(txt@, alt, pad@, first0) + rv_entries_body(
                rem.drop_first(),
                keyed,
                alt,
                pad@,
                false,
            )));
        }
        i += 1;
    }
    proof {
        assert(entries@.skip(entries@.len() as int).len() == 0);
        assert(out@ + Seq::<char>::empty() =~= out@);
    }
    out
}

/// Assembles a two-column marker from two rendered sides.
fn marker_string(lt: &str, rt: &str, alt: bool, pad: &String) -> (out: String)
    ensures
        out@ == marker_text(lt@, rt@, alt, pad@),
{
    let mut body = String::new();
    let mut l = String::from_str("L: ");
    l.append(lt);
    append_item(&mut body, l.as_str(), alt, pad, true);
    let mut r = String::from_str("R: ");
    r.append(rt);
    append_item(&mut body, r.as_str(), alt, pad, false);
    proof {
        assert(body@ =~= item_piece("L: "@ + lt@, alt, pad@, true) + item_piece(
            "R: "@ + rt@,
            alt,
            pad@,
            false,
        ));
    }
    brace_wrap_string("DIFF", body.as_str(), true, alt, pad)
}

/// The whole-pair marker.
fn marker_both_string(a: &Shape, b: &Shape, alt: bool, pad: &String) -> (out: String)
    ensures
        out@ == marker_both(*a, *b, alt, pad@),
{
    let cp = child_pad(pad);
    let lt = value_string(a, alt, &cp);
    let rt = value_string(b, alt, &cp);
    marker_string(lt.as_str(), rt.as_str(), alt, pad)
}

/// The marker for a left-only value.
fn marker_left_string(a: &Shape, alt: bool, pad: &String) -> (out: String)
    ensures
        out@ == marker_left_only(*a, alt, pad@),
{
    let cp = child_pad(pad);
    let lt = value_string(a, alt, &cp);
    proof {
        reveal_strlit("(missing)");
    }
    marker_string(lt.as_str(), "(missing)", alt, pad)
}

/// The marker for a right-only value.
fn marker_right_string(b: &Shape, alt: bool, pad: &String) -> (out: String)
    ensures
        out@ == marker_right_only(*b, alt, pad@),
{
    let cp = child_pad(pad);
    let rt = value_string(b, alt, &cp);
    proof {
        reveal_strlit("(missing)");
    }
    marker_string("(missing)", rt.as_str(), alt, pad)
}

/// The diff body of a struct pair.
fn diff_fields_body(fa: &Vec<Field>, fb: &Vec<Field>, alt: bool, pad: &String) -> (out: String)
    ensures
        out@ == rd_fields_body(fa@, fb@, alt, pad@, true),
    decreases fa@, fb@, 1int,
{
    let cp = child_pad(pad);
    let mut out = String::new();
    let mut first = true;
    let mut i: usize = 0;
    proof {
        assert(fa@.skip(0) =~= fa@);
        assert(fb@.skip(0) =~= fb@);
    }
    while i < fa.len() && i < fb.len()
        invariant
            i <= fa@.len(),
            i <= fb@.len(),
            cp@ == pad@ + "    "@,
            rd_fields_body(fa@, fb@, alt, pad@, true) == out@ + rd_fields_body(
                fa@.skip(i as int),
                fb@.skip(i as int),
                alt,
                pad@,
                first,
            ),
        decreases fa@.len() - i,
    {
        let ghost rema = fa@.skip(i as int);
        let ghost remb = fb@.skip(i as int);
        proof {
            assert(rema[0] == fa@[i as int]);
            assert(remb[0] == fb@[i as int]);
            assert(rema.drop_first() =~= fa@.skip(i as int + 1));
            assert(remb.drop_first() =~= fb@.skip(i as int + 1));
        }
        match (&fa[i].value, &fb[i].value) {
            (Option::Some(va), Option::Some(vb)) => {
                let ghost out0 = out@;
                let ghost first0 = first;
                let vt = diff_string(va, vb, alt, &cp);
                let mut txt = fa[i].name.clone();
                txt.append(": ");
                txt.append(vt.as_str());
                proof {
                    assert(txt@ =~= fa@[i as int].name@ + ": "@ + render_diff(
                        *va,
                        *vb,
                        alt,
                        pad@ + "    "@,
                    ));
                }
                append_item(&mut out, txt.as_str(), alt, pad, first);
                first = false;
                proof {
                    assert((out0 + item_piece(txt@, alt, pad@, first0)) + rd_fields_body(
                        rema.drop_first(),
                        remb.drop_first(),
                        alt,
                        pad@,
                        false,
                    ) =~= out0 + (item_piece(txt@, alt, pad@, first0) + rd_fields_body(
                        rema.drop_first(),
                        remb.drop_first(),
                        alt,
                        pad@,
                        false,
                    )));
                }
            },
            _ => {},
        }
        i += 1;
    }
    proof {
        assert(fa@.skip(i as int).len() == 0 || fb@.skip(i as int).len() == 0);
        assert(out@ + Seq::<char>::empty() =~= out@);
    }
    out
}

/// The diff body of a tuple pair.
fn diff_tuple_body(fa: &Vec<Option<Shape>>, fb: &Vec<Option<Shape>>, alt: bool, pad: &String) -> (
    out: String)
    ensures
        out@ == rd_tuple_body(fa@, fb@, alt, pad@, true),
    decreases fa@, fb@, 1int,
{
    let cp = child_pad(pad);
    let mut out = String::new();
    let mut first = true;
    let mut i: usize = 0;
    proof {
        assert(fa@.skip(0) =~= fa@);
        assert(fb@.skip(0) =~= fb@);
    }
    while i < fa.len() && i < fb.len()
        invariant
            i <= fa@.len(),
            i <= fb@.len(),
            cp@ == pad@ + "    "@,
            rd_tuple_body(fa@, fb@, alt, pad@, true) == out@ + rd_tuple_body(
                fa@.skip(i as int),
                fb@.skip(i as int),
                alt,
                pad@,
                first,
            ),
        decreases fa@.len() - i,
    {
        let ghost rema = fa@.skip(i as int);
        let ghost remb = fb@.skip(i as int);
        proof {
            assert(rema[0] == fa@[i as int]);
            assert(remb[0] == fb@[i as int]);
            assert(rema.drop_first() =~= fa@.skip(i as int + 1));
            assert(remb.drop_first() =~= fb@.skip(i as int + 1));
        }
        match (&fa[i], &fb[i]) {
            (Option::Some(va), Option::Some(vb)) => {
                let ghost out0 = out@;
                let ghost first0 = first;
                let vt = diff_string(va, vb, alt, &cp);
                append_item(&mut out, vt.as_str(), alt, pad, first);
                first = false;
                proof {
                    assert((out0 + item_piece(vt@, alt, pad@, first0)) + rd_tuple_body(
                        rema.drop_first(),
                        remb.drop_first(),
                        alt,
                        pad@,
                        false,
                    ) =~= out0 + (item_piece(vt@, alt, pad@, first0) + rd_tuple_body(
                        rema.drop_first(),
                        remb.drop_first(),
                        alt,
                        pad@,
                        false,
                    )));
                }
            },
            _ => {},
        }
        i += 1;
    }
    proof {
        assert(fa@.skip(i as int).len() == 0 || fb@.skip(i as int).len() == 0);
        assert(out@ + Seq::<char>::empty() =~= out@);
    }
    out
}

/// The diff body of a sequence pair: zip-longest with `(missing)` markers
/// for excess elements.
fn diff_seq_body(sa: &Vec<Shape>, sb: &Vec<Shape>, alt: bool, pad: &String) -> (out: String)
    ensures
        out@ == rd_seq_body(sa@, sb@, alt, pad@, true),
    decreases sa@, sb@, 1int,
{
    let cp = child_pad(pad);
    let mut out = String::new();
    let mut first = true;
    let mut i: usize = 0;
    let mut j: usize = 0;
    proof {
        assert(sa@.skip(0) =~= sa@);
        assert(sb@.skip(0) =~= sb@);
    }
    while i < sa.len() && j < sb.len()
        invariant
            i <= sa@.len(),
            j <= sb@.len(),
            cp@ == pad@ + "    "@,
            rd_seq_body(sa@, sb@, alt, pad@, true) == out@ + rd_seq_body(
                sa@.skip(i as int),
                sb@.skip(j as int),
                alt,
                pad@,
                first,
            ),
        decreases sa@.len() - i,
    {
        let ghost rema = sa@.skip(i as int);
        let ghost remb = sb@.skip(j as int);
        proof {
            assert(rema[0] == sa@[i as int]);
            assert(remb[0] == sb@[j as int]);
            assert(rema.drop_first() =~= sa@.skip(i as int + 1));
            assert(remb.drop_first() =~= sb@.skip(j as int + 1));
        }
        let ghost out0 = out@;
        let ghost first0 = first;
        let vt = diff_string(&sa[i], &sb[j], alt, &cp);
        append_item(&mut out, vt.as_str(), alt, pad, first);
        first = false;
        proof {
            assert((out0 + item_piece(vt@, alt, pad@, first0)) + rd_seq_body(
                rema.drop_first(),
                remb.drop_first(),
                alt,
                pad@,
                false,
            ) =~= out0 + (item_piece(vt@, alt, pad@, first0) + rd_seq_body(
                rema.drop_first(),
                remb.drop_first(),
                alt,
                pad@,
                false,
            )));
        }
        i += 1;
        j += 1;
    }
    while i < sa.len()
        invariant
            i <= sa@.len(),
            j == sb@.len() || i == sa@.len(),
            cp@ == pad@ + "    "@,
            rd_seq_body(sa@, sb@, alt, pad@, true) == out@ + rd_seq_body(
                sa@.skip(i as int),
                sb@.skip(j as int),
                alt,
                pad@,
                first,
            ),
        decreases sa@.len() - i,
    {
        let ghost rema = sa@.skip(i as int);
        proof {
            assert(rema[0] == sa@[i as int]);
            assert(rema.drop_first() =~= sa@.skip(i as int + 1));
            assert(sb@.skip(j as int).len() == 0);
        }
        let ghost out0 = out@;
        let ghost first0 = first;
        let vt = marker_left_string(&sa[i], alt, pad);
        append_item(&mut out, vt.as_str(), alt, pad, first);
        first = false;
        proof {
            assert((out0 + item_piece(vt@, alt, pad@, first0)) + rd_seq_body(
                rema.drop_first(),
                sb@.skip(j as int),
                alt,
                pad@,
                false,
            ) =~= out0 + (item_piece(vt@, alt, pad@, first0) + rd_seq_body(
                rema.drop_first(),
                sb@.skip(j as int),
                alt,
                pad@,
                false,
            )));
        }
        i += 1;
    }
    while j < sb.len()
        invariant
            i == sa@.len(),
            j <= sb@.len(),
            cp@ == pad@ + "    "@,
            rd_seq_body(sa@, sb@, alt, pad@, true) == out@ + rd_seq_body(
                sa@.skip(i as int),
                sb@.skip(j as int),
                alt,
                pad@,
                first,
            ),
        decreases sb@.len() - j,
    {
        let ghost remb = sb@.skip(j as int);
        proof {
            assert(remb[0] == sb@[j as int]);
            assert(remb.drop_first() =~= sb@.skip(j as int + 1));
            assert(sa@.skip(i as int).len() == 0);
        }
        let ghost out0 = out@;
        let ghost first0 = first;
        let vt = marker_right_string(&sb[j], alt, pad);
        append_item(&mut out, vt.as_str(), alt, pad, first);
        first = false;
        proof {
            assert((out0 + item_piece(vt@, alt, pad@, first0)) + rd_seq_body(
                sa@.skip(i as int),
                remb.drop_first(),
                alt,
                pad@,
                false,
            ) =~= out0 + (item_piece(vt@, alt, pad@, first0) + rd_seq_body(
                sa@.skip(i as int),
                remb.drop_first(),
                alt,
                pad@,
                false,
            )));
        }
        j += 1;
    }
    proof {
        assert(sa@.skip(i as int).len() == 0);
        assert(sb@.skip(j as int).len() == 0);
        assert(out@ + Seq::<char>::empty() =~= out@);
    }
    out
}

/// The diff body of an ordered set or map pair: merge-join over keys.
#[verifier::rlimit(60)]
fn diff_merge_body(s: &Vec<Entry>, t: &Vec<Entry>, keyed: bool, alt: bool, pad: &String) -> (out:
    String)
    ensures
        out@ == rd_merge_body(s@, t@, keyed, alt, pad@, true),
    decreases s@, t@, 1int,
{
    let cp = child_pad(pad);
    let mut out = String::new();
    let mut first = true;
    let mut i: usize = 0;
    let mut j: usize = 0;
    proof {
        assert(s@.skip(0) =~= s@);
        assert(t@.skip(0) =~= t@);
    }
    while i < s.len() || j < t.len()
        invariant
            i <= s@.len(),
            j <= t@.len(),
            cp@ == pad@ + "    "@,
            rd_merge_body(s@, t@, keyed, alt, pad@, true) == out@ + rd_merge_body(
                s@.skip(i as int),
                t@.skip(j as int),
                keyed,
                alt,
                pad@,
                first,
            ),
        decreases s@.len() - i + t@.len() - j,
    {
        let ghost rema = s@.skip(i as int);
        let ghost remb = t@.skip(j as int);
        proof {
            if i < s@.len() {
                assert(rema[0] == s@[i as int]);
                assert(rema.drop_first() =~= s@.skip(i as int + 1));
            }
            if j < t@.len() {
                assert(remb[0] == t@[j as int]);
                assert(remb.drop_first() =~= t@.skip(j as int + 1));
            }
        }
        let ghost out0 = out@;
        let ghost first0 = first;
        let take_left: bool = if i >= s.len() {
            false
        } else if j >= t.len() {
            true
        } else {
            s[i].key <= t[j].key
        };
        if take_left && j < t.len() && s[i].key == t[j].key {
            let vt = diff_string(&s[i].value, &t[j].value, alt, &cp);
            let mut txt = key_prefix_string(&s[i], keyed);
            txt.append(vt.as_str());
            proof {
                assert(txt@ =~= key_prefix(s@[i as int], keyed) + render_diff(
                    s@[i as int].value,
                    t@[j as int].value,
                    alt,
                    pad@ + "    "@,
                ));
            }
            append_item(&mut out, txt.as_str(), alt, pad, first);
            first = false;
            proof {
                assert((out0 + item_piece(txt@, alt, pad@, first0)) + rd_merge_body(
                    rema.drop_first(),
                    remb.drop_first(),
                    keyed,
                    alt,
                    pad@,
                    false,
                ) =~= out0 + (item_piece(txt@, alt, pad@, first0) + rd_merge_body(
                    rema.drop_first(),
                    remb.drop_first(),
                    keyed,
                    alt,
                    pad@,
                    false,
                )));
            }
            i += 1;
            j += 1;
        } else if take_left {
            let vt = marker_left_string(&s[i].value, alt, pad);
            let mut txt = key_prefix_string(&s[i], keyed);
            txt.append(vt.as_str());
            proof {
                assert(txt@ =~= key_prefix(s@[i as int], keyed) + marker_left_only(
                    s@[i as int].value,
                    alt,
                    pad@,
                ));
            }
            append_item(&mut out, txt.as_str(), alt, pad, first);
            first = false;
            proof {
                assert((out0 + item_piece(txt@, alt, pad@, first0)) + rd_merge_body(
                    rema.drop_first(),
                    remb,
                    keyed,
                    alt,
                    pad@,
                    false,
                ) =~= out0 + (item_piece(txt@, alt, pad@, first0) + rd_merge_body(
                    rema.drop_first(),
                    remb,
                    keyed,
                    alt,
                    pad@,
                    false,
                )));
            }
            i += 1;
        } else {
            let vt = marker_right_string(&t[j].value, alt, pad);
            let mut txt = key_prefix_string(&t[j], keyed);
            txt.append(vt.as_str());
            proof {
                assert(txt@ =~= key_prefix(t@[j as int], keyed) + marker_right_only(
                    t@[j as int].value,
                    alt,
                    pad@,
                ));
            }
            append_item(&mut out, txt.as_str(), alt, pad, first);
            first = false;
            proof {
                assert((out0 + item_piece(txt@, alt, pad@, first0)) + rd_merge_body(
                    rema,
                    remb.drop_first(),
                    keyed,
                    alt,
                    pad@,
                    false,
                ) =~= out0 + (item_piece(txt@, alt, pad@, first0) + rd_merge_body(
                    rema,
                    remb.drop_first(),
                    keyed,
                    alt,
                    pad@,
                    false,
                )));
            }
            j += 1;
        }
    }
    proof {
        assert(s@.skip(i as int).len() == 0);
        assert(t@.skip(j as int).len() == 0);
        assert(out@ + Seq::<char>::empty() =~= out@);
    }
    out
}

/// The diff body of an unordered set or map pair: intersection and
/// difference by key.
fn diff_unordered_body(s: &Vec<Entry>, t: &Vec<Entry>, keyed: bool, alt: bool, pad: &String) -> (
    out: String)
    ensures
        out@ == rd_unordered_left(s@, t@, keyed, alt, pad@, true) + rd_unordered_right(
            t@,
            s@,
            keyed,
            alt,
            pad@,
            s@.len() == 0,
        ),
    decreases s@, t@, 1int,
{
    let cp = child_pad(pad);
    let mut out = String::new();
    let mut first = true;
    let mut i: usize = 0;
    proof {
        assert(s@.skip(0) =~= s@);
    }
    while i < s.len()
        invariant
            i <= s@.len(),
            cp@ == pad@ + "    "@,
            first == (i == 0),
            rd_unordered_left(s@, t@, keyed, alt, pad@, true) == out@ + rd_unordered_left(
                s@.skip(i as int),
                t@,
                keyed,
                alt,
                pad@,
                first,
            ),
        decreases s@.len() - i,
    {
        let ghost rema = s@.skip(i as int);
        proof {
            assert(rema[0] == s@[i as int]);
            assert(rema.drop_first() =~= s@.skip(i as int + 1));
        }
        let ghost out0 = out@;
        let ghost first0 = first;
        let vt = match crate::detect::find_key(t, s[i].key) {
            Option::Some(j) => diff_string(&s[i].value, &t[j].value, alt, &cp),
            Option::None => marker_left_string(&s[i].value, alt, pad),
        };
        let mut txt = key_prefix_string(&s[i], keyed);
        txt.append(vt.as_str());
        append_item(&mut out, txt.as_str(), alt, pad, first);
        first = false;
        proof {
            assert(txt@ =~= key_prefix(s@[i as int], keyed) + vt@);
            assert((out0 + item_piece(txt@, alt, pad@, first0)) + rd_unordered_left(
                rema.drop_first(),
                t@,
                keyed,
                alt,
                pad@,
                false,
            ) =~= out0 + (item_piece(txt@, alt, pad@, first0) + rd_unordered_left(
                rema.drop_first(),
                t@,
                keyed,
                alt,
                pad@,
                false,
            )));
        }
        i += 1;
    }
    proof {
        assert(s@.skip(i as int).len() == 0);
        assert(out@ + Seq::<char>::empty() =~= out@);
        assert(t@.skip(0) =~= t@);
    }
    let ghost left_text = out@;
    let mut j: usize = 0;
    while j < t.len()
        invariant
            j <= t@.len(),
            cp@ == pad@ + "    "@,
            first == (s@.len() == 0 && !exists|m: int|
                0 <= m < j && find_entry(s@, (#[trigger] t@[m]).key) is None),
            left_text + rd_unordered_right(t@, s@, keyed, alt, pad@, s@.len() == 0) == out@
                + rd_unordered_right(t@.skip(j as int), s@, keyed, alt, pad@, first),
        decreases t@.len() - j,
    {
        let ghost remb = t@.skip(j as int);
        proof {
            assert(remb[0] == t@[j as int]);
            assert(remb.drop_first() =~= t@.skip(j as int + 1));
        }
        let ghost out0 = out@;
        let ghost first0 = first;
        match crate::detect::find_key(s, t[j].key) {
            Option::Some(_) => {},
            Option::None => {
                let vt = marker_right_string(&t[j].value, alt, pad);
                let mut txt = key_prefix_string(&t[j], keyed);
                txt.append(vt.as_str());
                append_item(&mut out, txt.as_str(), alt, pad, first);
                first = false;
                proof {
                    assert(txt@ =~= key_prefix(t@[j as int], keyed) + marker_right_only(
                        t@[j as int].value,
                        alt,
                        pad@,
                    ));
                    assert((out0 + item_piece(txt@, alt, pad@, first0)) + rd_unordered_right(
                        remb.drop_first(),
                        s@,
                        keyed,
                        alt,
                        pad@,
                        false,
                    ) =~= out0 + (item_piece(txt@, alt, pad@, first0) + rd_unordered_right(
                        remb.drop_first(),
                        s@,
                        keyed,
                        alt,
                        pad@,
                        false,
                    )));
                }
            },
        }
        j += 1;
    }
    proof {
        assert(t@.skip(j as int).len() == 0);
        assert(out@ + Seq::<char>::empty() =~= out@);
    }
    out
}

/// Whether an unordered pairing renders any item.
fn has_unordered_items(s: &Vec<Entry>, t: &Vec<Entry>) -> (r: bool)
    ensures
        r == unordered_has_items(s@, t@),
{
    if s.len() > 0 {
        return true;
    }
    let mut j: usize = 0;
    while j < t.len()
        invariant
            j <= t@.len(),
            forall|m: int| 0 <= m < j ==> !(find_entry(s@, (#[trigger] t@[m]).key) is None),
        decreases t@.len() - j,
    {
        match crate::detect::find_key(s, t[j].key) {
            Option::Some(_) => {},
            Option::None => {
                return true;
            },
        }
        j += 1;
    }
    false
}

/// Renders the two-sided diff of `a` and `b`.
fn diff_string(a: &Shape, b: &Shape, alt: bool, pad: &String) -> (out: String)
    ensures
        out@ == render_diff(*a, *b, alt, pad@),
    decreases *a, *b, 0int,
{
    if all_different(a, b) {
        marker_both_string(a, b, alt, pad)
    } else {
        match (a, b) {
            (Shape::Atom { text: ta }, Shape::Atom { text: tb }) => ta.clone(),
            (Shape::Newtype { name: na, inner: ia }, Shape::Newtype { name: nb, inner: ib }) => {
                if *na == *nb {
                    let cp = child_pad(pad);
                    let inner_text = diff_string(&**ia, &**ib, alt, &cp);
                    let mut body = String::new();
                    append_item(&mut body, inner_text.as_str(), alt, pad, true);
                    proof {
                        assert(body@ =~= item_piece(inner_text@, alt, pad@, true));
                    }
                    paren_wrap_string(na.as_str(), body.as_str(), true, alt, pad)
                } else {
                    marker_both_string(a, b, alt, pad)
                }
            },
            (Shape::Struct { name: na, fields: fa }, Shape::Struct { fields: fb, .. }) => {
                let body = diff_fields_body(fa, fb, alt, pad);
                let has = has_present_field(fa);
                brace_wrap_string(na.as_str(), body.as_str(), has, alt, pad)
            },
            (
                Shape::StructVariant { variant: va, fields: fa, .. },
                Shape::StructVariant { fields: fb, .. },
            ) => {
                let body = diff_fields_body(fa, fb, alt, pad);
                let has = has_present_field(fa);
                brace_wrap_string(va.as_str(), body.as_str(), has, alt, pad)
            },
            (Shape::Tuple { name: na, fields: fa }, Shape::Tuple { fields: fb, .. }) => {
                let body = diff_tuple_body(fa, fb, alt, pad);
                let has = has_present_opt(fa);
                paren_wrap_string(na.as_str(), body.as_str(), has, alt, pad)
            },
            (
                Shape::TupleVariant { variant: va, fields: fa, .. },
                Shape::TupleVariant { fields: fb, .. },
            ) => {
                let body = diff_tuple_body(fa, fb, alt, pad);
                let has = has_present_opt(fa);
                paren_wrap_string(va.as_str(), body.as_str(), has, alt, pad)
            },
            (Shape::Sequence { elems: ea }, Shape::Sequence { elems: eb }) => {
                let body = diff_seq_body(ea, eb, alt, pad);
                bracket_wrap_string(body.as_str(), ea.len() > 0 || eb.len() > 0, alt, pad)
            },
            (
                Shape::SetLike { ordered: oa, elems: ea },
                Shape::SetLike { ordered: ob, elems: eb },
            ) => {
                if *oa {
                    let body = diff_merge_body(ea, eb, false, alt, pad);
                    curly_wrap_string(body.as_str(), ea.len() > 0 || eb.len() > 0, alt, pad)
                } else {
                    let body = diff_unordered_body(ea, eb, false, alt, pad);
                    let has = has_unordered_items(ea, eb);
                    curly_wrap_string(body.as_str(), has, alt, pad)
                }
            },
            (
                Shape::MapLike { ordered: oa, entries: ea },
                Shape::MapLike { ordered: ob, entries: eb },
            ) => {
                if *oa {
                    let body = diff_merge_body(ea, eb, true, alt, pad);
                    curly_wrap_string(body.as_str(), ea.len() > 0 || eb.len() > 0, alt, pad)
                } else {
                    let body = diff_unordered_body(ea, eb, true, alt, pad);
                    let has = has_unordered_items(ea, eb);
                    curly_wrap_string(body.as_str(), has, alt, pad)
                }
            },
            _ => marker_both_string(a, b, alt, pad),
        }
    }
}

/// A pair of values that render as their two-sided diff.
pub struct DebugDiff(pub Shape, pub Shape);

impl DebugDiff {
    /// The compact, single-line rendering of the diff.
    pub fn compact(&self) -> (out: String)
        ensures
            out@ == render_diff(self.0, self.1, false, Seq::empty()),
    {
        let pad = String::new();
        diff_string(&self.0, &self.1, false, &pad)
    }

    /// The pretty, multi-line rendering of the diff, indented by four
    /// spaces per level.
    pub fn pretty(&self) -> (out: String)
        ensures
            out@ == render_diff(self.0, self.1, true, Seq::empty()),
    {
        let pad = String::new();
        diff_string(&self.0, &self.1, true, &pad)
    }

    /// The canonical rendering of the left-hand value alone.
    pub fn left_value(&self, alt: bool) -> (out: String)
        ensures
            out@ == render_value(self.0, alt, Seq::empty()),
    {
        let pad = String::new();
        value_string(&self.0, alt, &pad)
    }
}

/// Wraps two values into an object that renders the differences between
/// them, compactly or prettily.
pub fn debug_diff(a: Shape, b: Shape) -> (d: DebugDiff)
    ensures
        d == DebugDiff(a, b),
{
    DebugDiff(a, b)
}

/// Renderer reflexivity over struct fields.
proof fn lemma_render_fields_reflexive(fields: Seq<Field>, alt: bool, pad: Seq<char>, first: bool)
    requires
        forall|i: int| 0 <= i < fields.len() ==> crate::wf_field(#[trigger] fields[i]),
    ensures
        rd_fields_body(fields, fields, alt, pad, first) == rv_fields_body(fields, alt, pad, first),
    decreases fields, 1int, 0int,
{
    if fields.len() > 0 {
        assert forall|i: int| 0 <= i < fields.drop_first().len() implies crate::wf_field(
            #[trigger] fields.drop_first()[i],
        ) by {
            assert(fields.drop_first()[i] == fields[i + 1]);
        };
        match fields[0].value {
            Option::Some(v) => {
                assert(crate::wf_field(fields[0]));
                lemma_render_diff_reflexive(v, alt, pad + "    "@);
                lemma_render_fields_reflexive(fields.drop_first(), alt, pad, false);
            },
            Option::None => {
                lemma_render_fields_reflexive(fields.drop_first(), alt, pad, first);
            },
        }
    }
}

/// Renderer reflexivity over tuple fields.
proof fn lemma_render_tuple_reflexive(
    fields: Seq<Option<Shape>>,
    alt: bool,
    pad: Seq<char>,
    first: bool,
)
    requires
        forall|i: int| 0 <= i < fields.len() ==> crate::wf_opt(#[trigger] fields[i]),
    ensures
        rd_tuple_body(fields, fields, alt, pad, first) == rv_tuple_body(fields, alt, pad, first),
    decreases fields, 1int, 0int,
{
    if fields.len() > 0 {
        assert forall|i: int| 0 <= i < fields.drop_first().len() implies crate::wf_opt(
            #[trigger] fields.drop_first()[i],
        ) by {
            assert(fields.drop_first()[i] == fields[i + 1]);
        };
        match fields[0] {
            Option::Some(v) => {
                assert(crate::wf_opt(fields[0]));
                lemma_render_diff_reflexive(v, alt, pad + "    "@);
                lemma_render_tuple_reflexive(fields.drop_first(), alt, pad, false);
            },
            Option::None => {
                lemma_render_tuple_reflexive(fields.drop_first(), alt, pad, first);
            },
        }
    }
}

/// Renderer reflexivity over sequence elements.
proof fn lemma_render_seq_reflexive(elems: Seq<Shape>, alt: bool, pad: Seq<char>, first: bool)
    requires
        forall|i: int| 0 <= i < elems.len() ==> crate::wf(#[trigger] elems[i]),
    ensures
        rd_seq_body(elems, elems, alt, pad, first) == rv_seq_body(elems, alt, pad, first),
    decreases elems, 1int, 0int,
{
    if elems.len() > 0 {
        assert forall|i: int| 0 <= i < elems.drop_first().len() implies crate::wf(
            #[trigger] elems.drop_first()[i],
        ) by {
            assert(elems.drop_first()[i] == elems[i + 1]);
        };
        lemma_render_diff_reflexive(elems[0], alt, pad + "    "@);
        lemma_render_seq_reflexive(elems.drop_first(), alt, pad, false);
    }
}

/// Renderer reflexivity over merge-join pairing of an entry list with
/// itself.
proof fn lemma_render_merge_reflexive(
    entries: Seq<Entry>,
    keyed: bool,
    alt: bool,
    pad: Seq<char>,
    first: bool,
)
    requires
        forall|i: int| 0 <= i < entries.len() ==> crate::wf(#[trigger] entries[i].value),
    ensures
        rd_merge_body(entries, entries, keyed, alt, pad, first) == rv_entries_body(
            entries,
            keyed,
            alt,
            pad,
            first,
        ),
    decreases entries, 1int, 0int,
{
    if entries.len() > 0 {
        assert forall|i: int| 0 <= i < entries.drop_first().len() implies crate::wf(
            #[trigger] entries.drop_first()[i].value,
        ) by {
            assert(entries.drop_first()[i] == entries[i + 1]);
        };
        lemma_render_diff_reflexive(entries[0].value, alt, pad + "    "@);
        lemma_render_merge_reflexive(entries.drop_first(), keyed, alt, pad, false);
    }
}

/// Renderer reflexivity over the left half of unordered pairing: each
/// element finds itself.
proof fn lemma_render_uleft_reflexive(
    entries: Seq<Entry>,
    k: int,
    keyed: bool,
    alt: bool,
    pad: Seq<char>,
    first: bool,
)
    requires
        0 <= k <= entries.len(),
        crate::keys_distinct(entries),
        forall|i: int| 0 <= i < entries.len() ==> crate::wf(#[trigger] entries[i].value),
    ensures
        rd_unordered_left(entries.skip(k), entries, keyed, alt, pad, first) == rv_entries_body(
            entries.skip(k),
            keyed,
            alt,
            pad,
            first,
        ),
    decreases entries, 1int, entries.len() - k,
{
    if k < entries.len() {
        assert(entries.skip(k)[0] == entries[k]);
        assert(entries.skip(k).drop_first() =~= entries.skip(k + 1));
        crate::detect::lemma_find_entry_at(entries, entries[k].key, k);
        lemma_render_diff_reflexive(entries[k].value, alt, pad + "    "@);
        lemma_render_uleft_reflexive(entries, k + 1, keyed, alt, pad, false);
    } else {
        assert(entries.skip(k).len() == 0);
    }
}

/// The right half of unordered pairing of an entry list with itself is
/// empty: every key is found on the left.
proof fn lemma_render_uright_reflexive(
    entries: Seq<Entry>,
    k: int,
    keyed: bool,
    alt: bool,
    pad: Seq<char>,
    first: bool,
)
    requires
        0 <= k <= entries.len(),
        crate::keys_distinct(entries),
    ensures
        rd_unordered_right(entries.skip(k), entries, keyed, alt, pad, first) == Seq::<
            char,
        >::empty(),
    decreases entries.len() - k,
{
    if k < entries.len() {
        assert(entries.skip(k)[0] == entries[k]);
        assert(entries.skip(k).drop_first() =~= entries.skip(k + 1));
        crate::detect::lemma_find_entry_at(entries, entries[k].key, k);
        lemma_render_uright_reflexive(entries, k + 1, keyed, alt, pad, first);
    } else {
        assert(entries.skip(k).len() == 0);
    }
}

/// Reflexivity of the renderer: the diff of a well-formed value with
/// itself reads exactly as the value's own canonical rendering.
pub proof fn lemma_render_diff_reflexive(v: Shape, alt: bool, pad: Seq<char>)
    requires
        crate::wf(v),
    ensures
        render_diff(v, v, alt, pad) == render_value(v, alt, pad),
    decreases v, 0int, 0int,
{
    crate::detect::lemma_all_different_reflexive(v);
    match v {
        Shape::Atom { .. } => {},
        Shape::Newtype { name, inner } => {
            lemma_render_diff_reflexive(*inner, alt, pad + "    "@);
        },
        Shape::Struct { name, fields } => {
            lemma_render_fields_reflexive(fields@, alt, pad, true);
        },
        Shape::StructVariant { enum_name, variant, fields } => {
            lemma_render_fields_reflexive(fields@, alt, pad, true);
        },
        Shape::Tuple { name, fields } => {
            lemma_render_tuple_reflexive(fields@, alt, pad, true);
        },
        Shape::TupleVariant { enum_name, variant, fields } => {
            lemma_render_tuple_reflexive(fields@, alt, pad, true);
        },
        Shape::Sequence { elems } => {
            lemma_render_seq_reflexive(elems@, alt, pad, true);
        },
        Shape::SetLike { ordered, elems } => {
            if ordered {
                lemma_render_merge_reflexive(elems@, false, alt, pad, true);
            } else {
                assert(crate::keys_sorted(elems@) ==> crate::keys_distinct(elems@));
                assert(elems@.skip(0) =~= elems@);
                lemma_render_uleft_reflexive(elems@, 0, false, alt, pad, true);
                lemma_render_uright_reflexive(elems@, 0, false, alt, pad, elems@.len() == 0);
                assert(rd_unordered_left(elems@, elems@, false, alt, pad, true)
                    + rd_unordered_right(elems@, elems@, false, alt, pad, elems@.len() == 0)
                    =~= rv_entries_body(elems@, false, alt, pad, true));
                assert forall|j: int| 0 <= j < elems@.len() implies !(find_entry(
                    elems@,
                    (#[trigger] elems@[j]).key,
                ) is None) by {
                    crate::detect::lemma_find_entry_at(elems@, elems@[j].key, j);
                };
                assert(unordered_has_items(elems@, elems@) == (elems@.len() > 0));
            }
        },
        Shape::MapLike { ordered, entries } => {
            if ordered {
                lemma_render_merge_reflexive(entries@, true, alt, pad, true);
            } else {
                assert(entries@.skip(0) =~= entries@);
                lemma_render_uleft_reflexive(entries@, 0, true, alt, pad, true);
                lemma_render_uright_reflexive(entries@, 0, true, alt, pad, entries@.len() == 0);
                assert(rd_unordered_left(entries@, entries@, true, alt, pad, true)
                    + rd_unordered_right(entries@, entries@, true, alt, pad, entries@.len() == 0)
                    =~= rv_entries_body(entries@, true, alt, pad, true));
                assert forall|j: int| 0 <= j < entries@.len() implies !(find_entry(
                    entries@,
                    (#[trigger] entries@[j]).key,
                ) is None) by {
                    crate::detect::lemma_find_entry_at(entries@, entries@[j].key, j);
                };
                assert(unordered_has_items(entries@, entries@) == (entries@.len() > 0));
            }
        },
    }
}

} // verus!

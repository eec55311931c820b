//! The XUI XML writer: a parsed XUR as the XML of the XUI authoring format.
use vstd::prelude::*;

use crate::text::dec;
use crate::text::dec_value;
use crate::text::lemma_dec_denotes;
use crate::text::hex_pad;
use crate::text::hex_value;
use crate::text::is_lower_hex_digit;
use crate::text::lemma_hex_pad_8;
use crate::text::push_dec;
use crate::text::push_hex_pad;
use crate::text::push_str;
use crate::xur::bytes::be32_at;
use crate::xur::bytes::u32_at;
use crate::xur::group_view;
use crate::xur::keyframe_view;
use crate::xur::lemma_object_view;
use crate::xur::object_view;
use crate::xur::objects_view;
use crate::xur::path_view;
use crate::xur::timeline_view;
use crate::xur::Keyframe;
use crate::xur::NamedFrame;
use crate::xur::Object;
use crate::xur::SKeyframe;
use crate::xur::SObject;
use crate::xur::SPath;
use crate::xur::STimeline;
use crate::xur::STimelineData;
use crate::xur::Timeline;
use crate::xur::TimelineData;
use crate::xur::TimelineValue;
use crate::xur::KeyframePath;
use crate::xur::lemma_group_view;
use crate::xur::lemma_object_value_view;
use crate::xur::quaternion_at;
use crate::xur::string_at;
use crate::xur::value_view;
use crate::xur::vector_at;
use crate::xur::PropertyGroup;
use crate::xur::PropertyValue;
use crate::xur::SGroup;
use crate::xur::SValue;
use crate::xur::SXur;
use crate::xur::Xur;
use super::doc::atoms;
use super::doc::fl;
use super::doc::partially_escaped;
use super::doc::cleaned;
use super::doc::property_text;
use super::doc::put_float;
use super::doc::put_str;
use super::doc::put_text;
use super::doc::trim;
use super::doc::trim_str;
use super::doc::txt;
use super::doc::Atom;
use super::doc::XuiPiece;
use super::names::compound_array_prop;
use super::names::compound_names;
use super::names::format_timeline_prop;
use super::names::timeline_prop;
use super::names::get_compound_names;
use super::names::get_names_for_hierarchy_level;
use super::names::is_compound_array_prop;
use super::names::level_names;
use super::names::name_at;
use super::names::name_or_unknown;
use super::names::NameTable;

verus! {

// ---------------------------------------------------------------------------
// Building blocks
// ---------------------------------------------------------------------------

/// Both parts, one after the other, when both exist.
pub open spec fn cat(a: Option<Seq<Atom>>, b: Option<Seq<Atom>>) -> Option<Seq<Atom>> {
    match (a, b) {
        (Some(x), Some(y)) => Some(x + y),
        _ => None,
    }
}

pub proof fn lemma_cat_assoc(a: Seq<Atom>, b: Seq<Atom>, r: Option<Seq<Atom>>)
    ensures
        cat(Some(a), cat(Some(b), r)) == cat(Some(a + b), r),
{
    if let Some(x) = r {
        assert(a + (b + x) =~= (a + b) + x);
    }
}

/// The string with 1-based index `i`, or `d`.
pub open spec fn str_or(strings: Seq<Seq<char>>, i: u32, d: Seq<char>) -> Seq<char> {
    match string_at(strings, i) {
        Some(s) => s,
        None => d,
    }
}

fn string_or<'a>(xur: &'a Xur, index: u32, d: &'a str) -> (r: &'a str)
    ensures
        r@ == str_or(xur@.strings, index, d@),
{
    match xur.get_string(index) {
        Some(s) => s,
        None => d,
    }
}

pub open spec fn bool_text(b: bool) -> Seq<char> {
    if b {
        "true"@
    } else {
        "false"@
    }
}

fn push_bool(s: &mut String, b: bool)
    ensures
        final(s)@ == old(s)@ + bool_text(b),
{
    if b {
        push_str(s, "true");
    } else {
        push_str(s, "false");
    }
}

/// The ` index="i"` attribute of an array element.
pub open spec fn index_attr(ai: Option<usize>) -> Seq<char> {
    match ai {
        Some(i) => " index=\""@ + dec(i as nat) + "\""@,
        None => Seq::empty(),
    }
}

fn push_index_attr(s: &mut String, ai: Option<usize>)
    ensures
        final(s)@ == old(s)@ + index_attr(ai),
{
    match ai {
        Some(i) => {
            push_str(s, " index=\"");
            push_dec(s, i as u64);
            push_str(s, "\"");
        },
        None => {
            assert(old(s)@ + Seq::<char>::empty() =~= old(s)@);
        },
    }
}

/// Three floats separated by commas, between `open` and `close`.
pub open spec fn floats3(open: Seq<char>, v: (u32, u32, u32), close: Seq<char>) -> Seq<Atom> {
    txt(open) + fl(v.0) + txt(","@) + fl(v.1) + txt(","@) + fl(v.2) + txt(close)
}

/// Four floats separated by commas, between `open` and `close`.
pub open spec fn floats4(open: Seq<char>, v: (u32, u32, u32, u32), close: Seq<char>) -> Seq<Atom> {
    txt(open) + fl(v.0) + txt(","@) + fl(v.1) + txt(","@) + fl(v.2) + txt(","@) + fl(v.3) + txt(
        close,
    )
}

fn put_floats3(out: &mut Vec<XuiPiece>, open: String, v: (u32, u32, u32), close: String)
    ensures
        atoms(final(out)@) == atoms(old(out)@) + floats3(open@, v, close@),
{
    let ghost a = atoms(out@);
    put_text(out, open);
    put_float(out, v.0);
    put_str(out, ",");
    put_float(out, v.1);
    put_str(out, ",");
    put_float(out, v.2);
    put_text(out, close);
    assert(atoms(out@) =~= a + floats3(open@, v, close@));
}

fn put_floats4(out: &mut Vec<XuiPiece>, open: String, v: (u32, u32, u32, u32), close: String)
    ensures
        atoms(final(out)@) == atoms(old(out)@) + floats4(open@, v, close@),
{
    let ghost a = atoms(out@);
    put_text(out, open);
    put_float(out, v.0);
    put_str(out, ",");
    put_float(out, v.1);
    put_str(out, ",");
    put_float(out, v.2);
    put_str(out, ",");
    put_float(out, v.3);
    put_text(out, close);
    assert(atoms(out@) =~= a + floats4(open@, v, close@));
}

// ---------------------------------------------------------------------------
// Figure points
// ---------------------------------------------------------------------------

/// One point of a figure: six floats at `base`, each followed by a comma, then
/// the point type `0`.
pub open spec fn point_doc(pd: Seq<u8>, base: int) -> Seq<Atom> {
    fl(be32_at(pd, base)) + txt(","@) + fl(be32_at(pd, base + 4)) + txt(","@) + fl(
        be32_at(pd, base + 8),
    ) + txt(","@) + fl(be32_at(pd, base + 12)) + txt(","@) + fl(be32_at(pd, base + 16)) + txt(
        ","@,
    ) + fl(be32_at(pd, base + 20)) + txt(","@) + txt("0,"@)
}

/// Points `i..count` of the point data `pd` (24 bytes each), up to the first
/// one that is not all there.
pub open spec fn points_from(pd: Seq<u8>, i: int, count: int) -> Seq<Atom>
    decreases count - i,
{
    if i < 0 || i >= count || 24 * i + 24 > pd.len() {
        Seq::empty()
    } else {
        point_doc(pd, 24 * i) + points_from(pd, i + 1, count)
    }
}

/// A `Points` property: the CUST block at `offset` is a size word, then the
/// width and height, a word, the point count and the points. What cannot be
/// decoded is written as a `CUST[offset]` reference.
pub open spec fn points_doc(cust: Seq<u8>, offset: u32) -> Seq<Atom> {
    let off = offset as int;
    let unresolved = txt("<Points>CUST["@ + dec(offset as nat) + "]</Points>\n"@);
    if off + 12 > cust.len() {
        unresolved
    } else {
        let size = be32_at(cust, off) as int;
        let avail = cust.len() - off - 4;
        let blen = if size < avail {
            size
        } else {
            avail
        };
        let block = cust.subrange(off + 4, off + 4 + blen);
        if block.len() < 12 {
            unresolved
        } else {
            let count = be32_at(block, 8);
            txt("<Points>"@ + dec(count as nat) + ","@) + points_from(
                block.subrange(12, block.len() as int),
                0,
                count as int,
            ) + txt("</Points>\n"@)
        }
    }
}

fn write_point(pd: &[u8], base: usize, out: &mut Vec<XuiPiece>)
    requires
        base + 24 <= pd@.len(),
    ensures
        atoms(final(out)@) == atoms(old(out)@) + point_doc(pd@, base as int),
{
    let _n = pd.len();
    let ghost a = atoms(out@);
    put_float(out, u32_at(pd, base));
    put_str(out, ",");
    put_float(out, u32_at(pd, base + 4));
    put_str(out, ",");
    put_float(out, u32_at(pd, base + 8));
    put_str(out, ",");
    put_float(out, u32_at(pd, base + 12));
    put_str(out, ",");
    put_float(out, u32_at(pd, base + 16));
    put_str(out, ",");
    put_float(out, u32_at(pd, base + 20));
    put_str(out, ",");
    put_str(out, "0,");
    assert(atoms(out@) =~= a + point_doc(pd@, base as int));
}

fn write_points(xur: &Xur, offset: u32, out: &mut Vec<XuiPiece>)
    ensures
        atoms(final(out)@) == atoms(old(out)@) + points_doc(xur@.custom, offset),
{
    let cust = xur.custom;
    let off = offset as usize;
    let mut unresolved = String::new();
    push_str(&mut unresolved, "<Points>CUST[");
    push_dec(&mut unresolved, offset as u64);
    push_str(&mut unresolved, "]</Points>\n");
    if off as u64 + 12 > cust.len() as u64 {
        put_text(out, unresolved);
        return;
    }
    let block_size = u32_at(cust, off) as usize;
    let avail = cust.len() - off - 4;
    let blen = if block_size < avail {
        block_size
    } else {
        avail
    };
    let block = &cust[off + 4..off + 4 + blen];
    if block.len() < 12 {
        put_text(out, unresolved);
        return;
    }
    let point_count = u32_at(block, 8);
    let mut head = String::new();
    push_str(&mut head, "<Points>");
    push_dec(&mut head, point_count as u64);
    push_str(&mut head, ",");
    let ghost a = atoms(out@);
    put_text(out, head);
    let point_data = &block[12..block.len()];
    let ghost pd = point_data@;
    assert(pd =~= block@.subrange(12, block@.len() as int));
    let ghost whole = points_from(pd, 0, point_count as int);
    let ghost mut done: Seq<Atom> = Seq::empty();
    assert(atoms(out@) =~= a + txt(head@) + done);
    assert(whole =~= done + whole);
    let n = point_data.len();
    let mut i: u64 = 0;
    let mut base: u64 = 0;
    while i < point_count as u64
        invariant_except_break
            i <= point_count,
            base == 24 * i,
            n == pd.len(),
            pd == point_data@,
            whole == points_from(pd, 0, point_count as int),
            atoms(out@) == a + txt(head@) + done,
            whole == done + points_from(pd, i as int, point_count as int),
        ensures
            pd == point_data@,
            atoms(out@) == a + txt(head@) + whole,
        decreases point_count - i,
    {
        if base + 24 > n as u64 {
            assert(whole =~= done);
            break;
        }
        write_point(point_data, base as usize, out);
        proof {
            let d1 = done + point_doc(pd, base as int);
            assert(atoms(out@) =~= a + txt(head@) + d1);
            assert(whole =~= d1 + points_from(pd, i + 1, point_count as int));
            done = d1;
        }
        i = i + 1;
        base = base + 24;
    }
    put_str(out, "</Points>\n");
    assert(atoms(out@) =~= a + points_doc(xur@.custom, offset)) by {
        assert(block@ =~= cust@.subrange(off + 4, off + 4 + blen));
    }
}

// ---------------------------------------------------------------------------
// Properties
// ---------------------------------------------------------------------------

/// The number of bits of `mask` from `b` on that are (`arrays`) or are not
/// array properties of `names`.
pub open spec fn count_bits(mask: u32, names: NameTable, b: u32, arrays: bool) -> nat
    decreases 32 - b,
{
    if b >= 32 {
        0
    } else {
        (if mask & (1u32 << b) != 0 && compound_array_prop(names, b) == arrays {
            1nat
        } else {
            0nat
        }) + count_bits(mask, names, (b + 1) as u32, arrays)
    }
}

/// The name table of an object's property group: XuiElement's for level 0,
/// else the class's table of that level.
pub open spec fn group_names(class: Seq<char>, level: int) -> NameTable {
    if level == 0 {
        NameTable::Element
    } else {
        level_names(class, level)
    }
}

/// A property value written as the element `name` (with `index="i"` when it
/// is element `i` of an array). `None` when a compound inside has fewer
/// values than its non-array properties while it has array properties (the
/// element count per array would be negative).
pub open spec fn value_doc(x: SXur, name: Seq<char>, v: SValue, ai: Option<usize>) -> Option<
    Seq<Atom>,
>
    decreases v, 0int, 0int,
{
    let open = "<"@ + name + index_attr(ai) + ">"@;
    let close = "</"@ + name + ">\n"@;
    match v {
        SValue::Float(b) => Some(txt(open) + fl(b) + txt(close)),
        SValue::String(i) => Some(
            txt(open + partially_escaped(cleaned(str_or(x.strings, i, ""@))) + close),
        ),
        SValue::Bool(b) => Some(txt(open + bool_text(b) + close)),
        SValue::Unsigned(u) => Some(txt(open + dec(u as nat) + close)),
        SValue::Integer(u) => Some(txt(open + dec(u as nat) + close)),
        SValue::Color(c) => Some(txt(open + "0x"@ + hex_pad(c as nat, 8) + close)),
        SValue::Vector(i) => Some(
            match vector_at(x.vectors, i) {
                Some(v3) => floats3("<"@ + name + ">"@, v3, close),
                None => txt("<"@ + name + ">VECT["@ + dec(i as nat) + "]"@ + close),
            },
        ),
        SValue::Quaternion(i) => Some(
            match quaternion_at(x.quaternions, i) {
                Some(v4) => floats4("<"@ + name + ">"@, v4, close),
                None => txt("<"@ + name + ">QUAT["@ + dec(i as nat) + "]"@ + close),
            },
        ),
        SValue::Object(gs) => {
            let inner = if gs.len() == 0 {
                Some(Seq::empty())
            } else {
                cat(
                    cat(
                        Some(txt("<Properties>\n"@)),
                        groups_doc(x, gs, ""@, Some(compound_names(name))),
                    ),
                    Some(txt("</Properties>\n"@)),
                )
            };
            cat(cat(Some(txt("<"@ + name + ">\n"@)), inner), Some(txt(close)))
        },
        SValue::Custom(off) => Some(
            if name == "Points"@ {
                points_doc(x.custom, off)
            } else {
                txt("<"@ + name + ">CUST["@ + dec(off as nat) + "]"@ + close)
            },
        ),
        SValue::Unknown(b) => Some(
            txt(
                "<"@ + name + ">\n"@ + "<Properties>\n"@ + "<!-- raw: "@ + dec(b.len()) + " bytes -->\n"@
                    + "</Properties>\n"@ + close,
            ),
        ),
    }
}

/// Property groups, one after the other; the names of a group are those of
/// the compound (`compound`), or else those of `class` at the group's level.
pub open spec fn groups_doc(
    x: SXur,
    gs: Seq<SGroup>,
    class: Seq<char>,
    compound: Option<NameTable>,
) -> Option<Seq<Atom>>
    decreases gs, 0int, 0int,
{
    if gs.len() == 0 {
        Some(Seq::empty())
    } else {
        let g = gs[gs.len() - 1];
        let names = match compound {
            Some(t) => t,
            None => group_names(class, g.level),
        };
        cat(groups_doc(x, gs.subrange(0, gs.len() - 1), class, compound), group_doc(x, g, names))
    }
}

/// A property group: each set bit of the bitmask, lowest first, names one
/// value; an array bit names `elements_per_array` values, where the values
/// left after the non-array bits are shared out equally among the array bits.
pub open spec fn group_doc(x: SXur, g: SGroup, names: NameTable) -> Option<Seq<Atom>>
    decreases g, 34int, 0int,
{
    let non_array = count_bits(g.bitmask, names, 0, false);
    let array_bits = count_bits(g.bitmask, names, 0, true);
    if array_bits > 0 && g.values.len() < non_array {
        None
    } else {
        let per_array = if array_bits > 0 {
            ((g.values.len() - non_array) / (array_bits as int)) as nat
        } else {
            0nat
        };
        entries_doc(x, g, names, per_array, 0, 0, 0)
    }
}

/// The values of group `g` from value `vi` on, at bit `bit`, element `j` of
/// the current array; nothing more once the values run out.
pub open spec fn entries_doc(
    x: SXur,
    g: SGroup,
    names: NameTable,
    per_array: nat,
    bit: u32,
    vi: int,
    j: nat,
) -> Option<Seq<Atom>>
    decreases g, 33 - bit, per_array - j,
{
    if bit >= 32 || vi < 0 || vi >= g.values.len() {
        Some(Seq::empty())
    } else if g.bitmask & (1u32 << bit) == 0 {
        entries_doc(x, g, names, per_array, (bit + 1) as u32, vi, 0)
    } else {
        let name = name_or_unknown(names, bit as int);
        if compound_array_prop(names, bit) {
            if j < per_array && j <= usize::MAX {
                cat(
                    value_doc(x, name, g.values[vi], Some(j as usize)),
                    entries_doc(x, g, names, per_array, bit, vi + 1, j + 1),
                )
            } else {
                entries_doc(x, g, names, per_array, (bit + 1) as u32, vi, 0)
            }
        } else {
            cat(
                value_doc(x, name, g.values[vi], None),
                entries_doc(x, g, names, per_array, (bit + 1) as u32, vi + 1, 0),
            )
        }
    }
}

/// Writes a property value (see `value_doc`); `false` where the document
/// does not exist.
#[verifier::rlimit(60)]
#[verifier::spinoff_prover]
fn write_value(
    xur: &Xur,
    name: &str,
    v: &PropertyValue,
    ai: Option<usize>,
    out: &mut Vec<XuiPiece>,
) -> (ok: bool)
    ensures
        match value_doc(xur@, name@, value_view(*v), ai) {
            Some(d) => ok && atoms(final(out)@) == atoms(old(out)@) + d,
            None => !ok,
        },
    decreases *v, 0int,
{
    let ghost a = atoms(out@);
    let mut open = String::new();
    push_str(&mut open, "<");
    push_str(&mut open, name);
    push_index_attr(&mut open, ai);
    push_str(&mut open, ">");
    let mut close = String::new();
    push_str(&mut close, "</");
    push_str(&mut close, name);
    push_str(&mut close, ">\n");
    let mut lt = String::new();
    push_str(&mut lt, "<");
    push_str(&mut lt, name);
    let mut bare = String::new();
    push_str(&mut bare, lt.as_str());
    push_str(&mut bare, ">");
    match v {
        PropertyValue::Float(b) => {
            put_text(out, open);
            put_float(out, *b);
            put_text(out, close);
        },
        PropertyValue::String(idx) => {
            let s = string_or(xur, *idx, "");
            let escaped = property_text(s);
            push_str(&mut open, escaped.as_str());
            push_str(&mut open, close.as_str());
            put_text(out, open);
        },
        PropertyValue::Bool(b) => {
            push_bool(&mut open, *b);
            push_str(&mut open, close.as_str());
            put_text(out, open);
        },
        PropertyValue::Unsigned(u) => {
            push_dec(&mut open, *u as u64);
            push_str(&mut open, close.as_str());
            put_text(out, open);
        },
        PropertyValue::Integer(u) => {
            push_dec(&mut open, *u as u64);
            push_str(&mut open, close.as_str());
            put_text(out, open);
        },
        PropertyValue::Color(c) => {
            push_str(&mut open, "0x");
            push_hex_pad(&mut open, *c as u64, 8);
            push_str(&mut open, close.as_str());
            put_text(out, open);
        },
        PropertyValue::Vector(idx) => {
            match xur.get_vector(*idx) {
                Some(v3) => {
                    put_floats3(out, bare, v3, close);
                },
                None => {
                    push_str(&mut lt, ">VECT[");
                    push_dec(&mut lt, *idx as u64);
                    push_str(&mut lt, "]");
                    push_str(&mut lt, close.as_str());
                    put_text(out, lt);
                },
            }
        },
        PropertyValue::Quaternion(idx) => {
            match xur.get_quaternion(*idx) {
                Some(v4) => {
                    put_floats4(out, bare, v4, close);
                },
                None => {
                    push_str(&mut lt, ">QUAT[");
                    push_dec(&mut lt, *idx as u64);
                    push_str(&mut lt, "]");
                    push_str(&mut lt, close.as_str());
                    put_text(out, lt);
                },
            }
        },
        PropertyValue::Object(groups) => {
            proof {
                lemma_object_value_view(*groups);
            }
            let ghost gv = crate::xur::groups_view(groups@);
            let mut head = String::new();
            push_str(&mut head, "<");
            push_str(&mut head, name);
            push_str(&mut head, ">\n");
            put_text(out, head);
            if groups.len() > 0 {
                put_str(out, "<Properties>\n");
                let sub_names = get_compound_names(name);
                let ok = write_groups(xur, groups, "", Some(sub_names), out);
                if !ok {
                    return false;
                }
                put_str(out, "</Properties>\n");
            }
            put_text(out, close);
            proof {
                let d = value_doc(xur@, name@, value_view(*v), ai);
                if let Some(dd) = d {
                    assert(atoms(out@) =~= a + dd);
                }
            }
        },
        PropertyValue::Custom(offset) => {
            if str_eq_points(name) {
                write_points(xur, *offset, out);
            } else {
                push_str(&mut lt, ">CUST[");
                push_dec(&mut lt, *offset as u64);
                push_str(&mut lt, "]");
                push_str(&mut lt, close.as_str());
                put_text(out, lt);
            }
        },
        PropertyValue::Unknown(bytes) => {
            let mut t = String::new();
            push_str(&mut t, "<");
            push_str(&mut t, name);
            push_str(&mut t, ">\n");
            push_str(&mut t, "<Properties>\n");
            push_str(&mut t, "<!-- raw: ");
            push_dec(&mut t, bytes.len() as u64);
            push_str(&mut t, " bytes -->\n");
            push_str(&mut t, "</Properties>\n");
            push_str(&mut t, close.as_str());
            put_text(out, t);
        },
    }
    proof {
        let d = value_doc(xur@, name@, value_view(*v), ai);
        if let Some(dd) = d {
            assert(atoms(out@) =~= a + dd);
        }
    }
    true
}

fn str_eq_points(name: &str) -> (r: bool)
    ensures
        r == (name@ == "Points"@),
{
    crate::text::str_eq(name, "Points")
}

proof fn lemma_groups_none(
    x: SXur,
    gs: Seq<SGroup>,
    class: Seq<char>,
    compound: Option<NameTable>,
    k: int,
)
    requires
        0 <= k <= gs.len(),
        groups_doc(x, gs.subrange(0, k), class, compound) is None,
    ensures
        groups_doc(x, gs, class, compound) is None,
    decreases gs.len() - k,
{
    if k < gs.len() {
        let next = gs.subrange(0, k + 1);
        assert(next.subrange(0, k) =~= gs.subrange(0, k));
        lemma_groups_none(x, gs, class, compound, k + 1);
    } else {
        assert(gs.subrange(0, k) =~= gs);
    }
}

/// Writes property groups (see `groups_doc`).
fn write_groups(
    xur: &Xur,
    gs: &Vec<PropertyGroup>,
    class: &str,
    compound: Option<NameTable>,
    out: &mut Vec<XuiPiece>,
) -> (ok: bool)
    ensures
        match groups_doc(xur@, crate::xur::groups_view(gs@), class@, compound) {
            Some(d) => ok && atoms(final(out)@) == atoms(old(out)@) + d,
            None => !ok,
        },
    decreases gs, 0int,
{
    let ghost a = atoms(out@);
    let ghost gv = crate::xur::groups_view(gs@);
    let ghost mut done: Seq<Atom> = Seq::empty();
    let mut i: usize = 0;
    assert(atoms(out@) =~= a + done);
    assert(gv.subrange(0, 0) =~= Seq::<SGroup>::empty());
    while i < gs.len()
        invariant
            i <= gs@.len(),
            gv == crate::xur::groups_view(gs@),
            atoms(out@) == a + done,
            groups_doc(xur@, gv.subrange(0, i as int), class@, compound) == Some(done),
        decreases gs@.len() - i,
    {
        let g = &gs[i];
        let names = match compound {
            Some(t) => t,
            None => if g.level == 0 {
                NameTable::Element
            } else {
                get_names_for_hierarchy_level(class, g.level)
            },
        };
        let ghost before = atoms(out@);
        let ok = write_group(xur, g, names, out);
        proof {
            let sub = gv.subrange(0, (i + 1) as int);
            assert(sub.subrange(0, i as int) =~= gv.subrange(0, i as int));
            assert(sub[i as int] == group_view(*g));
        }
        if !ok {
            proof {
                lemma_groups_none(xur@, gv, class@, compound, (i + 1) as int);
            }
            return false;
        }
        proof {
            let d = group_doc(xur@, group_view(*g), names);
            done = done + d->0;
            assert(atoms(out@) =~= a + done);
        }
        i = i + 1;
    }
    assert(gv.subrange(0, gs@.len() as int) =~= gv);
    true
}

/// Writes one property group (see `group_doc`).
fn write_group(xur: &Xur, g: &PropertyGroup, names: NameTable, out: &mut Vec<XuiPiece>) -> (ok:
    bool)
    ensures
        match group_doc(xur@, group_view(*g), names) {
            Some(d) => ok && atoms(final(out)@) == atoms(old(out)@) + d,
            None => !ok,
        },
    decreases *g, 0int,
{
    proof {
        lemma_group_view(*g);
    }
    let ghost gv = group_view(*g);
    let mask = g.bitmask;
    let len = g.values.len();
    let mut non_array: usize = 0;
    let mut array_bits: usize = 0;
    let mut b: u32 = 0;
    while b < 32
        invariant
            b <= 32,
            non_array <= b,
            array_bits <= b,
            non_array + count_bits(mask, names, b, false) == count_bits(mask, names, 0, false),
            array_bits + count_bits(mask, names, b, true) == count_bits(mask, names, 0, true),
        decreases 32 - b,
    {
        if mask & (1u32 << b) != 0 {
            if is_compound_array_prop(names, b) {
                array_bits = array_bits + 1;
            } else {
                non_array = non_array + 1;
            }
        }
        b = b + 1;
    }
    if array_bits > 0 && len < non_array {
        return false;
    }
    let per_array: usize = if array_bits > 0 {
        (len - non_array) / array_bits
    } else {
        0
    };
    let ghost a = atoms(out@);
    let ghost whole = entries_doc(xur@, gv, names, per_array as nat, 0, 0, 0);
    let ghost mut done: Seq<Atom> = Seq::empty();
    assert(group_doc(xur@, gv, names) == whole);
    assert(atoms(out@) =~= a + done);
    assert(cat(Some(done), whole) == whole) by {
        if let Some(w) = whole {
            assert(done + w =~= w);
        }
    }
    let mut vi: usize = 0;
    let mut bit: u32 = 0;
    while bit < 32
        invariant
            bit <= 32,
            vi <= len,
            len == g.values@.len(),
            gv == group_view(*g),
            gv.values == crate::xur::values_view(g.values@),
            mask == gv.bitmask,
            atoms(out@) == a + done,
            whole == group_doc(xur@, gv, names),
            whole == cat(Some(done), entries_doc(xur@, gv, names, per_array as nat, bit, vi as int, 0)),
        decreases 32 - bit,
    {
        if vi < len && mask & (1u32 << bit) != 0 {
            let name = name_at(names, bit);
            if is_compound_array_prop(names, bit) {
                let mut j: usize = 0;
                while j < per_array && vi < len
                    invariant
                        bit < 32,
                        j <= per_array,
                        vi <= len,
                        len == g.values@.len(),
                        gv == group_view(*g),
                        gv.values == crate::xur::values_view(g.values@),
                        mask == gv.bitmask,
                        mask & (1u32 << bit) != 0,
                        compound_array_prop(names, bit),
                        name@ == name_or_unknown(names, bit as int),
                        atoms(out@) == a + done,
                        whole == group_doc(xur@, gv, names),
                        whole == cat(
                            Some(done),
                            entries_doc(xur@, gv, names, per_array as nat, bit, vi as int, j as nat),
                        ),
                    decreases per_array - j,
                {
                    let ghost before = atoms(out@);
                    let ok = write_value(xur, name, &g.values[vi], Some(j), out);
                    if !ok {
                        assert(entries_doc(
                            xur@,
                            gv,
                            names,
                            per_array as nat,
                            bit,
                            vi as int,
                            j as nat,
                        ) is None);
                        return false;
                    }
                    proof {
                        let d = value_doc(xur@, name@, gv.values[vi as int], Some(j));
                        let rest = entries_doc(
                            xur@,
                            gv,
                            names,
                            per_array as nat,
                            bit,
                            vi + 1,
                            (j + 1) as nat,
                        );
                        lemma_cat_assoc(done, d->0, rest);
                        done = done + d->0;
                        assert(atoms(out@) =~= a + done);
                    }
                    vi = vi + 1;
                    j = j + 1;
                }
            } else {
                let ok = write_value(xur, name, &g.values[vi], None, out);
                if !ok {
                    assert(entries_doc(xur@, gv, names, per_array as nat, bit, vi as int, 0) is None);
                    return false;
                }
                proof {
                    let d = value_doc(xur@, name@, gv.values[vi as int], None);
                    let rest = entries_doc(
                        xur@,
                        gv,
                        names,
                        per_array as nat,
                        (bit + 1) as u32,
                        vi + 1,
                        0,
                    );
                    lemma_cat_assoc(done, d->0, rest);
                    done = done + d->0;
                    assert(atoms(out@) =~= a + done);
                }
                vi = vi + 1;
            }
        }
        bit = bit + 1;
    }
    assert(done + Seq::<Atom>::empty() =~= done);
    true
}

// ---------------------------------------------------------------------------
// Timelines
// ---------------------------------------------------------------------------

/// A named frame: its name (not escaped), its time, and `stop` for command 1.
pub open spec fn named_frame_text(x: SXur, nf: NamedFrame) -> Seq<char> {
    "<NamedFrame>\n"@ + "<Name>"@ + str_or(x.strings, nf.name, ""@) + "</Name>\n"@ + "<Time>"@
        + dec(nf.time as nat) + "</Time>\n"@ + (if nf.command == 1 {
        "<Command>stop</Command>\n"@
    } else {
        Seq::empty()
    }) + "</NamedFrame>\n"@
}

pub open spec fn named_frames_text(x: SXur, nfs: Seq<NamedFrame>) -> Seq<char>
    decreases nfs.len(),
{
    if nfs.len() == 0 {
        Seq::empty()
    } else {
        named_frames_text(x, nfs.drop_last()) + named_frame_text(x, nfs.last())
    }
}

/// The `TimelineProp` element of a path of a timeline whose target has class
/// `tc`.
pub open spec fn path_text(tc: Seq<char>, p: SPath) -> Seq<char> {
    let (name, index) = timeline_prop(tc, p);
    match index {
        Some(i) => "<TimelineProp index=\""@ + dec(i as nat) + "\">"@ + name + "</TimelineProp>\n"@,
        None => "<TimelineProp>"@ + name + "</TimelineProp>\n"@,
    }
}

pub open spec fn paths_text(tc: Seq<char>, ps: Seq<SPath>) -> Seq<char>
    decreases ps.len(),
{
    if ps.len() == 0 {
        Seq::empty()
    } else {
        paths_text(tc, ps.drop_last()) + path_text(tc, ps.last())
    }
}

/// One keyframe value as a `Prop` element; strings are not escaped.
pub open spec fn tvalue_doc(x: SXur, v: TimelineValue) -> Seq<Atom> {
    let close = "</Prop>\n"@;
    match v {
        TimelineValue::Bool(b) => txt("<Prop>"@ + bool_text(b) + close),
        TimelineValue::Float(b) => txt("<Prop>"@) + fl(b) + txt(close),
        TimelineValue::Unsigned(u) => txt("<Prop>"@ + dec(u as nat) + close),
        TimelineValue::String(i) => txt("<Prop>"@ + str_or(x.strings, i, ""@) + close),
        TimelineValue::Color(c) => txt("<Prop>"@ + "0x"@ + hex_pad(c as nat, 8) + close),
        TimelineValue::Vector(i) => match vector_at(x.vectors, i) {
            Some(v3) => floats3("<Prop>"@, v3, close),
            None => txt("<Prop>VECT["@ + dec(i as nat) + "]"@ + close),
        },
        TimelineValue::Quaternion(i) => match quaternion_at(x.quaternions, i) {
            Some(v4) => floats4("<Prop>"@, v4, close),
            None => txt("<Prop>QUAT["@ + dec(i as nat) + "]"@ + close),
        },
    }
}

/// A color keyframe value is written as `<Prop>0x` followed by exactly eight
/// lowercase hexadecimal digits that denote the color, then `</Prop>`; that is
/// the text of a color property named `Prop`.
pub proof fn lemma_color_keyframe_text(x: SXur, c: u32)
    ensures
        exists|h: Seq<char>|
            {
                &&& h.len() == 8
                &&& forall|i: int| 0 <= i < 8 ==> is_lower_hex_digit(#[trigger] h[i])
                &&& hex_value(h) == c
                &&& tvalue_doc(x, TimelineValue::Color(c)) == txt(
                    "<Prop>0x"@ + h + "</Prop>\n"@,
                )
            },
        value_doc(x, "Prop"@, SValue::Color(c), None) == Some(
            tvalue_doc(x, TimelineValue::Color(c)),
        ),
{
    let h = hex_pad(c as nat, 8);
    lemma_hex_pad_8(c);
    reveal_strlit("<Prop>");
    reveal_strlit("0x");
    reveal_strlit("<Prop>0x");
    reveal_strlit("</Prop>\n");
    reveal_strlit("<");
    reveal_strlit("Prop");
    reveal_strlit(">");
    reveal_strlit("</");
    reveal_strlit(">\n");
    assert("<Prop>"@ + "0x"@ + h + "</Prop>\n"@ =~= "<Prop>0x"@ + h + "</Prop>\n"@);
    assert("<"@ + "Prop"@ + index_attr(None) + ">"@ =~= "<Prop>"@);
    assert("</"@ + "Prop"@ + ">\n"@ =~= "</Prop>\n"@);
    assert("<Prop>"@ + "0x"@ + h + "</Prop>\n"@ =~= "<"@ + "Prop"@ + index_attr(None) + ">"@
        + "0x"@ + h + ("</"@ + "Prop"@ + ">\n"@));
}

/// The property value that a keyframe value stands for.
pub open spec fn keyframe_as_property(v: TimelineValue) -> SValue {
    match v {
        TimelineValue::Bool(b) => SValue::Bool(b),
        TimelineValue::Float(b) => SValue::Float(b),
        TimelineValue::Unsigned(u) => SValue::Unsigned(u),
        TimelineValue::String(i) => SValue::String(i),
        TimelineValue::Color(c) => SValue::Color(c),
        TimelineValue::Vector(i) => SValue::Vector(i),
        TimelineValue::Quaternion(i) => SValue::Quaternion(i),
    }
}

/// A keyframe value other than a string is written exactly as a property of
/// the same value named `Prop` would be (strings differ: a keyframe string is
/// written as it is, a property string cleaned and escaped).
pub proof fn lemma_keyframe_value_as_property(x: SXur, v: TimelineValue)
    requires
        !(v is String),
    ensures
        value_doc(x, "Prop"@, keyframe_as_property(v), None) == Some(tvalue_doc(x, v)),
{
    reveal_strlit("<");
    reveal_strlit("Prop");
    reveal_strlit(">");
    reveal_strlit("</");
    reveal_strlit(">\n");
    reveal_strlit("<Prop>");
    reveal_strlit("</Prop>\n");
    reveal_strlit(">VECT[");
    reveal_strlit("<Prop>VECT[");
    reveal_strlit(">QUAT[");
    reveal_strlit("<Prop>QUAT[");
    assert("<"@ + "Prop"@ + index_attr(None) + ">"@ =~= "<Prop>"@);
    assert("<"@ + "Prop"@ + ">"@ =~= "<Prop>"@);
    assert("</"@ + "Prop"@ + ">\n"@ =~= "</Prop>\n"@);
    assert("<"@ + "Prop"@ + ">VECT["@ =~= "<Prop>VECT["@);
    assert("<"@ + "Prop"@ + ">QUAT["@ =~= "<Prop>QUAT["@);
    match v {
        TimelineValue::Color(c) => {
            assert("<Prop>"@ + "0x"@ + hex_pad(c as nat, 8) + "</Prop>\n"@ =~= "<Prop>"@ + "0x"@
                + hex_pad(c as nat, 8) + "</Prop>\n"@);
        },
        _ => {},
    }
}

/// A number keyframe value is written as `<Prop>`, its decimal digits
/// (without leading zeros), then `</Prop>`.
pub proof fn lemma_number_keyframe_text(x: SXur, u: u32)
    ensures
        exists|d: Seq<char>|
            {
                &&& d.len() >= 1
                &&& forall|i: int| 0 <= i < d.len() ==> '0' <= #[trigger] d[i] <= '9'
                &&& (d[0] == '0' ==> u == 0)
                &&& dec_value(d) == u
                &&& tvalue_doc(x, TimelineValue::Unsigned(u)) == txt("<Prop>"@ + d + "</Prop>\n"@)
            },
{
    lemma_dec_denotes(u as nat);
    let d = dec(u as nat);
    assert(tvalue_doc(x, TimelineValue::Unsigned(u)) == txt("<Prop>"@ + d + "</Prop>\n"@));
}

pub open spec fn tvalues_doc(x: SXur, vs: Seq<TimelineValue>) -> Seq<Atom>
    decreases vs.len(),
{
    if vs.len() == 0 {
        Seq::empty()
    } else {
        tvalues_doc(x, vs.drop_last()) + tvalue_doc(x, vs.last())
    }
}

/// The start of a keyframe: time, interpolation, and the ease parameters of
/// an eased (interpolation 2) keyframe.
pub open spec fn keyframe_head(k: SKeyframe) -> Seq<char> {
    "<KeyFrame>\n"@ + "<Time>"@ + dec(k.time as nat) + "</Time>\n"@ + "<Interpolation>"@ + dec(
        k.interpolation as nat,
    ) + "</Interpolation>\n"@ + (if k.interpolation == 2 {
        "<EaseIn>"@ + dec(k.ease[0] as nat) + "</EaseIn>\n"@ + "<EaseOut>"@ + dec(k.ease[1] as nat)
            + "</EaseOut>\n"@ + "<EaseScale>"@ + dec(k.ease[2] as nat) + "</EaseScale>\n"@
    } else {
        Seq::empty()
    })
}

pub open spec fn keyframe_doc(x: SXur, k: SKeyframe) -> Seq<Atom> {
    txt(keyframe_head(k)) + tvalues_doc(x, k.values) + txt("</KeyFrame>\n"@)
}

pub open spec fn keyframes_doc(x: SXur, ks: Seq<SKeyframe>) -> Seq<Atom>
    decreases ks.len(),
{
    if ks.len() == 0 {
        Seq::empty()
    } else {
        keyframes_doc(x, ks.drop_last()) + keyframe_doc(x, ks.last())
    }
}

/// An animated timeline: the target's id (trimmed), its paths, its
/// keyframes.
pub open spec fn timeline_doc(x: SXur, t: STimeline) -> Seq<Atom> {
    let tc = match t.target_class {
        Some(c) => c,
        None => ""@,
    };
    txt(
        "<Timeline>\n"@ + "<Id>"@ + trim(str_or(x.strings, t.target_name, ""@)) + "</Id>\n"@
            + paths_text(tc, t.paths),
    ) + keyframes_doc(x, t.keyframes) + txt("</Timeline>\n"@)
}

pub open spec fn timeline_docs(x: SXur, ts: Seq<STimeline>) -> Seq<Atom>
    decreases ts.len(),
{
    if ts.len() == 0 {
        Seq::empty()
    } else {
        timeline_docs(x, ts.drop_last()) + timeline_doc(x, ts.last())
    }
}

/// An object's `Timelines` element: its named frames, if any, then its
/// animated timelines.
pub open spec fn timelines_doc(x: SXur, td: STimelineData) -> Seq<Atom> {
    txt(
        "<Timelines>\n"@ + (if td.named_frames.len() > 0 {
            "<NamedFrames>\n"@ + named_frames_text(x, td.named_frames) + "</NamedFrames>\n"@
        } else {
            Seq::empty()
        }),
    ) + timeline_docs(x, td.timelines) + txt("</Timelines>\n"@)
}

fn push_named_frame(s: &mut String, xur: &Xur, nf: &NamedFrame)
    ensures
        final(s)@ == old(s)@ + named_frame_text(xur@, *nf),
{
    let mut t = String::new();
    push_str(&mut t, "<NamedFrame>\n");
    push_str(&mut t, "<Name>");
    push_str(&mut t, string_or(xur, nf.name, ""));
    push_str(&mut t, "</Name>\n");
    push_str(&mut t, "<Time>");
    push_dec(&mut t, nf.time as u64);
    push_str(&mut t, "</Time>\n");
    if nf.command == 1 {
        push_str(&mut t, "<Command>stop</Command>\n");
    } else {
        assert(t@ + Seq::<char>::empty() =~= t@);
    }
    push_str(&mut t, "</NamedFrame>\n");
    assert(t@ =~= named_frame_text(xur@, *nf));
    push_str(s, t.as_str());
}

fn push_path(s: &mut String, tc: &str, path: &KeyframePath)
    ensures
        final(s)@ == old(s)@ + path_text(tc@, path_view(*path)),
{
    let (name, index) = format_timeline_prop(tc, path);
    let mut t = String::new();
    match index {
        Some(i) => {
            push_str(&mut t, "<TimelineProp index=\"");
            push_dec(&mut t, i as u64);
            push_str(&mut t, "\">");
            push_str(&mut t, name.as_str());
            push_str(&mut t, "</TimelineProp>\n");
        },
        None => {
            push_str(&mut t, "<TimelineProp>");
            push_str(&mut t, name.as_str());
            push_str(&mut t, "</TimelineProp>\n");
        },
    }
    assert(t@ =~= path_text(tc@, path_view(*path)));
    push_str(s, t.as_str());
}

fn write_tvalue(xur: &Xur, v: TimelineValue, out: &mut Vec<XuiPiece>)
    ensures
        atoms(final(out)@) == atoms(old(out)@) + tvalue_doc(xur@, v),
{
    let ghost a = atoms(out@);
    let mut close = String::new();
    push_str(&mut close, "</Prop>\n");
    let mut t = String::new();
    push_str(&mut t, "<Prop>");
    match v {
        TimelineValue::Bool(b) => {
            push_bool(&mut t, b);
            push_str(&mut t, close.as_str());
            put_text(out, t);
        },
        TimelineValue::Float(b) => {
            put_text(out, t);
            put_float(out, b);
            put_text(out, close);
        },
        TimelineValue::Unsigned(u) => {
            push_dec(&mut t, u as u64);
            push_str(&mut t, close.as_str());
            put_text(out, t);
        },
        TimelineValue::String(i) => {
            push_str(&mut t, string_or(xur, i, ""));
            push_str(&mut t, close.as_str());
            put_text(out, t);
        },
        TimelineValue::Color(c) => {
            push_str(&mut t, "0x");
            push_hex_pad(&mut t, c as u64, 8);
            push_str(&mut t, close.as_str());
            put_text(out, t);
        },
        TimelineValue::Vector(i) => match xur.get_vector(i) {
            Some(v3) => {
                put_floats3(out, t, v3, close);
            },
            None => {
                let mut u = String::new();
                push_str(&mut u, "<Prop>VECT[");
                push_dec(&mut u, i as u64);
                push_str(&mut u, "]");
                push_str(&mut u, close.as_str());
                put_text(out, u);
            },
        },
        TimelineValue::Quaternion(i) => match xur.get_quaternion(i) {
            Some(v4) => {
                put_floats4(out, t, v4, close);
            },
            None => {
                let mut u = String::new();
                push_str(&mut u, "<Prop>QUAT[");
                push_dec(&mut u, i as u64);
                push_str(&mut u, "]");
                push_str(&mut u, close.as_str());
                put_text(out, u);
            },
        },
    }
    assert(atoms(out@) =~= a + tvalue_doc(xur@, v));
}

fn write_keyframe(xur: &Xur, k: &Keyframe, out: &mut Vec<XuiPiece>)
    ensures
        atoms(final(out)@) == atoms(old(out)@) + keyframe_doc(xur@, keyframe_view(*k)),
{
    let ghost a = atoms(out@);
    let ghost kv = keyframe_view(*k);
    let mut t = String::new();
    push_str(&mut t, "<KeyFrame>\n");
    push_str(&mut t, "<Time>");
    push_dec(&mut t, k.time as u64);
    push_str(&mut t, "</Time>\n");
    push_str(&mut t, "<Interpolation>");
    push_dec(&mut t, k.interpolation as u64);
    push_str(&mut t, "</Interpolation>\n");
    if k.interpolation == 2 {
        push_str(&mut t, "<EaseIn>");
        push_dec(&mut t, k.ease[0] as u64);
        push_str(&mut t, "</EaseIn>\n");
        push_str(&mut t, "<EaseOut>");
        push_dec(&mut t, k.ease[1] as u64);
        push_str(&mut t, "</EaseOut>\n");
        push_str(&mut t, "<EaseScale>");
        push_dec(&mut t, k.ease[2] as u64);
        push_str(&mut t, "</EaseScale>\n");
    } else {
        assert(t@ + Seq::<char>::empty() =~= t@);
    }
    assert(t@ =~= keyframe_head(kv));
    put_text(out, t);
    let ghost b = atoms(out@);
    let mut i: usize = 0;
    while i < k.values.len()
        invariant
            i <= k.values@.len(),
            kv == keyframe_view(*k),
            atoms(out@) == b + tvalues_doc(xur@, kv.values.subrange(0, i as int)),
        decreases k.values@.len() - i,
    {
        write_tvalue(xur, k.values[i], out);
        proof {
            let sub = kv.values.subrange(0, (i + 1) as int);
            assert(sub.drop_last() =~= kv.values.subrange(0, i as int));
            assert(atoms(out@) =~= b + tvalues_doc(xur@, sub));
        }
        i = i + 1;
    }
    assert(kv.values.subrange(0, kv.values.len() as int) =~= kv.values);
    put_str(out, "</KeyFrame>\n");
    assert(atoms(out@) =~= a + keyframe_doc(xur@, kv));
}

fn write_timeline(xur: &Xur, t: &Timeline, out: &mut Vec<XuiPiece>)
    ensures
        atoms(final(out)@) == atoms(old(out)@) + timeline_doc(xur@, timeline_view(*t)),
{
    let ghost a = atoms(out@);
    let ghost tv = timeline_view(*t);
    let mut head = String::new();
    push_str(&mut head, "<Timeline>\n");
    push_str(&mut head, "<Id>");
    let id = trim_str(string_or(xur, t.target_name, ""));
    push_str(&mut head, id.as_str());
    push_str(&mut head, "</Id>\n");
    let tc: &str = match &t.target_class {
        Some(c) => c.as_str(),
        None => "",
    };
    let ghost start = head@;
    let mut i: usize = 0;
    while i < t.paths.len()
        invariant
            i <= t.paths@.len(),
            tv == timeline_view(*t),
            head@ == start + paths_text(tc@, tv.paths.subrange(0, i as int)),
        decreases t.paths@.len() - i,
    {
        push_path(&mut head, tc, &t.paths[i]);
        proof {
            let sub = tv.paths.subrange(0, (i + 1) as int);
            assert(sub.drop_last() =~= tv.paths.subrange(0, i as int));
            assert(head@ =~= start + paths_text(tc@, sub));
        }
        i = i + 1;
    }
    assert(tv.paths.subrange(0, tv.paths.len() as int) =~= tv.paths);
    put_text(out, head);
    let ghost b = atoms(out@);
    let mut k: usize = 0;
    while k < t.keyframes.len()
        invariant
            k <= t.keyframes@.len(),
            tv == timeline_view(*t),
            atoms(out@) == b + keyframes_doc(xur@, tv.keyframes.subrange(0, k as int)),
        decreases t.keyframes@.len() - k,
    {
        write_keyframe(xur, &t.keyframes[k], out);
        proof {
            let sub = tv.keyframes.subrange(0, (k + 1) as int);
            assert(sub.drop_last() =~= tv.keyframes.subrange(0, k as int));
            assert(atoms(out@) =~= b + keyframes_doc(xur@, sub));
        }
        k = k + 1;
    }
    assert(tv.keyframes.subrange(0, tv.keyframes.len() as int) =~= tv.keyframes);
    put_str(out, "</Timeline>\n");
    assert(atoms(out@) =~= a + timeline_doc(xur@, tv));
}

fn write_timelines(xur: &Xur, tl: &TimelineData, out: &mut Vec<XuiPiece>)
    ensures
        atoms(final(out)@) == atoms(old(out)@) + timelines_doc(
            xur@,
            crate::xur::timeline_data_view(*tl),
        ),
{
    let ghost a = atoms(out@);
    let ghost td = crate::xur::timeline_data_view(*tl);
    let mut head = String::new();
    push_str(&mut head, "<Timelines>\n");
    if tl.named_frames.len() > 0 {
        let mut frames = String::new();
        push_str(&mut frames, "<NamedFrames>\n");
        let ghost start = frames@;
        let mut i: usize = 0;
        while i < tl.named_frames.len()
            invariant
                i <= tl.named_frames@.len(),
                td == crate::xur::timeline_data_view(*tl),
                frames@ == start + named_frames_text(xur@, td.named_frames.subrange(0, i as int)),
            decreases tl.named_frames@.len() - i,
        {
            push_named_frame(&mut frames, xur, &tl.named_frames[i]);
            proof {
                let sub = td.named_frames.subrange(0, (i + 1) as int);
                assert(sub.drop_last() =~= td.named_frames.subrange(0, i as int));
                assert(frames@ =~= start + named_frames_text(xur@, sub));
            }
            i = i + 1;
        }
        assert(td.named_frames.subrange(0, td.named_frames.len() as int) =~= td.named_frames);
        push_str(&mut frames, "</NamedFrames>\n");
        push_str(&mut head, frames.as_str());
    } else {
        assert(head@ + Seq::<char>::empty() =~= head@);
    }
    put_text(out, head);
    let ghost b = atoms(out@);
    let mut k: usize = 0;
    while k < tl.timelines.len()
        invariant
            k <= tl.timelines@.len(),
            td == crate::xur::timeline_data_view(*tl),
            atoms(out@) == b + timeline_docs(xur@, td.timelines.subrange(0, k as int)),
        decreases tl.timelines@.len() - k,
    {
        write_timeline(xur, &tl.timelines[k], out);
        proof {
            let sub = td.timelines.subrange(0, (k + 1) as int);
            assert(sub.drop_last() =~= td.timelines.subrange(0, k as int));
            assert(atoms(out@) =~= b + timeline_docs(xur@, sub));
        }
        k = k + 1;
    }
    assert(td.timelines.subrange(0, td.timelines.len() as int) =~= td.timelines);
    put_str(out, "</Timelines>\n");
    assert(atoms(out@) =~= a + timelines_doc(xur@, td));
}

// ---------------------------------------------------------------------------
// Objects
// ---------------------------------------------------------------------------

/// The opening tag of an object element, with the XUI version on the root.
/// The class of an object without one is `Unknown`.
pub open spec fn object_open(x: SXur, o: SObject, is_root: bool) -> Seq<char> {
    let class = str_or(x.strings, o.class_name, "Unknown"@);
    if is_root {
        "<"@ + class + " version=\""@ + hex_pad(x.header.xui_version as nat, 4) + "\">\n"@
    } else {
        "<"@ + class + ">\n"@
    }
}

/// The `Properties` element of an object, when it has properties.
pub open spec fn object_props(x: SXur, o: SObject) -> Option<Seq<Atom>> {
    if o.properties.len() == 0 {
        Some(Seq::empty())
    } else {
        cat(
            cat(
                Some(txt("<Properties>\n"@)),
                groups_doc(x, o.properties, str_or(x.strings, o.class_name, ""@), None),
            ),
            Some(txt("</Properties>\n"@)),
        )
    }
}

/// The end of an object element: its timelines, if any, and the closing tag.
pub open spec fn object_close(x: SXur, o: SObject) -> Seq<Atom> {
    let class = str_or(x.strings, o.class_name, "Unknown"@);
    let tl = match o.timelines {
        Some(t) => timelines_doc(x, t),
        None => Seq::empty(),
    };
    tl + txt("</"@ + class + ">\n"@)
}

/// An object element: the opening tag, its properties, its children, its
/// timelines, the closing tag.
pub open spec fn object_doc(x: SXur, o: SObject, is_root: bool) -> Option<Seq<Atom>>
    decreases o, 0int,
{
    cat(
        cat(cat(Some(txt(object_open(x, o, is_root))), object_props(x, o)), children_doc(x, o.children)),
        Some(object_close(x, o)),
    )
}

/// Child objects, one after the other.
pub open spec fn children_doc(x: SXur, cs: Seq<SObject>) -> Option<Seq<Atom>>
    decreases cs, 0int,
{
    if cs.len() == 0 {
        Some(Seq::empty())
    } else {
        cat(children_doc(x, cs.subrange(0, cs.len() - 1)), object_doc(x, cs[cs.len() - 1], false))
    }
}

/// The XUI document of a XUR: its root object.
pub open spec fn xui_doc(x: SXur) -> Option<Seq<Atom>> {
    object_doc(x, x.root, true)
}

proof fn lemma_children_none(x: SXur, cs: Seq<SObject>, k: int)
    requires
        0 <= k <= cs.len(),
        children_doc(x, cs.subrange(0, k)) is None,
    ensures
        children_doc(x, cs) is None,
    decreases cs.len() - k,
{
    if k < cs.len() {
        let next = cs.subrange(0, k + 1);
        assert(next.subrange(0, k) =~= cs.subrange(0, k));
        lemma_children_none(x, cs, k + 1);
    } else {
        assert(cs.subrange(0, k) =~= cs);
    }
}

fn write_children(xur: &Xur, children: &Vec<Object>, out: &mut Vec<XuiPiece>) -> (ok: bool)
    ensures
        match children_doc(xur@, objects_view(children@)) {
            Some(d) => ok && atoms(final(out)@) == atoms(old(out)@) + d,
            None => !ok,
        },
    decreases children, 0int,
{
    let ghost a = atoms(out@);
    let ghost cs = objects_view(children@);
    let ghost mut done: Seq<Atom> = Seq::empty();
    assert(atoms(out@) =~= a + done);
    assert(cs.subrange(0, 0) =~= Seq::<SObject>::empty());
    let mut i: usize = 0;
    while i < children.len()
        invariant
            i <= children@.len(),
            cs == objects_view(children@),
            atoms(out@) == a + done,
            children_doc(xur@, cs.subrange(0, i as int)) == Some(done),
        decreases children@.len() - i,
    {
        let ok = write_object(xur, &children[i], false, out);
        proof {
            let sub = cs.subrange(0, (i + 1) as int);
            assert(sub.subrange(0, i as int) =~= cs.subrange(0, i as int));
            assert(sub[i as int] == object_view(children@[i as int]));
        }
        if !ok {
            proof {
                lemma_children_none(xur@, cs, (i + 1) as int);
            }
            return false;
        }
        proof {
            let d = object_doc(xur@, object_view(children@[i as int]), false);
            done = done + d->0;
            assert(atoms(out@) =~= a + done);
        }
        i = i + 1;
    }
    assert(cs.subrange(0, children@.len() as int) =~= cs);
    true
}

fn write_object_open(xur: &Xur, obj: &Object, is_root: bool, out: &mut Vec<XuiPiece>)
    ensures
        atoms(final(out)@) == atoms(old(out)@) + txt(object_open(xur@, object_view(*obj), is_root)),
{
    let class = string_or(xur, obj.class_name, "Unknown");
    let mut open = String::new();
    push_str(&mut open, "<");
    push_str(&mut open, class);
    if is_root {
        push_str(&mut open, " version=\"");
        push_hex_pad(&mut open, xur.header.xui_version as u64, 4);
        push_str(&mut open, "\">\n");
    } else {
        push_str(&mut open, ">\n");
    }
    put_text(out, open);
}

fn write_object_props(xur: &Xur, obj: &Object, out: &mut Vec<XuiPiece>) -> (ok: bool)
    ensures
        match object_props(xur@, object_view(*obj)) {
            Some(d) => ok && atoms(final(out)@) == atoms(old(out)@) + d,
            None => !ok,
        },
{
    let ghost a = atoms(out@);
    if obj.properties.len() == 0 {
        assert(atoms(out@) =~= a + Seq::<Atom>::empty());
        return true;
    }
    put_str(out, "<Properties>\n");
    let names_class = string_or(xur, obj.class_name, "");
    let ok = write_groups(xur, &obj.properties, names_class, None, out);
    if !ok {
        return false;
    }
    put_str(out, "</Properties>\n");
    proof {
        if let Some(d) = object_props(xur@, object_view(*obj)) {
            assert(atoms(out@) =~= a + d);
        }
    }
    true
}

fn write_object_close(xur: &Xur, obj: &Object, out: &mut Vec<XuiPiece>)
    ensures
        atoms(final(out)@) == atoms(old(out)@) + object_close(xur@, object_view(*obj)),
{
    let ghost a = atoms(out@);
    match &obj.timelines {
        Some(tl) => {
            write_timelines(xur, tl, out);
        },
        None => {
            assert(atoms(out@) =~= a + Seq::<Atom>::empty());
        },
    }
    let class = string_or(xur, obj.class_name, "Unknown");
    let mut close = String::new();
    push_str(&mut close, "</");
    push_str(&mut close, class);
    push_str(&mut close, ">\n");
    put_text(out, close);
    assert(atoms(out@) =~= a + object_close(xur@, object_view(*obj)));
}

/// Writes an object element (see `object_doc`); `false` where the document
/// does not exist.
fn write_object(xur: &Xur, obj: &Object, is_root: bool, out: &mut Vec<XuiPiece>) -> (ok: bool)
    ensures
        match object_doc(xur@, object_view(*obj), is_root) {
            Some(d) => ok && atoms(final(out)@) == atoms(old(out)@) + d,
            None => !ok,
        },
    decreases *obj, 0int,
{
    proof {
        lemma_object_view(*obj);
    }
    let ghost a = atoms(out@);
    let ghost o = object_view(*obj);
    write_object_open(xur, obj, is_root, out);
    let ghost b = atoms(out@);
    let ok = write_object_props(xur, obj, out);
    if !ok {
        return false;
    }
    let ghost c = atoms(out@);
    let ok = write_children(xur, &obj.children, out);
    if !ok {
        return false;
    }
    let ghost e = atoms(out@);
    write_object_close(xur, obj, out);
    proof {
        let open = txt(object_open(xur@, o, is_root));
        let p = object_props(xur@, o)->0;
        let ch = children_doc(xur@, o.children)->0;
        let cl = object_close(xur@, o);
        assert(atoms(out@) =~= a + (((open + p) + ch) + cl));
    }
    true
}

/// Whether the XUR can be written: no compound has fewer values than its
/// non-array properties while it has array properties.
pub fn is_writable(xur: &Xur) -> (r: bool)
    ensures
        r == (xui_doc(xur@) is Some),
{
    let mut scratch: Vec<XuiPiece> = Vec::new();
    write_object(xur, &xur.root, true, &mut scratch)
}

/// Writes a XUR as XUI XML; the floats are left as bit patterns for the
/// caller to render with six decimals.
pub fn to_xui(xur: &Xur) -> (r: Vec<XuiPiece>)
    requires
        xui_doc(xur@) is Some,
    ensures
        atoms(r@) == xui_doc(xur@)->0,
{
    let mut out: Vec<XuiPiece> = Vec::new();
    assert(atoms(out@) =~= Seq::<Atom>::empty());
    let _ok = write_object(xur, &xur.root, true, &mut out);
    assert(Seq::<Atom>::empty() + xui_doc(xur@)->0 =~= xui_doc(xur@)->0);
    out
}

/// The XUI document is one element, the root object's: it starts with the
/// root's opening tag and ends with its closing tag.
pub proof fn lemma_document_is_root_element(x: SXur)
    requires
        xui_doc(x) is Some,
    ensures
        ({
            let d = xui_doc(x)->0;
            let class = str_or(x.strings, x.root.class_name, "Unknown"@);
            let open = txt("<"@ + class);
            let close = txt("</"@ + class + ">\n"@);
            &&& d.len() >= open.len() + close.len()
            &&& d.subrange(0, open.len() as int) == open
            &&& d.subrange(d.len() - close.len(), d.len() as int) == close
        }),
{
    let o = x.root;
    let d = xui_doc(x)->0;
    let class = str_or(x.strings, o.class_name, "Unknown"@);
    let open_text = object_open(x, o, true);
    let tl = match o.timelines {
        Some(t) => timelines_doc(x, t),
        None => Seq::empty(),
    };
    let close = txt("</"@ + class + ">\n"@);
    let p = object_props(x, o)->0;
    let c = children_doc(x, o.children)->0;
    assert(d == txt(open_text) + p + c + (tl + close));
    let open = txt("<"@ + class);
    let rest = " version=\""@ + hex_pad(x.header.xui_version as nat, 4) + "\">\n"@;
    assert(open_text =~= ("<"@ + class) + rest);
    super::doc::lemma_txt_add("<"@ + class, rest);
    assert(d.subrange(0, open.len() as int) =~= open);
    assert(d.subrange(d.len() - close.len(), d.len() as int) =~= close);
}

// ---------------------------------------------------------------------------
// When a document exists
// ---------------------------------------------------------------------------

/// A group has, when it has a gradient-array bit (2 or 3), at least as many
/// values as it has other set bits. Under any name table the writer's element
/// count per array is then defined.
pub open spec fn group_fits(g: SGroup) -> bool {
    count_bits(g.bitmask, NameTable::Gradient, 0, true) > 0 ==> g.values.len() >= count_bits(
        g.bitmask,
        NameTable::Gradient,
        0,
        false,
    )
}

/// Every group inside `v` fits.
pub open spec fn value_fits(v: SValue) -> bool
    decreases v, 0int,
{
    match v {
        SValue::Object(gs) => groups_fit(gs),
        _ => true,
    }
}

/// Every group of `gs`, and every group inside them, fits.
pub open spec fn groups_fit(gs: Seq<SGroup>) -> bool
    decreases gs, 0int,
{
    if gs.len() == 0 {
        true
    } else {
        groups_fit(gs.subrange(0, gs.len() - 1)) && group_fits_deep(gs[gs.len() - 1])
    }
}

/// `g` and every group inside its values fit.
pub open spec fn group_fits_deep(g: SGroup) -> bool
    decreases g, 0int,
{
    group_fits(g) && values_fit(g.values)
}

/// Every group inside the values `vs` fits.
pub open spec fn values_fit(vs: Seq<SValue>) -> bool
    decreases vs, 0int,
{
    if vs.len() == 0 {
        true
    } else {
        values_fit(vs.subrange(0, vs.len() - 1)) && value_fits(vs[vs.len() - 1])
    }
}

/// Every group of `o` and of its descendants fits.
pub open spec fn object_fits(o: SObject) -> bool
    decreases o, 0int,
{
    groups_fit(o.properties) && children_fit(o.children)
}

pub open spec fn children_fit(cs: Seq<SObject>) -> bool
    decreases cs, 0int,
{
    if cs.len() == 0 {
        true
    } else {
        children_fit(cs.subrange(0, cs.len() - 1)) && object_fits(cs[cs.len() - 1])
    }
}

proof fn lemma_values_fit_at(vs: Seq<SValue>, k: int)
    requires
        values_fit(vs),
        0 <= k < vs.len(),
    ensures
        value_fits(vs[k]),
    decreases vs.len(),
{
    if k < vs.len() - 1 {
        let pre = vs.subrange(0, vs.len() - 1);
        lemma_values_fit_at(pre, k);
        assert(pre[k] == vs[k]);
    }
}

proof fn lemma_no_array_bits(mask: u32, names: NameTable, b: u32)
    requires
        names != NameTable::Gradient,
    ensures
        count_bits(mask, names, b, true) == 0,
    decreases 32 - b,
{
    if b < 32 {
        lemma_no_array_bits(mask, names, (b + 1) as u32);
    }
}

proof fn lemma_value_doc_some(x: SXur, name: Seq<char>, v: SValue, ai: Option<usize>)
    requires
        value_fits(v),
    ensures
        value_doc(x, name, v, ai) is Some,
    decreases v, 0int, 0int,
{
    if let SValue::Object(gs) = v {
        if gs.len() > 0 {
            lemma_groups_doc_some(x, gs, ""@, Some(compound_names(name)));
        }
    }
}

proof fn lemma_groups_doc_some(
    x: SXur,
    gs: Seq<SGroup>,
    class: Seq<char>,
    compound: Option<NameTable>,
)
    requires
        groups_fit(gs),
    ensures
        groups_doc(x, gs, class, compound) is Some,
    decreases gs, 0int, 0int,
{
    if gs.len() > 0 {
        let g = gs[gs.len() - 1];
        let names = match compound {
            Some(t) => t,
            None => group_names(class, g.level),
        };
        lemma_groups_doc_some(x, gs.subrange(0, gs.len() - 1), class, compound);
        lemma_group_doc_some(x, g, names);
    }
}

proof fn lemma_group_doc_some(x: SXur, g: SGroup, names: NameTable)
    requires
        group_fits_deep(g),
    ensures
        group_doc(x, g, names) is Some,
    decreases g, 34int, 0int,
{
    let non_array = count_bits(g.bitmask, names, 0, false);
    let array_bits = count_bits(g.bitmask, names, 0, true);
    if names != NameTable::Gradient {
        lemma_no_array_bits(g.bitmask, names, 0);
    }
    let per_array = if array_bits > 0 {
        ((g.values.len() - non_array) / (array_bits as int)) as nat
    } else {
        0nat
    };
    lemma_entries_doc_some(x, g, names, per_array, 0, 0, 0);
}

proof fn lemma_entries_doc_some(
    x: SXur,
    g: SGroup,
    names: NameTable,
    per_array: nat,
    bit: u32,
    vi: int,
    j: nat,
)
    requires
        values_fit(g.values),
    ensures
        entries_doc(x, g, names, per_array, bit, vi, j) is Some,
    decreases g, 33 - bit, per_array - j,
{
    if bit >= 32 || vi < 0 || vi >= g.values.len() {
    } else if g.bitmask & (1u32 << bit) == 0 {
        lemma_entries_doc_some(x, g, names, per_array, (bit + 1) as u32, vi, 0);
    } else {
        let name = name_or_unknown(names, bit as int);
        lemma_values_fit_at(g.values, vi);
        if compound_array_prop(names, bit) {
            if j < per_array && j <= usize::MAX {
                lemma_value_doc_some(x, name, g.values[vi], Some(j as usize));
                lemma_entries_doc_some(x, g, names, per_array, bit, vi + 1, j + 1);
            } else {
                lemma_entries_doc_some(x, g, names, per_array, (bit + 1) as u32, vi, 0);
            }
        } else {
            lemma_value_doc_some(x, name, g.values[vi], None);
            lemma_entries_doc_some(x, g, names, per_array, (bit + 1) as u32, vi + 1, 0);
        }
    }
}

proof fn lemma_object_doc_some(x: SXur, o: SObject, is_root: bool)
    requires
        object_fits(o),
    ensures
        object_doc(x, o, is_root) is Some,
    decreases o, 0int,
{
    if o.properties.len() > 0 {
        lemma_groups_doc_some(x, o.properties, str_or(x.strings, o.class_name, ""@), None);
    }
    lemma_children_doc_some(x, o.children);
}

proof fn lemma_children_doc_some(x: SXur, cs: Seq<SObject>)
    requires
        children_fit(cs),
    ensures
        children_doc(x, cs) is Some,
    decreases cs, 0int,
{
    if cs.len() > 0 {
        lemma_children_doc_some(x, cs.subrange(0, cs.len() - 1));
        lemma_object_doc_some(x, cs[cs.len() - 1], false);
    }
}

/// A XUR whose groups all fit can be written.
pub proof fn lemma_fitting_xur_is_writable(x: SXur)
    requires
        object_fits(x.root),
    ensures
        xui_doc(x) is Some,
{
    lemma_object_doc_some(x, x.root, true);
}

} // verus!

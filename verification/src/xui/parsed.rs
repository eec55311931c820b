//! What the parsers accept, the writer can write: every property group that
//! a v5 or v8 parse gives has, beside its gradient-array bits, at least one
//! value per set bit.
use vstd::prelude::*;

use crate::xur::tables::array_property;
use crate::xur::parse::v5_array;
use crate::xur::parse::v5_children;
use crate::xur::parse::v5_compound;
use crate::xur::parse::v5_levels;
use crate::xur::parse::v5_object;
use crate::xur::parse::v5_parse;
use crate::xur::parse::v5_props;
use crate::xur::parse::v5_single;
use crate::xur::parse::v5_unknown;
use crate::xur::parse::v5_values;
use crate::xur::parse_v8::v8_array;
use crate::xur::parse_v8::v8_children;
use crate::xur::parse_v8::v8_compound;
use crate::xur::parse_v8::v8_level;
use crate::xur::parse_v8::v8_levels;
use crate::xur::parse_v8::v8_object;
use crate::xur::parse_v8::v8_parse;
use crate::xur::parse_v8::v8_props;
use crate::xur::parse_v8::v8_value;
use crate::xur::parse_v8::v8_values;
use crate::xur::parse_v8::varint;
use crate::xur::parse_v8::SPools;
use crate::xur::parse_v8::STables;
use crate::xur::tables::TypeTable;
use crate::xur::PropType;
use crate::xur::SGroup;
use crate::xur::SObject;
use crate::xur::SValue;
use crate::xur::xur_parse;
use super::names::NameTable;
use super::writer::children_fit;
use super::writer::count_bits;
use super::writer::group_fits;
use super::writer::group_fits_deep;
use super::writer::groups_fit;
use super::writer::lemma_fitting_xur_is_writable;
use super::writer::object_fits;
use super::writer::value_fits;
use super::writer::values_fit;
use super::writer::xui_doc;

verus! {

// ---------------------------------------------------------------------------
// Sequences of values, groups and objects
// ---------------------------------------------------------------------------

proof fn lemma_values_fit_concat(a: Seq<SValue>, b: Seq<SValue>)
    requires
        values_fit(a),
        values_fit(b),
    ensures
        values_fit(a + b),
    decreases b.len(),
{
    if b.len() == 0 {
        assert(a + b =~= a);
    } else {
        let c = a + b;
        lemma_values_fit_concat(a, b.subrange(0, b.len() - 1));
        assert(c.subrange(0, c.len() - 1) =~= a + b.subrange(0, b.len() - 1));
        assert(c[c.len() - 1] == b[b.len() - 1]);
    }
}

proof fn lemma_values_fit_one(v: SValue)
    requires
        value_fits(v),
    ensures
        values_fit(seq![v]),
{
    assert(seq![v].subrange(0, 0) =~= Seq::<SValue>::empty());
    assert(values_fit(Seq::<SValue>::empty()));
}

proof fn lemma_groups_fit_concat(a: Seq<SGroup>, b: Seq<SGroup>)
    requires
        groups_fit(a),
        groups_fit(b),
    ensures
        groups_fit(a + b),
    decreases b.len(),
{
    if b.len() == 0 {
        assert(a + b =~= a);
    } else {
        let c = a + b;
        lemma_groups_fit_concat(a, b.subrange(0, b.len() - 1));
        assert(c.subrange(0, c.len() - 1) =~= a + b.subrange(0, b.len() - 1));
        assert(c[c.len() - 1] == b[b.len() - 1]);
    }
}

proof fn lemma_groups_fit_one(g: SGroup)
    requires
        group_fits_deep(g),
    ensures
        groups_fit(seq![g]),
{
    assert(seq![g].subrange(0, 0) =~= Seq::<SGroup>::empty());
    assert(groups_fit(Seq::<SGroup>::empty()));
}

proof fn lemma_children_fit_concat(a: Seq<SObject>, b: Seq<SObject>)
    requires
        children_fit(a),
        children_fit(b),
    ensures
        children_fit(a + b),
    decreases b.len(),
{
    if b.len() == 0 {
        assert(a + b =~= a);
    } else {
        let c = a + b;
        lemma_children_fit_concat(a, b.subrange(0, b.len() - 1));
        assert(c.subrange(0, c.len() - 1) =~= a + b.subrange(0, b.len() - 1));
        assert(c[c.len() - 1] == b[b.len() - 1]);
    }
}

proof fn lemma_children_fit_one(o: SObject)
    requires
        object_fits(o),
    ensures
        children_fit(seq![o]),
{
    assert(seq![o].subrange(0, 0) =~= Seq::<SObject>::empty());
    assert(children_fit(Seq::<SObject>::empty()));
}

/// A group whose values fit and that has a value for each set bit other than
/// the gradient-array bits fits.
proof fn lemma_group_fits(g: SGroup)
    requires
        values_fit(g.values),
        g.values.len() >= count_bits(g.bitmask, NameTable::Gradient, 0, false),
    ensures
        group_fits_deep(g),
{
    assert(group_fits(g));
}

/// The parser's array properties are all gradient-array bits.
proof fn lemma_array_is_gradient_array(types: TypeTable, bit: u32)
    requires
        array_property(types, bit),
    ensures
        super::names::compound_array_prop(NameTable::Gradient, bit),
{
}

// ---------------------------------------------------------------------------
// v5
// ---------------------------------------------------------------------------

proof fn lemma_v5_unknown_fits(d: Seq<u8>, p: int, bm: u32, bit: u32)
    ensures
        v5_unknown(d, p, bm, bit) matches Ok((vs, _)) ==> values_fit(vs) && vs.len() >= count_bits(
            bm,
            NameTable::Gradient,
            bit,
            false,
        ),
    decreases 32 - bit,
{
    if bit >= 32 {
    } else if !crate::xur::parse::bit_set(bm, bit) {
        lemma_v5_unknown_fits(d, p, bm, (bit + 1) as u32);
    } else {
        match crate::xur::parse::rd32(d, p) {
            Err(_) => {},
            Ok((v, q)) => {
                lemma_v5_unknown_fits(d, q, bm, (bit + 1) as u32);
                if let Ok((rest, _)) = v5_unknown(d, q, bm, (bit + 1) as u32) {
                    lemma_values_fit_one(SValue::Unsigned(v));
                    lemma_values_fit_concat(seq![SValue::Unsigned(v)], rest);
                }
            },
        }
    }
}

proof fn lemma_v5_single_fits(d: Seq<u8>, p: int, ty: PropType, parent: TypeTable, bit: u32)
    ensures
        v5_single(d, p, ty, parent, bit) matches Ok((v, _)) ==> value_fits(v),
    decreases d.len() - p, 2int, 0int,
{
    if ty == PropType::Compound {
        lemma_v5_compound_fits(d, p, crate::xur::tables::compound_sub_types(parent, bit));
    }
}

proof fn lemma_v5_compound_fits(d: Seq<u8>, p: int, sub: Option<TypeTable>)
    ensures
        v5_compound(d, p, sub) matches Ok((v, _)) ==> value_fits(v),
    decreases d.len() - p, 1int, 0int,
{
    match crate::xur::parse::rd16(d, p) {
        Err(_) => {},
        Ok((_, p1)) => match crate::xur::parse::v5_bitmask(d, p1) {
            Err(_) => {},
            Ok((bm, p2)) => {
                if bm == 0 {
                    assert(groups_fit(Seq::<SGroup>::empty()));
                } else {
                    let types = match sub {
                        Some(t) => t,
                        None => TypeTable::Empty,
                    };
                    lemma_v5_values_fits(d, p2, bm, types, 0);
                    if let Ok((vals, _)) = v5_values(d, p2, bm, types, 0) {
                        let g = SGroup { bitmask: bm, values: vals, level: 0 };
                        lemma_group_fits(g);
                        lemma_groups_fit_one(g);
                    }
                }
            },
        },
    }
}

proof fn lemma_v5_array_fits(
    d: Seq<u8>,
    p: int,
    n: nat,
    ty: PropType,
    types: TypeTable,
    bit: u32,
)
    ensures
        v5_array(d, p, n, ty, types, bit) matches Ok((vs, _)) ==> values_fit(vs),
    decreases d.len() - p, 3int, n,
{
    if n > 0 {
        lemma_v5_single_fits(d, p, ty, types, bit);
        match v5_single(d, p, ty, types, bit) {
            Err(_) => {},
            Ok((v, q)) => if q > p && q <= d.len() {
                lemma_v5_array_fits(d, q, (n - 1) as nat, ty, types, bit);
                if let Ok((rest, _)) = v5_array(d, q, (n - 1) as nat, ty, types, bit) {
                    lemma_values_fit_one(v);
                    lemma_values_fit_concat(seq![v], rest);
                }
            },
        }
    } else {
        assert(values_fit(Seq::<SValue>::empty()));
    }
}

proof fn lemma_v5_values_fits(d: Seq<u8>, p: int, bm: u32, types: TypeTable, bit: u32)
    ensures
        v5_values(d, p, bm, types, bit) matches Ok((vs, _)) ==> values_fit(vs) && vs.len()
            >= count_bits(bm, NameTable::Gradient, bit, false),
    decreases d.len() - p, 4int, 32 - bit,
{
    if bit >= 32 {
        assert(values_fit(Seq::<SValue>::empty()));
    } else if !crate::xur::parse::bit_set(bm, bit) {
        lemma_v5_values_fits(d, p, bm, types, (bit + 1) as u32);
    } else {
        let ty = crate::xur::parse::prop_type_or_unsigned(types, bit);
        if array_property(types, bit) {
            lemma_array_is_gradient_array(types, bit);
            match crate::xur::parse::v5_array_count(d, p) {
                Err(_) => {},
                Ok((count, p1)) => if p1 > p && p1 <= d.len() {
                    lemma_v5_array_fits(d, p1, count as nat, ty, types, bit);
                    match v5_array(d, p1, count as nat, ty, types, bit) {
                        Err(_) => {},
                        Ok((vs, p2)) => if p2 >= p1 && p2 <= d.len() {
                            lemma_v5_values_fits(d, p2, bm, types, (bit + 1) as u32);
                            if let Ok((rest, _)) = v5_values(d, p2, bm, types, (bit + 1) as u32) {
                                lemma_values_fit_concat(vs, rest);
                            }
                        },
                    }
                },
            }
        } else {
            lemma_v5_single_fits(d, p, ty, types, bit);
            match v5_single(d, p, ty, types, bit) {
                Err(_) => {},
                Ok((v, q)) => if q > p && q <= d.len() {
                    lemma_v5_values_fits(d, q, bm, types, (bit + 1) as u32);
                    if let Ok((rest, _)) = v5_values(d, q, bm, types, (bit + 1) as u32) {
                        lemma_values_fit_one(v);
                        lemma_values_fit_concat(seq![v], rest);
                    }
                },
            }
        }
    }
}

proof fn lemma_v5_levels_fit(d: Seq<u8>, p: int, hier: Seq<TypeTable>, idx: int)
    ensures
        v5_levels(d, p, hier, idx) matches Ok((gs, _)) ==> groups_fit(gs),
    decreases hier.len() - idx,
{
    if idx < 0 || idx >= hier.len() {
        assert(groups_fit(Seq::<SGroup>::empty()));
    } else {
        match crate::xur::parse::v5_bitmask(d, p) {
            Err(_) => {},
            Ok((bm, p1)) => if bm == 0 {
                lemma_v5_levels_fit(d, p1, hier, idx + 1);
            } else {
                let g = if hier[idx] == TypeTable::Empty {
                    lemma_v5_unknown_fits(d, p1, bm, 0);
                    v5_unknown(d, p1, bm, 0)
                } else {
                    lemma_v5_values_fits(d, p1, bm, hier[idx], 0);
                    v5_values(d, p1, bm, hier[idx], 0)
                };
                if let Ok((vals, p2)) = g {
                    let grp = SGroup { bitmask: bm, values: vals, level: idx + 1 };
                    lemma_group_fits(grp);
                    lemma_groups_fit_one(grp);
                    lemma_v5_levels_fit(d, p2, hier, idx + 1);
                    if let Ok((rest, _)) = v5_levels(d, p2, hier, idx + 1) {
                        lemma_groups_fit_concat(seq![grp], rest);
                    }
                }
            },
        }
    }
}

proof fn lemma_v5_props_fit(d: Seq<u8>, p: int, class: Seq<char>)
    ensures
        v5_props(d, p, class) matches Ok((gs, _)) ==> groups_fit(gs),
{
    let hier = crate::xur::tables::spec_hierarchy(class);
    match crate::xur::parse::rd16(d, p) {
        Err(_) => {},
        Ok((_, p1)) => match crate::xur::parse::v5_bitmask(d, p1) {
            Err(_) => {},
            Ok((base, p2)) => if base != 0 {
                lemma_v5_values_fits(d, p2, base, TypeTable::XuiElement, 0);
                if let Ok((vals, p3)) = v5_values(d, p2, base, TypeTable::XuiElement, 0) {
                    let grp = SGroup { bitmask: base, values: vals, level: 0 };
                    lemma_group_fits(grp);
                    lemma_groups_fit_one(grp);
                    lemma_v5_levels_fit(d, p3, hier, 0);
                    if let Ok((rest, _)) = v5_levels(d, p3, hier, 0) {
                        lemma_groups_fit_concat(seq![grp], rest);
                    }
                }
            } else {
                lemma_v5_levels_fit(d, p2, hier, 0);
            },
        },
    }
}

proof fn lemma_v5_object_fits(d: Seq<u8>, strs: Seq<Seq<char>>, p: int)
    ensures
        v5_object(d, strs, p) matches Ok((o, _)) ==> object_fits(o),
    decreases d.len() - p, 0int, 0int,
{
    reveal(v5_object);
    match crate::xur::parse::rd16(d, p) {
        Err(_) => {},
        Ok((cn16, p1)) => if cn16 != 0 {
            let class = match crate::xur::string_at(strs, cn16 as u32) {
                Some(s) => s,
                None => Seq::empty(),
            };
            match crate::xur::parse::rd8(d, p1) {
                Err(_) => {},
                Ok((flags, p2)) => {
                    if flags & 1 != 0 {
                        lemma_v5_props_fit(d, p2, class);
                    } else {
                        assert(groups_fit(Seq::<SGroup>::empty()));
                    }
                    let pr = if flags & 1 != 0 {
                        v5_props(d, p2, class)
                    } else {
                        Ok((Seq::empty(), p2))
                    };
                    if let Ok((groups, p3)) = pr {
                        if p3 >= p2 && p3 <= d.len() {
                            if flags & 2 != 0 {
                                if let Ok((count, p4)) = crate::xur::parse::rd32(d, p3) {
                                    lemma_v5_children_fit(d, strs, p4, 0, count as nat);
                                }
                            } else {
                                assert(children_fit(Seq::<SObject>::empty()));
                            }
                        }
                    }
                },
            }
        },
    }
}

proof fn lemma_v5_children_fit(d: Seq<u8>, strs: Seq<Seq<char>>, p: int, i: nat, count: nat)
    ensures
        v5_children(d, strs, p, i, count) matches Ok((cs, _)) ==> children_fit(cs),
    decreases d.len() - p, 1int, count - i,
{
    reveal(v5_object);
    if i >= count {
        assert(children_fit(Seq::<SObject>::empty()));
    } else {
        lemma_v5_object_fits(d, strs, p);
        if let Ok((o, q)) = v5_object(d, strs, p) {
            if q > p && q <= d.len() {
                lemma_v5_children_fit(d, strs, q, i + 1, count);
                if let Ok((rest, _)) = v5_children(d, strs, q, i + 1, count) {
                    lemma_children_fit_one(o);
                    lemma_children_fit_concat(seq![o], rest);
                }
            }
        }
    }
}

proof fn lemma_v5_parse_fits(data: Seq<u8>)
    ensures
        v5_parse(data) matches Ok(x) ==> object_fits(x.root),
{
    assert forall|d: Seq<u8>, strs: Seq<Seq<char>>, p: int|
        #![trigger v5_object(d, strs, p)]
        v5_object(d, strs, p) matches Ok((o, _)) ==> object_fits(o) by {
        lemma_v5_object_fits(d, strs, p);
    }
}

// ---------------------------------------------------------------------------
// v8
// ---------------------------------------------------------------------------

proof fn lemma_v8_value_fits(
    d: Seq<u8>,
    p: int,
    seen: Set<u32>,
    ty: PropType,
    parent: TypeTable,
    bit: u32,
    pools: SPools,
)
    ensures
        v8_value(d, p, seen, ty, parent, bit, pools) matches Ok((v, _, _)) ==> value_fits(v),
    decreases d.len() - p, 2int, 0int,
{
    if ty == PropType::Compound {
        lemma_v8_compound_fits(d, p, seen, parent, bit, pools);
    }
}

proof fn lemma_v8_compound_fits(
    d: Seq<u8>,
    p: int,
    seen: Set<u32>,
    parent: TypeTable,
    bit: u32,
    pools: SPools,
)
    ensures
        v8_compound(d, p, seen, parent, bit, pools) matches Ok((v, _, _)) ==> value_fits(v),
    decreases d.len() - p, 1int, 0int,
{
    match varint(d, p) {
        Err(_) => {},
        Ok((slot, p1)) => if seen.contains(slot) {
            assert(groups_fit(Seq::<SGroup>::empty()));
        } else {
            match varint(d, p1) {
                Err(_) => {},
                Ok((_, p2)) => {
                    let sub = match crate::xur::tables::compound_sub_types(parent, bit) {
                        Some(t) => t,
                        None => TypeTable::Empty,
                    };
                    lemma_v8_level_fits(d, p2, seen.insert(slot), sub, 0, pools);
                    if let Ok((g, _, _, _)) = v8_level(d, p2, seen.insert(slot), sub, 0, pools) {
                        match g {
                            Some(g) => lemma_groups_fit_one(g),
                            None => assert(groups_fit(Seq::<SGroup>::empty())),
                        }
                    }
                },
            }
        },
    }
}

proof fn lemma_v8_array_fits(
    d: Seq<u8>,
    p: int,
    seen: Set<u32>,
    n: nat,
    ty: PropType,
    types: TypeTable,
    bit: u32,
    pools: SPools,
)
    ensures
        v8_array(d, p, seen, n, ty, types, bit, pools) matches Ok((vs, _, _)) ==> values_fit(vs),
    decreases d.len() - p, 3int, n,
{
    if n > 0 {
        lemma_v8_value_fits(d, p, seen, ty, types, bit, pools);
        match v8_value(d, p, seen, ty, types, bit, pools) {
            Err(_) => {},
            Ok((v, q, s1)) => if q > p && q <= d.len() {
                lemma_v8_array_fits(d, q, s1, (n - 1) as nat, ty, types, bit, pools);
                if let Ok((rest, _, _)) = v8_array(d, q, s1, (n - 1) as nat, ty, types, bit, pools) {
                    lemma_values_fit_one(v);
                    lemma_values_fit_concat(seq![v], rest);
                }
            },
        }
    } else {
        assert(values_fit(Seq::<SValue>::empty()));
    }
}

proof fn lemma_v8_values_fits(
    d: Seq<u8>,
    p: int,
    seen: Set<u32>,
    bm: u32,
    types: TypeTable,
    bit: u32,
    pools: SPools,
)
    ensures
        v8_values(d, p, seen, bm, types, bit, pools) matches Ok((vs, _, _)) ==> values_fit(vs)
            && vs.len() >= count_bits(bm, NameTable::Gradient, bit, false),
    decreases d.len() - p, 4int, 32 - bit,
{
    if bit >= 32 {
        assert(values_fit(Seq::<SValue>::empty()));
    } else if !crate::xur::parse::bit_set(bm, bit) {
        lemma_v8_values_fits(d, p, seen, bm, types, (bit + 1) as u32, pools);
    } else {
        let ty = crate::xur::parse::prop_type_or_unsigned(types, bit);
        if array_property(types, bit) {
            lemma_array_is_gradient_array(types, bit);
            match varint(d, p) {
                Err(_) => {},
                Ok((count, p1)) => if p1 > p && p1 <= d.len() {
                    lemma_v8_array_fits(d, p1, seen, count as nat, ty, types, bit, pools);
                    match v8_array(d, p1, seen, count as nat, ty, types, bit, pools) {
                        Err(_) => {},
                        Ok((vs, p2, s2)) => if p2 >= p1 && p2 <= d.len() {
                            lemma_v8_values_fits(d, p2, s2, bm, types, (bit + 1) as u32, pools);
                            if let Ok((rest, _, _)) = v8_values(
                                d,
                                p2,
                                s2,
                                bm,
                                types,
                                (bit + 1) as u32,
                                pools,
                            ) {
                                lemma_values_fit_concat(vs, rest);
                            }
                        },
                    }
                },
            }
        } else {
            lemma_v8_value_fits(d, p, seen, ty, types, bit, pools);
            match v8_value(d, p, seen, ty, types, bit, pools) {
                Err(_) => {},
                Ok((v, q, s1)) => if q > p && q <= d.len() {
                    lemma_v8_values_fits(d, q, s1, bm, types, (bit + 1) as u32, pools);
                    if let Ok((rest, _, _)) = v8_values(
                        d,
                        q,
                        s1,
                        bm,
                        types,
                        (bit + 1) as u32,
                        pools,
                    ) {
                        lemma_values_fit_one(v);
                        lemma_values_fit_concat(seq![v], rest);
                    }
                },
            }
        }
    }
}

proof fn lemma_v8_level_fits(
    d: Seq<u8>,
    p: int,
    seen: Set<u32>,
    types: TypeTable,
    level: int,
    pools: SPools,
)
    ensures
        v8_level(d, p, seen, types, level, pools) matches Ok((g, _, _, _)) ==> (g matches Some(
            g,
        ) ==> group_fits_deep(g)),
    decreases d.len() - p, 5int, 0int,
{
    match varint(d, p) {
        Err(_) => {},
        Ok((bm, p1)) => if bm != 0 && p1 > p && p1 <= d.len() {
            lemma_v8_values_fits(d, p1, seen, bm, types, 0, pools);
            if let Ok((vals, _, _)) = v8_values(d, p1, seen, bm, types, 0, pools) {
                lemma_group_fits(SGroup { bitmask: bm, values: vals, level });
            }
        },
    }
}

proof fn lemma_v8_levels_fit(
    d: Seq<u8>,
    p: int,
    seen: Set<u32>,
    hier: Seq<TypeTable>,
    level: int,
    consumed: int,
    target: int,
    pools: SPools,
)
    ensures
        v8_levels(d, p, seen, hier, level, consumed, target, pools) matches Ok((gs, _, _))
            ==> groups_fit(gs),
    decreases d.len() - p,
{
    if consumed >= target {
        assert(groups_fit(Seq::<SGroup>::empty()));
    } else {
        let types = crate::xur::parse_v8::spec_level_types(hier, level);
        lemma_v8_level_fits(d, p, seen, types, level, pools);
        match v8_level(d, p, seen, types, level, pools) {
            Err(_) => {},
            Ok((g, n, q, s2)) => if q > p && q <= d.len() {
                let first = match g {
                    Some(g) => seq![g],
                    None => Seq::<SGroup>::empty(),
                };
                match g {
                    Some(g) => lemma_groups_fit_one(g),
                    None => assert(groups_fit(Seq::<SGroup>::empty())),
                }
                lemma_v8_levels_fit(d, q, s2, hier, level + 1, consumed + n, target, pools);
                if let Ok((rest, _, _)) = v8_levels(
                    d,
                    q,
                    s2,
                    hier,
                    level + 1,
                    consumed + n,
                    target,
                    pools,
                ) {
                    lemma_groups_fit_concat(first, rest);
                }
            },
        }
    }
}

proof fn lemma_v8_props_fit(
    d: Seq<u8>,
    class: Seq<char>,
    flags: u8,
    p: int,
    seen: Set<u32>,
    pools: SPools,
)
    ensures
        v8_props(d, class, flags, p, seen, pools) matches Ok((gs, _, _)) ==> groups_fit(gs),
{
    if flags & 1 != 0 {
        if let Ok((vc, q)) = varint(d, p) {
            lemma_v8_levels_fit(
                d,
                q,
                seen,
                crate::xur::tables::spec_hierarchy(class),
                0,
                0,
                vc as int,
                pools,
            );
        }
    } else {
        assert(groups_fit(Seq::<SGroup>::empty()));
    }
}

proof fn lemma_v8_object_fits(
    d: Seq<u8>,
    strs: Seq<Seq<char>>,
    p: int,
    seen: Set<u32>,
    pools: SPools,
    tables: STables,
)
    ensures
        v8_object(d, strs, p, seen, pools, tables) matches Ok((o, _, _)) ==> object_fits(o),
    decreases d.len() - p, 0int, 0int,
{
    reveal(v8_object);
    match varint(d, p) {
        Err(_) => {},
        Ok((ci, p1)) => if ci != 0 {
            let class = crate::xur::parse_v8::class_of(strs, ci);
            match crate::xur::parse_v8::b8(d, p1) {
                Err(_) => {},
                Ok((flags, p2)) => {
                    lemma_v8_props_fit(d, class, flags, p2, seen, pools);
                    match v8_props(d, class, flags, p2, seen, pools) {
                        Err(_) => {},
                        Ok((groups, p3, s3)) => if p3 >= p2 && p3 <= d.len() {
                            match crate::xur::parse_v8::v8_id(d, flags, p3) {
                                Err(_) => {},
                                Ok(p4) => if p4 >= p3 && p4 <= d.len() {
                                    if flags & 2 != 0 {
                                        if let Ok((count, p5)) = varint(d, p4) {
                                            lemma_v8_children_fit(
                                                d,
                                                strs,
                                                p5,
                                                s3,
                                                pools,
                                                tables,
                                                0,
                                                count as nat,
                                            );
                                        }
                                    } else {
                                        assert(children_fit(Seq::<SObject>::empty()));
                                    }
                                },
                            }
                        },
                    }
                },
            }
        },
    }
}

proof fn lemma_v8_children_fit(
    d: Seq<u8>,
    strs: Seq<Seq<char>>,
    p: int,
    seen: Set<u32>,
    pools: SPools,
    tables: STables,
    i: nat,
    count: nat,
)
    ensures
        v8_children(d, strs, p, seen, pools, tables, i, count) matches Ok((cs, _, _))
            ==> children_fit(cs),
    decreases d.len() - p, 1int, count - i,
{
    reveal(v8_object);
    if i >= count {
        assert(children_fit(Seq::<SObject>::empty()));
    } else {
        lemma_v8_object_fits(d, strs, p, seen, pools, tables);
        if let Ok((o, q, s2)) = v8_object(d, strs, p, seen, pools, tables) {
            if q > p && q <= d.len() {
                lemma_v8_children_fit(d, strs, q, s2, pools, tables, i + 1, count);
                if let Ok((rest, _, _)) = v8_children(d, strs, q, s2, pools, tables, i + 1, count) {
                    lemma_children_fit_one(o);
                    lemma_children_fit_concat(seq![o], rest);
                }
            }
        }
    }
}

proof fn lemma_v8_parse_fits(data: Seq<u8>)
    ensures
        v8_parse(data) matches Ok(x) ==> object_fits(x.root),
{
    assert forall|d: Seq<u8>, strs: Seq<Seq<char>>, p: int, seen: Set<u32>, pools: SPools, tables: STables|
        #![trigger v8_object(d, strs, p, seen, pools, tables)]
        v8_object(d, strs, p, seen, pools, tables) matches Ok((o, _, _)) ==> object_fits(o) by {
        lemma_v8_object_fits(d, strs, p, seen, pools, tables);
    }
}

// ---------------------------------------------------------------------------
// The law
// ---------------------------------------------------------------------------

/// Every XUR that parses, v5 or v8, can be written out as XUI: `to_xui`
/// accepts whatever `Xur::parse` gives back.
pub proof fn lemma_parsed_xur_is_writable(data: Seq<u8>)
    ensures
        xur_parse(data) matches Ok(x) ==> xui_doc(x) is Some,
{
    lemma_v5_parse_fits(data);
    lemma_v8_parse_fits(data);
    if let Ok(x) = xur_parse(data) {
        lemma_fitting_xur_is_writable(x);
    }
}

} // verus!

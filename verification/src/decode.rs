use vstd::prelude::*;

use crate::cursor::{
    spec_read_i16_le, spec_read_i32_le, spec_read_rle_string, spec_read_string, spec_read_u16_le,
    spec_read_u32_le, spec_read_u8, spec_read_varint, Cursor,
};
use crate::element::{attr_models, children_models, Attr, Element, Value};
use crate::error::MapError;
use crate::model::{attrs_map, ElemModel, ValueModel};

verus! {

/// The models of the string table's entries, in table order.
pub open spec fn table_models(t: Seq<String>) -> Seq<Seq<char>> {
    Seq::new(t.len(), |i: int| t[i]@)
}

/// One tagged value read at `i`: one tag byte, then exactly the payload the
/// tag prescribes. Tags 0 through 7 are the whole wire contract; any other
/// tag is `UnknownValueTag`.
pub open spec fn spec_read_value(d: Seq<u8>, i: int, tab: Seq<Seq<char>>) -> Result<
    (ValueModel, int),
    MapError,
> {
    match spec_read_u8(d, i) {
        Err(e) => Err(e),
        Ok(t) => {
            let tag = t.0;
            let j = t.1;
            if tag == 0 {
                match spec_read_u8(d, j) {
                    Err(e) => Err(e),
                    Ok(t2) => Ok((ValueModel::Bool(t2.0 != 0), t2.1)),
                }
            } else if tag == 1 {
                match spec_read_u8(d, j) {
                    Err(e) => Err(e),
                    Ok(t2) => Ok((ValueModel::Int(t2.0 as i32), t2.1)),
                }
            } else if tag == 2 {
                match spec_read_i16_le(d, j) {
                    Err(e) => Err(e),
                    Ok(t2) => Ok((ValueModel::Int(t2.0 as i32), t2.1)),
                }
            } else if tag == 3 {
                match spec_read_i32_le(d, j) {
                    Err(e) => Err(e),
                    Ok(t2) => Ok((ValueModel::Int(t2.0), t2.1)),
                }
            } else if tag == 4 {
                match spec_read_u32_le(d, j) {
                    Err(e) => Err(e),
                    Ok(t2) => Ok((ValueModel::FloatBits(t2.0), t2.1)),
                }
            } else if tag == 5 {
                match spec_read_u16_le(d, j) {
                    Err(e) => Err(e),
                    Ok(t2) => if t2.0 < tab.len() {
                        Ok((ValueModel::Str(tab[t2.0 as int]), t2.1))
                    } else {
                        Err(MapError::IndexOutOfRange)
                    },
                }
            } else if tag == 6 {
                match spec_read_string(d, j) {
                    Err(e) => Err(e),
                    Ok(t2) => Ok((ValueModel::Str(t2.0), t2.1)),
                }
            } else if tag == 7 {
                match spec_read_rle_string(d, j) {
                    Err(e) => Err(e),
                    Ok(t2) => Ok((ValueModel::Str(t2.0), t2.1)),
                }
            } else {
                Err(MapError::UnknownValueTag)
            }
        },
    }
}

/// `n` attributes read at `i`, folded into `acc` in order: each one is a
/// 16-bit key index resolved through the string table, then one tagged
/// value. A repeated key overwrites the earlier entry: the last write wins.
pub open spec fn spec_read_attrs(
    d: Seq<u8>,
    i: int,
    tab: Seq<Seq<char>>,
    n: nat,
    acc: Map<Seq<char>, ValueModel>,
) -> Result<(Map<Seq<char>, ValueModel>, int), MapError>
    decreases n,
{
    if n == 0 {
        Ok((acc, i))
    } else {
        match spec_read_u16_le(d, i) {
            Err(e) => Err(e),
            Ok(t) => if t.0 >= tab.len() {
                Err(MapError::IndexOutOfRange)
            } else {
                match spec_read_value(d, t.1, tab) {
                    Err(e) => Err(e),
                    Ok(tv) => spec_read_attrs(
                        d,
                        tv.1,
                        tab,
                        (n - 1) as nat,
                        acc.insert(tab[t.0 as int], tv.0),
                    ),
                }
            },
        }
    }
}

/// Fuel that always suffices for an element starting at `i`: every level of
/// nesting consumes at least one byte, so one unit per remaining byte and
/// one to spare can never run out.
pub open spec fn elem_fuel(d: Seq<u8>, i: int) -> nat {
    (if i <= d.len() {
        d.len() - i + 1
    } else {
        1
    }) as nat
}

/// One element read at `i`: a 16-bit name index resolved through the string
/// table, an 8-bit attribute count and that many attributes, a signed
/// 16-bit child count (negative is `MalformedCount`), and that many
/// children, depth first and in document order.
///
/// The fuel only bounds the recursion depth; `elem_fuel` gives a bound that
/// never runs out, and any two sufficient fuels agree (`lemma_elem_fuel`).
pub open spec fn spec_read_elem(d: Seq<u8>, i: int, tab: Seq<Seq<char>>, fuel: nat) -> Result<
    (ElemModel, int),
    MapError,
>
    decreases fuel, 0nat, 0nat,
{
    if fuel == 0 {
        Err(MapError::BufferUnderrun)
    } else {
        match spec_read_u16_le(d, i) {
            Err(e) => Err(e),
            Ok(t) => if t.0 >= tab.len() {
                Err(MapError::IndexOutOfRange)
            } else {
                match spec_read_u8(d, t.1) {
                    Err(e) => Err(e),
                    Ok(ta) => match spec_read_attrs(d, ta.1, tab, ta.0 as nat, Map::empty()) {
                        Err(e) => Err(e),
                        Ok(tat) => match spec_read_i16_le(d, tat.1) {
                            Err(e) => Err(e),
                            Ok(tc) => if tc.0 < 0 {
                                Err(MapError::MalformedCount)
                            } else {
                                match spec_read_children(
                                    d,
                                    tc.1,
                                    tab,
                                    tc.0 as nat,
                                    Seq::empty(),
                                    (fuel - 1) as nat,
                                ) {
                                    Err(e) => Err(e),
                                    Ok(tch) => Ok(
                                        (
                                            ElemModel {
                                                name: tab[t.0 as int],
                                                attrs: tat.0,
                                                children: tch.0,
                                            },
                                            tch.1,
                                        ),
                                    ),
                                }
                            },
                        },
                    },
                }
            },
        }
    }
}

/// `n` sibling elements read at `i`, appended to `acc` in document order.
pub open spec fn spec_read_children(
    d: Seq<u8>,
    i: int,
    tab: Seq<Seq<char>>,
    n: nat,
    acc: Seq<ElemModel>,
    fuel: nat,
) -> Result<(Seq<ElemModel>, int), MapError>
    decreases fuel, 1nat, n,
{
    if n == 0 {
        Ok((acc, i))
    } else {
        match spec_read_elem(d, i, tab, fuel) {
            Err(e) => Err(e),
            Ok(t) => spec_read_children(d, t.1, tab, (n - 1) as nat, acc.push(t.0), fuel),
        }
    }
}

/// `n` length-prefixed strings read at `i`, appended to `acc` in order:
/// the string table. Entry `k` of the finished table is addressed elsewhere
/// by the literal index `k`.
pub open spec fn spec_read_table(d: Seq<u8>, i: int, n: nat, acc: Seq<Seq<char>>) -> Result<
    (Seq<Seq<char>>, int),
    MapError,
>
    decreases n,
{
    if n == 0 {
        Ok((acc, i))
    } else {
        match spec_read_string(d, i) {
            Err(e) => Err(e),
            Ok(t) => spec_read_table(d, t.1, (n - 1) as nat, acc.push(t.0)),
        }
    }
}

/// A whole document: two length-prefixed header strings that are read and
/// discarded, a 16-bit string count, that many table strings, then exactly
/// one root element. Bytes after the root are ignored.
pub open spec fn spec_read_document(d: Seq<u8>) -> Result<ElemModel, MapError> {
    match spec_read_string(d, 0) {
        Err(e) => Err(e),
        Ok(t1) => match spec_read_string(d, t1.1) {
            Err(e) => Err(e),
            Ok(t2) => match spec_read_u16_le(d, t2.1) {
                Err(e) => Err(e),
                Ok(tc) => match spec_read_table(d, tc.1, tc.0 as nat, Seq::empty()) {
                    Err(e) => Err(e),
                    Ok(tt) => match spec_read_elem(d, tt.1, tt.0, elem_fuel(d, tt.1)) {
                        Err(e) => Err(e),
                        Ok(te) => Ok(te.0),
                    },
                },
            },
        },
    }
}

/// Decoding is deterministic: the bytes alone determine the tree, and the
/// tree alone determines its projection. Together with the contract of
/// `Element::from_bin`, whose result equals `spec_read_document` of its
/// input, two decodes of one buffer always yield structurally identical
/// trees and identical projections.
pub proof fn lemma_pipeline_deterministic(d: Seq<u8>, e1: ElemModel, e2: ElemModel)
    requires
        spec_read_document(d) == Ok::<ElemModel, MapError>(e1),
        spec_read_document(d) == Ok::<ElemModel, MapError>(e2),
    ensures
        e1 == e2,
        crate::gamemap::spec_project(e1) == crate::gamemap::spec_project(e2),
{
}

/// A table-referenced string (tag 5) and an independently inline-encoded
/// string (tag 6) of the same content decode to the same value: nothing
/// downstream can tell them apart.
pub proof fn lemma_string_sources_indistinguishable(
    d1: Seq<u8>,
    i1: int,
    t1: Seq<Seq<char>>,
    v1: ValueModel,
    e1: int,
    d2: Seq<u8>,
    i2: int,
    t2: Seq<Seq<char>>,
    v2: ValueModel,
    e2: int,
)
    requires
        spec_read_value(d1, i1, t1) == Ok::<(ValueModel, int), MapError>((v1, e1)),
        spec_read_value(d2, i2, t2) == Ok::<(ValueModel, int), MapError>((v2, e2)),
        0 <= i1 < d1.len() && d1[i1] == 5,
        0 <= i2 < d2.len() && d2[i2] == 6,
    ensures
        v1 is Str,
        v2 is Str,
        v1->Str_0 == v2->Str_0 ==> v1 == v2,
{
}

/// Any tag byte outside 0 through 7 fails with `UnknownValueTag`.
pub proof fn lemma_unknown_tag(d: Seq<u8>, i: int, tab: Seq<Seq<char>>)
    requires
        0 <= i < d.len(),
        d[i] > 7,
    ensures
        spec_read_value(d, i, tab) == Err::<(ValueModel, int), MapError>(MapError::UnknownValueTag),
{
}

/// A successful varint stays within the buffer and consumes at least one
/// byte.
proof fn lemma_varint_rec_bounds(d: Seq<u8>, i: int, count: nat, acc: u32)
    ensures
        crate::cursor::spec_read_varint_rec(d, i, count, acc) matches Ok(t) ==> i + 1 <= t.1
            <= d.len(),
    decreases 5 - count,
{
    match spec_read_u8(d, i) {
        Err(_) => {},
        Ok(t) => {
            if t.0 & 0x80 == 0 {
            } else if count + 1 >= 5 {
            } else {
                lemma_varint_rec_bounds(d, t.1, count + 1, acc | (((t.0 & 0x7f) as u32) << ((7
                    * count) as u32)));
            }
        },
    }
}

/// A successful length-prefixed string stays within the buffer and
/// consumes at least its length byte.
proof fn lemma_string_bounds(d: Seq<u8>, i: int)
    ensures
        spec_read_string(d, i) matches Ok(t) ==> i + 1 <= t.1 <= d.len(),
{
    lemma_varint_rec_bounds(d, i, 0, 0);
}

/// Successful run-length pairs stay within the buffer and never rewind.
proof fn lemma_rle_pairs_bounds(d: Seq<u8>, i: int, n: nat, acc: Seq<char>)
    ensures
        crate::cursor::spec_read_rle_pairs(d, i, n, acc) matches Ok(t) ==> i <= t.1 && (n > 0
            ==> t.1 <= d.len()) && (n == 0 ==> t.1 == i),
    decreases n,
{
    if n > 0 {
        match spec_read_u8(d, i) {
            Err(_) => {},
            Ok(t1) => {
                match spec_read_u8(d, t1.1) {
                    Err(_) => {},
                    Ok(t2) => {
                        lemma_rle_pairs_bounds(
                            d,
                            t2.1,
                            (n - 1) as nat,
                            acc + crate::cursor::char_run(t2.0 as char, t1.0 as nat),
                        );
                    },
                }
            },
        }
    }
}

/// A successful run-length string stays within the buffer.
proof fn lemma_rle_bounds(d: Seq<u8>, i: int)
    ensures
        spec_read_rle_string(d, i) matches Ok(t) ==> i + 2 <= t.1 <= d.len(),
{
    match spec_read_i16_le(d, i) {
        Err(_) => {},
        Ok(t) => {
            let pairs: nat = if t.0 <= 0 {
                0
            } else {
                (t.0 / 2) as nat
            };
            lemma_rle_pairs_bounds(d, t.1, pairs, Seq::empty());
        },
    }
}

/// A successful value stays within the buffer and consumes at least the
/// tag and one payload byte.
proof fn lemma_value_bounds(d: Seq<u8>, i: int, tab: Seq<Seq<char>>)
    ensures
        spec_read_value(d, i, tab) matches Ok(t) ==> i + 2 <= t.1 <= d.len(),
{
    match spec_read_u8(d, i) {
        Err(_) => {},
        Ok(t) => {
            lemma_string_bounds(d, t.1);
            lemma_rle_bounds(d, t.1);
        },
    }
}

/// Successful attributes stay within the buffer and never rewind.
proof fn lemma_attrs_bounds(
    d: Seq<u8>,
    i: int,
    tab: Seq<Seq<char>>,
    n: nat,
    acc: Map<Seq<char>, ValueModel>,
)
    ensures
        spec_read_attrs(d, i, tab, n, acc) matches Ok(t) ==> i <= t.1 && (n > 0 ==> t.1
            <= d.len()) && (n == 0 ==> t.1 == i),
    decreases n,
{
    if n > 0 {
        match spec_read_u16_le(d, i) {
            Err(_) => {},
            Ok(t) => {
                if t.0 < tab.len() {
                    match spec_read_value(d, t.1, tab) {
                        Err(_) => {},
                        Ok(tv) => {
                            lemma_value_bounds(d, t.1, tab);
                            lemma_attrs_bounds(
                                d,
                                tv.1,
                                tab,
                                (n - 1) as nat,
                                acc.insert(tab[t.0 as int], tv.0),
                            );
                        },
                    }
                }
            },
        }
    }
}

/// A successful element stays within the buffer and consumes at least its
/// name index, attribute count and child count.
pub proof fn lemma_elem_bounds(d: Seq<u8>, i: int, tab: Seq<Seq<char>>, fuel: nat)
    ensures
        spec_read_elem(d, i, tab, fuel) matches Ok(t) ==> i + 5 <= t.1 <= d.len(),
    decreases fuel, 0nat, 0nat,
{
    if fuel > 0 {
        match spec_read_u16_le(d, i) {
            Err(_) => {},
            Ok(t) => {
                if t.0 < tab.len() {
                    match spec_read_u8(d, t.1) {
                        Err(_) => {},
                        Ok(ta) => {
                            lemma_attrs_bounds(d, ta.1, tab, ta.0 as nat, Map::empty());
                            match spec_read_attrs(d, ta.1, tab, ta.0 as nat, Map::empty()) {
                                Err(_) => {},
                                Ok(tat) => {
                                    match spec_read_i16_le(d, tat.1) {
                                        Err(_) => {},
                                        Ok(tc) => {
                                            if tc.0 >= 0 {
                                                lemma_children_bounds(
                                                    d,
                                                    tc.1,
                                                    tab,
                                                    tc.0 as nat,
                                                    Seq::empty(),
                                                    (fuel - 1) as nat,
                                                );
                                            }
                                        },
                                    }
                                },
                            }
                        },
                    }
                }
            },
        }
    }
}

/// Successful children stay within the buffer and never rewind.
pub proof fn lemma_children_bounds(
    d: Seq<u8>,
    i: int,
    tab: Seq<Seq<char>>,
    n: nat,
    acc: Seq<ElemModel>,
    fuel: nat,
)
    ensures
        spec_read_children(d, i, tab, n, acc, fuel) matches Ok(t) ==> i <= t.1 && (n > 0 ==> t.1
            <= d.len()) && (n == 0 ==> t.1 == i),
    decreases fuel, 1nat, n,
{
    if n > 0 {
        lemma_elem_bounds(d, i, tab, fuel);
        match spec_read_elem(d, i, tab, fuel) {
            Err(_) => {},
            Ok(t) => {
                lemma_children_bounds(d, t.1, tab, (n - 1) as nat, acc.push(t.0), fuel);
            },
        }
    }
}

/// Any two sufficient fuels decode an element identically: the fuel is a
/// proof device, not part of the format.
pub proof fn lemma_elem_fuel(d: Seq<u8>, i: int, tab: Seq<Seq<char>>, f1: nat, f2: nat)
    requires
        d.len() - i < f1,
        d.len() - i < f2,
    ensures
        spec_read_elem(d, i, tab, f1) == spec_read_elem(d, i, tab, f2),
    decreases f1, 0nat, 0nat,
{
    if f1 == 0 || f2 == 0 {
    } else {
        match spec_read_u16_le(d, i) {
            Err(_) => {},
            Ok(t) => {
                if t.0 < tab.len() {
                    match spec_read_u8(d, t.1) {
                        Err(_) => {},
                        Ok(ta) => {
                            lemma_attrs_bounds(d, ta.1, tab, ta.0 as nat, Map::empty());
                            match spec_read_attrs(d, ta.1, tab, ta.0 as nat, Map::empty()) {
                                Err(_) => {},
                                Ok(tat) => {
                                    match spec_read_i16_le(d, tat.1) {
                                        Err(_) => {},
                                        Ok(tc) => {
                                            if tc.0 >= 0 {
                                                lemma_children_fuel(
                                                    d,
                                                    tc.1,
                                                    tab,
                                                    tc.0 as nat,
                                                    Seq::empty(),
                                                    (f1 - 1) as nat,
                                                    (f2 - 1) as nat,
                                                );
                                            }
                                        },
                                    }
                                },
                            }
                        },
                    }
                }
            },
        }
    }
}

/// Decodes one tagged value, consuming exactly the bytes its tag
/// prescribes.
fn decode_value(c: &mut Cursor<'_>, table: &Vec<String>) -> (r: Result<Value, MapError>)
    requires
        old(c).wf(),
    ensures
        final(c).wf(),
        final(c).data@ == old(c).data@,
        old(c).pos <= final(c).pos,
        (match spec_read_value(old(c).data@, old(c).pos as int, table_models(table@)) {
            Ok(t) => r matches Ok(v) && v@ == t.0 && final(c).pos as int == t.1,
            Err(e) => r == Err::<Value, MapError>(e),
        }),
{
    let tag = match c.read_u8() {
        Ok(v) => v,
        Err(e) => {
            return Err(e);
        },
    };
    if tag == 0 {
        match c.read_u8() {
            Ok(v) => Ok(Value::Bool(v != 0)),
            Err(e) => Err(e),
        }
    } else if tag == 1 {
        match c.read_u8() {
            Ok(v) => Ok(Value::Int(v as i32)),
            Err(e) => Err(e),
        }
    } else if tag == 2 {
        match c.read_i16_le() {
            Ok(v) => Ok(Value::Int(v as i32)),
            Err(e) => Err(e),
        }
    } else if tag == 3 {
        match c.read_i32_le() {
            Ok(v) => Ok(Value::Int(v)),
            Err(e) => Err(e),
        }
    } else if tag == 4 {
        match c.read_u32_le() {
            Ok(v) => Ok(Value::Float(v)),
            Err(e) => Err(e),
        }
    } else if tag == 5 {
        match c.read_u16_le() {
            Ok(idx) => {
                if (idx as usize) < table.len() {
                    Ok(Value::Str(table[idx as usize].clone()))
                } else {
                    Err(MapError::IndexOutOfRange)
                }
            },
            Err(e) => Err(e),
        }
    } else if tag == 6 {
        match c.read_length_prefixed_string() {
            Ok(s) => Ok(Value::Str(s)),
            Err(e) => Err(e),
        }
    } else if tag == 7 {
        match c.read_rle_string() {
            Ok(s) => Ok(Value::Str(s)),
            Err(e) => Err(e),
        }
    } else {
        Err(MapError::UnknownValueTag)
    }
}

/// Reads the `n` strings of the string table, in order.
#[verifier::loop_isolation(false)]
fn read_table(c: &mut Cursor<'_>, n: u16) -> (r: Result<Vec<String>, MapError>)
    requires
        old(c).wf(),
    ensures
        final(c).wf(),
        final(c).data@ == old(c).data@,
        old(c).pos <= final(c).pos,
        (match spec_read_table(old(c).data@, old(c).pos as int, n as nat, Seq::empty()) {
            Ok(t) => r matches Ok(v) && table_models(v@) == t.0 && final(c).pos as int == t.1,
            Err(e) => r == Err::<Vec<String>, MapError>(e),
        }),
{
    let ghost d = c.data@;
    let ghost i0 = c.pos as int;
    let mut table: Vec<String> = Vec::new();
    let mut k: usize = 0;
    proof {
        assert(table_models(table@) =~= Seq::<Seq<char>>::empty());
    }
    while k < n as usize
        invariant
            k <= n as usize,
            c.wf(),
            c.data@ == d,
            i0 <= c.pos as int,
            spec_read_table(d, i0, n as nat, Seq::empty()) == spec_read_table(
                d,
                c.pos as int,
                (n - k) as nat,
                table_models(table@),
            ),
        decreases n as usize - k,
    {
        let s = match c.read_length_prefixed_string() {
            Ok(s) => s,
            Err(e) => {
                return Err(e);
            },
        };
        let ghost before = table_models(table@);
        table.push(s);
        proof {
            assert(table_models(table@) =~= before.push(s@));
        }
        k = k + 1;
    }
    Ok(table)
}

/// Decodes one element: name index, attributes, then children, depth first
/// and in document order.
#[verifier::loop_isolation(false)]
fn decode_element(c: &mut Cursor<'_>, table: &Vec<String>) -> (r: Result<Element, MapError>)
    requires
        old(c).wf(),
    ensures
        final(c).wf(),
        final(c).data@ == old(c).data@,
        old(c).pos <= final(c).pos,
        (match spec_read_elem(
            old(c).data@,
            old(c).pos as int,
            table_models(table@),
            elem_fuel(old(c).data@, old(c).pos as int),
        ) {
            Ok(t) => r matches Ok(e) && e@ == t.0 && final(c).pos as int == t.1,
            Err(e) => r == Err::<Element, MapError>(e),
        }),
    decreases old(c).data@.len() - old(c).pos,
{
    let ghost d = c.data@;
    let ghost i0 = c.pos as int;
    let ghost tab = table_models(table@);
    let ghost fuel = elem_fuel(d, i0);
    let name_idx = match c.read_u16_le() {
        Ok(v) => v,
        Err(e) => {
            return Err(e);
        },
    };
    if name_idx as usize >= table.len() {
        return Err(MapError::IndexOutOfRange);
    }
    let name = table[name_idx as usize].clone();
    let nattrs = match c.read_u8() {
        Ok(v) => v,
        Err(e) => {
            return Err(e);
        },
    };
    let ghost attrs_start = c.pos as int;
    let mut attributes: Vec<Attr> = Vec::new();
    let mut k: usize = 0;
    proof {
        assert(attr_models(attributes@) =~= Seq::<crate::model::AttrModel>::empty());
        assert(attrs_map(attr_models(attributes@)) =~= Map::<Seq<char>, ValueModel>::empty());
    }
    while k < nattrs as usize
        invariant
            k <= nattrs as usize,
            c.wf(),
            c.data@ == d,
            attrs_start <= c.pos as int,
            spec_read_attrs(d, attrs_start, tab, nattrs as nat, Map::empty()) == spec_read_attrs(
                d,
                c.pos as int,
                tab,
                (nattrs - k) as nat,
                attrs_map(attr_models(attributes@)),
            ),
        decreases nattrs as usize - k,
    {
        let key_idx = match c.read_u16_le() {
            Ok(v) => v,
            Err(e) => {
                return Err(e);
            },
        };
        if key_idx as usize >= table.len() {
            return Err(MapError::IndexOutOfRange);
        }
        let key = table[key_idx as usize].clone();
        let value = match decode_value(c, table) {
            Ok(v) => v,
            Err(e) => {
                return Err(e);
            },
        };
        let ghost before = attr_models(attributes@);
        let a = Attr { key, value };
        let ghost am = a@;
        attributes.push(a);
        proof {
            assert(attr_models(attributes@) =~= before.push(am));
            crate::model::lemma_attrs_map_push(before, am);
        }
        k = k + 1;
    }
    let nchild = match c.read_i16_le() {
        Ok(v) => v,
        Err(e) => {
            return Err(e);
        },
    };
    if nchild < 0 {
        return Err(MapError::MalformedCount);
    }
    let ghost child_start = c.pos as int;
    let mut children: Vec<Element> = Vec::new();
    let mut k: usize = 0;
    proof {
        assert(children_models(children@) =~= Seq::<ElemModel>::empty());
    }
    while k < nchild as usize
        invariant
            k <= nchild as usize,
            c.wf(),
            c.data@ == d,
            child_start <= c.pos as int,
            i0 + 5 <= child_start,
            spec_read_children(d, child_start, tab, nchild as nat, Seq::empty(), (fuel - 1) as nat)
                == spec_read_children(
                d,
                c.pos as int,
                tab,
                (nchild - k) as nat,
                children_models(children@),
                (fuel - 1) as nat,
            ),
        decreases nchild as usize - k,
    {
        proof {
            lemma_elem_fuel(d, c.pos as int, tab, (fuel - 1) as nat, elem_fuel(d, c.pos as int));
        }
        let child = match decode_element(c, table) {
            Ok(v) => v,
            Err(e) => {
                return Err(e);
            },
        };
        let ghost prev = children@;
        let ghost cm = child@;
        children.push(child);
        proof {
            assert(children@.drop_last() =~= prev);
            assert(children_models(children@) == children_models(prev).push(cm));
        }
        k = k + 1;
    }
    Ok(Element { name, attributes, children })
}

impl Element {
    /// Decodes one whole document: the two header strings are read and
    /// discarded, the string table is built, and the root element is
    /// decoded recursively. The result is a function of the input bytes
    /// alone: the same buffer always yields the same tree or the same
    /// error.
    pub fn from_bin(data: &[u8]) -> (r: Result<Element, MapError>)
        ensures
            (match spec_read_document(data@) {
                Ok(m) => r matches Ok(e) && e@ == m,
                Err(e) => r == Err::<Element, MapError>(e),
            }),
    {
        let mut c = Cursor::new(data);
        match c.read_length_prefixed_string() {
            Ok(_) => (),
            Err(e) => {
                return Err(e);
            },
        };
        match c.read_length_prefixed_string() {
            Ok(_) => (),
            Err(e) => {
                return Err(e);
            },
        };
        let n = match c.read_u16_le() {
            Ok(v) => v,
            Err(e) => {
                return Err(e);
            },
        };
        let table = match read_table(&mut c, n) {
            Ok(v) => v,
            Err(e) => {
                return Err(e);
            },
        };
        match decode_element(&mut c, &table) {
            Ok(e) => Ok(e),
            Err(e) => Err(e),
        }
    }
}

/// Any two sufficient fuels decode a run of children identically.
pub proof fn lemma_children_fuel(
    d: Seq<u8>,
    i: int,
    tab: Seq<Seq<char>>,
    n: nat,
    acc: Seq<ElemModel>,
    f1: nat,
    f2: nat,
)
    requires
        d.len() - i < f1,
        d.len() - i < f2,
    ensures
        spec_read_children(d, i, tab, n, acc, f1) == spec_read_children(d, i, tab, n, acc, f2),
    decreases f1, 1nat, n,
{
    if n > 0 {
        lemma_elem_fuel(d, i, tab, f1, f2);
        lemma_elem_bounds(d, i, tab, f1);
        match spec_read_elem(d, i, tab, f1) {
            Err(_) => {},
            Ok(t) => {
                lemma_children_fuel(d, t.1, tab, (n - 1) as nat, acc.push(t.0), f1, f2);
            },
        }
    }
}

} // verus!

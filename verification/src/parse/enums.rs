//! Parsing of `<enums>` blocks into `RawEnumGroup` (Vulkan typed enums) and
//! the flat table of GL-style `#define` constants.

use vstd::prelude::*;

use crate::error::{Error, Fault};
use crate::ir::{opt_text, EnumView, GroupView, RawEnum, RawEnumGroup};
use crate::ordered_map::{
    entry_insert, entry_value, enum_entries, key_pos, lemma_entry_insert_value, lemma_key_pos_absent, enum_map_contains, enum_map_insert, enum_map_into_values,
    enum_map_new, index_entries, index_map_get, index_map_insert, index_map_new,
};
use crate::parse::{across, ref_view, Lookup, SpecDocs};
use crate::parse::features::owned_text;
use crate::parse::xml::{attr, elems_named, kids, XmlDoc, XmlNode};
use crate::text::str_eq;
use crate::parse::{compute_ext_enum_value, ext_enum_value};
use crate::text::{chars_of, decimal, parse_u32, parse_u32_spec, push_decimal, string_from_chars};
use indexmap::IndexMap;

verus! {

// ---------------------------------------------------------------------------
// A single <enum>
// ---------------------------------------------------------------------------

/// `t` as a `u32`, when it is one.
pub open spec fn u32_of(t: Seq<char>) -> Option<u32> {
    match parse_u32_spec(t) {
        Ok(v) => Some(v),
        Err(_) => None,
    }
}

/// The hex digit of bit `r` (0..4) of a nibble: `1`, `2`, `4` or `8`.
pub open spec fn bit_digit(r: nat) -> char {
    if r == 0 {
        '1'
    } else if r == 1 {
        '2'
    } else if r == 2 {
        '4'
    } else {
        '8'
    }
}

/// `format!("0x{:016X}", 1u64 << pos)`: `0x` and sixteen uppercase hex
/// digits, all `0` but the one holding the bit.
pub open spec fn bit_text(pos: nat) -> Seq<char> {
    seq!['0', 'x'] + Seq::new(
        16,
        |i: int|
            if 15 - i == pos / 4 {
                bit_digit(pos % 4)
            } else {
                '0'
            },
    )
}

/// The decimal text of an integer, with a leading `-` when negative.
pub open spec fn int_text(v: int) -> Seq<char> {
    if v < 0 {
        seq!['-'] + decimal((-v) as nat)
    } else {
        decimal(v as nat)
    }
}

/// The value text of an `<enum>`: `value=` as written; `bitpos=` as a
/// 64-bit hex mask; `offset=` through the extension offset formula (with
/// the element's own `extnumber=` when it parses, else `ext`); none for a
/// pure alias.
pub open spec fn enum_value(n: XmlNode, name: Seq<char>, ext: Option<u32>) -> Result<Option<Seq<char>>, Fault> {
    let ext = match attr(n, "extnumber"@) {
        Some(t) => match u32_of(t) {
            Some(v) => Some(v),
            None => ext,
        },
        None => ext,
    };
    match attr(n, "value"@) {
        Some(v) => Ok(Some(v)),
        None => match attr(n, "bitpos"@) {
            Some(b) => match parse_u32_spec(b) {
                Err(k) => Err(Fault::InvalidInteger(k)),
                Ok(pos) => if pos >= 64 {
                    Err(Fault::BitposTooWide(pos))
                } else {
                    Ok(Some(bit_text(pos as nat)))
                },
            },
            None => match attr(n, "offset"@) {
                Some(o) => match ext {
                    None => Err(Fault::OffsetWithoutExtnumber(name)),
                    Some(e) => match parse_u32_spec(o) {
                        Err(k) => Err(Fault::InvalidInteger(k)),
                        Ok(off) => Ok(Some(int_text(ext_enum_value(e, off, attr(n, "dir"@) == Some("-"@))))),
                    },
                },
                None => Ok(None),
            },
        },
    }
}

/// What an `<enum>` element parses to, given the extension number and the
/// typed group inherited from where it stands.
pub open spec fn flat_enum(n: XmlNode, ext: Option<u32>, parent: Option<Seq<char>>) -> Result<EnumView, Fault> {
    match attr(n, "name"@) {
        None => Err(Fault::EnumNoName),
        Some(name) => match enum_value(n, name, ext) {
            Err(f) => Err(f),
            Ok(value) => Ok(
                EnumView {
                    name: name,
                    value: value,
                    api: attr(n, "api"@),
                    type_suffix: attr(n, "type"@),
                    alias: attr(n, "alias"@),
                    comment: match attr(n, "comment"@) {
                        Some(c) => c,
                        None => Seq::empty(),
                    },
                    parent_type: parent,
                },
            ),
        },
    }
}

/// `u32::from_str` on a text, when it parses.
pub(crate) fn u32_from(t: &str) -> (r: Option<u32>)
    ensures
        r == u32_of(t@),
{
    let c = chars_of(t);
    assert(c@.subrange(0, c@.len() as int) =~= t@);
    match parse_u32(c.as_slice(), 0, c.len()) {
        Ok(v) => Some(v),
        Err(_) => None,
    }
}

/// `u32::from_str` on a text.
fn u32_parse(t: &str) -> (r: Result<u32, crate::text::IntErrorKind>)
    ensures
        r == parse_u32_spec(t@),
{
    let c = chars_of(t);
    assert(c@.subrange(0, c@.len() as int) =~= t@);
    parse_u32(c.as_slice(), 0, c.len())
}

/// The 64-bit hex mask text of bit `pos`.
fn bit_mask_text(pos: u32) -> (r: String)
    requires
        pos < 64,
    ensures
        r@ == bit_text(pos as nat),
{
    let mut out: Vec<char> = Vec::new();
    out.push('0');
    out.push('x');
    let q = pos / 4;
    let m = pos % 4;
    let d = if m == 0 {
        '1'
    } else if m == 1 {
        '2'
    } else if m == 2 {
        '4'
    } else {
        '8'
    };
    let mut i: u32 = 0;
    while i < 16
        invariant
            i <= 16,
            q == pos / 4,
            d == bit_digit((pos % 4) as nat),
            out@.len() == 2 + i,
            out@.subrange(0, 2) == seq!['0', 'x'],
            forall|k: int| 2 <= k < 2 + i ==> #[trigger] out@[k] == (if 17 - k == pos / 4 { d } else { '0' }),
        decreases 16 - i,
    {
        if 15 - i == q {
            out.push(d);
        } else {
            out.push('0');
        }
        i = i + 1;
    }
    assert(out@ =~= bit_text(pos as nat));
    string_from_chars(out.as_slice())
}

/// The decimal text of an `i64`.
fn int_string(v: i64) -> (r: String)
    requires
        v > i64::MIN,
    ensures
        r@ == int_text(v as int),
{
    let mut out: Vec<char> = Vec::new();
    if v < 0 {
        out.push('-');
        push_decimal(&mut out, (-v) as u64);
    } else {
        push_decimal(&mut out, v as u64);
    }
    string_from_chars(out.as_slice())
}

/// Parse a single `<enum>` element.  `parent_extnumber` is the extension
/// number of the feature or extension it stands in (for `offset=`), and
/// `parent_type` the typed group it belongs to.
pub fn parse_flat_enum(doc: &XmlDoc, node: usize, parent_extnumber: Option<u32>, parent_type: Option<&str>) -> (r:
    Result<RawEnum, Error>)
    requires
        node < doc.nodes@.len(),
    ensures
        match flat_enum(
            doc.nodes@[node as int],
            parent_extnumber,
            match parent_type {
                Some(p) => Some(p@),
                None => None,
            },
        ) {
            Ok(e) => r matches Ok(v) && v@ == e,
            Err(f) => r matches Err(e) && e@ == f,
        },
{
    let ghost n = doc.nodes@[node as int];
    let name = match doc.attribute(node, "name") {
        Some(nm) => nm,
        None => return Err(Error::EnumNoName),
    };
    let api = owned_text(doc.attribute(node, "api"));
    let type_suffix = owned_text(doc.attribute(node, "type"));
    let alias = owned_text(doc.attribute(node, "alias"));
    let comment: &str = match doc.attribute(node, "comment") {
        Some(c) => c,
        None => "",
    };
    proof {
        reveal_strlit("");
    }
    let extnumber = match doc.attribute(node, "extnumber") {
        Some(t) => match u32_from(t) {
            Some(v) => Some(v),
            None => parent_extnumber,
        },
        None => parent_extnumber,
    };
    let value: Option<String> = match doc.attribute(node, "value") {
        Some(v) => Some(v.to_owned()),
        None => match doc.attribute(node, "bitpos") {
            Some(b) => {
                let pos = match u32_parse(b) {
                    Ok(p) => p,
                    Err(kind) => return Err(Error::InvalidInteger { kind }),
                };
                if pos >= 64 {
                    return Err(Error::BitposTooWide { pos });
                }
                Some(bit_mask_text(pos))
            },
            None => match doc.attribute(node, "offset") {
                Some(o) => {
                    let ext = match extnumber {
                        Some(e) => e,
                        None => return Err(Error::OffsetWithoutExtnumber { name: name.to_owned() }),
                    };
                    let off = match u32_parse(o) {
                        Ok(v) => v,
                        Err(kind) => return Err(Error::InvalidInteger { kind }),
                    };
                    let dir = doc.attribute(node, "dir");
                    let computed = compute_ext_enum_value(ext, off, dir);
                    Some(int_string(computed))
                },
                None => None,
            },
        },
    };
    let parent: Option<String> = match parent_type {
        Some(p) => Some(p.to_owned()),
        None => None,
    };
    Ok(RawEnum { name: name.to_owned(), value, api, type_suffix, alias, comment: comment.to_owned(), parent_type: parent })
}

// ---------------------------------------------------------------------------
// Vulkan typed enum groups
// ---------------------------------------------------------------------------

/// A table of enums by name, in declaration order.
pub type EnumTable = Seq<(Seq<char>, EnumView)>;

/// Declare `e` in the table: the first declaration of a name wins.
pub open spec fn declare_enum(es: EnumTable, e: EnumView) -> EnumTable {
    if entry_value(es, e.name) is None {
        entry_insert(es, e.name, e)
    } else {
        es
    }
}

/// The values of a typed group's `<enum>` children `cs`, declared in
/// order; the first error stops the scan.
pub open spec fn group_fold(ns: Seq<XmlNode>, cs: Seq<int>, parent: Seq<char>) -> Result<EnumTable, Fault>
    decreases cs.len(),
{
    if cs.len() == 0 {
        Ok(Seq::empty())
    } else {
        match group_fold(ns, cs.drop_last(), parent) {
            Err(f) => Err(f),
            Ok(es) => match flat_enum(ns[cs.last()], None, Some(parent)) {
                Err(f) => Err(f),
                Ok(e) => Ok(declare_enum(es, e)),
            },
        }
    }
}

/// The typed enum group an `<enums type="enum"|"bitmask">` block declares.
pub open spec fn enum_group(ns: Seq<XmlNode>, i: int) -> Result<GroupView, Fault> {
    match attr(ns[i], "name"@) {
        None => Err(Fault::GroupNoName),
        Some(name) => match group_fold(ns, elems_named(ns, kids(ns, i), "enum"@), name) {
            Err(f) => Err(f),
            Ok(es) => Ok(
                GroupView {
                    name: name,
                    bitwidth: match attr(ns[i], "bitwidth"@) {
                        Some(t) => u32_of(t),
                        None => None,
                    },
                    values: es.map_values(|e: (Seq<char>, EnumView)| e.1),
                },
            ),
        },
    }
}

/// Parse a typed `<enums>` block: its name, bit width and values (each
/// name once, first declaration kept).
pub fn parse_enum_group(doc: &XmlDoc, block: usize) -> (r: Result<RawEnumGroup, Error>)
    requires
        doc.wf(),
        block < doc.nodes@.len(),
    ensures
        match enum_group(doc.nodes@, block as int) {
            Ok(g) => r matches Ok(v) && v@ == g,
            Err(f) => r matches Err(e) && e@ == f,
        },
{
    let ghost ns = doc.nodes@;
    let name = match doc.attribute(block, "name") {
        Some(nm) => nm,
        None => return Err(Error::GroupNoName),
    };
    let bitwidth = match doc.attribute(block, "bitwidth") {
        Some(t) => u32_from(t),
        None => None,
    };
    let cs = doc.children_named(block, "enum");
    let ghost cv = cs@.map_values(|c: usize| c as int);
    let mut values = enum_map_new();
    let mut k: usize = 0;
    assert(cv.take(0) =~= Seq::<int>::empty());
    while k < cs.len()
        invariant
            doc.wf(),
            ns == doc.nodes@,
            k <= cs@.len(),
            cv == cs@.map_values(|c: usize| c as int),
            forall|m: int| 0 <= m < cs@.len() ==> cs@[m] < ns.len(),
            cv == elems_named(ns, kids(ns, block as int), "enum"@),
            block < ns.len(),
            attr(ns[block as int], "name"@) == Some(name@),
            group_fold(ns, cv.take(k as int), name@) == Ok::<EnumTable, Fault>(enum_entries(values)),
        decreases cs@.len() - k,
    {
        assert(cv.take(k + 1).drop_last() =~= cv.take(k as int));
        assert(cv.take(k + 1).last() == cs@[k as int] as int);
        let e = match parse_flat_enum(doc, cs[k], None, Some(name)) {
            Ok(e) => e,
            Err(err) => {
                proof {
                    assert(group_fold(ns, cv.take(k + 1), name@) == Err::<EnumTable, Fault>(err@));
                    lemma_group_fold_error(ns, cv, name@, k as int + 1);
                    assert(cv.take(cs@.len() as int) =~= cv);
                }
                return Err(err);
            },
        };
        if !enum_map_contains(&values, e.name.as_str()) {
            let key = e.name.clone();
            enum_map_insert(&mut values, key, e);
        }
        k = k + 1;
    }
    assert(cv.take(cs@.len() as int) =~= cv);
    let vals = enum_map_into_values(values);
    Ok(RawEnumGroup { name: name.to_owned(), bitwidth, values: vals })
}

/// An error in a prefix of the scan is the error of the whole scan.
proof fn lemma_group_fold_error(ns: Seq<XmlNode>, cs: Seq<int>, parent: Seq<char>, k: int)
    requires
        0 <= k <= cs.len(),
        group_fold(ns, cs.take(k), parent) is Err,
    ensures
        group_fold(ns, cs, parent) == group_fold(ns, cs.take(k), parent),
    decreases cs.len() - k,
{
    if k < cs.len() {
        assert(cs.take(k + 1).drop_last() =~= cs.take(k));
        lemma_group_fold_error(ns, cs, parent, k + 1);
    } else {
        assert(cs.take(k) =~= cs);
    }
}


// ---------------------------------------------------------------------------
// Values that Vulkan features and extensions add
// ---------------------------------------------------------------------------

/// The typed groups and the flat constants, as the collection pass sees them.
pub type EnumState = (Seq<GroupView>, EnumTable);

/// The group-name → position table: each group's name inserted in order,
/// so that of two groups with one name the later one is found.
pub open spec fn group_table(names: Seq<Seq<char>>) -> Seq<(Seq<char>, usize)>
    decreases names.len(),
{
    if names.len() == 0 {
        Seq::empty()
    } else {
        entry_insert(group_table(names.drop_last()), names.last(), (names.len() - 1) as usize)
    }
}

/// The names of the groups, in order.
pub open spec fn group_names(gs: Seq<GroupView>) -> Seq<Seq<char>> {
    gs.map_values(|g: GroupView| g.name)
}

/// The value of the first entry of `vs` named `name`, if there is one.
pub open spec fn existing_value(vs: Seq<EnumView>, name: Seq<char>) -> Option<Option<Seq<char>>>
    decreases vs.len(),
{
    if vs.len() == 0 {
        None
    } else if vs[0].name == name {
        Some(vs[0].value)
    } else {
        existing_value(vs.drop_first(), name)
    }
}

/// Whether an `<enum>` without `extends=` carries a value of its own.
pub open spec fn carries_value(n: XmlNode) -> bool {
    attr(n, "value"@) is Some || attr(n, "bitpos"@) is Some || attr(n, "offset"@) is Some
}

/// One `<enum>` of a `<require>` block.  With `extends=` it adds its value
/// to the group of that name (when there is one): a name already there
/// must come with the same value, else the registry is inconsistent.
/// Without it, a value-carrying constant joins the flat table.
pub open spec fn extend_step(st: EnumState, table: Seq<(Seq<char>, usize)>, n: XmlNode, ext: Option<u32>) -> Result<EnumState, Fault> {
    match attr(n, "extends"@) {
        Some(x) => match flat_enum(n, ext, Some(x)) {
            Err(f) => Err(f),
            Ok(e) => match entry_value(table, x) {
                None => Ok(st),
                Some(gi) => {
                    let g = st.0[gi as int];
                    match existing_value(g.values, e.name) {
                        Some(v) => if v == e.value {
                            Ok(st)
                        } else {
                            Err(Fault::ConflictingEnum(e.name))
                        },
                        None => Ok(
                            (
                                st.0.update(gi as int, GroupView { name: g.name, bitwidth: g.bitwidth, values: g.values.push(e) }),
                                st.1,
                            ),
                        ),
                    }
                },
            },
        },
        None => if carries_value(n) {
            match flat_enum(n, ext, None) {
                Err(f) => Err(f),
                Ok(e) => Ok((st.0, declare_enum(st.1, e))),
            }
        } else {
            Ok(st)
        },
    }
}

/// The `<enum>` children `cs` of a `<require>` block, in order; the first
/// error stops the pass.
pub open spec fn extend_enums(st: EnumState, table: Seq<(Seq<char>, usize)>, ns: Seq<XmlNode>, cs: Seq<int>, ext: Option<u32>) -> Result<EnumState, Fault>
    decreases cs.len(),
{
    if cs.len() == 0 {
        Ok(st)
    } else {
        match extend_step(st, table, ns[cs[0]], ext) {
            Err(f) => Err(f),
            Ok(s) => extend_enums(s, table, ns, cs.drop_first(), ext),
        }
    }
}

/// The `<require>` blocks `rs` of one feature or extension, in order.
pub open spec fn extend_requires(st: EnumState, table: Seq<(Seq<char>, usize)>, ns: Seq<XmlNode>, rs: Seq<int>, ext: Option<u32>) -> Result<EnumState, Fault>
    decreases rs.len(),
{
    if rs.len() == 0 {
        Ok(st)
    } else {
        match extend_enums(st, table, ns, elems_named(ns, kids(ns, rs[0]), "enum"@), ext) {
            Err(f) => Err(f),
            Ok(s) => extend_requires(s, table, ns, rs.drop_first(), ext),
        }
    }
}

/// The extension number of a feature or extension: its `number=` when it
/// is an unsigned integer.
pub open spec fn owner_number(n: XmlNode) -> Option<u32> {
    match attr(n, "number"@) {
        Some(t) => u32_of(t),
        None => None,
    }
}

/// The features or extensions `refs` (document, node), in order.
pub open spec fn extend_owners(st: EnumState, table: Seq<(Seq<char>, usize)>, docs: Seq<XmlDoc>, refs: Seq<(int, int)>) -> Result<EnumState, Fault>
    decreases refs.len(),
{
    if refs.len() == 0 {
        Ok(st)
    } else {
        let ns = docs[refs[0].0].nodes@;
        let j = refs[0].1;
        match extend_requires(st, table, ns, elems_named(ns, kids(ns, j), "require"@), owner_number(ns[j])) {
            Err(f) => Err(f),
            Ok(s) => extend_owners(s, table, docs, refs.drop_first()),
        }
    }
}

/// The state after every feature, then every extension, has added its
/// values.
pub open spec fn extending_enums(st: EnumState, docs: Seq<XmlDoc>) -> Result<EnumState, Fault> {
    let table = group_table(group_names(st.0));
    match extend_owners(st, table, docs, across(docs, docs.len() as int, Lookup::TopLevel, "feature"@)) {
        Err(f) => Err(f),
        Ok(s) => extend_owners(s, table, docs, across(docs, docs.len() as int, Lookup::Section, "extensions"@)),
    }
}

/// The views of the groups.
pub open spec fn groups_view(gs: Seq<RawEnumGroup>) -> Seq<GroupView> {
    gs.map_values(|g: RawEnumGroup| g@)
}

/// Every position the table holds is a position of `gs`.
pub open spec fn table_in_range(table: Seq<(Seq<char>, usize)>, len: nat) -> bool {
    forall|k: Seq<char>| #[trigger] entry_value(table, k) is Some ==> entry_value(table, k)->0 < len
}

/// Two optional texts are equal.
fn same_value(a: &Option<String>, b: &Option<String>) -> (r: bool)
    ensures
        r == (opt_text(*a) == opt_text(*b)),
{
    match (a, b) {
        (Some(x), Some(y)) => str_eq(x.as_str(), y.as_str()),
        (None, None) => true,
        _ => false,
    }
}

/// Position of the first value named `name`.
fn existing_position(vs: &Vec<RawEnum>, name: &str) -> (r: Option<usize>)
    ensures
        match existing_value(vs@.map_values(|e: RawEnum| e@), name@) {
            Some(v) => r matches Some(i) && i < vs@.len() && vs@[i as int]@.value == v,
            None => r is None,
        },
{
    let ghost vv = vs@.map_values(|e: RawEnum| e@);
    let mut k: usize = 0;
    assert(vv.skip(0) =~= vv);
    while k < vs.len()
        invariant
            k <= vs@.len(),
            vv == vs@.map_values(|e: RawEnum| e@),
            existing_value(vv, name@) == existing_value(vv.skip(k as int), name@),
        decreases vs@.len() - k,
    {
        assert(vv.skip(k as int)[0] == vv[k as int]);
        if str_eq(vs[k].name.as_str(), name) {
            return Some(k);
        }
        assert(vv.skip(k as int).drop_first() =~= vv.skip(k + 1));
        k = k + 1;
    }
    None
}


/// The collection pass's state, as views.
pub open spec fn enum_state(groups: Seq<RawEnumGroup>, flat: IndexMap<String, RawEnum>) -> EnumState {
    (groups_view(groups), enum_entries(flat))
}

/// Add the values of one `<require>` block (`ext`: the extension number of
/// the feature or extension it stands in).
fn extend_from_require(
    doc: &XmlDoc,
    req: usize,
    ext: Option<u32>,
    table: &IndexMap<String, usize>,
    groups: &mut Vec<RawEnumGroup>,
    flat: &mut IndexMap<String, RawEnum>,
) -> (r: Result<(), Error>)
    requires
        doc.wf(),
        req < doc.nodes@.len(),
        table_in_range(index_entries(*table), old(groups)@.len()),
    ensures
        final(groups)@.len() == old(groups)@.len(),
        group_names(groups_view(final(groups)@)) == group_names(groups_view(old(groups)@)),
        match extend_enums(
            enum_state(old(groups)@, *old(flat)),
            index_entries(*table),
            doc.nodes@,
            elems_named(doc.nodes@, kids(doc.nodes@, req as int), "enum"@),
            ext,
        ) {
            Ok(s) => r is Ok && enum_state(final(groups)@, *final(flat)) == s,
            Err(f) => r matches Err(e) && e@ == f,
        },
{
    let cs = doc.children_named(req, "enum");
    let ghost cv = cs@.map_values(|c: usize| c as int);
    let ghost ns = doc.nodes@;
    let ghost tbl = index_entries(*table);
    let ghost goal = extend_enums(enum_state(groups@, *flat), tbl, ns, cv, ext);
    let ghost names0 = group_names(groups_view(groups@));
    let ghost len0 = groups@.len();
    let mut k: usize = 0;
    assert(cv.skip(0) =~= cv);
    while k < cs.len()
        invariant
            doc.wf(),
            ns == doc.nodes@,
            tbl == index_entries(*table),
            k <= cs@.len(),
            cv == cs@.map_values(|c: usize| c as int),
            forall|m: int| 0 <= m < cs@.len() ==> cs@[m] < ns.len(),
            groups@.len() == len0,
            len0 == old(groups)@.len(),
            group_names(groups_view(groups@)) == names0,
            names0 == group_names(groups_view(old(groups)@)),
            goal == extend_enums(enum_state(old(groups)@, *old(flat)), tbl, ns, cv, ext),
            cv == elems_named(ns, kids(ns, req as int), "enum"@),
            table_in_range(tbl, len0),
            goal == extend_enums(enum_state(groups@, *flat), tbl, ns, cv.skip(k as int), ext),
        decreases cs@.len() - k,
    {
        let c = cs[k];
        assert(cv.skip(k as int)[0] == c as int);
        assert(cv.skip(k as int).drop_first() =~= cv.skip(k + 1));
        assert(cv.skip(k as int).len() > 0);
        match doc.attribute(c, "extends") {
            Some(x) => {
                let e = match parse_flat_enum(doc, c, ext, Some(x)) {
                    Ok(e) => e,
                    Err(err) => {
                        assert(extend_step(enum_state(groups@, *flat), tbl, ns[c as int], ext) == Err::<EnumState, Fault>(err@));
                        assert(goal == Err::<EnumState, Fault>(err@));
                        return Err(err);
                    },
                };
                match index_map_get(table, x) {
                    None => {},
                    Some(gi) => {
                        assert(entry_value(tbl, x@) matches Some(i) && i < len0);
                        match existing_position(&groups[gi].values, e.name.as_str()) {
                            Some(i) => {
                                if !same_value(&groups[gi].values[i].value, &e.value) {
                                    assert(groups_view(groups@)[gi as int].values == groups@[gi as int].values@.map_values(|v: RawEnum| v@));
                                    assert(extend_step(enum_state(groups@, *flat), tbl, ns[c as int], ext) == Err::<EnumState, Fault>(Fault::ConflictingEnum(e.name@)));
                                    return Err(Error::ConflictingEnum { name: e.name });
                                }
                            },
                            None => {
                                let ghost before = groups@;
                                let ghost ev = e@;
                                let mut g = groups.remove(gi);
                                g.values.push(e);
                                proof {
                                    assert(g@.values =~= before[gi as int]@.values.push(ev));
                                }
                                groups.insert(gi, g);
                                proof {
                                    assert(groups@ =~= before.update(gi as int, groups@[gi as int]));
                                    assert(groups_view(groups@) =~= groups_view(before).update(
                                        gi as int,
                                        GroupView {
                                            name: before[gi as int]@.name,
                                            bitwidth: before[gi as int]@.bitwidth,
                                            values: before[gi as int]@.values.push(ev),
                                        },
                                    ));
                                    assert(group_names(groups_view(groups@)) =~= group_names(groups_view(before)));
                                }
                            },
                        }
                    },
                }
            },
            None => {
                if doc.attribute(c, "value").is_some() || doc.attribute(c, "bitpos").is_some() || doc.attribute(
                    c,
                    "offset",
                ).is_some() {
                    let e = match parse_flat_enum(doc, c, ext, None) {
                        Ok(e) => e,
                        Err(err) => return Err(err),
                    };
                    if !enum_map_contains(flat, e.name.as_str()) {
                        let key = e.name.clone();
                        enum_map_insert(flat, key, e);
                    }
                }
            },
        }
        k = k + 1;
    }
    assert(cv.skip(cs@.len() as int) =~= Seq::<int>::empty());
    Ok(())
}


/// Add the values of every `<require>` block of one feature or extension.
fn extend_from_owner(
    doc: &XmlDoc,
    owner: usize,
    table: &IndexMap<String, usize>,
    groups: &mut Vec<RawEnumGroup>,
    flat: &mut IndexMap<String, RawEnum>,
) -> (r: Result<(), Error>)
    requires
        doc.wf(),
        owner < doc.nodes@.len(),
        table_in_range(index_entries(*table), old(groups)@.len()),
    ensures
        final(groups)@.len() == old(groups)@.len(),
        group_names(groups_view(final(groups)@)) == group_names(groups_view(old(groups)@)),
        match extend_requires(
            enum_state(old(groups)@, *old(flat)),
            index_entries(*table),
            doc.nodes@,
            elems_named(doc.nodes@, kids(doc.nodes@, owner as int), "require"@),
            owner_number(doc.nodes@[owner as int]),
        ) {
            Ok(s) => r is Ok && enum_state(final(groups)@, *final(flat)) == s,
            Err(f) => r matches Err(e) && e@ == f,
        },
{
    let ext = match doc.attribute(owner, "number") {
        Some(t) => u32_from(t),
        None => None,
    };
    let rs = doc.children_named(owner, "require");
    let ghost rv = rs@.map_values(|c: usize| c as int);
    let ghost ns = doc.nodes@;
    let ghost tbl = index_entries(*table);
    let ghost goal = extend_requires(enum_state(groups@, *flat), tbl, ns, rv, ext);
    let ghost names0 = group_names(groups_view(groups@));
    let ghost len0 = groups@.len();
    let mut k: usize = 0;
    assert(rv.skip(0) =~= rv);
    while k < rs.len()
        invariant
            doc.wf(),
            ns == doc.nodes@,
            tbl == index_entries(*table),
            k <= rs@.len(),
            rv == rs@.map_values(|c: usize| c as int),
            rv == elems_named(ns, kids(ns, owner as int), "require"@),
            forall|m: int| 0 <= m < rs@.len() ==> rs@[m] < ns.len(),
            groups@.len() == len0,
            len0 == old(groups)@.len(),
            group_names(groups_view(groups@)) == names0,
            names0 == group_names(groups_view(old(groups)@)),
            goal == extend_requires(enum_state(old(groups)@, *old(flat)), tbl, ns, rv, ext),
            ext == owner_number(ns[owner as int]),
            table_in_range(tbl, len0),
            goal == extend_requires(enum_state(groups@, *flat), tbl, ns, rv.skip(k as int), ext),
        decreases rs@.len() - k,
    {
        assert(rv.skip(k as int)[0] == rs@[k as int] as int);
        assert(rv.skip(k as int).drop_first() =~= rv.skip(k + 1));
        assert(rv.skip(k as int).len() > 0);
        match extend_from_require(doc, rs[k], ext, table, groups, flat) {
            Ok(()) => {},
            Err(e) => return Err(e),
        }
        k = k + 1;
    }
    assert(rv.skip(rs@.len() as int) =~= Seq::<int>::empty());
    Ok(())
}

/// Add the values of the features or extensions `refs` (document, node).
fn extend_from_owners(
    docs: &SpecDocs,
    refs: &Vec<(usize, usize)>,
    table: &IndexMap<String, usize>,
    groups: &mut Vec<RawEnumGroup>,
    flat: &mut IndexMap<String, RawEnum>,
) -> (r: Result<(), Error>)
    requires
        docs.wf(),
        forall|m: int|
            0 <= m < refs@.len() ==> refs@[m].0 < docs.docs().len() && refs@[m].1 < docs.docs()[refs@[m].0 as int].nodes@.len(),
        table_in_range(index_entries(*table), old(groups)@.len()),
    ensures
        final(groups)@.len() == old(groups)@.len(),
        group_names(groups_view(final(groups)@)) == group_names(groups_view(old(groups)@)),
        match extend_owners(
            enum_state(old(groups)@, *old(flat)),
            index_entries(*table),
            docs.docs(),
            refs@.map_values(|p: (usize, usize)| ref_view(p)),
        ) {
            Ok(s) => r is Ok && enum_state(final(groups)@, *final(flat)) == s,
            Err(f) => r matches Err(e) && e@ == f,
        },
{
    let ghost rv = refs@.map_values(|p: (usize, usize)| ref_view(p));
    let ghost tbl = index_entries(*table);
    let ghost goal = extend_owners(enum_state(groups@, *flat), tbl, docs.docs(), rv);
    let ghost names0 = group_names(groups_view(groups@));
    let ghost len0 = groups@.len();
    let mut k: usize = 0;
    assert(rv.skip(0) =~= rv);
    while k < refs.len()
        invariant
            docs.wf(),
            tbl == index_entries(*table),
            k <= refs@.len(),
            rv == refs@.map_values(|p: (usize, usize)| ref_view(p)),
            forall|m: int|
                0 <= m < refs@.len() ==> refs@[m].0 < docs.docs().len() && refs@[m].1 < docs.docs()[refs@[m].0 as int].nodes@.len(),
            groups@.len() == len0,
            len0 == old(groups)@.len(),
            group_names(groups_view(groups@)) == names0,
            names0 == group_names(groups_view(old(groups)@)),
            goal == extend_owners(enum_state(old(groups)@, *old(flat)), tbl, docs.docs(), rv),
            table_in_range(tbl, len0),
            goal == extend_owners(enum_state(groups@, *flat), tbl, docs.docs(), rv.skip(k as int)),
        decreases refs@.len() - k,
    {
        let (d, j) = refs[k];
        assert(rv.skip(k as int)[0] == (d as int, j as int));
        assert(rv.skip(k as int).drop_first() =~= rv.skip(k + 1));
        assert(rv.skip(k as int).len() > 0);
        let doc = docs.doc(d);
        assert(doc.wf());
        match extend_from_owner(doc, j, table, groups, flat) {
            Ok(()) => {},
            Err(e) => return Err(e),
        }
        k = k + 1;
    }
    assert(rv.skip(refs@.len() as int) =~= Seq::<(int, int)>::empty());
    Ok(())
}

/// Vulkan: add to the typed groups (and the flat table) the values that
/// every `<require>` block of every feature, then every extension, brings.
pub fn collect_vulkan_extending_enums(
    docs: &SpecDocs,
    groups: &mut Vec<RawEnumGroup>,
    flat_enums: &mut IndexMap<String, RawEnum>,
) -> (r: Result<(), Error>)
    requires
        docs.wf(),
    ensures
        match extending_enums(enum_state(old(groups)@, *old(flat_enums)), docs.docs()) {
            Ok(s) => r is Ok && enum_state(final(groups)@, *final(flat_enums)) == s,
            Err(f) => r matches Err(e) && e@ == f,
        },
{
    let ghost names = group_names(groups_view(groups@));
    let mut table = index_map_new();
    let mut i: usize = 0;
    assert(names.take(0) =~= Seq::<Seq<char>>::empty());
    while i < groups.len()
        invariant
            i <= groups@.len(),
            names == group_names(groups_view(groups@)),
            index_entries(table) == group_table(names.take(i as int)),
            table_in_range(index_entries(table), groups@.len()),
        decreases groups@.len() - i,
    {
        let key = groups[i].name.clone();
        let ghost before = index_entries(table);
        index_map_insert(&mut table, key, i);
        proof {
            assert(names.take(i + 1).drop_last() =~= names.take(i as int));
            assert(names.take(i + 1).last() == groups@[i as int]@.name);
            assert forall|k: Seq<char>| #[trigger] entry_value(index_entries(table), k) is Some implies entry_value(
                index_entries(table),
                k,
            )->0 < groups@.len() by {
                lemma_entry_insert_value(before, groups@[i as int].name@, i, k);
            }
        }
        i = i + 1;
    }
    assert(names.take(groups@.len() as int) =~= names);
    let features = docs.all_features();
    match extend_from_owners(docs, &features, &table, groups, flat_enums) {
        Ok(()) => {},
        Err(e) => return Err(e),
    }
    let extensions = docs.all_extensions();
    extend_from_owners(docs, &extensions, &table, groups, flat_enums)
}


// ---------------------------------------------------------------------------
// All enums of a registry
// ---------------------------------------------------------------------------

/// Whether an `<enums>` block declares a typed group (`type="enum"` or
/// `type="bitmask"`).
pub open spec fn is_typed_block(n: XmlNode) -> bool {
    attr(n, "type"@) == Some("enum"@) || attr(n, "type"@) == Some("bitmask"@)
}

/// The `<enum>` children `cs` of a constant block, declared in order into
/// the flat table; the first error stops the pass.
pub open spec fn flat_fold(t: EnumTable, ns: Seq<XmlNode>, cs: Seq<int>) -> Result<EnumTable, Fault>
    decreases cs.len(),
{
    if cs.len() == 0 {
        Ok(t)
    } else {
        match flat_enum(ns[cs[0]], None, None) {
            Err(f) => Err(f),
            Ok(e) => flat_fold(declare_enum(t, e), ns, cs.drop_first()),
        }
    }
}

/// One `<enums>` block: for Vulkan a typed block becomes a group; any
/// other block adds its `<enum>` children to the flat table.
pub open spec fn block_step(st: EnumState, ns: Seq<XmlNode>, j: int, is_vulkan: bool) -> Result<EnumState, Fault> {
    if is_vulkan && is_typed_block(ns[j]) {
        match enum_group(ns, j) {
            Err(f) => Err(f),
            Ok(g) => Ok((st.0.push(g), st.1)),
        }
    } else {
        match flat_fold(st.1, ns, elems_named(ns, kids(ns, j), "enum"@)) {
            Err(f) => Err(f),
            Ok(t) => Ok((st.0, t)),
        }
    }
}

/// The `<enums>` blocks `refs` (document, node), in order.
pub open spec fn blocks_fold(st: EnumState, docs: Seq<XmlDoc>, refs: Seq<(int, int)>, is_vulkan: bool) -> Result<EnumState, Fault>
    decreases refs.len(),
{
    if refs.len() == 0 {
        Ok(st)
    } else {
        match block_step(st, docs[refs[0].0].nodes@, refs[0].1, is_vulkan) {
            Err(f) => Err(f),
            Ok(s) => blocks_fold(s, docs, refs.drop_first(), is_vulkan),
        }
    }
}

/// The groups that hold at least one value, in order.
pub open spec fn nonempty_groups(gs: Seq<GroupView>) -> Seq<GroupView>
    decreases gs.len(),
{
    if gs.len() == 0 {
        Seq::empty()
    } else if gs.last().values.len() > 0 {
        nonempty_groups(gs.drop_last()).push(gs.last())
    } else {
        nonempty_groups(gs.drop_last())
    }
}

/// The typed groups and flat constants of a registry.  For Vulkan
/// (`is_vulkan`) the groups then take the values features and extensions
/// add, and the groups left without any value are dropped.
pub open spec fn parsed_enums(docs: Seq<XmlDoc>, is_vulkan: bool) -> Result<EnumState, Fault> {
    let start: EnumState = (Seq::empty(), Seq::empty());
    match blocks_fold(start, docs, across(docs, docs.len() as int, Lookup::TopLevel, "enums"@), is_vulkan) {
        Err(f) => Err(f),
        Ok(st) => if is_vulkan {
            match extending_enums(st, docs) {
                Err(f) => Err(f),
                Ok(s) => Ok((nonempty_groups(s.0), s.1)),
            }
        } else {
            Ok(st)
        },
    }
}

/// Add the `<enum>` children of a constant block to the flat table.
fn parse_flat_block(doc: &XmlDoc, block: usize, flat: &mut IndexMap<String, RawEnum>) -> (r: Result<(), Error>)
    requires
        doc.wf(),
        block < doc.nodes@.len(),
    ensures
        match flat_fold(enum_entries(*old(flat)), doc.nodes@, elems_named(doc.nodes@, kids(doc.nodes@, block as int), "enum"@)) {
            Ok(t) => r is Ok && enum_entries(*final(flat)) == t,
            Err(f) => r matches Err(e) && e@ == f,
        },
{
    let cs = doc.children_named(block, "enum");
    let ghost cv = cs@.map_values(|c: usize| c as int);
    let ghost ns = doc.nodes@;
    let ghost goal = flat_fold(enum_entries(*flat), ns, cv);
    let mut k: usize = 0;
    assert(cv.skip(0) =~= cv);
    while k < cs.len()
        invariant
            doc.wf(),
            ns == doc.nodes@,
            k <= cs@.len(),
            cv == cs@.map_values(|c: usize| c as int),
            cv == elems_named(ns, kids(ns, block as int), "enum"@),
            forall|m: int| 0 <= m < cs@.len() ==> cs@[m] < ns.len(),
            goal == flat_fold(enum_entries(*old(flat)), ns, cv),
            goal == flat_fold(enum_entries(*flat), ns, cv.skip(k as int)),
        decreases cs@.len() - k,
    {
        assert(cv.skip(k as int)[0] == cs@[k as int] as int);
        assert(cv.skip(k as int).drop_first() =~= cv.skip(k + 1));
        assert(cv.skip(k as int).len() > 0);
        let e = match parse_flat_enum(doc, cs[k], None, None) {
            Ok(e) => e,
            Err(err) => return Err(err),
        };
        if !enum_map_contains(flat, e.name.as_str()) {
            let key = e.name.clone();
            enum_map_insert(flat, key, e);
        }
        k = k + 1;
    }
    assert(cv.skip(cs@.len() as int) =~= Seq::<int>::empty());
    Ok(())
}

/// The groups of `groups` that hold at least one value, in order.
fn keep_nonempty(groups: Vec<RawEnumGroup>) -> (r: Vec<RawEnumGroup>)
    ensures
        groups_view(r@) == nonempty_groups(groups_view(groups@)),
{
    let ghost orig = groups@;
    let ghost gv = groups_view(orig);
    let mut rest = groups;
    let mut kept: Vec<RawEnumGroup> = Vec::new();
    let mut k: usize = 0;
    let n = rest.len();
    assert(gv.take(0) =~= Seq::<GroupView>::empty());
    assert(orig.skip(0) =~= orig);
    while k < n
        invariant
            n == orig.len(),
            k <= n,
            gv == groups_view(orig),
            rest@ == orig.skip(k as int),
            groups_view(kept@) == nonempty_groups(gv.take(k as int)),
        decreases n - k,
    {
        let g = rest.remove(0);
        assert(g == orig[k as int]);
        assert(orig.skip(k as int).drop_first() =~= orig.skip(k + 1));
        assert(gv.take(k + 1).drop_last() =~= gv.take(k as int));
        assert(gv.take(k + 1).last() == g@);
        if g.values.len() > 0 {
            let ghost before = kept@;
            kept.push(g);
            assert(groups_view(kept@) =~= groups_view(before).push(g@));
        }
        k = k + 1;
    }
    assert(gv.take(n as int) =~= gv);
    kept
}

/// Parse every `<enums>` block of the registry: for Vulkan (`spec_name`
/// `vk`) the typed groups, completed by the values features and extensions
/// add and without the groups left empty; and the flat constants by name,
/// first declaration kept.
pub fn parse_enums(docs: &SpecDocs, spec_name: &str) -> (r: Result<(Vec<RawEnumGroup>, IndexMap<String, RawEnum>), Error>)
    requires
        docs.wf(),
    ensures
        match parsed_enums(docs.docs(), spec_name@ == "vk"@) {
            Ok(st) => r matches Ok(v) && groups_view(v.0@) == st.0 && enum_entries(v.1) == st.1,
            Err(f) => r matches Err(e) && e@ == f,
        },
{
    let is_vulkan = str_eq(spec_name, "vk");
    let mut enum_groups: Vec<RawEnumGroup> = Vec::new();
    let mut flat_enums = enum_map_new();
    let blocks = docs.all_enums_blocks();
    let ghost bv = blocks@.map_values(|p: (usize, usize)| ref_view(p));
    let ghost start: EnumState = (Seq::empty(), Seq::empty());
    let ghost goal = blocks_fold(start, docs.docs(), bv, is_vulkan);
    let mut k: usize = 0;
    assert(bv.skip(0) =~= bv);
    assert(enum_state(enum_groups@, flat_enums) =~= start);
    while k < blocks.len()
        invariant
            docs.wf(),
            k <= blocks@.len(),
            bv == blocks@.map_values(|p: (usize, usize)| ref_view(p)),
            forall|m: int|
                0 <= m < blocks@.len() ==> blocks@[m].0 < docs.docs().len() && blocks@[m].1 < docs.docs()[blocks@[m].0 as int].nodes@.len(),
            goal == blocks_fold(start, docs.docs(), bv, is_vulkan),
            bv == across(docs.docs(), docs.docs().len() as int, Lookup::TopLevel, "enums"@),
            is_vulkan == (spec_name@ == "vk"@),
            start == (Seq::<GroupView>::empty(), Seq::<(Seq<char>, EnumView)>::empty()),
            goal == blocks_fold(enum_state(enum_groups@, flat_enums), docs.docs(), bv.skip(k as int), is_vulkan),
        decreases blocks@.len() - k,
    {
        let (d, j) = blocks[k];
        assert(bv.skip(k as int)[0] == (d as int, j as int));
        assert(bv.skip(k as int).drop_first() =~= bv.skip(k + 1));
        assert(bv.skip(k as int).len() > 0);
        let doc = docs.doc(d);
        assert(doc.wf());
        let typed = match doc.attribute(j, "type") {
            Some(t) => str_eq(t, "enum") || str_eq(t, "bitmask"),
            None => false,
        };
        if is_vulkan && typed {
            let group = match parse_enum_group(doc, j) {
                Ok(g) => g,
                Err(e) => return Err(e),
            };
            let ghost before = enum_groups@;
            enum_groups.push(group);
            assert(groups_view(enum_groups@) =~= groups_view(before).push(group@));
        } else {
            match parse_flat_block(doc, j, &mut flat_enums) {
                Ok(()) => {},
                Err(e) => return Err(e),
            }
        }
        k = k + 1;
    }
    assert(bv.skip(blocks@.len() as int) =~= Seq::<(int, int)>::empty());
    if is_vulkan {
        match collect_vulkan_extending_enums(docs, &mut enum_groups, &mut flat_enums) {
            Ok(()) => {},
            Err(e) => return Err(e),
        }
        let kept = keep_nonempty(enum_groups);
        return Ok((kept, flat_enums));
    }
    Ok((enum_groups, flat_enums))
}


// ---------------------------------------------------------------------------
// Each name once
// ---------------------------------------------------------------------------

/// No two of `vs` share a name.
pub open spec fn distinct_names(vs: Seq<EnumView>) -> bool {
    forall|i: int, j: int| 0 <= i < j < vs.len() ==> (#[trigger] vs[i]).name != (#[trigger] vs[j]).name
}

/// Every group holds each value name once.
pub open spec fn groups_distinct(gs: Seq<GroupView>) -> bool {
    forall|k: int| 0 <= k < gs.len() ==> distinct_names(#[trigger] gs[k].values)
}

/// A table of enums keyed by their own names, each name once.
pub open spec fn table_ok(es: EnumTable) -> bool {
    &&& forall|i: int| 0 <= i < es.len() ==> (#[trigger] es[i]).0 == es[i].1.name
    &&& forall|i: int, j: int| 0 <= i < j < es.len() ==> (#[trigger] es[i]).0 != (#[trigger] es[j]).0
}

/// Declaring an enum keeps a table keyed by distinct names.
proof fn lemma_declare_keeps(es: EnumTable, e: EnumView)
    requires
        table_ok(es),
    ensures
        table_ok(declare_enum(es, e)),
{
    lemma_key_pos_absent(es, e.name);
    let r = declare_enum(es, e);
    if key_pos(es, e.name) is None {
        assert(r == es.push((e.name, e)));
        assert forall|i: int, j: int| 0 <= i < j < r.len() implies (#[trigger] r[i]).0 != (#[trigger] r[j]).0 by {
            assert(r[i] == es[i]);
            if j < es.len() {
                assert(r[j] == es[j]);
            }
        }
    }
}

/// The values of a table keyed by distinct names have distinct names.
proof fn lemma_table_values(es: EnumTable)
    requires
        table_ok(es),
    ensures
        distinct_names(es.map_values(|e: (Seq<char>, EnumView)| e.1)),
{
    let vs = es.map_values(|e: (Seq<char>, EnumView)| e.1);
    assert forall|i: int, j: int| 0 <= i < j < vs.len() implies (#[trigger] vs[i]).name != (#[trigger] vs[j]).name by {
        assert(es[i].0 != es[j].0);
    }
}

/// A typed group's scan yields a table keyed by distinct names.
proof fn lemma_group_fold_ok(ns: Seq<XmlNode>, cs: Seq<int>, parent: Seq<char>)
    ensures
        group_fold(ns, cs, parent) matches Ok(es) ==> table_ok(es),
    decreases cs.len(),
{
    if cs.len() > 0 {
        lemma_group_fold_ok(ns, cs.drop_last(), parent);
        if let Ok(es) = group_fold(ns, cs.drop_last(), parent) {
            if let Ok(e) = flat_enum(ns[cs.last()], None, Some(parent)) {
                lemma_declare_keeps(es, e);
            }
        }
    }
}

/// A constant block's scan keeps the flat table keyed by distinct names.
proof fn lemma_flat_fold_ok(t: EnumTable, ns: Seq<XmlNode>, cs: Seq<int>)
    requires
        table_ok(t),
    ensures
        flat_fold(t, ns, cs) matches Ok(r) ==> table_ok(r),
    decreases cs.len(),
{
    if cs.len() > 0 {
        if let Ok(e) = flat_enum(ns[cs[0]], None, None) {
            lemma_declare_keeps(t, e);
            lemma_flat_fold_ok(declare_enum(t, e), ns, cs.drop_first());
        }
    }
}

/// The first entry named `name`, when there is none, means no entry has
/// that name.
proof fn lemma_existing_absent(vs: Seq<EnumView>, name: Seq<char>)
    ensures
        existing_value(vs, name) is None ==> forall|i: int| 0 <= i < vs.len() ==> (#[trigger] vs[i]).name != name,
    decreases vs.len(),
{
    if vs.len() > 0 {
        lemma_existing_absent(vs.drop_first(), name);
        if existing_value(vs, name) is None {
            assert forall|i: int| 0 <= i < vs.len() implies (#[trigger] vs[i]).name != name by {
                if i > 0 {
                    assert(vs[i] == vs.drop_first()[i - 1]);
                }
            }
        }
    }
}

/// The invariant of the collection pass: groups and flat table each hold
/// a name once, and the group table points into the groups.
pub open spec fn state_ok(st: EnumState, table: Seq<(Seq<char>, usize)>) -> bool {
    &&& groups_distinct(st.0)
    &&& table_ok(st.1)
    &&& table_in_range(table, st.0.len())
}

/// One `<enum>` of a `<require>` block keeps the invariant and the number
/// of groups.
proof fn lemma_extend_step_ok(st: EnumState, table: Seq<(Seq<char>, usize)>, n: XmlNode, ext: Option<u32>)
    requires
        state_ok(st, table),
    ensures
        extend_step(st, table, n, ext) matches Ok(s) ==> state_ok(s, table) && s.0.len() == st.0.len(),
{
    match attr(n, "extends"@) {
        Some(x) => {
            if let Ok(e) = flat_enum(n, ext, Some(x)) {
                if let Some(gi) = entry_value(table, x) {
                    let g = st.0[gi as int];
                    lemma_existing_absent(g.values, e.name);
                    if existing_value(g.values, e.name) is None {
                        let g2 = GroupView { name: g.name, bitwidth: g.bitwidth, values: g.values.push(e) };
                        let gs = st.0.update(gi as int, g2);
                        assert(distinct_names(g.values));
                        assert forall|k: int| 0 <= k < gs.len() implies distinct_names(#[trigger] gs[k].values) by {
                            if k == gi {
                                let vs = g2.values;
                                assert forall|i: int, j: int| 0 <= i < j < vs.len() implies (#[trigger] vs[i]).name != (
                                #[trigger] vs[j]).name by {
                                    assert(vs[i] == g.values[i]);
                                    if j < g.values.len() {
                                        assert(vs[j] == g.values[j]);
                                    }
                                }
                            } else {
                                assert(gs[k] == st.0[k]);
                            }
                        }
                    }
                }
            }
        },
        None => {
            if carries_value(n) {
                if let Ok(e) = flat_enum(n, ext, None) {
                    lemma_declare_keeps(st.1, e);
                }
            }
        },
    }
}

/// A `<require>` block keeps the invariant and the number of groups.
proof fn lemma_extend_enums_ok(st: EnumState, table: Seq<(Seq<char>, usize)>, ns: Seq<XmlNode>, cs: Seq<int>, ext: Option<u32>)
    requires
        state_ok(st, table),
    ensures
        extend_enums(st, table, ns, cs, ext) matches Ok(s) ==> state_ok(s, table) && s.0.len() == st.0.len(),
    decreases cs.len(),
{
    if cs.len() > 0 {
        lemma_extend_step_ok(st, table, ns[cs[0]], ext);
        if let Ok(s) = extend_step(st, table, ns[cs[0]], ext) {
            lemma_extend_enums_ok(s, table, ns, cs.drop_first(), ext);
        }
    }
}

/// The `<require>` blocks of a feature or extension keep the invariant.
proof fn lemma_extend_requires_ok(st: EnumState, table: Seq<(Seq<char>, usize)>, ns: Seq<XmlNode>, rs: Seq<int>, ext: Option<u32>)
    requires
        state_ok(st, table),
    ensures
        extend_requires(st, table, ns, rs, ext) matches Ok(s) ==> state_ok(s, table) && s.0.len() == st.0.len(),
    decreases rs.len(),
{
    if rs.len() > 0 {
        let cs = elems_named(ns, kids(ns, rs[0]), "enum"@);
        lemma_extend_enums_ok(st, table, ns, cs, ext);
        if let Ok(s) = extend_enums(st, table, ns, cs, ext) {
            lemma_extend_requires_ok(s, table, ns, rs.drop_first(), ext);
        }
    }
}

/// Features or extensions keep the invariant.
proof fn lemma_extend_owners_ok(st: EnumState, table: Seq<(Seq<char>, usize)>, docs: Seq<XmlDoc>, refs: Seq<(int, int)>)
    requires
        state_ok(st, table),
    ensures
        extend_owners(st, table, docs, refs) matches Ok(s) ==> state_ok(s, table) && s.0.len() == st.0.len(),
    decreases refs.len(),
{
    if refs.len() > 0 {
        let ns = docs[refs[0].0].nodes@;
        let j = refs[0].1;
        let rs = elems_named(ns, kids(ns, j), "require"@);
        lemma_extend_requires_ok(st, table, ns, rs, owner_number(ns[j]));
        if let Ok(s) = extend_requires(st, table, ns, rs, owner_number(ns[j])) {
            lemma_extend_owners_ok(s, table, docs, refs.drop_first());
        }
    }
}

/// The group table points into the groups it was built from.
proof fn lemma_group_table_in_range(names: Seq<Seq<char>>)
    ensures
        table_in_range(group_table(names), names.len()),
    decreases names.len(),
{
    if names.len() > 0 {
        lemma_group_table_in_range(names.drop_last());
        let before = group_table(names.drop_last());
        assert forall|k: Seq<char>| #[trigger] entry_value(group_table(names), k) is Some implies entry_value(
            group_table(names),
            k,
        )->0 < names.len() by {
            lemma_entry_insert_value(before, names.last(), (names.len() - 1) as usize, k);
        }
    }
}

/// The `<enums>` blocks keep groups and flat table holding each name once.
proof fn lemma_blocks_fold_ok(st: EnumState, docs: Seq<XmlDoc>, refs: Seq<(int, int)>, is_vulkan: bool)
    requires
        groups_distinct(st.0),
        table_ok(st.1),
    ensures
        blocks_fold(st, docs, refs, is_vulkan) matches Ok(s) ==> groups_distinct(s.0) && table_ok(s.1),
    decreases refs.len(),
{
    if refs.len() > 0 {
        let ns = docs[refs[0].0].nodes@;
        let j = refs[0].1;
        if is_vulkan && is_typed_block(ns[j]) {
            if let Some(name) = attr(ns[j], "name"@) {
                lemma_group_fold_ok(ns, elems_named(ns, kids(ns, j), "enum"@), name);
            }
            if let Ok(g) = enum_group(ns, j) {
                let es = group_fold(ns, elems_named(ns, kids(ns, j), "enum"@), attr(ns[j], "name"@)->0);
                lemma_table_values(es->Ok_0);
                let gs = st.0.push(g);
                assert forall|k: int| 0 <= k < gs.len() implies distinct_names(#[trigger] gs[k].values) by {
                    if k < st.0.len() {
                        assert(gs[k] == st.0[k]);
                    }
                }
            }
        } else {
            lemma_flat_fold_ok(st.1, ns, elems_named(ns, kids(ns, j), "enum"@));
        }
        if let Ok(s) = block_step(st, ns, j, is_vulkan) {
            lemma_blocks_fold_ok(s, docs, refs.drop_first(), is_vulkan);
        }
    }
}

/// Dropping the empty groups keeps each group's names distinct.
proof fn lemma_nonempty_groups_ok(gs: Seq<GroupView>)
    requires
        groups_distinct(gs),
    ensures
        groups_distinct(nonempty_groups(gs)),
    decreases gs.len(),
{
    if gs.len() > 0 {
        assert(groups_distinct(gs.drop_last())) by {
            assert forall|k: int| 0 <= k < gs.drop_last().len() implies distinct_names(#[trigger] gs.drop_last()[k].values) by {
                assert(gs.drop_last()[k] == gs[k]);
            }
        }
        lemma_nonempty_groups_ok(gs.drop_last());
        let r = nonempty_groups(gs.drop_last());
        if gs.last().values.len() > 0 {
            let r2 = r.push(gs.last());
            assert forall|k: int| 0 <= k < r2.len() implies distinct_names(#[trigger] r2[k].values) by {
                if k < r.len() {
                    assert(r2[k] == r[k]);
                } else {
                    assert(r2[k] == gs[gs.len() - 1]);
                }
            }
        }
    }
}

/// Every typed group holds each value name once, and the flat table each
/// constant name once, keyed by it: a repeated declaration never adds a
/// second entry.
pub proof fn lemma_enum_names_unique(docs: Seq<XmlDoc>, is_vulkan: bool)
    ensures
        parsed_enums(docs, is_vulkan) matches Ok(st) ==> groups_distinct(st.0) && table_ok(st.1),
{
    let start: EnumState = (Seq::empty(), Seq::empty());
    let refs = across(docs, docs.len() as int, Lookup::TopLevel, "enums"@);
    lemma_blocks_fold_ok(start, docs, refs, is_vulkan);
    if let Ok(st) = blocks_fold(start, docs, refs, is_vulkan) {
        if is_vulkan {
            let table = group_table(group_names(st.0));
            lemma_group_table_in_range(group_names(st.0));
            lemma_extend_owners_ok(st, table, docs, across(docs, docs.len() as int, Lookup::TopLevel, "feature"@));
            if let Ok(s) = extend_owners(st, table, docs, across(docs, docs.len() as int, Lookup::TopLevel, "feature"@)) {
                lemma_extend_owners_ok(s, table, docs, across(docs, docs.len() as int, Lookup::Section, "extensions"@));
                if let Ok(s2) = extend_owners(s, table, docs, across(docs, docs.len() as int, Lookup::Section, "extensions"@)) {
                    lemma_nonempty_groups_ok(s2.0);
                }
            }
        }
    }
}

} // verus!

//! Parsing of `<types>` sections into `RawType` records, with dependency
//! ordering.

use vstd::prelude::*;
use vstd::pervasive::VecAdditionalExecFns;

use crate::ir::{opt_text, RawType, TypeView};
use crate::ordered_map::{entry_value, lemma_entry_insert_value, position_entries, positions_add, positions_get, positions_new};
use crate::parse::enums::u32_of;
use indexmap::IndexMap;
use crate::parse::features::{api_list, owned_text, split_list, Keep, Seps};
use crate::parse::xml::{attr, elems_named, is_elem, kids, lemma_sibs_step, sibs, XmlDoc, XmlNode, KIND_ELEMENT, KIND_TEXT};
use crate::parse::{across, extract_raw_c, raw_text, ref_view, rewrite, Lookup, SpecDocs};
use crate::text::{chars_of, is_ident_char, push_str, str_eq, string_between, string_from_chars, trim, trim_bounds};

verus! {

broadcast use vstd::seq_lib::lemma_seq_contains_after_push;

// ---------------------------------------------------------------------------
// Text helpers
// ---------------------------------------------------------------------------

/// The C text of node `i` (what `extract_raw_c` gives).
pub open spec fn raw_c_of(ns: Seq<XmlNode>, i: int) -> Seq<char> {
    rewrite(raw_text(ns, i), None)
}

/// A node's text (`Node::text`), or nothing.
pub open spec fn node_text(n: XmlNode) -> Seq<char> {
    match n.text {
        Some(t) => t@,
        None => Seq::empty(),
    }
}

/// The first child element of `i` with tag `tag` (`NodeExt::child`).
pub open spec fn first_elem(ns: Seq<XmlNode>, i: int, tag: Seq<char>) -> Option<int> {
    let cs = elems_named(ns, kids(ns, i), tag);
    if cs.len() > 0 {
        Some(cs[0])
    } else {
        None
    }
}

/// `ls` joined with `sep` between consecutive items.
pub open spec fn joined(ls: Seq<Seq<char>>, sep: Seq<char>) -> Seq<char>
    decreases ls.len(),
{
    if ls.len() == 0 {
        Seq::empty()
    } else if ls.len() == 1 {
        ls[0]
    } else {
        joined(ls.drop_last(), sep) + sep + ls.last()
    }
}

/// `str::trim`, as an owned text.
fn trim_owned(s: &str) -> (r: String)
    ensures
        r@ == trim(s@),
{
    let c = chars_of(s);
    assert(c@.subrange(0, c@.len() as int) =~= s@);
    let (lo, hi) = trim_bounds(c.as_slice(), 0, c.len());
    string_between(c.as_slice(), lo, hi)
}

/// The empty text.
fn empty_text() -> (r: String)
    ensures
        r@ == Seq::<char>::empty(),
{
    proof {
        reveal_strlit("");
    }
    let r = "".to_owned();
    assert(r@ =~= Seq::<char>::empty());
    r
}

/// A node's text, or the empty text.
fn text_of(doc: &XmlDoc, i: usize) -> (r: &str)
    requires
        i < doc.nodes@.len(),
    ensures
        r@ == node_text(doc.nodes@[i as int]),
{
    match &doc.nodes[i].text {
        Some(t) => t.as_str(),
        None => {
            proof {
                reveal_strlit("");
            }
            ""
        },
    }
}

/// Append `ls` joined with `sep`.
pub(crate) fn push_joined(out: &mut Vec<char>, ls: &Vec<String>, sep: &str)
    ensures
        final(out)@ == old(out)@ + joined(ls@.map_values(|l: String| l@), sep@),
{
    let ghost lv = ls@.map_values(|l: String| l@);
    let ghost start = out@;
    let mut k: usize = 0;
    assert(lv.take(0) =~= Seq::<Seq<char>>::empty());
    assert(start + joined(lv.take(0), sep@) =~= start);
    while k < ls.len()
        invariant
            k <= ls@.len(),
            lv == ls@.map_values(|l: String| l@),
            out@ == start + joined(lv.take(k as int), sep@),
        decreases ls@.len() - k,
    {
        assert(lv.take(k + 1).drop_last() =~= lv.take(k as int));
        assert(lv.take(k + 1).last() == ls@[k as int]@);
        if k > 0 {
            push_str(out, sep);
        }
        push_str(out, ls[k].as_str());
        proof {
            if k == 0 {
                assert(lv.take(1) =~= seq![ls@[0]@]);
                assert(out@ =~= start + joined(lv.take(1), sep@));
            } else {
                assert(out@ =~= start + joined(lv.take(k as int), sep@) + sep@ + ls@[k as int]@);
            }
        }
        k = k + 1;
    }
    assert(lv.take(ls@.len() as int) =~= lv);
}

// ---------------------------------------------------------------------------
// The name of a <type>
// ---------------------------------------------------------------------------

/// A `<type>` element's name: the `name=` attribute, else the text of a
/// `<name>` child, else that of `<proto><name>` (the structured
/// funcpointer form).
pub open spec fn type_name_of(ns: Seq<XmlNode>, i: int) -> Option<Seq<char>> {
    match attr(ns[i], "name"@) {
        Some(n) => Some(n),
        None => match first_elem(ns, i, "name"@) {
            Some(c) => Some(node_text(ns[c])),
            None => match first_elem(ns, i, "proto"@) {
                Some(p) => match first_elem(ns, p, "name"@) {
                    Some(c) => Some(node_text(ns[c])),
                    None => None,
                },
                None => None,
            },
        },
    }
}

/// Determine a `<type>` element's name.
fn name_of_type(doc: &XmlDoc, i: usize) -> (r: Option<String>)
    requires
        doc.wf(),
        i < doc.nodes@.len(),
    ensures
        opt_text(r) == type_name_of(doc.nodes@, i as int),
{
    if let Some(n) = doc.attribute(i, "name") {
        return Some(n.to_owned());
    }
    if let Some(c) = doc.child(i, "name") {
        return Some(text_of(doc, c).to_owned());
    }
    match doc.child(i, "proto") {
        Some(p) => match doc.child(p, "name") {
            Some(c) => Some(text_of(doc, c).to_owned()),
            None => None,
        },
        None => None,
    }
}


// ---------------------------------------------------------------------------
// Struct and union bodies
// ---------------------------------------------------------------------------

/// Whether a `<member>` belongs in the Vulkan header: it names no `api=`,
/// or `vulkan` is among its comma-separated APIs.
pub open spec fn member_for_vulkan(n: XmlNode) -> bool {
    match attr(n, "api"@) {
        Some(a) => api_list(a).contains("vulkan"@),
        None => true,
    }
}

/// The line of a member whose trimmed C text is `t`.
pub open spec fn member_line(t: Seq<char>) -> Seq<char> {
    "    "@ + t + if t.len() > 0 && t.last() == ';' {
        Seq::empty()
    } else {
        ";"@
    }
}

/// The lines of the members `cs` that belong in the header and have text.
pub open spec fn member_lines(ns: Seq<XmlNode>, cs: Seq<int>) -> Seq<Seq<char>>
    decreases cs.len(),
{
    if cs.len() == 0 {
        Seq::empty()
    } else {
        let rest = member_lines(ns, cs.drop_last());
        let t = trim(raw_c_of(ns, cs.last()));
        if member_for_vulkan(ns[cs.last()]) && t.len() > 0 {
            rest.push(member_line(t))
        } else {
            rest
        }
    }
}

/// `typedef struct Name { members } Name;` (or `union`), from the
/// `<member>` children of `<type>` element `i`.
pub open spec fn struct_text(ns: Seq<XmlNode>, i: int, name: Seq<char>, kw: Seq<char>) -> Seq<char> {
    let ls = member_lines(ns, elems_named(ns, kids(ns, i), "member"@));
    if ls.len() == 0 {
        "typedef "@ + kw + " "@ + name + " {};"@
    } else {
        "typedef "@ + kw + " "@ + name + " {\n"@ + joined(ls, "\n"@) + "\n} "@ + name + ";"@
    }
}

/// Whether `vulkan` is among the comma-separated APIs of `api`.
fn lists_vulkan(api: &str) -> (r: bool)
    ensures
        r == api_list(api@).contains("vulkan"@),
{
    let items = split_list(api, Seps::Comma, Keep::Any);
    let ghost iv = items@.map_values(|t: String| t@);
    let mut k: usize = 0;
    while k < items.len()
        invariant
            k <= items@.len(),
            iv == items@.map_values(|t: String| t@),
            iv == api_list(api@),
            forall|m: int| 0 <= m < k ==> iv[m] != "vulkan"@,
        decreases items@.len() - k,
    {
        if str_eq(items[k].as_str(), "vulkan") {
            assert(iv[k as int] == "vulkan"@);
            return true;
        }
        k = k + 1;
    }
    false
}

/// Build a `typedef struct Name { ... } Name` declaration from the
/// `<member>` children of a `<type category="struct">` or
/// `<type category="union">` element (`kw`: `struct` or `union`).
fn extract_struct(doc: &XmlDoc, i: usize, name: &str, kw: &str) -> (r: String)
    requires
        doc.wf(),
        i < doc.nodes@.len(),
    ensures
        r@ == struct_text(doc.nodes@, i as int, name@, kw@),
{
    let ghost ns = doc.nodes@;
    let cs = doc.children_named(i, "member");
    let ghost cv = cs@.map_values(|c: usize| c as int);
    let mut lines: Vec<String> = Vec::new();
    let mut k: usize = 0;
    assert(cv.take(0) =~= Seq::<int>::empty());
    while k < cs.len()
        invariant
            doc.wf(),
            ns == doc.nodes@,
            k <= cs@.len(),
            cv == cs@.map_values(|c: usize| c as int),
            forall|m: int| 0 <= m < cs@.len() ==> cs@[m] < ns.len(),
            lines@.map_values(|l: String| l@) == member_lines(ns, cv.take(k as int)),
        decreases cs@.len() - k,
    {
        let c = cs[k];
        assert(cv.take(k + 1).drop_last() =~= cv.take(k as int));
        assert(cv.take(k + 1).last() == c as int);
        let keep = match doc.attribute(c, "api") {
            Some(api) => lists_vulkan(api),
            None => true,
        };
        if keep {
            let text = extract_raw_c(doc, c);
            let t = trim_owned(text.as_str());
            let tc = chars_of(t.as_str());
            if tc.len() > 0 {
                let mut line: Vec<char> = Vec::new();
                push_str(&mut line, "    ");
                push_str(&mut line, t.as_str());
                if tc[tc.len() - 1] != ';' {
                    push_str(&mut line, ";");
                }
                proof {
                    assert(tc@.last() == t@.last());
                    assert(line@ =~= member_line(t@));
                }
                let ghost before = lines@;
                lines.push(string_from_chars(line.as_slice()));
                assert(lines@.map_values(|l: String| l@) =~= before.map_values(|l: String| l@).push(member_line(t@)));
            }
        }
        k = k + 1;
    }
    assert(cv.take(cs@.len() as int) =~= cv);
    let mut out: Vec<char> = Vec::new();
    push_str(&mut out, "typedef ");
    push_str(&mut out, kw);
    push_str(&mut out, " ");
    push_str(&mut out, name);
    if lines.len() == 0 {
        push_str(&mut out, " {};");
    } else {
        push_str(&mut out, " {\n");
        push_joined(&mut out, &lines, "\n");
        push_str(&mut out, "\n} ");
        push_str(&mut out, name);
        push_str(&mut out, ";");
    }
    string_from_chars(out.as_slice())
}


// ---------------------------------------------------------------------------
// Structured function pointers
// ---------------------------------------------------------------------------

/// The return-type text of a `<proto>` with children `cs`: the text and
/// `<type>` text before `<name>`, other elements by their C text.
pub open spec fn ret_text(ns: Seq<XmlNode>, cs: Seq<int>) -> Seq<char>
    decreases cs.len(),
{
    if cs.len() == 0 {
        Seq::empty()
    } else {
        let n = ns[cs[0]];
        let rest = ret_text(ns, cs.drop_first());
        if n.kind == KIND_TEXT {
            node_text(n) + rest
        } else if n.kind == KIND_ELEMENT {
            if n.name@ == "name"@ {
                Seq::empty()
            } else if n.name@ == "type"@ {
                node_text(n) + rest
            } else {
                raw_c_of(ns, cs[0]) + rest
            }
        } else {
            rest
        }
    }
}

/// The trimmed, non-empty C texts of the `<param>` elements `cs`.
pub open spec fn param_texts(ns: Seq<XmlNode>, cs: Seq<int>) -> Seq<Seq<char>>
    decreases cs.len(),
{
    if cs.len() == 0 {
        Seq::empty()
    } else {
        let rest = param_texts(ns, cs.drop_last());
        let t = trim(raw_c_of(ns, cs.last()));
        if t.len() > 0 {
            rest.push(t)
        } else {
            rest
        }
    }
}

/// `typedef RET (VKAPI_PTR *NAME)(params);`, with `void` for no
/// parameters.
pub open spec fn funcptr_text(name: Seq<char>, ret: Seq<char>, ps: Seq<Seq<char>>) -> Seq<char> {
    "typedef "@ + ret + " (VKAPI_PTR *"@ + name + ")("@ + (if ps.len() == 0 {
        "void"@
    } else {
        joined(ps, ", "@)
    }) + ");"@
}

/// The return type of a structured funcpointer `<type>` element `i`: the
/// trimmed return text of its `<proto>`, or nothing without one.
pub open spec fn funcptr_ret(ns: Seq<XmlNode>, i: int) -> Seq<char> {
    match first_elem(ns, i, "proto"@) {
        Some(p) => trim(ret_text(ns, kids(ns, p))),
        None => Seq::empty(),
    }
}

/// The return-type text of the `<proto>` element `p`, untrimmed.
fn proto_return(doc: &XmlDoc, p: usize) -> (r: String)
    requires
        doc.wf(),
        p < doc.nodes@.len(),
    ensures
        r@ == ret_text(doc.nodes@, kids(doc.nodes@, p as int)),
{
    let ghost ns = doc.nodes@;
    let n = doc.nodes.len();
    let mut out: Vec<char> = Vec::new();
    let mut cur = doc.first_child_of(p);
    while cur < n
        invariant
            doc.wf(),
            ns == doc.nodes@,
            n == ns.len(),
            p < n,
            cur <= n,
            ret_text(ns, kids(ns, p as int)) == out@ + ret_text(ns, sibs(ns, cur as int)),
        decreases n - cur,
    {
        proof {
            lemma_sibs_step(ns, cur as int);
        }
        let ghost rest = ret_text(ns, sibs(ns, crate::parse::xml::next_of(ns, cur as int)));
        let kind = doc.nodes[cur].kind;
        if kind == KIND_TEXT {
            let ghost before = out@;
            push_str(&mut out, text_of(doc, cur));
            assert(before + (node_text(ns[cur as int]) + rest) =~= out@ + rest);
        } else if kind == KIND_ELEMENT {
            if doc.is_element_named(cur, "name") {
                assert(out@ + Seq::<char>::empty() =~= out@);
                return string_from_chars(out.as_slice());
            } else if doc.is_element_named(cur, "type") {
                let ghost before = out@;
                push_str(&mut out, text_of(doc, cur));
                assert(before + (node_text(ns[cur as int]) + rest) =~= out@ + rest);
            } else {
                let ghost before = out@;
                let c = extract_raw_c(doc, cur);
                push_str(&mut out, c.as_str());
                assert(before + (raw_c_of(ns, cur as int) + rest) =~= out@ + rest);
            }
        }
        cur = doc.next_sibling_of(cur);
    }
    assert(sibs(ns, cur as int) =~= Seq::<int>::empty());
    assert(out@ + Seq::<char>::empty() =~= out@);
    string_from_chars(out.as_slice())
}

/// Build a `typedef RET (VKAPI_PTR *NAME)(params)` declaration from a
/// structured `<type category="funcpointer">` element that uses `<proto>`
/// and `<param>` children.
fn extract_funcpointer(doc: &XmlDoc, i: usize, name: &str) -> (r: String)
    requires
        doc.wf(),
        i < doc.nodes@.len(),
    ensures
        r@ == funcptr_text(
            name@,
            funcptr_ret(doc.nodes@, i as int),
            param_texts(doc.nodes@, elems_named(doc.nodes@, kids(doc.nodes@, i as int), "param"@)),
        ),
{
    let ghost ns = doc.nodes@;
    let ret = match doc.child(i, "proto") {
        Some(p) => {
            let raw = proto_return(doc, p);
            trim_owned(raw.as_str())
        },
        None => empty_text(),
    };
    proof {
        assert(trim(Seq::<char>::empty()) =~= Seq::<char>::empty());
    }
    let cs = doc.children_named(i, "param");
    let ghost cv = cs@.map_values(|c: usize| c as int);
    let mut params: Vec<String> = Vec::new();
    let mut k: usize = 0;
    assert(cv.take(0) =~= Seq::<int>::empty());
    while k < cs.len()
        invariant
            doc.wf(),
            ns == doc.nodes@,
            k <= cs@.len(),
            cv == cs@.map_values(|c: usize| c as int),
            forall|m: int| 0 <= m < cs@.len() ==> cs@[m] < ns.len(),
            params@.map_values(|l: String| l@) == param_texts(ns, cv.take(k as int)),
        decreases cs@.len() - k,
    {
        let c = cs[k];
        assert(cv.take(k + 1).drop_last() =~= cv.take(k as int));
        assert(cv.take(k + 1).last() == c as int);
        let text = extract_raw_c(doc, c);
        let t = trim_owned(text.as_str());
        let tc = chars_of(t.as_str());
        if tc.len() > 0 {
            let ghost before = params@;
            params.push(t);
            assert(params@.map_values(|l: String| l@) =~= before.map_values(|l: String| l@).push(tc@));
        }
        k = k + 1;
    }
    assert(cv.take(cs@.len() as int) =~= cv);
    let mut out: Vec<char> = Vec::new();
    push_str(&mut out, "typedef ");
    push_str(&mut out, ret.as_str());
    push_str(&mut out, " (VKAPI_PTR *");
    push_str(&mut out, name);
    push_str(&mut out, ")(");
    if params.len() == 0 {
        push_str(&mut out, "void");
    } else {
        push_joined(&mut out, &params, ", ");
    }
    push_str(&mut out, ");");
    string_from_chars(out.as_slice())
}


// ---------------------------------------------------------------------------
// One <type>
// ---------------------------------------------------------------------------

/// The `#include` line of an include type: its own text when it has one,
/// else a directive for the header its name gives (`<...>` for a `.h`
/// header not starting with `vk`, `"..."` otherwise).
pub open spec fn include_text(name: Seq<char>, body: Seq<char>) -> Seq<char> {
    if body.len() > 0 {
        body
    } else if name.len() >= 2 && name[name.len() - 2] == '.' && name.last() == 'h' && !(name[0] == 'v'
        && name[1] == 'k') {
        "#include <"@ + name + ">"@
    } else {
        "#include \""@ + name + "\""@
    }
}

/// The GL pointer-sized types that need the macOS `ptrdiff_t` guard.
pub open spec fn is_macos_ptrdiff_type(name: Seq<char>) -> bool {
    name == "GLsizeiptr"@ || name == "GLintptr"@ || name == "GLsizeiptrARB"@ || name == "GLintptrARB"@
}

/// The guarded definition of such a type: `long` on macOS newer than
/// 10.6, `ptrdiff_t` elsewhere.
pub open spec fn macos_guard_text(name: Seq<char>) -> Seq<char> {
    "#if defined(__ENVIRONMENT_MAC_OS_X_VERSION_MIN_REQUIRED__) \\\n&& (__ENVIRONMENT_MAC_OS_X_VERSION_MIN_REQUIRED__ > 1060)\ntypedef long "@
        + name + ";\n#else\ntypedef ptrdiff_t "@ + name + ";\n#endif"@
}

/// `typedef ALIAS NAME;`
pub open spec fn alias_typedef(alias: Seq<char>, name: Seq<char>) -> Seq<char> {
    "typedef "@ + alias + " "@ + name + ";"@
}

/// The text of a type of any other category: its own C text; for an
/// alias without text, `#define NAME ALIAS`; the macOS guard for the
/// pointer-sized GL types.
pub open spec fn other_text(name: Seq<char>, body: Seq<char>, alias: Option<Seq<char>>) -> Seq<char> {
    if is_macos_ptrdiff_type(name) {
        macos_guard_text(name)
    } else if body.len() == 0 && alias is Some {
        "#define "@ + name + " "@ + alias->0
    } else {
        body
    }
}

/// A `<type>` element's `category=`, or the empty text.
pub open spec fn category_of(n: XmlNode) -> Seq<char> {
    match attr(n, "category"@) {
        Some(c) => c,
        None => Seq::empty(),
    }
}

/// The C text of `<type>` element `i` named `name`, by category.
pub open spec fn type_text(ns: Seq<XmlNode>, i: int, name: Seq<char>) -> Seq<char> {
    let cat = category_of(ns[i]);
    let alias = attr(ns[i], "alias"@);
    let body = trim(raw_c_of(ns, i));
    if cat == "include"@ {
        include_text(name, body)
    } else if cat == "enum"@ {
        match alias {
            Some(a) => alias_typedef(a, name),
            None => Seq::empty(),
        }
    } else if cat == "struct"@ || cat == "union"@ {
        match alias {
            Some(a) => alias_typedef(a, name),
            None => struct_text(ns, i, name, if cat == "union"@ { "union"@ } else { "struct"@ }),
        }
    } else if cat == "funcpointer"@ {
        if first_elem(ns, i, "proto"@) is Some {
            funcptr_text(name, funcptr_ret(ns, i), param_texts(ns, elems_named(ns, kids(ns, i), "param"@)))
        } else {
            body
        }
    } else {
        other_text(name, body, alias)
    }
}

/// GL's pointer-sized types `GLsizeiptr`, `GLintptr`, `GLsizeiptrARB` and
/// `GLintptrARB` (plain types, outside the include, enum, struct, union
/// and function-pointer categories) are defined under the macOS guard:
/// `long` when building for macOS newer than 10.6, where `long` is
/// pointer-sized, and `ptrdiff_t` everywhere else (64-bit Windows among
/// them, where `long` is 32 bits).
pub proof fn lemma_pointer_sized_gl_types(ns: Seq<XmlNode>, i: int, name: Seq<char>)
    ensures
        (name == "GLsizeiptr"@ || name == "GLintptr"@ || name == "GLsizeiptrARB"@ || name == "GLintptrARB"@)
            && category_of(ns[i]) != "include"@ && category_of(ns[i]) != "enum"@ && category_of(ns[i]) != "struct"@
            && category_of(ns[i]) != "union"@ && category_of(ns[i]) != "funcpointer"@ ==> type_text(ns, i, name)
            == "#if defined(__ENVIRONMENT_MAC_OS_X_VERSION_MIN_REQUIRED__) \\\n&& (__ENVIRONMENT_MAC_OS_X_VERSION_MIN_REQUIRED__ > 1060)\ntypedef long "@
            + name + ";\n#else\ntypedef ptrdiff_t "@ + name + ";\n#endif"@,
{
}

/// What a `<type>` element parses to: nothing when it has no non-empty
/// name, else its name, attributes and C text.
pub open spec fn type_of(ns: Seq<XmlNode>, i: int) -> Option<TypeView> {
    match type_name_of(ns, i) {
        None => None,
        Some(name) => if name.len() == 0 {
            None
        } else {
            Some(
                TypeView {
                    name: name,
                    api: attr(ns[i], "api"@),
                    category: category_of(ns[i]),
                    requires: attr(ns[i], "requires"@),
                    alias: attr(ns[i], "alias"@),
                    bitwidth: match attr(ns[i], "bitwidth"@) {
                        Some(t) => u32_of(t),
                        None => None,
                    },
                    raw_c: type_text(ns, i, name),
                    protect: attr(ns[i], "protect"@),
                },
            )
        },
    }
}

/// The include line for `name`, given its trimmed text.
fn include_line(name: &str, body: String) -> (r: String)
    ensures
        r@ == include_text(name@, body@),
{
    let bc = chars_of(body.as_str());
    if bc.len() > 0 {
        return body;
    }
    let c = chars_of(name);
    let n = c.len();
    let header = n >= 2 && c[n - 2] == '.' && c[n - 1] == 'h' && !(c[0] == 'v' && c[1] == 'k');
    let mut out: Vec<char> = Vec::new();
    if header {
        push_str(&mut out, "#include <");
        push_str(&mut out, name);
        push_str(&mut out, ">");
    } else {
        push_str(&mut out, "#include \"");
        push_str(&mut out, name);
        push_str(&mut out, "\"");
    }
    string_from_chars(out.as_slice())
}

/// Whether `name` is one of the GL types that need the macOS guard.
fn needs_macos_guard(name: &str) -> (r: bool)
    ensures
        r == is_macos_ptrdiff_type(name@),
{
    str_eq(name, "GLsizeiptr") || str_eq(name, "GLintptr") || str_eq(name, "GLsizeiptrARB") || str_eq(
        name,
        "GLintptrARB",
    )
}

/// The guarded definition of a pointer-sized GL type.
fn macos_ptrdiff_guard(name: &str) -> (r: String)
    ensures
        r@ == macos_guard_text(name@),
{
    let mut out: Vec<char> = Vec::new();
    push_str(
        &mut out,
        "#if defined(__ENVIRONMENT_MAC_OS_X_VERSION_MIN_REQUIRED__) \\\n&& (__ENVIRONMENT_MAC_OS_X_VERSION_MIN_REQUIRED__ > 1060)\ntypedef long ",
    );
    push_str(&mut out, name);
    push_str(&mut out, ";\n#else\ntypedef ptrdiff_t ");
    push_str(&mut out, name);
    push_str(&mut out, ";\n#endif");
    string_from_chars(out.as_slice())
}

/// `typedef ALIAS NAME;`
fn alias_line(alias: &str, name: &str) -> (r: String)
    ensures
        r@ == alias_typedef(alias@, name@),
{
    let mut out: Vec<char> = Vec::new();
    push_str(&mut out, "typedef ");
    push_str(&mut out, alias);
    push_str(&mut out, " ");
    push_str(&mut out, name);
    push_str(&mut out, ";");
    string_from_chars(out.as_slice())
}

/// The C text of `<type>` element `i` named `name`.
fn type_c_text(doc: &XmlDoc, i: usize, name: &str) -> (r: String)
    requires
        doc.wf(),
        i < doc.nodes@.len(),
    ensures
        r@ == type_text(doc.nodes@, i as int, name@),
{
    proof {
        reveal_strlit("");
        assert(""@ =~= Seq::<char>::empty());
    }
    let cat: &str = match doc.attribute(i, "category") {
        Some(c) => c,
        None => "",
    };
    let alias = doc.attribute(i, "alias");
    let raw = extract_raw_c(doc, i);
    let body = trim_owned(raw.as_str());
    if str_eq(cat, "include") {
        include_line(name, body)
    } else if str_eq(cat, "enum") {
        match alias {
            Some(a) => alias_line(a, name),
            None => empty_text(),
        }
    } else if str_eq(cat, "struct") || str_eq(cat, "union") {
        match alias {
            Some(a) => alias_line(a, name),
            None => {
                let kw = if str_eq(cat, "union") {
                    "union"
                } else {
                    "struct"
                };
                extract_struct(doc, i, name, kw)
            },
        }
    } else if str_eq(cat, "funcpointer") {
        if doc.child(i, "proto").is_some() {
            extract_funcpointer(doc, i, name)
        } else {
            body
        }
    } else if needs_macos_guard(name) {
        macos_ptrdiff_guard(name)
    } else {
        let bc = chars_of(body.as_str());
        match alias {
            Some(a) if bc.len() == 0 => {
                let mut out: Vec<char> = Vec::new();
                push_str(&mut out, "#define ");
                push_str(&mut out, name);
                push_str(&mut out, " ");
                push_str(&mut out, a);
                string_from_chars(out.as_slice())
            },
            _ => body,
        }
    }
}

/// Parse one `<type>` element; `None` for one without a non-empty name
/// (it is skipped).
pub fn parse_type_node(doc: &XmlDoc, i: usize) -> (r: Option<RawType>)
    requires
        doc.wf(),
        i < doc.nodes@.len(),
    ensures
        match type_of(doc.nodes@, i as int) {
            Some(v) => r matches Some(t) && t@ == v,
            None => r is None,
        },
{
    let name = match name_of_type(doc, i) {
        Some(n) => n,
        None => return None,
    };
    let nc = chars_of(name.as_str());
    if nc.len() == 0 {
        return None;
    }
    let raw_c = type_c_text(doc, i, name.as_str());
    let bitwidth = match doc.attribute(i, "bitwidth") {
        Some(t) => crate::parse::enums::u32_from(t),
        None => None,
    };
    let category = match doc.attribute(i, "category") {
        Some(c) => c.to_owned(),
        None => empty_text(),
    };
    Some(
        RawType {
            name,
            api: owned_text(doc.attribute(i, "api")),
            category,
            requires: owned_text(doc.attribute(i, "requires")),
            alias: owned_text(doc.attribute(i, "alias")),
            bitwidth,
            raw_c,
            protect: owned_text(doc.attribute(i, "protect")),
        },
    )
}


// ---------------------------------------------------------------------------
// All <type> elements
// ---------------------------------------------------------------------------

/// The types the elements `refs` (document, node) declare, in order:
/// every `<type>` with a non-empty name.
pub open spec fn types_in(docs: Seq<XmlDoc>, refs: Seq<(int, int)>) -> Seq<TypeView>
    decreases refs.len(),
{
    if refs.len() == 0 {
        Seq::empty()
    } else {
        let rest = types_in(docs, refs.drop_last());
        let ns = docs[refs.last().0].nodes@;
        let j = refs.last().1;
        if ns[j].name@ == "type"@ {
            match type_of(ns, j) {
                Some(t) => rest.push(t),
                None => rest,
            }
        } else {
            rest
        }
    }
}

/// Some type named `a` is 64 bits wide.
pub open spec fn wide_name(ts: Seq<TypeView>, a: Seq<char>) -> bool {
    exists|k: int| 0 <= k < ts.len() && (#[trigger] ts[k]).name == a && ts[k].bitwidth == Some(64u32)
}

/// A type without a width of its own that aliases a 64-bit type is 64
/// bits wide too (one step: the widths are those declared).
pub open spec fn widened(ts: Seq<TypeView>, t: TypeView) -> TypeView {
    if t.bitwidth is None && t.alias is Some && wide_name(ts, t.alias->0) {
        TypeView {
            name: t.name,
            api: t.api,
            category: t.category,
            requires: t.requires,
            alias: t.alias,
            bitwidth: Some(64u32),
            raw_c: t.raw_c,
            protect: t.protect,
        }
    } else {
        t
    }
}

/// Every type with its width propagated.
pub open spec fn with_bitwidth(ts: Seq<TypeView>) -> Seq<TypeView> {
    ts.map_values(|t: TypeView| widened(ts, t))
}

/// The views of a list of types.
pub open spec fn type_views(ts: Seq<RawType>) -> Seq<TypeView> {
    ts.map_values(|t: RawType| t@)
}

/// Whether some type of `ts` named `a` is 64 bits wide.
fn has_wide(ts: &Vec<RawType>, a: &str) -> (r: bool)
    ensures
        r == wide_name(type_views(ts@), a@),
{
    let ghost tv = type_views(ts@);
    let mut k: usize = 0;
    while k < ts.len()
        invariant
            k <= ts@.len(),
            tv == type_views(ts@),
            forall|m: int| 0 <= m < k ==> !((#[trigger] tv[m]).name == a@ && tv[m].bitwidth == Some(64u32)),
        decreases ts@.len() - k,
    {
        if ts[k].bitwidth == Some(64u32) && str_eq(ts[k].name.as_str(), a) {
            assert(tv[k as int].name == a@);
            return true;
        }
        k = k + 1;
    }
    false
}

/// Propagate 64-bit widths through aliases.
fn propagate_bitwidth(types: &mut Vec<RawType>)
    ensures
        type_views(final(types)@) == with_bitwidth(type_views(old(types)@)),
{
    let ghost orig = type_views(types@);
    let n = types.len();
    let mut wide: Vec<bool> = Vec::new();
    let mut k: usize = 0;
    while k < n
        invariant
            n == types@.len(),
            orig == type_views(types@),
            k <= n,
            wide@.len() == k,
            forall|m: int| 0 <= m < k ==> #[trigger] wide@[m] == (orig[m].bitwidth is None && orig[m].alias is Some
                && wide_name(orig, orig[m].alias->0)),
        decreases n - k,
    {
        let w = match &types[k].alias {
            Some(a) => types[k].bitwidth.is_none() && has_wide(types, a.as_str()),
            None => false,
        };
        wide.push(w);
        k = k + 1;
    }
    let mut i: usize = 0;
    while i < n
        invariant
            n == types@.len(),
            n == orig.len(),
            i <= n,
            wide@.len() == n,
            forall|m: int| 0 <= m < n ==> #[trigger] wide@[m] == (orig[m].bitwidth is None && orig[m].alias is Some
                && wide_name(orig, orig[m].alias->0)),
            forall|m: int| 0 <= m < i ==> (#[trigger] types@[m])@ == widened(orig, orig[m]),
            forall|m: int| i <= m < n ==> (#[trigger] types@[m])@ == orig[m],
        decreases n - i,
    {
        if wide[i] {
            let ghost before = types@;
            let mut t = types.remove(i);
            t.bitwidth = Some(64u32);
            types.insert(i, t);
            assert(types@ =~= before.update(i as int, types@[i as int]));
        }
        i = i + 1;
    }
    assert(type_views(types@) =~= with_bitwidth(orig));
}

/// The `<type>` elements of every `<types>` section, with their widths
/// propagated, in document order.
fn collect_types(docs: &SpecDocs) -> (r: Vec<RawType>)
    requires
        docs.wf(),
    ensures
        type_views(r@) == with_bitwidth(
            types_in(docs.docs(), across(docs.docs(), docs.docs().len() as int, Lookup::Section, "types"@)),
        ),
{
    let refs = docs.section_children("types");
    let ghost rv = refs@.map_values(|p: (usize, usize)| ref_view(p));
    let mut raw: Vec<RawType> = Vec::new();
    let mut k: usize = 0;
    assert(rv.take(0) =~= Seq::<(int, int)>::empty());
    while k < refs.len()
        invariant
            docs.wf(),
            k <= refs@.len(),
            rv == refs@.map_values(|p: (usize, usize)| ref_view(p)),
            forall|m: int|
                0 <= m < refs@.len() ==> refs@[m].0 < docs.docs().len() && refs@[m].1 < docs.docs()[refs@[m].0 as int].nodes@.len(),
            type_views(raw@) == types_in(docs.docs(), rv.take(k as int)),
        decreases refs@.len() - k,
    {
        let (d, j) = refs[k];
        assert(rv.take(k + 1).drop_last() =~= rv.take(k as int));
        assert(rv.take(k + 1).last() == (d as int, j as int));
        let doc = docs.doc(d);
        assert(doc.wf());
        if str_eq(doc.nodes[j].name.as_str(), "type") {
            match parse_type_node(doc, j) {
                Some(t) => {
                    let ghost before = raw@;
                    let ghost tv = t@;
                    raw.push(t);
                    assert(type_views(raw@) =~= type_views(before).push(tv));
                },
                None => {},
            }
        }
        k = k + 1;
    }
    assert(rv.take(refs@.len() as int) =~= rv);
    propagate_bitwidth(&mut raw);
    raw
}


// ---------------------------------------------------------------------------
// Dependency order (Kahn's algorithm)
// ---------------------------------------------------------------------------

/// Strictly increasing, so each element once.
pub open spec fn increasing(s: Seq<usize>) -> bool {
    forall|a: int, b: int| 0 <= a < b < s.len() ==> s[a] < s[b]
}

/// A dependency graph on `n` nodes: `deps[i]` lists what `i` depends on,
/// `rev[u]` what depends on `u`, both increasing.
pub open spec fn graph_ok(deps: Seq<Seq<usize>>, rev: Seq<Seq<usize>>, n: nat) -> bool {
    &&& deps.len() == n
    &&& rev.len() == n
    &&& forall|i: int| 0 <= i < n ==> increasing(#[trigger] deps[i])
    &&& forall|i: int| 0 <= i < n ==> increasing(#[trigger] rev[i])
    &&& forall|i: int, k: int| 0 <= i < n && 0 <= k < deps[i].len() ==> #[trigger] deps[i][k] < n
    &&& forall|u: int, k: int| 0 <= u < n && 0 <= k < rev[u].len() ==> #[trigger] rev[u][k] < n
    &&& forall|u: int, i: int|
        #![trigger rev[u].contains(i as usize)]
        #![trigger deps[i].contains(u as usize)]
        0 <= u < n && 0 <= i < n ==> (rev[u].contains(i as usize) <==> deps[i].contains(u as usize))
}

/// How many of `ds` are not in `done`.
pub open spec fn pending(ds: Seq<usize>, done: Seq<usize>) -> nat
    decreases ds.len(),
{
    if ds.len() == 0 {
        0
    } else {
        pending(ds.drop_last(), done) + if done.contains(ds.last()) {
            0nat
        } else {
            1nat
        }
    }
}

/// `order` lists each of `0..n` once.
pub open spec fn is_permutation(order: Seq<usize>, n: nat) -> bool {
    &&& order.len() == n
    &&& forall|k: int| 0 <= k < order.len() ==> #[trigger] order[k] < n
    &&& order.no_duplicates()
}

/// The order Kahn's algorithm settles on, split at `m`: each of the first
/// `m` comes after everything it depends on, in the order they leave the
/// queue; the rest, in increasing order, are those caught in or behind a
/// cycle, each depending on one of the rest.
pub open spec fn kahn_ok(deps: Seq<Seq<usize>>, order: Seq<usize>, m: int) -> bool {
    &&& is_permutation(order, deps.len())
    &&& 0 <= m <= order.len()
    &&& forall|k: int, d: usize| 0 <= k < m && (#[trigger] deps[order[k] as int]).contains(d) ==> #[trigger] order.take(k).contains(d)
    &&& forall|a: int, b: int| m <= a < b < order.len() ==> order[a] < order[b]
    &&& forall|a: int| m <= a < order.len() ==> stuck(deps, order.take(m), #[trigger] order[a])
    &&& forall|k: int|
        0 <= k && k + 1 < m ==> queued_before(
            last_pos(deps[order[k] as int], order),
            #[trigger] order[k],
            last_pos(deps[order[k + 1] as int], order),
            order[k + 1],
        )
}

/// The last position in `order` of anything in `ds` (-1 if none).
pub open spec fn last_pos(ds: Seq<usize>, order: Seq<usize>) -> int
    decreases order.len(),
{
    if order.len() == 0 {
        -1
    } else if ds.contains(order.last()) {
        order.len() - 1
    } else {
        last_pos(ds, order.drop_last())
    }
}

/// `a` leaves Kahn's queue before `b`: the last of its dependencies was
/// placed earlier (`da < db`), or at the same time and `a` is the lower
/// index.
pub open spec fn queued_before(da: int, a: usize, db: int, b: usize) -> bool {
    da < db || (da == db && a < b)
}

/// `x` depends on something outside `done`.
pub open spec fn stuck(deps: Seq<Seq<usize>>, done: Seq<usize>, x: usize) -> bool {
    exists|d: usize| #[trigger] deps[x as int].contains(d) && !done.contains(d)
}

/// One more of `done` leaves one fewer pending, when it is among `ds`.
proof fn lemma_pending_step(ds: Seq<usize>, done: Seq<usize>, u: usize)
    requires
        !done.contains(u),
        ds.no_duplicates(),
    ensures
        pending(ds, done.push(u)) + (if ds.contains(u) { 1nat } else { 0nat }) == pending(ds, done),
    decreases ds.len(),
{
    if ds.len() > 0 {
        let init = ds.drop_last();
        assert(init.no_duplicates());
        lemma_pending_step(init, done, u);
        if ds.last() == u {
            assert(!init.contains(u));
        }
        assert(ds.contains(u) <==> (init.contains(u) || ds.last() == u)) by {
            if ds.contains(u) {
                let k = choose|k: int| 0 <= k < ds.len() && ds[k] == u;
                if k < ds.len() - 1 {
                    assert(init[k] == u);
                }
            }
            if init.contains(u) {
                let k = choose|k: int| 0 <= k < init.len() && init[k] == u;
                assert(ds[k] == u);
            }
        }
    }
}

/// Nothing pending means everything done.
proof fn lemma_pending_zero(ds: Seq<usize>, done: Seq<usize>)
    ensures
        pending(ds, done) == 0 ==> forall|d: usize| ds.contains(d) ==> done.contains(d),
        pending(ds, done) > 0 ==> exists|d: usize| ds.contains(d) && !done.contains(d),
    decreases ds.len(),
{
    if ds.len() > 0 {
        let init = ds.drop_last();
        lemma_pending_zero(init, done);
        if pending(ds, done) == 0 {
            assert forall|d: usize| ds.contains(d) implies done.contains(d) by {
                let k = choose|k: int| 0 <= k < ds.len() && ds[k] == d;
                if k < ds.len() - 1 {
                    assert(init[k] == d);
                }
            }
        }
        if pending(ds, done) > 0 {
            if !done.contains(ds.last()) {
                assert(ds.contains(ds.last()));
            } else {
                let d = choose|d: usize| init.contains(d) && !done.contains(d);
                let k = choose|k: int| 0 <= k < init.len() && init[k] == d;
                assert(ds[k] == d);
            }
        }
    }
}

/// Increasing sequences have no duplicates.
proof fn lemma_increasing_unique(s: Seq<usize>)
    requires
        increasing(s),
    ensures
        s.no_duplicates(),
{
    assert forall|i: int, j: int| 0 <= i < s.len() && 0 <= j < s.len() && i != j implies s[i] != s[j] by {
        if i < j {
            assert(s[i] < s[j]);
        } else {
            assert(s[j] < s[i]);
        }
    }
}


/// Nothing of `ds` is done yet.
proof fn lemma_pending_none(ds: Seq<usize>)
    ensures
        pending(ds, Seq::empty()) == ds.len(),
    decreases ds.len(),
{
    if ds.len() > 0 {
        lemma_pending_none(ds.drop_last());
    }
}

/// A list of distinct numbers below `n` has at most `n` of them; exactly
/// `n` when it holds every one of them.
proof fn lemma_distinct_len(s: Seq<usize>, n: nat)
    requires
        n <= usize::MAX,
        s.no_duplicates(),
        forall|k: int| 0 <= k < s.len() ==> #[trigger] s[k] < n,
    ensures
        s.len() <= n,
        (forall|x: usize| x < n ==> s.contains(x)) ==> s.len() == n,
{
    let si = s.map_values(|x: usize| x as int);
    assert(si.no_duplicates()) by {
        assert forall|i: int, j: int| 0 <= i < si.len() && 0 <= j < si.len() && i != j implies si[i] != si[j] by {
            assert(s[i] != s[j]);
        }
    }
    si.unique_seq_to_set();
    vstd::set_lib::lemma_int_range(0, n as int);
    assert(si.to_set().subset_of(vstd::set_lib::set_int_range(0, n as int))) by {
        assert forall|x: int| si.to_set().contains(x) implies vstd::set_lib::set_int_range(0, n as int).contains(x) by {
            assert(si.contains(x));
            let k = choose|k: int| 0 <= k < si.len() && si[k] == x;
            assert(s[k] < n);
        }
    }
    vstd::set_lib::lemma_len_subset(si.to_set(), vstd::set_lib::set_int_range(0, n as int));
    if forall|x: usize| x < n ==> s.contains(x) {
        assert(vstd::set_lib::set_int_range(0, n as int).subset_of(si.to_set())) by {
            assert forall|x: int| vstd::set_lib::set_int_range(0, n as int).contains(x) implies si.to_set().contains(x) by {
                let xu = x as usize;
                assert(s.contains(xu));
                let k = choose|k: int| 0 <= k < s.len() && s[k] == xu;
                assert(si[k] == x);
                assert(si.contains(x));
            }
        }
        vstd::set_lib::lemma_len_subset(vstd::set_lib::set_int_range(0, n as int), si.to_set());
    }
}

/// Positions that name their element make a list of distinct numbers
/// below `n`, so at most `n` long.
proof fn lemma_positions_bound(order: Seq<usize>, pos: Seq<int>, n: nat)
    requires
        n <= usize::MAX,
        forall|k: int| 0 <= k < order.len() ==> #[trigger] order[k] < n && pos[order[k] as int] == k,
    ensures
        order.no_duplicates(),
        order.len() <= n,
{
    assert forall|a: int, b: int| 0 <= a < order.len() && 0 <= b < order.len() && a != b implies order[a] != order[b] by {
        assert(pos[order[a] as int] == a);
        assert(pos[order[b] as int] == b);
    }
    lemma_distinct_len(order, n);
}

/// Appending what `ds` does not hold leaves its last position alone.
proof fn lemma_last_pos_push(ds: Seq<usize>, order: Seq<usize>, x: usize)
    requires
        !ds.contains(x),
    ensures
        last_pos(ds, order.push(x)) == last_pos(ds, order),
{
    assert(order.push(x).drop_last() =~= order);
}

/// The last position is `p` when `ds` holds `order[p]` and nothing after.
proof fn lemma_last_pos_at(ds: Seq<usize>, order: Seq<usize>, p: int)
    requires
        -1 <= p < order.len(),
        p >= 0 ==> ds.contains(order[p]),
        forall|q: int| p < q < order.len() ==> !ds.contains(#[trigger] order[q]),
    ensures
        last_pos(ds, order) == p,
    decreases order.len(),
{
    if order.len() > 0 && order.len() - 1 != p {
        let init = order.drop_last();
        assert(!ds.contains(order[order.len() - 1]));
        assert forall|q: int| p < q < init.len() implies !ds.contains(#[trigger] init[q]) by {
            assert(init[q] == order[q]);
        }
        if p >= 0 {
            assert(init[p] == order[p]);
        }
        lemma_last_pos_at(ds, init, p);
    }
}

/// The views of a list of number lists.
pub open spec fn lists_view(v: Seq<Vec<usize>>) -> Seq<Seq<usize>> {
    v.map_values(|l: Vec<usize>| l@)
}

/// Kahn's algorithm: first, in waves, every node whose dependencies are
/// all placed (the nodes without any first, in increasing order, then each
/// node as soon as the last of its dependencies is placed, the dependents
/// of one node in increasing order); then the nodes left over, in
/// increasing order.  Returns the order and how many the first pass placed.
fn kahn_order(deps: &Vec<Vec<usize>>, rev: &Vec<Vec<usize>>) -> (r: (Vec<usize>, usize))
    requires
        graph_ok(lists_view(deps@), lists_view(rev@), deps@.len()),
    ensures
        kahn_ok(lists_view(deps@), r.0@, r.1 as int),
{
    let ghost dv = lists_view(deps@);
    let ghost rv = lists_view(rev@);
    let n = deps.len();
    let mut indeg: Vec<usize> = Vec::new();
    let mut i: usize = 0;
    while i < n
        invariant
            n == deps@.len(),
            dv == lists_view(deps@),
            i <= n,
            indeg@.len() == i,
            forall|k: int| 0 <= k < i ==> #[trigger] indeg@[k] == dv[k].len(),
        decreases n - i,
    {
        indeg.push(deps[i].len());
        i = i + 1;
    }
    let mut order: Vec<usize> = Vec::new();
    let ghost mut pos: Seq<int> = Seq::new(n as nat, |x: int| -1int);
    let ghost mut trig: Seq<int> = Seq::empty();
    i = 0;
    while i < n
        invariant
            n == deps@.len(),
            dv == lists_view(deps@),
            graph_ok(dv, rv, n as nat),
            i <= n,
            indeg@.len() == n,
            forall|k: int| 0 <= k < n ==> #[trigger] indeg@[k] == dv[k].len(),
            pos.len() == n,
            forall|k: int| 0 <= k < order@.len() ==> #[trigger] order@[k] < i && pos[order@[k] as int] == k,
            forall|x: int| 0 <= x < n ==> (#[trigger] pos[x] >= 0 ==> pos[x] < order@.len() && order@[pos[x]] == x),
            forall|x: int| 0 <= x < n ==> (#[trigger] pos[x] >= 0 <==> (x < i && dv[x].len() == 0)),
            forall|x: int| 0 <= x < n ==> #[trigger] pos[x] >= -1,
            trig.len() == order@.len(),
            forall|k: int| 0 <= k < trig.len() ==> #[trigger] trig[k] == -1,
            forall|a: int, b: int| 0 <= a < b < order@.len() ==> order@[a] < order@[b],
        decreases n - i,
    {
        if indeg[i] == 0 {
            proof {
                pos = pos.update(i as int, order@.len() as int);
                trig = trig.push(-1);
            }
            order.push(i);
        }
        i = i + 1;
    }
    let mut head: usize = 0;
    proof {
        assert forall|x: int| 0 <= x < n && #[trigger] pos[x] < 0 implies indeg@[x] == pending(dv[x], order@.take(0)) && indeg@[x] > 0 by {
            lemma_pending_none(dv[x]);
            assert(order@.take(0) =~= Seq::<usize>::empty());
        }
        lemma_positions_bound(order@, pos, n as nat);
        assert forall|k: int| 0 <= k < order@.len() implies #[trigger] trig[k] == last_pos(dv[order@[k] as int], order@) by {
            assert(pos[order@[k] as int] >= 0);
            assert(dv[order@[k] as int].len() == 0);
            lemma_last_pos_at(dv[order@[k] as int], order@, -1);
        }
    }
    while head < order.len()
        invariant
            n == deps@.len(),
            dv == lists_view(deps@),
            rv == lists_view(rev@),
            graph_ok(dv, rv, n as nat),
            indeg@.len() == n,
            pos.len() == n,
            head <= order@.len() <= n,
            forall|k: int| 0 <= k < order@.len() ==> #[trigger] order@[k] < n && pos[order@[k] as int] == k,
            forall|x: int| 0 <= x < n ==> (#[trigger] pos[x] >= 0 ==> pos[x] < order@.len() && order@[pos[x]] == x),
            forall|x: int| 0 <= x < n ==> #[trigger] pos[x] >= -1,
            forall|k: int, d: usize| 0 <= k < head && #[trigger] dv[order@[k] as int].contains(d) ==> 0 <= #[trigger] pos[d as int] < k,
            forall|k: int, d: usize| head <= k < order@.len() && #[trigger] dv[order@[k] as int].contains(d) ==> 0 <= #[trigger] pos[d as int] < head,
            forall|x: int| 0 <= x < n ==> (#[trigger] pos[x] < 0 ==> indeg@[x] == pending(dv[x], order@.take(head as int)) && indeg@[x] > 0),
            forall|x: int| 0 <= x < n ==> (#[trigger] pos[x] >= 0 ==> indeg@[x] == 0),
            trig.len() == order@.len(),
            forall|k: int| 0 <= k < order@.len() ==> #[trigger] trig[k] == last_pos(dv[order@[k] as int], order@),
            forall|k: int| 0 <= k && k + 1 < order@.len() ==> queued_before(#[trigger] trig[k], order@[k], trig[k + 1], order@[k + 1]),
            forall|k: int| 0 <= k < order@.len() ==> #[trigger] trig[k] < head,
        decreases n - head,
    {
        let u = order[head];
        let ghost old_done = order@.take(head as int);
        head = head + 1;
        let ghost done = order@.take(head as int);
        let ghost qlen = order@.len();
        proof {
            assert(done =~= old_done.push(u));
            assert(!old_done.contains(u)) by {
                if old_done.contains(u) {
                    let p = choose|p: int| 0 <= p < old_done.len() && old_done[p] == u;
                    assert(order@[p] == u);
                }
            }
            assert forall|x: int| 0 <= x < n && #[trigger] pos[x] < 0 implies indeg@[x] == pending(dv[x], done) + (if rv[u as int].contains(x as usize) { 1nat } else { 0nat }) by {
                lemma_increasing_unique(dv[x]);
                lemma_pending_step(dv[x], old_done, u);
            }
            assert forall|x: int| 0 <= x < n && #[trigger] pos[x] >= 0 implies !rv[u as int].contains(x as usize) by {
                if rv[u as int].contains(x as usize) {
                    assert(dv[x].contains(u));
                    let k = pos[x];
                    assert(order@[k] == x);
                    assert(dv[order@[k] as int].contains(u));
                    assert(pos[u as int] == head - 1);
                }
            }
            assert(rv[u as int].skip(0) =~= rv[u as int]);
        }
        proof {
            assert(increasing(rv[u as int]));
        }
        let ru = &rev[u];
        let mut r: usize = 0;
        while r < ru.len()
            invariant
                n == deps@.len(),
                dv == lists_view(deps@),
                rv == lists_view(rev@),
                graph_ok(dv, rv, n as nat),
                u < n,
                ru@ == rv[u as int],
                r <= ru@.len(),
                indeg@.len() == n,
                pos.len() == n,
                1 <= head <= order@.len() <= n,
                order@[head - 1] == u,
                done == order@.take(head as int),
                forall|k: int| 0 <= k < order@.len() ==> #[trigger] order@[k] < n && pos[order@[k] as int] == k,
                forall|x: int| 0 <= x < n ==> (#[trigger] pos[x] >= 0 ==> pos[x] < order@.len() && order@[pos[x]] == x),
                forall|x: int| 0 <= x < n ==> #[trigger] pos[x] >= -1,
                forall|k: int, d: usize| 0 <= k < head && #[trigger] dv[order@[k] as int].contains(d) ==> 0 <= #[trigger] pos[d as int] < k,
                forall|k: int, d: usize| head <= k < order@.len() && #[trigger] dv[order@[k] as int].contains(d) ==> 0 <= #[trigger] pos[d as int] < head,
                forall|x: int| 0 <= x < n && #[trigger] pos[x] < 0 ==> indeg@[x] == pending(dv[x], done) + (if ru@.skip(r as int).contains(x as usize) { 1nat } else { 0nat }) && indeg@[x] > 0,
                forall|x: int| 0 <= x < n && #[trigger] pos[x] >= 0 ==> indeg@[x] == 0 && !ru@.skip(r as int).contains(x as usize),
                increasing(ru@),
                trig.len() == order@.len(),
                forall|k: int| 0 <= k < order@.len() ==> #[trigger] trig[k] == last_pos(dv[order@[k] as int], order@),
                forall|k: int| 0 <= k && k + 1 < order@.len() ==> queued_before(#[trigger] trig[k], order@[k], trig[k + 1], order@[k + 1]),
                forall|k: int| 0 <= k < order@.len() ==> #[trigger] trig[k] <= head - 1 && (trig[k] == head - 1 ==> ru@.take(r as int).contains(order@[k])),
            decreases ru@.len() - r,
        {
            let x = ru[r];
            proof {
                assert(ru@.skip(r as int)[0] == x);
                assert(ru@.skip(r as int).contains(x));
                assert(ru@.skip(r as int) =~= seq![x] + ru@.skip(r + 1));
                assert(!ru@.skip(r + 1).contains(x)) by {
                    if ru@.skip(r + 1).contains(x) {
                        let k = choose|k: int| 0 <= k < ru@.skip(r + 1).len() && #[trigger] ru@.skip(r + 1)[k] == x;
                        assert(ru@[r + 1 + k] == x);
                        assert(increasing(rv[u as int]));
                    }
                }
                assert(pos[x as int] < 0);
            }
            let v = indeg[x] - 1;
            indeg.set(x, v);
            proof {
                assert forall|y: int| 0 <= y < n && y != x && #[trigger] pos[y] >= -1 implies (ru@.skip(r as int).contains(y as usize) <==> ru@.skip(r + 1).contains(y as usize)) by {
                    let yu = y as usize;
                    if ru@.skip(r as int).contains(yu) {
                        let k = choose|k: int| 0 <= k < ru@.skip(r as int).len() && #[trigger] ru@.skip(r as int)[k] == yu;
                        assert(k != 0);
                        assert(ru@.skip(r + 1)[k - 1] == yu);
                    }
                    if ru@.skip(r + 1).contains(yu) {
                        let k = choose|k: int| 0 <= k < ru@.skip(r + 1).len() && #[trigger] ru@.skip(r + 1)[k] == yu;
                        assert(ru@.skip(r as int)[k + 1] == yu);
                    }
                }
            }
            if v == 0 {
                proof {
                    lemma_pending_zero(dv[x as int], done);
                    assert forall|d: usize| #[trigger] dv[x as int].contains(d) implies 0 <= pos[d as int] < head by {
                        assert(done.contains(d));
                        let p = choose|p: int| 0 <= p < done.len() && done[p] == d;
                        assert(order@[p] == d);
                    }
                    assert(order@.push(x).take(head as int) =~= order@.take(head as int));
                    assert(!dv[x as int].contains(x));
                    assert forall|k: int| 0 <= k < order@.len() implies !dv[order@[k] as int].contains(x) by {
                        if dv[order@[k] as int].contains(x) {
                            assert(pos[x as int] >= 0);
                        }
                    }
                    let ol = order@;
                    assert forall|k: int| 0 <= k < ol.len() implies last_pos(dv[ol[k] as int], ol.push(x)) == last_pos(dv[ol[k] as int], ol) by {
                        lemma_last_pos_push(dv[ol[k] as int], ol, x);
                    }
                    assert(rv[u as int].contains(x));
                    assert(dv[x as int].contains(u));
                    assert forall|q: int| head - 1 < q < ol.push(x).len() implies !dv[x as int].contains(#[trigger] ol.push(x)[q]) by {
                        if q < ol.len() {
                            assert(ol.push(x)[q] == ol[q]);
                            if dv[x as int].contains(ol[q]) {
                                assert(pos[ol[q] as int] == q);
                            }
                        }
                    }
                    lemma_last_pos_at(dv[x as int], ol.push(x), head - 1);
                    if ol.len() > 0 {
                        let last = ol.len() - 1;
                        if trig[last] == head - 1 {
                            assert(ru@.take(r as int).contains(ol[last]));
                            let j = choose|j: int| 0 <= j < r && ru@.take(r as int)[j] == ol[last];
                            assert(ru@[j] < ru@[r as int]);
                        }
                    }
                    assert(ru@.take(r + 1).contains(x)) by {
                        assert(ru@.take(r + 1)[r as int] == x);
                    }
                    assert forall|y: usize| ru@.take(r as int).contains(y) implies ru@.take(r + 1).contains(y) by {
                        let j = choose|j: int| 0 <= j < r && ru@.take(r as int)[j] == y;
                        assert(ru@.take(r + 1)[j] == y);
                    }
                    pos = pos.update(x as int, order@.len() as int);
                    trig = trig.push(head - 1);
                }
                order.push(x);
                proof {
                    lemma_positions_bound(order@, pos, n as nat);
                }
            }
            proof {
                assert forall|y: usize| ru@.take(r as int).contains(y) implies ru@.take(r + 1).contains(y) by {
                    let j = choose|j: int| 0 <= j < r && ru@.take(r as int)[j] == y;
                    assert(ru@.take(r + 1)[j] == y);
                }
            }
            r = r + 1;
        }
        proof {
            assert(ru@.skip(ru@.len() as int) =~= Seq::<usize>::empty());
        }
    }
    let m = order.len();
    let ghost main = order@;
    let ghost mtrig = trig;
    assert(main.take(m as int) =~= main);
    i = 0;
    while i < n
        invariant
            n == deps@.len(),
            dv == lists_view(deps@),
            graph_ok(dv, rv, n as nat),
            i <= n,
            m <= order@.len(),
            indeg@.len() == n,
            pos.len() == n,
            order@.take(m as int) == main,
            main.len() == m,
            forall|k: int| 0 <= k < order@.len() ==> #[trigger] order@[k] < n && pos[order@[k] as int] == k,
            forall|x: int| 0 <= x < n ==> (#[trigger] pos[x] >= 0 ==> pos[x] < order@.len() && order@[pos[x]] == x),
            forall|x: int| 0 <= x < n ==> #[trigger] pos[x] >= -1,
            forall|x: int| 0 <= x < i ==> #[trigger] pos[x] >= 0,
            forall|x: int| 0 <= x < n && #[trigger] pos[x] >= m ==> x < i,
            forall|k: int, d: usize| 0 <= k < m && #[trigger] dv[main[k] as int].contains(d) ==> 0 <= #[trigger] pos[d as int] < k,
            forall|a: int| m <= a < order@.len() ==> #[trigger] order@[a] < i && stuck(dv, main, order@[a]),
            forall|a: int, b: int| m <= a < b < order@.len() ==> order@[a] < order@[b],
            forall|x: int| 0 <= x < n ==> (indeg@[x] == 0 <==> (#[trigger] pos[x] >= 0 && pos[x] < m)),
            forall|x: int| 0 <= x < n && #[trigger] pos[x] < 0 ==> indeg@[x] == pending(dv[x], main) && indeg@[x] > 0,
            mtrig.len() == m,
            forall|k: int| 0 <= k < m ==> #[trigger] mtrig[k] == last_pos(dv[main[k] as int], order@),
            forall|k: int| 0 <= k && k + 1 < m ==> queued_before(#[trigger] mtrig[k], main[k], mtrig[k + 1], main[k + 1]),
        decreases n - i,
    {
        if indeg[i] != 0 {
            proof {
                assert(pos[i as int] < 0);
                assert(pending(dv[i as int], main) > 0);
                lemma_pending_zero(dv[i as int], main);
                assert(stuck(dv, main, i));
                assert forall|k: int| 0 <= k < m implies last_pos(dv[main[k] as int], order@.push(i)) == last_pos(dv[main[k] as int], order@) by {
                    if dv[main[k] as int].contains(i) {
                        assert(pos[i as int] >= 0);
                    }
                    lemma_last_pos_push(dv[main[k] as int], order@, i);
                }
                assert(order@.push(i).take(m as int) =~= order@.take(m as int));
                pos = pos.update(i as int, order@.len() as int);
            }
            order.push(i);
        }
        i = i + 1;
    }
    proof {
        lemma_positions_bound(order@, pos, n as nat);
        assert forall|x: usize| x < n implies order@.contains(x) by {
            assert(pos[x as int] >= 0);
            assert(order@[pos[x as int]] == x);
        }
        lemma_distinct_len(order@, n as nat);
        assert forall|k: int| 0 <= k && k + 1 < m implies queued_before(
            last_pos(dv[order@[k] as int], order@),
            #[trigger] order@[k],
            last_pos(dv[order@[k + 1] as int], order@),
            order@[k + 1],
        ) by {
            assert(main[k] == order@[k]);
            assert(main[k + 1] == order@[k + 1]);
            assert(mtrig[k] == last_pos(dv[main[k] as int], order@));
            assert(mtrig[k + 1] == last_pos(dv[main[k + 1] as int], order@));
        }
        assert forall|k: int, d: usize| 0 <= k < m && (#[trigger] dv[order@[k] as int]).contains(d) implies #[trigger] order@.take(k).contains(d) by {
            assert(main[k] == order@[k]);
            let p = pos[d as int];
            assert(order@.take(k)[p] == d);
        }
    }
    (order, m)
}


// ---------------------------------------------------------------------------
// What a type depends on
// ---------------------------------------------------------------------------

/// The words of `s` after the partial word `cur`: its maximal runs of
/// identifier characters (`[A-Za-z0-9_]`).
pub open spec fn words_from(s: Seq<char>, cur: Seq<char>) -> Seq<Seq<char>>
    decreases s.len(),
{
    if s.len() == 0 {
        if cur.len() > 0 {
            seq![cur]
        } else {
            Seq::empty()
        }
    } else if is_ident_char(s[0]) {
        words_from(s.drop_first(), cur.push(s[0]))
    } else {
        (if cur.len() > 0 {
            seq![cur]
        } else {
            Seq::empty()
        }) + words_from(s.drop_first(), Seq::empty())
    }
}

/// The identifier-shaped words of `s`, in order.
pub open spec fn ident_words(s: Seq<char>) -> Seq<Seq<char>> {
    words_from(s, Seq::empty())
}

/// Type `i` depends on type `j`: `j` is named by `i`'s `requires=` or
/// `alias=`, or `j`'s name, other than `i`'s own, is a word of `i`'s C
/// text (a function pointer's parameter types, whatever the category).
pub open spec fn depends_on(ts: Seq<TypeView>, i: int, j: int) -> bool {
    &&& 0 <= j < ts.len()
    &&& (ts[i].requires == Some(ts[j].name) || ts[i].alias == Some(ts[j].name) || (ts[j].name != ts[i].name
        && ident_words(ts[i].raw_c).contains(ts[j].name)))
}

/// The positions of the types named `name`, in order.
pub open spec fn positions_of(ts: Seq<TypeView>, name: Seq<char>) -> Seq<usize>
    decreases ts.len(),
{
    if ts.len() == 0 {
        Seq::empty()
    } else if ts.last().name == name {
        positions_of(ts.drop_last(), name).push((ts.len() - 1) as usize)
    } else {
        positions_of(ts.drop_last(), name)
    }
}

/// The positions of a name are exactly those holding it, in order.
proof fn lemma_positions_of(ts: Seq<TypeView>, name: Seq<char>)
    requires
        ts.len() <= usize::MAX,
    ensures
        increasing(positions_of(ts, name)),
        forall|j: usize| #[trigger] positions_of(ts, name).contains(j) <==> (j < ts.len() && ts[j as int].name == name),
    decreases ts.len(),
{
    if ts.len() > 0 {
        let init = ts.drop_last();
        lemma_positions_of(init, name);
        let p = positions_of(init, name);
        assert forall|j: usize| #[trigger] p.contains(j) implies j < init.len() by {}
        if ts.last().name == name {
            let q = p.push((ts.len() - 1) as usize);
            assert forall|a: int, b: int| 0 <= a < b < q.len() implies q[a] < q[b] by {
                if b == q.len() - 1 {
                    assert(p.contains(q[a]));
                }
            }
        }
        assert forall|j: usize| #[trigger] positions_of(ts, name).contains(j) <==> (j < ts.len() && ts[j as int].name == name) by {
            if j < init.len() {
                assert(ts[j as int] == init[j as int]);
            }
        }
    }
}

/// The dependency lists of the types: each increasing, and holding
/// exactly what the type depends on.
pub open spec fn deps_ok(ts: Seq<TypeView>, deps: Seq<Seq<usize>>) -> bool {
    &&& deps.len() == ts.len()
    &&& forall|i: int| 0 <= i < ts.len() ==> increasing(#[trigger] deps[i])
    &&& forall|i: int, j: usize| 0 <= i < ts.len() ==> (#[trigger] deps[i].contains(j) <==> depends_on(ts, i, j as int))
}

/// The words of a text.
fn ident_words_of(s: &str) -> (r: Vec<String>)
    ensures
        r@.map_values(|w: String| w@) == ident_words(s@),
{
    let c = chars_of(s);
    let n = c.len();
    let mut out: Vec<String> = Vec::new();
    let mut cur: Vec<char> = Vec::new();
    let mut i: usize = 0;
    assert(c@.skip(0) =~= s@);
    while i < n
        invariant
            n == c@.len(),
            c@ == s@,
            i <= n,
            out@.map_values(|w: String| w@) + words_from(c@.skip(i as int), cur@) == ident_words(s@),
        decreases n - i,
    {
        let ch = c[i];
        assert(c@.skip(i as int)[0] == ch);
        assert(c@.skip(i as int).drop_first() =~= c@.skip(i + 1));
        if crate::text::ident_char(ch) {
            cur.push(ch);
        } else {
            let ghost before = out@.map_values(|w: String| w@);
            let ghost cw = cur@;
            if cur.len() > 0 {
                out.push(string_from_chars(cur.as_slice()));
                assert(out@.map_values(|w: String| w@) =~= before.push(cw));
                assert(before.push(cw) + words_from(c@.skip(i + 1), Seq::empty()) =~= before + (seq![cw] + words_from(
                    c@.skip(i + 1),
                    Seq::empty(),
                )));
            } else {
                assert(before + words_from(c@.skip(i + 1), Seq::empty()) =~= before + (Seq::<Seq<char>>::empty() + words_from(
                    c@.skip(i + 1),
                    Seq::empty(),
                )));
            }
            cur = Vec::new();
        }
        i = i + 1;
    }
    let ghost before = out@.map_values(|w: String| w@);
    assert(c@.skip(n as int) =~= Seq::<char>::empty());
    if cur.len() > 0 {
        let ghost cw = cur@;
        out.push(string_from_chars(cur.as_slice()));
        assert(out@.map_values(|w: String| w@) =~= before + seq![cw]);
    } else {
        assert(before + Seq::<Seq<char>>::empty() =~= before);
    }
    out
}

/// Whether `v` holds `x`.
fn list_contains(v: &Vec<usize>, x: usize) -> (r: bool)
    ensures
        r == v@.contains(x),
{
    let mut k: usize = 0;
    while k < v.len()
        invariant
            k <= v@.len(),
            forall|m: int| 0 <= m < k ==> v@[m] != x,
        decreases v@.len() - k,
    {
        if v[k] == x {
            assert(v@[k as int] == x);
            return true;
        }
        k = k + 1;
    }
    false
}

/// Put `x` into the increasing `out`, unless it is there.
fn insert_sorted(out: &mut Vec<usize>, x: usize)
    requires
        increasing(old(out)@),
    ensures
        increasing(final(out)@),
        forall|y: usize| #[trigger] final(out)@.contains(y) <==> (old(out)@.contains(y) || y == x),
{
    let mut p: usize = 0;
    while p < out.len() && out[p] < x
        invariant
            p <= out@.len(),
            forall|m: int| 0 <= m < p ==> out@[m] < x,
        decreases out@.len() - p,
    {
        p = p + 1;
    }
    if p < out.len() && out[p] == x {
        return;
    }
    let ghost before = out@;
    out.insert(p, x);
    proof {
        assert(out@ =~= before.take(p as int).push(x) + before.skip(p as int));
        assert forall|a: int, b: int| 0 <= a < b < out@.len() implies out@[a] < out@[b] by {
            if b < p {
                assert(out@[a] == before[a] && out@[b] == before[b]);
            } else if b == p {
                assert(out@[a] == before[a]);
            } else if a < p {
                assert(out@[a] == before[a] && out@[b] == before[b - 1]);
                assert(before[p as int] > x);
                if b - 1 > p {
                    assert(before[p as int] < before[b - 1]);
                }
            } else if a == p {
                assert(out@[b] == before[b - 1]);
                assert(before[p as int] > x);
                if b - 1 > p {
                    assert(before[p as int] < before[b - 1]);
                }
            } else {
                assert(out@[a] == before[a - 1] && out@[b] == before[b - 1]);
            }
        }
        assert forall|y: usize| #[trigger] out@.contains(y) <==> (before.contains(y) || y == x) by {
            if out@.contains(y) {
                let k = choose|k: int| 0 <= k < out@.len() && out@[k] == y;
                if k < p {
                    assert(before[k] == y);
                } else if k > p {
                    assert(before[k - 1] == y);
                }
            }
            if before.contains(y) {
                let k = choose|k: int| 0 <= k < before.len() && before[k] == y;
                if k < p {
                    assert(out@[k] == y);
                } else {
                    assert(out@[k + 1] == y);
                }
            }
            if y == x {
                assert(out@[p as int] == x);
            }
        }
    }
}

/// The numbers of `v`, increasing, each once.
fn sorted_unique(v: &Vec<usize>) -> (r: Vec<usize>)
    ensures
        increasing(r@),
        forall|y: usize| #[trigger] r@.contains(y) <==> v@.contains(y),
{
    let mut out: Vec<usize> = Vec::new();
    let mut k: usize = 0;
    while k < v.len()
        invariant
            k <= v@.len(),
            increasing(out@),
            forall|y: usize| #[trigger] out@.contains(y) <==> v@.take(k as int).contains(y),
        decreases v@.len() - k,
    {
        proof {
            assert(v@.take(k + 1) =~= v@.take(k as int).push(v@[k as int]));
        }
        insert_sorted(&mut out, v[k]);
        k = k + 1;
    }
    assert(v@.take(v@.len() as int) =~= v@);
    out
}

/// Append the numbers of `v`.
fn push_all(out: &mut Vec<usize>, v: &Vec<usize>)
    ensures
        forall|y: usize| #[trigger] final(out)@.contains(y) <==> (old(out)@.contains(y) || v@.contains(y)),
{
    let ghost start = out@;
    let mut k: usize = 0;
    while k < v.len()
        invariant
            k <= v@.len(),
            forall|y: usize| #[trigger] out@.contains(y) <==> (start.contains(y) || v@.take(k as int).contains(y)),
        decreases v@.len() - k,
    {
        proof {
            assert(v@.take(k + 1) =~= v@.take(k as int).push(v@[k as int]));
        }
        out.push(v[k]);
        k = k + 1;
    }
    assert(v@.take(v@.len() as int) =~= v@);
}


/// What the position map holds after the first `k` types: each name of
/// them with its positions.
pub open spec fn positions_held(es: Seq<(Seq<char>, Seq<usize>)>, ts: Seq<TypeView>) -> bool {
    forall|nm: Seq<char>|
        #[trigger] entry_value(es, nm) == (if positions_of(ts, nm).len() > 0 {
            Some(positions_of(ts, nm))
        } else {
            None
        })
}

/// Collect into `cand` the positions of the types named `name`.
fn add_named(cand: &mut Vec<usize>, map: &IndexMap<String, Vec<usize>>, name: &str, Ghost(ts): Ghost<Seq<TypeView>>)
    requires
        ts.len() <= usize::MAX,
        positions_held(position_entries(*map), ts),
    ensures
        forall|j: usize| #[trigger] final(cand)@.contains(j) <==> (old(cand)@.contains(j) || (j < ts.len() && ts[j as int].name == name@)),
{
    proof {
        lemma_positions_of(ts, name@);
        assert(entry_value(position_entries(*map), name@) == (if positions_of(ts, name@).len() > 0 {
            Some(positions_of(ts, name@))
        } else {
            None
        }));
    }
    match positions_get(map, name) {
        Some(v) => push_all(cand, v),
        None => {
            assert forall|j: usize| j < ts.len() implies ts[j as int].name != name@ by {
                if ts[j as int].name == name@ {
                    assert(positions_of(ts, name@).contains(j));
                }
            }
        },
    }
}

/// What each type depends on, as increasing position lists.
fn dependency_lists(ts: &Vec<RawType>) -> (r: Vec<Vec<usize>>)
    ensures
        deps_ok(type_views(ts@), lists_view(r@)),
{
    let ghost tv = type_views(ts@);
    let n = ts.len();
    let mut map = positions_new();
    let mut k: usize = 0;
    proof {
        assert forall|nm: Seq<char>| #[trigger] entry_value(position_entries(map), nm) == (if positions_of(tv.take(0), nm).len() > 0 {
            Some(positions_of(tv.take(0), nm))
        } else {
            None
        }) by {
            assert(tv.take(0) =~= Seq::<TypeView>::empty());
        }
    }
    while k < n
        invariant
            n == ts@.len(),
            tv == type_views(ts@),
            k <= n,
            positions_held(position_entries(map), tv.take(k as int)),
        decreases n - k,
    {
        let ghost before = position_entries(map);
        let key = ts[k].name.clone();
        let ghost kv = key@;
        positions_add(&mut map, key, k);
        proof {
            assert(tv.take(k + 1).drop_last() =~= tv.take(k as int));
            assert(tv.take(k + 1).last() == tv[k as int]);
            assert forall|nm: Seq<char>| #[trigger] entry_value(position_entries(map), nm) == (if positions_of(tv.take(k + 1), nm).len() > 0 {
                Some(positions_of(tv.take(k + 1), nm))
            } else {
                None
            }) by {
                lemma_entry_insert_value(
                    before,
                    kv,
                    match entry_value(before, kv) {
                        Some(v) => v.push(k),
                        None => seq![k],
                    },
                    nm,
                );
                assert(entry_value(before, nm) == (if positions_of(tv.take(k as int), nm).len() > 0 {
                    Some(positions_of(tv.take(k as int), nm))
                } else {
                    None
                }));
            }
        }
        k = k + 1;
    }
    assert(tv.take(n as int) =~= tv);
    let mut out: Vec<Vec<usize>> = Vec::new();
    let mut i: usize = 0;
    while i < n
        invariant
            n == ts@.len(),
            tv == type_views(ts@),
            i <= n,
            positions_held(position_entries(map), tv),
            out@.len() == i,
            forall|a: int| 0 <= a < i ==> increasing(#[trigger] lists_view(out@)[a]),
            forall|a: int, j: usize| 0 <= a < i ==> (#[trigger] lists_view(out@)[a].contains(j) <==> depends_on(tv, a, j as int)),
        decreases n - i,
    {
        let t = &ts[i];
        let mut cand: Vec<usize> = Vec::new();
        if let Some(rq) = &t.requires {
            add_named(&mut cand, &map, rq.as_str(), Ghost(tv));
        }
        if let Some(al) = &t.alias {
            add_named(&mut cand, &map, al.as_str(), Ghost(tv));
        }
        let words = ident_words_of(t.raw_c.as_str());
        let ghost wv = words@.map_values(|w: String| w@);
        let mut w: usize = 0;
        assert(wv.take(0) =~= Seq::<Seq<char>>::empty());
        while w < words.len()
            invariant
                n == ts@.len(),
                tv == type_views(ts@),
                i < n,
                t == ts@[i as int],
                positions_held(position_entries(map), tv),
                w <= words@.len(),
                wv == words@.map_values(|w: String| w@),
                forall|j: usize| #[trigger] cand@.contains(j) <==> (j < n && (tv[i as int].requires == Some(tv[j as int].name)
                    || tv[i as int].alias == Some(tv[j as int].name) || (tv[j as int].name != tv[i as int].name
                    && wv.take(w as int).contains(tv[j as int].name)))),
            decreases words@.len() - w,
        {
            proof {
                assert(wv.take(w + 1) =~= wv.take(w as int).push(wv[w as int]));
            }
            if !str_eq(words[w].as_str(), t.name.as_str()) {
                add_named(&mut cand, &map, words[w].as_str(), Ghost(tv));
            }
            w = w + 1;
        }
        assert(wv.take(words@.len() as int) =~= wv);
        let d = sorted_unique(&cand);
        let ghost before = lists_view(out@);
        out.push(d);
        assert(lists_view(out@) =~= before.push(d@));
        i = i + 1;
    }
    out
}

/// For each type, the types that depend on it, in increasing order.
fn dependent_lists(deps: &Vec<Vec<usize>>) -> (r: Vec<Vec<usize>>)
    requires
        forall|i: int, k: int| 0 <= i < deps@.len() && 0 <= k < deps@[i]@.len() ==> #[trigger] deps@[i]@[k] < deps@.len(),
        forall|i: int| 0 <= i < deps@.len() ==> increasing(#[trigger] lists_view(deps@)[i]),
    ensures
        graph_ok(lists_view(deps@), lists_view(r@), deps@.len()),
{
    let ghost dv = lists_view(deps@);
    let n = deps.len();
    let mut rev: Vec<Vec<usize>> = Vec::new();
    let mut u: usize = 0;
    while u < n
        invariant
            n == deps@.len(),
            dv == lists_view(deps@),
            u <= n,
            rev@.len() == u,
            forall|a: int| 0 <= a < u ==> increasing(#[trigger] lists_view(rev@)[a]),
            forall|a: int, k: int| 0 <= a < u && 0 <= k < lists_view(rev@)[a].len() ==> #[trigger] lists_view(rev@)[a][k] < n,
            forall|a: int, i: int|
                #![trigger lists_view(rev@)[a].contains(i as usize)]
                #![trigger dv[i].contains(a as usize)]
                0 <= a < u && 0 <= i < n ==> (lists_view(rev@)[a].contains(i as usize) <==> dv[i].contains(a as usize)),
        decreases n - u,
    {
        let mut list: Vec<usize> = Vec::new();
        let mut i: usize = 0;
        while i < n
            invariant
                n == deps@.len(),
                dv == lists_view(deps@),
                u < n,
                i <= n,
                increasing(list@),
                forall|k: int| 0 <= k < list@.len() ==> #[trigger] list@[k] < i,
                forall|x: usize| #[trigger] list@.contains(x) <==> (x < i && dv[x as int].contains(u)),
            decreases n - i,
        {
            if list_contains(&deps[i], u) {
                let ghost before = list@;
                list.push(i);
                proof {
                    assert forall|a: int, b: int| 0 <= a < b < list@.len() implies list@[a] < list@[b] by {
                        if b == list@.len() - 1 {
                            assert(before[a] < i);
                        }
                    }
                }
            }
            i = i + 1;
        }
        let ghost before = lists_view(rev@);
        rev.push(list);
        assert(lists_view(rev@) =~= before.push(list@));
        u = u + 1;
    }
    proof {
        assert forall|i: int| 0 <= i < n implies increasing(#[trigger] dv[i]) by {
            assert(increasing(lists_view(deps@)[i]));
        }
        assert forall|i: int, k: int| 0 <= i < n && 0 <= k < dv[i].len() implies #[trigger] dv[i][k] < n by {
            assert(deps@[i]@[k] < n);
        }
    }
    rev
}


/// `order` is the order Kahn's algorithm gives the types `ts`: a
/// permutation, split at `m`, where each of the first `m` types comes after
/// every type it depends on, in the order they leave the queue (by the
/// position of their last dependency, then by index); the rest — the types
/// caught in or behind a cycle, each depending on one of them — follow in
/// their original order.
pub open spec fn dependency_order(ts: Seq<TypeView>, order: Seq<usize>, m: int) -> bool {
    &&& is_permutation(order, ts.len())
    &&& 0 <= m <= order.len()
    &&& forall|k: int, j: int| 0 <= k < m && #[trigger] depends_on(ts, order[k] as int, j) ==> order.take(k).contains(j as usize)
    &&& forall|a: int, b: int| m <= a < b < order.len() ==> order[a] < order[b]
    &&& forall|a: int| m <= a < order.len() ==> blocked(ts, order.take(m), #[trigger] order[a] as int)
    &&& forall|k: int|
        0 <= k && k + 1 < m ==> queued_before(
            last_dep(ts, order[k] as int, order),
            #[trigger] order[k],
            last_dep(ts, order[k + 1] as int, order),
            order[k + 1],
        )
}

/// The last position in `order` of a type that `i` depends on (-1 if
/// none).
pub open spec fn last_dep(ts: Seq<TypeView>, i: int, order: Seq<usize>) -> int
    decreases order.len(),
{
    if order.len() == 0 {
        -1
    } else if depends_on(ts, i, order.last() as int) {
        order.len() - 1
    } else {
        last_dep(ts, i, order.drop_last())
    }
}

/// With the dependency lists, the last dependency's position is the same
/// counted either way.
proof fn lemma_last_dep(ts: Seq<TypeView>, deps: Seq<Seq<usize>>, i: int, order: Seq<usize>)
    requires
        deps_ok(ts, deps),
        0 <= i < ts.len(),
    ensures
        last_dep(ts, i, order) == last_pos(deps[i], order),
    decreases order.len(),
{
    if order.len() > 0 {
        assert(deps[i].contains(order.last()) <==> depends_on(ts, i, order.last() as int));
        lemma_last_dep(ts, deps, i, order.drop_last());
    }
}

/// Type `i` depends on a type outside `placed`.
pub open spec fn blocked(ts: Seq<TypeView>, placed: Seq<usize>, i: int) -> bool {
    exists|j: int| #[trigger] depends_on(ts, i, j) && !placed.contains(j as usize)
}

/// `r` lists the types of `ts` in dependency order.
pub open spec fn sorted_by_dependency(ts: Seq<TypeView>, r: Seq<TypeView>) -> bool {
    exists|order: Seq<usize>, m: int| #[trigger] dependency_order(ts, order, m) && r == order.map_values(|i: usize| ts[i as int])
}

/// Some type of the set `s` depends on no type of `s`.
pub open spec fn has_free_member(ts: Seq<TypeView>, s: Set<int>) -> bool {
    exists|i: int| s.contains(i) && forall|j: int| #[trigger] depends_on(ts, i, j) ==> !s.contains(j)
}

/// The dependencies have no cycle: every non-empty set of types holds one
/// that depends on no type of the set.
pub open spec fn dependencies_acyclic(ts: Seq<TypeView>) -> bool {
    forall|s: Set<int>|
        (forall|i: int| s.contains(i) ==> 0 <= i < ts.len()) && (exists|i: int| s.contains(i))
            ==> #[trigger] has_free_member(ts, s)
}

/// A permutation of `0..n` holds every number below `n`.
proof fn lemma_permutation_covers(order: Seq<usize>, n: nat, x: int)
    requires
        is_permutation(order, n),
        0 <= x < n,
    ensures
        order.contains(x as usize),
{
    let si = order.map_values(|v: usize| v as int);
    assert(si.no_duplicates()) by {
        assert forall|i: int, j: int| 0 <= i < si.len() && 0 <= j < si.len() && i != j implies si[i] != si[j] by {
            assert(order[i] != order[j]);
        }
    }
    si.unique_seq_to_set();
    vstd::set_lib::lemma_int_range(0, n as int);
    let range = vstd::set_lib::set_int_range(0, n as int);
    assert(si.to_set().subset_of(range)) by {
        assert forall|v: int| si.to_set().contains(v) implies range.contains(v) by {
            assert(si.contains(v));
            let k = choose|k: int| 0 <= k < si.len() && si[k] == v;
            assert(order[k] < n);
        }
    }
    vstd::set_lib::lemma_len_subset(si.to_set(), range);
    vstd::set_lib::lemma_subset_equality(si.to_set(), range);
    assert(range.contains(x));
    assert(si.to_set().contains(x));
    assert(si.contains(x));
    let k = choose|k: int| 0 <= k < si.len() && si[k] == x;
    assert(order[k] == x as usize);
}

/// When the dependencies have no cycle, no type is left behind a cycle:
/// in the sorted types every type comes after each type it depends on.
pub proof fn lemma_acyclic_all_placed(ts: Seq<TypeView>, r: Seq<TypeView>)
    requires
        ts.len() <= usize::MAX,
        sorted_by_dependency(ts, r),
        dependencies_acyclic(ts),
    ensures
        exists|order: Seq<usize>|
            #[trigger] is_permutation(order, ts.len()) && r == order.map_values(|i: usize| ts[i as int])
                && forall|k: int, j: int|
                0 <= k < order.len() && #[trigger] depends_on(ts, order[k] as int, j) ==> order.take(k).contains(j as usize),
{
    let (order, m) = choose|order: Seq<usize>, m: int| #[trigger] dependency_order(ts, order, m) && r == order.map_values(|i: usize| ts[i as int]);
    if m < order.len() {
        let s = Set::new(|i: int| exists|a: int| m <= a < order.len() && order[a] as int == i);
        assert(s.contains(order[m] as int));
        assert forall|i: int| s.contains(i) implies 0 <= i < ts.len() by {
            let a = choose|a: int| m <= a < order.len() && order[a] as int == i;
            assert(order[a] < ts.len());
        }
        assert(has_free_member(ts, s));
        let i = choose|i: int| s.contains(i) && forall|j: int| #[trigger] depends_on(ts, i, j) ==> !s.contains(j);
        let a = choose|a: int| m <= a < order.len() && order[a] as int == i;
        assert(blocked(ts, order.take(m), order[a] as int));
        let j = choose|j: int| #[trigger] depends_on(ts, i, j) && !order.take(m).contains(j as usize);
        lemma_permutation_covers(order, ts.len(), j);
        let b = choose|b: int| 0 <= b < order.len() && order[b] == j as usize;
        if b < m {
            assert(order.take(m)[b] == j as usize);
            assert(order.take(m).contains(j as usize));
        }
        assert(s.contains(j));
        assert(false);
    }
}

/// Every type the first order places, the second places too.
proof fn lemma_placed_within(ts: Seq<TypeView>, o1: Seq<usize>, m1: int, o2: Seq<usize>, m2: int, k: int)
    requires
        dependency_order(ts, o1, m1),
        dependency_order(ts, o2, m2),
        0 <= k <= m1,
    ensures
        forall|q: int| 0 <= q < k ==> o2.take(m2).contains(#[trigger] o1[q]),
    decreases k,
{
    if k > 0 {
        lemma_placed_within(ts, o1, m1, o2, m2, k - 1);
        let x = o1[k - 1];
        if !o2.take(m2).contains(x) {
            assert(x < ts.len());
            lemma_permutation_covers(o2, ts.len(), x as int);
            let b = choose|b: int| 0 <= b < o2.len() && o2[b] == x;
            if b < m2 {
                assert(o2.take(m2)[b] == x);
            }
            assert(blocked(ts, o2.take(m2), o2[b] as int));
            let j = choose|j: int| #[trigger] depends_on(ts, x as int, j) && !o2.take(m2).contains(j as usize);
            let pre = o1.take(k - 1);
            assert(pre.contains(j as usize));
            let q = choose|q: int| 0 <= q < pre.len() && pre[q] == j as usize;
            assert(o1[q] == j as usize);
            assert(o2.take(m2).contains(o1[q]));
        }
    }
}

/// Two duplicate-free lists with the same members are equally long.
proof fn lemma_same_members_len(a: Seq<usize>, b: Seq<usize>)
    requires
        a.no_duplicates(),
        b.no_duplicates(),
        forall|x: usize| a.contains(x) <==> b.contains(x),
    ensures
        a.len() == b.len(),
{
    a.unique_seq_to_set();
    b.unique_seq_to_set();
    assert(a.to_set() =~= b.to_set());
}

/// The last dependency's position only looks at where dependencies are.
proof fn lemma_last_dep_prefix(ts: Seq<TypeView>, i: int, order: Seq<usize>, k: int)
    requires
        0 <= k <= order.len(),
        forall|q: int| k <= q < order.len() ==> !depends_on(ts, i, #[trigger] order[q] as int),
    ensures
        last_dep(ts, i, order) == last_dep(ts, i, order.take(k)),
    decreases order.len(),
{
    if order.len() > k {
        assert(!depends_on(ts, i, order[order.len() - 1] as int));
        lemma_last_dep_prefix(ts, i, order.drop_last(), k);
        assert(order.drop_last().take(k) =~= order.take(k));
    } else {
        assert(order.take(k) =~= order);
    }
}

/// Along the placed part, each type leaves the queue before every later one.
proof fn lemma_queue_chain(ts: Seq<TypeView>, o: Seq<usize>, m: int, p: int, q: int)
    requires
        dependency_order(ts, o, m),
        0 <= p < q < m,
    ensures
        queued_before(last_dep(ts, o[p] as int, o), o[p], last_dep(ts, o[q] as int, o), o[q]),
    decreases q - p,
{
    assert(queued_before(last_dep(ts, o[q - 1] as int, o), o[q - 1], last_dep(ts, o[q] as int, o), o[q]));
    if p < q - 1 {
        lemma_queue_chain(ts, o, m, p, q - 1);
    }
}

/// A placed type at position `k` depends only on what comes before, so
/// its last dependency sits before `k` in any order sharing that prefix.
proof fn lemma_settled_key(ts: Seq<TypeView>, o: Seq<usize>, m: int, x: usize, pre: Seq<usize>, k: int)
    requires
        dependency_order(ts, o, m),
        0 <= k <= o.len(),
        pre == o.take(k),
        forall|j: int| #[trigger] depends_on(ts, x as int, j) ==> pre.contains(j as usize),
    ensures
        last_dep(ts, x as int, o) == last_dep(ts, x as int, pre),
{
    assert forall|q: int| k <= q < o.len() implies !depends_on(ts, x as int, #[trigger] o[q] as int) by {
        if depends_on(ts, x as int, o[q] as int) {
            assert(pre.contains(o[q]));
            let p = choose|p: int| 0 <= p < pre.len() && pre[p] == o[q];
            assert(o[p] == o[q]);
        }
    }
    lemma_last_dep_prefix(ts, x as int, o, k);
}

/// Two orders that agree on their first `k` placed types agree on the next.
proof fn lemma_prefix_step(ts: Seq<TypeView>, o1: Seq<usize>, o2: Seq<usize>, m: int, k: int)
    requires
        dependency_order(ts, o1, m),
        dependency_order(ts, o2, m),
        forall|x: usize| o1.take(m).contains(x) <==> o2.take(m).contains(x),
        0 <= k < m,
        o1.take(k) == o2.take(k),
    ensures
        o1[k] == o2[k],
{
    let a = o1[k];
    let b = o2[k];
    if a != b {
        let pre = o1.take(k);
        assert(o2.take(k) == pre);
        assert(o1.take(m)[k] == a);
        assert(o2.take(m).contains(a));
        let ka = choose|p: int| 0 <= p < o2.take(m).len() && o2.take(m)[p] == a;
        assert(o2[ka] == a);
        if ka < k {
            assert(pre[ka] == a);
            assert(o1[ka] == a);
        }
        assert(o2.take(m)[k] == b);
        assert(o1.take(m).contains(b));
        let kb = choose|p: int| 0 <= p < o1.take(m).len() && o1.take(m)[p] == b;
        assert(o1[kb] == b);
        if kb < k {
            assert(pre[kb] == b);
            assert(o2[kb] == b);
        }
        assert forall|j: int| #[trigger] depends_on(ts, a as int, j) implies pre.contains(j as usize) by {
            assert(depends_on(ts, o1[k] as int, j));
        }
        assert forall|j: int| #[trigger] depends_on(ts, b as int, j) implies pre.contains(j as usize) by {
            assert(depends_on(ts, o2[k] as int, j));
        }
        lemma_settled_key(ts, o1, m, a, pre, k);
        lemma_settled_key(ts, o2, m, a, pre, k);
        lemma_settled_key(ts, o1, m, b, pre, k);
        lemma_settled_key(ts, o2, m, b, pre, k);
        lemma_queue_chain(ts, o1, m, k, kb);
        lemma_queue_chain(ts, o2, m, k, ka);
    }
}

/// Two orders with the same placed types agree on their first `k`.
proof fn lemma_prefix_agree(ts: Seq<TypeView>, o1: Seq<usize>, o2: Seq<usize>, m: int, k: int)
    requires
        dependency_order(ts, o1, m),
        dependency_order(ts, o2, m),
        forall|x: usize| o1.take(m).contains(x) <==> o2.take(m).contains(x),
        0 <= k <= m,
    ensures
        o1.take(k) == o2.take(k),
    decreases k,
{
    if k == 0 {
        assert(o1.take(0) =~= o2.take(0));
    } else {
        lemma_prefix_agree(ts, o1, o2, m, k - 1);
        lemma_prefix_step(ts, o1, o2, m, k - 1);
        assert(o1.take(k) =~= o1.take(k - 1).push(o1[k - 1]));
        assert(o2.take(k) =~= o2.take(k - 1).push(o2[k - 1]));
    }
}

/// Two increasing lists with the same members are the same list.
proof fn lemma_increasing_same(s: Seq<usize>, t: Seq<usize>)
    requires
        forall|a: int, b: int| 0 <= a < b < s.len() ==> s[a] < s[b],
        forall|a: int, b: int| 0 <= a < b < t.len() ==> t[a] < t[b],
        forall|x: usize| s.contains(x) <==> t.contains(x),
    ensures
        s == t,
{
    assert(s.no_duplicates()) by {
        assert forall|a: int, b: int| 0 <= a < s.len() && 0 <= b < s.len() && a != b implies s[a] != s[b] by {
            if a < b {
                assert(s[a] < s[b]);
            } else {
                assert(s[b] < s[a]);
            }
        }
    }
    assert(t.no_duplicates()) by {
        assert forall|a: int, b: int| 0 <= a < t.len() && 0 <= b < t.len() && a != b implies t[a] != t[b] by {
            if a < b {
                assert(t[a] < t[b]);
            } else {
                assert(t[b] < t[a]);
            }
        }
    }
    lemma_same_members_len(s, t);
    assert forall|k: int| 0 <= k < s.len() implies s[k] == t[k] by {
        assert(s.contains(s[k]));
        let q = choose|q: int| 0 <= q < t.len() && t[q] == s[k];
        lemma_increasing_rank(s, t, k, q);
    }
    assert(s =~= t);
}

/// In two increasing lists with the same members, a member's position is
/// the number of smaller members, so it is the same in both.
proof fn lemma_increasing_rank(s: Seq<usize>, t: Seq<usize>, p: int, q: int)
    requires
        forall|a: int, b: int| 0 <= a < b < s.len() ==> s[a] < s[b],
        forall|a: int, b: int| 0 <= a < b < t.len() ==> t[a] < t[b],
        forall|x: usize| s.contains(x) <==> t.contains(x),
        0 <= p < s.len(),
        0 <= q < t.len(),
        s[p] == t[q],
    ensures
        p == q,
{
    let smaller_s = s.take(p);
    let smaller_t = t.take(q);
    assert forall|x: usize| smaller_s.contains(x) <==> smaller_t.contains(x) by {
        if smaller_s.contains(x) {
            let i = choose|i: int| 0 <= i < p && smaller_s[i] == x;
            assert(s[i] < s[p]);
            assert(t.contains(x)) by {
                assert(s.contains(x));
            }
            let j = choose|j: int| 0 <= j < t.len() && t[j] == x;
            if j >= q {
                if j > q {
                    assert(t[q] < t[j]);
                }
            }
            assert(smaller_t[j] == x);
        }
        if smaller_t.contains(x) {
            let j = choose|j: int| 0 <= j < q && smaller_t[j] == x;
            assert(t[j] < t[q]);
            assert(s.contains(x)) by {
                assert(t.contains(x));
            }
            let i = choose|i: int| 0 <= i < s.len() && s[i] == x;
            if i >= p {
                if i > p {
                    assert(s[p] < s[i]);
                }
            }
            assert(smaller_s[i] == x);
        }
    }
    assert(smaller_s.no_duplicates()) by {
        assert forall|a: int, b: int| 0 <= a < smaller_s.len() && 0 <= b < smaller_s.len() && a != b implies smaller_s[a] != smaller_s[b] by {
            if a < b {
                assert(s[a] < s[b]);
            } else {
                assert(s[b] < s[a]);
            }
        }
    }
    assert(smaller_t.no_duplicates()) by {
        assert forall|a: int, b: int| 0 <= a < smaller_t.len() && 0 <= b < smaller_t.len() && a != b implies smaller_t[a] != smaller_t[b] by {
            if a < b {
                assert(t[a] < t[b]);
            } else {
                assert(t[b] < t[a]);
            }
        }
    }
    lemma_same_members_len(smaller_s, smaller_t);
}

/// Kahn's order is unique: two orders that both satisfy
/// [`dependency_order`] for the same types are the same, split at the same
/// place.
proof fn lemma_dependency_order_unique(ts: Seq<TypeView>, o1: Seq<usize>, m1: int, o2: Seq<usize>, m2: int)
    requires
        ts.len() <= usize::MAX,
        dependency_order(ts, o1, m1),
        dependency_order(ts, o2, m2),
    ensures
        o1 == o2,
        m1 == m2,
{
    lemma_placed_within(ts, o1, m1, o2, m2, m1);
    lemma_placed_within(ts, o2, m2, o1, m1, m2);
    let p1 = o1.take(m1);
    let p2 = o2.take(m2);
    assert forall|x: usize| p1.contains(x) <==> p2.contains(x) by {
        if p1.contains(x) {
            let q = choose|q: int| 0 <= q < p1.len() && p1[q] == x;
            assert(o1[q] == x);
        }
        if p2.contains(x) {
            let q = choose|q: int| 0 <= q < p2.len() && p2[q] == x;
            assert(o2[q] == x);
        }
    }
    assert(p1.no_duplicates()) by {
        assert forall|a: int, b: int| 0 <= a < p1.len() && 0 <= b < p1.len() && a != b implies p1[a] != p1[b] by {
            assert(o1[a] != o1[b]);
        }
    }
    assert(p2.no_duplicates()) by {
        assert forall|a: int, b: int| 0 <= a < p2.len() && 0 <= b < p2.len() && a != b implies p2[a] != p2[b] by {
            assert(o2[a] != o2[b]);
        }
    }
    lemma_same_members_len(p1, p2);
    let m = m1;
    lemma_prefix_agree(ts, o1, o2, m, m);
    let s1 = o1.skip(m);
    let s2 = o2.skip(m);
    assert forall|x: usize| s1.contains(x) <==> s2.contains(x) by {
        if s1.contains(x) {
            let q = choose|q: int| 0 <= q < s1.len() && s1[q] == x;
            assert(o1[m + q] == x);
            assert(!o1.take(m).contains(x)) by {
                if o1.take(m).contains(x) {
                    let r = choose|r: int| 0 <= r < m && o1.take(m)[r] == x;
                    assert(o1[r] == o1[m + q]);
                }
            }
            assert(x < ts.len());
            lemma_permutation_covers(o2, ts.len(), x as int);
            let r = choose|r: int| 0 <= r < o2.len() && o2[r] == x;
            if r < m {
                assert(o2.take(m)[r] == x);
            }
            assert(s2[r - m] == x);
        }
        if s2.contains(x) {
            let q = choose|q: int| 0 <= q < s2.len() && s2[q] == x;
            assert(o2[m + q] == x);
            assert(!o2.take(m).contains(x)) by {
                if o2.take(m).contains(x) {
                    let r = choose|r: int| 0 <= r < m && o2.take(m)[r] == x;
                    assert(o2[r] == o2[m + q]);
                }
            }
            assert(x < ts.len());
            lemma_permutation_covers(o1, ts.len(), x as int);
            let r = choose|r: int| 0 <= r < o1.len() && o1[r] == x;
            if r < m {
                assert(o1.take(m)[r] == x);
            }
            assert(s1[r - m] == x);
        }
    }
    assert forall|a: int, b: int| 0 <= a < b < s1.len() implies s1[a] < s1[b] by {
        assert(o1[m + a] < o1[m + b]);
    }
    assert forall|a: int, b: int| 0 <= a < b < s2.len() implies s2[a] < s2[b] by {
        assert(o2[m + a] < o2[m + b]);
    }
    lemma_increasing_same(s1, s2);
    assert(o1 =~= o1.take(m) + s1);
    assert(o2 =~= o2.take(m) + s2);
}

/// The dependency order is a function of the types: two results that
/// both list the types in dependency order are the same list.
pub proof fn lemma_sorted_by_dependency_unique(ts: Seq<TypeView>, r1: Seq<TypeView>, r2: Seq<TypeView>)
    requires
        ts.len() <= usize::MAX,
        sorted_by_dependency(ts, r1),
        sorted_by_dependency(ts, r2),
    ensures
        r1 == r2,
{
    let (o1, m1) = choose|order: Seq<usize>, m: int| #[trigger] dependency_order(ts, order, m) && r1 == order.map_values(|i: usize| ts[i as int]);
    let (o2, m2) = choose|order: Seq<usize>, m: int| #[trigger] dependency_order(ts, order, m) && r2 == order.map_values(|i: usize| ts[i as int]);
    lemma_dependency_order_unique(ts, o1, m1, o2, m2);
}

/// A type that holds nothing, to stand in a slot that was emptied.
fn vacant_type() -> (r: RawType)
    ensures
        r@ == (TypeView {
            name: Seq::empty(),
            api: None,
            category: Seq::empty(),
            requires: None,
            alias: None,
            bitwidth: None,
            raw_c: Seq::empty(),
            protect: None,
        }),
{
    RawType {
        name: empty_text(),
        api: None,
        category: empty_text(),
        requires: None,
        alias: None,
        bitwidth: None,
        raw_c: empty_text(),
        protect: None,
    }
}

/// The types in the given order.
fn reorder(types: Vec<RawType>, order: &Vec<usize>) -> (r: Vec<RawType>)
    requires
        is_permutation(order@, types@.len()),
    ensures
        type_views(r@) == order@.map_values(|i: usize| type_views(types@)[i as int]),
{
    let ghost orig = types@;
    let ghost tv = type_views(orig);
    let mut slots = types;
    let mut out: Vec<RawType> = Vec::new();
    let mut k: usize = 0;
    while k < order.len()
        invariant
            is_permutation(order@, orig.len()),
            tv == type_views(orig),
            slots@.len() == orig.len(),
            k <= order@.len(),
            forall|i: int| 0 <= i < orig.len() && !order@.take(k as int).contains(i as usize) ==> #[trigger] slots@[i] == orig[i],
            type_views(out@) == order@.take(k as int).map_values(|i: usize| tv[i as int]),
        decreases order@.len() - k,
    {
        let i = order[k];
        proof {
            assert(!order@.take(k as int).contains(i)) by {
                if order@.take(k as int).contains(i) {
                    let p = choose|p: int| 0 <= p < k && order@.take(k as int)[p] == i;
                    assert(order@[p] == order@[k as int]);
                }
            }
            assert(order@.take(k + 1) =~= order@.take(k as int).push(i));
        }
        let mut t = vacant_type();
        slots.set_and_swap(i, &mut t);
        let ghost before = type_views(out@);
        out.push(t);
        proof {
            assert(type_views(out@) =~= before.push(tv[i as int]));
            assert(order@.take(k + 1).map_values(|i: usize| tv[i as int]) =~= order@.take(k as int).map_values(
                |i: usize| tv[i as int],
            ).push(tv[i as int]));
        }
        k = k + 1;
    }
    assert(order@.take(order@.len() as int) =~= order@);
    out
}

/// Order the types so that each comes after what it depends on (by
/// `requires=`, `alias=`, or a type name in its C text), keeping, where
/// the dependencies leave a choice, the order Kahn's algorithm gives; types
/// caught in a cycle come last, in their original order.
pub fn topological_sort(types: Vec<RawType>) -> (r: Vec<RawType>)
    ensures
        sorted_by_dependency(type_views(types@), type_views(r@)),
{
    let ghost tv = type_views(types@);
    let deps = dependency_lists(&types);
    proof {
        assert forall|i: int, k: int| 0 <= i < deps@.len() && 0 <= k < deps@[i]@.len() implies #[trigger] deps@[i]@[k] < deps@.len() by {
            assert(lists_view(deps@)[i].contains(deps@[i]@[k]));
        }
    }
    let rev = dependent_lists(&deps);
    let (order, m) = kahn_order(&deps, &rev);
    proof {
        let dv = lists_view(deps@);
        assert forall|k: int, j: int| 0 <= k < m && #[trigger] depends_on(tv, order@[k] as int, j) implies order@.take(k).contains(j as usize) by {
            assert(dv[order@[k] as int].contains(j as usize));
        }
        assert forall|a: int| m <= a < order@.len() implies blocked(tv, order@.take(m as int), #[trigger] order@[a] as int) by {
            assert(stuck(dv, order@.take(m as int), order@[a]));
            let d = choose|d: usize| #[trigger] dv[order@[a] as int].contains(d) && !order@.take(m as int).contains(d);
            assert(depends_on(tv, order@[a] as int, d as int));
        }
        assert forall|k: int| 0 <= k && k + 1 < m implies queued_before(
            last_dep(tv, order@[k] as int, order@),
            #[trigger] order@[k],
            last_dep(tv, order@[k + 1] as int, order@),
            order@[k + 1],
        ) by {
            lemma_last_dep(tv, dv, order@[k] as int, order@);
            lemma_last_dep(tv, dv, order@[k + 1] as int, order@);
        }
        assert(dependency_order(tv, order@, m as int));
    }
    reorder(types, &order)
}


/// The types of the registry: every `<type>` of every `<types>` section
/// with a non-empty name, 64-bit widths propagated through aliases, in
/// dependency order.
pub open spec fn types_of(docs: Seq<XmlDoc>) -> Seq<TypeView> {
    with_bitwidth(types_in(docs, across(docs, docs.len() as int, Lookup::Section, "types"@)))
}

/// Parse every `<type>` of the registry into `RawType` records, ordered
/// so that each comes after what it depends on.
pub fn parse_types(docs: &SpecDocs) -> (r: Vec<RawType>)
    requires
        docs.wf(),
    ensures
        sorted_by_dependency(types_of(docs.docs()), type_views(r@)),
{
    let raw = collect_types(docs);
    topological_sort(raw)
}


// ---------------------------------------------------------------------------
// Block comments
// ---------------------------------------------------------------------------

/// `s` with every `/* ... */` region replaced by one space; an
/// unterminated comment drops the rest of the text.
pub open spec fn stripped(s: Seq<char>) -> Seq<char>
    decreases s.len(), 1int,
{
    if s.len() >= 2 && s[0] == '/' && s[1] == '*' {
        seq![' '] + comment_rest(s.skip(2))
    } else if s.len() == 0 {
        Seq::empty()
    } else {
        seq![s[0]] + stripped(s.drop_first())
    }
}

/// What follows inside a comment: nothing up to its `*/`, then the
/// stripped rest.
pub open spec fn comment_rest(s: Seq<char>) -> Seq<char>
    decreases s.len(), 0int,
{
    if s.len() >= 2 && s[0] == '*' && s[1] == '/' {
        stripped(s.skip(2))
    } else if s.len() == 0 {
        Seq::empty()
    } else {
        comment_rest(s.drop_first())
    }
}

/// Remove every `/* ... */` region from `s`, replacing each with a single
/// space so token boundaries survive.
pub fn strip_block_comments(s: &str) -> (r: String)
    ensures
        r@ == stripped(s@),
{
    let c = chars_of(s);
    let n = c.len();
    let mut out: Vec<char> = Vec::new();
    let mut inside = false;
    let mut i: usize = 0;
    assert(c@.skip(0) =~= s@);
    while i < n
        invariant
            n == c@.len(),
            c@ == s@,
            i <= n,
            stripped(s@) == out@ + if inside {
                comment_rest(c@.skip(i as int))
            } else {
                stripped(c@.skip(i as int))
            },
        decreases n - i,
    {
        let ghost rest = c@.skip(i as int);
        assert(rest[0] == c@[i as int]);
        assert(rest.drop_first() =~= c@.skip(i + 1));
        if i + 1 < n {
            assert(rest[1] == c@[i + 1]);
            assert(rest.skip(2) =~= c@.skip(i + 2));
        }
        if !inside {
            if i + 1 < n && c[i] == '/' && c[i + 1] == '*' {
                let ghost before = out@;
                out.push(' ');
                assert(before + (seq![' '] + comment_rest(c@.skip(i + 2))) =~= out@ + comment_rest(c@.skip(i + 2)));
                inside = true;
                i = i + 2;
            } else {
                let ghost before = out@;
                out.push(c[i]);
                assert(before + (seq![c@[i as int]] + stripped(c@.skip(i + 1))) =~= out@ + stripped(c@.skip(i + 1)));
                i = i + 1;
            }
        } else {
            if i + 1 < n && c[i] == '*' && c[i + 1] == '/' {
                inside = false;
                i = i + 2;
            } else {
                i = i + 1;
            }
        }
    }
    assert(c@.skip(i as int) =~= Seq::<char>::empty());
    assert(out@ + Seq::<char>::empty() =~= out@);
    string_from_chars(out.as_slice())
}

} // verus!

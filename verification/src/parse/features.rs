//! Parsing of `<feature>` and `<extension>` elements.

use vstd::prelude::*;

use crate::generator::rust::vk_types::has_char;
use crate::ir::{
    copy_removes, copy_requires, opt_text, pack, texts, FeatureView, RawExtension, RawFeature, Remove,
    RemoveView, Require, RequireView, Version,
};
use crate::ordered_map::{entry_value, text_entries, text_map_get};
use crate::parse::xml::{
    attr, elems_named, is_elem, kids, lemma_sibs_step, next_of, sibs, XmlDoc, XmlNode, KIND_ELEMENT,
};
use crate::parse::{across, parse_version, ref_view, version_attr, Lookup, SpecDocs};
use crate::text::{chars_of, parse_u32, parse_u32_spec, str_eq, string_between, trim, trim_bounds};
use indexmap::IndexMap;

verus! {

// ---------------------------------------------------------------------------
// Views
// ---------------------------------------------------------------------------

/// The text of an optional `&str`.
pub open spec fn opt_str(o: Option<&str>) -> Option<Seq<char>> {
    match o {
        Some(s) => Some(s@),
        None => None,
    }
}

/// An owned copy of an optional `&str`.
pub fn owned_text(o: Option<&str>) -> (r: Option<String>)
    ensures
        opt_text(r) == opt_str(o),
{
    match o {
        Some(s) => Some(s.to_owned()),
        None => None,
    }
}

// ---------------------------------------------------------------------------
// <require> and <remove> blocks
// ---------------------------------------------------------------------------

/// The `name=` of an item element, empty when absent.
pub open spec fn item_name(n: XmlNode) -> Seq<char> {
    match attr(n, "name"@) {
        Some(v) => v,
        None => Seq::empty(),
    }
}

/// The names listed by the item elements of `cs` with tag `tag`: elements
/// with a non-empty `name=`, where `skip_extending` drops `<enum>` entries
/// that extend an enum type (those are collected with the enums).
pub open spec fn listed(ns: Seq<XmlNode>, cs: Seq<int>, tag: Seq<char>, skip_extending: bool) -> Seq<Seq<char>>
    decreases cs.len(),
{
    if cs.len() == 0 {
        Seq::empty()
    } else {
        let rest = listed(ns, cs.drop_first(), tag, skip_extending);
        let j = cs[0];
        if 0 <= j < ns.len() && is_elem(ns[j], tag) && item_name(ns[j]).len() > 0 && !(
        skip_extending && tag == "enum"@ && attr(ns[j], "extends"@) is Some) {
            seq![item_name(ns[j])] + rest
        } else {
            rest
        }
    }
}

/// What a `<require>` element `i` requires.
pub open spec fn require_view(ns: Seq<XmlNode>, i: int) -> RequireView {
    RequireView {
        api: attr(ns[i], "api"@),
        profile: attr(ns[i], "profile"@),
        types: listed(ns, kids(ns, i), "type"@, true),
        enums: listed(ns, kids(ns, i), "enum"@, true),
        commands: listed(ns, kids(ns, i), "command"@, true),
    }
}

/// `r` is the `<require>` element `i`, parsed.
pub open spec fn require_of(ns: Seq<XmlNode>, i: int, r: Require) -> bool {
    r@ == require_view(ns, i)
}

/// What a `<remove>` element `i` removes.
pub open spec fn remove_view(ns: Seq<XmlNode>, i: int) -> RemoveView {
    RemoveView {
        profile: attr(ns[i], "profile"@),
        commands: listed(ns, kids(ns, i), "command"@, false),
        enums: listed(ns, kids(ns, i), "enum"@, false),
    }
}

/// `r` is the `<remove>` element `i`, parsed.
pub open spec fn remove_of(ns: Seq<XmlNode>, i: int, r: Remove) -> bool {
    r@ == remove_view(ns, i)
}

/// Step a listing over one child.
proof fn lemma_listed_step(ns: Seq<XmlNode>, cs: Seq<int>, tag: Seq<char>, skip: bool)
    requires
        cs.len() > 0,
    ensures
        listed(ns, cs, tag, skip) == (if 0 <= cs[0] < ns.len() && is_elem(ns[cs[0]], tag)
            && item_name(ns[cs[0]]).len() > 0 && !(skip && tag == "enum"@ && attr(
            ns[cs[0]],
            "extends"@,
        ) is Some) {
            seq![item_name(ns[cs[0]])]
        } else {
            Seq::empty()
        }) + listed(ns, cs.drop_first(), tag, skip),
{
    let rest = listed(ns, cs.drop_first(), tag, skip);
    assert(Seq::<Seq<char>>::empty() + rest =~= rest);
}

/// Append `name` to `v` when `keep`.
fn push_if(v: &mut Vec<String>, keep: bool, name: &str)
    ensures
        texts(*final(v)) == texts(*old(v)) + (if keep {
            seq![name@]
        } else {
            Seq::empty()
        }),
{
    if keep {
        v.push(name.to_owned());
        assert(texts(*v) =~= texts(*old(v)) + seq![name@]);
    } else {
        assert(texts(*v) =~= texts(*old(v)) + Seq::<Seq<char>>::empty());
    }
}

/// The items a `<require>` or `<remove>` block lists under three tags.
fn list_items(doc: &XmlDoc, node: usize, tags: (&str, &str, &str), skip: bool) -> (r: (
    Vec<String>,
    Vec<String>,
    Vec<String>,
))
    requires
        doc.wf(),
        node < doc.nodes@.len(),
    ensures
        texts(r.0) == listed(doc.nodes@, kids(doc.nodes@, node as int), tags.0@, skip),
        texts(r.1) == listed(doc.nodes@, kids(doc.nodes@, node as int), tags.1@, skip),
        texts(r.2) == listed(doc.nodes@, kids(doc.nodes@, node as int), tags.2@, skip),
{
    let ghost ns = doc.nodes@;
    let ghost all = kids(ns, node as int);
    let mut a: Vec<String> = Vec::new();
    let mut b: Vec<String> = Vec::new();
    let mut c: Vec<String> = Vec::new();
    let n = doc.nodes.len();
    let mut cur = doc.first_child_of(node);
    while cur < n
        invariant
            doc.wf(),
            ns == doc.nodes@,
            n == ns.len(),
            cur <= n,
            all == kids(ns, node as int),
            listed(ns, all, tags.0@, skip) == texts(a) + listed(ns, sibs(ns, cur as int), tags.0@, skip),
            listed(ns, all, tags.1@, skip) == texts(b) + listed(ns, sibs(ns, cur as int), tags.1@, skip),
            listed(ns, all, tags.2@, skip) == texts(c) + listed(ns, sibs(ns, cur as int), tags.2@, skip),
        decreases n - cur,
    {
        proof {
            lemma_sibs_step(ns, cur as int);
            lemma_listed_step(ns, sibs(ns, cur as int), tags.0@, skip);
            lemma_listed_step(ns, sibs(ns, cur as int), tags.1@, skip);
            lemma_listed_step(ns, sibs(ns, cur as int), tags.2@, skip);
        }
        let name: &str = match doc.attribute(cur, "name") {
            Some(v) => v,
            None => "",
        };
        proof {
            reveal_strlit("");
            assert(name@ == item_name(ns[cur as int]));
        }
        let extending = skip && doc.is_element_named(cur, "enum") && doc.attribute(cur, "extends").is_some();
        let ok = !name.is_empty() && !extending;
        let ka = ok && doc.is_element_named(cur, tags.0) && !(skip && str_eq(tags.0, "enum") && doc.attribute(cur, "extends").is_some());
        let kb = ok && doc.is_element_named(cur, tags.1) && !(skip && str_eq(tags.1, "enum") && doc.attribute(cur, "extends").is_some());
        let kc = ok && doc.is_element_named(cur, tags.2) && !(skip && str_eq(tags.2, "enum") && doc.attribute(cur, "extends").is_some());
        push_if(&mut a, ka, name);
        push_if(&mut b, kb, name);
        push_if(&mut c, kc, name);
        proof {
            assert(texts(a) + listed(ns, sibs(ns, next_of(ns, cur as int)), tags.0@, skip) =~= listed(ns, all, tags.0@, skip));
            assert(texts(b) + listed(ns, sibs(ns, next_of(ns, cur as int)), tags.1@, skip) =~= listed(ns, all, tags.1@, skip));
            assert(texts(c) + listed(ns, sibs(ns, next_of(ns, cur as int)), tags.2@, skip) =~= listed(ns, all, tags.2@, skip));
        }
        cur = doc.next_sibling_of(cur);
    }
    proof {
        assert(sibs(ns, n as int) =~= Seq::<int>::empty());
        assert(texts(a) + Seq::<Seq<char>>::empty() =~= texts(a));
        assert(texts(b) + Seq::<Seq<char>>::empty() =~= texts(b));
        assert(texts(c) + Seq::<Seq<char>>::empty() =~= texts(c));
    }
    (a, b, c)
}

/// Parse a `<require>` block: its API and profile restriction and the
/// types, enums and commands it names (extending enums excluded).
pub fn parse_require(doc: &XmlDoc, node: usize) -> (r: Require)
    requires
        doc.wf(),
        node < doc.nodes@.len(),
    ensures
        require_of(doc.nodes@, node as int, r),
{
    let api = owned_text(doc.attribute(node, "api"));
    let profile = owned_text(doc.attribute(node, "profile"));
    let (types, enums, commands) = list_items(doc, node, ("type", "enum", "command"), true);
    Require { api, profile, types, enums, commands }
}

/// Parse a `<remove>` block: its profile restriction and the commands and
/// enums it removes.
pub fn parse_remove(doc: &XmlDoc, node: usize) -> (r: Remove)
    requires
        doc.wf(),
        node < doc.nodes@.len(),
    ensures
        remove_of(doc.nodes@, node as int, r),
{
    let profile = owned_text(doc.attribute(node, "profile"));
    let (commands, enums, _unused) = list_items(doc, node, ("command", "enum", "type"), false);
    Remove { profile, commands, enums }
}

// ---------------------------------------------------------------------------
// Attribute lists
// ---------------------------------------------------------------------------

/// Separator sets of the list-valued attributes.
#[derive(Clone, Copy)]
pub enum Seps {
    /// `depends=`/`requires=`: `,` (or), `+` (and) and parentheses.
    Depends,
    /// `supported=`: `|` (GL) or `,` (Vulkan).
    Supported,
    /// `protect=`: `,`.
    Comma,
}

/// `c` separates list items under `k`.
pub open spec fn is_sep(k: Seps, c: char) -> bool {
    match k {
        Seps::Depends => c == ',' || c == '+' || c == '(' || c == ')',
        Seps::Supported => c == '|' || c == ',',
        Seps::Comma => c == ',',
    }
}

/// Which trimmed items a list keeps.
#[derive(Clone, Copy)]
pub enum Keep {
    /// Non-empty names containing `_` (extension or version names).
    Underscored,
    /// Non-empty names other than `disabled`.
    Enabled,
    /// Non-empty names.
    NonEmpty,
    /// Every item, empty ones included.
    Any,
}

/// Whether a trimmed item is kept under `k`.
pub open spec fn keeps(k: Keep, t: Seq<char>) -> bool {
    match k {
        Keep::Underscored => t.len() > 0 && has_char(t, '_'),
        Keep::Enabled => t.len() > 0 && t != "disabled"@,
        Keep::NonEmpty => t.len() > 0,
        Keep::Any => true,
    }
}

/// The pieces of `s` between separators, `cur` being the piece read so far.
pub open spec fn pieces_from(s: Seq<char>, seps: Seps, cur: Seq<char>) -> Seq<Seq<char>>
    decreases s.len(),
{
    if s.len() == 0 {
        seq![cur]
    } else if is_sep(seps, s[0]) {
        seq![cur] + pieces_from(s.drop_first(), seps, Seq::empty())
    } else {
        pieces_from(s.drop_first(), seps, cur.push(s[0]))
    }
}

/// The trimmed pieces that are kept, in order.
pub open spec fn kept(ps: Seq<Seq<char>>, keep: Keep) -> Seq<Seq<char>>
    decreases ps.len(),
{
    if ps.len() == 0 {
        Seq::empty()
    } else if keeps(keep, trim(ps[0])) {
        seq![trim(ps[0])] + kept(ps.drop_first(), keep)
    } else {
        kept(ps.drop_first(), keep)
    }
}

/// The items of a list-valued attribute.
pub open spec fn list_items_of(s: Seq<char>, seps: Seps, keep: Keep) -> Seq<Seq<char>> {
    kept(pieces_from(s, seps, Seq::empty()), keep)
}

/// Keeping a list with a first piece.
proof fn lemma_kept_cons(p: Seq<char>, ps: Seq<Seq<char>>, keep: Keep)
    ensures
        kept(seq![p] + ps, keep) == (if keeps(keep, trim(p)) {
            seq![trim(p)]
        } else {
            Seq::empty()
        }) + kept(ps, keep),
{
    let all = seq![p] + ps;
    assert(all[0] == p);
    assert(all.drop_first() =~= ps);
    assert(Seq::<Seq<char>>::empty() + kept(ps, keep) =~= kept(ps, keep));
}

/// Whether `c` separates items under `k`.
fn sep_char(k: Seps, c: char) -> (r: bool)
    ensures
        r == is_sep(k, c),
{
    match k {
        Seps::Depends => c == ',' || c == '+' || c == '(' || c == ')',
        Seps::Supported => c == '|' || c == ',',
        Seps::Comma => c == ',',
    }
}

/// Whether the trimmed item `s[a..b]` is kept under `k`.
fn keep_item(k: Keep, s: &[char], a: usize, b: usize) -> (r: bool)
    requires
        a <= b <= s@.len(),
    ensures
        r == keeps(k, s@.subrange(a as int, b as int)),
{
    if a == b {
        return match k {
            Keep::Any => true,
            _ => false,
        };
    }
    match k {
        Keep::Underscored => match crate::text::find_in(s, '_', a, b) {
            Some(p) => {
                assert(s@.subrange(a as int, b as int)[p - a] == '_');
                true
            },
            None => {
                proof {
                    if has_char(s@.subrange(a as int, b as int), '_') {
                        let k = choose|k: int| 0 <= k < b - a && s@.subrange(a as int, b as int)[k] == '_';
                        crate::text::lemma_find_some(s@.subrange(a as int, b as int), '_', k);
                    }
                }
                false
            },
        },
        Keep::Enabled => !crate::text::range_eq(s, a, b, "disabled"),
        Keep::NonEmpty => true,
        Keep::Any => true,
    }
}

/// Split a list-valued attribute, trim the items and keep those `keep`
/// accepts.
pub fn split_list(text: &str, seps: Seps, keep: Keep) -> (r: Vec<String>)
    ensures
        texts(r) == list_items_of(text@, seps, keep),
{
    let s = chars_of(text);
    let n = s.len();
    let mut out: Vec<String> = Vec::new();
    let mut start: usize = 0;
    let mut i: usize = 0;
    assert(s@.subrange(0, n as int) =~= s@);
    assert(s@.subrange(0, 0) =~= Seq::<char>::empty());
    while i < n
        invariant
            start <= i <= n == s@.len(),
            s@ == text@,
            list_items_of(text@, seps, keep) == texts(out) + kept(
                pieces_from(s@.subrange(i as int, n as int), seps, s@.subrange(start as int, i as int)),
                keep,
            ),
        decreases n - i,
    {
        let ghost rest = s@.subrange(i as int, n as int);
        assert(rest.drop_first() =~= s@.subrange(i + 1, n as int));
        assert(rest[0] == s@[i as int]);
        if sep_char(seps, s[i]) {
            let (a, b) = trim_bounds(s.as_slice(), start, i);
            let ghost piece = s@.subrange(start as int, i as int);
            let ghost out0 = texts(out);
            assert(s@.subrange(i + 1, i + 1) =~= Seq::<char>::empty());
            proof {
                lemma_kept_cons(piece, pieces_from(rest.drop_first(), seps, Seq::empty()), keep);
            }
            if keep_item(keep, s.as_slice(), a, b) {
                out.push(string_between(s.as_slice(), a, b));
                assert(texts(out) =~= out0 + seq![trim(piece)]);
            } else {
                assert(out0 + Seq::<Seq<char>>::empty() =~= out0);
            }
            start = i + 1;
        } else {
            assert(s@.subrange(start as int, i + 1) =~= s@.subrange(start as int, i as int).push(s@[i as int]));
        }
        i = i + 1;
    }
    let (a, b) = trim_bounds(s.as_slice(), start, n);
    let ghost last = s@.subrange(start as int, n as int);
    let ghost out0 = texts(out);
    assert(s@.subrange(n as int, n as int) =~= Seq::<char>::empty());
    proof {
        lemma_kept_cons(last, Seq::empty(), keep);
        assert(seq![last] + Seq::<Seq<char>>::empty() =~= seq![last]);
    }
    if keep_item(keep, s.as_slice(), a, b) {
        out.push(string_between(s.as_slice(), a, b));
        assert(texts(out) =~= out0 + seq![trim(last)]);
    } else {
        assert(out0 + Seq::<Seq<char>>::empty() =~= out0);
    }
    out
}

/// The extension dependency names of an `<extension>`: the tokens of its
/// `depends=` (Vulkan) or, failing that, `requires=` (GL) attribute that
/// contain `_` (extension and version names).
pub open spec fn depends_of(n: XmlNode) -> Seq<Seq<char>> {
    match attr(n, "depends"@) {
        Some(d) => list_items_of(d, Seps::Depends, Keep::Underscored),
        None => match attr(n, "requires"@) {
            Some(d) => list_items_of(d, Seps::Depends, Keep::Underscored),
            None => Seq::empty(),
        },
    }
}

/// Extract extension dependency names from the `requires=` (GL) or
/// `depends=` (Vulkan) attribute on an `<extension>` element.
///
/// GL uses comma-separated names: `requires="GL_ARB_draw_indirect"`
/// Vulkan uses a boolean expression: `depends="VK_KHR_foo+VK_KHR_bar,VK_VERSION_1_1"`
/// with `+` (AND), `,` (OR), and parentheses.  Every token that contains
/// `_` is returned: the resolver needs all prerequisites regardless of
/// AND/OR semantics.
pub fn parse_extension_depends(doc: &XmlDoc, node: usize) -> (r: Vec<String>)
    requires
        node < doc.nodes@.len(),
    ensures
        texts(r) == depends_of(doc.nodes@[node as int]),
{
    let raw = match doc.attribute(node, "depends") {
        Some(d) => d,
        None => match doc.attribute(node, "requires") {
            Some(d) => d,
            None => {
                let v: Vec<String> = Vec::new();
                assert(texts(v) =~= Seq::<Seq<char>>::empty());
                return v;
            },
        },
    };
    split_list(raw, Seps::Depends, Keep::Underscored)
}

// ---------------------------------------------------------------------------
// Extensions
// ---------------------------------------------------------------------------

/// GLX extensions with unresolvable type dependencies, dropped silently.
pub open spec fn is_broken_glx(name: Seq<char>) -> bool {
    name == "GLX_SGIX_video_source"@ || name == "GLX_SGIX_dmbuffer"@
}

/// The APIs an extension supports: the `supported=` list (`|` in GL, `,`
/// in Vulkan) without `disabled`; an extension without the attribute is
/// disabled.
pub open spec fn supported_of(n: XmlNode) -> Seq<Seq<char>> {
    list_items_of(
        match attr(n, "supported"@) {
            Some(s) => s,
            None => "disabled"@,
        },
        Seps::Supported,
        Keep::Enabled,
    )
}

/// An extension's protection macros: its `protect=` list, or, when it has
/// none, the macro its `platform=` maps to in `plat`.
pub open spec fn protect_of(n: XmlNode, plat: Seq<(Seq<char>, Seq<char>)>) -> Seq<Seq<char>> {
    let p = list_items_of(
        match attr(n, "protect"@) {
            Some(s) => s,
            None => Seq::empty(),
        },
        Seps::Comma,
        Keep::NonEmpty,
    );
    if p.len() == 0 && attr(n, "platform"@) is Some && entry_value(plat, attr(n, "platform"@)->0) is Some {
        seq![entry_value(plat, attr(n, "platform"@)->0)->0]
    } else {
        p
    }
}

/// The registry number of an extension, when `number=` is a `u32`.
pub open spec fn number_of(n: XmlNode) -> Option<u32> {
    match attr(n, "number"@) {
        Some(t) => match parse_u32_spec(t) {
            Ok(v) => Some(v),
            Err(_) => None,
        },
        None => None,
    }
}

/// The `<require>` blocks `rs` of an element, parsed, in order.
pub open spec fn requires_of(ns: Seq<XmlNode>, rs: Seq<int>, v: Vec<Require>) -> bool {
    &&& v@.len() == rs.len()
    &&& forall|k: int| 0 <= k < rs.len() ==> require_of(ns, #[trigger] rs[k], v@[k])
}

/// `e` is the extension element `j` parses to.
pub open spec fn extension_of(ns: Seq<XmlNode>, j: int, plat: Seq<(Seq<char>, Seq<char>)>, e: RawExtension) -> bool {
    let n = ns[j];
    &&& Some(e.name@) == attr(n, "name"@)
    &&& texts(e.supported) == supported_of(n)
    &&& texts(e.protect) == protect_of(n, plat)
    &&& e.number == number_of(n)
    &&& texts(e.depends) == depends_of(n)
    &&& requires_of(ns, elems_named(ns, kids(ns, j), "require"@), e.requires)
}

/// The extension elements among `refs` that yield an extension, in order:
/// named `<extension>` elements, without the broken GLX ones, each name
/// only the first time it is seen (supplemental documents may declare an
/// extension again), and supported by some API.
pub open spec fn extension_nodes(docs: Seq<XmlDoc>, refs: Seq<(int, int)>, seen: Seq<Seq<char>>, glx: bool) -> Seq<(int, int)>
    decreases refs.len(),
{
    if refs.len() == 0 {
        Seq::empty()
    } else {
        let (d, j) = refs[0];
        let n = docs[d].nodes@[j];
        let rest = refs.drop_first();
        if !(n.name@ == "extension"@) || attr(n, "name"@) is None {
            extension_nodes(docs, rest, seen, glx)
        } else {
            let name = attr(n, "name"@)->0;
            if glx && is_broken_glx(name) {
                extension_nodes(docs, rest, seen, glx)
            } else if seen.contains(name) {
                extension_nodes(docs, rest, seen, glx)
            } else if supported_of(n).len() == 0 {
                extension_nodes(docs, rest, seen.push(name), glx)
            } else {
                seq![(d, j)] + extension_nodes(docs, rest, seen.push(name), glx)
            }
        }
    }
}

/// `exts` are the extensions of the registry `docs`, one for each element
/// [`extension_nodes`] keeps, in order (`glx`: the GLX registry is parsed;
/// `plat`: the platform table).
pub open spec fn extensions_parsed(docs: Seq<XmlDoc>, glx: bool, plat: Seq<(Seq<char>, Seq<char>)>, exts: Seq<RawExtension>) -> bool {
    let ps = extension_nodes(docs, across(docs, docs.len() as int, Lookup::Section, "extensions"@), Seq::empty(), glx);
    &&& exts.len() == ps.len()
    &&& forall|k: int| 0 <= k < ps.len() ==> extension_of(docs[ps[k].0].nodes@, ps[k].1, plat, #[trigger] exts[k])
}

/// Whether `name` is one of `seen`.
fn seen_contains(seen: &Vec<String>, name: &str) -> (r: bool)
    ensures
        r == texts(*seen).contains(name@),
{
    let mut k: usize = 0;
    while k < seen.len()
        invariant
            k <= seen@.len(),
            forall|m: int| 0 <= m < k ==> seen@[m]@ != name@,
        decreases seen@.len() - k,
    {
        if str_eq(seen[k].as_str(), name) {
            assert(texts(*seen)[k as int] == name@);
            return true;
        }
        k = k + 1;
    }
    proof {
        if texts(*seen).contains(name@) {
            let m = choose|m: int| 0 <= m < texts(*seen).len() && texts(*seen)[m] == name@;
            assert(seen@[m]@ == name@);
        }
    }
    false
}

/// Parse each `<require>` block of element `j`.
fn parse_requires(doc: &XmlDoc, j: usize) -> (r: Vec<Require>)
    requires
        doc.wf(),
        j < doc.nodes@.len(),
    ensures
        requires_of(doc.nodes@, elems_named(doc.nodes@, kids(doc.nodes@, j as int), "require"@), r),
{
    let rs = doc.children_named(j, "require");
    let ghost rv = rs@.map_values(|c: usize| c as int);
    let mut out: Vec<Require> = Vec::new();
    let mut k: usize = 0;
    while k < rs.len()
        invariant
            doc.wf(),
            k <= rs@.len(),
            rv == rs@.map_values(|c: usize| c as int),
            forall|m: int| 0 <= m < rs@.len() ==> rs@[m] < doc.nodes@.len(),
            out@.len() == k,
            forall|m: int| 0 <= m < k ==> require_of(doc.nodes@, rv[m], #[trigger] out@[m]),
        decreases rs@.len() - k,
    {
        out.push(parse_require(doc, rs[k]));
        k = k + 1;
    }
    out
}

/// Parse the extension element `j`, given its name and supported APIs.
fn parse_extension(
    doc: &XmlDoc,
    j: usize,
    platforms: &IndexMap<String, String>,
    name: &str,
    supported: Vec<String>,
) -> (r: RawExtension)
    requires
        doc.wf(),
        j < doc.nodes@.len(),
        attr(doc.nodes@[j as int], "name"@) == Some(name@),
        texts(supported) == supported_of(doc.nodes@[j as int]),
    ensures
        extension_of(doc.nodes@, j as int, text_entries(*platforms), r),
{
    let ghost n = doc.nodes@[j as int];
    let praw: &str = match doc.attribute(j, "protect") {
        Some(p) => p,
        None => "",
    };
    proof {
        reveal_strlit("");
    }
    let mut protect = split_list(praw, Seps::Comma, Keep::NonEmpty);
    if protect.len() == 0 {
        match doc.attribute(j, "platform") {
            Some(platform) => match text_map_get(platforms, platform) {
                Some(p) => {
                    protect.push(p.clone());
                    assert(texts(protect) =~= seq![p@]);
                },
                None => {},
            },
            None => {},
        }
    }
    let number = match doc.attribute(j, "number") {
        Some(t) => {
            let cs = chars_of(t);
            assert(cs@.subrange(0, cs@.len() as int) =~= t@);
            match parse_u32(cs.as_slice(), 0, cs.len()) {
                Ok(v) => Some(v),
                Err(_) => None,
            }
        },
        None => None,
    };
    let depends = parse_extension_depends(doc, j);
    let blocks = parse_requires(doc, j);
    RawExtension {
        name: name.to_owned(),
        supported,
        requires: blocks,
        protect,
        number,
        depends,
    }
}

/// Parse every `<extension>` inside the `<extensions>` blocks of all
/// documents, in document order.  `spec_name` is the spec being parsed;
/// `platforms` maps `platform=` names to protection macros.
pub fn parse_extensions(docs: &SpecDocs, spec_name: &str, platforms: &IndexMap<String, String>) -> (r:
    Result<Vec<RawExtension>, crate::error::Error>)
    requires
        docs.wf(),
    ensures
        r matches Ok(exts) && extensions_parsed(docs.docs(), spec_name@ == "glx"@, text_entries(*platforms), exts@),
{
    let refs = docs.all_extensions();
    let ghost rv = refs@.map_values(|p: (usize, usize)| ref_view(p));
    let ghost dv = docs.docs();
    let ghost glx = spec_name@ == "glx"@;
    let is_glx = str_eq(spec_name, "glx");
    let mut extensions: Vec<RawExtension> = Vec::new();
    let mut seen: Vec<String> = Vec::new();
    let ghost mut picked: Seq<(int, int)> = Seq::empty();
    let mut i: usize = 0;
    assert(rv.subrange(0, rv.len() as int) =~= rv);
    assert(texts(seen) =~= Seq::<Seq<char>>::empty());
    assert(picked + extension_nodes(dv, rv, Seq::empty(), glx) =~= extension_nodes(dv, rv, Seq::empty(), glx));
    while i < refs.len()
        invariant
            docs.wf(),
            dv == docs.docs(),
            is_glx == glx,
            i <= refs@.len(),
            rv == refs@.map_values(|p: (usize, usize)| ref_view(p)),
            forall|k: int| 0 <= k < refs@.len() ==> refs@[k].0 < dv.len() && refs@[k].1 < dv[refs@[k].0 as int].nodes@.len(),
            extension_nodes(dv, rv, Seq::empty(), glx) == picked + extension_nodes(
                dv,
                rv.subrange(i as int, rv.len() as int),
                texts(seen),
                glx,
            ),
            extensions@.len() == picked.len(),
            forall|k: int|
                0 <= k < picked.len() ==> extension_of(
                    dv[picked[k].0].nodes@,
                    picked[k].1,
                    text_entries(*platforms),
                    #[trigger] extensions@[k],
                ),
        decreases refs@.len() - i,
    {
        let (d, j) = refs[i];
        let doc = docs.doc(d);
        assert(doc.wf());
        let ghost rest = rv.subrange(i as int, rv.len() as int);
        let ghost n = dv[d as int].nodes@[j as int];
        proof {
            assert(rest[0] == (d as int, j as int));
            assert(rest.drop_first() =~= rv.subrange(i + 1, rv.len() as int));
        }
        i = i + 1;
        if !str_eq(doc.nodes[j].name.as_str(), "extension") {
            continue;
        }
        let name = match doc.attribute(j, "name") {
            Some(nm) => nm,
            None => {
                continue;
            },
        };
        if is_glx && (str_eq(name, "GLX_SGIX_video_source") || str_eq(name, "GLX_SGIX_dmbuffer")) {
            continue;
        }
        if seen_contains(&seen, name) {
            continue;
        }
        let ghost seen0 = texts(seen);
        seen.push(name.to_owned());
        assert(texts(seen) =~= seen0.push(name@));
        let sraw: &str = match doc.attribute(j, "supported") {
            Some(v) => v,
            None => "disabled",
        };
        proof {
            reveal_strlit("disabled");
        }
        let supported = split_list(sraw, Seps::Supported, Keep::Enabled);
        let ghost tail = extension_nodes(dv, rv.subrange(i as int, rv.len() as int), texts(seen), glx);
        if supported.len() == 0 {
            assert(extension_nodes(dv, rest, seen0, glx) == tail);
            continue;
        }
        assert(extension_nodes(dv, rest, seen0, glx) == seq![(d as int, j as int)] + tail);
        let e = parse_extension(doc, j, platforms, name, supported);
        let ghost old_len = extensions@.len();
        extensions.push(e);
        proof {
            let old_picked = picked;
            picked = picked.push((d as int, j as int));
            assert(old_picked + (seq![(d as int, j as int)] + tail) =~= picked + tail);
            assert(extensions@[old_len as int] == e);
        }
    }
    assert(rv.subrange(refs@.len() as int, rv.len() as int) =~= Seq::<(int, int)>::empty());
    assert(picked + Seq::<(int, int)>::empty() =~= picked);
    Ok(extensions)
}

// ---------------------------------------------------------------------------
// Features
// ---------------------------------------------------------------------------

/// `apitype="internal"`: a feature that only partitions an API for
/// bookkeeping; its requirements belong to the public feature.
pub open spec fn is_internal(n: XmlNode) -> bool {
    attr(n, "apitype"@) == Some("internal"@)
}

/// The APIs of a comma-separated `api=` list, each trimmed.
pub open spec fn api_list(s: Seq<char>) -> Seq<Seq<char>> {
    list_items_of(s, Seps::Comma, Keep::Any)
}

/// The version of a feature, when `number=` parses.
pub open spec fn feature_version(n: XmlNode) -> Option<Version> {
    match attr(n, "number"@) {
        Some(t) => match version_attr(t) {
            Ok((a, b)) => Some(Version { major: a, minor: b }),
            Err(_) => None,
        },
        None => None,
    }
}

/// The `<require>` blocks of element `j`, parsed.
pub open spec fn requires_view(ns: Seq<XmlNode>, j: int) -> Seq<RequireView> {
    elems_named(ns, kids(ns, j), "require"@).map_values(|c: int| require_view(ns, c))
}

/// The `<remove>` blocks of element `j`, parsed.
pub open spec fn removes_view(ns: Seq<XmlNode>, j: int) -> Seq<RemoveView> {
    elems_named(ns, kids(ns, j), "remove"@).map_values(|c: int| remove_view(ns, c))
}

/// The features a public `<feature>` element `j` declares: one per API in
/// its `api=` list, each with the element's requirements and removals.  An
/// internal feature, or one without a name, API list or valid version,
/// declares none.
pub open spec fn public_of(ns: Seq<XmlNode>, j: int) -> Seq<FeatureView> {
    let n = ns[j];
    if !is_internal(n) && attr(n, "name"@) is Some && attr(n, "api"@) is Some && feature_version(n) is Some {
        api_list(attr(n, "api"@)->0).map_values(
            |a: Seq<char>|
                FeatureView {
                    name: attr(n, "name"@)->0,
                    api: a,
                    version: feature_version(n)->0,
                    requires: requires_view(ns, j),
                    removes: removes_view(ns, j),
                },
        )
    } else {
        Seq::empty()
    }
}

/// The public features of the feature elements `refs`, in order.
pub open spec fn publics(docs: Seq<XmlDoc>, refs: Seq<(int, int)>) -> Seq<FeatureView>
    decreases refs.len(),
{
    if refs.len() == 0 {
        Seq::empty()
    } else {
        publics(docs, refs.drop_last()) + public_of(docs[refs.last().0].nodes@, refs.last().1)
    }
}

/// Position of the first feature of API `api` at version `v`.
pub open spec fn first_feature(fs: Seq<FeatureView>, api: Seq<char>, v: Version) -> Option<int>
    decreases fs.len(),
{
    if fs.len() == 0 {
        None
    } else if first_feature(fs.drop_last(), api, v) is Some {
        first_feature(fs.drop_last(), api, v)
    } else if fs.last().api == api && fs.last().version == v {
        Some(fs.len() - 1)
    } else {
        None
    }
}

/// Append `extra` to the requirements of the first feature of API `api` at
/// version `v`, if there is one.
pub open spec fn merge_one(fs: Seq<FeatureView>, api: Seq<char>, v: Version, extra: Seq<RequireView>) -> Seq<FeatureView> {
    match first_feature(fs, api, v) {
        Some(k) => fs.update(k, FeatureView { requires: fs[k].requires + extra, ..fs[k] }),
        None => fs,
    }
}

/// Merge `extra` into the matching feature of each API of `apis`, in order.
pub open spec fn merge_apis(fs: Seq<FeatureView>, apis: Seq<Seq<char>>, v: Version, extra: Seq<RequireView>) -> Seq<FeatureView>
    decreases apis.len(),
{
    if apis.len() == 0 {
        fs
    } else {
        merge_one(merge_apis(fs, apis.drop_last(), v, extra), apis.last(), v, extra)
    }
}

/// Fold an internal feature element `j` into `fs`: its requirements join
/// the public feature of the same API and version.
pub open spec fn internal_merge(ns: Seq<XmlNode>, j: int, fs: Seq<FeatureView>) -> Seq<FeatureView> {
    let n = ns[j];
    if is_internal(n) && attr(n, "api"@) is Some && feature_version(n) is Some {
        merge_apis(fs, api_list(attr(n, "api"@)->0), feature_version(n)->0, requires_view(ns, j))
    } else {
        fs
    }
}

/// Fold the internal feature elements of `refs` into `fs`, in order.
pub open spec fn merged(docs: Seq<XmlDoc>, refs: Seq<(int, int)>, fs: Seq<FeatureView>) -> Seq<FeatureView>
    decreases refs.len(),
{
    if refs.len() == 0 {
        fs
    } else {
        internal_merge(docs[refs.last().0].nodes@, refs.last().1, merged(docs, refs.drop_last(), fs))
    }
}

/// `a` sorts strictly before `b`, comparing characters.
pub open spec fn text_less(a: Seq<char>, b: Seq<char>) -> bool
    decreases a.len(),
{
    if a.len() == 0 {
        b.len() > 0
    } else if b.len() == 0 {
        false
    } else if a[0] != b[0] {
        a[0] < b[0]
    } else {
        text_less(a.drop_first(), b.drop_first())
    }
}

/// `y` sorts strictly after `x`: by API name, then by version.
pub open spec fn sorts_after(x: FeatureView, y: FeatureView) -> bool {
    text_less(x.api, y.api) || (x.api == y.api && pack(x.version.major, x.version.minor) < pack(
        y.version.major,
        y.version.minor,
    ))
}

/// Where `x` goes in the ordered `s`: before the first element that sorts
/// after it, so equal elements keep their order.
pub open spec fn insert_pos(s: Seq<FeatureView>, x: FeatureView) -> int
    decreases s.len(),
{
    if s.len() == 0 {
        0
    } else if sorts_after(x, s[0]) {
        0
    } else {
        1 + insert_pos(s.drop_first(), x)
    }
}

/// The features in order of API name, then version, equal keys in their
/// original order.
pub open spec fn sorted_features(fs: Seq<FeatureView>) -> Seq<FeatureView>
    decreases fs.len(),
{
    if fs.len() == 0 {
        Seq::empty()
    } else {
        let s = sorted_features(fs.drop_last());
        let p = insert_pos(s, fs.last());
        s.take(p) + seq![fs.last()] + s.skip(p)
    }
}

/// The features the feature elements `refs` declare: the public ones with
/// the internal requirements merged in, sorted.
pub open spec fn features_of(docs: Seq<XmlDoc>, refs: Seq<(int, int)>) -> Seq<FeatureView> {
    sorted_features(merged(docs, refs, publics(docs, refs)))
}

/// The views of a list of features.
pub open spec fn feature_views(v: Seq<RawFeature>) -> Seq<FeatureView> {
    v.map_values(|f: RawFeature| f@)
}

/// Parse the `<require>` blocks of element `j` into views.
fn parse_requires_v(doc: &XmlDoc, j: usize) -> (r: Vec<Require>)
    requires
        doc.wf(),
        j < doc.nodes@.len(),
    ensures
        r@.map_values(|x: Require| x@) == requires_view(doc.nodes@, j as int),
{
    let r = parse_requires(doc, j);
    let ghost rs = elems_named(doc.nodes@, kids(doc.nodes@, j as int), "require"@);
    assert(r@.map_values(|x: Require| x@) =~= rs.map_values(|c: int| require_view(doc.nodes@, c)));
    r
}

/// Parse the `<remove>` blocks of element `j`.
fn parse_removes(doc: &XmlDoc, j: usize) -> (r: Vec<Remove>)
    requires
        doc.wf(),
        j < doc.nodes@.len(),
    ensures
        r@.map_values(|x: Remove| x@) == removes_view(doc.nodes@, j as int),
{
    let rs = doc.children_named(j, "remove");
    let ghost rv = rs@.map_values(|c: usize| c as int);
    let mut out: Vec<Remove> = Vec::new();
    let mut k: usize = 0;
    while k < rs.len()
        invariant
            doc.wf(),
            k <= rs@.len(),
            rv == rs@.map_values(|c: usize| c as int),
            rv == elems_named(doc.nodes@, kids(doc.nodes@, j as int), "remove"@),
            forall|m: int| 0 <= m < rs@.len() ==> rs@[m] < doc.nodes@.len(),
            out@.map_values(|x: Remove| x@) == rv.subrange(0, k as int).map_values(|c: int| remove_view(doc.nodes@, c)),
        decreases rs@.len() - k,
    {
        let x = parse_remove(doc, rs[k]);
        let ghost prev = out@;
        assert(x@ == remove_view(doc.nodes@, rv[k as int]));
        out.push(x);
        assert(out@.map_values(|x: Remove| x@) =~= prev.map_values(|x: Remove| x@).push(x@));
        assert(rv.subrange(0, k + 1).map_values(|c: int| remove_view(doc.nodes@, c)) =~= rv.subrange(
            0,
            k as int,
        ).map_values(|c: int| remove_view(doc.nodes@, c)).push(remove_view(doc.nodes@, rv[k as int])));
        k = k + 1;
    }
    assert(rv.subrange(0, rs@.len() as int) =~= rv);
    out
}

/// The declared features of a public feature element, appended to `out`.
fn push_public(out: &mut Vec<RawFeature>, doc: &XmlDoc, j: usize)
    requires
        doc.wf(),
        j < doc.nodes@.len(),
    ensures
        feature_views(final(out)@) == feature_views(old(out)@) + public_of(doc.nodes@, j as int),
{
    let ghost n = doc.nodes@[j as int];
    let ghost before = feature_views(out@);
    let internal = match doc.attribute(j, "apitype") {
        Some(t) => str_eq(t, "internal"),
        None => false,
    };
    let name = doc.attribute(j, "name");
    let api_raw = doc.attribute(j, "api");
    let number = doc.attribute(j, "number");
    if internal || name.is_none() || api_raw.is_none() || number.is_none() {
        assert(feature_views(out@) =~= before + Seq::<FeatureView>::empty());
        return;
    }
    let name = name.unwrap();
    let api_raw = api_raw.unwrap();
    let version = match parse_version(number.unwrap()) {
        Ok(v) => v,
        Err(_) => {
            assert(feature_views(out@) =~= before + Seq::<FeatureView>::empty());
            return;
        },
    };
    assert(feature_version(n) == Some(version));
    let requires_blocks = parse_requires_v(doc, j);
    let removes = parse_removes(doc, j);
    let apis = split_list(api_raw, Seps::Comma, Keep::Any);
    let ghost all = public_of(doc.nodes@, j as int);
    assert(all.len() == apis@.len());
    let mut k: usize = 0;
    while k < apis.len()
        invariant
            k <= apis@.len(),
            all.len() == apis@.len(),
            feature_views(out@) == before + all.subrange(0, k as int),
            forall|m: int| 0 <= m < apis@.len() ==> (#[trigger] all[m]) == (FeatureView {
                name: name@,
                api: apis@[m]@,
                version: version,
                requires: requires_blocks@.map_values(|x: Require| x@),
                removes: removes@.map_values(|x: Remove| x@),
            }),
        decreases apis@.len() - k,
    {
        let f = RawFeature {
            name: name.to_owned(),
            api: apis[k].clone(),
            version: Version { major: version.major, minor: version.minor },
            requires: copy_requires(&requires_blocks),
            removes: copy_removes(&removes),
        };
        assert(f@ == all[k as int]);
        let ghost prev = out@;
        out.push(f);
        assert(feature_views(out@) =~= feature_views(prev).push(f@));
        assert(all.subrange(0, k + 1) =~= all.subrange(0, k as int).push(all[k as int]));
        assert(feature_views(out@) =~= before + all.subrange(0, k + 1));
        k = k + 1;
    }
    assert(all.subrange(0, apis@.len() as int) =~= all);
}

/// The public features of every feature element, in order.
fn collect_public(docs: &SpecDocs, refs: &Vec<(usize, usize)>) -> (r: Vec<RawFeature>)
    requires
        docs.wf(),
        forall|k: int| 0 <= k < refs@.len() ==> refs@[k].0 < docs.docs().len() && refs@[k].1 < docs.docs()[refs@[k].0 as int].nodes@.len(),
    ensures
        feature_views(r@) == publics(docs.docs(), refs@.map_values(|p: (usize, usize)| ref_view(p))),
{
    let ghost rv = refs@.map_values(|p: (usize, usize)| ref_view(p));
    let mut out: Vec<RawFeature> = Vec::new();
    let mut i: usize = 0;
    assert(feature_views(out@) =~= publics(docs.docs(), rv.take(0)));
    while i < refs.len()
        invariant
            docs.wf(),
            i <= refs@.len(),
            rv == refs@.map_values(|p: (usize, usize)| ref_view(p)),
            forall|k: int| 0 <= k < refs@.len() ==> refs@[k].0 < docs.docs().len() && refs@[k].1 < docs.docs()[refs@[k].0 as int].nodes@.len(),
            feature_views(out@) == publics(docs.docs(), rv.take(i as int)),
        decreases refs@.len() - i,
    {
        let (d, j) = refs[i];
        let doc = docs.doc(d);
        assert(doc.wf());
        assert(rv.take(i + 1).drop_last() =~= rv.take(i as int));
        push_public(&mut out, doc, j);
        i = i + 1;
    }
    assert(rv.take(refs@.len() as int) =~= rv);
    out
}

/// Whether feature `f` is of API `api` at version `v`.
fn feature_matches(f: &RawFeature, api: &str, v: &Version) -> (r: bool)
    ensures
        r == (f@.api == api@ && f@.version == *v),
{
    str_eq(f.api.as_str(), api) && f.version.major == v.major && f.version.minor == v.minor
}

/// Merge `extra` into the first feature of API `api` at version `v`.
fn merge_into(fs: &mut Vec<RawFeature>, api: &str, v: &Version, extra: &Vec<Require>)
    ensures
        feature_views(final(fs)@) == merge_one(
            feature_views(old(fs)@),
            api@,
            *v,
            extra@.map_values(|x: Require| x@),
        ),
{
    let ghost fv = feature_views(fs@);
    let mut k: usize = 0;
    while k < fs.len()
        invariant
            k <= fs@.len(),
            fv == feature_views(fs@),
            fs@ == old(fs)@,
            first_feature(fv.take(k as int), api@, *v) is None,
        decreases fs@.len() - k,
    {
        assert(fv.take(k + 1).drop_last() =~= fv.take(k as int));
        if feature_matches(&fs[k], api, v) {
            proof {
                assert(fv.take(k + 1).last() == fv[k as int]);
                lemma_first_feature_prefix(fv, k as int + 1, api@, *v, k as int);
            }
            let ghost old_fs = fs@;
            let mut f = fs.remove(k);
            assert(f == old_fs[k as int]);
            let ghost old_req = f.requires@;
            let mut more = copy_requires(extra);
            f.requires.append(&mut more);
            proof {
                assert(f.requires@.map_values(|x: Require| x@) =~= old_req.map_values(|x: Require| x@)
                    + extra@.map_values(|x: Require| x@));
                assert(f@ == FeatureView {
                    requires: fv[k as int].requires + extra@.map_values(|x: Require| x@),
                    ..fv[k as int]
                });
            }
            fs.insert(k, f);
            proof {
                assert(fs@ =~= old_fs.update(k as int, f));
                assert(feature_views(fs@) =~= fv.update(k as int, f@));
                let ev = extra@.map_values(|x: Require| x@);
                assert(first_feature(fv, api@, *v) == Some(k as int));
                assert(merge_one(fv, api@, *v, ev) == fv.update(
                    k as int,
                    FeatureView { requires: fv[k as int].requires + ev, ..fv[k as int] },
                ));
            }
            return;
        }
        k = k + 1;
    }
    assert(fv.take(fs@.len() as int) =~= fv);
}

/// The first match in a prefix is the first match overall.
proof fn lemma_first_feature_prefix(fs: Seq<FeatureView>, k: int, api: Seq<char>, v: Version, p: int)
    requires
        0 <= k <= fs.len(),
        first_feature(fs.take(k), api, v) == Some(p),
    ensures
        first_feature(fs, api, v) == Some(p),
    decreases fs.len() - k,
{
    if k < fs.len() {
        assert(fs.take(k + 1).drop_last() =~= fs.take(k));
        lemma_first_feature_prefix(fs, k + 1, api, v, p);
    } else {
        assert(fs.take(k) =~= fs);
    }
}

/// Fold the internal feature elements into the public features.
fn merge_internal(docs: &SpecDocs, refs: &Vec<(usize, usize)>, fs: &mut Vec<RawFeature>)
    requires
        docs.wf(),
        forall|k: int| 0 <= k < refs@.len() ==> refs@[k].0 < docs.docs().len() && refs@[k].1 < docs.docs()[refs@[k].0 as int].nodes@.len(),
    ensures
        feature_views(final(fs)@) == merged(
            docs.docs(),
            refs@.map_values(|p: (usize, usize)| ref_view(p)),
            feature_views(old(fs)@),
        ),
{
    let ghost rv = refs@.map_values(|p: (usize, usize)| ref_view(p));
    let ghost f0 = feature_views(fs@);
    let mut i: usize = 0;
    assert(rv.take(0) =~= Seq::<(int, int)>::empty());
    while i < refs.len()
        invariant
            docs.wf(),
            i <= refs@.len(),
            rv == refs@.map_values(|p: (usize, usize)| ref_view(p)),
            forall|k: int| 0 <= k < refs@.len() ==> refs@[k].0 < docs.docs().len() && refs@[k].1 < docs.docs()[refs@[k].0 as int].nodes@.len(),
            feature_views(fs@) == merged(docs.docs(), rv.take(i as int), f0),
        decreases refs@.len() - i,
    {
        let (d, j) = refs[i];
        let doc = docs.doc(d);
        assert(doc.wf());
        assert(rv.take(i + 1).drop_last() =~= rv.take(i as int));
        let ghost n = doc.nodes@[j as int];
        let ghost start = feature_views(fs@);
        let internal = match doc.attribute(j, "apitype") {
            Some(t) => str_eq(t, "internal"),
            None => false,
        };
        i = i + 1;
        if !internal {
            continue;
        }
        let api_raw = match doc.attribute(j, "api") {
            Some(a) => a,
            None => {
                continue;
            },
        };
        let number = match doc.attribute(j, "number") {
            Some(t) => t,
            None => {
                continue;
            },
        };
        let version = match parse_version(number) {
            Ok(v) => v,
            Err(_) => {
                continue;
            },
        };
        assert(feature_version(n) == Some(version));
        let extra = parse_requires_v(doc, j);
        let apis = split_list(api_raw, Seps::Comma, Keep::Any);
        let ghost av = texts(apis);
        let mut k: usize = 0;
        assert(av.take(0) =~= Seq::<Seq<char>>::empty());
        while k < apis.len()
            invariant
                k <= apis@.len(),
                av == texts(apis),
                feature_views(fs@) == merge_apis(start, av.take(k as int), version, requires_view(doc.nodes@, j as int)),
                extra@.map_values(|x: Require| x@) == requires_view(doc.nodes@, j as int),
            decreases apis@.len() - k,
        {
            assert(av.take(k + 1).drop_last() =~= av.take(k as int));
            merge_into(fs, apis[k].as_str(), &version, &extra);
            k = k + 1;
        }
        assert(av.take(apis@.len() as int) =~= av);
    }
    assert(rv.take(refs@.len() as int) =~= rv);
}

/// `a` sorts strictly before `b`.
fn text_before(a: &str, b: &str) -> (r: bool)
    ensures
        r == text_less(a@, b@),
{
    let x = chars_of(a);
    let y = chars_of(b);
    let mut k: usize = 0;
    assert(x@.skip(0) =~= x@);
    assert(y@.skip(0) =~= y@);
    while k < x.len() && k < y.len() && x[k] == y[k]
        invariant
            k <= x@.len(),
            k <= y@.len(),
            text_less(a@, b@) == text_less(x@.skip(k as int), y@.skip(k as int)),
            x@ == a@,
            y@ == b@,
        decreases x@.len() - k,
    {
        assert(x@.skip(k as int).drop_first() =~= x@.skip(k + 1));
        assert(y@.skip(k as int).drop_first() =~= y@.skip(k + 1));
        k = k + 1;
    }
    if k == x.len() {
        k < y.len()
    } else if k == y.len() {
        false
    } else {
        x[k] < y[k]
    }
}

/// Whether `y` sorts strictly after `x`.
fn after(x: &RawFeature, y: &RawFeature) -> (r: bool)
    ensures
        r == sorts_after(x@, y@),
{
    text_before(x.api.as_str(), y.api.as_str()) || (crate::text::str_eq(x.api.as_str(), y.api.as_str())
        && x.version.packed() < y.version.packed())
}

/// Insertion of `x` into an ordered list at its place.
fn insert_sorted(s: &mut Vec<RawFeature>, x: RawFeature)
    ensures
        feature_views(final(s)@) == {
            let o = feature_views(old(s)@);
            let p = insert_pos(o, x@);
            o.take(p) + seq![x@] + o.skip(p)
        },
{
    let ghost o = feature_views(s@);
    let mut p: usize = 0;
    assert(o.skip(0) =~= o);
    while p < s.len() && !after(&x, &s[p])
        invariant
            p <= s@.len(),
            o == feature_views(s@),
            insert_pos(o, x@) == p + insert_pos(o.skip(p as int), x@),
        decreases s@.len() - p,
    {
        assert(o.skip(p as int).drop_first() =~= o.skip(p + 1));
        p = p + 1;
    }
    proof {
        if p < o.len() {
            assert(o.skip(p as int)[0] == o[p as int]);
        }
    }
    assert(insert_pos(o, x@) == p);
    s.insert(p, x);
    assert(feature_views(s@) =~= o.take(p as int) + seq![x@] + o.skip(p as int));
}

/// Sort features by API name, then version; equal keys keep their order.
fn sort_features(fs: Vec<RawFeature>) -> (r: Vec<RawFeature>)
    ensures
        feature_views(r@) == sorted_features(feature_views(fs@)),
{
    let ghost f = feature_views(fs@);
    let mut rest = fs;
    let mut out: Vec<RawFeature> = Vec::new();
    let mut i: usize = 0;
    let total = rest.len();
    assert(f.take(0) =~= Seq::<FeatureView>::empty());
    while rest.len() > 0
        invariant
            i + rest@.len() == total,
            total == f.len(),
            feature_views(rest@) == f.skip(i as int),
            feature_views(out@) == sorted_features(f.take(i as int)),
        decreases rest@.len(),
    {
        let ghost r0 = rest@;
        let x = rest.remove(0);
        assert(x == r0[0]);
        assert(feature_views(r0)[0] == x@);
        assert(f.skip(i as int)[0] == f[i as int]);
        assert(x@ == f[i as int]);
        assert(rest@ =~= r0.subrange(1, r0.len() as int));
        assert(feature_views(rest@) =~= feature_views(r0).subrange(1, r0.len() as int));
        assert(f.skip(i as int).subrange(1, r0.len() as int) =~= f.skip(i + 1));
        assert(feature_views(rest@) =~= f.skip(i + 1));
        assert(f.take(i + 1).drop_last() =~= f.take(i as int));
        assert(f.take(i + 1).last() == f[i as int]);
        insert_sorted(&mut out, x);
        i = i + 1;
    }
    assert(f.take(total as int) =~= f);
    out
}

/// Parse every public `<feature>` (one entry per API it lists), fold the
/// requirements of internal features (`apitype="internal"`) into the public
/// feature of the same API and version, and sort by API, then version.
pub fn parse_features(docs: &SpecDocs, spec_name: &str) -> (r: Result<Vec<RawFeature>, crate::error::Error>)
    requires
        docs.wf(),
    ensures
        r matches Ok(fs) && feature_views(fs@) == features_of(
            docs.docs(),
            across(docs.docs(), docs.docs().len() as int, Lookup::TopLevel, "feature"@),
        ),
{
    let refs = docs.all_features();
    let mut features = collect_public(docs, &refs);
    merge_internal(docs, &refs, &mut features);
    Ok(sort_features(features))
}


// ---------------------------------------------------------------------------
// The order of the features
// ---------------------------------------------------------------------------

/// No feature of `s` sorts strictly before one that comes earlier.
pub open spec fn features_ordered(s: Seq<FeatureView>) -> bool {
    forall|i: int, j: int| 0 <= i < j < s.len() ==> !sorts_after(#[trigger] s[j], #[trigger] s[i])
}

/// In the registry's features, two of the same API come in ascending
/// version order, major first: the earlier has the smaller major, or the
/// same major and a minor no larger.  (Versions are compared packed into
/// 16 bits, so this holds for major and minor below 256.)  Features of
/// different APIs come in the character order of their API names.
pub proof fn lemma_features_by_version(docs: Seq<XmlDoc>, refs: Seq<(int, int)>)
    ensures
        forall|i: int, j: int|
            0 <= i < j < features_of(docs, refs).len() && (#[trigger] features_of(docs, refs)[i]).api
                == (#[trigger] features_of(docs, refs)[j]).api && features_of(docs, refs)[i].version.major < 256
                && features_of(docs, refs)[i].version.minor < 256 && features_of(docs, refs)[j].version.major < 256
                && features_of(docs, refs)[j].version.minor < 256 ==> features_of(docs, refs)[i].version.major
                < features_of(docs, refs)[j].version.major || (features_of(docs, refs)[i].version.major
                == features_of(docs, refs)[j].version.major && features_of(docs, refs)[i].version.minor
                <= features_of(docs, refs)[j].version.minor),
        forall|i: int, j: int|
            0 <= i < j < features_of(docs, refs).len() && (#[trigger] features_of(docs, refs)[i]).api
                != (#[trigger] features_of(docs, refs)[j]).api ==> text_less(
                features_of(docs, refs)[i].api,
                features_of(docs, refs)[j].api,
            ),
{
    let fs = features_of(docs, refs);
    lemma_sorted_features(merged(docs, refs, publics(docs, refs)));
    assert forall|i: int, j: int| 0 <= i < j < fs.len() && (#[trigger] fs[i]).api != (#[trigger] fs[j]).api implies text_less(
        fs[i].api,
        fs[j].api,
    ) by {
        assert(!sorts_after(fs[j], fs[i]));
        lemma_text_less_total(fs[i].api, fs[j].api);
    }
    assert forall|i: int, j: int|
        0 <= i < j < fs.len() && (#[trigger] fs[i]).api == (#[trigger] fs[j]).api && fs[i].version.major < 256
            && fs[i].version.minor < 256 && fs[j].version.major < 256 && fs[j].version.minor < 256 implies fs[i].version.major
        < fs[j].version.major || (fs[i].version.major == fs[j].version.major && fs[i].version.minor
        <= fs[j].version.minor) by {
        assert(!sorts_after(fs[j], fs[i]));
        crate::ir::lemma_packed_order_is_semantic(fs[j].version, fs[i].version);
    }
}

/// Character order on texts is transitive.
proof fn lemma_text_less_transitive(a: Seq<char>, b: Seq<char>, c: Seq<char>)
    requires
        text_less(a, b),
        text_less(b, c),
    ensures
        text_less(a, c),
    decreases a.len(),
{
    if a.len() > 0 && b.len() > 0 && c.len() > 0 && a[0] == b[0] && b[0] == c[0] {
        lemma_text_less_transitive(a.drop_first(), b.drop_first(), c.drop_first());
    }
}

/// Of two different texts, one sorts before the other.
proof fn lemma_text_less_total(a: Seq<char>, b: Seq<char>)
    requires
        a != b,
    ensures
        text_less(a, b) || text_less(b, a),
    decreases a.len(),
{
    if a.len() > 0 && b.len() > 0 && a[0] == b[0] {
        if a.drop_first() == b.drop_first() {
            assert(a =~= seq![a[0]] + a.drop_first());
            assert(b =~= seq![b[0]] + b.drop_first());
        }
        lemma_text_less_total(a.drop_first(), b.drop_first());
    } else if a.len() == 0 && b.len() == 0 {
        assert(a =~= b);
    }
}

/// No text sorts before itself.
proof fn lemma_text_less_irreflexive(a: Seq<char>)
    ensures
        !text_less(a, a),
    decreases a.len(),
{
    if a.len() > 0 {
        lemma_text_less_irreflexive(a.drop_first());
    }
}

/// The feature order is transitive.
proof fn lemma_sorts_after_transitive(x: FeatureView, y: FeatureView, z: FeatureView)
    requires
        sorts_after(x, y),
        sorts_after(y, z),
    ensures
        sorts_after(x, z),
{
    if text_less(x.api, y.api) && text_less(y.api, z.api) {
        lemma_text_less_transitive(x.api, y.api, z.api);
    }
}

/// Everything before the insertion point stays before `x`; the element at
/// it, if any, sorts after `x`.
proof fn lemma_insert_pos(s: Seq<FeatureView>, x: FeatureView)
    ensures
        0 <= insert_pos(s, x) <= s.len(),
        forall|i: int| 0 <= i < insert_pos(s, x) ==> !sorts_after(x, #[trigger] s[i]),
        insert_pos(s, x) < s.len() ==> sorts_after(x, s[insert_pos(s, x)]),
    decreases s.len(),
{
    if s.len() > 0 && !sorts_after(x, s[0]) {
        lemma_insert_pos(s.drop_first(), x);
        assert forall|i: int| 0 <= i < insert_pos(s, x) implies !sorts_after(x, #[trigger] s[i]) by {
            if i > 0 {
                assert(s[i] == s.drop_first()[i - 1]);
            }
        }
    }
}

/// The features come out ordered by API name, then version, and nothing is
/// added or lost on the way.
pub proof fn lemma_sorted_features(fs: Seq<FeatureView>)
    ensures
        features_ordered(sorted_features(fs)),
        sorted_features(fs).to_multiset() == fs.to_multiset(),
    decreases fs.len(),
{
    if fs.len() > 0 {
        let s = sorted_features(fs.drop_last());
        let x = fs.last();
        lemma_sorted_features(fs.drop_last());
        lemma_insert_pos(s, x);
        let p = insert_pos(s, x);
        let r = s.take(p) + seq![x] + s.skip(p);
        assert(r == sorted_features(fs));
        assert forall|i: int, j: int| 0 <= i < j < r.len() implies !sorts_after(#[trigger] r[j], #[trigger] r[i]) by {
            if j < p {
                assert(r[i] == s[i] && r[j] == s[j]);
            } else if j == p {
                assert(r[i] == s[i] && r[j] == x);
            } else if i < p {
                assert(r[i] == s[i] && r[j] == s[j - 1]);
            } else if i == p {
                assert(r[i] == x && r[j] == s[j - 1]);
                if sorts_after(s[j - 1], x) {
                    lemma_sorts_after_transitive(s[j - 1], x, s[p]);
                    if j - 1 > p {
                        assert(!sorts_after(s[j - 1], s[p]));
                    } else {
                        lemma_text_less_irreflexive(s[p].api);
                    }
                }
            } else {
                assert(r[i] == s[i - 1] && r[j] == s[j - 1]);
            }
        }
        let a = s.take(p);
        let b = s.skip(p);
        let one = seq![x];
        vstd::seq_lib::lemma_multiset_commutative(a + one, b);
        vstd::seq_lib::lemma_multiset_commutative(a, one);
        vstd::seq_lib::lemma_multiset_commutative(a, b);
        assert(a + b =~= s);
        vstd::seq_lib::lemma_multiset_commutative(fs.drop_last(), one);
        assert(fs.drop_last() + one =~= fs);
        assert(r.to_multiset() =~= s.to_multiset().add(one.to_multiset()));
        assert(fs.to_multiset() =~= fs.drop_last().to_multiset().add(one.to_multiset()));
    } else {
        assert(fs =~= Seq::<FeatureView>::empty());
    }
}


/// The `name=` of the extension element `r` (document, node).
pub open spec fn ext_name(docs: Seq<XmlDoc>, r: (int, int)) -> Seq<char> {
    attr(docs[r.0].nodes@[r.1], "name"@)->0
}

/// Each extension is kept once: the kept elements carry pairwise distinct
/// names, none of them one already `seen`.
pub proof fn lemma_extension_names_distinct(docs: Seq<XmlDoc>, refs: Seq<(int, int)>, seen: Seq<Seq<char>>, glx: bool)
    ensures
        forall|k: int|
            0 <= k < extension_nodes(docs, refs, seen, glx).len() ==> !seen.contains(
                ext_name(docs, #[trigger] extension_nodes(docs, refs, seen, glx)[k]),
            ),
        forall|i: int, j: int|
            0 <= i < j < extension_nodes(docs, refs, seen, glx).len() ==> ext_name(
                docs,
                #[trigger] extension_nodes(docs, refs, seen, glx)[i],
            ) != ext_name(docs, #[trigger] extension_nodes(docs, refs, seen, glx)[j]),
    decreases refs.len(),
{
    if refs.len() > 0 {
        let (d, j) = refs[0];
        let n = docs[d].nodes@[j];
        let rest = refs.drop_first();
        if !(n.name@ == "extension"@) || attr(n, "name"@) is None {
            lemma_extension_names_distinct(docs, rest, seen, glx);
            assert(extension_nodes(docs, refs, seen, glx) == extension_nodes(docs, rest, seen, glx));
        } else {
            let name = attr(n, "name"@)->0;
            if glx && is_broken_glx(name) {
                lemma_extension_names_distinct(docs, rest, seen, glx);
                assert(extension_nodes(docs, refs, seen, glx) == extension_nodes(docs, rest, seen, glx));
            } else if seen.contains(name) {
                lemma_extension_names_distinct(docs, rest, seen, glx);
                assert(extension_nodes(docs, refs, seen, glx) == extension_nodes(docs, rest, seen, glx));
            } else {
                let seen2 = seen.push(name);
                lemma_extension_names_distinct(docs, rest, seen2, glx);
                let tail = extension_nodes(docs, rest, seen2, glx);
                assert forall|k: int| 0 <= k < tail.len() implies !seen.contains(ext_name(docs, #[trigger] tail[k]))
                    && ext_name(docs, tail[k]) != name by {
                    if seen.contains(ext_name(docs, tail[k])) {
                        let m = choose|m: int| 0 <= m < seen.len() && seen[m] == ext_name(docs, tail[k]);
                        assert(seen2[m] == seen[m]);
                    }
                    assert(seen2[seen.len() as int] == name);
                }
                if supported_of(n).len() == 0 {
                    assert(extension_nodes(docs, refs, seen, glx) == tail);
                } else {
                    let ps = extension_nodes(docs, refs, seen, glx);
                    assert(ps == seq![(d, j)] + tail);
                    assert(ext_name(docs, (d, j)) == name);
                    assert forall|a: int, b: int| 0 <= a < b < ps.len() implies ext_name(docs, #[trigger] ps[a]) != ext_name(
                        docs,
                        #[trigger] ps[b],
                    ) by {
                        assert(ps[b] == tail[b - 1]);
                        if a > 0 {
                            assert(ps[a] == tail[a - 1]);
                        }
                    }
                    assert forall|k: int| 0 <= k < ps.len() implies !seen.contains(ext_name(docs, #[trigger] ps[k])) by {
                        if k > 0 {
                            assert(ps[k] == tail[k - 1]);
                        }
                    }
                }
            }
        }
    }
}


/// The features and the extensions of a registry.
pub fn parse_features_extensions(docs: &SpecDocs, spec_name: &str, platforms: &IndexMap<String, String>) -> (r: Result<
    (Vec<RawFeature>, Vec<RawExtension>),
    crate::error::Error,
>)
    requires
        docs.wf(),
    ensures
        r matches Ok(v) && feature_views(v.0@) == features_of(
            docs.docs(),
            across(docs.docs(), docs.docs().len() as int, Lookup::TopLevel, "feature"@),
        ) && extensions_parsed(docs.docs(), spec_name@ == "glx"@, text_entries(*platforms), v.1@),
{
    let features = match parse_features(docs, spec_name) {
        Ok(f) => f,
        Err(e) => return Err(e),
    };
    let extensions = match parse_extensions(docs, spec_name, platforms) {
        Ok(x) => x,
        Err(e) => return Err(e),
    };
    Ok((features, extensions))
}

} // verus!

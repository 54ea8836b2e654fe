//! Registry text helpers: the C-comment rewriting applied to every type body,
//! version attributes, and the extension enum-offset formula.

pub mod commands;
pub mod ctype;
pub mod enums;
pub mod features;
pub mod payload;
pub mod records;
pub mod signatures;
pub mod typedefs;
pub mod types;
pub mod xml;

use vstd::prelude::*;

use crate::error::{Error, Fault};
use crate::ordered_map::{entry_insert, text_entries, text_map_insert, text_map_new};
use crate::parse::xml::{
    attr, elems_named, lemma_sibs_step, link, next_of, section_in, sibs, top_kids, XmlDoc, XmlNode,
    KIND_ELEMENT, KIND_TEXT,
};
use indexmap::IndexMap;
use crate::fetch::SpecSources;
use crate::identity::Spec;
use crate::ir::{RawSpec, Version};
use crate::ordered_map::{command_entries, enum_entries};
use crate::parse::commands::{declared, fix_all, needing_fixup};
use crate::parse::enums::{groups_view, parsed_enums, EnumState};
use crate::parse::features::{extensions_parsed, feature_views, features_of};
use crate::parse::types::{sorted_by_dependency, type_views, types_of};
use crate::parse::xml::{loaded, text_loads, xml_parse, XmlError};
use crate::text::{
    chars_of, find, find_in, first_at, parse_u32, parse_u32_spec, str_eq, string_from_chars, trim,
    trim_bounds,
};

verus! {

// ---------------------------------------------------------------------------
// Line-comment rewriting
// ---------------------------------------------------------------------------

/// `j` ends a block comment that opens at the start of `t`: a `*/` whose
/// `*` is not the opener's.
pub open spec fn closes_at(t: Seq<char>, j: int) -> bool {
    3 <= j < t.len() && t[j - 1] == '*' && t[j] == '/'
}

/// `j` is the first such position.
pub open spec fn first_close(t: Seq<char>, j: int) -> bool {
    closes_at(t, j) && forall|k: int| 3 <= k < j ==> !closes_at(t, k)
}

/// One past the end of the block comment opening at the start of `t`: just
/// past its first closing `*/`, or the end of `t` when it never closes.
pub open spec fn comment_end(t: Seq<char>) -> int {
    if exists|j: int| first_close(t, j) {
        (choose|j: int| first_close(t, j)) + 1
    } else {
        t.len() as int
    }
}

/// `s` with every `// comment` rewritten to `/* comment */` followed by a
/// newline (the comment text trimmed), scanning left to right: an existing
/// `/* ... */` block is copied verbatim, and a `//` right after `:` (a URL)
/// is left alone.  `prev` is the character emitted just before `s`.
pub open spec fn rewrite(s: Seq<char>, prev: Option<char>) -> Seq<char>
    decreases s.len(),
{
    if s.len() == 0 {
        Seq::empty()
    } else if s.len() >= 2 && s[0] == '/' && s[1] == '*' {
        let e = comment_end(s);
        if 2 <= e <= s.len() {
            s.subrange(0, e) + rewrite(s.subrange(e, s.len() as int), Some('/'))
        } else {
            Seq::empty()
        }
    } else if s.len() >= 2 && s[0] == '/' && s[1] == '/' && prev != Some(':') {
        let body = s.subrange(2, s.len() as int);
        match find(body, '\n') {
            Some(n) => if 0 <= n < body.len() {
                "/* "@ + trim(body.subrange(0, n)) + " */\n"@ + rewrite(
                    body.subrange(n + 1, body.len() as int),
                    Some('\n'),
                )
            } else {
                Seq::empty()
            },
            None => "/* "@ + trim(body) + " */\n"@,
        }
    } else {
        seq![s[0]] + rewrite(s.drop_first(), Some(s[0]))
    }
}

/// Find the end of the block comment opening at `s[i]` (see [`comment_end`]).
fn block_comment_end(s: &[char], i: usize) -> (r: usize)
    requires
        i + 2 <= s@.len(),
        s@[i as int] == '/',
        s@[i + 1] == '*',
    ensures
        i + 2 <= r <= s@.len(),
        r - i == comment_end(s@.subrange(i as int, s@.len() as int)),
{
    let ghost t = s@.subrange(i as int, s@.len() as int);
    let len = s.len();
    let mut j = i + 2;
    while j < len
        invariant
            i + 2 <= j,
            len == s@.len(),
            t == s@.subrange(i as int, s@.len() as int),
            forall|k: int| 3 <= k < j - i ==> !closes_at(t, k),
        decreases len - j,
    {
        if j > i + 2 && s[j - 1] == '*' && s[j] == '/' {
            proof {
                assert(closes_at(t, j - i));
                assert(first_close(t, j - i));
                let c = choose|c: int| first_close(t, c);
                assert(first_close(t, c));
                if c < j - i {
                    assert(!closes_at(t, c));
                } else if c > j - i {
                    assert(!closes_at(t, j - i));
                }
            }
            return j + 1;
        }
        j = j + 1;
    }
    proof {
        if (exists|c: int| first_close(t, c)) {
            let c = choose|c: int| first_close(t, c);
            assert(first_close(t, c));
            assert(!closes_at(t, c));
        }
    }
    s.len()
}

/// Rewrite C++ `// comment` style to `/* comment */` (registry text is
/// emitted into C headers that must stay C89/C99-clean).
///
/// Text inside an existing `/* ... */` block passes through untouched, and
/// `//` immediately preceded by `:` is treated as part of a URL, not a
/// comment.
pub fn rewrite_line_comments(s: &str) -> (r: String)
    ensures
        r@ == rewrite(s@, None),
{
    let v = chars_of(s);
    let n = v.len();
    let mut out: Vec<char> = Vec::new();
    let mut prev: Option<char> = None;
    let mut i: usize = 0;
    assert(v@.subrange(0, n as int) =~= s@);
    while i < n
        invariant
            i <= n == v@.len(),
            v@ == s@,
            rewrite(s@, None) == out@ + rewrite(v@.subrange(i as int, n as int), prev),
        decreases n - i,
    {
        let ghost t = v@.subrange(i as int, n as int);
        let ghost before = out@;
        if i + 1 < n && v[i] == '/' && v[i + 1] == '*' {
            let e = block_comment_end(v.as_slice(), i);
            let mut k = i;
            while k < e
                invariant
                    i <= k <= e <= n == v@.len(),
                    out@ == before + v@.subrange(i as int, k as int),
                decreases e - k,
            {
                out.push(v[k]);
                assert(v@.subrange(i as int, k + 1) =~= v@.subrange(i as int, k as int).push(v@[k as int]));
                k = k + 1;
            }
            proof {
                assert(t.subrange(0, e - i) =~= v@.subrange(i as int, e as int));
                assert(t.subrange(e - i, t.len() as int) =~= v@.subrange(e as int, n as int));
            }
            prev = Some('/');
            i = e;
        } else if i + 1 < n && v[i] == '/' && v[i + 1] == '/' && prev != Some(':') {
            let ghost body = t.subrange(2, t.len() as int);
            assert(body =~= v@.subrange(i + 2, n as int));
            let (stop, next) = match find_in(v.as_slice(), '\n', i + 2, n) {
                Some(nl) => (nl, nl + 1),
                None => (n, n),
            };
            let (ta, tb) = trim_bounds(v.as_slice(), i + 2, stop);
            out.push('/');
            out.push('*');
            out.push(' ');
            proof {
                reveal_strlit("/* ");
                assert(out@ =~= before + "/* "@ + v@.subrange(ta as int, ta as int));
            }
            let mut k = ta;
            while k < tb
                invariant
                    i + 2 <= ta <= k <= tb <= stop <= n == v@.len(),
                    out@ == before + "/* "@ + v@.subrange(ta as int, k as int),
                decreases tb - k,
            {
                out.push(v[k]);
                assert(v@.subrange(ta as int, k + 1) =~= v@.subrange(ta as int, k as int).push(v@[k as int]));
                k = k + 1;
            }
            out.push(' ');
            out.push('*');
            out.push('/');
            out.push('\n');
            proof {
                reveal_strlit("/* ");
                reveal_strlit(" */\n");
                assert(body.subrange(0, stop - (i + 2)) =~= v@.subrange(i + 2, stop as int));
                if next < n || stop < n {
                    assert(body.subrange(stop - (i + 2) + 1, body.len() as int) =~= v@.subrange(next as int, n as int));
                } else {
                    assert(v@.subrange(next as int, n as int) =~= Seq::<char>::empty());
                }
                assert(out@ =~= before + ("/* "@ + v@.subrange(ta as int, tb as int) + " */\n"@));
            }
            prev = Some('\n');
            i = next;
        } else {
            let c = v[i];
            out.push(c);
            proof {
                assert(t.drop_first() =~= v@.subrange(i + 1, n as int));
            }
            prev = Some(c);
            i = i + 1;
        }
    }
    assert(v@.subrange(n as int, n as int) =~= Seq::<char>::empty());
    assert(out@ =~= rewrite(s@, None));
    string_from_chars(out.as_slice())
}

// ---------------------------------------------------------------------------
// Versions and enum values
// ---------------------------------------------------------------------------

/// A `major.minor` attribute: split at the first `.`, each part trimmed and
/// read as a decimal `u32`.
pub open spec fn version_attr(s: Seq<char>) -> Result<(u32, u32), Fault> {
    match find(s, '.') {
        None => Err(Fault::InvalidVersion(s)),
        Some(i) => match parse_u32_spec(trim(s.subrange(0, i))) {
            Err(k) => Err(Fault::InvalidInteger(k)),
            Ok(a) => match parse_u32_spec(trim(s.subrange(i + 1, s.len() as int))) {
                Err(k) => Err(Fault::InvalidInteger(k)),
                Ok(b) => Ok((a, b)),
            },
        },
    }
}

/// Parse a version string "major.minor" into a `Version`.
pub fn parse_version(s: &str) -> (r: Result<Version, Error>)
    ensures
        match version_attr(s@) {
            Ok((a, b)) => r matches Ok(v) && v.major == a && v.minor == b,
            Err(f) => r matches Err(e) && e@ == f,
        },
{
    let v = chars_of(s);
    let n = v.len();
    assert(v@.subrange(0, n as int) =~= s@);
    match find_in(v.as_slice(), '.', 0, n) {
        None => Err(Error::InvalidVersion { text: s.to_owned() }),
        Some(d) => {
            assert(s@.subrange(0, d as int) =~= v@.subrange(0, d as int));
            assert(s@.subrange(d + 1, s@.len() as int) =~= v@.subrange(d + 1, n as int));
            let (a0, a1) = trim_bounds(v.as_slice(), 0, d);
            let major = match parse_u32(v.as_slice(), a0, a1) {
                Ok(x) => x,
                Err(k) => return Err(Error::InvalidInteger { kind: k }),
            };
            let (b0, b1) = trim_bounds(v.as_slice(), d + 1, n);
            let minor = match parse_u32(v.as_slice(), b0, b1) {
                Ok(x) => x,
                Err(k) => return Err(Error::InvalidInteger { kind: k }),
            };
            Ok(Version::new(major, minor))
        },
    }
}

/// The extension offset formula: `1_000_000_000 + 1_000 * (extnumber - 1) +
/// offset`, negated when `dir="-"`.
pub open spec fn ext_enum_value(extnumber: u32, offset: u32, negative: bool) -> int {
    let base = 1_000_000_000 + 1_000 * (extnumber - 1) + offset;
    if negative {
        -base
    } else {
        base
    }
}

/// Compute the value of an enum that uses the extension offset formula.
pub fn compute_ext_enum_value(extnumber: u32, offset: u32, dir: Option<&str>) -> (r: i64)
    ensures
        r == ext_enum_value(
            extnumber,
            offset,
            match dir {
                Some(d) => d@ == "-"@,
                None => false,
            },
        ),
{
    let base: i64 = 1_000_000_000 + 1_000 * (extnumber as i64 - 1) + offset as i64;
    let negative = match dir {
        Some(d) => str_eq(d, "-"),
        None => false,
    };
    if negative {
        -base
    } else {
        base
    }
}

// ---------------------------------------------------------------------------
// SpecDocs — multi-document view
// ---------------------------------------------------------------------------

/// Holds the primary XML document and all supplemental documents.
/// Provides lookups that transparently span all documents, primary first.
pub struct SpecDocs {
    pub primary: XmlDoc,
    pub supplementals: Vec<XmlDoc>,
}

/// Node positions of one document, tagged with the document's index.
pub open spec fn tagged(k: int, is: Seq<int>) -> Seq<(int, int)> {
    is.map_values(|i: int| (k, i))
}

/// Which nodes a multi-document lookup collects from each document.
#[derive(Clone, Copy)]
pub enum Lookup {
    /// The element children of the root element's children with a tag.
    Section,
    /// The root element's element children with a tag.
    TopLevel,
}

/// The nodes `l` collects from the document `ns`.
pub open spec fn lookup_in(l: Lookup, ns: Seq<XmlNode>, tag: Seq<char>) -> Seq<int> {
    match l {
        Lookup::Section => section_in(ns, top_kids(ns), tag),
        Lookup::TopLevel => elems_named(ns, top_kids(ns), tag),
    }
}

/// The nodes `l` collects from the first `n` documents, in order.
pub open spec fn across(docs: Seq<XmlDoc>, n: int, l: Lookup, tag: Seq<char>) -> Seq<(int, int)>
    decreases n,
{
    if n <= 0 {
        Seq::empty()
    } else {
        across(docs, n - 1, l, tag) + tagged(n - 1, lookup_in(l, docs[n - 1].nodes@, tag))
    }
}

/// A node reference as positions.
pub open spec fn ref_view(r: (usize, usize)) -> (int, int) {
    (r.0 as int, r.1 as int)
}

impl SpecDocs {
    /// The documents, primary first.
    pub open spec fn docs(&self) -> Seq<XmlDoc> {
        seq![self.primary] + self.supplementals@
    }

    /// Every document is well formed.
    pub open spec fn wf(&self) -> bool {
        forall|k: int| 0 <= k < self.docs().len() ==> #[trigger] self.docs()[k].wf()
    }

    /// Append the nodes `l` collects from `doc`, tagged with `k`.
    fn append_lookup(out: &mut Vec<(usize, usize)>, k: usize, doc: &XmlDoc, l: Lookup, tag: &str)
        requires
            doc.wf(),
        ensures
            final(out)@.map_values(|p: (usize, usize)| ref_view(p)) == old(out)@.map_values(
                |p: (usize, usize)| ref_view(p),
            ) + tagged(k as int, lookup_in(l, doc.nodes@, tag@)),
            final(out)@.len() >= old(out)@.len(),
            forall|m: int| 0 <= m < old(out)@.len() ==> final(out)@[m] == old(out)@[m],
            forall|m: int|
                old(out)@.len() <= m < final(out)@.len() ==> final(out)@[m].0 == k
                    && final(out)@[m].1 < doc.nodes@.len(),
    {
        let found = match l {
            Lookup::Section => doc.section(tag),
            Lookup::TopLevel => doc.top_level(tag),
        };
        let ghost fv = found@.map_values(|c: usize| c as int);
        let ghost before = out@.map_values(|p: (usize, usize)| ref_view(p));
        let ghost start = out@;
        let mut j: usize = 0;
        assert(fv.subrange(0, 0) =~= Seq::<int>::empty());
        assert(before + tagged(k as int, Seq::<int>::empty()) =~= before);
        while j < found.len()
            invariant
                j <= found@.len(),
                fv == found@.map_values(|c: usize| c as int),
                forall|m: int| 0 <= m < found@.len() ==> found@[m] < doc.nodes@.len(),
                out@.map_values(|p: (usize, usize)| ref_view(p)) == before + tagged(
                    k as int,
                    fv.subrange(0, j as int),
                ),
                out@.len() == start.len() + j,
                forall|m: int| 0 <= m < start.len() ==> out@[m] == start[m],
                forall|m: int| start.len() <= m < out@.len() ==> out@[m].0 == k && out@[m].1 < doc.nodes@.len(),
            decreases found@.len() - j,
        {
            let ghost prev = out@;
            out.push((k, found[j]));
            proof {
                assert(out@.map_values(|p: (usize, usize)| ref_view(p)) =~= prev.map_values(
                    |p: (usize, usize)| ref_view(p),
                ).push((k as int, found@[j as int] as int)));
                assert(tagged(k as int, fv.subrange(0, j + 1)) =~= tagged(k as int, fv.subrange(0, j as int)).push(
                    (k as int, found@[j as int] as int),
                ));
            }
            j = j + 1;
        }
        assert(fv.subrange(0, found@.len() as int) =~= fv);
    }

    /// The nodes `l` collects from every document, as (document, node).
    fn collect(&self, l: Lookup, tag: &str) -> (r: Vec<(usize, usize)>)
        requires
            self.wf(),
        ensures
            r@.map_values(|p: (usize, usize)| ref_view(p)) == across(self.docs(), self.docs().len() as int, l, tag@),
            forall|k: int| 0 <= k < r@.len() ==> r@[k].0 < self.docs().len() && r@[k].1 < self.docs()[r@[k].0 as int].nodes@.len(),
    {
        let mut out: Vec<(usize, usize)> = Vec::new();
        assert(self.docs()[0] == self.primary);
        assert(self.primary.wf());
        assert(across(self.docs(), 0, l, tag@) =~= Seq::<(int, int)>::empty());
        assert(out@.map_values(|p: (usize, usize)| ref_view(p)) =~= Seq::<(int, int)>::empty());
        Self::append_lookup(&mut out, 0, &self.primary, l, tag);
        let total = self.supplementals.len();
        let mut i: usize = 0;
        while i < total
            invariant
                self.wf(),
                total == self.supplementals@.len(),
                self.docs().len() == total + 1,
                i <= total,
                out@.map_values(|p: (usize, usize)| ref_view(p)) == across(self.docs(), i + 1, l, tag@),
                forall|m: int| 0 <= m < out@.len() ==> out@[m].0 <= i && out@[m].1 < self.docs()[out@[m].0 as int].nodes@.len(),
            decreases total - i,
        {
            let doc = &self.supplementals[i];
            assert(*doc == self.docs()[i + 1]);
            assert(doc.wf());
            Self::append_lookup(&mut out, i + 1, doc, l, tag);
            i = i + 1;
        }
        out
    }

    /// All direct element children of `<section_tag>` top-level elements
    /// across all docs.
    pub fn section_children(&self, section_tag: &str) -> (r: Vec<(usize, usize)>)
        requires
            self.wf(),
        ensures
            r@.map_values(|p: (usize, usize)| ref_view(p)) == across(self.docs(), self.docs().len() as int, Lookup::Section, section_tag@),
            forall|k: int| 0 <= k < r@.len() ==> r@[k].0 < self.docs().len() && r@[k].1 < self.docs()[r@[k].0 as int].nodes@.len(),
    {
        self.collect(Lookup::Section, section_tag)
    }

    /// All `<enums>` elements that are direct children of the root (GL
    /// style: multiple `<enums>` blocks).
    pub fn all_enums_blocks(&self) -> (r: Vec<(usize, usize)>)
        requires
            self.wf(),
        ensures
            r@.map_values(|p: (usize, usize)| ref_view(p)) == across(self.docs(), self.docs().len() as int, Lookup::TopLevel, "enums"@),
            forall|k: int| 0 <= k < r@.len() ==> r@[k].0 < self.docs().len() && r@[k].1 < self.docs()[r@[k].0 as int].nodes@.len(),
    {
        self.collect(Lookup::TopLevel, "enums")
    }

    /// All `<feature>` elements (direct root children) across all docs.
    pub fn all_features(&self) -> (r: Vec<(usize, usize)>)
        requires
            self.wf(),
        ensures
            r@.map_values(|p: (usize, usize)| ref_view(p)) == across(self.docs(), self.docs().len() as int, Lookup::TopLevel, "feature"@),
            forall|k: int| 0 <= k < r@.len() ==> r@[k].0 < self.docs().len() && r@[k].1 < self.docs()[r@[k].0 as int].nodes@.len(),
    {
        self.collect(Lookup::TopLevel, "feature")
    }

    /// All elements inside any `<platforms>` block.
    pub fn all_platforms(&self) -> (r: Vec<(usize, usize)>)
        requires
            self.wf(),
        ensures
            r@.map_values(|p: (usize, usize)| ref_view(p)) == across(self.docs(), self.docs().len() as int, Lookup::Section, "platforms"@),
            forall|k: int| 0 <= k < r@.len() ==> r@[k].0 < self.docs().len() && r@[k].1 < self.docs()[r@[k].0 as int].nodes@.len(),
    {
        self.collect(Lookup::Section, "platforms")
    }

    /// All elements inside any `<extensions>` block.
    pub fn all_extensions(&self) -> (r: Vec<(usize, usize)>)
        requires
            self.wf(),
        ensures
            r@.map_values(|p: (usize, usize)| ref_view(p)) == across(self.docs(), self.docs().len() as int, Lookup::Section, "extensions"@),
            forall|k: int| 0 <= k < r@.len() ==> r@[k].0 < self.docs().len() && r@[k].1 < self.docs()[r@[k].0 as int].nodes@.len(),
    {
        self.collect(Lookup::Section, "extensions")
    }

    /// Document `k` (0 is the primary).
    pub fn doc(&self, k: usize) -> (r: &XmlDoc)
        requires
            k < self.docs().len(),
        ensures
            *r == self.docs()[k as int],
    {
        if k == 0 {
            &self.primary
        } else {
            &self.supplementals[k - 1]
        }
    }
}

/// The platform table after the platform elements `refs` (name →
/// protection macro; a later entry for a name replaces the earlier value).
pub open spec fn platforms_after(docs: Seq<XmlDoc>, refs: Seq<(int, int)>) -> Seq<(Seq<char>, Seq<char>)>
    decreases refs.len(),
{
    if refs.len() == 0 {
        Seq::empty()
    } else {
        let es = platforms_after(docs, refs.drop_last());
        let (d, j) = refs.last();
        let n = docs[d].nodes@[j];
        if n.name@ == "platform"@ && attr(n, "name"@) is Some && attr(n, "protect"@) is Some {
            entry_insert(es, attr(n, "name"@)->0, attr(n, "protect"@)->0)
        } else {
            es
        }
    }
}

/// Parse all `<platform>` elements into a name → protect macro map.
/// e.g. "xlib" → "VK_USE_PLATFORM_XLIB_KHR"
pub fn parse_platforms(docs: &SpecDocs) -> (r: IndexMap<String, String>)
    requires
        docs.wf(),
    ensures
        text_entries(r) == platforms_after(
            docs.docs(),
            across(docs.docs(), docs.docs().len() as int, Lookup::Section, "platforms"@),
        ),
{
    let refs = docs.all_platforms();
    let ghost rv = refs@.map_values(|p: (usize, usize)| ref_view(p));
    let mut map = text_map_new();
    let mut i: usize = 0;
    assert(rv.take(0) =~= Seq::<(int, int)>::empty());
    while i < refs.len()
        invariant
            docs.wf(),
            i <= refs@.len(),
            rv == refs@.map_values(|p: (usize, usize)| ref_view(p)),
            forall|k: int| 0 <= k < refs@.len() ==> refs@[k].0 < docs.docs().len() && refs@[k].1 < docs.docs()[refs@[k].0 as int].nodes@.len(),
            text_entries(map) == platforms_after(docs.docs(), rv.take(i as int)),
        decreases refs@.len() - i,
    {
        let (d, j) = refs[i];
        let doc = docs.doc(d);
        assert(rv.take(i + 1).drop_last() =~= rv.take(i as int));
        assert(rv.take(i + 1).last() == (d as int, j as int));
        if str_eq(doc.nodes[j].name.as_str(), "platform") {
            match (doc.attribute(j, "name"), doc.attribute(j, "protect")) {
                (Some(name), Some(protect)) => {
                    text_map_insert(&mut map, name.to_owned(), protect.to_owned());
                },
                _ => {},
            }
        }
        i = i + 1;
    }
    assert(rv.take(refs@.len() as int) =~= rv);
    map
}

// ---------------------------------------------------------------------------
// Raw C text of an element
// ---------------------------------------------------------------------------

/// The C text of node `j` and the siblings after it: text nodes as they
/// are, `<apientry/>` as `APIENTRY`, `<comment>` elements dropped, and any
/// other element by its own C text.
pub open spec fn raw_from(ns: Seq<XmlNode>, j: int) -> Seq<char>
    decreases ns.len() - j, 1int,
{
    if 0 <= j < ns.len() {
        let s = link(ns, ns[j].next_sibling);
        raw_piece(ns, j) + if j < s <= ns.len() {
            raw_from(ns, s)
        } else {
            Seq::empty()
        }
    } else {
        Seq::empty()
    }
}

/// The C text of node `j` alone.
pub open spec fn raw_piece(ns: Seq<XmlNode>, j: int) -> Seq<char>
    decreases ns.len() - j, 0int,
{
    if !(0 <= j < ns.len()) {
        Seq::empty()
    } else if ns[j].kind == KIND_TEXT {
        match ns[j].text {
            Some(t) => t@,
            None => Seq::empty(),
        }
    } else if ns[j].kind == KIND_ELEMENT {
        if ns[j].name@ == "apientry"@ {
            "APIENTRY"@
        } else if ns[j].name@ == "comment"@ {
            Seq::empty()
        } else {
            let c = link(ns, ns[j].first_child);
            if j < c <= ns.len() {
                raw_from(ns, c)
            } else {
                Seq::empty()
            }
        }
    } else {
        Seq::empty()
    }
}

/// The C text of the children of node `i`.
pub open spec fn raw_text(ns: Seq<XmlNode>, i: int) -> Seq<char> {
    let c = link(ns, ns[i].first_child);
    if i < c <= ns.len() {
        raw_from(ns, c)
    } else {
        Seq::empty()
    }
}

/// Append the C text of node `j` and its later siblings.
fn push_raw_from(doc: &XmlDoc, j: usize, out: &mut Vec<char>)
    requires
        doc.wf(),
        j <= doc.nodes@.len(),
    ensures
        final(out)@ == old(out)@ + raw_from(doc.nodes@, j as int),
    decreases doc.nodes@.len() - j, 1int,
{
    let ghost ns = doc.nodes@;
    let n = doc.nodes.len();
    let mut cur = j;
    proof {
        assert(raw_from(ns, j as int) == Seq::<char>::empty() + raw_from(ns, j as int));
    }
    while cur < n
        invariant
            doc.wf(),
            ns == doc.nodes@,
            n == ns.len(),
            j <= cur <= n,
            old(out)@ + raw_from(ns, j as int) == out@ + raw_from(ns, cur as int),
        decreases n - cur,
    {
        proof {
            lemma_sibs_step(ns, cur as int);
        }
        let ghost before = out@;
        push_raw_piece(doc, cur, out);
        let next = doc.next_sibling_of(cur);
        proof {
            if next >= n {
                assert(raw_from(ns, next as int) =~= Seq::<char>::empty());
            }
            assert(raw_from(ns, cur as int) == raw_piece(ns, cur as int) + raw_from(ns, next as int));
            assert(out@ + raw_from(ns, next as int) =~= before + raw_from(ns, cur as int));
        }
        cur = next;
    }
    proof {
        assert(raw_from(ns, n as int) =~= Seq::<char>::empty());
        assert(out@ + Seq::<char>::empty() =~= out@);
    }
}

/// Append the C text of node `j`.
fn push_raw_piece(doc: &XmlDoc, j: usize, out: &mut Vec<char>)
    requires
        doc.wf(),
        j < doc.nodes@.len(),
    ensures
        final(out)@ == old(out)@ + raw_piece(doc.nodes@, j as int),
    decreases doc.nodes@.len() - j, 0int,
{
    let node = &doc.nodes[j];
    if node.kind == KIND_TEXT {
        match &node.text {
            Some(t) => crate::text::push_str(out, t.as_str()),
            None => {
                assert(out@ =~= old(out)@ + Seq::<char>::empty());
            },
        }
    } else if node.kind == KIND_ELEMENT {
        if str_eq(node.name.as_str(), "apientry") {
            crate::text::push_str(out, "APIENTRY");
        } else if str_eq(node.name.as_str(), "comment") {
            assert(out@ =~= old(out)@ + Seq::<char>::empty());
        } else {
            let c = doc.first_child_of(j);
            push_raw_from(doc, c, out);
        }
    } else {
        assert(out@ =~= old(out)@ + Seq::<char>::empty());
    }
}

/// The C text of an element, with `//` comments rewritten to block
/// comments: text nodes as they are, `<apientry/>` as `APIENTRY`,
/// `<comment>` elements dropped, other elements by their own text.
pub fn extract_raw_c(doc: &XmlDoc, node: usize) -> (r: String)
    requires
        doc.wf(),
        node < doc.nodes@.len(),
    ensures
        r@ == rewrite(raw_text(doc.nodes@, node as int), None),
{
    let mut out: Vec<char> = Vec::new();
    let c = doc.first_child_of(node);
    push_raw_from(doc, c, &mut out);
    assert(out@ =~= raw_text(doc.nodes@, node as int));
    let raw = string_from_chars(out.as_slice());
    rewrite_line_comments(raw.as_str())
}


/// A block comment ends past its opener and within the text.
proof fn lemma_comment_end_bounds(t: Seq<char>)
    requires
        t.len() >= 2,
    ensures
        2 <= comment_end(t) <= t.len(),
{
    if exists|j: int| first_close(t, j) {
        let j = choose|j: int| first_close(t, j);
        assert(first_close(t, j));
    }
}

/// Text without any `//` comes out of the rewriting unchanged: block
/// comments and everything else are copied as they are.
pub proof fn lemma_rewrite_without_line_comments(s: Seq<char>, prev: Option<char>)
    requires
        forall|i: int| 0 <= i < s.len() - 1 ==> !(#[trigger] s[i] == '/' && s[i + 1] == '/'),
    ensures
        rewrite(s, prev) == s,
    decreases s.len(),
{
    if s.len() == 0 {
    } else if s.len() >= 2 && s[0] == '/' && s[1] == '*' {
        lemma_comment_end_bounds(s);
        let e = comment_end(s);
        let rest = s.subrange(e, s.len() as int);
        assert forall|i: int| 0 <= i < rest.len() - 1 implies !(#[trigger] rest[i] == '/' && rest[i + 1] == '/') by {
            assert(rest[i] == s[i + e]);
            assert(rest[i + 1] == s[i + e + 1]);
        }
        lemma_rewrite_without_line_comments(rest, Some('/'));
        assert(s.subrange(0, e) + rest =~= s);
    } else {
        assert(!(s.len() >= 2 && s[0] == '/' && s[1] == '/')) by {
            if s.len() >= 2 {
                assert(!(s[0int] == '/' && s[0int + 1] == '/'));
            }
        }
        let rest = s.drop_first();
        assert forall|i: int| 0 <= i < rest.len() - 1 implies !(#[trigger] rest[i] == '/' && rest[i + 1] == '/') by {
            assert(rest[i] == s[i + 1]);
            assert(rest[i + 1] == s[i + 1 + 1]);
        }
        lemma_rewrite_without_line_comments(rest, Some(s[0]));
        assert(seq![s[0]] + rest =~= s);
    }
}


/// `t` holds a `*/`.
pub open spec fn has_close(t: Seq<char>) -> bool {
    exists|i: int| 0 <= i < t.len() - 1 && #[trigger] t[i] == '*' && t[i + 1] == '/'
}

/// No line comment that the rewriting turns into a block holds `*/` in
/// its text (it would end the block early); read left to right as
/// [`rewrite`] reads it.
pub open spec fn line_comments_clean(s: Seq<char>, prev: Option<char>) -> bool
    decreases s.len(),
{
    if s.len() == 0 {
        true
    } else if s.len() >= 2 && s[0] == '/' && s[1] == '*' {
        let e = comment_end(s);
        if 2 <= e <= s.len() {
            line_comments_clean(s.subrange(e, s.len() as int), Some('/'))
        } else {
            true
        }
    } else if s.len() >= 2 && s[0] == '/' && s[1] == '/' && prev != Some(':') {
        let body = s.subrange(2, s.len() as int);
        match find(body, '\n') {
            Some(n) => if 0 <= n < body.len() {
                !has_close(trim(body.subrange(0, n))) && line_comments_clean(
                    body.subrange(n + 1, body.len() as int),
                    Some('\n'),
                )
            } else {
                true
            },
            None => !has_close(trim(body)),
        }
    } else {
        line_comments_clean(s.drop_first(), Some(s[0]))
    }
}

/// The first closing position is the one `comment_end` stops after.
proof fn lemma_comment_end_at(t: Seq<char>, j: int)
    requires
        first_close(t, j),
    ensures
        comment_end(t) == j + 1,
{
    let c = choose|c: int| first_close(t, c);
    assert(first_close(t, c));
    if c < j {
        assert(!closes_at(t, c));
    } else if c > j {
        assert(!closes_at(t, j));
    }
}

/// A block comment copied out of `s` ends at the same place whatever
/// follows it, as long as it was closed (or nothing follows).
proof fn lemma_block_kept(s: Seq<char>, w: Seq<char>)
    requires
        s.len() >= 2,
        s[0] == '/',
        s[1] == '*',
        (exists|j: int| first_close(s, j)) || w.len() == 0,
    ensures
        comment_end(s.subrange(0, comment_end(s)) + w) == comment_end(s),
{
    lemma_comment_end_bounds(s);
    let e = comment_end(s);
    let b = s.subrange(0, e);
    if exists|j: int| first_close(s, j) {
        let j = choose|j: int| first_close(s, j);
        assert(first_close(s, j));
        lemma_comment_end_at(s, j);
        let o = b + w;
        assert(closes_at(o, j)) by {
            assert(o[j] == s[j]);
            assert(o[j - 1] == s[j - 1]);
        }
        assert forall|k: int| 3 <= k < j implies !closes_at(o, k) by {
            assert(o[k] == s[k]);
            assert(o[k - 1] == s[k - 1]);
            assert(!closes_at(s, k));
        }
        assert(first_close(o, j));
        lemma_comment_end_at(o, j);
    } else {
        assert(b =~= s);
        assert(b + w =~= s);
    }
}

/// A rewritten text starts with the character the text starts with.
proof fn lemma_rewrite_first(r: Seq<char>, p: Option<char>)
    requires
        r.len() > 0,
    ensures
        rewrite(r, p).len() > 0,
        rewrite(r, p)[0] == r[0],
{
    if r.len() >= 2 && r[0] == '/' && r[1] == '*' {
        lemma_comment_end_bounds(r);
        let e = comment_end(r);
        assert(r.subrange(0, e)[0] == r[0]);
    } else if r.len() >= 2 && r[0] == '/' && r[1] == '/' && p != Some(':') {
        reveal_strlit("/* ");
        let body = r.subrange(2, r.len() as int);
        if find(body, '\n') is Some {
            let n = choose|i: int| first_at(body, '\n', i);
            assert(first_at(body, '\n', n)) by {
                assert(exists|i: int| first_at(body, '\n', i));
            }
        }
    }
}

/// A line comment turned into a block comes out of the next pass as it
/// went in: the block ends at its own `*/`, and the newline after it is
/// copied.
proof fn lemma_rewritten_comment(t: Seq<char>, w: Seq<char>)
    requires
        !has_close(t),
    ensures
        rewrite("/* "@ + t + " */\n"@ + w, Some('\n')) == "/* "@ + t + " */\n"@ + rewrite(w, Some('\n')),
        forall|p: Option<char>| #[trigger] rewrite("/* "@ + t + " */\n"@ + w, p) == "/* "@ + t + " */\n"@ + rewrite(w, Some('\n')),
{
    reveal_strlit("/* ");
    reveal_strlit(" */\n");
    let o = "/* "@ + t + " */\n"@ + w;
    let m = t.len() as int;
    assert(o[0] == '/' && o[1] == '*' && o[2] == ' ');
    assert(o[3 + m] == ' ' && o[4 + m] == '*' && o[5 + m] == '/' && o[6 + m] == '\n');
    assert forall|k: int| 3 <= k < 3 + m implies o[k] == t[k - 3] by {}
    assert(closes_at(o, 5 + m));
    assert forall|k: int| 3 <= k < 5 + m implies !closes_at(o, k) by {
        if k < 3 + m {
            if k == 3 {
                assert(o[2] == ' ');
            } else {
                assert(o[k - 1] == t[k - 4]);
                assert(o[k] == t[k - 3]);
                if t[k - 4] == '*' && t[k - 3] == '/' {
                    assert(has_close(t));
                }
            }
        }
    }
    assert(first_close(o, 5 + m));
    lemma_comment_end_at(o, 5 + m);
    let rest = o.subrange(6 + m, o.len() as int);
    assert(rest =~= seq!['\n'] + w);
    assert(rest[0] == '\n');
    assert(rest.drop_first() =~= w);
    assert(o.subrange(0, 6 + m) + ("\n"@ + rewrite(w, Some('\n'))) =~= "/* "@ + t + " */\n"@ + rewrite(w, Some('\n'))) by {
        reveal_strlit("\n");
    }
    reveal_strlit("\n");
    assert(rewrite(rest, Some('/')) == seq!['\n'] + rewrite(w, Some('\n')));
    assert(seq!['\n'] =~= "\n"@);
    assert forall|p: Option<char>| #[trigger] rewrite(o, p) == "/* "@ + t + " */\n"@ + rewrite(w, Some('\n')) by {
        assert(o.subrange(0, 6 + m) + rewrite(rest, Some('/')) =~= "/* "@ + t + " */\n"@ + rewrite(w, Some('\n')));
    }
}

/// Rewriting twice is rewriting once, for text whose line comments hold
/// no `*/`: every rewritten comment is a block of its own, which a second
/// pass copies verbatim, and everything else reads the same again.
pub proof fn lemma_rewrite_idempotent(s: Seq<char>, prev: Option<char>)
    requires
        line_comments_clean(s, prev),
    ensures
        rewrite(rewrite(s, prev), prev) == rewrite(s, prev),
    decreases s.len(),
{
    if s.len() == 0 {
    } else if s.len() >= 2 && s[0] == '/' && s[1] == '*' {
        lemma_comment_end_bounds(s);
        let e = comment_end(s);
        let rest = s.subrange(e, s.len() as int);
        let w = rewrite(rest, Some('/'));
        lemma_rewrite_idempotent(rest, Some('/'));
        if !(exists|j: int| first_close(s, j)) {
            assert(rest.len() == 0);
        }
        lemma_block_kept(s, w);
        let o = s.subrange(0, e) + w;
        assert(o[0] == '/' && o[1] == '*');
        assert(o.subrange(0, e) =~= s.subrange(0, e));
        assert(o.subrange(e, o.len() as int) =~= w);
    } else if s.len() >= 2 && s[0] == '/' && s[1] == '/' && prev != Some(':') {
        let body = s.subrange(2, s.len() as int);
        match find(body, '\n') {
            Some(n) => {
                assert(first_at(body, '\n', n)) by {
                    assert(exists|i: int| first_at(body, '\n', i));
                }
                let rest = body.subrange(n + 1, body.len() as int);
                lemma_rewrite_idempotent(rest, Some('\n'));
                lemma_rewritten_comment(trim(body.subrange(0, n)), rewrite(rest, Some('\n')));
                assert(rewrite("/* "@ + trim(body.subrange(0, n)) + " */\n"@ + rewrite(rest, Some('\n')), prev)
                    == "/* "@ + trim(body.subrange(0, n)) + " */\n"@ + rewrite(rewrite(rest, Some('\n')), Some('\n')));
            },
            None => {
                lemma_rewritten_comment(trim(body), Seq::empty());
                assert("/* "@ + trim(body) + " */\n"@ + Seq::<char>::empty() =~= "/* "@ + trim(body) + " */\n"@);
                assert(rewrite("/* "@ + trim(body) + " */\n"@ + Seq::<char>::empty(), prev)
                    == "/* "@ + trim(body) + " */\n"@ + rewrite(Seq::<char>::empty(), Some('\n')));
            },
        }
    } else {
        let rest = s.drop_first();
        let w = rewrite(rest, Some(s[0]));
        lemma_rewrite_idempotent(rest, Some(s[0]));
        let o = seq![s[0]] + w;
        if rest.len() > 0 {
            lemma_rewrite_first(rest, Some(s[0]));
            assert(o[1] == s[1]);
        }
        assert(o[0] == s[0]);
        assert(o.drop_first() =~= w);
    }
}

// ---------------------------------------------------------------------------
// A whole registry
// ---------------------------------------------------------------------------

/// The documents `docs` are the registry texts `texts`, each loaded.
pub open spec fn docs_loaded(texts: Seq<Seq<char>>, docs: Seq<XmlDoc>) -> bool {
    &&& docs.len() == texts.len()
    &&& forall|k: int| 0 <= k < texts.len() ==> #[trigger] docs[k].wf() && loaded(texts[k], docs[k].nodes@)
}

/// `raw` is what the registry documents `docs` of `spec` parse to.
pub open spec fn spec_parsed(docs: Seq<XmlDoc>, spec: Spec, raw: RawSpec) -> bool {
    let commands = declared(docs, across(docs, docs.len() as int, Lookup::Section, "commands"@));
    &&& raw.spec_name@ == spec.name()
    &&& text_entries(raw.platforms) == platforms_after(docs, across(docs, docs.len() as int, Lookup::Section, "platforms"@))
    &&& sorted_by_dependency(types_of(docs), type_views(raw.types@))
    &&& parsed_enums(docs, spec.name() == "vk"@) == Ok::<EnumState, Fault>((groups_view(raw.enum_groups@), enum_entries(raw.flat_enums)))
    &&& command_entries(raw.commands) == fix_all(commands, needing_fixup(commands))
    &&& feature_views(raw.features@) == features_of(docs, across(docs, docs.len() as int, Lookup::TopLevel, "feature"@))
    &&& extensions_parsed(docs, spec.name() == "glx"@, text_entries(raw.platforms), raw.extensions@)
}

/// The text `which` names (`None`: the primary, `Some(i)`: supplemental
/// `i`) is the first that fails to load: every earlier one parses into a
/// document, this one does not, and a parse failure of its own is the
/// reason given.
pub open spec fn xml_failure(texts: Seq<Seq<char>>, which: Option<usize>, reason: Seq<char>) -> bool {
    let k: int = match which {
        None => 0,
        Some(i) => i + 1,
    };
    &&& 0 <= k < texts.len()
    &&& forall|j: int| 0 <= j < k ==> #[trigger] text_loads(texts[j])
    &&& !text_loads(texts[k])
    &&& xml_parse(texts[k]) matches Err(m) ==> reason == m
}

/// Why a text did not load.
fn xml_reason(e: XmlError) -> (r: String)
    ensures
        e matches XmlError::Syntax { message } ==> r@ == message@,
{
    match e {
        XmlError::Syntax { message } => message,
        XmlError::Layout => "node links out of document order".to_owned(),
    }
}

/// Parse the registry documents of one spec family: its platforms, types,
/// enums, commands, features and extensions.
#[verifier::spinoff_prover]
pub fn parse(sources: &SpecSources, spec: Spec) -> (r: Result<RawSpec, Error>)
    ensures
        match r {
            Ok(raw) => exists|docs: Seq<XmlDoc>| #[trigger] docs_loaded(sources.texts(), docs) && spec_parsed(docs, spec, raw),
            Err(e) => (e@ matches Fault::Xml(s, which, reason) && s == spec && xml_failure(sources.texts(), which, reason))
                || exists|docs: Seq<XmlDoc>| #[trigger] docs_loaded(sources.texts(), docs) && parsed_enums(
                docs,
                spec.name() == "vk"@,
            ) == Err::<EnumState, Fault>(e@),
        },
{
    let ghost texts = sources.texts();
    assert(texts[0] == sources.primary@);
    let primary = match XmlDoc::load(sources.primary.as_str()) {
        Ok(d) => d,
        Err(e) => {
            let reason = xml_reason(e);
            return Err(Error::Xml { spec, supplemental: None, reason });
        },
    };
    let mut supplementals: Vec<XmlDoc> = Vec::new();
    let mut i: usize = 0;
    while i < sources.supplementals.len()
        invariant
            texts == sources.texts(),
            i <= sources.supplementals@.len(),
            supplementals@.len() == i,
            text_loads(texts[0]),
            primary.wf() && loaded(sources.primary@, primary.nodes@),
            forall|j: int| 0 <= j < i ==> #[trigger] supplementals@[j].wf() && loaded(sources.supplementals@[j]@, supplementals@[j].nodes@),
            forall|j: int| 0 <= j <= i ==> #[trigger] text_loads(texts[j]),
        decreases sources.supplementals@.len() - i,
    {
        assert(texts[i + 1] == sources.supplementals@[i as int]@);
        match XmlDoc::load(sources.supplementals[i].as_str()) {
            Ok(d) => supplementals.push(d),
            Err(e) => {
                let reason = xml_reason(e);
                return Err(Error::Xml { spec, supplemental: Some(i), reason });
            },
        }
        i = i + 1;
    }
    let ghost sv = supplementals@;
    assert(sv.len() == sources.supplementals@.len());
    assert(forall|j: int| 0 <= j < sv.len() ==> #[trigger] sv[j].wf() && loaded(sources.supplementals@[j]@, sv[j].nodes@));
    let docs = SpecDocs { primary, supplementals };
    let ghost dv = docs.docs();
    proof {
        assert(texts.len() == dv.len());
        assert forall|k: int| 0 <= k < dv.len() implies #[trigger] dv[k].wf() && loaded(texts[k], dv[k].nodes@) by {
            if k == 0 {
                assert(dv[0] == docs.primary);
                assert(texts[0] == sources.primary@);
            } else {
                assert(dv[k] == docs.supplementals@[k - 1]);
                assert(texts[k] == sources.supplementals@[k - 1]@);
                assert(docs.supplementals@[k - 1] == sv[k - 1]);
                assert(sv[k - 1].wf() && loaded(sources.supplementals@[k - 1]@, sv[k - 1].nodes@));
            }
        }
        assert(docs_loaded(texts, dv));
        assert(docs.wf());
    }
    let platforms = parse_platforms(&docs);
    let types = crate::parse::types::parse_types(&docs);
    let (enum_groups, flat_enums) = match crate::parse::enums::parse_enums(&docs, spec.as_str()) {
        Ok(v) => v,
        Err(e) => return Err(e),
    };
    let commands = crate::parse::commands::parse_commands(&docs);
    let (features, extensions) = match crate::parse::features::parse_features_extensions(&docs, spec.as_str(), &platforms) {
        Ok(v) => v,
        Err(e) => return Err(e),
    };
    let raw = RawSpec {
        spec_name: spec.as_str().to_owned(),
        platforms,
        types,
        enum_groups,
        flat_enums,
        commands,
        features,
        extensions,
    };
    assert(spec_parsed(dv, spec, raw));
    Ok(raw)
}

} // verus!

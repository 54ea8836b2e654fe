//! The registry documents as the parser sees them: the nodes of each XML
//! document in document order, with their links, tag names, text and
//! attributes, and the multi-document view the section lookups span.

use vstd::prelude::*;

use crate::text::{str_eq, string_from_chars};

verus! {

// ---------------------------------------------------------------------------
// Nodes
// ---------------------------------------------------------------------------

/// Node kinds, as `roxmltree::NodeType` numbers them.
pub const KIND_ROOT: u8 = 0;
pub const KIND_ELEMENT: u8 = 1;
pub const KIND_TEXT: u8 = 4;

/// One node of a parsed XML document.
#[derive(Debug, Clone)]
pub struct XmlNode {
    /// Position in document order (the root is 0).
    pub id: usize,
    /// Root 0, element 1, processing instruction 2, comment 3, text 4.
    pub kind: u8,
    /// An element's local tag name; empty for other nodes.
    pub name: String,
    /// A text node's text, a comment's text, or an element's leading text.
    pub text: Option<String>,
    /// An element's attributes, `(local name, value)`, in document order.
    pub attrs: Vec<(String, String)>,
    pub first_child: Option<usize>,
    pub next_sibling: Option<usize>,
}

/// The content of an [`XmlNode`].
pub struct XmlNodeView {
    pub id: nat,
    pub kind: u8,
    pub name: Seq<char>,
    pub text: Option<Seq<char>>,
    pub attrs: Seq<(Seq<char>, Seq<char>)>,
    pub first_child: Option<usize>,
    pub next_sibling: Option<usize>,
}

impl View for XmlNode {
    type V = XmlNodeView;

    open spec fn view(&self) -> XmlNodeView {
        XmlNodeView {
            id: self.id as nat,
            kind: self.kind,
            name: self.name@,
            text: match &self.text {
                Some(t) => Some(t@),
                None => None,
            },
            attrs: self.attrs@.map_values(|a: (String, String)| (a.0@, a.1@)),
            first_child: self.first_child,
            next_sibling: self.next_sibling,
        }
    }
}

impl XmlNode {
    pub fn new(
        id: usize,
        kind: u8,
        name: String,
        text: Option<String>,
        attrs: Vec<(String, String)>,
        first_child: Option<usize>,
        next_sibling: Option<usize>,
    ) -> (r: Self)
        ensures
            r.id == id,
            r.kind == kind,
            r.name == name,
            r.text == text,
            r.attrs == attrs,
            r.first_child == first_child,
            r.next_sibling == next_sibling,
    {
        XmlNode { id, kind, name, text, attrs, first_child, next_sibling }
    }
}

/// What `roxmltree::Document::parse` makes of a text: its nodes in
/// document order, or the message of the parse error.
pub uninterp spec fn xml_parse(text: Seq<char>) -> Result<Seq<XmlNodeView>, Seq<char>>;

/// `roxmltree::Document::parse`, with every node of the document (in the
/// order `descendants` visits them) turned into an [`XmlNode`], or the
/// error's message.  Claimed: the result depends on the text alone.
#[verifier::external_body]
fn parse_nodes(text: &str) -> (r: Result<Vec<XmlNode>, String>)
    ensures
        match xml_parse(text@) {
            Ok(ns) => r matches Ok(v) && v@.map_values(|n: XmlNode| n@) == ns,
            Err(m) => r matches Err(e) && e@ == m,
        },
{
    match roxmltree::Document::parse(text) {
        Ok(doc) => Ok(doc.descendants().map(|n| XmlNode::new(
            n.id().get_usize(),
            n.node_type() as u8,
            n.tag_name().name().to_owned(),
            n.text().map(str::to_owned),
            n.attributes().map(|a| (a.name().to_owned(), a.value().to_owned())).collect(),
            n.first_child().map(|c| c.id().get_usize()),
            n.next_sibling().map(|c| c.id().get_usize()),
        )).collect()),
        Err(e) => Err(e.to_string()),
    }
}

// ---------------------------------------------------------------------------
// Documents
// ---------------------------------------------------------------------------

/// The nodes form a document: a root first, each node at its own position,
/// and every link pointing forward inside the document.
pub open spec fn nodes_wf(ns: Seq<XmlNode>) -> bool {
    &&& ns.len() > 0
    &&& ns[0].kind == KIND_ROOT
    &&& forall|i: int| 0 <= i < ns.len() ==> #[trigger] ns[i].id == i
    &&& forall|i: int|
        0 <= i < ns.len() ==> match #[trigger] ns[i].first_child {
            Some(c) => i < c < ns.len(),
            None => true,
        }
    &&& forall|i: int|
        0 <= i < ns.len() ==> match #[trigger] ns[i].next_sibling {
            Some(s) => i < s < ns.len(),
            None => true,
        }
}

/// What [`nodes_wf`] asks, read on the nodes' contents: a root first, each
/// node's id equal to its position, and every link pointing forward inside
/// the document.
pub open spec fn views_form_document(vs: Seq<XmlNodeView>) -> bool {
    &&& vs.len() > 0
    &&& vs[0].kind == KIND_ROOT
    &&& forall|i: int| 0 <= i < vs.len() ==> #[trigger] vs[i].id == i
    &&& forall|i: int|
        0 <= i < vs.len() ==> match #[trigger] vs[i].first_child {
            Some(c) => i < c < vs.len(),
            None => true,
        }
    &&& forall|i: int|
        0 <= i < vs.len() ==> match #[trigger] vs[i].next_sibling {
            Some(s) => i < s < vs.len(),
            None => true,
        }
}

/// The nodes form a document exactly when their contents do.
pub proof fn lemma_nodes_wf_iff_views(ns: Seq<XmlNode>)
    ensures
        nodes_wf(ns) == views_form_document(ns.map_values(|n: XmlNode| n@)),
{
    let vs = ns.map_values(|n: XmlNode| n@);
    assert forall|i: int| 0 <= i < ns.len() implies #[trigger] vs[i] == ns[i]@ by {}
    if nodes_wf(ns) {
        assert forall|i: int| 0 <= i < vs.len() implies #[trigger] vs[i].id == i by {
            assert(ns[i].id == i);
        }
        assert forall|i: int| 0 <= i < vs.len() implies match #[trigger] vs[i].first_child {
            Some(c) => i < c < vs.len(),
            None => true,
        } by {
            assert(vs[i].first_child == ns[i].first_child);
        }
        assert forall|i: int| 0 <= i < vs.len() implies match #[trigger] vs[i].next_sibling {
            Some(s) => i < s < vs.len(),
            None => true,
        } by {
            assert(vs[i].next_sibling == ns[i].next_sibling);
        }
    }
    if views_form_document(vs) {
        assert forall|i: int| 0 <= i < ns.len() implies #[trigger] ns[i].id == i by {
            assert(vs[i].id == i);
        }
        assert forall|i: int| 0 <= i < ns.len() implies match #[trigger] ns[i].first_child {
            Some(c) => i < c < ns.len(),
            None => true,
        } by {
            assert(vs[i].first_child == ns[i].first_child);
        }
        assert forall|i: int| 0 <= i < ns.len() implies match #[trigger] ns[i].next_sibling {
            Some(s) => i < s < ns.len(),
            None => true,
        } by {
            assert(vs[i].next_sibling == ns[i].next_sibling);
        }
        assert(vs[0] == ns[0]@);
    }
}

/// A parsed XML document.
#[derive(Debug)]
pub struct XmlDoc {
    pub nodes: Vec<XmlNode>,
}

impl XmlDoc {
    pub open spec fn wf(&self) -> bool {
        nodes_wf(self.nodes@)
    }
}

/// Why a text is not a usable XML document.
#[derive(Debug)]
pub enum XmlError {
    /// The XML parser rejected the text.
    Syntax { message: String },
    /// The parser's node links are not in document order.
    Layout,
}

/// Whether the nodes form a document.
fn check_nodes(ns: &Vec<XmlNode>) -> (r: bool)
    ensures
        r == nodes_wf(ns@),
{
    let n = ns.len();
    if n == 0 || ns[0].kind != KIND_ROOT {
        return false;
    }
    let mut i: usize = 0;
    while i < n
        invariant
            i <= n == ns@.len(),
            n > 0,
            ns@[0].kind == KIND_ROOT,
            forall|k: int| 0 <= k < i ==> #[trigger] ns@[k].id == k,
            forall|k: int|
                0 <= k < i ==> match #[trigger] ns@[k].first_child {
                    Some(c) => k < c < n,
                    None => true,
                },
            forall|k: int|
                0 <= k < i ==> match #[trigger] ns@[k].next_sibling {
                    Some(s) => k < s < n,
                    None => true,
                },
        decreases n - i,
    {
        let node = &ns[i];
        if node.id != i {
            return false;
        }
        match node.first_child {
            Some(c) => if !(i < c && c < n) {
                return false;
            },
            None => {},
        }
        match node.next_sibling {
            Some(s) => if !(i < s && s < n) {
                return false;
            },
            None => {},
        }
        i = i + 1;
    }
    true
}

/// The document a text holds, if it parses and its nodes form a document.
pub open spec fn loaded(text: Seq<char>, ns: Seq<XmlNode>) -> bool {
    &&& xml_parse(text) is Ok
    &&& ns.map_values(|n: XmlNode| n@) == xml_parse(text)->Ok_0
}

/// The text parses and its nodes form a document.
pub open spec fn text_loads(text: Seq<char>) -> bool {
    xml_parse(text) matches Ok(vs) && views_form_document(vs)
}

impl XmlDoc {
    /// Parse an XML text.
    pub fn load(text: &str) -> (r: Result<XmlDoc, XmlError>)
        ensures
            match r {
                Ok(d) => d.wf() && loaded(text@, d.nodes@) && text_loads(text@),
                Err(XmlError::Syntax { message }) => xml_parse(text@) == Err::<
                    Seq<XmlNodeView>,
                    Seq<char>,
                >(message@),
                Err(XmlError::Layout) => xml_parse(text@) matches Ok(vs)
                    && !views_form_document(vs),
            },
    {
        match parse_nodes(text) {
            Err(message) => Err(XmlError::Syntax { message }),
            Ok(nodes) => {
                proof {
                    lemma_nodes_wf_iff_views(nodes@);
                }
                if check_nodes(&nodes) {
                    Ok(XmlDoc { nodes })
                } else {
                    Err(XmlError::Layout)
                }
            },
        }
    }
}

// ---------------------------------------------------------------------------
// Children and attributes
// ---------------------------------------------------------------------------

/// `ns.len()` stands for "no node".
pub open spec fn link(ns: Seq<XmlNode>, l: Option<usize>) -> int {
    match l {
        Some(j) => j as int,
        None => ns.len() as int,
    }
}

/// The node `j` and the siblings after it, in order.
pub open spec fn sibs(ns: Seq<XmlNode>, j: int) -> Seq<int>
    decreases ns.len() - j,
{
    if 0 <= j < ns.len() {
        let s = link(ns, ns[j].next_sibling);
        seq![j] + if j < s <= ns.len() {
            sibs(ns, s)
        } else {
            Seq::empty()
        }
    } else {
        Seq::empty()
    }
}

/// The children of node `i`, in order.
pub open spec fn kids(ns: Seq<XmlNode>, i: int) -> Seq<int> {
    if 0 <= i < ns.len() {
        sibs(ns, link(ns, ns[i].first_child))
    } else {
        Seq::empty()
    }
}

/// The first attribute called `name`, by value.
pub open spec fn attr_in(attrs: Seq<(String, String)>, name: Seq<char>) -> Option<Seq<char>>
    decreases attrs.len(),
{
    if attrs.len() == 0 {
        None
    } else if attrs[0].0@ == name {
        Some(attrs[0].1@)
    } else {
        attr_in(attrs.drop_first(), name)
    }
}

/// The value of attribute `name` of node `n` (`Node::attribute`).
pub open spec fn attr(n: XmlNode, name: Seq<char>) -> Option<Seq<char>> {
    attr_in(n.attrs@, name)
}

/// `n` is an element with tag `tag`.
pub open spec fn is_elem(n: XmlNode, tag: Seq<char>) -> bool {
    n.kind == KIND_ELEMENT && n.name@ == tag
}

/// The nodes of `cs` that are elements with tag `tag`, in order.
pub open spec fn elems_named(ns: Seq<XmlNode>, cs: Seq<int>, tag: Seq<char>) -> Seq<int>
    decreases cs.len(),
{
    if cs.len() == 0 {
        Seq::empty()
    } else {
        let rest = elems_named(ns, cs.drop_first(), tag);
        if 0 <= cs[0] < ns.len() && is_elem(ns[cs[0]], tag) {
            seq![cs[0]] + rest
        } else {
            rest
        }
    }
}

/// Filtered positions stay inside the document.
pub proof fn lemma_elems_named_in_range(ns: Seq<XmlNode>, cs: Seq<int>, tag: Seq<char>, k: int)
    requires
        0 <= k < elems_named(ns, cs, tag).len(),
    ensures
        0 <= elems_named(ns, cs, tag)[k] < ns.len(),
    decreases cs.len(),
{
    if cs.len() > 0 {
        let rest = elems_named(ns, cs.drop_first(), tag);
        if 0 <= cs[0] < ns.len() && is_elem(ns[cs[0]], tag) {
            if k > 0 {
                lemma_elems_named_in_range(ns, cs.drop_first(), tag, k - 1);
            }
        } else {
            lemma_elems_named_in_range(ns, cs.drop_first(), tag, k);
        }
    }
}

/// The position after `j` in its sibling chain (`ns.len()` at the end).
pub open spec fn next_of(ns: Seq<XmlNode>, j: int) -> int {
    link(ns, ns[j].next_sibling)
}

/// Under a well-formed document, a sibling chain is the node and the chain
/// after it.
pub proof fn lemma_sibs_step(ns: Seq<XmlNode>, j: int)
    requires
        nodes_wf(ns),
        0 <= j < ns.len(),
    ensures
        sibs(ns, j) == seq![j] + sibs(ns, next_of(ns, j)),
        j < next_of(ns, j) <= ns.len(),
        sibs(ns, j).drop_first() == sibs(ns, next_of(ns, j)),
{
    assert(ns[j].id == j);
    let s = next_of(ns, j);
    assert(s > j);
    if s >= ns.len() {
        assert(sibs(ns, s) =~= Seq::<int>::empty());
    }
    assert((seq![j] + sibs(ns, s)).drop_first() =~= sibs(ns, s));
}

impl XmlDoc {
    /// Where the children of node `i` start (`len` when there are none).
    pub fn first_child_of(&self, i: usize) -> (r: usize)
        requires
            self.wf(),
            i < self.nodes@.len(),
        ensures
            r == link(self.nodes@, self.nodes@[i as int].first_child),
            i < r <= self.nodes@.len(),
    {
        let n = self.nodes.len();
        assert(self.nodes@[i as int].id == i);
        match self.nodes[i].first_child {
            Some(c) => c,
            None => n,
        }
    }

    /// The sibling after node `j` (`len` when it is the last).
    pub fn next_sibling_of(&self, j: usize) -> (r: usize)
        requires
            self.wf(),
            j < self.nodes@.len(),
        ensures
            r == next_of(self.nodes@, j as int),
            j < r <= self.nodes@.len(),
    {
        let n = self.nodes.len();
        assert(self.nodes@[j as int].id == j);
        match self.nodes[j].next_sibling {
            Some(s) => s,
            None => n,
        }
    }

    /// The value of attribute `name` of node `i` (`Node::attribute`).
    pub fn attribute(&self, i: usize, name: &str) -> (r: Option<&str>)
        requires
            i < self.nodes@.len(),
        ensures
            match attr(self.nodes@[i as int], name@) {
                Some(v) => r matches Some(s) && s@ == v,
                None => r is None,
            },
    {
        let attrs = &self.nodes[i].attrs;
        assert(attrs@.subrange(0, attrs@.len() as int) =~= attrs@);
        let mut k: usize = 0;
        while k < attrs.len()
            invariant
                k <= attrs@.len(),
                attrs@ == self.nodes@[i as int].attrs@,
                attr(self.nodes@[i as int], name@) == attr_in(attrs@.subrange(k as int, attrs@.len() as int), name@),
            decreases attrs@.len() - k,
        {
            let ghost rest = attrs@.subrange(k as int, attrs@.len() as int);
            assert(rest[0] == attrs@[k as int]);
            if str_eq(attrs[k].0.as_str(), name) {
                return Some(attrs[k].1.as_str());
            }
            assert(rest.drop_first() =~= attrs@.subrange(k + 1, attrs@.len() as int));
            k = k + 1;
        }
        None
    }

    /// Whether node `i` is an element with tag `tag`.
    pub fn is_element_named(&self, i: usize, tag: &str) -> (r: bool)
        requires
            i < self.nodes@.len(),
        ensures
            r == is_elem(self.nodes@[i as int], tag@),
    {
        self.nodes[i].kind == KIND_ELEMENT && str_eq(self.nodes[i].name.as_str(), tag)
    }

    /// First child element named `tag` (`NodeExt::child`).
    pub fn child(&self, i: usize, tag: &str) -> (r: Option<usize>)
        requires
            self.wf(),
            i < self.nodes@.len(),
        ensures
            match r {
                Some(c) => elems_named(self.nodes@, kids(self.nodes@, i as int), tag@).len() > 0
                    && c == elems_named(self.nodes@, kids(self.nodes@, i as int), tag@)[0]
                    && c < self.nodes@.len(),
                None => elems_named(self.nodes@, kids(self.nodes@, i as int), tag@).len() == 0,
            },
    {
        let n = self.nodes.len();
        let mut cur = self.first_child_of(i);
        while cur < n
            invariant
                self.wf(),
                n == self.nodes@.len(),
                i < n,
                cur <= n,
                elems_named(self.nodes@, kids(self.nodes@, i as int), tag@) == elems_named(
                    self.nodes@,
                    sibs(self.nodes@, cur as int),
                    tag@,
                ),
            decreases n - cur,
        {
            proof {
                lemma_sibs_step(self.nodes@, cur as int);
            }
            if self.is_element_named(cur, tag) {
                return Some(cur);
            }
            cur = self.next_sibling_of(cur);
        }
        None
    }

    /// All child elements named `tag`, in document order
    /// (`NodeExt::children_named`).
    pub fn children_named(&self, i: usize, tag: &str) -> (r: Vec<usize>)
        requires
            self.wf(),
            i < self.nodes@.len(),
        ensures
            r@.map_values(|c: usize| c as int) == elems_named(self.nodes@, kids(self.nodes@, i as int), tag@),
            forall|k: int| 0 <= k < r@.len() ==> r@[k] < self.nodes@.len(),
    {
        let n = self.nodes.len();
        let mut out: Vec<usize> = Vec::new();
        let mut cur = self.first_child_of(i);
        while cur < n
            invariant
                self.wf(),
                n == self.nodes@.len(),
                i < n,
                cur <= n,
                elems_named(self.nodes@, kids(self.nodes@, i as int), tag@) == out@.map_values(
                    |c: usize| c as int,
                ) + elems_named(self.nodes@, sibs(self.nodes@, cur as int), tag@),
                forall|k: int| 0 <= k < out@.len() ==> out@[k] < n,
            decreases n - cur,
        {
            proof {
                lemma_sibs_step(self.nodes@, cur as int);
            }
            if self.is_element_named(cur, tag) {
                out.push(cur);
                proof {
                    assert(out@.map_values(|c: usize| c as int) =~= out@.drop_last().map_values(
                        |c: usize| c as int,
                    ).push(cur as int));
                }
            }
            cur = self.next_sibling_of(cur);
        }
        proof {
            assert(sibs(self.nodes@, n as int) =~= Seq::<int>::empty());
            assert(out@.map_values(|c: usize| c as int) + Seq::<int>::empty() =~= out@.map_values(
                |c: usize| c as int,
            ));
        }
        out
    }
}

// ---------------------------------------------------------------------------
// Document-level lookups
// ---------------------------------------------------------------------------

/// The nodes of `cs` that are elements, in order.
pub open spec fn elems(ns: Seq<XmlNode>, cs: Seq<int>) -> Seq<int>
    decreases cs.len(),
{
    if cs.len() == 0 {
        Seq::empty()
    } else {
        let rest = elems(ns, cs.drop_first());
        if 0 <= cs[0] < ns.len() && ns[cs[0]].kind == KIND_ELEMENT {
            seq![cs[0]] + rest
        } else {
            rest
        }
    }
}

/// The root element: the first element child of the root node.
pub open spec fn root_elem(ns: Seq<XmlNode>) -> Option<int> {
    let es = elems(ns, kids(ns, 0));
    if es.len() > 0 {
        Some(es[0])
    } else {
        None
    }
}

/// The children of the root element (none without one).
pub open spec fn top_kids(ns: Seq<XmlNode>) -> Seq<int> {
    match root_elem(ns) {
        Some(r) => kids(ns, r),
        None => Seq::empty(),
    }
}

/// The element children of the nodes of `rs` whose tag name is `tag`,
/// concatenated in order.
pub open spec fn section_in(ns: Seq<XmlNode>, rs: Seq<int>, tag: Seq<char>) -> Seq<int>
    decreases rs.len(),
{
    if rs.len() == 0 {
        Seq::empty()
    } else {
        (if 0 <= rs[0] < ns.len() && ns[rs[0]].name@ == tag {
            elems(ns, kids(ns, rs[0]))
        } else {
            Seq::empty()
        }) + section_in(ns, rs.drop_first(), tag)
    }
}

/// Step an element filter over one node.
proof fn lemma_elems_step(ns: Seq<XmlNode>, cs: Seq<int>)
    requires
        cs.len() > 0,
    ensures
        elems(ns, cs) == (if 0 <= cs[0] < ns.len() && ns[cs[0]].kind == KIND_ELEMENT {
            seq![cs[0]]
        } else {
            Seq::empty()
        }) + elems(ns, cs.drop_first()),
{
    assert(Seq::<int>::empty() + elems(ns, cs.drop_first()) =~= elems(ns, cs.drop_first()));
}

impl XmlDoc {
    /// The element children of node `i`, in order.
    pub fn element_children(&self, i: usize) -> (r: Vec<usize>)
        requires
            self.wf(),
            i < self.nodes@.len(),
        ensures
            r@.map_values(|c: usize| c as int) == elems(self.nodes@, kids(self.nodes@, i as int)),
            forall|k: int| 0 <= k < r@.len() ==> r@[k] < self.nodes@.len(),
    {
        let n = self.nodes.len();
        let ghost ns = self.nodes@;
        let mut out: Vec<usize> = Vec::new();
        let mut cur = self.first_child_of(i);
        while cur < n
            invariant
                self.wf(),
                ns == self.nodes@,
                n == ns.len(),
                i < n,
                cur <= n,
                elems(ns, kids(ns, i as int)) == out@.map_values(|c: usize| c as int) + elems(
                    ns,
                    sibs(ns, cur as int),
                ),
                forall|k: int| 0 <= k < out@.len() ==> out@[k] < n,
            decreases n - cur,
        {
            proof {
                lemma_sibs_step(ns, cur as int);
                lemma_elems_step(ns, sibs(ns, cur as int));
            }
            let ghost before = out@.map_values(|c: usize| c as int);
            if self.nodes[cur].kind == KIND_ELEMENT {
                out.push(cur);
                assert(out@.map_values(|c: usize| c as int) =~= before + seq![cur as int]);
            } else {
                assert(before + Seq::<int>::empty() =~= before);
            }
            proof {
                assert(out@.map_values(|c: usize| c as int) + elems(ns, sibs(ns, next_of(ns, cur as int)))
                    =~= elems(ns, kids(ns, i as int)));
            }
            cur = self.next_sibling_of(cur);
        }
        proof {
            assert(sibs(ns, n as int) =~= Seq::<int>::empty());
            assert(out@.map_values(|c: usize| c as int) + Seq::<int>::empty() =~= out@.map_values(
                |c: usize| c as int,
            ));
        }
        out
    }

    /// The root element (`Document::root_element`).
    pub fn root_element(&self) -> (r: Option<usize>)
        requires
            self.wf(),
        ensures
            match r {
                Some(e) => root_elem(self.nodes@) == Some(e as int) && e < self.nodes@.len(),
                None => root_elem(self.nodes@) is None,
            },
    {
        let es = self.element_children(0);
        if es.len() > 0 {
            Some(es[0])
        } else {
            None
        }
    }

    /// The element children of every child of the root element whose tag
    /// name is `tag`, in document order.
    pub fn section(&self, tag: &str) -> (r: Vec<usize>)
        requires
            self.wf(),
        ensures
            r@.map_values(|c: usize| c as int) == section_in(self.nodes@, top_kids(self.nodes@), tag@),
            forall|k: int| 0 <= k < r@.len() ==> r@[k] < self.nodes@.len(),
    {
        let ghost ns = self.nodes@;
        let mut out: Vec<usize> = Vec::new();
        let root = match self.root_element() {
            Some(e) => e,
            None => {
                assert(out@.map_values(|c: usize| c as int) =~= Seq::<int>::empty());
                return out;
            },
        };
        let n = self.nodes.len();
        let mut cur = self.first_child_of(root);
        while cur < n
            invariant
                self.wf(),
                ns == self.nodes@,
                n == ns.len(),
                root < n,
                cur <= n,
                top_kids(ns) == kids(ns, root as int),
                section_in(ns, top_kids(ns), tag@) == out@.map_values(|c: usize| c as int) + section_in(
                    ns,
                    sibs(ns, cur as int),
                    tag@,
                ),
                forall|k: int| 0 <= k < out@.len() ==> out@[k] < n,
            decreases n - cur,
        {
            proof {
                lemma_sibs_step(ns, cur as int);
            }
            let ghost before = out@.map_values(|c: usize| c as int);
            if str_eq(self.nodes[cur].name.as_str(), tag) {
                let mut more = self.element_children(cur);
                let ghost m = more@.map_values(|c: usize| c as int);
                out.append(&mut more);
                assert(out@.map_values(|c: usize| c as int) =~= before + m);
            } else {
                assert(before + Seq::<int>::empty() =~= before);
            }
            proof {
                let ss = sibs(ns, cur as int);
                assert(ss.drop_first() == sibs(ns, next_of(ns, cur as int)));
                assert(out@.map_values(|c: usize| c as int) + section_in(ns, sibs(ns, next_of(ns, cur as int)), tag@)
                    =~= section_in(ns, top_kids(ns), tag@));
            }
            cur = self.next_sibling_of(cur);
        }
        proof {
            assert(sibs(ns, n as int) =~= Seq::<int>::empty());
            assert(out@.map_values(|c: usize| c as int) + Seq::<int>::empty() =~= out@.map_values(
                |c: usize| c as int,
            ));
        }
        out
    }

    /// The children of the root element that are elements named `tag`.
    pub fn top_level(&self, tag: &str) -> (r: Vec<usize>)
        requires
            self.wf(),
        ensures
            r@.map_values(|c: usize| c as int) == elems_named(self.nodes@, top_kids(self.nodes@), tag@),
            forall|k: int| 0 <= k < r@.len() ==> r@[k] < self.nodes@.len(),
    {
        match self.root_element() {
            Some(e) => self.children_named(e, tag),
            None => {
                let v: Vec<usize> = Vec::new();
                assert(v@.map_values(|c: usize| c as int) =~= Seq::<int>::empty());
                v
            },
        }
    }
}

} // verus!

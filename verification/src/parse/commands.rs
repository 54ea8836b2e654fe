//! Command records: the base type of a parameter declaration, and the
//! dispatch scope of a Vulkan command.

use vstd::prelude::*;

use crate::generator::rust::vk_types::has_char;
use crate::ir::{
    copy_opt, copy_params, opt_text, CommandScope, CommandView, ParamView, RawCommand, RawParam,
};
use crate::ordered_map::{
    command_entries, command_map_get, command_map_insert, command_map_len, command_map_new,
    command_map_value_at, entry_insert, entry_value, key_pos, lemma_key_pos_found,
};
use crate::parse::ctype::{ident_end, ident_run, lemma_ident_end_past};
use crate::parse::types::{ident_words, words_from};
use crate::parse::features::{list_items_of, split_list, Keep, Seps};
use crate::parse::xml::{
    attr, elems_named, is_elem, kids, lemma_sibs_step, next_of, sibs, XmlDoc, XmlNode, KIND_ELEMENT,
    KIND_TEXT,
};
use crate::parse::{across, extract_raw_c, raw_text, ref_view, rewrite, Lookup, SpecDocs};
use crate::text::{
    chars_of, ident_char, is_ident_char, push_str, range_eq, str_eq, string_between, string_from_chars,
    trim, trim_bounds,
};
use indexmap::IndexMap;

verus! {

// ---------------------------------------------------------------------------
// Identifier words
// ---------------------------------------------------------------------------

/// The identifier-shaped words of `s` from position `i` on, read by
/// position: maximal runs of `[A-Za-z0-9_]`, in order, with everything
/// else acting as a separator.
pub open spec fn words_at(s: Seq<char>, i: int) -> Seq<Seq<char>>
    decreases s.len() - i,
{
    if i < 0 || i >= s.len() {
        Seq::empty()
    } else if !is_ident_char(s[i]) {
        words_at(s, i + 1)
    } else {
        proof {
            lemma_ident_end_past(s, i + 1);
        }
        seq![s.subrange(i, ident_end(s, i))] + words_at(s, ident_end(s, i))
    }
}

/// Reading the words by position from `i` is reading them character by
/// character from `s[i..]`.
proof fn lemma_words_at(s: Seq<char>, i: int)
    requires
        0 <= i <= s.len(),
    ensures
        words_from(s.skip(i), Seq::empty()) == words_at(s, i),
    decreases s.len() - i, 1int,
{
    if i == s.len() {
        assert(s.skip(i) =~= Seq::<char>::empty());
    } else if !is_ident_char(s[i]) {
        assert(s.skip(i).drop_first() =~= s.skip(i + 1));
        lemma_words_at(s, i + 1);
        assert(Seq::<Seq<char>>::empty() + words_at(s, i + 1) =~= words_at(s, i + 1));
    } else {
        assert(s.skip(i).drop_first() =~= s.skip(i + 1));
        lemma_ident_end_past(s, i + 1);
        assert(seq![s[i]] =~= Seq::<char>::empty().push(s[i]));
        assert(seq![s[i]] =~= s.subrange(i, i + 1));
        lemma_word_run(s, i + 1, i, seq![s[i]]);
    }
}

/// Inside a word: the characters read so far, `cur`, are `s[start..k]`.
proof fn lemma_word_run(s: Seq<char>, k: int, start: int, cur: Seq<char>)
    requires
        0 <= start < k <= s.len(),
        cur == s.subrange(start, k),
        forall|q: int| start <= q < k ==> is_ident_char(#[trigger] s[q]),
        ident_end(s, start) == ident_end(s, k),
    ensures
        words_from(s.skip(k), cur) == seq![s.subrange(start, ident_end(s, start))] + words_at(s, ident_end(s, start)),
    decreases s.len() - k, 0int,
{
    lemma_ident_end_past(s, k);
    let e = ident_end(s, k);
    if k == s.len() {
        assert(s.skip(k) =~= Seq::<char>::empty());
        assert(e == k);
        assert(words_at(s, e) =~= Seq::<Seq<char>>::empty());
        assert(seq![cur] + Seq::<Seq<char>>::empty() =~= seq![cur]);
    } else if is_ident_char(s[k]) {
        assert(s.skip(k).drop_first() =~= s.skip(k + 1));
        assert(cur.push(s[k]) =~= s.subrange(start, k + 1));
        assert(ident_end(s, k) == ident_end(s, k + 1));
        lemma_word_run(s, k + 1, start, cur.push(s[k]));
    } else {
        assert(e == k);
        assert(s.skip(k).drop_first() =~= s.skip(k + 1));
        lemma_words_at(s, k + 1);
        assert(words_at(s, k) == words_at(s, k + 1));
    }
}

/// The qualifier keywords a base-type search skips.
pub open spec fn is_qualifier(w: Seq<char>) -> bool {
    w == "const"@ || w == "unsigned"@ || w == "signed"@ || w == "struct"@
}

/// The first word of `ws` that is not a qualifier (empty when none is).
pub open spec fn first_base_word(ws: Seq<Seq<char>>) -> Seq<char>
    decreases ws.len(),
{
    if ws.len() == 0 {
        Seq::empty()
    } else if is_qualifier(ws[0]) {
        first_base_word(ws.drop_first())
    } else {
        ws[0]
    }
}

/// Extract the base type name from a raw C type string: the first word that
/// is not `const`, `unsigned`, `signed` or `struct`.  Qualifiers are skipped
/// as whole words only, so `Dconstraint` stays intact.
/// e.g. "const GLubyte *" → "GLubyte", "VkInstance" → "VkInstance"
pub fn extract_base_type(raw: &str) -> (r: String)
    ensures
        r@ == first_base_word(ident_words(raw@)),
{
    let s = chars_of(raw);
    let n = s.len();
    let mut i: usize = 0;
    proof {
        lemma_words_at(s@, 0);
        assert(s@.skip(0) =~= s@);
    }
    while i < n
        invariant
            i <= n == s@.len(),
            s@ == raw@,
            ident_words(raw@) == words_at(s@, 0),
            first_base_word(words_at(s@, 0)) == first_base_word(words_at(s@, i as int)),
        decreases n - i,
    {
        if !ident_char(s[i]) {
            i = i + 1;
        } else {
            let e = ident_run(s.as_slice(), i);
            proof {
                lemma_ident_end_past(s@, i + 1);
                let ws = words_at(s@, i as int);
                assert(ws == seq![s@.subrange(i as int, e as int)] + words_at(s@, e as int));
                assert(ws.drop_first() =~= words_at(s@, e as int));
                assert(ws[0] == s@.subrange(i as int, e as int));
            }
            if range_eq(s.as_slice(), i, e, "const") || range_eq(s.as_slice(), i, e, "unsigned")
                || range_eq(s.as_slice(), i, e, "signed") || range_eq(s.as_slice(), i, e, "struct") {
                i = e;
            } else {
                return string_between(s.as_slice(), i, e);
            }
        }
    }
    String::new()
}

// ---------------------------------------------------------------------------
// Vulkan command scope
// ---------------------------------------------------------------------------

/// A handle whose commands dispatch through a device.
pub open spec fn is_device_handle(t: Seq<char>) -> bool {
    t == "VkDevice"@ || t == "VkQueue"@ || t == "VkCommandBuffer"@
}

/// A handle whose commands dispatch through an instance.
pub open spec fn is_instance_handle(t: Seq<char>) -> bool {
    t == "VkInstance"@ || t == "VkPhysicalDevice"@
}

/// The base type of a command's first parameter (empty when it has none).
pub open spec fn first_param_type(cmd: RawCommand) -> Seq<char> {
    if cmd.params@.len() == 0 {
        Seq::empty()
    } else {
        cmd.params@[0].base_name@
    }
}

/// The scope of a command: `vkGetInstanceProcAddr` is never loadable through
/// a proc-addr call; otherwise the first parameter's dispatchable handle
/// decides, and a command without one is global.
pub open spec fn scope_of(cmd: RawCommand) -> CommandScope {
    if cmd.name@ == "vkGetInstanceProcAddr"@ {
        CommandScope::Unknown
    } else if is_device_handle(first_param_type(cmd)) {
        CommandScope::Device
    } else if is_instance_handle(first_param_type(cmd)) {
        CommandScope::Instance
    } else {
        CommandScope::Global
    }
}

/// The dispatch scope of a Vulkan command, by its first parameter's base
/// type: `VkDevice`, `VkQueue` or `VkCommandBuffer` dispatch through a
/// device; `VkInstance` or `VkPhysicalDevice` through an instance; any
/// other first parameter, or none, makes the command global; and
/// `vkGetInstanceProcAddr` alone has no proc-addr scope at all.
pub proof fn lemma_scope_by_first_param(cmd: RawCommand)
    ensures
        cmd.name@ == "vkGetInstanceProcAddr"@ <==> scope_of(cmd) == CommandScope::Unknown,
        cmd.name@ != "vkGetInstanceProcAddr"@ && cmd.params@.len() > 0 && (cmd.params@[0].base_name@ == "VkDevice"@
            || cmd.params@[0].base_name@ == "VkQueue"@ || cmd.params@[0].base_name@ == "VkCommandBuffer"@)
            ==> scope_of(cmd) == CommandScope::Device,
        cmd.name@ != "vkGetInstanceProcAddr"@ && cmd.params@.len() > 0 && (cmd.params@[0].base_name@ == "VkInstance"@
            || cmd.params@[0].base_name@ == "VkPhysicalDevice"@) ==> scope_of(cmd) == CommandScope::Instance,
        cmd.name@ != "vkGetInstanceProcAddr"@ && (cmd.params@.len() == 0 || !(cmd.params@[0].base_name@ == "VkDevice"@
            || cmd.params@[0].base_name@ == "VkQueue"@ || cmd.params@[0].base_name@ == "VkCommandBuffer"@
            || cmd.params@[0].base_name@ == "VkInstance"@ || cmd.params@[0].base_name@ == "VkPhysicalDevice"@))
            ==> scope_of(cmd) == CommandScope::Global,
{
    reveal_strlit("VkDevice");
    reveal_strlit("VkQueue");
    reveal_strlit("VkCommandBuffer");
    reveal_strlit("VkInstance");
    reveal_strlit("VkPhysicalDevice");
    assert("VkInstance"@ != "VkDevice"@ && "VkInstance"@ != "VkQueue"@ && "VkInstance"@ != "VkCommandBuffer"@) by {
        assert("VkInstance"@.len() == 10 && "VkDevice"@.len() == 8 && "VkQueue"@.len() == 7);
        assert("VkCommandBuffer"@.len() == 15);
    }
    assert("VkPhysicalDevice"@ != "VkDevice"@ && "VkPhysicalDevice"@ != "VkQueue"@
        && "VkPhysicalDevice"@ != "VkCommandBuffer"@) by {
        assert("VkPhysicalDevice"@.len() == 16);
    }
    if cmd.params@.len() == 0 {
        reveal_strlit("");
        assert(first_param_type(cmd).len() == 0);
    }
}

/// Infer the dispatch scope of a Vulkan command from its first parameter.
pub fn infer_vulkan_scope(cmd: &RawCommand) -> (r: CommandScope)
    ensures
        r == scope_of(*cmd),
{
    infer_scope(cmd)
}

fn infer_scope(cmd: &RawCommand) -> (r: CommandScope)
    ensures
        r == scope_of(*cmd),
{
    if str_eq(cmd.name.as_str(), "vkGetInstanceProcAddr") {
        return CommandScope::Unknown;
    }
    let first: &str = if cmd.params.len() == 0 {
        ""
    } else {
        cmd.params[0].base_name.as_str()
    };
    proof {
        reveal_strlit("");
        assert(first@ =~= first_param_type(*cmd));
    }
    if str_eq(first, "VkDevice") || str_eq(first, "VkQueue") || str_eq(first, "VkCommandBuffer") {
        CommandScope::Device
    } else if str_eq(first, "VkInstance") || str_eq(first, "VkPhysicalDevice") {
        CommandScope::Instance
    } else {
        CommandScope::Global
    }
}

// ---------------------------------------------------------------------------
// <proto>
// ---------------------------------------------------------------------------

/// A node's text (`Node::text`), empty when it has none.
pub open spec fn text_of(n: XmlNode) -> Seq<char> {
    match n.text {
        Some(t) => t@,
        None => Seq::empty(),
    }
}

/// The name and return-type text a `<proto>` gathers from the children
/// `cs`: text nodes and non-`<name>` elements add their text to the return
/// type; a `<name>` element sets the name.
pub open spec fn proto_fold(ns: Seq<XmlNode>, cs: Seq<int>) -> (Seq<char>, Seq<char>)
    decreases cs.len(),
{
    if cs.len() == 0 {
        (Seq::empty(), Seq::empty())
    } else {
        let (nm, rt) = proto_fold(ns, cs.drop_last());
        let c = cs.last();
        if !(0 <= c < ns.len()) {
            (nm, rt)
        } else if ns[c].kind == KIND_TEXT {
            (nm, rt + text_of(ns[c]))
        } else if ns[c].kind == KIND_ELEMENT {
            if ns[c].name@ == "name"@ {
                (text_of(ns[c]), rt)
            } else {
                (nm, rt + text_of(ns[c]))
            }
        } else {
            (nm, rt)
        }
    }
}

/// The command name and trimmed return type of a `<proto>` element.
pub open spec fn proto_view(ns: Seq<XmlNode>, i: int) -> (Seq<char>, Seq<char>) {
    let (nm, rt) = proto_fold(ns, kids(ns, i));
    (nm, trim(rt))
}

/// Parse a `<proto>` element into the command name and its return type.
pub fn parse_proto(doc: &XmlDoc, proto: usize) -> (r: (String, String))
    requires
        doc.wf(),
        proto < doc.nodes@.len(),
    ensures
        (r.0@, r.1@) == proto_view(doc.nodes@, proto as int),
{
    let ghost ns = doc.nodes@;
    let n = doc.nodes.len();
    let mut ret: Vec<char> = Vec::new();
    let mut name = String::new();
    let mut cur = doc.first_child_of(proto);
    let ghost mut done: Seq<int> = Seq::empty();
    assert(kids(ns, proto as int) =~= done + sibs(ns, cur as int));
    while cur < n
        invariant
            doc.wf(),
            ns == doc.nodes@,
            n == ns.len(),
            cur <= n,
            kids(ns, proto as int) == done + sibs(ns, cur as int),
            (name@, ret@) == proto_fold(ns, done),
        decreases n - cur,
    {
        proof {
            lemma_sibs_step(ns, cur as int);
        }
        let node = &doc.nodes[cur];
        let t: &str = match &node.text {
            Some(t) => t.as_str(),
            None => "",
        };
        proof {
            reveal_strlit("");
            assert(t@ == text_of(ns[cur as int]));
        }
        if node.kind == KIND_TEXT {
            push_str(&mut ret, t);
        } else if node.kind == KIND_ELEMENT {
            if str_eq(node.name.as_str(), "name") {
                name = t.to_owned();
            } else {
                push_str(&mut ret, t);
            }
        }
        proof {
            let d2 = done.push(cur as int);
            assert(d2.drop_last() =~= done);
            assert(done + sibs(ns, cur as int) =~= d2 + sibs(ns, next_of(ns, cur as int)));
            done = d2;
        }
        cur = doc.next_sibling_of(cur);
    }
    proof {
        assert(sibs(ns, n as int) =~= Seq::<int>::empty());
        assert(done + Seq::<int>::empty() =~= done);
    }
    let (a, b) = trim_bounds(ret.as_slice(), 0, ret.len());
    assert(ret@.subrange(0, ret@.len() as int) =~= ret@);
    (name, string_between(ret.as_slice(), a, b))
}

// ---------------------------------------------------------------------------
// <param>
// ---------------------------------------------------------------------------

/// `s` without its leading `*`s.
pub open spec fn strip_stars(s: Seq<char>) -> Seq<char>
    decreases s.len(),
{
    if s.len() > 0 && s[0] == '*' {
        strip_stars(s.drop_first())
    } else {
        s
    }
}

/// `s` with every `struct ` removed, scanning left to right.
pub open spec fn drop_struct(s: Seq<char>) -> Seq<char>
    decreases s.len(),
{
    if s.len() >= 7 && s.subrange(0, 7) == "struct "@ {
        drop_struct(s.subrange(7, s.len() as int))
    } else if s.len() > 0 {
        seq![s[0]] + drop_struct(s.drop_first())
    } else {
        s
    }
}

/// `pat` occurs in `s` at `i`.
pub open spec fn occurs_at(s: Seq<char>, pat: Seq<char>, i: int) -> bool {
    0 <= i && i + pat.len() <= s.len() && s.subrange(i, i + pat.len()) == pat
}

/// Start of the last occurrence of `pat` in `s` (`str::rfind`).
pub open spec fn last_occurrence(s: Seq<char>, pat: Seq<char>) -> Option<int> {
    if exists|i: int| occurs_at(s, pat, i) && forall|j: int| i < j ==> !occurs_at(s, pat, j) {
        Some(choose|i: int| occurs_at(s, pat, i) && forall|j: int| i < j ==> !occurs_at(s, pat, j))
    } else {
        None
    }
}

/// The type text of a parameter: with its name at the end the text before
/// the name; with anything after the name (an array suffix), or without a
/// name, the whole declaration.
pub open spec fn type_raw_of(full: Seq<char>, name: Seq<char>) -> Seq<char> {
    if name.len() > 0 {
        match last_occurrence(full, name) {
            Some(p) => if trim(full.subrange(p + name.len(), full.len() as int)).len() == 0 {
                trim(full.subrange(0, p))
            } else {
                full
            },
            None => full,
        }
    } else {
        full
    }
}

/// The first child element that is a `<ptype>` or a `<type>`.
pub open spec fn first_type_child(ns: Seq<XmlNode>, cs: Seq<int>) -> Option<int>
    decreases cs.len(),
{
    if cs.len() == 0 {
        None
    } else if 0 <= cs[0] < ns.len() && (is_elem(ns[cs[0]], "ptype"@) || is_elem(ns[cs[0]], "type"@)) {
        Some(cs[0])
    } else {
        first_type_child(ns, cs.drop_first())
    }
}

/// What a `<param>` element `i` parses to.
pub open spec fn param_view(ns: Seq<XmlNode>, i: int) -> ParamView {
    let names = elems_named(ns, kids(ns, i), "name"@);
    let name = if names.len() > 0 {
        strip_stars(text_of(ns[names[0]]))
    } else {
        Seq::empty()
    };
    let full = trim(rewrite(raw_text(ns, i), None));
    let type_raw = type_raw_of(full, name);
    let tn = match first_type_child(ns, kids(ns, i)) {
        Some(c) => trim(drop_struct(text_of(ns[c]))),
        None => Seq::empty(),
    };
    ParamView {
        name: name,
        type_raw: type_raw,
        base_name: if tn.len() == 0 {
            crate::parse::commands::first_base_word(ident_words(type_raw))
        } else {
            tn
        },
        api: None,
    }
}

/// `s` without its leading `*`s.
fn strip_stars_of(s: &str) -> (r: String)
    ensures
        r@ == strip_stars(s@),
{
    let c = chars_of(s);
    let mut k: usize = 0;
    assert(c@.subrange(0, c@.len() as int) =~= c@);
    while k < c.len() && c[k] == '*'
        invariant
            k <= c@.len(),
            c@ == s@,
            strip_stars(s@) == strip_stars(c@.subrange(k as int, c@.len() as int)),
        decreases c@.len() - k,
    {
        assert(c@.subrange(k as int, c@.len() as int).drop_first() =~= c@.subrange(k + 1, c@.len() as int));
        k = k + 1;
    }
    string_between(c.as_slice(), k, c.len())
}

/// `s` with every `struct ` removed.
fn drop_struct_of(s: &str) -> (r: Vec<char>)
    ensures
        r@ == drop_struct(s@),
{
    let c = chars_of(s);
    let n = c.len();
    let mut out: Vec<char> = Vec::new();
    let mut k: usize = 0;
    assert(c@.subrange(0, n as int) =~= c@);
    while k < n
        invariant
            k <= n == c@.len(),
            c@ == s@,
            drop_struct(s@) == out@ + drop_struct(c@.subrange(k as int, n as int)),
        decreases n - k,
    {
        let ghost rest = c@.subrange(k as int, n as int);
        if n - k >= 7 && range_eq(c.as_slice(), k, k + 7, "struct ") {
            assert(rest.subrange(0, 7) =~= c@.subrange(k as int, k + 7));
            assert(rest.subrange(7, rest.len() as int) =~= c@.subrange(k + 7, n as int));
            k = k + 7;
        } else {
            proof {
                if rest.len() >= 7 {
                    assert(rest.subrange(0, 7) =~= c@.subrange(k as int, k + 7));
                }
                assert(rest.drop_first() =~= c@.subrange(k + 1, n as int));
            }
            let ghost before = out@;
            out.push(c[k]);
            assert(before + (seq![c@[k as int]] + drop_struct(c@.subrange(k + 1, n as int))) =~= out@
                + drop_struct(c@.subrange(k + 1, n as int)));
            k = k + 1;
        }
    }
    assert(c@.subrange(n as int, n as int) =~= Seq::<char>::empty());
    assert(out@ + Seq::<char>::empty() =~= out@);
    out
}

/// Start of the last occurrence of `pat` in `s`.
fn rfind_of(s: &[char], pat: &[char]) -> (r: Option<usize>)
    requires
        pat@.len() > 0,
    ensures
        match r {
            Some(p) => last_occurrence(s@, pat@) == Some(p as int),
            None => last_occurrence(s@, pat@) is None,
        },
{
    let n = s.len();
    let m = pat.len();
    if m > n {
        proof {
            assert forall|i: int| !occurs_at(s@, pat@, i) by {}
        }
        return None;
    }
    let mut i: usize = n - m + 1;
    while i > 0
        invariant
            m == pat@.len(),
            n == s@.len(),
            m <= n,
            i <= n - m + 1,
            forall|j: int| i <= j ==> !#[trigger] occurs_at(s@, pat@, j),
        decreases i,
    {
        let k = i - 1;
        let mut same = true;
        let mut t: usize = 0;
        while t < m
            invariant
                t <= m,
                k + m <= n,
                m == pat@.len(),
                n == s@.len(),
                same == (forall|u: int| 0 <= u < t ==> s@[k + u] == pat@[u]),
            decreases m - t,
        {
            if s[k + t] != pat[t] {
                same = false;
            }
            t = t + 1;
        }
        proof {
            if same {
                assert(s@.subrange(k as int, k + m) =~= pat@);
            } else {
                let u = choose|u: int| 0 <= u < m && !(s@[k + u] == pat@[u]);
                assert(s@.subrange(k as int, k + m)[u] != pat@[u]);
            }
        }
        if same {
            proof {
                let p = k as int;
                assert(occurs_at(s@, pat@, p) && forall|j: int| p < j ==> !occurs_at(s@, pat@, j));
                let q = choose|q: int| occurs_at(s@, pat@, q) && forall|j: int| q < j ==> !occurs_at(s@, pat@, j);
                if q < p {
                    assert(!occurs_at(s@, pat@, p));
                } else if p < q {
                    assert(!occurs_at(s@, pat@, q));
                }
            }
            return Some(k);
        }
        i = k;
    }
    proof {
        assert forall|q: int| !(occurs_at(s@, pat@, q) && forall|j: int| q < j ==> !occurs_at(s@, pat@, j)) by {
            if occurs_at(s@, pat@, q) {
                assert(0 <= q);
            }
        }
    }
    None
}

/// The type text of a parameter from its whole trimmed declaration.
fn type_raw_from(full: &[char], name: &str) -> (r: String)
    ensures
        r@ == type_raw_of(full@, name@),
{
    let nm = chars_of(name);
    let fl = full.len();
    let ml = nm.len();
    if ml == 0 {
        return string_from_chars(full);
    }
    match rfind_of(full, nm.as_slice()) {
        Some(p) => {
            proof {
                let q = choose|i: int| occurs_at(full@, nm@, i) && forall|j: int| i < j ==> !occurs_at(full@, nm@, j);
                assert(q == p);
                assert(occurs_at(full@, nm@, p as int));
                assert(p + ml <= fl);
            }
            let e = p + ml;
            let (a, b) = trim_bounds(full, e, full.len());
            if a == b {
                let (c, d) = trim_bounds(full, 0, p);
                string_between(full, c, d)
            } else {
                string_from_chars(full)
            }
        },
        None => string_from_chars(full),
    }
}

/// Parse a `<param>` element: its name (leading `*`s dropped), its type
/// text, and its base type name (from `<ptype>`/`<type>` with `struct `
/// removed, else the first non-qualifier word of the type text).
pub fn parse_param(doc: &XmlDoc, param: usize) -> (r: RawParam)
    requires
        doc.wf(),
        param < doc.nodes@.len(),
    ensures
        r@ == param_view(doc.nodes@, param as int),
{
    let ghost ns = doc.nodes@;
    let param_name = match doc.child(param, "name") {
        Some(c) => {
            let t: &str = match &doc.nodes[c].text {
                Some(t) => t.as_str(),
                None => "",
            };
            proof {
                reveal_strlit("");
            }
            strip_stars_of(t)
        },
        None => String::new(),
    };
    let mut base_found = String::new();
    let n = doc.nodes.len();
    let mut cur = doc.first_child_of(param);
    while cur < n
        invariant_except_break
            base_found@.len() == 0,
            first_type_child(ns, kids(ns, param as int)) == first_type_child(ns, sibs(ns, cur as int)),
        invariant
            doc.wf(),
            ns == doc.nodes@,
            n == ns.len(),
            cur <= n,
        ensures
            base_found@ == match first_type_child(ns, kids(ns, param as int)) {
                Some(c) => trim(drop_struct(text_of(ns[c]))),
                None => Seq::<char>::empty(),
            },
        decreases n - cur,
    {
        proof {
            lemma_sibs_step(ns, cur as int);
        }
        if doc.is_element_named(cur, "ptype") || doc.is_element_named(cur, "type") {
            let t: &str = match &doc.nodes[cur].text {
                Some(t) => t.as_str(),
                None => "",
            };
            proof {
                reveal_strlit("");
            }
            let d = drop_struct_of(t);
            let (a, b) = trim_bounds(d.as_slice(), 0, d.len());
            assert(d@.subrange(0, d@.len() as int) =~= d@);
            base_found = string_between(d.as_slice(), a, b);
            break;
        }
        cur = doc.next_sibling_of(cur);
        proof {
            if cur >= n {
                assert(sibs(ns, cur as int) =~= Seq::<int>::empty());
            }
        }
    }
    let full_raw = extract_raw_c(doc, param);
    let f = chars_of(full_raw.as_str());
    let (a, b) = trim_bounds(f.as_slice(), 0, f.len());
    assert(f@.subrange(0, f@.len() as int) =~= f@);
    let full = crate::text::slice_of(f.as_slice(), a, b);
    let type_raw = type_raw_from(full.as_slice(), param_name.as_str());
    let base = if base_found.as_str().is_empty() {
        extract_base_type(type_raw.as_str())
    } else {
        base_found
    };
    RawParam { name: param_name, type_raw, base_name: base, api: None }
}

// ---------------------------------------------------------------------------
// <command>
// ---------------------------------------------------------------------------

/// A `<param>` applies to Vulkan: it names no `api=`, or its list holds
/// `vulkan` or `vulkanbase` (params restricted to another variant, such as
/// `vulkansc`, are skipped).
pub open spec fn param_applies(n: XmlNode) -> bool {
    match attr(n, "api"@) {
        None => true,
        Some(a) => names_vulkan(list_items_of(a, Seps::Comma, Keep::Any)),
    }
}

/// One of the API names is `vulkan` or `vulkanbase`.
pub open spec fn names_vulkan(items: Seq<Seq<char>>) -> bool
    decreases items.len(),
{
    if items.len() == 0 {
        false
    } else {
        items[0] == "vulkan"@ || items[0] == "vulkanbase"@ || names_vulkan(items.drop_first())
    }
}

/// The parameters of the `<param>` children `ps` that apply, parsed.
pub open spec fn params_view(ns: Seq<XmlNode>, ps: Seq<int>) -> Seq<ParamView>
    decreases ps.len(),
{
    if ps.len() == 0 {
        Seq::empty()
    } else {
        let rest = params_view(ns, ps.drop_last());
        if 0 <= ps.last() < ns.len() && param_applies(ns[ps.last()]) {
            rest.push(param_view(ns, ps.last()))
        } else {
            rest
        }
    }
}

/// A command's alias: its `alias=` attribute (Vulkan form), else the
/// `name=` of its first `<alias>` child (GL form).
pub open spec fn command_alias(ns: Seq<XmlNode>, i: int) -> Option<Seq<char>> {
    match attr(ns[i], "alias"@) {
        Some(a) => Some(a),
        None => {
            let als = elems_named(ns, kids(ns, i), "alias"@);
            if als.len() > 0 {
                attr(ns[als[0]], "name"@)
            } else {
                None
            }
        },
    }
}

/// What a `<command>` element `i` declares: a full command from its
/// `<proto>` and applicable `<param>`s, or an alias-only command named by
/// its `name=` (prototype filled in later from the alias chain); nothing
/// when it has neither.
pub open spec fn command_view(ns: Seq<XmlNode>, i: int) -> Option<CommandView> {
    let protos = elems_named(ns, kids(ns, i), "proto"@);
    if protos.len() > 0 {
        let (nm, rt) = proto_view(ns, protos[0]);
        Some(
            CommandView {
                name: nm,
                api: None,
                return_type: rt,
                params: params_view(ns, elems_named(ns, kids(ns, i), "param"@)),
                alias: command_alias(ns, i),
            },
        )
    } else {
        match attr(ns[i], "name"@) {
            Some(nm) => Some(
                CommandView {
                    name: nm,
                    api: None,
                    return_type: Seq::empty(),
                    params: Seq::empty(),
                    alias: command_alias(ns, i),
                },
            ),
            None => None,
        }
    }
}

/// The command table after declaring `c`: the first declaration of a name
/// wins.
pub open spec fn declare(es: Seq<(Seq<char>, CommandView)>, c: Option<CommandView>) -> Seq<(Seq<char>, CommandView)> {
    match c {
        Some(cv) => if entry_value(es, cv.name) is None {
            entry_insert(es, cv.name, cv)
        } else {
            es
        },
        None => es,
    }
}

/// Whether a `<param>` element applies to Vulkan.
fn param_applies_of(doc: &XmlDoc, j: usize) -> (r: bool)
    requires
        j < doc.nodes@.len(),
    ensures
        r == param_applies(doc.nodes@[j as int]),
{
    match doc.attribute(j, "api") {
        None => true,
        Some(a) => {
            let items = split_list(a, Seps::Comma, Keep::Any);
            let ghost iv = list_items_of(a@, Seps::Comma, Keep::Any);
            let mut k: usize = 0;
            assert(iv.skip(0) =~= iv);
            while k < items.len()
                invariant
                    k <= items@.len(),
                    iv == crate::ir::texts(items),
                    iv == list_items_of(a@, Seps::Comma, Keep::Any),
                    j < doc.nodes@.len(),
                    attr(doc.nodes@[j as int], "api"@) == Some(a@),
                    names_vulkan(iv) == names_vulkan(iv.skip(k as int)),
                decreases items@.len() - k,
            {
                if str_eq(items[k].as_str(), "vulkan") || str_eq(items[k].as_str(), "vulkanbase") {
                    assert(iv[k as int] == items@[k as int]@);
                    assert(iv.skip(k as int)[0] == iv[k as int]);
                    return true;
                }
                assert(iv.skip(k as int)[0] == iv[k as int]);
                assert(iv.skip(k as int).drop_first() =~= iv.skip(k + 1));
                k = k + 1;
            }
            assert(iv.skip(k as int) =~= Seq::<Seq<char>>::empty());
            false
        },
    }
}

/// Parse the applicable `<param>` children of element `i`.
fn parse_params(doc: &XmlDoc, i: usize) -> (r: Vec<RawParam>)
    requires
        doc.wf(),
        i < doc.nodes@.len(),
    ensures
        r@.map_values(|p: RawParam| p@) == params_view(doc.nodes@, elems_named(doc.nodes@, kids(doc.nodes@, i as int), "param"@)),
{
    let ps = doc.children_named(i, "param");
    let ghost pv = ps@.map_values(|c: usize| c as int);
    let mut out: Vec<RawParam> = Vec::new();
    let mut k: usize = 0;
    assert(pv.take(0) =~= Seq::<int>::empty());
    while k < ps.len()
        invariant
            doc.wf(),
            k <= ps@.len(),
            pv == ps@.map_values(|c: usize| c as int),
            forall|m: int| 0 <= m < ps@.len() ==> ps@[m] < doc.nodes@.len(),
            out@.map_values(|p: RawParam| p@) == params_view(doc.nodes@, pv.take(k as int)),
        decreases ps@.len() - k,
    {
        assert(pv.take(k + 1).drop_last() =~= pv.take(k as int));
        assert(pv.take(k + 1).last() == ps@[k as int] as int);
        if param_applies_of(doc, ps[k]) {
            let p = parse_param(doc, ps[k]);
            let ghost before = out@;
            out.push(p);
            assert(out@.map_values(|p: RawParam| p@) =~= before.map_values(|p: RawParam| p@).push(p@));
        }
        k = k + 1;
    }
    assert(pv.take(ps@.len() as int) =~= pv);
    out
}

/// The alias a `<command>` element names, owned.
fn command_alias_of(doc: &XmlDoc, i: usize) -> (r: Option<String>)
    requires
        doc.wf(),
        i < doc.nodes@.len(),
    ensures
        opt_text(r) == command_alias(doc.nodes@, i as int),
{
    match doc.attribute(i, "alias") {
        Some(a) => Some(a.to_owned()),
        None => match doc.child(i, "alias") {
            Some(c) => match doc.attribute(c, "name") {
                Some(nm) => Some(nm.to_owned()),
                None => None,
            },
            None => None,
        },
    }
}

/// Parse one `<command>` element into the table: a command with a
/// `<proto>` is complete; one without is an alias to fill in later.  The
/// first declaration of a name wins; an element with neither a prototype
/// nor a name is skipped.
pub fn parse_command_node(doc: &XmlDoc, node: usize, commands: &mut IndexMap<String, RawCommand>)
    requires
        doc.wf(),
        node < doc.nodes@.len(),
    ensures
        command_entries(*final(commands)) == declare(command_entries(*old(commands)), command_view(doc.nodes@, node as int)),
{
    let cmd_alias = command_alias_of(doc, node);
    let cmd = match doc.child(node, "proto") {
        Some(proto) => {
            let (name, return_type) = parse_proto(doc, proto);
            let params = parse_params(doc, node);
            RawCommand { name, api: None, return_type, params, alias: cmd_alias }
        },
        None => match doc.attribute(node, "name") {
            Some(name) => {
                let c = RawCommand {
                    name: name.to_owned(),
                    api: None,
                    return_type: String::new(),
                    params: Vec::new(),
                    alias: cmd_alias,
                };
                assert(c@.params =~= Seq::<ParamView>::empty());
                c
            },
            None => return,
        },
    };
    if command_map_get(commands, cmd.name.as_str()).is_none() {
        let key = cmd.name.clone();
        command_map_insert(commands, key, cmd);
    }
}

// ---------------------------------------------------------------------------
// Alias chains
// ---------------------------------------------------------------------------

/// Follow the alias chain from `cur` until a command with a prototype: its
/// return type and parameters; `None` at a missing command, a command with
/// neither prototype nor alias, or a cycle.  `fuel` bounds the walk by the
/// number of commands: every step visits another command, so a longer walk
/// must revisit one.
pub open spec fn walk(es: Seq<(Seq<char>, CommandView)>, cur: Seq<char>, visited: Seq<Seq<char>>, fuel: nat) -> Option<(Seq<char>, Seq<ParamView>)>
    decreases fuel,
{
    if visited.contains(cur) {
        None
    } else {
        match entry_value(es, cur) {
            None => None,
            Some(c) => if c.return_type.len() > 0 {
                Some((c.return_type, c.params))
            } else {
                match c.alias {
                    None => None,
                    Some(a) => if fuel == 0 {
                        None
                    } else {
                        walk(es, a, visited.push(cur), (fuel - 1) as nat)
                    },
                }
            },
        }
    }
}

/// The prototype the alias chain from `name` leads to.
pub open spec fn alias_target(es: Seq<(Seq<char>, CommandView)>, name: Seq<char>) -> Option<(Seq<char>, Seq<ParamView>)> {
    walk(es, name, Seq::empty(), es.len())
}

/// Whether `name` is one of `seen`.
fn contains_name(seen: &Vec<String>, name: &str) -> (r: bool)
    ensures
        r == crate::ir::texts(*seen).contains(name@),
{
    let mut k: usize = 0;
    while k < seen.len()
        invariant
            k <= seen@.len(),
            forall|m: int| 0 <= m < k ==> seen@[m]@ != name@,
        decreases seen@.len() - k,
    {
        if str_eq(seen[k].as_str(), name) {
            assert(crate::ir::texts(*seen)[k as int] == name@);
            return true;
        }
        k = k + 1;
    }
    proof {
        if crate::ir::texts(*seen).contains(name@) {
            let m = choose|m: int| 0 <= m < crate::ir::texts(*seen).len() && crate::ir::texts(*seen)[m] == name@;
            assert(seen@[m]@ == name@);
        }
    }
    false
}

/// Walk the alias chain starting from `name` until a command with a
/// non-empty return type is found.  Returns the copied (return type,
/// parameters), or `None` on a broken chain or a cycle.
pub fn walk_alias_chain(commands: &IndexMap<String, RawCommand>, name: &str) -> (r: Option<(String, Vec<RawParam>)>)
    ensures
        match alias_target(command_entries(*commands), name@) {
            Some((rt, ps)) => r matches Some((a, b)) && a@ == rt && b@.map_values(|p: RawParam| p@) == ps,
            None => r is None,
        },
{
    let ghost es = command_entries(*commands);
    let mut fuel = command_map_len(commands);
    let mut visited: Vec<String> = Vec::new();
    let mut current: String = name.to_owned();
    assert(crate::ir::texts(visited) =~= Seq::<Seq<char>>::empty());
    loop
        invariant
            es == command_entries(*commands),
            alias_target(es, name@) == walk(es, current@, crate::ir::texts(visited), fuel as nat),
        decreases fuel,
    {
        if contains_name(&visited, current.as_str()) {
            return None;
        }
        let cmd = match command_map_get(commands, current.as_str()) {
            Some(c) => c,
            None => {
                return None;
            },
        };
        if !cmd.return_type.as_str().is_empty() {
            return Some((cmd.return_type.clone(), copy_params(&cmd.params)));
        }
        let next = match &cmd.alias {
            Some(a) => a.clone(),
            None => {
                return None;
            },
        };
        if fuel == 0 {
            return None;
        }
        let ghost before = crate::ir::texts(visited);
        visited.push(current);
        proof {
            assert(crate::ir::texts(visited) =~= before.push(visited@.last()@));
        }
        fuel = fuel - 1;
        current = next;
    }
}

/// The names of the alias-only commands (no return type, with an alias),
/// in table order.
pub open spec fn needing_fixup(es: Seq<(Seq<char>, CommandView)>) -> Seq<Seq<char>>
    decreases es.len(),
{
    if es.len() == 0 {
        Seq::empty()
    } else {
        let rest = needing_fixup(es.drop_last());
        let c = es.last().1;
        if c.return_type.len() == 0 && c.alias is Some {
            rest.push(c.name)
        } else {
            rest
        }
    }
}

/// Give the command `name` the prototype its alias chain leads to, if the
/// chain resolves.
pub open spec fn fix_one(es: Seq<(Seq<char>, CommandView)>, name: Seq<char>) -> Seq<(Seq<char>, CommandView)> {
    match alias_target(es, name) {
        Some((rt, ps)) => match entry_value(es, name) {
            Some(c) => entry_insert(es, name, CommandView { return_type: rt, params: ps, ..c }),
            None => es,
        },
        None => es,
    }
}

/// Fix the commands `names` in order.
pub open spec fn fix_all(es: Seq<(Seq<char>, CommandView)>, names: Seq<Seq<char>>) -> Seq<(Seq<char>, CommandView)>
    decreases names.len(),
{
    if names.len() == 0 {
        es
    } else {
        fix_one(fix_all(es, names.drop_last()), names.last())
    }
}

/// Copy each alias-only command's prototype from the end of its alias
/// chain.  A chain that does not resolve leaves the command without a
/// prototype: if a build selects it, resolution rejects it there.
pub fn alias_fixup(commands: &mut IndexMap<String, RawCommand>)
    ensures
        command_entries(*final(commands)) == fix_all(
            command_entries(*old(commands)),
            needing_fixup(command_entries(*old(commands))),
        ),
{
    let ghost es0 = command_entries(*commands);
    let n = command_map_len(commands);
    let mut names: Vec<String> = Vec::new();
    let mut i: usize = 0;
    assert(es0.take(0) =~= Seq::<(Seq<char>, CommandView)>::empty());
    while i < n
        invariant
            es0 == command_entries(*commands),
            n == es0.len(),
            i <= n,
            crate::ir::texts(names) == needing_fixup(es0.take(i as int)),
        decreases n - i,
    {
        assert(es0.take(i + 1).drop_last() =~= es0.take(i as int));
        match command_map_value_at(commands, i) {
            Some(c) => {
                assert(es0.take(i + 1).last() == es0[i as int]);
                if c.return_type.as_str().is_empty() && c.alias.is_some() {
                    let ghost before = crate::ir::texts(names);
                    names.push(c.name.clone());
                    assert(crate::ir::texts(names) =~= before.push(c@.name));
                }
            },
            None => {},
        }
        i = i + 1;
    }
    assert(es0.take(n as int) =~= es0);
    let ghost all = crate::ir::texts(names);
    let mut k: usize = 0;
    assert(all.take(0) =~= Seq::<Seq<char>>::empty());
    while k < names.len()
        invariant
            k <= names@.len(),
            all == crate::ir::texts(names),
            command_entries(*commands) == fix_all(es0, all.take(k as int)),
        decreases names@.len() - k,
    {
        assert(all.take(k + 1).drop_last() =~= all.take(k as int));
        assert(all.take(k + 1).last() == names@[k as int]@);
        let name = names[k].as_str();
        match walk_alias_chain(commands, name) {
            Some((ret, params)) => {
                match command_map_get(commands, name) {
                    Some(cmd) => {
                        let updated = RawCommand {
                            name: cmd.name.clone(),
                            api: copy_opt(&cmd.api),
                            return_type: ret,
                            params,
                            alias: copy_opt(&cmd.alias),
                        };
                        command_map_insert(commands, names[k].clone(), updated);
                    },
                    None => {},
                }
            },
            None => {},
        }
        k = k + 1;
    }
    assert(all.take(names@.len() as int) =~= all);
}

/// Parse every `<command>` inside the `<commands>` blocks of all documents,
/// then fill in the prototypes of alias-only commands from their alias
/// chains.
pub fn parse_commands(docs: &SpecDocs) -> (r: IndexMap<String, RawCommand>)
    requires
        docs.wf(),
    ensures
        command_entries(r) == {
            let es = declared(docs.docs(), across(docs.docs(), docs.docs().len() as int, Lookup::Section, "commands"@));
            fix_all(es, needing_fixup(es))
        },
{
    let refs = docs.section_children("commands");
    let ghost rv = refs@.map_values(|p: (usize, usize)| ref_view(p));
    let mut commands = command_map_new();
    let mut i: usize = 0;
    assert(rv.take(0) =~= Seq::<(int, int)>::empty());
    while i < refs.len()
        invariant
            docs.wf(),
            i <= refs@.len(),
            rv == refs@.map_values(|p: (usize, usize)| ref_view(p)),
            forall|k: int| 0 <= k < refs@.len() ==> refs@[k].0 < docs.docs().len() && refs@[k].1 < docs.docs()[refs@[k].0 as int].nodes@.len(),
            command_entries(commands) == declared(docs.docs(), rv.take(i as int)),
        decreases refs@.len() - i,
    {
        let (d, j) = refs[i];
        let doc = docs.doc(d);
        assert(doc.wf());
        assert(rv.take(i + 1).drop_last() =~= rv.take(i as int));
        assert(rv.take(i + 1).last() == (d as int, j as int));
        if str_eq(doc.nodes[j].name.as_str(), "command") {
            parse_command_node(doc, j, &mut commands);
        }
        i = i + 1;
    }
    assert(rv.take(refs@.len() as int) =~= rv);
    alias_fixup(&mut commands);
    commands
}

/// The command table the `<command>` elements among `refs` declare, in
/// order.
pub open spec fn declared(docs: Seq<XmlDoc>, refs: Seq<(int, int)>) -> Seq<(Seq<char>, CommandView)>
    decreases refs.len(),
{
    if refs.len() == 0 {
        Seq::empty()
    } else {
        let es = declared(docs, refs.drop_last());
        let (d, j) = refs.last();
        let ns = docs[d].nodes@;
        if ns[j].name@ == "command"@ {
            declare(es, command_view(ns, j))
        } else {
            es
        }
    }
}


/// The alias fixup neither adds, drops nor reorders a command: the same
/// names stand at the same places, only prototypes change.
pub proof fn lemma_fixup_keeps_names(es: Seq<(Seq<char>, CommandView)>, names: Seq<Seq<char>>)
    ensures
        fix_all(es, names).len() == es.len(),
        forall|i: int| 0 <= i < es.len() ==> (#[trigger] fix_all(es, names)[i]).0 == es[i].0,
    decreases names.len(),
{
    if names.len() > 0 {
        lemma_fixup_keeps_names(es, names.drop_last());
        let before = fix_all(es, names.drop_last());
        let name = names.last();
        lemma_key_pos_found(before, name);
        assert forall|i: int| 0 <= i < es.len() implies (#[trigger] fix_all(es, names)[i]).0 == es[i].0 by {
            assert(before[i].0 == es[i].0);
        }
    }
}


/// Distinct names that are all commands of `es` are no more than its
/// entries.
proof fn lemma_distinct_keys_bound(es: Seq<(Seq<char>, CommandView)>, names: Seq<Seq<char>>)
    requires
        names.no_duplicates(),
        forall|k: int| 0 <= k < names.len() ==> #[trigger] entry_value(es, names[k]) is Some,
    ensures
        names.len() <= es.len(),
{
    let ps = names.map_values(|n: Seq<char>| key_pos(es, n)->0);
    assert forall|k: int| 0 <= k < names.len() implies 0 <= #[trigger] ps[k] < es.len() && es[ps[k]].0 == names[k] by {
        lemma_key_pos_found(es, names[k]);
        assert(entry_value(es, names[k]) is Some);
        assert(key_pos(es, names[k]) is Some);
        assert(ps[k] == key_pos(es, names[k])->0);
    }
    assert(ps.no_duplicates()) by {
        assert forall|i: int, j: int| 0 <= i < ps.len() && 0 <= j < ps.len() && i != j implies ps[i] != ps[j] by {
            assert(names[i] != names[j]);
            assert(es[ps[i]].0 == names[i]);
            assert(es[ps[j]].0 == names[j]);
        }
    }
    ps.unique_seq_to_set();
    vstd::set_lib::lemma_int_range(0, es.len() as int);
    assert(ps.to_set().subset_of(vstd::set_lib::set_int_range(0, es.len() as int))) by {
        assert forall|x: int| ps.to_set().contains(x) implies vstd::set_lib::set_int_range(0, es.len() as int).contains(x) by {
            assert(ps.contains(x));
            let k = choose|k: int| 0 <= k < ps.len() && ps[k] == x;
            assert(0 <= ps[k] < es.len());
        }
    }
    vstd::set_lib::lemma_len_subset(ps.to_set(), vstd::set_lib::set_int_range(0, es.len() as int));
}

/// With at least as many steps left as commands not yet visited, one more
/// step changes nothing.
proof fn lemma_walk_fuel_step(es: Seq<(Seq<char>, CommandView)>, cur: Seq<char>, visited: Seq<Seq<char>>, fuel: nat)
    requires
        visited.no_duplicates(),
        forall|k: int| 0 <= k < visited.len() ==> #[trigger] entry_value(es, visited[k]) is Some,
        fuel + visited.len() >= es.len(),
    ensures
        walk(es, cur, visited, fuel) == walk(es, cur, visited, fuel + 1),
    decreases fuel,
{
    if !visited.contains(cur) {
        if let Some(c) = entry_value(es, cur) {
            if c.return_type.len() == 0 {
                if let Some(a) = c.alias {
                    let v2 = visited.push(cur);
                    assert(v2.no_duplicates()) by {
                        assert forall|i: int, j: int| 0 <= i < v2.len() && 0 <= j < v2.len() && i != j implies v2[i] != v2[j] by {
                            if i == visited.len() {
                                assert(visited[j] != cur);
                            } else if j == visited.len() {
                                assert(visited[i] != cur);
                            }
                        }
                    }
                    assert forall|k: int| 0 <= k < v2.len() implies #[trigger] entry_value(es, v2[k]) is Some by {
                        if k < visited.len() {
                            assert(v2[k] == visited[k]);
                        }
                    }
                    if fuel == 0 {
                        lemma_distinct_keys_bound(es, v2);
                    } else {
                        lemma_walk_fuel_step(es, a, v2, (fuel - 1) as nat);
                    }
                }
            }
        }
    }
}

/// Following an alias chain never stops for want of steps: bounded by the
/// number of commands, the walk already ends at a prototype, a break in
/// the chain, or a command met twice, and any longer bound gives the same
/// answer.
pub proof fn lemma_alias_walk_bound_suffices(es: Seq<(Seq<char>, CommandView)>, name: Seq<char>, fuel: nat)
    requires
        fuel >= es.len(),
    ensures
        walk(es, name, Seq::empty(), fuel) == alias_target(es, name),
    decreases fuel,
{
    if fuel > es.len() {
        lemma_alias_walk_bound_suffices(es, name, (fuel - 1) as nat);
        lemma_walk_fuel_step(es, name, Seq::empty(), (fuel - 1) as nat);
    }
}

} // verus!

//! The C backend's naming and layout policy: PFN typedef names, parameter
//! list text, the bootstrap commands each load function resolves by hand,
//! protection-grouped runs of items, and the packed function-name blob.

use vstd::prelude::*;
use vstd::utf8::encode_utf8;

use crate::identity::Spec;
use crate::text::{
    chars_of, push_str, str_eq, string_from_chars, to_upper, trim, trim_bounds, trim_end,
    unicode_upper,
};

verus! {

// ---------------------------------------------------------------------------
// C naming policy
// ---------------------------------------------------------------------------

/// The command name without the spec's lowercase prefix, when it has it.
pub open spec fn strip_prefix(name: Seq<char>, prefix: Seq<char>) -> Seq<char> {
    if prefix.len() <= name.len() && name.subrange(0, prefix.len() as int) == prefix {
        name.subrange(prefix.len() as int, name.len() as int)
    } else {
        name
    }
}

/// The GL-family PFN typedef name, given the uppercased command stem.
pub open spec fn gl_pfn_text(spec: Spec, upper_stem: Seq<char>) -> Seq<char> {
    spec.pfn() + upper_stem + "PROC"@
}

/// PFN typedef name for a command: `PFN_vkFoo` for Vulkan, and for the GL
/// family the spec's PFN prefix, the uppercased stem (command name without
/// its lowercase prefix) and `PROC`.
pub open spec fn pfn_type_text(spec: Spec, cmd_name: Seq<char>) -> Seq<char> {
    if spec == Spec::Vk {
        "PFN_"@ + cmd_name
    } else {
        gl_pfn_text(spec, unicode_upper(strip_prefix(cmd_name, spec.command_prefix())))
    }
}

/// Join the spec's PFN prefix, an already-uppercased stem and `PROC`.
pub fn gl_pfn_type_name(spec: Spec, upper_stem: &str) -> (r: String)
    ensures
        r@ == gl_pfn_text(spec, upper_stem@),
{
    let mut out: Vec<char> = Vec::new();
    push_str(&mut out, spec.pfn_prefix());
    push_str(&mut out, upper_stem);
    push_str(&mut out, "PROC");
    string_from_chars(out.as_slice())
}

/// PFN typedef name for a command: `PFN_vkFoo` for Vulkan, `PFNGLFOOPROC`
/// for the GL family (the lowercase api prefix is stripped before
/// uppercasing so we don't get PFNGLGLFOOPROC).
pub fn pfn_type_name(spec: Spec, cmd_name: &str) -> (r: String)
    ensures
        r@ == pfn_type_text(spec, cmd_name@),
{
    if spec.is_vulkan() {
        let mut out: Vec<char> = Vec::new();
        push_str(&mut out, "PFN_");
        push_str(&mut out, cmd_name);
        return string_from_chars(out.as_slice());
    }
    let s = chars_of(cmd_name);
    let p = chars_of(spec.name_prefix());
    let stem: String = if p.len() <= s.len() && crate::text::range_eq(
        s.as_slice(),
        0,
        p.len(),
        spec.name_prefix(),
    ) {
        crate::text::string_between(s.as_slice(), p.len(), s.len())
    } else {
        cmd_name.to_owned()
    };
    assert(stem@ == strip_prefix(cmd_name@, spec.command_prefix()));
    let upper = to_upper(stem.as_str());
    gl_pfn_type_name(spec, upper.as_str())
}

// ---------------------------------------------------------------------------
// Parameter lists
// ---------------------------------------------------------------------------

/// A command parameter as the C backend prints it.
#[derive(Debug, Clone)]
pub struct Param {
    /// Full C type text; for an array parameter it already carries the name
    /// and the array suffix (`float blendConstants[4]`).
    pub type_raw: String,
    pub name: String,
}

/// The text of one parameter: the type alone when unnamed, the trimmed
/// declaration as written for an array parameter, else `type name`.
pub open spec fn param_text(type_raw: Seq<char>, name: Seq<char>) -> Seq<char> {
    if name.len() == 0 {
        type_raw
    } else if trim_end(type_raw).len() > 0 && trim_end(type_raw).last() == ']' {
        trim(type_raw)
    } else {
        type_raw + seq![' '] + name
    }
}

/// The texts of the first `n` parameters, separated by `", "`.
pub open spec fn joined_params(ps: Seq<Param>, n: int) -> Seq<char>
    decreases n,
{
    if n <= 0 {
        Seq::empty()
    } else if n == 1 {
        param_text(ps[0].type_raw@, ps[0].name@)
    } else {
        joined_params(ps, n - 1) + ", "@ + param_text(ps[n - 1].type_raw@, ps[n - 1].name@)
    }
}

/// C parameter list text for PFN typedefs and prototypes (empty → "void").
pub open spec fn params_text(ps: Seq<Param>) -> Seq<char> {
    if ps.len() == 0 {
        "void"@
    } else {
        joined_params(ps, ps.len() as int)
    }
}

/// Append the text of one parameter.
fn push_param(out: &mut Vec<char>, p: &Param)
    ensures
        final(out)@ == old(out)@ + param_text(p.type_raw@, p.name@),
{
    let t = chars_of(p.type_raw.as_str());
    if p.name.as_str().is_empty() {
        push_str(out, p.type_raw.as_str());
        return;
    }
    let (a, b) = trim_bounds(t.as_slice(), 0, t.len());
    let e = crate::text::skip_space_back(t.as_slice(), 0, t.len());
    assert(t@.subrange(0, t@.len() as int) =~= t@);
    if e > 0 && t[e - 1] == ']' {
        assert(trim_end(t@) == t@.subrange(0, e as int));
        let mut piece = crate::text::slice_of(t.as_slice(), a, b);
        out.append(&mut piece);
    } else {
        push_str(out, p.type_raw.as_str());
        out.push(' ');
        push_str(out, p.name.as_str());
    }
}

/// C parameter list text for PFN typedefs and prototypes (empty → "void").
pub fn params_str(params: &[Param]) -> (r: String)
    ensures
        r@ == params_text(params@),
{
    if params.len() == 0 {
        proof {
            reveal_strlit("void");
        }
        return "void".to_owned();
    }
    let mut out: Vec<char> = Vec::new();
    let mut i: usize = 0;
    while i < params.len()
        invariant
            i <= params@.len(),
            params@.len() > 0,
            out@ == joined_params(params@, i as int),
        decreases params@.len() - i,
    {
        if i > 0 {
            push_str(&mut out, ", ");
        }
        push_param(&mut out, &params[i]);
        i = i + 1;
    }
    string_from_chars(out.as_slice())
}

// ---------------------------------------------------------------------------
// Bootstrap commands
// ---------------------------------------------------------------------------

/// A command the generated load function assigns by hand from getProcAddr
/// before the generic range loader can run.
#[derive(Debug)]
pub struct BootstrapCmd<'a> {
    pub name: &'a str,
    pub short_name: &'a str,
    pub pfn_type: String,
}

/// The commands each spec's load function resolves up front.
pub open spec fn bootstrap_set(spec: Spec) -> Seq<Seq<char>> {
    match spec {
        Spec::Gl => seq!["glGetString"@],
        Spec::Egl => seq!["eglGetString"@, "eglQueryString"@],
        Spec::Glx => seq!["glXQueryVersion"@],
        Spec::Wgl => seq!["wglGetExtensionsStringARB"@, "wglGetExtensionsStringEXT"@],
        Spec::Vk => Seq::empty(),
    }
}

/// The commands each spec's load function must resolve up front: version
/// detection reads the version through them, and WGL needs its
/// extensions-string entry points before extension detection.  Vulkan
/// bootstraps through GetInstanceProcAddr directly, with no name lookups.
pub fn bootstrap_names(spec: Spec) -> (r: Vec<&'static str>)
    ensures
        r@.map_values(|s: &str| s@) == bootstrap_set(spec),
{
    let r: Vec<&'static str> = match spec {
        Spec::Gl => vec!["glGetString"],
        Spec::Egl => vec!["eglGetString", "eglQueryString"],
        Spec::Glx => vec!["glXQueryVersion"],
        Spec::Wgl => vec!["wglGetExtensionsStringARB", "wglGetExtensionsStringEXT"],
        Spec::Vk => Vec::new(),
    };
    assert(r@.map_values(|s: &str| s@) =~= bootstrap_set(spec));
    r
}

/// Command entry for protection-grouped header sections: the resolved
/// command's fields by reference, plus the C naming computed here (PFN
/// typedef name and parameter list text).
#[derive(Debug)]
pub struct CmdPfnEntry<'a> {
    pub index: u16,
    pub name: &'a str,
    pub short_name: &'a str,
    pub pfn_type: String,
    pub return_type: &'a str,
    pub params_str: String,
    /// Individual parameters for inline function dispatch wrappers.
    pub params: &'a [Param],
}

// ---------------------------------------------------------------------------
// Function name blob layout
// ---------------------------------------------------------------------------

/// UTF-8 length of a name.
pub open spec fn byte_len(s: Seq<char>) -> nat {
    encode_utf8(s).len()
}

/// Offset of name `i` in the blob: the NUL-terminated names before it.
pub open spec fn blob_offset(names: Seq<String>, i: int) -> int
    decreases i,
{
    if i <= 0 {
        0
    } else {
        blob_offset(names, i - 1) + byte_len(names[i - 1]@) + 1
    }
}

/// Pre-computed function name string blob layout.
///
/// Each command name is stored as a NUL-terminated string in a single
/// contiguous char array, with a parallel offset table for O(1) indexing.
#[derive(Debug)]
pub struct FnNameLayout {
    /// Byte offset of each command's name within the blob.
    pub offsets: Vec<u32>,
    /// C type for the offset table: "uint16_t" or "uint32_t".
    pub offset_type: &'static str,
    /// Total size of the blob in bytes, every name with its NUL.
    pub blob_size: u32,
}

impl FnNameLayout {
    /// Lay out the names of the commands, in order.  The blob must be
    /// addressable with 32-bit offsets.
    pub fn build(names: &[String]) -> (r: Self)
        requires
            blob_offset(names@, names@.len() as int) <= u32::MAX,
        ensures
            r.offsets@.len() == names@.len(),
            forall|i: int| 0 <= i < names@.len() ==> r.offsets@[i] == blob_offset(names@, i),
            r.blob_size == blob_offset(names@, names@.len() as int),
            r.offset_type@ == (if blob_offset(names@, names@.len() as int) <= u16::MAX {
                "uint16_t"@
            } else {
                "uint32_t"@
            }),
    {
        let mut offsets: Vec<u32> = Vec::new();
        let mut pos: u32 = 0;
        let mut i: usize = 0;
        while i < names.len()
            invariant
                i <= names@.len(),
                pos == blob_offset(names@, i as int),
                blob_offset(names@, names@.len() as int) <= u32::MAX,
                offsets@.len() == i,
                forall|k: int| 0 <= k < i ==> offsets@[k] == blob_offset(names@, k),
            decreases names@.len() - i,
        {
            proof {
                lemma_blob_offset_grows(names@, i as int + 1, names@.len() as int);
            }
            offsets.push(pos);
            let len = names[i].as_str().len();
            pos = pos + (len as u32) + 1;
            i = i + 1;
        }
        let offset_type = if pos <= 65535 {
            "uint16_t"
        } else {
            "uint32_t"
        };
        FnNameLayout { offsets, offset_type, blob_size: pos }
    }

    /// The offset that marks a command left out on this platform in the
    /// unchecked Vulkan table: the largest value of the offset type, which
    /// no name can start at.
    pub fn unchecked_sentinel(&self) -> (r: u64)
        ensures
            r == (if self.offset_type@ == "uint16_t"@ { 65535u64 } else { 4294967295u64 }),
    {
        if str_eq(self.offset_type, "uint16_t") {
            65535
        } else {
            4294967295
        }
    }
}

/// Offsets only grow along the blob.
proof fn lemma_blob_offset_grows(names: Seq<String>, i: int, j: int)
    requires
        0 <= i <= j,
    ensures
        blob_offset(names, i) <= blob_offset(names, j),
    decreases j - i,
{
    if i < j {
        lemma_blob_offset_grows(names, i, j - 1);
    }
}

// ---------------------------------------------------------------------------
// Group-by-protection coalescing
// ---------------------------------------------------------------------------

/// A group of items that share the same platform protection macros.
///
/// Adjacent items with identical protection are coalesced into a single
/// group so that the generated header emits one `#ifdef`/`#endif` pair per
/// run of identically-protected items, rather than one per item.
pub struct ProtectedGroup<T> {
    /// Protection macros for this group.  Empty = no guard emitted.
    pub protect: Vec<String>,
    /// Items in this group, in the order they came in.
    pub items: Vec<T>,
}

/// The protection of an item, as text.
pub open spec fn guard_of(p: Vec<String>) -> Seq<Seq<char>> {
    p@.map_values(|m: String| m@)
}

/// The (protection, item) pairs a list of groups stands for, in order.
pub open spec fn ungroup<T>(gs: Seq<ProtectedGroup<T>>) -> Seq<(Seq<Seq<char>>, T)>
    decreases gs.len(),
{
    if gs.len() == 0 {
        Seq::empty()
    } else {
        ungroup(gs.drop_last()) + gs.last().items@.map_values(
            |t: T| (guard_of(gs.last().protect), t),
        )
    }
}

/// Every group is non-empty and no two neighbouring groups share a guard.
pub open spec fn coalesced<T>(gs: Seq<ProtectedGroup<T>>) -> bool {
    &&& forall|k: int| 0 <= k < gs.len() ==> #[trigger] gs[k].items@.len() > 0
    &&& forall|k: int|
        0 < k < gs.len() ==> guard_of(#[trigger] gs[k].protect) != guard_of(gs[k - 1].protect)
}

/// The pairs given, with the protection as text.
pub open spec fn pairs_view<T>(items: Seq<(Vec<String>, T)>) -> Seq<(Seq<Seq<char>>, T)> {
    items.map_values(|p: (Vec<String>, T)| (guard_of(p.0), p.1))
}

/// Whether two protections name the same macros in the same order.
fn same_guard(a: &Vec<String>, b: &Vec<String>) -> (r: bool)
    ensures
        r == (guard_of(*a) == guard_of(*b)),
{
    if a.len() != b.len() {
        proof {
            assert(guard_of(*a).len() != guard_of(*b).len());
        }
        return false;
    }
    let mut i: usize = 0;
    while i < a.len()
        invariant
            i <= a@.len() == b@.len(),
            forall|k: int| 0 <= k < i ==> a@[k]@ == b@[k]@,
        decreases a@.len() - i,
    {
        if !str_eq(a[i].as_str(), b[i].as_str()) {
            proof {
                assert(guard_of(*a)[i as int] != guard_of(*b)[i as int]);
            }
            return false;
        }
        i = i + 1;
    }
    assert(guard_of(*a) =~= guard_of(*b));
    true
}

/// Adding one item to the last group adds one pair at the end.
proof fn lemma_extend_last<T>(
    before: Seq<ProtectedGroup<T>>,
    old_last: ProtectedGroup<T>,
    new_last: ProtectedGroup<T>,
    item: T,
)
    requires
        before.len() > 0,
        before.last() == old_last,
        new_last.protect == old_last.protect,
        new_last.items@ == old_last.items@.push(item),
        coalesced(before),
    ensures
        ungroup(before.drop_last().push(new_last)) == ungroup(before).push(
            (guard_of(old_last.protect), item),
        ),
        coalesced(before.drop_last().push(new_last)),
{
    let after = before.drop_last().push(new_last);
    assert(after.drop_last() =~= before.drop_last());
    assert(new_last.items@.map_values(|t: T| (guard_of(new_last.protect), t)) =~= old_last.items@.map_values(
        |t: T| (guard_of(old_last.protect), t),
    ).push((guard_of(old_last.protect), item)));
    assert forall|k: int| 0 <= k < after.len() implies #[trigger] after[k].items@.len() > 0 by {
        if k < after.len() - 1 {
            assert(after[k] == before[k]);
        }
    }
    assert forall|k: int| 0 < k < after.len() implies guard_of(#[trigger] after[k].protect) != guard_of(
        after[k - 1].protect,
    ) by {
        assert(after[k - 1] == before[k - 1]);
        if k < after.len() - 1 {
            assert(after[k] == before[k]);
        } else {
            assert(before[k] == old_last);
        }
    }
}

/// Opening a new group for an item with another guard than the last group
/// adds one pair at the end.
proof fn lemma_new_group<T>(before: Seq<ProtectedGroup<T>>, grp: ProtectedGroup<T>, item: T)
    requires
        grp.items@ == seq![item],
        coalesced(before),
        before.len() > 0 ==> guard_of(before.last().protect) != guard_of(grp.protect),
    ensures
        ungroup(before.push(grp)) == ungroup(before).push((guard_of(grp.protect), item)),
        coalesced(before.push(grp)),
{
    let after = before.push(grp);
    assert(after.drop_last() =~= before);
    assert(grp.items@.map_values(|t: T| (guard_of(grp.protect), t)) =~= seq![(guard_of(grp.protect), item)]);
    assert forall|k: int| 0 <= k < after.len() implies #[trigger] after[k].items@.len() > 0 by {
        if k < after.len() - 1 {
            assert(after[k] == before[k]);
        }
    }
    assert forall|k: int| 0 < k < after.len() implies guard_of(#[trigger] after[k].protect) != guard_of(
        after[k - 1].protect,
    ) by {
        assert(after[k - 1] == before[k - 1]);
        if k < after.len() - 1 {
            assert(after[k] == before[k]);
        }
    }
}

/// One more item taken from the input adds its pair at the end.
proof fn lemma_pairs_step<T>(all: Seq<(Vec<String>, T)>, k: int)
    requires
        0 <= k < all.len(),
    ensures
        pairs_view(all.take(k + 1)) == pairs_view(all.take(k)).push(
            (guard_of(all[k].0), all[k].1),
        ),
{
    assert(all.take(k + 1) =~= all.take(k).push(all[k]));
    assert(pairs_view(all.take(k + 1)) =~= pairs_view(all.take(k)).push(
        (guard_of(all[k].0), all[k].1),
    ));
}

/// Coalesce items into groups of consecutive items that share the same
/// protection.  A single linear pass — O(n) in the item count.
pub fn group_by_protection_pairs<T>(items: Vec<(Vec<String>, T)>) -> (r: Vec<ProtectedGroup<T>>)
    ensures
        ungroup(r@) == pairs_view(items@),
        coalesced(r@),
{
    let mut groups: Vec<ProtectedGroup<T>> = Vec::new();
    let ghost all = items@;
    for pair in it: items
        invariant
            it.seq() == all,
            ungroup(groups@) == pairs_view(all.take(it.index() as int)),
            coalesced(groups@),
    {
        let ghost k = it.index() as int;
        let ghost before = groups@;
        let (protect, item) = pair;
        let ghost g = guard_of(protect);
        let n = groups.len();
        if n > 0 && same_guard(&groups[n - 1].protect, &protect) {
            let mut last = groups.pop().unwrap();
            let ghost old_last = last;
            last.items.push(item);
            groups.push(last);
            proof {
                lemma_extend_last(before, old_last, last, item);
            }
        } else {
            let mut one: Vec<T> = Vec::new();
            one.push(item);
            let grp = ProtectedGroup { protect, items: one };
            groups.push(grp);
            proof {
                lemma_new_group(before, grp, item);
            }
        }
        proof {
            lemma_pairs_step(all, k);
        }
    }
    proof {
        assert(all.take(all.len() as int) =~= all);
    }
    groups
}

} // verus!

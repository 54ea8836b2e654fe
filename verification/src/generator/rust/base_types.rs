//! Pieces of the GL-family base-type emission: the alias a
//! function-pointer typedef becomes, and what an opaque type body stands
//! for (a skipped shim, a `DECLARE_HANDLE` handle, a forward struct
//! declaration, or a shape with no Rust form).

use vstd::prelude::*;

use crate::generator::rust::abi::{rust_type, rust_type_text};
use crate::parse::ctype::TypeView;
use crate::parse::signatures::{FnSigView, RawFnSig};
use crate::parse::types::joined;
use crate::text::{chars_of, is_alnum, push_str, range_eq, string_between, string_from_chars, trim, trim_bounds};

verus! {

/// The parameter list of a signature as Rust types, comma-separated.
pub open spec fn param_types_text(ps: Seq<(Seq<char>, TypeView)>) -> Seq<char> {
    joined(ps.map_values(|p: (Seq<char>, TypeView)| rust_type_text(p.1)), ", "@)
}

/// The alias a function-pointer typedef becomes: a nullable
/// `extern "system"` function pointer, with no return type for `void`.
pub open spec fn funcpointer_alias_text(name: Seq<char>, sig: FnSigView) -> Seq<char> {
    let ret = if sig.ret.base == "void"@ && sig.ret.pointers.len() == 0 && sig.ret.array.len() == 0 {
        Seq::empty()
    } else {
        " -> "@ + rust_type_text(sig.ret)
    };
    "pub type "@ + name + " = Option<unsafe extern \"system\" fn("@ + param_types_text(sig.params) + ")"@ + ret
        + ">;\n"@
}

/// The alias line of a function-pointer typedef.
pub fn funcpointer_alias(name: &str, sig: &RawFnSig) -> (r: String)
    ensures
        r@ == funcpointer_alias_text(name@, sig@),
{
    let ghost pv = sig@.params;
    let mut types: Vec<String> = Vec::new();
    let mut i: usize = 0;
    while i < sig.params.len()
        invariant
            i <= sig.params@.len(),
            pv == sig@.params,
            types@.len() == i,
            forall|q: int| 0 <= q < i ==> #[trigger] types@[q]@ == rust_type_text(pv[q].1),
        decreases sig.params@.len() - i,
    {
        let t = rust_type(&sig.params[i].1);
        types.push(t);
        i = i + 1;
    }
    assert(types@.map_values(|t: String| t@) =~= pv.map_values(|p: (Seq<char>, TypeView)| rust_type_text(p.1)));
    let mut out: Vec<char> = Vec::new();
    push_str(&mut out, "pub type ");
    push_str(&mut out, name);
    push_str(&mut out, " = Option<unsafe extern \"system\" fn(");
    let ghost before = out@;
    crate::parse::types::push_joined(&mut out, &types, ", ");
    push_str(&mut out, ")");
    if !sig.ret.is_void() {
        push_str(&mut out, " -> ");
        let rt = rust_type(&sig.ret);
        push_str(&mut out, rt.as_str());
    }
    push_str(&mut out, ">;\n");
    assert(out@ =~= funcpointer_alias_text(name@, sig@));
    string_from_chars(out.as_slice())
}

/// What an opaque type body stands for.
#[derive(Debug, PartialEq, Eq)]
pub enum OpaqueForm {
    /// A C-header naming shim (`#define PFN...`) or an `#include` carrier:
    /// nothing to emit.
    Skip,
    /// `DECLARE_HANDLE(NAME);`: a distinct pointer to a synthesized
    /// zero-sized `NAME__`.
    Handle(String),
    /// `struct tag;`: an incomplete struct, emitted as a zero-sized type.
    Forward(String),
    /// A shape with no Rust form.
    Unknown,
}

/// The content of an [`OpaqueForm`].
pub enum OpaqueView {
    Skip,
    Handle(Seq<char>),
    Forward(Seq<char>),
    Unknown,
}

impl View for OpaqueForm {
    type V = OpaqueView;

    open spec fn view(&self) -> OpaqueView {
        match self {
            OpaqueForm::Skip => OpaqueView::Skip,
            OpaqueForm::Handle(n) => OpaqueView::Handle(n@),
            OpaqueForm::Forward(t) => OpaqueView::Forward(t@),
            OpaqueForm::Unknown => OpaqueView::Unknown,
        }
    }
}

/// `s` starts with `p`.
pub open spec fn has_start(s: Seq<char>, p: Seq<char>) -> bool {
    s.len() >= p.len() && s.take(p.len() as int) == p
}

/// `s` ends with `p`.
pub open spec fn has_end(s: Seq<char>, p: Seq<char>) -> bool {
    s.len() >= p.len() && s.skip(s.len() - p.len()) == p
}

/// Every character is an ASCII letter, digit or `_`.
pub open spec fn ident_text(s: Seq<char>) -> bool {
    forall|k: int| 0 <= k < s.len() ==> is_alnum(#[trigger] s[k]) || s[k] == '_'
}

/// The text between a prefix and a suffix, trimmed, when both are there
/// and do not overlap.
pub open spec fn between(t: Seq<char>, pre: Seq<char>, post: Seq<char>) -> Option<Seq<char>> {
    if has_start(t, pre) && has_end(t.skip(pre.len() as int), post) {
        let rest = t.skip(pre.len() as int);
        Some(trim(rest.take(rest.len() - post.len())))
    } else {
        None
    }
}

/// What an opaque body stands for: shims first (on the raw text), then
/// `DECLARE_HANDLE(NAME);`, then `struct tag;` (on the trimmed text), the
/// names made of identifier characters only.
pub open spec fn opaque_form_of(raw: Seq<char>) -> OpaqueView {
    let t = trim(raw);
    if has_start(raw, "#define PFN"@) || has_start(raw, "#include"@) {
        OpaqueView::Skip
    } else if between(t, "DECLARE_HANDLE("@, ");"@) is Some && ident_text(between(t, "DECLARE_HANDLE("@, ");"@)->Some_0) {
        OpaqueView::Handle(between(t, "DECLARE_HANDLE("@, ");"@)->Some_0)
    } else if between(t, "struct "@, ";"@) is Some && ident_text(between(t, "struct "@, ";"@)->Some_0) {
        OpaqueView::Forward(between(t, "struct "@, ";"@)->Some_0)
    } else {
        OpaqueView::Unknown
    }
}

/// Whether `s[a..b]` starts with `p`.
fn starts_in(s: &[char], a: usize, b: usize, p: &str) -> (r: bool)
    requires
        a <= b <= s@.len(),
    ensures
        r == has_start(s@.subrange(a as int, b as int), p@),
{
    let n = chars_of(p).len();
    if b - a < n {
        return false;
    }
    let r = range_eq(s, a, a + n, p);
    assert(s@.subrange(a as int, b as int).take(p@.len() as int) =~= s@.subrange(a as int, a + n));
    r
}

/// Whether `s[a..b]` ends with `p`.
fn ends_in(s: &[char], a: usize, b: usize, p: &str) -> (r: bool)
    requires
        a <= b <= s@.len(),
    ensures
        r == has_end(s@.subrange(a as int, b as int), p@),
{
    let n = chars_of(p).len();
    if b - a < n {
        return false;
    }
    let r = range_eq(s, b - n, b, p);
    assert(s@.subrange(a as int, b as int).skip(b - a - p@.len()) =~= s@.subrange(b - n, b as int));
    r
}

/// Whether `s[a..b]` is made of identifier characters.
fn ident_in(s: &[char], a: usize, b: usize) -> (r: bool)
    requires
        a <= b <= s@.len(),
    ensures
        r == ident_text(s@.subrange(a as int, b as int)),
{
    let ghost t = s@.subrange(a as int, b as int);
    let mut k = a;
    while k < b
        invariant
            a <= k <= b <= s@.len(),
            t == s@.subrange(a as int, b as int),
            forall|q: int| 0 <= q < k - a ==> is_alnum(#[trigger] t[q]) || t[q] == '_',
        decreases b - k,
    {
        if !crate::text::ident_char(s[k]) {
            assert(!(is_alnum(t[k - a]) || t[k - a] == '_'));
            return false;
        }
        k = k + 1;
    }
    true
}

/// The trimmed text between `pre` and `post` in `s[a..b]`, as bounds.
fn between_in(s: &[char], a: usize, b: usize, pre: &str, post: &str) -> (r: Option<(usize, usize)>)
    requires
        a <= b <= s@.len(),
    ensures
        match between(s@.subrange(a as int, b as int), pre@, post@) {
            Some(x) => r matches Some(p) && a <= p.0 <= p.1 <= b && s@.subrange(p.0 as int, p.1 as int) == x,
            None => r is None,
        },
{
    let ghost t = s@.subrange(a as int, b as int);
    if !starts_in(s, a, b, pre) {
        return None;
    }
    let np = chars_of(pre).len();
    assert(t.skip(pre@.len() as int) =~= s@.subrange(a + np, b as int));
    if !ends_in(s, a + np, b, post) {
        return None;
    }
    let nq = chars_of(post).len();
    let ghost rest = t.skip(pre@.len() as int);
    assert(rest.take(rest.len() - post@.len()) =~= s@.subrange(a + np, b - nq));
    let (x0, x1) = trim_bounds(s, a + np, b - nq);
    Some((x0, x1))
}

/// What an opaque type body stands for (see [`opaque_form_of`]).
pub fn opaque_form(raw: &str) -> (r: OpaqueForm)
    ensures
        r@ == opaque_form_of(raw@),
{
    let c = chars_of(raw);
    let n = c.len();
    assert(c@.subrange(0, n as int) =~= raw@);
    if starts_in(c.as_slice(), 0, n, "#define PFN") || starts_in(c.as_slice(), 0, n, "#include") {
        return OpaqueForm::Skip;
    }
    let (a, b) = trim_bounds(c.as_slice(), 0, n);
    if let Some((x0, x1)) = between_in(c.as_slice(), a, b, "DECLARE_HANDLE(", ");") {
        if ident_in(c.as_slice(), x0, x1) {
            return OpaqueForm::Handle(string_between(c.as_slice(), x0, x1));
        }
    }
    if let Some((x0, x1)) = between_in(c.as_slice(), a, b, "struct ", ";") {
        if ident_in(c.as_slice(), x0, x1) {
            return OpaqueForm::Forward(string_between(c.as_slice(), x0, x1));
        }
    }
    OpaqueForm::Unknown
}

} // verus!

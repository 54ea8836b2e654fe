//! Vulkan type printing for the Rust backend: declarator types in
//! struct-member position and the translation of `#define`-style constant
//! literals.

use vstd::prelude::*;

use crate::error::{Error, Fault};
use crate::generator::rust::abi::{abi_scalar, abi_scalar_text, ptr_wrapped, set_insert, wrap_pointers};
use crate::ir::{names_contain, texts};
use crate::parse::ctype::{digit_end, TypeRef, TypeView};
use crate::text::{chars_of, str_eq, is_digit, push_str, string_between, string_from_chars, trim, trim_bounds};

verus! {

// ---------------------------------------------------------------------------
// Base-type mapping
// ---------------------------------------------------------------------------

/// A declarator base for Vulkan printing: ABI scalars through the shared
/// map, anything else verbatim.
pub open spec fn vk_base_text(b: Seq<char>) -> Seq<char> {
    match abi_scalar_text(b) {
        Some(s) => s,
        None => b,
    }
}

/// Map a declarator base for Vulkan printing: ABI scalars through the shared
/// map, anything else verbatim (validated against the defined names by the
/// caller where a wrong name would otherwise slip through).
pub fn vk_base(base: &str) -> (r: String)
    ensures
        r@ == vk_base_text(base@),
{
    match abi_scalar(base) {
        Some(s) => s.to_owned(),
        None => base.to_owned(),
    }
}

/// `t` wrapped in the array dimensions `dims[j..]`, each as
/// `[T; N as usize]`, the last dimension innermost.
pub open spec fn member_dims(t: Seq<char>, dims: Seq<Seq<char>>, j: int) -> Seq<char>
    decreases dims.len() - j,
{
    if j < 0 || j >= dims.len() {
        t
    } else {
        "["@ + member_dims(t, dims, j + 1) + "; "@ + dims[j] + " as usize]"@
    }
}

/// A declarator as a Rust type in struct-member position: pointer levels
/// with per-level constness, then every array dimension as an array layer.
pub open spec fn vk_type_text(v: TypeView) -> Seq<char> {
    member_dims(ptr_wrapped(vk_base_text(v.base), v, v.pointers.len() as int), v.array, 0)
}

/// Print a `TypeRef` as a Rust type in a struct-member/param position:
/// pointer levels wrap with per-level constness, array dimensions stay
/// arrays (`[T; N]`, outermost last to wrap first).
pub fn vk_type(ty: &TypeRef) -> (r: String)
    ensures
        r@ == vk_type_text(ty@),
{
    let base = vk_base(ty.base.as_str());
    let t = chars_of(base.as_str());
    let mut t = wrap_pointers(ty, t);
    let ghost b = t@;
    let dims = &ty.array;
    let mut k = dims.len();
    while k > 0
        invariant
            k <= dims@.len(),
            ty@.array == dims@.map_values(|d: String| d@),
            t@ == member_dims(b, ty@.array, k as int),
        decreases k,
    {
        k = k - 1;
        let mut nt: Vec<char> = Vec::new();
        nt.push('[');
        nt.append(&mut t);
        push_str(&mut nt, "; ");
        let d = dim_expr(dims[k].as_str());
        push_str(&mut nt, d.as_str());
        push_str(&mut nt, " as usize]");
        proof {
            reveal_strlit("; ");
            reveal_strlit("[");
            assert(ty@.array[k as int] == dims@[k as int]@);
            assert(nt@ =~= "["@ + member_dims(b, ty@.array, k + 1) + "; "@ + ty@.array[k as int]
                + " as usize]"@);
        }
        t = nt;
    }
    string_from_chars(t.as_slice())
}

/// An array dimension as written: a number stays itself, an identifier is a
/// generated constant.
pub fn dim_expr(dim: &str) -> (r: String)
    ensures
        r@ == dim@,
{
    dim.to_owned()
}

// ---------------------------------------------------------------------------
// Constants
// ---------------------------------------------------------------------------

/// The integer suffix letters C allows (`u`, `U`, `l`, `L`).
pub open spec fn is_int_suffix(c: char) -> bool {
    c == 'u' || c == 'U' || c == 'l' || c == 'L'
}

/// `s` without any trailing integer-suffix letters.
pub open spec fn strip_int_suffix(s: Seq<char>) -> Seq<char>
    decreases s.len(),
{
    if s.len() > 0 && is_int_suffix(s.last()) {
        strip_int_suffix(s.drop_last())
    } else {
        s
    }
}

/// Every character is an ASCII digit.
pub open spec fn all_digits(s: Seq<char>) -> bool {
    forall|k: int| 0 <= k < s.len() ==> is_digit(#[trigger] s[k])
}

/// `c` occurs in `s`.
pub open spec fn has_char(s: Seq<char>, c: char) -> bool {
    exists|k: int| 0 <= k < s.len() && s[k] == c
}

/// The `(type, expression)` of a `(~N...)` complement constant with the
/// digits `d` and suffix `x`.
pub open spec fn complement_text(d: Seq<char>, x: Seq<char>) -> Result<(Seq<char>, Seq<char>), Fault> {
    if x == "U"@ {
        Ok(("u32"@, "!"@ + d + "u32"@))
    } else if x == "ULL"@ {
        Ok(("u64"@, "!"@ + d + "u64"@))
    } else if x == "U-1"@ {
        Ok(("u32"@, "!"@ + d + "u32 - 1"@))
    } else if x == "U-2"@ {
        Ok(("u32"@, "!"@ + d + "u32 - 2"@))
    } else {
        Err(Fault::VkConstForm(d, x))
    }
}

/// The Rust `(type, expression)` for a trimmed Vulkan constant literal:
/// a quoted string becomes a C-string literal, a `(~N...)` complement a
/// `!N` expression, a float with an `F` suffix an `f32`, and a plain
/// (possibly suffixed) integer a `u32`; anything else is an error.
pub open spec fn vk_const_text(t: Seq<char>) -> Result<(Seq<char>, Seq<char>), Fault> {
    let inner = t.subrange(2, t.len() - 1);
    let de = digit_end(inner, 0);
    if t.len() >= 2 && t[0] == '"' && t.last() == '"' {
        Ok(("&core::ffi::CStr"@, "c\""@ + t.subrange(1, t.len() - 1) + "\""@))
    } else if t.len() >= 3 && t[0] == '(' && t[1] == '~' && t.last() == ')' && de > 0 {
        complement_text(inner.subrange(0, de), inner.subrange(de, inner.len() as int))
    } else if t.len() > 0 && (t.last() == 'F' || t.last() == 'f') && has_char(t.drop_last(), '.') {
        Ok(("f32"@, t.drop_last()))
    } else if strip_int_suffix(t).len() > 0 && all_digits(strip_int_suffix(t)) {
        Ok(("u32"@, strip_int_suffix(t)))
    } else {
        Err(Fault::VkConstLiteral(t))
    }
}

/// End of `s[lo..hi]` once trailing integer-suffix letters are dropped.
pub(crate) fn strip_int_suffix_end_of(s: &[char], lo: usize, hi: usize) -> (r: usize)
    requires
        lo <= hi <= s@.len(),
    ensures
        lo <= r <= hi,
        strip_int_suffix(s@.subrange(lo as int, hi as int)) == s@.subrange(lo as int, r as int),
{
    let mut e = hi;
    while e > lo && (s[e - 1] == 'u' || s[e - 1] == 'U' || s[e - 1] == 'l' || s[e - 1] == 'L')
        invariant
            lo <= e <= hi <= s@.len(),
            strip_int_suffix(s@.subrange(lo as int, hi as int)) == strip_int_suffix(
                s@.subrange(lo as int, e as int),
            ),
        decreases e,
    {
        assert(s@.subrange(lo as int, e as int).drop_last() =~= s@.subrange(lo as int, e - 1));
        e = e - 1;
    }
    e
}

/// Whether `s[lo..hi]` is all ASCII digits.
fn all_digits_range(s: &[char], lo: usize, hi: usize) -> (r: bool)
    requires
        lo <= hi <= s@.len(),
    ensures
        r == all_digits(s@.subrange(lo as int, hi as int)),
{
    let mut k = lo;
    while k < hi
        invariant
            lo <= k <= hi <= s@.len(),
            forall|m: int| lo <= m < k ==> is_digit(s@[m]),
        decreases hi - k,
    {
        if !crate::text::ascii_digit(s[k]) {
            assert(!is_digit(s@.subrange(lo as int, hi as int)[k - lo]));
            return false;
        }
        k = k + 1;
    }
    assert forall|m: int| 0 <= m < hi - lo implies is_digit(#[trigger] s@.subrange(lo as int, hi as int)[m]) by {
        assert(s@.subrange(lo as int, hi as int)[m] == s@[lo + m]);
    }
    true
}

/// A pair of owned strings from two texts.
fn text_pair(a: &str, b: Vec<char>) -> (r: (String, String))
    ensures
        r.0@ == a@,
        r.1@ == b@,
{
    (a.to_owned(), string_from_chars(b.as_slice()))
}

/// Translate one Vulkan `#define`-style constant literal into a Rust
/// `(type, expression)`.  The literal grammar is tiny and closed; anything
/// new is an error so it gets a deliberate mapping.
pub fn vk_const(literal: &str) -> (r: Result<(String, String), Error>)
    ensures
        match vk_const_text(trim(literal@)) {
            Ok((ty, ex)) => r matches Ok((a, b)) && a@ == ty && b@ == ex,
            Err(f) => r matches Err(e) && e@ == f,
        },
{
    let s = chars_of(literal);
    let (lo, hi) = trim_bounds(s.as_slice(), 0, s.len());
    assert(s@.subrange(0, s@.len() as int) =~= s@);
    let ghost t = s@.subrange(lo as int, hi as int);
    assert(t == trim(literal@));
    let n = hi - lo;
    assert(t.len() == n);
    assert(n > 0 ==> t[0] == s@[lo as int] && t.last() == s@[hi - 1]);
    assert(n > 1 ==> t[1] == s@[lo + 1]);
    let ghost inner = t.subrange(2, t.len() - 1);
    // String constants (extension names).
    if n >= 2 && s[lo] == '"' && s[hi - 1] == '"' {
        let mut out: Vec<char> = Vec::new();
        push_str(&mut out, "c\"");
        let mut body = crate::text::slice_of(s.as_slice(), lo + 1, hi - 1);
        out.append(&mut body);
        out.push('"');
        proof {
            reveal_strlit("c\"");
            reveal_strlit("\"");
            assert(t.subrange(1, t.len() - 1) =~= s@.subrange(lo + 1, hi - 1));
            assert(out@ =~= "c\""@ + t.subrange(1, t.len() - 1) + "\""@);
        }
        return Ok(text_pair("&core::ffi::CStr", out));
    }
    // Parenthesized complement forms: (~0U), (~0ULL), (~0U-1), ...
    if n >= 3 && s[lo] == '(' && s[lo + 1] == '~' && s[hi - 1] == ')' {
        let a = lo + 2;
        let de = crate::parse::ctype::digit_run(s.as_slice(), a);
        proof {
            assert(inner =~= s@.subrange(a as int, hi - 1));
            lemma_digit_end_sub(s@, a as int, hi - 1, a as int);
        }
        if de > a && de <= hi - 1 {
            let digits = string_between(s.as_slice(), a, de);
            let rest = crate::text::slice_of(s.as_slice(), de, hi - 1);
            proof {
                assert(inner.subrange(0, de - a) =~= digits@);
                assert(inner.subrange(de - a, inner.len() as int) =~= rest@);
            }
            let rs = rest.as_slice();
            let mut out: Vec<char> = Vec::new();
            out.push('!');
            push_str(&mut out, digits.as_str());
            if crate::text::chars_eq(rs, "U") {
                push_str(&mut out, "u32");
                proof { reveal_strlit("!"); assert(out@ =~= "!"@ + digits@ + "u32"@); }
                return Ok(text_pair("u32", out));
            } else if crate::text::chars_eq(rs, "ULL") {
                push_str(&mut out, "u64");
                proof { reveal_strlit("!"); assert(out@ =~= "!"@ + digits@ + "u64"@); }
                return Ok(text_pair("u64", out));
            } else if crate::text::chars_eq(rs, "U-1") {
                push_str(&mut out, "u32 - 1");
                proof { reveal_strlit("!"); assert(out@ =~= "!"@ + digits@ + "u32 - 1"@); }
                return Ok(text_pair("u32", out));
            } else if crate::text::chars_eq(rs, "U-2") {
                push_str(&mut out, "u32 - 2");
                proof { reveal_strlit("!"); assert(out@ =~= "!"@ + digits@ + "u32 - 2"@); }
                return Ok(text_pair("u32", out));
            } else {
                return Err(Error::VkConstForm { digits, suffix: string_from_chars(rs) });
            }
        }
    }
    // Float constants: 1000.0F.
    if n > 0 && (s[hi - 1] == 'F' || s[hi - 1] == 'f') {
        match crate::text::find_in(s.as_slice(), '.', lo, hi - 1) {
            Some(p) => {
                proof {
                    assert(t.drop_last() =~= s@.subrange(lo as int, hi - 1));
                    assert(t.drop_last()[p - lo] == '.');
                }
                let num = crate::text::slice_of(s.as_slice(), lo, hi - 1);
                return Ok(text_pair("f32", num));
            },
            None => {
                proof {
                    assert(t.drop_last() =~= s@.subrange(lo as int, hi - 1));
                    if has_char(t.drop_last(), '.') {
                        let k = choose|k: int| 0 <= k < t.drop_last().len() && t.drop_last()[k] == '.';
                        crate::text::lemma_find_some(t.drop_last(), '.', k);
                    }
                }
            },
        }
    }
    // Plain (possibly suffixed) integers: 16, 256U, 4294967295.
    assert(!(n >= 2 && t[0] == '"' && t.last() == '"'));
    let e = strip_int_suffix_end_of(s.as_slice(), lo, hi);
    if e > lo && all_digits_range(s.as_slice(), lo, e) {
        let d = crate::text::slice_of(s.as_slice(), lo, e);
        return Ok(text_pair("u32", d));
    }
    Err(Error::VkConstLiteral { literal: string_between(s.as_slice(), lo, hi) })
}

/// Inside a slice `s[a..b]` that ends where the digits of `s` stop, digit
/// runs are those of `s`, shifted.
proof fn lemma_digit_end_sub(s: Seq<char>, a: int, b: int, i: int)
    requires
        0 <= a <= i <= b <= s.len(),
        b == s.len() || !is_digit(s[b]),
    ensures
        digit_end(s.subrange(a, b), i - a) == digit_end(s, i) - a,
        digit_end(s, i) <= b,
    decreases b - i,
{
    if i < b && is_digit(s[i]) {
        lemma_digit_end_sub(s, a, b, i + 1);
    }
}


// ---------------------------------------------------------------------------
// Platform guards
// ---------------------------------------------------------------------------

/// The lines of `s` after the partial line `cur`, each with its `\n`
/// (`str::split_inclusive('\n')`).
pub open spec fn lines_from(s: Seq<char>, cur: Seq<char>) -> Seq<Seq<char>>
    decreases s.len(),
{
    if s.len() == 0 {
        if cur.len() > 0 {
            seq![cur]
        } else {
            Seq::empty()
        }
    } else if s[0] == '\n' {
        seq![cur.push('\n')] + lines_from(s.drop_first(), Seq::empty())
    } else {
        lines_from(s.drop_first(), cur.push(s[0]))
    }
}

/// The `#[cfg(feature = "...")]` lines for the protection macros `ps`.
pub open spec fn cfg_lines(ps: Seq<Seq<char>>) -> Seq<char>
    decreases ps.len(),
{
    if ps.len() == 0 {
        Seq::empty()
    } else {
        cfg_lines(ps.drop_last()) + "#[cfg(feature = \""@ + ps.last() + "\")]\n"@
    }
}

/// The guarded text of `lines`, and whether the last line was part of a
/// group: each run of non-blank lines is copied after the guard lines
/// `guard`; blank lines separate the runs and are dropped.
pub open spec fn guarded(lines: Seq<Seq<char>>, guard: Seq<char>) -> (Seq<char>, bool)
    decreases lines.len(),
{
    if lines.len() == 0 {
        (Seq::empty(), false)
    } else {
        let (out, open) = guarded(lines.drop_last(), guard);
        let l = lines.last();
        if trim(l).len() == 0 {
            (out, false)
        } else {
            (out + (if open {
                Seq::empty()
            } else {
                guard
            }) + l, true)
        }
    }
}

/// Append `t` to `s`.
pub(crate) fn append(s: &mut String, t: &str)
    ensures
        final(s)@ == old(s)@ + t@,
{
    let mut cur = String::new();
    std::mem::swap(&mut cur, s);
    *s = cur.concat(t);
}

/// The lines of `body`, each with its `\n`.
fn inclusive_lines(body: &str) -> (r: Vec<String>)
    ensures
        r@.map_values(|l: String| l@) == lines_from(body@, Seq::empty()),
{
    let c = chars_of(body);
    let n = c.len();
    let mut out: Vec<String> = Vec::new();
    let mut cur: Vec<char> = Vec::new();
    let mut i: usize = 0;
    assert(c@.skip(0) =~= body@);
    while i < n
        invariant
            n == c@.len(),
            c@ == body@,
            i <= n,
            out@.map_values(|l: String| l@) + lines_from(c@.skip(i as int), cur@) == lines_from(body@, Seq::empty()),
        decreases n - i,
    {
        let ch = c[i];
        assert(c@.skip(i as int)[0] == ch);
        assert(c@.skip(i as int).drop_first() =~= c@.skip(i + 1));
        cur.push(ch);
        if ch == '\n' {
            let ghost before = out@.map_values(|l: String| l@);
            let ghost cw = cur@;
            out.push(string_from_chars(cur.as_slice()));
            assert(out@.map_values(|l: String| l@) =~= before.push(cw));
            assert(before.push(cw) + lines_from(c@.skip(i + 1), Seq::empty()) =~= before + (seq![cw] + lines_from(
                c@.skip(i + 1),
                Seq::empty(),
            )));
            cur = Vec::new();
        }
        i = i + 1;
    }
    let ghost before = out@.map_values(|l: String| l@);
    assert(c@.skip(n as int) =~= Seq::<char>::empty());
    if cur.len() > 0 {
        let ghost cw = cur@;
        out.push(string_from_chars(cur.as_slice()));
        assert(out@.map_values(|l: String| l@) =~= before + seq![cw]);
    } else {
        assert(before + Seq::<Seq<char>>::empty() =~= before);
    }
    out
}

/// Wrap each run of non-blank lines of `body` in `#[cfg(feature = ...)]`
/// attributes for the protection macros `protect`, appending to `s`; the
/// blank lines between runs are dropped.  Each protected item is guarded
/// on its own: Rust has no `#ifdef` block to coalesce into.
pub fn push_guarded(s: &mut String, protect: &[String], body: &str)
    ensures
        final(s)@ == old(s)@ + guarded(lines_from(body@, Seq::empty()), cfg_lines(protect@.map_values(|p: String| p@))).0,
{
    let ghost pv = protect@.map_values(|p: String| p@);
    let mut guard: Vec<char> = Vec::new();
    let mut k: usize = 0;
    assert(pv.take(0) =~= Seq::<Seq<char>>::empty());
    while k < protect.len()
        invariant
            k <= protect@.len(),
            pv == protect@.map_values(|p: String| p@),
            guard@ == cfg_lines(pv.take(k as int)),
        decreases protect@.len() - k,
    {
        assert(pv.take(k + 1).drop_last() =~= pv.take(k as int));
        assert(pv.take(k + 1).last() == protect@[k as int]@);
        push_str(&mut guard, "#[cfg(feature = \"");
        push_str(&mut guard, protect[k].as_str());
        push_str(&mut guard, "\")]\n");
        k = k + 1;
    }
    assert(pv.take(protect@.len() as int) =~= pv);
    let guard_text = string_from_chars(guard.as_slice());
    let lines = inclusive_lines(body);
    let ghost lv = lines@.map_values(|l: String| l@);
    let ghost start = s@;
    let mut open = false;
    let mut j: usize = 0;
    assert(lv.take(0) =~= Seq::<Seq<char>>::empty());
    assert(start + Seq::<char>::empty() =~= start);
    while j < lines.len()
        invariant
            j <= lines@.len(),
            lv == lines@.map_values(|l: String| l@),
            guard_text@ == cfg_lines(pv),
            s@ == start + guarded(lv.take(j as int), guard_text@).0,
            open == guarded(lv.take(j as int), guard_text@).1,
        decreases lines@.len() - j,
    {
        assert(lv.take(j + 1).drop_last() =~= lv.take(j as int));
        assert(lv.take(j + 1).last() == lines@[j as int]@);
        let lc = chars_of(lines[j].as_str());
        let (lo, hi) = trim_bounds(lc.as_slice(), 0, lc.len());
        assert(lc@.subrange(0, lc@.len() as int) =~= lines@[j as int]@);
        if lo == hi {
            open = false;
        } else {
            let ghost before = s@;
            if !open {
                append(s, guard_text.as_str());
            }
            append(s, lines[j].as_str());
            proof {
                let g = guarded(lv.take(j as int), guard_text@);
                assert(s@ =~= start + (g.0 + (if g.1 {
                    Seq::empty()
                } else {
                    guard_text@
                }) + lines@[j as int]@));
            }
            open = true;
        }
        j = j + 1;
    }
    assert(lv.take(lines@.len() as int) =~= lv);
}


// ---------------------------------------------------------------------------
// Platform handle table
// ---------------------------------------------------------------------------

/// The Rust declaration of a platform type Vulkan's WSI surface references.
pub open spec fn platform_decl_text(name: Seq<char>) -> Option<Seq<char>> {
    if name == "HANDLE"@ {
        Some("pub type HANDLE = *mut c_void;"@)
    } else if name == "HINSTANCE"@ {
        Some("pub type HINSTANCE = *mut c_void;"@)
    } else if name == "HWND"@ {
        Some("pub type HWND = *mut c_void;"@)
    } else if name == "HMONITOR"@ {
        Some("pub type HMONITOR = *mut c_void;"@)
    } else if name == "DWORD"@ {
        Some("pub type DWORD = u32;"@)
    } else if name == "LPCWSTR"@ {
        Some("pub type LPCWSTR = *const u16;"@)
    } else if name == "SECURITY_ATTRIBUTES"@ {
        Some("#[repr(C)]\npub struct SECURITY_ATTRIBUTES {\n    \
             pub nLength: DWORD,\n    \
             pub lpSecurityDescriptor: *mut c_void,\n    \
             pub bInheritHandle: i32,\n}"@)
    } else if name == "Display"@ {
        Some("pub enum Display {}"@)
    } else if name == "Window"@ {
        Some("pub type Window = core::ffi::c_ulong;"@)
    } else if name == "VisualID"@ {
        Some("pub type VisualID = core::ffi::c_ulong;"@)
    } else if name == "RROutput"@ {
        Some("pub type RROutput = core::ffi::c_ulong;"@)
    } else if name == "xcb_connection_t"@ {
        Some("pub enum xcb_connection_t {}"@)
    } else if name == "xcb_window_t"@ {
        Some("pub type xcb_window_t = u32;"@)
    } else if name == "xcb_visualid_t"@ {
        Some("pub type xcb_visualid_t = u32;"@)
    } else if name == "wl_display"@ {
        Some("pub enum wl_display {}"@)
    } else if name == "wl_surface"@ {
        Some("pub enum wl_surface {}"@)
    } else if name == "ANativeWindow"@ {
        Some("pub enum ANativeWindow {}"@)
    } else if name == "AHardwareBuffer"@ {
        Some("pub enum AHardwareBuffer {}"@)
    } else if name == "CAMetalLayer"@ {
        Some("pub enum CAMetalLayer {}"@)
    } else if name == "MTLDevice_id"@ {
        Some("pub type MTLDevice_id = *mut c_void;"@)
    } else if name == "MTLCommandQueue_id"@ {
        Some("pub type MTLCommandQueue_id = *mut c_void;"@)
    } else if name == "MTLBuffer_id"@ {
        Some("pub type MTLBuffer_id = *mut c_void;"@)
    } else if name == "MTLTexture_id"@ {
        Some("pub type MTLTexture_id = *mut c_void;"@)
    } else if name == "MTLSharedEvent_id"@ {
        Some("pub type MTLSharedEvent_id = *mut c_void;"@)
    } else if name == "IOSurfaceRef"@ {
        Some("pub type IOSurfaceRef = *mut c_void;"@)
    } else if name == "zx_handle_t"@ {
        Some("pub type zx_handle_t = u32;"@)
    } else if name == "IDirectFB"@ {
        Some("pub enum IDirectFB {}"@)
    } else if name == "IDirectFBSurface"@ {
        Some("pub enum IDirectFBSurface {}"@)
    } else if name == "GgpStreamDescriptor"@ {
        Some("pub type GgpStreamDescriptor = u32;"@)
    } else if name == "GgpFrameToken"@ {
        Some("pub type GgpFrameToken = u64;"@)
    } else if name == "_screen_context"@ {
        Some("pub enum _screen_context {}"@)
    } else if name == "_screen_window"@ {
        Some("pub enum _screen_window {}"@)
    } else if name == "_screen_buffer"@ {
        Some("pub enum _screen_buffer {}"@)
    } else if name == "NativeWindow"@ {
        Some("pub enum NativeWindow {}"@)
    } else if name == "OHNativeWindow"@ {
        Some("pub type OHNativeWindow = NativeWindow;"@)
    } else if name == "OH_NativeBuffer"@ {
        Some("pub enum OH_NativeBuffer {}"@)
    } else if name == "OHBufferHandle"@ {
        Some("pub enum OHBufferHandle {}"@)
    } else if name == "__IOSurface"@ {
        Some("pub enum __IOSurface {}"@)
    } else if name == "NvSciSyncAttrList"@ {
        Some("pub type NvSciSyncAttrList = *mut c_void;"@)
    } else if name == "NvSciSyncObj"@ {
        Some("pub type NvSciSyncObj = *mut c_void;"@)
    } else if name == "NvSciSyncFence"@ {
        Some("#[repr(C)]\npub struct NvSciSyncFence {\n    pub payload: [u64; 6],\n}"@)
    } else if name == "NvSciBufAttrList"@ {
        Some("pub type NvSciBufAttrList = *mut c_void;"@)
    } else if name == "NvSciBufObj"@ {
        Some("pub type NvSciBufObj = *mut c_void;"@)
    } else {
        None
    }
}

/// Rust declarations for the platform types Vulkan's WSI surface references (the ABI shape of each; `None` for other names).
pub fn platform_type_decl(name: &str) -> (r: Option<&'static str>)
    ensures
        match platform_decl_text(name@) {
            Some(t) => r matches Some(s) && s@ == t,
            None => r is None,
        },
{
    if str_eq(name, "HANDLE") {
        return Some("pub type HANDLE = *mut c_void;");
    }
    if str_eq(name, "HINSTANCE") {
        return Some("pub type HINSTANCE = *mut c_void;");
    }
    if str_eq(name, "HWND") {
        return Some("pub type HWND = *mut c_void;");
    }
    if str_eq(name, "HMONITOR") {
        return Some("pub type HMONITOR = *mut c_void;");
    }
    if str_eq(name, "DWORD") {
        return Some("pub type DWORD = u32;");
    }
    if str_eq(name, "LPCWSTR") {
        return Some("pub type LPCWSTR = *const u16;");
    }
    if str_eq(name, "SECURITY_ATTRIBUTES") {
        return Some("#[repr(C)]\npub struct SECURITY_ATTRIBUTES {\n    \
             pub nLength: DWORD,\n    \
             pub lpSecurityDescriptor: *mut c_void,\n    \
             pub bInheritHandle: i32,\n}");
    }
    if str_eq(name, "Display") {
        return Some("pub enum Display {}");
    }
    if str_eq(name, "Window") {
        return Some("pub type Window = core::ffi::c_ulong;");
    }
    if str_eq(name, "VisualID") {
        return Some("pub type VisualID = core::ffi::c_ulong;");
    }
    if str_eq(name, "RROutput") {
        return Some("pub type RROutput = core::ffi::c_ulong;");
    }
    if str_eq(name, "xcb_connection_t") {
        return Some("pub enum xcb_connection_t {}");
    }
    if str_eq(name, "xcb_window_t") {
        return Some("pub type xcb_window_t = u32;");
    }
    if str_eq(name, "xcb_visualid_t") {
        return Some("pub type xcb_visualid_t = u32;");
    }
    if str_eq(name, "wl_display") {
        return Some("pub enum wl_display {}");
    }
    if str_eq(name, "wl_surface") {
        return Some("pub enum wl_surface {}");
    }
    if str_eq(name, "ANativeWindow") {
        return Some("pub enum ANativeWindow {}");
    }
    if str_eq(name, "AHardwareBuffer") {
        return Some("pub enum AHardwareBuffer {}");
    }
    if str_eq(name, "CAMetalLayer") {
        return Some("pub enum CAMetalLayer {}");
    }
    if str_eq(name, "MTLDevice_id") {
        return Some("pub type MTLDevice_id = *mut c_void;");
    }
    if str_eq(name, "MTLCommandQueue_id") {
        return Some("pub type MTLCommandQueue_id = *mut c_void;");
    }
    if str_eq(name, "MTLBuffer_id") {
        return Some("pub type MTLBuffer_id = *mut c_void;");
    }
    if str_eq(name, "MTLTexture_id") {
        return Some("pub type MTLTexture_id = *mut c_void;");
    }
    if str_eq(name, "MTLSharedEvent_id") {
        return Some("pub type MTLSharedEvent_id = *mut c_void;");
    }
    if str_eq(name, "IOSurfaceRef") {
        return Some("pub type IOSurfaceRef = *mut c_void;");
    }
    if str_eq(name, "zx_handle_t") {
        return Some("pub type zx_handle_t = u32;");
    }
    if str_eq(name, "IDirectFB") {
        return Some("pub enum IDirectFB {}");
    }
    if str_eq(name, "IDirectFBSurface") {
        return Some("pub enum IDirectFBSurface {}");
    }
    if str_eq(name, "GgpStreamDescriptor") {
        return Some("pub type GgpStreamDescriptor = u32;");
    }
    if str_eq(name, "GgpFrameToken") {
        return Some("pub type GgpFrameToken = u64;");
    }
    if str_eq(name, "_screen_context") {
        return Some("pub enum _screen_context {}");
    }
    if str_eq(name, "_screen_window") {
        return Some("pub enum _screen_window {}");
    }
    if str_eq(name, "_screen_buffer") {
        return Some("pub enum _screen_buffer {}");
    }
    if str_eq(name, "NativeWindow") {
        return Some("pub enum NativeWindow {}");
    }
    if str_eq(name, "OHNativeWindow") {
        return Some("pub type OHNativeWindow = NativeWindow;");
    }
    if str_eq(name, "OH_NativeBuffer") {
        return Some("pub enum OH_NativeBuffer {}");
    }
    if str_eq(name, "OHBufferHandle") {
        return Some("pub enum OHBufferHandle {}");
    }
    if str_eq(name, "__IOSurface") {
        return Some("pub enum __IOSurface {}");
    }
    if str_eq(name, "NvSciSyncAttrList") {
        return Some("pub type NvSciSyncAttrList = *mut c_void;");
    }
    if str_eq(name, "NvSciSyncObj") {
        return Some("pub type NvSciSyncObj = *mut c_void;");
    }
    if str_eq(name, "NvSciSyncFence") {
        return Some("#[repr(C)]\npub struct NvSciSyncFence {\n    pub payload: [u64; 6],\n}");
    }
    if str_eq(name, "NvSciBufAttrList") {
        return Some("pub type NvSciBufAttrList = *mut c_void;");
    }
    if str_eq(name, "NvSciBufObj") {
        return Some("pub type NvSciBufObj = *mut c_void;");
    }
    None
}


// ---------------------------------------------------------------------------
// Declarator bases
// ---------------------------------------------------------------------------

/// `s` begins with `p`.
pub open spec fn has_prefix(s: Seq<char>, p: Seq<char>) -> bool {
    s.len() >= p.len() && s.take(p.len() as int) == p
}

/// Whether `s` begins with `p` (`str::starts_with`).
pub fn starts_with_text(s: &str, p: &str) -> (r: bool)
    ensures
        r == has_prefix(s@, p@),
{
    let sc = chars_of(s);
    let pc = chars_of(p);
    if sc.len() < pc.len() {
        return false;
    }
    let mut k: usize = 0;
    while k < pc.len()
        invariant
            sc@ == s@,
            pc@ == p@,
            pc@.len() <= sc@.len(),
            k <= pc@.len(),
            forall|m: int| 0 <= m < k ==> sc@[m] == pc@[m],
        decreases pc@.len() - k,
    {
        if sc[k] != pc[k] {
            assert(s@.take(p@.len() as int)[k as int] != p@[k as int]);
            return false;
        }
        k = k + 1;
    }
    assert(s@.take(p@.len() as int) =~= p@);
    true
}

/// The platform types recorded after recording `name`: added once, in
/// first-use order, and `OHNativeWindow` pulls in the `NativeWindow` its
/// declaration refers to.
pub open spec fn recorded_platform(used: Seq<Seq<char>>, name: Seq<char>) -> Seq<Seq<char>> {
    if used.contains(name) {
        used
    } else if name == "OHNativeWindow"@ {
        set_insert(used.push(name), "NativeWindow"@)
    } else {
        used.push(name)
    }
}

/// Record a platform type the Vulkan table declares, with the platform
/// types its own declaration references.
pub fn record_platform(name: &str, platform: &mut Vec<String>)
    ensures
        texts(*final(platform)) == recorded_platform(texts(*old(platform)), name@),
{
    if names_contain(platform, name) {
        return;
    }
    let ghost before = texts(*platform);
    platform.push(name.to_owned());
    assert(texts(*platform) =~= before.push(name@));
    if str_eq(name, "OHNativeWindow") {
        if !names_contain(platform, "NativeWindow") {
            let ghost mid = texts(*platform);
            platform.push("NativeWindow".to_owned());
            assert(texts(*platform) =~= mid.push("NativeWindow"@));
        }
    }
}

/// What checking a declarator base gives: fine for an ABI scalar, a
/// platform type or a type the module defines; an error naming the base
/// otherwise, one for the video-codec types in particular.
pub open spec fn base_check(b: Seq<char>, defined: Seq<Seq<char>>) -> Result<(), Fault> {
    if abi_scalar_text(b) is Some || platform_decl_text(b) is Some || defined.contains(b) {
        Ok(())
    } else if has_prefix(b, "StdVideo"@) {
        Err(Fault::StdVideoBase(b))
    } else {
        Err(Fault::UnknownBase(b))
    }
}

/// Validate a declarator base: an ABI scalar, a name defined in this
/// module (`defined`), or a known platform type (then recorded in
/// `platform`).
pub fn check_base(ty: &TypeRef, defined: &Vec<String>, platform: &mut Vec<String>) -> (r: Result<(), Error>)
    ensures
        match base_check(ty@.base, texts(*defined)) {
            Ok(()) => r is Ok,
            Err(f) => r matches Err(e) && e@ == f,
        },
        texts(*final(platform)) == if abi_scalar_text(ty@.base) is None && platform_decl_text(ty@.base) is Some {
            recorded_platform(texts(*old(platform)), ty@.base)
        } else {
            texts(*old(platform))
        },
{
    let b = ty.base.as_str();
    if abi_scalar(b).is_some() {
        return Ok(());
    }
    if platform_type_decl(b).is_some() {
        record_platform(b, platform);
        return Ok(());
    }
    if names_contain(defined, b) {
        return Ok(());
    }
    if starts_with_text(b, "StdVideo") {
        return Err(Error::StdVideoBase { base: ty.base.clone() });
    }
    Err(Error::UnknownBase { base: ty.base.clone() })
}

} // verus!

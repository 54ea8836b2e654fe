//! Rust backend: type printing, constant translation and the fixed files of
//! the generated crate.

pub mod abi;
pub mod base_types;
pub mod common;
pub mod egl_loader;
pub mod gl_loader;
pub mod glx_loader;
pub mod vk_loader;
pub mod typedef_alias;
pub mod vk_struct;
pub mod vk_types;
pub mod wgl_loader;

use vstd::prelude::*;
use crate::generator::rust::vk_types::append;

use crate::text::{
    chars_of, cut_cr, find, find_in, lines, push_str, range_eq, skip_space_back, string_from_chars,
    trim_end,
};

verus! {

// ---------------------------------------------------------------------------
// Cargo.toml / rustfmt.toml
// ---------------------------------------------------------------------------

/// `name = []` for each of the first `n` features.
pub open spec fn feature_lines(fs: Seq<String>, n: int) -> Seq<char>
    decreases n,
{
    if n <= 0 {
        Seq::empty()
    } else {
        feature_lines(fs, n - 1) + fs[n - 1]@ + " = []\n"@
    }
}

/// The platform feature block: a comment and one line per feature, or
/// nothing for the GL family.
pub open spec fn feature_block(fs: Seq<String>) -> Seq<char> {
    if fs.len() == 0 {
        Seq::empty()
    } else {
        "# Platform-windowing surface opt-ins, mirroring the C headers'\n# VK_USE_PLATFORM_* defines.\n"@
            + feature_lines(fs, fs.len() as int)
    }
}

/// The generated crate's `Cargo.toml`.
pub open spec fn cargo_toml_text(crate_name: Seq<char>, fs: Seq<String>) -> Seq<char> {
    "# @generated by gloam.\n[package]\nname = \""@ + crate_name
        + "\"\nversion = \"0.0.0\"\nedition = \"2021\"\n# c\"...\" literals need 1.77; core::error::Error needs 1.81.\nrust-version = \"1.81\"\n\n[features]\n# Analogue of a KHR_no_error GL context, applied at compile time:\n# removes the per-call is-loaded check, so calling an unloaded\n# function is undefined behavior (as in C) instead of a panic.\nno-error = []\n"@
        + feature_block(fs)
        + "\n[dependencies]\nxxhash-rust = { version = \"0.8\", features = [\"xxh3\"] }\n"@
}

/// Emit the generated loader crate's `Cargo.toml`.  The pinned
/// `edition = 2021` is a conservative default; the crate carries the
/// `xxhash-rust` dependency it uses for extension-name hashing.
/// `platform_features` declares one cargo feature per platform-protection
/// macro (the Rust analogue of Vulkan's `VK_USE_PLATFORM_*` defines); empty
/// for the GL family.
pub fn emit_cargo_toml(crate_name: &str, platform_features: &[String]) -> (r: String)
    ensures
        r@ == cargo_toml_text(crate_name@, platform_features@),
{
    let mut features: Vec<char> = Vec::new();
    if platform_features.len() > 0 {
        push_str(
            &mut features,
            "# Platform-windowing surface opt-ins, mirroring the C headers'\n# VK_USE_PLATFORM_* defines.\n",
        );
        let ghost head = features@;
        let mut i: usize = 0;
        while i < platform_features.len()
            invariant
                i <= platform_features@.len(),
                features@ == head + feature_lines(platform_features@, i as int),
            decreases platform_features@.len() - i,
        {
            push_str(&mut features, platform_features[i].as_str());
            push_str(&mut features, " = []\n");
            i = i + 1;
        }
    }
    let mut out: Vec<char> = Vec::new();
    push_str(&mut out, "# @generated by gloam.\n[package]\nname = \"");
    push_str(&mut out, crate_name);
    push_str(
        &mut out,
        "\"\nversion = \"0.0.0\"\nedition = \"2021\"\n# c\"...\" literals need 1.77; core::error::Error needs 1.81.\nrust-version = \"1.81\"\n\n[features]\n# Analogue of a KHR_no_error GL context, applied at compile time:\n# removes the per-call is-loaded check, so calling an unloaded\n# function is undefined behavior (as in C) instead of a panic.\nno-error = []\n",
    );
    out.append(&mut features);
    push_str(&mut out, "\n[dependencies]\nxxhash-rust = { version = \"0.8\", features = [\"xxh3\"] }\n");
    string_from_chars(out.as_slice())
}

/// The generated crate's `rustfmt.toml`, which keeps rustfmt off the
/// generated code.
pub open spec fn rustfmt_toml_text() -> Seq<char> {
    "# @generated by gloam.\nformat_generated_files = false\n"@
}

/// Emit the generated loader crate's `rustfmt.toml`.  This file directs
/// rustfmt to not re-format the generated lib.rs code.
pub fn emit_rustfmt_toml() -> (r: String)
    ensures
        r@ == rustfmt_toml_text(),
{
    "# @generated by gloam.\nformat_generated_files = false\n".to_owned()
}

// ---------------------------------------------------------------------------
// Preamble
// ---------------------------------------------------------------------------

/// `t` without a leading ` *`.
pub open spec fn strip_star(t: Seq<char>) -> Seq<char> {
    if t.len() >= 2 && t[0] == ' ' && t[1] == '*' {
        t.subrange(2, t.len() as int)
    } else {
        t
    }
}

/// One preamble line as a Rust line comment: the comment's opening and
/// closing lines disappear, the ` *` prefix of the others becomes `//`.
pub open spec fn rust_comment_line(l: Seq<char>) -> Seq<char> {
    let t = trim_end(l);
    if t == "/*"@ || t == " */"@ {
        Seq::empty()
    } else {
        "//"@ + strip_star(t) + "\n"@
    }
}

/// The comment lines of all of `ls`, in order.
pub open spec fn rust_comment_lines(ls: Seq<Seq<char>>) -> Seq<char>
    decreases ls.len(),
{
    if ls.len() == 0 {
        Seq::empty()
    } else {
        rust_comment_line(ls[0]) + rust_comment_lines(ls.drop_first())
    }
}

/// Append the comment form of line `s[a..b]`.
fn push_comment_line(out: &mut Vec<char>, s: &[char], a: usize, b: usize)
    requires
        a <= b <= s@.len(),
    ensures
        final(out)@ == old(out)@ + rust_comment_line(s@.subrange(a as int, b as int)),
{
    let e = skip_space_back(s, a, b);
    let ghost t = s@.subrange(a as int, e as int);
    if range_eq(s, a, e, "/*") || range_eq(s, a, e, " */") {
        assert(out@ =~= old(out)@ + rust_comment_line(s@.subrange(a as int, b as int)));
        return;
    }
    let start = if e - a >= 2 && s[a] == ' ' && s[a + 1] == '*' {
        a + 2
    } else {
        a
    };
    assert(strip_star(t) =~= s@.subrange(start as int, e as int));
    push_str(out, "//");
    let mut body = crate::text::slice_of(s, start, e);
    out.append(&mut body);
    out.push('\n');
    proof {
        reveal_strlit("\n");
    }
    assert(out@ =~= old(out)@ + rust_comment_line(s@.subrange(a as int, b as int)));
}

/// The lines of the rest of a text once the first line, ending at `k`,
/// is cut off.
proof fn lemma_lines_step(t: Seq<char>, k: int)
    requires
        t.len() > 0,
        find(t, '\n') == Some(k),
        0 <= k < t.len(),
    ensures
        lines(t) == seq![cut_cr(t.subrange(0, k))] + lines(t.subrange(k + 1, t.len() as int)),
{
}

/// Turn the C block-comment preamble (`/* ... */` with ` * ` line prefixes)
/// into Rust line comments.
pub fn rustify_preamble(c_preamble: &str) -> (r: String)
    ensures
        r@ == rust_comment_lines(lines(c_preamble@)),
{
    let s = chars_of(c_preamble);
    let n = s.len();
    let mut out: Vec<char> = Vec::new();
    let mut i: usize = 0;
    assert(s@.subrange(0, n as int) =~= s@);
    while i < n
        invariant
            i <= n == s@.len(),
            s@ == c_preamble@,
            rust_comment_lines(lines(s@)) == out@ + rust_comment_lines(lines(s@.subrange(i as int, n as int))),
        decreases n - i,
    {
        let ghost t = s@.subrange(i as int, n as int);
        match find_in(s.as_slice(), '\n', i, n) {
            Some(k) => {
                let b = if k > i && s[k - 1] == '\r' {
                    k - 1
                } else {
                    k
                };
                proof {
                    lemma_lines_step(t, (k - i) as int);
                    assert(t.subrange(0, k - i) =~= s@.subrange(i as int, k as int));
                    assert(cut_cr(t.subrange(0, k - i)) =~= s@.subrange(i as int, b as int));
                    assert(t.subrange(k - i + 1, t.len() as int) =~= s@.subrange(k + 1, n as int));
                    let ls = lines(t);
                    assert(ls.drop_first() =~= lines(s@.subrange(k + 1, n as int)));
                }
                push_comment_line(&mut out, s.as_slice(), i, b);
                i = k + 1;
            },
            None => {
                proof {
                    assert(lines(t) =~= seq![t]);
                    assert(seq![t].drop_first() =~= Seq::<Seq<char>>::empty());
                }
                push_comment_line(&mut out, s.as_slice(), i, n);
                i = n;
                assert(s@.subrange(n as int, n as int) =~= Seq::<char>::empty());
            },
        }
    }
    assert(s@.subrange(n as int, n as int) =~= Seq::<char>::empty());
    string_from_chars(out.as_slice())
}

// ---------------------------------------------------------------------------
// Rendered files
// ---------------------------------------------------------------------------

/// `s` without its trailing newlines.
pub open spec fn trim_newlines(s: Seq<char>) -> Seq<char>
    decreases s.len(),
{
    if s.len() > 0 && s.last() == '\n' {
        trim_newlines(s.drop_last())
    } else {
        s
    }
}

/// Rendered files end with exactly one newline.
pub fn normalize_eof(rendered: String) -> (r: String)
    ensures
        r@ == trim_newlines(rendered@).push('\n'),
{
    let mut s = chars_of(rendered.as_str());
    while s.len() > 0 && s[s.len() - 1] == '\n'
        invariant
            trim_newlines(rendered@) == trim_newlines(s@),
        decreases s.len(),
    {
        s.pop();
    }
    s.push('\n');
    string_from_chars(s.as_slice())
}


/// Trimming leaves no newline at the end.
proof fn lemma_trim_newlines_end(t: Seq<char>)
    ensures
        trim_newlines(t).len() == 0 || trim_newlines(t).last() != '\n',
        trim_newlines(trim_newlines(t)) == trim_newlines(t),
    decreases t.len(),
{
    if t.len() > 0 && t.last() == '\n' {
        lemma_trim_newlines_end(t.drop_last());
    }
}

/// A rendered file ends with exactly one newline, and normalising it again
/// changes nothing.
pub proof fn lemma_single_trailing_newline(t: Seq<char>)
    ensures
        trim_newlines(t).push('\n').last() == '\n',
        trim_newlines(t).len() == 0 || trim_newlines(t).last() != '\n',
        trim_newlines(trim_newlines(t).push('\n')).push('\n') == trim_newlines(t).push('\n'),
{
    lemma_trim_newlines_end(t);
    let u = trim_newlines(t);
    assert(u.push('\n').drop_last() =~= u);
}


/// The two `__missing` variants behind the `no-error` cargo feature: the
/// default panics with the function's name from the name blob; the
/// `no-error` build promises the null case away (`api_label` names the API
/// in its debug assertion).
pub open spec fn missing_helpers_text(api_label: Seq<char>) -> Seq<char> {
    "// ── Unloaded-call handling ──────────────────────────────────\n\
         /// Reached when a dispatch wrapper finds a null PFN: the function is not\n\
         /// loaded (feature/extension absent, or the context was never loaded).\n\
         /// Panics with the function's name from the name blob.\n\
         #[cfg(not(feature = \"no-error\"))]\n\
         #[cold]\n\
         #[inline(never)]\n\
         unsafe fn __missing(idx: usize) -> ! {\n\
         \x20   let off = FN_NAME_OFFSETS[idx] as usize;\n\
         \x20   let name = CStr::from_bytes_until_nul(&FN_NAME_DATA[off..]).unwrap_or(c\"?\");\n\
         \x20   panic!(\n\
         \x20       \"{} is not loaded (unsupported by this context, or called before load)\",\n\
         \x20       name.to_str().unwrap_or(\"?\")\n\
         \x20   )\n\
         }\n\n\
         /// `no-error` build (the KHR_no_error analogue): promise the compiler the\n\
         /// null case is impossible, so the dispatch match compiles to an\n\
         /// unchecked call.  Calling an unloaded function is undefined behavior,\n\
         /// exactly as in C.\n\
         #[cfg(feature = \"no-error\")]\n\
         #[inline(always)]\n\
         unsafe fn __missing(_idx: usize) -> ! {\n"@ + "    debug_assert!(false, \"unloaded "@ + api_label + " function called in a no-error build\");\n\
         \x20   unsafe { core::hint::unreachable_unchecked() }\n\
         }\n\n"@
}

/// Emit the two `__missing` variants.
pub fn emit_missing_helpers(s: &mut String, api_label: &str)
    ensures
        final(s)@ == old(s)@ + missing_helpers_text(api_label@),
{
    append(s, "// ── Unloaded-call handling ──────────────────────────────────\n\
         /// Reached when a dispatch wrapper finds a null PFN: the function is not\n\
         /// loaded (feature/extension absent, or the context was never loaded).\n\
         /// Panics with the function's name from the name blob.\n\
         #[cfg(not(feature = \"no-error\"))]\n\
         #[cold]\n\
         #[inline(never)]\n\
         unsafe fn __missing(idx: usize) -> ! {\n\
         \x20   let off = FN_NAME_OFFSETS[idx] as usize;\n\
         \x20   let name = CStr::from_bytes_until_nul(&FN_NAME_DATA[off..]).unwrap_or(c\"?\");\n\
         \x20   panic!(\n\
         \x20       \"{} is not loaded (unsupported by this context, or called before load)\",\n\
         \x20       name.to_str().unwrap_or(\"?\")\n\
         \x20   )\n\
         }\n\n\
         /// `no-error` build (the KHR_no_error analogue): promise the compiler the\n\
         /// null case is impossible, so the dispatch match compiles to an\n\
         /// unchecked call.  Calling an unloaded function is undefined behavior,\n\
         /// exactly as in C.\n\
         #[cfg(feature = \"no-error\")]\n\
         #[inline(always)]\n\
         unsafe fn __missing(_idx: usize) -> ! {\n");
    let mut out: Vec<char> = Vec::new();
    push_str(&mut out, "    debug_assert!(false, \"unloaded ");
    push_str(&mut out, api_label);
    push_str(&mut out, " function called in a no-error build\");\n\
         \x20   unsafe { core::hint::unreachable_unchecked() }\n\
         }\n\n");
    let text = string_from_chars(out.as_slice());
    let ghost before = s@;
    append(s, text.as_str());
    assert(s@ =~= before + ("    debug_assert!(false, \"unloaded "@ + api_label@ + " function called in a no-error build\");\n\
         \x20   unsafe { core::hint::unreachable_unchecked() }\n\
         }\n\n"@));
}

} // verus!

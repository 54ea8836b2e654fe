//! C backend: the text filters the loader templates apply to names and
//! numbers.  Each takes the plain value the template hands over and returns
//! the text it prints.

pub mod model;
pub mod output;

use vstd::prelude::*;

use crate::text::{ascii_digit, chars_of, is_digit, is_lower, is_upper, push_str, str_eq, string_from_chars};

verus! {

// ---------------------------------------------------------------------------
// Justification
// ---------------------------------------------------------------------------

/// `n` copies of `c`.
pub open spec fn repeat(c: char, n: nat) -> Seq<char> {
    Seq::new(n, |_i: int| c)
}

/// `s` right-justified to `width` characters, padded with spaces on the left.
pub open spec fn pad_left(s: Seq<char>, width: nat) -> Seq<char> {
    if s.len() < width {
        repeat(' ', (width - s.len()) as nat) + s
    } else {
        s
    }
}

/// `s` left-justified to `width` characters, padded with spaces on the right.
pub open spec fn pad_right(s: Seq<char>, width: nat) -> Seq<char> {
    if s.len() < width {
        s + repeat(' ', (width - s.len()) as nat)
    } else {
        s
    }
}

/// Append `n` copies of `c` to `out`.
fn push_repeat(out: &mut Vec<char>, c: char, n: usize)
    ensures
        final(out)@ == old(out)@ + repeat(c, n as nat),
{
    let mut k: usize = 0;
    while k < n
        invariant
            k <= n,
            out@ == old(out)@ + repeat(c, k as nat),
        decreases n - k,
    {
        out.push(c);
        k = k + 1;
        assert(out@ =~= old(out)@ + repeat(c, k as nat));
    }
}

/// Right-justify a value to `width` characters, padding with spaces on the
/// left.  Usage in templates: `{{ value | rjust(4) }}`
pub fn filter_rjust(value: &str, width: usize) -> (r: String)
    ensures
        r@ == pad_left(value@, width as nat),
{
    let s = chars_of(value);
    let mut out: Vec<char> = Vec::new();
    if s.len() < width {
        push_repeat(&mut out, ' ', width - s.len());
    }
    push_str(&mut out, value);
    proof {
        if s.len() >= width {
            assert(out@ =~= value@);
        }
    }
    string_from_chars(out.as_slice())
}

/// Left-justify a value to `width` characters, padding with spaces on the
/// right.  Usage in templates: `{{ value | ljust(4) }}`
pub fn filter_ljust(value: &str, width: usize) -> (r: String)
    ensures
        r@ == pad_right(value@, width as nat),
{
    let mut out = chars_of(value);
    let n = out.len();
    if n < width {
        push_repeat(&mut out, ' ', width - n);
    }
    string_from_chars(out.as_slice())
}

// ---------------------------------------------------------------------------
// Hex
// ---------------------------------------------------------------------------

/// The lowercase hex digit for `d` (`0 <= d < 16`).
pub open spec fn hex_char(d: nat) -> char {
    if d < 10 {
        (d + 48) as char
    } else {
        (d + 87) as char
    }
}

/// Lowercase hex spelling of `n`, most significant digit first, no leading
/// zeros.
pub open spec fn hex(n: nat) -> Seq<char>
    decreases n,
{
    if n < 16 {
        seq![hex_char(n)]
    } else {
        hex(n / 16).push(hex_char(n % 16))
    }
}

/// `0x` and at least four lowercase hex digits, zero-padded.
pub open spec fn hex4_text(n: nat) -> Seq<char> {
    let h = hex(n);
    seq!['0', 'x'] + if h.len() < 4 {
        repeat('0', (4 - h.len()) as nat) + h
    } else {
        h
    }
}

/// Append the hex spelling of `n` to `out`.
pub(crate) fn push_hex(out: &mut Vec<char>, n: u64)
    ensures
        final(out)@ == old(out)@ + hex(n as nat),
    decreases n,
{
    if n >= 16 {
        push_hex(out, n / 16);
    }
    let d: u8 = (n % 16) as u8;
    if d < 10 {
        out.push((d + 48) as char);
    } else {
        out.push((d + 87) as char);
    }
    proof {
        assert(n >= 16 ==> hex(n as nat) == hex((n / 16) as nat).push(hex_char((n % 16) as nat)));
    }
}

/// Format a packed version as a 4-digit lowercase hex literal: `0x0303`.
/// The value is read as the unsigned 64-bit integer with the same bits.
pub fn filter_hex4(value: i64) -> (r: String)
    ensures
        r@ == hex4_text((value as u64) as nat),
{
    let n = value as u64;
    let mut digits: Vec<char> = Vec::new();
    push_hex(&mut digits, n);
    assert(digits@ =~= hex(n as nat));
    let mut out: Vec<char> = Vec::new();
    out.push('0');
    out.push('x');
    if digits.len() < 4 {
        push_repeat(&mut out, '0', 4 - digits.len());
    }
    out.append(&mut digits);
    assert(out@ =~= hex4_text(n as nat));
    string_from_chars(out.as_slice())
}

// ---------------------------------------------------------------------------
// Names
// ---------------------------------------------------------------------------

/// A valid C identifier from a name that may start with a digit: such a
/// name gets a leading `_` (`3DFX_multisample` → `_3DFX_multisample`).
pub open spec fn c_ident_text(s: Seq<char>) -> Seq<char> {
    if s.len() > 0 && is_digit(s[0]) {
        seq!['_'] + s
    } else {
        s
    }
}

/// Prefix a name with `_` when it starts with a digit, so it is a valid C
/// identifier (struct member names).
pub fn filter_c_ident(value: &str) -> (r: String)
    ensures
        r@ == c_ident_text(value@),
{
    let s = chars_of(value);
    if s.len() > 0 && ascii_digit(s[0]) {
        let mut out: Vec<char> = Vec::new();
        out.push('_');
        push_str(&mut out, value);
        string_from_chars(out.as_slice())
    } else {
        value.to_owned()
    }
}

/// The display name of a spec, for public function names such as
/// `gloamLoadGLContext`; unknown names pass through.
pub open spec fn spec_display_text(s: Seq<char>) -> Seq<char> {
    if s == "gles1"@ || s == "gles2"@ || s == "gl"@ || s == "glcore"@ {
        "GL"@
    } else if s == "egl"@ {
        "EGL"@
    } else if s == "glx"@ {
        "GLX"@
    } else if s == "wgl"@ {
        "WGL"@
    } else if s == "vk"@ || s == "vulkan"@ {
        "Vulkan"@
    } else {
        s
    }
}

/// The display name of an API, for public function names such as
/// `gloamLoadGLES2Context`; unknown names pass through.
pub open spec fn api_display_text(s: Seq<char>) -> Seq<char> {
    if s == "gl"@ || s == "glcore"@ {
        "GL"@
    } else if s == "gles1"@ {
        "GLES1"@
    } else if s == "gles2"@ {
        "GLES2"@
    } else if s == "egl"@ {
        "EGL"@
    } else if s == "glx"@ {
        "GLX"@
    } else if s == "wgl"@ {
        "WGL"@
    } else if s == "vk"@ || s == "vulkan"@ {
        "Vulkan"@
    } else {
        s
    }
}

/// Spec display name (`gl`, `gles1`, `gles2`, `glcore` all print `GL`).
pub fn filter_spec_display(value: &str) -> (r: String)
    ensures
        r@ == spec_display_text(value@),
{
    let t: &str = if str_eq(value, "gles1") || str_eq(value, "gles2") || str_eq(value, "gl")
        || str_eq(value, "glcore") {
        "GL"
    } else if str_eq(value, "egl") {
        "EGL"
    } else if str_eq(value, "glx") {
        "GLX"
    } else if str_eq(value, "wgl") {
        "WGL"
    } else if str_eq(value, "vk") || str_eq(value, "vulkan") {
        "Vulkan"
    } else {
        value
    };
    t.to_owned()
}

/// API display name (`gles2` prints `GLES2`, `glcore` prints `GL`).
pub fn filter_api_display(value: &str) -> (r: String)
    ensures
        r@ == api_display_text(value@),
{
    let t: &str = if str_eq(value, "gl") || str_eq(value, "glcore") {
        "GL"
    } else if str_eq(value, "gles1") {
        "GLES1"
    } else if str_eq(value, "gles2") {
        "GLES2"
    } else if str_eq(value, "egl") {
        "EGL"
    } else if str_eq(value, "glx") {
        "GLX"
    } else if str_eq(value, "wgl") {
        "WGL"
    } else if str_eq(value, "vk") || str_eq(value, "vulkan") {
        "Vulkan"
    } else {
        value
    };
    t.to_owned()
}

// ---------------------------------------------------------------------------
// MAX_ENUM sentinel names
// ---------------------------------------------------------------------------

/// A `_` goes before position `i` of `cs`: an uppercase letter preceded by
/// a lowercase letter or digit, or closing an acronym (preceded by an
/// uppercase letter and followed by a lowercase one).
pub open spec fn splits_before(cs: Seq<char>, i: int) -> bool {
    &&& 0 < i < cs.len()
    &&& is_upper(cs[i])
    &&& (is_lower(cs[i - 1]) || is_digit(cs[i - 1]) || (is_upper(cs[i - 1]) && i + 1 < cs.len()
        && is_lower(cs[i + 1])))
}

/// SCREAMING_SNAKE_CASE of the first `n` characters of `cs`.
pub open spec fn snake_prefix(cs: Seq<char>, n: int) -> Seq<char>
    decreases n,
{
    if n <= 0 {
        Seq::empty()
    } else {
        let head = snake_prefix(cs, n - 1);
        let head = if splits_before(cs, n - 1) {
            head.push('_')
        } else {
            head
        };
        head.push(crate::text::to_ascii_upper(cs[n - 1]))
    }
}

/// The MAX_ENUM sentinel for a CamelCase Vulkan type name:
/// `VkDriverId` → `VK_DRIVER_ID_MAX_ENUM`.
pub open spec fn enum_max_text(name: Seq<char>) -> Seq<char> {
    snake_prefix(name, name.len() as int) + "_MAX_ENUM"@
}

/// Convert a CamelCase Vulkan type name to its SCREAMING_SNAKE_CASE MAX_ENUM
/// sentinel name.  e.g. `VkDriverId` → `VK_DRIVER_ID_MAX_ENUM`.
///
/// Rule: insert `_` before any uppercase letter that is either:
///   - preceded by a lowercase letter or digit  (e.g. Driver→_Driver)
///   - preceded by an uppercase letter AND followed by a lowercase letter
///     (handles acronyms: `VkEGL` → `VK_EGL`, not `VK_E_G_L`)
pub fn filter_enum_max_name(value: &str) -> (r: String)
    ensures
        r@ == enum_max_text(value@),
{
    let cs = chars_of(value);
    let n = cs.len();
    let mut out: Vec<char> = Vec::new();
    let mut i: usize = 0;
    while i < n
        invariant
            i <= n == cs@.len(),
            out@ == snake_prefix(cs@, i as int),
        decreases n - i,
    {
        let c = cs[i];
        if i > 0 && crate::text::ascii_upper(c) {
            let prev = cs[i - 1];
            let split = crate::text::ascii_lower(prev) || ascii_digit(prev) || (
            crate::text::ascii_upper(prev) && i + 1 < n && crate::text::ascii_lower(cs[i + 1]));
            if split {
                out.push('_');
            }
        }
        if crate::text::ascii_lower(c) {
            let u: u8 = ((c as u32) - 32) as u8;
            out.push(u as char);
        } else {
            out.push(c);
        }
        i = i + 1;
    }
    push_str(&mut out, "_MAX_ENUM");
    assert(cs@ == value@);
    string_from_chars(out.as_slice())
}


/// The identifier filter never yields a name that starts with a digit, and
/// applying it again changes nothing.
pub proof fn lemma_c_ident_start(s: Seq<char>)
    ensures
        c_ident_text(s).len() == 0 || !is_digit(c_ident_text(s)[0]),
        c_ident_text(c_ident_text(s)) == c_ident_text(s),
{
}

} // verus!

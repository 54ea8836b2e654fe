//! GL loader emission policy: the Rust type and value expression of each
//! flat-enum constant.

use vstd::prelude::*;
use crate::generator::rust::vk_types::append;
use crate::text::{decimal, push_decimal};

use crate::generator::rust::vk_types::{strip_int_suffix, strip_int_suffix_end_of};
use crate::text::{chars_of, parse_u64_radix, parse_u64_spec, push_str, str_eq, string_between, string_from_chars, trim, trim_bounds};

verus! {

/// The type GL's polymorphic "special numbers" get by name.
pub open spec fn special_type(name: Seq<char>) -> Option<Seq<char>> {
    if name == "GL_TRUE"@ || name == "GL_FALSE"@ {
        Some("GLboolean"@)
    } else if name == "GL_TIMEOUT_IGNORED"@ || name == "GL_TIMEOUT_IGNORED_APPLE"@ {
        Some("GLuint64"@)
    } else if name == "GL_INVALID_INDEX"@ {
        Some("GLuint"@)
    } else {
        None
    }
}

/// Name-based typing overrides for GL's polymorphic "special numbers", whose
/// spec block carries no type: booleans must be passable to `GLboolean`
/// parameters, and the sentinels must match the parameter/return types they
/// are compared against (`GLuint64 timeout`, `GLuint` block indices).
pub fn special_const(name: &str, literal: &str) -> (r: Option<(String, String)>)
    ensures
        match special_type(name@) {
            Some(t) => r matches Some((a, b)) && a@ == t && b@ == trim(literal@),
            None => r is None,
        },
{
    let ty: &str = if str_eq(name, "GL_TRUE") || str_eq(name, "GL_FALSE") {
        "GLboolean"
    } else if str_eq(name, "GL_TIMEOUT_IGNORED") || str_eq(name, "GL_TIMEOUT_IGNORED_APPLE") {
        "GLuint64"
    } else if str_eq(name, "GL_INVALID_INDEX") {
        "GLuint"
    } else {
        return None;
    };
    let s = chars_of(literal);
    let (lo, hi) = trim_bounds(s.as_slice(), 0, s.len());
    assert(s@.subrange(0, s@.len() as int) =~= s@);
    Some((ty.to_owned(), string_between(s.as_slice(), lo, hi)))
}

/// The value of an unsigned literal body: hex after `0x`/`0X`, else decimal.
pub open spec fn literal_value(body: Seq<char>) -> Option<u64> {
    let r = if body.len() >= 2 && body[0] == '0' && (body[1] == 'x' || body[1] == 'X') {
        parse_u64_spec(body.subrange(2, body.len() as int), 16)
    } else {
        parse_u64_spec(body, 10)
    };
    match r {
        Ok(v) => Some(v),
        Err(_) => None,
    }
}

/// The `(rust_type, value_expr)` of a flat-enum literal: negatives are
/// `GLint`, values above `u32::MAX` are `u64`, the rest `GLbitfield(..)` in
/// a bitmask block and `GLenum(..)` otherwise; `None` when the literal is
/// not a number.
pub open spec fn classified(literal: Seq<char>, is_bitmask: bool) -> Option<(Seq<char>, Seq<char>)> {
    let s = strip_int_suffix(trim(literal));
    let neg = s.len() > 0 && s[0] == '-';
    let body = if neg { s.drop_first() } else { s };
    if s.len() == 0 {
        None
    } else {
        match literal_value(body) {
            None => None,
            Some(v) => if neg {
                Some(("GLint"@, s))
            } else if v > u32::MAX {
                Some(("u64"@, s))
            } else if is_bitmask {
                Some(("GLbitfield"@, "GLbitfield("@ + s + ")"@))
            } else {
                Some(("GLenum"@, "GLenum("@ + s + ")"@))
            },
        }
    }
}

/// Parse `s[a..b]` as an unsigned literal body.
fn literal_value_of(s: &[char], a: usize, b: usize) -> (r: Option<u64>)
    requires
        a <= b <= s@.len(),
    ensures
        r == literal_value(s@.subrange(a as int, b as int)),
{
    let ghost body = s@.subrange(a as int, b as int);
    let r = if b - a >= 2 && s[a] == '0' && (s[a + 1] == 'x' || s[a + 1] == 'X') {
        assert(body.subrange(2, body.len() as int) =~= s@.subrange(a + 2, b as int));
        parse_u64_radix(s, a + 2, b, 16)
    } else {
        parse_u64_radix(s, a, b, 10)
    };
    match r {
        Ok(v) => Some(v),
        Err(_) => None,
    }
}

/// `prefix(` + `s[a..b]` + `)`.
fn wrapped(prefix: &str, s: &[char], a: usize, b: usize) -> (r: String)
    requires
        a <= b <= s@.len(),
    ensures
        r@ == prefix@ + seq!['('] + s@.subrange(a as int, b as int) + seq![')'],
{
    let mut out: Vec<char> = Vec::new();
    push_str(&mut out, prefix);
    out.push('(');
    let mut body = crate::text::slice_of(s, a, b);
    out.append(&mut body);
    out.push(')');
    string_from_chars(out.as_slice())
}

/// Classify a flat-enum literal into `(rust_type, value_expr)`.  Values that
/// fit `u32` become `GLenum` newtype constants — or `GLbitfield` when the
/// spec defined them in a `<enums type="bitmask">` block, so `GL_*_BIT`
/// constants pass directly to `GLbitfield` parameters and combine with `|`.
/// Wider values fall back to `u64`, negatives to `GLint`.
pub fn classify_const(literal: &str, is_bitmask: bool) -> (r: Option<(String, String)>)
    ensures
        match classified(literal@, is_bitmask) {
            Some((t, e)) => r matches Some((a, b)) && a@ == t && b@ == e,
            None => r is None,
        },
{
    let c = chars_of(literal);
    let (lo, hi0) = trim_bounds(c.as_slice(), 0, c.len());
    assert(c@.subrange(0, c@.len() as int) =~= c@);
    let hi = strip_int_suffix_end_of(c.as_slice(), lo, hi0);
    let ghost s = c@.subrange(lo as int, hi as int);
    assert(s == strip_int_suffix(trim(literal@)));
    if hi == lo {
        return None;
    }
    let neg = c[lo] == '-';
    let a = if neg { lo + 1 } else { lo };
    proof {
        assert(s[0] == c@[lo as int]);
        if neg {
            assert(s.drop_first() =~= c@.subrange(a as int, hi as int));
        }
    }
    let v = match literal_value_of(c.as_slice(), a, hi) {
        None => return None,
        Some(v) => v,
    };
    proof {
        reveal_strlit("GLbitfield(");
        reveal_strlit("GLenum(");
        reveal_strlit("GLbitfield");
        reveal_strlit("GLenum");
        reveal_strlit(")");
    }
    if neg {
        Some(("GLint".to_owned(), string_between(c.as_slice(), lo, hi)))
    } else if v > 4294967295 {
        Some(("u64".to_owned(), string_between(c.as_slice(), lo, hi)))
    } else if is_bitmask {
        Some(("GLbitfield".to_owned(), wrapped("GLbitfield", c.as_slice(), lo, hi)))
    } else {
        Some(("GLenum".to_owned(), wrapped("GLenum", c.as_slice(), lo, hi)))
    }
}


/// The `detect_extensions` method of a GL context: with both
/// `glGetIntegerv` and `glGetStringi` in the build (their PFN slots `gi`
/// and `gsi`), it marks the extensions of the caller's subset that the
/// driver advertises; without them, a no-op.
pub open spec fn detect_text(gi: Option<u16>, gsi: Option<u16>) -> Seq<char> {
    match (gi, gsi) {
        (Some(a), Some(b)) => "\n    /// # Safety: the loaded entry points must be callable.\n\
                 \x20   unsafe fn detect_extensions(&mut self, subset: &[u16]) {\n\
                 \x20       if self.pfns["@ + decimal(a as nat) + "].is_null() || self.pfns["@ + decimal(b as nat) + "].is_null() {\n\
                 \x20           return;\n\
                 \x20       }\n\
                 \x20       let mut seen = [false; EXT_COUNT];\n\
                 \x20       let mut n: GLint = 0;\n\
                 \x20       unsafe { self.GetIntegerv(GL_NUM_EXTENSIONS, &mut n) };\n\
                 \x20       let mut i: GLuint = 0;\n\
                 \x20       while (i as GLint) < n {\n\
                 \x20           let name = unsafe { self.GetStringi(GL_EXTENSIONS, i) };\n\
                 \x20           if !name.is_null() {\n\
                 \x20               let h = unsafe { __ext_hash(name) };\n\
                 \x20               if let Ok(pos) = EXT_HASH_KEYS.binary_search(&h) {\n\
                 \x20                   seen[EXT_HASH_IDX[pos] as usize] = true;\n\
                 \x20               }\n\
                 \x20           }\n\
                 \x20           i += 1;\n\
                 \x20       }\n\
                 \x20       // Only this API's subset: the extension flags an API never\n\
                 \x20       // declared stay false even if the driver advertises the name.\n\
                 \x20       for &idx in subset {\n\
                 \x20           self.ext[idx as usize] = seen[idx as usize];\n\
                 \x20       }\n\
                 \x20   }\n"@,
        _ => "\n    /// Extension detection unavailable (glGetIntegerv/glGetStringi\n\
                 \x20   /// absent from this build).\n\
                 \x20   unsafe fn detect_extensions(&mut self, _subset: &[u16]) {}\n"@,
    }
}

/// Emit the `detect_extensions` method.
pub fn emit_detect(s: &mut String, idx_gi: Option<u16>, idx_gsi: Option<u16>)
    ensures
        final(s)@ == old(s)@ + detect_text(idx_gi, idx_gsi),
{
    match (idx_gi, idx_gsi) {
        (Some(gi), Some(gsi)) => {
            let mut out: Vec<char> = Vec::new();
            push_str(&mut out, "\n    /// # Safety: the loaded entry points must be callable.\n\
                 \x20   unsafe fn detect_extensions(&mut self, subset: &[u16]) {\n\
                 \x20       if self.pfns[");
            push_decimal(&mut out, gi as u64);
            push_str(&mut out, "].is_null() || self.pfns[");
            push_decimal(&mut out, gsi as u64);
            push_str(&mut out, "].is_null() {\n\
                 \x20           return;\n\
                 \x20       }\n\
                 \x20       let mut seen = [false; EXT_COUNT];\n\
                 \x20       let mut n: GLint = 0;\n\
                 \x20       unsafe { self.GetIntegerv(GL_NUM_EXTENSIONS, &mut n) };\n\
                 \x20       let mut i: GLuint = 0;\n\
                 \x20       while (i as GLint) < n {\n\
                 \x20           let name = unsafe { self.GetStringi(GL_EXTENSIONS, i) };\n\
                 \x20           if !name.is_null() {\n\
                 \x20               let h = unsafe { __ext_hash(name) };\n\
                 \x20               if let Ok(pos) = EXT_HASH_KEYS.binary_search(&h) {\n\
                 \x20                   seen[EXT_HASH_IDX[pos] as usize] = true;\n\
                 \x20               }\n\
                 \x20           }\n\
                 \x20           i += 1;\n\
                 \x20       }\n\
                 \x20       // Only this API's subset: the extension flags an API never\n\
                 \x20       // declared stay false even if the driver advertises the name.\n\
                 \x20       for &idx in subset {\n\
                 \x20           self.ext[idx as usize] = seen[idx as usize];\n\
                 \x20       }\n\
                 \x20   }\n");
            let text = string_from_chars(out.as_slice());
            append(s, text.as_str());
        },
        _ => append(s, "\n    /// Extension detection unavailable (glGetIntegerv/glGetStringi\n\
                 \x20   /// absent from this build).\n\
                 \x20   unsafe fn detect_extensions(&mut self, _subset: &[u16]) {}\n"),
    }
}

} // verus!

//! Spec-agnostic emission helpers shared by the per-spec loader modules:
//! pre-baked extension hashes and presence-query method names.

use vstd::prelude::*;
use crate::generator::rust::vk_types::append;

use crate::generator::c::c_ident_text;
use crate::text::{
    chars_of, is_digit, parse_u64_radix, parse_u64_spec, push_str, string_from_chars, trim,
    trim_bounds,
};

verus! {

/// An ASCII hex digit.
pub open spec fn is_hex_digit(c: char) -> bool {
    is_digit(c) || ('a' <= c && c <= 'f') || ('A' <= c && c <= 'F')
}

/// End of the run of hex digits of `s` from `a`.
pub open spec fn hex_end(s: Seq<char>, a: int) -> int
    decreases s.len() - a,
{
    if 0 <= a < s.len() && is_hex_digit(s[a]) {
        hex_end(s, a + 1)
    } else {
        a
    }
}

/// `t` without a leading `0x` or `0X`.
pub open spec fn strip_hex_prefix(t: Seq<char>) -> Seq<char> {
    if t.len() >= 2 && t[0] == '0' && (t[1] == 'x' || t[1] == 'X') {
        t.subrange(2, t.len() as int)
    } else {
        t
    }
}

/// The value of a pre-baked hash literal: the hex digits after an optional
/// `0x`, read in base 16; zero when there are none or they overflow.
pub open spec fn hash_value(literal: Seq<char>) -> u64 {
    let h = strip_hex_prefix(trim(literal));
    match parse_u64_spec(h.subrange(0, hex_end(h, 0)), 16) {
        Ok(v) => v,
        Err(_) => 0,
    }
}

/// Parse a pre-baked hash literal (`"0x…"`, as the resolver stores in
/// `Extension.hash`) into a `u64`.
pub fn parse_hash(literal: &str) -> (r: u64)
    ensures
        r == hash_value(literal@),
{
    let s = chars_of(literal);
    let (lo, hi) = trim_bounds(s.as_slice(), 0, s.len());
    assert(s@.subrange(0, s@.len() as int) =~= s@);
    let ghost t = s@.subrange(lo as int, hi as int);
    let a = if hi - lo >= 2 && s[lo] == '0' && (s[lo + 1] == 'x' || s[lo + 1] == 'X') {
        lo + 2
    } else {
        lo
    };
    let ghost h = s@.subrange(a as int, hi as int);
    assert(h =~= strip_hex_prefix(t));
    let mut e = a;
    while e < hi && (crate::text::ascii_digit(s[e]) || (s[e] >= 'a' && s[e] <= 'f') || (s[e] >= 'A'
        && s[e] <= 'F'))
        invariant
            a <= e <= hi <= s@.len(),
            h == s@.subrange(a as int, hi as int),
            hex_end(h, 0) == hex_end(h, e - a),
        decreases hi - e,
    {
        assert(h[e - a] == s@[e as int]);
        e = e + 1;
    }
    assert(e == hi || !is_hex_digit(h[e - a]));
    assert(h.subrange(0, e - a) =~= s@.subrange(a as int, e as int));
    match parse_u64_radix(s.as_slice(), a, e, 16) {
        Ok(v) => v,
        Err(_) => 0,
    }
}

/// Method name for an extension presence query: the short name, `_`-prefixed
/// if it would otherwise start with a digit (e.g. `3DFX_multisample`).
pub fn method_name(short: &str) -> (r: String)
    ensures
        r@ == c_ident_text(short@),
{
    let s = chars_of(short);
    if s.len() > 0 && crate::text::ascii_digit(s[0]) {
        let mut out: Vec<char> = Vec::new();
        out.push('_');
        push_str(&mut out, short);
        string_from_chars(out.as_slice())
    } else {
        short.to_owned()
    }
}


/// The `resolve_aliases` method: propagate each loaded pointer to its
/// unloaded alias slot, or an empty body when the build has no alias
/// pairs (so the load flow can call it unconditionally).
pub open spec fn resolve_aliases_text(has_alias: bool) -> Seq<char> {
    if has_alias {
        "\n    /// Propagate each loaded pointer to its unloaded alias slot.\n\
             \x20   fn resolve_aliases(&mut self) {\n\
             \x20       for &(ci, si) in ALIAS_PAIRS.iter() {\n\
             \x20           let (c, d) = (self.pfns[ci as usize], self.pfns[si as usize]);\n\
             \x20           if c.is_null() && !d.is_null() {\n\
             \x20               self.pfns[ci as usize] = d;\n\
             \x20           } else if !c.is_null() && d.is_null() {\n\
             \x20               self.pfns[si as usize] = c;\n\
             \x20           }\n\
             \x20       }\n\
             \x20   }\n"@
    } else {
        "\n    fn resolve_aliases(&mut self) {}\n"@
    }
}

/// Emit the `resolve_aliases` method.
pub fn emit_resolve_aliases_method(s: &mut String, has_alias: bool)
    ensures
        final(s)@ == old(s)@ + resolve_aliases_text(has_alias),
{
    if has_alias {
        append(s, "\n    /// Propagate each loaded pointer to its unloaded alias slot.\n\
             \x20   fn resolve_aliases(&mut self) {\n\
             \x20       for &(ci, si) in ALIAS_PAIRS.iter() {\n\
             \x20           let (c, d) = (self.pfns[ci as usize], self.pfns[si as usize]);\n\
             \x20           if c.is_null() && !d.is_null() {\n\
             \x20               self.pfns[ci as usize] = d;\n\
             \x20           } else if !c.is_null() && d.is_null() {\n\
             \x20               self.pfns[si as usize] = c;\n\
             \x20           }\n\
             \x20       }\n\
             \x20   }\n");
    } else {
        append(s, "\n    fn resolve_aliases(&mut self) {}\n");
    }
}

} // verus!

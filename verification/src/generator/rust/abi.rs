//! The type/ABI machinery shared by every spec's Rust emission: the ABI
//! scalar map, the C-condition → `cfg` map, and the `TypeRef` → Rust type
//! printer.

use vstd::prelude::*;

use crate::error::{Error, Fault};
use crate::parse::ctype::{TypeRef, TypeView};
use crate::ir::{names_contain, texts};
use crate::text::{chars_of, push_str, str_eq, string_from_chars};

verus! {

// ---------------------------------------------------------------------------
// ABI scalars
// ---------------------------------------------------------------------------

/// The Rust spelling of a C scalar or `khronos_*` alias, if `b` is one.
pub open spec fn abi_scalar_text(b: Seq<char>) -> Option<Seq<char>> {
    if b == "void"@ {
        Some("c_void"@)
    } else if b == "char"@ {
        Some("c_char"@)
    } else if b == "unsigned char"@ {
        Some("u8"@)
    } else if b == "short"@ {
        Some("i16"@)
    } else if b == "unsigned short"@ {
        Some("u16"@)
    } else if b == "int"@ {
        Some("i32"@)
    } else if b == "unsigned int"@ {
        Some("u32"@)
    } else if b == "float"@ {
        Some("f32"@)
    } else if b == "double"@ {
        Some("f64"@)
    } else if b == "long"@ {
        Some("isize"@)
    } else if b == "unsigned long"@ {
        Some("core::ffi::c_ulong"@)
    } else if b == "ptrdiff_t"@ || b == "intptr_t"@ || b == "ssize_t"@ {
        Some("isize"@)
    } else if b == "size_t"@ || b == "uintptr_t"@ {
        Some("usize"@)
    } else if b == "int8_t"@ || b == "khronos_int8_t"@ {
        Some("i8"@)
    } else if b == "uint8_t"@ || b == "khronos_uint8_t"@ {
        Some("u8"@)
    } else if b == "int16_t"@ || b == "khronos_int16_t"@ {
        Some("i16"@)
    } else if b == "uint16_t"@ || b == "khronos_uint16_t"@ {
        Some("u16"@)
    } else if b == "int32_t"@ || b == "khronos_int32_t"@ {
        Some("i32"@)
    } else if b == "uint32_t"@ || b == "khronos_uint32_t"@ {
        Some("u32"@)
    } else if b == "int64_t"@ || b == "khronos_int64_t"@ {
        Some("i64"@)
    } else if b == "uint64_t"@ || b == "khronos_uint64_t"@ {
        Some("u64"@)
    } else if b == "khronos_float_t"@ {
        Some("f32"@)
    } else if b == "khronos_intptr_t"@ || b == "khronos_ssize_t"@ {
        Some("isize"@)
    } else if b == "khronos_uintptr_t"@ || b == "khronos_usize_t"@ {
        Some("usize"@)
    } else if b == "khronos_utime_nanoseconds_t"@ {
        Some("u64"@)
    } else if b == "khronos_stime_nanoseconds_t"@ {
        Some("i64"@)
    } else {
        None
    }
}

/// The ABI table, pair by pair: each C scalar (and `khronos_*` alias)
/// maps to the Rust type of the same width and signedness (`double` to
/// `f64`, `unsigned short` to `u16`, `khronos_int64_t` to `i64`, ...; the
/// platform-sized ones to `isize`, `usize` and `c_ulong`), and no other
/// spelling is a scalar.
#[verifier::spinoff_prover]
#[verifier::rlimit(40)]
pub proof fn lemma_abi_scalar_table(b: Seq<char>)
    ensures
        abi_scalar_text("void"@) == Some("c_void"@),
        abi_scalar_text("char"@) == Some("c_char"@),
        abi_scalar_text("unsigned char"@) == Some("u8"@),
        abi_scalar_text("short"@) == Some("i16"@),
        abi_scalar_text("unsigned short"@) == Some("u16"@),
        abi_scalar_text("int"@) == Some("i32"@),
        abi_scalar_text("unsigned int"@) == Some("u32"@),
        abi_scalar_text("float"@) == Some("f32"@),
        abi_scalar_text("double"@) == Some("f64"@),
        abi_scalar_text("long"@) == Some("isize"@),
        abi_scalar_text("unsigned long"@) == Some("core::ffi::c_ulong"@),
        abi_scalar_text("ptrdiff_t"@) == Some("isize"@),
        abi_scalar_text("intptr_t"@) == Some("isize"@),
        abi_scalar_text("ssize_t"@) == Some("isize"@),
        abi_scalar_text("size_t"@) == Some("usize"@),
        abi_scalar_text("uintptr_t"@) == Some("usize"@),
        abi_scalar_text("int8_t"@) == Some("i8"@),
        abi_scalar_text("khronos_int8_t"@) == Some("i8"@),
        abi_scalar_text("uint8_t"@) == Some("u8"@),
        abi_scalar_text("khronos_uint8_t"@) == Some("u8"@),
        abi_scalar_text("int16_t"@) == Some("i16"@),
        abi_scalar_text("khronos_int16_t"@) == Some("i16"@),
        abi_scalar_text("uint16_t"@) == Some("u16"@),
        abi_scalar_text("khronos_uint16_t"@) == Some("u16"@),
        abi_scalar_text("int32_t"@) == Some("i32"@),
        abi_scalar_text("khronos_int32_t"@) == Some("i32"@),
        abi_scalar_text("uint32_t"@) == Some("u32"@),
        abi_scalar_text("khronos_uint32_t"@) == Some("u32"@),
        abi_scalar_text("int64_t"@) == Some("i64"@),
        abi_scalar_text("khronos_int64_t"@) == Some("i64"@),
        abi_scalar_text("uint64_t"@) == Some("u64"@),
        abi_scalar_text("khronos_uint64_t"@) == Some("u64"@),
        abi_scalar_text("khronos_float_t"@) == Some("f32"@),
        abi_scalar_text("khronos_intptr_t"@) == Some("isize"@),
        abi_scalar_text("khronos_ssize_t"@) == Some("isize"@),
        abi_scalar_text("khronos_uintptr_t"@) == Some("usize"@),
        abi_scalar_text("khronos_usize_t"@) == Some("usize"@),
        abi_scalar_text("khronos_utime_nanoseconds_t"@) == Some("u64"@),
        abi_scalar_text("khronos_stime_nanoseconds_t"@) == Some("i64"@),
        abi_scalar_text(b) is Some ==> (b == "void"@ || b == "char"@ || b == "unsigned char"@ || b == "short"@ || b == "unsigned short"@ || b == "int"@ || b == "unsigned int"@ || b == "float"@ || b == "double"@ || b == "long"@ || b == "unsigned long"@ || b == "ptrdiff_t"@ || b == "intptr_t"@ || b == "ssize_t"@ || b == "size_t"@ || b == "uintptr_t"@ || b == "int8_t"@ || b == "khronos_int8_t"@ || b == "uint8_t"@ || b == "khronos_uint8_t"@ || b == "int16_t"@ || b == "khronos_int16_t"@ || b == "uint16_t"@ || b == "khronos_uint16_t"@ || b == "int32_t"@ || b == "khronos_int32_t"@ || b == "uint32_t"@ || b == "khronos_uint32_t"@ || b == "int64_t"@ || b == "khronos_int64_t"@ || b == "uint64_t"@ || b == "khronos_uint64_t"@ || b == "khronos_float_t"@ || b == "khronos_intptr_t"@ || b == "khronos_ssize_t"@ || b == "khronos_uintptr_t"@ || b == "khronos_usize_t"@ || b == "khronos_utime_nanoseconds_t"@ || b == "khronos_stime_nanoseconds_t"@),
{
    reveal_strlit("void");
    assert("void"@.len() == 4);
    reveal_strlit("char");
    assert("char"@.len() == 4);
    reveal_strlit("unsigned char");
    assert("unsigned char"@.len() == 13);
    reveal_strlit("short");
    assert("short"@.len() == 5);
    reveal_strlit("unsigned short");
    assert("unsigned short"@.len() == 14);
    reveal_strlit("int");
    assert("int"@.len() == 3);
    reveal_strlit("unsigned int");
    assert("unsigned int"@.len() == 12);
    reveal_strlit("float");
    assert("float"@.len() == 5);
    reveal_strlit("double");
    assert("double"@.len() == 6);
    reveal_strlit("long");
    assert("long"@.len() == 4);
    reveal_strlit("unsigned long");
    assert("unsigned long"@.len() == 13);
    reveal_strlit("ptrdiff_t");
    assert("ptrdiff_t"@.len() == 9);
    reveal_strlit("intptr_t");
    assert("intptr_t"@.len() == 8);
    reveal_strlit("ssize_t");
    assert("ssize_t"@.len() == 7);
    reveal_strlit("size_t");
    assert("size_t"@.len() == 6);
    reveal_strlit("uintptr_t");
    assert("uintptr_t"@.len() == 9);
    reveal_strlit("int8_t");
    assert("int8_t"@.len() == 6);
    reveal_strlit("khronos_int8_t");
    assert("khronos_int8_t"@.len() == 14);
    reveal_strlit("uint8_t");
    assert("uint8_t"@.len() == 7);
    reveal_strlit("khronos_uint8_t");
    assert("khronos_uint8_t"@.len() == 15);
    reveal_strlit("int16_t");
    assert("int16_t"@.len() == 7);
    reveal_strlit("khronos_int16_t");
    assert("khronos_int16_t"@.len() == 15);
    reveal_strlit("uint16_t");
    assert("uint16_t"@.len() == 8);
    reveal_strlit("khronos_uint16_t");
    assert("khronos_uint16_t"@.len() == 16);
    reveal_strlit("int32_t");
    assert("int32_t"@.len() == 7);
    reveal_strlit("khronos_int32_t");
    assert("khronos_int32_t"@.len() == 15);
    reveal_strlit("uint32_t");
    assert("uint32_t"@.len() == 8);
    reveal_strlit("khronos_uint32_t");
    assert("khronos_uint32_t"@.len() == 16);
    reveal_strlit("int64_t");
    assert("int64_t"@.len() == 7);
    reveal_strlit("khronos_int64_t");
    assert("khronos_int64_t"@.len() == 15);
    reveal_strlit("uint64_t");
    assert("uint64_t"@.len() == 8);
    reveal_strlit("khronos_uint64_t");
    assert("khronos_uint64_t"@.len() == 16);
    reveal_strlit("khronos_float_t");
    assert("khronos_float_t"@.len() == 15);
    reveal_strlit("khronos_intptr_t");
    assert("khronos_intptr_t"@.len() == 16);
    reveal_strlit("khronos_ssize_t");
    assert("khronos_ssize_t"@.len() == 15);
    reveal_strlit("khronos_uintptr_t");
    assert("khronos_uintptr_t"@.len() == 17);
    reveal_strlit("khronos_usize_t");
    assert("khronos_usize_t"@.len() == 15);
    reveal_strlit("khronos_utime_nanoseconds_t");
    assert("khronos_utime_nanoseconds_t"@.len() == 27);
    reveal_strlit("khronos_stime_nanoseconds_t");
    assert("khronos_stime_nanoseconds_t"@.len() == 27);
    assert("char"@[0] != "void"@[0]);
    assert("float"@[0] != "short"@[0]);
    assert("long"@[0] != "void"@[0]);
    assert("long"@[0] != "char"@[0]);
    assert("unsigned long"@[9] != "unsigned char"@[9]);
    assert("size_t"@[0] != "double"@[0]);
    assert("uintptr_t"@[0] != "ptrdiff_t"@[0]);
    assert("int8_t"@[0] != "double"@[0]);
    assert("int8_t"@[0] != "size_t"@[0]);
    assert("khronos_int8_t"@[0] != "unsigned short"@[0]);
    assert("uint8_t"@[0] != "ssize_t"@[0]);
    assert("int16_t"@[0] != "ssize_t"@[0]);
    assert("int16_t"@[0] != "uint8_t"@[0]);
    assert("khronos_int16_t"@[8] != "khronos_uint8_t"@[8]);
    assert("uint16_t"@[0] != "intptr_t"@[0]);
    assert("int32_t"@[0] != "ssize_t"@[0]);
    assert("int32_t"@[0] != "uint8_t"@[0]);
    assert("int32_t"@[3] != "int16_t"@[3]);
    assert("khronos_int32_t"@[8] != "khronos_uint8_t"@[8]);
    assert("khronos_int32_t"@[11] != "khronos_int16_t"@[11]);
    assert("uint32_t"@[0] != "intptr_t"@[0]);
    assert("uint32_t"@[4] != "uint16_t"@[4]);
    assert("khronos_uint32_t"@[12] != "khronos_uint16_t"@[12]);
    assert("int64_t"@[0] != "ssize_t"@[0]);
    assert("int64_t"@[0] != "uint8_t"@[0]);
    assert("int64_t"@[3] != "int16_t"@[3]);
    assert("int64_t"@[3] != "int32_t"@[3]);
    assert("khronos_int64_t"@[8] != "khronos_uint8_t"@[8]);
    assert("khronos_int64_t"@[11] != "khronos_int16_t"@[11]);
    assert("khronos_int64_t"@[11] != "khronos_int32_t"@[11]);
    assert("uint64_t"@[0] != "intptr_t"@[0]);
    assert("uint64_t"@[4] != "uint16_t"@[4]);
    assert("uint64_t"@[4] != "uint32_t"@[4]);
    assert("khronos_uint64_t"@[12] != "khronos_uint16_t"@[12]);
    assert("khronos_uint64_t"@[12] != "khronos_uint32_t"@[12]);
    assert("khronos_float_t"@[8] != "khronos_uint8_t"@[8]);
    assert("khronos_float_t"@[8] != "khronos_int16_t"@[8]);
    assert("khronos_float_t"@[8] != "khronos_int32_t"@[8]);
    assert("khronos_float_t"@[8] != "khronos_int64_t"@[8]);
    assert("khronos_intptr_t"@[8] != "khronos_uint16_t"@[8]);
    assert("khronos_intptr_t"@[8] != "khronos_uint32_t"@[8]);
    assert("khronos_intptr_t"@[8] != "khronos_uint64_t"@[8]);
    assert("khronos_ssize_t"@[8] != "khronos_uint8_t"@[8]);
    assert("khronos_ssize_t"@[8] != "khronos_int16_t"@[8]);
    assert("khronos_ssize_t"@[8] != "khronos_int32_t"@[8]);
    assert("khronos_ssize_t"@[8] != "khronos_int64_t"@[8]);
    assert("khronos_ssize_t"@[8] != "khronos_float_t"@[8]);
    assert("khronos_usize_t"@[9] != "khronos_uint8_t"@[9]);
    assert("khronos_usize_t"@[8] != "khronos_int16_t"@[8]);
    assert("khronos_usize_t"@[8] != "khronos_int32_t"@[8]);
    assert("khronos_usize_t"@[8] != "khronos_int64_t"@[8]);
    assert("khronos_usize_t"@[8] != "khronos_float_t"@[8]);
    assert("khronos_usize_t"@[8] != "khronos_ssize_t"@[8]);
    assert("khronos_stime_nanoseconds_t"@[8] != "khronos_utime_nanoseconds_t"@[8]);
}

/// ABI map: C scalar spellings — and the `khronos_*` aliases, whose
/// definitions live in khrplatform.h, outside any registry — to Rust.  This
/// is the one deliberately hand-maintained table: it encodes platform-ABI
/// facts no XML records.
pub fn abi_scalar(base: &str) -> (r: Option<&'static str>)
    ensures
        match abi_scalar_text(base@) {
            Some(t) => r matches Some(s) && s@ == t,
            None => r is None,
        },
{
    let b = base;
    let t: &'static str = if str_eq(b, "void") {
        "c_void"
    } else if str_eq(b, "char") {
        "c_char"
    } else if str_eq(b, "unsigned char") {
        "u8"
    } else if str_eq(b, "short") {
        "i16"
    } else if str_eq(b, "unsigned short") {
        "u16"
    } else if str_eq(b, "int") {
        "i32"
    } else if str_eq(b, "unsigned int") {
        "u32"
    } else if str_eq(b, "float") {
        "f32"
    } else if str_eq(b, "double") {
        "f64"
    } else if str_eq(b, "long") {
        "isize"
    } else if str_eq(b, "unsigned long") {
        "core::ffi::c_ulong"
    } else if str_eq(b, "ptrdiff_t") || str_eq(b, "intptr_t") || str_eq(b, "ssize_t") {
        "isize"
    } else if str_eq(b, "size_t") || str_eq(b, "uintptr_t") {
        "usize"
    } else if str_eq(b, "int8_t") || str_eq(b, "khronos_int8_t") {
        "i8"
    } else if str_eq(b, "uint8_t") || str_eq(b, "khronos_uint8_t") {
        "u8"
    } else if str_eq(b, "int16_t") || str_eq(b, "khronos_int16_t") {
        "i16"
    } else if str_eq(b, "uint16_t") || str_eq(b, "khronos_uint16_t") {
        "u16"
    } else if str_eq(b, "int32_t") || str_eq(b, "khronos_int32_t") {
        "i32"
    } else if str_eq(b, "uint32_t") || str_eq(b, "khronos_uint32_t") {
        "u32"
    } else if str_eq(b, "int64_t") || str_eq(b, "khronos_int64_t") {
        "i64"
    } else if str_eq(b, "uint64_t") || str_eq(b, "khronos_uint64_t") {
        "u64"
    } else if str_eq(b, "khronos_float_t") {
        "f32"
    } else if str_eq(b, "khronos_intptr_t") || str_eq(b, "khronos_ssize_t") {
        "isize"
    } else if str_eq(b, "khronos_uintptr_t") || str_eq(b, "khronos_usize_t") {
        "usize"
    } else if str_eq(b, "khronos_utime_nanoseconds_t") {
        "u64"
    } else if str_eq(b, "khronos_stime_nanoseconds_t") {
        "i64"
    } else {
        return None;
    };
    Some(t)
}

// ---------------------------------------------------------------------------
// Preprocessor conditions
// ---------------------------------------------------------------------------

/// `needle` occurs in `s`.
pub open spec fn contains(s: Seq<char>, needle: Seq<char>) -> bool {
    exists|i: int| 0 <= i && i + needle.len() <= s.len() && #[trigger] s.subrange(i, i + needle.len()) == needle
}

/// The only conditions the registries use: Apple's.
pub open spec fn is_apple_condition(cond: Seq<char>) -> bool {
    cond == "defined(__APPLE__)"@ || contains(cond, "__ENVIRONMENT_MAC_OS_X_VERSION_MIN_REQUIRED__"@)
}

/// Whether `needle` occurs in `s`.
pub fn str_contains(s: &str, needle: &str) -> (r: bool)
    ensures
        r == contains(s@, needle@),
{
    let cs = chars_of(s);
    let n = cs.len();
    let m = needle.unicode_len();
    if m > n {
        return false;
    }
    let last = n - m;
    let mut i: usize = 0;
    loop
        invariant
            n == cs@.len(),
            cs@ == s@,
            m == needle@.len(),
            m <= n,
            last == n - m,
            i <= last,
            forall|k: int| 0 <= k < i ==> #[trigger] cs@.subrange(k, k + m) != needle@,
        decreases last - i,
    {
        if crate::text::range_eq(cs.as_slice(), i, i + m, needle) {
            assert(s@.subrange(i as int, i + needle@.len()) == needle@);
            return true;
        }
        if i == last {
            proof {
                assert forall|k: int| 0 <= k && k + needle@.len() <= s@.len() implies #[trigger] s@.subrange(
                    k,
                    k + needle@.len(),
                ) != needle@ by {
                    assert(k <= i);
                }
            }
            return false;
        }
        i = i + 1;
    }
}

/// Map a C preprocessor condition (from a conditional typedef arm) to a
/// Rust `cfg` predicate.  Only conditions that actually occur in the
/// registries are mapped; anything new is an error so it gets a deliberate
/// mapping instead of a silent mistranslation.
pub fn cond_to_cfg(cond: &str) -> (r: Result<&'static str, Error>)
    ensures
        is_apple_condition(cond@) ==> (r matches Ok(t) && t@ == "target_vendor = \"apple\""@),
        !is_apple_condition(cond@) ==> (r matches Err(e) && e@ == Fault::NoCfgMapping(cond@)),
{
    if str_eq(cond, "defined(__APPLE__)") || str_contains(
        cond,
        "__ENVIRONMENT_MAC_OS_X_VERSION_MIN_REQUIRED__",
    ) {
        Ok("target_vendor = \"apple\"")
    } else {
        Err(Error::NoCfgMapping { cond: cond.to_owned() })
    }
}

// ---------------------------------------------------------------------------
// Pointer layers
// ---------------------------------------------------------------------------

/// The Rust raw-pointer prefix for a pointee of the given constness.
pub open spec fn ptr_word(is_const: bool) -> Seq<char> {
    if is_const {
        "*const "@
    } else {
        "*mut "@
    }
}

/// Whether the thing pointer level `i` points at is const: the base for the
/// innermost level, else the next inner pointer.
pub open spec fn pointee_const(v: TypeView, i: int) -> bool {
    if i == 0 {
        v.base_const
    } else {
        v.pointers[i - 1]
    }
}

/// `t` wrapped in the first `n` pointer levels of `v`, innermost first.
pub open spec fn ptr_wrapped(t: Seq<char>, v: TypeView, n: int) -> Seq<char>
    decreases n,
{
    if n <= 0 {
        t
    } else {
        ptr_word(pointee_const(v, n - 1)) + ptr_wrapped(t, v, n - 1)
    }
}

/// The constness of the element an array parameter decays to a pointer of.
pub open spec fn elem_const(v: TypeView) -> bool {
    if v.pointers.len() == 0 {
        v.base_const
    } else {
        v.pointers.last()
    }
}

/// Prepend the raw-pointer prefix for a pointee of the given constness.
pub fn prepend_ptr(t: Vec<char>, is_const: bool) -> (r: Vec<char>)
    ensures
        r@ == ptr_word(is_const) + t@,
{
    let mut out: Vec<char> = Vec::new();
    push_str(&mut out, if is_const {
        "*const "
    } else {
        "*mut "
    });
    let mut t = t;
    out.append(&mut t);
    out
}

/// Wrap `t` in every pointer level of `ty`.
pub fn wrap_pointers(ty: &TypeRef, t: Vec<char>) -> (r: Vec<char>)
    ensures
        r@ == ptr_wrapped(t@, ty@, ty@.pointers.len() as int),
{
    let ghost t0 = t@;
    let mut t = t;
    let n = ty.pointers.len();
    let mut i: usize = 0;
    while i < n
        invariant
            i <= n == ty@.pointers.len(),
            t@ == ptr_wrapped(t0, ty@, i as int),
        decreases n - i,
    {
        let pc = if i == 0 {
            ty.base_const
        } else {
            ty.pointers[i - 1]
        };
        assert(pc == pointee_const(ty@, i as int));
        t = prepend_ptr(t, pc);
        i = i + 1;
    }
    t
}

/// The constness of the element an array parameter of `ty` decays to.
pub fn decay_const(ty: &TypeRef) -> (r: bool)
    ensures
        r == elem_const(ty@),
{
    if ty.pointers.len() == 0 {
        ty.base_const
    } else {
        ty.pointers[ty.pointers.len() - 1]
    }
}

// ---------------------------------------------------------------------------
// TypeRef → Rust
// ---------------------------------------------------------------------------

/// `t` wrapped in the array dimensions `dims[j..]`, the last dimension
/// innermost: `[[t; d2]; d1]` for `j == 1`.
pub open spec fn inner_dims(t: Seq<char>, dims: Seq<Seq<char>>, j: int) -> Seq<char>
    decreases dims.len() - j,
{
    if j < 0 || j >= dims.len() {
        t
    } else {
        "["@ + inner_dims(t, dims, j + 1) + "; "@ + dims[j] + "]"@
    }
}

/// The base name as the GL-family Rust printer spells it.
pub open spec fn gl_base_text(b: Seq<char>) -> Seq<char> {
    if b == "GLvoid"@ {
        "c_void"@
    } else {
        match abi_scalar_text(b) {
            Some(s) => s,
            None => b,
        }
    }
}

/// A declarator as a Rust type in a command signature: the mapped base,
/// the inner array dimensions as array layers, every pointer level with
/// per-level constness, and a final pointer for a decayed array parameter.
pub open spec fn rust_type_text(v: TypeView) -> Seq<char> {
    let t = ptr_wrapped(inner_dims(gl_base_text(v.base), v.array, 1), v, v.pointers.len() as int);
    if v.array.len() > 0 {
        ptr_word(elem_const(v)) + t
    } else {
        t
    }
}

/// A plain C scalar (no pointer, no array) prints as its Rust scalar: a
/// `double` parameter is an `f64`, a `float` an `f32`, an `unsigned short`
/// a `u16`, and so on through the ABI table.
pub proof fn lemma_plain_scalar_prints(v: TypeView)
    ensures
        v.pointers.len() == 0 && v.array.len() == 0 && v.base == "double"@ ==> rust_type_text(v) == "f64"@,
        v.pointers.len() == 0 && v.array.len() == 0 && v.base == "float"@ ==> rust_type_text(v) == "f32"@,
        v.pointers.len() == 0 && v.array.len() == 0 && v.base != "GLvoid"@ ==> match abi_scalar_text(v.base) {
            Some(r) => rust_type_text(v) == r,
            None => rust_type_text(v) == v.base,
        },
{
    lemma_abi_scalar_table(v.base);
    reveal_strlit("GLvoid");
    reveal_strlit("double");
    reveal_strlit("float");
    assert("double"@ != "GLvoid"@ && "float"@ != "GLvoid"@) by {
        assert("GLvoid"@.len() == 6);
        assert("double"@[0] != "GLvoid"@[0]);
        assert("float"@.len() == 5);
    }
}

/// Print a `TypeRef` (a parameter or return type) as a Rust type, relying
/// on the emitted base-type aliases and newtypes for the base name.  Pointer
/// mutability is per-level: each Rust pointer is `*const` exactly when the
/// thing it points at is const-qualified in the C declarator, so
/// `const GLchar *const*` prints `*const *const GLchar` while
/// `const GLcharARB **` prints `*mut *const GLcharARB`.
pub fn rust_type(ty: &TypeRef) -> (r: String)
    ensures
        r@ == rust_type_text(ty@),
{
    let base: &str = if str_eq(ty.base.as_str(), "GLvoid") {
        "c_void"
    } else {
        match abi_scalar(ty.base.as_str()) {
            Some(s) => s,
            None => ty.base.as_str(),
        }
    };
    let mut t = chars_of(base);
    let ghost b = t@;
    assert(b == gl_base_text(ty@.base));
    let dims = &ty.array;
    let mut k = dims.len();
    while k > 1
        invariant
            k <= dims@.len(),
            k >= 1 || dims@.len() == 0,
            ty@.array == dims@.map_values(|d: String| d@),
            t@ == inner_dims(b, ty@.array, k as int),
        decreases k,
    {
        k = k - 1;
        let mut nt: Vec<char> = Vec::new();
        nt.push('[');
        nt.append(&mut t);
        push_str(&mut nt, "; ");
        push_str(&mut nt, dims[k].as_str());
        nt.push(']');
        proof {
            reveal_strlit("; ");
            reveal_strlit("[");
            reveal_strlit("]");
            assert(ty@.array[k as int] == dims@[k as int]@);
            assert(nt@ =~= "["@ + inner_dims(b, ty@.array, k + 1) + "; "@ + ty@.array[k as int] + "]"@);
        }
        t = nt;
    }
    proof {
        if dims@.len() == 0 {
            assert(inner_dims(b, ty@.array, k as int) == b);
        }
    }
    assert(t@ == inner_dims(b, ty@.array, 1));
    let mut t = wrap_pointers(ty, t);
    if dims.len() > 0 {
        let ec = decay_const(ty);
        t = prepend_ptr(t, ec);
    }
    string_from_chars(t.as_slice())
}

// ---------------------------------------------------------------------------
// Identifiers
// ---------------------------------------------------------------------------

/// Rust keywords that occur as GL parameter names.
pub open spec fn is_rust_keyword(n: Seq<char>) -> bool {
    n == "type"@ || n == "ref"@ || n == "in"@ || n == "fn"@ || n == "match"@ || n == "box"@ || n
        == "move"@ || n == "become"@ || n == "final"@ || n == "override"@ || n == "priv"@ || n
        == "as"@ || n == "loop"@ || n == "self"@ || n == "async"@ || n == "await"@ || n == "dyn"@
}

/// Append `_` to Rust keywords used as GL parameter names (`type`, `ref`, ...).
pub fn sanitize_ident(name: &str) -> (r: String)
    ensures
        r@ == (if is_rust_keyword(name@) {
            name@.push('_')
        } else {
            name@
        }),
{
    let n = name;
    if str_eq(n, "type") || str_eq(n, "ref") || str_eq(n, "in") || str_eq(n, "fn") || str_eq(
        n,
        "match",
    ) || str_eq(n, "box") || str_eq(n, "move") || str_eq(n, "become") || str_eq(n, "final")
        || str_eq(n, "override") || str_eq(n, "priv") || str_eq(n, "as") || str_eq(n, "loop")
        || str_eq(n, "self") || str_eq(n, "async") || str_eq(n, "await") || str_eq(n, "dyn") {
        let mut out = chars_of(name);
        out.push('_');
        string_from_chars(out.as_slice())
    } else {
        name.to_owned()
    }
}


// ---------------------------------------------------------------------------
// Typedef targets
// ---------------------------------------------------------------------------

/// Which spec's platform-type table a sweep consults.
#[derive(Clone, Copy, Debug)]
pub enum PlatformTable {
    Vk,
    Wgl,
    Glx,
    Egl,
}

/// The declaration a table gives `name`.
pub open spec fn table_decl(t: PlatformTable, name: Seq<char>) -> Option<Seq<char>> {
    match t {
        PlatformTable::Vk => crate::generator::rust::vk_types::platform_decl_text(name),
        PlatformTable::Wgl => crate::generator::rust::wgl_loader::wgl_decl_text(name),
        PlatformTable::Glx => crate::generator::rust::glx_loader::glx_decl_text(name),
        PlatformTable::Egl => crate::generator::rust::egl_loader::egl_decl_text(name),
    }
}

impl PlatformTable {
    /// The declaration this table gives `name`, if any.
    pub fn decl(self, name: &str) -> (r: Option<&'static str>)
        ensures
            match table_decl(self, name@) {
                Some(t) => r matches Some(s) && s@ == t,
                None => r is None,
            },
    {
        match self {
            PlatformTable::Vk => crate::generator::rust::vk_types::platform_type_decl(name),
            PlatformTable::Wgl => crate::generator::rust::wgl_loader::wgl_platform_decl(name),
            PlatformTable::Glx => crate::generator::rust::glx_loader::glx_platform_decl(name),
            PlatformTable::Egl => crate::generator::rust::egl_loader::egl_platform_decl(name),
        }
    }
}

/// `s` with `x` added at its end unless it holds it already (an
/// insertion-ordered set).
pub open spec fn set_insert(s: Seq<Seq<char>>, x: Seq<char>) -> Seq<Seq<char>> {
    if s.contains(x) {
        s
    } else {
        s.push(x)
    }
}

/// Collects the platform-table names a spec's emission references, so
/// only the used declarations get emitted.
pub struct PlatformSweep {
    pub table: PlatformTable,
    /// The names recorded so far, each once, in first-use order.
    pub used: Vec<String>,
}

impl PlatformSweep {
    /// Record `name` if the table declares it; whether it does.
    pub fn record(&mut self, name: &str) -> (r: bool)
        ensures
            r == (table_decl(old(self).table, name@) is Some),
            final(self).table == old(self).table,
            texts(final(self).used) == if r {
                set_insert(texts(old(self).used), name@)
            } else {
                texts(old(self).used)
            },
    {
        if self.table.decl(name).is_some() {
            if !names_contain(&self.used, name) {
                let ghost before = texts(self.used);
                self.used.push(name.to_owned());
                assert(texts(self.used) =~= before.push(name@));
            }
            true
        } else {
            false
        }
    }
}

/// The Rust target type of a typedef's declarator: a `struct`-keyword
/// base names itself (an incomplete struct the module does not define is
/// added to `opaque`, to get a zero-sized declaration); otherwise an ABI
/// scalar's Rust name, or a base the module defines or the platform table
/// declares (then recorded); wrapped in the declarator's pointers.
pub open spec fn target_base(v: TypeView, defined: Seq<Seq<char>>, table: PlatformTable) -> Option<Seq<char>> {
    if v.struct_kw {
        Some(v.base)
    } else if abi_scalar_text(v.base) is Some {
        abi_scalar_text(v.base)
    } else if defined.contains(v.base) || table_decl(table, v.base) is Some {
        Some(v.base)
    } else {
        None
    }
}

/// Map a typedef's declarator to its Rust target type.  `defined` holds
/// the names the module defines; `opaque` collects `struct`-keyword bases
/// that need an opaque declaration; `platform` records the platform types
/// used.
pub fn rust_target_type(ty: &TypeRef, defined: &Vec<String>, opaque: &mut Vec<String>, platform: &mut PlatformSweep) -> (r:
    Result<String, Error>)
    ensures
        final(platform).table == old(platform).table,
        match target_base(ty@, texts(*defined), old(platform).table) {
            Some(b) => r matches Ok(t) && t@ == ptr_wrapped(b, ty@, ty@.pointers.len() as int),
            None => r matches Err(e) && e@ == Fault::TypedefTarget(ty@.base),
        },
        texts(*final(opaque)) == if ty@.struct_kw && !texts(*defined).contains(ty@.base) {
            set_insert(texts(*old(opaque)), ty@.base)
        } else {
            texts(*old(opaque))
        },
        texts(final(platform).used) == if !ty@.struct_kw && abi_scalar_text(ty@.base) is None && !texts(*defined).contains(
            ty@.base,
        ) && table_decl(old(platform).table, ty@.base) is Some {
            set_insert(texts(old(platform).used), ty@.base)
        } else {
            texts(old(platform).used)
        },
{
    let base: String = if ty.struct_kw {
        if !names_contain(defined, ty.base.as_str()) {
            if !names_contain(opaque, ty.base.as_str()) {
                let ghost before = texts(*opaque);
                opaque.push(ty.base.clone());
                assert(texts(*opaque) =~= before.push(ty@.base));
            }
        }
        ty.base.clone()
    } else if let Some(scalar) = abi_scalar(ty.base.as_str()) {
        scalar.to_owned()
    } else if names_contain(defined, ty.base.as_str()) || platform.record(ty.base.as_str()) {
        ty.base.clone()
    } else {
        return Err(Error::TypedefTarget { base: ty.base.clone() });
    };
    let t = wrap_pointers(ty, chars_of(base.as_str()));
    Ok(string_from_chars(t.as_slice()))
}

} // verus!

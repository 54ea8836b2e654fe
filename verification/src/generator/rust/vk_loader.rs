//! Vulkan loader emission policy: the command-scope byte table and the
//! Rust spelling of command-signature types.

use vstd::prelude::*;

use crate::error::{Error, Fault};
use crate::generator::rust::abi::{decay_const, elem_const, prepend_ptr, ptr_word, ptr_wrapped, wrap_pointers};
use crate::generator::rust::vk_types::{vk_base, vk_base_text};
use crate::parse::ctype::{TypeRef, TypeView};
use crate::text::{chars_of, str_eq, string_from_chars};

verus! {

/// The `COMMAND_SCOPES` byte of a scope enumerator name.
pub open spec fn scope_byte(scope: Seq<char>) -> Option<u8> {
    if scope == "GloamCommandScopeGlobal"@ {
        Some(0)
    } else if scope == "GloamCommandScopeInstance"@ {
        Some(1)
    } else if scope == "GloamCommandScopeDevice"@ {
        Some(2)
    } else if scope == "GloamCommandScopeUnknown"@ {
        Some(3)
    } else {
        None
    }
}

/// Scope byte for the `COMMAND_SCOPES` table; `vkGetInstanceProcAddr`'s
/// own scope (never loadable through a proc-addr callback) is 3.
pub fn scope_code(scope: &str) -> (r: Result<u8, Error>)
    ensures
        match scope_byte(scope@) {
            Some(b) => r == Ok::<u8, Error>(b),
            None => r matches Err(e) && e@ == Fault::UnknownScope(scope@),
        },
{
    if str_eq(scope, "GloamCommandScopeGlobal") {
        Ok(0)
    } else if str_eq(scope, "GloamCommandScopeInstance") {
        Ok(1)
    } else if str_eq(scope, "GloamCommandScopeDevice") {
        Ok(2)
    } else if str_eq(scope, "GloamCommandScopeUnknown") {
        Ok(3)
    } else {
        Err(Error::UnknownScope { scope: scope.to_owned() })
    }
}

/// A declarator as a Rust type in a Vulkan command signature: the Vulkan
/// base mapping, every pointer level, and a final pointer for a decayed
/// array parameter (`float blendConstants[4]` → `*const f32`).
pub open spec fn vk_param_text(v: TypeView) -> Seq<char> {
    let t = ptr_wrapped(vk_base_text(v.base), v, v.pointers.len() as int);
    if v.array.len() > 0 {
        ptr_word(elem_const(v)) + t
    } else {
        t
    }
}

/// Print a `TypeRef` in a command-signature position: Vulkan base mapping,
/// C parameter-array decay (`float blendConstants[4]` → `*const f32`).
pub fn vk_param_type(ty: &TypeRef) -> (r: String)
    ensures
        r@ == vk_param_text(ty@),
{
    let base = vk_base(ty.base.as_str());
    let t = chars_of(base.as_str());
    let mut t = wrap_pointers(ty, t);
    if ty.array.len() > 0 {
        let ec = decay_const(ty);
        t = prepend_ptr(t, ec);
    }
    string_from_chars(t.as_slice())
}

} // verus!

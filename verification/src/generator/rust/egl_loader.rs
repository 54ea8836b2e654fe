//! Declarations of the EGL native handle types, per target.

use vstd::prelude::*;

use crate::text::str_eq;

verus! {

/// The Rust declaration of an EGL native handle type.
pub open spec fn egl_decl_text(name: Seq<char>) -> Option<Seq<char>> {
    if name == "EGLint"@ {
        Some("pub type EGLint = i32;"@)
    } else if name == "EGLNativeDisplayType"@ {
        Some("#[cfg(windows)]\npub type EGLNativeDisplayType = *mut c_void; // HDC\n\
             #[cfg(target_vendor = \"apple\")]\npub type EGLNativeDisplayType = i32;\n\
             #[cfg(target_os = \"android\")]\npub type EGLNativeDisplayType = *mut c_void;\n\
             #[cfg(not(any(windows, target_vendor = \"apple\", target_os = \"android\")))]\n\
             pub type EGLNativeDisplayType = *mut c_void; // Display *"@)
    } else if name == "EGLNativeWindowType"@ {
        Some("#[cfg(windows)]\npub type EGLNativeWindowType = *mut c_void; // HWND\n\
             #[cfg(target_vendor = \"apple\")]\npub type EGLNativeWindowType = *mut c_void;\n\
             #[cfg(target_os = \"android\")]\npub type EGLNativeWindowType = *mut ANativeWindow;\n\
             #[cfg(not(any(windows, target_vendor = \"apple\", target_os = \"android\")))]\n\
             pub type EGLNativeWindowType = core::ffi::c_ulong; // Window (XID)"@)
    } else if name == "EGLNativePixmapType"@ {
        Some("#[cfg(windows)]\npub type EGLNativePixmapType = *mut c_void; // HBITMAP\n\
             #[cfg(target_vendor = \"apple\")]\npub type EGLNativePixmapType = *mut c_void;\n\
             #[cfg(target_os = \"android\")]\npub type EGLNativePixmapType = *mut c_void;\n\
             #[cfg(not(any(windows, target_vendor = \"apple\", target_os = \"android\")))]\n\
             pub type EGLNativePixmapType = core::ffi::c_ulong; // Pixmap (XID)"@)
    } else {
        None
    }
}

/// Per-target declarations for the EGL native handle types, mirroring eglplatform.h's platform arms.
pub fn egl_platform_decl(name: &str) -> (r: Option<&'static str>)
    ensures
        match egl_decl_text(name@) {
            Some(t) => r matches Some(s) && s@ == t,
            None => r is None,
        },
{
    if str_eq(name, "EGLint") {
        return Some("pub type EGLint = i32;");
    }
    if str_eq(name, "EGLNativeDisplayType") {
        return Some("#[cfg(windows)]\npub type EGLNativeDisplayType = *mut c_void; // HDC\n\
             #[cfg(target_vendor = \"apple\")]\npub type EGLNativeDisplayType = i32;\n\
             #[cfg(target_os = \"android\")]\npub type EGLNativeDisplayType = *mut c_void;\n\
             #[cfg(not(any(windows, target_vendor = \"apple\", target_os = \"android\")))]\n\
             pub type EGLNativeDisplayType = *mut c_void; // Display *");
    }
    if str_eq(name, "EGLNativeWindowType") {
        return Some("#[cfg(windows)]\npub type EGLNativeWindowType = *mut c_void; // HWND\n\
             #[cfg(target_vendor = \"apple\")]\npub type EGLNativeWindowType = *mut c_void;\n\
             #[cfg(target_os = \"android\")]\npub type EGLNativeWindowType = *mut ANativeWindow;\n\
             #[cfg(not(any(windows, target_vendor = \"apple\", target_os = \"android\")))]\n\
             pub type EGLNativeWindowType = core::ffi::c_ulong; // Window (XID)");
    }
    if str_eq(name, "EGLNativePixmapType") {
        return Some("#[cfg(windows)]\npub type EGLNativePixmapType = *mut c_void; // HBITMAP\n\
             #[cfg(target_vendor = \"apple\")]\npub type EGLNativePixmapType = *mut c_void;\n\
             #[cfg(target_os = \"android\")]\npub type EGLNativePixmapType = *mut c_void;\n\
             #[cfg(not(any(windows, target_vendor = \"apple\", target_os = \"android\")))]\n\
             pub type EGLNativePixmapType = core::ffi::c_ulong; // Pixmap (XID)");
    }
    None
}

} // verus!

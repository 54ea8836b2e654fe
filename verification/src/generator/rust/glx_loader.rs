//! Declarations of the Xlib and GL types the GLX bindings reference.

use vstd::prelude::*;

use crate::text::str_eq;

verus! {

/// The Rust declaration of an Xlib or GL type GLX references.
pub open spec fn glx_decl_text(name: Seq<char>) -> Option<Seq<char>> {
    if name == "Bool"@ {
        Some("pub type Bool = i32;"@)
    } else if name == "Status"@ {
        Some("pub type Status = i32;"@)
    } else if name == "XID"@ {
        Some("pub type XID = core::ffi::c_ulong;"@)
    } else if name == "Window"@ {
        Some("pub type Window = core::ffi::c_ulong;"@)
    } else if name == "Pixmap"@ {
        Some("pub type Pixmap = core::ffi::c_ulong;"@)
    } else if name == "Font"@ {
        Some("pub type Font = core::ffi::c_ulong;"@)
    } else if name == "Colormap"@ {
        Some("pub type Colormap = core::ffi::c_ulong;"@)
    } else if name == "Display"@ {
        Some("#[repr(C)]\npub struct Display {\n    _opaque: [u8; 0],\n}"@)
    } else if name == "Screen"@ {
        Some("#[repr(C)]\npub struct Screen {\n    _opaque: [u8; 0],\n}"@)
    } else if name == "XVisualInfo"@ {
        Some("#[repr(C)]\npub struct XVisualInfo {\n    _opaque: [u8; 0],\n}"@)
    } else if name == "GLenum"@ {
        Some("pub type GLenum = u32;"@)
    } else if name == "GLbitfield"@ {
        Some("pub type GLbitfield = u32;"@)
    } else if name == "GLboolean"@ {
        Some("pub type GLboolean = u8;"@)
    } else if name == "GLfloat"@ {
        Some("pub type GLfloat = f32;"@)
    } else if name == "GLint"@ {
        Some("pub type GLint = i32;"@)
    } else if name == "GLsizei"@ {
        Some("pub type GLsizei = i32;"@)
    } else if name == "GLubyte"@ {
        Some("pub type GLubyte = u8;"@)
    } else if name == "GLuint"@ {
        Some("pub type GLuint = u32;"@)
    } else {
        None
    }
}

/// Declarations for the Xlib types GLX references: XIDs are `unsigned long`, the connection and visual types opaque records.
pub fn glx_platform_decl(name: &str) -> (r: Option<&'static str>)
    ensures
        match glx_decl_text(name@) {
            Some(t) => r matches Some(s) && s@ == t,
            None => r is None,
        },
{
    if str_eq(name, "Bool") {
        return Some("pub type Bool = i32;");
    }
    if str_eq(name, "Status") {
        return Some("pub type Status = i32;");
    }
    if str_eq(name, "XID") {
        return Some("pub type XID = core::ffi::c_ulong;");
    }
    if str_eq(name, "Window") {
        return Some("pub type Window = core::ffi::c_ulong;");
    }
    if str_eq(name, "Pixmap") {
        return Some("pub type Pixmap = core::ffi::c_ulong;");
    }
    if str_eq(name, "Font") {
        return Some("pub type Font = core::ffi::c_ulong;");
    }
    if str_eq(name, "Colormap") {
        return Some("pub type Colormap = core::ffi::c_ulong;");
    }
    if str_eq(name, "Display") {
        return Some("#[repr(C)]\npub struct Display {\n    _opaque: [u8; 0],\n}");
    }
    if str_eq(name, "Screen") {
        return Some("#[repr(C)]\npub struct Screen {\n    _opaque: [u8; 0],\n}");
    }
    if str_eq(name, "XVisualInfo") {
        return Some("#[repr(C)]\npub struct XVisualInfo {\n    _opaque: [u8; 0],\n}");
    }
    if str_eq(name, "GLenum") {
        return Some("pub type GLenum = u32;");
    }
    if str_eq(name, "GLbitfield") {
        return Some("pub type GLbitfield = u32;");
    }
    if str_eq(name, "GLboolean") {
        return Some("pub type GLboolean = u8;");
    }
    if str_eq(name, "GLfloat") {
        return Some("pub type GLfloat = f32;");
    }
    if str_eq(name, "GLint") {
        return Some("pub type GLint = i32;");
    }
    if str_eq(name, "GLsizei") {
        return Some("pub type GLsizei = i32;");
    }
    if str_eq(name, "GLubyte") {
        return Some("pub type GLubyte = u8;");
    }
    if str_eq(name, "GLuint") {
        return Some("pub type GLuint = u32;");
    }
    None
}

} // verus!

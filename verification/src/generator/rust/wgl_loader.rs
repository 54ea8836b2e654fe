//! Declarations of the Win32 and GL types the WGL bindings reference.

use vstd::prelude::*;

use crate::text::str_eq;

verus! {

/// The Rust declaration of a Win32 or GL type WGL references.
pub open spec fn wgl_decl_text(name: Seq<char>) -> Option<Seq<char>> {
    if name == "BOOL"@ {
        Some("pub type BOOL = i32;"@)
    } else if name == "CHAR"@ {
        Some("pub type CHAR = c_char;"@)
    } else if name == "DWORD"@ {
        Some("pub type DWORD = u32;"@)
    } else if name == "FLOAT"@ {
        Some("pub type FLOAT = f32;"@)
    } else if name == "INT"@ {
        Some("pub type INT = i32;"@)
    } else if name == "INT32"@ {
        Some("pub type INT32 = i32;"@)
    } else if name == "INT64"@ {
        Some("pub type INT64 = i64;"@)
    } else if name == "UINT"@ {
        Some("pub type UINT = u32;"@)
    } else if name == "USHORT"@ {
        Some("pub type USHORT = u16;"@)
    } else if name == "COLORREF"@ {
        Some("pub type COLORREF = u32;"@)
    } else if name == "HANDLE"@ {
        Some("pub type HANDLE = *mut c_void;"@)
    } else if name == "HDC"@ {
        Some("pub type HDC = *mut c_void;"@)
    } else if name == "HGLRC"@ {
        Some("pub type HGLRC = *mut c_void;"@)
    } else if name == "HENHMETAFILE"@ {
        Some("pub type HENHMETAFILE = *mut c_void;"@)
    } else if name == "LPCSTR"@ {
        Some("pub type LPCSTR = *const c_char;"@)
    } else if name == "LPVOID"@ {
        Some("pub type LPVOID = *mut c_void;"@)
    } else if name == "PROC"@ {
        Some("pub type PROC = Option<unsafe extern \"system\" fn()>;"@)
    } else if name == "GLenum"@ {
        Some("pub type GLenum = u32;"@)
    } else if name == "GLbitfield"@ {
        Some("pub type GLbitfield = u32;"@)
    } else if name == "GLboolean"@ {
        Some("pub type GLboolean = u8;"@)
    } else if name == "GLfloat"@ {
        Some("pub type GLfloat = f32;"@)
    } else if name == "GLint"@ {
        Some("pub type GLint = i32;"@)
    } else if name == "GLsizei"@ {
        Some("pub type GLsizei = i32;"@)
    } else if name == "GLuint"@ {
        Some("pub type GLuint = u32;"@)
    } else if name == "GLushort"@ {
        Some("pub type GLushort = u16;"@)
    } else if name == "RECT"@ {
        Some("#[repr(C)]\n\
                   #[derive(Copy, Clone)]\n\
                   pub struct RECT {\n\
                   \x20   pub left: i32,\n\
                   \x20   pub top: i32,\n\
                   \x20   pub right: i32,\n\
                   \x20   pub bottom: i32,\n\
                   }"@)
    } else if name == "PIXELFORMATDESCRIPTOR"@ {
        Some("#[repr(C)]\n\
                   #[derive(Copy, Clone)]\n\
                   pub struct PIXELFORMATDESCRIPTOR {\n\
                   \x20   pub nSize: u16,\n\
                   \x20   pub nVersion: u16,\n\
                   \x20   pub dwFlags: u32,\n\
                   \x20   pub iPixelType: u8,\n\
                   \x20   pub cColorBits: u8,\n\
                   \x20   pub cRedBits: u8,\n\
                   \x20   pub cRedShift: u8,\n\
                   \x20   pub cGreenBits: u8,\n\
                   \x20   pub cGreenShift: u8,\n\
                   \x20   pub cBlueBits: u8,\n\
                   \x20   pub cBlueShift: u8,\n\
                   \x20   pub cAlphaBits: u8,\n\
                   \x20   pub cAlphaShift: u8,\n\
                   \x20   pub cAccumBits: u8,\n\
                   \x20   pub cAccumRedBits: u8,\n\
                   \x20   pub cAccumGreenBits: u8,\n\
                   \x20   pub cAccumBlueBits: u8,\n\
                   \x20   pub cAccumAlphaBits: u8,\n\
                   \x20   pub cDepthBits: u8,\n\
                   \x20   pub cStencilBits: u8,\n\
                   \x20   pub cAuxBuffers: u8,\n\
                   \x20   pub iLayerType: u8,\n\
                   \x20   pub bReserved: u8,\n\
                   \x20   pub dwLayerMask: u32,\n\
                   \x20   pub dwVisibleMask: u32,\n\
                   \x20   pub dwDamageMask: u32,\n\
                   }"@)
    } else if name == "LAYERPLANEDESCRIPTOR"@ {
        Some("#[repr(C)]\n\
                   #[derive(Copy, Clone)]\n\
                   pub struct LAYERPLANEDESCRIPTOR {\n\
                   \x20   pub nSize: u16,\n\
                   \x20   pub nVersion: u16,\n\
                   \x20   pub dwFlags: u32,\n\
                   \x20   pub iPixelType: u8,\n\
                   \x20   pub cColorBits: u8,\n\
                   \x20   pub cRedBits: u8,\n\
                   \x20   pub cRedShift: u8,\n\
                   \x20   pub cGreenBits: u8,\n\
                   \x20   pub cGreenShift: u8,\n\
                   \x20   pub cBlueBits: u8,\n\
                   \x20   pub cBlueShift: u8,\n\
                   \x20   pub cAlphaBits: u8,\n\
                   \x20   pub cAlphaShift: u8,\n\
                   \x20   pub cAccumBits: u8,\n\
                   \x20   pub cAccumRedBits: u8,\n\
                   \x20   pub cAccumGreenBits: u8,\n\
                   \x20   pub cAccumBlueBits: u8,\n\
                   \x20   pub cAccumAlphaBits: u8,\n\
                   \x20   pub cDepthBits: u8,\n\
                   \x20   pub cStencilBits: u8,\n\
                   \x20   pub cAuxBuffers: u8,\n\
                   \x20   pub iLayerPlane: u8,\n\
                   \x20   pub bReserved: u8,\n\
                   \x20   pub crTransparent: COLORREF,\n\
                   }"@)
    } else if name == "LPGLYPHMETRICSFLOAT"@ {
        Some("#[repr(C)]\n\
                   #[derive(Copy, Clone)]\n\
                   pub struct POINTFLOAT {\n\
                   \x20   pub x: f32,\n\
                   \x20   pub y: f32,\n\
                   }\n\
                   #[repr(C)]\n\
                   #[derive(Copy, Clone)]\n\
                   pub struct GLYPHMETRICSFLOAT {\n\
                   \x20   pub gmfBlackBoxX: f32,\n\
                   \x20   pub gmfBlackBoxY: f32,\n\
                   \x20   pub gmfptGlyphOrigin: POINTFLOAT,\n\
                   \x20   pub gmfCellIncX: f32,\n\
                   \x20   pub gmfCellIncY: f32,\n\
                   }\n\
                   pub type LPGLYPHMETRICSFLOAT = *mut GLYPHMETRICSFLOAT;"@)
    } else {
        None
    }
}

/// Declarations for the `<windows.h>` types WGL references, with their Win32 ABI shapes, plus the GL scalars wgl.xml borrows from gl.xml.
pub fn wgl_platform_decl(name: &str) -> (r: Option<&'static str>)
    ensures
        match wgl_decl_text(name@) {
            Some(t) => r matches Some(s) && s@ == t,
            None => r is None,
        },
{
    if str_eq(name, "BOOL") {
        return Some("pub type BOOL = i32;");
    }
    if str_eq(name, "CHAR") {
        return Some("pub type CHAR = c_char;");
    }
    if str_eq(name, "DWORD") {
        return Some("pub type DWORD = u32;");
    }
    if str_eq(name, "FLOAT") {
        return Some("pub type FLOAT = f32;");
    }
    if str_eq(name, "INT") {
        return Some("pub type INT = i32;");
    }
    if str_eq(name, "INT32") {
        return Some("pub type INT32 = i32;");
    }
    if str_eq(name, "INT64") {
        return Some("pub type INT64 = i64;");
    }
    if str_eq(name, "UINT") {
        return Some("pub type UINT = u32;");
    }
    if str_eq(name, "USHORT") {
        return Some("pub type USHORT = u16;");
    }
    if str_eq(name, "COLORREF") {
        return Some("pub type COLORREF = u32;");
    }
    if str_eq(name, "HANDLE") {
        return Some("pub type HANDLE = *mut c_void;");
    }
    if str_eq(name, "HDC") {
        return Some("pub type HDC = *mut c_void;");
    }
    if str_eq(name, "HGLRC") {
        return Some("pub type HGLRC = *mut c_void;");
    }
    if str_eq(name, "HENHMETAFILE") {
        return Some("pub type HENHMETAFILE = *mut c_void;");
    }
    if str_eq(name, "LPCSTR") {
        return Some("pub type LPCSTR = *const c_char;");
    }
    if str_eq(name, "LPVOID") {
        return Some("pub type LPVOID = *mut c_void;");
    }
    if str_eq(name, "PROC") {
        return Some("pub type PROC = Option<unsafe extern \"system\" fn()>;");
    }
    if str_eq(name, "GLenum") {
        return Some("pub type GLenum = u32;");
    }
    if str_eq(name, "GLbitfield") {
        return Some("pub type GLbitfield = u32;");
    }
    if str_eq(name, "GLboolean") {
        return Some("pub type GLboolean = u8;");
    }
    if str_eq(name, "GLfloat") {
        return Some("pub type GLfloat = f32;");
    }
    if str_eq(name, "GLint") {
        return Some("pub type GLint = i32;");
    }
    if str_eq(name, "GLsizei") {
        return Some("pub type GLsizei = i32;");
    }
    if str_eq(name, "GLuint") {
        return Some("pub type GLuint = u32;");
    }
    if str_eq(name, "GLushort") {
        return Some("pub type GLushort = u16;");
    }
    if str_eq(name, "RECT") {
        return Some("#[repr(C)]\n\
                   #[derive(Copy, Clone)]\n\
                   pub struct RECT {\n\
                   \x20   pub left: i32,\n\
                   \x20   pub top: i32,\n\
                   \x20   pub right: i32,\n\
                   \x20   pub bottom: i32,\n\
                   }");
    }
    if str_eq(name, "PIXELFORMATDESCRIPTOR") {
        return Some("#[repr(C)]\n\
                   #[derive(Copy, Clone)]\n\
                   pub struct PIXELFORMATDESCRIPTOR {\n\
                   \x20   pub nSize: u16,\n\
                   \x20   pub nVersion: u16,\n\
                   \x20   pub dwFlags: u32,\n\
                   \x20   pub iPixelType: u8,\n\
                   \x20   pub cColorBits: u8,\n\
                   \x20   pub cRedBits: u8,\n\
                   \x20   pub cRedShift: u8,\n\
                   \x20   pub cGreenBits: u8,\n\
                   \x20   pub cGreenShift: u8,\n\
                   \x20   pub cBlueBits: u8,\n\
                   \x20   pub cBlueShift: u8,\n\
                   \x20   pub cAlphaBits: u8,\n\
                   \x20   pub cAlphaShift: u8,\n\
                   \x20   pub cAccumBits: u8,\n\
                   \x20   pub cAccumRedBits: u8,\n\
                   \x20   pub cAccumGreenBits: u8,\n\
                   \x20   pub cAccumBlueBits: u8,\n\
                   \x20   pub cAccumAlphaBits: u8,\n\
                   \x20   pub cDepthBits: u8,\n\
                   \x20   pub cStencilBits: u8,\n\
                   \x20   pub cAuxBuffers: u8,\n\
                   \x20   pub iLayerType: u8,\n\
                   \x20   pub bReserved: u8,\n\
                   \x20   pub dwLayerMask: u32,\n\
                   \x20   pub dwVisibleMask: u32,\n\
                   \x20   pub dwDamageMask: u32,\n\
                   }");
    }
    if str_eq(name, "LAYERPLANEDESCRIPTOR") {
        return Some("#[repr(C)]\n\
                   #[derive(Copy, Clone)]\n\
                   pub struct LAYERPLANEDESCRIPTOR {\n\
                   \x20   pub nSize: u16,\n\
                   \x20   pub nVersion: u16,\n\
                   \x20   pub dwFlags: u32,\n\
                   \x20   pub iPixelType: u8,\n\
                   \x20   pub cColorBits: u8,\n\
                   \x20   pub cRedBits: u8,\n\
                   \x20   pub cRedShift: u8,\n\
                   \x20   pub cGreenBits: u8,\n\
                   \x20   pub cGreenShift: u8,\n\
                   \x20   pub cBlueBits: u8,\n\
                   \x20   pub cBlueShift: u8,\n\
                   \x20   pub cAlphaBits: u8,\n\
                   \x20   pub cAlphaShift: u8,\n\
                   \x20   pub cAccumBits: u8,\n\
                   \x20   pub cAccumRedBits: u8,\n\
                   \x20   pub cAccumGreenBits: u8,\n\
                   \x20   pub cAccumBlueBits: u8,\n\
                   \x20   pub cAccumAlphaBits: u8,\n\
                   \x20   pub cDepthBits: u8,\n\
                   \x20   pub cStencilBits: u8,\n\
                   \x20   pub cAuxBuffers: u8,\n\
                   \x20   pub iLayerPlane: u8,\n\
                   \x20   pub bReserved: u8,\n\
                   \x20   pub crTransparent: COLORREF,\n\
                   }");
    }
    if str_eq(name, "LPGLYPHMETRICSFLOAT") {
        return Some("#[repr(C)]\n\
                   #[derive(Copy, Clone)]\n\
                   pub struct POINTFLOAT {\n\
                   \x20   pub x: f32,\n\
                   \x20   pub y: f32,\n\
                   }\n\
                   #[repr(C)]\n\
                   #[derive(Copy, Clone)]\n\
                   pub struct GLYPHMETRICSFLOAT {\n\
                   \x20   pub gmfBlackBoxX: f32,\n\
                   \x20   pub gmfBlackBoxY: f32,\n\
                   \x20   pub gmfptGlyphOrigin: POINTFLOAT,\n\
                   \x20   pub gmfCellIncX: f32,\n\
                   \x20   pub gmfCellIncY: f32,\n\
                   }\n\
                   pub type LPGLYPHMETRICSFLOAT = *mut GLYPHMETRICSFLOAT;");
    }
    None
}

} // verus!

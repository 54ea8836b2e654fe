use gloam::generator::rust::abi::{abi_scalar, cond_to_cfg, rust_type, sanitize_ident};
use gloam::generator::rust::common::{method_name, parse_hash};
use gloam::generator::rust::gl_loader::{classify_const, special_const};
use gloam::generator::rust::vk_loader::{scope_code, vk_param_type};
use gloam::generator::rust::vk_types::{vk_const, vk_type};
use gloam::generator::rust::{emit_cargo_toml, emit_rustfmt_toml, normalize_eof, rustify_preamble};
use gloam::parse::ctype::TypeRef;

fn rt(decl: &str) -> String {
    rust_type(&TypeRef::parse(decl).unwrap())
}

#[test]
fn abi_rust_type_scalars_and_void() {
    assert_eq!(rt("GLenum"), "GLenum");
    assert_eq!(rt("void"), "c_void");
    assert_eq!(rt("GLvoid"), "c_void");
}

#[test]
fn abi_rust_type_single_pointers() {
    assert_eq!(rt("const GLubyte *"), "*const GLubyte");
    assert_eq!(rt("GLuint *"), "*mut GLuint");
    assert_eq!(rt("void *"), "*mut c_void");
    assert_eq!(rt("const void *"), "*const c_void");
}

#[test]
fn abi_rust_type_pointer_constness_is_per_level() {
    assert_eq!(rt("const GLchar *const*"), "*const *const GLchar");
    assert_eq!(rt("const GLcharARB **"), "*mut *const GLcharARB");
    assert_eq!(rt("void **"), "*mut *mut c_void");
}

#[test]
fn abi_rust_type_array_param_decays() {
    assert_eq!(rt("const GLfloat coords[4]"), "*const GLfloat");
    assert_eq!(rt("GLuint baseAndCount[2]"), "*mut GLuint");
}

#[test]
fn mod_rust_type_scalars_and_void() {
    assert_eq!(rt("GLenum"), "GLenum");
    assert_eq!(rt("void"), "c_void");
    assert_eq!(rt("GLvoid"), "c_void");
}

#[test]
fn mod_rust_type_single_pointers() {
    assert_eq!(rt("const GLubyte *"), "*const GLubyte");
    assert_eq!(rt("GLuint *"), "*mut GLuint");
    assert_eq!(rt("void *"), "*mut c_void");
    assert_eq!(rt("const void *"), "*const c_void");
}

#[test]
fn mod_rust_type_pointer_constness_is_per_level() {
    assert_eq!(rt("const GLchar *const*"), "*const *const GLchar");
    assert_eq!(rt("const GLcharARB **"), "*mut *const GLcharARB");
    assert_eq!(rt("void **"), "*mut *mut c_void");
}

#[test]
fn mod_rust_type_array_param_decays() {
    assert_eq!(rt("const GLfloat coords[4]"), "*const GLfloat");
    assert_eq!(rt("GLuint baseAndCount[2]"), "*mut GLuint");
}

#[test]
fn vk_const_literal_forms() {
    assert_eq!(vk_const("256U").unwrap(), ("u32".into(), "256".into()));
    assert_eq!(vk_const("(~0U)").unwrap(), ("u32".into(), "!0u32".into()));
    assert_eq!(vk_const("(~0ULL)").unwrap(), ("u64".into(), "!0u64".into()));
    assert_eq!(vk_const("(~0U-2)").unwrap(), ("u32".into(), "!0u32 - 2".into()));
    assert_eq!(vk_const("1000.0F").unwrap(), ("f32".into(), "1000.0".into()));
    assert_eq!(
        vk_const("\"VK_KHR_swapchain\"").unwrap(),
        ("&core::ffi::CStr".into(), "c\"VK_KHR_swapchain\"".into())
    );
    assert!(vk_const("offsetof(x)").is_err());
}

// ---- further cases ----

#[test]
fn rust_type_inner_array_dims_survive_decay() {
    assert_eq!(rt("float m[2][3]"), "*mut [f32; 3]");
}

#[test]
fn vk_member_type_keeps_arrays() {
    let t = TypeRef::parse("char deviceName[VK_MAX_PHYSICAL_DEVICE_NAME_SIZE]").unwrap();
    assert_eq!(vk_type(&t), "[c_char; VK_MAX_PHYSICAL_DEVICE_NAME_SIZE as usize]");
    let t = TypeRef::parse("float matrix[3][4]").unwrap();
    assert_eq!(vk_type(&t), "[[f32; 4 as usize]; 3 as usize]");
    let t = TypeRef::parse("const void* pNext").unwrap();
    assert_eq!(vk_type(&t), "*const c_void");
}

#[test]
fn vk_param_type_decays_arrays() {
    let t = TypeRef::parse("const float blendConstants[4]").unwrap();
    assert_eq!(vk_param_type(&t), "*const f32");
    let t = TypeRef::parse("uint32_t* pCount").unwrap();
    assert_eq!(vk_param_type(&t), "*mut u32");
}

#[test]
fn vk_const_errors_name_the_literal() {
    assert_eq!(
        vk_const("offsetof(x)").unwrap_err().message(),
        "unrecognized Vulkan constant literal 'offsetof(x)'"
    );
    assert_eq!(
        vk_const("(~0UL)").unwrap_err().message(),
        "unrecognized Vulkan constant form '(~0UL)'"
    );
}

#[test]
fn abi_scalar_table() {
    assert_eq!(abi_scalar("unsigned long"), Some("core::ffi::c_ulong"));
    assert_eq!(abi_scalar("khronos_uint64_t"), Some("u64"));
    assert_eq!(abi_scalar("GLenum"), None);
}

#[test]
fn cond_to_cfg_maps_apple_only() {
    assert_eq!(cond_to_cfg("defined(__APPLE__)").unwrap(), "target_vendor = \"apple\"");
    assert_eq!(
        cond_to_cfg("defined(__ENVIRONMENT_MAC_OS_X_VERSION_MIN_REQUIRED__) && x").unwrap(),
        "target_vendor = \"apple\""
    );
    assert_eq!(
        cond_to_cfg("defined(_WIN32)").unwrap_err().message(),
        "no cfg mapping for C preprocessor condition 'defined(_WIN32)'"
    );
}

#[test]
fn keywords_get_an_underscore() {
    assert_eq!(sanitize_ident("type"), "type_");
    assert_eq!(sanitize_ident("mode"), "mode");
}

#[test]
fn method_names_avoid_leading_digits() {
    assert_eq!(method_name("3DFX_tbuffer"), "_3DFX_tbuffer");
    assert_eq!(method_name("ARB_sync"), "ARB_sync");
}

#[test]
fn hash_literals_parse_as_hex() {
    assert_eq!(parse_hash("0x1f"), 31);
    assert_eq!(parse_hash(" 0XFF "), 255);
    assert_eq!(parse_hash("zz"), 0);
    assert_eq!(parse_hash("0xffffffffffffffffff"), 0);
}

#[test]
fn gl_constants_are_classified() {
    assert_eq!(classify_const("0x0001", false), Some(("GLenum".into(), "GLenum(0x0001)".into())));
    assert_eq!(classify_const("0x0001", true), Some(("GLbitfield".into(), "GLbitfield(0x0001)".into())));
    assert_eq!(classify_const("0xFFFFFFFFFFFFFFFFull", false), Some(("u64".into(), "0xFFFFFFFFFFFFFFFF".into())));
    assert_eq!(classify_const("-1", false), Some(("GLint".into(), "-1".into())));
    assert_eq!(classify_const("GL_FOO", false), None);
    assert_eq!(special_const("GL_TRUE", " 1 "), Some(("GLboolean".into(), "1".into())));
    assert_eq!(special_const("GL_ZERO", "0"), None);
}

#[test]
fn scope_codes() {
    assert_eq!(scope_code("GloamCommandScopeDevice").unwrap(), 2);
    assert!(scope_code("nope").is_err());
}

#[test]
fn cargo_toml_lists_platform_features() {
    let t = emit_cargo_toml("gloam-vk", &["VK_USE_PLATFORM_XLIB_KHR".to_string()]);
    assert!(t.starts_with("# @generated by gloam.\n[package]\nname = \"gloam-vk\"\n"));
    assert!(t.contains("# VK_USE_PLATFORM_* defines.\nVK_USE_PLATFORM_XLIB_KHR = []\n\n[dependencies]\n"));
    let g = emit_cargo_toml("gloam-gl", &[]);
    assert!(g.contains("no-error = []\n\n[dependencies]\n"));
    assert_eq!(emit_rustfmt_toml(), "# @generated by gloam.\nformat_generated_files = false\n");
}

#[test]
fn preamble_becomes_line_comments() {
    let c = "/*\n * gloam output\n * line two\n */\n";
    assert_eq!(rustify_preamble(c), "// gloam output\n// line two\n");
}

#[test]
fn rendered_files_end_with_one_newline() {
    assert_eq!(normalize_eof("abc\n\n\n".to_string()), "abc\n");
    assert_eq!(normalize_eof("abc".to_string()), "abc\n");
    assert_eq!(normalize_eof(String::new()), "\n");
    let once = normalize_eof("x\n\ny\n\n".to_string());
    assert_eq!(once, "x\n\ny\n");
    assert_eq!(normalize_eof(once.clone()), once);
}

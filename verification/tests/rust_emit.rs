use gloam::error::Error;
use gloam::generator::rust::abi::{rust_target_type, PlatformSweep, PlatformTable};
use gloam::generator::rust::common::emit_resolve_aliases_method;
use gloam::generator::rust::egl_loader::egl_platform_decl;
use gloam::generator::rust::emit_missing_helpers;
use gloam::generator::rust::gl_loader::emit_detect;
use gloam::generator::rust::glx_loader::glx_platform_decl;
use gloam::generator::rust::vk_types::{check_base, platform_type_decl, push_guarded};
use gloam::generator::rust::wgl_loader::wgl_platform_decl;
use gloam::parse::ctype::TypeRef;
use gloam::parse::types::strip_block_comments;

#[test]
fn guarded_items_each_get_their_cfg_lines() {
    let mut s = String::from("// head\n");
    let protect = vec!["VK_USE_PLATFORM_WIN32_KHR".to_string(), "extra".to_string()];
    push_guarded(&mut s, &protect, "pub struct A;\n\n   \npub struct B;\nimpl B {}\n");
    assert_eq!(
        s,
        "// head\n\
         #[cfg(feature = \"VK_USE_PLATFORM_WIN32_KHR\")]\n#[cfg(feature = \"extra\")]\npub struct A;\n\
         #[cfg(feature = \"VK_USE_PLATFORM_WIN32_KHR\")]\n#[cfg(feature = \"extra\")]\npub struct B;\nimpl B {}\n"
    );
}

#[test]
fn unprotected_body_loses_only_blank_lines() {
    let mut s = String::new();
    push_guarded(&mut s, &[], "a\n\nb");
    assert_eq!(s, "a\nb");
}

#[test]
fn block_comments_become_single_spaces() {
    assert_eq!(strip_block_comments("int a; /* c */ int b;"), "int a;   int b;");
    assert_eq!(strip_block_comments("a /* b"), "a  ");
    assert_eq!(strip_block_comments("/*/x*/y"), " y");
    assert_eq!(strip_block_comments("plain"), "plain");
}

#[test]
fn platform_declaration_tables() {
    assert_eq!(platform_type_decl("HWND"), Some("pub type HWND = *mut c_void;"));
    assert_eq!(platform_type_decl("Display"), Some("pub enum Display {}"));
    assert_eq!(platform_type_decl("Foo"), None);
    assert_eq!(wgl_platform_decl("BOOL"), Some("pub type BOOL = i32;"));
    assert_eq!(wgl_platform_decl("HWND"), None);
    assert_eq!(glx_platform_decl("XID"), Some("pub type XID = core::ffi::c_ulong;"));
    assert_eq!(egl_platform_decl("EGLint"), Some("pub type EGLint = i32;"));
    assert!(egl_platform_decl("EGLNativeWindowType").unwrap().contains("*mut ANativeWindow"));
}

#[test]
fn extension_detection_needs_both_entry_points() {
    let mut s = String::new();
    emit_detect(&mut s, None, Some(1));
    assert_eq!(
        s,
        "\n    /// Extension detection unavailable (glGetIntegerv/glGetStringi\n    /// absent from this build).\n    unsafe fn detect_extensions(&mut self, _subset: &[u16]) {}\n"
    );
    let mut t = String::new();
    emit_detect(&mut t, Some(3), Some(17));
    assert!(t.contains("        if self.pfns[3].is_null() || self.pfns[17].is_null() {\n            return;\n        }\n"));
    assert!(t.ends_with("            self.ext[idx as usize] = seen[idx as usize];\n        }\n    }\n"));
}

#[test]
fn alias_resolution_and_missing_call_helpers() {
    let mut s = String::new();
    emit_resolve_aliases_method(&mut s, false);
    assert_eq!(s, "\n    fn resolve_aliases(&mut self) {}\n");
    let mut t = String::new();
    emit_resolve_aliases_method(&mut t, true);
    assert!(t.contains("        for &(ci, si) in ALIAS_PAIRS.iter() {\n"));
    let mut u = String::new();
    emit_missing_helpers(&mut u, "GL");
    assert!(u.ends_with(
        "    debug_assert!(false, \"unloaded GL function called in a no-error build\");\n    unsafe { core::hint::unreachable_unchecked() }\n}\n\n"
    ));
    assert!(u.contains("unsafe fn __missing(idx: usize) -> ! {\n    let off = FN_NAME_OFFSETS[idx] as usize;\n"));
}

#[test]
fn declarator_bases_are_checked_and_platform_types_recorded() {
    let defined = vec!["VkFoo".to_string()];
    let mut platform: Vec<String> = Vec::new();
    assert!(check_base(&TypeRef::parse("uint32_t x").unwrap(), &defined, &mut platform).is_ok());
    assert!(check_base(&TypeRef::parse("const VkFoo* p").unwrap(), &defined, &mut platform).is_ok());
    assert!(platform.is_empty());
    assert!(check_base(&TypeRef::parse("OHNativeWindow* w").unwrap(), &defined, &mut platform).is_ok());
    assert_eq!(platform, vec!["OHNativeWindow".to_string(), "NativeWindow".to_string()]);
    assert!(check_base(&TypeRef::parse("HWND h").unwrap(), &defined, &mut platform).is_ok());
    assert!(check_base(&TypeRef::parse("NativeWindow* n").unwrap(), &defined, &mut platform).is_ok());
    assert_eq!(platform.len(), 3);
    match check_base(&TypeRef::parse("StdVideoH264SpsFlags f").unwrap(), &defined, &mut platform) {
        Err(e @ Error::StdVideoBase { .. }) => assert!(e.message().starts_with("base type 'StdVideoH264SpsFlags' lives in the vk_video headers")),
        other => panic!("unexpected: {:?}", other),
    }
    match check_base(&TypeRef::parse("Mystery m").unwrap(), &defined, &mut platform) {
        Err(e @ Error::UnknownBase { .. }) => assert_eq!(
            e.message(),
            "base type 'Mystery' is not an ABI scalar, a defined Vulkan type, or a known platform type"
        ),
        other => panic!("unexpected: {:?}", other),
    }
}

#[test]
fn typedef_targets_map_to_rust_types() {
    let defined = vec!["GPU_DEVICE".to_string()];
    let mut opaque: Vec<String> = Vec::new();
    let mut sweep = PlatformSweep { table: PlatformTable::Wgl, used: Vec::new() };
    let t = rust_target_type(&TypeRef::parse("struct __GLsync *").unwrap(), &defined, &mut opaque, &mut sweep).unwrap();
    assert_eq!(t, "*mut __GLsync");
    assert_eq!(opaque, vec!["__GLsync".to_string()]);
    let t = rust_target_type(&TypeRef::parse("const char *").unwrap(), &defined, &mut opaque, &mut sweep).unwrap();
    assert_eq!(t, "*const c_char");
    let t = rust_target_type(&TypeRef::parse("HDC").unwrap(), &defined, &mut opaque, &mut sweep).unwrap();
    assert_eq!(t, "HDC");
    assert_eq!(sweep.used, vec!["HDC".to_string()]);
    let t = rust_target_type(&TypeRef::parse("GPU_DEVICE *").unwrap(), &defined, &mut opaque, &mut sweep).unwrap();
    assert_eq!(t, "*mut GPU_DEVICE");
    assert!(sweep.used.len() == 1);
    match rust_target_type(&TypeRef::parse("Unknown").unwrap(), &defined, &mut opaque, &mut sweep) {
        Err(e @ Error::TypedefTarget { .. }) => assert_eq!(
            e.message(),
            "typedef target 'Unknown' is neither an ABI scalar, a type defined in this module, nor a known platform type"
        ),
        other => panic!("unexpected: {:?}", other),
    }
}

fn typedef_alias(raw: &str, name: &str) -> Result<String, Error> {
    let arms = gloam::parse::typedefs::typedef_text_payload(raw).unwrap();
    let mut s = String::new();
    let mut opaque: Vec<String> = Vec::new();
    let mut sweep = PlatformSweep { table: PlatformTable::Glx, used: Vec::new() };
    gloam::generator::rust::typedef_alias::emit_typedef_arms(&mut s, name, &arms, &Vec::new(), &mut opaque, &mut sweep)?;
    Ok(s)
}

#[test]
fn typedef_arms_collapse_or_split_by_cfg() {
    assert_eq!(
        typedef_alias(
            "#ifdef __APPLE__\ntypedef void *GLhandleARB;\n#else\ntypedef unsigned int GLhandleARB;\n#endif",
            "GLhandleARB"
        )
        .unwrap(),
        "#[cfg(target_vendor = \"apple\")]\npub type GLhandleARB = *mut c_void;\n#[cfg(not(target_vendor = \"apple\"))]\npub type GLhandleARB = u32;\n"
    );
    assert_eq!(
        typedef_alias(
            "#if defined(__ENVIRONMENT_MAC_OS_X_VERSION_MIN_REQUIRED__)\ntypedef long GLsizeiptr;\n#else\ntypedef ptrdiff_t GLsizeiptr;\n#endif",
            "GLsizeiptr"
        )
        .unwrap(),
        "pub type GLsizeiptr = isize;\n"
    );
    assert_eq!(typedef_alias("typedef unsigned int GLenum;", "GLenum").unwrap(), "pub type GLenum = u32;\n");
    match typedef_alias("#ifdef __linux__\ntypedef int T;\n#else\ntypedef float T;\n#endif", "T") {
        Err(e @ Error::NoCfgMapping { .. }) => assert!(e.message().contains("defined(__linux__)")),
        other => panic!("unexpected: {:?}", other),
    }
    match typedef_alias("typedef int T;\ntypedef float T;", "T") {
        Err(e @ Error::TypedefNoCondition { .. }) => {
            assert_eq!(e.message(), "typedef 'T': first arm of a differing pair has no condition")
        }
        other => panic!("unexpected: {:?}", other),
    }
    match typedef_alias("typedef int T;\ntypedef float T;\ntypedef short T;", "T") {
        Err(e @ Error::TypedefArity { .. }) => assert_eq!(e.message(), "typedef 'T' has 3 arms; expected 2"),
        other => panic!("unexpected: {:?}", other),
    }
    match typedef_alias("typedef Mystery T;", "T") {
        Err(Error::TypedefTarget { base }) => assert_eq!(base, "Mystery"),
        other => panic!("unexpected: {:?}", other),
    }
}

#[test]
fn funcpointer_typedefs_become_nullable_system_fns() {
    let sig = gloam::parse::signatures::parse_funcpointer_text(
        "typedef void (GLAPIENTRY *GLDEBUGPROC)(GLenum source, GLsizei length, const GLchar *message, const void *userParam);",
    )
    .unwrap();
    assert_eq!(
        gloam::generator::rust::base_types::funcpointer_alias("GLDEBUGPROC", &sig),
        "pub type GLDEBUGPROC = Option<unsafe extern \"system\" fn(GLenum, GLsizei, *const GLchar, *const c_void)>;\n"
    );
    let sig = gloam::parse::signatures::parse_funcpointer_text("typedef int (*P)(void);").unwrap();
    assert_eq!(
        gloam::generator::rust::base_types::funcpointer_alias("P", &sig),
        "pub type P = Option<unsafe extern \"system\" fn() -> i32>;\n"
    );
}

#[test]
fn opaque_bodies_are_classified() {
    use_form("#define PFNGLFOOPROC PFNGLFOOPROC_", gloam::generator::rust::base_types::OpaqueForm::Skip);
    use_form("#include <KHR/khrplatform.h>", gloam::generator::rust::base_types::OpaqueForm::Skip);
    use_form(
        "  DECLARE_HANDLE( HPBUFFERARB );",
        gloam::generator::rust::base_types::OpaqueForm::Handle("HPBUFFERARB".to_string()),
    );
    use_form("struct _cl_context;", gloam::generator::rust::base_types::OpaqueForm::Forward("_cl_context".to_string()));
    use_form("struct a b;", gloam::generator::rust::base_types::OpaqueForm::Unknown);
    use_form("typedef struct X X;", gloam::generator::rust::base_types::OpaqueForm::Unknown);
}

fn use_form(raw: &str, want: gloam::generator::rust::base_types::OpaqueForm) {
    assert_eq!(gloam::generator::rust::base_types::opaque_form(raw), want, "{:?}", raw);
}

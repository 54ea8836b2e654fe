use gloam::generator::c::model::{
    bootstrap_names, group_by_protection_pairs, params_str, pfn_type_name, FnNameLayout, Param,
};
use gloam::generator::c::{
    filter_api_display, filter_c_ident, filter_enum_max_name, filter_hex4, filter_ljust,
    filter_rjust, filter_spec_display,
};
use gloam::identity::Spec;

// ---- filter_enum_max_name ----

fn max(s: &str) -> String {
    filter_enum_max_name(s)
}

#[test]
fn enum_max_simple_camel() {
    assert_eq!(max("VkDriverId"), "VK_DRIVER_ID_MAX_ENUM");
}

#[test]
fn enum_max_acronym_not_split() {
    assert_eq!(
        max("VkEGLImageCreateFlagBitsKHR"),
        "VK_EGL_IMAGE_CREATE_FLAG_BITS_KHR_MAX_ENUM"
    );
}

#[test]
fn enum_max_trailing_acronym_not_split() {
    assert_eq!(max("VkSamplerAddressMode"), "VK_SAMPLER_ADDRESS_MODE_MAX_ENUM");
}

#[test]
fn enum_max_single_word() {
    assert_eq!(max("VkFormat"), "VK_FORMAT_MAX_ENUM");
}

// ---- filter_c_ident ----

fn c_ident(s: &str) -> String {
    filter_c_ident(s)
}

#[test]
fn c_ident_digit_prefix_gets_underscore() {
    assert_eq!(c_ident("3DFX_multisample"), "_3DFX_multisample");
}

#[test]
fn c_ident_normal_name_unchanged() {
    assert_eq!(c_ident("ARB_sync"), "ARB_sync");
    assert_eq!(c_ident("ANGLE_framebuffer_blit"), "ANGLE_framebuffer_blit");
}

#[test]
fn c_ident_empty_string_unchanged() {
    assert_eq!(c_ident(""), "");
}

// ---- filter_api_display / filter_spec_display ----

fn api_disp(s: &str) -> String {
    filter_api_display(s)
}

fn spec_disp(s: &str) -> String {
    filter_spec_display(s)
}

#[test]
fn api_display_gl_variants() {
    assert_eq!(api_disp("gl"), "GL");
    assert_eq!(api_disp("gles1"), "GLES1");
    assert_eq!(api_disp("gles2"), "GLES2");
    assert_eq!(api_disp("glcore"), "GL");
}

#[test]
fn api_display_other() {
    assert_eq!(api_disp("egl"), "EGL");
    assert_eq!(api_disp("vk"), "Vulkan");
    assert_eq!(api_disp("vulkan"), "Vulkan");
}

#[test]
fn spec_display_gl_family_all_map_to_gl() {
    for api in &["gl", "gles1", "gles2", "glcore"] {
        assert_eq!(spec_disp(api), "GL", "failed for '{api}'");
    }
}

// ---- filter_hex4 ----

#[test]
fn hex4_formats_correctly() {
    assert_eq!(filter_hex4(0x0303_i64), "0x0303");
    assert_eq!(filter_hex4(0x0100_i64), "0x0100");
    assert_eq!(filter_hex4(0_i64), "0x0000");
}

#[test]
fn hex4_wider_values_keep_all_digits() {
    assert_eq!(filter_hex4(0x12345_i64), "0x12345");
    assert_eq!(filter_hex4(-1_i64), "0xffffffffffffffff");
}

#[test]
fn justify_pads_with_spaces() {
    assert_eq!(filter_rjust("7", 4), "   7");
    assert_eq!(filter_ljust("7", 4), "7   ");
    assert_eq!(filter_rjust("12345", 4), "12345");
    assert_eq!(filter_ljust("", 2), "  ");
}

#[test]
fn unknown_display_names_pass_through() {
    assert_eq!(api_disp("vulkansc"), "vulkansc");
    assert_eq!(spec_disp("wgl"), "WGL");
}

#[test]
fn enum_max_digit_before_upper_splits() {
    assert_eq!(max("VkVideoH264Profile"), "VK_VIDEO_H264_PROFILE_MAX_ENUM");
}

// ---- model ----

#[test]
fn pfn_type_vulkan_keeps_command_case() {
    assert_eq!(pfn_type_name(Spec::Vk, "vkCreateInstance"), "PFN_vkCreateInstance");
}

#[test]
fn pfn_type_gl_family_strips_prefix_before_uppercasing() {
    assert_eq!(pfn_type_name(Spec::Gl, "glCullFace"), "PFNGLCULLFACEPROC");
    assert_eq!(pfn_type_name(Spec::Glx, "glXQueryVersion"), "PFNGLXQUERYVERSIONPROC");
}

fn param(type_raw: &str, name: &str) -> Param {
    Param {
        type_raw: type_raw.to_string(),
        name: name.to_string(),
    }
}

#[test]
fn params_str_empty_is_void() {
    assert_eq!(params_str(&[]), "void");
}

#[test]
fn params_str_joins_type_and_name() {
    assert_eq!(
        params_str(&[param("GLenum", "mode"), param("const GLuint *", "ids")]),
        "GLenum mode, const GLuint * ids"
    );
}

#[test]
fn params_str_array_param_emitted_verbatim() {
    assert_eq!(
        params_str(&[param("float blendConstants[4]", "blendConstants")]),
        "float blendConstants[4]"
    );
}

#[test]
fn params_str_unnamed_param_is_type_only() {
    assert_eq!(params_str(&[param("GLenum", "")]), "GLenum");
}

#[test]
fn pfn_type_without_prefix_uppercases_whole_name() {
    assert_eq!(pfn_type_name(Spec::Egl, "GetProcAddress"), "PFNEGLGETPROCADDRESSPROC");
}

#[test]
fn bootstrap_names_per_spec() {
    assert_eq!(bootstrap_names(Spec::Gl), vec!["glGetString"]);
    assert_eq!(bootstrap_names(Spec::Egl), vec!["eglGetString", "eglQueryString"]);
    assert!(bootstrap_names(Spec::Vk).is_empty());
}

#[test]
fn name_blob_offsets_count_nul_terminators() {
    let names = vec!["glA".to_string(), "glBB".to_string(), "glC".to_string()];
    let l = FnNameLayout::build(&names);
    assert_eq!(l.offsets, vec![0, 4, 9]);
    assert_eq!(l.offset_type, "uint16_t");
}

#[test]
fn name_blob_wide_offsets_switch_type() {
    let long = "x".repeat(70_000);
    let names = vec![long, "y".to_string()];
    let l = FnNameLayout::build(&names);
    assert_eq!(l.offsets, vec![0, 70_001]);
    assert_eq!(l.offset_type, "uint32_t");
}

#[test]
fn protection_groups_coalesce_runs() {
    let p = |m: &str| if m.is_empty() { Vec::new() } else { vec![m.to_string()] };
    let items = vec![
        (p(""), 1),
        (p(""), 2),
        (p("VK_USE_PLATFORM_WIN32_KHR"), 3),
        (p("VK_USE_PLATFORM_WIN32_KHR"), 4),
        (p(""), 5),
    ];
    let groups = group_by_protection_pairs(items);
    assert_eq!(groups.len(), 3);
    assert_eq!(groups[0].items, vec![1, 2]);
    assert_eq!(groups[1].protect, vec!["VK_USE_PLATFORM_WIN32_KHR".to_string()]);
    assert_eq!(groups[1].items, vec![3, 4]);
    assert_eq!(groups[2].items, vec![5]);
}

use gloam::identity::{canonical_api_name, Api, Spec};

const ALL_APIS: [Api; 8] = [
    Api::Gl,
    Api::Glcore,
    Api::Gles1,
    Api::Gles2,
    Api::Egl,
    Api::Glx,
    Api::Wgl,
    Api::Vk,
];

#[test]
fn api_from_cli_roundtrips_canonical_names() {
    for api in ALL_APIS {
        assert_eq!(Api::from_cli(api.as_str()).unwrap(), api);
    }
}

#[test]
fn api_from_cli_accepts_vulkan_alias() {
    assert_eq!(Api::from_cli("vulkan").unwrap(), Api::Vk);
}

#[test]
fn api_from_cli_rejects_unknown() {
    let err = Api::from_cli("dx12").unwrap_err().message();
    assert!(err.contains("unknown API 'dx12'"), "{err}");
}

#[test]
fn xml_name_differs_only_for_vulkan() {
    for api in ALL_APIS {
        if api == Api::Vk {
            assert_eq!(api.xml_name(), "vulkan");
        } else {
            assert_eq!(api.xml_name(), api.as_str());
        }
    }
}

#[test]
fn gl_family_maps_to_gl_spec() {
    for api in [Api::Gl, Api::Glcore, Api::Gles1, Api::Gles2] {
        assert_eq!(api.spec(), Spec::Gl);
    }
    assert_eq!(Api::Vk.spec(), Spec::Vk);
}

#[test]
fn canonical_api_name_normalizes_vulkan_only() {
    assert_eq!(canonical_api_name("vulkan"), "vk");
    assert_eq!(canonical_api_name("vk"), "vk");
    assert_eq!(canonical_api_name("gl"), "gl");
    assert_eq!(canonical_api_name("vulkansc"), "vulkansc");
}

#[test]
fn spec_naming_tables() {
    assert_eq!(Spec::Vk.context_name(), "GloamVulkanContext");
    assert_eq!(Spec::Gl.context_name(), "GloamGLContext");
    assert_eq!(Spec::Glx.name_prefix(), "glX", "capital X matters");
    assert_eq!(Spec::Vk.pfn_prefix(), "PFN_");
    assert_eq!(Spec::Gl.pfn_prefix(), "PFNGL");
}

#[test]
fn spec_from_name_covers_all_and_rejects_unknown() {
    for spec in [Spec::Gl, Spec::Egl, Spec::Glx, Spec::Wgl, Spec::Vk] {
        assert_eq!(Spec::from_name(spec.as_str()), Some(spec));
    }
    assert_eq!(Spec::from_name("gles2"), None, "api name is not a spec");
    assert_eq!(Spec::from_name("vulkan"), None, "xml name is not a spec");
}

#[test]
fn version_prefix_per_api() {
    assert_eq!(Api::Gles2.version_prefix(), "GL_");
    assert_eq!(Api::Vk.version_prefix(), "VK_");
    assert_eq!(Api::Egl.version_prefix(), "EGL_");
}

#[test]
fn api_display_and_sort_order() {
    assert_eq!(Api::Gles2.display(), "GLES2");
    assert_eq!(Api::Glcore.display(), "GL");
    assert!(Api::Gl.sort_order() < Api::Gles1.sort_order());
    assert_eq!(Api::Vk.to_text(), "vk");
    assert_eq!(Spec::Wgl.to_text(), "wgl");
    assert!(Spec::Vk.is_vulkan() && !Spec::Gl.is_vulkan());
}

#[test]
fn cli_api_names_are_exactly_the_nine_spellings() {
    for name in ["gl", "glcore", "gles1", "gles2", "egl", "glx", "wgl", "vk"] {
        assert_eq!(Api::from_cli(name).unwrap().as_str(), name);
    }
    assert_eq!(Api::from_cli("vulkan").unwrap(), Api::Vk);
    for name in ["", "GL", "gles3", "vulkan ", "opengl"] {
        let e = Api::from_cli(name).unwrap_err();
        assert!(e.message().starts_with(&format!("unknown API '{}'", name)));
    }
}

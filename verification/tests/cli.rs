use gloam::cli::ApiRequest;
use gloam::identity::{Api, Spec};
use gloam::ir::Version;

// ---- ApiRequest::parse ----

#[test]
fn parse_gl_core_versioned() {
    let r = ApiRequest::parse("gl:core=3.3").unwrap();
    assert_eq!(r.api, Api::Gl);
    assert_eq!(r.profile.as_deref(), Some("core"));
    assert_eq!(r.version, Some(Version::new(3, 3)));
}

#[test]
fn parse_gl_compatibility_no_version() {
    let r = ApiRequest::parse("gl:compatibility").unwrap();
    assert_eq!(r.api, Api::Gl);
    assert_eq!(r.profile.as_deref(), Some("compatibility"));
    assert!(r.version.is_none());
}

#[test]
fn parse_gl_compat_shortcut_is_rejected() {
    let err = ApiRequest::parse("gl:compat=3.3").unwrap_err().message();
    assert!(err.contains("unknown GL profile 'compat'"), "{err}");
}

#[test]
fn parse_gles2_versioned() {
    let r = ApiRequest::parse("gles2=3.0").unwrap();
    assert_eq!(r.api, Api::Gles2);
    assert!(r.profile.is_none());
    assert_eq!(r.version, Some(Version::new(3, 0)));
}

#[test]
fn parse_vk_versioned() {
    let r = ApiRequest::parse("vk=1.3").unwrap();
    assert_eq!(r.api, Api::Vk);
    assert_eq!(r.version, Some(Version::new(1, 3)));
}

#[test]
fn parse_vulkan_normalizes_to_vk() {
    let r = ApiRequest::parse("vulkan=1.3").unwrap();
    assert_eq!(r.api, Api::Vk, "vulkan should normalize to vk");
    assert_eq!(r.version, Some(Version::new(1, 3)));
}

#[test]
fn parse_bare_name_no_version() {
    let r = ApiRequest::parse("egl").unwrap();
    assert_eq!(r.api, Api::Egl);
    assert!(r.profile.is_none());
    assert!(r.version.is_none());
}

#[test]
fn parse_empty_name_errors() {
    assert!(ApiRequest::parse("=1.0").is_err());
}

#[test]
fn parse_unknown_api_errors_at_parse_time() {
    let err = ApiRequest::parse("dx12").unwrap_err().message();
    assert!(err.contains("unknown API 'dx12'"), "{err}");
}

#[test]
fn parse_gl_without_profile_errors() {
    let err = ApiRequest::parse("gl=3.3").unwrap_err().message();
    assert!(err.contains("requires a profile"), "{err}");
}

#[test]
fn parse_gl_bad_profile_errors() {
    let err = ApiRequest::parse("gl:corr=3.3").unwrap_err().message();
    assert!(err.contains("unknown GL profile 'corr'"), "{err}");
}

#[test]
fn parse_profile_on_non_gl_errors() {
    let err = ApiRequest::parse("vk:core=1.3").unwrap_err().message();
    assert!(err.contains("does not take a profile"), "{err}");
}

#[test]
fn parse_version_missing_minor_errors() {
    assert!(ApiRequest::parse("gl:core=3").is_err());
}

#[test]
fn parse_version_non_numeric_errors() {
    assert!(ApiRequest::parse("gl:core=three.three").is_err());
}

// ---- spec() mapping ----

#[test]
fn spec_gl_family_maps_to_gl() {
    for name in &["gl:core", "gles1", "gles2", "glcore"] {
        let r = ApiRequest::parse(name).unwrap();
        assert_eq!(r.spec(), Spec::Gl, "failed for api request '{name}'");
    }
}

#[test]
fn spec_passthrough() {
    assert_eq!(ApiRequest::parse("egl").unwrap().spec(), Spec::Egl);
    assert_eq!(ApiRequest::parse("glx").unwrap().spec(), Spec::Glx);
    assert_eq!(ApiRequest::parse("wgl").unwrap().spec(), Spec::Wgl);
}

#[test]
fn spec_vulkan_alias() {
    assert_eq!(ApiRequest::parse("vk").unwrap().spec(), Spec::Vk);
    assert_eq!(ApiRequest::parse("vulkan").unwrap().spec(), Spec::Vk);
}

// ---- further cases ----

#[test]
fn parse_request_names_are_not_trimmed() {
    let err = ApiRequest::parse("gles2 =3.2").unwrap_err().message();
    assert!(err.contains("unknown API 'gles2 '"), "{err}");
    let err = ApiRequest::parse("gles2= 3.2").unwrap_err().message();
    assert_eq!(err, "invalid digit found in string");
}

#[test]
fn parse_version_overflow_errors() {
    let err = ApiRequest::parse("vk=4294967296.0").unwrap_err().message();
    assert!(err.contains("too large"), "{err}");
}

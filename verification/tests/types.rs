use gloam::parse::payload::{text_payload, TypePayload};
use gloam::error::Error;
use gloam::fetch::SpecSources;
use gloam::identity::Spec;
use gloam::ir::RawType;
use gloam::parse::parse;
use gloam::parse::types::{parse_types, topological_sort};
use gloam::parse::xml::XmlDoc;
use gloam::parse::SpecDocs;

fn docs(primary: &str) -> SpecDocs {
    SpecDocs {
        primary: XmlDoc::load(primary).unwrap(),
        supplementals: Vec::new(),
    }
}

fn find<'a>(types: &'a [RawType], name: &str) -> &'a RawType {
    types.iter().find(|t| t.name == name).unwrap_or_else(|| panic!("type '{name}' not found"))
}

fn names(types: &[RawType]) -> Vec<&str> {
    types.iter().map(|t| t.name.as_str()).collect()
}

const VK: &str = r#"<registry>
  <types>
    <type category="include" name="X11/Xlib.h"/>
    <type category="include" name="vk_platform">#include "vk_platform.h"</type>
    <type category="include" name="vk_video.h"/>
    <type category="basetype">typedef <type>uint64_t</type> <name>VkFlags64</name>;</type>
    <type requires="VkPipelineStageFlagBits2" category="bitmask">typedef <type>VkFlags64</type> <name>VkPipelineStageFlags2</name>;</type>
    <type category="bitmask" name="VkPipelineStageFlags2KHR" alias="VkPipelineStageFlags2"/>
    <type name="VkPipelineStageFlagBits2" category="enum" bitwidth="64"/>
    <type name="VkPipelineStageFlagBits2KHR" category="enum" alias="VkPipelineStageFlagBits2"/>
    <type category="struct" name="VkExtent2D">
      <member><type>uint32_t</type> <name>width</name></member>
      <member api="vulkansc"><type>uint32_t</type> <name>scOnly</name></member>
      <member api="vulkan,vulkansc"><type>uint32_t</type> <name>height</name>;</member>
    </type>
    <type category="union" name="VkEmpty"/>
    <type category="struct" name="VkExtent2DKHR" alias="VkExtent2D"/>
    <type category="funcpointer" requires="VkExtent2D">
      <proto><type>void</type> <name>PFN_vkVoidFunction</name></proto>
    </type>
    <type category="funcpointer">
      <proto><type>VkBool32</type> <name>PFN_vkDebugCallback</name></proto>
      <param><type>VkExtent2D</type> <name>extent</name></param>
      <param>const <type>char</type>* <name>pMessage</name></param>
    </type>
    <type category="define">// a line comment
#define <name>VK_API_VERSION</name> 1</type>
    <type category="handle"><name></name></type>
    <comment>not a type</comment>
  </types>
</registry>"#;

#[test]
fn type_texts_by_category() {
    let ts = parse_types(&docs(VK));
    assert_eq!(find(&ts, "X11/Xlib.h").raw_c, "#include <X11/Xlib.h>");
    assert_eq!(find(&ts, "vk_platform").raw_c, "#include \"vk_platform.h\"");
    assert_eq!(find(&ts, "vk_video.h").raw_c, "#include \"vk_video.h\"");
    assert_eq!(find(&ts, "VkFlags64").raw_c, "typedef uint64_t VkFlags64;");
    assert_eq!(find(&ts, "VkPipelineStageFlags2KHR").raw_c, "#define VkPipelineStageFlags2KHR VkPipelineStageFlags2");
    assert_eq!(find(&ts, "VkPipelineStageFlagBits2").raw_c, "");
    assert_eq!(find(&ts, "VkPipelineStageFlagBits2KHR").raw_c, "typedef VkPipelineStageFlagBits2 VkPipelineStageFlagBits2KHR;");
    assert_eq!(
        find(&ts, "VkExtent2D").raw_c,
        "typedef struct VkExtent2D {\n    uint32_t width;\n    uint32_t height;\n} VkExtent2D;"
    );
    assert_eq!(find(&ts, "VkEmpty").raw_c, "typedef union VkEmpty {};");
    assert_eq!(find(&ts, "VkExtent2DKHR").raw_c, "typedef VkExtent2D VkExtent2DKHR;");
    assert_eq!(find(&ts, "PFN_vkVoidFunction").raw_c, "typedef void (VKAPI_PTR *PFN_vkVoidFunction)(void);");
    assert_eq!(
        find(&ts, "PFN_vkDebugCallback").raw_c,
        "typedef VkBool32 (VKAPI_PTR *PFN_vkDebugCallback)(VkExtent2D extent, const char* pMessage);"
    );
    assert_eq!(find(&ts, "VK_API_VERSION").raw_c, "/* a line comment */\n#define VK_API_VERSION 1");
    assert_eq!(ts.len(), 14);
}

#[test]
fn type_attributes_and_bitwidth_propagation() {
    let ts = parse_types(&docs(VK));
    let bits = find(&ts, "VkPipelineStageFlagBits2");
    assert_eq!(bits.bitwidth, Some(64));
    assert_eq!(bits.category, "enum");
    assert_eq!(find(&ts, "VkPipelineStageFlagBits2KHR").bitwidth, Some(64));
    assert_eq!(find(&ts, "VkPipelineStageFlags2KHR").bitwidth, None);
    let flags = find(&ts, "VkPipelineStageFlags2");
    assert_eq!(flags.requires.as_deref(), Some("VkPipelineStageFlagBits2"));
    assert_eq!(find(&ts, "VkFlags64").category, "basetype");
    assert_eq!(find(&ts, "VkExtent2DKHR").alias.as_deref(), Some("VkExtent2D"));
}

#[test]
fn types_come_after_their_dependencies() {
    let ts = parse_types(&docs(VK));
    let order = names(&ts);
    let at = |n: &str| order.iter().position(|x| *x == n).unwrap();
    assert!(at("VkPipelineStageFlagBits2") < at("VkPipelineStageFlags2"));
    assert!(at("VkFlags64") < at("VkPipelineStageFlags2"));
    assert!(at("VkPipelineStageFlags2") < at("VkPipelineStageFlags2KHR"));
    assert!(at("VkPipelineStageFlagBits2") < at("VkPipelineStageFlagBits2KHR"));
    assert!(at("VkExtent2D") < at("VkExtent2DKHR"));
    assert!(at("VkExtent2D") < at("PFN_vkDebugCallback"));
    assert!(at("VkExtent2D") < at("PFN_vkVoidFunction"));
}

fn ty(name: &str, requires: Option<&str>, raw_c: &str) -> RawType {
    RawType {
        name: name.to_string(),
        api: None,
        category: String::new(),
        requires: requires.map(str::to_string),
        alias: None,
        bitwidth: None,
        raw_c: raw_c.to_string(),
        protect: None,
    }
}

#[test]
fn kahn_order_is_breadth_first_and_cycles_go_last() {
    let ts = vec![
        ty("C", Some("B"), ""),
        ty("B", Some("A"), ""),
        ty("X", Some("Y"), ""),
        ty("A", None, ""),
        ty("Y", Some("X"), ""),
        ty("D", None, "typedef A D;"),
        ty("Z", Some("X"), ""),
    ];
    let sorted = topological_sort(ts);
    assert_eq!(names(&sorted), vec!["A", "B", "D", "C", "X", "Y", "Z"]);
}

#[test]
fn a_type_naming_itself_is_no_dependency() {
    let ts = vec![ty("S", None, "typedef struct S S;"), ty("T", None, "T")];
    assert_eq!(names(&topological_sort(ts)), vec!["S", "T"]);
}

#[test]
fn whole_registry_parses_into_one_spec() {
    let supplemental = r#"<registry>
  <commands><command><proto>void <name>vkExtra</name></proto></command></commands>
</registry>"#;
    let sources = SpecSources {
        primary: VK.to_string(),
        supplementals: vec![supplemental.to_string()],
        source_keys: vec!["vk.xml".to_string(), "extra.xml".to_string()],
    };
    let raw = parse(&sources, Spec::Vk).unwrap();
    assert_eq!(raw.spec_name, "vk");
    assert_eq!(raw.types.len(), 14);
    assert!(raw.commands.contains_key("vkExtra"));
    assert!(raw.features.is_empty());
    assert!(raw.extensions.is_empty());
    assert!(raw.platforms.is_empty());
}

#[test]
fn unusable_registry_text_names_the_document() {
    let sources = SpecSources {
        primary: "<registry/>".to_string(),
        supplementals: vec!["<registry>".to_string()],
        source_keys: Vec::new(),
    };
    match parse(&sources, Spec::Gl) {
        Err(e @ Error::Xml { supplemental: Some(0), .. }) => {
            assert!(e.message().starts_with("parsing supplemental gl XML #0: "));
        }
        other => panic!("unexpected: {:?}", other.map(|_| ())),
    }
    let bad_primary = SpecSources { primary: "<a>".to_string(), supplementals: Vec::new(), source_keys: Vec::new() };
    match parse(&bad_primary, Spec::Egl) {
        Err(e @ Error::Xml { supplemental: None, .. }) => assert!(e.message().starts_with("parsing primary egl XML: ")),
        other => panic!("unexpected: {:?}", other.map(|_| ())),
    }
}

#[test]
fn text_typedef_bodies_read_into_conditional_arms() {
    let raw = "#ifdef __APPLE__\ntypedef void *GLhandleARB;\n#else\ntypedef unsigned int GLhandleARB;\n#endif";
    let arms = gloam::parse::typedefs::typedef_text_payload(raw).unwrap();
    assert_eq!(arms.len(), 2);
    assert_eq!(arms[0].condition.as_deref(), Some("defined(__APPLE__)"));
    assert_eq!(arms[0].ty.base, "void");
    assert_eq!(arms[0].ty.pointers.len(), 1);
    assert_eq!(arms[0].ty.decl_name.as_deref(), Some("GLhandleARB"));
    assert_eq!(arms[1].condition, None);
    assert_eq!(arms[1].ty.base, "unsigned int");

    let arms = gloam::parse::typedefs::typedef_text_payload("typedef struct __GLsync *GLsync;").unwrap();
    assert_eq!(arms.len(), 1);
    assert!(arms[0].ty.struct_kw);
    assert_eq!(arms[0].condition, None);

    let arms = gloam::parse::typedefs::typedef_text_payload("#if defined(A) \\\n    && B\r\ntypedef int T;\n#endif\n").unwrap();
    assert_eq!(arms[0].condition.as_deref(), Some("defined(A)      && B"));
}

#[test]
fn text_typedef_bodies_outside_the_grammar_are_opaque() {
    use_opaque("#include <KHR/khrplatform.h>");
    use_opaque("typedef unsigned int GLenum");
    use_opaque("typedef int;");
    use_opaque("#ifdef X\n#endif");
    use_opaque("");
    use_opaque("struct _cl_context;");
}

fn use_opaque(raw: &str) {
    assert!(gloam::parse::typedefs::typedef_text_payload(raw).is_none(), "{:?}", raw);
}

#[test]
fn funcpointer_text_reads_return_and_parameters() {
    use_sig(
        "typedef void (GLAPIENTRY *GLDEBUGPROC)(GLenum source, GLenum type, GLuint id, const GLchar *message, const void *userParam);",
        "void",
        &[("source", "GLenum", 0), ("type", "GLenum", 0), ("id", "GLuint", 0), ("message", "GLchar", 1), ("userParam", "void", 1)],
    );
    use_sig("typedef void ( *__eglMustCastToProperFunctionPointerType)(void);", "void", &[]);
    use_sig("  typedef int (*P)()  ", "int", &[]);
    let none = |raw: &str| assert!(gloam::parse::signatures::parse_funcpointer_text(raw).is_none(), "{:?}", raw);
    none("typedef int (P)(int a);");
    none("int (*P)(int a);");
    none("typedef int (*P) int a;");
    none("typedef int (*P)(int a b);");
}

fn use_sig(raw: &str, ret: &str, params: &[(&str, &str, usize)]) {
    let sig = gloam::parse::signatures::parse_funcpointer_text(raw).unwrap();
    assert_eq!(sig.ret.base, ret);
    assert_eq!(sig.params.len(), params.len());
    for ((name, ty), (en, eb, ep)) in sig.params.iter().zip(params) {
        assert_eq!(name, en);
        assert_eq!(ty.base, *eb);
        assert_eq!(ty.pointers.len(), *ep);
    }
}

#[test]
fn fn_sig_skips_void_and_names_parameters() {
    let ps = vec!["const void* pUserData".to_string(), " void ".to_string(), "size_t size".to_string()];
    let sig = gloam::parse::signatures::fn_sig("void*", &ps).unwrap();
    assert_eq!(sig.ret.pointers.len(), 1);
    let names: Vec<&str> = sig.params.iter().map(|(n, _)| n.as_str()).collect();
    assert_eq!(names, vec!["pUserData", "size"]);
    assert!(gloam::parse::signatures::fn_sig("void", &vec!["int 3x".to_string()]).is_none());
    let unnamed = gloam::parse::signatures::fn_sig("int", &vec!["float".to_string()]).unwrap();
    assert_eq!(unnamed.params[0].0, "");
}

#[test]
fn handle_bodies_tell_dispatchable_from_not() {
    let k = gloam_handle_kind;
    assert_eq!(k("VK_DEFINE_HANDLE(VkInstance)"), Some(true));
    assert_eq!(k("  VK_DEFINE_NON_DISPATCHABLE_HANDLE(VkBuffer)"), Some(false));
    assert_eq!(k("#define VkFoo VkBar"), None);
}

fn gloam_handle_kind(raw: &str) -> Option<bool> {
    gloam::parse::signatures::handle_payload(raw)
}

#[test]
fn inline_record_bodies_read_into_members() {
    let raw = "typedef struct {\n    int type;  /* of event (see below) */\n    unsigned long serial;\n    Bool send_event, extra;\n    Display *display;\n} GLXBufferClobberEventSGIX;";
    let ms = gloam::parse::records::record_text_payload(raw).unwrap();
    let names: Vec<&str> = ms.iter().map(|m| m.name.as_str()).collect();
    assert_eq!(names, vec!["type", "serial", "send_event", "extra", "display"]);
    assert_eq!(ms[0].raw_c, "int type");
    assert_eq!(ms[1].ty.base, "unsigned long");
    assert_eq!(ms[3].raw_c, "Bool extra");
    assert_eq!(ms[3].ty.base, "Bool");
    assert_eq!(ms[3].ty.decl_name.as_deref(), Some("extra"));
    assert_eq!(ms[4].ty.pointers.len(), 1);
    assert!(gloam::parse::records::record_text_payload("struct S;").is_none());
    assert!(gloam::parse::records::record_text_payload("struct S { };").is_none());
    assert!(gloam::parse::records::record_text_payload("struct S { int a, 2b; };").is_none());
    assert!(gloam::parse::records::record_text_payload("} struct S {").is_none());
}

#[test]
fn text_payload_dispatches_on_shape() {
    assert!(matches!(text_payload("struct _cl_context;"), TypePayload::Opaque));
    assert!(matches!(text_payload("typedef void (*PFN)(int x);"), TypePayload::Funcpointer(_)));
    assert!(matches!(text_payload("typedef unsigned int GLenum;"), TypePayload::Typedef(_)));
    assert!(matches!(text_payload("#if defined(X)\ntypedef int T;\n#endif"), TypePayload::Typedef(_)));
    assert!(matches!(text_payload("  struct EGLClientPixmapHI { void *pData; EGLint iWidth; };"), TypePayload::Members(_)));
    // A record is read as a record even when a member has parentheses.
    assert!(matches!(text_payload("typedef struct { int (*fn)(void); } S;"), TypePayload::Opaque));
    assert!(matches!(text_payload("#include <KHR/khrplatform.h>"), TypePayload::Opaque));
}

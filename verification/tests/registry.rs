use indexmap::IndexMap;
use gloam::parse::commands::{parse_commands, walk_alias_chain};
use gloam::parse::features::{parse_extension_depends, parse_extensions, parse_features, parse_require};
use gloam::parse::xml::{XmlDoc, XmlError};
use gloam::parse::{extract_raw_c, parse_platforms, SpecDocs};

fn docs(primary: &str) -> SpecDocs {
    SpecDocs {
        primary: XmlDoc::load(primary).unwrap(),
        supplementals: Vec::new(),
    }
}

const GL: &str = r#"<registry>
  <commands namespace="GL">
    <command>
      <proto>void <name>glCullFace</name></proto>
      <param><ptype>GLenum</ptype> <name>mode</name></param>
    </command>
    <command>
      <proto>const <ptype>GLubyte</ptype> *<name>glGetString</name></proto>
      <param><ptype>GLenum</ptype> <name>name</name></param>
    </command>
    <command>
      <proto>void <name>glBlendColor</name></proto>
      <param>const <ptype>GLfloat</ptype> <name>color</name>[4]</param>
    </command>
    <command name="glCullFaceEXT"><alias name="glCullFace"/></command>
    <command name="glLoopA" alias="glLoopB"/>
    <command name="glLoopB" alias="glLoopA"/>
  </commands>
  <feature api="gl" name="GL_VERSION_1_0" number="1.0">
    <require>
      <command name="glCullFace"/>
      <enum name="GL_FRONT"/>
      <type name="GLenum"/>
    </require>
    <remove profile="core"><command name="glBegin"/></remove>
  </feature>
  <feature api="gles2,gl" name="GL_ES_VERSION_2_0" number="2.0">
    <require><command name="glGetString"/></require>
  </feature>
  <feature api="gl" name="GL_VERSION_1_0_internal" number="1.0" apitype="internal">
    <require><command name="glBlendColor"/></require>
  </feature>
  <extensions>
    <extension name="GL_ARB_sync" supported="gl|glcore" number="66" requires="GL_ARB_base">
      <require><command name="glFenceSync"/><enum name="GL_X" extends="GLenum"/></require>
    </extension>
    <extension name="GL_OFF" supported="disabled"/>
    <extension name="GL_ARB_sync" supported="gles2"/>
    <extension name="VK_KHR_win32_surface" supported="vulkan" platform="win32"
               depends="VK_KHR_surface+(VK_VERSION_1_1,VK_KHR_get_physical_device_properties2)"/>
  </extensions>
  <platforms>
    <platform name="win32" protect="VK_USE_PLATFORM_WIN32_KHR"/>
  </platforms>
</registry>"#;

#[test]
fn malformed_xml_is_a_syntax_error() {
    match XmlDoc::load("<registry><a></registry>") {
        Err(XmlError::Syntax { message }) => assert!(!message.is_empty()),
        other => panic!("unexpected: {:?}", other.map(|_| ())),
    }
}

#[test]
fn features_split_apis_merge_internal_and_sort() {
    let d = docs(GL);
    let fs = parse_features(&d, "gl").unwrap();
    let keys: Vec<(String, String)> = fs.iter().map(|f| (f.api.clone(), f.version.to_text())).collect();
    assert_eq!(
        keys,
        vec![
            ("gl".to_string(), "1.0".to_string()),
            ("gl".to_string(), "2.0".to_string()),
            ("gles2".to_string(), "2.0".to_string()),
        ]
    );
    let gl10 = &fs[0];
    assert_eq!(gl10.name, "GL_VERSION_1_0");
    assert_eq!(gl10.requires.len(), 2, "internal requirements merged in");
    assert_eq!(gl10.requires[0].commands, vec!["glCullFace"]);
    assert_eq!(gl10.requires[0].enums, vec!["GL_FRONT"]);
    assert_eq!(gl10.requires[0].types, vec!["GLenum"]);
    assert_eq!(gl10.requires[1].commands, vec!["glBlendColor"]);
    assert_eq!(gl10.removes[0].profile.as_deref(), Some("core"));
    assert_eq!(gl10.removes[0].commands, vec!["glBegin"]);
}

#[test]
fn extensions_dedupe_skip_disabled_and_resolve_platforms() {
    let d = docs(GL);
    let platforms = parse_platforms(&d);
    let exts = parse_extensions(&d, "vk", &platforms).unwrap();
    assert_eq!(exts.len(), 2);
    assert_eq!(exts[0].name, "GL_ARB_sync");
    assert_eq!(exts[0].supported, vec!["gl", "glcore"]);
    assert_eq!(exts[0].number, Some(66));
    assert_eq!(exts[0].depends, vec!["GL_ARB_base"]);
    assert_eq!(exts[0].requires[0].commands, vec!["glFenceSync"]);
    assert!(exts[0].requires[0].enums.is_empty(), "extending enums are not listed");
    assert_eq!(exts[1].protect, vec!["VK_USE_PLATFORM_WIN32_KHR"]);
    assert_eq!(
        exts[1].depends,
        vec!["VK_KHR_surface", "VK_VERSION_1_1", "VK_KHR_get_physical_device_properties2"]
    );
    let none = parse_extensions(&d, "vk", &IndexMap::new()).unwrap();
    assert!(none[1].protect.is_empty());
}

#[test]
fn broken_glx_extensions_are_dropped() {
    let xml = r#"<registry><extensions>
        <extension name="GLX_SGIX_dmbuffer" supported="glx"/>
        <extension name="GLX_ARB_fbconfig_float" supported="glx"/>
    </extensions></registry>"#;
    let d = docs(xml);
    let p = parse_platforms(&d);
    assert_eq!(parse_extensions(&d, "glx", &p).unwrap().len(), 1);
    assert_eq!(parse_extensions(&d, "gl", &p).unwrap().len(), 2);
}

#[test]
fn commands_parse_prototypes_params_and_aliases() {
    let d = docs(GL);
    let cmds = parse_commands(&d);
    let cull = cmds.get("glCullFace").unwrap();
    assert_eq!(cull.return_type, "void");
    assert_eq!(cull.params[0].name, "mode");
    assert_eq!(cull.params[0].type_raw, "GLenum");
    assert_eq!(cull.params[0].base_name, "GLenum");
    let gs = cmds.get("glGetString").unwrap();
    assert_eq!(gs.return_type, "const GLubyte *");
    let bc = cmds.get("glBlendColor").unwrap();
    assert_eq!(bc.params[0].type_raw, "const GLfloat color[4]");
    assert_eq!(bc.params[0].base_name, "GLfloat");
    let ext = cmds.get("glCullFaceEXT").unwrap();
    assert_eq!(ext.alias.as_deref(), Some("glCullFace"));
    assert_eq!(ext.return_type, "void", "prototype copied from the alias target");
    assert_eq!(ext.params.len(), 1);
    let looped = cmds.get("glLoopA").unwrap();
    assert!(looped.return_type.is_empty(), "a cyclic chain stays unresolved");
    assert!(walk_alias_chain(&cmds, "glLoopA").is_none());
    assert_eq!(walk_alias_chain(&cmds, "glCullFaceEXT").unwrap().0, "void");
}

#[test]
fn alias_fixup_keeps_every_command_in_place() {
    let cmds = parse_commands(&docs(GL));
    let names: Vec<&str> = cmds.keys().map(|k| k.as_str()).collect();
    assert_eq!(names, vec!["glCullFace", "glGetString", "glBlendColor", "glCullFaceEXT", "glLoopA", "glLoopB"]);
}

#[test]
fn raw_c_inlines_elements_and_apientry() {
    let xml = r#"<types><type>typedef void (<apientry/> *<name>PFN</name>)(<type>int</type> x); // note<comment>skip</comment></type></types>"#;
    let d = XmlDoc::load(xml).unwrap();
    let root = d.root_element().unwrap();
    let ty = d.children_named(root, "type")[0];
    assert_eq!(extract_raw_c(&d, ty), "typedef void (APIENTRY *PFN)(int x); /* note */\n");
}

#[test]
fn require_block_fields() {
    let xml = r#"<require api="gles2" profile="core"><type name="A"/><enum name=""/><command name="c"/></require>"#;
    let d = XmlDoc::load(xml).unwrap();
    let root = d.root_element().unwrap();
    let r = parse_require(&d, root);
    assert_eq!(r.api.as_deref(), Some("gles2"));
    assert_eq!(r.profile.as_deref(), Some("core"));
    assert_eq!(r.types, vec!["A"]);
    assert!(r.enums.is_empty(), "empty names are skipped");
    assert_eq!(r.commands, vec!["c"]);
    assert!(parse_extension_depends(&d, root).is_empty());
}

use gloam::error::Error;
use gloam::ir::{RawEnum, RawEnumGroup};
use gloam::parse::enums::parse_enums;
use gloam::parse::xml::XmlDoc;
use gloam::parse::SpecDocs;

fn docs(primary: &str) -> SpecDocs {
    SpecDocs {
        primary: XmlDoc::load(primary).unwrap(),
        supplementals: Vec::new(),
    }
}

fn values(g: &RawEnumGroup) -> Vec<(String, Option<String>)> {
    g.values.iter().map(|e| (e.name.clone(), e.value.clone())).collect()
}

fn pair(name: &str, value: &str) -> (String, Option<String>) {
    (name.to_string(), Some(value.to_string()))
}

const VK: &str = r#"<registry>
  <enums name="API Constants">
    <enum name="VK_MAX_EXTENSION_NAME_SIZE" value="256" type="uint32_t"/>
    <enum name="VK_MAX_EXTENSION_NAME_SIZE" value="999"/>
    <unused start="1"/>
  </enums>
  <enums name="VkImageLayout" type="enum">
    <enum name="VK_IMAGE_LAYOUT_UNDEFINED" value="0"/>
    <enum name="VK_IMAGE_LAYOUT_GENERAL" value="1" comment="general"/>
    <enum name="VK_IMAGE_LAYOUT_UNDEFINED" value="7"/>
  </enums>
  <enums name="VkCullModeFlagBits" type="bitmask" bitwidth="64">
    <enum name="VK_CULL_MODE_FRONT_BIT" bitpos="0"/>
    <enum name="VK_CULL_MODE_BACK_BIT" bitpos="1"/>
  </enums>
  <enums name="VkEmptyFlagBits" type="bitmask"/>
  <enums name="VkUnusedBits" type="bitmask"/>
  <feature api="vulkan" name="VK_VERSION_1_1" number="1.1">
    <require>
      <enum extends="VkImageLayout" extnumber="2" offset="3" name="VK_IMAGE_LAYOUT_X"/>
      <enum extends="VkEmptyFlagBits" bitpos="63" name="VK_EMPTY_TOP"/>
    </require>
  </feature>
  <extensions>
    <extension name="VK_KHR_swapchain" number="2" supported="vulkan">
      <require>
        <enum value="70" name="VK_KHR_SWAPCHAIN_SPEC_VERSION"/>
        <enum value="&quot;VK_KHR_swapchain&quot;" name="VK_KHR_SWAPCHAIN_EXTENSION_NAME"/>
        <enum offset="1" extends="VkImageLayout" dir="-" name="VK_IMAGE_LAYOUT_PRESENT_SRC_KHR"/>
        <enum name="VK_ALIAS_ONLY" alias="VK_KHR_SWAPCHAIN_SPEC_VERSION"/>
        <enum extends="VkImageLayout" name="VK_IMAGE_LAYOUT_GENERAL" value="1"/>
        <enum extends="VkMissing" name="VK_MISSING_X" value="5"/>
      </require>
    </extension>
  </extensions>
</registry>"#;

#[test]
fn vulkan_groups_collect_extension_values_and_drop_empty() {
    let (groups, _) = parse_enums(&docs(VK), "vk").unwrap();
    let names: Vec<&str> = groups.iter().map(|g| g.name.as_str()).collect();
    assert_eq!(names, vec!["VkImageLayout", "VkCullModeFlagBits", "VkEmptyFlagBits"]);
    assert_eq!(
        values(&groups[0]),
        vec![
            pair("VK_IMAGE_LAYOUT_UNDEFINED", "0"),
            pair("VK_IMAGE_LAYOUT_GENERAL", "1"),
            pair("VK_IMAGE_LAYOUT_X", "1000001003"),
            pair("VK_IMAGE_LAYOUT_PRESENT_SRC_KHR", "-1000001001"),
        ]
    );
    assert_eq!(groups[0].values[1].comment, "general");
    assert_eq!(groups[0].values[2].parent_type.as_deref(), Some("VkImageLayout"));
    assert_eq!(groups[0].bitwidth, None);
    assert_eq!(groups[1].bitwidth, Some(64));
    assert_eq!(
        values(&groups[1]),
        vec![pair("VK_CULL_MODE_FRONT_BIT", "0x0000000000000001"), pair("VK_CULL_MODE_BACK_BIT", "0x0000000000000002")]
    );
    assert_eq!(values(&groups[2]), vec![pair("VK_EMPTY_TOP", "0x8000000000000000")]);
}

#[test]
fn vulkan_flat_constants_keep_first_declaration() {
    let (_, flat) = parse_enums(&docs(VK), "vk").unwrap();
    let keys: Vec<&str> = flat.keys().map(|k| k.as_str()).collect();
    assert_eq!(
        keys,
        vec!["VK_MAX_EXTENSION_NAME_SIZE", "VK_KHR_SWAPCHAIN_SPEC_VERSION", "VK_KHR_SWAPCHAIN_EXTENSION_NAME"]
    );
    let size: &RawEnum = &flat["VK_MAX_EXTENSION_NAME_SIZE"];
    assert_eq!(size.value.as_deref(), Some("256"));
    assert_eq!(size.type_suffix.as_deref(), Some("uint32_t"));
    assert_eq!(size.parent_type, None);
    assert_eq!(flat["VK_KHR_SWAPCHAIN_EXTENSION_NAME"].value.as_deref(), Some("\"VK_KHR_swapchain\""));
}

#[test]
fn other_specs_read_every_block_as_constants() {
    let (groups, flat) = parse_enums(&docs(VK), "gl").unwrap();
    assert!(groups.is_empty());
    let keys: Vec<&str> = flat.keys().map(|k| k.as_str()).collect();
    assert_eq!(
        keys,
        vec![
            "VK_MAX_EXTENSION_NAME_SIZE",
            "VK_IMAGE_LAYOUT_UNDEFINED",
            "VK_IMAGE_LAYOUT_GENERAL",
            "VK_CULL_MODE_FRONT_BIT",
            "VK_CULL_MODE_BACK_BIT",
        ]
    );
    assert_eq!(flat["VK_IMAGE_LAYOUT_UNDEFINED"].value.as_deref(), Some("0"));
}

#[test]
fn conflicting_extension_value_is_an_error() {
    let xml = r#"<registry>
  <enums name="VkImageLayout" type="enum"><enum name="VK_A" value="1"/></enums>
  <extensions><extension name="E" number="3"><require>
    <enum extends="VkImageLayout" name="VK_A" value="2"/>
  </require></extension></extensions>
</registry>"#;
    match parse_enums(&docs(xml), "vk") {
        Err(e @ Error::ConflictingEnum { .. }) => assert_eq!(
            e.message(),
            "extension enum 'VK_A' required multiple times with different values"
        ),
        other => panic!("unexpected: {:?}", other.map(|_| ())),
    }
}

#[test]
fn enum_errors_name_their_cause() {
    let no_name = r#"<registry><enums><enum value="1"/></enums></registry>"#;
    assert!(matches!(parse_enums(&docs(no_name), "gl"), Err(Error::EnumNoName)));
    let no_group_name = r#"<registry><enums type="enum"><enum name="A" value="1"/></enums></registry>"#;
    assert!(matches!(parse_enums(&docs(no_group_name), "vk"), Err(Error::GroupNoName)));
    let offset = r#"<registry><enums><enum name="A" offset="1"/></enums></registry>"#;
    match parse_enums(&docs(offset), "gl") {
        Err(Error::OffsetWithoutExtnumber { name }) => assert_eq!(name, "A"),
        other => panic!("unexpected: {:?}", other.map(|_| ())),
    }
    let wide = r#"<registry><enums><enum name="A" bitpos="64"/></enums></registry>"#;
    assert!(matches!(parse_enums(&docs(wide), "gl"), Err(Error::BitposTooWide { pos: 64 })));
    let bad = r#"<registry><enums><enum name="A" bitpos="x"/></enums></registry>"#;
    assert!(matches!(parse_enums(&docs(bad), "gl"), Err(Error::InvalidInteger { .. })));
}

#[test]
fn offset_uses_own_extnumber_before_the_owner() {
    let xml = r#"<registry>
  <enums name="G" type="enum"/>
  <extensions><extension name="E" number="5"><require>
    <enum extends="G" name="A" offset="0"/>
    <enum extends="G" name="B" offset="2" extnumber="1"/>
    <enum extends="G" name="C" offset="0" extnumber="x"/>
  </require></extension></extensions>
</registry>"#;
    let (groups, _) = parse_enums(&docs(xml), "vk").unwrap();
    assert_eq!(
        values(&groups[0]),
        vec![pair("A", "1000004000"), pair("B", "1000000002"), pair("C", "1000004000")]
    );
}

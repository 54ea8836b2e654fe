use gloam::ir::{CommandScope, RawCommand, RawParam};
use gloam::parse::commands::{extract_base_type, infer_vulkan_scope};

#[test]
fn base_type_strips_qualifiers_and_pointers() {
    assert_eq!(extract_base_type("const GLubyte *"), "GLubyte");
    assert_eq!(extract_base_type("VkInstance"), "VkInstance");
    assert_eq!(extract_base_type("unsigned int"), "int");
    assert_eq!(extract_base_type("struct AHardwareBuffer*"), "AHardwareBuffer");
    assert_eq!(extract_base_type("const GLchar *const*"), "GLchar");
}

#[test]
fn base_type_does_not_corrupt_substring_matches() {
    assert_eq!(extract_base_type("Dconstraint *"), "Dconstraint");
    assert_eq!(extract_base_type("unsignedFoo"), "unsignedFoo");
}

#[test]
fn base_type_empty_input() {
    assert_eq!(extract_base_type(""), "");
    assert_eq!(extract_base_type(" * "), "");
}

fn command(name: &str, first: Option<&str>) -> RawCommand {
    RawCommand {
        name: name.to_string(),
        api: None,
        return_type: "void".to_string(),
        params: first
            .map(|t| {
                vec![RawParam {
                    name: "x".to_string(),
                    type_raw: t.to_string(),
                    base_name: t.to_string(),
                    api: None,
                }]
            })
            .unwrap_or_default(),
        alias: None,
    }
}

#[test]
fn scope_follows_first_param_handle() {
    assert_eq!(infer_vulkan_scope(&command("vkQueueSubmit", Some("VkQueue"))), CommandScope::Device);
    assert_eq!(infer_vulkan_scope(&command("vkCmdDraw", Some("VkCommandBuffer"))), CommandScope::Device);
    assert_eq!(
        infer_vulkan_scope(&command("vkEnumeratePhysicalDevices", Some("VkInstance"))),
        CommandScope::Instance
    );
    assert_eq!(
        infer_vulkan_scope(&command("vkGetPhysicalDeviceFeatures", Some("VkPhysicalDevice"))),
        CommandScope::Instance
    );
    assert_eq!(infer_vulkan_scope(&command("vkCreateInstance", Some("VkInstanceCreateInfo"))), CommandScope::Global);
    assert_eq!(infer_vulkan_scope(&command("vkEnumerateInstanceVersion", None)), CommandScope::Global);
}

#[test]
fn get_instance_proc_addr_is_unknown_scope() {
    assert_eq!(
        infer_vulkan_scope(&command("vkGetInstanceProcAddr", Some("VkInstance"))),
        CommandScope::Unknown
    );
}

use gloam::error::Error;
use gloam::generator::rust::vk_struct::{emit_vk_struct, Member};
use gloam::ir::RawType;
use gloam::parse::ctype::TypeRef;
use gloam::parse::types::topological_sort;

fn member(decl: &str) -> Member {
    let ty = TypeRef::parse(decl).unwrap();
    let name = ty.decl_name.clone().unwrap();
    Member { name, ty }
}

#[test]
fn bitfield_runs_pack_into_u32_carriers() {
    let members = vec![
        member("VkTransformMatrixKHR transform"),
        member("uint32_t instanceCustomIndex:24"),
        member("uint32_t mask:8"),
        member("uint32_t instanceShaderBindingTableRecordOffset:24"),
        member("VkGeometryInstanceFlagsKHR flags:8"),
        member("uint64_t accelerationStructureReference"),
    ];
    let defined = vec!["VkTransformMatrixKHR".to_string(), "VkGeometryInstanceFlagsKHR".to_string()];
    let mut platform: Vec<String> = Vec::new();
    let mut s = String::from("// head\n");
    emit_vk_struct("VkAccelerationStructureInstanceKHR", false, &members, &mut s, &defined, &mut platform).unwrap();
    assert!(s.starts_with("// head\n#[repr(C)]\n#[derive(Copy, Clone)]\npub struct VkAccelerationStructureInstanceKHR {\n"));
    assert!(s.contains("    pub transform: VkTransformMatrixKHR,\n"));
    assert!(s.contains("    pub instanceCustomIndex_and_mask: u32,\n"));
    assert!(s.contains("    pub instanceShaderBindingTableRecordOffset_and_flags: u32,\n"));
    assert!(s.contains("    pub accelerationStructureReference: u64,\n}\nimpl VkAccelerationStructureInstanceKHR {\n"));
    assert!(s.contains("    /// Bits 0..24 of `instanceCustomIndex_and_mask` (C bitfield `instanceCustomIndex:24`).\n"));
    assert!(s.contains("    pub fn instanceCustomIndex(&self) -> u32 {\n        (self.instanceCustomIndex_and_mask >> 0) & 0xffffff\n    }\n"));
    assert!(s.contains("    pub fn mask(&self) -> u32 {\n        (self.instanceCustomIndex_and_mask >> 24) & 0xff\n    }\n"));
    assert!(s.contains(
        "    pub fn set_mask(&mut self, v: u32) {\n        self.instanceCustomIndex_and_mask = (self.instanceCustomIndex_and_mask & !(0xff << 24)) | ((v & 0xff) << 24);\n    }\n"
    ));
    assert!(s.contains("    /// Bits 24..32 of `instanceShaderBindingTableRecordOffset_and_flags` (C bitfield `flags:8`).\n"));
    assert!(s.ends_with("    }\n}\n"));
    assert!(platform.is_empty());
}

#[test]
fn union_without_bitfields_has_no_impl() {
    let members = vec![member("float float32[4]"), member("int32_t int32[4]"), member("uint32_t type")];
    let mut platform: Vec<String> = Vec::new();
    let mut s = String::new();
    emit_vk_struct("VkClearColorValue", true, &members, &mut s, &Vec::new(), &mut platform).unwrap();
    assert_eq!(
        s,
        "#[repr(C)]\n#[derive(Copy, Clone)]\npub union VkClearColorValue {\n    pub float32: [f32; 4 as usize],\n    pub int32: [i32; 4 as usize],\n    pub type_: u32,\n}\n"
    );
}

#[test]
fn full_width_bitfield_uses_all_ones_mask() {
    let members = vec![member("uint32_t a:32"), member("uint32_t b:1")];
    let mut platform: Vec<String> = Vec::new();
    let mut s = String::new();
    emit_vk_struct("VkWide", false, &members, &mut s, &Vec::new(), &mut platform).unwrap();
    assert!(s.contains("    pub a: u32,\n    pub b: u32,\n}\n"));
    assert!(s.contains("(self.a >> 0) & 0xffffffff"));
    assert!(s.contains("(self.b >> 0) & 0x1"));
}

#[test]
fn refused_member_base_names_the_member_and_writes_nothing() {
    let members = vec![member("HWND hwnd"), member("StdVideoH264SpsFlags flags"), member("Mystery m")];
    let mut platform: Vec<String> = Vec::new();
    let mut s = String::from("keep");
    match emit_vk_struct("VkVideoThing", false, &members, &mut s, &Vec::new(), &mut platform) {
        Err(e @ Error::InMember { video: true, .. }) => assert!(e
            .message()
            .starts_with("VkVideoThing member 'flags': base type 'StdVideoH264SpsFlags' lives in the vk_video headers")),
        other => panic!("unexpected: {:?}", other),
    }
    assert_eq!(s, "keep");
    assert_eq!(platform, vec!["HWND".to_string()]);
    let members = vec![member("Mystery m")];
    match emit_vk_struct("VkOther", false, &members, &mut s, &Vec::new(), &mut platform) {
        Err(e @ Error::InMember { video: false, .. }) => assert_eq!(
            e.message(),
            "VkOther member 'm': base type 'Mystery' is not an ABI scalar, a defined Vulkan type, or a known platform type"
        ),
        other => panic!("unexpected: {:?}", other),
    }
}

fn ty(name: &str, requires: Option<&str>, raw_c: &str) -> RawType {
    RawType {
        name: name.to_string(),
        api: None,
        category: String::new(),
        requires: requires.map(str::to_string),
        alias: None,
        bitwidth: None,
        raw_c: raw_c.to_string(),
        protect: None,
    }
}

#[test]
fn acyclic_dependencies_leave_no_type_behind() {
    let ts = vec![
        ty("D", None, "typedef struct D { C c; B b; } D;"),
        ty("C", Some("B"), ""),
        ty("B", Some("A"), ""),
        ty("A", None, ""),
    ];
    let names: Vec<String> = topological_sort(ts).into_iter().map(|t| t.name).collect();
    assert_eq!(names, vec!["A", "B", "C", "D"]);
}

#[test]
fn dependency_order_is_the_same_every_time() {
    let make = || {
        vec![
            ty("E", Some("F"), ""),
            ty("F", Some("E"), ""),
            ty("C", None, "typedef struct C { A a; } C;"),
            ty("B", None, ""),
            ty("A", None, ""),
            ty("G", Some("E"), ""),
        ]
    };
    let first: Vec<String> = topological_sort(make()).into_iter().map(|t| t.name).collect();
    let second: Vec<String> = topological_sort(make()).into_iter().map(|t| t.name).collect();
    assert_eq!(first, second);
    assert_eq!(first, vec!["B", "A", "C", "E", "F", "G"]);
}

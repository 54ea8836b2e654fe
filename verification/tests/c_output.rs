use std::io::Write;

use gloam::bundled::inflate;
use gloam::error::Error;
use gloam::generator::c::model::FnNameLayout;
use gloam::generator::c::output::{
    aux_header_seed, c_output_paths, header_guard, next_header, output_stem, plan_c_output,
    queue_includes, quoted_includes, vk_offset_groups, OffsetCommand,
};
use gloam::invocation::command_line_text;

fn strings(v: &[&str]) -> Vec<String> {
    v.iter().map(|s| s.to_string()).collect()
}

// ---- output tree ----

#[test]
fn output_paths_follow_the_stem() {
    let (h, c) = c_output_paths("gl");
    assert_eq!(h, "include/gloam/gl.h");
    assert_eq!(c, "src/gl.c");
    let (h, c) = c_output_paths("vulkan");
    assert_eq!(h, "include/gloam/vulkan.h");
    assert_eq!(c, "src/vulkan.c");
}

#[test]
fn header_guard_is_upper_stem() {
    assert_eq!(header_guard("gles2"), "GLES2_H");
    assert_eq!(header_guard("vk"), "VK_H");
}

#[test]
fn output_stem_picks_first_api_unless_merged() {
    let apis = strings(&["gles2", "gl"]);
    assert_eq!(output_stem(false, &apis, "gl"), "gles2");
    assert_eq!(output_stem(true, &apis, "gl"), "gl");
    assert_eq!(output_stem(false, &Vec::new(), "egl"), "egl");
}

// ---- auxiliary headers ----

#[test]
fn aux_seed_starts_with_xxhash_except_unchecked_vulkan() {
    let req = strings(&["KHR/khrplatform.h", "vk_video/vulkan_video_codec_h264std.h"]);
    assert_eq!(
        aux_header_seed(&req, false, true),
        strings(&["xxhash.h", "KHR/khrplatform.h", "vk_video/vulkan_video_codec_h264std.h"])
    );
    assert_eq!(
        aux_header_seed(&req, true, false),
        strings(&["xxhash.h", "KHR/khrplatform.h", "vk_video/vulkan_video_codec_h264std.h"])
    );
    assert_eq!(
        aux_header_seed(&req, true, true),
        strings(&["KHR/khrplatform.h", "vk_video/vulkan_video_codec_h264std.h"])
    );
    assert_eq!(aux_header_seed(&Vec::new(), false, false), strings(&["xxhash.h"]));
}

#[test]
fn quoted_includes_resolve_against_header_dir() {
    let content = "#ifndef X\n#include \"vulkan_video_codecs_common.h\"\n  #  include <stdint.h>\n\
                   \t#include   \"sub/other.h\"  \r\n#include \"unterminated.h\n#define Y\n#include\"tight.h\"";
    assert_eq!(
        quoted_includes(content, "vk_video"),
        strings(&[
            "vk_video/vulkan_video_codecs_common.h",
            "vk_video/sub/other.h",
            "vk_video/tight.h",
        ])
    );
    assert_eq!(
        quoted_includes(content, ""),
        strings(&["vulkan_video_codecs_common.h", "sub/other.h", "tight.h"])
    );
}

#[test]
fn quoted_includes_skip_angle_brackets_and_other_lines() {
    assert!(quoted_includes("#include <vulkan/vk_platform.h>\nint x;\n", "vulkan").is_empty());
    assert!(quoted_includes("", "KHR").is_empty());
    // `#  include` is not the `#include` token the scan looks for.
    assert!(quoted_includes("#  include \"a.h\"\n", "").is_empty());
}

#[test]
fn header_queue_copies_each_header_once_last_in_first_out() {
    let mut queue = aux_header_seed(&strings(&["KHR/khrplatform.h", "vk_video/a.h"]), false, true);
    let mut copied: Vec<String> = Vec::new();
    let mut order: Vec<String> = Vec::new();
    while let Some(h) = next_header(&mut queue, &mut copied) {
        let found = match h.as_str() {
            "vk_video/a.h" => strings(&["vk_video/common.h", "vk_video/b.h"]),
            "vk_video/b.h" => strings(&["vk_video/common.h", "vk_video/a.h"]),
            _ => Vec::new(),
        };
        queue_includes(&mut queue, &copied, found);
        order.push(h);
    }
    assert_eq!(
        order,
        strings(&["vk_video/a.h", "vk_video/b.h", "vk_video/common.h", "KHR/khrplatform.h", "xxhash.h"])
    );
    assert_eq!(copied, order);
    assert!(queue.is_empty());
}

#[test]
fn next_header_passes_over_copied_ones() {
    let mut queue = strings(&["a.h", "b.h", "c.h"]);
    let mut copied = strings(&["c.h", "b.h"]);
    assert_eq!(next_header(&mut queue, &mut copied), Some("a.h".to_string()));
    assert!(queue.is_empty());
    assert_eq!(copied, strings(&["c.h", "b.h", "a.h"]));
    assert_eq!(next_header(&mut queue, &mut copied), None);
}

// ---- name blob ----

#[test]
fn name_blob_size_and_sentinel() {
    let names = strings(&["vkA", "vkBB"]);
    let l = FnNameLayout::build(&names);
    assert_eq!(l.offsets, vec![0, 4]);
    assert_eq!(l.blob_size, 9);
    assert_eq!(l.offset_type, "uint16_t");
    assert_eq!(l.unchecked_sentinel(), 65535);
    let big: Vec<String> = (0..7000).map(|i| format!("vkCommand{i:05}")).collect();
    let l = FnNameLayout::build(&big);
    assert_eq!(l.blob_size, 7000 * 15);
    assert_eq!(l.offset_type, "uint32_t");
    assert_eq!(l.unchecked_sentinel(), 4294967295);
    let empty = FnNameLayout::build(&[]);
    assert_eq!(empty.blob_size, 0);
}

// ---- unchecked Vulkan offset table ----

fn cmd(index: u16, name: &str, protect: Option<&str>) -> OffsetCommand {
    OffsetCommand { index, name: name.to_string(), protect: protect.map(str::to_string) }
}

#[test]
fn offset_groups_coalesce_runs_by_guard() {
    let cmds = vec![
        cmd(0, "vkA", None),
        cmd(2, "vkC", None),
        cmd(1, "vkB", Some("VK_USE_PLATFORM_WIN32_KHR")),
        cmd(3, "vkD", Some("VK_USE_PLATFORM_WIN32_KHR")),
        cmd(4, "vkE", Some("VK_USE_PLATFORM_XCB_KHR")),
        cmd(5, "vkF", None),
    ];
    let offsets = vec![0, 4, 8, 12, 16, 20];
    let groups = vk_offset_groups(&cmds, &offsets, true, true);
    let shape: Vec<(String, Vec<(u16, u32, String, bool)>)> = groups
        .iter()
        .map(|g| {
            (
                g.protect.clone(),
                g.entries.iter().map(|e| (e.index, e.offset, e.name.clone(), e.last)).collect(),
            )
        })
        .collect();
    assert_eq!(
        shape,
        vec![
            (
                String::new(),
                vec![(0, 0, "vkA".to_string(), false), (2, 8, "vkC".to_string(), false)]
            ),
            (
                "VK_USE_PLATFORM_WIN32_KHR".to_string(),
                vec![(1, 4, "vkB".to_string(), false), (3, 12, "vkD".to_string(), false)]
            ),
            ("VK_USE_PLATFORM_XCB_KHR".to_string(), vec![(4, 16, "vkE".to_string(), false)]),
            (String::new(), vec![(5, 20, "vkF".to_string(), true)]),
        ]
    );
}

#[test]
fn offset_groups_only_for_unchecked_vulkan() {
    let cmds = vec![cmd(0, "vkA", None)];
    let offsets = vec![0];
    assert!(vk_offset_groups(&cmds, &offsets, false, true).is_empty());
    assert!(vk_offset_groups(&cmds, &offsets, true, false).is_empty());
    assert!(vk_offset_groups(&Vec::new(), &Vec::new(), true, true).is_empty());
}

// ---- bundled blobs ----

fn deflate(text: &[u8]) -> Vec<u8> {
    let mut e = flate2::write::DeflateEncoder::new(Vec::new(), flate2::Compression::default());
    e.write_all(text).unwrap();
    e.finish().unwrap()
}

#[test]
fn inflate_round_trips_text() {
    let text = "<registry>\n  <types/>\n</registry>\n";
    let blob = deflate(text.as_bytes());
    assert_ne!(blob, text.as_bytes());
    assert_eq!(inflate(&blob).unwrap(), text);
    assert_eq!(inflate(&deflate(b"")).unwrap(), "");
}

#[test]
fn inflate_reports_corrupt_blobs() {
    assert!(matches!(inflate(&[0xff, 0xff, 0xff, 0xff]), Err(Error::BlobInflate)));
    let not_utf8 = deflate(&[0x66, 0x6f, 0xff, 0xfe]);
    assert!(matches!(inflate(&not_utf8), Err(Error::BlobNotUtf8)));
    assert_eq!(
        Error::BlobInflate.message(),
        "bundled blob failed to inflate \u{2014} corrupt build artifact"
    );
}

// ---- recorded command line ----

#[test]
fn command_line_drops_lock_and_renames_program() {
    let raw = strings(&["/usr/bin/gloam", "--api", "gl:core=3.3", "--lock", "m.json", "c", "--alias"]);
    assert_eq!(command_line_text(&raw), "gloam --api gl:core=3.3 c --alias");
    let raw = strings(&["./gloam", "--lock=m.json", "--out-path", "out", "c"]);
    assert_eq!(command_line_text(&raw), "gloam --out-path out c");
    let raw = strings(&["gloam", "c", "--lock"]);
    assert_eq!(command_line_text(&raw), "gloam c");
    assert_eq!(command_line_text(&Vec::new()), "");
}

// ---- diagnostics ----

#[test]
fn diag_lines_respect_quiet() {
    let d = gloam::diag::Diag::new(false);
    assert_eq!(d.warn("type 'X' has no name").unwrap(), "gloam: warning: type 'X' has no name");
    assert_eq!(d.info("parsed").unwrap(), "gloam: parsed");
    let q = gloam::diag::Diag::new(true);
    assert!(q.warn("x").is_none());
    assert!(q.info("x").is_none());
}

// ---- the whole plan ----

#[test]
fn c_plan_gathers_every_decision() {
    let cmds = vec![
        cmd(0, "vkCreateInstance", None),
        cmd(2, "vkCreateWin32SurfaceKHR", Some("VK_USE_PLATFORM_WIN32_KHR")),
        cmd(1, "vkDestroyInstance", None),
    ];
    let apis = strings(&["vulkan"]);
    let plan = plan_c_output(false, &apis, "vk", &cmds, &strings(&["vk_platform.h"]), true, true);
    assert_eq!(plan.stem, "vulkan");
    assert_eq!(plan.guard, "VULKAN_H");
    assert_eq!(plan.header_path, "include/gloam/vulkan.h");
    assert_eq!(plan.source_path, "src/vulkan.c");
    assert_eq!(plan.fn_names.offsets, vec![0, 17, 41]);
    assert_eq!(plan.fn_names.blob_size, 59);
    assert_eq!(plan.sentinel, 65535);
    assert_eq!(plan.aux_headers, strings(&["vk_platform.h"]));
    let rows: Vec<(String, u16, u32, bool)> = plan
        .offset_groups
        .iter()
        .flat_map(|g| g.entries.iter().map(move |e| (g.protect.clone(), e.index, e.offset, e.last)))
        .collect();
    assert_eq!(
        rows,
        vec![
            (String::new(), 0, 0, false),
            ("VK_USE_PLATFORM_WIN32_KHR".to_string(), 2, 41, false),
            (String::new(), 1, 17, true),
        ]
    );
    let merged = plan_c_output(true, &apis, "vk", &cmds, &Vec::new(), false, true);
    assert_eq!(merged.stem, "vk");
    assert!(merged.offset_groups.is_empty());
    assert_eq!(merged.aux_headers, strings(&["xxhash.h"]));
}

//! The commands that write an image to a board.
use sermcp::flash::{
    build_flash_plan_json, flash_plan_answer, FlashConfig, FlashPlan, ImageType,
    FLASH_NOT_CONFIGURED,
};
use sermcp::jsonc::Json;
use sermcp::text_map::TextMap;

fn text(j: &Json, key: &str) -> String {
    match j.get(key) {
        Some(Json::Text(s)) => s.clone(),
        other => panic!("{key}: {other:?}"),
    }
}

#[test]
fn test_flash_config_from_defaults() {
    let cfg = FlashConfig::from_config(&TextMap::new());
    assert!(!cfg.is_configured());
    assert_eq!(cfg.upload_dir, "/tmp");
    assert_eq!(cfg.full_image_cmd, "uf {image}");
}

#[test]
fn test_flash_config_from_config() {
    let map = TextMap::from_pairs(&[
        ("FLASH_TOOL", "upgrade_tool"),
        ("FLASH_FULL_IMAGE_CMD", "uf {image}"),
        ("FLASH_KERNEL_IMAGE_CMD", "wp kernel {image}"),
        ("FLASH_LOADER_BIN", "loader.bin"),
    ]);
    let cfg = FlashConfig::from_config(&map);
    assert!(cfg.is_configured());
    assert_eq!(cfg.tool, "upgrade_tool");
    assert_eq!(cfg.loader_bin, "loader.bin");
}

#[test]
fn test_full_image_command() {
    let cfg = FlashConfig {
        tool: "upgrade_tool".to_string(),
        full_image_cmd: "uf {image}".to_string(),
        ..Default::default()
    };
    let cmd = cfg.full_image_command("/tmp/update.img");
    assert_eq!(cmd, "uf /tmp/update.img");
}

#[test]
fn test_kernel_image_command() {
    let cfg = FlashConfig {
        tool: "rkdeveloptool".to_string(),
        kernel_image_cmd: "wp kernel {image}".to_string(),
        ..Default::default()
    };
    let cmd = cfg.kernel_image_command("/tmp/boot.img");
    assert_eq!(cmd, "wp kernel /tmp/boot.img");
}

#[test]
fn test_image_type_from_str() {
    assert_eq!(ImageType::parse("full"), Some(ImageType::Full));
    assert_eq!(ImageType::parse("kernel"), Some(ImageType::Kernel));
    assert_eq!(ImageType::parse("unknown"), None);
}

#[test]
fn image_types_are_read_in_any_case() {
    assert_eq!(ImageType::parse("FULL"), Some(ImageType::Full));
    assert_eq!(ImageType::parse("Kernel"), Some(ImageType::Kernel));
}

#[test]
fn test_flash_plan_missing_image() {
    let flash_cfg = FlashConfig::from_config(&TextMap::new());
    let plan = FlashPlan::from_config(
        &flash_cfg,
        "/nonexistent/image.img",
        ImageType::Full,
        "devhost",
        "devuser",
    );
    assert_eq!(sermcp::path::file_name(&plan.local_image).unwrap(), "image.img");
    assert!(!plan.commands().is_empty());
    assert_eq!(plan.local_image, "/nonexistent/image.img");
    assert!(plan.remote_path.ends_with("image.img"));
}

#[test]
fn every_placeholder_is_replaced() {
    let cfg = FlashConfig {
        full_image_cmd: "a {image} b {image}".to_string(),
        ..Default::default()
    };
    assert_eq!(cfg.full_image_command("/x"), "a /x b /x");
}

#[test]
fn the_plan_of_a_kernel_names_the_kernel_command() {
    let map = TextMap::from_pairs(&[
        ("FLASH_TOOL", "upgrade_tool"),
        ("FLASH_KERNEL_IMAGE_CMD", "wp kernel {image}"),
    ]);
    let answer = build_flash_plan_json(&map, "10.0.0.1", "/images/boot.img", "KERNEL");
    assert_eq!(answer, flash_plan_answer(&map, "10.0.0.1", "/images/boot.img", Some(ImageType::Kernel)));
    let plan = FlashPlan::from_config(
        &FlashConfig::from_config(&map),
        "/images/boot.img",
        ImageType::Kernel,
        "10.0.0.1",
        "",
    );
    assert_eq!(plan.selected_flash_cmd(), "wp kernel /tmp/boot.img");
    assert_eq!(plan.remote_path, "/tmp/boot.img");
}

#[test]
fn without_a_tool_there_is_no_plan() {
    let answer = build_flash_plan_json(&TextMap::new(), "10.0.0.1", "/images/boot.img", "full");
    assert_eq!(text(&answer, "error"), FLASH_NOT_CONFIGURED);
}

#[test]
fn an_unknown_image_type_is_a_full_image() {
    let map = TextMap::from_pairs(&[("FLASH_TOOL", "upgrade_tool")]);
    let answer = build_flash_plan_json(&map, "10.0.0.1", "/images/all.img", "rootfs");
    assert_eq!(answer.get("success"), Some(&Json::Bool(true)));
    assert_eq!(text(&answer, "image_type"), "full");
    assert_eq!(text(&answer, "dev_user"), "linaro");
    assert_eq!(text(&answer, "selected_flash_cmd"), "uf /tmp/all.img");
}

#[test]
fn the_steps_come_in_order() {
    let map = TextMap::from_pairs(&[
        ("FLASH_TOOL", "upgrade_tool"),
        ("FLASH_LOADER_BIN", "loader.bin"),
    ]);
    let plan = FlashPlan::from_config(
        &FlashConfig::from_config(&map),
        "/images/all.img",
        ImageType::Full,
        "10.0.0.1",
        "linaro",
    );
    let steps = plan.commands();
    assert!(steps[0].contains("/images/all.img"), "{steps:?}");
    assert_eq!(steps[1], "ssh linaro@10.0.0.1 'sha256sum /tmp/all.img'");
    assert_eq!(steps.last().unwrap(), "ssh linaro@10.0.0.1 'upgrade_tool uf /tmp/all.img'");
}

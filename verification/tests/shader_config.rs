//! Custom shader sources.

use render::ShaderConfig;

#[test]
fn custom_sources_override_built_in_ones() {
    let built_in_scene = "// scene";
    let built_in_ui = "// ui";
    let mut config = ShaderConfig::new();
    assert_eq!(config.scene_wgsl(built_in_scene), "// scene");
    assert_eq!(config.ui_wgsl(built_in_ui), "// ui");
    config.scene_wgsl = Some("// custom scene".to_string());
    assert_eq!(config.scene_wgsl(built_in_scene), "// custom scene");
    assert_eq!(config.ui_wgsl(built_in_ui), "// ui");
}

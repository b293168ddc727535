use dsh_launcher::settings::{is_node_program, node_version_label, settings_path, Settings};

#[test]
fn settings_defaults() {
    let s = Settings::default();
    assert_eq!(s.data_root, None);
    assert_eq!(s.registry, None);
    assert_eq!(s.theme, "dark");
    assert!(s.auto_open_browser);
    assert_eq!(s.registry_url(), "https://registry.npmmirror.com");
}

#[test]
fn data_root_resolution() {
    let mut s = Settings::default();
    let d = s.resolve_data_root("/opt/launcher");
    assert_eq!(d.root, "/opt/launcher");
    assert_eq!(d.parts, vec!["dsh-data".to_string()]);
    s.data_root = Some("   ".into());
    assert_eq!(s.resolve_data_root("/opt/launcher").parts, vec!["dsh-data".to_string()]);
    s.data_root = Some(" D:\\dsh ".into());
    let d = s.resolve_data_root("/opt/launcher");
    assert_eq!(d.root, " D:\\dsh ");
    assert!(d.parts.is_empty());
    let p = settings_path("/opt/launcher");
    assert_eq!(p.parts, vec!["dsh-launcher.json".to_string()]);
}

#[test]
fn registry_resolution() {
    let mut s = Settings::default();
    s.registry = Some("  https://registry.npmjs.org///  ".into());
    assert_eq!(s.registry_url(), "https://registry.npmjs.org");
    s.registry = Some(" \t ".into());
    assert_eq!(s.registry_url(), "https://registry.npmmirror.com");
    s.registry = Some("///".into());
    assert_eq!(s.registry_url(), "");
}

#[test]
fn node_detection_helpers() {
    assert!(is_node_program("node.exe"));
    assert!(is_node_program("NODE.EXE"));
    assert!(is_node_program("Node"));
    assert!(!is_node_program("nodejs.exe"));
    assert_eq!(node_version_label(" v20.11.0\n"), "v20.11.0");
    assert_eq!(node_version_label("  \n"), "unknown");
}

use dsh_launcher::layout::DataPath;
use dsh_launcher::release::{normalize_version, registry_listing, sort_versions, versions_from_registry, RegistryEntry};
use dsh_launcher::versions::{
    bin_entry, check_registry, classify_channel, installed_pkg_json, pkg_manifest, installed_version, package_url, pkg_dir,
    progress_for_line, valid_registry, VersionInfo,
};

fn info(v: &str) -> VersionInfo {
    VersionInfo { version: v.to_string(), channel: String::new(), published_at: None }
}

#[test]
fn channel_classification() {
    assert_eq!(classify_channel("0.1.5-rc.2", Some("0.1.5-rc.2")), "latest");
    assert_eq!(classify_channel("0.1.5-rc.2", Some("0.1.6-alpha.2")), "rc");
    assert_eq!(classify_channel("0.1.6-alpha.2", None), "alpha");
    assert_eq!(classify_channel("1.0.0", None), "stable");
}

#[test]
fn semver_sorts_prereleases() {
    let vs = vec!["0.1.6-alpha.2", "0.1.5-rc.2", "0.0.1-rc.1", "0.1.2-rc.1"];
    let sorted = sort_versions(vs.iter().map(|v| info(v)).collect());
    let vs: Vec<&str> = sorted.iter().map(|i| i.version.as_str()).collect();
    assert_eq!(vs[0], "0.1.6-alpha.2");
    assert_eq!(vs[1], "0.1.5-rc.2");
    assert_eq!(vs[3], "0.0.1-rc.1");
}

#[test]
fn sort_orders_semver_before_text_fallback() {
    let sorted = sort_versions(vec![info("1.0.0"), info("1.10.0"), info("1.2.0"), info("1.0.0-rc.1")]);
    let vs: Vec<&str> = sorted.iter().map(|i| i.version.as_str()).collect();
    assert_eq!(vs, vec!["1.10.0", "1.2.0", "1.0.0", "1.0.0-rc.1"]);
    // texts that are not semantic versions are ordered by reverse text order
    let sorted = sort_versions(vec![info("a"), info("c"), info("b")]);
    let vs: Vec<&str> = sorted.iter().map(|i| i.version.as_str()).collect();
    assert_eq!(vs, vec!["c", "b", "a"]);
}

#[test]
fn sort_keeps_order_of_equal_versions() {
    let at = |v: &str, t: i64| VersionInfo { version: v.to_string(), channel: String::new(), published_at: Some(t) };
    let sorted = sort_versions(vec![at("1.0.0", 1), at("2.0.0", 2), at("1.0.0", 3), at("x", 4), at("x", 5)]);
    let got: Vec<(&str, Option<i64>)> = sorted.iter().map(|i| (i.version.as_str(), i.published_at)).collect();
    assert_eq!(got, vec![("x", Some(4)), ("x", Some(5)), ("2.0.0", Some(2)), ("1.0.0", Some(1)), ("1.0.0", Some(3))]);
}

#[test]
fn registry_document_to_list() {
    let entries = vec![
        RegistryEntry {
            key: "0.1.5-rc.2".into(),
            version: Some("0.1.5-rc.2".into()),
            published: Some("2024-01-01T00:00:00.000Z".into()),
        },
        RegistryEntry { key: "0.1.6-alpha.2".into(), version: None, published: Some("not a date".into()) },
        RegistryEntry { key: "1.0.0".into(), version: Some("1.0.0".into()), published: None },
    ];
    let list = versions_from_registry(Some("0.1.5-rc.2".into()), entries);
    assert_eq!(list.len(), 3);
    assert_eq!(list[0].version, "1.0.0");
    assert_eq!(list[0].channel, "stable");
    assert_eq!(list[0].published_at, None);
    assert_eq!(list[1].version, "0.1.6-alpha.2");
    assert_eq!(list[1].channel, "alpha");
    assert_eq!(list[1].published_at, None);
    assert_eq!(list[2].version, "0.1.5-rc.2");
    assert_eq!(list[2].channel, "latest");
    assert_eq!(list[2].published_at, Some(1704067200000));
}

#[test]
fn registry_document_without_versions() {
    assert_eq!(
        registry_listing(Some("1.0.0".into()), None).err(),
        Some("registry 数据缺少 versions 字段".to_string())
    );
    let entries = vec![
        RegistryEntry { key: "a".into(), version: Some("1.0.0".into()), published: None },
        RegistryEntry { key: "b".into(), version: Some("2.0.0".into()), published: None },
    ];
    let list = registry_listing(Some("1.0.0".into()), Some(entries)).unwrap();
    let got: Vec<(&str, &str)> = list.iter().map(|i| (i.version.as_str(), i.channel.as_str())).collect();
    assert_eq!(got, vec![("2.0.0", "stable"), ("1.0.0", "latest")]);
    assert!(registry_listing(None, Some(vec![])).unwrap().is_empty());
}

#[test]
fn versions_to_install_are_normalized() {
    assert_eq!(normalize_version("1.2.3"), Ok("1.2.3".to_string()));
    assert_eq!(normalize_version("0.1.6-alpha.2"), Ok("0.1.6-alpha.2".to_string()));
    assert_eq!(normalize_version("v1.2"), Err("非法版本号: v1.2".to_string()));
    assert_eq!(normalize_version("1.0.0; rm -rf /"), Err("非法版本号: 1.0.0; rm -rf /".to_string()));
}

#[test]
fn registry_whitelist() {
    assert!(valid_registry("https://registry.npmmirror.com"));
    assert!(valid_registry("http://localhost:4873"));
    assert!(!valid_registry("ftp://x"));
    assert!(!valid_registry("https://a b"));
    assert!(!valid_registry("https://a\u{7}"));
    assert!(valid_registry(&format!("https://{}", "a".repeat(192))));
    assert!(!valid_registry(&format!("https://{}", "a".repeat(193))));
    assert_eq!(package_url("https://r.org//"), "https://r.org/@deepseek-ai%2Fdsh");
}

#[test]
fn package_paths() {
    let root = DataPath::from_root("/data");
    assert_eq!(pkg_dir(&root, "a").unwrap().parts, vec!["instances", "a", "pkg"]);
    assert_eq!(
        installed_pkg_json(&root, "a").unwrap().parts,
        vec!["instances", "a", "pkg", "node_modules", "@deepseek-ai", "dsh", "package.json"]
    );
    assert_eq!(
        bin_entry(&root, "a").unwrap().parts,
        vec!["instances", "a", "pkg", "node_modules", "@deepseek-ai", "dsh", "lib", "bin.js"]
    );
    assert!(bin_entry(&root, "..").is_err());
}

#[test]
fn installed_manifest_version() {
    assert_eq!(installed_version(r#"{"name":"x","version":"0.1.5-rc.2"}"#), Ok("0.1.5-rc.2".to_string()));
    assert_eq!(installed_version(r#"{"name":"x"}"#), Ok("unknown".to_string()));
    assert_eq!(installed_version(r#"{"version":3}"#), Ok("unknown".to_string()));
    assert!(installed_version("not json").is_err());
}

#[test]
fn install_output_lines() {
    assert!(progress_for_line("a", "1.0.0", "   \n").is_none());
    let p = progress_for_line("a", "1.0.0", "added 5 packages  \n").unwrap();
    assert_eq!(p.instance_id, "a");
    assert_eq!(p.version, Some("1.0.0".to_string()));
    assert_eq!(p.phase, "installing");
    assert_eq!(p.line, Some("added 5 packages".to_string()));
}

#[test]
fn install_manifest_carries_the_version() {
    assert_eq!(
        pkg_manifest("0.1.6-alpha.2"),
        "{\n  \"dependencies\": {\n    \"@deepseek-ai/dsh\": \"0.1.6-alpha.2\"\n  },\n  \"name\": \"dsh-instance-pkg\",\n  \"private\": true\n}"
    );
}

#[test]
fn registry_refusal() {
    assert_eq!(check_registry("https://registry.npmjs.org"), Ok(()));
    assert_eq!(
        check_registry("file:///etc"),
        Err("registry 设置非法（仅允许 http/https 地址）".to_string())
    );
}

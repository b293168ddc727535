use dsh_launcher::instance::{
    check_id, check_new_name, gen_id, inherit_appearance, instance_dir, instances_root,
    list_instances, meta_path, new_instance_meta, order_file, order_without, parse_order, render_order,
    sanitize_slug,
    update_instance, InstanceMeta,
};
use dsh_launcher::layout::DataPath;
use dsh_launcher::ports::{choose_port, find_free_port};

fn parts(p: &DataPath) -> Vec<&str> {
    p.parts.iter().map(|s| s.as_str()).collect()
}

fn meta(id: &str, port: u16) -> InstanceMeta {
    InstanceMeta { id: id.to_string(), port, ..Default::default() }
}

#[test]
fn id_validation_blocks_traversal() {
    assert!(check_id("../evil").is_err());
    assert!(check_id("a/b").is_err());
    assert!(check_id("a\\b").is_err());
    assert!(check_id("a b").is_err());
    assert!(check_id("").is_err());
    assert!(check_id("abc-123_DEF").is_ok());

    let root = DataPath::from_root("/data");
    assert!(instance_dir(&root, "../outside").is_err());
    assert!(instance_dir(&root, "C:\\Windows").is_err());
}

#[test]
fn check_id_error_messages() {
    assert_eq!(check_id(""), Err("实例 id 非法".to_string()));
    assert_eq!(check_id(&"a".repeat(81)), Err("实例 id 非法".to_string()));
    assert_eq!(check_id(&"a".repeat(80)), Ok(()));
    assert_eq!(check_id("a.b"), Err("实例 id 含非法字符".to_string()));
    // 27 three-byte characters are 81 bytes: too long before any character check.
    assert_eq!(check_id(&"实".repeat(27)), Err("实例 id 非法".to_string()));
    assert_eq!(check_id(&"实".repeat(26)), Err("实例 id 含非法字符".to_string()));
}

#[test]
fn instance_layout_paths() {
    let root = DataPath::from_root("/data");
    assert_eq!(parts(&instances_root(&root)), vec!["instances"]);
    let dir = instance_dir(&root, "abc-1").unwrap();
    assert_eq!(dir.root, "/data");
    assert_eq!(parts(&dir), vec!["instances", "abc-1"]);
    assert_eq!(parts(&meta_path(&dir)), vec!["instances", "abc-1", "instance.json"]);
    assert_eq!(parts(&order_file(&root)), vec!["instance-order.json"]);
    assert_eq!(instance_dir(&root, "a/b").err(), Some("实例 id 含非法字符".to_string()));
}

#[test]
fn slug_replaces_and_strips() {
    assert_eq!(sanitize_slug("测试 实例 One"), "One");
    assert_eq!(sanitize_slug("  My App  "), "My-App");
    assert_eq!(sanitize_slug("-a b-"), "a-b");
    assert_eq!(sanitize_slug("   "), "instance");
    assert_eq!(sanitize_slug("测试"), "instance");
    assert_eq!(sanitize_slug("a_b-c"), "a_b-c");
}

#[test]
fn generated_ids_pass_check_id() {
    let id = gen_id("my app", 0x123456);
    assert_eq!(id, "my-app-23456");
    assert!(check_id(&id).is_ok());
    assert_eq!(gen_id("测试", 0), "instance-00000");
    assert_eq!(gen_id("x", 0xfffff), "x-fffff");
    let long = "n".repeat(40);
    assert!(check_id(&gen_id(&long, u64::MAX)).is_ok());
}

#[test]
fn new_names_are_checked() {
    assert_eq!(check_new_name("   "), Err("实例名称不能为空".to_string()));
    assert_eq!(check_new_name(&"名".repeat(41)), Err("实例名称过长".to_string()));
    assert_eq!(check_new_name(&"名".repeat(40)), Ok("名".repeat(40)));
    assert_eq!(check_new_name("  ok  "), Ok("ok".to_string()));
}

#[test]
fn default_and_new_meta() {
    let d = InstanceMeta::default();
    assert_eq!(d.icon, "🚀");
    assert_eq!(d.port, 3080);
    assert_eq!(d.dsh_version, None);
    let m = new_instance_meta("x-00001".into(), "X".into(), None, 4000, 42);
    assert_eq!(m.icon, "🚀");
    assert_eq!(m.port, 4000);
    assert_eq!(m.created_at, 42);
    let m = new_instance_meta("x-00001".into(), "X".into(), Some("🤖".into()), 4000, 42);
    assert_eq!(m.icon, "🤖");
}

#[test]
fn update_rules() {
    let base = meta("a", 3080);
    let u = update_instance(base.duplicate(), Some(" 改名 ".into()), None, None, Some(13000)).unwrap();
    assert_eq!(u.name, "改名");
    assert_eq!(u.port, 13000);
    assert_eq!(
        update_instance(base.duplicate(), Some("  ".into()), None, None, None).err(),
        Some("实例名称不能为空".to_string())
    );
    assert_eq!(
        update_instance(base.duplicate(), None, None, None, Some(80)).err(),
        Some("端口需在 1024-65535 之间".to_string())
    );
    let c = update_instance(base.duplicate(), None, Some("i".into()), Some("#fff".into()), None).unwrap();
    assert_eq!(c.icon, "i");
    assert_eq!(c.color, Some("#fff".to_string()));
    let c = update_instance(c, None, None, Some(String::new()), None).unwrap();
    assert_eq!(c.color, None);
}

#[test]
fn listing_keeps_order_then_new_ids() {
    let ordered = vec![meta("b", 1), meta("a", 2), meta("b", 3)];
    let scanned = vec![meta("a", 4), meta("c", 5), meta("d", 6), meta("c", 7)];
    let all = list_instances(ordered, scanned);
    let ids: Vec<(&str, u16)> = all.iter().map(|m| (m.id.as_str(), m.port)).collect();
    assert_eq!(ids, vec![("b", 1), ("a", 2), ("b", 3), ("c", 5), ("d", 6)]);
}

#[test]
fn order_removal_and_appearance() {
    let order = vec!["a".to_string(), "b".to_string(), "a".to_string()];
    assert_eq!(order_without(order, "a"), vec!["b".to_string()]);
    let mut old = meta("old", 1);
    old.icon = "🤖".into();
    old.color = Some("red".into());
    let copy = inherit_appearance(meta("new", 2), &old);
    assert_eq!(copy.id, "new");
    assert_eq!(copy.icon, "🤖");
    assert_eq!(copy.color, Some("red".to_string()));
}

#[test]
fn port_scans() {
    let busy = |p: u16| p != 3085;
    assert_eq!(find_free_port(3080, 10, &|p: u16| p >= 3083), 3083);
    assert_eq!(find_free_port(3080, 3, &|_p: u16| false), 3080);
    assert_eq!(find_free_port(65534, 10, &|p: u16| p == 65535), 65534);
    let all_free = |_p: u16| true;
    assert_eq!(choose_port(Some(13000), &vec![], &all_free), Some(13000));
    assert_eq!(choose_port(Some(13000), &vec![13000], &all_free), Some(13001));
    assert_eq!(choose_port(Some(13000), &vec![], &|p: u16| p != 13000), Some(13001));
    assert_eq!(choose_port(None, &vec![3080, 3081], &all_free), Some(3082));
    assert_eq!(choose_port(Some(80), &vec![], &all_free), Some(3080));
    assert_eq!(choose_port(None, &vec![], &|p: u16| !busy(p)), Some(3085));
    assert_eq!(choose_port(None, &vec![65535], &all_free), Some(3080));
    assert_eq!(choose_port(Some(65535), &vec![], &all_free), Some(65535));
    assert_eq!(choose_port(Some(65535), &vec![65535], &all_free), None);
    assert_eq!(choose_port(Some(65535), &vec![], &|_p: u16| false), None);
    assert_eq!(choose_port(None, &vec![3080, 3082], &|p: u16| p != 3081), Some(3083));
}

#[test]
fn order_file_text() {
    assert_eq!(parse_order("[\"b\", \"a\"]"), vec!["b".to_string(), "a".to_string()]);
    assert!(parse_order("not json").is_empty());
    assert!(parse_order("[1, 2]").is_empty());
    let order = vec!["x".to_string(), "y".to_string()];
    assert_eq!(render_order(&order), "[\n  \"x\",\n  \"y\"\n]");
    assert_eq!(parse_order(&render_order(&order)), order);
    assert_eq!(render_order(&vec![]), "[]");
}

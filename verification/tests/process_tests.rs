use dsh_launcher::layout::{CommandArg, DataPath};
use dsh_launcher::text::decimal_text;
use dsh_launcher::versions::npm_install_args;
use dsh_launcher::process::{
    check_can_start, check_deletable, extract_boot_url, launch_args, launch_port,
    on_output_line, stop_instance, taskkill_result,
};
use dsh_launcher::state::{AppState, ChildHandle};

fn child(pid: u32) -> ChildHandle {
    ChildHandle { pid, port: 3080, started_at: 7, boot_url: None }
}

#[test]
fn parses_token_url() {
    assert_eq!(
        extract_boot_url("dsh web: http://127.0.0.1:31987/?token=abc def"),
        Some("http://127.0.0.1:31987/?token=abc".into())
    );
    assert_eq!(extract_boot_url("plain log line"), None);
}

#[test]
fn boot_url_variants() {
    assert_eq!(extract_boot_url("open http://x/?a=1 now"), None);
    assert_eq!(
        extract_boot_url("ready https://h:1/?token=t"),
        Some("https://h:1/?token=t".into())
    );
    assert_eq!(
        extract_boot_url("token=1 https://a/ then http://b/?token=2\tx"),
        Some("http://b/?token=2".into())
    );
    assert_eq!(extract_boot_url("token= but no address"), None);
}

#[test]
fn boot_env_content() {
    let text = dsh_launcher::process::boot_env_content("C:\\data\\instances\\a\\home");
    assert!(text.starts_with("DSH_HOME="));
    assert!(!text.contains('\\'));
    assert_eq!(text, "DSH_HOME=C:/data/instances/a/home\n");
    assert_eq!(dsh_launcher::process::boot_env_content("/tmp/home"), "DSH_HOME=/tmp/home\n");
}

#[test]
fn output_lines() {
    let o = on_output_line(None, "   \r\n", true);
    assert_eq!(o.log_line, None);
    assert_eq!(o.boot_url, None);
    let o = on_output_line(None, "dsh web: http://h/?token=x  \n", true);
    assert_eq!(o.log_line, Some("dsh web: http://h/?token=x".into()));
    assert_eq!(o.boot_url, Some("http://h/?token=x".into()));
    assert_eq!(o.announce, Some("http://h/?token=x".into()));
    assert!(o.open_browser);
    let o = on_output_line(Some("http://h/?token=x".into()), "again http://h/?token=x", true);
    assert_eq!(o.announce, None);
    assert!(!o.open_browser);
    let o = on_output_line(Some("old".into()), "new http://h/?token=y", false);
    assert_eq!(o.announce, Some("http://h/?token=y".into()));
    assert!(!o.open_browser);
    let o = on_output_line(Some("kept".into()), "plain", true);
    assert_eq!(o.boot_url, Some("kept".into()));
    assert_eq!(o.log_line, Some("plain".into()));
}

#[test]
fn taskkill_outcomes() {
    assert_eq!(taskkill_result(true, "whatever"), Ok(()));
    assert_eq!(taskkill_result(false, "ERROR: The process \"42\" not found."), Ok(()));
    assert_eq!(taskkill_result(false, "ERROR: process NOT FOUND"), Ok(()));
    assert_eq!(taskkill_result(false, "错误: 没有找到进程 \"42\"。"), Ok(()));
    assert_eq!(
        taskkill_result(false, "  Access is denied.\r\n"),
        Err("taskkill 失败: Access is denied.".to_string())
    );
}

#[test]
fn start_port_choice() {
    assert_eq!(launch_port(3080, &|_p: u16| true), Some(3080));
    assert_eq!(launch_port(3080, &|p: u16| p == 3090), Some(3090));
    assert_eq!(launch_port(3080, &|_p: u16| false), Some(3081));
    assert_eq!(launch_port(65535, &|_p: u16| true), Some(65535));
    assert_eq!(launch_port(65535, &|_p: u16| false), None);
}

#[test]
fn start_stop_delete_checks() {
    let mut state = AppState::new();
    assert_eq!(check_can_start(&state, "a"), Ok(()));
    assert_eq!(check_can_start(&state, "../a"), Err("实例 id 含非法字符".to_string()));
    assert_eq!(stop_instance(&state, "a"), Err("实例未在运行".to_string()));
    state.insert_child("a".into(), child(99));
    assert_eq!(check_can_start(&state, "a"), Err("实例已在运行".to_string()));
    assert_eq!(check_deletable(&state, "a"), Err("实例正在运行，请先停止再删除".to_string()));
    assert_eq!(check_deletable(&state, "b"), Ok(()));
    assert_eq!(stop_instance(&state, "a"), Ok(99));
    assert_eq!(stop_instance(&state, ""), Err("实例 id 非法".to_string()));
}

fn show(args: &[CommandArg]) -> Vec<String> {
    args.iter()
        .map(|a| match a {
            CommandArg::Text(t) => t.clone(),
            CommandArg::Path(p) => format!("<{}:{}>", p.root, p.parts.join("/")),
        })
        .collect()
}

#[test]
fn node_command_line() {
    let home = DataPath::from_root("/d").join("home").join("dsh-launcher.env");
    let entry = DataPath::from_root("/d").join("bin.js");
    assert_eq!(
        show(&launch_args(&home, &entry, 3080)),
        vec!["--env-file", "</d:home/dsh-launcher.env>", "</d:bin.js>", "web", "--port", "3080", "--no-open"]
    );
    assert_eq!(show(&launch_args(&home, &entry, 65535))[5], "65535");
}

#[test]
fn npm_command_line() {
    let cli = DataPath::from_root("/node").join("npm-cli.js");
    let prefix = DataPath::from_root("/d").join("pkg");
    assert_eq!(
        show(&npm_install_args(&cli, &prefix, "https://registry.npmjs.org")),
        vec![
            "</node:npm-cli.js>", "install", "--prefix", "</d:pkg>", "--registry",
            "https://registry.npmjs.org", "--no-audit", "--no-fund", "--loglevel", "warn",
        ]
    );
}

#[test]
fn port_numbers_in_decimal() {
    assert_eq!(decimal_text(0), "0");
    assert_eq!(decimal_text(7), "7");
    assert_eq!(decimal_text(1024), "1024");
    assert_eq!(decimal_text(65535), "65535");
}

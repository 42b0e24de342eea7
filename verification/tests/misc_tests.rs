use nekos::autostart::{
    bootout_args, bootstrap_args, config_home, desktop_entry, desktop_path, exec_escape, join_path, launch_label,
    plist_content, plist_path, run_command, xml_escape,
};
use nekos::commands::{
    activate_profile, apply_patch, autostart_action, autostart_error, check_copy_groups, forget_profile, check_proxy_enable, edit_rename, first_reason, import_nodes,
    normalize_extra_headers, normalize_field, refresh_nodes, set_current, subscribe_nodes, to_new_nodes,
    unix_now_secs, validate_route_profile, validate_strategy, ProgressLog, SettingsPatch,
};
use nekos::corectl::{
    choose_binary, new_token, node_type_of, rpc_read_error, rpc_reply, rpc_send_error, run_id_hex, should_respawn,
    ImportResult, NodeMeta, ParseError, UrlTestRow,
};
use nekos::db::{is_protected_group, plan_copy, Node, Settings};
use nekos::json::{member, parse_error, str_field, string_map};
use nekos::rulesets::{
    asset_cached, asset_failure, asset_files, asset_mirrors, asset_outcome, mirror_result, no_mirror, MirrorReply,
};
use nekos::text::{i64_to_string, u64_to_string};

#[test]
fn desktop_entry_and_paths() {
    assert_eq!(desktop_path(Some("/x/cfg"), Some("/home/u")), "/x/cfg/autostart/nekos.desktop");
    assert_eq!(desktop_path(Some("  "), Some("/home/u")), "/home/u/.config/autostart/nekos.desktop");
    assert_eq!(desktop_path(None, None), "./.config/autostart/nekos.desktop");
    assert_eq!(config_home(None, Some("/home/u/")), "/home/u/.config");
    assert_eq!(join_path("", "a"), "a");
    assert_eq!(exec_escape("/usr/bin/nekos"), "/usr/bin/nekos");
    assert_eq!(exec_escape("/opt/my app/ne\"kos"), "\"/opt/my app/ne\\\"kos\"");
    let entry = desktop_entry("/usr/bin/nekos");
    assert!(entry.starts_with("[Desktop Entry]\nType=Application\n"));
    assert!(entry.contains("\nExec=/usr/bin/nekos\n"));
    assert!(entry.ends_with("X-GNOME-Autostart-enabled=true\n"));
    assert_eq!(run_command("C:\\nekos.exe"), "\"C:\\nekos.exe\"");
    assert_eq!(launch_label(), "app.nekos.desktop");
    assert_eq!(plist_path(Some("/Users/u")), "/Users/u/Library/LaunchAgents/app.nekos.desktop.plist");
    assert_eq!(xml_escape("a&b<c>d\"'"), "a&amp;b&lt;c&gt;d\"'");
    assert!(plist_content("/A&B").contains("<string>/A&amp;B</string>"));
    assert_eq!(bootstrap_args("501", "/p"), vec!["bootstrap", "gui/501", "/p"]);
    assert_eq!(bootout_args("501"), vec!["bootout", "gui/501/app.nekos.desktop"]);
}

#[test]
fn tokens_and_binaries() {
    let t = new_token([7u8; 16]);
    assert_eq!(t.len(), 32);
    assert!(t.chars().all(|c| c.is_ascii_hexdigit() && !c.is_ascii_uppercase()));
    let r = run_id_hex();
    assert_eq!(r.len(), 32);
    assert_eq!(choose_binary(Some("/custom/core"), "/dev/core", true), "/custom/core");
    assert_eq!(choose_binary(Some(""), "/dev/core", true), "/dev/core");
    assert_eq!(choose_binary(None, "/dev/core", false), "nekos-core");
    assert_eq!(node_type_of("{\"type\":\"vless\",\"server\":\"a\"}"), "vless");
    assert_eq!(node_type_of("{\"server\":\"a\"}"), "?");
    assert_eq!(node_type_of("garbage"), "?");
}

#[test]
fn rpc_reply_interpretation() {
    assert_eq!(rpc_reply("core.status", true, "200 OK", "{\"result\":{\"running\":true}}").unwrap(), "{\"running\":true}");
    assert_eq!(
        rpc_reply("core.stop", false, "401 Unauthorized", "  bad token \n").unwrap_err(),
        "core rpc core.stop failed: HTTP 401 Unauthorized bad token"
    );
    let e = rpc_reply("x", true, "200 OK", "oops").unwrap_err();
    assert!(e.starts_with("core rpc x: malformed response \"oops\": "));
    assert_eq!(
        rpc_reply("x", true, "200 OK", "{\"error\":{\"message\":\"boom\"}}").unwrap_err(),
        "core rpc x: boom"
    );
    assert_eq!(rpc_reply("x", true, "200 OK", "{\"error\":{}}").unwrap_err(), "core rpc x: unknown error");
    assert_eq!(
        rpc_reply("x", true, "200 OK", "{\"id\":1}").unwrap_err(),
        "core rpc x: response without result: \"{\\\"id\\\":1}\""
    );
    let send = rpc_send_error("core.start", "connection refused");
    assert_eq!(send, "core rpc send error for core.start: connection refused");
    assert!(should_respawn(&send, 0, 1_000_000));
    assert!(!should_respawn(&send, 1, 1_000_000));
    assert!(!should_respawn(&send, 0, 5_000_000_000));
    assert!(!should_respawn("core rpc x: boom", 0, 0));
    assert_eq!(rpc_read_error("m", "eof"), "core rpc m: read response: eof");
}

#[test]
fn json_reads() {
    assert_eq!(str_field("{\"a\":\"b\"}", "a"), Some("b".to_string()));
    assert_eq!(str_field("{\"a\":1}", "a"), None);
    assert!(parse_error("{}").is_none());
    assert!(parse_error("{").is_some());
    assert_eq!(member("{\"a\":[1, 2]}", "a"), Some("[1,2]".to_string()));
    assert_eq!(member("[1]", "a"), None);
    assert_eq!(
        string_map("{\"b\":\"2\",\"a\":\"1\"}"),
        Some(vec![("a".to_string(), "1".to_string()), ("b".to_string(), "2".to_string())])
    );
    assert_eq!(string_map("{\"a\":1}"), None);
}

#[test]
fn rule_asset_decisions() {
    let files = asset_files();
    assert_eq!(files[0], ("cn-ip.srs".to_string(), "geoip/cn.srs".to_string()));
    assert_eq!(files[1], ("cn-site.srs".to_string(), "geosite/cn.srs".to_string()));
    assert!(asset_cached(true, Some(1001)));
    assert!(!asset_cached(true, Some(1000)));
    assert!(!asset_cached(true, None));
    assert!(!asset_cached(false, Some(5000)));
    let m = asset_mirrors("geoip/cn.srs");
    assert_eq!(m[0], "https://raw.githubusercontent.com/MetaCubeX/meta-rules-dat/sing/geo/geoip/cn.srs");
    assert_eq!(m[1], "https://cdn.jsdelivr.net/gh/MetaCubeX/meta-rules-dat@sing/geo/geoip/cn.srs");
    assert!(mirror_result("u", &MirrorReply::Body(1001)).is_ok());
    assert_eq!(mirror_result("u", &MirrorReply::Body(1000)).unwrap_err(), "u: body too small");
    assert_eq!(mirror_result("u", &MirrorReply::Refused("404 Not Found".to_string())).unwrap_err(), "u: HTTP 404 Not Found");
    assert_eq!(mirror_result("u", &MirrorReply::Unreachable("dns".to_string())).unwrap_err(), "u: dns");
    assert_eq!(mirror_result("u", &MirrorReply::Unreadable("reset".to_string())).unwrap_err(), "u: reset");
    assert_eq!(no_mirror(), "no mirror reachable");
    assert_eq!(asset_failure("cn-ip.srs", "u: dns"), "下载规则集 cn-ip.srs 失败: u: dns（启用「规则」模式需要网络）");
}

#[test]
fn integer_text() {
    assert_eq!(u64_to_string(0), "0");
    assert_eq!(u64_to_string(u64::MAX), u64::MAX.to_string());
    assert_eq!(i64_to_string(-42), "-42");
    assert_eq!(i64_to_string(i64::MIN), i64::MIN.to_string());
    assert_eq!(i64_to_string(i64::MAX), i64::MAX.to_string());
    assert_eq!(unix_now_secs(1_700_000_000), "1700000000");
    for n in [0u64, 7, 10, 99, 100, 65535, 1 << 40, u64::MAX - 1] {
        assert_eq!(u64_to_string(n).parse::<u64>().unwrap(), n);
    }
}

fn meta(id: &str, server: &str) -> NodeMeta {
    NodeMeta {
        id: id.to_string(),
        remark: id.to_string(),
        node_type: "anytls".to_string(),
        out: format!("{{\"type\":\"anytls\",\"server\":\"{server}\"}}"),
    }
}

fn perr(reason: &str) -> ParseError {
    ParseError { line: 1, snippet: "x".to_string(), reason: reason.to_string() }
}

#[test]
fn import_and_subscription_outcomes() {
    let v6_only = ImportResult { nodes: vec![meta("a", "::1")], errors: vec![] };
    assert_eq!(
        import_nodes(&v6_only, true).unwrap_err(),
        "「过滤 IPv6 节点」已开启：本次内容没有可用节点，未导入"
    );
    assert_eq!(import_nodes(&v6_only, false).unwrap().len(), 1);
    let empty = ImportResult { nodes: vec![], errors: vec![perr("bad scheme"), perr("other")] };
    assert_eq!(import_nodes(&empty, true).unwrap().len(), 0);
    assert_eq!(first_reason(&empty), "bad scheme");
    assert_eq!(first_reason(&ImportResult { nodes: vec![], errors: vec![] }), "未知原因");
    assert_eq!(
        refresh_nodes(&empty, false).unwrap_err(),
        "抓取解析失败（0 节点 / 2 错误），现有节点未改动：bad scheme"
    );
    assert_eq!(
        refresh_nodes(&v6_only, true).unwrap_err(),
        "「过滤 IPv6 节点」已开启：该订阅更新后没有可用节点，现有节点未改动"
    );
    assert_eq!(
        subscribe_nodes(&empty, false, true).unwrap_err(),
        "未能从该订阅解析出节点（2 错误），未创建订阅：bad scheme"
    );
    assert_eq!(subscribe_nodes(&empty, false, false).unwrap().len(), 0);
    assert_eq!(
        subscribe_nodes(&v6_only, true, true).unwrap_err(),
        "「过滤 IPv6 节点」已开启：该订阅没有可用节点，未创建订阅"
    );
    let rows = to_new_nodes(&[meta("n1", "a.com")]);
    assert_eq!(rows[0].id, "n1");
    assert_eq!(rows[0].out, "{\"type\":\"anytls\",\"server\":\"a.com\"}");
}

#[test]
fn input_validation() {
    assert_eq!(validate_strategy("  ", true, 3).unwrap_err(), "名称不能为空");
    assert_eq!(validate_strategy("Fast", true, 0).unwrap_err(), "至少选择一个成员分组");
    assert_eq!(validate_strategy(" Fast ", true, 2).unwrap(), ("Fast".to_string(), "strategy".to_string()));
    assert_eq!(validate_strategy("M", false, 1).unwrap().1, "strategy-manual");
    assert_eq!(validate_route_profile(" ", "proxy", "[]").unwrap_err(), "请输入路由档案名称");
    assert_eq!(validate_route_profile("p", "reject", "[]").unwrap_err(), "兜底出口必须是 proxy / direct / block");
    assert_eq!(validate_route_profile("p", "direct", "{}").unwrap_err(), "规则内容必须是 sing-box 路由规则对象数组");
    assert_eq!(validate_route_profile(" p ", "block", "[{}]").unwrap(), "p");
    assert_eq!(check_copy_groups(3, 3).unwrap_err(), "源与目标不能是同一分组");
    assert!(check_copy_groups(3, 4).is_ok());
    assert_eq!(check_proxy_enable(true, false).unwrap_err(), "内核未运行，无法开启系统代理（请先「启动」）");
    assert!(check_proxy_enable(false, false).is_ok());
    assert!(check_proxy_enable(true, true).is_ok());
    assert_eq!(normalize_field("  ua  "), Some("ua".to_string()));
    assert_eq!(normalize_field("   "), None);
    assert_eq!(normalize_extra_headers(" {} "), None);
    assert_eq!(normalize_extra_headers(" {\"a\":\"b\"} "), Some("{\"a\":\"b\"}".to_string()));
    assert_eq!(edit_rename(1, "New"), None);
    assert_eq!(edit_rename(2, "  "), None);
    assert_eq!(edit_rename(2, " New "), Some("New".to_string()));
    assert!(is_protected_group(1));
    assert!(!is_protected_group(2));
}

fn dbnode(id: &str, group_id: i64) -> Node {
    Node {
        id: id.to_string(),
        group_id,
        node_type: "anytls".to_string(),
        remark: id.to_string(),
        out: "{}".to_string(),
    }
}

#[test]
fn copy_planning() {
    let source = vec![dbnode("a", 2), dbnode("b", 2), dbnode("c", 2)];
    let target_ids = vec!["b".to_string()];
    let wanted = vec!["a".to_string(), "b".to_string()];
    let (ins, inserted, dup) = plan_copy(2, 5, &source, &target_ids, &wanted);
    assert_eq!(inserted, 1);
    assert_eq!(dup, 1);
    assert_eq!(ins[0].id, "a");
    assert_eq!(ins[0].group_id, 5);
    let (ins, inserted, dup) = plan_copy(2, 2, &source, &target_ids, &wanted);
    assert!(ins.is_empty());
    assert_eq!((inserted, dup), (0, 2));
}

#[test]
fn settings_patch_and_selection() {
    let mut s = Settings::default();
    assert_eq!(s.port, 2080);
    assert_eq!(s.mode, "global");
    assert_eq!(s.log_level, "warn");
    assert_eq!(s.auto_update_minutes, 360);
    let patch = SettingsPatch { port: Some(10808), auto_update_minutes: Some(1), ..Default::default() };
    apply_patch(&mut s, patch);
    assert_eq!(s.port, 10808);
    assert_eq!(s.auto_update_minutes, 5);
    assert_eq!(s.mode, "global");
    apply_patch(&mut s, SettingsPatch { auto_update_minutes: Some(100_000), mode: Some("rule".to_string()), ..Default::default() });
    assert_eq!(s.auto_update_minutes, 10080);
    assert_eq!(s.mode, "rule");
    apply_patch(&mut s, SettingsPatch::default());
    assert_eq!(s.port, 10808);
    set_current(&mut s, 3, "node-x".to_string());
    assert_eq!(s.selected_by_group.get(&3), Some(&"node-x".to_string()));
    assert_eq!(s.port, 10808);
}

#[test]
fn progress_rows_emit_on_change_only() {
    let mut p = ProgressLog::new();
    let r1 = UrlTestRow { id: "a".to_string(), delay_ms: None, error: Some("timeout".to_string()) };
    assert!(p.observe(&r1));
    assert!(!p.observe(&r1));
    let r2 = UrlTestRow { id: "a".to_string(), delay_ms: Some(90), error: None };
    assert!(p.observe(&r2));
    assert!(!p.observe(&r2));
    let r3 = UrlTestRow { id: "b".to_string(), delay_ms: Some(90), error: None };
    assert!(p.observe(&r3));
    assert!(!p.observe(&r2));
}

#[test]
fn autostart_switch_and_profiles() {
    let mut s = Settings::default();
    assert!(!s.auto_start);
    assert_eq!(s.language, "");
    assert_eq!(s.route_profile_id, None);
    apply_patch(&mut s, SettingsPatch { auto_start: Some(true), language: Some("en".to_string()), ..Default::default() });
    assert!(s.auto_start);
    assert_eq!(s.language, "en");
    assert_eq!(autostart_action(false, true), Some(true));
    assert_eq!(autostart_action(true, false), Some(false));
    assert_eq!(autostart_action(true, true), None);
    assert_eq!(autostart_action(false, false), None);
    assert_eq!(autostart_error("denied"), "开机自启: denied");

    assert_eq!(activate_profile(&mut s, Some(4), false).unwrap_err(), "路由档案不存在");
    assert_eq!(s.route_profile_id, None);
    activate_profile(&mut s, Some(4), true).unwrap();
    assert_eq!(s.route_profile_id, Some(4));
    assert!(!forget_profile(&mut s, 5));
    assert_eq!(s.route_profile_id, Some(4));
    assert!(forget_profile(&mut s, 4));
    assert_eq!(s.route_profile_id, None);
    activate_profile(&mut s, None, false).unwrap();
    assert_eq!(s.route_profile_id, None);
}

#[test]
fn rule_asset_mirror_outcomes() {
    let urls = vec!["a".to_string(), "b".to_string(), "c".to_string()];
    let replies = vec![
        MirrorReply::Unreachable("dns".to_string()),
        MirrorReply::Body(5000),
        MirrorReply::Body(6000),
    ];
    assert_eq!(asset_outcome("x.srs", &urls, &replies), Ok(1));
    let replies = vec![
        MirrorReply::Refused("404 Not Found".to_string()),
        MirrorReply::Body(10),
        MirrorReply::Unreadable("reset".to_string()),
    ];
    assert_eq!(
        asset_outcome("x.srs", &urls, &replies).unwrap_err(),
        "下载规则集 x.srs 失败: c: reset（启用「规则」模式需要网络）"
    );
    assert_eq!(
        asset_outcome("x.srs", &[], &[]).unwrap_err(),
        "下载规则集 x.srs 失败: no mirror reachable（启用「规则」模式需要网络）"
    );
}

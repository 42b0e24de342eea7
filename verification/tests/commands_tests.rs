use nekos::commands::{
    batch_poll_step,
    due_groups, filter_nodes, group_fetch, host_ipv6, is_ipv6_server, latency_owners, measurable_entries, needs_node_check,
    pick_selected, plan_session, route_final_valid, route_rules_valid, session_mode, session_source, single_result,
    sorted_unique, split_copy_ids, split_user_agent, strat_id, strategy_measure, strategy_row, MeasureGuard,
    RefreshGuard, TrayClicks, WindowAction, TRAY_DOUBLE_CLICK_NANOS,
};
use nekos::corectl::{NodeMeta, UrlTestRow};
use nekos::db::{Group, Node};
use std::collections::HashSet;

fn meta(server: &str) -> NodeMeta {
    NodeMeta {
        id: format!("id-{server}"),
        remark: server.to_string(),
        node_type: "anytls".to_string(),
        out: format!("{{\"type\":\"anytls\",\"server\":\"{server}\"}}"),
    }
}

fn node(id: &str, group_id: i64, out: &str) -> Node {
    Node {
        id: id.to_string(),
        group_id,
        node_type: "anytls".to_string(),
        remark: id.to_string(),
        out: out.to_string(),
    }
}

fn server_out(server: &str) -> String {
    format!("{{\"type\":\"anytls\",\"server\":\"{server}\"}}")
}


/// Independent model of the standard library's IPv6 text grammar, used as a
/// test oracle: hexadecimal groups of one to four digits separated by `:`,
/// at most one `::` standing for at least one zero group, and an optional
/// trailing dotted IPv4 address (octets without leading zeros) in place of
/// the last two groups.
struct Cursor<'a> {
    s: &'a [u8],
    pos: usize,
}

impl<'a> Cursor<'a> {
    fn peek(&self) -> Option<u8> {
        self.s.get(self.pos).copied()
    }

    fn eat(&mut self, c: u8) -> bool {
        if self.peek() == Some(c) {
            self.pos += 1;
            true
        } else {
            false
        }
    }

    fn number(&mut self, radix: u32, max_digits: usize, allow_zero_prefix: bool, max_value: u32) -> Option<u32> {
        let start = self.pos;
        let leading_zero = self.peek() == Some(b'0');
        let mut value: u32 = 0;
        let mut count = 0;
        while let Some(d) = self.peek().and_then(|c| (c as char).to_digit(radix)) {
            self.pos += 1;
            value = value * radix + d;
            count += 1;
            if count > max_digits || value > max_value {
                self.pos = start;
                return None;
            }
        }
        if count == 0 || (!allow_zero_prefix && leading_zero && count > 1) {
            self.pos = start;
            return None;
        }
        Some(value)
    }

    fn ipv4(&mut self) -> bool {
        let start = self.pos;
        for i in 0..4 {
            if i > 0 && !self.eat(b'.') {
                self.pos = start;
                return false;
            }
            if self.number(10, 3, false, 255).is_none() {
                self.pos = start;
                return false;
            }
        }
        true
    }

    fn groups(&mut self, limit: usize) -> (usize, bool) {
        for i in 0..limit {
            if i + 1 < limit {
                let start = self.pos;
                if (i == 0 || self.eat(b':')) && self.ipv4() {
                    return (i + 2, true);
                }
                self.pos = start;
            }
            let start = self.pos;
            if (i == 0 || self.eat(b':')) && self.number(16, 4, true, 0xffff).is_some() {
                continue;
            }
            self.pos = start;
            return (i, false);
        }
        (limit, false)
    }
}

fn oracle_ipv6(text: &str) -> bool {
    let mut c = Cursor { s: text.as_bytes(), pos: 0 };
    let (head, head_v4) = c.groups(8);
    let ok = if head == 8 {
        true
    } else if head_v4 {
        false
    } else if c.eat(b':') && c.eat(b':') {
        let limit = 8 - (head + 1);
        let _ = c.groups(limit);
        true
    } else {
        false
    };
    ok && c.pos == text.len()
}

#[test]
fn ipv6_literal_detection() {
    assert!(is_ipv6_server(&meta("2001:db8::1").out));
    assert!(is_ipv6_server(&meta("[240e:1234::abcd]").out));
    assert!(is_ipv6_server(&meta("fe80::1%eth0").out));
    assert!(!is_ipv6_server(&meta("example.com").out));
    assert!(!is_ipv6_server(&meta("1.2.3.4").out));
}

#[test]
fn filter_keeps_domains_and_v4() {
    let nodes = vec![meta("example.com"), meta("1.2.3.4"), meta("2001:db8::1"), meta("[240e::1]")];
    let kept = filter_nodes(&nodes, true);
    assert_eq!(kept.len(), 2);
    assert!(kept.iter().all(|n| !is_ipv6_server(&n.out)));
    assert_eq!(filter_nodes(&nodes, false).len(), 4);
}

#[test]
fn ipv6_checker_matches_grammar() {
    let samples = [
        "::", "::1", "1::", "1:2:3:4:5:6:7:8", "1:2:3:4:5:6:7::", "::2:3:4:5:6:7:8", "1::8", "1:2::7:8",
        "::ffff:1.2.3.4", "64:ff9b::192.0.2.33", "1:2:3:4:5:6:1.2.3.4", "1:2:3:4:5:6:7:1.2.3.4",
        "1:2:3:4:5:6:7:8:9", "1:::2", ":1::2", "1::2::3", "12345::", "g::1", "1.2.3.4", "", ":", ":::",
        "fe80::1", "FE80::ABCD", "::1.2.3", "::1.2.3.256", "::01.2.3.4", "1:2:3:4:5:6:7", "0:0:0:0:0:0:0:0",
        "::0.0.0.0", "1::2:3:4:5:6:7", "1::2:3:4:5:6:7:8", "ab:cd::ef:1.2.3.4", "::ffff:", "::ffff:1.2.3.4:5",
        "2001:db8::", "2001:0db8:0000:0000:0000:ff00:0042:8329", "00000::1", "::1.02.3.4", "1:2:3:4::5:6:7",
    ];
    let known = [("::", true), ("1:2:3:4:5:6:7::", true), ("1::2:3:4:5:6:7:8", false), ("::ffff:1.2.3.4", true),
        ("::01.2.3.4", false), ("12345::", false), ("1:2:3:4:5:6:1.2.3.4", true), ("1:2:3:4:5:6:7:1.2.3.4", false)];
    for (s, want) in known {
        assert_eq!(oracle_ipv6(s), want, "oracle on {s:?}");
        assert_eq!(host_ipv6(s), want, "checker on {s:?}");
    }
    for s in samples {
        assert_eq!(host_ipv6(s), oracle_ipv6(s), "disagreement on {s:?}");
    }
    assert!(host_ipv6(" [::1] "));
    assert!(host_ipv6("fe80::1%eth0"));
    assert!(!host_ipv6("[::1"));
    assert!(!is_ipv6_server("{\"type\":\"anytls\"}"));
    assert!(!is_ipv6_server("not json"));
}

#[test]
fn ipv6_checker_matches_grammar_generated() {
    let alphabet = ['0', '1', 'a', 'F', ':', '.', '9'];
    let mut state: u64 = 0x9e37_79b9_7f4a_7c15;
    for _ in 0..4000 {
        state ^= state << 13;
        state ^= state >> 7;
        state ^= state << 17;
        let len = (state % 14) as usize;
        let mut s = String::new();
        let mut x = state;
        for _ in 0..len {
            s.push(alphabet[(x % 7) as usize]);
            x /= 7;
            if x == 0 {
                x = state.rotate_left(11) | 1;
            }
        }
        assert_eq!(host_ipv6(&s), oracle_ipv6(&s), "disagreement on {s:?}");
    }
}

#[test]
fn route_profile_checks() {
    assert!(route_final_valid("proxy"));
    assert!(route_final_valid("direct"));
    assert!(route_final_valid("block"));
    assert!(!route_final_valid("Proxy"));
    assert!(route_rules_valid("[]"));
    assert!(route_rules_valid("[{\"domain\":[\"a.com\"],\"outbound\":\"direct\"}]"));
    assert!(!route_rules_valid("[1]"));
    assert!(!route_rules_valid("{}"));
    assert!(!route_rules_valid("nope"));
}

#[test]
fn strategy_ids() {
    assert_eq!(strat_id("strat:12"), Some(12));
    assert_eq!(strat_id("strat:-3"), Some(-3));
    assert_eq!(strat_id("strat:x"), None);
    assert_eq!(strat_id("node-1"), None);
    let (plain, strats) = split_copy_ids(&["a".to_string(), "strat:4".to_string(), "b".to_string(), "strat:9".to_string()]);
    assert_eq!(plain, vec!["a".to_string(), "b".to_string()]);
    assert_eq!(strats, vec![4, 9]);
    let row = strategy_row(7, "Fast", "strategy");
    assert_eq!(row.id, "strat:7");
    assert_eq!(row.remark, "Fast ⚡");
    assert_eq!(row.node_type, "strategy");
    assert_eq!(row.out, "{}");
    assert_eq!(strat_id(&row.id), Some(7));
    assert_eq!(strategy_row(-8, "Manual", "strategy-manual").remark, "Manual ◈");
    assert_eq!(strat_id(&strategy_row(i64::MIN, "m", "x").id), Some(i64::MIN));
    assert!(needs_node_check("node-1"));
    assert!(!needs_node_check("strat:1"));
}

#[test]
fn guards_are_single_flight() {
    let mut busy = false;
    let g = MeasureGuard::acquire(&mut busy).unwrap();
    assert!(busy);
    assert_eq!(MeasureGuard::acquire(&mut busy).err().unwrap(), "已有测速任务进行中，请稍候再试");
    g.release(&mut busy);
    assert!(!busy);

    let mut updating: HashSet<i64> = HashSet::new();
    updating.insert(3);
    let g = RefreshGuard::acquire(&mut updating, 5).unwrap();
    assert!(updating.contains(&5));
    assert_eq!(RefreshGuard::acquire(&mut updating, 5).err().unwrap(), "该订阅正在更新中");
    g.release(&mut updating);
    let expect: HashSet<i64> = [3].into_iter().collect();
    assert_eq!(updating, expect);
}

fn group(id: i64, sub: Option<&str>, last: Option<i64>) -> Group {
    Group {
        id,
        name: format!("g{id}"),
        sub_url: sub.map(|s| s.to_string()),
        user_agent: None,
        extra_headers: None,
        sub_userinfo: None,
        updated_at: None,
        last_update_epoch: last,
    }
}

#[test]
fn auto_refresh_schedule() {
    let groups = vec![
        group(1, None, None),
        group(2, Some("https://a"), None),
        group(3, Some("https://b"), Some(1_000_000 - 60)),
        group(4, Some("https://c"), Some(1_000_000 - 3600)),
    ];
    assert_eq!(due_groups(&groups, 1_000_000, true, 5), vec![2, 4]);
    assert_eq!(due_groups(&groups, 1_000_000, true, 1), vec![2, 4]);
    assert_eq!(due_groups(&groups, 1_000_000, false, 5), Vec::<i64>::new());
    assert_eq!(due_groups(&groups, 1_000_000, true, 120), vec![2]);
}

fn row(id: &str, delay: Option<i64>, err: Option<&str>) -> UrlTestRow {
    UrlTestRow { id: id.to_string(), delay_ms: delay, error: err.map(|e| e.to_string()) }
}

#[test]
fn strategy_measurement_summary() {
    let v = strategy_measure(&[row("a", Some(120), None), row("b", None, Some("timeout")), row("c", Some(80), None)]);
    assert_eq!(v.delay_ms, Some(80));
    assert!(v.error.is_none());
    let v = strategy_measure(&[row("a", None, Some("x")), row("b", None, Some("y"))]);
    assert_eq!(v.delay_ms, None);
    assert_eq!(v.error.unwrap(), "成员全部失败（2/2）");
    let v = strategy_measure(&[]);
    assert_eq!(v.error.unwrap(), "成员全部失败（0/0）");
}

#[test]
fn owner_ids_sorted_unique() {
    assert_eq!(sorted_unique(&[5, 3, 5, 1, 3]), vec![1, 3, 5]);
    assert_eq!(sorted_unique(&[]), Vec::<i64>::new());
    assert_eq!(sorted_unique(&[-2, 7, -2]), vec![-2, 7]);
}

#[test]
fn session_planning() {
    assert_eq!(session_mode("rule", false), "rule");
    assert_eq!(session_mode("direct", false), "direct");
    assert_eq!(session_mode("whatever", false), "global");
    assert_eq!(session_mode("direct", true), "strategy");
    assert_eq!(session_source(2, Some("strat:9")), (9, Some(9)));
    assert_eq!(session_source(2, Some("n1")), (2, None));
    assert_eq!(session_source(2, None), (2, None));
    assert_eq!(pick_selected(&["a".to_string(), "b".to_string()], Some("b")), "b");
    assert_eq!(pick_selected(&["a".to_string(), "b".to_string()], Some("z")), "a");
    assert_eq!(pick_selected(&["a".to_string()], None), "a");

    let empty: Vec<Node> = Vec::new();
    assert_eq!(plan_session(&empty, false, None, false, "global", false, None).err().unwrap(), "当前分组没有节点");
    let v6 = vec![node("v6", 2, &server_out("2001:db8::1"))];
    assert_eq!(
        plan_session(&v6, true, None, false, "global", false, None).err().unwrap(),
        "开启「过滤 IPv6 节点」后该分组没有可用节点"
    );
    let nodes = vec![
        node("a", 2, &server_out("example.com")),
        node("b", 2, &server_out("2001:db8::2")),
        node("c", 2, "broken json"),
    ];
    assert_eq!(
        plan_session(&nodes, false, None, false, "rule", false, None).err().unwrap(),
        "规则模式需要 CN 规则集，请重试以触发下载"
    );
    let p = plan_session(&nodes, true, Some("c"), false, "rule", true, None).unwrap();
    assert_eq!(p.mode, "rule");
    assert_eq!(p.selected, "c");
    assert_eq!(p.nodes.iter().map(|n| n.id.as_str()).collect::<Vec<_>>(), vec!["a", "c"]);
    assert_eq!(p.entries.iter().map(|n| n.id.as_str()).collect::<Vec<_>>(), vec!["a"]);
    let p = plan_session(&nodes, true, Some("b"), false, "global", false, None).unwrap();
    assert_eq!(p.selected, "a");
    assert_eq!(p.mode, "global");
    let p = plan_session(&nodes, false, Some("b"), true, "rule", false, None).unwrap();
    assert_eq!(p.mode, "strategy");
    assert_eq!(p.selected, "auto");
    assert_eq!(p.nodes.len(), 3);
}

#[test]
fn latency_entries_and_owners() {
    let nodes = vec![
        node("a", 2, &server_out("example.com")),
        node("b", 3, &server_out("2001:db8::2")),
        node("c", 4, "broken json"),
        node("d", 5, &server_out("1.2.3.4")),
    ];
    let all = measurable_entries(&nodes, None, false).unwrap();
    assert_eq!(all.iter().map(|n| n.id.as_str()).collect::<Vec<_>>(), vec!["a", "b", "d"]);
    let v4 = measurable_entries(&nodes, None, true).unwrap();
    assert_eq!(v4.iter().map(|n| n.id.as_str()).collect::<Vec<_>>(), vec!["a", "d"]);
    let one = measurable_entries(&nodes, Some(&["d".to_string()]), false).unwrap();
    assert_eq!(one.len(), 1);
    assert_eq!(
        measurable_entries(&nodes, Some(&["c".to_string()]), false).err().unwrap(),
        "没有可测速的节点"
    );
    let owners = latency_owners(&all, &[row("d", Some(10), None), row("zz", None, Some("x")), row("a", None, None)]);
    assert_eq!(owners, vec![Some(5), None, Some(2)]);
    let dup = vec![node("a", 2, "{}"), node("a", 7, "{}")];
    assert_eq!(latency_owners(&dup, &[row("a", None, None)]), vec![Some(7)]);
    let r = single_result(vec![], "n".to_string());
    assert_eq!(r.id, "n");
    assert_eq!(r.error.unwrap(), "没有返回结果");
    let r = single_result(vec![row("x", Some(3), None), row("y", None, None)], "n".to_string());
    assert_eq!(r.id, "x");
}

#[test]
fn subscription_headers() {
    let hs = vec![
        ("Accept".to_string(), "*/*".to_string()),
        ("User-Agent".to_string(), "clash".to_string()),
    ];
    let (ua, extras) = split_user_agent(&hs);
    assert_eq!(ua.unwrap(), "clash");
    assert_eq!(extras, vec![("Accept".to_string(), "*/*".to_string())]);
    let (ua, extras) = split_user_agent(&[("User-Agent".to_string(), "  ".to_string())]);
    assert!(ua.is_none());
    assert!(extras.is_empty());

    assert_eq!(group_fetch(None).err().unwrap(), "分组不存在");
    let plain = group(1, None, None);
    assert_eq!(group_fetch(Some(&plain)).err().unwrap(), "该分组不是订阅组（没有订阅 URL）");
    let mut g = group(2, Some("https://sub"), None);
    g.user_agent = Some("ua/1".to_string());
    g.extra_headers = Some("{\"X-B\":\"2\",\"X-A\":\"1\"}".to_string());
    let (url, headers) = group_fetch(Some(&g)).unwrap();
    assert_eq!(url, "https://sub");
    assert_eq!(
        headers,
        vec![
            ("User-Agent".to_string(), "ua/1".to_string()),
            ("X-A".to_string(), "1".to_string()),
            ("X-B".to_string(), "2".to_string()),
        ]
    );
    g.extra_headers = Some("{\"User-Agent\":\"override\"}".to_string());
    let (_, headers) = group_fetch(Some(&g)).unwrap();
    assert_eq!(headers, vec![("User-Agent".to_string(), "override".to_string())]);
    g.extra_headers = Some("not json".to_string());
    g.user_agent = Some(String::new());
    let (_, headers) = group_fetch(Some(&g)).unwrap();
    assert!(headers.is_empty());
}

#[test]
fn tray_double_click_toggles() {
    let mut t = TrayClicks::new();
    let a = t.activate(1_000, false);
    let g = match a {
        WindowAction::DeferShow(g) => g,
        other => panic!("expected a deferred show, got {other:?}"),
    };
    assert!(t.deferred_applies(g));
    assert_eq!(t.activate(1_000 + TRAY_DOUBLE_CLICK_NANOS, false), WindowAction::Show);
    assert!(!t.deferred_applies(g));
    assert_eq!(t.activate(10_000_000_000, true), WindowAction::Show);
    assert_eq!(t.activate(10_100_000_000, true), WindowAction::Hide);
    let far = 10_100_000_000 + TRAY_DOUBLE_CLICK_NANOS + 1;
    assert!(matches!(t.activate(far, false), WindowAction::DeferShow(_)));
}

#[test]
fn filter_twice_is_filter_once() {
    let nodes = vec![meta("example.com"), meta("::1"), meta("10.0.0.1"), meta("[fe80::1%en0]"), meta("host:443")];
    let once = filter_nodes(&nodes, true);
    let twice = filter_nodes(&once, true);
    assert_eq!(
        once.iter().map(|n| n.id.as_str()).collect::<Vec<_>>(),
        vec!["id-example.com", "id-10.0.0.1", "id-host:443"]
    );
    assert_eq!(
        twice.iter().map(|n| n.id.as_str()).collect::<Vec<_>>(),
        once.iter().map(|n| n.id.as_str()).collect::<Vec<_>>()
    );
}

#[test]
fn session_route_profiles() {
    let nodes = vec![node("a", 2, &server_out("example.com"))];
    let rules = "[{\"domain_suffix\":[\"cn\"],\"outbound\":\"direct\"}]";
    let p = plan_session(&nodes, false, None, false, "rule", true, Some(("proxy", rules))).unwrap();
    assert_eq!(p.route, Some(("proxy".to_string(), rules.to_string())));
    let p = plan_session(&nodes, false, None, false, "global", false, Some(("proxy", rules))).unwrap();
    assert_eq!(p.route, None);
    let p = plan_session(&nodes, false, None, false, "rule", true, None).unwrap();
    assert_eq!(p.route, None);
    assert_eq!(
        plan_session(&nodes, false, None, false, "rule", true, Some(("proxy", "[broken"))).err().unwrap(),
        "路由档案规则数据损坏"
    );
    assert_eq!(
        plan_session(&nodes, false, None, false, "rule", false, Some(("proxy", "[broken"))).err().unwrap(),
        "规则模式需要 CN 规则集，请重试以触发下载"
    );
    let p = plan_session(&nodes, false, None, true, "rule", false, Some(("proxy", "[broken"))).unwrap();
    assert_eq!(p.route, None);
}

#[test]
fn batch_poll_decisions() {
    let acc = vec![row("a", Some(1), None)];
    let res = vec![row("a", Some(2), None), row("b", None, Some("x"))];
    let (rows, stop) = batch_poll_step(acc.clone(), true, true, res.clone(), false);
    assert_eq!((rows.len(), rows[0].delay_ms, stop), (2, Some(2), true));
    let (rows, stop) = batch_poll_step(acc.clone(), true, false, res.clone(), false);
    assert_eq!((rows.len(), stop), (2, false));
    let (rows, stop) = batch_poll_step(acc.clone(), true, false, res.clone(), true);
    assert_eq!((rows.len(), stop), (2, true));
    let (rows, stop) = batch_poll_step(acc.clone(), false, false, res.clone(), false);
    assert_eq!((rows.len(), rows[0].delay_ms, stop), (1, Some(1), false));
    let (rows, stop) = batch_poll_step(acc, false, true, res, true);
    assert_eq!((rows.len(), stop), (1, true));
}

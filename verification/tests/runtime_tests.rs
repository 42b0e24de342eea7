use nekos::runtime::{
    is_core_serve_cmdline, level_of, ready_line, ready_url, serve_args, serve_failed, spawn_failed, strip_ansi,
    unexpected_ready, Daemon, LOG_CAP,
};

#[test]
fn log_level_classification() {
    assert_eq!(level_of("ERROR[0000] boom"), "error");
    assert_eq!(level_of("FATAL[0001] x"), "error");
    assert_eq!(level_of("WARN[0002] noisy"), "warn");
    assert_eq!(level_of("INFO[0003] started"), "info");
    assert_eq!(level_of("DEBUG[0004] trace"), "debug");
    assert_eq!(level_of("random line"), "other");
}

#[test]
fn ansi_stripping() {
    assert_eq!(strip_ansi("\u{1b}[36mINFO\u{1b}[0m[0004] hello"), "INFO[0004] hello");
    assert_eq!(strip_ansi("plain"), "plain");
    assert_eq!(strip_ansi("\u{1b}[1;31merror\u{1b}[0m"), "error");
}

#[test]
fn level_of_edge_cases() {
    assert_eq!(level_of(""), "other");
    assert_eq!(level_of("   WARN[0001] leading blanks"), "warn");
    assert_eq!(level_of("[0001] ERROR late"), "other");
    assert_eq!(level_of("PANIC[0009] dead"), "error");
    assert_eq!(level_of("DEBUG trace"), "debug");
    assert_eq!(level_of("INFOx something"), "other");
    assert_eq!(level_of("warn lower-case"), "other");
}

#[test]
fn strip_ansi_removes_every_escape() {
    let s = strip_ansi("\u{1b}[0m\u{1b}[1;2;3mA\u{1b}[mB\u{1b}");
    assert!(!s.contains('\u{1b}'));
    assert_eq!(s, "AB");
    assert_eq!(strip_ansi(&strip_ansi("\u{1b}[31mred\u{1b}[0m")), strip_ansi("\u{1b}[31mred\u{1b}[0m"));
}

#[test]
fn daemon_log_ring_is_bounded_and_tails_newest() {
    let mut d = Daemon::new("tok".to_string());
    for i in 0..(LOG_CAP + 5) {
        d.push_log(&format!("INFO[{i:04}] line {i}"));
    }
    d.push_log("   ");
    d.push_log("\u{1b}[31m\u{1b}[0m");
    let all = d.tail_logs(usize::MAX);
    assert_eq!(all.len(), LOG_CAP);
    assert_eq!(all[0].line, "INFO[0005] line 5");
    let last = d.tail_logs(1);
    assert_eq!(last.len(), 1);
    assert_eq!(last[0].line, format!("INFO[{:04}] line {}", LOG_CAP + 4, LOG_CAP + 4));
    assert_eq!(last[0].level, "info");
    assert!(d.tail_logs(0).is_empty());
    assert!(Daemon::new("t".to_string()).tail_logs(5).is_empty());
    let three = d.tail_logs(3);
    assert_eq!(three.len(), 3);
    assert_eq!(three[2].line, last[0].line);
}

#[test]
fn daemon_endpoint_lifecycle() {
    let mut d = Daemon::new("secret".to_string());
    assert!(d.cached_conn().is_none());
    let c = d.set_endpoint("http://127.0.0.1:4000".to_string());
    assert_eq!(c.url, "http://127.0.0.1:4000");
    assert_eq!(c.token, "secret");
    let cached = d.cached_conn().unwrap();
    assert_eq!(cached.url, "http://127.0.0.1:4000");
    d.set_instance(true, Some("2024".to_string()));
    assert_eq!(d.instance(), (true, Some("2024".to_string())));
    assert_eq!(d.status(false), (true, Some("2024".to_string())));
    assert_eq!(d.status(true), (false, None));
    assert!(d.cached_conn().is_none());
    d.set_endpoint("http://127.0.0.1:5000".to_string());
    d.shutdown();
    assert!(d.cached_conn().is_none());
    assert_eq!(d.instance(), (false, None));
}

#[test]
fn ready_line_and_url() {
    assert_eq!(ready_line("  {\"rpc\":\"127.0.0.1:3456\"}\n").unwrap(), "{\"rpc\":\"127.0.0.1:3456\"}");
    assert_eq!(ready_line(" \n ").unwrap_err(), "core exited before becoming ready");
    assert_eq!(ready_url("{\"rpc\":\"127.0.0.1:3456\"}").unwrap(), "http://127.0.0.1:3456");
    assert!(ready_url("{\"rpc\":3456}").is_none());
    assert!(ready_url("not json").is_none());
    assert!(ready_url("{\"other\":\"x\"}").is_none());
}

#[test]
fn serve_cmdline_detection() {
    assert!(is_core_serve_cmdline(b"/opt/nekos/bin/nekos-core\0serve\0--rpc\0127.0.0.1:0\0"));
    assert!(is_core_serve_cmdline(b"nekos-core\0serve"));
    assert!(!is_core_serve_cmdline(b"/usr/bin/sleep\0030\0"));
    assert!(!is_core_serve_cmdline(b"/opt/nekos-core\0parse\0"));
    assert!(!is_core_serve_cmdline(b"/opt/nekos-core-old\0serve\0"));
    assert!(!is_core_serve_cmdline(b"nekos-core\0serves\0"));
    assert!(!is_core_serve_cmdline(b""));
}

#[test]
fn serve_args_and_messages() {
    assert_eq!(
        serve_args("tk", Some(42)),
        vec!["serve", "--rpc", "127.0.0.1:0", "--token", "tk", "--parent-pid", "42"]
    );
    assert_eq!(serve_args("tk", None), vec!["serve", "--rpc", "127.0.0.1:0", "--token", "tk"]);
    assert_eq!(serve_failed("timeout", "  boom \n"), "core serve failed: timeout (boom)");
    assert_eq!(
        unexpected_ready("hi \"x\"", " err "),
        "core serve: unexpected ready line \"hi \\\"x\\\"\" (err)"
    );
    assert!(spawn_failed("/bin/core", "not found").starts_with("cannot run core `/bin/core` (not found); build it with"));
}

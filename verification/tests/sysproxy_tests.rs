use nekos::sysproxy::{linux, macos, other, windows};

#[test]
fn api_shape() {
    let shape: (fn(u16) -> Result<(), String>, fn() -> Result<(), String>) = (other::enable, other::disable);
    let _ = shape;
}

#[test]
fn unsupported_platform_plans() {
    assert_eq!(other::enable(2080).unwrap_err(), "system proxy: not implemented on this platform yet");
    assert!(other::disable().is_ok());
    assert!(!other::leftover_at(2080));
}

fn strs(v: &[String]) -> Vec<&str> {
    v.iter().map(|s| s.as_str()).collect()
}

#[test]
fn gnome_enable_and_disable_plans() {
    let plan = linux::enable(10808);
    assert_eq!(plan.len(), 8);
    assert_eq!(strs(&plan[0]), vec!["set", "org.gnome.system.proxy", "mode", "manual"]);
    assert_eq!(strs(&plan[2]), vec!["set", "org.gnome.system.proxy.http", "port", "10808"]);
    assert_eq!(strs(&plan[5]), vec!["set", "org.gnome.system.proxy.socks", "host", "127.0.0.1"]);
    assert_eq!(
        strs(&plan[7]),
        vec!["set", "org.gnome.system.proxy", "ignore-hosts", "['localhost', '127.0.0.0/8', '::1']"]
    );
    let off = linux::disable();
    assert_eq!(off.len(), 1);
    assert_eq!(strs(&off[0]), vec!["set", "org.gnome.system.proxy", "mode", "none"]);
    let q = linux::leftover_queries();
    assert_eq!(strs(&q[2]), vec!["get", "org.gnome.system.proxy.http", "port"]);
    assert_eq!(
        linux::failure_message(&["set".to_string(), "a".to_string()], "  denied\n"),
        "gsettings set a failed: denied"
    );
    assert_eq!(linux::unavailable_message(), "gsettings 不可用（当前桌面可能不是 GNOME）");
}

#[test]
fn gnome_leftover_reads_back_enable() {
    assert_eq!(linux::gsettings_value("'manual'\n"), "manual");
    assert_eq!(linux::gsettings_value("2080\n"), "2080");
    assert_eq!(linux::gsettings_value("''\n"), "");
    assert_eq!(linux::gsettings_value("  'a'b'  "), "a'b");
    assert!(linux::leftover_at(2080, Some("'manual'\n"), Some("'127.0.0.1'\n"), Some("2080\n")));
    assert!(!linux::leftover_at(2081, Some("'manual'\n"), Some("'127.0.0.1'\n"), Some("2080\n")));
    assert!(!linux::leftover_at(2080, Some("'none'\n"), Some("'127.0.0.1'\n"), Some("2080\n")));
    assert!(!linux::leftover_at(2080, Some("'manual'\n"), Some("'10.0.0.1'\n"), Some("2080\n")));
    assert!(!linux::leftover_at(2080, None, Some("'127.0.0.1'\n"), Some("2080\n")));
    assert!(!linux::leftover_at(2080, Some("'manual'\n"), None, Some("2080\n")));
    assert!(!linux::leftover_at(2080, Some("'manual'\n"), Some("'127.0.0.1'\n"), None));
}

#[test]
fn windows_registry_plans() {
    let plan = windows::enable(2080);
    assert_eq!(plan.len(), 3);
    assert_eq!(plan[0].name, "ProxyEnable");
    assert_eq!(plan[0].value, windows::RegValue::Dword(1));
    assert_eq!(plan[1].value, windows::RegValue::Sz("127.0.0.1:2080".to_string()));
    assert_eq!(plan[2].value, windows::RegValue::Sz("localhost;127.0.0.1;<local>".to_string()));
    let off = windows::disable();
    assert_eq!(off[0].value, windows::RegValue::Dword(0));
    assert_eq!(windows::write_error("ProxyServer", "denied"), "写入 ProxyServer: denied");
    assert_eq!(
        windows::internet_settings_key(),
        "Software\\Microsoft\\Windows\\CurrentVersion\\Internet Settings"
    );
}

#[test]
fn macos_networksetup_plans() {
    let plan = macos::enable(2080, "Wi-Fi");
    assert_eq!(plan.len(), 6);
    assert_eq!(strs(&plan[0]), vec!["-setwebproxy", "Wi-Fi", "127.0.0.1", "2080"]);
    assert_eq!(strs(&plan[1]), vec!["-setwebproxystate", "Wi-Fi", "on"]);
    assert_eq!(strs(&plan[4]), vec!["-setsocksfirewallproxy", "Wi-Fi", "127.0.0.1", "2080"]);
    let off = macos::disable("Ethernet");
    assert_eq!(strs(&off[1]), vec!["-setsecurewebproxystate", "Ethernet", "off"]);
    let services = macos::parse_services(
        "An asterisk (*) denotes that a network service is disabled.\nWi-Fi\n*Bluetooth PAN\n  Ethernet  \n\n",
    );
    assert_eq!(services, vec!["An asterisk (*) denotes that a network service is disabled.", "Wi-Fi", "Ethernet"]);
    let names = vec!["Wi-Fi".to_string(), "Ethernet".to_string()];
    assert_eq!(macos::service_outcome(&names, &[None, None]).unwrap(), None);
    assert_eq!(
        macos::service_outcome(&names, &[None, Some("denied".to_string())]).unwrap().unwrap(),
        "Ethernet: denied"
    );
    assert_eq!(
        macos::service_outcome(&names, &[Some("a".to_string()), Some("b".to_string())]).unwrap_err(),
        "Wi-Fi: a; Ethernet: b"
    );
    assert_eq!(macos::service_outcome(&[], &[]).unwrap_err(), "未找到可用的网络服务");
    let script = macos::admin_script(&["-setwebproxy".to_string(), "Wi Fi".to_string()]);
    assert!(script.starts_with("do shell script \"/usr/sbin/networksetup "));
}

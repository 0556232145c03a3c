use rustyrouter::config::RouterConfig;

#[test]
fn test_config_parsing_defaults() {
    let config = RouterConfig::parse(None, None, None, None);

    assert_eq!(config.wan_interface, "eth0");
    assert_eq!(config.lan_interface, "eth1");
    assert_eq!(config.lan_ip, "192.168.1.1/24");
}

#[test]
fn test_config_parsing_from_cmdline() {
    let cmdline = "BOOT_IMAGE=/boot/vmlinuz console=ttyS0 rustyrouter.wan=wan0 rustyrouter.lan=lan0 rustyrouter.lan_ip=10.0.0.1/24 quiet";

    let config = RouterConfig::parse(None, None, None, Some(cmdline));
    assert_eq!(config.wan_interface, "wan0");
    assert_eq!(config.lan_interface, "lan0");
    assert_eq!(config.lan_ip, "10.0.0.1/24");
}

#[test]
fn environment_overrides_only_when_complete() {
    let cmdline = "rustyrouter.wan=wan0";
    let all = RouterConfig::parse(
        Some("a".to_string()),
        Some("b".to_string()),
        Some("c".to_string()),
        Some(cmdline),
    );
    assert_eq!(all.wan_interface, "a");
    assert_eq!(all.lan_interface, "b");
    assert_eq!(all.lan_ip, "c");

    let partial = RouterConfig::parse(Some("a".to_string()), Some("b".to_string()), None, Some(cmdline));
    assert_eq!(partial.wan_interface, "wan0");
    assert_eq!(partial.lan_interface, "eth1");
    assert_eq!(partial.lan_ip, "192.168.1.1/24");
}

#[test]
fn last_setting_on_the_command_line_counts() {
    let cmdline = "rustyrouter.lan=one rustyrouter.lan_ip=10.0.0.1/8 rustyrouter.lan=two\nrustyrouter.wan= x";
    let config = RouterConfig::parse(None, None, None, Some(cmdline));
    assert_eq!(config.lan_interface, "two");
    assert_eq!(config.lan_ip, "10.0.0.1/8");
    assert_eq!(config.wan_interface, "");
}

#[test]
fn parameter_must_start_the_word() {
    let config = RouterConfig::parse(None, None, None, Some("xrustyrouter.wan=wan0 rustyrouter.wan"));
    assert_eq!(config.wan_interface, "eth0");
}

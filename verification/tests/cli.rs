use anetd::cli::{config_path, parse_cli, resolve_args, ArgsError, CliExit};
use anetd::config::{default_dns_port, default_dns_upstream, default_webui_socket, ConfigFile, DEFAULT_CONFIG_FILE};
use anetd::dns_server::startup_plan;
use anetd::webui::WebUiInfo;

fn args(v: &[&str]) -> Vec<String> {
    v.iter().map(|s| s.to_string()).collect()
}

fn file() -> ConfigFile {
    ConfigFile {
        rules: Some("/file/rules".to_string()),
        standalone: true,
        multi_thread: false,
        dns_server: false,
        dns_port: 5300,
        dns_upstream: "9.9.9.9:53".to_string(),
        battery_saver: false,
        webui_socket: "/file/webui.sock".to_string(),
    }
}

#[test]
fn cli_flags_parsed() {
    let c = parse_cli(&args(&["-r", "/a", "--dns-server", "--dns-port=5353", "-m"])).unwrap();
    assert_eq!(c.rules.as_deref(), Some("/a"));
    assert!(c.dns_server && c.multi_thread && !c.standalone);
    assert_eq!(c.dns_port, Some(5353));
    assert_eq!(config_path(&c), DEFAULT_CONFIG_FILE);
    assert_eq!(config_path(&c), "/data/adb/anetd/config.toml");
    let f = parse_cli(&args(&["--config-file=/c.toml"])).unwrap();
    assert_eq!(config_path(&f), "/c.toml");
}

#[test]
fn cli_errors() {
    assert_eq!(parse_cli(&args(&["-h"])).err(), Some(CliExit::Help));
    assert_eq!(parse_cli(&args(&["--rules"])).err(), Some(CliExit::MissingValue("--rules".to_string())));
    assert_eq!(parse_cli(&args(&["--dns-port", "70000"])).err(), Some(CliExit::InvalidPort));
    assert_eq!(parse_cli(&args(&["--bogus"])).err(), Some(CliExit::Unrecognized("--bogus".to_string())));
}

#[test]
fn settings_precedence() {
    let c = parse_cli(&args(&["--dns-port", "1053"])).unwrap();
    let a = resolve_args(c, Some(file())).unwrap();
    assert_eq!(a.dns_port, 1053);
    assert_eq!(a.rules, "/file/rules");
    assert_eq!(a.dns_upstream, "9.9.9.9:53");
    assert!(a.standalone);

    let c = parse_cli(&args(&["-r", "/cli"])).unwrap();
    let a = resolve_args(c, None).unwrap();
    assert_eq!(a.rules, "/cli");
    assert_eq!(a.dns_port, default_dns_port());
    assert_eq!(a.dns_upstream, default_dns_upstream());
    assert_eq!(a.webui_socket, default_webui_socket());
}

#[test]
fn settings_errors() {
    let c = parse_cli(&args(&[])).unwrap();
    assert_eq!(resolve_args(c, None).err(), Some(ArgsError::MissingRules));
    let c = parse_cli(&args(&["-f", "/missing.toml", "-r", "/r"])).unwrap();
    assert_eq!(
        resolve_args(c, None).err(),
        Some(ArgsError::ConfigLoadFailed("/missing.toml".to_string()))
    );
}

#[test]
fn startup_choices() {
    let c = parse_cli(&args(&["-r", "/r", "--battery-saver", "-m", "--dns-server", "--dns-port", "5353"])).unwrap();
    let a = resolve_args(c, None).unwrap();
    let p = startup_plan(&a);
    assert_eq!(p.cache_capacity, 512);
    assert_eq!(p.worker_threads, Some(1));
    assert_eq!(p.dns_bind.as_deref(), Some("0.0.0.0:5353"));

    let c = parse_cli(&args(&["-r", "/r"])).unwrap();
    let p = startup_plan(&resolve_args(c, None).unwrap());
    assert_eq!(p.cache_capacity, 2048);
    assert_eq!(p.worker_threads, None);
    assert_eq!(p.dns_bind, None);
}

#[test]
fn webui_info_from_settings() {
    let c = parse_cli(&args(&["-r", "/r", "--webui-socket", "/w.sock"])).unwrap();
    let a = resolve_args(c, None).unwrap();
    let info = WebUiInfo::from_args(&a);
    assert_eq!(info.socket_path, "/w.sock");
    assert_eq!(info.rules_path, "/r");
    assert_eq!(info.log_path, "/data/adb/modules/anetd/log/anetd.log");
    assert_eq!(info.version, "0.1.0");
}

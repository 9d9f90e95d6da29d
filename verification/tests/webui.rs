use anetd::rules::RuleSet;
use anetd::webui::json::{extract_json_field, extract_json_number, json_str, parse_method};
use anetd::webui::toml_values::{config_values_json, values_json, TomlScalar};
use anetd::webui::{
    check_save_request, format_uptime, load_config_reply, logs_json, reload_reply, request_kind,
    rules_json, save_failed_reply, save_ok_reply, status_json, status_json_at,
    unknown_method_reply, WebMethod, WebUiInfo,
};

#[test]
fn json_str_escapes() {
    assert_eq!(json_str("a\"b\\c\nd"), r#""a\"b\\c\nd""#);
    assert_eq!(json_str("中文"), "\"中文\"");
}

#[test]
fn json_str_control_chars() {
    assert_eq!(json_str("\t\r\u{1}\u{1f}"), r#""\t\r\u0001\u001f""#);
    assert_eq!(json_str(""), "\"\"");
}

#[test]
fn extract_field_decodes_escapes() {
    let line = r#"{"method":"save_config","content":"rules = \"/x\"\nstandalone = false"}"#;
    assert_eq!(
        extract_json_field(line, "content").as_deref(),
        Some("rules = \"/x\"\nstandalone = false")
    );
    assert_eq!(extract_json_field(line, "nope"), None);
}

#[test]
fn extract_field_unicode_escapes() {
    assert_eq!(extract_json_field(r#"{"k":"\u0041\u00e9\/\b"}"#, "k").as_deref(), Some("Aé/\u{8}"));
    // a surrogate code is dropped
    assert_eq!(extract_json_field(r#"{"k":"x\ud800y"}"#, "k").as_deref(), Some("xy"));
    // unterminated string
    assert_eq!(extract_json_field(r#"{"k":"abc"#, "k"), None);
    // value that is not a string
    assert_eq!(extract_json_field(r#"{"k": 12}"#, "k"), None);
}

#[test]
fn extract_field_roundtrips_written_strings() {
    let s = "a \"quoted\" \\ line\nwith\ttabs and \u{7} bell";
    let line = format!("{{\"method\":\"save_config\",\"content\":{}}}", json_str(s));
    assert_eq!(extract_json_field(&line, "content").as_deref(), Some(s));
}

#[test]
fn extract_number() {
    assert_eq!(extract_json_number(r#"{"count":200}"#, "count"), Some(200));
    assert_eq!(extract_json_number(r#"{"count": 12}"#, "count"), Some(12));
}

#[test]
fn extract_number_edge_cases() {
    assert_eq!(extract_json_number(r#"{"count":"x"}"#, "count"), None);
    assert_eq!(extract_json_number(r#"{"count":99999999999999999999}"#, "count"), None);
    assert_eq!(extract_json_number(r#"{"other":1}"#, "count"), None);
}

#[test]
fn method_parsing() {
    assert_eq!(parse_method(r#"{"method":"get_status"}"#), "get_status");
    assert_eq!(parse_method(r#"{ "method" : "load_logs", "count": 3}"#), "load_logs");
    assert_eq!(parse_method(r#"{"x":1}"#), "");
    assert_eq!(request_kind(r#"{"method":"reload_rules"}"#), WebMethod::ReloadRules);
    assert_eq!(request_kind(r#"{"method":"frobnicate"}"#), WebMethod::Unknown);
    assert_eq!(unknown_method_reply(), "{\"ok\":false,\"error\":\"unknown method\"}\n");
}

#[test]
fn config_values() {
    let content = "rules = \"/data/adb/modules/anetd/rules\"\nstandalone = false\n";
    let json = config_values_json(content);
    assert!(json.contains("\"rules\":\"/data/adb/modules/anetd/rules\""));
    assert!(json.contains("\"standalone\":false"));
}

#[test]
fn config_values_order_and_kinds() {
    let content = "dns_port = 5353\nrules = \"/r\"\nunknown = 1\nbattery_saver = true\ndns_upstream = [1]\n";
    assert_eq!(
        config_values_json(content),
        "{\"rules\":\"/r\",\"dns_port\":5353,\"battery_saver\":true}"
    );
    assert_eq!(config_values_json("this is not toml"), "{}");
    assert_eq!(config_values_json(""), "{}");
}

#[test]
fn uptime() {
    assert_eq!(format_uptime(5), "5s");
    assert_eq!(format_uptime(65), "1m 5s");
    assert_eq!(format_uptime(3661), "1h 1m");
    assert_eq!(format_uptime(90_000), "1d 1h");
}

#[test]
fn uptime_zero_and_exact_units() {
    assert_eq!(format_uptime(0), "0s");
    assert_eq!(format_uptime(60), "1m 0s");
    assert_eq!(format_uptime(86_400), "1d 0h");
}

fn test_info() -> WebUiInfo {
    WebUiInfo {
        version: "test",
        started: std::time::Instant::now(),
        socket_path: "/tmp/anetd-test.sock".to_string(),
        rules_path: "/tmp/anetd-test-rules".to_string(),
        config_path: "/tmp/anetd-test-config.toml".to_string(),
        log_path: "/tmp/anetd-test.log".to_string(),
        dns_server: false,
        dns_port: 53,
        dns_upstream: "1.1.1.1:53".to_string(),
        battery_saver: false,
        multi_thread: true,
        standalone: true,
    }
}

#[test]
fn status_response_contains_all_fields() {
    let rules = RuleSet::new();
    let resp = status_json_at(&test_info(), &rules, 1234, 65, 7, 42, true);
    assert!(resp.contains("\"ok\":true"), "{resp}");
    assert!(resp.contains("\"running\":true"), "{resp}");
    assert!(resp.contains("\"version\":\"test\""), "{resp}");
    assert!(resp.contains("\"blocked\":42"), "{resp}");
    assert!(resp.contains("\"dns_queries\":7"), "{resp}");
    assert!(resp.contains("\"mode\":\"hijack\""), "{resp}");
    assert!(resp.contains("\"rules_count\":0"), "{resp}");
    assert!(resp.contains("\"dns_filter_enabled\":true"), "{resp}");
    assert!(resp.contains("\"uptime\":\"1m 5s\""), "{resp}");
    assert!(resp.contains("\"pid\":1234"), "{resp}");
    assert!(resp.ends_with("\"log_path\":\"/tmp/anetd-test.log\"}\n"), "{resp}");
}

#[test]
fn status_now_reports_uptime() {
    let rules = RuleSet::from_rules(&["||a.com^", "@@||b.com^"]);
    let resp = status_json(&test_info(), &rules, 1, 0, 0, false);
    assert!(resp.contains("\"uptime_sec\":0,") || resp.contains("\"uptime_sec\":1,"), "{resp}");
    assert!(resp.contains("\"block_rules\":1,\"allow_rules\":1"), "{resp}");
    assert!(resp.contains("\"dns_filter_enabled\":false"), "{resp}");
}

#[test]
fn rules_and_reload_replies() {
    let rules = RuleSet::from_rules(&["||a.com^"]).with_watched_files(vec![
        ("/r/a".to_string(), "00ff".to_string()),
        ("/r/\"b\"".to_string(), "11".to_string()),
    ]);
    assert_eq!(
        rules_json(&rules),
        "{\"ok\":true,\"files\":[{\"path\":\"/r/a\",\"hash\":\"00ff\"},{\"path\":\"/r/\\\"b\\\"\",\"hash\":\"11\"}]}\n"
    );
    assert_eq!(rules_json(&RuleSet::new()), "{\"ok\":true,\"files\":[]}\n");
    assert_eq!(
        reload_reply(&rules),
        "{\"ok\":true,\"rules_count\":2,\"block_rules\":1,\"allow_rules\":0}\n"
    );
}

#[test]
fn load_config_replies() {
    assert_eq!(
        load_config_reply(Some("dns_port = 53\n")),
        "{\"ok\":true,\"content\":\"dns_port = 53\\n\",\"values\":{\"dns_port\":53}}\n"
    );
    assert_eq!(load_config_reply(None), "{\"ok\":true,\"content\":\"\",\"values\":{}}\n");
}

#[test]
fn save_config_roundtrips_quotes_and_newlines() {
    let req = r#"{"method":"save_config","content":"rules = \"/data/adb/modules/anetd/rules\"\nstandalone = false\nbattery_saver = true\n"}"#;
    let content = check_save_request(req).expect("valid request");
    assert_eq!(
        content,
        "rules = \"/data/adb/modules/anetd/rules\"\nstandalone = false\nbattery_saver = true\n"
    );
    assert!(save_ok_reply().contains("\"ok\":true"));
}

#[test]
fn save_config_rejects_invalid_toml() {
    let req = r#"{"method":"save_config","content":"this is not toml"}"#;
    let resp = check_save_request(req).unwrap_err();
    assert!(resp.contains("\"ok\":false"), "{resp}");
    assert!(resp.contains("invalid TOML"), "{resp}");
}

#[test]
fn save_config_requires_content() {
    let resp = check_save_request(r#"{"method":"save_config"}"#).unwrap_err();
    assert_eq!(resp, "{\"ok\":false,\"error\":\"missing content\"}\n");
    assert_eq!(
        save_failed_reply("disk \"full\""),
        "{\"ok\":false,\"error\":\"disk \\\"full\\\"\"}\n"
    );
}

#[test]
fn logs_escape_special_characters() {
    let content = "line one\nwith \"quotes\" and \\ backslash\n";
    let resp = logs_json(r#"{"method":"load_logs","count":10}"#, Some(content));
    assert!(resp.contains(r#""line one""#), "{resp}");
    assert!(resp.contains(r#""with \"quotes\" and \\ backslash""#), "{resp}");
}

#[test]
fn logs_keep_the_last_lines() {
    let content = "a\r\nb\nc\nd";
    assert_eq!(
        logs_json(r#"{"method":"load_logs","count":2}"#, Some(content)),
        "{\"ok\":true,\"lines\":[\"c\",\"d\"]}\n"
    );
    assert_eq!(
        logs_json(r#"{"method":"load_logs"}"#, Some(content)),
        "{\"ok\":true,\"lines\":[\"a\",\"b\",\"c\",\"d\"]}\n"
    );
    assert_eq!(logs_json(r#"{"count":0}"#, Some(content)), "{\"ok\":true,\"lines\":[]}\n");
    assert_eq!(logs_json("{}", None), "{\"ok\":true,\"lines\":[]}\n");
}

#[test]
fn values_json_of_looked_up_values() {
    let entries = vec![
        ("rules".to_string(), TomlScalar::Str("/a \"b\"".to_string())),
        ("dns_upstream".to_string(), TomlScalar::Other),
        ("dns_port".to_string(), TomlScalar::Int(-5)),
        ("standalone".to_string(), TomlScalar::Bool(true)),
    ];
    assert_eq!(
        values_json(&entries),
        "{\"rules\":\"/a \\\"b\\\"\",\"dns_port\":-5,\"standalone\":true}"
    );
    assert_eq!(values_json(&Vec::new()), "{}");
    assert_eq!(values_json(&vec![("k".to_string(), TomlScalar::Other)]), "{}");
}

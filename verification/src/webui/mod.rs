//! The WebUI management socket: its requests and the replies to them.
//!
//! Requests are one JSON line with a `method` field; replies are one JSON
//! line.  Reading and writing the socket, the files and the clock are the
//! caller's; every reply's text is fixed here.
pub mod json;
pub mod toml_values;

use vstd::prelude::*;

use crate::cli::Args;
use crate::config::{DEFAULT_CONFIG_FILE, LOG_DIR};
use crate::numfmt::{decimal, push_u64};
use crate::rules::RuleSet;
use crate::split::{lines_of, split_lines};
use crate::text::{push_char, push_str, str_eq, string_views};
use crate::webui::json::{
    extract_json_field, extract_json_number, json_field, json_number, json_string, parse_method,
    push_json_str, request_method,
};
use crate::webui::toml_values::{
    config_values_json, config_values_text, join_commas, parse_toml_table, toml_parse,
};

verus! {

/// The version reported by `get_status`.
pub const VERSION: &'static str = "0.1.0";

/// `std::time::Instant` is carried as an opaque value.
#[verifier::external_type_specification]
#[verifier::external_body]
pub struct ExInstant(std::time::Instant);

/// `Instant::now` (std): a reading of the monotonic clock.  Nothing is
/// promised about the value.
#[verifier::external_body]
fn instant_now() -> std::time::Instant {
    std::time::Instant::now()
}

/// `Instant::elapsed` then `Duration::as_secs` (std): whole seconds since
/// `start` on the monotonic clock.  It depends on the clock, so nothing is
/// promised about the value.
#[verifier::external_body]
fn elapsed_secs(start: &std::time::Instant) -> u64 {
    start.elapsed().as_secs()
}

/// Static information about the daemon, provided to the WebUI server.
pub struct WebUiInfo {
    pub version: &'static str,
    pub started: std::time::Instant,
    pub socket_path: String,
    pub rules_path: String,
    pub config_path: String,
    pub log_path: String,
    pub dns_server: bool,
    pub dns_port: u16,
    pub dns_upstream: String,
    pub battery_saver: bool,
    pub multi_thread: bool,
    pub standalone: bool,
}

/// The log file inside `LOG_DIR`.
pub open spec fn log_file_path() -> Seq<char> {
    LOG_DIR@ + "/anetd.log"@
}

impl WebUiInfo {
    /// The information for the settings `args`, started now.
    pub fn from_args(args: &Args) -> (r: Self)
        ensures
            r.version@ == VERSION@,
            r.socket_path@ == args.webui_socket@,
            r.rules_path@ == args.rules@,
            r.config_path@ == DEFAULT_CONFIG_FILE@,
            r.log_path@ == log_file_path(),
            r.dns_server == args.dns_server,
            r.dns_port == args.dns_port,
            r.dns_upstream@ == args.dns_upstream@,
            r.battery_saver == args.battery_saver,
            r.multi_thread == args.multi_thread,
            r.standalone == args.standalone,
    {
        let mut log_path = String::new();
        push_str(&mut log_path, LOG_DIR);
        push_str(&mut log_path, "/anetd.log");
        assert(log_path@ =~= log_file_path());
        WebUiInfo {
            version: VERSION,
            started: instant_now(),
            socket_path: args.webui_socket.clone(),
            rules_path: args.rules.clone(),
            config_path: String::from_str(DEFAULT_CONFIG_FILE),
            log_path,
            dns_server: args.dns_server,
            dns_port: args.dns_port,
            dns_upstream: args.dns_upstream.clone(),
            battery_saver: args.battery_saver,
            multi_thread: args.multi_thread,
            standalone: args.standalone,
        }
    }

    /// Whole seconds since the daemon started.
    pub fn uptime_secs(&self) -> u64 {
        elapsed_secs(&self.started)
    }
}

/// The file whose presence pauses the filter (written by the toggle
/// script).
pub open spec fn dns_off_marker() -> Seq<char> {
    LOG_DIR@ + "/dns_off"@
}

/// The path of the pause marker; the filter is enabled while no file
/// exists there.
pub fn dns_off_marker_path() -> (p: String)
    ensures
        p@ == dns_off_marker(),
{
    let mut p = String::new();
    push_str(&mut p, LOG_DIR);
    push_str(&mut p, "/dns_off");
    assert(p@ =~= dns_off_marker());
    p
}

// ---------------------------------------------------------------------------
// Formatting helpers
// ---------------------------------------------------------------------------

/// `true` / `false`.
pub open spec fn bool_text(b: bool) -> Seq<char> {
    if b {
        "true"@
    } else {
        "false"@
    }
}

fn push_bool(s: &mut String, b: bool)
    ensures
        final(s)@ == old(s)@ + bool_text(b),
{
    if b {
        push_str(s, "true");
    } else {
        push_str(s, "false");
    }
}

/// A compact uptime: the two largest units among days, hours, minutes and
/// seconds, starting at the first that is not zero (`"5s"`, `"1m 5s"`,
/// `"1h 1m"`, `"1d 1h"`).
pub open spec fn uptime_text(secs: nat) -> Seq<char> {
    let d = secs / 86400;
    let h = (secs % 86400) / 3600;
    let m = (secs % 3600) / 60;
    let s = secs % 60;
    if d > 0 {
        decimal(d) + seq!['d', ' '] + decimal(h) + seq!['h']
    } else if h > 0 {
        decimal(h) + seq!['h', ' '] + decimal(m) + seq!['m']
    } else if m > 0 {
        decimal(m) + seq!['m', ' '] + decimal(s) + seq!['s']
    } else {
        decimal(s) + seq!['s']
    }
}

/// Formats an uptime in seconds.
pub fn format_uptime(secs: u64) -> (r: String)
    ensures
        r@ == uptime_text(secs as nat),
{
    let d = secs / 86_400;
    let h = (secs % 86_400) / 3600;
    let m = (secs % 3600) / 60;
    let s = secs % 60;
    let mut out = String::new();
    if d > 0 {
        push_u64(&mut out, d);
        push_char(&mut out, 'd');
        push_char(&mut out, ' ');
        push_u64(&mut out, h);
        push_char(&mut out, 'h');
    } else if h > 0 {
        push_u64(&mut out, h);
        push_char(&mut out, 'h');
        push_char(&mut out, ' ');
        push_u64(&mut out, m);
        push_char(&mut out, 'm');
    } else if m > 0 {
        push_u64(&mut out, m);
        push_char(&mut out, 'm');
        push_char(&mut out, ' ');
        push_u64(&mut out, s);
        push_char(&mut out, 's');
    } else {
        push_u64(&mut out, s);
        push_char(&mut out, 's');
    }
    assert(out@ =~= uptime_text(secs as nat));
    out
}

// ---------------------------------------------------------------------------
// Requests
// ---------------------------------------------------------------------------

/// The methods the socket answers.
#[derive(Debug, Clone, Copy, PartialEq, Eq, Structural)]
pub enum WebMethod {
    GetStatus,
    LoadRules,
    ReloadRules,
    LoadConfig,
    SaveConfig,
    LoadLogs,
    Unknown,
}

/// The method a request line names.
pub open spec fn method_named(m: Seq<char>) -> WebMethod {
    if m == "get_status"@ {
        WebMethod::GetStatus
    } else if m == "load_rules"@ {
        WebMethod::LoadRules
    } else if m == "reload_rules"@ {
        WebMethod::ReloadRules
    } else if m == "load_config"@ {
        WebMethod::LoadConfig
    } else if m == "save_config"@ {
        WebMethod::SaveConfig
    } else if m == "load_logs"@ {
        WebMethod::LoadLogs
    } else {
        WebMethod::Unknown
    }
}

/// The method of a request line.
pub fn request_kind(line: &str) -> (r: WebMethod)
    ensures
        r == method_named(request_method(line@)),
{
    let m = parse_method(line);
    if str_eq(m, "get_status") {
        WebMethod::GetStatus
    } else if str_eq(m, "load_rules") {
        WebMethod::LoadRules
    } else if str_eq(m, "reload_rules") {
        WebMethod::ReloadRules
    } else if str_eq(m, "load_config") {
        WebMethod::LoadConfig
    } else if str_eq(m, "save_config") {
        WebMethod::SaveConfig
    } else if str_eq(m, "load_logs") {
        WebMethod::LoadLogs
    } else {
        WebMethod::Unknown
    }
}

/// The reply to an unknown method.
pub fn unknown_method_reply() -> (r: String)
    ensures
        r@ == "{\"ok\":false,\"error\":\"unknown method\"}\n"@,
{
    String::from_str("{\"ok\":false,\"error\":\"unknown method\"}\n")
}

// ---------------------------------------------------------------------------
// get_status
// ---------------------------------------------------------------------------

/// `dns-server` or `hijack`.
pub open spec fn mode_name(dns_server: bool) -> Seq<char> {
    if dns_server {
        "dns-server"@
    } else {
        "hijack"@
    }
}

/// The `get_status` reply.
pub open spec fn status_text(
    info: WebUiInfo,
    rules: RuleSet,
    pid: u32,
    uptime: u64,
    dns_queries: u64,
    blocked: u64,
    filter_enabled: bool,
) -> Seq<char> {
    "{\"ok\":true,\"running\":true,\"version\":"@ + json_string(info.version@) + ",\"pid\":"@
        + decimal(pid as nat) + ",\"uptime_sec\":"@ + decimal(uptime as nat) + ",\"uptime\":"@
        + json_string(uptime_text(uptime as nat)) + ",\"dns_queries\":"@ + decimal(
        dns_queries as nat,
    ) + ",\"blocked\":"@ + decimal(blocked as nat) + ",\"rules_count\":"@ + decimal(
        rules.files().len(),
    ) + ",\"block_rules\":"@ + decimal(rules.block_domains().len()) + ",\"allow_rules\":"@
        + decimal(rules.allow_domains().len()) + ",\"dns_filter_enabled\":"@ + bool_text(
        filter_enabled,
    ) + ",\"mode\":"@ + json_string(mode_name(info.dns_server)) + ",\"battery_saver\":"@
        + bool_text(info.battery_saver) + ",\"multi_thread\":"@ + bool_text(info.multi_thread)
        + ",\"standalone\":"@ + bool_text(info.standalone) + ",\"dns_port\":"@ + decimal(
        info.dns_port as nat,
    ) + ",\"dns_upstream\":"@ + json_string(info.dns_upstream@) + ",\"rules_path\":"@
        + json_string(info.rules_path@) + ",\"socket_path\":"@ + json_string(info.socket_path@)
        + ",\"config_path\":"@ + json_string(info.config_path@) + ",\"log_path\":"@ + json_string(
        info.log_path@,
    ) + "}\n"@
}

/// The `get_status` reply, for an uptime of `uptime` seconds.  The pid,
/// the counters and whether the filter is enabled are the caller's
/// readings.
pub fn status_json_at(
    info: &WebUiInfo,
    rules: &RuleSet,
    pid: u32,
    uptime: u64,
    dns_queries: u64,
    blocked: u64,
    filter_enabled: bool,
) -> (r: String)
    ensures
        r@ == status_text(*info, *rules, pid, uptime, dns_queries, blocked, filter_enabled),
{
    let mut s = String::new();
    push_str(&mut s, "{\"ok\":true,\"running\":true,\"version\":");
    push_json_str(&mut s, info.version);
    push_str(&mut s, ",\"pid\":");
    push_u64(&mut s, pid as u64);
    push_str(&mut s, ",\"uptime_sec\":");
    push_u64(&mut s, uptime);
    push_str(&mut s, ",\"uptime\":");
    let up = format_uptime(uptime);
    push_json_str(&mut s, up.as_str());
    push_str(&mut s, ",\"dns_queries\":");
    push_u64(&mut s, dns_queries);
    push_str(&mut s, ",\"blocked\":");
    push_u64(&mut s, blocked);
    push_str(&mut s, ",\"rules_count\":");
    push_u64(&mut s, rules.watched_files().len() as u64);
    push_str(&mut s, ",\"block_rules\":");
    push_u64(&mut s, rules.block_count() as u64);
    push_str(&mut s, ",\"allow_rules\":");
    push_u64(&mut s, rules.allow_count() as u64);
    push_str(&mut s, ",\"dns_filter_enabled\":");
    push_bool(&mut s, filter_enabled);
    push_str(&mut s, ",\"mode\":");
    push_json_str(
        &mut s,
        if info.dns_server {
            "dns-server"
        } else {
            "hijack"
        },
    );
    push_str(&mut s, ",\"battery_saver\":");
    push_bool(&mut s, info.battery_saver);
    push_str(&mut s, ",\"multi_thread\":");
    push_bool(&mut s, info.multi_thread);
    push_str(&mut s, ",\"standalone\":");
    push_bool(&mut s, info.standalone);
    push_str(&mut s, ",\"dns_port\":");
    push_u64(&mut s, info.dns_port as u64);
    push_str(&mut s, ",\"dns_upstream\":");
    push_json_str(&mut s, info.dns_upstream.as_str());
    push_str(&mut s, ",\"rules_path\":");
    push_json_str(&mut s, info.rules_path.as_str());
    push_str(&mut s, ",\"socket_path\":");
    push_json_str(&mut s, info.socket_path.as_str());
    push_str(&mut s, ",\"config_path\":");
    push_json_str(&mut s, info.config_path.as_str());
    push_str(&mut s, ",\"log_path\":");
    push_json_str(&mut s, info.log_path.as_str());
    push_str(&mut s, "}\n");
    s
}

/// The `get_status` reply now: as `status_json_at` for the uptime the
/// clock gives.
pub fn status_json(
    info: &WebUiInfo,
    rules: &RuleSet,
    pid: u32,
    dns_queries: u64,
    blocked: u64,
    filter_enabled: bool,
) -> (r: String)
    ensures
        exists|uptime: u64|
            r@ == status_text(*info, *rules, pid, uptime, dns_queries, blocked, filter_enabled),
{
    let uptime = info.uptime_secs();
    status_json_at(info, rules, pid, uptime, dns_queries, blocked, filter_enabled)
}

// ---------------------------------------------------------------------------
// load_rules / reload_rules
// ---------------------------------------------------------------------------

/// One watched file as a JSON object.
pub open spec fn file_entry(f: (String, String)) -> Seq<char> {
    "{\"path\":"@ + json_string(f.0@) + ",\"hash\":"@ + json_string(f.1@) + "}"@
}

/// The `load_rules` reply: the watched files with their hashes.
pub open spec fn rules_text(rules: RuleSet) -> Seq<char> {
    "{\"ok\":true,\"files\":["@ + join_commas(
        rules.files().map_values(|f: (String, String)| file_entry(f)),
    ) + "]}\n"@
}

/// The `load_rules` reply.
pub fn rules_json(rules: &RuleSet) -> (r: String)
    ensures
        r@ == rules_text(*rules),
{
    let files = rules.watched_files();
    let ghost es = rules.files().map_values(|f: (String, String)| file_entry(f));
    let mut s = String::new();
    push_str(&mut s, "{\"ok\":true,\"files\":[");
    let ghost start = s@;
    let mut i: usize = 0;
    proof {
        assert(es.take(0) =~= Seq::<Seq<char>>::empty());
    }
    while i < files.len()
        invariant
            i <= files@.len(),
            files@ == rules.files(),
            es == rules.files().map_values(|f: (String, String)| file_entry(f)),
            s@ == start + join_commas(es.take(i as int)),
        decreases files@.len() - i,
    {
        let ghost prev = es.take(i as int);
        let ghost before = s@;
        if i > 0 {
            push_char(&mut s, ',');
        }
        push_str(&mut s, "{\"path\":");
        push_json_str(&mut s, files[i].0.as_str());
        push_str(&mut s, ",\"hash\":");
        push_json_str(&mut s, files[i].1.as_str());
        push_str(&mut s, "}");
        proof {
            let next = es.take(i + 1);
            assert(next.drop_last() =~= prev);
            assert(next.last() == file_entry(files@[i as int]));
            if i == 0 {
                assert(join_commas(next) == next[0]);
                assert(s@ =~= start + join_commas(next));
            } else {
                assert(join_commas(next) == join_commas(prev) + seq![','] + next.last());
                assert(s@ =~= start + join_commas(next));
            }
        }
        i += 1;
    }
    proof {
        assert(es.take(files@.len() as int) =~= es);
    }
    push_str(&mut s, "]}\n");
    assert(s@ =~= rules_text(*rules));
    s
}

/// The `reload_rules` reply for the rules just loaded.
pub open spec fn reload_text(rules: RuleSet) -> Seq<char> {
    "{\"ok\":true,\"rules_count\":"@ + decimal(rules.files().len()) + ",\"block_rules\":"@
        + decimal(rules.block_domains().len()) + ",\"allow_rules\":"@ + decimal(
        rules.allow_domains().len(),
    ) + "}\n"@
}

/// The `reload_rules` reply for the rules just loaded.
pub fn reload_reply(rules: &RuleSet) -> (r: String)
    ensures
        r@ == reload_text(*rules),
{
    let mut s = String::new();
    push_str(&mut s, "{\"ok\":true,\"rules_count\":");
    push_u64(&mut s, rules.watched_files().len() as u64);
    push_str(&mut s, ",\"block_rules\":");
    push_u64(&mut s, rules.block_count() as u64);
    push_str(&mut s, ",\"allow_rules\":");
    push_u64(&mut s, rules.allow_count() as u64);
    push_str(&mut s, "}\n");
    s
}

// ---------------------------------------------------------------------------
// load_config / save_config
// ---------------------------------------------------------------------------

/// The chars of an optional string.
pub open spec fn str_opt(o: Option<&str>) -> Option<Seq<char>> {
    match o {
        Some(s) => Some(s@),
        None => None,
    }
}

/// The `load_config` reply for the configuration file's content (`None`:
/// it could not be read).
pub open spec fn load_config_text(content: Option<Seq<char>>) -> Seq<char> {
    match content {
        Some(c) => "{\"ok\":true,\"content\":"@ + json_string(c) + ",\"values\":"@
            + config_values_text(c) + "}\n"@,
        None => "{\"ok\":true,\"content\":\"\",\"values\":{}}\n"@,
    }
}

/// The `load_config` reply.
pub fn load_config_reply(content: Option<&str>) -> (r: String)
    ensures
        r@ == load_config_text(str_opt(content)),
{
    match content {
        Some(c) => {
            let mut s = String::new();
            push_str(&mut s, "{\"ok\":true,\"content\":");
            push_json_str(&mut s, c);
            push_str(&mut s, ",\"values\":");
            let values = config_values_json(c);
            push_str(&mut s, values.as_str());
            push_str(&mut s, "}\n");
            s
        },
        None => String::from_str("{\"ok\":true,\"content\":\"\",\"values\":{}}\n"),
    }
}

/// What `save_config` does with a request line: `Ok` with the content to
/// write, or `Err` with the reply when the `content` field is missing or is
/// not a TOML document (the file is then left alone).
pub open spec fn save_check(line: Seq<char>) -> Result<Seq<char>, Seq<char>> {
    match json_field(line, "content"@) {
        None => Err("{\"ok\":false,\"error\":\"missing content\"}\n"@),
        Some(c) => if toml_parse(c) is None {
            Err("{\"ok\":false,\"error\":\"invalid TOML\"}\n"@)
        } else {
            Ok(c)
        },
    }
}

/// Validate a `save_config` request before the file is touched.
pub fn check_save_request(line: &str) -> (r: Result<String, String>)
    ensures
        match save_check(line@) {
            Ok(c) => r matches Ok(s) && s@ == c,
            Err(e) => r matches Err(s) && s@ == e,
        },
{
    let content = match extract_json_field(line, "content") {
        Some(c) => c,
        None => return Err(String::from_str("{\"ok\":false,\"error\":\"missing content\"}\n")),
    };
    match parse_toml_table(content.as_str()) {
        Some(_) => Ok(content),
        None => Err(String::from_str("{\"ok\":false,\"error\":\"invalid TOML\"}\n")),
    }
}

/// The reply once the configuration was written.
pub fn save_ok_reply() -> (r: String)
    ensures
        r@ == "{\"ok\":true}\n"@,
{
    String::from_str("{\"ok\":true}\n")
}

/// The reply when writing the configuration failed with `message`.
pub fn save_failed_reply(message: &str) -> (r: String)
    ensures
        r@ == "{\"ok\":false,\"error\":"@ + json_string(message@) + "}\n"@,
{
    let mut s = String::new();
    push_str(&mut s, "{\"ok\":false,\"error\":");
    push_json_str(&mut s, message);
    push_str(&mut s, "}\n");
    s
}

// ---------------------------------------------------------------------------
// load_logs
// ---------------------------------------------------------------------------

/// How many log lines a request asks for: its `count` field, 100 when it
/// has none.
pub open spec fn log_count(line: Seq<char>) -> usize {
    match json_number(line, "count"@) {
        Some(n) => (n as u64) as usize,
        None => 100,
    }
}

/// The `load_logs` reply for the log file's content (`None`: it could not
/// be read): its last `log_count` lines as JSON strings.
pub open spec fn logs_text(line: Seq<char>, content: Option<Seq<char>>) -> Seq<char> {
    match content {
        None => "{\"ok\":true,\"lines\":[]}\n"@,
        Some(c) => {
            let ls = lines_of(c);
            let n = log_count(line) as int;
            let start = if ls.len() > n {
                ls.len() - n
            } else {
                0
            };
            "{\"ok\":true,\"lines\":["@ + join_commas(
                ls.skip(start).map_values(|l: Seq<char>| json_string(l)),
            ) + "]}\n"@
        },
    }
}

/// The `load_logs` reply.
pub fn logs_json(line: &str, content: Option<&str>) -> (r: String)
    ensures
        r@ == logs_text(line@, str_opt(content)),
{
    let c = match content {
        Some(c) => c,
        None => return String::from_str("{\"ok\":true,\"lines\":[]}\n"),
    };
    let count: usize = match extract_json_number(line, "count") {
        Some(n) => {
            #[verifier::truncate]
            (n as usize)
        },
        None => 100,
    };
    assert(count == log_count(line@));
    let lines = split_lines(c);
    let n = lines.len();
    let start: usize = if n > count {
        n - count
    } else {
        0
    };
    let ghost ls = lines_of(c@);
    let ghost es = ls.skip(start as int).map_values(|l: Seq<char>| json_string(l));
    let mut s = String::new();
    push_str(&mut s, "{\"ok\":true,\"lines\":[");
    let ghost st = s@;
    let mut i: usize = start;
    proof {
        assert(es.take(0) =~= Seq::<Seq<char>>::empty());
    }
    while i < n
        invariant
            start <= i <= n,
            n == lines@.len(),
            string_views(lines@) == ls,
            es == ls.skip(start as int).map_values(|l: Seq<char>| json_string(l)),
            s@ == st + join_commas(es.take(i - start)),
        decreases n - i,
    {
        let ghost prev = es.take(i - start);
        if i > start {
            push_char(&mut s, ',');
        }
        push_json_str(&mut s, lines[i].as_str());
        proof {
            let next = es.take(i + 1 - start);
            assert(next.drop_last() =~= prev);
            assert(string_views(lines@)[i as int] == lines@[i as int]@);
            assert(next.last() == json_string(lines@[i as int]@));
            if i == start {
                assert(join_commas(next) == next[0]);
            } else {
                assert(join_commas(next) == join_commas(prev) + seq![','] + next.last());
            }
            assert(s@ =~= st + join_commas(next));
        }
        i += 1;
    }
    proof {
        assert(es.take(n - start) =~= es);
    }
    push_str(&mut s, "]}\n");
    assert(s@ =~= logs_text(line@, str_opt(content)));
    s
}

} // verus!

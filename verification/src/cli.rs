//! Command-line parsing and its merge with the configuration file.
//!
//! Precedence: command-line values > config file > built-in defaults.  The
//! only required value is `rules`, which may come from either `--rules` or
//! the config file's `rules` key.
use vstd::prelude::*;

use crate::config::{ConfigFile, DNS_SERVER_PORT, DNS_UPSTREAM, WEBUI_SOCKET, DEFAULT_CONFIG_FILE};
use crate::text::{chars_of, has_prefix_at, parse_u16, parse_unsigned, starts_with, starts_with_at};

verus! {

/// The final, merged settings.
#[derive(Debug, Clone)]
pub struct Args {
    /// Path to rule file(s) or directory; comma-separated values allowed.
    pub rules: String,
    /// Run as a background daemon and log to file.
    pub standalone: bool,
    /// Enable the multi-thread runtime.
    pub multi_thread: bool,
    /// Enable the built-in DNS server (UDP/TCP).
    pub dns_server: bool,
    /// DNS server listen port.
    pub dns_port: u16,
    /// Upstream DNS server address.
    pub dns_upstream: String,
    /// Battery saver mode: smaller cache, fewer worker threads.
    pub battery_saver: bool,
    /// Path for the web UI Unix socket.
    pub webui_socket: String,
}

/// What the command line set explicitly.
#[derive(Debug, Clone)]
pub struct CliArgs {
    pub rules: Option<String>,
    pub config_file: Option<String>,
    pub standalone: bool,
    pub multi_thread: bool,
    pub dns_server: bool,
    pub dns_port: Option<u16>,
    pub dns_upstream: Option<String>,
    pub battery_saver: bool,
    pub webui_socket: Option<String>,
}

/// Why parsing the command line stopped.
#[derive(Debug, Clone, PartialEq, Eq)]
pub enum CliExit {
    /// `-h` / `--help`: print the help and exit successfully.
    Help,
    /// A flag that takes a value was last (its long name is given).
    MissingValue(String),
    /// `--dns-port` was not a valid port number.
    InvalidPort,
    /// An argument no flag matches (it is given).
    Unrecognized(String),
}

/// Why the settings cannot be completed.
#[derive(Debug, Clone, PartialEq, Eq)]
pub enum ArgsError {
    /// An explicitly given config file could not be loaded (its path).
    ConfigLoadFailed(String),
    /// No rules path on the command line nor in the config file.
    MissingRules,
}

/// The flags the command line knows.
#[derive(Debug, Clone, Copy, PartialEq, Eq, Structural)]
pub enum Flag {
    Rules,
    ConfigFile,
    Standalone,
    MultiThread,
    DnsServer,
    DnsPort,
    DnsUpstream,
    BatterySaver,
    WebuiSocket,
    Help,
    Unknown,
}

pub open spec fn l_r() -> Seq<char> {
    seq!['-', 'r']
}

pub open spec fn l_rules() -> Seq<char> {
    seq!['-', '-', 'r', 'u', 'l', 'e', 's']
}

pub open spec fn l_rules_eq() -> Seq<char> {
    seq!['-', '-', 'r', 'u', 'l', 'e', 's', '=']
}

pub open spec fn l_r_eq() -> Seq<char> {
    seq!['-', 'r', '=']
}

pub open spec fn l_f() -> Seq<char> {
    seq!['-', 'f']
}

pub open spec fn l_config() -> Seq<char> {
    seq!['-', '-', 'c', 'o', 'n', 'f', 'i', 'g', '-', 'f', 'i', 'l', 'e']
}

pub open spec fn l_config_eq() -> Seq<char> {
    seq!['-', '-', 'c', 'o', 'n', 'f', 'i', 'g', '-', 'f', 'i', 'l', 'e', '=']
}

pub open spec fn l_f_eq() -> Seq<char> {
    seq!['-', 'f', '=']
}

pub open spec fn l_s() -> Seq<char> {
    seq!['-', 's']
}

pub open spec fn l_standalone() -> Seq<char> {
    seq!['-', '-', 's', 't', 'a', 'n', 'd', 'a', 'l', 'o', 'n', 'e']
}

pub open spec fn l_m() -> Seq<char> {
    seq!['-', 'm']
}

pub open spec fn l_multi() -> Seq<char> {
    seq!['-', '-', 'm', 'u', 'l', 't', 'i', '-', 't', 'h', 'r', 'e', 'a', 'd']
}

pub open spec fn l_dns_server() -> Seq<char> {
    seq!['-', '-', 'd', 'n', 's', '-', 's', 'e', 'r', 'v', 'e', 'r']
}

pub open spec fn l_dns_port() -> Seq<char> {
    seq!['-', '-', 'd', 'n', 's', '-', 'p', 'o', 'r', 't']
}

pub open spec fn l_dns_port_eq() -> Seq<char> {
    seq!['-', '-', 'd', 'n', 's', '-', 'p', 'o', 'r', 't', '=']
}

pub open spec fn l_upstream() -> Seq<char> {
    seq!['-', '-', 'd', 'n', 's', '-', 'u', 'p', 's', 't', 'r', 'e', 'a', 'm']
}

pub open spec fn l_upstream_eq() -> Seq<char> {
    seq!['-', '-', 'd', 'n', 's', '-', 'u', 'p', 's', 't', 'r', 'e', 'a', 'm', '=']
}

pub open spec fn l_battery() -> Seq<char> {
    seq!['-', '-', 'b', 'a', 't', 't', 'e', 'r', 'y', '-', 's', 'a', 'v', 'e', 'r']
}

pub open spec fn l_webui() -> Seq<char> {
    seq!['-', '-', 'w', 'e', 'b', 'u', 'i', '-', 's', 'o', 'c', 'k', 'e', 't']
}

pub open spec fn l_webui_eq() -> Seq<char> {
    seq!['-', '-', 'w', 'e', 'b', 'u', 'i', '-', 's', 'o', 'c', 'k', 'e', 't', '=']
}

pub open spec fn l_h() -> Seq<char> {
    seq!['-', 'h']
}

pub open spec fn l_help() -> Seq<char> {
    seq!['-', '-', 'h', 'e', 'l', 'p']
}

/// The flag an argument names, and for the `--flag=value` forms the length
/// of the prefix before the value.
pub open spec fn classify(a: Seq<char>) -> (Flag, Option<int>) {
    if a == l_r() || a == l_rules() {
        (Flag::Rules, None)
    } else if starts_with(a, l_rules_eq()) {
        (Flag::Rules, Some(8int))
    } else if starts_with(a, l_r_eq()) {
        (Flag::Rules, Some(3int))
    } else if a == l_f() || a == l_config() {
        (Flag::ConfigFile, None)
    } else if starts_with(a, l_config_eq()) {
        (Flag::ConfigFile, Some(14int))
    } else if starts_with(a, l_f_eq()) {
        (Flag::ConfigFile, Some(3int))
    } else if a == l_s() || a == l_standalone() {
        (Flag::Standalone, None)
    } else if a == l_m() || a == l_multi() {
        (Flag::MultiThread, None)
    } else if a == l_dns_server() {
        (Flag::DnsServer, None)
    } else if a == l_dns_port() {
        (Flag::DnsPort, None)
    } else if starts_with(a, l_dns_port_eq()) {
        (Flag::DnsPort, Some(11int))
    } else if a == l_upstream() {
        (Flag::DnsUpstream, None)
    } else if starts_with(a, l_upstream_eq()) {
        (Flag::DnsUpstream, Some(15int))
    } else if a == l_battery() {
        (Flag::BatterySaver, None)
    } else if a == l_webui() {
        (Flag::WebuiSocket, None)
    } else if starts_with(a, l_webui_eq()) {
        (Flag::WebuiSocket, Some(15int))
    } else if a == l_h() || a == l_help() {
        (Flag::Help, None)
    } else {
        (Flag::Unknown, None)
    }
}

/// The command line as plain values.
pub struct CliView {
    pub rules: Option<Seq<char>>,
    pub config_file: Option<Seq<char>>,
    pub standalone: bool,
    pub multi_thread: bool,
    pub dns_server: bool,
    pub dns_port: Option<u16>,
    pub dns_upstream: Option<Seq<char>>,
    pub battery_saver: bool,
    pub webui_socket: Option<Seq<char>>,
}

/// Why parsing stopped, as plain values.
pub enum ExitView {
    Help,
    MissingValue(Seq<char>),
    InvalidPort,
    Unrecognized(Seq<char>),
}

pub open spec fn opt_view(o: Option<String>) -> Option<Seq<char>> {
    match o {
        Some(s) => Some(s@),
        None => None,
    }
}

pub open spec fn cli_view(c: CliArgs) -> CliView {
    CliView {
        rules: opt_view(c.rules),
        config_file: opt_view(c.config_file),
        standalone: c.standalone,
        multi_thread: c.multi_thread,
        dns_server: c.dns_server,
        dns_port: c.dns_port,
        dns_upstream: opt_view(c.dns_upstream),
        battery_saver: c.battery_saver,
        webui_socket: opt_view(c.webui_socket),
    }
}

pub open spec fn exit_view(e: CliExit) -> ExitView {
    match e {
        CliExit::Help => ExitView::Help,
        CliExit::MissingValue(s) => ExitView::MissingValue(s@),
        CliExit::InvalidPort => ExitView::InvalidPort,
        CliExit::Unrecognized(s) => ExitView::Unrecognized(s@),
    }
}

/// Nothing set.
pub open spec fn empty_cli() -> CliView {
    CliView {
        rules: None,
        config_file: None,
        standalone: false,
        multi_thread: false,
        dns_server: false,
        dns_port: None,
        dns_upstream: None,
        battery_saver: false,
        webui_socket: None,
    }
}

/// The long name reported when a valued flag has no value.
pub open spec fn flag_name(f: Flag) -> Seq<char> {
    match f {
        Flag::Rules => l_rules(),
        Flag::ConfigFile => l_config(),
        Flag::DnsPort => l_dns_port(),
        Flag::DnsUpstream => l_upstream(),
        _ => l_webui(),
    }
}

/// Records the value `v` of a valued flag.
pub open spec fn set_value(cur: CliView, f: Flag, v: Seq<char>) -> Result<CliView, ExitView> {
    match f {
        Flag::Rules => Ok(CliView { rules: Some(v), ..cur }),
        Flag::ConfigFile => Ok(CliView { config_file: Some(v), ..cur }),
        Flag::DnsPort => match parse_unsigned(v, 65535) {
            Some(p) => Ok(CliView { dns_port: Some(p as u16), ..cur }),
            None => Err(ExitView::InvalidPort),
        },
        Flag::DnsUpstream => Ok(CliView { dns_upstream: Some(v), ..cur }),
        _ => Ok(CliView { webui_socket: Some(v), ..cur }),
    }
}

pub open spec fn takes_value(f: Flag) -> bool {
    f == Flag::Rules || f == Flag::ConfigFile || f == Flag::DnsPort || f == Flag::DnsUpstream || f
        == Flag::WebuiSocket
}

/// Parsing the arguments from index `i` on, with `cur` set so far.
pub open spec fn parse_from(args: Seq<Seq<char>>, i: int, cur: CliView) -> Result<CliView, ExitView>
    decreases args.len() - i,
{
    if i < 0 || i >= args.len() {
        Ok(cur)
    } else {
        let (f, off) = classify(args[i]);
        if f == Flag::Help {
            Err(ExitView::Help)
        } else if f == Flag::Unknown {
            Err(ExitView::Unrecognized(args[i]))
        } else if f == Flag::Standalone {
            parse_from(args, i + 1, CliView { standalone: true, ..cur })
        } else if f == Flag::MultiThread {
            parse_from(args, i + 1, CliView { multi_thread: true, ..cur })
        } else if f == Flag::DnsServer {
            parse_from(args, i + 1, CliView { dns_server: true, ..cur })
        } else if f == Flag::BatterySaver {
            parse_from(args, i + 1, CliView { battery_saver: true, ..cur })
        } else {
            match off {
                Some(o) => match set_value(cur, f, args[i].skip(o)) {
                    Ok(next) => parse_from(args, i + 1, next),
                    Err(e) => Err(e),
                },
                None => if i + 1 < args.len() {
                    match set_value(cur, f, args[i + 1]) {
                        Ok(next) => parse_from(args, i + 2, next),
                        Err(e) => Err(e),
                    }
                } else {
                    Err(ExitView::MissingValue(flag_name(f)))
                },
            }
        }
    }
}

proof fn lemma_offset_fits(a: Seq<char>)
    ensures
        classify(a).1 matches Some(o) ==> 0 <= o <= a.len(),
{
}

pub open spec fn arg_views(args: Seq<String>) -> Seq<Seq<char>> {
    args.map_values(|a: String| a@)
}

fn is_exactly(v: &Vec<char>, p: &[char]) -> (b: bool)
    ensures
        b == (v@ == p@),
{
    if v.len() != p.len() {
        return false;
    }
    let b = has_prefix_at(v, 0, p);
    proof {
        if b {
            assert(v@ =~= v@.subrange(0, p@.len() as int));
        } else {
            assert(v@.subrange(0, p@.len() as int) =~= v@);
        }
    }
    b
}

/// The flag `a` names (see `classify`).
pub fn classify_arg(a: &str) -> (r: (Flag, Option<usize>))
    ensures
        r.0 == classify(a@).0,
        match classify(a@).1 {
            Some(o) => r.1 == Some(o as usize),
            None => r.1 is None,
        },
{
    let v = chars_of(a);
    proof {
        assert forall|p: Seq<char>| starts_with_at(v@, 0, p) == starts_with(a@, p) by {
            if p.len() <= v@.len() {
                assert(v@.subrange(0, p.len() as int) == v@.take(p.len() as int));
            }
        }
    }
    if is_exactly(&v, &['-', 'r']) || is_exactly(&v, &['-', '-', 'r', 'u', 'l', 'e', 's']) {
        (Flag::Rules, None)
    } else if has_prefix_at(&v, 0, &['-', '-', 'r', 'u', 'l', 'e', 's', '=']) {
        (Flag::Rules, Some(8usize))
    } else if has_prefix_at(&v, 0, &['-', 'r', '=']) {
        (Flag::Rules, Some(3usize))
    } else if is_exactly(&v, &['-', 'f']) || is_exactly(&v, &['-', '-', 'c', 'o', 'n', 'f', 'i', 'g', '-', 'f', 'i', 'l', 'e']) {
        (Flag::ConfigFile, None)
    } else if has_prefix_at(&v, 0, &['-', '-', 'c', 'o', 'n', 'f', 'i', 'g', '-', 'f', 'i', 'l', 'e', '=']) {
        (Flag::ConfigFile, Some(14usize))
    } else if has_prefix_at(&v, 0, &['-', 'f', '=']) {
        (Flag::ConfigFile, Some(3usize))
    } else if is_exactly(&v, &['-', 's']) || is_exactly(&v, &['-', '-', 's', 't', 'a', 'n', 'd', 'a', 'l', 'o', 'n', 'e']) {
        (Flag::Standalone, None)
    } else if is_exactly(&v, &['-', 'm']) || is_exactly(&v, &['-', '-', 'm', 'u', 'l', 't', 'i', '-', 't', 'h', 'r', 'e', 'a', 'd']) {
        (Flag::MultiThread, None)
    } else if is_exactly(&v, &['-', '-', 'd', 'n', 's', '-', 's', 'e', 'r', 'v', 'e', 'r']) {
        (Flag::DnsServer, None)
    } else if is_exactly(&v, &['-', '-', 'd', 'n', 's', '-', 'p', 'o', 'r', 't']) {
        (Flag::DnsPort, None)
    } else if has_prefix_at(&v, 0, &['-', '-', 'd', 'n', 's', '-', 'p', 'o', 'r', 't', '=']) {
        (Flag::DnsPort, Some(11usize))
    } else if is_exactly(&v, &['-', '-', 'd', 'n', 's', '-', 'u', 'p', 's', 't', 'r', 'e', 'a', 'm']) {
        (Flag::DnsUpstream, None)
    } else if has_prefix_at(&v, 0, &['-', '-', 'd', 'n', 's', '-', 'u', 'p', 's', 't', 'r', 'e', 'a', 'm', '=']) {
        (Flag::DnsUpstream, Some(15usize))
    } else if is_exactly(&v, &['-', '-', 'b', 'a', 't', 't', 'e', 'r', 'y', '-', 's', 'a', 'v', 'e', 'r']) {
        (Flag::BatterySaver, None)
    } else if is_exactly(&v, &['-', '-', 'w', 'e', 'b', 'u', 'i', '-', 's', 'o', 'c', 'k', 'e', 't']) {
        (Flag::WebuiSocket, None)
    } else if has_prefix_at(&v, 0, &['-', '-', 'w', 'e', 'b', 'u', 'i', '-', 's', 'o', 'c', 'k', 'e', 't', '=']) {
        (Flag::WebuiSocket, Some(15usize))
    } else if is_exactly(&v, &['-', 'h']) || is_exactly(&v, &['-', '-', 'h', 'e', 'l', 'p']) {
        (Flag::Help, None)
    } else {
        (Flag::Unknown, None)
    }
}

fn with_value(cur: CliArgs, f: Flag, v: &str) -> (r: Result<CliArgs, CliExit>)
    requires
        takes_value(f),
    ensures
        match set_value(cli_view(cur), f, v@) {
            Ok(next) => r matches Ok(c) && cli_view(c) == next,
            Err(e) => r matches Err(x) && exit_view(x) == e,
        },
{
    let mut cur = cur;
    match f {
        Flag::Rules => {
            cur.rules = Some(String::from_str(v));
        },
        Flag::ConfigFile => {
            cur.config_file = Some(String::from_str(v));
        },
        Flag::DnsPort => {
            match parse_u16(v) {
                Some(p) => {
                    cur.dns_port = Some(p);
                },
                None => {
                    return Err(CliExit::InvalidPort);
                },
            }
        },
        Flag::DnsUpstream => {
            cur.dns_upstream = Some(String::from_str(v));
        },
        _ => {
            cur.webui_socket = Some(String::from_str(v));
        },
    }
    Ok(cur)
}

fn flag_name_string(f: Flag) -> (s: String)
    ensures
        s@ == flag_name(f),
{
    let v: &[char] = match f {
        Flag::Rules => &['-', '-', 'r', 'u', 'l', 'e', 's'],
        Flag::ConfigFile => &['-', '-', 'c', 'o', 'n', 'f', 'i', 'g', '-', 'f', 'i', 'l', 'e'],
        Flag::DnsPort => &['-', '-', 'd', 'n', 's', '-', 'p', 'o', 'r', 't'],
        Flag::DnsUpstream => &['-', '-', 'd', 'n', 's', '-', 'u', 'p', 's', 't', 'r', 'e', 'a', 'm'],
        _ => &['-', '-', 'w', 'e', 'b', 'u', 'i', '-', 's', 'o', 'c', 'k', 'e', 't'],
    };
    let mut s = String::new();
    let mut k: usize = 0;
    while k < v.len()
        invariant
            k <= v@.len(),
            s@ == v@.take(k as int),
        decreases v@.len() - k,
    {
        crate::text::push_char(&mut s, v[k]);
        k += 1;
        assert(s@ =~= v@.take(k as int));
    }
    assert(v@.take(v@.len() as int) =~= v@);
    s
}

/// Parse the command-line arguments (without the program name).
pub fn parse_cli(args: &Vec<String>) -> (r: Result<CliArgs, CliExit>)
    ensures
        match parse_from(arg_views(args@), 0, empty_cli()) {
            Ok(c) => r matches Ok(x) && cli_view(x) == c,
            Err(e) => r matches Err(x) && exit_view(x) == e,
        },
{
    let ghost av = arg_views(args@);
    let mut cur = CliArgs {
        rules: None,
        config_file: None,
        standalone: false,
        multi_thread: false,
        dns_server: false,
        dns_port: None,
        dns_upstream: None,
        battery_saver: false,
        webui_socket: None,
    };
    let n = args.len();
    let mut i: usize = 0;
    while i < n
        invariant
            n == args@.len(),
            av == arg_views(args@),
            i <= n,
            parse_from(av, 0, empty_cli()) == parse_from(av, i as int, cli_view(cur)),
        decreases n - i,
    {
        let a = args[i].as_str();
        assert(av[i as int] == a@);
        let (f, off) = classify_arg(a);
        match f {
            Flag::Help => return Err(CliExit::Help),
            Flag::Unknown => return Err(CliExit::Unrecognized(String::from_str(a))),
            Flag::Standalone => {
                cur.standalone = true;
                i += 1;
            },
            Flag::MultiThread => {
                cur.multi_thread = true;
                i += 1;
            },
            Flag::DnsServer => {
                cur.dns_server = true;
                i += 1;
            },
            Flag::BatterySaver => {
                cur.battery_saver = true;
                i += 1;
            },
            _ => {
                match off {
                    Some(o) => {
                        proof {
                            lemma_offset_fits(a@);
                        }
                        let vv = chars_of(a);
                        let rest = a.substring_char(o, vv.len());
                        assert(rest@ =~= a@.skip(o as int));
                        match with_value(cur, f, rest) {
                            Ok(c) => {
                                cur = c;
                            },
                            Err(e) => return Err(e),
                        }
                        i += 1;
                    },
                    None => {
                        if i + 1 < n {
                            assert(av[i + 1] == args@[i + 1]@);
                            match with_value(cur, f, args[i + 1].as_str()) {
                                Ok(c) => {
                                    cur = c;
                                },
                                Err(e) => return Err(e),
                            }
                            i += 2;
                        } else {
                            return Err(CliExit::MissingValue(flag_name_string(f)));
                        }
                    },
                }
            },
        }
    }
    Ok(cur)
}

/// The config file to load: the one given with `-f` / `--config-file`,
/// else `/data/adb/anetd/config.toml`.
pub fn config_path(cli: &CliArgs) -> (p: String)
    ensures
        p@ == match cli.config_file {
            Some(f) => f@,
            None => "/data/adb/anetd/config.toml"@,
        },
{
    match &cli.config_file {
        Some(f) => f.clone(),
        None => String::from_str(DEFAULT_CONFIG_FILE),
    }
}

/// The settings as plain values.
pub struct ArgsView {
    pub rules: Seq<char>,
    pub standalone: bool,
    pub multi_thread: bool,
    pub dns_server: bool,
    pub dns_port: u16,
    pub dns_upstream: Seq<char>,
    pub battery_saver: bool,
    pub webui_socket: Seq<char>,
}

pub open spec fn args_view(a: Args) -> ArgsView {
    ArgsView {
        rules: a.rules@,
        standalone: a.standalone,
        multi_thread: a.multi_thread,
        dns_server: a.dns_server,
        dns_port: a.dns_port,
        dns_upstream: a.dns_upstream@,
        battery_saver: a.battery_saver,
        webui_socket: a.webui_socket@,
    }
}

/// The command line merged with the loaded config file (`None` when none
/// could be loaded): command-line values win, then the file's, then the
/// defaults.
pub open spec fn merged(c: CliView, file: Option<ConfigFile>) -> Result<ArgsView, Option<Seq<char>>> {
    let m = match file {
        Some(f) => CliView {
            rules: if c.rules is Some { c.rules } else { opt_view(f.rules) },
            config_file: c.config_file,
            standalone: c.standalone || f.standalone,
            multi_thread: c.multi_thread || f.multi_thread,
            dns_server: c.dns_server || f.dns_server,
            dns_port: if c.dns_port is Some { c.dns_port } else { Some(f.dns_port) },
            dns_upstream: if c.dns_upstream is Some { c.dns_upstream } else { Some(f.dns_upstream@) },
            battery_saver: c.battery_saver || f.battery_saver,
            webui_socket: if c.webui_socket is Some { c.webui_socket } else { Some(f.webui_socket@) },
        },
        None => c,
    };
    if file is None && c.config_file is Some {
        Err(c.config_file)
    } else {
        match m.rules {
            None => Err(None),
            Some(r) => Ok(ArgsView {
                rules: r,
                standalone: m.standalone,
                multi_thread: m.multi_thread,
                dns_server: m.dns_server,
                dns_port: match m.dns_port { Some(p) => p, None => DNS_SERVER_PORT },
                dns_upstream: match m.dns_upstream { Some(u) => u, None => DNS_UPSTREAM@ },
                battery_saver: m.battery_saver,
                webui_socket: match m.webui_socket { Some(w) => w, None => WEBUI_SOCKET@ },
            }),
        }
    }
}

/// Merge the command line with the config file that was loaded from
/// `config_path` (`None` when it could not be loaded).  An explicitly
/// given config file that failed to load is an error; so is a missing
/// rules path.
pub fn resolve_args(cli: CliArgs, file: Option<ConfigFile>) -> (r: Result<Args, ArgsError>)
    ensures
        match merged(cli_view(cli), file) {
            Ok(a) => r matches Ok(x) && args_view(x) == a,
            Err(Some(p)) => r matches Err(ArgsError::ConfigLoadFailed(x)) && x@ == p,
            Err(None) => r == Err::<Args, ArgsError>(ArgsError::MissingRules),
        },
{
    let mut cli = cli;
    match file {
        Some(cf) => {
            if cli.rules.is_none() {
                cli.rules = cf.rules;
            }
            cli.standalone = cli.standalone || cf.standalone;
            cli.multi_thread = cli.multi_thread || cf.multi_thread;
            cli.dns_server = cli.dns_server || cf.dns_server;
            if cli.dns_port.is_none() {
                cli.dns_port = Some(cf.dns_port);
            }
            if cli.dns_upstream.is_none() {
                cli.dns_upstream = Some(cf.dns_upstream);
            }
            cli.battery_saver = cli.battery_saver || cf.battery_saver;
            if cli.webui_socket.is_none() {
                cli.webui_socket = Some(cf.webui_socket);
            }
        },
        None => {
            if let Some(p) = cli.config_file {
                return Err(ArgsError::ConfigLoadFailed(p));
            }
        },
    }
    let rules = match cli.rules {
        Some(r) => r,
        None => return Err(ArgsError::MissingRules),
    };
    Ok(Args {
        rules,
        standalone: cli.standalone,
        multi_thread: cli.multi_thread,
        dns_server: cli.dns_server,
        dns_port: match cli.dns_port {
            Some(p) => p,
            None => DNS_SERVER_PORT,
        },
        dns_upstream: match cli.dns_upstream {
            Some(u) => u,
            None => String::from_str(DNS_UPSTREAM),
        },
        battery_saver: cli.battery_saver,
        webui_socket: match cli.webui_socket {
            Some(w) => w,
            None => String::from_str(WEBUI_SOCKET),
        },
    })
}

/// Precedence of the settings: a value given on the command line wins; else
/// the config file's; else the built-in default.
pub proof fn law_settings_precedence(c: CliView, file: Option<ConfigFile>)
    requires
        merged(c, file) is Ok,
    ensures
        ({
            let a = merged(c, file)->Ok_0;
            &&& c.rules matches Some(r) ==> a.rules == r
            &&& c.dns_port matches Some(p) ==> a.dns_port == p
            &&& c.dns_upstream matches Some(u) ==> a.dns_upstream == u
            &&& c.webui_socket matches Some(w) ==> a.webui_socket == w
            &&& c.dns_port is None ==> a.dns_port == (match file {
                Some(f) => f.dns_port,
                None => DNS_SERVER_PORT,
            })
            &&& c.dns_upstream is None ==> a.dns_upstream == (match file {
                Some(f) => f.dns_upstream@,
                None => DNS_UPSTREAM@,
            })
            &&& c.webui_socket is None ==> a.webui_socket == (match file {
                Some(f) => f.webui_socket@,
                None => WEBUI_SOCKET@,
            })
            &&& (c.standalone ==> a.standalone)
            &&& (c.dns_server ==> a.dns_server)
            &&& (c.battery_saver ==> a.battery_saver)
            &&& (c.multi_thread ==> a.multi_thread)
        }),
{
}

proof fn lemma_differs_at(a: Seq<char>, p: Seq<char>, k: int)
    requires
        0 <= k < p.len(),
        k < a.len(),
        a[k] != p[k],
    ensures
        a != p,
        !starts_with(a, p),
{
    if starts_with(a, p) {
        assert(a.take(p.len() as int)[k] == a[k]);
    }
}

proof fn lemma_starts(p: Seq<char>, v: Seq<char>)
    ensures
        starts_with(p + v, p),
        (p + v).skip(p.len() as int) == v,
{
    assert((p + v).take(p.len() as int) =~= p);
    assert((p + v).skip(p.len() as int) =~= v);
}

/// The command line made of one argument.
pub open spec fn parse_one(a: Seq<char>) -> Result<CliView, ExitView> {
    parse_from(seq![a], 0, empty_cli())
}

/// The command line made of a flag and its value.
pub open spec fn parse_pair(flag: Seq<char>, v: Seq<char>) -> Result<CliView, ExitView> {
    parse_from(seq![flag, v], 0, empty_cli())
}

/// A `--flag=value` argument whose value starts at `o` parses as the flag
/// followed by that value.
proof fn lemma_value_forms(a: Seq<char>, flag: Seq<char>, f: Flag, o: int, v: Seq<char>)
    requires
        classify(a) == (f, Some(o)),
        classify(flag) == (f, None::<int>),
        a.skip(o) == v,
        takes_value(f),
    ensures
        parse_one(a) == set_value(empty_cli(), f, v),
        parse_pair(flag, v) == set_value(empty_cli(), f, v),
{
    reveal_with_fuel(parse_from, 3);
    let one = seq![a];
    let two = seq![flag, v];
    assert(one[0] == a);
    assert(two[0] == flag && two[1] == v);
}

proof fn lemma_classify_upstream()
    ensures
        classify(l_upstream()) == (Flag::DnsUpstream, None::<int>),
{
    lemma_differs_at(l_upstream(), l_r(), 1);
    lemma_differs_at(l_upstream(), l_rules(), 2);
    lemma_differs_at(l_upstream(), l_rules_eq(), 2);
    lemma_differs_at(l_upstream(), l_r_eq(), 1);
    lemma_differs_at(l_upstream(), l_f(), 1);
    lemma_differs_at(l_upstream(), l_config(), 2);
    lemma_differs_at(l_upstream(), l_config_eq(), 2);
    lemma_differs_at(l_upstream(), l_f_eq(), 1);
    lemma_differs_at(l_upstream(), l_s(), 1);
    lemma_differs_at(l_upstream(), l_standalone(), 2);
    lemma_differs_at(l_upstream(), l_m(), 1);
    lemma_differs_at(l_upstream(), l_multi(), 2);
    lemma_differs_at(l_upstream(), l_dns_server(), 6);
    lemma_differs_at(l_upstream(), l_dns_port(), 6);
    lemma_differs_at(l_upstream(), l_dns_port_eq(), 6);
}

proof fn lemma_classify_config()
    ensures
        classify(l_config()) == (Flag::ConfigFile, None::<int>),
{
    lemma_differs_at(l_config(), l_r(), 1);
    lemma_differs_at(l_config(), l_rules(), 2);
    lemma_differs_at(l_config(), l_rules_eq(), 2);
    lemma_differs_at(l_config(), l_r_eq(), 1);
}

proof fn lemma_classify_f()
    ensures
        classify(l_f()) == (Flag::ConfigFile, None::<int>),
{
    lemma_differs_at(l_f(), l_r(), 1);
    lemma_differs_at(l_f(), l_rules(), 1);
    lemma_differs_at(l_f(), l_rules_eq(), 1);
    lemma_differs_at(l_f(), l_r_eq(), 1);
}

proof fn lemma_classify_webui()
    ensures
        classify(l_webui()) == (Flag::WebuiSocket, None::<int>),
{
    lemma_differs_at(l_webui(), l_r(), 1);
    lemma_differs_at(l_webui(), l_rules(), 2);
    lemma_differs_at(l_webui(), l_rules_eq(), 2);
    lemma_differs_at(l_webui(), l_r_eq(), 1);
    lemma_differs_at(l_webui(), l_f(), 1);
    lemma_differs_at(l_webui(), l_config(), 2);
    lemma_differs_at(l_webui(), l_config_eq(), 2);
    lemma_differs_at(l_webui(), l_f_eq(), 1);
    lemma_differs_at(l_webui(), l_s(), 1);
    lemma_differs_at(l_webui(), l_standalone(), 2);
    lemma_differs_at(l_webui(), l_m(), 1);
    lemma_differs_at(l_webui(), l_multi(), 2);
    lemma_differs_at(l_webui(), l_dns_server(), 2);
    lemma_differs_at(l_webui(), l_dns_port(), 2);
    lemma_differs_at(l_webui(), l_dns_port_eq(), 2);
    lemma_differs_at(l_webui(), l_upstream(), 2);
    lemma_differs_at(l_webui(), l_upstream_eq(), 2);
    lemma_differs_at(l_webui(), l_battery(), 2);
}

proof fn lemma_classify_dns_port()
    ensures
        classify(l_dns_port()) == (Flag::DnsPort, None::<int>),
{
    lemma_differs_at(l_dns_port(), l_r(), 1);
    lemma_differs_at(l_dns_port(), l_rules(), 2);
    lemma_differs_at(l_dns_port(), l_rules_eq(), 2);
    lemma_differs_at(l_dns_port(), l_r_eq(), 1);
    lemma_differs_at(l_dns_port(), l_f(), 1);
    lemma_differs_at(l_dns_port(), l_config(), 2);
    lemma_differs_at(l_dns_port(), l_config_eq(), 2);
    lemma_differs_at(l_dns_port(), l_f_eq(), 1);
    lemma_differs_at(l_dns_port(), l_s(), 1);
    lemma_differs_at(l_dns_port(), l_standalone(), 2);
    lemma_differs_at(l_dns_port(), l_m(), 1);
    lemma_differs_at(l_dns_port(), l_multi(), 2);
    lemma_differs_at(l_dns_port(), l_dns_server(), 6);
}

proof fn lemma_classify_rules()
    ensures
        classify(l_rules()) == (Flag::Rules, None::<int>),
{
}

proof fn lemma_classify_r()
    ensures
        classify(l_r()) == (Flag::Rules, None::<int>),
{
}

proof fn lemma_classify_upstream_eq(v: Seq<char>)
    ensures
        classify(l_upstream_eq() + v) == (Flag::DnsUpstream, Some(l_upstream_eq().len() as int)),
        (l_upstream_eq() + v).skip(15) == v,
{
    let a = l_upstream_eq() + v;
    lemma_starts(l_upstream_eq(), v);
    lemma_differs_at(a, l_r(), 1);
    lemma_differs_at(a, l_rules(), 2);
    lemma_differs_at(a, l_rules_eq(), 2);
    lemma_differs_at(a, l_r_eq(), 1);
    lemma_differs_at(a, l_f(), 1);
    lemma_differs_at(a, l_config(), 2);
    lemma_differs_at(a, l_config_eq(), 2);
    lemma_differs_at(a, l_f_eq(), 1);
    lemma_differs_at(a, l_s(), 1);
    lemma_differs_at(a, l_standalone(), 2);
    lemma_differs_at(a, l_m(), 1);
    lemma_differs_at(a, l_multi(), 2);
    lemma_differs_at(a, l_dns_server(), 6);
    lemma_differs_at(a, l_dns_port(), 6);
    lemma_differs_at(a, l_dns_port_eq(), 6);
    assert(a != l_upstream());
}

proof fn lemma_classify_rules_eq(v: Seq<char>)
    ensures
        classify(l_rules_eq() + v) == (Flag::Rules, Some(8int)),
        (l_rules_eq() + v).skip(8) == v,
{
    let b = l_rules_eq() + v;
    lemma_starts(l_rules_eq(), v);
    lemma_differs_at(b, l_r(), 1);
    assert(b != l_rules());
}

proof fn lemma_classify_r_eq(v: Seq<char>)
    ensures
        classify(l_r_eq() + v) == (Flag::Rules, Some(3int)),
        (l_r_eq() + v).skip(3) == v,
{
    let c = l_r_eq() + v;
    lemma_starts(l_r_eq(), v);
    lemma_differs_at(c, l_rules(), 1);
    lemma_differs_at(c, l_rules_eq(), 1);
}

proof fn lemma_classify_config_eq(v: Seq<char>)
    ensures
        classify(l_config_eq() + v) == (Flag::ConfigFile, Some(14int)),
        (l_config_eq() + v).skip(14) == v,
{
    let d = l_config_eq() + v;
    lemma_starts(l_config_eq(), v);
    lemma_differs_at(d, l_r(), 1);
    lemma_differs_at(d, l_rules(), 2);
    lemma_differs_at(d, l_rules_eq(), 2);
    lemma_differs_at(d, l_r_eq(), 1);
    lemma_differs_at(d, l_f(), 1);
    assert(d != l_config());
}

proof fn lemma_classify_f_eq(v: Seq<char>)
    ensures
        classify(l_f_eq() + v) == (Flag::ConfigFile, Some(3int)),
        (l_f_eq() + v).skip(3) == v,
{
    let e = l_f_eq() + v;
    lemma_starts(l_f_eq(), v);
    lemma_differs_at(e, l_r(), 1);
    lemma_differs_at(e, l_rules(), 1);
    lemma_differs_at(e, l_rules_eq(), 1);
    lemma_differs_at(e, l_r_eq(), 1);
    lemma_differs_at(e, l_config(), 1);
    lemma_differs_at(e, l_config_eq(), 1);
}

proof fn lemma_classify_webui_eq(v: Seq<char>)
    ensures
        classify(l_webui_eq() + v) == (Flag::WebuiSocket, Some(l_webui_eq().len() as int)),
        (l_webui_eq() + v).skip(15) == v,
{
    let w = l_webui_eq() + v;
    lemma_starts(l_webui_eq(), v);
    lemma_differs_at(w, l_r(), 1);
    lemma_differs_at(w, l_rules(), 2);
    lemma_differs_at(w, l_rules_eq(), 2);
    lemma_differs_at(w, l_r_eq(), 1);
    lemma_differs_at(w, l_f(), 1);
    lemma_differs_at(w, l_config(), 2);
    lemma_differs_at(w, l_config_eq(), 2);
    lemma_differs_at(w, l_f_eq(), 1);
    lemma_differs_at(w, l_s(), 1);
    lemma_differs_at(w, l_standalone(), 2);
    lemma_differs_at(w, l_m(), 1);
    lemma_differs_at(w, l_multi(), 2);
    lemma_differs_at(w, l_dns_server(), 2);
    lemma_differs_at(w, l_dns_port(), 2);
    lemma_differs_at(w, l_dns_port_eq(), 2);
    lemma_differs_at(w, l_upstream(), 2);
    lemma_differs_at(w, l_upstream_eq(), 2);
    lemma_differs_at(w, l_battery(), 2);
    assert(w != l_webui());
}

proof fn lemma_classify_dns_port_eq(v: Seq<char>)
    ensures
        classify(l_dns_port_eq() + v) == (Flag::DnsPort, Some(11int)),
        (l_dns_port_eq() + v).skip(11) == v,
{
    let q = l_dns_port_eq() + v;
    lemma_starts(l_dns_port_eq(), v);
    lemma_differs_at(q, l_r(), 1);
    lemma_differs_at(q, l_rules(), 2);
    lemma_differs_at(q, l_rules_eq(), 2);
    lemma_differs_at(q, l_r_eq(), 1);
    lemma_differs_at(q, l_f(), 1);
    lemma_differs_at(q, l_config(), 2);
    lemma_differs_at(q, l_config_eq(), 2);
    lemma_differs_at(q, l_f_eq(), 1);
    lemma_differs_at(q, l_s(), 1);
    lemma_differs_at(q, l_standalone(), 2);
    lemma_differs_at(q, l_m(), 1);
    lemma_differs_at(q, l_multi(), 2);
    lemma_differs_at(q, l_dns_server(), 6);
    assert(q != l_dns_port());
}

/// In a `--flag=value` argument the value is the whole text after the `=`:
/// for every `v`, `--dns-upstream=v` sets the upstream to exactly `v`, the
/// same as `--dns-upstream v`; likewise `--rules=` and `-r=` set the rules
/// path, `--config-file=` and `-f=` the config file, `--webui-socket=` the
/// socket path, and `--dns-port=v` reads the port from `v` as
/// `--dns-port v` does.
pub proof fn law_flag_equals_value(v: Seq<char>)
    ensures
        parse_one(l_upstream_eq() + v) == Ok::<CliView, ExitView>(
            (CliView { dns_upstream: Some(v), ..empty_cli() }),
        ),
        parse_one(l_upstream_eq() + v) == parse_pair(l_upstream(), v),
        parse_one(l_rules_eq() + v) == Ok::<CliView, ExitView>(
            (CliView { rules: Some(v), ..empty_cli() }),
        ),
        parse_one(l_rules_eq() + v) == parse_pair(l_rules(), v),
        parse_one(l_r_eq() + v) == parse_pair(l_r(), v),
        parse_one(l_config_eq() + v) == Ok::<CliView, ExitView>(
            (CliView { config_file: Some(v), ..empty_cli() }),
        ),
        parse_one(l_config_eq() + v) == parse_pair(l_config(), v),
        parse_one(l_f_eq() + v) == parse_pair(l_f(), v),
        parse_one(l_webui_eq() + v) == Ok::<CliView, ExitView>(
            (CliView { webui_socket: Some(v), ..empty_cli() }),
        ),
        parse_one(l_webui_eq() + v) == parse_pair(l_webui(), v),
        parse_one(l_dns_port_eq() + v) == parse_pair(l_dns_port(), v),
{
    lemma_classify_upstream();
    lemma_classify_config();
    lemma_classify_f();
    lemma_classify_webui();
    lemma_classify_dns_port();
    lemma_classify_rules();
    lemma_classify_r();
    lemma_classify_upstream_eq(v);
    lemma_classify_rules_eq(v);
    lemma_classify_r_eq(v);
    lemma_classify_config_eq(v);
    lemma_classify_f_eq(v);
    lemma_classify_webui_eq(v);
    lemma_classify_dns_port_eq(v);
    lemma_value_forms(l_upstream_eq() + v, l_upstream(), Flag::DnsUpstream, 15, v);
    lemma_value_forms(l_rules_eq() + v, l_rules(), Flag::Rules, 8, v);
    lemma_value_forms(l_r_eq() + v, l_r(), Flag::Rules, 3, v);
    lemma_value_forms(l_config_eq() + v, l_config(), Flag::ConfigFile, 14, v);
    lemma_value_forms(l_f_eq() + v, l_f(), Flag::ConfigFile, 3, v);
    lemma_value_forms(l_webui_eq() + v, l_webui(), Flag::WebuiSocket, 15, v);
    lemma_value_forms(l_dns_port_eq() + v, l_dns_port(), Flag::DnsPort, 11, v);
}

} // verus!

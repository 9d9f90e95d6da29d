//! Paths, defaults and the settings a TOML configuration file can hold.
use vstd::prelude::*;

verus! {

/// Base directory for runtime data (logs, pid, config).
pub const BASE_DIR: &'static str = "/data/adb/modules/anetd";

/// Log directory.
pub const LOG_DIR: &'static str = "/data/adb/modules/anetd/log";

/// Default config file path.
pub const DEFAULT_CONFIG_FILE: &'static str = "/data/adb/anetd/config.toml";

/// Stdout log file path.
pub const PATH_OUT: &'static str = "/data/adb/modules/anetd/log/anetd.out";

/// Stderr log file path.
pub const PATH_ERR: &'static str = "/data/adb/modules/anetd/log/anetd.err";

/// PID file path.
pub const PATH_PID: &'static str = "/data/adb/modules/anetd/log/anetd.pid";

/// The proxy socket path that clients connect to.
pub const PROXY_SOCKET: &'static str = "/dev/socket/dnsproxyd";

/// The real netd socket path (netd's own dnsproxyd socket, renamed).
pub const REAL_SOCKET: &'static str = "/dev/socket/dnsproxyd_real";

/// Default DNS server listen port.
pub const DNS_SERVER_PORT: u16 = 53;

/// Default upstream DNS server address.
pub const DNS_UPSTREAM: &'static str = "8.8.8.8:53";

/// Default path for the web UI Unix socket.
pub const WEBUI_SOCKET: &'static str = "/data/adb/modules/anetd/webui.sock";

/// Settings loadable from a TOML configuration file.  Command-line
/// arguments override them.
#[derive(Debug, Clone)]
pub struct ConfigFile {
    /// Path to rule file(s) or directory (as `--rules`).
    pub rules: Option<String>,
    /// Run as a background daemon.
    pub standalone: bool,
    /// Enable the multi-thread runtime.
    pub multi_thread: bool,
    /// Enable the built-in DNS server.
    pub dns_server: bool,
    /// DNS server listen port.
    pub dns_port: u16,
    /// Upstream DNS server address.
    pub dns_upstream: String,
    /// Battery saver mode: smaller DNS cache, fewer worker threads.
    pub battery_saver: bool,
    /// Path for the web UI Unix socket.
    pub webui_socket: String,
}

/// Default for `dns_port` when the file does not set it.
pub fn default_dns_port() -> (p: u16)
    ensures
        p == DNS_SERVER_PORT,
{
    DNS_SERVER_PORT
}

/// Default for `dns_upstream` when the file does not set it.
pub fn default_dns_upstream() -> (s: String)
    ensures
        s@ == DNS_UPSTREAM@,
{
    String::from_str(DNS_UPSTREAM)
}

/// Default for `webui_socket` when the file does not set it.
pub fn default_webui_socket() -> (s: String)
    ensures
        s@ == WEBUI_SOCKET@,
{
    String::from_str(WEBUI_SOCKET)
}

} // verus!

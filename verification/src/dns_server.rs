//! The built-in DNS server's decisions: what to do with a query, which
//! cache key an allowed query resolves under, and how TCP messages are
//! framed.  Sockets, the upstream round trip and the clock are the
//! caller's.
use vstd::prelude::*;

use crate::cli::Args;
use crate::dns::cache::{parse_query_type, spec_query_type};
use crate::dns::nxdomain::{make_nxdomain_response, spec_nxdomain};
use crate::dns::wire::{be16_at, parse_dns_query_name, spec_query_name};
use crate::handlers::{check_hostname, verdict};
use crate::numfmt::{decimal, push_u64};
use crate::rules::{FilterAction, RuleSet};
use crate::sys::be16;
use crate::text::push_str;

verus! {

/// Maximum DNS message size over UDP (RFC 1035); TCP queries longer than
/// this are refused too.
pub const MAX_UDP_DNS_SIZE: usize = 512;

/// Upstream forward timeout (seconds).
pub const UPSTREAM_TIMEOUT_SECS: u64 = 10;

/// Maximum number of concurrent in-flight DNS queries (UDP + TCP combined).
pub const MAX_CONCURRENT_QUERIES: usize = 256;

/// Receive buffer for an upstream reply.
pub const UPSTREAM_BUFFER_SIZE: usize = 4096;

/// What to do with one query.
pub enum QueryPlan {
    /// Answer with these bytes at once: the name is blocked.
    Answer(Vec<u8>),
    /// The name is allowed: answer from the cache under (name, query type),
    /// else ask upstream and cache its reply.
    Resolve(String, u16),
    /// The name cannot be read: ask upstream, without caching.
    Forward,
}

/// A `QueryPlan`, as a value.
pub enum PlanView {
    Answer(Seq<u8>),
    Resolve(Seq<char>, u16),
    Forward,
}

impl View for QueryPlan {
    type V = PlanView;

    open spec fn view(&self) -> PlanView {
        match self {
            QueryPlan::Answer(b) => PlanView::Answer(b@),
            QueryPlan::Resolve(n, t) => PlanView::Resolve(n@, *t),
            QueryPlan::Forward => PlanView::Forward,
        }
    }
}

/// The answer to a blocked query: an NXDOMAIN response built from it, or the
/// query itself when none can be built.
pub open spec fn blocked_answer(query: Seq<u8>) -> Seq<u8> {
    match spec_nxdomain(query) {
        Some(nx) => nx,
        None => query,
    }
}

/// The query type a query is cached under: its QTYPE, or A (1) when it has
/// none.
pub open spec fn cache_qtype(query: Seq<u8>) -> u16 {
    match spec_query_type(query) {
        Some(t) => t,
        None => 1,
    }
}

/// What the server does with a query.
pub open spec fn query_plan(query: Seq<u8>, rules: RuleSet) -> PlanView {
    match spec_query_name(query) {
        None => PlanView::Forward,
        Some(name) => if verdict(rules, name) == FilterAction::Block {
            PlanView::Answer(blocked_answer(query))
        } else {
            PlanView::Resolve(name, cache_qtype(query))
        },
    }
}

fn copy_bytes(v: &[u8]) -> (r: Vec<u8>)
    ensures
        r@ == v@,
{
    let mut r: Vec<u8> = Vec::new();
    let mut k: usize = 0;
    while k < v.len()
        invariant
            k <= v@.len(),
            r@ == v@.take(k as int),
        decreases v@.len() - k,
    {
        r.push(v[k]);
        k += 1;
        assert(r@ =~= v@.take(k as int));
    }
    assert(v@.take(v@.len() as int) =~= v@);
    r
}

/// Decide what to do with a query (UDP or TCP alike).
pub fn plan_query(query: &[u8], rules: &RuleSet) -> (r: QueryPlan)
    ensures
        r@ == query_plan(query@, *rules),
{
    let name = match parse_dns_query_name(query) {
        Some(n) => n,
        None => return QueryPlan::Forward,
    };
    match check_hostname(rules, name.as_str()) {
        FilterAction::Block => {
            let answer = match make_nxdomain_response(query) {
                Some(nx) => nx,
                None => copy_bytes(query),
            };
            QueryPlan::Answer(answer)
        },
        FilterAction::Allow => {
            let qtype = match parse_query_type(query) {
                Some(t) => t,
                None => 1,
            };
            QueryPlan::Resolve(name, qtype)
        },
    }
}

/// The length a TCP query announces in its two-byte prefix, when the server
/// accepts it (at most `MAX_UDP_DNS_SIZE`).
pub fn tcp_query_length(prefix: [u8; 2]) -> (r: Option<usize>)
    ensures
        ({
            let n = be16_at(prefix@, 0);
            if n > MAX_UDP_DNS_SIZE {
                r is None
            } else {
                r == Some(n as usize)
            }
        }),
{
    let n = (prefix[0] as usize) * 256 + (prefix[1] as usize);
    if n > MAX_UDP_DNS_SIZE {
        None
    } else {
        Some(n)
    }
}

/// A TCP response message: the response's length as a big-endian `u16`
/// (modulo 65536, as `len as u16` gives), then the response.
pub open spec fn tcp_frame(response: Seq<u8>) -> Seq<u8> {
    be16((response.len() % 65536) as u16) + response
}

/// Frame a response for TCP.
pub fn frame_tcp_response(response: &[u8]) -> (r: Vec<u8>)
    ensures
        r@ == tcp_frame(response@),
{
    let len: u16 = (response.len() % 65536) as u16;
    let mut r: Vec<u8> = Vec::new();
    r.push((len / 256) as u8);
    r.push((len % 256) as u8);
    let mut k: usize = 0;
    while k < response.len()
        invariant
            k <= response@.len(),
            r@ == be16(len) + response@.take(k as int),
        decreases response@.len() - k,
    {
        r.push(response[k]);
        k += 1;
        assert(r@ =~= be16(len) + response@.take(k as int));
    }
    assert(response@.take(response@.len() as int) =~= response@);
    r
}

// ---------------------------------------------------------------------------
// Start-up
// ---------------------------------------------------------------------------

/// What the daemon sets up for its settings.
pub struct StartupPlan {
    /// Capacity of the DNS response cache.
    pub cache_capacity: usize,
    /// Worker threads of a multi-thread runtime; `None` for a
    /// current-thread runtime.
    pub worker_threads: Option<usize>,
    /// The address the DNS server binds (`0.0.0.0:<port>`), when it runs;
    /// `None` for the socket-hijacking mode.
    pub dns_bind: Option<String>,
}

/// The bind address of the DNS server for a port.
pub open spec fn bind_address(port: u16) -> Seq<char> {
    "0.0.0.0:"@ + decimal(port as nat)
}

/// The start-up plan for `args`: a smaller cache (512 instead of 2048
/// entries) and a single worker (instead of two) in battery-saver mode.
pub fn startup_plan(args: &Args) -> (p: StartupPlan)
    ensures
        p.cache_capacity == (if args.battery_saver {
            512usize
        } else {
            2048usize
        }),
        p.worker_threads == (if !args.multi_thread {
            None
        } else if args.battery_saver {
            Some(1usize)
        } else {
            Some(2usize)
        }),
        match p.dns_bind {
            Some(b) => args.dns_server && b@ == bind_address(args.dns_port),
            None => !args.dns_server,
        },
{
    let cache_capacity: usize = if args.battery_saver {
        512
    } else {
        2048
    };
    let worker_threads = if !args.multi_thread {
        None
    } else if args.battery_saver {
        Some(1usize)
    } else {
        Some(2usize)
    };
    let dns_bind = if args.dns_server {
        let mut b = String::new();
        push_str(&mut b, "0.0.0.0:");
        push_u64(&mut b, args.dns_port as u64);
        Some(b)
    } else {
        None
    };
    StartupPlan { cache_capacity, worker_threads, dns_bind }
}

} // verus!

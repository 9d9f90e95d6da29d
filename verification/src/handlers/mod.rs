//! Command handlers for the intercepted dnsproxyd socket.
//!
//! Each handler looks at one command line and decides: answer the client
//! here (a blocked lookup), or pass the command on to the real netd socket
//! and relay the conversation.  The socket work is the caller's; what is
//! decided, and the bytes of every answer, are fixed here.
pub mod getaddrinfo;
pub mod gethostbyaddr;
pub mod gethostbyname;
pub mod resnsend;
pub mod setoperatoraddress;

use vstd::prelude::*;

use crate::dns::status::status_line;
use crate::dns::wire::be32_bytes;
use crate::rules::adblock::{decide, host_sep_from, https_prefix, is_host_sep, spec_extract_hostname};
use crate::text::{starts_with, trim_char_end_to};
use crate::rules::{FilterAction, RuleSet};
use crate::sys::SysCodes;
use crate::text::{push_char, push_str};

verus! {

/// What a handler decided for one request.
pub enum HandlerAction {
    /// Send the command line on to the real netd socket and relay the
    /// conversation in both directions.
    Proxy,
    /// Answer the client with these bytes; netd is not contacted.
    Reply(Vec<u8>),
}

/// A handler's decision, as a value.
pub enum ActionView {
    Proxy,
    Reply(Seq<u8>),
}

impl View for HandlerAction {
    type V = ActionView;

    open spec fn view(&self) -> ActionView {
        match self {
            HandlerAction::Proxy => ActionView::Proxy,
            HandlerAction::Reply(b) => ActionView::Reply(b@),
        }
    }
}

/// The pseudo-URL under which a hostname is matched against the rules.
pub open spec fn pseudo_url(hostname: Seq<char>) -> Seq<char> {
    https_prefix() + hostname + seq!['/']
}

/// The rules' decision for a hostname.
pub open spec fn verdict(rules: RuleSet, hostname: Seq<char>) -> FilterAction {
    decide(rules.allow_domains(), rules.block_domains(), pseudo_url(hostname))
}

/// The answer to a blocked lookup: operation failed with EAI_NONAME, which is
/// what netd answers for a domain that does not exist.
pub open spec fn nxdomain_reply(codes: SysCodes) -> Seq<u8> {
    status_line(401) + be32_bytes(codes.eai_noname)
}

/// The generic failure answer: operation failed with EAI_SYSTEM.
pub open spec fn operation_failed_reply(codes: SysCodes) -> Seq<u8> {
    status_line(401) + be32_bytes(codes.eai_system)
}

/// Build a pseudo-URL from a hostname for rule matching:
/// `"https://<hostname>/"`.
pub fn format_pseudo_url(hostname: &str) -> (url: String)
    ensures
        url@ == pseudo_url(hostname@),
{
    let mut url = String::new();
    push_str(&mut url, "https://");
    push_str(&mut url, hostname);
    push_char(&mut url, '/');
    proof {
        reveal_strlit("https://");
        assert(url@ =~= pseudo_url(hostname@));
    }
    url
}

/// The rules' decision for `hostname`.
pub fn check_hostname(rules: &RuleSet, hostname: &str) -> (r: FilterAction)
    ensures
        r == verdict(*rules, hostname@),
{
    let url = format_pseudo_url(hostname);
    rules.matches(url.as_str(), hostname, "other")
}

/// The EAI_NONAME failure answer, as bytes.
pub fn nxdomain_bytes(codes: &SysCodes) -> (b: Vec<u8>)
    ensures
        b@ == nxdomain_reply(*codes),
{
    let mut w: Vec<u8> = Vec::new();
    crate::dns::response::addrinfo::send_nxdomain(&mut w, codes);
    assert(w@ =~= nxdomain_reply(*codes));
    w
}

/// The EAI_SYSTEM failure answer, as bytes.
pub fn operation_failed_bytes(codes: &SysCodes) -> (b: Vec<u8>)
    ensures
        b@ == operation_failed_reply(*codes),
{
    let mut w: Vec<u8> = Vec::new();
    crate::dns::send_dns_operation_failed(&mut w, codes);
    assert(w@ =~= operation_failed_reply(*codes));
    w
}

proof fn lemma_no_sep(h: Seq<char>, i: int)
    requires
        0 <= i <= h.len(),
        forall|k: int| 0 <= k < h.len() ==> !is_host_sep(#[trigger] h[k]),
    ensures
        host_sep_from(h, i) == h.len(),
    decreases h.len() - i,
{
    if i < h.len() {
        lemma_no_sep(h, i + 1);
    }
}

/// A pseudo-URL is matched under the hostname it was built from, when that
/// holds no '/', '?' or ':'.
pub proof fn law_pseudo_url_hostname(h: Seq<char>)
    requires
        forall|k: int| 0 <= k < h.len() ==> !is_host_sep(#[trigger] h[k]),
    ensures
        spec_extract_hostname(pseudo_url(h)) == h,
{
    let url = pseudo_url(h);
    assert(url.take(8) =~= https_prefix());
    assert(starts_with(url, https_prefix()));
    let s1 = url.skip(8);
    assert(s1 =~= h.push('/'));
    let n = h.len() as int;
    assert(trim_char_end_to(s1, 0, n + 1, '/') == trim_char_end_to(s1, 0, n, '/'));
    if n > 0 {
        assert(s1[n - 1] == h[n - 1]);
        assert(!is_host_sep(h[n - 1]));
    }
    assert(trim_char_end_to(s1, 0, n, '/') == n);
    assert(s1.take(n) =~= h);
    lemma_no_sep(h, 0);
    assert(h.take(n) =~= h);
}

} // verus!

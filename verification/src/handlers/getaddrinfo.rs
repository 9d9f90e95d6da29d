//! `getaddrinfo <hostname> <servname> <flags> <family> <socktype> <protocol> <netId>`.
use vstd::prelude::*;

use crate::cli::opt_view;
use crate::handlers::{check_hostname, nxdomain_bytes, nxdomain_reply, verdict, ActionView, HandlerAction};
use crate::rules::{FilterAction, RuleSet};
use crate::split::{split_char, split_on};
use crate::sys::SysCodes;
use crate::text::{
    ascii_lower, chars_eq, chars_of, parse_i32, parse_i32_str, parse_u32, parse_unsigned, str_eq,
    to_ascii_lowercase,
};

verus! {

/// A token, or nothing when it is the placeholder `^`.
pub open spec fn caret_or(t: Seq<char>) -> Option<Seq<char>> {
    if t == seq!['^'] {
        None
    } else {
        Some(t)
    }
}

/// The fields of a getaddrinfo command: exactly eight tokens separated by
/// single spaces, the first `getaddrinfo` in any ASCII case, then hostname
/// and service (`^` for none), four `i32`s and a `u32` network id.
pub open spec fn getaddrinfo_fields(cmd: Seq<char>) -> Option<
    (Option<Seq<char>>, Option<Seq<char>>, i32, i32, i32, i32, u32),
> {
    let t = split_on(cmd, ' ');
    if t.len() != 8 || ascii_lower(t[0]) != "getaddrinfo"@ {
        None
    } else {
        match (
            parse_i32(t[3]),
            parse_i32(t[4]),
            parse_i32(t[5]),
            parse_i32(t[6]),
            parse_unsigned(t[7], 4294967295),
        ) {
            (Some(a), Some(b), Some(c), Some(d), Some(e)) => Some(
                (caret_or(t[1]), caret_or(t[2]), a as i32, b as i32, c as i32, d as i32, e as u32),
            ),
            _ => None,
        }
    }
}

/// A parsed getaddrinfo command.
pub struct GetAddrInfoRequest {
    pub hostname: Option<String>,
    pub servname: Option<String>,
    pub ai_flags: i32,
    pub ai_family: i32,
    pub ai_socktype: i32,
    pub ai_protocol: i32,
    pub net_id: u32,
    pub raw_cmd: String,
}

/// The parsed fields of a request, in the order of `getaddrinfo_fields`.
pub open spec fn request_fields(r: GetAddrInfoRequest) -> (
    Option<Seq<char>>,
    Option<Seq<char>>,
    i32,
    i32,
    i32,
    i32,
    u32,
) {
    (
        opt_view(r.hostname),
        opt_view(r.servname),
        r.ai_flags,
        r.ai_family,
        r.ai_socktype,
        r.ai_protocol,
        r.net_id,
    )
}

/// The hostname a request is matched under: empty when it named none.
pub open spec fn host_or_empty(h: Option<Seq<char>>) -> Seq<char> {
    match h {
        Some(s) => s,
        None => Seq::empty(),
    }
}

fn caret_token(s: &String) -> (r: Option<String>)
    ensures
        opt_view(r) == caret_or(s@),
{
    proof {
        reveal_strlit("^");
        assert("^"@ =~= seq!['^']);
    }
    if str_eq(s.as_str(), "^") {
        None
    } else {
        Some(s.clone())
    }
}

impl GetAddrInfoRequest {
    /// Parse a getaddrinfo command line; `None` when it is not one.
    pub fn parse(cmd: &str) -> (r: Option<Self>)
        ensures
            match r {
                Some(req) => getaddrinfo_fields(cmd@) == Some(request_fields(req)) && req.raw_cmd@
                    == cmd@,
                None => getaddrinfo_fields(cmd@) is None,
            },
    {
        let tokens = split_char(cmd, ' ');
        let ghost t = split_on(cmd@, ' ');
        if tokens.len() != 8 {
            return None;
        }
        proof {
            assert forall|i: int| 0 <= i < 8 implies tokens@[i]@ == #[trigger] t[i] by {
                assert(crate::text::string_views(tokens@)[i] == tokens@[i]@);
            }
        }
        let name = to_ascii_lowercase(tokens[0].as_str());
        let lit = chars_of("getaddrinfo");
        if !chars_eq(&name, &lit) {
            return None;
        }
        let ai_flags = match parse_i32_str(tokens[3].as_str()) {
            Some(v) => v,
            None => return None,
        };
        let ai_family = match parse_i32_str(tokens[4].as_str()) {
            Some(v) => v,
            None => return None,
        };
        let ai_socktype = match parse_i32_str(tokens[5].as_str()) {
            Some(v) => v,
            None => return None,
        };
        let ai_protocol = match parse_i32_str(tokens[6].as_str()) {
            Some(v) => v,
            None => return None,
        };
        let net_id = match parse_u32(tokens[7].as_str()) {
            Some(v) => v,
            None => return None,
        };
        let hostname = caret_token(&tokens[1]);
        let servname = caret_token(&tokens[2]);
        Some(
            GetAddrInfoRequest {
                hostname,
                servname,
                ai_flags,
                ai_family,
                ai_socktype,
                ai_protocol,
                net_id,
                raw_cmd: cmd.to_owned(),
            },
        )
    }

    /// The hostname, or `""` when the request named none.
    pub fn hostname_str(&self) -> (h: &str)
        ensures
            h@ == host_or_empty(opt_view(self.hostname)),
    {
        proof {
            reveal_strlit("");
        }
        match &self.hostname {
            Some(h) => h.as_str(),
            None => "",
        }
    }
}

/// What `getaddrinfo` does with a command line: one that does not parse is
/// passed through; a blocked hostname is answered with the EAI_NONAME
/// failure; anything else is passed through.
pub open spec fn getaddrinfo_action(cmd: Seq<char>, rules: RuleSet, codes: SysCodes) -> ActionView {
    match getaddrinfo_fields(cmd) {
        None => ActionView::Proxy,
        Some(f) => if verdict(rules, host_or_empty(f.0)) == FilterAction::Block {
            ActionView::Reply(nxdomain_reply(codes))
        } else {
            ActionView::Proxy
        },
    }
}

/// Handler for `getaddrinfo`.
pub struct GetAddrInfoHandler;

impl GetAddrInfoHandler {
    pub fn handle(&self, cmd_line: &str, rules: &RuleSet, codes: &SysCodes) -> (r: HandlerAction)
        ensures
            r@ == getaddrinfo_action(cmd_line@, *rules, *codes),
    {
        let req = match GetAddrInfoRequest::parse(cmd_line) {
            Some(req) => req,
            None => return HandlerAction::Proxy,
        };
        match check_hostname(rules, req.hostname_str()) {
            FilterAction::Block => HandlerAction::Reply(nxdomain_bytes(codes)),
            FilterAction::Allow => HandlerAction::Proxy,
        }
    }
}

} // verus!

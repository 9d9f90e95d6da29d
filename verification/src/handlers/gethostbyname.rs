//! `gethostbyname <netId> <hostname> [<af>]`.
use vstd::prelude::*;

use crate::handlers::{check_hostname, nxdomain_bytes, nxdomain_reply, verdict, ActionView, HandlerAction};
use crate::rules::{FilterAction, RuleSet};
use crate::split::{split_whitespace, ws_tokens};
use crate::sys::SysCodes;

verus! {

/// What `gethostbyname` does with a command line: too few tokens are passed
/// through; a blocked hostname (the third token) is answered with the
/// EAI_NONAME failure; anything else is passed through.
pub open spec fn gethostbyname_action(cmd: Seq<char>, rules: RuleSet, codes: SysCodes) -> ActionView {
    let t = ws_tokens(cmd);
    if t.len() < 3 {
        ActionView::Proxy
    } else if verdict(rules, t[2]) == FilterAction::Block {
        ActionView::Reply(nxdomain_reply(codes))
    } else {
        ActionView::Proxy
    }
}

/// Handler for `gethostbyname`.
pub struct GetHostByNameHandler;

impl GetHostByNameHandler {
    pub fn handle(&self, cmd_line: &str, rules: &RuleSet, codes: &SysCodes) -> (r: HandlerAction)
        ensures
            r@ == gethostbyname_action(cmd_line@, *rules, *codes),
    {
        let tokens = split_whitespace(cmd_line);
        if tokens.len() < 3 {
            return HandlerAction::Proxy;
        }
        let hostname = tokens[2].as_str();
        match check_hostname(rules, hostname) {
            FilterAction::Block => HandlerAction::Reply(nxdomain_bytes(codes)),
            FilterAction::Allow => HandlerAction::Proxy,
        }
    }
}

} // verus!

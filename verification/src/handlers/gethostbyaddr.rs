//! `gethostbyaddr <address> ...`.
use vstd::prelude::*;

use crate::handlers::{
    check_hostname, operation_failed_bytes, operation_failed_reply, verdict, ActionView,
    HandlerAction,
};
use crate::rules::{FilterAction, RuleSet};
use crate::split::{split_whitespace, ws_tokens};
use crate::sys::SysCodes;

verus! {

/// What `gethostbyaddr` does with a command line: fewer than two tokens are
/// passed through; a blocked address (the second token) is answered with the
/// EAI_SYSTEM failure; anything else is passed through.
pub open spec fn gethostbyaddr_action(cmd: Seq<char>, rules: RuleSet, codes: SysCodes) -> ActionView {
    let t = ws_tokens(cmd);
    if t.len() < 2 {
        ActionView::Proxy
    } else if verdict(rules, t[1]) == FilterAction::Block {
        ActionView::Reply(operation_failed_reply(codes))
    } else {
        ActionView::Proxy
    }
}

/// Handler for `gethostbyaddr`.
pub struct GetHostByAddrHandler;

impl GetHostByAddrHandler {
    pub fn handle(&self, cmd_line: &str, rules: &RuleSet, codes: &SysCodes) -> (r: HandlerAction)
        ensures
            r@ == gethostbyaddr_action(cmd_line@, *rules, *codes),
    {
        let tokens = split_whitespace(cmd_line);
        if tokens.len() < 2 {
            return HandlerAction::Proxy;
        }
        let addr = tokens[1].as_str();
        match check_hostname(rules, addr) {
            FilterAction::Block => HandlerAction::Reply(operation_failed_bytes(codes)),
            FilterAction::Allow => HandlerAction::Proxy,
        }
    }
}

} // verus!

//! `resnsend <netId> <flags> <base64 query>`.
use vstd::prelude::*;

use crate::dns::proto::resnsend::{block_reply, send_block};
use crate::dns::wire::{parse_dns_query_name, spec_query_name};
use crate::handlers::{check_hostname, verdict, ActionView, HandlerAction};
use crate::rules::{FilterAction, RuleSet};
use crate::split::{split_whitespace, ws_tokens};
use crate::sys::SysCodes;

verus! {

/// Name for what the `base64` crate's standard engine
/// (`BASE64_STANDARD.decode`) returns for a string: the decoded bytes, or
/// `None` where it reports an error.
pub uninterp spec fn base64_standard_decode(text: Seq<char>) -> Option<Seq<u8>>;

/// `base64::Engine::decode` on `base64::prelude::BASE64_STANDARD` (base64
/// crate): its result, with the error turned into `None`.  Which inputs it
/// accepts (alphabet, canonical padding) is left to the name.
#[verifier::external_body]
fn decode_base64(text: &str) -> (r: Option<Vec<u8>>)
    ensures
        bytes_opt(r) == base64_standard_decode(text@),
{
    base64::Engine::decode(&base64::prelude::BASE64_STANDARD, text).ok()
}

/// The byte view of an optional buffer.
pub open spec fn bytes_opt(o: Option<Vec<u8>>) -> Option<Seq<u8>> {
    match o {
        Some(v) => Some(v@),
        None => None,
    }
}

/// What resnsend does with a decoded query (`None`: it did not decode): a
/// query whose name cannot be read is passed through; a blocked name is
/// answered with the block reply built from the query; anything else is
/// passed through.
pub open spec fn resnsend_decoded_action(decoded: Option<Seq<u8>>, rules: RuleSet, codes: SysCodes) -> ActionView {
    match decoded {
        None => ActionView::Proxy,
        Some(raw) => match spec_query_name(raw) {
            None => ActionView::Proxy,
            Some(name) => if verdict(rules, name) == FilterAction::Block {
                ActionView::Reply(block_reply(raw, codes))
            } else {
                ActionView::Proxy
            },
        },
    }
}

/// What resnsend does with a command line: fewer than four tokens are
/// passed through; else the fourth token is base64-decoded and the decoded
/// query decides.
pub open spec fn resnsend_action(cmd: Seq<char>, rules: RuleSet, codes: SysCodes) -> ActionView {
    let t = ws_tokens(cmd);
    if t.len() < 4 {
        ActionView::Proxy
    } else {
        resnsend_decoded_action(base64_standard_decode(t[3]), rules, codes)
    }
}

/// Handler for `resnsend`.
pub struct ResNsendHandler;

impl ResNsendHandler {
    pub fn handle(&self, cmd_line: &str, rules: &RuleSet, codes: &SysCodes) -> (r: HandlerAction)
        ensures
            r@ == resnsend_action(cmd_line@, *rules, *codes),
    {
        let tokens = split_whitespace(cmd_line);
        if tokens.len() < 4 {
            return HandlerAction::Proxy;
        }
        assert(crate::text::string_views(tokens@)[3] == tokens@[3]@);
        let decoded = decode_base64(tokens[3].as_str());
        self.handle_decoded(decoded, rules, codes)
    }

    /// The decision once the query has been base64-decoded (`None`: it did
    /// not decode).
    pub fn handle_decoded(&self, decoded: Option<Vec<u8>>, rules: &RuleSet, codes: &SysCodes) -> (r: HandlerAction)
        ensures
            r@ == resnsend_decoded_action(bytes_opt(decoded), *rules, *codes),
    {
        let raw = match decoded {
            Some(raw) => raw,
            None => return HandlerAction::Proxy,
        };
        let hostname = match parse_dns_query_name(raw.as_slice()) {
            Some(h) => h,
            None => return HandlerAction::Proxy,
        };
        match check_hostname(rules, hostname.as_str()) {
            FilterAction::Block => {
                let mut w: Vec<u8> = Vec::new();
                send_block(&mut w, raw.as_slice(), codes);
                assert(w@ =~= block_reply(raw@, *codes));
                HandlerAction::Reply(w)
            },
            FilterAction::Allow => HandlerAction::Proxy,
        }
    }
}

} // verus!

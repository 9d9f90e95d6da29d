//! `setoperatoraddress`: always handled by netd.
use vstd::prelude::*;

use crate::handlers::{ActionView, HandlerAction};

verus! {

/// Handler for `setoperatoraddress`, which is never filtered.
pub struct SetOperatorAddressHandler;

impl SetOperatorAddressHandler {
    /// Pass the command through to netd unchanged.
    pub fn handle(&self, cmd_line: &str) -> (r: HandlerAction)
        ensures
            r@ == ActionView::Proxy,
    {
        HandlerAction::Proxy
    }
}

} // verus!

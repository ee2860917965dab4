//! One recorded redirect transition.
use vstd::prelude::*;

verus! {

/// One redirect hop: the status that caused it, the URL it left, and the
/// target it named (as sent, before resolution against the base).
#[derive(Debug, Clone)]
pub struct RedirectHop {
    pub status: u16,
    pub from: String,
    pub to: String,
}

impl RedirectHop {
    pub fn new(status: u16, from: String, to: String) -> (r: Self)
        ensures
            r.status == status,
            r.from == from,
            r.to == to,
    {
        RedirectHop { status, from, to }
    }
}

} // verus!

//! The health-check endpoint.

use crate::response::{Response, ResponseView};
use vstd::prelude::*;

verus! {

/// Answers a health-check request: always the bare success response.
pub fn health_check() -> (r: Response)
    ensures
        r@ == ResponseView::ok_empty(),
        r@.is_success(),
{
    Response::ok()
}

} // verus!

use vstd::prelude::*;

use crate::crawler::Outlink;
use crate::url_util::WebUrl;

verus! {

/// Links of RSS and Atom feeds; feed parsing is reserved, so a feed yields
/// no links yet.
pub fn feed_outlinks(_body_str: &str, _base: &WebUrl) -> (r: Vec<Outlink>)
    ensures
        r@.len() == 0,
{
    Vec::new()
}

} // verus!

//! Core of a real-estate search poller: extraction of structured listings
//! from paginated search-result markup, URL normalization for pagination,
//! and cross-run seen-state tracking that decides which listings are new.

use vstd::prelude::*;

pub mod crawl;
pub mod decimal;
pub mod errors;
pub mod extract;
pub mod html;
pub mod listing;
pub mod notify;
pub mod seen;
pub mod text;

verus! {

/// Log level applied when the configuration names none.
pub fn default_log_level() -> (r: String)
    ensures
        r@ == "debug"@,
{
    String::from_str("debug")
}

} // verus!

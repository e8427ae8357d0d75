//! Links to park condition pages.

use vstd::prelude::*;
use crate::strings::{lower_of, lowercase};

verus! {

/// The condition page of a park, from its code, lower-cased.
pub fn get_park_url(park_code: &str) -> (r: String)
    ensures
        r@ == "https://www.sepaq.com/pq/"@ + lower_of(park_code@) + "/"@,
{
    let mut s = String::from_str("https://www.sepaq.com/pq/");
    let low = lowercase(park_code);
    s.append(low.as_str());
    s.append("/");
    s
}

/// A one-line pointer to a park's condition page.
pub fn format_condition_url(url: &str, link_icon: &str) -> (r: String)
    ensures
        r@ == link_icon@ + " Check conditions: "@ + url@,
{
    let mut s = String::from_str(link_icon);
    s.append(" Check conditions: ");
    s.append(url);
    s
}

} // verus!

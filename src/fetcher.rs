//! Feed locations.
use vstd::prelude::*;

use crate::text::starts_with;

verus! {

pub open spec fn webcal_scheme() -> Seq<char> {
    "webcal://"@
}

pub open spec fn webcals_scheme() -> Seq<char> {
    "webcals://"@
}

pub open spec fn has_prefix(s: Seq<char>, p: Seq<char>) -> bool {
    p.len() <= s.len() && s.subrange(0, p.len() as int) == p
}

/// The URL with a `webcal://` scheme read as `http://` and `webcals://` as
/// `https://`; any other URL as it is.
pub open spec fn normalized_url(url: Seq<char>) -> Seq<char> {
    if has_prefix(url, webcal_scheme()) {
        "http://"@ + url.subrange(webcal_scheme().len() as int, url.len() as int)
    } else if has_prefix(url, webcals_scheme()) {
        "https://"@ + url.subrange(webcals_scheme().len() as int, url.len() as int)
    } else {
        url
    }
}

/// Rewrites the calendar-specific `webcal://` and `webcals://` schemes to
/// `http://` and `https://`.
pub fn normalize_calendar_url(url: &str) -> (r: String)
    ensures
        r@ == normalized_url(url@),
{
    let n = url.unicode_len();
    if starts_with(url, "webcal://") {
        proof {
            reveal_strlit("webcal://");
        }
        String::from_str("http://").concat(url.substring_char(9, n))
    } else if starts_with(url, "webcals://") {
        proof {
            reveal_strlit("webcals://");
        }
        String::from_str("https://").concat(url.substring_char(10, n))
    } else {
        url.to_string()
    }
}

} // verus!

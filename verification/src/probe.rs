//! Interpreting the metadata probe: what the declared accept-ranges
//! capability and content length of a response say about a resource.

use vstd::prelude::*;
use crate::downloader::ResourceMeta;
use crate::helpers::str_eq;
use crate::numbers::{content_length_spec, parse_content_length};

verus! {

/// Whether a response advertises byte-range support: its accept-ranges
/// capability must be present and be exactly `bytes`.
pub fn accepts_byte_ranges(value: Option<&str>) -> (r: bool)
    ensures
        match value {
            Option::Some(s) => r == (s@ == "bytes"@),
            Option::None => r == false,
        },
{
    match value {
        Option::Some(s) => str_eq(s, "bytes"),
        Option::None => false,
    }
}

/// Builds the metadata of a probed resource from the declared accept-ranges
/// capability and content length: ranges are supported only when the
/// capability is exactly `bytes`, and the size is the declared length, or 0
/// ("unknown") when it is absent or unreadable.
pub fn interpret_probe(accept_ranges: Option<&str>, content_length: Option<&str>) -> (r:
    ResourceMeta)
    ensures
        match accept_ranges {
            Option::Some(s) => r.supports_ranges == (s@ == "bytes"@),
            Option::None => r.supports_ranges == false,
        },
        match content_length {
            Option::Some(s) => r.total_size == content_length_spec(Option::Some(s@)),
            Option::None => r.total_size == 0,
        },
{
    ResourceMeta {
        supports_ranges: accepts_byte_ranges(accept_ranges),
        total_size: parse_content_length(content_length),
    }
}

} // verus!

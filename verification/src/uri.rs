//! The URIs that payloads carry: `rsync://` and what follows it, in visible
//! ASCII characters.

use vstd::prelude::*;
use crate::chars::{all_of, spec_all_of, ByteClass};
use crate::error::UriError;
use crate::names::{ascii, begins_with, spec_begins_with};

verus! {

/// What is wrong with `u` as a URI; `None` where it is accepted.
pub open spec fn uri_fault(u: Seq<u8>) -> Option<UriError> {
    if !spec_begins_with(u, ascii("rsync://"@)) {
        Some(UriError::BadScheme)
    } else if u.len() <= ascii("rsync://"@).len() {
        Some(UriError::NoHost)
    } else if !spec_all_of(u, ByteClass::Visible) {
        Some(UriError::BadByte)
    } else {
        None
    }
}

/// Checks `u` as a URI.
pub fn check_uri(u: &[u8]) -> (r: Option<UriError>)
    ensures
        r == uri_fault(u@),
{
    proof {
        reveal_strlit("rsync://");
    }
    if !begins_with(u, "rsync://") {
        Some(UriError::BadScheme)
    } else if u.len() <= 8 {
        Some(UriError::NoHost)
    } else if !all_of(u, ByteClass::Visible) {
        Some(UriError::BadByte)
    } else {
        None
    }
}

} // verus!

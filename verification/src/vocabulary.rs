//! What holds of the names that the protocol uses.

use vstd::prelude::*;
use crate::attrs::spec_is_namespace;
use crate::canonical::is_name;
use crate::names::ascii;

verus! {

/// The names of the protocol's elements are names, and differ from one
/// another.
pub proof fn lemma_element_names()
    ensures
        is_name(ascii("msg"@)),
        is_name(ascii("list"@)),
        is_name(ascii("publish"@)),
        is_name(ascii("withdraw"@)),
        is_name(ascii("success"@)),
        ascii("list"@) != ascii("publish"@),
        ascii("list"@) != ascii("withdraw"@),
        ascii("list"@) != ascii("success"@),
        ascii("list"@) != ascii("report_error"@),
        ascii("success"@) != ascii("report_error"@),
        ascii("publish"@) != ascii("withdraw"@),
        ascii("msg"@) != ascii("list"@),
        ascii("msg"@) != ascii("publish"@),
        ascii("msg"@) != ascii("withdraw"@),
        ascii("msg"@) != ascii("success"@),
{
    reveal_strlit("msg");
    reveal_strlit("list");
    reveal_strlit("publish");
    reveal_strlit("withdraw");
    reveal_strlit("success");
    reveal_strlit("report_error");
    assert(ascii("list"@).len() == 4);
    assert(ascii("publish"@).len() == 7);
    assert(ascii("withdraw"@).len() == 8);
    assert(ascii("success"@).len() == 7);
    assert(ascii("report_error"@).len() == 12);
    assert(ascii("msg"@).len() == 3);
    assert(ascii("publish"@)[0] != ascii("success"@)[0]);
}

/// The names of the protocol's attributes are names, differ from one
/// another, and only `xmlns` is a namespace declaration.
pub proof fn lemma_attribute_names()
    ensures
        is_name(ascii("xmlns"@)),
        is_name(ascii("version"@)),
        is_name(ascii("type"@)),
        is_name(ascii("tag"@)),
        is_name(ascii("uri"@)),
        is_name(ascii("hash"@)),
        ascii("xmlns"@) != ascii("version"@),
        ascii("xmlns"@) != ascii("type"@),
        ascii("version"@) != ascii("type"@),
        ascii("tag"@) != ascii("uri"@),
        ascii("tag"@) != ascii("hash"@),
        ascii("uri"@) != ascii("hash"@),
        spec_is_namespace(ascii("xmlns"@)),
        !spec_is_namespace(ascii("version"@)),
        !spec_is_namespace(ascii("type"@)),
        !spec_is_namespace(ascii("tag"@)),
        !spec_is_namespace(ascii("uri"@)),
        !spec_is_namespace(ascii("hash"@)),
        ascii("query"@) != ascii("reply"@),
{
    reveal_strlit("xmlns");
    reveal_strlit("xmlns:");
    reveal_strlit("version");
    reveal_strlit("type");
    reveal_strlit("tag");
    reveal_strlit("uri");
    reveal_strlit("hash");
    reveal_strlit("query");
    reveal_strlit("reply");
    assert(ascii("xmlns"@).len() == 5);
    assert(ascii("xmlns:"@).len() == 6);
    assert(ascii("version"@).len() == 7);
    assert(ascii("type"@).len() == 4);
    assert(ascii("tag"@).len() == 3);
    assert(ascii("uri"@).len() == 3);
    assert(ascii("hash"@).len() == 4);
    assert(ascii("tag"@)[0] != ascii("uri"@)[0]);
    assert(ascii("query"@)[0] != ascii("reply"@)[0]);
    assert(ascii("version"@).take(6)[0] == ascii("version"@)[0]);
    assert(ascii("version"@)[0] != ascii("xmlns:"@)[0]);
}

} // verus!

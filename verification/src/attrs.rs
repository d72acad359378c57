//! Looking attributes up by name, and finding the first one that an element
//! has no use for.

use vstd::prelude::*;
use vstd::slice::slice_to_vec;
use crate::names::{ascii, begins_with, is_word, spec_begins_with};
use crate::token::{Attribute, AttributeView};

verus! {

/// A namespace declaration: `xmlns`, or a name that begins with `xmlns:`.
/// The reader keeps such an attribute; no element counts it as one of its
/// own, and none objects to it.
pub open spec fn spec_is_namespace(name: Seq<u8>) -> bool {
    name == ascii("xmlns"@) || spec_begins_with(name, ascii("xmlns:"@))
}

/// The position of the first attribute at or after `i` that is named `key`;
/// the number of attributes where there is none.
pub open spec fn index_from(attrs: Seq<AttributeView>, key: Seq<u8>, i: int) -> int
    decreases attrs.len() - i,
{
    if 0 <= i < attrs.len() && attrs[i].name != key {
        index_from(attrs, key, i + 1)
    } else {
        i
    }
}

/// The value of the first attribute named `key`.
pub open spec fn lookup(attrs: Seq<AttributeView>, key: Seq<u8>) -> Option<Seq<u8>> {
    let i = index_from(attrs, key, 0);
    if 0 <= i < attrs.len() {
        Some(attrs[i].value)
    } else {
        None
    }
}

/// Whether the element that knows the names `keys` accepts attribute `k`: a
/// namespace declaration, or the first attribute of a name among `keys`.
pub open spec fn is_accepted(attrs: Seq<AttributeView>, keys: Seq<Seq<u8>>, k: int) -> bool {
    spec_is_namespace(attrs[k].name) || (keys.contains(attrs[k].name) && index_from(
        attrs,
        attrs[k].name,
        0,
    ) == k)
}

/// The position of the first attribute at or after `i` that is not
/// accepted; the number of attributes where all are.
pub open spec fn extra_from(attrs: Seq<AttributeView>, keys: Seq<Seq<u8>>, i: int) -> int
    decreases attrs.len() - i,
{
    if 0 <= i < attrs.len() && is_accepted(attrs, keys, i) {
        extra_from(attrs, keys, i + 1)
    } else {
        i
    }
}

/// The name of the first attribute that is not accepted.
pub open spec fn unexpected(attrs: Seq<AttributeView>, keys: Seq<Seq<u8>>) -> Option<Seq<u8>> {
    let i = extra_from(attrs, keys, 0);
    if 0 <= i < attrs.len() {
        Some(attrs[i].name)
    } else {
        None
    }
}

/// The names that a list of names holds.
pub open spec fn keys_view(keys: Seq<Vec<u8>>) -> Seq<Seq<u8>> {
    Seq::new(keys.len(), |i: int| keys[i]@)
}

/// Whether two byte strings are the same.
pub fn same_bytes(a: &[u8], b: &[u8]) -> (r: bool)
    ensures
        r == (a@ == b@),
{
    if a.len() != b.len() {
        return false;
    }
    let mut k: usize = 0;
    while k < a.len()
        invariant
            k <= a@.len(),
            a@.len() == b@.len(),
            forall|m: int| 0 <= m < k ==> a@[m] == b@[m],
        decreases a@.len() - k,
    {
        if a[k] != b[k] {
            return false;
        }
        k += 1;
    }
    proof {
        assert(a@ =~= b@);
    }
    true
}

/// Whether `name` is a namespace declaration.
pub fn is_namespace(name: &[u8]) -> (r: bool)
    ensures
        r == spec_is_namespace(name@),
{
    proof {
        reveal_strlit("xmlns");
        reveal_strlit("xmlns:");
    }
    is_word(name, "xmlns") || begins_with(name, "xmlns:")
}

/// Finds the first attribute named `key`.
pub fn find_index(attrs: &Vec<Attribute>, key: &[u8]) -> (i: usize)
    ensures
        i == index_from(attrs.deep_view(), key@, 0),
        i <= attrs@.len(),
        i < attrs@.len() ==> attrs@[i as int].name@ == key@,
{
    let mut i: usize = 0;
    while i < attrs.len() && !same_bytes(attrs[i].name.as_slice(), key)
        invariant
            i <= attrs@.len(),
            index_from(attrs.deep_view(), key@, 0) == index_from(attrs.deep_view(), key@, i as int),
        decreases attrs@.len() - i,
    {
        i += 1;
    }
    i
}

/// Finds the value of the first attribute named `key`.
pub fn find_value(attrs: &Vec<Attribute>, key: &[u8]) -> (r: Option<Vec<u8>>)
    ensures
        match r {
            None => lookup(attrs.deep_view(), key@) is None,
            Some(v) => lookup(attrs.deep_view(), key@) == Some(v@),
        },
{
    let i = find_index(attrs, key);
    if i < attrs.len() {
        Some(slice_to_vec(attrs[i].value.as_slice()))
    } else {
        None
    }
}

/// Whether `name` is among `keys`.
pub fn has_key(keys: &Vec<Vec<u8>>, name: &[u8]) -> (r: bool)
    ensures
        r == keys_view(keys@).contains(name@),
{
    let mut k: usize = 0;
    while k < keys.len()
        invariant
            k <= keys@.len(),
            forall|m: int| 0 <= m < k ==> keys_view(keys@)[m] != name@,
        decreases keys@.len() - k,
    {
        if same_bytes(keys[k].as_slice(), name) {
            proof {
                assert(keys_view(keys@)[k as int] == name@);
            }
            return true;
        }
        k += 1;
    }
    false
}

/// Finds the first attribute that the element that knows the names `keys`
/// does not accept, and gives its name.
pub fn find_unexpected(attrs: &Vec<Attribute>, keys: &Vec<Vec<u8>>) -> (r: Option<Vec<u8>>)
    ensures
        match r {
            None => unexpected(attrs.deep_view(), keys_view(keys@)) is None,
            Some(name) => unexpected(attrs.deep_view(), keys_view(keys@)) == Some(name@),
        },
{
    let mut i: usize = 0;
    while i < attrs.len()
        invariant
            i <= attrs@.len(),
            extra_from(attrs.deep_view(), keys_view(keys@), 0) == extra_from(
                attrs.deep_view(),
                keys_view(keys@),
                i as int,
            ),
        decreases attrs@.len() - i,
    {
        let name = attrs[i].name.as_slice();
        let accepted = is_namespace(name) || (has_key(keys, name) && find_index(attrs, name) == i);
        if !accepted {
            return Some(slice_to_vec(name));
        }
        i += 1;
    }
    None
}

/// Where no attribute from `i` up to `k` is named `key`, and the one at
/// `k` is, or `k` is the number of attributes, `index_from` finds `k`.
pub proof fn lemma_index_from_is(attrs: Seq<AttributeView>, key: Seq<u8>, i: int, k: int)
    requires
        0 <= i <= k <= attrs.len(),
        forall|m: int| i <= m < k ==> (#[trigger] attrs[m]).name != key,
        k < attrs.len() ==> attrs[k].name == key,
    ensures
        index_from(attrs, key, i) == k,
    decreases k - i,
{
    if i < k {
        lemma_index_from_is(attrs, key, i + 1, k);
    }
}

/// Where every attribute from `i` up to `k` is accepted, and the one at
/// `k` is not, or `k` is the number of attributes, `extra_from` finds `k`.
pub proof fn lemma_extra_from_is(attrs: Seq<AttributeView>, keys: Seq<Seq<u8>>, i: int, k: int)
    requires
        0 <= i <= k <= attrs.len(),
        forall|m: int| i <= m < k ==> is_accepted(attrs, keys, m),
        k < attrs.len() ==> !is_accepted(attrs, keys, k),
    ensures
        extra_from(attrs, keys, i) == k,
    decreases k - i,
{
    if i < k {
        lemma_extra_from_is(attrs, keys, i + 1, k);
    }
}

/// `extra_from` stops inside the attributes, on the first one that is not
/// accepted.
pub proof fn lemma_extra_from_bounds(attrs: Seq<AttributeView>, keys: Seq<Seq<u8>>, i: int)
    requires
        0 <= i <= attrs.len(),
    ensures
        i <= extra_from(attrs, keys, i) <= attrs.len(),
        forall|m: int| i <= m < extra_from(attrs, keys, i) ==> is_accepted(attrs, keys, m),
        extra_from(attrs, keys, i) < attrs.len() ==> !is_accepted(
            attrs,
            keys,
            extra_from(attrs, keys, i),
        ),
    decreases attrs.len() - i,
{
    if i < attrs.len() && is_accepted(attrs, keys, i) {
        lemma_extra_from_bounds(attrs, keys, i + 1);
    }
}

} // verus!

//! Names written as string literals, as the bytes that stand in a document,
//! and bytes as the text that stands for them in an error.

use vstd::prelude::*;
use vstd::slice::slice_to_vec;
use vstd::string::{is_ascii, StrSliceExecFns, StringExecFns};

verus! {

/// The bytes of ASCII text: each character as one byte.
pub open spec fn ascii(chars: Seq<char>) -> Seq<u8> {
    Seq::new(chars.len(), |i: int| chars[i] as u8)
}

/// Whether `bytes` spells `word`.
pub fn is_word(bytes: &[u8], word: &str) -> (r: bool)
    requires
        is_ascii(word),
    ensures
        r == (bytes@ == ascii(word@)),
{
    let w = word.as_bytes();
    proof {
        vstd::string::is_ascii_spec_bytes(word);
        assert(w@ =~= ascii(word@));
    }
    if bytes.len() != w.len() {
        return false;
    }
    let mut k: usize = 0;
    while k < w.len()
        invariant
            k <= w@.len(),
            w@ == ascii(word@),
            bytes@.len() == w@.len(),
            forall|m: int| 0 <= m < k ==> bytes@[m] == w@[m],
        decreases w@.len() - k,
    {
        if bytes[k] != w[k] {
            return false;
        }
        k += 1;
    }
    proof {
        assert(bytes@ =~= w@);
    }
    true
}

/// The bytes that spell `word`.
pub fn word_bytes(word: &str) -> (v: Vec<u8>)
    requires
        is_ascii(word),
    ensures
        v@ == ascii(word@),
{
    let w = word.as_bytes();
    proof {
        vstd::string::is_ascii_spec_bytes(word);
        assert(w@ =~= ascii(word@));
    }
    slice_to_vec(w)
}

/// Whether `bytes` begins with `word`.
pub fn begins_with(bytes: &[u8], word: &str) -> (r: bool)
    requires
        is_ascii(word),
    ensures
        r == spec_begins_with(bytes@, ascii(word@)),
{
    let w = word.as_bytes();
    proof {
        vstd::string::is_ascii_spec_bytes(word);
        assert(w@ =~= ascii(word@));
    }
    if bytes.len() < w.len() {
        return false;
    }
    let mut k: usize = 0;
    while k < w.len()
        invariant
            k <= w@.len(),
            w@ == ascii(word@),
            w@.len() <= bytes@.len(),
            forall|m: int| 0 <= m < k ==> bytes@[m] == w@[m],
        decreases w@.len() - k,
    {
        if bytes[k] != w[k] {
            proof {
                assert(bytes@.take(w@.len() as int)[k as int] == bytes@[k as int]);
            }
            return false;
        }
        k += 1;
    }
    proof {
        assert(bytes@.take(w@.len() as int) =~= w@);
    }
    true
}

/// Whether `bytes` begins with `word`.
pub open spec fn spec_begins_with(bytes: Seq<u8>, word: Seq<u8>) -> bool {
    word.len() <= bytes.len() && bytes.take(word.len() as int) == word
}

/// The character that stands for a byte in a message about a document: the
/// byte itself where it is a space or a visible ASCII character, and the
/// replacement character where it is not.
pub open spec fn char_of(b: u8) -> char {
    if 0x20 <= b <= 0x7e {
        b as char
    } else {
        '\u{fffd}'
    }
}

/// The text that stands for a name, or for any bytes, in a message about a
/// document: each byte by the character that stands for it.
pub open spec fn text_of(bytes: Seq<u8>) -> Seq<char> {
    Seq::new(bytes.len(), |i: int| char_of(bytes[i]))
}

/// The text that stands for `bytes`.
pub fn to_text(bytes: &[u8]) -> (s: String)
    ensures
        s@ == text_of(bytes@),
{
    let table =
        " !\"#$%&'()*+,-./0123456789:;<=>?@ABCDEFGHIJKLMNOPQRSTUVWXYZ[\\]^_`abcdefghijklmnopqrstuvwxyz{|}~";
    proof {
        reveal_strlit(
            " !\"#$%&'()*+,-./0123456789:;<=>?@ABCDEFGHIJKLMNOPQRSTUVWXYZ[\\]^_`abcdefghijklmnopqrstuvwxyz{|}~",
        );
    }
    let mut s = String::new();
    let mut k: usize = 0;
    while k < bytes.len()
        invariant
            k <= bytes@.len(),
            s@ == text_of(bytes@.take(k as int)),
            table@.len() == 95,
            is_ascii(table),
            forall|i: int| 0 <= i < 95 ==> (#[trigger] table@[i]) as u32 == i + 0x20,
        decreases bytes@.len() - k,
    {
        let b = bytes[k];
        let ghost before = s@;
        if 0x20 <= b && b <= 0x7e {
            let i: usize = (b - 0x20) as usize;
            let piece = table.substring_ascii(i, i + 1);
            proof {
                assert(piece@ =~= seq![char_of(b)]);
            }
            s.append(piece);
        } else {
            proof {
                reveal_strlit("\u{fffd}");
                assert("\u{fffd}"@ =~= seq![char_of(b)]);
            }
            s.append("\u{fffd}");
        }
        proof {
            assert(s@ == before + seq![char_of(b)]);
            let now = bytes@.take(k + 1);
            assert(now =~= bytes@.take(k as int).push(b));
            assert forall|i: int| 0 <= i < now.len() implies s@[i] == text_of(now)[i] by {
                if i < k {
                    assert(s@[i] == before[i]);
                    assert(now[i] == bytes@.take(k as int)[i]);
                }
            }
            assert(s@ =~= text_of(now));
        }
        k += 1;
    }
    proof {
        assert(bytes@.take(k as int) =~= bytes@);
    }
    s
}

} // verus!

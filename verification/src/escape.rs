//! Escaping of character data and attribute values with the five predefined
//! entity references, and its inverse.

use vstd::prelude::*;
use crate::chars::{AMP, APOS, GT, LT, QUOT};

verus! {

/// `&lt;`
pub open spec fn ref_lt() -> Seq<u8> {
    seq![0x26u8, 0x6cu8, 0x74u8, 0x3bu8]
}

/// `&gt;`
pub open spec fn ref_gt() -> Seq<u8> {
    seq![0x26u8, 0x67u8, 0x74u8, 0x3bu8]
}

/// `&amp;`
pub open spec fn ref_amp() -> Seq<u8> {
    seq![0x26u8, 0x61u8, 0x6du8, 0x70u8, 0x3bu8]
}

/// `&quot;`
pub open spec fn ref_quot() -> Seq<u8> {
    seq![0x26u8, 0x71u8, 0x75u8, 0x6fu8, 0x74u8, 0x3bu8]
}

/// `&apos;`
pub open spec fn ref_apos() -> Seq<u8> {
    seq![0x26u8, 0x61u8, 0x70u8, 0x6fu8, 0x73u8, 0x3bu8]
}

/// How one byte of a value stands in a document: the five bytes that markup
/// uses as an entity reference, every other byte as itself.
pub open spec fn escape_byte(b: u8) -> Seq<u8> {
    if b == LT {
        ref_lt()
    } else if b == GT {
        ref_gt()
    } else if b == AMP {
        ref_amp()
    } else if b == QUOT {
        ref_quot()
    } else if b == APOS {
        ref_apos()
    } else {
        seq![b]
    }
}

/// How a value stands in a document: its bytes, escaped one by one.
pub open spec fn escape(v: Seq<u8>) -> Seq<u8>
    decreases v.len(),
{
    if v.len() == 0 {
        Seq::empty()
    } else {
        escape_byte(v[0]) + escape(v.skip(1))
    }
}

/// Whether `word` stands in `s` at position `i`, before position `j`.
pub open spec fn has_at(s: Seq<u8>, i: int, j: int, word: Seq<u8>) -> bool {
    i + word.len() <= j && s.subrange(i, i + word.len()) == word
}

/// The byte that the entity reference at `i` stands for, and the length of
/// the reference; `None` where no predefined reference stands at `i`.
pub open spec fn reference_at(s: Seq<u8>, i: int, j: int) -> Option<(u8, int)>
    recommends
        0 <= i <= j <= s.len(),
{
    if has_at(s, i, j, ref_lt()) {
        Some((LT, 4))
    } else if has_at(s, i, j, ref_gt()) {
        Some((GT, 4))
    } else if has_at(s, i, j, ref_amp()) {
        Some((AMP, 5))
    } else if has_at(s, i, j, ref_quot()) {
        Some((QUOT, 6))
    } else if has_at(s, i, j, ref_apos()) {
        Some((APOS, 6))
    } else {
        None
    }
}

/// The value that the bytes of `s` from `i` up to `j` stand for: each
/// predefined entity reference replaced by its byte, every other byte kept.
/// `None` where an `&` does not begin one of the five references.
pub open spec fn unescape(s: Seq<u8>, i: int, j: int) -> Option<Seq<u8>>
    recommends
        0 <= i <= j <= s.len(),
    decreases j - i,
{
    if i >= j {
        Some(Seq::empty())
    } else if s[i] == AMP {
        match reference_at(s, i, j) {
            None => None,
            Some((b, n)) => match unescape(s, i + n, j) {
                None => None,
                Some(rest) => Some(seq![b] + rest),
            },
        }
    } else {
        match unescape(s, i + 1, j) {
            None => None,
            Some(rest) => Some(seq![s[i]] + rest),
        }
    }
}

/// An escaped value holds none of `<`, `"` and `'`.
pub proof fn lemma_escape_is_plain(v: Seq<u8>)
    ensures
        forall|k: int|
            0 <= k < escape(v).len() ==> {
                let b = #[trigger] escape(v)[k];
                b != LT && b != QUOT && b != APOS
            },
    decreases v.len(),
{
    if v.len() > 0 {
        lemma_escape_is_plain(v.skip(1));
        let head = escape_byte(v[0]);
        let tail = escape(v.skip(1));
        assert forall|k: int| 0 <= k < escape(v).len() implies {
            let b = #[trigger] escape(v)[k];
            b != LT && b != QUOT && b != APOS
        } by {
            if k >= head.len() {
                assert(escape(v)[k] == tail[k - head.len()]);
            } else {
                assert(escape(v)[k] == head[k]);
            }
        }
    }
}

/// An escaped value is empty only where the value is.
pub proof fn lemma_escape_len(v: Seq<u8>)
    ensures
        escape(v).len() >= v.len(),
    decreases v.len(),
{
    if v.len() > 0 {
        lemma_escape_len(v.skip(1));
    }
}

/// Unescaping undoes escaping, wherever in a document the escaped value
/// stands.
pub proof fn lemma_unescape_escape(s: Seq<u8>, i: int, j: int, v: Seq<u8>)
    requires
        0 <= i <= j <= s.len(),
        s.subrange(i, j) == escape(v),
    ensures
        unescape(s, i, j) == Some(v),
    decreases v.len(),
{
    if v.len() == 0 {
        assert(s.subrange(i, j).len() == 0);
    } else {
        let head = escape_byte(v[0]);
        let n = head.len() as int;
        let tail = escape(v.skip(1));
        assert(s.subrange(i, j) == head + tail);
        assert(s.subrange(i, j).len() == n + tail.len());
        assert(s.subrange(i, i + n) =~= head) by {
            assert forall|k: int| 0 <= k < n implies s.subrange(i, i + n)[k] == head[k] by {
                assert(s.subrange(i, j)[k] == (head + tail)[k]);
            }
        }
        assert(s.subrange(i + n, j) =~= tail) by {
            assert forall|k: int| 0 <= k < tail.len() implies s.subrange(i + n, j)[k]
                == tail[k] by {
                assert(s.subrange(i, j)[n + k] == (head + tail)[n + k]);
            }
        }
        lemma_unescape_escape(s, i + n, j, v.skip(1));
        assert(s[i] == s.subrange(i, i + n)[0]);
        let b = v[0];
        if b == LT || b == GT || b == AMP || b == QUOT || b == APOS {
            assert(has_at(s, i, j, head));
            assert(s.subrange(i, i + n)[1] == s[i + 1]);
            assert(s.subrange(i, i + n)[2] == s[i + 2]);
            assert(s.subrange(i, i + 4)[1] == s[i + 1]);
            if i + 5 <= j {
                assert(s.subrange(i, i + 5)[1] == s[i + 1]);
                assert(s.subrange(i, i + 5)[2] == s[i + 2]);
            }
            if i + 6 <= j {
                assert(s.subrange(i, i + 6)[1] == s[i + 1]);
                assert(s.subrange(i, i + 6)[2] == s[i + 2]);
            }
            assert(reference_at(s, i, j) == Some((b, n)));
        }
        assert(seq![b] + v.skip(1) =~= v);
    }
}

/// `rest` with `pre` put before it, where there is a `rest`.
pub open spec fn prepend(pre: Seq<u8>, rest: Option<Seq<u8>>) -> Option<Seq<u8>> {
    match rest {
        None => None,
        Some(r) => Some(pre + r),
    }
}

/// Whether `word` stands in `input` at `i`, before `j`.
pub fn word_at(input: &[u8], i: usize, j: usize, word: &[u8]) -> (r: bool)
    requires
        i <= j <= input@.len(),
    ensures
        r == has_at(input@, i as int, j as int, word@),
{
    if word.len() > j - i {
        return false;
    }
    let mut k: usize = 0;
    while k < word.len()
        invariant
            k <= word@.len(),
            i + word@.len() <= j <= input@.len(),
            forall|m: int| 0 <= m < k ==> input@[i + m] == word@[m],
        decreases word@.len() - k,
    {
        if input[i + k] != word[k] {
            proof {
                assert(input@.subrange(i as int, i + word@.len())[k as int] == input@[i + k]);
            }
            return false;
        }
        k += 1;
    }
    proof {
        assert(input@.subrange(i as int, i + word@.len()) =~= word@);
    }
    true
}

/// Reads the entity reference at `i`: the byte it stands for and its length.
pub fn read_reference(input: &[u8], i: usize, j: usize) -> (r: Option<(u8, usize)>)
    requires
        i <= j <= input@.len(),
    ensures
        match r {
            None => reference_at(input@, i as int, j as int) is None,
            Some((b, n)) => reference_at(input@, i as int, j as int) == Some((b, n as int)) && 4
                <= n && i + n <= j,
        },
{
    let lt: [u8; 4] = [0x26, 0x6c, 0x74, 0x3b];
    let gt: [u8; 4] = [0x26, 0x67, 0x74, 0x3b];
    let amp: [u8; 5] = [0x26, 0x61, 0x6d, 0x70, 0x3b];
    let quot: [u8; 6] = [0x26, 0x71, 0x75, 0x6f, 0x74, 0x3b];
    let apos: [u8; 6] = [0x26, 0x61, 0x70, 0x6f, 0x73, 0x3b];
    proof {
        assert(lt@ =~= ref_lt());
        assert(gt@ =~= ref_gt());
        assert(amp@ =~= ref_amp());
        assert(quot@ =~= ref_quot());
        assert(apos@ =~= ref_apos());
    }
    if word_at(input, i, j, lt.as_slice()) {
        Some((LT, 4))
    } else if word_at(input, i, j, gt.as_slice()) {
        Some((GT, 4))
    } else if word_at(input, i, j, amp.as_slice()) {
        Some((AMP, 5))
    } else if word_at(input, i, j, quot.as_slice()) {
        Some((QUOT, 6))
    } else if word_at(input, i, j, apos.as_slice()) {
        Some((APOS, 6))
    } else {
        None
    }
}

/// Reads the value that stands escaped in `input` from `i` up to `j`.
pub fn unescape_range(input: &[u8], i: usize, j: usize) -> (r: Option<Vec<u8>>)
    requires
        i <= j <= input@.len(),
    ensures
        match r {
            None => unescape(input@, i as int, j as int) is None,
            Some(v) => unescape(input@, i as int, j as int) == Some(v@),
        },
{
    let mut out: Vec<u8> = Vec::new();
    let mut k: usize = i;
    while k < j
        invariant
            i <= k <= j <= input@.len(),
            unescape(input@, i as int, j as int) == prepend(
                out@,
                unescape(input@, k as int, j as int),
            ),
        decreases j - k,
    {
        let ghost before = out@;
        if input[k] == AMP {
            match read_reference(input, k, j) {
                None => {
                    return None;
                },
                Some((b, n)) => {
                    out.push(b);
                    proof {
                        if let Some(rest) = unescape(input@, k + n, j as int) {
                            assert(before + (seq![b] + rest) =~= before.push(b) + rest);
                        }
                    }
                    k += n;
                },
            }
        } else {
            let b = input[k];
            out.push(b);
            proof {
                if let Some(rest) = unescape(input@, k + 1, j as int) {
                    assert(before + (seq![b] + rest) =~= before.push(b) + rest);
                }
            }
            k += 1;
        }
    }
    proof {
        assert(out@ + Seq::<u8>::empty() =~= out@);
    }
    Some(out)
}

/// Appends one byte to `out` as it stands in a document.
pub fn push_escaped_byte(out: &mut Vec<u8>, b: u8)
    ensures
        final(out)@ == old(out)@ + escape_byte(b),
{
    let ghost before = out@;
    if b == LT {
        out.push(0x26);
        out.push(0x6c);
        out.push(0x74);
        out.push(0x3b);
    } else if b == GT {
        out.push(0x26);
        out.push(0x67);
        out.push(0x74);
        out.push(0x3b);
    } else if b == AMP {
        out.push(0x26);
        out.push(0x61);
        out.push(0x6d);
        out.push(0x70);
        out.push(0x3b);
    } else if b == QUOT {
        out.push(0x26);
        out.push(0x71);
        out.push(0x75);
        out.push(0x6f);
        out.push(0x74);
        out.push(0x3b);
    } else if b == APOS {
        out.push(0x26);
        out.push(0x61);
        out.push(0x70);
        out.push(0x6f);
        out.push(0x73);
        out.push(0x3b);
    } else {
        out.push(b);
    }
    proof {
        assert(out@ =~= before + escape_byte(b));
    }
}

/// Appends `v` to `out` as it stands in a document.
pub fn push_escaped(out: &mut Vec<u8>, v: &[u8])
    ensures
        final(out)@ == old(out)@ + escape(v@),
{
    let mut k: usize = 0;
    proof {
        assert(v@.skip(0) =~= v@);
    }
    while k < v.len()
        invariant
            k <= v@.len(),
            out@ + escape(v@.skip(k as int)) == old(out)@ + escape(v@),
        decreases v@.len() - k,
    {
        let ghost before = out@;
        push_escaped_byte(out, v[k]);
        proof {
            let rest = v@.skip(k as int);
            assert(rest.skip(1) =~= v@.skip(k + 1));
            assert(rest[0] == v@[k as int]);
            assert((before + escape_byte(rest[0])) + escape(rest.skip(1)) =~= before + escape(
                rest,
            ));
        }
        k += 1;
    }
    proof {
        assert(escape(v@.skip(k as int)) =~= Seq::<u8>::empty());
        assert(out@ + Seq::<u8>::empty() =~= out@);
    }
}

} // verus!

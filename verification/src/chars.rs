//! Byte classes of the XML subset that the publication protocol uses, and
//! the scan that finds where a run of bytes of one class ends.

use vstd::prelude::*;

verus! {

/// `<`
pub const LT: u8 = 0x3c;
/// `>`
pub const GT: u8 = 0x3e;
/// `/`
pub const SLASH: u8 = 0x2f;
/// `=`
pub const EQUALS: u8 = 0x3d;
/// `&`
pub const AMP: u8 = 0x26;
/// `"`
pub const QUOT: u8 = 0x22;
/// `'`
pub const APOS: u8 = 0x27;
/// The space.
pub const SPACE: u8 = 0x20;

/// The classes of bytes that the reader scans runs of.
#[derive(Clone, Copy, Debug)]
pub enum ByteClass {
    /// Space, tab, line feed, carriage return.
    Space,
    /// A byte that may continue a name.
    Name,
    /// Character data: anything but `<`.
    Text,
    /// Inside a quoted attribute value: anything but the quote and `<`.
    Quoted(u8),
    /// A hexadecimal digit.
    Hex,
    /// A byte of base64 text: a letter, a digit, `+`, `/`, `=`, or
    /// whitespace.
    Base64,
    /// A visible ASCII character: `!` to `~`.
    Visible,
}

/// Whitespace between markup: space, tab, line feed, carriage return.
pub open spec fn spec_is_space(b: u8) -> bool {
    b == 0x20 || b == 0x09 || b == 0x0a || b == 0x0d
}

/// A byte that may begin a name: an ASCII letter, `_` or `:`.
pub open spec fn spec_is_name_start(b: u8) -> bool {
    (0x41 <= b <= 0x5a) || (0x61 <= b <= 0x7a) || b == 0x5f || b == 0x3a
}

/// A byte that may continue a name: a name start, a digit, `-` or `.`.
pub open spec fn spec_is_name_byte(b: u8) -> bool {
    spec_is_name_start(b) || (0x30 <= b <= 0x39) || b == 0x2d || b == 0x2e
}

/// A digit, or a letter from `a` to `f` in either case.
pub open spec fn spec_is_hex(b: u8) -> bool {
    (0x30 <= b <= 0x39) || (0x41 <= b <= 0x46) || (0x61 <= b <= 0x66)
}

/// A letter, a digit, `+`, `/`, `=`, or whitespace.
pub open spec fn spec_is_base64(b: u8) -> bool {
    (0x30 <= b <= 0x39) || (0x41 <= b <= 0x5a) || (0x61 <= b <= 0x7a) || b == 0x2b || b == 0x2f
        || b == 0x3d || spec_is_space(b)
}

/// Whether `b` belongs to `class`.
pub open spec fn spec_in_class(class: ByteClass, b: u8) -> bool {
    match class {
        ByteClass::Space => spec_is_space(b),
        ByteClass::Name => spec_is_name_byte(b),
        ByteClass::Text => b != LT,
        ByteClass::Quoted(q) => b != q && b != LT,
        ByteClass::Hex => spec_is_hex(b),
        ByteClass::Base64 => spec_is_base64(b),
        ByteClass::Visible => 0x21 <= b <= 0x7e,
    }
}

/// Whether every byte of `s` belongs to `class`.
pub open spec fn spec_all_of(s: Seq<u8>, class: ByteClass) -> bool {
    forall|k: int| 0 <= k < s.len() ==> spec_in_class(class, #[trigger] s[k])
}

/// Whether `b` is whitespace.
#[verifier::when_used_as_spec(spec_is_space)]
pub fn is_space(b: u8) -> (r: bool)
    ensures
        r == spec_is_space(b),
{
    b == 0x20 || b == 0x09 || b == 0x0a || b == 0x0d
}

/// Whether `b` may begin a name.
#[verifier::when_used_as_spec(spec_is_name_start)]
pub fn is_name_start(b: u8) -> (r: bool)
    ensures
        r == spec_is_name_start(b),
{
    (0x41 <= b && b <= 0x5a) || (0x61 <= b && b <= 0x7a) || b == 0x5f || b == 0x3a
}

/// Whether `b` may continue a name.
#[verifier::when_used_as_spec(spec_is_name_byte)]
pub fn is_name_byte(b: u8) -> (r: bool)
    ensures
        r == spec_is_name_byte(b),
{
    is_name_start(b) || (0x30 <= b && b <= 0x39) || b == 0x2d || b == 0x2e
}

/// Whether `b` belongs to `class`.
#[verifier::when_used_as_spec(spec_in_class)]
pub fn in_class(class: ByteClass, b: u8) -> (r: bool)
    ensures
        r == spec_in_class(class, b),
{
    match class {
        ByteClass::Space => is_space(b),
        ByteClass::Name => is_name_byte(b),
        ByteClass::Text => b != LT,
        ByteClass::Quoted(q) => b != q && b != LT,
        ByteClass::Hex => (0x30 <= b && b <= 0x39) || (0x41 <= b && b <= 0x46) || (0x61 <= b && b
            <= 0x66),
        ByteClass::Base64 => (0x30 <= b && b <= 0x39) || (0x41 <= b && b <= 0x5a) || (0x61 <= b
            && b <= 0x7a) || b == 0x2b || b == 0x2f || b == 0x3d || is_space(b),
        ByteClass::Visible => 0x21 <= b && b <= 0x7e,
    }
}

/// The first position at or after `i` whose byte is not in `class`, or the
/// length of `s` where every byte from `i` on is.
pub open spec fn run_end(s: Seq<u8>, i: int, class: ByteClass) -> int
    decreases s.len() - i,
{
    if 0 <= i < s.len() && spec_in_class(class, s[i]) {
        run_end(s, i + 1, class)
    } else {
        i
    }
}

/// `run_end` stops inside the input, on the first byte outside the class,
/// and everything it passed is in the class.
pub proof fn lemma_run_end_bounds(s: Seq<u8>, i: int, class: ByteClass)
    requires
        0 <= i <= s.len(),
    ensures
        i <= run_end(s, i, class) <= s.len(),
        forall|k: int| i <= k < run_end(s, i, class) ==> spec_in_class(class, #[trigger] s[k]),
        run_end(s, i, class) < s.len() ==> !spec_in_class(class, s[run_end(s, i, class)]),
    decreases s.len() - i,
{
    if i < s.len() && spec_in_class(class, s[i]) {
        lemma_run_end_bounds(s, i + 1, class);
    }
}

/// A stretch of bytes of the class that is followed by a byte outside it, or
/// by the end of the input, is exactly what `run_end` passes.
pub proof fn lemma_run_end_is(s: Seq<u8>, i: int, j: int, class: ByteClass)
    requires
        0 <= i <= j <= s.len(),
        forall|k: int| i <= k < j ==> spec_in_class(class, #[trigger] s[k]),
        j < s.len() ==> !spec_in_class(class, s[j]),
    ensures
        run_end(s, i, class) == j,
    decreases j - i,
{
    if i < j {
        lemma_run_end_is(s, i + 1, j, class);
    }
}

/// Scans from `pos` to the end of the run of bytes of `class`.
pub fn scan(input: &[u8], pos: usize, class: ByteClass) -> (end: usize)
    requires
        pos <= input@.len(),
    ensures
        end == run_end(input@, pos as int, class),
        pos <= end <= input@.len(),
{
    let mut i: usize = pos;
    while i < input.len() && in_class(class, input[i])
        invariant
            pos <= i <= input@.len(),
            run_end(input@, pos as int, class) == run_end(input@, i as int, class),
        decreases input@.len() - i,
    {
        i += 1;
    }
    i
}

/// Whether every byte of `input` belongs to `class`.
pub fn all_of(input: &[u8], class: ByteClass) -> (r: bool)
    ensures
        r == spec_all_of(input@, class),
{
    proof {
        lemma_run_end_bounds(input@, 0, class);
        if spec_all_of(input@, class) {
            lemma_run_end_is(input@, 0, input@.len() as int, class);
        }
    }
    scan(input, 0, class) == input.len()
}

} // verus!

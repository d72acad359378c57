//! The tokens of a document: start tags with their attributes, end tags and
//! character data, and what sequence of tokens a sequence of bytes holds.

use vstd::prelude::*;
use crate::chars::{
    lemma_run_end_bounds, run_end, spec_is_name_start, ByteClass, APOS, EQUALS, GT, LT, QUOT, SLASH,
};
use crate::escape::{has_at, unescape};

verus! {

/// Why a sequence of bytes is not a document that the reader understands.
#[derive(Clone, Copy, Debug, PartialEq, Eq)]
pub enum XmlError {
    /// The input ends inside a tag, a comment or a processing instruction.
    UnexpectedEof,
    /// A name is due and the byte there cannot begin one.
    InvalidName,
    /// A byte inside a tag that cannot stand there.
    InvalidTag,
    /// An attribute without `=`, without a quoted value, or with `<` in it.
    InvalidAttribute,
    /// An `&` that does not begin one of the five predefined references.
    InvalidReference,
    /// Something other than the end tag that is due.
    ExpectedEnd,
    /// Something follows the end tag of the root element.
    TrailingContent,
}

/// One attribute of a start tag; the value is stored unescaped.
#[derive(Clone, Debug, PartialEq, Eq)]
pub struct Attribute {
    pub name: Vec<u8>,
    pub value: Vec<u8>,
}

/// What an attribute holds.
pub struct AttributeView {
    pub name: Seq<u8>,
    pub value: Seq<u8>,
}

impl DeepView for Attribute {
    type V = AttributeView;

    open spec fn deep_view(&self) -> AttributeView {
        AttributeView { name: self.name@, value: self.value@ }
    }
}

/// One token of a document. A start tag that ends in `/>` is `empty`: no
/// end tag follows it. Character data is stored unescaped.
#[derive(Clone, Debug, PartialEq, Eq)]
pub enum Token {
    Start { name: Vec<u8>, attributes: Vec<Attribute>, empty: bool },
    End { name: Vec<u8> },
    Text { content: Vec<u8> },
}

/// What a token holds.
pub enum TokenView {
    Start { name: Seq<u8>, attributes: Seq<AttributeView>, empty: bool },
    End { name: Seq<u8> },
    Text { content: Seq<u8> },
}

impl DeepView for Token {
    type V = TokenView;

    open spec fn deep_view(&self) -> TokenView {
        match self {
            Token::Start { name, attributes, empty } => TokenView::Start {
                name: name@,
                attributes: attributes.deep_view(),
                empty: *empty,
            },
            Token::End { name } => TokenView::End { name: name@ },
            Token::Text { content } => TokenView::Text { content: content@ },
        }
    }
}

/// Where the name that begins at `i` ends; `i` itself where none begins
/// there.
pub open spec fn name_end(s: Seq<u8>, i: int) -> int {
    if 0 <= i < s.len() && spec_is_name_start(s[i]) {
        run_end(s, i + 1, ByteClass::Name)
    } else {
        i
    }
}

/// The error for a name that is due at `i` and does not begin there.
pub open spec fn no_name_at(s: Seq<u8>, i: int) -> XmlError {
    if i >= s.len() {
        XmlError::UnexpectedEof
    } else {
        XmlError::InvalidName
    }
}

/// The attribute that begins at `i`, and the position after its closing
/// quote: a name, `=`, and a value in double or single quotes, with optional
/// whitespace around the `=`.
pub open spec fn attribute_at(s: Seq<u8>, i: int) -> Result<(AttributeView, int), XmlError> {
    let n = name_end(s, i);
    let e = run_end(s, n, ByteClass::Space);
    let q = run_end(s, e + 1, ByteClass::Space);
    if n == i {
        Err(no_name_at(s, i))
    } else if e >= s.len() {
        Err(XmlError::UnexpectedEof)
    } else if s[e] != EQUALS {
        Err(XmlError::InvalidAttribute)
    } else if q >= s.len() {
        Err(XmlError::UnexpectedEof)
    } else if s[q] != QUOT && s[q] != APOS {
        Err(XmlError::InvalidAttribute)
    } else {
        let v = run_end(s, q + 1, ByteClass::Quoted(s[q]));
        if v >= s.len() {
            Err(XmlError::UnexpectedEof)
        } else if s[v] != s[q] {
            Err(XmlError::InvalidAttribute)
        } else {
            match unescape(s, q + 1, v) {
                None => Err(XmlError::InvalidReference),
                Some(value) => Ok((AttributeView { name: s.subrange(i, n), value }, v + 1)),
            }
        }
    }
}

/// An attribute ends after it began, inside the input.
pub proof fn lemma_attribute_at_bounds(s: Seq<u8>, i: int)
    requires
        0 <= i <= s.len(),
    ensures
        attribute_at(s, i) matches Ok((_, j)) ==> i < j <= s.len(),
{
    let n = name_end(s, i);
    if n != i {
        lemma_run_end_bounds(s, i + 1, ByteClass::Name);
        lemma_run_end_bounds(s, n, ByteClass::Space);
        let e = run_end(s, n, ByteClass::Space);
        if e < s.len() {
            lemma_run_end_bounds(s, e + 1, ByteClass::Space);
            let q = run_end(s, e + 1, ByteClass::Space);
            if q < s.len() {
                lemma_run_end_bounds(s, q + 1, ByteClass::Quoted(s[q]));
            }
        }
    }
}

/// The attributes of the tag whose name ends at `i`, and the position of
/// the `>` or `/` that follows them. Whitespace stands before each
/// attribute, and may stand after the last.
pub open spec fn attributes_at(s: Seq<u8>, i: int) -> Result<(Seq<AttributeView>, int), XmlError>
    decreases s.len() - i,
    when 0 <= i
{
    let k = run_end(s, i, ByteClass::Space);
    if k >= s.len() {
        Err(XmlError::UnexpectedEof)
    } else if s[k] == GT || s[k] == SLASH {
        Ok((Seq::empty(), k))
    } else if k == i {
        Err(XmlError::InvalidTag)
    } else {
        match attribute_at(s, k) {
            Err(e) => Err(e),
            Ok((a, j)) => {
                proof {
                    lemma_run_end_bounds(s, i, ByteClass::Space);
                    lemma_attribute_at_bounds(s, k);
                }
                match attributes_at(s, j) {
                    Err(e) => Err(e),
                    Ok((rest, end)) => Ok((seq![a] + rest, end)),
                }
            },
        }
    }
}

/// The attributes end inside the input, on a `>` or a `/`.
pub proof fn lemma_attributes_at_bounds(s: Seq<u8>, i: int)
    requires
        0 <= i <= s.len(),
    ensures
        attributes_at(s, i) matches Ok((_, k)) ==> i <= k < s.len() && (s[k] == GT || s[k]
            == SLASH),
    decreases s.len() - i,
{
    lemma_run_end_bounds(s, i, ByteClass::Space);
    let k = run_end(s, i, ByteClass::Space);
    if k < s.len() && !(s[k] == GT || s[k] == SLASH) && k != i {
        lemma_attribute_at_bounds(s, k);
        if let Ok((a, j)) = attribute_at(s, k) {
            lemma_attributes_at_bounds(s, j);
        }
    }
}

/// The token that begins at `i`, and the position after it.
pub open spec fn token_at(s: Seq<u8>, i: int) -> Result<(TokenView, int), XmlError>
    recommends
        0 <= i < s.len(),
{
    if s[i] != LT {
        let j = run_end(s, i, ByteClass::Text);
        match unescape(s, i, j) {
            None => Err(XmlError::InvalidReference),
            Some(content) => Ok((TokenView::Text { content }, j)),
        }
    } else if i + 1 < s.len() && s[i + 1] == SLASH {
        let n = name_end(s, i + 2);
        let k = run_end(s, n, ByteClass::Space);
        if n == i + 2 {
            Err(no_name_at(s, i + 2))
        } else if k >= s.len() {
            Err(XmlError::UnexpectedEof)
        } else if s[k] != GT {
            Err(XmlError::InvalidTag)
        } else {
            Ok((TokenView::End { name: s.subrange(i + 2, n) }, k + 1))
        }
    } else {
        let n = name_end(s, i + 1);
        if n == i + 1 {
            Err(no_name_at(s, i + 1))
        } else {
            match attributes_at(s, n) {
                Err(e) => Err(e),
                Ok((attributes, k)) => {
                    let name = s.subrange(i + 1, n);
                    if s[k] == GT {
                        Ok((TokenView::Start { name, attributes, empty: false }, k + 1))
                    } else if k + 1 >= s.len() {
                        Err(XmlError::UnexpectedEof)
                    } else if s[k + 1] != GT {
                        Err(XmlError::InvalidTag)
                    } else {
                        Ok((TokenView::Start { name, attributes, empty: true }, k + 2))
                    }
                },
            }
        }
    }
}

/// A token ends after it began, inside the input.
pub proof fn lemma_token_at_bounds(s: Seq<u8>, i: int)
    requires
        0 <= i < s.len(),
    ensures
        token_at(s, i) matches Ok((_, j)) ==> i < j <= s.len(),
{
    if s[i] != LT {
        lemma_run_end_bounds(s, i, ByteClass::Text);
    } else if i + 1 < s.len() && s[i + 1] == SLASH {
        let n = name_end(s, i + 2);
        if n != i + 2 {
            lemma_run_end_bounds(s, i + 3, ByteClass::Name);
            lemma_run_end_bounds(s, n, ByteClass::Space);
        }
    } else {
        let n = name_end(s, i + 1);
        if n != i + 1 {
            lemma_run_end_bounds(s, i + 2, ByteClass::Name);
            lemma_attributes_at_bounds(s, n);
        }
    }
}

/// `<?`, which begins a processing instruction or the XML declaration.
pub open spec fn instruction_open() -> Seq<u8> {
    seq![0x3cu8, 0x3fu8]
}

/// `?>`, which ends a processing instruction or the XML declaration.
pub open spec fn instruction_close() -> Seq<u8> {
    seq![0x3fu8, 0x3eu8]
}

/// `<!--`, which begins a comment.
pub open spec fn comment_open() -> Seq<u8> {
    seq![0x3cu8, 0x21u8, 0x2du8, 0x2du8]
}

/// `-->`, which ends a comment.
pub open spec fn comment_close() -> Seq<u8> {
    seq![0x2du8, 0x2du8, 0x3eu8]
}

/// The first position at or after `i` at which `word` stands; the length
/// of `s` where it stands nowhere from `i` on.
pub open spec fn find_word(s: Seq<u8>, i: int, word: Seq<u8>) -> int
    decreases s.len() - i,
{
    if 0 <= i < s.len() && i + word.len() <= s.len() {
        if has_at(s, i, s.len() as int, word) {
            i
        } else {
            find_word(s, i + 1, word)
        }
    } else {
        s.len() as int
    }
}

/// What is passed over from `from` on: everything up to and with the first
/// `close`. An error where there is no `close`.
pub open spec fn passed_to(s: Seq<u8>, from: int, close: Seq<u8>) -> Result<int, XmlError> {
    let k = find_word(s, from, close);
    if k >= s.len() {
        Err(XmlError::UnexpectedEof)
    } else {
        Ok(k + close.len())
    }
}

/// The position after the comment, the processing instruction or the XML
/// declaration that begins at `i`; `None` where none begins there. The
/// reader passes these over: they yield no token.
pub open spec fn aside_at(s: Seq<u8>, i: int) -> Option<Result<int, XmlError>> {
    if has_at(s, i, s.len() as int, instruction_open()) {
        Some(passed_to(s, i + 2, instruction_close()))
    } else if has_at(s, i, s.len() as int, comment_open()) {
        Some(passed_to(s, i + 4, comment_close()))
    } else {
        None
    }
}

/// `find_word` stops at or after where it began, inside the input, and
/// where it stops before the end the word stands.
pub proof fn lemma_find_word_bounds(s: Seq<u8>, i: int, word: Seq<u8>)
    requires
        0 <= i <= s.len(),
    ensures
        i <= find_word(s, i, word) <= s.len(),
        find_word(s, i, word) < s.len() ==> find_word(s, i, word) + word.len() <= s.len(),
    decreases s.len() - i,
{
    if i < s.len() && i + word.len() <= s.len() && !has_at(s, i, s.len() as int, word) {
        lemma_find_word_bounds(s, i + 1, word);
    }
}

/// What is passed over ends after it began, inside the input.
pub proof fn lemma_aside_at_bounds(s: Seq<u8>, i: int)
    requires
        0 <= i < s.len(),
    ensures
        aside_at(s, i) matches Some(Ok(j)) ==> i < j <= s.len(),
{
    if has_at(s, i, s.len() as int, instruction_open()) {
        lemma_find_word_bounds(s, i + 2, instruction_close());
    } else if has_at(s, i, s.len() as int, comment_open()) {
        lemma_find_word_bounds(s, i + 4, comment_close());
    }
}

/// The tokens that `s` holds from `i` to its end, comments and processing
/// instructions passed over.
pub open spec fn tokens_at(s: Seq<u8>, i: int) -> Result<Seq<TokenView>, XmlError>
    decreases s.len() - i,
    when 0 <= i
{
    if i >= s.len() {
        Ok(Seq::empty())
    } else {
        match aside_at(s, i) {
            Some(Err(e)) => Err(e),
            Some(Ok(j)) => {
                proof {
                    lemma_aside_at_bounds(s, i);
                }
                tokens_at(s, j)
            },
            None => match token_at(s, i) {
                Err(e) => Err(e),
                Ok((t, j)) => {
                    proof {
                        lemma_token_at_bounds(s, i);
                    }
                    match tokens_at(s, j) {
                        Err(e) => Err(e),
                        Ok(rest) => Ok(seq![t] + rest),
                    }
                },
            },
        }
    }
}

/// The tokens that a document holds.
pub open spec fn tokenize(s: Seq<u8>) -> Result<Seq<TokenView>, XmlError> {
    tokens_at(s, 0)
}

} // verus!

//! Reading the tokens of a document from its bytes.

use vstd::prelude::*;
use vstd::slice::{slice_subrange, slice_to_vec};
use crate::canonical::{each_well_formed, lemma_tokenize_well_formed};
use crate::chars::{is_name_start, scan, ByteClass, APOS, EQUALS, GT, LT, QUOT, SLASH};
use crate::escape::{unescape_range, word_at};
use crate::token::{
    aside_at, attribute_at, attributes_at, comment_close, comment_open, find_word,
    instruction_close, instruction_open, lemma_aside_at_bounds, lemma_find_word_bounds,
    lemma_token_at_bounds, name_end, no_name_at, passed_to, token_at, tokenize, tokens_at,
    Attribute, AttributeView, Token, TokenView, XmlError,
};

verus! {

/// `found` with `pre` put before the attributes it holds.
pub open spec fn after_attributes(
    pre: Seq<AttributeView>,
    found: Result<(Seq<AttributeView>, int), XmlError>,
) -> Result<(Seq<AttributeView>, int), XmlError> {
    match found {
        Err(e) => Err(e),
        Ok((rest, end)) => Ok((pre + rest, end)),
    }
}

/// `found` with `pre` put before the tokens it holds.
pub open spec fn after_tokens(
    pre: Seq<TokenView>,
    found: Result<Seq<TokenView>, XmlError>,
) -> Result<Seq<TokenView>, XmlError> {
    match found {
        Err(e) => Err(e),
        Ok(rest) => Ok(pre + rest),
    }
}

/// Finds where the name that begins at `i` ends.
pub fn read_name_end(input: &[u8], i: usize) -> (n: usize)
    requires
        i <= input@.len(),
    ensures
        n == name_end(input@, i as int),
        i <= n <= input@.len(),
{
    if i < input.len() && is_name_start(input[i]) {
        scan(input, i + 1, ByteClass::Name)
    } else {
        i
    }
}

/// The error for a name that is due at `i` and does not begin there.
pub fn name_error(input: &[u8], i: usize) -> (e: XmlError)
    ensures
        e == no_name_at(input@, i as int),
{
    if i >= input.len() {
        XmlError::UnexpectedEof
    } else {
        XmlError::InvalidName
    }
}

/// Copies the bytes of `input` from `i` up to `j`.
pub fn copy_range(input: &[u8], i: usize, j: usize) -> (v: Vec<u8>)
    requires
        i <= j <= input@.len(),
    ensures
        v@ == input@.subrange(i as int, j as int),
{
    slice_to_vec(slice_subrange(input, i, j))
}

/// Reads the attribute that begins at `i`.
pub fn read_attribute(input: &[u8], i: usize) -> (r: Result<(Attribute, usize), XmlError>)
    requires
        i <= input@.len(),
    ensures
        match r {
            Ok((a, j)) => attribute_at(input@, i as int) == Ok::<(AttributeView, int), XmlError>(
                (a.deep_view(), j as int),
            ) && i < j <= input@.len(),
            Err(e) => attribute_at(input@, i as int) == Err::<(AttributeView, int), XmlError>(e),
        },
{
    let n = read_name_end(input, i);
    if n == i {
        return Err(name_error(input, i));
    }
    let e = scan(input, n, ByteClass::Space);
    if e >= input.len() {
        return Err(XmlError::UnexpectedEof);
    }
    if input[e] != EQUALS {
        return Err(XmlError::InvalidAttribute);
    }
    let q = scan(input, e + 1, ByteClass::Space);
    if q >= input.len() {
        return Err(XmlError::UnexpectedEof);
    }
    let quote = input[q];
    if quote != QUOT && quote != APOS {
        return Err(XmlError::InvalidAttribute);
    }
    let v = scan(input, q + 1, ByteClass::Quoted(quote));
    if v >= input.len() {
        return Err(XmlError::UnexpectedEof);
    }
    if input[v] != quote {
        return Err(XmlError::InvalidAttribute);
    }
    match unescape_range(input, q + 1, v) {
        None => Err(XmlError::InvalidReference),
        Some(value) => {
            let name = copy_range(input, i, n);
            Ok((Attribute { name, value }, v + 1))
        },
    }
}

/// Reads the attributes of the tag whose name ends at `start`, up to the
/// `>` or `/` that follows them.
pub fn read_attributes(input: &[u8], start: usize) -> (r: Result<(Vec<Attribute>, usize), XmlError>)
    requires
        start <= input@.len(),
    ensures
        match r {
            Ok((attrs, k)) => attributes_at(input@, start as int) == Ok::<
                (Seq<AttributeView>, int),
                XmlError,
            >((attrs.deep_view(), k as int)) && start <= k < input@.len() && (input@[k as int]
                == GT || input@[k as int] == SLASH),
            Err(e) => attributes_at(input@, start as int) == Err::<
                (Seq<AttributeView>, int),
                XmlError,
            >(e),
        },
{
    let mut attrs: Vec<Attribute> = Vec::new();
    let mut pos: usize = start;
    proof {
        assert(attrs.deep_view() =~= Seq::empty());
        match attributes_at(input@, pos as int) {
            Ok((rest, end)) => {
                assert(Seq::<AttributeView>::empty() + rest =~= rest);
            },
            Err(e) => {},
        }
    }
    loop
        invariant
            start <= pos <= input@.len(),
            attributes_at(input@, start as int) == after_attributes(
                attrs.deep_view(),
                attributes_at(input@, pos as int),
            ),
        decreases input@.len() - pos,
    {
        let k = scan(input, pos, ByteClass::Space);
        if k >= input.len() {
            return Err(XmlError::UnexpectedEof);
        }
        let b = input[k];
        if b == GT || b == SLASH {
            proof {
                assert(attrs.deep_view() + Seq::<AttributeView>::empty() =~= attrs.deep_view());
            }
            return Ok((attrs, k));
        }
        if k == pos {
            return Err(XmlError::InvalidTag);
        }
        match read_attribute(input, k) {
            Err(e) => {
                return Err(e);
            },
            Ok((a, j)) => {
                let ghost before = attrs.deep_view();
                let ghost av = a.deep_view();
                attrs.push(a);
                proof {
                    assert(attrs.deep_view() =~= before.push(av));
                    match attributes_at(input@, j as int) {
                        Ok((rest, end)) => {
                            assert(before + (seq![av] + rest) =~= before.push(av) + rest);
                        },
                        Err(e) => {},
                    }
                }
                pos = j;
            },
        }
    }
}

/// Reads the token that begins at `i`.
pub fn read_token(input: &[u8], i: usize) -> (r: Result<(Token, usize), XmlError>)
    requires
        i < input@.len(),
    ensures
        match r {
            Ok((t, j)) => token_at(input@, i as int) == Ok::<(TokenView, int), XmlError>(
                (t.deep_view(), j as int),
            ) && i < j <= input@.len(),
            Err(e) => token_at(input@, i as int) == Err::<(TokenView, int), XmlError>(e),
        },
{
    proof {
        lemma_token_at_bounds(input@, i as int);
    }
    if input[i] != LT {
        let j = scan(input, i, ByteClass::Text);
        match unescape_range(input, i, j) {
            None => Err(XmlError::InvalidReference),
            Some(content) => Ok((Token::Text { content }, j)),
        }
    } else if i + 1 < input.len() && input[i + 1] == SLASH {
        let n = read_name_end(input, i + 2);
        if n == i + 2 {
            return Err(name_error(input, i + 2));
        }
        let k = scan(input, n, ByteClass::Space);
        if k >= input.len() {
            return Err(XmlError::UnexpectedEof);
        }
        if input[k] != GT {
            return Err(XmlError::InvalidTag);
        }
        let name = copy_range(input, i + 2, n);
        Ok((Token::End { name }, k + 1))
    } else {
        let n = read_name_end(input, i + 1);
        if n == i + 1 {
            return Err(name_error(input, i + 1));
        }
        match read_attributes(input, n) {
            Err(e) => Err(e),
            Ok((attributes, k)) => {
                if input[k] == GT {
                    let name = copy_range(input, i + 1, n);
                    Ok((Token::Start { name, attributes, empty: false }, k + 1))
                } else if k + 1 >= input.len() {
                    Err(XmlError::UnexpectedEof)
                } else if input[k + 1] != GT {
                    Err(XmlError::InvalidTag)
                } else {
                    let name = copy_range(input, i + 1, n);
                    Ok((Token::Start { name, attributes, empty: true }, k + 2))
                }
            },
        }
    }
}

/// Finds the first position at or after `i` at which `word` stands.
pub fn find_word_from(input: &[u8], i: usize, word: &[u8]) -> (k: usize)
    requires
        i <= input@.len(),
    ensures
        k == find_word(input@, i as int, word@),
        i <= k <= input@.len(),
{
    let mut k: usize = i;
    while k < input.len() && word.len() <= input.len() - k
        invariant
            i <= k <= input@.len(),
            find_word(input@, i as int, word@) == find_word(input@, k as int, word@),
        decreases input@.len() - k,
    {
        if word_at(input, k, input.len(), word) {
            return k;
        }
        k += 1;
    }
    proof {
        lemma_find_word_bounds(input@, k as int, word@);
        if k < input@.len() {
            assert(find_word(input@, k as int, word@) == input@.len());
        }
    }
    input.len()
}

/// Passes over everything from `from` up to and with the first `close`.
pub fn pass_to(input: &[u8], from: usize, close: &[u8]) -> (r: Result<usize, XmlError>)
    requires
        from <= input@.len(),
    ensures
        match r {
            Ok(j) => passed_to(input@, from as int, close@) == Ok::<int, XmlError>(j as int)
                && from <= j <= input@.len(),
            Err(e) => passed_to(input@, from as int, close@) == Err::<int, XmlError>(e),
        },
{
    proof {
        lemma_find_word_bounds(input@, from as int, close@);
    }
    let k = find_word_from(input, from, close);
    if k >= input.len() {
        Err(XmlError::UnexpectedEof)
    } else {
        Ok(k + close.len())
    }
}

/// What a result holds, positions as integers.
pub open spec fn aside_view(r: Option<Result<usize, XmlError>>) -> Option<Result<int, XmlError>> {
    match r {
        None => None,
        Some(Err(e)) => Some(Err(e)),
        Some(Ok(j)) => Some(Ok(j as int)),
    }
}

/// Passes over the comment, the processing instruction or the XML
/// declaration that begins at `i`, where one does.
pub fn read_aside(input: &[u8], i: usize) -> (r: Option<Result<usize, XmlError>>)
    requires
        i < input@.len(),
    ensures
        aside_view(r) == aside_at(input@, i as int),
        r matches Some(Ok(j)) ==> i < j <= input@.len(),
{
    let instruction_start: [u8; 2] = [0x3c, 0x3f];
    let instruction_end: [u8; 2] = [0x3f, 0x3e];
    let comment_start: [u8; 4] = [0x3c, 0x21, 0x2d, 0x2d];
    let comment_end: [u8; 3] = [0x2d, 0x2d, 0x3e];
    proof {
        assert(instruction_start@ =~= instruction_open());
        assert(instruction_end@ =~= instruction_close());
        assert(comment_start@ =~= comment_open());
        assert(comment_end@ =~= comment_close());
        lemma_aside_at_bounds(input@, i as int);
    }
    if word_at(input, i, input.len(), instruction_start.as_slice()) {
        Some(pass_to(input, i + 2, instruction_end.as_slice()))
    } else if word_at(input, i, input.len(), comment_start.as_slice()) {
        Some(pass_to(input, i + 4, comment_end.as_slice()))
    } else {
        None
    }
}

/// Reads the tokens of a document.
pub fn read_tokens(input: &[u8]) -> (r: Result<Vec<Token>, XmlError>)
    ensures
        match r {
            Ok(tokens) => tokenize(input@) == Ok::<Seq<TokenView>, XmlError>(tokens.deep_view())
                && each_well_formed(tokens.deep_view()),
            Err(e) => tokenize(input@) == Err::<Seq<TokenView>, XmlError>(e),
        },
{
    proof {
        lemma_tokenize_well_formed(input@);
    }
    let mut tokens: Vec<Token> = Vec::new();
    let mut pos: usize = 0;
    proof {
        assert(tokens.deep_view() =~= Seq::empty());
        match tokens_at(input@, 0) {
            Ok(rest) => {
                assert(Seq::<TokenView>::empty() + rest =~= rest);
            },
            Err(e) => {},
        }
    }
    while pos < input.len()
        invariant
            pos <= input@.len(),
            tokenize(input@) == after_tokens(tokens.deep_view(), tokens_at(input@, pos as int)),
        decreases input@.len() - pos,
    {
        match read_aside(input, pos) {
            Some(Err(e)) => {
                return Err(e);
            },
            Some(Ok(j)) => {
                pos = j;
                continue ;
            },
            None => {},
        }
        match read_token(input, pos) {
            Err(e) => {
                return Err(e);
            },
            Ok((t, j)) => {
                let ghost before = tokens.deep_view();
                let ghost tv = t.deep_view();
                tokens.push(t);
                proof {
                    assert(tokens.deep_view() =~= before.push(tv));
                    match tokens_at(input@, j as int) {
                        Ok(rest) => {
                            assert(before + (seq![tv] + rest) =~= before.push(tv) + rest);
                        },
                        Err(e) => {},
                    }
                }
                pos = j;
            },
        }
    }
    proof {
        assert(tokens.deep_view() + Seq::<TokenView>::empty() =~= tokens.deep_view());
    }
    Ok(tokens)
}

} // verus!

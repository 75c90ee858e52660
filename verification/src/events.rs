//! Structural tokens of the input stream, and their mathematical view.
//!
//! A token owns its content: nothing in it aliases tokenizer-internal
//! memory, so a token stays valid for as long as any cursor references it.

use vstd::prelude::*;

verus! {

/// One structural unit of the input stream.
#[derive(Debug, PartialEq, Eq, Clone)]
pub enum Token {
    /// An opening tag, carrying its raw name bytes.
    StartTag(Vec<u8>),
    /// A closing tag, carrying its raw name bytes.
    EndTag(Vec<u8>),
    /// A run of character data.
    Text(Vec<u8>),
    /// A CDATA section.
    CData(Vec<u8>),
    /// The end of the stream.
    Eof,
}

/// The mathematical value of a [`Token`]: the same shape over `Seq<u8>`.
#[verifier::ext_equal]
pub enum TokenView {
    StartTag(Seq<u8>),
    EndTag(Seq<u8>),
    Text(Seq<u8>),
    CData(Seq<u8>),
    Eof,
}

impl View for Token {
    type V = TokenView;

    open spec fn view(&self) -> TokenView {
        match self {
            Token::StartTag(n) => TokenView::StartTag(n@),
            Token::EndTag(n) => TokenView::EndTag(n@),
            Token::Text(c) => TokenView::Text(c@),
            Token::CData(c) => TokenView::CData(c@),
            Token::Eof => TokenView::Eof,
        }
    }
}

/// Copies a byte vector element by element.
pub fn copy_bytes(v: &Vec<u8>) -> (r: Vec<u8>)
    ensures
        r@ == v@,
{
    let mut r: Vec<u8> = Vec::new();
    let mut i: usize = 0;
    while i < v.len()
        invariant
            i <= v.len(),
            r@ == v@.take(i as int),
        decreases v.len() - i,
    {
        r.push(v[i]);
        i = i + 1;
        proof {
            assert(r@ =~= v@.take(i as int));
        }
    }
    proof {
        assert(v@.take(v.len() as int) =~= v@);
    }
    r
}

/// Copies a token; the copy has the same view as the original.
pub fn dup_token(t: &Token) -> (r: Token)
    ensures
        r@ == t@,
{
    match t {
        Token::StartTag(n) => Token::StartTag(copy_bytes(n)),
        Token::EndTag(n) => Token::EndTag(copy_bytes(n)),
        Token::Text(c) => Token::Text(copy_bytes(c)),
        Token::CData(c) => Token::CData(copy_bytes(c)),
        Token::Eof => Token::Eof,
    }
}

/// Compares two byte vectors for equality of their contents.
pub fn bytes_eq(a: &Vec<u8>, b: &Vec<u8>) -> (r: bool)
    ensures
        r == (a@ == b@),
{
    if a.len() != b.len() {
        return false;
    }
    let mut i: usize = 0;
    while i < a.len()
        invariant
            i <= a.len(),
            a@.len() == b@.len(),
            forall|j: int| 0 <= j < i ==> a@[j] == b@[j],
        decreases a.len() - i,
    {
        if a[i] != b[i] {
            return false;
        }
        i = i + 1;
    }
    proof {
        assert(a@ =~= b@);
    }
    true
}

} // verus!

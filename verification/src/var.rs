//! Enum variant decoding: variant selection by tag name or bare text,
//! and consumption of a unit variant's element content.
//!
//! Selection peeks the next token.  Text selects a variant by its
//! content, a start tag by its name; any other token cannot name a
//! variant and is reported with the invalid-enum failure.  Resolving
//! the discriminant to a concrete variant, and decoding a variant's
//! payload, belong to the visitor protocol outside this core.

use crate::de_reader::{
    lemma_pending_len, read_err, ChildDeserializerReader, RootDeserializerReader,
};
use crate::errors::DeError;
use crate::events::{copy_bytes, dup_token, Token, TokenView};
use crate::source::lemma_sig_tokens_len;
use vstd::prelude::*;

verus! {

/// Whether the tokens `v`, scanned with `depth` unmatched start tags
/// open, contain the end tag that closes the element at depth zero.
pub open spec fn close_found(v: Seq<TokenView>, depth: nat) -> bool
    decreases v.len(),
{
    if v.len() == 0 {
        false
    } else {
        match v[0] {
            TokenView::EndTag(_) => depth == 0 || close_found(v.drop_first(), (depth - 1) as nat),
            TokenView::StartTag(_) => close_found(v.drop_first(), depth + 1),
            TokenView::Eof => false,
            _ => close_found(v.drop_first(), depth),
        }
    }
}

/// How many tokens are consumed up to and including the closing end
/// tag (meaningful when that end tag is found).
pub open spec fn close_count(v: Seq<TokenView>, depth: nat) -> nat
    decreases v.len(),
{
    if v.len() == 0 {
        0
    } else {
        match v[0] {
            TokenView::EndTag(_) => if depth == 0 {
                1
            } else {
                1 + close_count(v.drop_first(), (depth - 1) as nat)
            },
            TokenView::StartTag(_) => 1 + close_count(v.drop_first(), depth + 1),
            TokenView::Eof => 0,
            _ => 1 + close_count(v.drop_first(), depth),
        }
    }
}

/// Whether the scan runs into an explicit end-of-stream token before
/// the closing end tag.
pub open spec fn close_hits_eof(v: Seq<TokenView>, depth: nat) -> bool
    decreases v.len(),
{
    if v.len() == 0 {
        false
    } else {
        match v[0] {
            TokenView::EndTag(_) => depth != 0 && close_hits_eof(v.drop_first(), (depth - 1) as nat),
            TokenView::StartTag(_) => close_hits_eof(v.drop_first(), depth + 1),
            TokenView::Eof => true,
            _ => close_hits_eof(v.drop_first(), depth),
        }
    }
}

/// Selects an enum variant from the upcoming token.
pub struct EnumAccess {
    pub de: ChildDeserializerReader,
}

impl EnumAccess {
    pub fn new(de: ChildDeserializerReader) -> (r: EnumAccess)
        ensures
            r.de == de,
    {
        EnumAccess { de }
    }

    /// Peeks the next token and derives the variant discriminant from
    /// it: the raw content of a text token, or the raw name of a start
    /// tag.  Any other token cannot select a variant and is returned
    /// inside the invalid-enum failure.  Nothing is consumed: the
    /// returned access decodes the variant body from the same position.
    pub fn variant_seed(self, root: &mut RootDeserializerReader) -> (r: Result<
        (Vec<u8>, VariantAccess),
        DeError,
    >)
        requires
            old(root).wf(),
            self.de.evt_cursor <= old(root).evt_buffer@.len(),
        ensures
            final(root).wf(),
            final(root).reader.items@ == old(root).reader.items@,
            old(root).evt_buffer@.len() <= final(root).evt_buffer@.len(),
            final(root).evt_buffer@.take(old(root).evt_buffer@.len() as int) == old(
                root,
            ).evt_buffer@,
            ({
                let v0 = old(root).view_from(self.de.evt_cursor as int);
                let c0 = old(root).source_clean();
                let head = if v0.len() > 0 {
                    v0[0]
                } else {
                    TokenView::Eof
                };
                match r {
                    Ok(p) => {
                        let v1 = final(root).view_from(p.1.de.evt_cursor as int);
                        &&& self.de.evt_cursor <= p.1.de.evt_cursor
                        &&& p.1.de.evt_cursor <= final(root).evt_buffer@.len()
                        &&& v1 == (if v0.len() > 0 {
                            v0
                        } else {
                            seq![TokenView::Eof]
                        })
                        &&& (v0.len() == 0 ==> c0)
                        &&& final(root).source_clean() == c0
                        &&& v1.len() > 0
                        &&& v1[0] == head
                        &&& (match head {
                            TokenView::Text(c) => p.0@ == c,
                            TokenView::StartTag(n) => p.0@ == n,
                            _ => false,
                        })
                    },
                    Err(e) => {
                        ||| read_err(v0, c0, e)
                        ||| {
                            &&& (v0.len() == 0 ==> c0)
                            &&& !(head matches TokenView::Text(_))
                            &&& !(head matches TokenView::StartTag(_))
                            &&& e matches DeError::InvalidEnum(t) && t@ == head
                        }
                    },
                }
            }),
    {
        let mut de = self.de;
        let peeked = de.peek(root);
        match peeked {
            Err(e) => Err(e),
            Ok(t) => match t {
                Token::Text(c) => {
                    let d = copy_bytes(c);
                    Ok((d, VariantAccess { de }))
                }
                Token::StartTag(n) => {
                    let d = copy_bytes(n);
                    Ok((d, VariantAccess { de }))
                }
                _ => Err(DeError::InvalidEnum(dup_token(t))),
            },
        }
    }
}

/// Decodes the body of a selected variant.
pub struct VariantAccess {
    pub de: ChildDeserializerReader,
}

impl VariantAccess {
    /// Consumes and discards tokens up to and including the end tag
    /// that closes the element whose start tag was just consumed,
    /// however deeply its content nests.  A stream that ends first is
    /// reported as an unexpected end of stream; a failing read aborts.
    pub fn read_to_end(&mut self, root: &mut RootDeserializerReader) -> (r: Result<(), DeError>)
        requires
            old(root).wf(),
            old(self).de.evt_cursor <= old(root).evt_buffer@.len(),
        ensures
            final(root).wf(),
            final(root).reader.items@ == old(root).reader.items@,
            final(root).evt_buffer@.len() == old(root).evt_buffer@.len(),
            forall|j: int|
                0 <= j < old(self).de.evt_cursor ==> final(root).evt_buffer@[j] == old(
                    root,
                ).evt_buffer@[j],
            old(self).de.evt_cursor <= final(self).de.evt_cursor,
            final(self).de.evt_cursor <= final(root).evt_buffer@.len(),
            ({
                let v0 = old(root).view_from(old(self).de.evt_cursor as int);
                let c0 = old(root).source_clean();
                let v1 = final(root).view_from(final(self).de.evt_cursor as int);
                let c1 = final(root).source_clean();
                match r {
                    Ok(u) => {
                        &&& close_found(v0, 0)
                        &&& v1 == v0.skip(close_count(v0, 0) as int)
                        &&& c1 == c0
                    },
                    Err(e) => {
                        &&& !close_found(v0, 0)
                        &&& (if close_hits_eof(v0, 0) {
                            e == DeError::UnexpectedEof && c1 == c0
                        } else if c0 {
                            e == DeError::UnexpectedEof && c1
                        } else {
                            e == DeError::Read
                        })
                    },
                }
            }),
    {
        let ghost v0 = old(root).view_from(old(self).de.evt_cursor as int);
        let ghost c0 = old(root).source_clean();
        let b_len: usize = root.evt_buffer.len();
        let i_len: usize = root.reader.items.len();
        proof {
            lemma_pending_len(root.evt_buffer@, self.de.evt_cursor as int);
            lemma_sig_tokens_len(root.reader.remaining());
            assert(v0.skip(0) =~= v0);
        }
        let mut local_depth: u128 = 0;
        let ghost mut consumed: int = 0;
        loop
            invariant
                root.wf(),
                root.reader.items@ == old(root).reader.items@,
                root.evt_buffer@.len() == old(root).evt_buffer@.len(),
                forall|j: int|
                    0 <= j < old(self).de.evt_cursor ==> root.evt_buffer@[j] == old(
                        root,
                    ).evt_buffer@[j],
                old(self).de.evt_cursor <= self.de.evt_cursor,
                self.de.evt_cursor <= root.evt_buffer@.len(),
                v0 == old(root).view_from(old(self).de.evt_cursor as int),
                c0 == old(root).source_clean(),
                v0.len() <= b_len + i_len,
                0 <= consumed <= v0.len(),
                root.view_from(self.de.evt_cursor as int) == v0.skip(consumed),
                close_found(v0, 0) == close_found(v0.skip(consumed), local_depth as nat),
                close_hits_eof(v0, 0) == close_hits_eof(v0.skip(consumed), local_depth as nat),
                close_count(v0, 0) == consumed + close_count(v0.skip(consumed), local_depth as nat),
                local_depth as int <= consumed,
                c0 ==> root.source_clean(),
                root.source_clean() ==> c0,
            decreases v0.len() - consumed,
        {
            let ghost vc = v0.skip(consumed);
            let taken = self.de.next(root);
            match taken {
                Err(e) => {
                    proof {
                        assert(vc.len() == 0);
                    }
                    return Err(e);
                }
                Ok(t) => {
                    proof {
                        if vc.len() > 0 {
                            assert(v0.skip(consumed + 1) =~= vc.drop_first());
                        }
                    }
                    match t {
                        Token::EndTag(_) => {
                            if local_depth == 0 {
                                proof {
                                    assert(vc.len() > 0 && vc[0] == t@);
                                    assert(close_count(vc, 0) == 1);
                                }
                                return Ok(());
                            } else {
                                local_depth = local_depth - 1;
                                proof {
                                    consumed = consumed + 1;
                                }
                            }
                        }
                        Token::StartTag(_) => {
                            local_depth = local_depth + 1;
                            proof {
                                consumed = consumed + 1;
                            }
                        }
                        Token::Eof => {
                            proof {
                                if vc.len() > 0 {
                                    assert(vc[0] == t@);
                                    assert(close_hits_eof(vc, local_depth as nat));
                                }
                            }
                            return Err(DeError::UnexpectedEof);
                        }
                        _ => {
                            proof {
                                consumed = consumed + 1;
                            }
                        }
                    }
                }
            }
        }
    }

    /// Consumes a unit variant's representation: a bare text token is
    /// already fully consumed by selection, while a start tag is
    /// consumed together with its whole element content, through the
    /// matching end tag, leaving the cursor exactly after it.
    pub fn unit_variant(&mut self, root: &mut RootDeserializerReader) -> (r: Result<(), DeError>)
        requires
            old(root).wf(),
            old(self).de.evt_cursor <= old(root).evt_buffer@.len(),
            ({
                let v0 = old(root).view_from(old(self).de.evt_cursor as int);
                v0.len() > 0 && (v0[0] matches TokenView::StartTag(_) || v0[0]
                    matches TokenView::Text(_))
            }),
        ensures
            final(root).wf(),
            final(root).reader.items@ == old(root).reader.items@,
            final(root).evt_buffer@.len() == old(root).evt_buffer@.len(),
            forall|j: int|
                0 <= j < old(self).de.evt_cursor ==> final(root).evt_buffer@[j] == old(
                    root,
                ).evt_buffer@[j],
            old(self).de.evt_cursor <= final(self).de.evt_cursor,
            final(self).de.evt_cursor <= final(root).evt_buffer@.len(),
            ({
                let v0 = old(root).view_from(old(self).de.evt_cursor as int);
                let c0 = old(root).source_clean();
                let v1 = final(root).view_from(final(self).de.evt_cursor as int);
                let c1 = final(root).source_clean();
                let rest = v0.drop_first();
                match r {
                    Ok(u) => {
                        &&& (match v0[0] {
                            TokenView::Text(_) => v1 == rest && c1 == c0,
                            TokenView::StartTag(_) => {
                                &&& close_found(rest, 0)
                                &&& v1 == rest.skip(close_count(rest, 0) as int)
                                &&& c1 == c0
                            },
                            _ => false,
                        })
                    },
                    Err(e) => {
                        &&& v0[0] matches TokenView::StartTag(_)
                        &&& !close_found(rest, 0)
                        &&& (if close_hits_eof(rest, 0) {
                            e == DeError::UnexpectedEof && c1 == c0
                        } else if c0 {
                            e == DeError::UnexpectedEof && c1
                        } else {
                            e == DeError::Read
                        })
                    },
                }
            }),
    {
        let first = self.de.next(root);
        match first {
            Err(e) => unreached(),
            Ok(t) => match t {
                Token::Text(_) => Ok(()),
                Token::StartTag(_) => self.read_to_end(root),
                _ => unreached(),
            },
        }
    }
}

} // verus!

//! The token source: an ordered supply of raw tokenizer output.
//!
//! The cursors pull from a source one token at a time.  A raw item is
//! either a significant token, an item the core is not interested in
//! (a comment, a processing instruction), or a point at which the
//! tokenizer fails on malformed input.

use crate::events::{Token, TokenView};
use vstd::prelude::*;

verus! {

/// One item of raw tokenizer output.
#[derive(Debug, PartialEq, Eq)]
pub enum RawToken {
    /// A structural token the core consumes.
    Significant(Token),
    /// A token kind the core transparently discards.
    Insignificant,
    /// A point where the tokenizer fails on malformed input.
    Malformed,
}

/// A finite supply of raw tokenizer output, read front to back.
/// Once the items are exhausted the source reports end-of-stream forever.
pub struct TokenSource {
    pub items: Vec<RawToken>,
    pub pos: usize,
}

impl TokenSource {
    /// The read position never runs past the item list.
    pub open spec fn wf(&self) -> bool {
        self.pos <= self.items@.len()
    }

    /// The raw items not yet read.
    pub open spec fn remaining(&self) -> Seq<RawToken> {
        self.items@.skip(self.pos as int)
    }

    pub fn new(items: Vec<RawToken>) -> (s: TokenSource)
        ensures
            s.wf(),
            s.remaining() == items@,
    {
        let s = TokenSource { items, pos: 0 };
        proof {
            assert(s.remaining() =~= s.items@);
        }
        s
    }
}

/// The significant tokens a raw stream will deliver, in order, cut off
/// at the first malformed item.
pub open spec fn sig_tokens(raw: Seq<RawToken>) -> Seq<TokenView>
    decreases raw.len(),
{
    if raw.len() == 0 {
        Seq::empty()
    } else {
        match raw[0] {
            RawToken::Significant(t) => seq![t@] + sig_tokens(raw.drop_first()),
            RawToken::Insignificant => sig_tokens(raw.drop_first()),
            RawToken::Malformed => Seq::empty(),
        }
    }
}

/// A raw stream is clean when no read of it can fail.
pub open spec fn clean(raw: Seq<RawToken>) -> bool {
    forall|i: int| 0 <= i < raw.len() ==> !(#[trigger] raw[i] matches RawToken::Malformed)
}

/// A raw stream delivers no more significant tokens than it has items.
pub proof fn lemma_sig_tokens_len(raw: Seq<RawToken>)
    ensures
        sig_tokens(raw).len() <= raw.len(),
    decreases raw.len(),
{
    if raw.len() > 0 {
        lemma_sig_tokens_len(raw.drop_first());
    }
}

/// A suffix of a clean stream is clean, and dropping a significant or
/// insignificant head keeps the significant-token cutoff in step.
pub proof fn lemma_drop_first_clean(raw: Seq<RawToken>)
    requires
        raw.len() > 0,
    ensures
        clean(raw) ==> clean(raw.drop_first()),
        !(raw[0] matches RawToken::Malformed) && clean(raw.drop_first()) ==> clean(raw),
{
    if clean(raw) {
        assert forall|i: int| 0 <= i < raw.drop_first().len() implies !(#[trigger] raw.drop_first()[i]
            matches RawToken::Malformed) by {
            assert(raw.drop_first()[i] == raw[i + 1]);
        }
    }
    if !(raw[0] matches RawToken::Malformed) && clean(raw.drop_first()) {
        assert forall|i: int| 0 <= i < raw.len() implies !(#[trigger] raw[i]
            matches RawToken::Malformed) by {
            if i > 0 {
                assert(raw[i] == raw.drop_first()[i - 1]);
            }
        }
    }
}

} // verus!

//! The event cache and its cursors.
//!
//! A decoding session owns one cache of parsed-but-unconsumed tokens,
//! shared by a root cursor and any number of child cursors.  The root
//! cursor reads at the cache front and pops what it consumes; a child
//! cursor reads at an explicit index and only marks entries spent, so
//! that every other cursor's index stays valid.

use crate::errors::DeError;
use crate::events::{dup_token, Token, TokenView};
use crate::source::{clean, lemma_drop_first_clean, sig_tokens, RawToken, TokenSource};
use std::collections::VecDeque;
use vstd::prelude::*;

verus! {

/// One cache slot: a token nobody has consumed yet, or the tombstone
/// left behind when a cursor consumed it.  The tombstone keeps later
/// cache indices stable for the other cursors.
#[derive(Debug, PartialEq, Eq)]
pub enum CachedEvent {
    Unused(Token),
    Used,
}

/// The tokens of the not-yet-consumed entries at indices `i` and above.
pub open spec fn pending_from(cache: Seq<CachedEvent>, i: int) -> Seq<TokenView>
    decreases cache.len() - i,
{
    if i < 0 || i >= cache.len() {
        Seq::empty()
    } else {
        match cache[i] {
            CachedEvent::Unused(t) => seq![t@] + pending_from(cache, i + 1),
            CachedEvent::Used => pending_from(cache, i + 1),
        }
    }
}

/// Whether index `i` holds a not-yet-consumed entry.
pub open spec fn entry_is_unused(cache: Seq<CachedEvent>, i: int) -> bool {
    0 <= i < cache.len() && cache[i] matches CachedEvent::Unused(_)
}

/// The token held at index `i` (meaningful when the entry is unused).
pub open spec fn entry_token(cache: Seq<CachedEvent>, i: int) -> TokenView
    recommends
        entry_is_unused(cache, i),
{
    match cache[i] {
        CachedEvent::Unused(t) => t@,
        CachedEvent::Used => TokenView::Eof,
    }
}

/// A cache holds no more pending tokens from `i` on than it has entries.
pub proof fn lemma_pending_len(cache: Seq<CachedEvent>, i: int)
    requires
        0 <= i <= cache.len(),
    ensures
        pending_from(cache, i).len() <= cache.len() - i,
    decreases cache.len() - i,
{
    if i < cache.len() {
        lemma_pending_len(cache, i + 1);
    }
}

/// Two caches that agree from index `i` on hold the same pending tokens
/// from `i` on.
pub proof fn lemma_pending_congruent(c1: Seq<CachedEvent>, c2: Seq<CachedEvent>, i: int)
    requires
        c1.len() == c2.len(),
        forall|j: int| i <= j < c1.len() ==> c1[j] == c2[j],
    ensures
        pending_from(c1, i) == pending_from(c2, i),
    decreases c1.len() - i,
{
    if 0 <= i < c1.len() {
        lemma_pending_congruent(c1, c2, i + 1);
    }
}

/// Appending one entry at the back appends its token (or nothing) to
/// the pending tokens seen from any index inside the cache.
pub proof fn lemma_pending_push(cache: Seq<CachedEvent>, e: CachedEvent, i: int)
    requires
        0 <= i <= cache.len(),
    ensures
        pending_from(cache.push(e), i) == pending_from(cache, i) + (match e {
            CachedEvent::Unused(t) => seq![t@],
            CachedEvent::Used => Seq::<TokenView>::empty(),
        }),
    decreases cache.len() - i,
{
    let c2 = cache.push(e);
    if i == cache.len() {
        assert(c2[i] == e);
        assert(pending_from(c2, i + 1) =~= Seq::<TokenView>::empty());
        match e {
            CachedEvent::Unused(t) => {
                assert(pending_from(c2, i) =~= pending_from(cache, i) + seq![t@]);
            }
            CachedEvent::Used => {
                assert(pending_from(c2, i) =~= pending_from(cache, i));
            }
        }
    } else {
        assert(c2[i] == cache[i]);
        lemma_pending_push(cache, e, i + 1);
        match cache[i] {
            CachedEvent::Unused(t) => {
                assert(pending_from(c2, i) =~= pending_from(cache, i) + (match e {
                    CachedEvent::Unused(t2) => seq![t2@],
                    CachedEvent::Used => Seq::<TokenView>::empty(),
                }));
            }
            CachedEvent::Used => {
            }
        }
    }
}

/// Dropping the front cache entry shifts every pending index down by one.
pub proof fn lemma_pending_shift(cache: Seq<CachedEvent>, i: int)
    requires
        cache.len() > 0,
        0 <= i,
    ensures
        pending_from(cache.drop_first(), i) == pending_from(cache, i + 1),
    decreases cache.len() - i,
{
    if i < cache.len() - 1 {
        assert(cache.drop_first()[i] == cache[i + 1]);
        lemma_pending_shift(cache, i + 1);
        match cache[i + 1] {
            CachedEvent::Unused(t) => {
                assert(pending_from(cache.drop_first(), i) =~= pending_from(cache, i + 1));
            }
            CachedEvent::Used => {
            }
        }
    }
}

/// A decoding session: the token source together with the cache of
/// parsed but unconsumed tokens.  The root cursor's position is
/// implicitly the cache front.
pub struct RootDeserializerReader {
    /// Underlying token source.
    pub reader: TokenSource,
    /// Cache of parsed but unused tokens, for peeking and out-of-order
    /// consumption.
    pub evt_buffer: VecDeque<CachedEvent>,
}

impl RootDeserializerReader {
    pub open spec fn wf(&self) -> bool {
        self.reader.wf()
    }

    /// Whether every remaining read of the token source will succeed.
    pub open spec fn source_clean(&self) -> bool {
        clean(self.reader.remaining())
    }

    /// The tokens a cursor positioned at cache index `i` will observe,
    /// in order: first the pending cache entries at or after `i`, then
    /// whatever the source still delivers.
    pub open spec fn view_from(&self, i: int) -> Seq<TokenView> {
        pending_from(self.evt_buffer@, i) + sig_tokens(self.reader.remaining())
    }

    pub fn new(reader: TokenSource) -> (r: RootDeserializerReader)
        requires
            reader.wf(),
        ensures
            r.wf(),
            r.reader == reader,
            r.evt_buffer@.len() == 0,
            r.view_from(0) == sig_tokens(reader.remaining()),
            r.source_clean() == clean(reader.remaining()),
    {
        let r = RootDeserializerReader { reader, evt_buffer: VecDeque::new() };
        proof {
            assert(r.view_from(0) =~= sig_tokens(r.reader.remaining()));
        }
        r
    }
}

/// A positioned view over the session's cache: an explicit index that
/// advances independently of every other cursor.
pub struct ChildDeserializerReader {
    /// Position of this cursor in the session's cache.
    pub evt_cursor: usize,
}

/// What consuming one token means, stated over the token sequences a
/// cursor observes before (`v0`, with source cleanliness `c0`) and
/// after (`v1`, `c1`) the call: the head of the observed sequence is
/// returned and exactly that head is removed; at the end of a clean
/// stream the end-of-stream token is returned; a read of a stream that
/// is exhausted but not clean fails.
pub open spec fn consume_outcome(
    v0: Seq<TokenView>,
    c0: bool,
    v1: Seq<TokenView>,
    c1: bool,
    r: Result<Token, DeError>,
) -> bool {
    match r {
        Ok(t) => if v0.len() > 0 {
            &&& t@ == v0[0]
            &&& v1 == v0.drop_first()
            &&& c1 == c0
        } else {
            &&& c0
            &&& t@ == TokenView::Eof
            &&& v1.len() == 0
            &&& c1
        },
        Err(e) => {
            &&& v0.len() == 0
            &&& !c0
            &&& e == DeError::Read
        },
    }
}

/// What peeking one token means: the head of the observed sequence is
/// returned and the observed sequence is left intact; at the end of a
/// clean stream the end-of-stream token is returned (and, once
/// buffered, it is what the observed sequence holds).
pub open spec fn peek_outcome(
    v0: Seq<TokenView>,
    c0: bool,
    v1: Seq<TokenView>,
    c1: bool,
    t: TokenView,
) -> bool {
    if v0.len() > 0 {
        &&& t == v0[0]
        &&& v1 == v0
        &&& c1 == c0
    } else {
        &&& c0
        &&& t == TokenView::Eof
        &&& v1 == seq![TokenView::Eof]
        &&& c1
    }
}

/// A failed read: only possible when the observed sequence is exhausted
/// and the source is not clean.
pub open spec fn read_err(v0: Seq<TokenView>, c0: bool, e: DeError) -> bool {
    &&& v0.len() == 0
    &&& !c0
    &&& e == DeError::Read
}

/// Reads the next token from the source, discarding the kinds the core
/// is not interested in.
pub fn next_significant_event(reader: &mut TokenSource) -> (r: Result<Token, DeError>)
    requires
        old(reader).wf(),
    ensures
        final(reader).wf(),
        final(reader).items@ == old(reader).items@,
        old(reader).pos <= final(reader).pos,
        match r {
            Ok(t) => {
                let s0 = sig_tokens(old(reader).remaining());
                if s0.len() > 0 {
                    &&& t@ == s0[0]
                    &&& sig_tokens(final(reader).remaining()) == s0.drop_first()
                    &&& clean(final(reader).remaining()) == clean(old(reader).remaining())
                } else {
                    &&& clean(old(reader).remaining())
                    &&& t@ == TokenView::Eof
                    &&& sig_tokens(final(reader).remaining()).len() == 0
                    &&& clean(final(reader).remaining())
                }
            },
            Err(e) => {
                &&& sig_tokens(old(reader).remaining()).len() == 0
                &&& !clean(old(reader).remaining())
                &&& e == DeError::Read
            },
        },
{
    loop
        invariant
            reader.wf(),
            reader.items@ == old(reader).items@,
            old(reader).pos <= reader.pos,
            sig_tokens(reader.remaining()) == sig_tokens(old(reader).remaining()),
            clean(reader.remaining()) == clean(old(reader).remaining()),
        decreases reader.items@.len() - reader.pos,
    {
        if reader.pos == reader.items.len() {
            proof {
                assert(reader.remaining() =~= Seq::<RawToken>::empty());
            }
            return Ok(Token::Eof);
        }
        let ghost rem = reader.remaining();
        proof {
            assert(rem.len() > 0);
            assert(rem[0] == reader.items@[reader.pos as int]);
            assert(rem.drop_first() =~= reader.items@.skip(reader.pos as int + 1));
            lemma_drop_first_clean(rem);
        }
        match &reader.items[reader.pos] {
            RawToken::Insignificant => {
                reader.pos = reader.pos + 1;
            }
            RawToken::Malformed => {
                return Err(DeError::Read);
            }
            RawToken::Significant(t) => {
                let tok = dup_token(t);
                reader.pos = reader.pos + 1;
                proof {
                    assert(sig_tokens(rem) == seq![tok@] + sig_tokens(rem.drop_first()));
                    assert(sig_tokens(rem).drop_first() =~= sig_tokens(rem.drop_first()));
                }
                return Ok(tok);
            }
        }
    }
}

/// Scans the cache forward from `*index`, skipping spent entries and
/// buffering fresh tokens from the source as needed, until an unspent
/// entry stands at `*index`; returns a reference to its token without
/// consuming it.
pub fn get_from_buffer_or_reader<'e>(
    evt_buf: &'e mut VecDeque<CachedEvent>,
    reader: &mut TokenSource,
    index: &mut usize,
) -> (r: Result<&'e Token, DeError>)
    requires
        old(reader).wf(),
        *old(index) <= old(evt_buf)@.len(),
    ensures
        final(reader).wf(),
        final(reader).items@ == old(reader).items@,
        *old(index) <= *final(index),
        *final(index) <= final(evt_buf)@.len(),
        old(evt_buf)@.len() <= final(evt_buf)@.len(),
        final(evt_buf)@.take(old(evt_buf)@.len() as int) == old(evt_buf)@,
        pending_from(final(evt_buf)@, *old(index) as int) == pending_from(
            final(evt_buf)@,
            *final(index) as int,
        ),
        match r {
            Ok(t) => {
                let v0 = pending_from(old(evt_buf)@, *old(index) as int) + sig_tokens(
                    old(reader).remaining(),
                );
                let v1 = pending_from(final(evt_buf)@, *final(index) as int) + sig_tokens(
                    final(reader).remaining(),
                );
                &&& entry_is_unused(final(evt_buf)@, *final(index) as int)
                &&& entry_token(final(evt_buf)@, *final(index) as int) == t@
                &&& peek_outcome(
                    v0,
                    clean(old(reader).remaining()),
                    v1,
                    clean(final(reader).remaining()),
                    t@,
                )
                &&& (entry_is_unused(old(evt_buf)@, *old(index) as int) ==> {
                    &&& *final(evt_buf) == *old(evt_buf)
                    &&& *final(index) == *old(index)
                    &&& *final(reader) == *old(reader)
                })
            },
            Err(e) => read_err(
                pending_from(old(evt_buf)@, *old(index) as int) + sig_tokens(
                    old(reader).remaining(),
                ),
                clean(old(reader).remaining()),
                e,
            ),
        },
{
    let ghost v0 = pending_from(old(evt_buf)@, *old(index) as int) + sig_tokens(
        old(reader).remaining(),
    );
    loop
        invariant
            reader.wf(),
            reader.items@ == old(reader).items@,
            old(reader).pos <= reader.pos,
            *old(index) <= *index,
            *index <= evt_buf@.len(),
            old(evt_buf)@.len() <= evt_buf@.len(),
            evt_buf@.take(old(evt_buf)@.len() as int) == old(evt_buf)@,
            pending_from(evt_buf@, *old(index) as int) == pending_from(evt_buf@, *index as int),
            clean(reader.remaining()) == clean(old(reader).remaining()),
            v0 == pending_from(old(evt_buf)@, *old(index) as int) + sig_tokens(
                old(reader).remaining(),
            ),
            v0.len() > 0 ==> pending_from(evt_buf@, *index as int) + sig_tokens(
                reader.remaining(),
            ) == v0,
            v0.len() == 0 ==> (pending_from(evt_buf@, *index as int) + sig_tokens(
                reader.remaining(),
            )).len() == 0 || ({
                &&& clean(old(reader).remaining())
                &&& clean(reader.remaining())
                &&& entry_is_unused(evt_buf@, *index as int)
                &&& entry_token(evt_buf@, *index as int) == TokenView::Eof
                &&& pending_from(evt_buf@, *index as int) + sig_tokens(reader.remaining())
                    == seq![TokenView::Eof]
            }),
            entry_is_unused(old(evt_buf)@, *old(index) as int) ==> {
                &&& *evt_buf == *old(evt_buf)
                &&& *index == *old(index)
                &&& *reader == *old(reader)
            },
        ensures
            entry_is_unused(evt_buf@, *index as int),
        decreases (evt_buf@.len() - *index) + 2 * (reader.items@.len() - reader.pos) + (
        if entry_is_unused(evt_buf@, *index as int) {
            0int
        } else {
            2int
        }),
    {
        if *index < evt_buf.len() {
            let is_used = match &evt_buf[*index] {
                CachedEvent::Used => true,
                CachedEvent::Unused(_) => false,
            };
            if is_used {
                *index = *index + 1;
            } else {
                break;
            }
        } else {
            let ghost pre_buf = evt_buf@;
            let ghost pre_rem = reader.remaining();
            let next = next_significant_event(reader);
            match next {
                Ok(tok) => {
                    let ghost tview = tok@;
                    evt_buf.push_back(CachedEvent::Unused(tok));
                    proof {
                        lemma_pending_push(pre_buf, CachedEvent::Unused(tok), *old(index) as int);
                        lemma_pending_push(pre_buf, CachedEvent::Unused(tok), *index as int);
                        assert(evt_buf@.take(old(evt_buf)@.len() as int) =~= pre_buf.take(
                            old(evt_buf)@.len() as int,
                        ));
                        assert(pending_from(pre_buf, *index as int) =~= Seq::<TokenView>::empty());
                        assert(evt_buf@[*index as int] == CachedEvent::Unused(tok));
                        if sig_tokens(pre_rem).len() > 0 {
                            assert(pending_from(evt_buf@, *index as int) + sig_tokens(
                                reader.remaining(),
                            ) =~= sig_tokens(pre_rem));
                        } else {
                            assert(pending_from(evt_buf@, *index as int) + sig_tokens(
                                reader.remaining(),
                            ) =~= seq![TokenView::Eof]);
                        }
                    }
                }
                Err(e) => {
                    proof {
                        assert(pending_from(evt_buf@, *index as int) =~= Seq::<
                            TokenView,
                        >::empty());
                    }
                    return Err(e);
                }
            }
        }
    }
    let ghost fin_buf = evt_buf@;
    let ghost fin_idx = *index as int;
    proof {
        assert(pending_from(fin_buf, fin_idx) == seq![entry_token(fin_buf, fin_idx)]
            + pending_from(fin_buf, fin_idx + 1));
    }
    match &evt_buf[*index] {
        CachedEvent::Unused(ev) => Ok(ev),
        CachedEvent::Used => unreached(),
    }
}

impl RootDeserializerReader {
    /// The underlying token source.
    pub fn reader(&mut self) -> (r: &mut TokenSource)
        ensures
            *r == old(self).reader,
            *final(self) == (RootDeserializerReader {
                reader: *final(r),
                evt_buffer: old(self).evt_buffer,
            }),
    {
        &mut self.reader
    }

    /// Consumes the next token.  Consumed entries are removed from the
    /// start of the cache; the cache shrinks only here.
    pub fn next(&mut self) -> (r: Result<Token, DeError>)
        requires
            old(self).wf(),
        ensures
            final(self).wf(),
            final(self).reader.items@ == old(self).reader.items@,
            consume_outcome(
                old(self).view_from(0),
                old(self).source_clean(),
                final(self).view_from(0),
                final(self).source_clean(),
                r,
            ),
    {
        loop
            invariant
                self.reader.wf(),
                self.reader.items@ == old(self).reader.items@,
                self.view_from(0) == old(self).view_from(0),
                self.source_clean() == old(self).source_clean(),
            decreases self.evt_buffer@.len(),
        {
            let ghost pre_buf = self.evt_buffer@;
            let popped = self.evt_buffer.pop_front();
            match popped {
                Some(entry) => {
                    proof {
                        lemma_pending_shift(pre_buf, 0);
                        assert(self.evt_buffer@ =~= pre_buf.drop_first());
                    }
                    match entry {
                        CachedEvent::Unused(ev) => {
                            proof {
                                assert(pending_from(pre_buf, 0) == seq![ev@] + pending_from(
                                    pre_buf,
                                    1,
                                ));
                                assert(old(self).view_from(0).drop_first() =~= self.view_from(0));
                            }
                            return Ok(ev);
                        }
                        CachedEvent::Used => {
                        }
                    }
                }
                None => {
                    return next_significant_event(&mut self.reader);
                }
            }
        }
    }

    /// Returns the next token without consuming it.
    pub fn peek<'a>(&'a mut self) -> (r: Result<&'a Token, DeError>)
        requires
            old(self).wf(),
        ensures
            final(self).wf(),
            final(self).reader.items@ == old(self).reader.items@,
            match r {
                Ok(t) => peek_outcome(
                    old(self).view_from(0),
                    old(self).source_clean(),
                    final(self).view_from(0),
                    final(self).source_clean(),
                    t@,
                ),
                Err(e) => read_err(old(self).view_from(0), old(self).source_clean(), e),
            },
    {
        let mut idx: usize = 0;
        get_from_buffer_or_reader(&mut self.evt_buffer, &mut self.reader, &mut idx)
    }
}

impl ChildDeserializerReader {
    /// Advance this cursor's position by one without marking the entry
    /// spent, leaving the entry consumable by a later pass.
    pub fn skip(&mut self)
        requires
            old(self).evt_cursor < usize::MAX,
        ensures
            final(self).evt_cursor == old(self).evt_cursor + 1,
    {
        self.evt_cursor = self.evt_cursor + 1;
    }

    /// Consumes the next token at this cursor's position.  The consumed
    /// entry is marked spent in place, never removed, so every other
    /// cursor's index into the cache stays valid; entries below this
    /// cursor's position are untouched.
    pub fn next(&mut self, root: &mut RootDeserializerReader) -> (r: Result<Token, DeError>)
        requires
            old(root).wf(),
            old(self).evt_cursor <= old(root).evt_buffer@.len(),
        ensures
            final(root).wf(),
            final(root).reader.items@ == old(root).reader.items@,
            old(self).evt_cursor <= final(self).evt_cursor,
            final(self).evt_cursor <= final(root).evt_buffer@.len(),
            final(root).evt_buffer@.len() == old(root).evt_buffer@.len(),
            forall|j: int|
                0 <= j < old(self).evt_cursor ==> final(root).evt_buffer@[j] == old(
                    root,
                ).evt_buffer@[j],
            consume_outcome(
                old(root).view_from(old(self).evt_cursor as int),
                old(root).source_clean(),
                final(root).view_from(final(self).evt_cursor as int),
                final(root).source_clean(),
                r,
            ),
    {
        loop
            invariant
                root.reader.wf(),
                root.reader.items@ == old(root).reader.items@,
                old(self).evt_cursor <= self.evt_cursor,
                self.evt_cursor <= root.evt_buffer@.len(),
                root.evt_buffer@ == old(root).evt_buffer@,
                root.view_from(self.evt_cursor as int) == old(root).view_from(
                    old(self).evt_cursor as int,
                ),
                root.source_clean() == old(root).source_clean(),
            decreases root.evt_buffer@.len() - self.evt_cursor,
        {
            if self.evt_cursor == root.evt_buffer.len() {
                return next_significant_event(&mut root.reader);
            }
            let ghost pre_buf = root.evt_buffer@;
            let ghost cur = self.evt_cursor as int;
            let is_used = match &root.evt_buffer[self.evt_cursor] {
                CachedEvent::Used => true,
                CachedEvent::Unused(_) => false,
            };
            if is_used {
                self.evt_cursor = self.evt_cursor + 1;
            } else {
                let entry = root.evt_buffer.remove(self.evt_cursor);
                root.evt_buffer.insert(self.evt_cursor, CachedEvent::Used);
                proof {
                    assert(root.evt_buffer@ =~= pre_buf.update(cur, CachedEvent::Used));
                    lemma_pending_congruent(root.evt_buffer@, pre_buf, cur + 1);
                }
                match entry {
                    Some(CachedEvent::Unused(ev)) => {
                        proof {
                            assert(pending_from(pre_buf, cur) == seq![ev@] + pending_from(
                                pre_buf,
                                cur + 1,
                            ));
                            assert(old(root).view_from(old(self).evt_cursor as int).drop_first()
                                =~= root.view_from(self.evt_cursor as int));
                        }
                        return Ok(ev);
                    }
                    _ => {
                        proof {
                            assert(false);
                        }
                    }
                }
            }
        }
    }

    /// Returns the next token at this cursor's position without
    /// consuming it, advancing the position past spent entries.
    pub fn peek<'a>(&mut self, root: &'a mut RootDeserializerReader) -> (r: Result<
        &'a Token,
        DeError,
    >)
        requires
            old(root).wf(),
            old(self).evt_cursor <= old(root).evt_buffer@.len(),
        ensures
            final(root).wf(),
            final(root).reader.items@ == old(root).reader.items@,
            old(self).evt_cursor <= final(self).evt_cursor,
            final(self).evt_cursor <= final(root).evt_buffer@.len(),
            old(root).evt_buffer@.len() <= final(root).evt_buffer@.len(),
            final(root).evt_buffer@.take(old(root).evt_buffer@.len() as int) == old(
                root,
            ).evt_buffer@,
            match r {
                Ok(t) => {
                    &&& peek_outcome(
                        old(root).view_from(old(self).evt_cursor as int),
                        old(root).source_clean(),
                        final(root).view_from(final(self).evt_cursor as int),
                        final(root).source_clean(),
                        t@,
                    )
                    &&& entry_is_unused(final(root).evt_buffer@, final(self).evt_cursor as int)
                    &&& entry_token(final(root).evt_buffer@, final(self).evt_cursor as int) == t@
                    &&& (entry_is_unused(old(root).evt_buffer@, old(self).evt_cursor as int) ==> {
                        &&& final(root).evt_buffer == old(root).evt_buffer
                        &&& final(root).reader == old(root).reader
                        &&& final(self).evt_cursor == old(self).evt_cursor
                    })
                },
                Err(e) => read_err(
                    old(root).view_from(old(self).evt_cursor as int),
                    old(root).source_clean(),
                    e,
                ),
            },
    {
        get_from_buffer_or_reader(&mut root.evt_buffer, &mut root.reader, &mut self.evt_cursor)
    }
}

/// The capability both cursor variants share: spawning a child cursor
/// positioned where this cursor stands.  The child advances
/// independently and never moves its parent.
pub trait DeserializerReader {
    /// The cache index at which this cursor currently reads.
    spec fn cursor_pos(&self) -> int;

    /// Spawn a child cursor whose position starts at this cursor's
    /// current position.
    fn child(&self) -> (c: ChildDeserializerReader)
        ensures
            c.evt_cursor as int == self.cursor_pos(),
    ;
}

impl DeserializerReader for RootDeserializerReader {
    /// The root cursor always reads at the cache front.
    open spec fn cursor_pos(&self) -> int {
        0
    }

    fn child(&self) -> (c: ChildDeserializerReader) {
        ChildDeserializerReader { evt_cursor: 0 }
    }
}

impl DeserializerReader for ChildDeserializerReader {
    open spec fn cursor_pos(&self) -> int {
        self.evt_cursor as int
    }

    fn child(&self) -> (c: ChildDeserializerReader) {
        ChildDeserializerReader { evt_cursor: self.evt_cursor }
    }
}

/// A fresh session observes exactly the significant-token stream of
/// its source: every cursor spawned from it reads those tokens forward,
/// in source order, with none duplicated, dropped or reordered.
pub proof fn lemma_fresh_session_view(root: RootDeserializerReader)
    requires
        root.evt_buffer@.len() == 0,
    ensures
        root.view_from(0) == sig_tokens(root.reader.remaining()),
{
    assert(root.view_from(0) =~= sig_tokens(root.reader.remaining()));
}

} // verus!

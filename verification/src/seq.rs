//! Repeated-sibling sequence decoding.
//!
//! A sequence decoder answers "does another element of this repeated
//! field follow?" without the caller knowing the count in advance.  The
//! expected sibling tag name is captured from the first element
//! actually seen; later siblings must match it, and non-matching
//! elements are walked past with a nesting counter so their own nested
//! structure cannot corrupt end-of-sequence detection.

use crate::de_reader::{
    lemma_pending_len, pending_from, read_err, ChildDeserializerReader, RootDeserializerReader,
};
use crate::errors::DeError;
use crate::events::{bytes_eq, copy_bytes, Token, TokenView};
use crate::source::lemma_sig_tokens_len;
use vstd::prelude::*;

verus! {

/// The sibling-name mode of a sequence decoder.
#[derive(Debug, PartialEq, Eq)]
pub enum Names {
    /// Accept the next value whatever it is: the enclosing context does
    /// not expect repeated sibling tags of one fixed name.
    Unknown,
    /// Every element must open with a start tag of this name.
    ExpectedName(Vec<u8>),
}

/// Where a sibling scan stops.
pub enum ScanVerdict {
    /// A start tag of the expected name stands at nesting depth zero:
    /// the next sequence element begins there.
    Found,
    /// An end tag at nesting depth zero, or an end-of-stream token,
    /// ends the sequence.
    Ended,
    /// The scanned tokens run out before the scan can decide.
    Undecided,
}

/// How a scan over the tokens `v`, looking for a sibling start tag
/// named `name` while `depth` unmatched start tags are open, ends.
pub open spec fn sibling_scan(v: Seq<TokenView>, name: Seq<u8>, depth: nat) -> ScanVerdict
    decreases v.len(),
{
    if v.len() == 0 {
        ScanVerdict::Undecided
    } else {
        match v[0] {
            TokenView::StartTag(n) => if n == name && depth == 0 {
                ScanVerdict::Found
            } else {
                sibling_scan(v.drop_first(), name, depth + 1)
            },
            TokenView::EndTag(_) => if depth == 0 {
                ScanVerdict::Ended
            } else {
                sibling_scan(v.drop_first(), name, (depth - 1) as nat)
            },
            TokenView::Eof => ScanVerdict::Ended,
            _ => sibling_scan(v.drop_first(), name, depth),
        }
    }
}

/// How many tokens the scan walks past before it stops.
pub open spec fn sibling_scan_skip(v: Seq<TokenView>, name: Seq<u8>, depth: nat) -> nat
    decreases v.len(),
{
    if v.len() == 0 {
        0
    } else {
        match v[0] {
            TokenView::StartTag(n) => if n == name && depth == 0 {
                0
            } else {
                1 + sibling_scan_skip(v.drop_first(), name, depth + 1)
            },
            TokenView::EndTag(_) => if depth == 0 {
                0
            } else {
                1 + sibling_scan_skip(v.drop_first(), name, (depth - 1) as nat)
            },
            TokenView::Eof => 0,
            _ => 1 + sibling_scan_skip(v.drop_first(), name, depth),
        }
    }
}

/// A sequence decoder: a child cursor, an optional remaining-count
/// bound, and the sibling-name mode.
pub struct SeqAccess {
    pub de: ChildDeserializerReader,
    pub max_size: Option<usize>,
    pub names: Names,
}

impl SeqAccess {
    /// Builds a sequence decoder over `de`.  Unless the enclosing
    /// context captures arbitrary content (`has_value_field`), the
    /// expected sibling name is taken from the first upcoming start
    /// tag, by peeking without consuming; any other upcoming token
    /// leaves the mode unconstrained.
    pub fn new(
        root: &mut RootDeserializerReader,
        de: ChildDeserializerReader,
        has_value_field: bool,
        max_size: Option<usize>,
    ) -> (r: Result<SeqAccess, DeError>)
        requires
            old(root).wf(),
            de.evt_cursor <= old(root).evt_buffer@.len(),
        ensures
            final(root).wf(),
            final(root).reader.items@ == old(root).reader.items@,
            old(root).evt_buffer@.len() <= final(root).evt_buffer@.len(),
            final(root).evt_buffer@.take(old(root).evt_buffer@.len() as int) == old(
                root,
            ).evt_buffer@,
            match r {
                Ok(s) => {
                    let v0 = old(root).view_from(de.evt_cursor as int);
                    let v1 = final(root).view_from(s.de.evt_cursor as int);
                    &&& s.max_size == max_size
                    &&& de.evt_cursor <= s.de.evt_cursor
                    &&& s.de.evt_cursor <= final(root).evt_buffer@.len()
                    &&& (has_value_field ==> {
                        &&& s.names == Names::Unknown
                        &&& *final(root) == *old(root)
                        &&& s.de == de
                    })
                    &&& (!has_value_field ==> {
                        &&& (if v0.len() > 0 {
                            v1 == v0
                        } else {
                            old(root).source_clean() && v1 == seq![TokenView::Eof]
                        })
                        &&& final(root).source_clean() == old(root).source_clean()
                        &&& (match s.names {
                            Names::ExpectedName(nm) => v0.len() > 0 && v0[0]
                                == TokenView::StartTag(nm@),
                            Names::Unknown => !(v0.len() > 0 && v0[0] matches TokenView::StartTag(
                                _,
                            )),
                        })
                    })
                },
                Err(e) => {
                    &&& !has_value_field
                    &&& read_err(
                        old(root).view_from(de.evt_cursor as int),
                        old(root).source_clean(),
                        e,
                    )
                },
            },
    {
        let mut de = de;
        let names = if has_value_field {
            Names::Unknown
        } else {
            match de.peek(root) {
                Err(e) => {
                    return Err(e);
                }
                Ok(t) => match t {
                    Token::StartTag(n) => Names::ExpectedName(copy_bytes(n)),
                    _ => Names::Unknown,
                },
            }
        };
        Ok(SeqAccess { de, max_size, names })
    }

    /// Decides whether another element of the repeated field follows.
    ///
    /// Returns `Ok(true)` when the cursor stands exactly at the start
    /// tag of the next element, which the caller then consumes through
    /// `de`; the cursor itself is not advanced into the element.
    /// Returns `Ok(false)` when the sequence is over: the remaining
    /// count is spent, an end tag or the end of the stream closes the
    /// sequence at nesting depth zero.  Non-matching sibling elements,
    /// with all their nested structure, are walked past without being
    /// consumed.
    pub fn next_element(&mut self, root: &mut RootDeserializerReader) -> (r: Result<
        bool,
        DeError,
    >)
        requires
            old(root).wf(),
            old(self).de.evt_cursor <= old(root).evt_buffer@.len(),
        ensures
            final(root).wf(),
            final(root).reader.items@ == old(root).reader.items@,
            old(root).evt_buffer@.len() <= final(root).evt_buffer@.len(),
            final(root).evt_buffer@.take(old(root).evt_buffer@.len() as int) == old(
                root,
            ).evt_buffer@,
            old(self).de.evt_cursor <= final(self).de.evt_cursor,
            final(self).de.evt_cursor <= final(root).evt_buffer@.len(),
            final(self).names == old(self).names,
            final(self).max_size == (match old(self).max_size {
                Option::None => Option::<usize>::None,
                Option::Some(s) => if s == 0 {
                    Option::Some(0usize)
                } else {
                    Option::Some((s - 1) as usize)
                },
            }),
            ({
                let v0 = old(root).view_from(old(self).de.evt_cursor as int);
                let c0 = old(root).source_clean();
                let v1 = final(root).view_from(final(self).de.evt_cursor as int);
                let c1 = final(root).source_clean();
                match r {
                    Ok(produced) => if produced {
                        &&& old(self).max_size != Some(0usize)
                        &&& (match old(self).names {
                            Names::ExpectedName(nm) => {
                                &&& sibling_scan(v0, nm@, 0) == ScanVerdict::Found
                                &&& v1 == v0.skip(sibling_scan_skip(v0, nm@, 0) as int)
                                &&& v1.len() > 0
                                &&& v1[0] == TokenView::StartTag(nm@)
                                &&& c1 == c0
                            },
                            Names::Unknown => {
                                &&& v0.len() > 0
                                &&& !(v0[0] matches TokenView::EndTag(_))
                                &&& !(v0[0] matches TokenView::Eof)
                                &&& v1 == v0
                                &&& c1 == c0
                            },
                        })
                    } else {
                        ||| {
                            &&& old(self).max_size == Some(0usize)
                            &&& *final(root) == *old(root)
                            &&& final(self).de == old(self).de
                        }
                        ||| {
                            &&& old(self).max_size != Some(0usize)
                            &&& (match old(self).names {
                                Names::ExpectedName(nm) => {
                                    ||| {
                                        &&& sibling_scan(v0, nm@, 0) == ScanVerdict::Ended
                                        &&& v1 == v0.skip(sibling_scan_skip(v0, nm@, 0) as int)
                                        &&& c1 == c0
                                    }
                                    ||| {
                                        &&& sibling_scan(v0, nm@, 0) == ScanVerdict::Undecided
                                        &&& c0
                                        &&& c1
                                        &&& v1 == seq![TokenView::Eof]
                                    }
                                },
                                Names::Unknown => {
                                    ||| (v0.len() == 0 && c0 && c1 && v1 == seq![TokenView::Eof])
                                    ||| (v0.len() > 0 && (v0[0] matches TokenView::EndTag(_)
                                        || v0[0] matches TokenView::Eof) && v1 == v0 && c1 == c0)
                                },
                            })
                        }
                    },
                    Err(e) => {
                        &&& e == DeError::Read
                        &&& !c0
                        &&& old(self).max_size != Some(0usize)
                        &&& (match old(self).names {
                            Names::ExpectedName(nm) => sibling_scan(v0, nm@, 0)
                                == ScanVerdict::Undecided,
                            Names::Unknown => v0.len() == 0,
                        })
                    },
                }
            }),
    {
        let ghost v0 = old(root).view_from(old(self).de.evt_cursor as int);
        let ghost c0 = old(root).source_clean();
        match self.max_size {
            Some(s) => {
                if s == 0 {
                    proof {
                        assert(old(root).evt_buffer@.take(old(root).evt_buffer@.len() as int)
                            =~= old(root).evt_buffer@);
                    }
                    return Ok(false);
                }
                self.max_size = Some(s - 1);
            }
            None => {
            }
        }
        let expected: Option<Vec<u8>> = match &self.names {
            Names::ExpectedName(n) => Some(copy_bytes(n)),
            Names::Unknown => None,
        };
        match expected {
            Some(expected_name) => {
                let ghost nmv = expected_name@;
                let b_len: usize = root.evt_buffer.len();
                let i_len: usize = root.reader.items.len();
                proof {
                    lemma_pending_len(root.evt_buffer@, self.de.evt_cursor as int);
                    lemma_sig_tokens_len(root.reader.remaining());
                    assert(v0.skip(0) =~= v0);
                }
                let mut local_depth: u128 = 0;
                let ghost mut skipped: int = 0;
                loop
                    invariant
                        root.wf(),
                        root.reader.items@ == old(root).reader.items@,
                        old(root).evt_buffer@.len() <= root.evt_buffer@.len(),
                        root.evt_buffer@.take(old(root).evt_buffer@.len() as int) == old(
                            root,
                        ).evt_buffer@,
                        old(self).de.evt_cursor <= self.de.evt_cursor,
                        self.de.evt_cursor <= root.evt_buffer@.len(),
                        self.names == old(self).names,
                        self.max_size == (match old(self).max_size {
                            Option::None => Option::<usize>::None,
                            Option::Some(s) => if s == 0 {
                                Option::Some(0usize)
                            } else {
                                Option::Some((s - 1) as usize)
                            },
                        }),
                        old(self).max_size != Some(0usize),
                        expected_name@ == nmv,
                        old(self).names matches Names::ExpectedName(nm) && nm@ == nmv,
                        v0 == old(root).view_from(old(self).de.evt_cursor as int),
                        c0 == old(root).source_clean(),
                        v0.len() <= b_len + i_len,
                        0 <= skipped <= v0.len(),
                        root.view_from(self.de.evt_cursor as int) == v0.skip(skipped),
                        sibling_scan(v0, nmv, 0) == sibling_scan(
                            v0.skip(skipped),
                            nmv,
                            local_depth as nat,
                        ),
                        sibling_scan_skip(v0, nmv, 0) == skipped + sibling_scan_skip(
                            v0.skip(skipped),
                            nmv,
                            local_depth as nat,
                        ),
                        local_depth as int <= skipped,
                        c0 ==> root.source_clean(),
                        root.source_clean() ==> c0,
                    decreases v0.len() - skipped,
                {
                    let ghost vc = v0.skip(skipped);
                    let ghost pre_cursor = self.de.evt_cursor as int;
                    let peeked = self.de.peek(root);
                    match peeked {
                        Err(e) => {
                            proof {
                                assert(vc.len() == 0);
                                assert(sibling_scan(v0, nmv, 0) == ScanVerdict::Undecided);
                            }
                            return Err(e);
                        }
                        Ok(t) => {
                            let ghost tv = t@;
                            match t {
                                Token::StartTag(n) => {
                                    let matches_name = bytes_eq(n, &expected_name);
                                    if matches_name && local_depth == 0 {
                                        proof {
                                            assert(vc.len() > 0 && vc[0] == tv);
                                            assert(sibling_scan(vc, nmv, 0) == ScanVerdict::Found);
                                            assert(sibling_scan_skip(vc, nmv, 0) == 0);
                                        }
                                        return Ok(true);
                                    } else {
                                        proof {
                                            assert(vc.len() > 0 && vc[0] == tv);
                                            let cur = self.de.evt_cursor as int;
                                            assert(pending_from(root.evt_buffer@, cur) == seq![tv]
                                                + pending_from(root.evt_buffer@, cur + 1));
                                            assert(root.view_from(cur + 1) =~= vc.drop_first());
                                            assert(v0.skip(skipped + 1) =~= vc.drop_first());
                                            vstd::std_specs::vecdeque::axiom_spec_len(
                                                &root.evt_buffer,
                                            );
                                        }
                                        local_depth = local_depth + 1;
                                        self.de.skip();
                                        proof {
                                            skipped = skipped + 1;
                                        }
                                    }
                                }
                                Token::EndTag(_) => {
                                    if local_depth == 0 {
                                        proof {
                                            assert(vc.len() > 0 && vc[0] == tv);
                                            assert(sibling_scan(vc, nmv, 0) == ScanVerdict::Ended);
                                            assert(sibling_scan_skip(vc, nmv, 0) == 0);
                                        }
                                        return Ok(false);
                                    } else {
                                        proof {
                                            assert(vc.len() > 0 && vc[0] == tv);
                                            let cur = self.de.evt_cursor as int;
                                            assert(pending_from(root.evt_buffer@, cur) == seq![tv]
                                                + pending_from(root.evt_buffer@, cur + 1));
                                            assert(root.view_from(cur + 1) =~= vc.drop_first());
                                            assert(v0.skip(skipped + 1) =~= vc.drop_first());
                                            vstd::std_specs::vecdeque::axiom_spec_len(
                                                &root.evt_buffer,
                                            );
                                        }
                                        local_depth = local_depth - 1;
                                        self.de.skip();
                                        proof {
                                            skipped = skipped + 1;
                                        }
                                    }
                                }
                                Token::Eof => {
                                    proof {
                                        if vc.len() > 0 {
                                            assert(vc[0] == tv);
                                            assert(sibling_scan(vc, nmv, local_depth as nat)
                                                == ScanVerdict::Ended);
                                            assert(sibling_scan_skip(vc, nmv, local_depth as nat)
                                                == 0);
                                        } else {
                                            assert(sibling_scan(vc, nmv, local_depth as nat)
                                                == ScanVerdict::Undecided);
                                        }
                                    }
                                    return Ok(false);
                                }
                                _ => {
                                    proof {
                                        assert(vc.len() > 0 && vc[0] == tv);
                                        let cur = self.de.evt_cursor as int;
                                        assert(pending_from(root.evt_buffer@, cur) == seq![tv]
                                            + pending_from(root.evt_buffer@, cur + 1));
                                        assert(root.view_from(cur + 1) =~= vc.drop_first());
                                        assert(v0.skip(skipped + 1) =~= vc.drop_first());
                                        vstd::std_specs::vecdeque::axiom_spec_len(&root.evt_buffer);
                                    }
                                    self.de.skip();
                                    proof {
                                        skipped = skipped + 1;
                                    }
                                }
                            }
                        }
                    }
                }
            }
            None => {
                let peeked = self.de.peek(root);
                match peeked {
                    Err(e) => Err(e),
                    Ok(t) => match t {
                        Token::EndTag(_) => Ok(false),
                        Token::Eof => Ok(false),
                        _ => Ok(true),
                    },
                }
            }
        }
    }

    /// The optional remaining-count bound, if one was given.
    pub fn size_hint(&self) -> (r: Option<usize>)
        ensures
            r == self.max_size,
    {
        self.max_size
    }
}

} // verus!

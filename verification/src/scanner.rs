//! The scanner core: owns the buffered input and a cursor, and on request
//! runs match selection at the cursor, yielding a token, the end-of-input
//! signal, or an error.
//!
//! The buffered source is modelled by the bytes it yielded (`input`)
//! together with how it ended after them (`end`): normal exhaustion or a
//! read failure. A decision that would need bytes past the buffered end —
//! including a candidate match reaching exactly to it — surfaces the read
//! failure instead of guessing; with an exhausted source the match is final.

use vstd::prelude::*;
use crate::iterator::{TokenError, TokenOutput};
use crate::matching::{best_match, lemma_best_match_props, select_match};
use crate::tokens::{Token, TokenType};

verus! {

/// How the byte source ended after the buffered bytes: normal exhaustion,
/// or a read failure.
#[derive(Debug, Clone, Copy, PartialEq, Eq, Structural)]
pub enum SourceEnd {
    Eof,
    ReadError,
}

/// The decision one scan request reaches: a lexeme of a kind and length,
/// the end of the input, unrecognized input at an offset, or a read
/// failure.
pub ghost enum Outcome {
    Lexeme { kind: TokenType, len: int },
    End,
    Unrecognized { offset: int },
    ReadFailed,
}

/// The scanner core.
pub struct Scanner {
    /// The bytes the source yielded before it ended.
    pub input: Vec<u8>,
    /// Byte offset of the next unconsumed input; advances monotonically by
    /// exactly the length of each accepted match.
    pub cursor: usize,
    /// How the source ended after `input`.
    pub end: SourceEnd,
    /// The sticky failure status: set once a read failure is surfaced.
    pub failed: bool,
}

impl Scanner {
    /// The cursor never passes the end of the buffered input.
    pub open spec fn wf(self) -> bool {
        self.cursor <= self.input@.len()
    }

    /// The unconsumed remainder of the input.
    pub open spec fn rem(self) -> Seq<u8> {
        self.input@.skip(self.cursor as int)
    }

    /// This state after consuming `len` bytes.
    pub open spec fn advanced(self, len: int) -> Scanner {
        Scanner { cursor: (self.cursor + len) as usize, ..self }
    }

    /// The decision one scan request reaches in this state.
    pub open spec fn outcome(self) -> Outcome {
        if self.failed {
            Outcome::ReadFailed
        } else if self.rem().len() == 0 {
            if self.end == SourceEnd::Eof {
                Outcome::End
            } else {
                Outcome::ReadFailed
            }
        } else {
            match best_match(self.rem()) {
                None => Outcome::Unrecognized { offset: self.cursor as int },
                Some(p) => {
                    if p.1 == self.rem().len() && self.end == SourceEnd::ReadError {
                        Outcome::ReadFailed
                    } else {
                        Outcome::Lexeme { kind: p.0, len: p.1 }
                    }
                },
            }
        }
    }
}

/// A lexeme decision consumes at least one byte and at most the remainder:
/// the scanner always advances on success.
pub proof fn lemma_outcome_bounds(s: Scanner)
    requires
        s.wf(),
    ensures
        s.outcome() matches Outcome::Lexeme { kind, len } ==> 0 < len <= s.rem().len(),
{
    if !s.failed && s.rem().len() > 0 {
        lemma_best_match_props(s.rem());
    }
}

/// Advancing within the remainder moves the cursor exactly, keeps the
/// state well formed, and drops the consumed prefix from the remainder.
pub proof fn lemma_advanced(s: Scanner, len: int)
    requires
        s.wf(),
        0 <= len <= s.rem().len(),
    ensures
        s.advanced(len).cursor == s.cursor + len,
        s.advanced(len).wf(),
        s.advanced(len).input == s.input,
        s.advanced(len).end == s.end,
        s.advanced(len).failed == s.failed,
        s.advanced(len).rem() == s.rem().skip(len),
{
    assert(s.input.len() == s.input@.len());
    assert(s.advanced(len).rem() =~= s.rem().skip(len));
}

impl Scanner {
    /// A scanner over the bytes a source yielded and the way it ended.
    pub fn from_source(input: Vec<u8>, end: SourceEnd) -> (r: Scanner)
        ensures
            r.input == input,
            r.cursor == 0,
            r.end == end,
            !r.failed,
            r.wf(),
    {
        Scanner { input, cursor: 0, end, failed: false }
    }

    /// A scanner over a fully buffered input: every byte is available and
    /// the source then ends normally.
    pub fn from_bufreader(input: Vec<u8>) -> (r: Scanner)
        ensures
            r.input == input,
            r.cursor == 0,
            r.end == SourceEnd::Eof,
            !r.failed,
            r.wf(),
    {
        Scanner { input, cursor: 0, end: SourceEnd::Eof, failed: false }
    }

    /// One match-and-advance cycle: returns exactly one of a token, the
    /// end-of-input signal, or an error, as the state's decision says.
    /// On a token the cursor advances by the match length; end-of-input
    /// repeats on every further request; a read failure is wrapped into
    /// `TokenError::Io`, made sticky, and never retried; unrecognized
    /// input reports the offending offset and leaves the cursor there.
    #[verifier::loop_isolation(false)]
    pub fn next(&mut self) -> (r: TokenOutput)
        requires
            old(self).wf(),
        ensures
            final(self).wf(),
            final(self).input == old(self).input,
            final(self).end == old(self).end,
            match old(self).outcome() {
                Outcome::Lexeme { kind, len } => {
                    &&& r matches TokenOutput::Token(t) && t.token_type == kind && t.text@ == old(
                        self,
                    ).rem().take(len)
                    &&& final(self).cursor == old(self).cursor + len
                    &&& final(self).failed == old(self).failed
                },
                Outcome::End => {
                    &&& r matches TokenOutput::Eof
                    &&& final(self).cursor == old(self).cursor
                    &&& final(self).failed == old(self).failed
                },
                Outcome::Unrecognized { offset } => {
                    &&& r matches TokenOutput::Error(e) && e == TokenError::Unrecognized(
                        offset as usize,
                    )
                    &&& final(self).cursor == old(self).cursor
                    &&& final(self).failed == old(self).failed
                },
                Outcome::ReadFailed => {
                    &&& r matches TokenOutput::Error(e) && e == TokenError::Io
                    &&& final(self).cursor == old(self).cursor
                    &&& final(self).failed
                },
            },
    {
        if self.failed {
            return TokenOutput::Error(TokenError::Io);
        }
        let rem_len = self.input.len() - self.cursor;
        if rem_len == 0 {
            match self.end {
                SourceEnd::Eof => TokenOutput::Eof,
                SourceEnd::ReadError => {
                    self.failed = true;
                    TokenOutput::Error(TokenError::Io)
                },
            }
        } else {
            match select_match(&self.input, self.cursor) {
                None => TokenOutput::Error(TokenError::Unrecognized(self.cursor)),
                Some(p) => {
                    let (kind, len) = p;
                    if len == rem_len && self.end == SourceEnd::ReadError {
                        self.failed = true;
                        TokenOutput::Error(TokenError::Io)
                    } else {
                        let ghost rem0 = self.rem();
                        let mut text: Vec<u8> = Vec::new();
                        let mut i: usize = 0;
                        while i < len
                            invariant
                                i <= len,
                                text@ == rem0.take(i as int),
                            decreases len - i,
                        {
                            text.push(self.input[self.cursor + i]);
                            proof {
                                assert(rem0[i as int] == self.input@[self.cursor + i]);
                                assert(rem0.take(i as int).push(rem0[i as int]) =~= rem0.take(
                                    i as int + 1,
                                ));
                            }
                            i = i + 1;
                        }
                        self.cursor = self.cursor + len;
                        TokenOutput::Token(Token { token_type: kind, text })
                    }
                },
            }
        }
    }
}

// ---------------------------------------------------------------------------
// Full scans and the round-trip law
// ---------------------------------------------------------------------------

/// A full scan succeeds from this state: repeated requests yield lexemes
/// until the input is exhausted, never an error.
pub open spec fn lexes_to_end(s: Scanner) -> bool
    decreases s.input@.len() - s.cursor,
    when s.wf()
    via lexes_to_end_decreases
{
    match s.outcome() {
        Outcome::End => true,
        Outcome::Lexeme { kind, len } => lexes_to_end(s.advanced(len)),
        _ => false,
    }
}

#[via_fn]
proof fn lexes_to_end_decreases(s: Scanner) {
    lemma_outcome_bounds(s);
    if let Outcome::Lexeme { kind, len } = s.outcome() {
        lemma_advanced(s, len);
    }
}

/// The concatenation, in emission order, of the texts of the tokens a
/// full scan yields from this state.
pub open spec fn emitted_bytes(s: Scanner) -> Seq<u8>
    decreases s.input@.len() - s.cursor,
    when s.wf()
    via emitted_bytes_decreases
{
    match s.outcome() {
        Outcome::Lexeme { kind, len } => s.rem().take(len) + emitted_bytes(s.advanced(len)),
        _ => Seq::empty(),
    }
}

#[via_fn]
proof fn emitted_bytes_decreases(s: Scanner) {
    lemma_outcome_bounds(s);
    if let Outcome::Lexeme { kind, len } = s.outcome() {
        lemma_advanced(s, len);
    }
}

/// The round-trip law: when a scan runs to the end-of-input signal, the
/// emitted token texts, concatenated in emission order, reconstruct the
/// unconsumed input exactly.
pub proof fn lemma_scan_round_trip(s: Scanner)
    requires
        s.wf(),
        lexes_to_end(s),
    ensures
        emitted_bytes(s) == s.rem(),
    decreases s.input@.len() - s.cursor,
{
    lemma_outcome_bounds(s);
    match s.outcome() {
        Outcome::End => {
            assert(s.rem() =~= Seq::<u8>::empty());
        },
        Outcome::Lexeme { kind, len } => {
            lemma_advanced(s, len);
            let adv = s.advanced(len);
            lemma_scan_round_trip(adv);
            assert(s.rem() =~= s.rem().take(len) + s.rem().skip(len));
        },
        _ => {},
    }
}

} // verus!

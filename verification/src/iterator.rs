//! The streaming adapter: a pull-based sequence over the scanner core that
//! filters out trivia (whitespace and comments), forwarding end-of-input
//! and errors unchanged.

use vstd::prelude::*;
use crate::scanner::{lemma_outcome_bounds, Outcome, Scanner, SourceEnd};
use crate::tokens::{Token, TokenType};

verus! {

/// The scanner's closed error set: a read failure of the underlying
/// source, or input no pattern recognizes, with its byte offset.
#[derive(Debug, Clone, Copy, PartialEq, Eq, Structural)]
pub enum TokenError {
    /// The underlying source could not be read. Fatal and sticky.
    Io,
    /// No pattern matches at this byte offset. The scanner does not skip
    /// and retry; recovery is the caller's policy.
    Unrecognized(usize),
}

/// What one request for a token yields: a token, the end-of-input signal,
/// or an error.
#[derive(Debug, Clone)]
pub enum TokenOutput {
    Token(Token),
    Eof,
    Error(TokenError),
}

/// The streaming adapter over a scanner core. It is restartable only by
/// constructing a new instance over a new source.
pub struct TokenStreamer {
    pub scanner: Scanner,
}

// ---------------------------------------------------------------------------
// The adapter's decision model
// ---------------------------------------------------------------------------

/// The cursor once the scanner has consumed every leading trivia lexeme:
/// the position at which the adapter's next decision is made.
pub open spec fn settle_cursor(s: Scanner) -> int
    decreases s.input@.len() - s.cursor,
    when s.wf()
    via settle_cursor_decreases
{
    match s.outcome() {
        Outcome::Lexeme { kind, len } => if kind.is_trivia() {
            settle_cursor(s.advanced(len))
        } else {
            s.cursor as int
        },
        _ => s.cursor as int,
    }
}

#[via_fn]
proof fn settle_cursor_decreases(s: Scanner) {
    lemma_outcome_bounds(s);
    if let Outcome::Lexeme { kind, len } = s.outcome() {
        crate::scanner::lemma_advanced(s, len);
    }
}

/// The scanner state at the adapter's decision point.
pub open spec fn settled(s: Scanner) -> Scanner {
    Scanner { cursor: settle_cursor(s) as usize, ..s }
}

/// What one adapter request decides, from a given scanner state.
pub open spec fn stream_outcome(s: Scanner) -> Outcome {
    settled(s).outcome()
}

/// The settled cursor lies between the current cursor and the input's end.
pub proof fn lemma_settle_cursor_bounds(s: Scanner)
    requires
        s.wf(),
    ensures
        s.cursor <= settle_cursor(s) <= s.input@.len(),
    decreases s.input@.len() - s.cursor,
{
    lemma_outcome_bounds(s);
    match s.outcome() {
        Outcome::Lexeme { kind, len } => {
            if kind.is_trivia() {
                crate::scanner::lemma_advanced(s, len);
                lemma_settle_cursor_bounds(s.advanced(len));
            }
        },
        _ => {},
    }
}

/// Sticky failure: in a failed state every further request — from the core
/// or through the adapter — reports the read failure again and moves
/// nothing.
pub proof fn lemma_sticky_failure(s: Scanner)
    requires
        s.wf(),
        s.failed,
    ensures
        s.outcome() == Outcome::ReadFailed,
        stream_outcome(s) == Outcome::ReadFailed,
        settle_cursor(s) == s.cursor as int,
{
}

/// Inputs of nothing but trivia: a full scan yields only whitespace and
/// comment lexemes and then the end signal.
pub open spec fn all_trivia(s: Scanner) -> bool
    decreases s.input@.len() - s.cursor,
    when s.wf()
    via all_trivia_decreases
{
    match s.outcome() {
        Outcome::End => true,
        Outcome::Lexeme { kind, len } => kind.is_trivia() && all_trivia(s.advanced(len)),
        _ => false,
    }
}

#[via_fn]
proof fn all_trivia_decreases(s: Scanner) {
    lemma_outcome_bounds(s);
    if let Outcome::Lexeme { kind, len } = s.outcome() {
        crate::scanner::lemma_advanced(s, len);
    }
}

/// Trivia filtering: when the input holds nothing but whitespace and
/// comments, the adapter's first request already decides end-of-input —
/// zero tokens are emitted.
pub proof fn lemma_trivia_only_yields_end(s: Scanner)
    requires
        s.wf(),
        all_trivia(s),
    ensures
        stream_outcome(s) == Outcome::End,
    decreases s.input@.len() - s.cursor,
{
    lemma_outcome_bounds(s);
    match s.outcome() {
        Outcome::End => {},
        Outcome::Lexeme { kind, len } => {
            crate::scanner::lemma_advanced(s, len);
            lemma_trivia_only_yields_end(s.advanced(len));
            assert(settled(s) == settled(s.advanced(len)));
        },
        _ => {},
    }
}

// ---------------------------------------------------------------------------
// The adapter
// ---------------------------------------------------------------------------

impl TokenStreamer {
    /// An adapter over the bytes a source yielded and the way it ended.
    pub fn from_source(input: Vec<u8>, end: SourceEnd) -> (r: TokenStreamer)
        ensures
            r.scanner.input == input,
            r.scanner.cursor == 0,
            r.scanner.end == end,
            !r.scanner.failed,
            r.scanner.wf(),
    {
        TokenStreamer { scanner: Scanner::from_source(input, end) }
    }

    /// An adapter over a fully buffered input that then ends normally.
    pub fn from_bufreader(input: Vec<u8>) -> (r: TokenStreamer)
        ensures
            r.scanner.input == input,
            r.scanner.cursor == 0,
            r.scanner.end == SourceEnd::Eof,
            !r.scanner.failed,
            r.scanner.wf(),
    {
        TokenStreamer { scanner: Scanner::from_bufreader(input) }
    }

    /// The next semantically significant token: requests tokens from the
    /// core and discards trivia kinds; end-of-input and errors pass
    /// through unchanged.
    #[verifier::loop_isolation(false)]
    pub fn next_token(&mut self) -> (r: TokenOutput)
        requires
            old(self).scanner.wf(),
        ensures
            final(self).scanner.wf(),
            final(self).scanner.input == old(self).scanner.input,
            final(self).scanner.end == old(self).scanner.end,
            ({
                let s0 = old(self).scanner;
                let c = settle_cursor(s0);
                match stream_outcome(s0) {
                    Outcome::Lexeme { kind, len } => {
                        &&& !kind.is_trivia()
                        &&& r matches TokenOutput::Token(t) && t.token_type == kind && t.text@
                            == s0.input@.subrange(c, c + len)
                        &&& final(self).scanner.cursor == c + len
                        &&& final(self).scanner.failed == s0.failed
                    },
                    Outcome::End => {
                        &&& r matches TokenOutput::Eof
                        &&& final(self).scanner.cursor == c
                        &&& final(self).scanner.failed == s0.failed
                    },
                    Outcome::Unrecognized { offset } => {
                        &&& offset == c
                        &&& r matches TokenOutput::Error(e) && e == TokenError::Unrecognized(
                            c as usize,
                        )
                        &&& final(self).scanner.cursor == c
                        &&& final(self).scanner.failed == s0.failed
                    },
                    Outcome::ReadFailed => {
                        &&& r matches TokenOutput::Error(e) && e == TokenError::Io
                        &&& final(self).scanner.cursor == c
                        &&& final(self).scanner.failed
                    },
                }
            }),
    {
        loop
            invariant
                self.scanner.wf(),
                self.scanner.input == old(self).scanner.input,
                self.scanner.end == old(self).scanner.end,
                self.scanner.failed == old(self).scanner.failed,
                settle_cursor(self.scanner) == settle_cursor(old(self).scanner),
                old(self).scanner.cursor <= self.scanner.cursor,
            decreases self.scanner.input@.len() - self.scanner.cursor,
        {
            proof {
                lemma_outcome_bounds(self.scanner);
                lemma_settle_cursor_bounds(self.scanner);
            }
            let ghost pre = self.scanner;
            let out = self.scanner.next();
            match out {
                TokenOutput::Token(t) => {
                    let trivia = match t.token_type {
                        TokenType::Comment => true,
                        TokenType::Whitespace => true,
                        _ => false,
                    };
                    if !trivia {
                        proof {
                            assert(settle_cursor(pre) == pre.cursor as int);
                            assert(settled(pre) == pre);
                        }
                        return TokenOutput::Token(t);
                    }
                    proof {
                        let len = match pre.outcome() {
                            Outcome::Lexeme { kind: _, len } => len,
                            _ => 0int,
                        };
                        assert(settle_cursor(pre) == settle_cursor(pre.advanced(len)));
                        assert(self.scanner == pre.advanced(len));
                    }
                },
                TokenOutput::Eof => {
                    proof {
                        assert(settle_cursor(pre) == pre.cursor as int);
                        assert(settled(pre) == pre);
                    }
                    return TokenOutput::Eof;
                },
                TokenOutput::Error(e) => {
                    proof {
                        assert(settle_cursor(pre) == pre.cursor as int);
                        assert(settled(pre) == pre);
                    }
                    return TokenOutput::Error(e);
                },
            }
        }
    }
}

} // verus!

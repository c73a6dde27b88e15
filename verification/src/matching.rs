//! Pattern semantics and the match-selection algorithm.
//!
//! Every token kind's pattern is given an exact mathematical meaning as a
//! predicate over byte sequences (`token_matches`). The longest prefix of
//! the remaining input that a kind accepts is `match_len`, and the winner
//! across all kinds — greatest length, then smallest declaration ordinal —
//! is `best_match`. The executable matchers are verified against these
//! definitions.

use vstd::prelude::*;
use crate::tokens::{TokenType, all_kinds, lemma_ordinal_positions};

verus! {

/// `'` (quote)
pub const QUOTE: u8 = 39;

/// `\` (backslash)
pub const BACKSLASH: u8 = 92;

/// `/`
pub const SLASH: u8 = 47;

/// `*`
pub const STAR: u8 = 42;

// ---------------------------------------------------------------------------
// Byte classes
// ---------------------------------------------------------------------------

/// First byte of a C-style identifier: `[_.A-Za-z]`.
pub open spec fn is_id_start(b: u8) -> bool {
    b == 95 || b == 46 || (65 <= b && b <= 90) || (97 <= b && b <= 122)
}

/// Later byte of a C-style identifier: `[_.0-9A-Za-z]`.
pub open spec fn is_id_cont(b: u8) -> bool {
    is_id_start(b) || is_dec_digit(b)
}

/// `[0-9]`
pub open spec fn is_dec_digit(b: u8) -> bool {
    48 <= b && b <= 57
}

/// `[0-7]`
pub open spec fn is_oct_digit(b: u8) -> bool {
    48 <= b && b <= 55
}

/// `[0-9a-fA-F]`
pub open spec fn is_hex_digit(b: u8) -> bool {
    is_dec_digit(b) || (97 <= b && b <= 102) || (65 <= b && b <= 70)
}

/// Whitespace: space, horizontal tab, line feed, form feed, carriage return.
pub open spec fn is_ws_byte(b: u8) -> bool {
    b == 32 || b == 9 || b == 10 || b == 12 || b == 13
}

/// A byte that may stand alone inside a simple character constant:
/// anything but a quote, a backslash, or a line break.
pub open spec fn is_plain_char_byte(b: u8) -> bool {
    b != QUOTE && b != BACKSLASH && b != 10 && b != 13
}

/// The simple escape sequences of C: `\?`, `\'`, `\"`, `\\`, `\a`, `\b`,
/// `\f`, `\n`, `\r`, `\t`, `\v`.
pub open spec fn is_simple_escape_byte(b: u8) -> bool {
    b == 63 || b == QUOTE || b == 34 || b == BACKSLASH || b == 97 || b == 98 || b == 102
        || b == 110 || b == 114 || b == 116 || b == 118
}

// ---------------------------------------------------------------------------
// What each kind's pattern accepts, as a predicate over whole sequences
// ---------------------------------------------------------------------------

/// The kinds whose pattern is one fixed byte string.
pub open spec fn is_literal_kind(kind: TokenType) -> bool {
    match kind {
        TokenType::Identifier => false,
        TokenType::Number => false,
        TokenType::CharConst => false,
        TokenType::Comment => false,
        TokenType::Whitespace => false,
        _ => true,
    }
}

/// The fixed byte string of a literal kind (empty for the content kinds,
/// which have no fixed spelling).
pub open spec fn literal_of(kind: TokenType) -> Seq<u8> {
    match kind {
        // %token
        TokenType::Token => seq![37u8, 116, 111, 107, 101, 110],
        // %left
        TokenType::Left => seq![37u8, 108, 101, 102, 116],
        // %right
        TokenType::Right => seq![37u8, 114, 105, 103, 104, 116],
        // %nonassoc
        TokenType::NonAssoc => seq![37u8, 110, 111, 110, 97, 115, 115, 111, 99],
        // %type
        TokenType::Type => seq![37u8, 116, 121, 112, 101],
        // %start
        TokenType::Start => seq![37u8, 115, 116, 97, 114, 116],
        // %union
        TokenType::Union => seq![37u8, 117, 110, 105, 111, 110],
        // %prec
        TokenType::Prec => seq![37u8, 112, 114, 101, 99],
        // %%
        TokenType::PercentPercent => seq![37u8, 37],
        // :
        TokenType::Colon => seq![58u8],
        // ;
        TokenType::Semi => seq![59u8],
        // |
        TokenType::Pipe => seq![124u8],
        // %{
        TokenType::PercentBlock => seq![37u8, 123],
        // {
        TokenType::CodeBlock => seq![123u8],
        // <
        TokenType::UnionTag => seq![60u8],
        _ => Seq::empty(),
    }
}

/// `[_.A-Za-z][_.0-9A-Za-z]*`
pub open spec fn identifier_matches(s: Seq<u8>) -> bool {
    &&& s.len() >= 1
    &&& is_id_start(s[0])
    &&& forall|i: int| 1 <= i < s.len() ==> is_id_cont(#[trigger] s[i])
}

/// `0[xX][0-9a-fA-F]*`
pub open spec fn hex_number_matches(s: Seq<u8>) -> bool {
    &&& s.len() >= 2
    &&& s[0] == 48
    &&& (s[1] == 120 || s[1] == 88)
    &&& forall|i: int| 2 <= i < s.len() ==> is_hex_digit(#[trigger] s[i])
}

/// `0[0-7]*`
pub open spec fn oct_number_matches(s: Seq<u8>) -> bool {
    &&& s.len() >= 1
    &&& s[0] == 48
    &&& forall|i: int| 1 <= i < s.len() ==> is_oct_digit(#[trigger] s[i])
}

/// `[1-9][0-9]*`
pub open spec fn dec_number_matches(s: Seq<u8>) -> bool {
    &&& s.len() >= 1
    &&& 49 <= s[0] && s[0] <= 57
    &&& forall|i: int| 1 <= i < s.len() ==> is_dec_digit(#[trigger] s[i])
}

/// An integer literal in hex, octal or decimal form.
pub open spec fn number_matches(s: Seq<u8>) -> bool {
    hex_number_matches(s) || oct_number_matches(s) || dec_number_matches(s)
}

/// `'c'` with a plain character.
pub open spec fn cc_simple(s: Seq<u8>) -> bool {
    &&& s.len() == 3
    &&& s[0] == QUOTE
    &&& is_plain_char_byte(s[1])
    &&& s[2] == QUOTE
}

/// `'\c'` with a simple escape sequence.
pub open spec fn cc_escape(s: Seq<u8>) -> bool {
    &&& s.len() == 4
    &&& s[0] == QUOTE
    &&& s[1] == BACKSLASH
    &&& is_simple_escape_byte(s[2])
    &&& s[3] == QUOTE
}

/// `'\ooo'` with one to three octal digits.
pub open spec fn cc_octal(s: Seq<u8>) -> bool {
    &&& 4 <= s.len() <= 6
    &&& s[0] == QUOTE
    &&& s[1] == BACKSLASH
    &&& forall|i: int| 2 <= i < s.len() - 1 ==> is_oct_digit(#[trigger] s[i])
    &&& s[s.len() - 1] == QUOTE
}

/// `'\xh...h'` with at least one hex digit.
pub open spec fn cc_hex(s: Seq<u8>) -> bool {
    &&& s.len() >= 5
    &&& s[0] == QUOTE
    &&& s[1] == BACKSLASH
    &&& s[2] == 120
    &&& forall|i: int| 3 <= i < s.len() - 1 ==> is_hex_digit(#[trigger] s[i])
    &&& s[s.len() - 1] == QUOTE
}

/// `'\uhhhh'`: a four-digit universal character name.
pub open spec fn cc_univ4(s: Seq<u8>) -> bool {
    &&& s.len() == 8
    &&& s[0] == QUOTE
    &&& s[1] == BACKSLASH
    &&& s[2] == 117
    &&& forall|i: int| 3 <= i < 7 ==> is_hex_digit(#[trigger] s[i])
    &&& s[7] == QUOTE
}

/// `'\Uhhhhhhhh'`: an eight-digit universal character name.
pub open spec fn cc_univ8(s: Seq<u8>) -> bool {
    &&& s.len() == 12
    &&& s[0] == QUOTE
    &&& s[1] == BACKSLASH
    &&& s[2] == 85
    &&& forall|i: int| 3 <= i < 11 ==> is_hex_digit(#[trigger] s[i])
    &&& s[11] == QUOTE
}

/// A single-character constant in any of its C-like literal forms.
pub open spec fn char_const_matches(s: Seq<u8>) -> bool {
    cc_simple(s) || cc_escape(s) || cc_octal(s) || cc_hex(s) || cc_univ4(s) || cc_univ8(s)
}

/// A block comment `/* ... */`, non-greedy: it closes at the first `*/`.
pub open spec fn comment_matches(s: Seq<u8>) -> bool {
    &&& s.len() >= 4
    &&& s[0] == SLASH
    &&& s[1] == STAR
    &&& s[s.len() - 2] == STAR
    &&& s[s.len() - 1] == SLASH
    &&& forall|i: int| 2 <= i < s.len() - 2 ==> !(#[trigger] s[i] == STAR && s[i + 1] == SLASH)
}

/// A run of whitespace bytes.
pub open spec fn whitespace_matches(s: Seq<u8>) -> bool {
    &&& s.len() >= 1
    &&& forall|i: int| 0 <= i < s.len() ==> is_ws_byte(#[trigger] s[i])
}

/// Whether the whole sequence `s` is a span the kind's pattern accepts.
pub open spec fn token_matches(kind: TokenType, s: Seq<u8>) -> bool {
    match kind {
        TokenType::Identifier => identifier_matches(s),
        TokenType::Number => number_matches(s),
        TokenType::CharConst => char_const_matches(s),
        TokenType::Comment => comment_matches(s),
        TokenType::Whitespace => whitespace_matches(s),
        _ => s == literal_of(kind),
    }
}

// ---------------------------------------------------------------------------
// Longest match of one kind
// ---------------------------------------------------------------------------

/// The greatest `m <= n` such that the kind accepts `s.take(m)`, or `0`
/// when no non-empty prefix up to length `n` is accepted.
pub open spec fn match_len_upto(kind: TokenType, s: Seq<u8>, n: int) -> int
    decreases n,
{
    if n <= 0 {
        0
    } else if token_matches(kind, s.take(n)) {
        n
    } else {
        match_len_upto(kind, s, n - 1)
    }
}

/// The length of the longest prefix of `s` the kind accepts (`0`: none).
/// Because no pattern accepts the empty sequence, `0` is unambiguous.
pub open spec fn match_len(kind: TokenType, s: Seq<u8>) -> int {
    match_len_upto(kind, s, s.len() as int)
}

pub proof fn lemma_match_len_upto_props(kind: TokenType, s: Seq<u8>, n: int)
    requires
        0 <= n <= s.len(),
    ensures
        0 <= match_len_upto(kind, s, n) <= n,
        match_len_upto(kind, s, n) > 0 ==> token_matches(
            kind,
            s.take(match_len_upto(kind, s, n)),
        ),
        forall|j: int|
            match_len_upto(kind, s, n) < j <= n ==> !token_matches(kind, #[trigger] s.take(j)),
    decreases n,
{
    if n > 0 && !token_matches(kind, s.take(n)) {
        lemma_match_len_upto_props(kind, s, n - 1);
    }
}

/// The characterization of `match_len`: bounds, acceptance of the chosen
/// prefix, and rejection of every longer prefix.
pub proof fn lemma_match_len_props(kind: TokenType, s: Seq<u8>)
    ensures
        0 <= match_len(kind, s) <= s.len(),
        match_len(kind, s) > 0 ==> token_matches(kind, s.take(match_len(kind, s))),
        forall|j: int|
            match_len(kind, s) < j <= s.len() ==> !token_matches(kind, #[trigger] s.take(j)),
{
    lemma_match_len_upto_props(kind, s, s.len() as int);
}

proof fn lemma_match_len_upto_is(kind: TokenType, s: Seq<u8>, m: int, n: int)
    requires
        0 <= m <= n <= s.len(),
        m > 0 ==> token_matches(kind, s.take(m)),
        forall|j: int| m < j <= n ==> !token_matches(kind, #[trigger] s.take(j)),
    ensures
        match_len_upto(kind, s, n) == m,
    decreases n,
{
    if n > m {
        lemma_match_len_upto_is(kind, s, m, n - 1);
    }
}

/// `match_len` is the unique value with the characterization above.
pub proof fn lemma_match_len_is(kind: TokenType, s: Seq<u8>, m: int)
    requires
        0 <= m <= s.len(),
        m > 0 ==> token_matches(kind, s.take(m)),
        forall|j: int| m < j <= s.len() ==> !token_matches(kind, #[trigger] s.take(j)),
    ensures
        match_len(kind, s) == m,
{
    lemma_match_len_upto_is(kind, s, m, s.len() as int);
}

// ---------------------------------------------------------------------------
// The registry invariant: no pattern accepts the empty sequence
// ---------------------------------------------------------------------------

/// Every literal kind's spelling has at least one byte.
pub proof fn lemma_literal_nonempty(kind: TokenType)
    requires
        is_literal_kind(kind),
    ensures
        1 <= literal_of(kind).len() <= 9,
{
}

/// No kind's pattern accepts the empty byte sequence, so a successful match
/// always advances the scanner.
pub proof fn lemma_no_empty_match(kind: TokenType)
    ensures
        !token_matches(kind, Seq::<u8>::empty()),
{
    let e = Seq::<u8>::empty();
    if is_literal_kind(kind) {
        lemma_literal_nonempty(kind);
        assert(e.len() == 0);
    }
}

/// The registry invariant over the whole closed kind set: for every kind,
/// the empty input matches no pattern.
pub proof fn lemma_registry_no_empty_match()
    ensures
        forall|kind: TokenType| !token_matches(kind, Seq::<u8>::empty()),
{
    assert forall|kind: TokenType| !token_matches(kind, Seq::<u8>::empty()) by {
        lemma_no_empty_match(kind);
    }
}

// ---------------------------------------------------------------------------
// Executable byte classification and run scanning
// ---------------------------------------------------------------------------

/// The byte classes the executable run scanners recognize.
#[derive(Clone, Copy)]
enum ByteClass {
    IdStart,
    IdCont,
    DecDigit,
    OctDigit,
    HexDigit,
    Space,
}

spec fn in_class(cls: ByteClass, b: u8) -> bool {
    match cls {
        ByteClass::IdStart => is_id_start(b),
        ByteClass::IdCont => is_id_cont(b),
        ByteClass::DecDigit => is_dec_digit(b),
        ByteClass::OctDigit => is_oct_digit(b),
        ByteClass::HexDigit => is_hex_digit(b),
        ByteClass::Space => is_ws_byte(b),
    }
}

fn byte_in_class(cls: ByteClass, b: u8) -> (r: bool)
    ensures
        r == in_class(cls, b),
{
    match cls {
        ByteClass::IdStart => b == 95 || b == 46 || (65 <= b && b <= 90) || (97 <= b && b <= 122),
        ByteClass::IdCont => b == 95 || b == 46 || (65 <= b && b <= 90) || (97 <= b && b <= 122)
            || (48 <= b && b <= 57),
        ByteClass::DecDigit => 48 <= b && b <= 57,
        ByteClass::OctDigit => 48 <= b && b <= 55,
        ByteClass::HexDigit => (48 <= b && b <= 57) || (97 <= b && b <= 102) || (65 <= b && b
            <= 70),
        ByteClass::Space => b == 32 || b == 9 || b == 10 || b == 12 || b == 13,
    }
}

/// The end of the run of `cls` bytes beginning at `start`: the first index
/// at or after `start` holding a byte outside the class, or the input's end.
#[verifier::loop_isolation(false)]
fn run_end(input: &Vec<u8>, start: usize, cls: ByteClass) -> (r: usize)
    requires
        start <= input.len(),
    ensures
        start <= r <= input@.len(),
        forall|i: int| start <= i < r ==> in_class(cls, #[trigger] input@[i]),
        r < input@.len() ==> !in_class(cls, input@[r as int]),
{
    let mut j: usize = start;
    while j < input.len()
        invariant
            start <= j <= input@.len(),
            forall|i: int| start <= i < j ==> in_class(cls, #[trigger] input@[i]),
        decreases input@.len() - j,
    {
        if !byte_in_class(cls, input[j]) {
            return j;
        }
        j = j + 1;
    }
    j
}

// ---------------------------------------------------------------------------
// Executable longest-match computation, one kind at a time
// ---------------------------------------------------------------------------

/// The fixed spelling of a kind as a vector (empty for the content kinds).
fn literal_bytes(kind: TokenType) -> (r: Vec<u8>)
    ensures
        r@ == literal_of(kind),
{
    let r: Vec<u8> = match kind {
        TokenType::Token => vec![37u8, 116, 111, 107, 101, 110],
        TokenType::Left => vec![37u8, 108, 101, 102, 116],
        TokenType::Right => vec![37u8, 114, 105, 103, 104, 116],
        TokenType::NonAssoc => vec![37u8, 110, 111, 110, 97, 115, 115, 111, 99],
        TokenType::Type => vec![37u8, 116, 121, 112, 101],
        TokenType::Start => vec![37u8, 115, 116, 97, 114, 116],
        TokenType::Union => vec![37u8, 117, 110, 105, 111, 110],
        TokenType::Prec => vec![37u8, 112, 114, 101, 99],
        TokenType::PercentPercent => vec![37u8, 37],
        TokenType::Colon => vec![58u8],
        TokenType::Semi => vec![59u8],
        TokenType::Pipe => vec![124u8],
        TokenType::PercentBlock => vec![37u8, 123],
        TokenType::CodeBlock => vec![123u8],
        TokenType::UnionTag => vec![60u8],
        TokenType::Identifier => Vec::new(),
        TokenType::Number => Vec::new(),
        TokenType::CharConst => Vec::new(),
        TokenType::Comment => Vec::new(),
        TokenType::Whitespace => Vec::new(),
    };
    proof {
        assert(r@ =~= literal_of(kind));
    }
    r
}

/// Whether `lit` stands byte for byte at offset `pos` of the input.
#[verifier::loop_isolation(false)]
fn starts_with_at(input: &Vec<u8>, pos: usize, lit: &Vec<u8>) -> (r: bool)
    requires
        pos <= input.len(),
    ensures
        r == (lit@.len() <= input@.len() - pos && input@.skip(pos as int).take(
            lit@.len() as int,
        ) == lit@),
{
    let ghost rem = input@.skip(pos as int);
    if lit.len() > input.len() - pos {
        return false;
    }
    let mut i: usize = 0;
    while i < lit.len()
        invariant
            pos + lit@.len() <= input@.len(),
            i <= lit@.len(),
            pos <= input@.len(),
            forall|j: int| 0 <= j < i ==> input@[pos + j] == lit@[j],
        decreases lit@.len() - i,
    {
        if input[pos + i] != lit[i] {
            proof {
                assert(rem.take(lit@.len() as int)[i as int] == input@[pos + i]);
            }
            return false;
        }
        i = i + 1;
    }
    proof {
        assert(rem.take(lit@.len() as int) =~= lit@);
    }
    true
}

/// Longest match at `pos` for a kind with a fixed spelling: the spelling's
/// length when it stands there, else no match.
fn literal_match_len(kind: TokenType, input: &Vec<u8>, pos: usize) -> (r: usize)
    requires
        pos <= input.len(),
        is_literal_kind(kind),
    ensures
        r as int == match_len(kind, input@.skip(pos as int)),
        pos + r <= input@.len(),
{
    let ghost rem = input@.skip(pos as int);
    let lit = literal_bytes(kind);
    proof {
        lemma_literal_nonempty(kind);
    }
    if starts_with_at(input, pos, &lit) {
        proof {
            let l = lit@.len() as int;
            assert(token_matches(kind, rem.take(l)));
            assert forall|j: int| l < j <= rem.len() implies !token_matches(
                kind,
                #[trigger] rem.take(j),
            ) by {
                assert(rem.take(j).len() == j);
            }
            lemma_match_len_is(kind, rem, l);
        }
        lit.len()
    } else {
        proof {
            assert forall|j: int| 0 < j <= rem.len() implies !token_matches(
                kind,
                #[trigger] rem.take(j),
            ) by {
                assert(rem.take(j).len() == j);
            }
            lemma_match_len_is(kind, rem, 0);
        }
        0
    }
}

/// Longest identifier match at `pos`: the run of identifier bytes, when it
/// opens with an identifier-start byte.
fn identifier_match_len(input: &Vec<u8>, pos: usize) -> (r: usize)
    requires
        pos <= input.len(),
    ensures
        r as int == match_len(TokenType::Identifier, input@.skip(pos as int)),
        pos + r <= input@.len(),
{
    let ghost rem = input@.skip(pos as int);
    if pos == input.len() || !byte_in_class(ByteClass::IdStart, input[pos]) {
        proof {
            assert forall|j: int| 0 < j <= rem.len() implies !token_matches(
                TokenType::Identifier,
                #[trigger] rem.take(j),
            ) by {
                assert(rem.take(j)[0] == rem[0]);
                assert(rem[0] == input@[pos as int]);
            }
            lemma_match_len_is(TokenType::Identifier, rem, 0);
        }
        return 0;
    }
    let e = run_end(input, pos + 1, ByteClass::IdCont);
    let r = e - pos;
    proof {
        let m = r as int;
        assert(rem.take(m)[0] == rem[0]);
        assert forall|i: int| 1 <= i < m implies is_id_cont(#[trigger] rem.take(m)[i]) by {
            assert(rem.take(m)[i] == rem[i]);
            assert(rem[i] == input@[pos + i]);
        }
        assert(identifier_matches(rem.take(m)));
        assert forall|j: int| m < j <= rem.len() implies !token_matches(
            TokenType::Identifier,
            #[trigger] rem.take(j),
        ) by {
            assert(rem.take(j)[m] == rem[m]);
            assert(rem[m] == input@[e as int]);
            assert(!is_id_cont(input@[e as int]));
        }
        lemma_match_len_is(TokenType::Identifier, rem, m);
    }
    r
}

/// Longest whitespace match at `pos`: the run of whitespace bytes.
fn whitespace_match_len(input: &Vec<u8>, pos: usize) -> (r: usize)
    requires
        pos <= input.len(),
    ensures
        r as int == match_len(TokenType::Whitespace, input@.skip(pos as int)),
        pos + r <= input@.len(),
{
    let ghost rem = input@.skip(pos as int);
    let e = run_end(input, pos, ByteClass::Space);
    let r = e - pos;
    proof {
        let m = r as int;
        if m > 0 {
            assert forall|i: int| 0 <= i < m implies is_ws_byte(#[trigger] rem.take(m)[i]) by {
                assert(rem.take(m)[i] == rem[i]);
                assert(rem[i] == input@[pos + i]);
            }
            assert(whitespace_matches(rem.take(m)));
        }
        assert forall|j: int| m < j <= rem.len() implies !token_matches(
            TokenType::Whitespace,
            #[trigger] rem.take(j),
        ) by {
            assert(rem.take(j)[m] == rem[m]);
            assert(rem[m] == input@[e as int]);
            assert(!is_ws_byte(input@[e as int]));
        }
        lemma_match_len_is(TokenType::Whitespace, rem, m);
    }
    r
}

/// Longest number match at `pos`: the best of the hex, octal and decimal
/// disjuncts of the number pattern.
fn number_match_len(input: &Vec<u8>, pos: usize) -> (r: usize)
    requires
        pos <= input.len(),
    ensures
        r as int == match_len(TokenType::Number, input@.skip(pos as int)),
        pos + r <= input@.len(),
{
    let ghost rem = input@.skip(pos as int);
    let n = input.len() - pos;
    let hex_len: usize = if n >= 2 && input[pos] == 48 && (input[pos + 1] == 120 || input[pos + 1]
        == 88) {
        run_end(input, pos + 2, ByteClass::HexDigit) - pos
    } else {
        0
    };
    let oct_len: usize = if n >= 1 && input[pos] == 48 {
        run_end(input, pos + 1, ByteClass::OctDigit) - pos
    } else {
        0
    };
    let dec_len: usize = if n >= 1 && 49 <= input[pos] && input[pos] <= 57 {
        run_end(input, pos + 1, ByteClass::DecDigit) - pos
    } else {
        0
    };
    let r = if hex_len >= oct_len && hex_len >= dec_len {
        hex_len
    } else if oct_len >= dec_len {
        oct_len
    } else {
        dec_len
    };
    proof {
        let m = r as int;
        assert forall|i: int| 0 <= i < rem.len() implies rem[i] == input@[pos + i] by {}
        // Each disjunct accepts exactly the prefixes up to its own best length.
        if hex_len > 0 {
            assert(hex_number_matches(rem.take(hex_len as int))) by {
                assert(rem.take(hex_len as int)[0] == rem[0]);
                assert(rem.take(hex_len as int)[1] == rem[1]);
                assert forall|i: int| 2 <= i < hex_len implies is_hex_digit(
                    #[trigger] rem.take(hex_len as int)[i],
                ) by {
                    assert(rem.take(hex_len as int)[i] == rem[i]);
                }
            }
        }
        if oct_len > 0 {
            assert(oct_number_matches(rem.take(oct_len as int))) by {
                assert(rem.take(oct_len as int)[0] == rem[0]);
                assert forall|i: int| 1 <= i < oct_len implies is_oct_digit(
                    #[trigger] rem.take(oct_len as int)[i],
                ) by {
                    assert(rem.take(oct_len as int)[i] == rem[i]);
                }
            }
        }
        if dec_len > 0 {
            assert(dec_number_matches(rem.take(dec_len as int))) by {
                assert(rem.take(dec_len as int)[0] == rem[0]);
                assert forall|i: int| 1 <= i < dec_len implies is_dec_digit(
                    #[trigger] rem.take(dec_len as int)[i],
                ) by {
                    assert(rem.take(dec_len as int)[i] == rem[i]);
                }
            }
        }
        if m > 0 {
            assert(number_matches(rem.take(m)));
        }
        assert forall|j: int| m < j <= rem.len() implies !token_matches(
            TokenType::Number,
            #[trigger] rem.take(j),
        ) by {
            let t = rem.take(j);
            assert(t.len() == j);
            assert(t[0] == rem[0]);
            if j >= 2 {
                assert(t[1] == rem[1]);
            }
            assert(!hex_number_matches(t)) by {
                if j >= 2 && rem[0] == 48 && (rem[1] == 120 || rem[1] == 88) {
                    // the hex run ends strictly before j
                    assert(2 <= hex_len < j);
                    assert(t[hex_len as int] == rem[hex_len as int]);
                    assert(rem[hex_len as int] == input@[pos + hex_len]);
                    assert(!is_hex_digit(input@[pos + hex_len]));
                }
            }
            assert(!oct_number_matches(t)) by {
                if rem[0] == 48 {
                    assert(1 <= oct_len < j);
                    assert(t[oct_len as int] == rem[oct_len as int]);
                    assert(!is_oct_digit(input@[pos + oct_len]));
                }
            }
            assert(!dec_number_matches(t)) by {
                if 49 <= rem[0] && rem[0] <= 57 {
                    assert(1 <= dec_len < j);
                    assert(t[dec_len as int] == rem[dec_len as int]);
                    assert(!is_dec_digit(input@[pos + dec_len]));
                }
            }
        }
        lemma_match_len_is(TokenType::Number, rem, m);
    }
    r
}

/// Longest character-constant match at `pos`, across all of the constant's
/// literal forms. The byte after the opening quote (and, for escapes, the
/// byte after the backslash) tells the forms apart, so at most one form can
/// accept a prefix at a given position.
fn char_const_match_len(input: &Vec<u8>, pos: usize) -> (r: usize)
    requires
        pos <= input.len(),
    ensures
        r as int == match_len(TokenType::CharConst, input@.skip(pos as int)),
        pos + r <= input@.len(),
{
    let ghost rem = input@.skip(pos as int);
    proof {
        assert forall|i: int| 0 <= i < rem.len() implies rem[i] == input@[pos + i] by {}
    }
    let n = input.len() - pos;
    if n < 3 || input[pos] != QUOTE {
        proof {
            assert forall|j: int| 0 < j <= rem.len() implies !token_matches(
                TokenType::CharConst,
                #[trigger] rem.take(j),
            ) by {
                let t = rem.take(j);
                assert(t.len() == j);
                assert(t[0] == rem[0]);
            }
            lemma_match_len_is(TokenType::CharConst, rem, 0);
        }
        return 0;
    }
    if input[pos + 1] != BACKSLASH {
        let ok = input[pos + 1] != QUOTE && input[pos + 1] != 10 && input[pos + 1] != 13 && input[
            pos + 2
        ] == QUOTE;
        let r: usize = if ok {
            3
        } else {
            0
        };
        proof {
            let m = r as int;
            if m > 0 {
                let t = rem.take(3);
                assert(t[0] == rem[0] && t[1] == rem[1] && t[2] == rem[2]);
                assert(cc_simple(t));
            }
            assert forall|j: int| m < j <= rem.len() implies !token_matches(
                TokenType::CharConst,
                #[trigger] rem.take(j),
            ) by {
                let t = rem.take(j);
                assert(t.len() == j);
                assert(t[0] == rem[0]);
                if j >= 2 {
                    assert(t[1] == rem[1]);
                }
                if j >= 3 {
                    assert(t[2] == rem[2]);
                }
            }
            lemma_match_len_is(TokenType::CharConst, rem, m);
        }
        return r;
    }
    // the constant opens with a quote and a backslash
    let c2 = input[pos + 2];
    if c2 == 120 {
        // '\x...': at least one hex digit, then the closing quote
        let e = run_end(input, pos + 3, ByteClass::HexDigit);
        let ghost k = e - pos;
        let r: usize = if e > pos + 3 && e < input.len() && input[e] == QUOTE {
            e - pos + 1
        } else {
            0
        };
        proof {
            let m = r as int;
            if m > 0 {
                let t = rem.take(m);
                assert(t[0] == rem[0] && t[1] == rem[1] && t[2] == rem[2]);
                assert(t[m - 1] == rem[k]);
                assert forall|i: int| 3 <= i < m - 1 implies is_hex_digit(#[trigger] t[i]) by {
                    assert(t[i] == rem[i]);
                    assert(rem[i] == input@[pos + i]);
                }
                assert(cc_hex(t));
            }
            assert forall|j: int| m < j <= rem.len() implies !token_matches(
                TokenType::CharConst,
                #[trigger] rem.take(j),
            ) by {
                let t = rem.take(j);
                assert(t.len() == j);
                assert(t[0] == rem[0]);
                if j >= 2 {
                    assert(t[1] == rem[1]);
                }
                if j >= 3 {
                    assert(t[2] == rem[2]);
                }
                assert(!cc_hex(t)) by {
                    if j >= 5 {
                        if j - 1 < k {
                            assert(t[j - 1] == rem[j - 1]);
                            assert(is_hex_digit(input@[pos + (j - 1)]));
                        } else if j - 1 == k {
                            assert(t[j - 1] == rem[k]);
                        } else {
                            assert(t[k] == rem[k]);
                            assert(!is_hex_digit(input@[e as int]));
                        }
                    }
                }
            }
            lemma_match_len_is(TokenType::CharConst, rem, m);
        }
        return r;
    }
    if c2 == 117 {
        // '\uhhhh'
        let e = run_end(input, pos + 3, ByteClass::HexDigit);
        let r: usize = if n >= 8 && e >= pos + 7 && input[pos + 7] == QUOTE {
            8
        } else {
            0
        };
        proof {
            let m = r as int;
            if m > 0 {
                let t = rem.take(8);
                assert(t[0] == rem[0] && t[1] == rem[1] && t[2] == rem[2] && t[7] == rem[7]);
                assert forall|i: int| 3 <= i < 7 implies is_hex_digit(#[trigger] t[i]) by {
                    assert(t[i] == rem[i]);
                    assert(rem[i] == input@[pos + i]);
                }
                assert(cc_univ4(t));
            }
            assert forall|j: int| m < j <= rem.len() implies !token_matches(
                TokenType::CharConst,
                #[trigger] rem.take(j),
            ) by {
                let t = rem.take(j);
                assert(t.len() == j);
                assert(t[0] == rem[0]);
                if j >= 2 {
                    assert(t[1] == rem[1]);
                }
                if j >= 3 {
                    assert(t[2] == rem[2]);
                }
                assert(!cc_univ4(t)) by {
                    if j == 8 {
                        assert(t[7] == rem[7]);
                        if e < pos + 7 {
                            assert(t[e - pos] == rem[e - pos]);
                            assert(!is_hex_digit(input@[e as int]));
                        }
                    }
                }
            }
            lemma_match_len_is(TokenType::CharConst, rem, m);
        }
        return r;
    }
    if c2 == 85 {
        // '\Uhhhhhhhh'
        let e = run_end(input, pos + 3, ByteClass::HexDigit);
        let r: usize = if n >= 12 && e >= pos + 11 && input[pos + 11] == QUOTE {
            12
        } else {
            0
        };
        proof {
            let m = r as int;
            if m > 0 {
                let t = rem.take(12);
                assert(t[0] == rem[0] && t[1] == rem[1] && t[2] == rem[2] && t[11] == rem[11]);
                assert forall|i: int| 3 <= i < 11 implies is_hex_digit(#[trigger] t[i]) by {
                    assert(t[i] == rem[i]);
                    assert(rem[i] == input@[pos + i]);
                }
                assert(cc_univ8(t));
            }
            assert forall|j: int| m < j <= rem.len() implies !token_matches(
                TokenType::CharConst,
                #[trigger] rem.take(j),
            ) by {
                let t = rem.take(j);
                assert(t.len() == j);
                assert(t[0] == rem[0]);
                if j >= 2 {
                    assert(t[1] == rem[1]);
                }
                if j >= 3 {
                    assert(t[2] == rem[2]);
                }
                assert(!cc_univ8(t)) by {
                    if j == 12 {
                        assert(t[11] == rem[11]);
                        if e < pos + 11 {
                            assert(t[e - pos] == rem[e - pos]);
                            assert(!is_hex_digit(input@[e as int]));
                        }
                    }
                }
            }
            lemma_match_len_is(TokenType::CharConst, rem, m);
        }
        return r;
    }
    if 48 <= c2 && c2 <= 55 {
        // '\o', '\oo' or '\ooo': the closing quote fixes the length
        let r: usize = if n >= 4 && input[pos + 3] == QUOTE {
            4
        } else if n >= 5 && byte_in_class(ByteClass::OctDigit, input[pos + 3]) && input[pos + 4]
            == QUOTE {
            5
        } else if n >= 6 && byte_in_class(ByteClass::OctDigit, input[pos + 3]) && byte_in_class(
            ByteClass::OctDigit,
            input[pos + 4],
        ) && input[pos + 5] == QUOTE {
            6
        } else {
            0
        };
        proof {
            let m = r as int;
            if m > 0 {
                let t = rem.take(m);
                assert(t[0] == rem[0] && t[1] == rem[1] && t[2] == rem[2]);
                assert(t[m - 1] == rem[m - 1]);
                assert forall|i: int| 2 <= i < m - 1 implies is_oct_digit(#[trigger] t[i]) by {
                    assert(t[i] == rem[i]);
                }
                assert(cc_octal(t));
            }
            assert forall|j: int| m < j <= rem.len() implies !token_matches(
                TokenType::CharConst,
                #[trigger] rem.take(j),
            ) by {
                let t = rem.take(j);
                assert(t.len() == j);
                assert(t[0] == rem[0]);
                if j >= 2 {
                    assert(t[1] == rem[1]);
                }
                if j >= 3 {
                    assert(t[2] == rem[2]);
                }
                if j >= 4 {
                    assert(t[3] == rem[3]);
                }
                if j >= 5 {
                    assert(t[4] == rem[4]);
                }
                if j >= 6 {
                    assert(t[5] == rem[5]);
                }
            }
            lemma_match_len_is(TokenType::CharConst, rem, m);
        }
        return r;
    }
    if c2 == 63 || c2 == QUOTE || c2 == 34 || c2 == BACKSLASH || c2 == 97 || c2 == 98 || c2 == 102
        || c2 == 110 || c2 == 114 || c2 == 116 || c2 == 118 {
        // '\c' with a simple escape
        let r: usize = if n >= 4 && input[pos + 3] == QUOTE {
            4
        } else {
            0
        };
        proof {
            let m = r as int;
            if m > 0 {
                let t = rem.take(4);
                assert(t[0] == rem[0] && t[1] == rem[1] && t[2] == rem[2] && t[3] == rem[3]);
                assert(cc_escape(t));
            }
            assert forall|j: int| m < j <= rem.len() implies !token_matches(
                TokenType::CharConst,
                #[trigger] rem.take(j),
            ) by {
                let t = rem.take(j);
                assert(t.len() == j);
                assert(t[0] == rem[0]);
                if j >= 2 {
                    assert(t[1] == rem[1]);
                }
                if j >= 3 {
                    assert(t[2] == rem[2]);
                }
                if j >= 4 {
                    assert(t[3] == rem[3]);
                }
            }
            lemma_match_len_is(TokenType::CharConst, rem, m);
        }
        return r;
    }
    // the byte after the backslash fits no escape form
    proof {
        assert forall|j: int| 0 < j <= rem.len() implies !token_matches(
            TokenType::CharConst,
            #[trigger] rem.take(j),
        ) by {
            let t = rem.take(j);
            assert(t.len() == j);
            assert(t[0] == rem[0]);
            if j >= 2 {
                assert(t[1] == rem[1]);
            }
            if j >= 3 {
                assert(t[2] == rem[2]);
            }
        }
        lemma_match_len_is(TokenType::CharConst, rem, 0);
    }
    0
}

/// Longest comment match at `pos`. A comment is non-greedy: it closes at
/// the first `*/`, so at most one prefix can match.
#[verifier::loop_isolation(false)]
fn comment_match_len(input: &Vec<u8>, pos: usize) -> (r: usize)
    requires
        pos <= input.len(),
    ensures
        r as int == match_len(TokenType::Comment, input@.skip(pos as int)),
        pos + r <= input@.len(),
{
    let ghost rem = input@.skip(pos as int);
    proof {
        assert forall|i: int| 0 <= i < rem.len() implies rem[i] == input@[pos + i] by {}
    }
    let n = input.len() - pos;
    if n < 2 || input[pos] != SLASH || input[pos + 1] != STAR {
        proof {
            assert forall|j: int| 0 < j <= rem.len() implies !token_matches(
                TokenType::Comment,
                #[trigger] rem.take(j),
            ) by {
                let t = rem.take(j);
                assert(t.len() == j);
                assert(t[0] == rem[0]);
                if j >= 2 {
                    assert(t[1] == rem[1]);
                }
            }
            lemma_match_len_is(TokenType::Comment, rem, 0);
        }
        return 0;
    }
    let mut j: usize = pos + 2;
    while j < input.len() - 1
        invariant
            pos + 2 <= j <= input@.len(),
            forall|i: int|
                pos + 2 <= i < j ==> !(#[trigger] input@[i] == STAR && input@[i + 1] == SLASH),
        decreases input@.len() - j,
    {
        if input[j] == STAR && input[j + 1] == SLASH {
            let r = j + 2 - pos;
            proof {
                let m = r as int;
                let t = rem.take(m);
                assert(t[0] == rem[0] && t[1] == rem[1]);
                assert(t[m - 2] == rem[m - 2] && t[m - 1] == rem[m - 1]);
                assert(rem[m - 2] == input@[j as int] && rem[m - 1] == input@[j + 1]);
                assert forall|i: int| 2 <= i < m - 2 implies !(#[trigger] t[i] == STAR && t[i + 1]
                    == SLASH) by {
                    assert(t[i] == rem[i] && t[i + 1] == rem[i + 1]);
                    assert(rem[i] == input@[pos + i] && rem[i + 1] == input@[pos + i + 1]);
                }
                assert(comment_matches(t));
                assert forall|jj: int| m < jj <= rem.len() implies !token_matches(
                    TokenType::Comment,
                    #[trigger] rem.take(jj),
                ) by {
                    let tt = rem.take(jj);
                    assert(tt.len() == jj);
                    // the comment that closed at m - 1 stands inside any longer span
                    assert(tt[m - 2] == rem[m - 2] && tt[m - 1] == rem[m - 1]);
                }
                lemma_match_len_is(TokenType::Comment, rem, m);
            }
            return r;
        }
        j = j + 1;
    }
    proof {
        assert forall|jj: int| 0 < jj <= rem.len() implies !token_matches(
            TokenType::Comment,
            #[trigger] rem.take(jj),
        ) by {
            let tt = rem.take(jj);
            assert(tt.len() == jj);
            if jj >= 4 {
                // the closing pair would be an inner pair the loop ruled out
                assert(tt[jj - 2] == rem[jj - 2] && tt[jj - 1] == rem[jj - 1]);
                assert(rem[jj - 2] == input@[pos + jj - 2] && rem[jj - 1] == input@[pos + jj - 1]);
            }
        }
        lemma_match_len_is(TokenType::Comment, rem, 0);
    }
    0
}

// ---------------------------------------------------------------------------
// Selection across kinds: longest match, then smallest ordinal
// ---------------------------------------------------------------------------

/// The winner among the first `i` kinds in declaration order: the kind with
/// the greatest match length on `s`, earliest declared on a tie; `None`
/// when none of them matches.
pub open spec fn best_upto(s: Seq<u8>, i: int) -> Option<(TokenType, int)>
    decreases i,
{
    if i <= 0 {
        None
    } else {
        let prev = best_upto(s, i - 1);
        let prev_len: int = match prev {
            None => 0,
            Some(p) => p.1,
        };
        let l = match_len(all_kinds()[i - 1], s);
        if l > prev_len {
            Some((all_kinds()[i - 1], l))
        } else {
            prev
        }
    }
}

/// The match-selection result on `s` over the whole registry.
pub open spec fn best_match(s: Seq<u8>) -> Option<(TokenType, int)> {
    best_upto(s, all_kinds().len() as int)
}

proof fn lemma_best_upto_props(s: Seq<u8>, i: int)
    requires
        0 <= i <= all_kinds().len(),
    ensures
        match best_upto(s, i) {
            None => forall|j: int| 0 <= j < i ==> match_len(#[trigger] all_kinds()[j], s) == 0,
            Some(p) => {
                &&& 0 < p.1 <= s.len()
                &&& token_matches(p.0, s.take(p.1))
                &&& match_len(p.0, s) == p.1
                &&& exists|bi: int|
                    0 <= bi < i && all_kinds()[bi] == p.0 && (forall|j: int|
                        0 <= j < bi ==> match_len(#[trigger] all_kinds()[j], s) < p.1)
                &&& forall|j: int| 0 <= j < i ==> match_len(#[trigger] all_kinds()[j], s) <= p.1
            },
        },
    decreases i,
{
    if i > 0 {
        lemma_best_upto_props(s, i - 1);
        lemma_match_len_props(all_kinds()[i - 1], s);
        let prev = best_upto(s, i - 1);
        let prev_len: int = match prev {
            None => 0,
            Some(p) => p.1,
        };
        let l = match_len(all_kinds()[i - 1], s);
        if l > prev_len {
            let p = (all_kinds()[i - 1], l);
            assert(0 <= i - 1 < i && all_kinds()[i - 1] == p.0 && (forall|j: int|
                0 <= j < i - 1 ==> match_len(#[trigger] all_kinds()[j], s) < p.1));
        } else {
            match prev {
                None => {},
                Some(p) => {
                    let bi = choose|bi: int|
                        0 <= bi < i - 1 && all_kinds()[bi] == p.0 && (forall|j: int|
                            0 <= j < bi ==> match_len(#[trigger] all_kinds()[j], s) < p.1);
                    assert(0 <= bi < i && all_kinds()[bi] == p.0 && (forall|j: int|
                        0 <= j < bi ==> match_len(#[trigger] all_kinds()[j], s) < p.1));
                },
            }
        }
    }
}

/// Each position of `all_kinds` holds the kind whose ordinal it is.
proof fn lemma_all_kinds_index(idx: int)
    requires
        0 <= idx < all_kinds().len(),
    ensures
        all_kinds()[idx].ordinal() == idx,
{
    lemma_ordinal_positions(all_kinds()[idx]);
    let k = all_kinds()[idx];
    if idx == 0 {
        assert(all_kinds()[0] == TokenType::Token);
    } else if idx == 1 {
        assert(all_kinds()[1] == TokenType::Left);
    } else if idx == 2 {
        assert(all_kinds()[2] == TokenType::Right);
    } else if idx == 3 {
        assert(all_kinds()[3] == TokenType::NonAssoc);
    } else if idx == 4 {
        assert(all_kinds()[4] == TokenType::Type);
    } else if idx == 5 {
        assert(all_kinds()[5] == TokenType::Start);
    } else if idx == 6 {
        assert(all_kinds()[6] == TokenType::Union);
    } else if idx == 7 {
        assert(all_kinds()[7] == TokenType::Prec);
    } else if idx == 8 {
        assert(all_kinds()[8] == TokenType::PercentPercent);
    } else if idx == 9 {
        assert(all_kinds()[9] == TokenType::Colon);
    } else if idx == 10 {
        assert(all_kinds()[10] == TokenType::Semi);
    } else if idx == 11 {
        assert(all_kinds()[11] == TokenType::Pipe);
    } else if idx == 12 {
        assert(all_kinds()[12] == TokenType::PercentBlock);
    } else if idx == 13 {
        assert(all_kinds()[13] == TokenType::CodeBlock);
    } else if idx == 14 {
        assert(all_kinds()[14] == TokenType::UnionTag);
    } else if idx == 15 {
        assert(all_kinds()[15] == TokenType::Identifier);
    } else if idx == 16 {
        assert(all_kinds()[16] == TokenType::Number);
    } else if idx == 17 {
        assert(all_kinds()[17] == TokenType::CharConst);
    } else if idx == 18 {
        assert(all_kinds()[18] == TokenType::Comment);
    } else {
        assert(all_kinds()[19] == TokenType::Whitespace);
    }
}

/// The selection rule, stated over every kind: a `Some` winner accepts its
/// span, no kind matches a longer span, and no kind of smaller ordinal
/// matches a span of the same length; `None` means no kind matches at all.
pub proof fn lemma_best_match_props(s: Seq<u8>)
    ensures
        match best_match(s) {
            None => forall|k: TokenType| match_len(k, s) == 0,
            Some(p) => {
                &&& 0 < p.1 <= s.len()
                &&& token_matches(p.0, s.take(p.1))
                &&& match_len(p.0, s) == p.1
                &&& forall|k: TokenType| match_len(k, s) <= p.1
                &&& forall|k: TokenType| match_len(k, s) == p.1 ==> p.0.ordinal() <= k.ordinal()
            },
        },
{
    lemma_best_upto_props(s, all_kinds().len() as int);
    match best_match(s) {
        None => {
            assert forall|k: TokenType| match_len(k, s) == 0 by {
                lemma_ordinal_positions(k);
            }
        },
        Some(p) => {
            let bi = choose|bi: int|
                0 <= bi < all_kinds().len() && all_kinds()[bi] == p.0 && (forall|j: int|
                    0 <= j < bi ==> match_len(#[trigger] all_kinds()[j], s) < p.1);
            lemma_all_kinds_index(bi);
            assert forall|k: TokenType| match_len(k, s) <= p.1 by {
                lemma_ordinal_positions(k);
            }
            assert forall|k: TokenType| match_len(k, s) == p.1 implies p.0.ordinal()
                <= k.ordinal() by {
                lemma_ordinal_positions(k);
                if k.ordinal() < bi {
                    assert(match_len(all_kinds()[k.ordinal()], s) < p.1);
                }
            }
        },
    }
}

/// A kind with a fixed spelling matches nothing when the input differs
/// from the spelling at position `idx` (or is shorter than the spelling).
proof fn lemma_literal_mismatch(kind: TokenType, s: Seq<u8>, idx: int)
    requires
        is_literal_kind(kind),
        0 <= idx < literal_of(kind).len(),
        idx < s.len() ==> s[idx] != literal_of(kind)[idx],
    ensures
        match_len(kind, s) == 0,
{
    assert forall|j: int| 0 < j <= s.len() implies !token_matches(kind, #[trigger] s.take(j)) by {
        let t = s.take(j);
        assert(t.len() == j);
        if j == literal_of(kind).len() {
            assert(t[idx] == s[idx]);
        }
    }
    lemma_match_len_is(kind, s, 0);
}

/// A content kind matches nothing when the byte its pattern must open
/// with is absent.
proof fn lemma_first_byte_rules_out(kind: TokenType, s: Seq<u8>)
    requires
        s.len() >= 1,
        match kind {
            TokenType::Identifier => !is_id_start(s[0]),
            TokenType::Number => !is_dec_digit(s[0]),
            TokenType::CharConst => s[0] != QUOTE,
            TokenType::Comment => s[0] != SLASH,
            TokenType::Whitespace => !is_ws_byte(s[0]),
            _ => false,
        },
    ensures
        match_len(kind, s) == 0,
{
    assert forall|j: int| 0 < j <= s.len() implies !token_matches(kind, #[trigger] s.take(j)) by {
        assert(s.take(j)[0] == s[0]);
    }
    lemma_match_len_is(kind, s, 0);
}

/// When one kind attains a positive match length that every other kind
/// falls short of, selection returns exactly that kind and length.
pub proof fn lemma_best_match_is(s: Seq<u8>, kind: TokenType, len: int)
    requires
        0 < len,
        match_len(kind, s) == len,
        forall|k: TokenType| k != kind ==> match_len(k, s) < len,
    ensures
        best_match(s) == Some((kind, len)),
{
    lemma_best_match_props(s);
    match best_match(s) {
        None => {
            assert(match_len(kind, s) == 0);
        },
        Some(p) => {
            if p.0 != kind {
                assert(match_len(p.0, s) < len);
                assert(match_len(kind, s) <= p.1);
            }
        },
    }
}

/// Longest match beats shorter fragments: input spelling `token` before a
/// byte that cannot continue an identifier is selected as one Identifier
/// lexeme of all five bytes, not broken into shorter pieces.
pub proof fn lemma_identifier_keeps_longest_span(s: Seq<u8>)
    requires
        s.len() >= 6,
        s.take(5) == seq![116u8, 111, 107, 101, 110],
        !is_id_cont(s[5]),
    ensures
        best_match(s) == Some((TokenType::Identifier, 5int)),
{
    let id = TokenType::Identifier;
    assert(s[0] == 116 && s[1] == 111 && s[2] == 107 && s[3] == 101 && s[4] == 110) by {
        assert forall|i: int| 0 <= i < 5 implies s[i] == s.take(5)[i] by {}
    }
    assert(token_matches(id, s.take(5))) by {
        assert forall|i: int| 1 <= i < 5 implies is_id_cont(#[trigger] s.take(5)[i]) by {
            assert(s.take(5)[i] == s[i]);
        }
        assert(is_id_start(s.take(5)[0]));
    }
    assert forall|j: int| 5 < j <= s.len() implies !token_matches(id, #[trigger] s.take(j)) by {
        assert(s.take(j)[5] == s[5]);
    }
    lemma_match_len_is(id, s, 5);
    lemma_literal_mismatch(TokenType::Token, s, 0);
    lemma_literal_mismatch(TokenType::Left, s, 0);
    lemma_literal_mismatch(TokenType::Right, s, 0);
    lemma_literal_mismatch(TokenType::NonAssoc, s, 0);
    lemma_literal_mismatch(TokenType::Type, s, 0);
    lemma_literal_mismatch(TokenType::Start, s, 0);
    lemma_literal_mismatch(TokenType::Union, s, 0);
    lemma_literal_mismatch(TokenType::Prec, s, 0);
    lemma_literal_mismatch(TokenType::PercentPercent, s, 0);
    lemma_literal_mismatch(TokenType::Colon, s, 0);
    lemma_literal_mismatch(TokenType::Semi, s, 0);
    lemma_literal_mismatch(TokenType::Pipe, s, 0);
    lemma_literal_mismatch(TokenType::PercentBlock, s, 0);
    lemma_literal_mismatch(TokenType::CodeBlock, s, 0);
    lemma_literal_mismatch(TokenType::UnionTag, s, 0);
    lemma_first_byte_rules_out(TokenType::Number, s);
    lemma_first_byte_rules_out(TokenType::CharConst, s);
    lemma_first_byte_rules_out(TokenType::Comment, s);
    lemma_first_byte_rules_out(TokenType::Whitespace, s);
    assert forall|k: TokenType| k != id implies match_len(k, s) < 5 by {
        match k {
            TokenType::Identifier => {},
            _ => {},
        }
    }
    lemma_best_match_is(s, id, 5);
}

/// Declaration-order priority on equal evidence: the spelling `%token` is
/// selected as the Token directive itself, never as punctuation plus an
/// identifier fragment.
pub proof fn lemma_directive_beats_fragments(s: Seq<u8>)
    requires
        s == seq![37u8, 116, 111, 107, 101, 110],
    ensures
        best_match(s) == Some((TokenType::Token, 6int)),
{
    let tk = TokenType::Token;
    assert(s.take(6) =~= s);
    assert(token_matches(tk, s.take(6)));
    lemma_match_len_is(tk, s, 6);
    lemma_literal_mismatch(TokenType::Left, s, 1);
    lemma_literal_mismatch(TokenType::Right, s, 1);
    lemma_literal_mismatch(TokenType::NonAssoc, s, 1);
    lemma_literal_mismatch(TokenType::Type, s, 2);
    lemma_literal_mismatch(TokenType::Start, s, 1);
    lemma_literal_mismatch(TokenType::Union, s, 1);
    lemma_literal_mismatch(TokenType::Prec, s, 1);
    lemma_literal_mismatch(TokenType::PercentPercent, s, 1);
    lemma_literal_mismatch(TokenType::Colon, s, 0);
    lemma_literal_mismatch(TokenType::Semi, s, 0);
    lemma_literal_mismatch(TokenType::Pipe, s, 0);
    lemma_literal_mismatch(TokenType::PercentBlock, s, 1);
    lemma_literal_mismatch(TokenType::CodeBlock, s, 0);
    lemma_literal_mismatch(TokenType::UnionTag, s, 0);
    lemma_first_byte_rules_out(TokenType::Identifier, s);
    lemma_first_byte_rules_out(TokenType::Number, s);
    lemma_first_byte_rules_out(TokenType::CharConst, s);
    lemma_first_byte_rules_out(TokenType::Comment, s);
    lemma_first_byte_rules_out(TokenType::Whitespace, s);
    assert forall|k: TokenType| k != tk implies match_len(k, s) < 6 by {
        match k {
            TokenType::Token => {},
            _ => {},
        }
    }
    lemma_best_match_is(s, tk, 6);
}

/// Longest match at `pos` for one kind, whichever its pattern's form.
pub fn kind_match_len(kind: TokenType, input: &Vec<u8>, pos: usize) -> (r: usize)
    requires
        pos <= input.len(),
    ensures
        r as int == match_len(kind, input@.skip(pos as int)),
        pos + r <= input@.len(),
{
    match kind {
        TokenType::Identifier => identifier_match_len(input, pos),
        TokenType::Number => number_match_len(input, pos),
        TokenType::CharConst => char_const_match_len(input, pos),
        TokenType::Comment => comment_match_len(input, pos),
        TokenType::Whitespace => whitespace_match_len(input, pos),
        _ => literal_match_len(kind, input, pos),
    }
}

/// Runs match selection at `pos`: evaluates every kind in declaration
/// order and keeps the first one attaining the greatest match length.
#[verifier::loop_isolation(false)]
pub fn select_match(input: &Vec<u8>, pos: usize) -> (r: Option<(TokenType, usize)>)
    requires
        pos <= input.len(),
    ensures
        match r {
            None => best_match(input@.skip(pos as int)) is None,
            Some(p) => {
                &&& best_match(input@.skip(pos as int)) == Some((p.0, p.1 as int))
                &&& pos + p.1 <= input@.len()
            },
        },
{
    let ghost rem = input@.skip(pos as int);
    let kinds = TokenType::all();
    let mut best: Option<(TokenType, usize)> = None;
    let mut i: usize = 0;
    while i < kinds.len()
        invariant
            i <= kinds@.len(),
            match best {
                None => best_upto(rem, i as int) is None,
                Some(p) => {
                    &&& best_upto(rem, i as int) == Some((p.0, p.1 as int))
                    &&& pos + p.1 <= input@.len()
                },
            },
        decreases kinds@.len() - i,
    {
        let kind = kinds[i];
        let l = kind_match_len(kind, input, pos);
        let best_len: usize = match best {
            None => 0,
            Some(p) => p.1,
        };
        proof {
            assert(best_upto(rem, i as int + 1) == (if match_len(all_kinds()[i as int], rem)
                > (match best_upto(rem, i as int) {
                None => 0int,
                Some(p) => p.1,
            }) {
                Some((all_kinds()[i as int], match_len(all_kinds()[i as int], rem)))
            } else {
                best_upto(rem, i as int)
            }));
        }
        if l > best_len {
            best = Some((kind, l));
        }
        i = i + 1;
    }
    best
}

} // verus!

//! Lexer: the text of one line to a sequence of tokens.
//!
//! Spaces and tabs between tokens are skipped; `\n` or a form feed ends the
//! scan. Integer literals are decimal (`12_3`), binary (`0b0000_1111`), octal
//! (`0o00_13`) or hexadecimal (`0x00_1a`); `_` separators are ignored.
use vstd::prelude::*;
use vstd::string::StringSliceAdditionalSpecFns;

verus! {

// ASCII codes of the bytes that the lexer tells apart.
pub const DIGIT_ZERO: u8 = 0x30;
pub const DIGIT_NINE: u8 = 0x39;
pub const LOWER_A: u8 = 0x61;
pub const LOWER_F: u8 = 0x66;
pub const UPPER_A: u8 = 0x41;
pub const UPPER_F: u8 = 0x46;
pub const UNDERSCORE: u8 = 0x5f;
pub const PLUS: u8 = 0x2b;
pub const MINUS: u8 = 0x2d;
pub const STAR: u8 = 0x2a;
pub const SLASH: u8 = 0x2f;
pub const LEFT_PAREN: u8 = 0x28;
pub const RIGHT_PAREN: u8 = 0x29;
pub const SPACE: u8 = 0x20;
pub const TAB: u8 = 0x09;
pub const LINE_FEED: u8 = 0x0a;
pub const FORM_FEED: u8 = 0x0c;
pub const LOWER_B: u8 = 0x62;
pub const LOWER_O: u8 = 0x6f;
pub const LOWER_X: u8 = 0x78;

/// Token of the calculator's lexical structure.
#[derive(Debug, PartialEq, Eq, Clone, Copy)]
pub enum Token {
    /// A line break; the lexer stops at it and never hands it out.
    NewLine,
    Plus,
    Minus,
    Times,
    Division,
    LP,
    RP,
    Number(u64),
}

/// Why the text could not be split into tokens. Offsets are byte offsets.
#[derive(Debug, PartialEq, Eq)]
pub enum LexError {
    /// The byte at `start` begins no token.
    InvalidCharacter { start: usize, end: usize, character: u8 },
    /// The literal `raw`, at `start..end`, is at least 2^64.
    IntegerOverflow { start: usize, end: usize, raw: Vec<u8>, message: String },
}

/// Where the lexer fails, as positions in the text.
pub ghost enum LexFault {
    InvalidCharacter(int),
    IntegerOverflow(int, int),
}

pub open spec fn u64_limit() -> nat {
    0x1_0000_0000_0000_0000
}

/// The value of a digit in any radix up to 16; 16 for a byte that is no digit.
pub open spec fn digit_value(c: u8) -> nat {
    if DIGIT_ZERO <= c <= DIGIT_NINE {
        (c - DIGIT_ZERO) as nat
    } else if LOWER_A <= c <= LOWER_F {
        (c - LOWER_A + 10) as nat
    } else if UPPER_A <= c <= UPPER_F {
        (c - UPPER_A + 10) as nat
    } else {
        16
    }
}

/// A byte that may stand in the body of a literal of the given radix.
pub open spec fn in_literal(c: u8, radix: nat) -> bool {
    c == UNDERSCORE || digit_value(c) < radix
}

/// The value of a literal body in the given radix, `_` separators ignored.
pub open spec fn digits_value(b: Seq<u8>, radix: nat) -> nat
    decreases b.len(),
{
    if b.len() == 0 {
        0
    } else if b.last() == UNDERSCORE {
        digits_value(b.drop_last(), radix)
    } else {
        digits_value(b.drop_last(), radix) * radix + digit_value(b.last())
    }
}

/// The number of bytes from `j` on that may stand in a literal body.
pub open spec fn run_len(s: Seq<u8>, j: int, radix: nat) -> nat
    decreases s.len() - j,
{
    if 0 <= j < s.len() && in_literal(s[j], radix) {
        1 + run_len(s, j + 1, radix)
    } else {
        0
    }
}

/// The radix of the literal that starts at `i`, chosen by a `0b`, `0o` or `0x` prefix.
pub open spec fn literal_radix(s: Seq<u8>, i: int) -> nat {
    if s[i] == DIGIT_ZERO && i + 1 < s.len() && s[i + 1] == LOWER_B {
        2
    } else if s[i] == DIGIT_ZERO && i + 1 < s.len() && s[i + 1] == LOWER_O {
        8
    } else if s[i] == DIGIT_ZERO && i + 1 < s.len() && s[i + 1] == LOWER_X {
        16
    } else {
        10
    }
}

/// Where the body of the literal at `i` starts: after its prefix, if any.
pub open spec fn body_start(s: Seq<u8>, i: int) -> int {
    if literal_radix(s, i) == 10 {
        i
    } else {
        i + 2
    }
}

/// Where the literal at `i` ends; its first byte is a decimal digit.
pub open spec fn literal_end(s: Seq<u8>, i: int) -> int {
    if literal_radix(s, i) == 10 {
        i + 1 + run_len(s, i + 1, 10)
    } else {
        i + 2 + run_len(s, i + 2, literal_radix(s, i))
    }
}

/// The value of the literal at `i`.
pub open spec fn literal_value(s: Seq<u8>, i: int) -> nat {
    digits_value(s.subrange(body_start(s, i), literal_end(s, i)), literal_radix(s, i))
}

/// The token that a single byte stands for, if it stands for one.
pub open spec fn symbol_token(c: u8) -> Option<Token> {
    if c == PLUS {
        Some(Token::Plus)
    } else if c == MINUS {
        Some(Token::Minus)
    } else if c == STAR {
        Some(Token::Times)
    } else if c == SLASH {
        Some(Token::Division)
    } else if c == LEFT_PAREN {
        Some(Token::LP)
    } else if c == RIGHT_PAREN {
        Some(Token::RP)
    } else {
        None
    }
}

pub open spec fn is_blank(c: u8) -> bool {
    c == SPACE || c == TAB
}

pub open spec fn is_line_break(c: u8) -> bool {
    c == LINE_FEED || c == FORM_FEED
}

pub open spec fn prepend(t: Token, r: Result<Seq<Token>, LexFault>) -> Result<Seq<Token>, LexFault> {
    match r {
        Ok(ts) => Ok(seq![t] + ts),
        Err(f) => Err(f),
    }
}

/// The tokens of `s` from offset `i` up to the first line break, or where that fails.
pub open spec fn lex_from(s: Seq<u8>, i: int) -> Result<Seq<Token>, LexFault>
    decreases s.len() - i
    via lex_from_decreases
{
    if i < 0 || i >= s.len() {
        Ok(seq![])
    } else if is_blank(s[i]) {
        lex_from(s, i + 1)
    } else if is_line_break(s[i]) {
        Ok(seq![])
    } else if symbol_token(s[i]) is Some {
        prepend(symbol_token(s[i])->0, lex_from(s, i + 1))
    } else if digit_value(s[i]) < 10 {
        if literal_value(s, i) >= u64_limit() {
            Err(LexFault::IntegerOverflow(i, literal_end(s, i)))
        } else {
            prepend(Token::Number(literal_value(s, i) as u64), lex_from(s, literal_end(s, i)))
        }
    } else {
        Err(LexFault::InvalidCharacter(i))
    }
}

#[via_fn]
proof fn lex_from_decreases(s: Seq<u8>, i: int) {
    if 0 <= i < s.len() && digit_value(s[i]) < 10 {
        lemma_run_len_bound(s, i + 1, 10);
        lemma_run_len_bound(s, i + 2, literal_radix(s, i));
    }
}

proof fn lemma_run_len_bound(s: Seq<u8>, j: int, radix: nat)
    ensures
        0 <= j <= s.len() ==> j + run_len(s, j, radix) <= s.len(),
    decreases s.len() - j,
{
    if 0 <= j < s.len() && in_literal(s[j], radix) {
        lemma_run_len_bound(s, j + 1, radix);
    }
}

/// `b` without its `_` separators.
pub open spec fn strip_separators(b: Seq<u8>) -> Seq<u8>
    decreases b.len(),
{
    if b.len() == 0 {
        b
    } else if b.last() == UNDERSCORE {
        strip_separators(b.drop_last())
    } else {
        strip_separators(b.drop_last()).push(b.last())
    }
}

/// Separators do not change a literal's value: a body in any radix has the
/// value of the same body with every `_` taken out.
pub proof fn lemma_separators_ignored(b: Seq<u8>, radix: nat)
    ensures
        digits_value(b, radix) == digits_value(strip_separators(b), radix),
    decreases b.len(),
{
    if b.len() > 0 {
        lemma_separators_ignored(b.drop_last(), radix);
        if b.last() != UNDERSCORE {
            let p = strip_separators(b.drop_last());
            assert(p.push(b.last()).drop_last() =~= p);
        }
    }
}

/// `prefix` and `body` together spell one literal of the given radix: a
/// `0b`, `0o` or `0x` prefix, or none and a body that opens with a digit.
pub open spec fn literal_form(prefix: Seq<u8>, body: Seq<u8>, radix: nat) -> bool {
    &&& (forall|k: int| 0 <= k < body.len() ==> in_literal(#[trigger] body[k], radix))
    &&& {
        ||| prefix == seq![DIGIT_ZERO, LOWER_B] && radix == 2
        ||| prefix == seq![DIGIT_ZERO, LOWER_O] && radix == 8
        ||| prefix == seq![DIGIT_ZERO, LOWER_X] && radix == 16
        ||| prefix.len() == 0 && radix == 10 && body.len() > 0 && digit_value(body[0]) < 10
    }
}

proof fn lemma_run_len_full(s: Seq<u8>, j: int, radix: nat)
    requires
        0 <= j <= s.len(),
        forall|k: int| j <= k < s.len() ==> in_literal(#[trigger] s[k], radix),
    ensures
        run_len(s, j, radix) == s.len() - j,
    decreases s.len() - j,
{
    if j < s.len() {
        lemma_run_len_full(s, j + 1, radix);
    }
}

/// A text that is one literal lexes to that literal's number, or fails with
/// an overflow over the whole text.
proof fn lemma_lex_single_literal(prefix: Seq<u8>, body: Seq<u8>, radix: nat)
    requires
        literal_form(prefix, body, radix),
    ensures
        lex_spec(prefix + body) == if digits_value(body, radix) < u64_limit() {
            Ok::<Seq<Token>, LexFault>(seq![Token::Number(digits_value(body, radix) as u64)])
        } else {
            Err::<Seq<Token>, LexFault>(LexFault::IntegerOverflow(0, (prefix + body).len() as int))
        },
{
    let s = prefix + body;
    let p = prefix.len() as int;
    assert forall|k: int| p <= k < s.len() implies in_literal(#[trigger] s[k], radix) by {
        assert(s[k] == body[k - p]);
    }
    if radix == 10 {
        assert(s =~= body);
        assert(literal_radix(s, 0) == 10) by {
            if s.len() > 1 {
                assert(in_literal(s[1], 10));
            }
        }
        lemma_run_len_full(s, 1, 10);
    } else {
        assert(s[0] == DIGIT_ZERO && s[1] == prefix[1]);
        assert(literal_radix(s, 0) == radix);
        lemma_run_len_full(s, 2, radix);
    }
    assert(literal_end(s, 0) == s.len());
    assert(s.subrange(p, s.len() as int) =~= body);
    assert(body_start(s, 0) == p);
    assert(lex_from(s, s.len() as int) == Ok::<Seq<Token>, LexFault>(seq![]));
    assert(seq![Token::Number(digits_value(body, radix) as u64)] + seq![] =~= seq![
        Token::Number(digits_value(body, radix) as u64),
    ]);
}

proof fn lemma_strip_keeps_form(b: Seq<u8>, radix: nat)
    requires
        forall|k: int| 0 <= k < b.len() ==> in_literal(#[trigger] b[k], radix),
    ensures
        forall|k: int| 0 <= k < strip_separators(b).len() ==> in_literal(
            #[trigger] strip_separators(b)[k],
            radix,
        ),
        b.len() > 0 && b[0] != UNDERSCORE ==> strip_separators(b).len() > 0 && strip_separators(
            b,
        )[0] == b[0],
    decreases b.len(),
{
    if b.len() > 0 {
        let d = b.drop_last();
        assert forall|k: int| 0 <= k < d.len() implies in_literal(#[trigger] d[k], radix) by {
            assert(d[k] == b[k]);
        }
        if b.len() > 1 {
            assert(d[0] == b[0]);
        }
        lemma_strip_keeps_form(d, radix);
        let sd = strip_separators(d);
        if b.last() != UNDERSCORE {
            let sb = sd.push(b.last());
            assert(strip_separators(b) == sb);
            assert(in_literal(b[b.len() - 1], radix));
            assert forall|k: int| 0 <= k < sb.len() implies in_literal(#[trigger] sb[k], radix) by {
                if k < sd.len() {
                    assert(sb[k] == sd[k]);
                }
            }
            if b.len() > 1 && b[0] != UNDERSCORE {
                assert(sb[0] == sd[0]);
            }
        }
    }
}

/// Lexing a literal gives the same number whether or not its body holds `_`
/// separators: the text and the text with every separator of the body taken
/// out either both lex to the one token `Number(v)`, or both overflow.
pub proof fn lemma_lex_ignores_separators(prefix: Seq<u8>, body: Seq<u8>, radix: nat)
    requires
        literal_form(prefix, body, radix),
    ensures
        literal_form(prefix, strip_separators(body), radix),
        lex_spec(prefix + body) is Ok <==> lex_spec(prefix + strip_separators(body)) is Ok,
        lex_spec(prefix + body) is Ok ==> lex_spec(prefix + body) == lex_spec(
            prefix + strip_separators(body),
        ),
{
    lemma_strip_keeps_form(body, radix);
    lemma_separators_ignored(body, radix);
    lemma_lex_single_literal(prefix, body, radix);
    lemma_lex_single_literal(prefix, strip_separators(body), radix);
}

/// The tokens of a whole text.
pub open spec fn lex_spec(s: Seq<u8>) -> Result<Seq<Token>, LexFault> {
    lex_from(s, 0)
}

impl LexError {
    /// This error reports `f` on the text `s`.
    pub open spec fn reports(&self, s: Seq<u8>, f: LexFault) -> bool {
        match (*self, f) {
            (LexError::InvalidCharacter { start, end, character }, LexFault::InvalidCharacter(i)) => {
                &&& start == i
                &&& end == i + 1
                &&& character == s[i]
            },
            (LexError::IntegerOverflow { start, end, raw, message }, LexFault::IntegerOverflow(i, e)) => {
                &&& start == i
                &&& end == e
                &&& raw@ == s.subrange(i, e)
                &&& message@ == overflow_message()
            },
            _ => false,
        }
    }
}

pub open spec fn overflow_message() -> Seq<char> {
    "number too large to fit in target type"@
}

/// The outcome `r` of lexing `s` is the one `lex_spec` gives.
pub open spec fn lexed(s: Seq<u8>, r: Result<Vec<Token>, LexError>) -> bool {
    match (r, lex_spec(s)) {
        (Ok(v), Ok(ts)) => v@ == ts,
        (Err(e), Err(f)) => e.reports(s, f),
        _ => false,
    }
}

fn digit_of(c: u8) -> (r: u64)
    ensures
        r == digit_value(c),
{
    if DIGIT_ZERO <= c && c <= DIGIT_NINE {
        (c - DIGIT_ZERO) as u64
    } else if LOWER_A <= c && c <= LOWER_F {
        (c - LOWER_A + 10) as u64
    } else if UPPER_A <= c && c <= UPPER_F {
        (c - UPPER_A + 10) as u64
    } else {
        16
    }
}

/// End of the run of literal bytes that starts at `j`.
fn run_end(s: &[u8], j: usize, radix: u64) -> (r: usize)
    requires
        j <= s@.len(),
    ensures
        r == j + run_len(s@, j as int, radix as nat),
        r <= s@.len(),
{
    let mut k: usize = j;
    while k < s.len() && (s[k] == UNDERSCORE || digit_of(s[k]) < radix)
        invariant
            j <= k <= s@.len(),
            j + run_len(s@, j as int, radix as nat) == k + run_len(s@, k as int, radix as nat),
        decreases s@.len() - k,
    {
        k = k + 1;
    }
    proof {
        lemma_run_len_stops(s@, k as int, radix as nat);
    }
    k
}

proof fn lemma_run_len_stops(s: Seq<u8>, j: int, radix: nat)
    requires
        j >= s.len() || !in_literal(s[j], radix),
        0 <= j,
    ensures
        run_len(s, j, radix) == 0,
{
}

proof fn lemma_digits_grow(b: Seq<u8>, radix: nat)
    requires
        b.len() > 0,
        radix >= 1,
    ensures
        digits_value(b, radix) >= digits_value(b.drop_last(), radix),
{
    let v = digits_value(b.drop_last(), radix);
    assert(v * radix >= v) by (nonlinear_arith)
        requires
            radix >= 1,
    ;
}

/// The value of `s[start..end]` in `radix`, or `None` where it is 2^64 or more.
fn body_value(s: &[u8], start: usize, end: usize, radix: u64) -> (r: Option<u64>)
    requires
        start <= end <= s@.len(),
        2 <= radix <= 16,
    ensures
        match r {
            Some(v) => v == digits_value(s@.subrange(start as int, end as int), radix as nat),
            None => digits_value(s@.subrange(start as int, end as int), radix as nat) >= u64_limit(),
        },
{
    let mut acc: Option<u64> = Some(0);
    let mut k: usize = start;
    assert(s@.subrange(start as int, start as int) =~= Seq::<u8>::empty());
    while k < end
        invariant
            start <= k <= end <= s@.len(),
            2 <= radix <= 16,
            match acc {
                Some(v) => v == digits_value(s@.subrange(start as int, k as int), radix as nat),
                None => digits_value(s@.subrange(start as int, k as int), radix as nat) >= u64_limit(),
            },
        decreases end - k,
    {
        let c = s[k];
        let ghost prev = s@.subrange(start as int, k as int);
        let ghost next = s@.subrange(start as int, k as int + 1);
        assert(next.drop_last() =~= prev);
        assert(next.last() == c);
        proof {
            lemma_digits_grow(next, radix as nat);
        }
        if c != UNDERSCORE {
            match acc {
                Some(v) => {
                    let d = digit_of(c);
                    assert((v as int) * (radix as int) <= 0xffff_ffff_ffff_ffff * 16) by (nonlinear_arith)
                        requires
                            v <= 0xffff_ffff_ffff_ffffu64,
                            radix <= 16,
                    ;
                    let w: u128 = (v as u128) * (radix as u128) + (d as u128);
                    if w <= 0xffff_ffff_ffff_ffffu128 {
                        acc = Some(w as u64);
                    } else {
                        acc = None;
                    }
                },
                None => {},
            }
        }
        k = k + 1;
    }
    acc
}

/// The end and the value of the literal at `i` (`None`: 2^64 or more).
fn scan_literal(s: &[u8], i: usize) -> (r: (usize, Option<u64>))
    requires
        i < s@.len(),
        digit_value(s@[i as int]) < 10,
    ensures
        r.0 == literal_end(s@, i as int),
        r.0 <= s@.len(),
        match r.1 {
            Some(v) => v == literal_value(s@, i as int),
            None => literal_value(s@, i as int) >= u64_limit(),
        },
{
    let mut radix: u64 = 10;
    if s[i] == DIGIT_ZERO && i + 1 < s.len() {
        if s[i + 1] == LOWER_B {
            radix = 2;
        } else if s[i + 1] == LOWER_O {
            radix = 8;
        } else if s[i + 1] == LOWER_X {
            radix = 16;
        }
    }
    assert(radix == literal_radix(s@, i as int));
    if radix == 10 {
        let end = run_end(s, i + 1, 10);
        (end, body_value(s, i, end, 10))
    } else {
        let end = run_end(s, i + 2, radix);
        (end, body_value(s, i + 2, end, radix))
    }
}

fn symbol_of(c: u8) -> (r: Option<Token>)
    ensures
        r == symbol_token(c),
{
    if c == PLUS {
        Some(Token::Plus)
    } else if c == MINUS {
        Some(Token::Minus)
    } else if c == STAR {
        Some(Token::Times)
    } else if c == SLASH {
        Some(Token::Division)
    } else if c == LEFT_PAREN {
        Some(Token::LP)
    } else if c == RIGHT_PAREN {
        Some(Token::RP)
    } else {
        None
    }
}

fn copy_range(s: &[u8], start: usize, end: usize) -> (r: Vec<u8>)
    requires
        start <= end <= s@.len(),
    ensures
        r@ == s@.subrange(start as int, end as int),
{
    let mut v: Vec<u8> = Vec::new();
    let mut k: usize = start;
    while k < end
        invariant
            start <= k <= end <= s@.len(),
            v@ == s@.subrange(start as int, k as int),
        decreases end - k,
    {
        v.push(s[k]);
        k = k + 1;
        assert(v@ =~= s@.subrange(start as int, k as int));
    }
    v
}

/// The tokens of the bytes `s` up to the first line break.
pub fn lex_bytes(s: &[u8]) -> (r: Result<Vec<Token>, LexError>)
    ensures
        lexed(s@, r),
{
    let mut tokens: Vec<Token> = Vec::new();
    let mut i: usize = 0;
    while i < s.len()
        invariant
            i <= s@.len(),
            lex_spec(s@) == match lex_from(s@, i as int) {
                Ok(rest) => Ok(tokens@ + rest),
                Err(f) => Err(f),
            },
        decreases s@.len() - i,
    {
        let c = s[i];
        if c == SPACE || c == TAB {
            i = i + 1;
        } else if c == LINE_FEED || c == FORM_FEED {
            assert(tokens@ + seq![] =~= tokens@);
            return Ok(tokens);
        } else if let Some(t) = symbol_of(c) {
            let ghost before = tokens@;
            tokens.push(t);
            proof {
                match lex_from(s@, i as int + 1) {
                    Ok(rest) => assert(before + (seq![t] + rest) =~= tokens@ + rest),
                    Err(_) => {},
                }
            }
            i = i + 1;
        } else if digit_of(c) < 10 {
            let (end, value) = scan_literal(s, i);
            match value {
                Some(v) => {
                    let ghost before = tokens@;
                    tokens.push(Token::Number(v));
                    proof {
                        match lex_from(s@, end as int) {
                            Ok(rest) => assert(before + (seq![Token::Number(v)] + rest)
                                =~= tokens@ + rest),
                            Err(_) => {},
                        }
                    }
                    i = end;
                },
                None => {
                    let raw = copy_range(s, i, end);
                    let message = "number too large to fit in target type".to_owned();
                    return Err(LexError::IntegerOverflow { start: i, end, raw, message });
                },
            }
        } else {
            return Err(LexError::InvalidCharacter { start: i, end: i + 1, character: c });
        }
    }
    assert(tokens@ + seq![] =~= tokens@);
    Ok(tokens)
}

/// Splits one line of text into tokens; a line break ends the scan.
pub fn lexer(input: &str) -> (r: Result<Vec<Token>, LexError>)
    ensures
        lexed(input.spec_bytes(), r),
{
    lex_bytes(input.as_bytes())
}

} // verus!

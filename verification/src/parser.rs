//! The tokenizer and the recursive-descent parser.
//!
//! Source text becomes a flat stream of tokens (comments are recognized and
//! discarded), and the token stream becomes a sequence of expressions.  Both
//! passes are specified as functions of the input alone, so parsing the same
//! text twice yields structurally equal trees.
use std::sync::Arc;
use vstd::prelude::*;

verus! {

use crate::expr::{Expr, ExprV, exprs_view, set_newline_v};
use crate::strings::{alphanumeric_char, is_alphanumeric_char, string_of_range};

/// The ways a source text is rejected.
#[derive(Debug, Clone, Copy, PartialEq, Eq, Structural)]
pub enum ParseError {
    /// No token starts at this position.
    LexError { position: usize },
    /// An integer literal that does not fit in 64 bits.
    IntegerOverflow { position: usize },
    /// A token that cannot stand here (an unmatched delimiter, a stray
    /// marker).
    UnexpectedToken { position: usize },
    /// The input ended where an expression was required.
    UnexpectedEnd,
}

/// One token, carrying the source offset it starts at.  String tokens carry
/// the offset of their first content character.
#[derive(Debug, Clone, PartialEq)]
pub enum Token {
    Symbol { text: String, pos: usize },
    Integer { text: String, pos: usize },
    Double { text: String, pos: usize },
    String { text: String, pos: usize },
    Quote { pos: usize },
    Quasiquote { pos: usize },
    Unquote { pos: usize },
    LParen { pos: usize },
    RParen { pos: usize },
    Newline { pos: usize },
}

/// The mathematical model of a token.
pub enum TokenV {
    Symbol { text: Seq<char>, pos: usize },
    Integer { text: Seq<char>, pos: usize },
    Double { text: Seq<char>, pos: usize },
    String { text: Seq<char>, pos: usize },
    Quote { pos: usize },
    Quasiquote { pos: usize },
    Unquote { pos: usize },
    LParen { pos: usize },
    RParen { pos: usize },
    Newline { pos: usize },
}

impl View for Token {
    type V = TokenV;

    open spec fn view(&self) -> TokenV {
        match *self {
            Token::Symbol { text, pos } => TokenV::Symbol { text: text@, pos },
            Token::Integer { text, pos } => TokenV::Integer { text: text@, pos },
            Token::Double { text, pos } => TokenV::Double { text: text@, pos },
            Token::String { text, pos } => TokenV::String { text: text@, pos },
            Token::Quote { pos } => TokenV::Quote { pos },
            Token::Quasiquote { pos } => TokenV::Quasiquote { pos },
            Token::Unquote { pos } => TokenV::Unquote { pos },
            Token::LParen { pos } => TokenV::LParen { pos },
            Token::RParen { pos } => TokenV::RParen { pos },
            Token::Newline { pos } => TokenV::Newline { pos },
        }
    }
}

pub open spec fn tokens_view(s: Seq<Token>) -> Seq<TokenV>
    decreases s,
{
    if s.len() == 0 {
        Seq::empty()
    } else {
        tokens_view(s.drop_last()).push(s.last()@)
    }
}

/// `tokens_view` is the element-wise view of the sequence.
pub broadcast proof fn lemma_tokens_view(s: Seq<Token>)
    ensures
        (#[trigger] tokens_view(s)).len() == s.len(),
        forall|i: int| 0 <= i < s.len() ==> tokens_view(s)[i] == s[i]@,
    decreases s,
{
    if s.len() > 0 {
        lemma_tokens_view(s.drop_last());
    }
}

// ---------------------------------------------------------------------------
// Character classes
// ---------------------------------------------------------------------------
pub open spec fn is_digit_c(c: char) -> bool {
    '0' as u32 <= c as u32 && c as u32 <= '9' as u32
}

/// The punctuation accepted inside symbols, beside alphanumerics.
pub open spec fn is_symbol_punct(c: char) -> bool {
    c == '_' || c == '+' || c == '-' || c == '*' || c == '/' || c == '<' || c == '>' || c == '#'
        || c == '?' || c == '!' || c == '.'
}

pub open spec fn is_symbol_c(c: char) -> bool {
    alphanumeric_char(c) || is_symbol_punct(c)
}

/// Whitespace other than newline, insignificant between tokens.
pub open spec fn is_space_c(c: char) -> bool {
    c == ' ' || c == '\t'
}

fn is_digit_char(c: char) -> (r: bool)
    ensures
        r == is_digit_c(c),
{
    '0' as u32 <= c as u32 && c as u32 <= '9' as u32
}

fn is_symbol_char(c: char) -> (r: bool)
    ensures
        r == is_symbol_c(c),
{
    is_alphanumeric_char(c) || c == '_' || c == '+' || c == '-' || c == '*' || c == '/' || c == '<'
        || c == '>' || c == '#' || c == '?' || c == '!' || c == '.'
}

fn is_space_char(c: char) -> (r: bool)
    ensures
        r == is_space_c(c),
{
    c == ' ' || c == '\t'
}

// ---------------------------------------------------------------------------
// Scanning: the end of a run of characters of one class
// ---------------------------------------------------------------------------
pub open spec fn space_end(s: Seq<char>, i: int) -> int
    decreases s.len() - i,
{
    if 0 <= i < s.len() && is_space_c(s[i]) {
        space_end(s, i + 1)
    } else {
        i
    }
}

pub open spec fn digits_end(s: Seq<char>, i: int) -> int
    decreases s.len() - i,
{
    if 0 <= i < s.len() && is_digit_c(s[i]) {
        digits_end(s, i + 1)
    } else {
        i
    }
}

pub open spec fn symbol_end(s: Seq<char>, i: int) -> int
    decreases s.len() - i,
{
    if 0 <= i < s.len() && is_symbol_c(s[i]) {
        symbol_end(s, i + 1)
    } else {
        i
    }
}

/// The end of a run of string-content characters (anything but `"`).
pub open spec fn nonquote_end(s: Seq<char>, i: int) -> int
    decreases s.len() - i,
{
    if 0 <= i < s.len() && s[i] != '"' {
        nonquote_end(s, i + 1)
    } else {
        i
    }
}

/// The end of a comment: everything up to a newline or the end of input.
pub open spec fn comment_end(s: Seq<char>, i: int) -> int
    decreases s.len() - i,
{
    if 0 <= i < s.len() && s[i] != '\n' {
        comment_end(s, i + 1)
    } else {
        i
    }
}

proof fn lemma_scan_bounds(s: Seq<char>, i: int)
    requires
        0 <= i <= s.len(),
    ensures
        i <= space_end(s, i) <= s.len(),
        i <= digits_end(s, i) <= s.len(),
        i <= symbol_end(s, i) <= s.len(),
        i <= nonquote_end(s, i) <= s.len(),
        i <= comment_end(s, i) <= s.len(),
    decreases s.len() - i,
{
    if i < s.len() {
        lemma_scan_bounds(s, i + 1);
    }
}

// ---------------------------------------------------------------------------
// The tokenizer
// ---------------------------------------------------------------------------
/// What stands at position `i` (not a space): a token and the position after
/// it, a comment to skip, or a failure at `i`.
pub enum LexStep {
    Tok(TokenV, int),
    Skip(int),
    Fail(int),
}

pub open spec fn token_at(s: Seq<char>, i: int) -> LexStep {
    let c = s[i];
    if c == '"' {
        let j = nonquote_end(s, i + 1);
        if j > i + 1 && j < s.len() && s[j] == '"' {
            LexStep::Tok(
                TokenV::String { text: s.subrange(i + 1, j), pos: (i + 1) as usize },
                j + 1,
            )
        } else {
            LexStep::Fail(i)
        }
    } else {
        let k = if c == '-' {
            i + 1
        } else {
            i
        };
        let d1 = digits_end(s, k);
        if d1 > k && d1 < s.len() && s[d1] == '.' && digits_end(s, d1 + 1) > d1 + 1 {
            LexStep::Tok(
                TokenV::Double { text: s.subrange(i, digits_end(s, d1 + 1)), pos: i as usize },
                digits_end(s, d1 + 1),
            )
        } else if d1 > k {
            LexStep::Tok(TokenV::Integer { text: s.subrange(i, d1), pos: i as usize }, d1)
        } else if is_symbol_c(c) {
            let j = symbol_end(s, i);
            LexStep::Tok(TokenV::Symbol { text: s.subrange(i, j), pos: i as usize }, j)
        } else if c == '\'' {
            LexStep::Tok(TokenV::Quote { pos: i as usize }, i + 1)
        } else if c == '`' {
            LexStep::Tok(TokenV::Quasiquote { pos: i as usize }, i + 1)
        } else if c == '~' {
            LexStep::Tok(TokenV::Unquote { pos: i as usize }, i + 1)
        } else if c == '(' {
            LexStep::Tok(TokenV::LParen { pos: i as usize }, i + 1)
        } else if c == ')' {
            LexStep::Tok(TokenV::RParen { pos: i as usize }, i + 1)
        } else if c == '\n' {
            LexStep::Tok(TokenV::Newline { pos: i as usize }, i + 1)
        } else if c == ';' {
            LexStep::Skip(comment_end(s, i))
        } else {
            LexStep::Fail(i)
        }
    }
}

/// The token stream from position `i` on, or the position of the first
/// character where no token starts.
pub open spec fn spec_tokenize(s: Seq<char>, i: int) -> Result<Seq<TokenV>, usize>
    decreases s.len() - i, 1int,
{
    if 0 <= i <= s.len() {
        let i1 = space_end(s, i);
        if i1 >= s.len() {
            Ok(Seq::empty())
        } else {
            spec_tokenize_at(s, i, i1)
        }
    } else {
        Ok(Seq::empty())
    }
}

/// The continuation of `spec_tokenize` once spaces are skipped.
pub open spec fn spec_tokenize_at(s: Seq<char>, i: int, i1: int) -> Result<Seq<TokenV>, usize>
    decreases s.len() - i, 0int,
{
    if 0 <= i <= i1 < s.len() && i1 == space_end(s, i) {
        match token_at(s, i1) {
            LexStep::Fail(p) => Err(p as usize),
            LexStep::Tok(t, j) => if i1 < j <= s.len() {
                match spec_tokenize(s, j) {
                    Ok(rest) => Ok(seq![t] + rest),
                    Err(p) => Err(p),
                }
            } else {
                Err(i1 as usize)
            },
            LexStep::Skip(j) => if i1 < j <= s.len() {
                spec_tokenize(s, j)
            } else {
                Err(i1 as usize)
            },
        }
    } else {
        Ok(Seq::empty())
    }
}

/// Scans past spaces and tabs.
fn skip_spaces(s: &Vec<char>, i: usize) -> (r: usize)
    requires
        i <= s@.len(),
    ensures
        r == space_end(s@, i as int),
        i <= r <= s@.len(),
{
    let mut k: usize = i;
    proof {
        lemma_scan_bounds(s@, i as int);
    }
    while k < s.len() && is_space_char(s[k])
        invariant
            i <= k <= s@.len(),
            space_end(s@, i as int) == space_end(s@, k as int),
            space_end(s@, i as int) <= s@.len(),
        decreases s@.len() - k,
    {
        k = k + 1;
    }
    k
}

fn scan_digits(s: &Vec<char>, i: usize) -> (r: usize)
    requires
        i <= s@.len(),
    ensures
        r == digits_end(s@, i as int),
        i <= r <= s@.len(),
{
    let mut k: usize = i;
    proof {
        lemma_scan_bounds(s@, i as int);
    }
    while k < s.len() && is_digit_char(s[k])
        invariant
            i <= k <= s@.len(),
            digits_end(s@, i as int) == digits_end(s@, k as int),
            digits_end(s@, i as int) <= s@.len(),
        decreases s@.len() - k,
    {
        k = k + 1;
    }
    k
}

fn scan_symbol(s: &Vec<char>, i: usize) -> (r: usize)
    requires
        i <= s@.len(),
    ensures
        r == symbol_end(s@, i as int),
        i <= r <= s@.len(),
{
    let mut k: usize = i;
    proof {
        lemma_scan_bounds(s@, i as int);
    }
    while k < s.len() && is_symbol_char(s[k])
        invariant
            i <= k <= s@.len(),
            symbol_end(s@, i as int) == symbol_end(s@, k as int),
            symbol_end(s@, i as int) <= s@.len(),
        decreases s@.len() - k,
    {
        k = k + 1;
    }
    k
}

fn scan_nonquote(s: &Vec<char>, i: usize) -> (r: usize)
    requires
        i <= s@.len(),
    ensures
        r == nonquote_end(s@, i as int),
        i <= r <= s@.len(),
{
    let mut k: usize = i;
    proof {
        lemma_scan_bounds(s@, i as int);
    }
    while k < s.len() && s[k] != '"'
        invariant
            i <= k <= s@.len(),
            nonquote_end(s@, i as int) == nonquote_end(s@, k as int),
            nonquote_end(s@, i as int) <= s@.len(),
        decreases s@.len() - k,
    {
        k = k + 1;
    }
    k
}

fn scan_comment(s: &Vec<char>, i: usize) -> (r: usize)
    requires
        i <= s@.len(),
    ensures
        r == comment_end(s@, i as int),
        i <= r <= s@.len(),
{
    let mut k: usize = i;
    proof {
        lemma_scan_bounds(s@, i as int);
    }
    while k < s.len() && s[k] != '\n'
        invariant
            i <= k <= s@.len(),
            comment_end(s@, i as int) == comment_end(s@, k as int),
            comment_end(s@, i as int) <= s@.len(),
        decreases s@.len() - k,
    {
        k = k + 1;
    }
    k
}

/// Turns source text into its token stream; comments are dropped.  Fails at
/// the first position where no token starts (an unterminated or empty string
/// literal, a stray character).
pub fn tokenize(s: &Vec<char>) -> (r: Result<Vec<Token>, ParseError>)
    ensures
        match r {
            Ok(toks) => spec_tokenize(s@, 0) == Ok::<_, usize>(tokens_view(toks@)),
            Err(e) => {
                &&& e matches ParseError::LexError { position } ==> spec_tokenize(s@, 0)
                    == Err::<Seq<TokenV>, _>(position)
                &&& e is LexError
            },
        },
{
    broadcast use lemma_tokens_view;

    let mut out: Vec<Token> = Vec::new();
    let mut i: usize = 0;
    proof {
        assert(tokens_view(out@) =~= Seq::<TokenV>::empty());
        if spec_tokenize(s@, 0) is Ok {
            assert(tokens_view(out@) + spec_tokenize(s@, 0)->Ok_0 =~= spec_tokenize(s@, 0)->Ok_0);
        }
    }
    loop
        invariant
            i <= s@.len(),
            match spec_tokenize(s@, i as int) {
                Ok(rest) => spec_tokenize(s@, 0) == Ok::<_, usize>(tokens_view(out@) + rest),
                Err(p) => spec_tokenize(s@, 0) == Err::<Seq<TokenV>, _>(p),
            },
        decreases s@.len() - i,
    {
        let i1 = skip_spaces(s, i);
        if i1 >= s.len() {
            proof {
                assert(spec_tokenize(s@, i as int) == Ok::<_, usize>(Seq::<TokenV>::empty()));
                assert(tokens_view(out@) + Seq::<TokenV>::empty() =~= tokens_view(out@));
            }
            return Ok(out);
        }
        let c = s[i1];
        let ghost prev_toks = out@;
        let next: usize;
        if c == '"' {
            let j = scan_nonquote(s, i1 + 1);
            if j > i1 + 1 && j < s.len() && s[j] == '"' {
                let text = string_of_range(s, i1 + 1, j);
                out.push(Token::String { text, pos: i1 + 1 });
                next = j + 1;
            } else {
                proof {
                    assert(spec_tokenize(s@, i as int) == spec_tokenize_at(
                        s@,
                        i as int,
                        i1 as int,
                    ));
                }
                return Err(ParseError::LexError { position: i1 });
            }
        } else {
            let k = if c == '-' {
                i1 + 1
            } else {
                i1
            };
            let d1 = scan_digits(s, k);
            let mut d2: usize = 0;
            let mut is_double = false;
            if d1 > k && d1 < s.len() && s[d1] == '.' {
                d2 = scan_digits(s, d1 + 1);
                if d2 > d1 + 1 {
                    is_double = true;
                }
            }
            if is_double {
                let text = string_of_range(s, i1, d2);
                out.push(Token::Double { text, pos: i1 });
                next = d2;
            } else if d1 > k {
                let text = string_of_range(s, i1, d1);
                out.push(Token::Integer { text, pos: i1 });
                next = d1;
            } else if is_symbol_char(c) {
                let j = scan_symbol(s, i1);
                proof {
                    lemma_scan_bounds(s@, i1 + 1 as int);
                    assert(symbol_end(s@, i1 as int) == symbol_end(s@, i1 + 1 as int));
                }
                let text = string_of_range(s, i1, j);
                out.push(Token::Symbol { text, pos: i1 });
                next = j;
            } else if c == '\'' {
                out.push(Token::Quote { pos: i1 });
                next = i1 + 1;
            } else if c == '`' {
                out.push(Token::Quasiquote { pos: i1 });
                next = i1 + 1;
            } else if c == '~' {
                out.push(Token::Unquote { pos: i1 });
                next = i1 + 1;
            } else if c == '(' {
                out.push(Token::LParen { pos: i1 });
                next = i1 + 1;
            } else if c == ')' {
                out.push(Token::RParen { pos: i1 });
                next = i1 + 1;
            } else if c == '\n' {
                out.push(Token::Newline { pos: i1 });
                next = i1 + 1;
            } else if c == ';' {
                next = scan_comment(s, i1);
                proof {
                    lemma_scan_bounds(s@, i1 + 1 as int);
                    assert(comment_end(s@, i1 as int) == comment_end(s@, i1 + 1 as int));
                }
            } else {
                proof {
                    assert(spec_tokenize(s@, i as int) == spec_tokenize_at(
                        s@,
                        i as int,
                        i1 as int,
                    ));
                }
                return Err(ParseError::LexError { position: i1 });
            }
        }
        proof {
            let sv = s@;
            let iv = i as int;
            let i1v = i1 as int;
            assert(spec_tokenize(sv, iv) == spec_tokenize_at(sv, iv, i1v));
            if out@.len() > prev_toks.len() {
                // one token was produced
                assert(out@.drop_last() =~= prev_toks);
                assert(token_at(sv, i1v) == LexStep::Tok(out@.last()@, next as int));
                assert(tokens_view(out@) =~= tokens_view(prev_toks).push(out@.last()@));
                match spec_tokenize(sv, next as int) {
                    Ok(rest) => {
                        assert(spec_tokenize_at(sv, iv, i1v) == Ok::<_, usize>(
                            seq![out@.last()@] + rest,
                        ));
                        assert(tokens_view(prev_toks) + (seq![out@.last()@] + rest)
                            =~= tokens_view(out@) + rest);
                    },
                    Err(_) => {},
                }
            } else {
                // a comment was skipped
                assert(token_at(sv, i1v) == LexStep::Skip(next as int));
            }
        }
        i = next;
    }
}

} // verus!

verus! {

use crate::strings::str_to_chars;

// ---------------------------------------------------------------------------
// Integer literals
// ---------------------------------------------------------------------------
pub open spec fn all_digits(s: Seq<char>) -> bool {
    forall|i: int| 0 <= i < s.len() ==> is_digit_c(#[trigger] s[i])
}

/// The value of a run of decimal digits.
pub open spec fn dec_val(s: Seq<char>) -> int
    decreases s,
{
    if s.len() == 0 {
        0
    } else {
        dec_val(s.drop_last()) * 10 + (s.last() as u32 - '0' as u32)
    }
}

pub open spec fn pow10(n: nat) -> int
    decreases n,
{
    if n == 0 {
        1
    } else {
        10 * pow10((n - 1) as nat)
    }
}

/// The value of an integer literal: an optional minus sign and at least one
/// digit; `None` when malformed or out of the 64-bit range.
pub open spec fn spec_parse_int(s: Seq<char>) -> Option<i64> {
    let digits = if s.len() > 0 && s[0] == '-' {
        s.drop_first()
    } else {
        s
    };
    let neg = s.len() > 0 && s[0] == '-';
    if digits.len() == 0 || !all_digits(digits) {
        None
    } else {
        let v = if neg {
            -dec_val(digits)
        } else {
            dec_val(digits)
        };
        if i64::MIN <= v <= i64::MAX {
            Some(v as i64)
        } else {
            None
        }
    }
}

proof fn lemma_pow10_pos(n: nat)
    ensures
        pow10(n) >= 1,
    decreases n,
{
    if n > 0 {
        lemma_pow10_pos((n - 1) as nat);
    }
}

proof fn lemma_pow10_mono(a: nat, b: nat)
    requires
        a <= b,
    ensures
        pow10(a) <= pow10(b),
        pow10(a) >= 1,
    decreases b,
{
    lemma_pow10_pos(a);
    if a < b {
        lemma_pow10_mono(a, (b - 1) as nat);
        lemma_pow10_pos((b - 1) as nat);
    }
}

proof fn lemma_dec_val_bounds(s: Seq<char>)
    requires
        all_digits(s),
    ensures
        0 <= dec_val(s) < pow10(s.len()),
    decreases s,
{
    if s.len() > 0 {
        assert(all_digits(s.drop_last()));
        lemma_dec_val_bounds(s.drop_last());
    }
}

proof fn lemma_dec_val_lower(s: Seq<char>)
    requires
        all_digits(s),
        s.len() >= 1,
        s[0] != '0',
    ensures
        dec_val(s) >= pow10((s.len() - 1) as nat),
    decreases s,
{
    if s.len() == 1 {
        assert(is_digit_c(s[0]));
        assert(s.drop_last() =~= Seq::<char>::empty());
        assert(dec_val(s.drop_last()) == 0);
        assert(s.last() == s[0]);
        assert(s[0] as u32 != '0' as u32) by {
            vstd::utf8::char_u32_cast(s[0], s[0] as u32);
            vstd::utf8::char_u32_cast('0', '0' as u32);
        }
        assert(dec_val(s) >= 1);
        assert(pow10(0) == 1);
    } else {
        assert(all_digits(s.drop_last()));
        assert(s.drop_last()[0] == s[0]);
        lemma_dec_val_lower(s.drop_last());
        assert(is_digit_c(s.last()));
        assert(s.last() as u32 - '0' as u32 >= 0);
        assert(pow10((s.len() - 1) as nat) == 10 * pow10((s.len() - 2) as nat));
        assert(dec_val(s.drop_last()) * 10 >= pow10((s.len() - 2) as nat) * 10);
        assert(dec_val(s) == dec_val(s.drop_last()) * 10 + (s.last() as u32 - '0' as u32));
        assert(dec_val(s) >= pow10((s.len() - 1) as nat));
    }
}

proof fn lemma_dec_val_drop_zero(s: Seq<char>)
    requires
        s.len() >= 1,
        s[0] == '0',
    ensures
        dec_val(s) == dec_val(s.drop_first()),
    decreases s,
{
    if s.len() == 1 {
        assert(s.drop_first() =~= Seq::<char>::empty());
        assert(dec_val(s) == dec_val(s.drop_last()) * 10 + (s.last() as u32 - '0' as u32));
        assert(s.drop_last() =~= Seq::<char>::empty());
    } else {
        let bl = s.drop_last();
        lemma_dec_val_drop_zero(bl);
        assert(s.drop_first().drop_last() =~= bl.drop_first());
        assert(s.drop_first().last() == s.last());
    }
}

proof fn lemma_dec_val_skip_zeros(s: Seq<char>, k: int)
    requires
        0 <= k <= s.len(),
        forall|i: int| 0 <= i < k ==> s[i] == '0',
    ensures
        dec_val(s) == dec_val(s.subrange(k, s.len() as int)),
    decreases k,
{
    if k == 0 {
        assert(s.subrange(0, s.len() as int) =~= s);
    } else {
        lemma_dec_val_drop_zero(s);
        let t = s.drop_first();
        lemma_dec_val_skip_zeros(t, k - 1);
        assert(t.subrange(k - 1, t.len() as int) =~= s.subrange(k, s.len() as int));
    }
}

/// The 64-bit value of an integer literal, or `None` when malformed or out
/// of range.
#[verifier::loop_isolation(false)]
#[verifier::rlimit(100)]
#[verifier::spinoff_prover]
fn parse_int_text(text: &str) -> (r: Option<i64>)
    ensures
        r == spec_parse_int(text@),
{
    let chars = str_to_chars(text);
    let n = chars.len();
    let neg = n > 0 && chars[0] == '-';
    let start: usize = if neg {
        1
    } else {
        0
    };
    let ghost digits = if neg {
        text@.drop_first()
    } else {
        text@
    };
    proof {
        assert(digits =~= chars@.subrange(start as int, n as int));
    }
    if start == n {
        return None;
    }
    // every character after the sign must be a digit
    let mut k: usize = start;
    while k < n
        invariant
            start <= k <= n == chars@.len(),
            forall|i: int| start <= i < k ==> is_digit_c(#[trigger] chars@[i]),
        decreases n - k,
    {
        if !is_digit_char(chars[k]) {
            proof {
                assert(digits[k as int - start as int] == chars@[k as int]);
                assert(!is_digit_c(digits[k as int - start as int]));
                assert(!all_digits(digits));
            }
            return None;
        }
        k = k + 1;
    }
    proof {
        assert(all_digits(digits));
    }
    // skip leading zeros
    let mut z: usize = start;
    while z < n && chars[z] == '0'
        invariant
            start <= z <= n == chars@.len(),
            forall|i: int| start <= i < z ==> chars@[i] == '0',
        decreases n - z,
    {
        z = z + 1;
    }
    let ghost sig = chars@.subrange(z as int, n as int);
    proof {
        lemma_dec_val_skip_zeros(digits, z - start as int);
        assert(digits.subrange(z - start as int, digits.len() as int) =~= sig);
        assert(dec_val(digits) == dec_val(sig));
        assert(all_digits(sig));
        lemma_dec_val_bounds(sig);
        assert(pow10(18) == 1000000000000000000 && pow10(19) == 10000000000000000000) by {
            reveal_with_fuel(pow10, 21);
        }
    }
    if n - z > 19 {
        proof {
            lemma_dec_val_lower(sig);
            lemma_pow10_mono(19, (sig.len() - 1) as nat);
        }
        return None;
    }
    let mut mag: u64 = 0;
    let mut j: usize = z;
    while j < n
        invariant
            z <= j <= n == chars@.len(),
            n - z <= 19,
            sig == chars@.subrange(z as int, n as int),
            all_digits(sig),
            mag == dec_val(chars@.subrange(z as int, j as int)),
            mag < pow10((j - z) as nat),
        decreases n - j,
    {
        proof {
            lemma_pow10_mono((j - z) as nat, 18);
            assert(is_digit_c(sig[j - z as int]));
        }
        let d: u64 = (chars[j] as u32 - '0' as u32) as u64;
        mag = mag * 10 + d;
        proof {
            assert(chars@.subrange(z as int, j + 1 as int).drop_last() =~= chars@.subrange(
                z as int,
                j as int,
            ));
            assert(chars@.subrange(z as int, j + 1 as int).last() == chars@[j as int]);
        }
        j = j + 1;
    }
    proof {
        assert(chars@.subrange(z as int, n as int) =~= sig);
        assert(mag == dec_val(digits));
    }
    if neg {
        if mag <= 9223372036854775807u64 {
            Some(0i64 - (mag as i64))
        } else if mag == 9223372036854775808u64 {
            Some(i64::MIN)
        } else {
            None
        }
    } else {
        if mag <= 9223372036854775807u64 {
            Some(mag as i64)
        } else {
            None
        }
    }
}

} // verus!

verus! {

// ---------------------------------------------------------------------------
// The parser
// ---------------------------------------------------------------------------
pub open spec fn pos_of(t: TokenV) -> usize {
    match t {
        TokenV::Symbol { pos, .. } => pos,
        TokenV::Integer { pos, .. } => pos,
        TokenV::Double { pos, .. } => pos,
        TokenV::String { pos, .. } => pos,
        TokenV::Quote { pos } => pos,
        TokenV::Quasiquote { pos } => pos,
        TokenV::Unquote { pos } => pos,
        TokenV::LParen { pos } => pos,
        TokenV::RParen { pos } => pos,
        TokenV::Newline { pos } => pos,
    }
}

fn token_pos(t: &Token) -> (r: usize)
    ensures
        r == pos_of(t@),
{
    match t {
        Token::Symbol { pos, .. } => *pos,
        Token::Integer { pos, .. } => *pos,
        Token::Double { pos, .. } => *pos,
        Token::String { pos, .. } => *pos,
        Token::Quote { pos } => *pos,
        Token::Quasiquote { pos } => *pos,
        Token::Unquote { pos } => *pos,
        Token::LParen { pos } => *pos,
        Token::RParen { pos } => *pos,
        Token::Newline { pos } => *pos,
    }
}

/// The end of a run of newline tokens.
pub open spec fn newlines_end(toks: Seq<TokenV>, i: int) -> int
    decreases toks.len() - i,
{
    if 0 <= i < toks.len() && toks[i] is Newline {
        newlines_end(toks, i + 1)
    } else {
        i
    }
}

proof fn lemma_newlines_bounds(toks: Seq<TokenV>, i: int)
    requires
        0 <= i <= toks.len(),
    ensures
        i <= newlines_end(toks, i) <= toks.len(),
    decreases toks.len() - i,
{
    if i < toks.len() {
        lemma_newlines_bounds(toks, i + 1);
    }
}

#[verifier::loop_isolation(false)]
fn skip_newlines(toks: &Vec<Token>, i: usize) -> (r: usize)
    requires
        i <= toks@.len(),
    ensures
        r == newlines_end(tokens_view(toks@), i as int),
        i <= r <= toks@.len(),
{
    broadcast use lemma_tokens_view;

    let ghost tv = tokens_view(toks@);
    proof {
        lemma_newlines_bounds(tv, i as int);
    }
    let mut k: usize = i;
    while k < toks.len() && matches!(&toks[k], Token::Newline { .. })
        invariant
            i <= k <= toks@.len(),
            newlines_end(tv, i as int) == newlines_end(tv, k as int),
        decreases toks@.len() - k,
    {
        k = k + 1;
    }
    k
}

/// One expression without its trailing newlines: a leaf token, a quoting
/// marker applied to the expression after it, or a parenthesized list.
pub open spec fn spec_parse_bare(toks: Seq<TokenV>, i: int) -> Result<(ExprV, int), ParseError>
    decreases toks.len() - i, 1int,
{
    if 0 <= i < toks.len() {
        match toks[i] {
            TokenV::String { text, pos } => Ok(
                (ExprV::String { value: text, location: Some(pos), trailing_newline: false }, i + 1),
            ),
            TokenV::Double { text, pos } => Ok(
                (ExprV::Double { text, location: Some(pos), trailing_newline: false }, i + 1),
            ),
            TokenV::Integer { text, pos } => match spec_parse_int(text) {
                Some(v) => Ok(
                    (
                        ExprV::Integer { value: v, location: Some(pos), trailing_newline: false },
                        i + 1,
                    ),
                ),
                None => Err(ParseError::IntegerOverflow { position: pos }),
            },
            TokenV::Symbol { text, pos } => Ok(
                (ExprV::Symbol { name: text, location: Some(pos), trailing_newline: false }, i + 1),
            ),
            TokenV::Quote { pos } => match spec_parse_expr(toks, i + 1) {
                Ok((e, j)) => Ok(
                    (
                        ExprV::Quote {
                            expr: Box::new(e),
                            location: Some(pos),
                            trailing_newline: false,
                        },
                        j,
                    ),
                ),
                Err(p) => Err(p),
            },
            TokenV::Quasiquote { pos } => match spec_parse_expr(toks, i + 1) {
                Ok((e, j)) => Ok(
                    (
                        ExprV::Quasiquote {
                            expr: Box::new(e),
                            location: Some(pos),
                            trailing_newline: false,
                        },
                        j,
                    ),
                ),
                Err(p) => Err(p),
            },
            TokenV::Unquote { pos } => match spec_parse_expr(toks, i + 1) {
                Ok((e, j)) => Ok(
                    (
                        ExprV::Unquote {
                            expr: Box::new(e),
                            location: Some(pos),
                            trailing_newline: false,
                        },
                        j,
                    ),
                ),
                Err(p) => Err(p),
            },
            TokenV::LParen { pos } => {
                let (elems, j) = spec_parse_elems(toks, i + 1);
                if j < toks.len() && toks[j] is RParen {
                    Ok(
                        (
                            ExprV::List {
                                elements: elems,
                                location: Some(pos),
                                trailing_newline: false,
                            },
                            j + 1,
                        ),
                    )
                } else if 0 <= j < toks.len() {
                    Err(ParseError::UnexpectedToken { position: pos_of(toks[j]) })
                } else {
                    Err(ParseError::UnexpectedEnd)
                }
            },
            TokenV::RParen { pos } => Err(ParseError::UnexpectedToken { position: pos }),
            TokenV::Newline { pos } => Err(ParseError::UnexpectedToken { position: pos }),
        }
    } else {
        Err(ParseError::UnexpectedEnd)
    }
}

/// One expression: the bare expression, with its trailing-newline flag set
/// when newline tokens follow it.
pub open spec fn spec_parse_expr(toks: Seq<TokenV>, i: int) -> Result<(ExprV, int), ParseError>
    decreases toks.len() - i, 2int,
{
    match spec_parse_bare(toks, i) {
        Ok((e, j)) => {
            let k = newlines_end(toks, j);
            if k > j {
                Ok((set_newline_v(e, true), k))
            } else {
                Ok((e, j))
            }
        },
        Err(p) => Err(p),
    }
}

/// As many expressions as can be read, and the position after them.
pub open spec fn spec_parse_elems(toks: Seq<TokenV>, i: int) -> (Seq<ExprV>, int)
    decreases toks.len() - i, 3int,
{
    match spec_parse_expr(toks, i) {
        Ok((e, j)) => if i < j <= toks.len() {
            let (rest, k) = spec_parse_elems(toks, j);
            (seq![e] + rest, k)
        } else {
            (seq![e], j)
        },
        Err(_) => (Seq::empty(), i),
    }
}

/// A whole file: expressions back to back until the tokens run out.
pub open spec fn spec_parse_program(toks: Seq<TokenV>, i: int) -> Result<Seq<ExprV>, ParseError>
    decreases toks.len() - i, 4int,
{
    if 0 <= i < toks.len() {
        match spec_parse_expr(toks, i) {
            Ok((e, j)) => if i < j <= toks.len() {
                match spec_parse_program(toks, j) {
                    Ok(rest) => Ok(seq![e] + rest),
                    Err(p) => Err(p),
                }
            } else {
                Err(ParseError::UnexpectedEnd)
            },
            Err(p) => Err(p),
        }
    } else {
        Ok(Seq::empty())
    }
}

/// What parsing a whole source text yields.
pub open spec fn spec_parse_file(s: Seq<char>) -> Result<Seq<ExprV>, ParseError> {
    match spec_tokenize(s, 0) {
        Err(p) => Err(ParseError::LexError { position: p }),
        Ok(toks) => spec_parse_program(toks, 0),
    }
}

/// What parsing a single expression from a source text yields; tokens after
/// the first expression are ignored.
pub open spec fn spec_parse_one(s: Seq<char>) -> Result<ExprV, ParseError> {
    match spec_tokenize(s, 0) {
        Err(p) => Err(ParseError::LexError { position: p }),
        Ok(toks) => match spec_parse_expr(toks, 0) {
            Ok((e, _)) => Ok(e),
            Err(p) => Err(p),
        },
    }
}

/// Parsing is a pure function of the source text: equal texts parse to equal
/// expression trees.
pub proof fn lemma_parse_file_pure(s1: Seq<char>, s2: Seq<char>)
    requires
        s1 == s2,
    ensures
        spec_parse_file(s1) == spec_parse_file(s2),
{
}

/// The sequence of views of a sequence of owned expressions.
pub open spec fn program_view(s: Seq<Expr>) -> Seq<ExprV>
    decreases s,
{
    if s.len() == 0 {
        Seq::empty()
    } else {
        program_view(s.drop_last()).push(s.last()@)
    }
}

/// `program_view` is the element-wise view of the sequence.
pub broadcast proof fn lemma_program_view(s: Seq<Expr>)
    ensures
        (#[trigger] program_view(s)).len() == s.len(),
        forall|i: int| 0 <= i < s.len() ==> program_view(s)[i] == s[i]@,
    decreases s,
{
    if s.len() > 0 {
        lemma_program_view(s.drop_last());
    }
}

#[verifier::loop_isolation(false)]
fn parse_bare(toks: &Vec<Token>, i: usize) -> (r: Result<(Expr, usize), ParseError>)
    requires
        i <= toks@.len(),
    ensures
        match r {
            Ok((e, j)) => spec_parse_bare(tokens_view(toks@), i as int) == Ok::<
                (ExprV, int),
                ParseError,
            >((e@, j as int)) && i < j <= toks@.len(),
            Err(p) => spec_parse_bare(tokens_view(toks@), i as int) == Err::<
                (ExprV, int),
                ParseError,
            >(p),
        },
    decreases toks@.len() - i, 1int,
{
    broadcast use lemma_tokens_view;

    let ghost tv = tokens_view(toks@);
    if i >= toks.len() {
        return Err(ParseError::UnexpectedEnd);
    }
    match &toks[i] {
        Token::String { text, pos } => Ok(
            (
                Expr::String { value: text.clone(), location: Some(*pos), trailing_newline: false },
                i + 1,
            ),
        ),
        Token::Double { text, pos } => Ok(
            (
                Expr::Double { text: text.clone(), location: Some(*pos), trailing_newline: false },
                i + 1,
            ),
        ),
        Token::Integer { text, pos } => match parse_int_text(text.as_str()) {
            Some(v) => Ok(
                (Expr::Integer { value: v, location: Some(*pos), trailing_newline: false }, i + 1),
            ),
            None => Err(ParseError::IntegerOverflow { position: *pos }),
        },
        Token::Symbol { text, pos } => Ok(
            (
                Expr::Symbol { name: text.clone(), location: Some(*pos), trailing_newline: false },
                i + 1,
            ),
        ),
        Token::Quote { pos } => match parse_expr_at(toks, i + 1) {
            Ok((inner, j)) => Ok(
                (
                    Expr::Quote {
                        expr: Arc::new(inner),
                        location: Some(*pos),
                        trailing_newline: false,
                    },
                    j,
                ),
            ),
            Err(p) => Err(p),
        },
        Token::Quasiquote { pos } => match parse_expr_at(toks, i + 1) {
            Ok((inner, j)) => Ok(
                (
                    Expr::Quasiquote {
                        expr: Arc::new(inner),
                        location: Some(*pos),
                        trailing_newline: false,
                    },
                    j,
                ),
            ),
            Err(p) => Err(p),
        },
        Token::Unquote { pos } => match parse_expr_at(toks, i + 1) {
            Ok((inner, j)) => Ok(
                (
                    Expr::Unquote {
                        expr: Arc::new(inner),
                        location: Some(*pos),
                        trailing_newline: false,
                    },
                    j,
                ),
            ),
            Err(p) => Err(p),
        },
        Token::LParen { pos } => {
            let lpos = *pos;
            let mut elements: Vec<Arc<Expr>> = Vec::new();
            let mut cur: usize = i + 1;
            proof {
                assert(exprs_view(elements@) =~= Seq::<ExprV>::empty());
                assert(exprs_view(elements@) + spec_parse_elems(tv, cur as int).0
                    =~= spec_parse_elems(tv, cur as int).0);
            }
            let mut done = false;
            while !done
                invariant
                    i + 1 <= cur <= toks@.len(),
                    spec_parse_elems(tv, i + 1 as int).0 == exprs_view(elements@)
                        + spec_parse_elems(tv, cur as int).0,
                    spec_parse_elems(tv, i + 1 as int).1 == spec_parse_elems(tv, cur as int).1,
                    done ==> spec_parse_expr(tv, cur as int) is Err,
                decreases toks@.len() - cur + (if done { 0int } else { 1int }),
            {
                match parse_expr_at(toks, cur) {
                    Ok((e, j)) => {
                        proof {
                            let tail = spec_parse_elems(tv, j as int);
                            assert(spec_parse_elems(tv, cur as int) == (seq![e@] + tail.0, tail.1));
                        }
                        let ghost prevelems = elements@;
                        elements.push(Arc::new(e));
                        proof {
                            assert(elements@.drop_last() =~= prevelems);
                        }
                        let ghost prev = cur;
                        cur = j;
                        proof {
                            assert(exprs_view(elements@) =~= exprs_view(elements@.drop_last()).push(
                                e@,
                            ));
                            assert(exprs_view(elements@.drop_last()) + (seq![e@] + spec_parse_elems(
                                tv,
                                cur as int,
                            ).0) =~= exprs_view(elements@) + spec_parse_elems(tv, cur as int).0);
                        }
                    },
                    Err(p) => {
                        done = true;
                    },
                }
            }
            proof {
                assert(spec_parse_elems(tv, cur as int).0 =~= Seq::<ExprV>::empty());
                assert(exprs_view(elements@) + Seq::<ExprV>::empty() =~= exprs_view(elements@));
                assert(spec_parse_elems(tv, i + 1 as int).0 == exprs_view(elements@));
                assert(spec_parse_elems(tv, i + 1 as int).1 == cur as int);
            }
            if cur < toks.len() && matches!(&toks[cur], Token::RParen { .. }) {
                Ok(
                    (
                        Expr::List {
                            elements,
                            location: Some(lpos),
                            trailing_newline: false,
                        },
                        cur + 1,
                    ),
                )
            } else if cur < toks.len() {
                Err(ParseError::UnexpectedToken { position: token_pos(&toks[cur]) })
            } else {
                Err(ParseError::UnexpectedEnd)
            }
        },
        Token::RParen { pos } => Err(ParseError::UnexpectedToken { position: *pos }),
        Token::Newline { pos } => Err(ParseError::UnexpectedToken { position: *pos }),
    }
}

#[verifier::loop_isolation(false)]
fn parse_expr_at(toks: &Vec<Token>, i: usize) -> (r: Result<(Expr, usize), ParseError>)
    requires
        i <= toks@.len(),
    ensures
        match r {
            Ok((e, j)) => spec_parse_expr(tokens_view(toks@), i as int) == Ok::<
                (ExprV, int),
                ParseError,
            >((e@, j as int)) && i < j <= toks@.len(),
            Err(p) => spec_parse_expr(tokens_view(toks@), i as int) == Err::<
                (ExprV, int),
                ParseError,
            >(p),
        },
    decreases toks@.len() - i, 2int,
{
    match parse_bare(toks, i) {
        Ok((e, j)) => {
            let k = skip_newlines(toks, j);
            if k > j {
                Ok((e.set_newline(true), k))
            } else {
                Ok((e, j))
            }
        },
        Err(p) => Err(p),
    }
}

/// Parses a whole source text into its top-level expressions.  The text
/// either parses completely or the whole operation fails.
#[verifier::loop_isolation(false)]
pub fn parse_file(input: &str) -> (r: Result<Vec<Expr>, ParseError>)
    ensures
        match r {
            Ok(es) => spec_parse_file(input@) == Ok::<Seq<ExprV>, ParseError>(program_view(es@)),
            Err(p) => spec_parse_file(input@) == Err::<Seq<ExprV>, ParseError>(p),
        },
{
    broadcast use lemma_program_view, lemma_tokens_view;

    let chars = str_to_chars(input);
    match tokenize(&chars) {
        Err(p) => Err(p),
        Ok(toks) => {
            let ghost tv = tokens_view(toks@);
            let mut out: Vec<Expr> = Vec::new();
            let mut cur: usize = 0;
            proof {
                assert(program_view(out@) =~= Seq::<ExprV>::empty());
            }
            loop
                invariant
                    cur <= toks@.len(),
                    match spec_parse_program(tv, cur as int) {
                        Ok(rest) => spec_parse_program(tv, 0) == Ok::<Seq<ExprV>, ParseError>(
                            program_view(out@) + rest,
                        ),
                        Err(p) => spec_parse_program(tv, 0) == Err::<Seq<ExprV>, ParseError>(p),
                    },
                decreases toks@.len() - cur,
            {
                if cur >= toks.len() {
                    proof {
                        assert(spec_parse_program(tv, cur as int) == Ok::<Seq<ExprV>, ParseError>(
                            Seq::empty(),
                        ));
                        assert(program_view(out@) + Seq::<ExprV>::empty() =~= program_view(out@));
                    }
                    return Ok(out);
                }
                match parse_expr_at(&toks, cur) {
                    Ok((e, j)) => {
                        let ghost rest0 = spec_parse_program(tv, j as int);
                        let ghost prevout = out@;
                        out.push(e);
                        proof {
                            assert(out@.drop_last() =~= prevout);
                            assert(program_view(out@) =~= program_view(out@.drop_last()).push(e@));
                            if rest0 is Ok {
                                assert(program_view(out@.drop_last()) + (seq![e@] + rest0->Ok_0)
                                    =~= program_view(out@) + rest0->Ok_0);
                            }
                        }
                        cur = j;
                    },
                    Err(p) => {
                        return Err(p);
                    },
                }
            }
        },
    }
}

/// Parses one expression from a source text; anything after it is ignored.
pub fn parse_expr(input: &str) -> (r: Result<Expr, ParseError>)
    ensures
        match r {
            Ok(e) => spec_parse_one(input@) == Ok::<ExprV, ParseError>(e@),
            Err(p) => spec_parse_one(input@) == Err::<ExprV, ParseError>(p),
        },
{
    let chars = str_to_chars(input);
    match tokenize(&chars) {
        Err(p) => Err(p),
        Ok(toks) => {
            match parse_expr_at(&toks, 0) {
                Ok((e, _)) => Ok(e),
                Err(p) => Err(p),
            }
        },
    }
}

} // verus!

verus! {

/// The 64-bit truncation of a double literal: the value of its integer
/// part, saturated to the 64-bit range.
pub open spec fn spec_double_trunc(s: Seq<char>) -> i64 {
    let neg = s.len() > 0 && s[0] == '-';
    let start = if neg {
        1int
    } else {
        0int
    };
    let dend = digits_end(s, start);
    let mag = dec_val(s.subrange(start, dend));
    let v = if neg {
        -mag
    } else {
        mag
    };
    if v < i64::MIN {
        i64::MIN
    } else if v > i64::MAX {
        i64::MAX
    } else {
        v as i64
    }
}

/// Computes the 64-bit truncation of a double literal.
#[verifier::loop_isolation(false)]
#[verifier::rlimit(100)]
#[verifier::spinoff_prover]
pub fn double_trunc_text(text: &str) -> (r: i64)
    ensures
        r == spec_double_trunc(text@),
{
    let chars = str_to_chars(text);
    let n = chars.len();
    let neg = n > 0 && chars[0] == '-';
    let start: usize = if neg {
        1
    } else {
        0
    };
    let dend = scan_digits(&chars, start);
    let ghost digits = chars@.subrange(start as int, dend as int);
    proof {
        assert(all_digits(digits)) by {
            lemma_digits_end_digits(chars@, start as int, dend as int);
        }
    }
    // skip leading zeros
    let mut z: usize = start;
    while z < dend && chars[z] == '0'
        invariant
            start <= z <= dend,
            forall|i: int| start <= i < z ==> chars@[i] == '0',
        decreases dend - z,
    {
        z = z + 1;
    }
    let ghost sig = chars@.subrange(z as int, dend as int);
    proof {
        lemma_dec_val_skip_zeros(digits, z - start as int);
        assert(digits.subrange(z - start as int, digits.len() as int) =~= sig);
        assert(all_digits(sig));
        lemma_dec_val_bounds(sig);
        assert(pow10(18) == 1000000000000000000 && pow10(19) == 10000000000000000000) by {
            reveal_with_fuel(pow10, 21);
        }
    }
    if dend - z > 19 {
        proof {
            lemma_dec_val_lower(sig);
            lemma_pow10_mono(19, (sig.len() - 1) as nat);
        }
        if neg {
            return i64::MIN;
        } else {
            return i64::MAX;
        }
    }
    let mut mag: u64 = 0;
    let mut j: usize = z;
    while j < dend
        invariant
            z <= j <= dend <= chars@.len(),
            dend - z <= 19,
            sig == chars@.subrange(z as int, dend as int),
            all_digits(sig),
            mag == dec_val(chars@.subrange(z as int, j as int)),
            mag < pow10((j - z) as nat),
        decreases dend - j,
    {
        proof {
            lemma_pow10_mono((j - z) as nat, 18);
            assert(is_digit_c(sig[j - z as int]));
        }
        let d: u64 = (chars[j] as u32 - '0' as u32) as u64;
        mag = mag * 10 + d;
        proof {
            assert(chars@.subrange(z as int, j + 1 as int).drop_last() =~= chars@.subrange(
                z as int,
                j as int,
            ));
            assert(chars@.subrange(z as int, j + 1 as int).last() == chars@[j as int]);
        }
        j = j + 1;
    }
    proof {
        assert(chars@.subrange(z as int, dend as int) =~= sig);
        assert(mag == dec_val(digits));
    }
    if neg {
        if mag <= 9223372036854775808u64 {
            if mag == 9223372036854775808u64 {
                i64::MIN
            } else {
                0i64 - (mag as i64)
            }
        } else {
            i64::MIN
        }
    } else {
        if mag <= 9223372036854775807u64 {
            mag as i64
        } else {
            i64::MAX
        }
    }
}

/// Between `i` and its digit end, every character is a digit.
proof fn lemma_digits_end_digits(s: Seq<char>, i: int, e: int)
    requires
        0 <= i <= s.len(),
        e == digits_end(s, i),
    ensures
        forall|k: int| i <= k < e ==> is_digit_c(#[trigger] s[k]),
    decreases s.len() - i,
{
    lemma_scan_bounds(s, i);
    if 0 <= i < s.len() && is_digit_c(s[i]) {
        lemma_digits_end_digits(s, i + 1, e);
    }
}

} // verus!

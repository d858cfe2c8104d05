use vstd::prelude::*;

use crate::loc::Loc;
use crate::text::{chars_of, string_of};

verus! {

/// Turns source text into tokens.
#[derive(Debug)]
pub struct AliceLexer {
    src: String,
    loc: Loc,
}

/// A number literal: an integer; the digits of a decimal integer too large for an
/// `i64`; or the text of a decimal literal (digits with one period). Underscores are
/// removed. The value of the last two as a float is computed where they are used.
#[derive(Debug)]
pub enum NumberLit {
    Int(i64),
    Wide(String),
    Decimal(String),
}

#[derive(Debug)]
pub enum AliceToken {
    IdentOrKeyw(String),
    String(String),
    Number(NumberLit),
    Sep(AliceSeparator),
    Op(AliceOp),
}

#[derive(Debug, PartialEq, Eq, Structural, Clone, Copy)]
pub enum AliceSeparator {
    OpenP,  // (
    CloseP,  // )
    OpenB,  // {
    CloseB,  // }
    OpenS,  // [
    CloseS,  // ]
    Comma,  // ,
    Period,  // .
    Colon,  // :
    Semi,  // ;
    At,  // @
}

#[derive(Debug, PartialEq, Eq, Structural, Clone, Copy)]
pub enum AliceOp {
    Add,
    Sub,
    Mul,
    Div,
    Pow,  // **
    Mod,
    Eqs,
    Gt,
    Lt,
}

#[derive(Debug)]
pub enum AliceLexerErr {
    MissingDelimeter(String, Loc),
    HitEOFWhileParsing(String, Loc),
    IllegalEscapeSequence(String, Loc),
    NumberFormatErr(String, Loc),
    UnexpectedSymbol(String, Loc),
}

/// The kind of a lexing error.
#[derive(Debug, PartialEq, Eq, Structural, Clone, Copy)]
pub enum LexError {
    MissingDelimiter,
    IllegalEscape,
    NumberFormat,
}

/// What a token says, as plain values.
pub enum TokenView {
    Ident(Seq<char>),
    Str(Seq<char>),
    Int(int),
    Wide(Seq<char>),
    Decimal(Seq<char>),
    Sep(AliceSeparator),
    Op(AliceOp),
}

pub open spec fn token_view(t: AliceToken) -> TokenView {
    match t {
        AliceToken::IdentOrKeyw(s) => TokenView::Ident(s@),
        AliceToken::String(s) => TokenView::Str(s@),
        AliceToken::Number(NumberLit::Int(v)) => TokenView::Int(v as int),
        AliceToken::Number(NumberLit::Wide(s)) => TokenView::Wide(s@),
        AliceToken::Number(NumberLit::Decimal(s)) => TokenView::Decimal(s@),
        AliceToken::Sep(s) => TokenView::Sep(s),
        AliceToken::Op(o) => TokenView::Op(o),
    }
}

pub open spec fn tokens_view(ts: Seq<AliceToken>) -> Seq<TokenView> {
    ts.map_values(|t: AliceToken| token_view(t))
}

pub open spec fn lex_error_of(e: AliceLexerErr) -> Option<LexError> {
    match e {
        AliceLexerErr::MissingDelimeter(..) => Some(LexError::MissingDelimiter),
        AliceLexerErr::IllegalEscapeSequence(..) => Some(LexError::IllegalEscape),
        AliceLexerErr::NumberFormatErr(..) => Some(LexError::NumberFormat),
        _ => None,
    }
}

/// Whether `c` has the Unicode `White_Space` property.
pub open spec fn is_whitespace(c: char) -> bool {
    let u = c as u32;
    (0x9 <= u <= 0xd) || u == 0x20 || u == 0x85 || u == 0xa0 || u == 0x1680 || (0x2000 <= u
        <= 0x200a) || u == 0x2028 || u == 0x2029 || u == 0x202f || u == 0x205f || u == 0x3000
}

pub open spec fn separator_of(c: char) -> Option<AliceSeparator> {
    if c == '(' {
        Some(AliceSeparator::OpenP)
    } else if c == ')' {
        Some(AliceSeparator::CloseP)
    } else if c == '{' {
        Some(AliceSeparator::OpenB)
    } else if c == '}' {
        Some(AliceSeparator::CloseB)
    } else if c == '[' {
        Some(AliceSeparator::OpenS)
    } else if c == ']' {
        Some(AliceSeparator::CloseS)
    } else if c == ',' {
        Some(AliceSeparator::Comma)
    } else if c == '.' {
        Some(AliceSeparator::Period)
    } else if c == ':' {
        Some(AliceSeparator::Colon)
    } else if c == ';' {
        Some(AliceSeparator::Semi)
    } else if c == '@' {
        Some(AliceSeparator::At)
    } else {
        None
    }
}

/// The operator that the single character `c` spells.
pub open spec fn operator_of(c: char) -> Option<AliceOp> {
    if c == '+' {
        Some(AliceOp::Add)
    } else if c == '-' {
        Some(AliceOp::Sub)
    } else if c == '*' {
        Some(AliceOp::Mul)
    } else if c == '/' {
        Some(AliceOp::Div)
    } else if c == '%' {
        Some(AliceOp::Mod)
    } else if c == '=' {
        Some(AliceOp::Eqs)
    } else if c == '>' {
        Some(AliceOp::Gt)
    } else if c == '<' {
        Some(AliceOp::Lt)
    } else {
        None
    }
}

/// A character that ends an identifier or a number.
pub open spec fn is_token_separator_spec(c: char) -> bool {
    separator_of(c) is Some || operator_of(c) is Some || c == '\'' || c == '"'
}

pub open spec fn ends_token(c: char) -> bool {
    is_token_separator_spec(c) || is_whitespace(c)
}

/// The character that the escape `\c` stands for.
pub open spec fn unescape(c: char) -> Option<char> {
    if c == '\\' || c == '"' || c == '\'' {
        Some(c)
    } else if c == 'n' {
        Some('\n')
    } else if c == 'r' {
        Some('\r')
    } else if c == 't' {
        Some('\t')
    } else {
        None
    }
}

/// The value of digit `c` in base `radix` (2, 10 or 16).
pub open spec fn digit_value(c: char, radix: u32) -> Option<nat> {
    let u = c as u32;
    if '0' as u32 <= u && u <= '9' as u32 && (u - '0' as u32) < radix {
        Some((u - '0' as u32) as nat)
    } else if radix == 16 && 'a' as u32 <= u && u <= 'f' as u32 {
        Some((u - 'a' as u32 + 10) as nat)
    } else if radix == 16 && 'A' as u32 <= u && u <= 'F' as u32 {
        Some((u - 'A' as u32 + 10) as nat)
    } else {
        None
    }
}

/// The value of the digits `ds` in base `radix`, most significant first.
pub open spec fn digits_value(ds: Seq<char>, radix: u32) -> nat
    decreases ds.len(),
{
    if ds.len() == 0 {
        0
    } else {
        digits_value(ds.drop_last(), radix) * radix as nat + match digit_value(ds.last(), radix) {
            Some(d) => d,
            None => 0,
        }
    }
}

/// Scans a string body from `j`, closed by `quote`; `acc` holds the body so far.
/// Gives the body and the position after the closing quote.
pub open spec fn scan_string(cs: Seq<char>, j: int, quote: char, acc: Seq<char>) -> Result<
    (Seq<char>, int),
    LexError,
>
    decreases cs.len() - j,
{
    if j < 0 || j >= cs.len() {
        Err(LexError::MissingDelimiter)
    } else if cs[j] == '\\' {
        if j + 1 >= cs.len() {
            Err(LexError::MissingDelimiter)
        } else {
            match unescape(cs[j + 1]) {
                Some(e) => scan_string(cs, j + 2, quote, acc.push(e)),
                None => Err(LexError::IllegalEscape),
            }
        }
    } else if cs[j] == quote {
        Ok((acc, j + 1))
    } else {
        scan_string(cs, j + 1, quote, acc.push(cs[j]))
    }
}

/// Scans the digits of a base-2 or base-16 literal from `j`; underscores are dropped.
pub open spec fn scan_radix(cs: Seq<char>, j: int, radix: u32, acc: Seq<char>) -> Result<
    (Seq<char>, int),
    LexError,
>
    decreases cs.len() - j,
{
    if j < 0 {
        Err(LexError::NumberFormat)
    } else if j >= cs.len() || (cs[j] != '.' && ends_token(cs[j])) {
        Ok((acc, j))
    } else if digit_value(cs[j], radix) is Some {
        scan_radix(cs, j + 1, radix, acc.push(cs[j]))
    } else if cs[j] == '_' {
        scan_radix(cs, j + 1, radix, acc)
    } else {
        Err(LexError::NumberFormat)
    }
}

/// Scans a decimal literal from `j`: digits, underscores (dropped) and at most one period.
/// Gives the text, whether a period was seen, and the end position.
pub open spec fn scan_decimal(cs: Seq<char>, j: int, acc: Seq<char>, had_period: bool) -> Result<
    (Seq<char>, bool, int),
    LexError,
>
    decreases cs.len() - j,
{
    if j < 0 {
        Err(LexError::NumberFormat)
    } else if j >= cs.len() {
        Ok((acc, had_period, j))
    } else if digit_value(cs[j], 10) is Some {
        scan_decimal(cs, j + 1, acc.push(cs[j]), had_period)
    } else if cs[j] == '_' {
        scan_decimal(cs, j + 1, acc, had_period)
    } else if cs[j] == '.' {
        if had_period {
            Err(LexError::NumberFormat)
        } else {
            scan_decimal(cs, j + 1, acc.push('.'), true)
        }
    } else if ends_token(cs[j]) {
        Ok((acc, had_period, j))
    } else {
        Err(LexError::NumberFormat)
    }
}

/// A decimal integer literal: its value when it fits an `i64`, else its digits.
pub open spec fn int_token(ds: Seq<char>, end: int) -> Result<(TokenView, int), LexError> {
    if digits_value(ds, 10) <= i64::MAX {
        Ok((TokenView::Int(digits_value(ds, 10) as int), end))
    } else {
        Ok((TokenView::Wide(ds), end))
    }
}

/// The number literal starting at `i`: `0x` and `0b` select base 16 and 2 (no digits
/// is zero; a value beyond `i64` is an error); a `0` followed by another digit is an
/// error; otherwise a decimal.
pub open spec fn number_at(cs: Seq<char>, i: int) -> Result<(TokenView, int), LexError> {
    if cs[i] == '0' && i + 1 < cs.len() && (cs[i + 1] == 'x' || cs[i + 1] == 'b') {
        let radix: u32 = if cs[i + 1] == 'x' {
            16
        } else {
            2
        };
        match scan_radix(cs, i + 2, radix, seq![]) {
            Ok((ds, e)) => if digits_value(ds, radix) <= i64::MAX {
                Ok((TokenView::Int(digits_value(ds, radix) as int), e))
            } else {
                Err(LexError::NumberFormat)
            },
            Err(k) => Err(k),
        }
    } else if cs[i] == '0' && i + 1 < cs.len() && digit_value(cs[i + 1], 10) is Some {
        Err(LexError::NumberFormat)
    } else {
        match scan_decimal(cs, i, seq![], false) {
            Ok((ds, p, e)) => if p {
                Ok((TokenView::Decimal(ds), e))
            } else {
                int_token(ds, e)
            },
            Err(k) => Err(k),
        }
    }
}

/// Scans an identifier from `j` up to the next character that ends a token.
pub open spec fn scan_ident(cs: Seq<char>, j: int, acc: Seq<char>) -> (Seq<char>, int)
    decreases cs.len() - j,
{
    if j < 0 || j >= cs.len() || ends_token(cs[j]) {
        (acc, j)
    } else {
        scan_ident(cs, j + 1, acc.push(cs[j]))
    }
}

/// The token that starts at `i`, which is no whitespace, and the position after it.
pub open spec fn token_at(cs: Seq<char>, i: int) -> Result<(TokenView, int), LexError> {
    let c = cs[i];
    if c == '"' || c == '\'' {
        match scan_string(cs, i + 1, c, seq![]) {
            Ok((s, e)) => Ok((TokenView::Str(s), e)),
            Err(k) => Err(k),
        }
    } else if digit_value(c, 10) is Some {
        number_at(cs, i)
    } else if operator_of(c) is Some {
        if c == '*' && i + 1 < cs.len() && cs[i + 1] == '*' {
            Ok((TokenView::Op(AliceOp::Pow), i + 2))
        } else {
            Ok((TokenView::Op(operator_of(c)->0), i + 1))
        }
    } else if separator_of(c) is Some {
        Ok((TokenView::Sep(separator_of(c)->0), i + 1))
    } else {
        let (s, e) = scan_ident(cs, i + 1, seq![c]);
        Ok((TokenView::Ident(s), e))
    }
}

pub proof fn lemma_scan_string_end(cs: Seq<char>, j: int, quote: char, acc: Seq<char>)
    ensures
        scan_string(cs, j, quote, acc) matches Ok((_, e)) ==> j < e <= cs.len(),
    decreases cs.len() - j,
{
    if 0 <= j < cs.len() {
        if cs[j] == '\\' {
            if j + 1 < cs.len() {
                if let Some(e) = unescape(cs[j + 1]) {
                    lemma_scan_string_end(cs, j + 2, quote, acc.push(e));
                }
            }
        } else if cs[j] != quote {
            lemma_scan_string_end(cs, j + 1, quote, acc.push(cs[j]));
        }
    }
}

pub proof fn lemma_scan_radix_end(cs: Seq<char>, j: int, radix: u32, acc: Seq<char>)
    requires
        0 <= j <= cs.len(),
    ensures
        scan_radix(cs, j, radix, acc) matches Ok((_, e)) ==> j <= e <= cs.len(),
    decreases cs.len() - j,
{
    if 0 <= j < cs.len() && !(cs[j] != '.' && ends_token(cs[j])) {
        if digit_value(cs[j], radix) is Some {
            lemma_scan_radix_end(cs, j + 1, radix, acc.push(cs[j]));
        } else if cs[j] == '_' {
            lemma_scan_radix_end(cs, j + 1, radix, acc);
        }
    }
}

pub proof fn lemma_scan_decimal_end(cs: Seq<char>, j: int, acc: Seq<char>, had_period: bool)
    ensures
        scan_decimal(cs, j, acc, had_period) matches Ok((_, _, e)) ==> j <= e <= cs.len() || (j
            > cs.len() && e == j),
    decreases cs.len() - j,
{
    if 0 <= j < cs.len() {
        if digit_value(cs[j], 10) is Some {
            lemma_scan_decimal_end(cs, j + 1, acc.push(cs[j]), had_period);
        } else if cs[j] == '_' {
            lemma_scan_decimal_end(cs, j + 1, acc, had_period);
        } else if cs[j] == '.' && !had_period {
            lemma_scan_decimal_end(cs, j + 1, acc.push('.'), true);
        }
    }
}

pub proof fn lemma_scan_ident_end(cs: Seq<char>, j: int, acc: Seq<char>)
    requires
        0 <= j <= cs.len(),
    ensures
        j <= scan_ident(cs, j, acc).1 <= cs.len(),
    decreases cs.len() - j,
{
    if j < cs.len() && !ends_token(cs[j]) {
        lemma_scan_ident_end(cs, j + 1, acc.push(cs[j]));
    }
}

/// A token ends after its start and within the text.
pub proof fn lemma_token_end(cs: Seq<char>, i: int)
    requires
        0 <= i < cs.len(),
    ensures
        token_at(cs, i) matches Ok((_, e)) ==> i < e <= cs.len(),
{
    let c = cs[i];
    if c == '"' || c == '\'' {
        lemma_scan_string_end(cs, i + 1, c, seq![]);
    } else if digit_value(c, 10) is Some {
        if cs[i] == '0' && i + 1 < cs.len() && (cs[i + 1] == 'x' || cs[i + 1] == 'b') {
            let radix: u32 = if cs[i + 1] == 'x' {
                16
            } else {
                2
            };
            lemma_scan_radix_end(cs, i + 2, radix, seq![]);
        } else {
            lemma_scan_decimal_end(cs, i + 1, seq![cs[i]], false);
            assert(seq![].push(cs[i]) =~= seq![cs[i]]);
        }
    } else if operator_of(c) is None && separator_of(c) is None {
        lemma_scan_ident_end(cs, i + 1, seq![c]);
    }
}

#[via_fn]
proof fn lex_from_decreases(cs: Seq<char>, i: int) {
    if 0 <= i < cs.len() && !is_whitespace(cs[i]) {
        lemma_token_end(cs, i);
    }
}

/// The tokens of `cs` from position `i` on; whitespace separates tokens.
pub open spec fn lex_from(cs: Seq<char>, i: int) -> Result<Seq<TokenView>, LexError>
    decreases cs.len() - i,
    via lex_from_decreases
{
    if i < 0 || i >= cs.len() {
        Ok(seq![])
    } else if is_whitespace(cs[i]) {
        lex_from(cs, i + 1)
    } else {
        match token_at(cs, i) {
            Ok((t, e)) => match lex_from(cs, e) {
                Ok(ts) => Ok(seq![t] + ts),
                Err(k) => Err(k),
            },
            Err(k) => Err(k),
        }
    }
}

/// The tokens of a whole text.
pub open spec fn lex(cs: Seq<char>) -> Result<Seq<TokenView>, LexError> {
    lex_from(cs, 0)
}

/// `r` with the tokens `done` in front of it.
pub open spec fn prepend(done: Seq<TokenView>, r: Result<Seq<TokenView>, LexError>) -> Result<
    Seq<TokenView>,
    LexError,
> {
    match r {
        Ok(ts) => Ok(done + ts),
        Err(k) => Err(k),
    }
}

pub proof fn lemma_digits_value_prefix(ds: Seq<char>, radix: u32, k: int)
    requires
        0 <= k <= ds.len(),
        radix >= 1,
    ensures
        digits_value(ds.subrange(0, k), radix) <= digits_value(ds, radix),
    decreases ds.len() - k,
{
    if k < ds.len() {
        let p = ds.subrange(0, k + 1);
        assert(p.drop_last() =~= ds.subrange(0, k));
        let v = digits_value(ds.subrange(0, k), radix);
        assert(v * radix as nat >= v) by (nonlinear_arith)
            requires
                radix >= 1,
        ;
        lemma_digits_value_prefix(ds, radix, k + 1);
    } else {
        assert(ds.subrange(0, k) =~= ds);
    }
}

fn is_whitespace_char(c: char) -> (r: bool)
    ensures
        r == is_whitespace(c),
{
    let u = c as u32;
    (0x9 <= u && u <= 0xd) || u == 0x20 || u == 0x85 || u == 0xa0 || u == 0x1680 || (0x2000 <= u
        && u <= 0x200a) || u == 0x2028 || u == 0x2029 || u == 0x202f || u == 0x205f || u == 0x3000
}

fn separator_from(c: char) -> (r: Option<AliceSeparator>)
    ensures
        r == separator_of(c),
{
    match c {
        '(' => Some(AliceSeparator::OpenP),
        ')' => Some(AliceSeparator::CloseP),
        '{' => Some(AliceSeparator::OpenB),
        '}' => Some(AliceSeparator::CloseB),
        '[' => Some(AliceSeparator::OpenS),
        ']' => Some(AliceSeparator::CloseS),
        ',' => Some(AliceSeparator::Comma),
        '.' => Some(AliceSeparator::Period),
        ':' => Some(AliceSeparator::Colon),
        ';' => Some(AliceSeparator::Semi),
        '@' => Some(AliceSeparator::At),
        _ => None,
    }
}

fn operator_from(c: char) -> (r: Option<AliceOp>)
    ensures
        r == operator_of(c),
{
    match c {
        '+' => Some(AliceOp::Add),
        '-' => Some(AliceOp::Sub),
        '*' => Some(AliceOp::Mul),
        '/' => Some(AliceOp::Div),
        '%' => Some(AliceOp::Mod),
        '=' => Some(AliceOp::Eqs),
        '>' => Some(AliceOp::Gt),
        '<' => Some(AliceOp::Lt),
        _ => None,
    }
}

/// Whether `c` ends an identifier or a number: a separator, an operator or a quote.
pub fn is_token_separator(c: &char) -> (r: bool)
    ensures
        r == is_token_separator_spec(*c),
{
    separator_from(*c).is_some() || operator_from(*c).is_some() || *c == '\'' || *c == '"'
}

fn ends_token_char(c: char) -> (r: bool)
    ensures
        r == ends_token(c),
{
    is_token_separator(&c) || is_whitespace_char(c)
}

/// The character that the escape `\c` stands for.
pub fn unescape_char(c: char) -> (r: Option<char>)
    ensures
        r == unescape(c),
{
    match c {
        '\\' | '"' | '\'' => Some(c),
        'n' => Some('\n'),
        'r' => Some('\r'),
        't' => Some('\t'),
        _ => None,
    }
}

/// The value of digit `c` in base `radix`.
pub fn digit_of(c: char, radix: u32) -> (r: Option<u32>)
    ensures
        r matches Some(d) ==> digit_value(c, radix) == Some(d as nat),
        r is None ==> digit_value(c, radix) is None,
        r matches Some(d) ==> d < 16,
{
    let u = c as u32;
    if '0' as u32 <= u && u <= '9' as u32 && (u - '0' as u32) < radix {
        Some(u - '0' as u32)
    } else if radix == 16 && 'a' as u32 <= u && u <= 'f' as u32 {
        Some(u - 'a' as u32 + 10)
    } else if radix == 16 && 'A' as u32 <= u && u <= 'F' as u32 {
        Some(u - 'A' as u32 + 10)
    } else {
        None
    }
}

/// The value of the digits `ds` in base `radix`, when it fits in an `i64`.
pub fn parse_number(ds: &Vec<char>, radix: u32) -> (r: Option<i64>)
    requires
        2 <= radix <= 16,
    ensures
        r matches Some(v) ==> v as int == digits_value(ds@, radix),
        r is None <==> digits_value(ds@, radix) > i64::MAX,
{
    let mut acc: i64 = 0;
    let mut k: usize = 0;
    assert(ds@.subrange(0, 0) =~= seq![]);
    while k < ds.len()
        invariant
            2 <= radix <= 16,
            k <= ds@.len(),
            acc as int == digits_value(ds@.subrange(0, k as int), radix),
            acc >= 0,
        decreases ds@.len() - k,
    {
        let d: u32 = match digit_of(ds[k], radix) {
            Some(d) => d,
            None => 0,
        };
        let ghost p = ds@.subrange(0, k + 1);
        assert(p.drop_last() =~= ds@.subrange(0, k as int));
        assert((acc as int) * (radix as int) <= i64::MAX as int * 16) by (nonlinear_arith)
            requires
                0 <= acc <= i64::MAX,
                radix <= 16,
        ;
        assert((acc as int) * (radix as int) >= 0) by (nonlinear_arith)
            requires
                0 <= acc,
                radix >= 2,
        ;
        let wide: i128 = (acc as i128) * (radix as i128) + (d as i128);
        assert(wide == digits_value(p, radix));
        if wide > i64::MAX as i128 {
            proof {
                lemma_digits_value_prefix(ds@, radix, k + 1);
            }
            return None;
        }
        acc = wide as i64;
        k = k + 1;
    }
    assert(ds@.subrange(0, k as int) =~= ds@);
    Some(acc)
}

/// A number format error with the given message, at `loc`.
pub fn to_number_format_error(msg: String, loc: Loc) -> (r: AliceLexerErr)
    ensures
        r matches AliceLexerErr::NumberFormatErr(m, l) && m == msg && l == loc,
{
    AliceLexerErr::NumberFormatErr(msg, loc)
}

fn bump(x: usize, k: usize) -> (r: usize) {
    if x <= usize::MAX - k {
        x + k
    } else {
        usize::MAX
    }
}

/// The digits of a base-2 or base-16 literal from `start`, and where they end.
fn scan_radix_digits(cs: &Vec<char>, start: usize, radix: u32) -> (r: Result<
    (Vec<char>, usize),
    LexError,
>)
    requires
        start <= cs@.len(),
        radix == 2 || radix == 16,
    ensures
        match (r, scan_radix(cs@, start as int, radix, seq![])) {
            (Ok((ds, e)), Ok((dv, ev))) => ds@ == dv && e as int == ev,
            (Err(k), Err(kv)) => k == kv,
            _ => false,
        },
{
    let n = cs.len();
    let mut acc: Vec<char> = Vec::new();
    let mut j: usize = start;
    while j < n && !(cs[j] != '.' && ends_token_char(cs[j]))
        invariant
            n == cs@.len(),
            start <= j <= n,
            scan_radix(cs@, j as int, radix, acc@) == scan_radix(cs@, start as int, radix, seq![]),
        decreases n - j,
    {
        let c = cs[j];
        if digit_of(c, radix).is_some() {
            acc.push(c);
        } else if c != '_' {
            return Err(LexError::NumberFormat);
        }
        j = j + 1;
    }
    Ok((acc, j))
}

/// The text of a decimal literal from `start`, whether it has a period, and where it ends.
fn scan_decimal_digits(cs: &Vec<char>, start: usize) -> (r: Result<
    (Vec<char>, bool, usize),
    LexError,
>)
    requires
        start <= cs@.len(),
    ensures
        match (r, scan_decimal(cs@, start as int, seq![], false)) {
            (Ok((ds, p, e)), Ok((dv, pv, ev))) => ds@ == dv && p == pv && e as int == ev,
            (Err(k), Err(kv)) => k == kv,
            _ => false,
        },
{
    let n = cs.len();
    let mut acc: Vec<char> = Vec::new();
    let mut had_period = false;
    let mut j: usize = start;
    while j < n
        invariant
            n == cs@.len(),
            start <= j <= n,
            scan_decimal(cs@, j as int, acc@, had_period) == scan_decimal(
                cs@,
                start as int,
                seq![],
                false,
            ),
        decreases n - j,
    {
        let c = cs[j];
        if digit_of(c, 10).is_some() {
            acc.push(c);
        } else if c == '_' {
        } else if c == '.' {
            if had_period {
                return Err(LexError::NumberFormat);
            }
            acc.push('.');
            had_period = true;
        } else if ends_token_char(c) {
            return Ok((acc, had_period, j));
        } else {
            return Err(LexError::NumberFormat);
        }
        j = j + 1;
    }
    Ok((acc, had_period, j))
}

impl AliceLexer {
    pub fn new(src: String, file: String) -> (r: Self)
        ensures
            r.src() == src@,
    {
        AliceLexer { src, loc: Loc::new(file, 1, 1) }
    }

    pub closed spec fn src(&self) -> Seq<char> {
        self.src@
    }

    /// Tokenizes the whole source.
    pub fn tokenize(&mut self) -> (r: Result<Vec<AliceToken>, AliceLexerErr>)
        ensures
            final(self).src() == old(self).src(),
            match (r, lex(old(self).src())) {
                (Ok(ts), Ok(tv)) => tokens_view(ts@) == tv,
                (Err(e), Err(k)) => lex_error_of(e) == Some(k),
                _ => false,
            },
    {
        let cs = chars_of(self.src.as_str());
        let mut tokens: Vec<AliceToken> = Vec::new();
        let mut i: usize = 0;
        assert(tokens_view(tokens@) =~= seq![]);
        assert(prepend(seq![], lex_from(cs@, 0)) == lex_from(cs@, 0));
        while i < cs.len()
            invariant
                cs@ == self.src(),
                self.src() == old(self).src(),
                i <= cs@.len(),
                lex(cs@) == prepend(tokens_view(tokens@), lex_from(cs@, i as int)),
            decreases cs@.len() - i,
        {
            let c = cs[i];
            if is_whitespace_char(c) {
                if c == '\n' {
                    self.loc.line = bump(self.loc.line, 1);
                    self.loc.column = 1;
                } else {
                    self.loc.column = bump(self.loc.column, 1);
                }
                i = i + 1;
            } else {
                proof {
                    lemma_token_end(cs@, i as int);
                }
                match self.gobble_token(&cs, i) {
                    Ok((token, e)) => {
                        let ghost before = tokens_view(tokens@);
                        let ghost t = token_view(token);
                        tokens.push(token);
                        assert(tokens_view(tokens@) =~= before.push(t));
                        proof {
                            match lex_from(cs@, e as int) {
                                Ok(ts) => {
                                    assert(before.push(t) + ts =~= before + (seq![t] + ts));
                                },
                                Err(_) => {},
                            }
                        }
                        self.loc.column = bump(self.loc.column, e - i);
                        i = e;
                    },
                    Err(k) => {
                        let loc = self.loc.duplicate();
                        let e = match k {
                            LexError::MissingDelimiter => AliceLexerErr::MissingDelimeter(
                                "missing string delimiter".to_string(),
                                loc,
                            ),
                            LexError::IllegalEscape => AliceLexerErr::IllegalEscapeSequence(
                                "unknown escape sequence".to_string(),
                                loc,
                            ),
                            LexError::NumberFormat => to_number_format_error(
                                "malformed number literal".to_string(),
                                loc,
                            ),
                        };
                        return Err(e);
                    },
                }
            }
        }
        proof {
            assert(tokens_view(tokens@) + seq![] =~= tokens_view(tokens@));
        }
        Ok(tokens)
    }

    /// The token that starts at `i`, which is no whitespace, and the position after it.
    fn gobble_token(&self, cs: &Vec<char>, i: usize) -> (r: Result<(AliceToken, usize), LexError>)
        requires
            i < cs@.len(),
            !is_whitespace(cs@[i as int]),
        ensures
            match (r, token_at(cs@, i as int)) {
                (Ok((t, e)), Ok((tv, ev))) => token_view(t) == tv && e as int == ev,
                (Err(k), Err(kv)) => k == kv,
                _ => false,
            },
    {
        let n = cs.len();
        let c = cs[i];
        if c == '"' || c == '\'' {
            self.gobble_string(cs, i, c)
        } else if digit_of(c, 10).is_some() {
            self.gobble_number(cs, i)
        } else if operator_from(c).is_some() {
            Ok(self.gobble_operator(cs, i))
        } else if let Some(sep) = separator_from(c) {
            Ok((AliceToken::Sep(sep), i + 1))
        } else {
            Ok(self.gobble_ident_or_keyw(cs, i))
        }
    }

    /// A string literal opened by `quote` at `start`.
    fn gobble_string(&self, cs: &Vec<char>, start: usize, quote: char) -> (r: Result<
        (AliceToken, usize),
        LexError,
    >)
        requires
            start < cs@.len(),
        ensures
            match (r, scan_string(cs@, start + 1, quote, seq![])) {
                (Ok((t, e)), Ok((sv, ev))) => token_view(t) == TokenView::Str(sv) && e as int
                    == ev,
                (Err(k), Err(kv)) => k == kv,
                _ => false,
            },
    {
        let n = cs.len();
        let mut acc: Vec<char> = Vec::new();
        let mut j: usize = start + 1;
        while j < n
            invariant
                n == cs@.len(),
                start < j <= cs@.len(),
                scan_string(cs@, j as int, quote, acc@) == scan_string(
                    cs@,
                    start + 1,
                    quote,
                    seq![],
                ),
            decreases cs@.len() - j,
        {
            let c = cs[j];
            if c == '\\' {
                if j + 1 >= cs.len() {
                    return Err(LexError::MissingDelimiter);
                }
                match unescape_char(cs[j + 1]) {
                    Some(e) => {
                        acc.push(e);
                        j = j + 2;
                    },
                    None => {
                        return Err(LexError::IllegalEscape);
                    },
                }
            } else if c == quote {
                return Ok((AliceToken::String(string_of(&acc)), j + 1));
            } else {
                acc.push(c);
                j = j + 1;
            }
        }
        Err(LexError::MissingDelimiter)
    }

    /// A number literal starting at `start`.
    fn gobble_number(&self, cs: &Vec<char>, start: usize) -> (r: Result<
        (AliceToken, usize),
        LexError,
    >)
        requires
            start < cs@.len(),
        ensures
            match (r, number_at(cs@, start as int)) {
                (Ok((t, e)), Ok((tv, ev))) => token_view(t) == tv && e as int == ev,
                (Err(k), Err(kv)) => k == kv,
                _ => false,
            },
    {
        let n = cs.len();
        if cs[start] == '0' && start + 1 < n && (cs[start + 1] == 'x' || cs[start + 1] == 'b') {
            let radix: u32 = if cs[start + 1] == 'x' {
                16
            } else {
                2
            };
            let (digits, end) = scan_radix_digits(cs, start + 2, radix)?;
            match parse_number(&digits, radix) {
                Some(v) => Ok((AliceToken::Number(NumberLit::Int(v)), end)),
                None => Err(LexError::NumberFormat),
            }
        } else if cs[start] == '0' && start + 1 < n && digit_of(cs[start + 1], 10).is_some() {
            Err(LexError::NumberFormat)
        } else {
            let (text, had_period, end) = scan_decimal_digits(cs, start)?;
            if had_period {
                Ok((AliceToken::Number(NumberLit::Decimal(string_of(&text))), end))
            } else {
                match parse_number(&text, 10) {
                    Some(v) => Ok((AliceToken::Number(NumberLit::Int(v)), end)),
                    None => Ok((AliceToken::Number(NumberLit::Wide(string_of(&text))), end)),
                }
            }
        }
    }

    /// An operator at `start`; `**` is one token.
    fn gobble_operator(&self, cs: &Vec<char>, start: usize) -> (r: (AliceToken, usize))
        requires
            start < cs@.len(),
            operator_of(cs@[start as int]) is Some,
        ensures
            token_at(cs@, start as int) == Ok::<(TokenView, int), LexError>(
                (token_view(r.0), r.1 as int),
            ),
    {
        let n = cs.len();
        let c = cs[start];
        if c == '*' && start + 1 < n && cs[start + 1] == '*' {
            return (AliceToken::Op(AliceOp::Pow), start + 2);
        }
        match operator_from(c) {
            Some(op) => (AliceToken::Op(op), start + 1),
            None => (AliceToken::Op(AliceOp::Add), start + 1),
        }
    }

    /// An identifier or keyword starting at `start`, up to the next character that ends a token.
    fn gobble_ident_or_keyw(&self, cs: &Vec<char>, start: usize) -> (r: (AliceToken, usize))
        requires
            start < cs@.len(),
        ensures
            ({
                let (s, e) = scan_ident(cs@, start + 1, seq![cs@[start as int]]);
                token_view(r.0) == TokenView::Ident(s) && r.1 as int == e
            }),
    {
        let n = cs.len();
        let mut acc: Vec<char> = Vec::new();
        acc.push(cs[start]);
        assert(acc@ =~= seq![cs@[start as int]]);
        let mut j: usize = start + 1;
        while j < cs.len() && !ends_token_char(cs[j])
            invariant
                start < j <= cs@.len(),
                scan_ident(cs@, j as int, acc@) == scan_ident(
                    cs@,
                    start + 1,
                    seq![cs@[start as int]],
                ),
            decreases cs@.len() - j,
        {
            acc.push(cs[j]);
            j = j + 1;
        }
        (AliceToken::IdentOrKeyw(string_of(&acc)), j)
    }
}

/// The escapes `\n`, `\r`, `\t`, `\\`, `\"`, `\'` stand for their character; any other
/// escape in a string literal is rejected.
pub proof fn escape_law(quote: char, c: char, rest: Seq<char>)
    requires
        quote == '"' || quote == '\'',
    ensures
        unescape(c) is None ==> lex(seq![quote, '\\', c] + rest) == Err::<Seq<TokenView>, LexError>(
            LexError::IllegalEscape,
        ),
        unescape(c) is Some ==> lex(seq![quote, '\\', c, quote]) == Ok::<Seq<TokenView>, LexError>(
            seq![TokenView::Str(seq![unescape(c)->0])],
        ),
{
    let cs = seq![quote, '\\', c] + rest;
    assert(cs[0] == quote && cs[1] == '\\' && cs[2] == c);
    if unescape(c) is Some {
        let e = unescape(c)->0;
        let ds = seq![quote, '\\', c, quote];
        assert(scan_string(ds, 3, quote, seq![].push(e)) == Ok::<(Seq<char>, int), LexError>(
            (seq![].push(e), 4),
        ));
        assert(lex_from(ds, 4) == Ok::<Seq<TokenView>, LexError>(seq![]));
        assert(seq![TokenView::Str(seq![].push(e))] + seq![] =~= seq![TokenView::Str(seq![e])]);
    }
}

/// The digits after `0x` (base 16) or `0b` (base 2) at `j` onwards, through `k`, are
/// digits of the base or underscores, and the character at `k` is neither: the
/// literal is rejected.
proof fn lemma_radix_rejects(cs: Seq<char>, j: int, k: int, radix: u32, acc: Seq<char>)
    requires
        0 <= j <= k < cs.len(),
        forall|i: int| j <= i < k ==> digit_value(#[trigger] cs[i], radix) is Some || cs[i] == '_',
        digit_value(cs[k], radix) is None,
        cs[k] != '_',
        cs[k] == '.' || !ends_token(cs[k]),
        radix == 2 || radix == 16,
    ensures
        scan_radix(cs, j, radix, acc) == Err::<(Seq<char>, int), LexError>(LexError::NumberFormat),
    decreases k - j,
{
    if j < k {
        let ch = cs[j];
        assert(digit_value(ch, radix) is Some || ch == '_');
        assert(!ends_token(ch));
        if digit_value(ch, radix) is Some {
            lemma_radix_rejects(cs, j + 1, k, radix, acc.push(ch));
        } else {
            lemma_radix_rejects(cs, j + 1, k, radix, acc);
        }
    }
}

/// After `0x` only hexadecimal digits (and underscores) may follow, after `0b` only
/// binary ones: any other character before the literal ends makes it an error.
pub proof fn radix_digits_law(x: char, ds: Seq<char>, c: char, rest: Seq<char>)
    requires
        x == 'x' || x == 'b',
        forall|i: int|
            0 <= i < ds.len() ==> digit_value(#[trigger] ds[i], if x == 'x' {
                16
            } else {
                2
            }) is Some || ds[i] == '_',
        digit_value(
            c,
            if x == 'x' {
                16
            } else {
                2
            },
        ) is None,
        c != '_',
        c == '.' || !ends_token(c),
    ensures
        lex(seq!['0', x] + ds + seq![c] + rest) == Err::<Seq<TokenView>, LexError>(
            LexError::NumberFormat,
        ),
{
    let radix: u32 = if x == 'x' {
        16
    } else {
        2
    };
    let cs = seq!['0', x] + ds + seq![c] + rest;
    let k = ds.len() + 2int;
    assert(cs[0] == '0' && cs[1] == x && cs[k] == c);
    assert forall|i: int| 2 <= i < k implies digit_value(#[trigger] cs[i], radix) is Some
        || cs[i] == '_' by {
        assert(cs[i] == ds[i - 2]);
    }
    lemma_radix_rejects(cs, 2, k, radix, seq![]);
}

proof fn lemma_decimal_double_period(cs: Seq<char>, j: int, k: int, acc: Seq<char>)
    requires
        0 <= j <= k,
        k + 1 < cs.len(),
        forall|i: int| j <= i < k ==> digit_value(#[trigger] cs[i], 10) is Some,
        cs[k] == '.',
        cs[k + 1] == '.',
    ensures
        scan_decimal(cs, j, acc, false) == Err::<(Seq<char>, bool, int), LexError>(
            LexError::NumberFormat,
        ),
    decreases k - j,
{
    if j < k {
        assert(digit_value(cs[j], 10) is Some);
        lemma_decimal_double_period(cs, j + 1, k, acc.push(cs[j]));
    } else {
        assert(scan_decimal(cs, k + 1, acc.push('.'), true) == Err::<
            (Seq<char>, bool, int),
            LexError,
        >(LexError::NumberFormat));
    }
}

/// A number literal with two periods in a row is rejected.
pub proof fn double_period_law(ds: Seq<char>, rest: Seq<char>)
    requires
        ds.len() > 0,
        forall|i: int| 0 <= i < ds.len() ==> digit_value(#[trigger] ds[i], 10) is Some,
    ensures
        lex(ds + seq!['.', '.'] + rest) == Err::<Seq<TokenView>, LexError>(LexError::NumberFormat),
{
    let cs = ds + seq!['.', '.'] + rest;
    let k = ds.len() as int;
    assert(cs[k] == '.' && cs[k + 1] == '.');
    assert(cs[0] == ds[0]);
    assert(digit_value(cs[0], 10) is Some);
    assert forall|i: int| 0 <= i < k implies digit_value(#[trigger] cs[i], 10) is Some by {
        assert(cs[i] == ds[i]);
    }
    lemma_decimal_double_period(cs, 0, k, seq![]);
    if ds.len() >= 2 {
        assert(cs[1] == ds[1]);
    }
}

proof fn lemma_decimal_trailing_underscore(ds: Seq<char>, j: int, acc: Seq<char>)
    requires
        0 <= j <= ds.len(),
        forall|i: int| 0 <= i < ds.len() ==> digit_value(#[trigger] ds[i], 10) is Some,
    ensures
        scan_decimal(ds.push('_'), j, acc, false) == Ok::<(Seq<char>, bool, int), LexError>(
            (acc + ds.subrange(j, ds.len() as int), false, ds.len() + 1int),
        ),
        scan_decimal(ds, j, acc, false) == Ok::<(Seq<char>, bool, int), LexError>(
            (acc + ds.subrange(j, ds.len() as int), false, ds.len() as int),
        ),
    decreases ds.len() - j,
{
    let cs = ds.push('_');
    if j < ds.len() {
        assert(cs[j] == ds[j]);
        assert(digit_value(ds[j], 10) is Some);
        lemma_decimal_trailing_underscore(ds, j + 1, acc.push(ds[j]));
        assert(acc.push(ds[j]) + ds.subrange(j + 1, ds.len() as int) =~= acc + ds.subrange(
            j,
            ds.len() as int,
        ));
    } else {
        assert(cs[j] == '_');
        assert(scan_decimal(cs, j + 1, acc, false) == Ok::<(Seq<char>, bool, int), LexError>(
            (acc, false, j + 1),
        ));
        assert(acc + ds.subrange(j, ds.len() as int) =~= acc);
    }
}

/// A trailing underscore in a decimal literal is discarded.
pub proof fn trailing_underscore_law(ds: Seq<char>)
    requires
        ds.len() > 0,
        forall|i: int| 0 <= i < ds.len() ==> digit_value(#[trigger] ds[i], 10) is Some,
        ds[0] != '0' || ds.len() == 1,
    ensures
        lex(ds.push('_')) == lex(ds),
{
    let cs = ds.push('_');
    lemma_decimal_trailing_underscore(ds, 0, seq![]);
    assert(cs[0] == ds[0]);
    assert(digit_value(ds[0], 10) is Some);
    if ds.len() >= 2 {
        assert(cs[1] == ds[1]);
    } else {
        assert(cs[1] == '_');
    }
    assert(lex_from(cs, ds.len() + 1int) == Ok::<Seq<TokenView>, LexError>(seq![]));
    assert(lex_from(ds, ds.len() as int) == Ok::<Seq<TokenView>, LexError>(seq![]));
}

} // verus!

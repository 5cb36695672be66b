//! The lexer: STAS source text to tokens, each with the line it starts on.

use vstd::prelude::*;
use crate::interp::{ask, lemma_unit_function, unit_computes, unit_deterministic, unit_function, FloatOp, FloatOut};
use crate::number::{digits_value, is_digit};
use crate::semantics::{FloatFn, FloatOpV};
use crate::text::{chars_of, decimal, push_char, push_decimal, push_signed_decimal, push_str, signed_decimal, to_owned_string};

verus! {

#[derive(Debug, Clone)]
pub enum Tok {
    Ident(String),
    Int(i64),
    /// A number literal with a decimal point, as written (digits, `.`, digits),
    /// and the 64-bit float it reads as, in the `{:?}` format.
    Float(String, String),
    Str(String),
    Dollar,
    LParen,
    RParen,
    LBrace,
    RBrace,
    Comma,
    Assign,
    Plus,
    Minus,
    Star,
    Slash,
    Percent,
    Eq,
    Ne,
    Lt,
    Le,
    Gt,
    Ge,
    AndAnd,
    OrOr,
    Bang,
    Newline,
    Eof,
}

#[derive(Debug, Clone)]
pub struct Token {
    pub tok: Tok,
    pub line: usize,
}

/// Abstract token: strings by their characters.
pub enum TokV {
    Ident(Seq<char>),
    Int(i64),
    Float(Seq<char>, Seq<char>),
    Str(Seq<char>),
    Dollar,
    LParen,
    RParen,
    LBrace,
    RBrace,
    Comma,
    Assign,
    Plus,
    Minus,
    Star,
    Slash,
    Percent,
    Eq,
    Ne,
    Lt,
    Le,
    Gt,
    Ge,
    AndAnd,
    OrOr,
    Bang,
    Newline,
    Eof,
}

pub struct TokenV {
    pub tok: TokV,
    pub line: nat,
}

impl View for Tok {
    type V = TokV;

    open spec fn view(&self) -> TokV {
        match self {
            Tok::Ident(s) => TokV::Ident(s@),
            Tok::Int(v) => TokV::Int(*v),
            Tok::Float(s, d) => TokV::Float(s@, d@),
            Tok::Str(s) => TokV::Str(s@),
            Tok::Dollar => TokV::Dollar,
            Tok::LParen => TokV::LParen,
            Tok::RParen => TokV::RParen,
            Tok::LBrace => TokV::LBrace,
            Tok::RBrace => TokV::RBrace,
            Tok::Comma => TokV::Comma,
            Tok::Assign => TokV::Assign,
            Tok::Plus => TokV::Plus,
            Tok::Minus => TokV::Minus,
            Tok::Star => TokV::Star,
            Tok::Slash => TokV::Slash,
            Tok::Percent => TokV::Percent,
            Tok::Eq => TokV::Eq,
            Tok::Ne => TokV::Ne,
            Tok::Lt => TokV::Lt,
            Tok::Le => TokV::Le,
            Tok::Gt => TokV::Gt,
            Tok::Ge => TokV::Ge,
            Tok::AndAnd => TokV::AndAnd,
            Tok::OrOr => TokV::OrOr,
            Tok::Bang => TokV::Bang,
            Tok::Newline => TokV::Newline,
            Tok::Eof => TokV::Eof,
        }
    }
}

impl View for Token {
    type V = TokenV;

    open spec fn view(&self) -> TokenV {
        TokenV { tok: self.tok@, line: self.line as nat }
    }
}

pub open spec fn tokens_view(ts: Seq<Token>) -> Seq<TokenV> {
    ts.map_values(|t: Token| t@)
}

/// Whether the character is alphabetic in the Unicode sense (`char::is_alphabetic`).
pub uninterp spec fn unicode_alphabetic(c: char) -> bool;

/// Whether the character is alphanumeric in the Unicode sense (`char::is_alphanumeric`).
pub uninterp spec fn unicode_alphanumeric(c: char) -> bool;

/// An ASCII letter.
pub open spec fn is_ascii_letter(c: char) -> bool {
    ('a' <= c && c <= 'z') || ('A' <= c && c <= 'Z')
}

/// Calls `char::is_alphabetic` (the Unicode `Alphabetic` property); its result
/// is named `unicode_alphabetic`. Among ASCII characters, the letters are
/// exactly those with that property.
#[verifier::external_body]
fn is_alphabetic(c: char) -> (r: bool)
    ensures
        r == unicode_alphabetic(c),
        (c as u32) < 128 ==> (r == is_ascii_letter(c)),
{
    c.is_alphabetic()
}

/// Calls `char::is_alphanumeric` (`Alphabetic` or `Numeric`); its result is
/// named `unicode_alphanumeric`. Among ASCII characters, the letters and the
/// digits are exactly those with one of those properties.
#[verifier::external_body]
fn is_alphanumeric(c: char) -> (r: bool)
    ensures
        r == unicode_alphanumeric(c),
        (c as u32) < 128 ==> (r == (is_ascii_letter(c) || is_digit(c))),
{
    c.is_alphanumeric()
}

/// A character an identifier starts with: a letter or `_`.
pub open spec fn is_ident_start(c: char) -> bool {
    if (c as u32) < 128 {
        is_ascii_letter(c) || c == '_'
    } else {
        unicode_alphabetic(c)
    }
}

/// A character an identifier continues with: a letter, a digit or `_`.
pub open spec fn is_ident_char(c: char) -> bool {
    if (c as u32) < 128 {
        is_ascii_letter(c) || is_digit(c) || c == '_'
    } else {
        unicode_alphanumeric(c)
    }
}

/// The source without its leading byte order marks.
pub open spec fn strip_bom(s: Seq<char>) -> Seq<char>
    decreases s.len(),
{
    if s.len() > 0 && s[0] == '\u{feff}' {
        strip_bom(s.drop_first())
    } else {
        s
    }
}

/// End of a comment starting at `j`: the next newline, or the end.
pub open spec fn comment_end(cs: Seq<char>, j: int) -> int
    decreases cs.len() - j,
{
    if j < cs.len() && cs[j] != '\n' {
        comment_end(cs, j + 1)
    } else {
        j
    }
}

/// End of an identifier whose characters continue at `j`.
pub open spec fn ident_end(cs: Seq<char>, j: int) -> int
    decreases cs.len() - j,
{
    if j < cs.len() && is_ident_char(cs[j]) {
        ident_end(cs, j + 1)
    } else {
        j
    }
}

/// Whether the number scan continues at `j`: a digit, or a point followed by a digit.
pub open spec fn number_continues(cs: Seq<char>, j: int) -> bool {
    0 <= j < cs.len() && (is_digit(cs[j]) || (cs[j] == '.' && j + 1 < cs.len() && is_digit(cs[j + 1])))
}

/// End of a number literal continuing at `j`; a second decimal point ends it.
pub open spec fn number_end(cs: Seq<char>, j: int, seen_point: bool) -> int
    decreases cs.len() - j,
{
    if number_continues(cs, j) {
        if cs[j] == '.' {
            if seen_point {
                j
            } else {
                number_end(cs, j + 1, true)
            }
        } else {
            number_end(cs, j + 1, seen_point)
        }
    } else {
        j
    }
}

/// The character an escape sequence `\e` stands for.
pub open spec fn unescape(e: char) -> char {
    if e == 'n' {
        '\n'
    } else if e == 't' {
        '\t'
    } else {
        e
    }
}

pub enum StringScan {
    Done(Seq<char>, int),
    Unterminated,
    UnterminatedEscape,
}

/// Scans the body of a string literal from `j` (after the opening quote),
/// with `acc` the characters read so far.
pub open spec fn scan_string(cs: Seq<char>, j: int, acc: Seq<char>) -> StringScan
    decreases cs.len() - j,
{
    if j < 0 || j >= cs.len() {
        StringScan::Unterminated
    } else if cs[j] == '"' {
        StringScan::Done(acc, j + 1)
    } else if cs[j] == '\\' {
        if j + 1 >= cs.len() {
            StringScan::UnterminatedEscape
        } else {
            scan_string(cs, j + 2, acc.push(unescape(cs[j + 1])))
        }
    } else if cs[j] == '\n' {
        StringScan::Unterminated
    } else {
        scan_string(cs, j + 1, acc.push(cs[j]))
    }
}

/// The two-character operator at `i`, if any.
pub open spec fn two_char_tok(cs: Seq<char>, i: int) -> Option<TokV> {
    if 0 <= i && i + 1 < cs.len() {
        let (a, b) = (cs[i], cs[i + 1]);
        if a == '=' && b == '=' {
            Some(TokV::Eq)
        } else if a == '!' && b == '=' {
            Some(TokV::Ne)
        } else if a == '<' && b == '=' {
            Some(TokV::Le)
        } else if a == '>' && b == '=' {
            Some(TokV::Ge)
        } else if a == '&' && b == '&' {
            Some(TokV::AndAnd)
        } else if a == '|' && b == '|' {
            Some(TokV::OrOr)
        } else {
            None
        }
    } else {
        None
    }
}

/// The one-character token for `c`, if any.
pub open spec fn one_char_tok(c: char) -> Option<TokV> {
    if c == '$' {
        Some(TokV::Dollar)
    } else if c == '(' {
        Some(TokV::LParen)
    } else if c == ')' {
        Some(TokV::RParen)
    } else if c == '{' {
        Some(TokV::LBrace)
    } else if c == '}' {
        Some(TokV::RBrace)
    } else if c == ',' {
        Some(TokV::Comma)
    } else if c == '=' {
        Some(TokV::Assign)
    } else if c == '+' {
        Some(TokV::Plus)
    } else if c == '-' {
        Some(TokV::Minus)
    } else if c == '*' {
        Some(TokV::Star)
    } else if c == '/' {
        Some(TokV::Slash)
    } else if c == '%' {
        Some(TokV::Percent)
    } else if c == '<' {
        Some(TokV::Lt)
    } else if c == '>' {
        Some(TokV::Gt)
    } else if c == '!' {
        Some(TokV::Bang)
    } else {
        None
    }
}

pub proof fn lemma_comment_end(cs: Seq<char>, j: int)
    requires
        0 <= j <= cs.len(),
    ensures
        j <= comment_end(cs, j) <= cs.len(),
    decreases cs.len() - j,
{
    if j < cs.len() && cs[j] != '\n' {
        lemma_comment_end(cs, j + 1);
    }
}

pub proof fn lemma_ident_end(cs: Seq<char>, j: int)
    requires
        0 <= j <= cs.len(),
    ensures
        j <= ident_end(cs, j) <= cs.len(),
    decreases cs.len() - j,
{
    if j < cs.len() && is_ident_char(cs[j]) {
        lemma_ident_end(cs, j + 1);
    }
}

pub proof fn lemma_number_end(cs: Seq<char>, j: int, seen_point: bool)
    requires
        0 <= j <= cs.len(),
    ensures
        j <= number_end(cs, j, seen_point) <= cs.len(),
    decreases cs.len() - j,
{
    if number_continues(cs, j) {
        if cs[j] == '.' {
            if !seen_point {
                lemma_number_end(cs, j + 1, true);
            }
        } else {
            lemma_number_end(cs, j + 1, seen_point);
        }
    }
}

pub proof fn lemma_scan_string(cs: Seq<char>, j: int, acc: Seq<char>)
    requires
        0 <= j,
    ensures
        scan_string(cs, j, acc) matches StringScan::Done(_, k) ==> j < k <= cs.len(),
    decreases cs.len() - j,
{
    if 0 <= j < cs.len() && cs[j] != '"' {
        if cs[j] == '\\' {
            if j + 1 < cs.len() {
                lemma_scan_string(cs, j + 2, acc.push(unescape(cs[j + 1])));
            }
        } else if cs[j] != '\n' {
            lemma_scan_string(cs, j + 1, acc.push(cs[j]));
        }
    }
}

/// `line N: ` — the prefix of messages about line `N`.
pub open spec fn at_line(line: nat) -> Seq<char> {
    "line "@ + decimal(line) + ": "@
}

pub open spec fn prepend(t: TokenV, rest: Result<Seq<TokenV>, Seq<char>>) -> Result<Seq<TokenV>, Seq<char>> {
    match rest {
        Ok(ts) => Ok(seq![t] + ts),
        Err(e) => Err(e),
    }
}

/// The `{:?}` text of the 64-bit float that the number literal `s` reads as.
pub open spec fn float_debug(fu: FloatFn, s: Seq<char>) -> Seq<char> {
    fu(FloatOpV::Debug(fu(FloatOpV::Parse(s)).bits)).text
}

/// The tokens of `cs` from position `i`, on line `line`; or the first error.
/// A float literal's `{:?}` text comes from the float unit `fu`.
pub open spec fn lex_from(cs: Seq<char>, i: int, line: nat, fu: FloatFn) -> Result<Seq<TokenV>, Seq<char>>
    decreases cs.len() - i,
{
    if i < 0 || i >= cs.len() {
        Ok(seq![TokenV { tok: TokV::Eof, line }])
    } else {
        let c = cs[i];
        if c == ';' || c == '#' {
            proof {
                lemma_comment_end(cs, i + 1);
            }
            lex_from(cs, comment_end(cs, i), line, fu)
        } else if c == '\r' || c == ' ' || c == '\t' {
            lex_from(cs, i + 1, line, fu)
        } else if c == '\n' {
            prepend(TokenV { tok: TokV::Newline, line }, lex_from(cs, i + 1, line + 1, fu))
        } else if is_digit(c) {
            let j = number_end(cs, i, false);
            proof {
                lemma_number_end(cs, i + 1, false);
            }
            {
                let text = cs.subrange(i, j);
                if text.contains('.') {
                    prepend(TokenV { tok: TokV::Float(text, float_debug(fu, text)), line }, lex_from(cs, j, line, fu))
                } else if digits_value(text) > i64::MAX {
                    Err(at_line(line) + "invalid number '"@ + text + "'"@)
                } else {
                    prepend(
                        TokenV { tok: TokV::Int(digits_value(text) as i64), line },
                        lex_from(cs, j, line, fu),
                    )
                }
            }
        } else if is_ident_start(c) {
            let j = ident_end(cs, i + 1);
            proof {
                lemma_ident_end(cs, i + 1);
            }
            {
                prepend(TokenV { tok: TokV::Ident(cs.subrange(i, j)), line }, lex_from(cs, j, line, fu))
            }
        } else if c == '"' {
            proof {
                lemma_scan_string(cs, i + 1, Seq::empty());
            }
            match scan_string(cs, i + 1, Seq::empty()) {
                StringScan::Done(s, j) => prepend(TokenV { tok: TokV::Str(s), line }, lex_from(cs, j, line, fu)),
                StringScan::Unterminated => Err(at_line(line) + "unterminated string literal"@),
                StringScan::UnterminatedEscape => Err(
                    at_line(line) + "unterminated escape sequence"@,
                ),
            }
        } else if two_char_tok(cs, i) is Some {
            prepend(TokenV { tok: two_char_tok(cs, i)->0, line }, lex_from(cs, i + 2, line, fu))
        } else if one_char_tok(c) is Some {
            prepend(TokenV { tok: one_char_tok(c)->0, line }, lex_from(cs, i + 1, line, fu))
        } else {
            Err(at_line(line) + "unexpected character '"@ + seq![c] + "'"@)
        }
    }
}

/// The tokens of a whole source text, ending with `Eof`; or the first error.
pub open spec fn spec_lex(src: Seq<char>, fu: FloatFn) -> Result<Seq<TokenV>, Seq<char>> {
    lex_from(strip_bom(src), 0, 1, fu)
}

pub open spec fn prepend_all(ts: Seq<TokenV>, rest: Result<Seq<TokenV>, Seq<char>>) -> Result<Seq<TokenV>, Seq<char>> {
    match rest {
        Ok(r) => Ok(ts + r),
        Err(e) => Err(e),
    }
}

proof fn lemma_prepend_all(ts: Seq<TokenV>, t: TokenV, rest: Result<Seq<TokenV>, Seq<char>>)
    ensures
        prepend_all(ts, prepend(t, rest)) == prepend_all(ts.push(t), rest),
{
    if let Ok(r) = rest {
        assert(ts + (seq![t] + r) =~= ts.push(t) + r);
    }
}

proof fn lemma_strip_bom(s: Seq<char>, b: int)
    requires
        0 <= b <= s.len(),
        forall|j: int| 0 <= j < b ==> #[trigger] s[j] == '\u{feff}',
        b == s.len() || s[b] != '\u{feff}',
    ensures
        strip_bom(s) == s.skip(b),
    decreases b,
{
    if b > 0 {
        assert(s[0] == '\u{feff}');
        lemma_strip_bom(s.drop_first(), b - 1);
        assert(s.drop_first().skip(b - 1) =~= s.skip(b));
    } else {
        assert(s.skip(0) =~= s);
    }
}

/// A new string holding `cs[lo..hi]`.
pub fn string_of_range(cs: &Vec<char>, lo: usize, hi: usize) -> (r: String)
    requires
        lo <= hi <= cs@.len(),
    ensures
        r@ == cs@.subrange(lo as int, hi as int),
{
    let mut out = String::new();
    let mut i = lo;
    while i < hi
        invariant
            lo <= i <= hi <= cs@.len(),
            out@ == cs@.subrange(lo as int, i as int),
        decreases hi - i,
    {
        push_char(&mut out, cs[i]);
        proof {
            assert(cs@.subrange(lo as int, i + 1) =~= cs@.subrange(lo as int, i as int).push(cs@[i as int]));
        }
        i = i + 1;
    }
    out
}

/// `line N: ` as a new string.
pub fn at_line_exec(line: usize) -> (r: String)
    ensures
        r@ == at_line(line as nat),
{
    let mut m = to_owned_string("line ");
    push_decimal(&mut m, line as u128);
    push_str(&mut m, ": ");
    m
}

fn scan_comment(cs: &Vec<char>, i: usize) -> (j: usize)
    requires
        i <= cs@.len(),
    ensures
        j == comment_end(cs@, i as int),
{
    let mut j = i;
    while j < cs.len() && cs[j] != '\n'
        invariant
            i <= j <= cs@.len(),
            comment_end(cs@, i as int) == comment_end(cs@, j as int),
        decreases cs@.len() - j,
    {
        j = j + 1;
    }
    j
}

fn scan_ident(cs: &Vec<char>, i: usize) -> (j: usize)
    requires
        i <= cs@.len(),
    ensures
        j == ident_end(cs@, i as int),
{
    let mut j = i;
    while j < cs.len() && (is_alphanumeric(cs[j]) || cs[j] == '_')
        invariant
            i <= j <= cs@.len(),
            ident_end(cs@, i as int) == ident_end(cs@, j as int),
        decreases cs@.len() - j,
    {
        j = j + 1;
    }
    j
}

/// End of the number literal starting at `i`, and whether it has a decimal point.
fn scan_number(cs: &Vec<char>, i: usize) -> (r: (usize, bool))
    requires
        i < cs@.len(),
        is_digit(cs@[i as int]),
    ensures
        r.0 == number_end(cs@, i as int, false),
        i < r.0 <= cs@.len(),
        r.1 == cs@.subrange(i as int, r.0 as int).contains('.'),
{
    let mut j = i;
    let mut seen = false;
    proof {
        lemma_number_end(cs@, i as int, false);
    }
    while j < cs.len() && (('0' <= cs[j] && cs[j] <= '9') || (cs[j] == '.' && !seen && j + 1 < cs.len() && '0' <= cs[j + 1] && cs[j + 1] <= '9'))
        invariant
            i <= j <= cs@.len(),
            number_end(cs@, i as int, false) == number_end(cs@, j as int, seen),
            seen == cs@.subrange(i as int, j as int).contains('.'),
            j == i ==> !seen,
        decreases cs@.len() - j,
    {
        if cs[j] == '.' {
            seen = true;
        }
        proof {
            let a = cs@.subrange(i as int, j as int);
            let b = cs@.subrange(i as int, j + 1);
            assert(b =~= a.push(cs@[j as int]));
            if cs@[j as int] == '.' {
                assert(b[b.len() - 1] == '.');
            } else if a.contains('.') {
                let k = choose|k: int| 0 <= k < a.len() && a[k] == '.';
                assert(b[k] == '.');
            } else {
                assert forall|k: int| 0 <= k < b.len() implies b[k] != '.' by {
                    if k < a.len() {
                        assert(b[k] == a[k]);
                    }
                }
            }
        }
        j = j + 1;
    }
    proof {
        lemma_number_end(cs@, j as int, seen);
    }
    (j, seen)
}

proof fn lemma_digits_value_prefix(x: Seq<char>, k: int)
    requires
        0 <= k <= x.len(),
        forall|q: int| 0 <= q < x.len() ==> is_digit(#[trigger] x[q]),
    ensures
        digits_value(x) >= digits_value(x.take(k)),
    decreases x.len() - k,
{
    if k < x.len() {
        lemma_digits_value_prefix(x, k + 1);
        let a = x.take(k);
        let b = x.take(k + 1);
        assert(b.drop_last() =~= a);
        assert(is_digit(b.last()));
    } else {
        assert(x.take(k) =~= x);
    }
}

/// The value of the digits `cs[lo..hi]`, or `None` when it exceeds `i64::MAX`.
fn parse_int(cs: &Vec<char>, lo: usize, hi: usize) -> (r: Option<i64>)
    requires
        lo <= hi <= cs@.len(),
        forall|q: int| lo <= q < hi ==> is_digit(#[trigger] cs@[q]),
    ensures
        r matches Some(v) ==> v == digits_value(cs@.subrange(lo as int, hi as int)),
        r is None <==> digits_value(cs@.subrange(lo as int, hi as int)) > i64::MAX,
{
    let ghost x = cs@.subrange(lo as int, hi as int);
    let mut v: i64 = 0;
    let mut i = lo;
    assert(x.take(0) =~= Seq::<char>::empty());
    while i < hi
        invariant
            lo <= i <= hi <= cs@.len(),
            x == cs@.subrange(lo as int, hi as int),
            forall|q: int| lo <= q < hi ==> is_digit(#[trigger] cs@[q]),
            v == digits_value(x.take(i - lo)),
        decreases hi - i,
    {
        let d: i64 = (cs[i] as u32 - 48) as i64;
        proof {
            assert(is_digit(cs@[i as int]));
            let a = x.take(i - lo);
            let b = x.take(i - lo + 1);
            assert(b.drop_last() =~= a);
            assert(b.last() == cs@[i as int]);
        }
        if v > (9223372036854775807 - d) / 10 {
            proof {
                assert forall|q: int| 0 <= q < x.len() implies is_digit(#[trigger] x[q]) by {
                    assert(x[q] == cs@[lo + q]);
                }
                lemma_digits_value_prefix(x, i - lo + 1);
            }
            return None;
        }
        v = v * 10 + d;
        i = i + 1;
    }
    assert(x.take(hi - lo) =~= x);
    Some(v)
}

pub enum StringScanExec {
    Done(String, usize),
    Unterminated,
    UnterminatedEscape,
}

fn unescape_exec(e: char) -> (r: char)
    ensures
        r == unescape(e),
{
    if e == 'n' {
        '\n'
    } else if e == 't' {
        '\t'
    } else {
        e
    }
}

fn scan_string_exec(cs: &Vec<char>, start: usize) -> (r: StringScanExec)
    requires
        start <= cs@.len(),
    ensures
        match (r, scan_string(cs@, start as int, Seq::empty())) {
            (StringScanExec::Done(s, j), StringScan::Done(t, k)) => s@ == t && j == k,
            (StringScanExec::Unterminated, StringScan::Unterminated) => true,
            (StringScanExec::UnterminatedEscape, StringScan::UnterminatedEscape) => true,
            _ => false,
        },
{
    let mut acc = String::new();
    let mut j = start;
    loop
        invariant
            start <= j <= cs@.len() + 1,
            scan_string(cs@, start as int, Seq::empty()) == scan_string(cs@, j as int, acc@),
        decreases cs@.len() + 1 - j,
    {
        if j >= cs.len() {
            return StringScanExec::Unterminated;
        }
        let c = cs[j];
        if c == '"' {
            return StringScanExec::Done(acc, j + 1);
        } else if c == '\\' {
            if j + 1 >= cs.len() {
                return StringScanExec::UnterminatedEscape;
            }
            push_char(&mut acc, unescape_exec(cs[j + 1]));
            j = j + 2;
        } else if c == '\n' {
            return StringScanExec::Unterminated;
        } else {
            push_char(&mut acc, c);
            j = j + 1;
        }
    }
}

fn two_char_exec(cs: &Vec<char>, i: usize) -> (r: Option<Tok>)
    ensures
        match r {
            Some(t) => two_char_tok(cs@, i as int) == Some(t@),
            None => two_char_tok(cs@, i as int) is None,
        },
{
    if i < cs.len() && i + 1 < cs.len() {
        let a = cs[i];
        let b = cs[i + 1];
        if a == '=' && b == '=' {
            Some(Tok::Eq)
        } else if a == '!' && b == '=' {
            Some(Tok::Ne)
        } else if a == '<' && b == '=' {
            Some(Tok::Le)
        } else if a == '>' && b == '=' {
            Some(Tok::Ge)
        } else if a == '&' && b == '&' {
            Some(Tok::AndAnd)
        } else if a == '|' && b == '|' {
            Some(Tok::OrOr)
        } else {
            None
        }
    } else {
        None
    }
}

fn one_char_exec(c: char) -> (r: Option<Tok>)
    ensures
        match r {
            Some(t) => one_char_tok(c) == Some(t@),
            None => one_char_tok(c) is None,
        },
{
    if c == '$' {
        Some(Tok::Dollar)
    } else if c == '(' {
        Some(Tok::LParen)
    } else if c == ')' {
        Some(Tok::RParen)
    } else if c == '{' {
        Some(Tok::LBrace)
    } else if c == '}' {
        Some(Tok::RBrace)
    } else if c == ',' {
        Some(Tok::Comma)
    } else if c == '=' {
        Some(Tok::Assign)
    } else if c == '+' {
        Some(Tok::Plus)
    } else if c == '-' {
        Some(Tok::Minus)
    } else if c == '*' {
        Some(Tok::Star)
    } else if c == '/' {
        Some(Tok::Slash)
    } else if c == '%' {
        Some(Tok::Percent)
    } else if c == '<' {
        Some(Tok::Lt)
    } else if c == '>' {
        Some(Tok::Gt)
    } else if c == '!' {
        Some(Tok::Bang)
    } else {
        None
    }
}

/// Splits STAS source text into tokens. The result ends with an `Eof` token;
/// an error names the line and the problem (an integer literal beyond `i64`,
/// an unterminated string or escape, or a character no token starts with).
pub fn lex<F: Fn(FloatOp) -> FloatOut>(src: &str, fl: &F) -> (r: Result<Vec<Token>, String>)
    requires
        src@.len() < usize::MAX,
        unit_deterministic(fl),
    ensures
        match r {
            Ok(ts) => spec_lex(src@, unit_function(fl)) == Ok::<Seq<TokenV>, Seq<char>>(tokens_view(ts@)),
            Err(e) => spec_lex(src@, unit_function(fl)) == Err::<Seq<TokenV>, Seq<char>>(e@),
        },
{
    proof {
        lemma_unit_function(fl);
    }
    let ghost fu = unit_function(fl);
    let all = chars_of(src);
    let mut b: usize = 0;
    while b < all.len() && all[b] == '\u{feff}'
        invariant
            b <= all@.len(),
            forall|j: int| 0 <= j < b ==> #[trigger] all@[j] == '\u{feff}',
        decreases all@.len() - b,
    {
        b = b + 1;
    }
    proof {
        lemma_strip_bom(all@, b as int);
    }
    let mut cs: Vec<char> = Vec::new();
    let mut k = b;
    while k < all.len()
        invariant
            b <= k <= all@.len(),
            cs@ == all@.subrange(b as int, k as int),
        decreases all@.len() - k,
    {
        cs.push(all[k]);
        proof {
            assert(all@.subrange(b as int, k + 1) =~= all@.subrange(b as int, k as int).push(all@[k as int]));
        }
        k = k + 1;
    }
    assert(cs@ =~= strip_bom(src@));
    let ghost whole = lex_from(cs@, 0, 1, fu);
    let mut out: Vec<Token> = Vec::new();
    let mut i: usize = 0;
    let mut line: usize = 1;
    assert(tokens_view(out@) =~= Seq::<TokenV>::empty());
    assert(prepend_all(Seq::empty(), whole) =~= whole) by {
        if let Ok(r) = whole {
            assert(Seq::<TokenV>::empty() + r =~= r);
        }
    };
    while i < cs.len()
        invariant
            i <= cs@.len(),
            1 <= line <= i + 1,
            cs@.len() < usize::MAX,
            whole == lex_from(cs@, 0, 1, fu),
            cs@ == strip_bom(src@),
            whole == prepend_all(tokens_view(out@), lex_from(cs@, i as int, line as nat, fu)),
            unit_computes(fl, fu),
            fu == unit_function(fl),
        decreases cs@.len() - i,
    {
        let c = cs[i];
        let ghost before = tokens_view(out@);
        if c == ';' || c == '#' {
            proof {
                lemma_comment_end(cs@, i + 1);
            }
            i = scan_comment(&cs, i);
        } else if c == '\r' || c == ' ' || c == '\t' {
            i = i + 1;
        } else if c == '\n' {
            let t = Token { tok: Tok::Newline, line };
            out.push(t);
            proof {
                lemma_prepend_all(before, t@, lex_from(cs@, i + 1, (line + 1) as nat, fu));
                assert(tokens_view(out@) =~= before.push(t@));
            }
            line = line + 1;
            i = i + 1;
        } else if '0' <= c && c <= '9' {
            let (j, has_point) = scan_number(&cs, i);
            let tok = if has_point {
                let text = string_of_range(&cs, i, j);
                let bits = ask(fl, FloatOp::Parse(text.clone()), Ghost(fu)).bits;
                let debug = ask(fl, FloatOp::Debug(bits), Ghost(fu)).text;
                Tok::Float(text, debug)
            } else {
                proof {
                    assert(forall|q: int| i <= q < j ==> is_digit(#[trigger] cs@[q])) by {
                        assert forall|q: int| i <= q < j implies is_digit(#[trigger] cs@[q]) by {
                            let a = cs@.subrange(i as int, j as int);
                            assert(a[q - i] == cs@[q]);
                            if !is_digit(cs@[q]) {
                                lemma_number_scan_digits(cs@, i as int, q);
                            }
                        }
                    }
                }
                match parse_int(&cs, i, j) {
                    Some(v) => Tok::Int(v),
                    None => {
                        let mut m = at_line_exec(line);
                        push_str(&mut m, "invalid number '");
                        let text = string_of_range(&cs, i, j);
                        push_str(&mut m, text.as_str());
                        push_str(&mut m, "'");
                        assert(lex_from(cs@, i as int, line as nat, fu) == Err::<Seq<TokenV>, Seq<char>>(m@));
                        return Err(m);
                    },
                }
            };
            let t = Token { tok, line };
            out.push(t);
            proof {
                lemma_prepend_all(before, t@, lex_from(cs@, j as int, line as nat, fu));
                assert(tokens_view(out@) =~= before.push(t@));
            }
            i = j;
        } else if is_alphabetic(c) || c == '_' {
            let j = scan_ident(&cs, i + 1);
            proof {
                lemma_ident_end(cs@, i + 1);
            }
            let t = Token { tok: Tok::Ident(string_of_range(&cs, i, j)), line };
            out.push(t);
            proof {
                lemma_prepend_all(before, t@, lex_from(cs@, j as int, line as nat, fu));
                assert(tokens_view(out@) =~= before.push(t@));
            }
            i = j;
        } else if c == '"' {
            proof {
                lemma_scan_string(cs@, i + 1, Seq::empty());
            }
            match scan_string_exec(&cs, i + 1) {
                StringScanExec::Done(s, j) => {
                    let t = Token { tok: Tok::Str(s), line };
                    out.push(t);
                    proof {
                        lemma_prepend_all(before, t@, lex_from(cs@, j as int, line as nat, fu));
                        assert(tokens_view(out@) =~= before.push(t@));
                    }
                    i = j;
                },
                StringScanExec::Unterminated => {
                    let mut m = at_line_exec(line);
                    push_str(&mut m, "unterminated string literal");
                    return Err(m);
                },
                StringScanExec::UnterminatedEscape => {
                    let mut m = at_line_exec(line);
                    push_str(&mut m, "unterminated escape sequence");
                    return Err(m);
                },
            }
        } else {
            match two_char_exec(&cs, i) {
                Some(tok) => {
                    let t = Token { tok, line };
                    out.push(t);
                    proof {
                        lemma_prepend_all(before, t@, lex_from(cs@, i + 2, line as nat, fu));
                        assert(tokens_view(out@) =~= before.push(t@));
                    }
                    i = i + 2;
                },
                None => match one_char_exec(c) {
                    Some(tok) => {
                        let t = Token { tok, line };
                        out.push(t);
                        proof {
                            lemma_prepend_all(before, t@, lex_from(cs@, i + 1, line as nat, fu));
                            assert(tokens_view(out@) =~= before.push(t@));
                        }
                        i = i + 1;
                    },
                    None => {
                        let mut m = at_line_exec(line);
                        push_str(&mut m, "unexpected character '");
                        push_char(&mut m, c);
                        push_str(&mut m, "'");
                        assert(m@ =~= at_line(line as nat) + "unexpected character '"@ + seq![c] + "'"@);
                        assert(!is_ident_start(c));
                        assert(lex_from(cs@, i as int, line as nat, fu) == Err::<Seq<TokenV>, Seq<char>>(m@));
                        return Err(m);
                    },
                },
            }
        }
    }
    let t = Token { tok: Tok::Eof, line };
    let ghost before = tokens_view(out@);
    out.push(t);
    proof {
        assert(tokens_view(out@) =~= before.push(t@));
        assert(before + seq![t@] =~= before.push(t@));
    }
    Ok(out)
}

/// Every character inside a scanned number literal is a digit or a point.
proof fn lemma_number_scan_digits(cs: Seq<char>, i: int, q: int)
    requires
        0 <= i <= q < number_end(cs, i, false),
        number_end(cs, i, false) <= cs.len(),
    ensures
        is_digit(cs[q]) || cs[q] == '.',
{
    lemma_number_scan_chars(cs, i, false, q);
}

proof fn lemma_number_scan_chars(cs: Seq<char>, j: int, seen: bool, q: int)
    requires
        0 <= j <= q < number_end(cs, j, seen),
    ensures
        is_digit(cs[q]) || cs[q] == '.',
    decreases cs.len() - j,
{
    if number_continues(cs, j) {
        if q > j {
            if cs[j] == '.' {
                if !seen {
                    lemma_number_scan_chars(cs, j + 1, true, q);
                }
            } else {
                lemma_number_scan_chars(cs, j + 1, seen, q);
            }
        }
    }
}

/// What `char::escape_debug` yields for a character.
pub uninterp spec fn char_escape_debug(c: char) -> Seq<char>;

/// Calls `char::escape_debug` and collects the escape into a string; the
/// result is named `char_escape_debug`.
#[verifier::external_body]
fn escape_debug(c: char) -> (r: String)
    ensures
        r@ == char_escape_debug(c),
{
    c.escape_debug().collect()
}

/// The characters of a string as its `{:?}` format shows them between the
/// quotes: each character escaped as `char::escape_debug` does, except the
/// single quote, which stays as it is.
pub open spec fn str_debug_body(s: Seq<char>) -> Seq<char>
    decreases s.len(),
{
    if s.len() == 0 {
        Seq::empty()
    } else {
        str_debug_body(s.drop_last()) + if s.last() == '\'' {
            seq!['\'']
        } else {
            char_escape_debug(s.last())
        }
    }
}

/// The `{:?}` format of a string.
pub open spec fn str_debug(s: Seq<char>) -> Seq<char> {
    "\""@ + str_debug_body(s) + "\""@
}

/// The `{:?}` format of a token, as used in parse error messages.
pub open spec fn tok_debug(t: TokV) -> Seq<char> {
    match t {
        TokV::Ident(s) => "Ident("@ + str_debug(s) + ")"@,
        TokV::Int(v) => "Int("@ + signed_decimal(v as int) + ")"@,
        TokV::Float(_, d) => "Float("@ + d + ")"@,
        TokV::Str(s) => "Str("@ + str_debug(s) + ")"@,
        TokV::Dollar => "Dollar"@,
        TokV::LParen => "LParen"@,
        TokV::RParen => "RParen"@,
        TokV::LBrace => "LBrace"@,
        TokV::RBrace => "RBrace"@,
        TokV::Comma => "Comma"@,
        TokV::Assign => "Assign"@,
        TokV::Plus => "Plus"@,
        TokV::Minus => "Minus"@,
        TokV::Star => "Star"@,
        TokV::Slash => "Slash"@,
        TokV::Percent => "Percent"@,
        TokV::Eq => "Eq"@,
        TokV::Ne => "Ne"@,
        TokV::Lt => "Lt"@,
        TokV::Le => "Le"@,
        TokV::Gt => "Gt"@,
        TokV::Ge => "Ge"@,
        TokV::AndAnd => "AndAnd"@,
        TokV::OrOr => "OrOr"@,
        TokV::Bang => "Bang"@,
        TokV::Newline => "Newline"@,
        TokV::Eof => "Eof"@,
    }
}

fn push_str_debug(out: &mut String, s: &String)
    ensures
        final(out)@ == old(out)@ + str_debug(s@),
{
    let cs = chars_of(s.as_str());
    push_str(out, "\"");
    let ghost start = out@;
    let mut i: usize = 0;
    while i < cs.len()
        invariant
            i <= cs@.len(),
            cs@ == s@,
            out@ == start + str_debug_body(cs@.take(i as int)),
        decreases cs@.len() - i,
    {
        let c = cs[i];
        if c == '\'' {
            push_char(out, c);
        } else {
            let e = escape_debug(c);
            push_str(out, e.as_str());
        }
        proof {
            let a = cs@.take(i as int);
            let b = cs@.take(i + 1);
            assert(b.drop_last() =~= a);
            assert(b.last() == c);
        }
        i = i + 1;
    }
    assert(cs@.take(cs@.len() as int) =~= s@);
    push_str(out, "\"");
}

impl Tok {
    /// The token in the `{:?}` format.
    pub fn debug_text(&self) -> (r: String)
        ensures
            r@ == tok_debug(self@),
    {
        let mut out = String::new();
        match self {
            Tok::Ident(s) => {
                push_str(&mut out, "Ident(");
                push_str_debug(&mut out, s);
                push_str(&mut out, ")");
            },
            Tok::Int(v) => {
                push_str(&mut out, "Int(");
                push_signed_decimal(&mut out, *v as i128);
                push_str(&mut out, ")");
            },
            Tok::Float(_, d) => {
                push_str(&mut out, "Float(");
                push_str(&mut out, d.as_str());
                push_str(&mut out, ")");
            },
            Tok::Str(s) => {
                push_str(&mut out, "Str(");
                push_str_debug(&mut out, s);
                push_str(&mut out, ")");
            },
            Tok::Dollar => push_str(&mut out, "Dollar"),
            Tok::LParen => push_str(&mut out, "LParen"),
            Tok::RParen => push_str(&mut out, "RParen"),
            Tok::LBrace => push_str(&mut out, "LBrace"),
            Tok::RBrace => push_str(&mut out, "RBrace"),
            Tok::Comma => push_str(&mut out, "Comma"),
            Tok::Assign => push_str(&mut out, "Assign"),
            Tok::Plus => push_str(&mut out, "Plus"),
            Tok::Minus => push_str(&mut out, "Minus"),
            Tok::Star => push_str(&mut out, "Star"),
            Tok::Slash => push_str(&mut out, "Slash"),
            Tok::Percent => push_str(&mut out, "Percent"),
            Tok::Eq => push_str(&mut out, "Eq"),
            Tok::Ne => push_str(&mut out, "Ne"),
            Tok::Lt => push_str(&mut out, "Lt"),
            Tok::Le => push_str(&mut out, "Le"),
            Tok::Gt => push_str(&mut out, "Gt"),
            Tok::Ge => push_str(&mut out, "Ge"),
            Tok::AndAnd => push_str(&mut out, "AndAnd"),
            Tok::OrOr => push_str(&mut out, "OrOr"),
            Tok::Bang => push_str(&mut out, "Bang"),
            Tok::Newline => push_str(&mut out, "Newline"),
            Tok::Eof => push_str(&mut out, "Eof"),
        }
        out
    }

    /// A copy of the token.
    pub fn duplicate(&self) -> (r: Tok)
        ensures
            r@ == self@,
    {
        match self {
            Tok::Ident(s) => Tok::Ident(s.clone()),
            Tok::Int(v) => Tok::Int(*v),
            Tok::Float(s, d) => Tok::Float(s.clone(), d.clone()),
            Tok::Str(s) => Tok::Str(s.clone()),
            Tok::Dollar => Tok::Dollar,
            Tok::LParen => Tok::LParen,
            Tok::RParen => Tok::RParen,
            Tok::LBrace => Tok::LBrace,
            Tok::RBrace => Tok::RBrace,
            Tok::Comma => Tok::Comma,
            Tok::Assign => Tok::Assign,
            Tok::Plus => Tok::Plus,
            Tok::Minus => Tok::Minus,
            Tok::Star => Tok::Star,
            Tok::Slash => Tok::Slash,
            Tok::Percent => Tok::Percent,
            Tok::Eq => Tok::Eq,
            Tok::Ne => Tok::Ne,
            Tok::Lt => Tok::Lt,
            Tok::Le => Tok::Le,
            Tok::Gt => Tok::Gt,
            Tok::Ge => Tok::Ge,
            Tok::AndAnd => Tok::AndAnd,
            Tok::OrOr => Tok::OrOr,
            Tok::Bang => Tok::Bang,
            Tok::Newline => Tok::Newline,
            Tok::Eof => Tok::Eof,
        }
    }
}

/// A successful lexing result is non-empty and ends with `Eof`.
pub proof fn lemma_lex_from_ends_with_eof(cs: Seq<char>, i: int, line: nat, fu: FloatFn)
    ensures
        lex_from(cs, i, line, fu) matches Ok(ts) ==> ts.len() > 0 && ts.last().tok == TokV::Eof,
    decreases cs.len() - i,
{
    if 0 <= i < cs.len() {
        let c = cs[i];
        if c == ';' || c == '#' {
            lemma_comment_end(cs, i + 1);
            lemma_lex_from_ends_with_eof(cs, comment_end(cs, i), line, fu);
        } else if c == '\r' || c == ' ' || c == '\t' {
            lemma_lex_from_ends_with_eof(cs, i + 1, line, fu);
        } else if c == '\n' {
            lemma_lex_from_ends_with_eof(cs, i + 1, line + 1, fu);
        } else if is_digit(c) {
            lemma_number_end(cs, i + 1, false);
            lemma_lex_from_ends_with_eof(cs, number_end(cs, i, false), line, fu);
        } else if is_ident_start(c) {
            lemma_ident_end(cs, i + 1);
            lemma_lex_from_ends_with_eof(cs, ident_end(cs, i + 1), line, fu);
        } else if c == '"' {
            lemma_scan_string(cs, i + 1, Seq::empty());
            if let StringScan::Done(_, j) = scan_string(cs, i + 1, Seq::empty()) {
                lemma_lex_from_ends_with_eof(cs, j, line, fu);
            }
        } else if two_char_tok(cs, i) is Some {
            lemma_lex_from_ends_with_eof(cs, i + 2, line, fu);
        } else if one_char_tok(c) is Some {
            lemma_lex_from_ends_with_eof(cs, i + 1, line, fu);
        }
    }
}

/// The tokens of a successful `spec_lex` end with `Eof`.
pub proof fn lemma_lex_ends_with_eof(src: Seq<char>, fu: FloatFn)
    ensures
        spec_lex(src, fu) matches Ok(ts) ==> ts.len() > 0 && ts.last().tok == TokV::Eof,
{
    lemma_lex_from_ends_with_eof(strip_bom(src), 0, 1, fu);
}

} // verus!

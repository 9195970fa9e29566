//! The lexer: turns raw query text into a sequence of [`Token`]s.
//!
//! The lexical classes are: double-quoted phrases (quotes retained, with
//! backslash escapes inside), runs of word characters (letters, a few accented
//! letters and punctuation symbols used inside bare terms), two numeric
//! classes (`ZeroToOne` for numerals of the shape `0+`, `0+.digits` or `1`,
//! `Number` for any other digit run), nine single-character symbols, six
//! `@`-keywords, and whitespace (skipped). A character that starts no rule
//! produces a [`Token::Error`] marker and scanning continues, so lexing is
//! total. Longest match wins; on equal length the `ZeroToOne` class wins over
//! `Number`.
//!
//! Fractional values are kept exactly, as a decimal [`Fraction`] in canonical
//! form. A fractional part with more than 18 significant digits, or a bare
//! digit run whose value exceeds `u64::MAX`, is outside the numeric classes
//! and lexes as an `Error` marker.
//!
//! The executable [`lex`] returns exactly [`spec_lex`] of the input.

use vstd::prelude::*;
use vstd::string::StrSliceExecFns;

use crate::numeral::all_digits;
use crate::numeral::digit_val;
use crate::numeral::digits_val;
use crate::numeral::is_digit;
use crate::numeral::lemma_digits_val_bound;
use crate::numeral::lemma_pow10_mono;
use crate::numeral::lemma_pow10_values;
use crate::numeral::pow10;

verus! {

/// An exact decimal fraction in `[0, 1]`, with value `num / 10^scale`.
///
/// Canonical form: at most 18 fractional digits, value at most 1, and no
/// trailing zero digits (so `0.5` is `num == 5, scale == 1`, never
/// `num == 50, scale == 2`); see [`fraction_wf`].
#[derive(Debug, Clone, Copy, PartialEq, Eq, Structural)]
pub struct Fraction {
    /// The numerator.
    pub num: u64,
    /// The power of ten of the denominator.
    pub scale: u32,
}

/// The well-formedness invariant of a [`Fraction`]: canonical and in `[0, 1]`.
pub open spec fn fraction_wf(f: Fraction) -> bool {
    &&& f.scale <= 18
    &&& f.num <= pow10(f.scale as nat)
    &&& (f.scale > 0 ==> f.num % 10 != 0)
}

/// A lexical token. `WordOrPhrase` carries a bare word or a double-quoted
/// phrase with the quotes retained verbatim.
#[derive(Debug, Clone, PartialEq)]
pub enum Token {
    WordOrPhrase(String),
    ZeroToOne(Fraction),
    Number(u64),
    Bang,
    Minus,
    And,
    Plus,
    Or,
    LeftParen,
    RightParen,
    Comma,
    Contains,
    Starts,
    Inflection,
    Thesaurus,
    Near,
    Weighted,
    Colon,
    EoF,
    Error,
}

/// The spec-level model of a [`Token`]: the same tag, with text as a
/// character sequence.
pub enum Lexeme {
    WordOrPhrase(Seq<char>),
    ZeroToOne(Fraction),
    Number(u64),
    Bang,
    Minus,
    And,
    Plus,
    Or,
    LeftParen,
    RightParen,
    Comma,
    Contains,
    Starts,
    Inflection,
    Thesaurus,
    Near,
    Weighted,
    Colon,
    EoF,
    Error,
}

impl View for Token {
    type V = Lexeme;

    open spec fn view(&self) -> Lexeme {
        match self {
            Token::WordOrPhrase(s) => Lexeme::WordOrPhrase(s@),
            Token::ZeroToOne(f) => Lexeme::ZeroToOne(*f),
            Token::Number(u) => Lexeme::Number(*u),
            Token::Bang => Lexeme::Bang,
            Token::Minus => Lexeme::Minus,
            Token::And => Lexeme::And,
            Token::Plus => Lexeme::Plus,
            Token::Or => Lexeme::Or,
            Token::LeftParen => Lexeme::LeftParen,
            Token::RightParen => Lexeme::RightParen,
            Token::Comma => Lexeme::Comma,
            Token::Contains => Lexeme::Contains,
            Token::Starts => Lexeme::Starts,
            Token::Inflection => Lexeme::Inflection,
            Token::Thesaurus => Lexeme::Thesaurus,
            Token::Near => Lexeme::Near,
            Token::Weighted => Lexeme::Weighted,
            Token::Colon => Lexeme::Colon,
            Token::EoF => Lexeme::EoF,
            Token::Error => Lexeme::Error,
        }
    }
}

/// The models of a token sequence.
pub open spec fn lexemes_of(ts: Seq<Token>) -> Seq<Lexeme> {
    ts.map_values(|t: Token| t@)
}

/// Whether a lexeme's payload is well formed (its fraction canonical).
pub open spec fn lexeme_wf(l: Lexeme) -> bool {
    match l {
        Lexeme::ZeroToOne(f) => fraction_wf(f),
        _ => true,
    }
}

/// Whether every lexeme of the sequence is well formed.
pub open spec fn lexemes_wf(ls: Seq<Lexeme>) -> bool {
    forall|i: int| 0 <= i < ls.len() ==> lexeme_wf(#[trigger] ls[i])
}

/// Whitespace, skipped by the lexer.
pub open spec fn is_ws(c: char) -> bool {
    let u = c as u32;
    u == 32 || u == 9 || u == 10 || u == 13 || u == 11 || u == 12
}

/// A character that may stand inside a bare word: ASCII letters, the German
/// letters and a handful of punctuation symbols.
pub open spec fn is_word_char(c: char) -> bool {
    let u = c as u32;
    ||| (65 <= u && u <= 90)
    ||| (97 <= u && u <= 122)
    ||| u == 223  // sharp s
    ||| u == 252 || u == 220  // u with diaeresis
    ||| u == 246 || u == 214  // o with diaeresis
    ||| u == 228 || u == 196  // a with diaeresis
    ||| u == 63  // question mark
    ||| u == 59  // semicolon
    ||| u == 46  // full stop
    ||| u == 95  // underscore
    ||| u == 60 || u == 62  // angle brackets
    ||| u == 180  // acute accent
    ||| u == 96  // grave accent
    ||| u == 35  // number sign
    ||| u == 167  // section sign
    ||| u == 36  // dollar sign
    ||| u == 37  // percent sign
    ||| u == 47  // slash
    ||| u == 92  // backslash
    ||| u == 61  // equals sign
    ||| u == 8364  // euro sign
}

/// The number of word characters at and after position `p`.
pub open spec fn word_extra(s: Seq<char>, p: int) -> nat
    decreases s.len() - p,
{
    if p < 0 || p >= s.len() || !is_word_char(s[p]) {
        0
    } else {
        1 + word_extra(s, p + 1)
    }
}

/// The number of digit characters at and after position `p`.
pub open spec fn digit_extra(s: Seq<char>, p: int) -> nat
    decreases s.len() - p,
{
    if p < 0 || p >= s.len() || !is_digit(s[p]) {
        0
    } else {
        1 + digit_extra(s, p + 1)
    }
}

/// The number of `'0'` characters at and after position `p`.
pub open spec fn zeros_extra(s: Seq<char>, p: int) -> nat
    decreases s.len() - p,
{
    if p < 0 || p >= s.len() || s[p] != '0' {
        0
    } else {
        1 + zeros_extra(s, p + 1)
    }
}

/// The length of the phrase body starting at `p` (the position just after the
/// opening quote): the number of characters up to, and not including, the
/// first unescaped closing quote; `None` if the phrase is unterminated.
pub open spec fn phrase_body_len(s: Seq<char>, p: int) -> Option<nat>
    decreases s.len() - p,
{
    if p < 0 || p >= s.len() {
        None
    } else if s[p] == '"' {
        Some(0)
    } else if s[p] == '\\' {
        if p + 1 < s.len() {
            match phrase_body_len(s, p + 2) {
                Some(b) => Some((b + 2) as nat),
                None => None,
            }
        } else {
            None
        }
    } else {
        match phrase_body_len(s, p + 1) {
            Some(b) => Some((b + 1) as nat),
            None => None,
        }
    }
}

/// The length of the longest `ZeroToOne` numeral at `p`: `0+`, optionally
/// followed by `.` and a digit run, or a lone `1`; `0` if none matches.
pub open spec fn zto_len(s: Seq<char>, p: int) -> nat {
    if p < 0 || p >= s.len() {
        0
    } else if s[p] == '1' {
        1
    } else if s[p] == '0' {
        let zr = 1 + zeros_extra(s, p + 1);
        let q = p + zr;
        if q < s.len() && s[q] == '.' && q + 1 < s.len() && is_digit(s[q + 1]) {
            zr + 1 + 1 + digit_extra(s, q + 2)
        } else {
            zr
        }
    } else {
        0
    }
}

/// The length of the digit run at `p`; `0` if `s[p]` is not a digit.
pub open spec fn digit_run_len(s: Seq<char>, p: int) -> nat {
    if p < 0 || p >= s.len() || !is_digit(s[p]) {
        0
    } else {
        1 + digit_extra(s, p + 1)
    }
}

/// The length of the fractional digit run with trailing zeros stripped.
pub open spec fn strip_len(d: Seq<char>) -> nat
    decreases d.len(),
{
    if d.len() == 0 {
        0
    } else if d.last() as u32 == 48 {
        strip_len(d.drop_last())
    } else {
        d.len()
    }
}

/// The lexeme for a `ZeroToOne` numeral at `p` (only meaningful when
/// `zto_len(s, p) >= 1`): the canonical fraction of its value, or an `Error`
/// marker when the fraction has more than 18 significant digits.
pub open spec fn zto_lexeme(s: Seq<char>, p: int) -> Lexeme {
    if s[p] == '1' {
        Lexeme::ZeroToOne(Fraction { num: 1, scale: 0 })
    } else {
        let zr = 1 + zeros_extra(s, p + 1);
        let q = p + zr;
        if q < s.len() && s[q] == '.' && q + 1 < s.len() && is_digit(s[q + 1]) {
            let dlen = 1 + digit_extra(s, q + 2);
            let digits = s.subrange(q + 1, q + 1 + dlen);
            let e = strip_len(digits);
            if e > 18 {
                Lexeme::Error
            } else {
                Lexeme::ZeroToOne(
                    Fraction { num: digits_val(digits.take(e as int)) as u64, scale: e as u32 },
                )
            }
        } else {
            Lexeme::ZeroToOne(Fraction { num: 0, scale: 0 })
        }
    }
}

/// The lexeme for a `Number` numeral at `p` (only meaningful when
/// `digit_run_len(s, p) >= 1`): its value, or an `Error` marker when the
/// value exceeds `u64::MAX`.
pub open spec fn num_lexeme(s: Seq<char>, p: int) -> Lexeme {
    let v = digits_val(s.subrange(p, p + digit_run_len(s, p)));
    if v > u64::MAX {
        Lexeme::Error
    } else {
        Lexeme::Number(v as u64)
    }
}

/// The characters of the keyword `@contains`.
pub open spec fn kw_contains() -> Seq<char> {
    seq!['@', 'c', 'o', 'n', 't', 'a', 'i', 'n', 's']
}

/// The characters of the keyword `@startswith`.
pub open spec fn kw_startswith() -> Seq<char> {
    seq!['@', 's', 't', 'a', 'r', 't', 's', 'w', 'i', 't', 'h']
}

/// The characters of the keyword `@inflection`.
pub open spec fn kw_inflection() -> Seq<char> {
    seq!['@', 'i', 'n', 'f', 'l', 'e', 'c', 't', 'i', 'o', 'n']
}

/// The characters of the keyword `@thesaurus`.
pub open spec fn kw_thesaurus() -> Seq<char> {
    seq!['@', 't', 'h', 'e', 's', 'a', 'u', 'r', 'u', 's']
}

/// The characters of the keyword `@near`.
pub open spec fn kw_near() -> Seq<char> {
    seq!['@', 'n', 'e', 'a', 'r']
}

/// The characters of the keyword `@weighted`.
pub open spec fn kw_weighted() -> Seq<char> {
    seq!['@', 'w', 'e', 'i', 'g', 'h', 't', 'e', 'd']
}

/// Whether the characters of `kw` stand at position `p` of `s`.
pub open spec fn matches_at(s: Seq<char>, p: int, kw: Seq<char>) -> bool {
    0 <= p && p + kw.len() <= s.len() && s.subrange(p, p + kw.len()) == kw
}

/// `q`, clamped to the length of `s` (scan positions never pass the end).
pub open spec fn advance(s: Seq<char>, q: int) -> int {
    if q <= s.len() {
        q
    } else {
        s.len() as int
    }
}

/// The lexemes of `s` from position `pos` on. One recursive step per token
/// (or per skipped whitespace character); every character is consumed.
pub open spec fn spec_lex_from(s: Seq<char>, pos: int) -> Seq<Lexeme>
    decreases s.len() - pos,
{
    if pos < 0 || pos >= s.len() {
        seq![]
    } else {
        let c = s[pos];
        if is_ws(c) {
            spec_lex_from(s, pos + 1)
        } else if c == '"' {
            match phrase_body_len(s, pos + 1) {
                Some(b) => seq![Lexeme::WordOrPhrase(s.subrange(pos, pos + 2 + b))]
                    + spec_lex_from(s, advance(s, pos + 2 + b)),
                None => seq![Lexeme::Error] + spec_lex_from(s, pos + 1),
            }
        } else if is_digit(c) {
            let zl = zto_len(s, pos);
            let nl = digit_run_len(s, pos);
            let lx = if zl >= nl {
                zto_lexeme(s, pos)
            } else {
                num_lexeme(s, pos)
            };
            let extra = if zl >= nl {
                (zl - 1) as nat
            } else {
                (nl - 1) as nat
            };
            seq![lx] + spec_lex_from(s, advance(s, pos + 1 + extra))
        } else if c == '@' {
            if matches_at(s, pos, kw_contains()) {
                seq![Lexeme::Contains] + spec_lex_from(s, advance(s, pos + 9))
            } else if matches_at(s, pos, kw_startswith()) {
                seq![Lexeme::Starts] + spec_lex_from(s, advance(s, pos + 11))
            } else if matches_at(s, pos, kw_inflection()) {
                seq![Lexeme::Inflection] + spec_lex_from(s, advance(s, pos + 11))
            } else if matches_at(s, pos, kw_thesaurus()) {
                seq![Lexeme::Thesaurus] + spec_lex_from(s, advance(s, pos + 10))
            } else if matches_at(s, pos, kw_near()) {
                seq![Lexeme::Near] + spec_lex_from(s, advance(s, pos + 5))
            } else if matches_at(s, pos, kw_weighted()) {
                seq![Lexeme::Weighted] + spec_lex_from(s, advance(s, pos + 9))
            } else {
                seq![Lexeme::Error] + spec_lex_from(s, pos + 1)
            }
        } else if is_word_char(c) {
            let wl = 1 + word_extra(s, pos + 1);
            seq![Lexeme::WordOrPhrase(s.subrange(pos, pos + wl))]
                + spec_lex_from(s, advance(s, pos + wl))
        } else if c == '!' {
            seq![Lexeme::Bang] + spec_lex_from(s, pos + 1)
        } else if c == '-' {
            seq![Lexeme::Minus] + spec_lex_from(s, pos + 1)
        } else if c == '&' {
            seq![Lexeme::And] + spec_lex_from(s, pos + 1)
        } else if c == '+' {
            seq![Lexeme::Plus] + spec_lex_from(s, pos + 1)
        } else if c == '|' {
            seq![Lexeme::Or] + spec_lex_from(s, pos + 1)
        } else if c == '(' {
            seq![Lexeme::LeftParen] + spec_lex_from(s, pos + 1)
        } else if c == ')' {
            seq![Lexeme::RightParen] + spec_lex_from(s, pos + 1)
        } else if c == ',' {
            seq![Lexeme::Comma] + spec_lex_from(s, pos + 1)
        } else if c == ':' {
            seq![Lexeme::Colon] + spec_lex_from(s, pos + 1)
        } else {
            seq![Lexeme::Error] + spec_lex_from(s, pos + 1)
        }
    }
}

/// The lexemes of the whole input.
pub open spec fn spec_lex(s: Seq<char>) -> Seq<Lexeme> {
    spec_lex_from(s, 0)
}

fn is_ws_x(c: char) -> (b: bool)
    ensures
        b == is_ws(c),
{
    let u = c as u32;
    u == 32 || u == 9 || u == 10 || u == 13 || u == 11 || u == 12
}

fn is_digit_x(c: char) -> (b: bool)
    ensures
        b == is_digit(c),
{
    let u = c as u32;
    48 <= u && u <= 57
}

fn is_word_char_x(c: char) -> (b: bool)
    ensures
        b == is_word_char(c),
{
    let u = c as u32;
    (65 <= u && u <= 90) || (97 <= u && u <= 122) || u == 223 || u == 252 || u == 220 || u == 246
        || u == 214 || u == 228 || u == 196 || u == 63 || u == 59 || u == 46 || u == 95 || u == 60
        || u == 62 || u == 180 || u == 96 || u == 35 || u == 167 || u == 36 || u == 37 || u == 47
        || u == 92 || u == 61 || u == 8364
}

fn word_extra_x(s: &str, n: usize, p: usize) -> (r: usize)
    requires
        n == s@.len(),
        p <= n,
    ensures
        r == word_extra(s@, p as int),
        p + r <= n,
    decreases n - p,
{
    if p == n {
        0
    } else {
        let c = s.get_char(p);
        if is_word_char_x(c) {
            1 + word_extra_x(s, n, p + 1)
        } else {
            0
        }
    }
}

fn digit_extra_x(s: &str, n: usize, p: usize) -> (r: usize)
    requires
        n == s@.len(),
        p <= n,
    ensures
        r == digit_extra(s@, p as int),
        p + r <= n,
    decreases n - p,
{
    if p == n {
        0
    } else {
        let c = s.get_char(p);
        if is_digit_x(c) {
            1 + digit_extra_x(s, n, p + 1)
        } else {
            0
        }
    }
}

fn zeros_extra_x(s: &str, n: usize, p: usize) -> (r: usize)
    requires
        n == s@.len(),
        p <= n,
    ensures
        r == zeros_extra(s@, p as int),
        p + r <= n,
    decreases n - p,
{
    if p == n {
        0
    } else {
        let c = s.get_char(p);
        if c == '0' {
            1 + zeros_extra_x(s, n, p + 1)
        } else {
            0
        }
    }
}

fn phrase_body(s: &str, n: usize, p: usize) -> (r: Option<usize>)
    requires
        n == s@.len(),
        p <= n,
    ensures
        match r {
            Some(b) => phrase_body_len(s@, p as int) == Some(b as nat) && p + b < n,
            None => phrase_body_len(s@, p as int) is None,
        },
    decreases n - p,
{
    if p == n {
        None
    } else {
        let c = s.get_char(p);
        if c == '"' {
            Some(0)
        } else if c == '\\' {
            if p + 1 < n {
                match phrase_body(s, n, p + 2) {
                    Some(b) => Some(b + 2),
                    None => None,
                }
            } else {
                None
            }
        } else {
            match phrase_body(s, n, p + 1) {
                Some(b) => Some(b + 1),
                None => None,
            }
        }
    }
}

fn strip_zeros(s: &str, n: usize, dstart: usize, dend: usize) -> (e: usize)
    requires
        n == s@.len(),
        dstart <= dend,
        dend <= n,
    ensures
        e == strip_len(s@.subrange(dstart as int, dend as int)),
        e <= dend - dstart,
    decreases dend - dstart,
{
    if dend == dstart {
        proof {
            assert(s@.subrange(dstart as int, dend as int) =~= Seq::<char>::empty());
        }
        0
    } else {
        let c = s.get_char(dend - 1);
        proof {
            let sub = s@.subrange(dstart as int, dend as int);
            assert(sub.last() == s@[dend - 1]);
            assert(sub.drop_last() =~= s@.subrange(dstart as int, dend - 1));
        }
        if c as u32 == 48 {
            strip_zeros(s, n, dstart, dend - 1)
        } else {
            dend - dstart
        }
    }
}

proof fn lemma_digit_extra_chars(s: Seq<char>, p: int)
    ensures
        forall|i: int| p <= i < p + digit_extra(s, p) ==> is_digit(#[trigger] s[i]),
        p <= s.len() ==> p + digit_extra(s, p) <= s.len(),
    decreases s.len() - p,
{
    if 0 <= p && p < s.len() && is_digit(s[p]) {
        lemma_digit_extra_chars(s, p + 1);
    }
}

/// If the stripped length is positive, the last kept digit is not `'0'`.
proof fn lemma_strip_last(d: Seq<char>)
    ensures
        strip_len(d) <= d.len(),
        strip_len(d) > 0 ==> d[strip_len(d) - 1] as u32 != 48,
    decreases d.len(),
{
    if d.len() > 0 && d.last() as u32 == 48 {
        lemma_strip_last(d.drop_last());
    }
}

fn digits_value_u64(s: &str, n: usize, start: usize, end: usize) -> (v: u64)
    requires
        n == s@.len(),
        start <= end,
        end <= n,
        end - start <= 18,
        all_digits(s@.subrange(start as int, end as int)),
    ensures
        v as nat == digits_val(s@.subrange(start as int, end as int)),
    decreases end - start,
{
    if end == start {
        proof {
            assert(s@.subrange(start as int, end as int) =~= Seq::<char>::empty());
        }
        0
    } else {
        proof {
            let full = s@.subrange(start as int, end as int);
            let pre = s@.subrange(start as int, end - 1);
            assert(full.drop_last() =~= pre);
            assert(full.last() == s@[end - 1]);
            assert(forall|i: int| 0 <= i < pre.len() ==> pre[i] == full[i]);
            lemma_digits_val_bound(pre);
            lemma_pow10_mono(pre.len(), 17);
            lemma_pow10_values();
            assert(pow10(18) == 10 * pow10(17));
        }
        let acc = digits_value_u64(s, n, start, end - 1);
        let c = s.get_char(end - 1);
        let d = (c as u32 - 48) as u64;
        acc * 10 + d
    }
}

fn digits_value_checked(s: &str, n: usize, start: usize, end: usize) -> (r: Option<u64>)
    requires
        n == s@.len(),
        start <= end,
        end <= n,
        all_digits(s@.subrange(start as int, end as int)),
    ensures
        match r {
            Some(v) => digits_val(s@.subrange(start as int, end as int)) == v as nat,
            None => digits_val(s@.subrange(start as int, end as int)) > u64::MAX,
        },
    decreases end - start,
{
    if end == start {
        proof {
            assert(s@.subrange(start as int, end as int) =~= Seq::<char>::empty());
        }
        Some(0)
    } else {
        proof {
            let full = s@.subrange(start as int, end as int);
            let pre = s@.subrange(start as int, end - 1);
            assert(full.drop_last() =~= pre);
            assert(full.last() == s@[end - 1]);
            assert(forall|i: int| 0 <= i < pre.len() ==> pre[i] == full[i]);
        }
        let sub = digits_value_checked(s, n, start, end - 1);
        let c = s.get_char(end - 1);
        let d = (c as u32 - 48) as u64;
        match sub {
            None => {
                proof {
                    let full = s@.subrange(start as int, end as int);
                    let pre = s@.subrange(start as int, end - 1);
                    assert(digits_val(full) == digits_val(pre) * 10 + digit_val(s@[end - 1]));
                    assert(digits_val(pre) * 10 >= digits_val(pre));
                }
                None
            },
            Some(acc) => {
                if acc > (u64::MAX - d) / 10 {
                    proof {
                        let full = s@.subrange(start as int, end as int);
                        let pre = s@.subrange(start as int, end - 1);
                        let m = (u64::MAX - d) as nat;
                        assert(acc as nat >= m / 10 + 1);
                        assert((m / 10) * 10 == m - m % 10);
                        assert(acc as nat * 10 >= (m / 10 + 1) * 10);
                        assert(digits_val(full) == digits_val(pre) * 10 + digit_val(s@[end - 1]));
                    }
                    None
                } else {
                    proof {
                        let m = (u64::MAX - d) as nat;
                        assert((m / 10) * 10 == m - m % 10);
                        assert(acc as nat * 10 <= (m / 10) * 10);
                    }
                    Some(acc * 10 + d)
                }
            },
        }
    }
}

fn zto_len_x(s: &str, n: usize, pos: usize) -> (r: usize)
    requires
        n == s@.len(),
        pos < n,
    ensures
        r == zto_len(s@, pos as int),
        pos + r <= n,
{
    let c = s.get_char(pos);
    if c == '1' {
        1
    } else if c == '0' {
        let zr = 1 + zeros_extra_x(s, n, pos + 1);
        let q = pos + zr;
        if q < n && s.get_char(q) == '.' && q + 1 < n && is_digit_x(s.get_char(q + 1)) {
            let de = digit_extra_x(s, n, q + 2);
            zr + 1 + 1 + de
        } else {
            zr
        }
    } else {
        0
    }
}

fn match_kw(s: &str, n: usize, pos: usize, kw: &str, kl: usize) -> (b: bool)
    requires
        n == s@.len(),
        pos <= n,
        kl == kw@.len(),
    ensures
        b == matches_at(s@, pos as int, kw@),
{
    if n - pos < kl {
        return false;
    }
    let mut i: usize = 0;
    while i < kl
        invariant
            n == s@.len(),
            pos + kl <= n,
            kl == kw@.len(),
            i <= kl,
            forall|j: int| 0 <= j < i ==> s@[pos + j] == kw@[j],
        decreases kl - i,
    {
        if s.get_char(pos + i) != kw.get_char(i) {
            proof {
                assert(s@.subrange(pos as int, pos + kl)[i as int] != kw@[i as int]);
            }
            return false;
        }
        i += 1;
    }
    proof {
        assert(s@.subrange(pos as int, pos + kl) =~= kw@);
    }
    true
}

/// Splits the query text into tokens; the result is exactly [`spec_lex`] of
/// the input, and every fraction in it is canonical.
pub fn lex(input: &str) -> (r: Vec<Token>)
    ensures
        lexemes_of(r@) == spec_lex(input@),
        lexemes_wf(spec_lex(input@)),
{
    proof {
        lemma_spec_lex_from_wf(input@, 0);
    }
    let n = input.unicode_len();
    let mut out: Vec<Token> = Vec::new();
    lex_into(input, n, 0, &mut out);
    proof {
        assert(lexemes_of(Seq::<Token>::empty()) + spec_lex(input@) =~= spec_lex(input@));
    }
    out
}

/// One scanning step produced token `tk` spanning `step` characters: the
/// lexeme stream from `pos` is `tk`'s model followed by the stream from
/// `pos + step`.
spec fn step_ok(s: Seq<char>, n: int, pos: int, tk: Token, step: int) -> bool {
    &&& 1 <= step
    &&& pos + step <= n
    &&& spec_lex_from(s, pos) == seq![tk@] + spec_lex_from(s, pos + step)
}

fn lex_phrase(s: &str, n: usize, pos: usize) -> (r: (Token, usize))
    requires
        n == s@.len(),
        pos < n,
        !is_ws(s@[pos as int]),
        s@[pos as int] == '"',
    ensures
        step_ok(s@, n as int, pos as int, r.0, r.1 as int),
{
    match phrase_body(s, n, pos + 1) {
        Some(b) => {
            let text = s.substring_char(pos, pos + 2 + b).to_owned();
            (Token::WordOrPhrase(text), 2 + b)
        },
        None => (Token::Error, 1),
    }
}

fn lex_numeral(s: &str, n: usize, pos: usize) -> (r: (Token, usize))
    requires
        n == s@.len(),
        pos < n,
        !is_ws(s@[pos as int]),
        s@[pos as int] != '"',
        is_digit(s@[pos as int]),
    ensures
        step_ok(s@, n as int, pos as int, r.0, r.1 as int),
{
    let c = s.get_char(pos);
    let zl = zto_len_x(s, n, pos);
    let de0 = digit_extra_x(s, n, pos + 1);
    let nl = 1 + de0;
    proof {
        assert(nl == digit_run_len(s@, pos as int));
    }
    let tk: Token;
    let step: usize;
    if zl >= nl {
        if c == '1' {
            tk = Token::ZeroToOne(Fraction { num: 1, scale: 0 });
        } else {
            let zr = 1 + zeros_extra_x(s, n, pos + 1);
            let q = pos + zr;
            if q < n && s.get_char(q) == '.' && q + 1 < n && is_digit_x(s.get_char(q + 1)) {
                let de = digit_extra_x(s, n, q + 2);
                let dlen = 1 + de;
                let dstart = q + 1;
                proof {
                    lemma_digit_extra_chars(s@, q + 2);
                    let digits = s@.subrange(dstart as int, dstart + dlen);
                    assert(forall|i: int| 0 <= i < digits.len() ==> is_digit(#[trigger] digits[i]));
                }
                let e = strip_zeros(s, n, dstart, dstart + dlen);
                if e > 18 {
                    tk = Token::Error;
                } else {
                    proof {
                        let digits = s@.subrange(dstart as int, dstart + dlen);
                        assert(digits.take(e as int) =~= s@.subrange(dstart as int, dstart + e));
                    }
                    let num = digits_value_u64(s, n, dstart, dstart + e);
                    tk = Token::ZeroToOne(Fraction { num, scale: e as u32 });
                }
            } else {
                tk = Token::ZeroToOne(Fraction { num: 0, scale: 0 });
            }
        }
        proof {
            assert(tk@ == zto_lexeme(s@, pos as int));
        }
        step = zl;
    } else {
        proof {
            lemma_digit_extra_chars(s@, pos + 1);
            let run = s@.subrange(pos as int, pos + nl);
            assert(forall|i: int| 0 <= i < run.len() ==> is_digit(#[trigger] run[i]));
        }
        match digits_value_checked(s, n, pos, pos + nl) {
            Some(v) => {
                tk = Token::Number(v);
            },
            None => {
                tk = Token::Error;
            },
        }
        proof {
            assert(tk@ == num_lexeme(s@, pos as int));
        }
        step = nl;
    }
    proof {
        assert(spec_lex_from(s@, pos as int) =~= seq![tk@] + spec_lex_from(s@, pos + step));
    }
    (tk, step)
}

fn lex_keyword(s: &str, n: usize, pos: usize) -> (r: (Token, usize))
    requires
        n == s@.len(),
        pos < n,
        !is_ws(s@[pos as int]),
        s@[pos as int] != '"',
        !is_digit(s@[pos as int]),
        s@[pos as int] == '@',
    ensures
        step_ok(s@, n as int, pos as int, r.0, r.1 as int),
{
    proof {
        reveal_strlit("@contains");
        reveal_strlit("@startswith");
        reveal_strlit("@inflection");
        reveal_strlit("@thesaurus");
        reveal_strlit("@near");
        reveal_strlit("@weighted");
        assert("@contains"@ =~= kw_contains());
        assert("@startswith"@ =~= kw_startswith());
        assert("@inflection"@ =~= kw_inflection());
        assert("@thesaurus"@ =~= kw_thesaurus());
        assert("@near"@ =~= kw_near());
        assert("@weighted"@ =~= kw_weighted());
    }
    let tk: Token;
    let step: usize;
    if match_kw(s, n, pos, "@contains", 9) {
        tk = Token::Contains;
        step = 9;
    } else if match_kw(s, n, pos, "@startswith", 11) {
        tk = Token::Starts;
        step = 11;
    } else if match_kw(s, n, pos, "@inflection", 11) {
        tk = Token::Inflection;
        step = 11;
    } else if match_kw(s, n, pos, "@thesaurus", 10) {
        tk = Token::Thesaurus;
        step = 10;
    } else if match_kw(s, n, pos, "@near", 5) {
        tk = Token::Near;
        step = 5;
    } else if match_kw(s, n, pos, "@weighted", 9) {
        tk = Token::Weighted;
        step = 9;
    } else {
        tk = Token::Error;
        step = 1;
    }
    proof {
        assert(spec_lex_from(s@, pos as int) =~= seq![tk@] + spec_lex_from(s@, pos + step));
    }
    (tk, step)
}

fn lex_simple(s: &str, n: usize, pos: usize) -> (r: (Token, usize))
    requires
        n == s@.len(),
        pos < n,
        !is_ws(s@[pos as int]),
        s@[pos as int] != '"',
        !is_digit(s@[pos as int]),
        s@[pos as int] != '@',
        !is_word_char(s@[pos as int]),
    ensures
        step_ok(s@, n as int, pos as int, r.0, r.1 as int),
{
    let c = s.get_char(pos);
    let tk: Token;
    if c == '!' {
        tk = Token::Bang;
    } else if c == '-' {
        tk = Token::Minus;
    } else if c == '&' {
        tk = Token::And;
    } else if c == '+' {
        tk = Token::Plus;
    } else if c == '|' {
        tk = Token::Or;
    } else if c == '(' {
        tk = Token::LeftParen;
    } else if c == ')' {
        tk = Token::RightParen;
    } else if c == ',' {
        tk = Token::Comma;
    } else if c == ':' {
        tk = Token::Colon;
    } else {
        tk = Token::Error;
    }
    proof {
        assert(spec_lex_from(s@, pos as int) =~= seq![tk@] + spec_lex_from(s@, pos + 1));
    }
    (tk, 1)
}

fn lex_into(s: &str, n: usize, pos: usize, out: &mut Vec<Token>)
    requires
        n == s@.len(),
        pos <= n,
    ensures
        lexemes_of(final(out)@) == lexemes_of(old(out)@) + spec_lex_from(s@, pos as int),
    decreases n - pos,
{
    let ghost out0 = out@;
    if pos == n {
        proof {
            assert(lexemes_of(out@) =~= lexemes_of(out@) + spec_lex_from(s@, pos as int));
        }
        return;
    }
    let c = s.get_char(pos);
    if is_ws_x(c) {
        lex_into(s, n, pos + 1, out);
        return;
    }
    let parsed: (Token, usize) = if c == '"' {
        lex_phrase(s, n, pos)
    } else if is_digit_x(c) {
        lex_numeral(s, n, pos)
    } else if c == '@' {
        lex_keyword(s, n, pos)
    } else if is_word_char_x(c) {
        let wl = 1 + word_extra_x(s, n, pos + 1);
        let text = s.substring_char(pos, pos + wl).to_owned();
        let tk = Token::WordOrPhrase(text);
        proof {
            assert(spec_lex_from(s@, pos as int) =~= seq![tk@] + spec_lex_from(s@, pos + wl));
        }
        (tk, wl)
    } else {
        lex_simple(s, n, pos)
    };
    let tk = parsed.0;
    let step = parsed.1;
    out.push(tk);
    proof {
        assert(lexemes_of(out@) =~= lexemes_of(out0).push(tk@));
    }
    lex_into(s, n, pos + step, out);
    proof {
        assert(lexemes_of(out@) =~= lexemes_of(out0) + spec_lex_from(s@, pos as int));
    }
}

/// Every fraction that `spec_lex` puts in a `ZeroToOne` lexeme is canonical.
pub proof fn lemma_spec_lex_from_wf(s: Seq<char>, pos: int)
    ensures
        lexemes_wf(spec_lex_from(s, pos)),
    decreases s.len() - pos,
{
    if pos < 0 || pos >= s.len() {
    } else {
        let c = s[pos];
        if is_ws(c) {
            lemma_spec_lex_from_wf(s, pos + 1);
        } else if c == '"' {
            match phrase_body_len(s, pos + 1) {
                Some(b) => {
                    lemma_spec_lex_from_wf(s, advance(s, pos + 2 + b));
                },
                None => {
                    lemma_spec_lex_from_wf(s, pos + 1);
                },
            }
        } else if is_digit(c) {
            let zl = zto_len(s, pos);
            let nl = digit_run_len(s, pos);
            if zl >= nl {
                lemma_zto_lexeme_wf(s, pos);
                lemma_spec_lex_from_wf(s, advance(s, pos + 1 + ((zl - 1) as nat)));
            } else {
                lemma_spec_lex_from_wf(s, advance(s, pos + 1 + ((nl - 1) as nat)));
            }
        } else if c == '@' {
            if matches_at(s, pos, kw_contains()) {
                lemma_spec_lex_from_wf(s, advance(s, pos + 9));
            } else if matches_at(s, pos, kw_startswith()) {
                lemma_spec_lex_from_wf(s, advance(s, pos + 11));
            } else if matches_at(s, pos, kw_inflection()) {
                lemma_spec_lex_from_wf(s, advance(s, pos + 11));
            } else if matches_at(s, pos, kw_thesaurus()) {
                lemma_spec_lex_from_wf(s, advance(s, pos + 10));
            } else if matches_at(s, pos, kw_near()) {
                lemma_spec_lex_from_wf(s, advance(s, pos + 5));
            } else if matches_at(s, pos, kw_weighted()) {
                lemma_spec_lex_from_wf(s, advance(s, pos + 9));
            } else {
                lemma_spec_lex_from_wf(s, pos + 1);
            }
        } else if is_word_char(c) {
            let wl = 1 + word_extra(s, pos + 1);
            lemma_spec_lex_from_wf(s, advance(s, pos + wl));
        } else {
            lemma_spec_lex_from_wf(s, pos + 1);
        }
    }
}

/// A character on which some lexical rule (other than the keyword and
/// phrase rules) is guaranteed to fire: whitespace, a digit, a word
/// character, or one of the nine single-character symbols.
pub open spec fn recognized_char(c: char) -> bool {
    ||| is_ws(c)
    ||| is_digit(c)
    ||| is_word_char(c)
    ||| c == '!'
    ||| c == '-'
    ||| c == '&'
    ||| c == '+'
    ||| c == '|'
    ||| c == '('
    ||| c == ')'
    ||| c == ','
    ||| c == ':'
}

/// Lexing is total and clean on plain input: if every character is
/// recognized (so no `@`-keyword or quoted-phrase rule is involved) and no
/// digit run is longer than eighteen characters, the lexer consumes the
/// whole input and produces no `Error` marker.
pub proof fn lemma_lex_total_no_error(s: Seq<char>)
    requires
        forall|i: int| 0 <= i < s.len() ==> recognized_char(#[trigger] s[i]),
        forall|p: int| #![trigger digit_run_len(s, p)] digit_run_len(s, p) <= 18,
    ensures
        forall|i: int|
            0 <= i < spec_lex(s).len() ==> !((#[trigger] spec_lex(s)[i]) is Error),
{
    lemma_lex_no_error_from(s, 0);
}

proof fn lemma_lex_no_error_from(s: Seq<char>, pos: int)
    requires
        forall|i: int| 0 <= i < s.len() ==> recognized_char(#[trigger] s[i]),
        forall|p: int| #![trigger digit_run_len(s, p)] digit_run_len(s, p) <= 18,
    ensures
        forall|i: int|
            0 <= i < spec_lex_from(s, pos).len() ==> !((#[trigger] spec_lex_from(s, pos)[
                i
            ]) is Error),
    decreases s.len() - pos,
{
    if pos < 0 || pos >= s.len() {
    } else {
        let c = s[pos];
        assert(recognized_char(c));
        if is_ws(c) {
            lemma_lex_no_error_from(s, pos + 1);
        } else if c == '"' {
            assert(!is_word_char(c));
            assert(false);
        } else if is_digit(c) {
            let zl = zto_len(s, pos);
            let nl = digit_run_len(s, pos);
            if zl >= nl {
                lemma_zto_no_error(s, pos);
                lemma_lex_no_error_from(s, advance(s, pos + 1 + ((zl - 1) as nat)));
            } else {
                let run = s.subrange(pos, pos + nl);
                lemma_digit_extra_chars(s, pos + 1);
                assert(forall|i: int| 0 <= i < run.len() ==> is_digit(#[trigger] run[i]));
                lemma_digits_val_bound(run);
                assert(run.len() == digit_run_len(s, pos));
                lemma_pow10_mono(run.len(), 18);
                lemma_pow10_values();
                assert(digits_val(run) <= u64::MAX);
                lemma_lex_no_error_from(s, advance(s, pos + 1 + ((nl - 1) as nat)));
            }
        } else if c == '@' {
            assert(!is_word_char(c));
            assert(false);
        } else if is_word_char(c) {
            let wl = 1 + word_extra(s, pos + 1);
            lemma_lex_no_error_from(s, advance(s, pos + wl));
        } else {
            assert(c == '!' || c == '-' || c == '&' || c == '+' || c == '|' || c == '(' || c == ')'
                || c == ',' || c == ':');
            lemma_lex_no_error_from(s, pos + 1);
        }
    }
}

/// A `ZeroToOne` numeral whose digit runs are at most eighteen characters
/// long never lexes to an `Error` marker.
proof fn lemma_zto_no_error(s: Seq<char>, pos: int)
    requires
        0 <= pos < s.len(),
        is_digit(s[pos]),
        forall|p: int| #![trigger digit_run_len(s, p)] digit_run_len(s, p) <= 18,
    ensures
        !(zto_lexeme(s, pos) is Error),
{
    if s[pos] == '1' {
    } else {
        let zr = 1 + zeros_extra(s, pos + 1);
        let q = pos + zr;
        if q < s.len() && s[q] == '.' && q + 1 < s.len() && is_digit(s[q + 1]) {
            lemma_digit_extra_chars(s, q + 2);
            let dlen = 1 + digit_extra(s, q + 2);
            assert(digit_run_len(s, q + 1) == dlen);
            assert(dlen <= 18);
            assert(q + 1 + dlen <= s.len());
            let digits = s.subrange(q + 1, q + 1 + dlen);
            lemma_strip_last(digits);
            assert(digits.len() == dlen);
            assert(strip_len(digits) <= 18);
        }
    }
}

/// The fraction built for a `ZeroToOne` numeral is canonical.
proof fn lemma_zto_lexeme_wf(s: Seq<char>, pos: int)
    requires
        0 <= pos < s.len(),
        is_digit(s[pos]),
    ensures
        lexeme_wf(zto_lexeme(s, pos)),
{
    lemma_pow10_values();
    if s[pos] == '1' {
    } else {
        let zr = 1 + zeros_extra(s, pos + 1);
        let q = pos + zr;
        if q < s.len() && s[q] == '.' && q + 1 < s.len() && is_digit(s[q + 1]) {
            lemma_digit_extra_chars(s, q + 2);
            let dlen = 1 + digit_extra(s, q + 2);
            assert(q + 1 + dlen <= s.len());
            let digits = s.subrange(q + 1, q + 1 + dlen);
            let e = strip_len(digits);
            lemma_strip_last(digits);
            assert(e <= dlen);
            if e <= 18 {
                let kept = digits.take(e as int);
                assert(forall|i: int| 0 <= i < dlen ==> digits[i] == s[q + 1 + i]);
                assert(forall|i: int| 0 <= i < dlen ==> is_digit(#[trigger] digits[i]));
                assert(forall|i: int| 0 <= i < kept.len() ==> kept[i] == digits[i]);
                assert(forall|i: int| 0 <= i < kept.len() ==> is_digit(#[trigger] kept[i]));
                lemma_digits_val_bound(kept);
                lemma_pow10_mono(kept.len(), 18);
                if e > 0 {
                    let lc = kept.last();
                    assert(lc == kept[kept.len() - 1]);
                    assert(is_digit(kept[kept.len() - 1]));
                    assert(lc == digits[e - 1]);
                    assert(lc as u32 != 48);
                    assert(digits_val(kept) == digits_val(kept.drop_last()) * 10 + digit_val(lc));
                    assert(1 <= digit_val(lc) <= 9);
                }
            }
        }
    }
}

} // verus!

use vstd::prelude::*;
use crate::token::{Lexeme, LexemeLocation, Position, Token, TokenExt};

verus! {

/// Unicode `White_Space` characters: they separate tokens.
pub open spec fn is_whitespace(c: char) -> bool {
    let u = c as u32;
    (9 <= u <= 13) || u == 32 || u == 0x85 || u == 0xa0 || u == 0x1680 || (0x2000 <= u
        <= 0x200a) || u == 0x2028 || u == 0x2029 || u == 0x202f || u == 0x205f || u == 0x3000
}

pub open spec fn is_digit(c: char) -> bool {
    '0' <= c <= '9'
}

pub open spec fn is_ident_start(c: char) -> bool {
    ('a' <= c <= 'z') || ('A' <= c <= 'Z') || c == '_'
}

pub open spec fn is_ident_char(c: char) -> bool {
    is_ident_start(c) || is_digit(c)
}

pub fn whitespace(c: char) -> (r: bool)
    ensures
        r == is_whitespace(c),
{
    let u = c as u32;
    (9 <= u && u <= 13) || u == 32 || u == 0x85 || u == 0xa0 || u == 0x1680 || (0x2000 <= u && u
        <= 0x200a) || u == 0x2028 || u == 0x2029 || u == 0x202f || u == 0x205f || u == 0x3000
}

fn digit(c: char) -> (r: bool)
    ensures
        r == is_digit(c),
{
    '0' <= c && c <= '9'
}

fn ident_start(c: char) -> (r: bool)
    ensures
        r == is_ident_start(c),
{
    ('a' <= c && c <= 'z') || ('A' <= c && c <= 'Z') || c == '_'
}

fn ident_char(c: char) -> (r: bool)
    ensures
        r == is_ident_char(c),
{
    ident_start(c) || digit(c)
}

pub open spec fn all_digits(s: Seq<char>) -> bool {
    forall|i: int| 0 <= i < s.len() ==> is_digit(#[trigger] s[i])
}

/// The number that a run of decimal digits denotes.
pub open spec fn decimal(s: Seq<char>) -> int
    decreases s.len(),
{
    if s.len() == 0 {
        0
    } else {
        decimal(s.drop_last()) * 10 + (s.last() as u32 - '0' as u32)
    }
}

/// `[+]?[0-9]+`: the integer numerals, as 64-bit parsing accepts them
/// once a leading minus sign is ruled out.
pub open spec fn is_int_text(t: Seq<char>) -> bool {
    if t.len() > 0 && t[0] == '+' {
        t.len() > 1 && all_digits(t.drop_first())
    } else {
        t.len() > 0 && all_digits(t)
    }
}

pub open spec fn int_digits(t: Seq<char>) -> Seq<char> {
    if t.len() > 0 && t[0] == '+' {
        t.drop_first()
    } else {
        t
    }
}

/// An integer numeral whose value fits in an `i64`.
pub open spec fn is_int_numeral(t: Seq<char>) -> bool {
    is_int_text(t) && decimal(int_digits(t)) <= i64::MAX
}

/// The code of `c` with an upper-case ASCII letter lowered.
pub open spec fn lower(c: char) -> int {
    if 'A' <= c <= 'Z' {
        (c as u32) + 32
    } else {
        c as u32 as int
    }
}

pub open spec fn same_ignoring_case(s: Seq<char>, w: Seq<char>) -> bool {
    s.len() == w.len() && forall|i: int| 0 <= i < s.len() ==> lower(#[trigger] s[i]) == w[i] as u32
}

pub open spec fn is_special_float(b: Seq<char>) -> bool {
    same_ignoring_case(b, seq!['i', 'n', 'f']) || same_ignoring_case(
        b,
        seq!['i', 'n', 'f', 'i', 'n', 'i', 't', 'y'],
    ) || same_ignoring_case(b, seq!['n', 'a', 'n'])
}

pub open spec fn is_exp_mark(c: char) -> bool {
    c == 'e' || c == 'E'
}

/// Digits with at most one decimal point, and at least one digit.
pub open spec fn is_mantissa(m: Seq<char>) -> bool {
    &&& forall|i: int| 0 <= i < m.len() ==> is_digit(#[trigger] m[i]) || m[i] == '.'
    &&& forall|i: int, j: int|
        0 <= i < m.len() && 0 <= j < m.len() && #[trigger] m[i] == '.' && #[trigger] m[j] == '.'
            ==> i == j
    &&& exists|i: int| 0 <= i < m.len() && is_digit(#[trigger] m[i])
}

pub open spec fn is_exponent(x: Seq<char>) -> bool {
    if x.len() > 0 && (x[0] == '+' || x[0] == '-') {
        x.len() > 1 && all_digits(x.drop_first())
    } else {
        x.len() > 0 && all_digits(x)
    }
}

pub open spec fn is_decimal_number(b: Seq<char>) -> bool {
    exists|k: int|
        0 <= k <= b.len() && is_mantissa(#[trigger] b.take(k)) && (k == b.len() || (is_exp_mark(
            b[k],
        ) && is_exponent(b.skip(k + 1))))
}

/// The float numerals that 64-bit float parsing accepts, without a leading
/// minus sign: `[+]? (inf | infinity | nan | Number)`, the words in any case.
pub open spec fn is_float_numeral(t: Seq<char>) -> bool {
    let b = if t.len() > 0 && t[0] == '+' {
        t.drop_first()
    } else {
        t
    };
    is_special_float(b) || is_decimal_number(b)
}

fn lower_char(c: char) -> (r: u32)
    ensures
        r == lower(c),
{
    if 'A' <= c && c <= 'Z' {
        (c as u32) + 32
    } else {
        c as u32
    }
}

/// Whether `s[lo..hi]` equals `w` when upper-case ASCII letters are lowered.
fn matches_word(s: &[char], lo: usize, hi: usize, w: &[char]) -> (r: bool)
    requires
        lo <= hi <= s@.len(),
    ensures
        r == same_ignoring_case(s@.subrange(lo as int, hi as int), w@),
{
    if hi - lo != w.len() {
        return false;
    }
    let mut i: usize = 0;
    while i < w.len()
        invariant
            lo <= hi <= s@.len(),
            hi - lo == w@.len(),
            i <= w@.len(),
            forall|j: int| 0 <= j < i ==> lower(#[trigger] s@[lo + j]) == w@[j] as u32,
        decreases w@.len() - i,
    {
        if lower_char(s[lo + i]) != w[i] as u32 {
            assert(lower(s@.subrange(lo as int, hi as int)[i as int]) != w@[i as int] as u32);
            return false;
        }
        i = i + 1;
    }
    assert forall|j: int| 0 <= j < hi - lo implies lower(
        #[trigger] s@.subrange(lo as int, hi as int)[j],
    ) == w@[j] as u32 by {
        assert(s@.subrange(lo as int, hi as int)[j] == s@[lo + j]);
    }
    true
}

fn digits_from(s: &[char], lo: usize, hi: usize) -> (r: bool)
    requires
        lo <= hi <= s@.len(),
    ensures
        r == all_digits(s@.subrange(lo as int, hi as int)),
{
    let mut i: usize = lo;
    while i < hi
        invariant
            lo <= i <= hi <= s@.len(),
            forall|j: int| lo <= j < i ==> is_digit(#[trigger] s@[j]),
        decreases hi - i,
    {
        if !digit(s[i]) {
            assert(!is_digit(s@.subrange(lo as int, hi as int)[i - lo]));
            return false;
        }
        i = i + 1;
    }
    assert forall|j: int| 0 <= j < hi - lo implies is_digit(
        #[trigger] s@.subrange(lo as int, hi as int)[j],
    ) by {
        assert(s@.subrange(lo as int, hi as int)[j] == s@[lo + j]);
    }
    true
}

/// The value of the integer numeral `s[lo..hi]`, if it is one and fits in an `i64`.
fn int_numeral(s: &[char], lo: usize, hi: usize) -> (r: Option<i64>)
    requires
        lo <= hi <= s@.len(),
    ensures
        r is Some <==> is_int_numeral(s@.subrange(lo as int, hi as int)),
        r matches Some(v) ==> v == decimal(int_digits(s@.subrange(lo as int, hi as int))),
{
    let ghost t = s@.subrange(lo as int, hi as int);
    let start: usize = if lo < hi && s[lo] == '+' {
        lo + 1
    } else {
        lo
    };
    assert(int_digits(t) =~= s@.subrange(start as int, hi as int));
    if start >= hi {
        return None;
    }
    let cap: u128 = 0x8000_0000_0000_0000;
    let mut acc: u128 = 0;
    let mut i: usize = start;
    while i < hi
        invariant
            lo <= start < hi <= s@.len(),
            start <= i <= hi,
            int_digits(t) == s@.subrange(start as int, hi as int),
            t == s@.subrange(lo as int, hi as int),
            cap == i64::MAX + 1,
            all_digits(s@.subrange(start as int, i as int)),
            decimal(s@.subrange(start as int, i as int)) >= 0,
            acc == if decimal(s@.subrange(start as int, i as int)) >= cap {
                cap as int
            } else {
                decimal(s@.subrange(start as int, i as int))
            },
        decreases hi - i,
    {
        let c = s[i];
        if !digit(c) {
            assert(!is_digit(s@.subrange(start as int, hi as int)[i - start]));
            return None;
        }
        let ghost prev = s@.subrange(start as int, i as int);
        let ghost next = s@.subrange(start as int, i + 1);
        assert(next.drop_last() =~= prev);
        assert(all_digits(next)) by {
            assert forall|j: int| 0 <= j < next.len() implies is_digit(#[trigger] next[j]) by {
                if j < prev.len() {
                    assert(next[j] == prev[j]);
                }
            }
        }
        let d = (c as u32 - '0' as u32) as u128;
        assert(decimal(next) == decimal(prev) * 10 + d);
        let v = acc * 10 + d;
        acc = if v >= cap {
            cap
        } else {
            v
        };
        i = i + 1;
    }
    assert(all_digits(int_digits(t)));
    if acc >= cap {
        None
    } else {
        Some(acc as i64)
    }
}

/// Whether `s[lo..hi]` holds only digits with at most one point, and a digit.
fn mantissa(s: &[char], lo: usize, hi: usize) -> (r: bool)
    requires
        lo <= hi <= s@.len(),
    ensures
        r == is_mantissa(s@.subrange(lo as int, hi as int)),
{
    let ghost m = s@.subrange(lo as int, hi as int);
    let mut dot: Option<usize> = None;
    let mut digit_at: Option<usize> = None;
    let mut i: usize = lo;
    while i < hi
        invariant
            lo <= i <= hi <= s@.len(),
            m == s@.subrange(lo as int, hi as int),
            forall|j: int| lo <= j < i ==> is_digit(#[trigger] s@[j]) || s@[j] == '.',
            dot matches Some(p) ==> lo <= p < i && s@[p as int] == '.',
            dot is None ==> forall|j: int| lo <= j < i ==> s@[j] != '.',
            dot matches Some(p) ==> forall|j: int| lo <= j < i && s@[j] == '.' ==> j == p,
            digit_at matches Some(p) ==> lo <= p < i && is_digit(s@[p as int]),
            digit_at is None ==> forall|j: int| lo <= j < i ==> !is_digit(s@[j]),
        decreases hi - i,
    {
        let c = s[i];
        if c == '.' {
            if dot.is_some() {
                let p = dot.unwrap();
                assert(m[p - lo] == '.' && m[i - lo] == '.');
                return false;
            }
            dot = Some(i);
        } else if digit(c) {
            digit_at = Some(i);
        } else {
            assert(!(is_digit(m[i - lo]) || m[i - lo] == '.'));
            return false;
        }
        i = i + 1;
    }
    assert forall|j: int| 0 <= j < m.len() implies is_digit(#[trigger] m[j]) || m[j] == '.' by {
        assert(m[j] == s@[lo + j]);
    }
    assert forall|a: int, b: int|
        0 <= a < m.len() && 0 <= b < m.len() && #[trigger] m[a] == '.' && #[trigger] m[b]
            == '.' implies a == b by {
        assert(m[a] == s@[lo + a]);
        assert(m[b] == s@[lo + b]);
    }
    match digit_at {
        Some(p) => {
            assert(m[p - lo] == s@[p as int]);
            assert(is_digit(m[p - lo]));
            true
        },
        None => {
            assert forall|j: int| 0 <= j < m.len() implies !is_digit(#[trigger] m[j]) by {
                assert(m[j] == s@[lo + j]);
            }
            false
        },
    }
}

fn exponent(s: &[char], lo: usize, hi: usize) -> (r: bool)
    requires
        lo <= hi <= s@.len(),
    ensures
        r == is_exponent(s@.subrange(lo as int, hi as int)),
{
    let ghost x = s@.subrange(lo as int, hi as int);
    if lo < hi && (s[lo] == '+' || s[lo] == '-') {
        assert(x.drop_first() =~= s@.subrange(lo + 1, hi as int));
        lo + 1 < hi && digits_from(s, lo + 1, hi)
    } else {
        lo < hi && digits_from(s, lo, hi)
    }
}

/// Whether `s[lo..hi]` is a mantissa with an optional exponent.
fn decimal_number(s: &[char], lo: usize, hi: usize) -> (r: bool)
    requires
        lo <= hi <= s@.len(),
    ensures
        r == is_decimal_number(s@.subrange(lo as int, hi as int)),
{
    let ghost b = s@.subrange(lo as int, hi as int);
    let mut k: usize = lo;
    while k < hi && !(s[k] == 'e' || s[k] == 'E')
        invariant
            lo <= k <= hi <= s@.len(),
            forall|j: int| lo <= j < k ==> !is_exp_mark(#[trigger] s@[j]),
        decreases hi - k,
    {
        k = k + 1;
    }
    let ghost kr = k - lo;
    assert(b.take(kr) =~= s@.subrange(lo as int, k as int));
    let r = if k == hi {
        mantissa(s, lo, k)
    } else {
        assert(b.skip(kr + 1) =~= s@.subrange(k + 1, hi as int));
        mantissa(s, lo, k) && exponent(s, k + 1, hi)
    };
    if r {
        assert(is_mantissa(b.take(kr)));
    } else {
        assert forall|k2: int|
            0 <= k2 <= b.len() && is_mantissa(#[trigger] b.take(k2)) implies !(k2 == b.len() || (
            is_exp_mark(b[k2]) && is_exponent(b.skip(k2 + 1)))) by {
            if k2 < kr {
                assert(!is_exp_mark(b[k2]));
            } else if k2 > kr {
                assert(b.take(k2)[kr] == s@[k as int]);
                assert(is_exp_mark(s@[k as int]));
            }
        }
    }
    r
}

fn special_float(s: &[char], lo: usize, hi: usize) -> (r: bool)
    requires
        lo <= hi <= s@.len(),
    ensures
        r == is_special_float(s@.subrange(lo as int, hi as int)),
{
    let inf = ['i', 'n', 'f'];
    let infinity = ['i', 'n', 'f', 'i', 'n', 'i', 't', 'y'];
    let nan = ['n', 'a', 'n'];
    assert(inf@ == seq!['i', 'n', 'f']);
    assert(infinity@ == seq!['i', 'n', 'f', 'i', 'n', 'i', 't', 'y']);
    assert(nan@ == seq!['n', 'a', 'n']);
    matches_word(s, lo, hi, inf.as_slice()) || matches_word(s, lo, hi, infinity.as_slice())
        || matches_word(s, lo, hi, nan.as_slice())
}

/// Whether `s[lo..hi]` is a float numeral.
fn float_numeral(s: &[char], lo: usize, hi: usize) -> (r: bool)
    requires
        lo <= hi <= s@.len(),
    ensures
        r == is_float_numeral(s@.subrange(lo as int, hi as int)),
{
    let ghost t = s@.subrange(lo as int, hi as int);
    let start: usize = if lo < hi && s[lo] == '+' {
        lo + 1
    } else {
        lo
    };
    assert((if t.len() > 0 && t[0] == '+' {
        t.drop_first()
    } else {
        t
    }) =~= s@.subrange(start as int, hi as int));
    special_float(s, start, hi) || decimal_number(s, start, hi)
}

/// The number of fixed tokens: brackets, operators, keywords, `true`,
/// `false`, `nil` and `;`.
pub const STATIC_COUNT: usize = 31;

/// The text of the fixed token with index `i`.
pub open spec fn static_text(i: usize) -> Seq<char> {
    match i {
        0 => seq!['('],
        1 => seq![')'],
        2 => seq!['{'],
        3 => seq!['}'],
        4 => seq!['['],
        5 => seq![']'],
        6 => seq![','],
        7 => seq!['.'],
        8 => seq!['-'],
        9 => seq!['+'],
        10 => seq!['/'],
        11 => seq!['*'],
        12 => seq!['='],
        13 => seq!['=', '='],
        14 => seq!['!'],
        15 => seq!['!', '='],
        16 => seq!['>'],
        17 => seq!['>', '='],
        18 => seq!['<'],
        19 => seq!['<', '='],
        20 => seq!['f', 'n'],
        21 => seq!['r', 'e', 't', 'u', 'r', 'n'],
        22 => seq!['l', 'e', 't'],
        23 => seq!['i', 'f'],
        24 => seq!['e', 'l', 's', 'e'],
        25 => seq!['f', 'o', 'r'],
        26 => seq!['w', 'h', 'i', 'l', 'e'],
        27 => seq!['t', 'r', 'u', 'e'],
        28 => seq!['f', 'a', 'l', 's', 'e'],
        29 => seq!['n', 'i', 'l'],
        30 => seq![';'],
        _ => Seq::empty(),
    }
}

/// The token that the fixed text with index `i` stands for.
pub open spec fn static_token(i: usize) -> Token {
    match i {
        0 => Token::ParenLeft,
        1 => Token::ParenRight,
        2 => Token::CurlyLeft,
        3 => Token::CurlyRight,
        4 => Token::SquareLeft,
        5 => Token::SquareRight,
        6 => Token::Comma,
        7 => Token::Dot,
        8 => Token::Minus,
        9 => Token::Plus,
        10 => Token::Slash,
        11 => Token::Star,
        12 => Token::Equal,
        13 => Token::EqualEqual,
        14 => Token::Bang,
        15 => Token::BangEqual,
        16 => Token::Greater,
        17 => Token::GreaterEqual,
        18 => Token::Less,
        19 => Token::LessEqual,
        20 => Token::Function,
        21 => Token::Return,
        22 => Token::Let,
        23 => Token::If,
        24 => Token::Else,
        25 => Token::For,
        26 => Token::While,
        27 => Token::Bool(true),
        28 => Token::Bool(false),
        29 => Token::Nil,
        30 => Token::Semicolon,
        _ => Token::Semicolon,
    }
}

fn static_entry(i: usize) -> (r: (Vec<char>, Token))
    requires
        i < STATIC_COUNT,
    ensures
        r.0@ == static_text(i),
        r.1 == static_token(i),
{
    match i {
        0 => (vec!['('], Token::ParenLeft),
        1 => (vec![')'], Token::ParenRight),
        2 => (vec!['{'], Token::CurlyLeft),
        3 => (vec!['}'], Token::CurlyRight),
        4 => (vec!['['], Token::SquareLeft),
        5 => (vec![']'], Token::SquareRight),
        6 => (vec![','], Token::Comma),
        7 => (vec!['.'], Token::Dot),
        8 => (vec!['-'], Token::Minus),
        9 => (vec!['+'], Token::Plus),
        10 => (vec!['/'], Token::Slash),
        11 => (vec!['*'], Token::Star),
        12 => (vec!['='], Token::Equal),
        13 => (vec!['=', '='], Token::EqualEqual),
        14 => (vec!['!'], Token::Bang),
        15 => (vec!['!', '='], Token::BangEqual),
        16 => (vec!['>'], Token::Greater),
        17 => (vec!['>', '='], Token::GreaterEqual),
        18 => (vec!['<'], Token::Less),
        19 => (vec!['<', '='], Token::LessEqual),
        20 => (vec!['f', 'n'], Token::Function),
        21 => (vec!['r', 'e', 't', 'u', 'r', 'n'], Token::Return),
        22 => (vec!['l', 'e', 't'], Token::Let),
        23 => (vec!['i', 'f'], Token::If),
        24 => (vec!['e', 'l', 's', 'e'], Token::Else),
        25 => (vec!['f', 'o', 'r'], Token::For),
        26 => (vec!['w', 'h', 'i', 'l', 'e'], Token::While),
        27 => (vec!['t', 'r', 'u', 'e'], Token::Bool(true)),
        28 => (vec!['f', 'a', 'l', 's', 'e'], Token::Bool(false)),
        29 => (vec!['n', 'i', 'l'], Token::Nil),
        30 => (vec![';'], Token::Semicolon),
        _ => (vec![';'], Token::Semicolon),
    }
}

/// The recognizers that propose candidate tokens, in the order that breaks
/// ties between candidates of equal length: fixed tokens, identifiers,
/// strings, integers, floats.
#[derive(Debug, Clone, Copy, PartialEq, Eq)]
pub enum Recognizer {
    Static(usize),
    Identifier,
    Str,
    Integer,
    Float,
}

pub open spec fn rank(r: Recognizer) -> int {
    match r {
        Recognizer::Static(_) => 0,
        Recognizer::Identifier => 1,
        Recognizer::Str => 2,
        Recognizer::Integer => 3,
        Recognizer::Float => 4,
    }
}

/// Recognizer `r` proposes the first `n` characters of `s` as a token.
pub open spec fn recognizes(s: Seq<char>, r: Recognizer, n: int) -> bool {
    &&& 0 < n <= s.len()
    &&& match r {
        Recognizer::Static(i) => i < STATIC_COUNT && s.take(n) == static_text(i),
        Recognizer::Identifier => {
            &&& is_ident_start(s[0])
            &&& forall|j: int| 0 <= j < n ==> is_ident_char(#[trigger] s[j])
            &&& n == s.len() || !is_ident_char(s[n])
        },
        Recognizer::Str => {
            &&& n >= 2
            &&& s[0] == '"'
            &&& s[n - 1] == '"'
            &&& forall|j: int| 0 < j < n - 1 ==> #[trigger] s[j] != '"'
        },
        Recognizer::Integer => is_int_numeral(s.take(n)),
        Recognizer::Float => is_float_numeral(s.take(n)),
    }
}

/// The candidate of `r` and length `n` is the one consumed: no candidate is
/// longer, and none of equal length comes from an earlier recognizer.
pub open spec fn wins(s: Seq<char>, r: Recognizer, n: int) -> bool {
    &&& recognizes(s, r, n)
    &&& forall|r2: Recognizer, n2: int|
        #[trigger] recognizes(s, r2, n2) ==> n2 < n || (n2 == n && rank(r) <= rank(r2))
}

/// `t` is the token that recognizer `r` makes of the text `text`.
pub open spec fn denotes(t: Token, r: Recognizer, text: Seq<char>) -> bool {
    match r {
        Recognizer::Static(i) => t == static_token(i),
        Recognizer::Identifier => t matches Token::Identifier(x) && x@ == text,
        Recognizer::Str => t matches Token::Str(x) && x@ == text.subrange(1, text.len() - 1),
        Recognizer::Integer => t matches Token::Integer(v) && v == decimal(int_digits(text)),
        Recognizer::Float => t matches Token::Float(x) && x@ == text,
    }
}

/// Relies on `String::push`: appends one character.
#[verifier::external_body]
fn push_char(s: &mut String, c: char)
    ensures
        final(s)@ == old(s)@.push(c),
{
    s.push(c)
}

/// The string of the characters `s[lo..hi]`.
pub fn string_of(s: &[char], lo: usize, hi: usize) -> (r: String)
    requires
        lo <= hi <= s@.len(),
    ensures
        r@ == s@.subrange(lo as int, hi as int),
{
    let mut r = String::new();
    let mut i: usize = lo;
    while i < hi
        invariant
            lo <= i <= hi <= s@.len(),
            r@ == s@.subrange(lo as int, i as int),
        decreases hi - i,
    {
        push_char(&mut r, s[i]);
        assert(s@.subrange(lo as int, i + 1) =~= s@.subrange(lo as int, i as int).push(s@[i as int]));
        i = i + 1;
    }
    r
}

fn prefix_is(s: &[char], pos: usize, w: &Vec<char>) -> (r: bool)
    requires
        pos <= s@.len(),
    ensures
        r == (pos + w@.len() <= s@.len() && s@.subrange(pos as int, pos + w@.len()) == w@),
{
    if w.len() > s.len() - pos {
        return false;
    }
    let mut i: usize = 0;
    while i < w.len()
        invariant
            pos + w@.len() <= s@.len(),
            s@.len() <= usize::MAX,
            i <= w@.len(),
            forall|j: int| 0 <= j < i ==> s@[pos + j] == #[trigger] w@[j],
        decreases w@.len() - i,
    {
        if s[pos + i] != w[i] {
            assert(s@.subrange(pos as int, pos + w@.len())[i as int] != w@[i as int]);
            return false;
        }
        i = i + 1;
    }
    assert(s@.subrange(pos as int, pos + w@.len()) =~= w@);
    true
}

pub open spec fn rest(s: Seq<char>, pos: int) -> Seq<char> {
    s.subrange(pos, s.len() as int)
}

proof fn lemma_rest_take(s: Seq<char>, pos: int, n: int)
    requires
        0 <= pos <= s.len(),
        0 <= n <= s.len() - pos,
    ensures
        rest(s, pos).take(n) == s.subrange(pos, pos + n),
{
    assert(rest(s, pos).take(n) =~= s.subrange(pos, pos + n));
}

/// The longest fixed token at `pos`, as its index and length.
fn longest_static(s: &[char], pos: usize) -> (r: Option<(usize, usize)>)
    requires
        pos < s@.len(),
    ensures
        r matches Some((i, n)) ==> recognizes(rest(s@, pos as int), Recognizer::Static(i), n as int),
        r matches Some((i, n)) ==> forall|i2: usize, n2: int|
            #[trigger] recognizes(rest(s@, pos as int), Recognizer::Static(i2), n2) ==> n2 <= n,
        r is None ==> forall|i2: usize, n2: int|
            !#[trigger] recognizes(rest(s@, pos as int), Recognizer::Static(i2), n2),
{
    let ghost t = rest(s@, pos as int);
    let mut best: Option<(usize, usize)> = None;
    let mut i: usize = 0;
    while i < STATIC_COUNT
        invariant
            pos < s@.len(),
            t == rest(s@, pos as int),
            i <= STATIC_COUNT,
            best matches Some((k, n)) ==> recognizes(t, Recognizer::Static(k), n as int),
            best matches Some((k, n)) ==> forall|i2: usize, n2: int|
                i2 < i && #[trigger] recognizes(t, Recognizer::Static(i2), n2) ==> n2 <= n,
            best is None ==> forall|i2: usize, n2: int|
                i2 < i ==> !#[trigger] recognizes(t, Recognizer::Static(i2), n2),
        decreases STATIC_COUNT - i,
    {
        let (text, _) = static_entry(i);
        let found = prefix_is(s, pos, &text);
        proof {
            assert(static_text(i).len() > 0);
            if pos + text@.len() <= s@.len() {
                lemma_rest_take(s@, pos as int, text@.len() as int);
            }
            assert forall|n2: int| #[trigger] recognizes(t, Recognizer::Static(i), n2) implies found
                && n2 == text@.len() by {
                assert(t.take(n2).len() == n2);
                lemma_rest_take(s@, pos as int, n2);
            }
        }
        if found {
            let n = text.len();
            match best {
                Some((_, m)) => {
                    if n > m {
                        best = Some((i, n));
                    }
                },
                None => {
                    best = Some((i, n));
                },
            }
        }
        i = i + 1;
    }
    best
}

/// The length of the identifier at `pos`, if one starts there.
fn identifier_len(s: &[char], pos: usize) -> (r: Option<usize>)
    requires
        pos < s@.len(),
    ensures
        r matches Some(n) ==> recognizes(rest(s@, pos as int), Recognizer::Identifier, n as int),
        forall|n2: int| #[trigger]
            recognizes(rest(s@, pos as int), Recognizer::Identifier, n2) ==> r == Some(n2 as usize),
{
    let ghost t = rest(s@, pos as int);
    if !ident_start(s[pos]) {
        return None;
    }
    let mut k: usize = pos + 1;
    while k < s.len() && ident_char(s[k])
        invariant
            pos < k <= s@.len(),
            forall|j: int| pos <= j < k ==> is_ident_char(#[trigger] s@[j]),
        decreases s@.len() - k,
    {
        k = k + 1;
    }
    let n = k - pos;
    assert forall|n2: int| #[trigger] recognizes(t, Recognizer::Identifier, n2) implies n2 == n by {
        if n2 < n {
            assert(t[n2] == s@[pos + n2]);
        } else if n2 > n {
            assert(t[n as int] == s@[k as int]);
        }
    }
    Some(n)
}

/// The length of the string literal at `pos`, quotes included, if one starts there.
fn string_len(s: &[char], pos: usize) -> (r: Option<usize>)
    requires
        pos < s@.len(),
    ensures
        r matches Some(n) ==> recognizes(rest(s@, pos as int), Recognizer::Str, n as int),
        r is None ==> forall|n2: int| !#[trigger] recognizes(rest(s@, pos as int), Recognizer::Str, n2),
        forall|n2: int| #[trigger]
            recognizes(rest(s@, pos as int), Recognizer::Str, n2) ==> r == Some(n2 as usize),
{
    let ghost t = rest(s@, pos as int);
    if s[pos] != '"' {
        return None;
    }
    let mut k: usize = pos + 1;
    while k < s.len() && s[k] != '"'
        invariant
            pos < k <= s@.len(),
            forall|j: int| pos < j < k ==> #[trigger] s@[j] != '"',
        decreases s@.len() - k,
    {
        k = k + 1;
    }
    if k == s.len() {
        assert forall|n2: int| !#[trigger] recognizes(t, Recognizer::Str, n2) by {
            if 2 <= n2 <= t.len() {
                assert(t[n2 - 1] == s@[pos + n2 - 1]);
            }
        }
        return None;
    }
    let n = k - pos + 1;
    assert forall|n2: int| #[trigger] recognizes(t, Recognizer::Str, n2) implies n2 == n by {
        if n2 < n {
            assert(t[n2 - 1] == s@[pos + n2 - 1]);
        } else if n2 > n {
            assert(t[n - 1] == s@[k as int]);
        }
    }
    Some(n)
}

proof fn lemma_int_no_whitespace(t: Seq<char>, j: int)
    requires
        is_int_numeral(t),
        0 <= j < t.len(),
    ensures
        !is_whitespace(t[j]),
{
    if t[0] == '+' {
        if j > 0 {
            assert(t.drop_first()[j - 1] == t[j]);
            assert(is_digit(t.drop_first()[j - 1]));
        }
    } else {
        assert(is_digit(t[j]));
    }
}

proof fn lemma_float_no_whitespace(t: Seq<char>, j: int)
    requires
        is_float_numeral(t),
        0 <= j < t.len(),
    ensures
        !is_whitespace(t[j]),
{
    let o: int = if t.len() > 0 && t[0] == '+' {
        1
    } else {
        0
    };
    let b = if t.len() > 0 && t[0] == '+' {
        t.drop_first()
    } else {
        t
    };
    if j >= o {
        let jj = j - o;
        assert(b[jj] == t[j]);
        if is_special_float(b) {
            let c = b[jj];
            assert(lower(c) == 'i' as u32 || lower(c) == 'n' as u32 || lower(c) == 'f' as u32
                || lower(c) == 't' as u32 || lower(c) == 'y' as u32 || lower(c) == 'a' as u32);
        } else {
            let k = choose|k: int|
                0 <= k <= b.len() && is_mantissa(#[trigger] b.take(k)) && (k == b.len() || (
                is_exp_mark(b[k]) && is_exponent(b.skip(k + 1))));
            if jj < k {
                assert(b.take(k)[jj] == b[jj]);
                assert(is_digit(b.take(k)[jj]) || b.take(k)[jj] == '.');
            } else if jj > k {
                let x = b.skip(k + 1);
                assert(x[jj - k - 1] == b[jj]);
                if x[0] == '+' || x[0] == '-' {
                    if jj - k - 1 > 0 {
                        assert(x.drop_first()[jj - k - 2] == x[jj - k - 1]);
                        assert(is_digit(x.drop_first()[jj - k - 2]));
                    }
                } else {
                    assert(is_digit(x[jj - k - 1]));
                }
            }
        }
    }
}

/// The end of the run of non-whitespace characters that starts at `pos`.
fn run_end(s: &[char], pos: usize) -> (r: usize)
    requires
        pos <= s@.len(),
    ensures
        pos <= r <= s@.len(),
        forall|j: int| pos <= j < r ==> !is_whitespace(#[trigger] s@[j]),
        r == s@.len() || is_whitespace(s@[r as int]),
{
    let mut k: usize = pos;
    while k < s.len() && !whitespace(s[k])
        invariant
            pos <= k <= s@.len(),
            forall|j: int| pos <= j < k ==> !is_whitespace(#[trigger] s@[j]),
        decreases s@.len() - k,
    {
        k = k + 1;
    }
    k
}

/// The longest integer numeral at `pos`, as its length and value.
fn longest_integer(s: &[char], pos: usize) -> (r: Option<(usize, i64)>)
    requires
        pos < s@.len(),
    ensures
        r matches Some((n, v)) ==> recognizes(rest(s@, pos as int), Recognizer::Integer, n as int)
            && v == decimal(int_digits(rest(s@, pos as int).take(n as int))),
        r matches Some((n, v)) ==> forall|n2: int|
            #[trigger] recognizes(rest(s@, pos as int), Recognizer::Integer, n2) ==> n2 <= n,
        r is None ==> forall|n2: int|
            !#[trigger] recognizes(rest(s@, pos as int), Recognizer::Integer, n2),
{
    let ghost t = rest(s@, pos as int);
    let end = run_end(s, pos);
    let mut best: Option<(usize, i64)> = None;
    let mut k: usize = 0;
    while k < end - pos
        invariant
            pos < s@.len(),
            pos <= end <= s@.len(),
            0 <= k <= end - pos,
            t == rest(s@, pos as int),
            best matches Some((n, v)) ==> recognizes(t, Recognizer::Integer, n as int) && v
                == decimal(int_digits(t.take(n as int))),
            best matches Some((n, v)) ==> forall|n2: int|
                n2 <= k && #[trigger] recognizes(t, Recognizer::Integer, n2) ==> n2 <= n,
            best is None ==> forall|n2: int|
                n2 <= k ==> !#[trigger] recognizes(t, Recognizer::Integer, n2),
        decreases end - pos - k,
    {
        let n = k + 1;
        let found = int_numeral(s, pos, pos + n);
        proof {
            lemma_rest_take(s@, pos as int, n as int);
        }
        if let Some(v) = found {
            best = Some((n, v));
        }
        k = n;
    }
    proof {
        assert forall|n2: int| #[trigger] recognizes(t, Recognizer::Integer, n2) implies n2 <= end
            - pos by {
            if n2 > end - pos {
                lemma_rest_take(s@, pos as int, n2);
                assert(t.take(n2)[end - pos] == s@[end as int]);
                lemma_int_no_whitespace(t.take(n2), end - pos);
            }
        }
    }
    best
}

/// The length of the longest float numeral at `pos`.
fn longest_float(s: &[char], pos: usize) -> (r: Option<usize>)
    requires
        pos < s@.len(),
    ensures
        r matches Some(n) ==> recognizes(rest(s@, pos as int), Recognizer::Float, n as int),
        r matches Some(n) ==> forall|n2: int|
            #[trigger] recognizes(rest(s@, pos as int), Recognizer::Float, n2) ==> n2 <= n,
        r is None ==> forall|n2: int|
            !#[trigger] recognizes(rest(s@, pos as int), Recognizer::Float, n2),
{
    let ghost t = rest(s@, pos as int);
    let end = run_end(s, pos);
    let mut best: Option<usize> = None;
    let mut k: usize = 0;
    while k < end - pos
        invariant
            pos < s@.len(),
            pos <= end <= s@.len(),
            0 <= k <= end - pos,
            t == rest(s@, pos as int),
            best matches Some(n) ==> recognizes(t, Recognizer::Float, n as int),
            best matches Some(n) ==> forall|n2: int|
                n2 <= k && #[trigger] recognizes(t, Recognizer::Float, n2) ==> n2 <= n,
            best is None ==> forall|n2: int|
                n2 <= k ==> !#[trigger] recognizes(t, Recognizer::Float, n2),
        decreases end - pos - k,
    {
        let n = k + 1;
        let found = float_numeral(s, pos, pos + n);
        proof {
            lemma_rest_take(s@, pos as int, n as int);
        }
        if found {
            best = Some(n);
        }
        k = n;
    }
    proof {
        assert forall|n2: int| #[trigger] recognizes(t, Recognizer::Float, n2) implies n2 <= end
            - pos by {
            if n2 > end - pos {
                lemma_rest_take(s@, pos as int, n2);
                assert(t.take(n2)[end - pos] == s@[end as int]);
                lemma_float_no_whitespace(t.take(n2), end - pos);
            }
        }
    }
    best
}

fn longer(best: Option<(Recognizer, usize)>, n: usize) -> (r: bool)
    ensures
        r == (best is None || n > best->Some_0.1),
{
    match best {
        Some((_, m)) => n > m,
        None => true,
    }
}

/// The candidate that is consumed at `pos`: the longest, ties going to the
/// earlier recognizer.
pub fn select(s: &[char], pos: usize) -> (r: Option<(Recognizer, usize)>)
    requires
        pos < s@.len(),
    ensures
        r matches Some((k, n)) ==> wins(rest(s@, pos as int), k, n as int),
        r is None ==> forall|k: Recognizer, n: int| !#[trigger] recognizes(rest(s@, pos as int), k, n),
{
    let ghost t = rest(s@, pos as int);
    let st = longest_static(s, pos);
    let id = identifier_len(s, pos);
    let sl = string_len(s, pos);
    let it = longest_integer(s, pos);
    let fl = longest_float(s, pos);
    let mut best: Option<(Recognizer, usize)> = match st {
        Some((i, n)) => Some((Recognizer::Static(i), n)),
        None => None,
    };
    if let Some(n) = id {
        if longer(best, n) {
            best = Some((Recognizer::Identifier, n));
        }
    }
    if let Some(n) = sl {
        if longer(best, n) {
            best = Some((Recognizer::Str, n));
        }
    }
    if let Some((n, _)) = it {
        if longer(best, n) {
            best = Some((Recognizer::Integer, n));
        }
    }
    if let Some(n) = fl {
        if longer(best, n) {
            best = Some((Recognizer::Float, n));
        }
    }
    proof {
        if let Some((k, n)) = best {
            assert forall|k2: Recognizer, n2: int| #[trigger] recognizes(t, k2, n2) implies n2 < n
                || (n2 == n && rank(k) <= rank(k2)) by {
                match k2 {
                    Recognizer::Static(i2) => {
                        assert(recognizes(t, Recognizer::Static(i2), n2));
                    },
                    Recognizer::Identifier => {
                        assert(recognizes(t, Recognizer::Identifier, n2));
                    },
                    Recognizer::Str => {
                        assert(recognizes(t, Recognizer::Str, n2));
                    },
                    Recognizer::Integer => {
                        assert(recognizes(t, Recognizer::Integer, n2));
                    },
                    Recognizer::Float => {
                        assert(recognizes(t, Recognizer::Float, n2));
                    },
                }
            }
        } else {
            assert forall|k2: Recognizer, n2: int| !#[trigger] recognizes(t, k2, n2) by {
                match k2 {
                    Recognizer::Static(i2) => {
                        assert(!recognizes(t, Recognizer::Static(i2), n2));
                    },
                    Recognizer::Identifier => {
                        assert(!recognizes(t, Recognizer::Identifier, n2));
                    },
                    Recognizer::Str => {
                        assert(!recognizes(t, Recognizer::Str, n2));
                    },
                    Recognizer::Integer => {
                        assert(!recognizes(t, Recognizer::Integer, n2));
                    },
                    Recognizer::Float => {
                        assert(!recognizes(t, Recognizer::Float, n2));
                    },
                }
            }
        }
    }
    best
}

/// The token that recognizer `k` makes of the `n` characters at `pos`.
fn make_token(s: &[char], pos: usize, k: Recognizer, n: usize) -> (t: Token)
    requires
        pos <= s@.len(),
        recognizes(rest(s@, pos as int), k, n as int),
    ensures
        denotes(t, k, s@.subrange(pos as int, pos + n)),
{
    proof {
        lemma_rest_take(s@, pos as int, n as int);
        assert(pos + n <= s@.len() && s@.len() == s.len());
    }
    match k {
        Recognizer::Static(i) => static_entry(i).1,
        Recognizer::Identifier => Token::Identifier(string_of(s, pos, pos + n)),
        Recognizer::Str => {
            let r = string_of(s, pos + 1, pos + n - 1);
            assert(r@ =~= s@.subrange(pos as int, pos + n).subrange(1, n - 1));
            Token::Str(r)
        },
        Recognizer::Integer => {
            let v = int_numeral(s, pos, pos + n);
            Token::Integer(v.unwrap())
        },
        Recognizer::Float => Token::Float(string_of(s, pos, pos + n)),
    }
}

/// A character at which no recognizer proposes a token.
#[derive(Debug, Clone, Copy, PartialEq, Eq)]
pub enum Error {
    UnrecognizedCharacter { position: Position },
}

/// Where the tokens come from: an interactive line, or a file if one is named.
#[derive(Debug, Clone, PartialEq)]
pub struct AnalysisMeta {
    pub repl: bool,
    pub file: Option<String>,
}

impl AnalysisMeta {
    pub open spec fn location_of(&self, position: Position) -> LexemeLocation {
        if self.repl {
            LexemeLocation::Repl
        } else {
            LexemeLocation::File { path: self.file, position }
        }
    }

    /// The location recorded for a lexeme that starts at `position`.
    pub fn lexeme_location(&self, position: Position) -> (r: LexemeLocation)
        ensures
            r == self.location_of(position),
    {
        if self.repl {
            LexemeLocation::Repl
        } else {
            let path = match &self.file {
                Some(f) => Some(f.clone()),
                None => None,
            };
            LexemeLocation::File { path, position }
        }
    }
}

impl Default for AnalysisMeta {
    fn default() -> (r: Self)
        ensures
            !r.repl,
            r.file is None,
    {
        AnalysisMeta { repl: false, file: None }
    }
}

/// The first index at or after `i` that holds no whitespace.
pub open spec fn skip_whitespace(s: Seq<char>, i: int) -> int
    decreases s.len() - i,
{
    if 0 <= i < s.len() && is_whitespace(s[i]) {
        skip_whitespace(s, i + 1)
    } else {
        i
    }
}

/// The position reached from `p` after reading `text`: a newline starts the
/// next line, any other character moves one column on.
pub open spec fn advance(p: Position, text: Seq<char>) -> (int, int)
    decreases text.len(),
{
    if text.len() == 0 {
        (p.line as int, p.column as int)
    } else {
        let q = advance(p, text.drop_last());
        if text.last() == '\n' {
            (q.0 + 1, 0)
        } else {
            (q.0, q.1 + 1)
        }
    }
}

/// A tokenizer over a sequence of characters, producing one token at a time.
#[derive(Debug, Clone)]
pub struct Analyzer {
    /// The characters being tokenized.
    pub source: Vec<char>,
    /// The index of the next character to read.
    pub offset: usize,
    /// The line and column of that character.
    pub position: Position,
    pub meta: AnalysisMeta,
}

impl Analyzer {
    pub open spec fn wf(&self) -> bool {
        &&& self.offset <= self.source@.len()
        &&& self.position.line <= self.offset
        &&& self.position.column <= self.offset
    }

    pub fn new(source: Vec<char>, meta: AnalysisMeta) -> (r: Self)
        ensures
            r.wf(),
            r.source@ == source@,
            r.offset == 0,
            r.position == (Position { line: 0, column: 0 }),
            r.meta == meta,
    {
        Analyzer { source, offset: 0, position: Position { line: 0, column: 0 }, meta }
    }

    /// Skips whitespace, then consumes the winning candidate and returns it as
    /// a token. `None` once the source is used up; an error where no
    /// recognizer matches, after which the stream ends.
    pub fn next(&mut self) -> (r: Option<Result<TokenExt, Error>>)
        requires
            old(self).wf(),
        ensures
            final(self).wf(),
            final(self).source@ == old(self).source@,
            final(self).meta == old(self).meta,
            ({
                let s = old(self).source@;
                let p = skip_whitespace(s, old(self).offset as int);
                let q = advance(old(self).position, s.subrange(old(self).offset as int, p));
                &&& p == s.len() ==> r is None && final(self).offset == s.len()
                &&& p < s.len() ==> r is Some
                &&& r matches Some(Err(e)) ==> {
                    &&& p < s.len()
                    &&& forall|k: Recognizer, n: int| !#[trigger] recognizes(rest(s, p), k, n)
                    &&& e == Error::UnrecognizedCharacter {
                        position: Position { line: q.0 as usize, column: q.1 as usize },
                    }
                    &&& final(self).offset == s.len()
                }
                &&& r matches Some(Ok(te)) ==> exists|k: Recognizer, n: int|
                    {
                        &&& #[trigger] wins(rest(s, p), k, n)
                        &&& te.lexeme.content@ == s.subrange(p, p + n)
                        &&& denotes(te.token, k, s.subrange(p, p + n))
                        &&& te.lexeme.location == old(self).meta.location_of(
                            Position { line: q.0 as usize, column: q.1 as usize },
                        )
                        &&& final(self).offset == p + n
                        &&& final(self).position == (Position {
                            line: q.0 as usize,
                            column: (q.1 + n) as usize,
                        })
                    }
                &&& p < s.len() && (exists|k: Recognizer, n: int| recognizes(rest(s, p), k, n))
                    ==> r matches Some(Ok(_))
            }),
    {
        let ghost s = self.source@;
        let ghost start = self.offset;
        let ghost p0 = self.position;
        let ghost meta0 = self.meta;
        while self.offset < self.source.len() && whitespace(self.source[self.offset])
            invariant
                self.wf(),
                self.source@ == s,
                self.meta == meta0,
                start <= self.offset,
                skip_whitespace(s, self.offset as int) == skip_whitespace(s, start as int),
                advance(p0, s.subrange(start as int, self.offset as int)) == (
                    self.position.line as int,
                    self.position.column as int,
                ),
            decreases self.source@.len() - self.offset,
        {
            let ghost before = s.subrange(start as int, self.offset as int);
            assert(s.subrange(start as int, self.offset + 1).drop_last() =~= before);
            if self.source[self.offset] == '\n' {
                self.position = Position { line: self.position.line + 1, column: 0 };
            } else {
                self.position = Position {
                    line: self.position.line,
                    column: self.position.column + 1,
                };
            }
            self.offset = self.offset + 1;
        }
        if self.offset == self.source.len() {
            return None;
        }
        let here = self.position;
        assert(skip_whitespace(s, self.offset as int) == self.offset);
        match select(self.source.as_slice(), self.offset) {
            None => {
                self.offset = self.source.len();
                Some(Err(Error::UnrecognizedCharacter { position: here }))
            },
            Some((k, n)) => {
                proof {
                    lemma_rest_take(s, self.offset as int, n as int);
                }
                let token = make_token(self.source.as_slice(), self.offset, k, n);
                let content = string_of(self.source.as_slice(), self.offset, self.offset + n);
                let location = self.meta.lexeme_location(here);
                self.offset = self.offset + n;
                self.position = Position { line: here.line, column: here.column + n };
                let r = TokenExt { token, lexeme: Lexeme { content, location } };
                assert(wins(rest(s, skip_whitespace(s, start as int)), k, n as int));
                Some(Ok(r))
            },
        }
    }
}

/// The position that `advance` reaches, as a `Position`.
pub open spec fn position_of(q: (int, int)) -> Position {
    Position { line: q.0 as usize, column: q.1 as usize }
}

/// One step of tokenization from offset `off` at position `at`: whitespace is
/// skipped, the winning candidate becomes `te`, and reading resumes at offset
/// `next` and position `next_at`.
pub open spec fn step(
    s: Seq<char>,
    meta: AnalysisMeta,
    off: int,
    at: Position,
    te: TokenExt,
    next: int,
    next_at: Position,
) -> bool {
    let p = skip_whitespace(s, off);
    let q = advance(at, s.subrange(off, p));
    exists|k: Recognizer, n: int|
        {
            &&& #[trigger] wins(rest(s, p), k, n)
            &&& te.lexeme.content@ == s.subrange(p, p + n)
            &&& denotes(te.token, k, s.subrange(p, p + n))
            &&& te.lexeme.location == meta.location_of(position_of(q))
            &&& next == p + n
            &&& next_at == position_of((q.0, q.1 + n))
        }
}

/// Reading from offset `from` at position `from_at`, successive steps produce
/// `toks` and end at offset `to` and position `to_at`.
pub open spec fn reads(
    s: Seq<char>,
    meta: AnalysisMeta,
    from: int,
    from_at: Position,
    toks: Seq<TokenExt>,
    to: int,
    to_at: Position,
) -> bool
    decreases toks.len(),
{
    if toks.len() == 0 {
        to == from && to_at == from_at
    } else {
        exists|m: int, m_at: Position|
            #[trigger] step(s, meta, from, from_at, toks[0], m, m_at) && reads(
                s,
                meta,
                m,
                m_at,
                toks.drop_first(),
                to,
                to_at,
            )
    }
}

proof fn lemma_reads_push(
    s: Seq<char>,
    meta: AnalysisMeta,
    from: int,
    from_at: Position,
    toks: Seq<TokenExt>,
    mid: int,
    mid_at: Position,
    te: TokenExt,
    to: int,
    to_at: Position,
)
    requires
        reads(s, meta, from, from_at, toks, mid, mid_at),
        step(s, meta, mid, mid_at, te, to, to_at),
    ensures
        reads(s, meta, from, from_at, toks.push(te), to, to_at),
    decreases toks.len(),
{
    let t2 = toks.push(te);
    if toks.len() == 0 {
        assert(t2.drop_first() =~= Seq::<TokenExt>::empty());
        assert(reads(s, meta, to, to_at, t2.drop_first(), to, to_at));
        assert(t2[0] == te);
        assert(step(s, meta, from, from_at, t2[0], to, to_at));
    } else {
        let (m, m_at) = choose|m: int, m_at: Position|
            #[trigger] step(s, meta, from, from_at, toks[0], m, m_at) && reads(
                s,
                meta,
                m,
                m_at,
                toks.drop_first(),
                mid,
                mid_at,
            );
        lemma_reads_push(s, meta, m, m_at, toks.drop_first(), mid, mid_at, te, to, to_at);
        assert(t2.drop_first() =~= toks.drop_first().push(te));
        assert(t2[0] == toks[0]);
        assert(step(s, meta, from, from_at, t2[0], m, m_at));
    }
}

/// `v` is what successive steps read from the start of `s` until only
/// whitespace is left.
pub open spec fn tokenizes_to(s: Seq<char>, meta: AnalysisMeta, v: Seq<TokenExt>) -> bool {
    exists|end: int, end_at: Position|
        #[trigger] reads(s, meta, 0, Position { line: 0, column: 0 }, v, end, end_at)
            && skip_whitespace(s, end) == s.len()
}

/// After the tokens that successive steps read from the start of `s`, the
/// next non-whitespace character starts no candidate; `e` reports its position.
pub open spec fn fails_with(s: Seq<char>, meta: AnalysisMeta, e: Error) -> bool {
    exists|toks: Seq<TokenExt>, end: int, end_at: Position|
        {
            let p = skip_whitespace(s, end);
            &&& #[trigger] reads(s, meta, 0, Position { line: 0, column: 0 }, toks, end, end_at)
            &&& end <= p < s.len()
            &&& forall|k: Recognizer, n: int| !#[trigger] recognizes(rest(s, p), k, n)
            &&& e == Error::UnrecognizedCharacter {
                position: position_of(advance(end_at, s.subrange(end, p))),
            }
        }
}

/// Tokenizes the whole of `source`: the tokens that successive steps read
/// from the start until only whitespace is left, or an error at the first
/// non-whitespace character that no recognizer matches, with its position.
pub fn tokenize(source: Vec<char>, meta: AnalysisMeta) -> (r: Result<Vec<TokenExt>, Error>)
    ensures
        r matches Ok(v) ==> tokenizes_to(source@, meta, v@),
        r matches Err(e) ==> fails_with(source@, meta, e),
{
    let ghost s = source@;
    let ghost m = meta;
    let ghost start = Position { line: 0, column: 0 };
    let mut a = Analyzer::new(source, meta);
    let mut out: Vec<TokenExt> = Vec::new();
    assert(reads(s, m, 0, start, out@, 0, start));
    loop
        invariant
            a.wf(),
            a.source@ == s,
            a.meta == m,
            s == source@,
            m == meta,
            start == (Position { line: 0, column: 0 }),
            reads(s, m, 0, start, out@, a.offset as int, a.position),
        decreases s.len() - a.offset,
    {
        let ghost before = a.offset;
        let ghost before_at = a.position;
        proof {
            lemma_skip_whitespace(s, before as int);
        }
        match a.next() {
            None => {
                assert(reads(s, m, 0, start, out@, before as int, before_at));
                assert(tokenizes_to(s, m, out@));
                return Ok(out);
            },
            Some(Err(e)) => {
                assert(reads(s, m, 0, start, out@, before as int, before_at));
                assert(fails_with(s, m, e));
                return Err(e);
            },
            Some(Ok(te)) => {
                assert(step(s, m, before as int, before_at, te, a.offset as int, a.position));
                proof {
                    lemma_reads_push(
                        s,
                        m,
                        0,
                        start,
                        out@,
                        before as int,
                        before_at,
                        te,
                        a.offset as int,
                        a.position,
                    );
                }
                out.push(te);
            },
        }
    }
}

proof fn lemma_skip_whitespace(s: Seq<char>, i: int)
    requires
        0 <= i <= s.len(),
    ensures
        i <= skip_whitespace(s, i) <= s.len(),
        skip_whitespace(s, i) < s.len() ==> !is_whitespace(s[skip_whitespace(s, i)]),
    decreases s.len() - i,
{
    if i < s.len() && is_whitespace(s[i]) {
        lemma_skip_whitespace(s, i + 1);
    }
}

/// `(text, t)` is proposed by some recognizer at the start of `s`.
pub open spec fn proposed(s: Seq<char>, text: Seq<char>, t: Token) -> bool {
    exists|k: Recognizer, n: int|
        #[trigger] recognizes(s, k, n) && text == s.take(n) && denotes(t, k, text)
}

/// Some entry of `r` is the candidate of recognizer `k` with length `n`.
pub open spec fn lists(r: Seq<(String, Token)>, s: Seq<char>, k: Recognizer, n: int) -> bool {
    exists|j: int| 0 <= j < r.len() && (#[trigger] r[j]).0@ == s.take(n) && denotes(r[j].1, k, s.take(n))
}

pub open spec fn all_proposed(r: Seq<(String, Token)>, s: Seq<char>) -> bool {
    forall|j: int| 0 <= j < r.len() ==> proposed(s, (#[trigger] r[j]).0@, r[j].1)
}

/// Appends the candidate of `k` with length `n`, keeping what was listed.
fn add_candidate(out: &mut Vec<(String, Token)>, input: &[char], k: Recognizer, n: usize)
    requires
        recognizes(input@, k, n as int),
        all_proposed(old(out)@, input@),
    ensures
        all_proposed(final(out)@, input@),
        lists(final(out)@, input@, k, n as int),
        forall|k2: Recognizer, n2: int|
            lists(old(out)@, input@, k2, n2) ==> #[trigger] lists(final(out)@, input@, k2, n2),
{
    let ghost s = input@;
    proof {
        assert(rest(s, 0) =~= s);
        lemma_rest_take(s, 0, n as int);
    }
    let token = make_token(input, 0, k, n);
    let text = string_of(input, 0, n);
    let ghost before = out@;
    out.push((text, token));
    proof {
        let j = before.len() as int;
        assert(out@[j].0@ == s.take(n as int));
        assert(proposed(s, out@[j].0@, out@[j].1));
        assert forall|i: int| 0 <= i < out@.len() implies proposed(s, (#[trigger] out@[i]).0@, out@[i].1) by {
            if i < j {
                assert(out@[i] == before[i]);
            }
        }
        assert forall|k2: Recognizer, n2: int| lists(before, s, k2, n2) implies #[trigger] lists(out@, s, k2, n2) by {
            let i = choose|i: int| 0 <= i < before.len() && (#[trigger] before[i]).0@ == s.take(n2) && denotes(before[i].1, k2, s.take(n2));
            assert(out@[i] == before[i]);
        }
    }
}

/// Values that can be read from the start of a character sequence: every
/// reading that is possible there, with the text it takes.
pub trait Parse: Sized {
    fn parse_from(input: &[char]) -> Vec<(String, Self)>;
}

impl Parse for Token {
    fn parse_from(input: &[char]) -> Vec<(String, Token)> {
        Token::parse_from(input)
    }
}

impl Token {
    /// Every candidate at the start of `input`, recognizer by recognizer:
    /// fixed tokens in table order, the identifier, the string, then integer
    /// and float numerals from shortest to longest.
    pub fn parse_from(input: &[char]) -> (r: Vec<(String, Token)>)
        ensures
            all_proposed(r@, input@),
            forall|k: Recognizer, n: int| recognizes(input@, k, n) ==> #[trigger] lists(r@, input@, k, n),
    {
        let ghost s = input@;
        let mut out: Vec<(String, Token)> = Vec::new();
        if input.len() == 0 {
            return out;
        }
        proof {
            assert(rest(s, 0) =~= s);
        }
        let mut i: usize = 0;
        while i < STATIC_COUNT
            invariant
                s == input@,
                0 < s.len(),
                rest(s, 0) == s,
                i <= STATIC_COUNT,
                all_proposed(out@, s),
                forall|i2: usize, n2: int|
                    i2 < i && #[trigger] recognizes(s, Recognizer::Static(i2), n2) ==> lists(out@, s, Recognizer::Static(i2), n2),
            decreases STATIC_COUNT - i,
        {
            let (text, _) = static_entry(i);
            proof {
                assert(static_text(i).len() > 0);
                if text@.len() <= s.len() {
                    lemma_rest_take(s, 0, text@.len() as int);
                }
                assert forall|n2: int| #[trigger] recognizes(s, Recognizer::Static(i), n2) implies n2 == text@.len() && s.subrange(0, n2) == text@ by {
                    assert(s.take(n2).len() == n2);
                }
            }
            if prefix_is(input, 0, &text) {
                add_candidate(&mut out, input, Recognizer::Static(i), text.len());
            }
            i = i + 1;
        }
        if let Some(n) = identifier_len(input, 0) {
            add_candidate(&mut out, input, Recognizer::Identifier, n);
        }
        if let Some(n) = string_len(input, 0) {
            add_candidate(&mut out, input, Recognizer::Str, n);
        }
        let end = run_end(input, 0);
        let mut k: usize = 0;
        while k < end
            invariant
                s == input@,
                0 < s.len(),
                rest(s, 0) == s,
                end <= s.len(),
                forall|j: int| 0 <= j < end ==> !is_whitespace(#[trigger] s[j]),
                end == s.len() || is_whitespace(s[end as int]),
                k <= end,
                all_proposed(out@, s),
                forall|i2: usize, n2: int| #[trigger] recognizes(s, Recognizer::Static(i2), n2) ==> lists(out@, s, Recognizer::Static(i2), n2),
                forall|n2: int| #[trigger] recognizes(s, Recognizer::Identifier, n2) ==> lists(out@, s, Recognizer::Identifier, n2),
                forall|n2: int| #[trigger] recognizes(s, Recognizer::Str, n2) ==> lists(out@, s, Recognizer::Str, n2),
                forall|n2: int| n2 <= k && #[trigger] recognizes(s, Recognizer::Integer, n2) ==> lists(out@, s, Recognizer::Integer, n2),
            decreases end - k,
        {
            let n = k + 1;
            proof {
                lemma_rest_take(s, 0, n as int);
            }
            if int_numeral(input, 0, n).is_some() {
                add_candidate(&mut out, input, Recognizer::Integer, n);
            }
            k = n;
        }
        let mut k: usize = 0;
        while k < end
            invariant
                s == input@,
                0 < s.len(),
                rest(s, 0) == s,
                end <= s.len(),
                forall|j: int| 0 <= j < end ==> !is_whitespace(#[trigger] s[j]),
                end == s.len() || is_whitespace(s[end as int]),
                k <= end,
                all_proposed(out@, s),
                forall|i2: usize, n2: int| #[trigger] recognizes(s, Recognizer::Static(i2), n2) ==> lists(out@, s, Recognizer::Static(i2), n2),
                forall|n2: int| #[trigger] recognizes(s, Recognizer::Identifier, n2) ==> lists(out@, s, Recognizer::Identifier, n2),
                forall|n2: int| #[trigger] recognizes(s, Recognizer::Str, n2) ==> lists(out@, s, Recognizer::Str, n2),
                forall|n2: int| n2 <= end && #[trigger] recognizes(s, Recognizer::Integer, n2) ==> lists(out@, s, Recognizer::Integer, n2),
                forall|n2: int| n2 <= k && #[trigger] recognizes(s, Recognizer::Float, n2) ==> lists(out@, s, Recognizer::Float, n2),
            decreases end - k,
        {
            let n = k + 1;
            proof {
                lemma_rest_take(s, 0, n as int);
            }
            if float_numeral(input, 0, n) {
                add_candidate(&mut out, input, Recognizer::Float, n);
            }
            k = n;
        }
        proof {
            assert forall|k2: Recognizer, n2: int| recognizes(s, k2, n2) implies #[trigger] lists(out@, s, k2, n2) by {
                match k2 {
                    Recognizer::Integer => {
                        if n2 > end {
                            assert(s.take(n2)[end as int] == s[end as int]);
                            lemma_int_no_whitespace(s.take(n2), end as int);
                        }
                    },
                    Recognizer::Float => {
                        if n2 > end {
                            assert(s.take(n2)[end as int] == s[end as int]);
                            lemma_float_no_whitespace(s.take(n2), end as int);
                        }
                    },
                    _ => {},
                }
            }
        }
        out
    }
}

} // verus!

use vstd::prelude::*;
use vstd::string::*;
use crate::errors::CalculatorError;
use crate::rpn::{is_syntax_at, token_views};
use crate::token::{Op, Tok, TokView, Token};

verus! {

/// The character appended to the input to mark its end; it may not occur in the input.
pub const END_MARK: char = '$';

pub const UNICODE_MINUS: char = '\u{2212}';

pub const PI_SIGN: char = '\u{3c0}';

pub open spec fn is_digit(c: char) -> bool {
    '0' <= c <= '9'
}

pub open spec fn is_letter(c: char) -> bool {
    ('a' <= c <= 'z') || ('A' <= c <= 'Z')
}

/// Whitespace between tokens.
pub open spec fn is_blank(c: char) -> bool {
    c == ' ' || c == '\t' || c == '\n' || c == '\r'
}

/// The characters with the Unicode `White_Space` property.
pub open spec fn is_white_space(c: char) -> bool {
    ('\u{9}' <= c <= '\u{d}') || c == '\u{20}' || c == '\u{85}' || c == '\u{a0}' || c == '\u{1680}'
        || ('\u{2000}' <= c <= '\u{200a}') || c == '\u{2028}' || c == '\u{2029}' || c == '\u{202f}'
        || c == '\u{205f}' || c == '\u{3000}'
}

/// Both the ASCII hyphen and the Unicode minus sign read as `-` inside an exponent.
pub open spec fn norm_minus(c: char) -> char {
    if c == UNICODE_MINUS { '-' } else { c }
}

pub open spec fn minus_normalized(t: Seq<char>) -> Seq<char> {
    t.map_values(|c: char| norm_minus(c))
}

/// The single-character symbols and the token each one stands for.
pub open spec fn symbol(c: char) -> Option<TokView> {
    if c == '!' { Some(TokView::Factorial) }
    else if c == '(' { Some(TokView::LParen) }
    else if c == ')' { Some(TokView::RParen) }
    else if c == ',' { Some(TokView::Comma) }
    else if c == '%' { Some(TokView::Operator(Op::Mod)) }
    else if c == '+' { Some(TokView::Operator(Op::Add)) }
    else if c == '-' || c == UNICODE_MINUS { Some(TokView::Operator(Op::Sub)) }
    else if c == '*' || c == '\u{d7}' { Some(TokView::Operator(Op::Mul)) }
    else if c == '/' || c == '\u{f7}' { Some(TokView::Operator(Op::Div)) }
    else if c == '\u{221a}' { Some(TokView::Operator(Op::Sqrt)) }
    else if c == '\u{221b}' { Some(TokView::Operator(Op::Cbrt)) }
    else if c == '^' { Some(TokView::Operator(Op::Power)) }
    else if c == PI_SIGN { Some(TokView::Const(seq![PI_SIGN])) }
    else { None }
}

/// Where a numeric literal whose rest starts at `i` ends: digits and points, at most one
/// exponent marker, and a minus sign only directly after the marker.
pub open spec fn number_end(s: Seq<char>, i: int, exp: bool) -> int
    decreases s.len() - i,
{
    if i < 0 || i >= s.len() {
        i
    } else {
        let c = s[i];
        if is_digit(c) || c == '.' {
            number_end(s, i + 1, exp)
        } else if c == 'e' || c == 'E' {
            if exp { i } else { number_end(s, i + 1, true) }
        } else if c == '-' || c == UNICODE_MINUS {
            if exp && i > 0 && (s[i - 1] == 'e' || s[i - 1] == 'E') { number_end(s, i + 1, exp) } else { i }
        } else {
            i
        }
    }
}

/// Where an identifier whose rest starts at `i` ends.
pub open spec fn ident_end(s: Seq<char>, i: int) -> int
    decreases s.len() - i,
{
    if i < 0 || i >= s.len() || !(is_letter(s[i]) || is_digit(s[i])) {
        i
    } else {
        ident_end(s, i + 1)
    }
}

/// The first index at or after `i` that does not hold whitespace.
pub open spec fn space_end(s: Seq<char>, i: int) -> int
    decreases s.len() - i,
{
    if i < 0 || i >= s.len() || !is_white_space(s[i]) {
        i
    } else {
        space_end(s, i + 1)
    }
}

/// The first index at or after `i` that does not hold a decimal digit.
pub open spec fn digits_end(t: Seq<char>, i: int) -> int
    decreases t.len() - i,
{
    if i < 0 || i >= t.len() || !is_digit(t[i]) {
        i
    } else {
        digits_end(t, i + 1)
    }
}

/// Whether a literal reads as a floating-point number: digits, optionally a point and
/// more digits, optionally an exponent marker, an optional minus sign and digits.
pub open spec fn is_float_text(t: Seq<char>) -> bool {
    let a = digits_end(t, 0);
    let b = if a < t.len() && t[a] == '.' { digits_end(t, a + 1) } else { a };
    let c = if b + 1 < t.len() && t[b + 1] == '-' { b + 2 } else { b + 1 };
    a > 0 && (b == t.len() || ((t[b] == 'e' || t[b] == 'E') && digits_end(t, c) > c && digits_end(t, c) == t.len()))
}

pub enum Scan {
    Emit(TokView, int),
    Skip(int),
    Fail,
}

/// What the scanner does at index `i`: emit a token and go on at an index, skip to an
/// index, or fail.
pub open spec fn scan(s: Seq<char>, i: int) -> Scan {
    let c = s[i];
    if c == END_MARK {
        Scan::Emit(TokView::End, i + 1)
    } else if symbol(c) is Some {
        Scan::Emit(symbol(c)->0, i + 1)
    } else if is_digit(c) {
        let e = number_end(s, i + 1, false);
        let t = minus_normalized(s.subrange(i, e));
        if is_float_text(t) { Scan::Emit(TokView::Number(t), e) } else { Scan::Fail }
    } else if is_letter(c) {
        let e = ident_end(s, i + 1);
        let w = space_end(s, e);
        let name = s.subrange(i, e);
        if w < s.len() && s[w] == '(' {
            Scan::Emit(TokView::Call(name, 1), w + 1)
        } else {
            Scan::Emit(TokView::Const(name), w)
        }
    } else if is_blank(c) {
        Scan::Skip(i + 1)
    } else {
        Scan::Fail
    }
}

/// The tokens of `s` from index `i` on, each with its index, or the index of the first
/// character that cannot be read.
pub open spec fn lex_from(s: Seq<char>, i: int) -> Result<Seq<(TokView, nat)>, nat>
    decreases s.len() - i,
{
    if i < 0 || i >= s.len() {
        Ok(Seq::empty())
    } else {
        match scan(s, i) {
            Scan::Emit(t, j) => if i < j <= s.len() {
                match lex_from(s, j) {
                    Ok(r) => Ok(seq![(t, i as nat)] + r),
                    Err(p) => Err(p),
                }
            } else {
                Err(i as nat)
            },
            Scan::Skip(j) => if i < j <= s.len() { lex_from(s, j) } else { Err(i as nat) },
            Scan::Fail => Err(i as nat),
        }
    }
}

/// The first index at or after `i` that holds `c`, or the length when there is none.
pub open spec fn first_index(s: Seq<char>, c: char, i: int) -> int
    decreases s.len() - i,
{
    if i < 0 || i >= s.len() {
        s.len() as int
    } else if s[i] == c {
        i
    } else {
        first_index(s, c, i + 1)
    }
}

/// The token sequence of an input, ending with `End`, or the index of a syntax error.
pub open spec fn tokenize(input: Seq<char>) -> Result<Seq<(TokView, nat)>, nat> {
    let k = first_index(input, END_MARK, 0);
    if k < input.len() {
        Err(k as nat)
    } else {
        lex_from(input.push(END_MARK), 0)
    }
}

pub open spec fn prepend(a: Seq<(TokView, nat)>, r: Result<Seq<(TokView, nat)>, nat>) -> Result<Seq<(TokView, nat)>, nat> {
    match r {
        Ok(x) => Ok(a + x),
        Err(p) => Err(p),
    }
}

/// Relies on `String::push`: appends one character.
#[verifier::external_body]
fn push_char(s: &mut String, c: char)
    ensures
        final(s)@ == old(s)@.push(c),
{
    s.push(c)
}

fn digit(c: char) -> (r: bool)
    ensures
        r == is_digit(c),
{
    '0' <= c && c <= '9'
}

fn letter(c: char) -> (r: bool)
    ensures
        r == is_letter(c),
{
    ('a' <= c && c <= 'z') || ('A' <= c && c <= 'Z')
}

fn white_space(c: char) -> (r: bool)
    ensures
        r == is_white_space(c),
{
    ('\u{9}' <= c && c <= '\u{d}') || c == '\u{20}' || c == '\u{85}' || c == '\u{a0}' || c == '\u{1680}'
        || ('\u{2000}' <= c && c <= '\u{200a}') || c == '\u{2028}' || c == '\u{2029}' || c == '\u{202f}'
        || c == '\u{205f}' || c == '\u{3000}'
}

fn one_char(c: char) -> (r: String)
    ensures
        r@ == seq![c],
{
    let mut r = String::new();
    push_char(&mut r, c);
    assert(r@ =~= seq![c]);
    r
}

fn symbol_tok(c: char) -> (r: Option<Tok>)
    ensures
        match symbol(c) {
            Some(t) => r is Some && r->0@ == t,
            None => r is None,
        },
{
    if c == '!' { Some(Tok::Factorial) }
    else if c == '(' { Some(Tok::LParen) }
    else if c == ')' { Some(Tok::RParen) }
    else if c == ',' { Some(Tok::Comma) }
    else if c == '%' { Some(Tok::Operator(Op::Mod)) }
    else if c == '+' { Some(Tok::Operator(Op::Add)) }
    else if c == '-' || c == UNICODE_MINUS { Some(Tok::Operator(Op::Sub)) }
    else if c == '*' || c == '\u{d7}' { Some(Tok::Operator(Op::Mul)) }
    else if c == '/' || c == '\u{f7}' { Some(Tok::Operator(Op::Div)) }
    else if c == '\u{221a}' { Some(Tok::Operator(Op::Sqrt)) }
    else if c == '\u{221b}' { Some(Tok::Operator(Op::Cbrt)) }
    else if c == '^' { Some(Tok::Operator(Op::Power)) }
    else if c == PI_SIGN { Some(Tok::Const(one_char(PI_SIGN))) }
    else { None }
}

fn digits_end_exec(t: &Vec<char>, i: usize) -> (r: usize)
    requires
        i <= t@.len(),
    ensures
        r as int == digits_end(t@, i as int),
        i <= r <= t@.len(),
{
    let mut j = i;
    while j < t.len() && digit(t[j])
        invariant
            i <= j <= t@.len(),
            digits_end(t@, i as int) == digits_end(t@, j as int),
        decreases t.len() - j,
    {
        j = j + 1;
    }
    j
}

/// Whether a numeric literal reads as a floating-point number.
pub fn is_float_literal(t: &Vec<char>) -> (r: bool)
    ensures
        r == is_float_text(t@),
{
    let n = t.len();
    let a = digits_end_exec(t, 0);
    let b = if a < n && t[a] == '.' { digits_end_exec(t, a + 1) } else { a };
    if a == 0 {
        return false;
    }
    if b == n {
        return true;
    }
    if !(t[b] == 'e' || t[b] == 'E') {
        return false;
    }
    let c = if b + 1 < n && t[b + 1] == '-' { b + 2 } else { b + 1 };
    let d = digits_end_exec(t, c);
    d > c && d == n
}

proof fn lemma_minus_normalized_push(s: Seq<char>, start: int, j: int)
    requires
        0 <= start <= j < s.len(),
    ensures
        minus_normalized(s.subrange(start, j + 1)) == minus_normalized(s.subrange(start, j)).push(norm_minus(s[j])),
{
    assert(minus_normalized(s.subrange(start, j + 1)) =~= minus_normalized(s.subrange(start, j)).push(norm_minus(s[j])));
}

/// Reads a numeric literal that starts at `start`: its text with minus signs normalized,
/// the same as characters, and where it ends.
fn scan_number(chars: &Vec<char>, start: usize) -> (r: (String, Vec<char>, usize))
    requires
        start < chars@.len(),
        is_digit(chars@[start as int]),
    ensures
        r.2 as int == number_end(chars@, start + 1, false),
        start < r.2 <= chars@.len(),
        r.1@ == minus_normalized(chars@.subrange(start as int, r.2 as int)),
        r.0@ == r.1@,
{
    let n = chars.len();
    let mut text = String::new();
    let mut lexeme: Vec<char> = Vec::new();
    push_char(&mut text, chars[start]);
    lexeme.push(chars[start]);
    proof {
        lemma_minus_normalized_push(chars@, start as int, start as int);
        assert(chars@.subrange(start as int, start as int) =~= Seq::<char>::empty());
        assert(lexeme@ =~= minus_normalized(chars@.subrange(start as int, start + 1)));
    }
    let mut exp = false;
    let mut j = start + 1;
    while j < n
        invariant
            n == chars@.len(),
            start < j <= n,
            number_end(chars@, start + 1, false) == number_end(chars@, j as int, exp),
            lexeme@ == minus_normalized(chars@.subrange(start as int, j as int)),
            text@ == lexeme@,
        ensures
            start < j <= n,
            number_end(chars@, start + 1, false) == j as int,
            lexeme@ == minus_normalized(chars@.subrange(start as int, j as int)),
            text@ == lexeme@,
        decreases n - j,
    {
        let c = chars[j];
        let d: char = if c == UNICODE_MINUS { '-' } else { c };
        if digit(c) || c == '.' {
        } else if c == 'e' || c == 'E' {
            if exp {
                assert(number_end(chars@, j as int, exp) == j);
                break;
            }
            exp = true;
        } else if c == '-' || c == UNICODE_MINUS {
            if !(exp && (chars[j - 1] == 'e' || chars[j - 1] == 'E')) {
                assert(number_end(chars@, j as int, exp) == j);
                break;
            }
        } else {
            assert(number_end(chars@, j as int, exp) == j);
            break;
        }
        proof {
            lemma_minus_normalized_push(chars@, start as int, j as int);
        }
        push_char(&mut text, d);
        lexeme.push(d);
        j = j + 1;
    }
    (text, lexeme, j)
}

/// Reads an identifier that starts at `start`; returns it and where it ends.
fn scan_ident(chars: &Vec<char>, start: usize) -> (r: (String, usize))
    requires
        start < chars@.len(),
        is_letter(chars@[start as int]),
    ensures
        r.1 as int == ident_end(chars@, start + 1),
        start < r.1 <= chars@.len(),
        r.0@ == chars@.subrange(start as int, r.1 as int),
{
    let n = chars.len();
    let mut name = String::new();
    push_char(&mut name, chars[start]);
    assert(name@ =~= chars@.subrange(start as int, start + 1));
    let mut j = start + 1;
    while j < n && (letter(chars[j]) || digit(chars[j]))
        invariant
            n == chars@.len(),
            start < j <= n,
            ident_end(chars@, start + 1) == ident_end(chars@, j as int),
            name@ == chars@.subrange(start as int, j as int),
        decreases n - j,
    {
        push_char(&mut name, chars[j]);
        assert(name@ =~= chars@.subrange(start as int, j + 1));
        j = j + 1;
    }
    (name, j)
}

fn skip_space(chars: &Vec<char>, start: usize) -> (r: usize)
    requires
        start <= chars@.len(),
    ensures
        r as int == space_end(chars@, start as int),
        start <= r <= chars@.len(),
{
    let mut j = start;
    while j < chars.len() && white_space(chars[j])
        invariant
            start <= j <= chars@.len(),
            space_end(chars@, start as int) == space_end(chars@, j as int),
        decreases chars.len() - j,
    {
        j = j + 1;
    }
    j
}

/// Splits an expression into tokens, each tagged with the index of its first character;
/// the sequence ends with one `End` token.
pub fn parse_tokens(s: String) -> (r: Result<Vec<Token>, CalculatorError>)
    ensures
        match tokenize(s@) {
            Ok(ts) => r is Ok && token_views(r->Ok_0@) == ts,
            Err(p) => is_syntax_at(r, p),
        },
{
    let text = s.as_str();
    let mut chars: Vec<char> = Vec::new();
    let mut k: usize = 0;
    for c in it: text.chars()
        invariant
            text@ == s@,
            it.seq() == s@,
            k == it.index(),
            chars@ == s@.subrange(0, k as int),
            forall|j: int| 0 <= j < k ==> s@[j] != END_MARK,
            first_index(s@, END_MARK, 0) == first_index(s@, END_MARK, k as int),
    {
        if c == END_MARK {
            return Err(CalculatorError::Syntax("reserved character".to_string(), k));
        }
        chars.push(c);
        assert(chars@ =~= s@.subrange(0, k + 1));
        k = chars.len();
    }
    assert(k == s@.len());
    chars.push(END_MARK);
    let ghost full = s@.push(END_MARK);
    assert(chars@ =~= full);
    let n = chars.len();
    let mut res: Vec<Token> = Vec::new();
    let mut i: usize = 0;
    assert(token_views(res@) =~= Seq::<(TokView, nat)>::empty());
    assert(prepend(Seq::empty(), lex_from(full, 0)) =~= lex_from(full, 0)) by {
        match lex_from(full, 0) {
            Ok(x) => assert(Seq::<(TokView, nat)>::empty() + x =~= x),
            Err(p) => {},
        }
    }
    while i < n
        invariant
            chars@ == full,
            full == s@.push(END_MARK),
            n == full.len(),
            i <= n,
            first_index(s@, END_MARK, 0) == s@.len(),
            lex_from(full, 0) == prepend(token_views(res@), lex_from(full, i as int)),
        decreases n - i,
    {
        let c = chars[i];
        let ghost before = token_views(res@);
        let sym = symbol_tok(c);
        if c == END_MARK || sym.is_some() {
            let t = if c == END_MARK { Tok::End } else { sym.unwrap() };
            proof { lemma_emit(full, i as int, before, t@); }
            res.push(Token::new(t, i));
            assert(token_views(res@) =~= before.push((t@, i as nat)));
            i = i + 1;
        } else if digit(c) {
            let (text, lexeme, e) = scan_number(&chars, i);
            if !is_float_literal(&lexeme) {
                return Err(CalculatorError::Syntax("malformed number".to_string(), i));
            }
            let t = Tok::Number(text);
            proof { lemma_emit(full, i as int, before, t@); }
            res.push(Token::new(t, i));
            assert(token_views(res@) =~= before.push((t@, i as nat)));
            i = e;
        } else if letter(c) {
            let (name, e) = scan_ident(&chars, i);
            let w = skip_space(&chars, e);
            if w < n && chars[w] == '(' {
                let t = Tok::Call(name, 1);
                proof { lemma_emit(full, i as int, before, t@); }
                res.push(Token::new(t, i));
                assert(token_views(res@) =~= before.push((t@, i as nat)));
                i = w + 1;
            } else {
                let t = Tok::Const(name);
                proof { lemma_emit(full, i as int, before, t@); }
                res.push(Token::new(t, i));
                assert(token_views(res@) =~= before.push((t@, i as nat)));
                i = w;
            }
        } else if c == ' ' || c == '\t' || c == '\n' || c == '\r' {
            i = i + 1;
        } else {
            return Err(CalculatorError::Syntax("unexpected character".to_string(), i));
        }
    }
    assert(token_views(res@) + Seq::<(TokView, nat)>::empty() =~= token_views(res@));
    Ok(res)
}

proof fn lemma_digits_end(t: Seq<char>, i: int)
    requires
        0 <= i <= t.len(),
    ensures
        i <= digits_end(t, i) <= t.len(),
        forall|k: int| i <= k < digits_end(t, i) ==> is_digit(t[k]),
        digits_end(t, i) < t.len() ==> !is_digit(t[digits_end(t, i)]),
    decreases t.len() - i,
{
    if i < t.len() && is_digit(t[i]) {
        lemma_digits_end(t, i + 1);
    }
}

proof fn lemma_number_run(s: Seq<char>, i: int, j: int, exp: bool)
    requires
        0 <= i <= j <= s.len(),
        forall|k: int| i <= k < j ==> is_digit(s[k]) || s[k] == '.',
    ensures
        number_end(s, i, exp) == number_end(s, j, exp),
    decreases j - i,
{
    if i < j {
        lemma_number_run(s, i + 1, j, exp);
    }
}

proof fn lemma_first_index_absent(s: Seq<char>, c: char, i: int)
    requires
        0 <= i <= s.len(),
        forall|k: int| i <= k < s.len() ==> s[k] != c,
    ensures
        first_index(s, c, i) == s.len(),
    decreases s.len() - i,
{
    if i < s.len() {
        lemma_first_index_absent(s, c, i + 1);
    }
}

/// The characters of a well-formed literal: digits, a point, an exponent marker, `-`.
pub open spec fn literal_char(c: char) -> bool {
    is_digit(c) || c == '.' || c == 'e' || c == 'E' || c == '-'
}

proof fn lemma_literal_chars(t: Seq<char>)
    requires
        is_float_text(t),
    ensures
        forall|k: int| 0 <= k < t.len() ==> literal_char(#[trigger] t[k]),
        t.len() > 0 && is_digit(t[0]),
{
    let a = digits_end(t, 0);
    lemma_digits_end(t, 0);
    let b = if a < t.len() && t[a] == '.' { digits_end(t, a + 1) } else { a };
    if a < t.len() && t[a] == '.' {
        lemma_digits_end(t, a + 1);
    }
    if b < t.len() {
        let c = if b + 1 < t.len() && t[b + 1] == '-' { b + 2 } else { b + 1 };
        lemma_digits_end(t, c);
    }
}

/// A well-formed literal `t` stored at `off` in `s`, right before the end mark, is scanned
/// as one number token whose text is `t`.
proof fn lemma_scan_literal(s: Seq<char>, t: Seq<char>, off: int)
    requires
        is_float_text(t),
        0 <= off,
        s.len() == off + t.len() + 1,
        s.subrange(off, off + t.len()) == t,
        s[off + t.len()] == END_MARK,
    ensures
        scan(s, off) == Scan::Emit(TokView::Number(t), off + t.len()),
{
    let n = t.len() as int;
    lemma_literal_chars(t);
    assert forall|k: int| 0 <= k < n implies s[off + k] == t[k] by {
        assert(s.subrange(off, off + n)[k] == s[off + k]);
    }
    let a = digits_end(t, 0);
    lemma_digits_end(t, 0);
    assert forall|k: int| off + 1 <= k < off + a implies is_digit(s[k]) || s[k] == '.' by {
        assert(s[k] == t[k - off]);
    }
    lemma_number_run(s, off + 1, off + a, false);
    let b = if a < n && t[a] == '.' { digits_end(t, a + 1) } else { a };
    if a < n && t[a] == '.' {
        lemma_digits_end(t, a + 1);
        assert forall|k: int| off + a + 1 <= k < off + b implies is_digit(s[k]) || s[k] == '.' by {
            assert(s[k] == t[k - off]);
        }
        lemma_number_run(s, off + a + 1, off + b, false);
        assert(number_end(s, off + a, false) == number_end(s, off + a + 1, false));
    }
    assert(number_end(s, off + 1, false) == number_end(s, off + b, false));
    if b < n {
        let c = if b + 1 < n && t[b + 1] == '-' { b + 2 } else { b + 1 };
        lemma_digits_end(t, c);
        assert(number_end(s, off + b, false) == number_end(s, off + b + 1, true));
        if b + 1 < n && t[b + 1] == '-' {
            assert(number_end(s, off + b + 1, true) == number_end(s, off + b + 2, true));
        }
        assert forall|k: int| off + c <= k < off + n implies is_digit(s[k]) || s[k] == '.' by {
            assert(s[k] == t[k - off]);
        }
        lemma_number_run(s, off + c, off + n, true);
        assert(number_end(s, off + n, true) == off + n);
    } else {
        assert(number_end(s, off + n, false) == off + n);
    }
    assert(number_end(s, off + 1, false) == off + n);
    assert(minus_normalized(s.subrange(off, off + n)) =~= t);
}

/// The tokens of a well-formed literal alone, and of one after a minus sign.
pub proof fn lemma_tokenize_literal(t: Seq<char>)
    requires
        is_float_text(t),
    ensures
        tokenize(t) == Ok::<Seq<(TokView, nat)>, nat>(seq![(TokView::Number(t), 0nat), (TokView::End, t.len())]),
        tokenize(seq!['-'] + t) == Ok::<Seq<(TokView, nat)>, nat>(
            seq![(TokView::Operator(Op::Sub), 0nat), (TokView::Number(t), 1nat), (TokView::End, t.len() + 1)],
        ),
{
    let n = t.len() as int;
    lemma_literal_chars(t);
    lemma_first_index_absent(t, END_MARK, 0);
    let s = t.push(END_MARK);
    assert(s.subrange(0, n) =~= t);
    lemma_scan_literal(s, t, 0);
    assert(scan(s, n) == Scan::Emit(TokView::End, n + 1));
    assert(lex_from(s, n + 1) == Ok::<Seq<(TokView, nat)>, nat>(Seq::empty()));
    assert(lex_from(s, n) =~= Ok::<Seq<(TokView, nat)>, nat>(seq![(TokView::End, n as nat)]));
    assert(seq![(TokView::Number(t), 0nat)] + seq![(TokView::End, n as nat)] =~= seq![(TokView::Number(t), 0nat), (TokView::End, n as nat)]);
    assert(lex_from(s, 0) =~= Ok::<Seq<(TokView, nat)>, nat>(seq![(TokView::Number(t), 0nat), (TokView::End, n as nat)]));

    let u = seq!['-'] + t;
    let v = u.push(END_MARK);
    assert forall|k: int| 0 <= k < u.len() implies u[k] != END_MARK by {
        if k > 0 {
            assert(u[k] == t[k - 1]);
            assert(literal_char(t[k - 1]));
        }
    }
    lemma_first_index_absent(u, END_MARK, 0);
    assert(v.subrange(1, n + 1) =~= t);
    lemma_scan_literal(v, t, 1);
    assert(scan(v, 0) == Scan::Emit(TokView::Operator(Op::Sub), 1));
    assert(scan(v, n + 1) == Scan::Emit(TokView::End, n + 2));
    assert(lex_from(v, n + 2) == Ok::<Seq<(TokView, nat)>, nat>(Seq::empty()));
    assert(lex_from(v, n + 1) =~= Ok::<Seq<(TokView, nat)>, nat>(seq![(TokView::End, (n + 1) as nat)]));
    assert(seq![(TokView::Number(t), 1nat)] + seq![(TokView::End, (n + 1) as nat)] =~= seq![(TokView::Number(t), 1nat), (TokView::End, (n + 1) as nat)]);
    assert(seq![(TokView::Operator(Op::Sub), 0nat)] + seq![(TokView::Number(t), 1nat), (TokView::End, (n + 1) as nat)] =~= seq![(TokView::Operator(Op::Sub), 0nat), (TokView::Number(t), 1nat), (TokView::End, (n + 1) as nat)]);
    assert(lex_from(v, 1) =~= Ok::<Seq<(TokView, nat)>, nat>(seq![(TokView::Number(t), 1nat), (TokView::End, (n + 1) as nat)]));
    assert(lex_from(v, 0) =~= Ok::<Seq<(TokView, nat)>, nat>(
        seq![(TokView::Operator(Op::Sub), 0nat), (TokView::Number(t), 1nat), (TokView::End, (n + 1) as nat)],
    ));
}

proof fn lemma_emit(s: Seq<char>, i: int, before: Seq<(TokView, nat)>, t: TokView)
    requires
        0 <= i < s.len(),
        scan(s, i) is Emit,
        scan(s, i)->Emit_0 == t,
        i < scan(s, i)->Emit_1 <= s.len(),
    ensures
        prepend(before, lex_from(s, i)) == prepend(before.push((t, i as nat)), lex_from(s, scan(s, i)->Emit_1)),
{
    let j = scan(s, i)->Emit_1;
    match lex_from(s, j) {
        Ok(x) => {
            assert(before + (seq![(t, i as nat)] + x) =~= before.push((t, i as nat)) + x);
        },
        Err(p) => {},
    }
}

} // verus!

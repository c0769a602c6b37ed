//! Lexer: turns source text into tokens, one at a time or all at once.
use vstd::prelude::*;
use vstd::string::*;
use vstd::std_specs::iter::IteratorSpec;
use crate::number::{Number, is_digit, decimal_value, digits_value, fraction_window, all_digits, FRACTION_DIGITS, SCALE};

verus! {

#[derive(Debug, Clone, PartialEq)]
pub enum Token {
    Looping,
    Let,
    Const,
    Fn,
    If,
    Else,
    While,
    For,
    Return,
    Throw,
    Try,
    Catch,
    Switch,
    Case,
    Break,
    Continue,
    Identifier(Vec<char>),
    Number(Number),
    String(Vec<char>),
    Boolean(bool),
    Operator(Vec<char>),
    Symbol(char),
    EOF,
    Unknown(char),
}

/// A token with its text as a sequence.
pub enum SToken {
    Looping,
    Let,
    Const,
    Fn,
    If,
    Else,
    While,
    For,
    Return,
    Throw,
    Try,
    Catch,
    Switch,
    Case,
    Break,
    Continue,
    Identifier(Seq<char>),
    Number(Number),
    String(Seq<char>),
    Boolean(bool),
    Operator(Seq<char>),
    Symbol(char),
    EOF,
    Unknown(char),
}

impl Token {
    pub open spec fn model(&self) -> SToken {
        match self {
            Token::Looping => SToken::Looping,
            Token::Let => SToken::Let,
            Token::Const => SToken::Const,
            Token::Fn => SToken::Fn,
            Token::If => SToken::If,
            Token::Else => SToken::Else,
            Token::While => SToken::While,
            Token::For => SToken::For,
            Token::Return => SToken::Return,
            Token::Throw => SToken::Throw,
            Token::Try => SToken::Try,
            Token::Catch => SToken::Catch,
            Token::Switch => SToken::Switch,
            Token::Case => SToken::Case,
            Token::Break => SToken::Break,
            Token::Continue => SToken::Continue,
            Token::Identifier(s) => SToken::Identifier(s@),
            Token::Number(n) => SToken::Number(*n),
            Token::String(s) => SToken::String(s@),
            Token::Boolean(b) => SToken::Boolean(*b),
            Token::Operator(s) => SToken::Operator(s@),
            Token::Symbol(c) => SToken::Symbol(*c),
            Token::EOF => SToken::EOF,
            Token::Unknown(c) => SToken::Unknown(*c),
        }
    }
}

/// Unicode `White_Space`, the set that `char::is_whitespace` tests.
pub open spec fn is_space(c: char) -> bool {
    ('\u{9}' <= c && c <= '\u{d}') || c == ' ' || c == '\u{85}' || c == '\u{a0}' || c == '\u{1680}'
        || ('\u{2000}' <= c && c <= '\u{200a}') || c == '\u{2028}' || c == '\u{2029}' || c
        == '\u{202f}' || c == '\u{205f}' || c == '\u{3000}'
}

pub open spec fn is_alpha(c: char) -> bool {
    ('a' <= c && c <= 'z') || ('A' <= c && c <= 'Z')
}

pub open spec fn is_word_char(c: char) -> bool {
    is_alpha(c) || is_digit(c) || c == '_'
}

pub open spec fn is_symbol(c: char) -> bool {
    c == '{' || c == '}' || c == '(' || c == ')' || c == '[' || c == ']' || c == ';' || c == ':'
        || c == ',' || c == '.'
}

/// First position at or after `p` that holds no whitespace.
pub open spec fn skip_spaces(input: Seq<char>, p: nat) -> nat
    decreases input.len() - p,
{
    if p < input.len() && is_space(input[p as int]) {
        skip_spaces(input, p + 1)
    } else {
        p
    }
}

/// First position at or after `p` that holds no decimal digit.
pub open spec fn digits_end(input: Seq<char>, p: nat) -> nat
    decreases input.len() - p,
{
    if p < input.len() && is_digit(input[p as int]) {
        digits_end(input, p + 1)
    } else {
        p
    }
}

/// First position at or after `p` that holds no identifier character.
pub open spec fn word_end(input: Seq<char>, p: nat) -> nat
    decreases input.len() - p,
{
    if p < input.len() && is_word_char(input[p as int]) {
        word_end(input, p + 1)
    } else {
        p
    }
}

/// Position of the first `"` at or after `p`, or the end of the input.
pub open spec fn quote_end(input: Seq<char>, p: nat) -> nat
    decreases input.len() - p,
{
    if p < input.len() && input[p as int] != '"' {
        quote_end(input, p + 1)
    } else {
        p
    }
}

/// The token that a word stands for: a keyword, a boolean or an identifier.
pub open spec fn word_token(w: Seq<char>) -> SToken {
    if w == "looping"@ {
        SToken::Looping
    } else if w == "let"@ {
        SToken::Let
    } else if w == "const"@ {
        SToken::Const
    } else if w == "fn"@ {
        SToken::Fn
    } else if w == "if"@ {
        SToken::If
    } else if w == "else"@ {
        SToken::Else
    } else if w == "while"@ {
        SToken::While
    } else if w == "for"@ {
        SToken::For
    } else if w == "return"@ {
        SToken::Return
    } else if w == "throw"@ {
        SToken::Throw
    } else if w == "try"@ {
        SToken::Try
    } else if w == "catch"@ {
        SToken::Catch
    } else if w == "switch"@ {
        SToken::Switch
    } else if w == "case"@ {
        SToken::Case
    } else if w == "break"@ {
        SToken::Break
    } else if w == "continue"@ {
        SToken::Continue
    } else if w == "true"@ {
        SToken::Boolean(true)
    } else if w == "false"@ {
        SToken::Boolean(false)
    } else {
        SToken::Identifier(w)
    }
}

/// The number token at `p` (a digit) and the position after it.
pub open spec fn number_at(input: Seq<char>, p: nat) -> (SToken, nat) {
    let e1 = digits_end(input, p);
    if e1 < input.len() && input[e1 as int] == '.' {
        let e2 = digits_end(input, e1 + 1);
        (
            SToken::Number(
                decimal_value(input.subrange(p as int, e1 as int), input.subrange((e1 + 1) as int, e2 as int)),
            ),
            e2,
        )
    } else {
        (SToken::Number(decimal_value(input.subrange(p as int, e1 as int), Seq::empty())), e1)
    }
}

/// The token that starts at or after position `p`, and the position after it.
pub open spec fn token_at(input: Seq<char>, p: nat) -> (SToken, nat) {
    let p = skip_spaces(input, p);
    if p >= input.len() {
        (SToken::EOF, p)
    } else {
        let c = input[p as int];
        if is_digit(c) {
            number_at(input, p)
        } else if is_alpha(c) || c == '_' {
            let e = word_end(input, p);
            (word_token(input.subrange(p as int, e as int)), e)
        } else if c == '"' {
            let e = quote_end(input, p + 1);
            (SToken::String(input.subrange((p + 1) as int, e as int)), e + 1)
        } else if c == '+' || c == '-' || c == '*' || c == '/' {
            (SToken::Operator(seq![c]), p + 1)
        } else if c == '=' || c == '!' || c == '<' || c == '>' {
            if p + 1 < input.len() && input[(p + 1) as int] == '=' {
                (SToken::Operator(seq![c, '=']), p + 2)
            } else {
                (SToken::Operator(seq![c]), p + 1)
            }
        } else if is_symbol(c) {
            (SToken::Symbol(c), p + 1)
        } else {
            (SToken::Unknown(c), p + 1)
        }
    }
}

/// The whole token stream from position `p`, ending with `EOF`.
pub open spec fn tokens_from(input: Seq<char>, p: nat) -> Seq<SToken>
    decreases input.len() + 1 - p,
{
    let (t, q) = token_at(input, p);
    if t is EOF {
        seq![SToken::EOF]
    } else {
        proof {
            lemma_token_advances(input, p);
        }
        seq![t] + tokens_from(input, q)
    }
}

proof fn lemma_skip_spaces(input: Seq<char>, p: nat)
    ensures
        p <= skip_spaces(input, p),
        p <= input.len() ==> skip_spaces(input, p) <= input.len(),
    decreases input.len() - p,
{
    if p < input.len() && is_space(input[p as int]) {
        lemma_skip_spaces(input, p + 1);
    }
}

proof fn lemma_digits_end(input: Seq<char>, p: nat)
    ensures
        p <= digits_end(input, p),
        p <= input.len() ==> digits_end(input, p) <= input.len(),
    decreases input.len() - p,
{
    if p < input.len() && is_digit(input[p as int]) {
        lemma_digits_end(input, p + 1);
    }
}

proof fn lemma_word_end(input: Seq<char>, p: nat)
    ensures
        p <= word_end(input, p),
        p <= input.len() ==> word_end(input, p) <= input.len(),
    decreases input.len() - p,
{
    if p < input.len() && is_word_char(input[p as int]) {
        lemma_word_end(input, p + 1);
    }
}

proof fn lemma_quote_end(input: Seq<char>, p: nat)
    ensures
        p <= quote_end(input, p),
        p <= input.len() ==> quote_end(input, p) <= input.len(),
    decreases input.len() - p,
{
    if p < input.len() && input[p as int] != '"' {
        lemma_quote_end(input, p + 1);
    }
}

/// Every token but `EOF` consumes at least one character, and stops at most
/// one past the end (after an unterminated string).
pub proof fn lemma_token_advances(input: Seq<char>, p: nat)
    ensures
        !(token_at(input, p).0 is EOF) ==> p < token_at(input, p).1 <= input.len() + 1,
{
    let s = skip_spaces(input, p);
    lemma_skip_spaces(input, p);
    if s < input.len() {
        lemma_digits_end(input, s);
        lemma_digits_end(input, s + 1);
        lemma_word_end(input, s);
        lemma_word_end(input, s + 1);
        lemma_quote_end(input, s + 1);
        let e1 = digits_end(input, s);
        if e1 < input.len() {
            lemma_digits_end(input, e1 + 1);
        }
    }
}

pub struct Lexer {
    input: Vec<char>,
    position: usize,
}

/// The characters of the text, in order.
fn chars_of(s: &str) -> (r: Vec<char>)
    ensures
        r@ == s@,
{
    broadcast use vstd::string::axiom_spec_iter, vstd::string::next_postcondition;
    let mut it = s.chars();
    let mut out: Vec<char> = Vec::new();
    loop
        invariant
            it.obeys_prophetic_iter_laws(),
            it.decrease() is Some,
            out@ + it.remaining() == s@,
        decreases it.decrease()->0,
    {
        match it.next() {
            Some(c) => {
                out.push(c);
            },
            None => {
                return out;
            },
        }
    }
}

/// Whether `w` holds exactly the characters of `lit`.
pub fn word_is(w: &Vec<char>, lit: &str) -> (r: bool)
    ensures
        r == (w@ == lit@),
{
    let n = lit.unicode_len();
    if n != w.len() {
        return false;
    }
    let mut i: usize = 0;
    while i < n
        invariant
            n == lit@.len(),
            n == w@.len(),
            i <= n,
            forall|j: int| 0 <= j < i ==> w@[j] == lit@[j],
        decreases n - i,
    {
        if w[i] != lit.get_char(i) {
            return false;
        }
        i += 1;
    }
    assert(w@ =~= lit@);
    true
}

fn is_space_exec(c: char) -> (r: bool)
    ensures
        r == is_space(c),
{
    ('\u{9}' <= c && c <= '\u{d}') || c == ' ' || c == '\u{85}' || c == '\u{a0}' || c == '\u{1680}'
        || ('\u{2000}' <= c && c <= '\u{200a}') || c == '\u{2028}' || c == '\u{2029}' || c
        == '\u{202f}' || c == '\u{205f}' || c == '\u{3000}'
}

fn is_digit_exec(c: char) -> (r: bool)
    ensures
        r == is_digit(c),
{
    '0' <= c && c <= '9'
}

fn is_alpha_exec(c: char) -> (r: bool)
    ensures
        r == is_alpha(c),
{
    ('a' <= c && c <= 'z') || ('A' <= c && c <= 'Z')
}

/// Saturation bound for the integral part of a literal: any larger value is
/// past the range of numbers anyway.
const WHOLE_CAP: u64 = 10_000_000_000_000;

pub open spec fn pow10(k: nat) -> int
    decreases k,
{
    if k == 0 {
        1
    } else {
        10 * pow10((k - 1) as nat)
    }
}

proof fn lemma_digits_value_bound(s: Seq<char>)
    requires
        all_digits(s),
    ensures
        0 <= digits_value(s) < pow10(s.len()),
    decreases s.len(),
{
    if s.len() > 0 {
        assert(all_digits(s.drop_last()));
        lemma_digits_value_bound(s.drop_last());
        assert(is_digit(s[s.len() - 1]));
    }
}

/// `min(digits_value(s[lo..hi]), WHOLE_CAP)`.
fn capped_value(s: &Vec<char>, lo: usize, hi: usize) -> (r: u64)
    requires
        lo <= hi <= s.len(),
        all_digits(s@.subrange(lo as int, hi as int)),
    ensures
        r == if digits_value(s@.subrange(lo as int, hi as int)) < WHOLE_CAP {
            digits_value(s@.subrange(lo as int, hi as int))
        } else {
            WHOLE_CAP as int
        },
{
    let mut acc: u64 = 0;
    let mut i: usize = lo;
    while i < hi
        invariant
            lo <= i <= hi <= s.len(),
            all_digits(s@.subrange(lo as int, hi as int)),
            acc == if digits_value(s@.subrange(lo as int, i as int)) < WHOLE_CAP {
                digits_value(s@.subrange(lo as int, i as int))
            } else {
                WHOLE_CAP as int
            },
        decreases hi - i,
    {
        let ghost prev = s@.subrange(lo as int, i as int);
        assert(is_digit(s@.subrange(lo as int, hi as int)[i - lo]));
        let d: u64 = (s[i] as u32 - 48) as u64;
        proof {
            let next = s@.subrange(lo as int, i + 1);
            assert(next.drop_last() =~= prev);
            assert(all_digits(prev));
            lemma_digits_value_bound(prev);
        }
        if acc >= WHOLE_CAP || acc * 10 + d >= WHOLE_CAP {
            acc = WHOLE_CAP;
        } else {
            acc = acc * 10 + d;
        }
        i += 1;
    }
    acc
}

/// The number written with the digits `s[ws..we]`, a point, and the digits
/// `s[fs..fe]`.
fn decimal_exec(s: &Vec<char>, ws: usize, we: usize, fs: usize, fe: usize) -> (r: Number)
    requires
        ws <= we <= s.len(),
        fs <= fe <= s.len(),
        all_digits(s@.subrange(ws as int, we as int)),
        all_digits(s@.subrange(fs as int, fe as int)),
    ensures
        r == decimal_value(s@.subrange(ws as int, we as int), s@.subrange(fs as int, fe as int)),
{
    let whole = capped_value(s, ws, we);
    let mut window: Vec<char> = Vec::new();
    let mut i: usize = fs;
    while i < fe && window.len() < FRACTION_DIGITS
        invariant
            fs <= i <= fe <= s.len(),
            window.len() == i - fs <= FRACTION_DIGITS,
            window@ == s@.subrange(fs as int, i as int),
        decreases fe - i,
    {
        window.push(s[i]);
        i += 1;
        assert(window@ =~= s@.subrange(fs as int, i as int));
    }
    let ghost taken = window@;
    proof {
        assert(all_digits(s@.subrange(fs as int, fe as int)));
        assert forall|j: int| 0 <= j < taken.len() implies is_digit(#[trigger] taken[j]) by {
            assert(taken[j] == s@.subrange(fs as int, fe as int)[j]);
        }
        lemma_window(s@.subrange(fs as int, fe as int), i - fs);
    }
    while window.len() < FRACTION_DIGITS
        invariant
            window.len() <= FRACTION_DIGITS,
            all_digits(window@),
            fraction_window(window@) == fraction_window(s@.subrange(fs as int, fe as int)),
        decreases FRACTION_DIGITS - window.len(),
    {
        window.push('0');
    }
    proof {
        assert(window@.subrange(0, FRACTION_DIGITS as int) =~= window@);
        lemma_digits_value_bound(window@);
        reveal_with_fuel(pow10, 7);
        assert(window@.subrange(0, window@.len() as int) =~= window@);
    }
    let frac = capped_value(&window, 0, FRACTION_DIGITS);
    if whole >= WHOLE_CAP {
        proof {
            lemma_digits_value_bound(s@.subrange(ws as int, we as int));
        }
        Number::PosInf
    } else {
        assert(frac < 1_000_000);
        assert(whole * 1_000_000 <= 9_999_999_999_999_000_000) by (nonlinear_arith)
            requires whole < 10_000_000_000_000;
        let m: u64 = whole * (SCALE as u64) + frac;
        if m > i64::MAX as u64 {
            Number::PosInf
        } else {
            Number::Fixed(m as i64)
        }
    }
}

/// The window of `f` equals that of its first `k` characters, where `k` is
/// either all of `f` or six.
proof fn lemma_window(f: Seq<char>, k: int)
    requires
        0 <= k <= f.len(),
        k == f.len() || k == FRACTION_DIGITS,
    ensures
        fraction_window(f.subrange(0, k)) == fraction_window(f),
{
    if k < f.len() {
        assert(f.subrange(0, k).subrange(0, FRACTION_DIGITS as int) =~= f.subrange(0, FRACTION_DIGITS as int));
    } else {
        assert(f.subrange(0, k) =~= f);
    }
}

impl Lexer {
    /// The characters being read.
    pub closed spec fn text(&self) -> Seq<char> {
        self.input@
    }

    /// The position of the next character to read.
    pub closed spec fn pos(&self) -> nat {
        self.position as nat
    }

    pub closed spec fn wf(&self) -> bool {
        self.position <= self.input.len() + 1 && self.input.len() + 8 < usize::MAX
    }

    pub proof fn lemma_wf_bounds(lexer: Lexer)
        requires
            lexer.wf(),
        ensures
            lexer.pos() <= lexer.text().len() + 1,
            lexer.text().len() + 8 < usize::MAX,
    {
    }

    pub fn new(source: &str) -> (r: Lexer)
        requires
            source@.len() + 8 < usize::MAX,
        ensures
            r.wf(),
            r.text() == source@,
            r.pos() == 0,
    {
        Lexer { input: chars_of(source), position: 0 }
    }

    fn skip_whitespace(&mut self)
        requires
            old(self).wf(),
        ensures
            final(self).wf(),
            final(self).input == old(self).input,
            final(self).position == skip_spaces(old(self).input@, old(self).position as nat),
    {
        while self.position < self.input.len() && is_space_exec(self.input[self.position])
            invariant
                self.wf(),
                self.input == old(self).input,
                skip_spaces(self.input@, self.position as nat) == skip_spaces(
                    old(self).input@,
                    old(self).position as nat,
                ),
            decreases self.input.len() + 1 - self.position,
        {
            self.position += 1;
        }
    }

    fn peek_char(&self) -> (r: Option<char>)
        requires
            self.wf(),
        ensures
            r == if self.position + 1 < self.input.len() {
                Some(self.input@[self.position + 1])
            } else {
                None::<char>
            },
    {
        if self.position + 1 < self.input.len() {
            Some(self.input[self.position + 1])
        } else {
            None
        }
    }

    fn skip_digits(&mut self)
        requires
            old(self).wf(),
        ensures
            final(self).wf(),
            final(self).input == old(self).input,
            final(self).position == digits_end(old(self).input@, old(self).position as nat),
    {
        while self.position < self.input.len() && is_digit_exec(self.input[self.position])
            invariant
                self.wf(),
                self.input == old(self).input,
                digits_end(self.input@, self.position as nat) == digits_end(
                    old(self).input@,
                    old(self).position as nat,
                ),
            decreases self.input.len() + 1 - self.position,
        {
            self.position += 1;
        }
    }

    fn lex_number(&mut self) -> (r: Token)
        requires
            old(self).wf(),
            old(self).position < old(self).input.len(),
        ensures
            final(self).wf(),
            final(self).input == old(self).input,
            (r.model(), final(self).position as nat) == number_at(
                old(self).input@,
                old(self).position as nat,
            ),
    {
        let start = self.position;
        self.skip_digits();
        let e1 = self.position;
        proof {
            lemma_digits_run(self.input@, start as nat);
        }
        if self.position < self.input.len() && self.input[self.position] == '.' {
            self.position += 1;
            self.skip_digits();
            proof {
                lemma_digits_run(self.input@, (e1 + 1) as nat);
            }
            Token::Number(decimal_exec(&self.input, start, e1, e1 + 1, self.position))
        } else {
            proof {
                assert(self.input@.subrange(e1 as int, e1 as int) =~= Seq::<char>::empty());
            }
            Token::Number(decimal_exec(&self.input, start, e1, e1, e1))
        }
    }

    fn lex_identifier_or_keyword(&mut self) -> (r: Token)
        requires
            old(self).wf(),
            old(self).position < old(self).input.len(),
        ensures
            final(self).wf(),
            final(self).input == old(self).input,
            (r.model(), final(self).position as nat) == (
                word_token(
                    old(self).input@.subrange(
                        old(self).position as int,
                        word_end(old(self).input@, old(self).position as nat) as int,
                    ),
                ),
                word_end(old(self).input@, old(self).position as nat),
            ),
    {
        let start = self.position;
        let mut word: Vec<char> = Vec::new();
        while self.position < self.input.len() && (is_alpha_exec(self.input[self.position])
            || is_digit_exec(self.input[self.position]) || self.input[self.position] == '_')
            invariant
                self.wf(),
                self.input == old(self).input,
                start <= self.position,
                start == old(self).position,
                word@ == self.input@.subrange(start as int, self.position as int),
                word_end(self.input@, self.position as nat) == word_end(
                    old(self).input@,
                    start as nat,
                ),
            decreases self.input.len() + 1 - self.position,
        {
            word.push(self.input[self.position]);
            self.position += 1;
            assert(word@ =~= self.input@.subrange(start as int, self.position as int));
        }
        keyword_token(word)
    }

    fn lex_string(&mut self) -> (r: Token)
        requires
            old(self).wf(),
            old(self).position < old(self).input.len(),
        ensures
            final(self).wf(),
            final(self).input == old(self).input,
            (r.model(), final(self).position as nat) == (
                SToken::String(
                    old(self).input@.subrange(
                        old(self).position + 1,
                        quote_end(old(self).input@, (old(self).position + 1) as nat) as int,
                    ),
                ),
                quote_end(old(self).input@, (old(self).position + 1) as nat) + 1,
            ),
    {
        self.position += 1;
        let start = self.position;
        let mut content: Vec<char> = Vec::new();
        while self.position < self.input.len() && self.input[self.position] != '"'
            invariant
                self.wf(),
                self.input == old(self).input,
                start <= self.position <= self.input.len(),
                start == old(self).position + 1,
                content@ == self.input@.subrange(start as int, self.position as int),
                quote_end(self.input@, self.position as nat) == quote_end(
                    old(self).input@,
                    start as nat,
                ),
            decreases self.input.len() + 1 - self.position,
        {
            content.push(self.input[self.position]);
            self.position += 1;
            assert(content@ =~= self.input@.subrange(start as int, self.position as int));
        }
        self.position += 1;
        Token::String(content)
    }

    /// Reads the next token; at the end of the input, `EOF`, again and again.
    pub fn next_token(&mut self) -> (r: Token)
        requires
            old(self).wf(),
        ensures
            final(self).wf(),
            final(self).text() == old(self).text(),
            (r.model(), final(self).pos()) == token_at(old(self).text(), old(self).pos()),
    {
        self.skip_whitespace();
        if self.position >= self.input.len() {
            return Token::EOF;
        }
        let current = self.input[self.position];
        if is_digit_exec(current) {
            return self.lex_number();
        }
        if is_alpha_exec(current) || current == '_' {
            return self.lex_identifier_or_keyword();
        }
        if current == '"' {
            return self.lex_string();
        }
        if current == '+' || current == '-' || current == '*' || current == '/' {
            self.position += 1;
            let op: Vec<char> = vec![current];
            assert(op@ =~= seq![current]);
            return Token::Operator(op);
        }
        if current == '=' || current == '!' || current == '<' || current == '>' {
            let mut op: Vec<char> = vec![current];
            if self.peek_char() == Some('=') {
                self.position += 1;
                op.push('=');
            }
            self.position += 1;
            proof {
                assert(op@ =~= seq![current] || op@ =~= seq![current, '=']);
            }
            return Token::Operator(op);
        }
        if current == '{' || current == '}' || current == '(' || current == ')' || current == '['
            || current == ']' || current == ';' || current == ':' || current == ',' || current
            == '.' {
            self.position += 1;
            return Token::Symbol(current);
        }
        self.position += 1;
        Token::Unknown(current)
    }

    /// Reads all remaining tokens, up to and including `EOF`.
    pub fn tokenize(&mut self) -> (r: Vec<Token>)
        requires
            old(self).wf(),
        ensures
            final(self).wf(),
            final(self).text() == old(self).text(),
            models(r@) == tokens_from(old(self).text(), old(self).pos()),
    {
        let mut toks: Vec<Token> = Vec::new();
        let len = self.input.len();
        loop
            invariant
                self.wf(),
                self.input@ == old(self).input@,
                len == self.input.len(),
                models(toks@) + tokens_from(self.input@, self.position as nat) == tokens_from(
                    old(self).input@,
                    old(self).position as nat,
                ),
            decreases len + 2 - self.position,
        {
            let p = self.position;
            let t = self.next_token();
            let q = self.position;
            proof {
                assert(models(toks@.push(t)) =~= models(toks@).push(t.model()));
            }
            proof {
                lemma_token_advances(self.input@, p as nat);
            }
            if matches!(t, Token::EOF) {
                let ghost before = toks@;
                toks.push(Token::EOF);
                assert(models(toks@) =~= models(before) + seq![SToken::EOF]);
                return toks;
            }
            let ghost before = toks@;
            toks.push(t);
            assert(models(toks@) =~= models(before) + seq![t.model()]);
            assert(models(toks@) + tokens_from(self.input@, q as nat) =~= models(before) + (seq![t.model()] + tokens_from(self.input@, q as nat)));
        }
    }
}

/// The token stream from `p` has at most one token per remaining character,
/// plus the closing `EOF`, which is its last token.
pub proof fn lemma_tokens_shape(input: Seq<char>, p: nat)
    requires
        p <= input.len() + 1,
    ensures
        1 <= tokens_from(input, p).len() <= input.len() + 2 - p,
        tokens_from(input, p).last() == SToken::EOF,
    decreases input.len() + 1 - p,
{
    let (t, q) = token_at(input, p);
    if t is EOF {
    } else {
        lemma_token_advances(input, p);
        lemma_tokens_shape(input, q);
        assert((seq![t] + tokens_from(input, q)).last() == tokens_from(input, q).last());
    }
}

/// A copy of a text.
pub fn copy_text(s: &Vec<char>) -> (r: Vec<char>)
    ensures
        r@ == s@,
{
    let mut r: Vec<char> = Vec::new();
    let mut i: usize = 0;
    while i < s.len()
        invariant
            i <= s.len(),
            r@ == s@.subrange(0, i as int),
        decreases s.len() - i,
    {
        r.push(s[i]);
        i += 1;
        assert(r@ =~= s@.subrange(0, i as int));
    }
    assert(s@.subrange(0, i as int) =~= s@);
    r
}

/// Models of a sequence of tokens.
pub open spec fn models(ts: Seq<Token>) -> Seq<SToken> {
    ts.map_values(|t: Token| t.model())
}

/// The characters that `digits_end` passes over are digits.
proof fn lemma_digits_run(input: Seq<char>, p: nat)
    requires
        p <= input.len(),
    ensures
        p <= digits_end(input, p) <= input.len(),
        all_digits(input.subrange(p as int, digits_end(input, p) as int)),
    decreases input.len() - p,
{
    if p < input.len() && is_digit(input[p as int]) {
        lemma_digits_run(input, p + 1);
        let e = digits_end(input, p);
        assert forall|i: int| 0 <= i < e - p implies is_digit(
            #[trigger] input.subrange(p as int, e as int)[i],
        ) by {
            if i > 0 {
                assert(input.subrange(p as int, e as int)[i] == input.subrange((p + 1) as int, e as int)[i
                    - 1]);
            }
        }
    }
}

/// The token of a word: keyword, boolean or identifier.
fn keyword_token(word: Vec<char>) -> (r: Token)
    ensures
        r.model() == word_token(word@),
{
    if word_is(&word, "looping") {
        Token::Looping
    } else if word_is(&word, "let") {
        Token::Let
    } else if word_is(&word, "const") {
        Token::Const
    } else if word_is(&word, "fn") {
        Token::Fn
    } else if word_is(&word, "if") {
        Token::If
    } else if word_is(&word, "else") {
        Token::Else
    } else if word_is(&word, "while") {
        Token::While
    } else if word_is(&word, "for") {
        Token::For
    } else if word_is(&word, "return") {
        Token::Return
    } else if word_is(&word, "throw") {
        Token::Throw
    } else if word_is(&word, "try") {
        Token::Try
    } else if word_is(&word, "catch") {
        Token::Catch
    } else if word_is(&word, "switch") {
        Token::Switch
    } else if word_is(&word, "case") {
        Token::Case
    } else if word_is(&word, "break") {
        Token::Break
    } else if word_is(&word, "continue") {
        Token::Continue
    } else if word_is(&word, "true") {
        Token::Boolean(true)
    } else if word_is(&word, "false") {
        Token::Boolean(false)
    } else {
        Token::Identifier(word)
    }
}

} // verus!

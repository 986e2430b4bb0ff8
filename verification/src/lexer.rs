//! Lexer: turns source text into positioned tokens.
//!
//! The spec-level model is [`spec_next_token`], which describes one step of
//! lexing over the view of the input (`Seq<char>`), and [`spec_token_list`],
//! which describes the whole token sequence ending in exactly one `End`.
//! The executable [`Lexer`] is proved to follow that model step by step.
//!
//! Numeric literals are decimal digit runs. A run whose value does not fit
//! in a 32-bit signed integer is outside this library's domain: the callers
//! require [`all_literals_fit`], and the executable [`literals_fit`]
//! decides that condition, so a driver can test it up front.

use vstd::prelude::*;
use vstd::string::StrSliceExecFns;

use crate::error::{ErrorType, QccError, SpecErr};

verus! {

/// A positioned token.
#[derive(Clone, Copy, Debug, PartialEq, Eq, Structural)]
pub struct Token {
    pub kind: TokenKind,
    pub pos: usize,
}

/// The closed set of token kinds. `End` is the sentinel for exhausted input;
/// lexing at or past the end of the input yields `End` again.
#[derive(Clone, Copy, Debug, PartialEq, Eq, Structural)]
pub enum TokenKind {
    Number(i32),
    Plus,
    Minus,
    Multiply,
    Devide,
    LParen,
    RParen,
    Equal,
    Not,
    Less,
    Greater,
    End,
}

/// The only whitespace the lexer skips.
pub open spec fn is_space(c: char) -> bool {
    c == ' '
}

/// ASCII decimal digit.
pub open spec fn is_digit(c: char) -> bool {
    48 <= c as u32 && c as u32 <= 57
}

/// Numeric value of a digit character.
pub open spec fn digit_val(c: char) -> int {
    c as u32 - 48
}

/// First index at or after `i` holding a non-space character (or the length).
pub open spec fn skip_spaces(s: Seq<char>, i: int) -> int
    decreases s.len() - i,
{
    if 0 <= i && i < s.len() && is_space(s[i]) {
        skip_spaces(s, i + 1)
    } else {
        i
    }
}

/// First index at or after `i` holding a non-digit character (or the length).
pub open spec fn digits_end(s: Seq<char>, i: int) -> int
    decreases s.len() - i,
{
    if 0 <= i && i < s.len() && is_digit(s[i]) {
        digits_end(s, i + 1)
    } else {
        i
    }
}

/// Decimal value of the characters of `s` in `[i, j)`.
pub open spec fn digits_val(s: Seq<char>, i: int, j: int) -> int
    decreases j - i,
{
    if i < j {
        digits_val(s, i, j - 1) * 10 + digit_val(s[j - 1])
    } else {
        0
    }
}

/// Every character of `s` in `[i, j)` is a digit.
pub open spec fn all_digits(s: Seq<char>, i: int, j: int) -> bool {
    forall|k: int| i <= k < j ==> is_digit(#[trigger] s[k])
}

/// Every all-digit span of `s` that ends at or before `p` names a value
/// below `2^31`. Stated over all spans, which gives the bound for every
/// prefix of a digit run as well.
pub open spec fn fit_upto(s: Seq<char>, p: int) -> bool {
    forall|i: int, j: int|
        0 <= i <= j <= p && j <= s.len() && all_digits(s, i, j) ==> #[trigger] digits_val(s, i, j)
            < 0x8000_0000
}

/// Every digit run in `s` names a value below `2^31`, so each literal fits
/// in `i32`.
pub open spec fn all_literals_fit(s: Seq<char>) -> bool {
    fit_upto(s, s.len() as int)
}

/// One step of lexing: either a token together with the cursor position
/// after it, or a failure.
pub enum LexStep {
    Tok { token: Token, next: int },
    Fail(SpecErr),
}

/// What one call of [`Lexer::next_token`] at position `i` returns: skip
/// spaces, then classify the current character.
pub open spec fn spec_next_token(s: Seq<char>, i: int) -> LexStep {
    let j = skip_spaces(s, i);
    if j >= s.len() {
        LexStep::Tok { token: Token { kind: TokenKind::End, pos: j as usize }, next: j }
    } else {
        let c = s[j];
        if is_digit(c) {
            let e = digits_end(s, j);
            LexStep::Tok {
                token: Token { kind: TokenKind::Number(digits_val(s, j, e) as i32), pos: j as usize },
                next: e,
            }
        } else if c == '+' {
            LexStep::Tok { token: Token { kind: TokenKind::Plus, pos: j as usize }, next: j + 1 }
        } else if c == '-' {
            LexStep::Tok { token: Token { kind: TokenKind::Minus, pos: j as usize }, next: j + 1 }
        } else if c == '*' {
            LexStep::Tok { token: Token { kind: TokenKind::Multiply, pos: j as usize }, next: j + 1 }
        } else if c == '/' {
            LexStep::Tok { token: Token { kind: TokenKind::Devide, pos: j as usize }, next: j + 1 }
        } else if c == '(' {
            LexStep::Tok { token: Token { kind: TokenKind::LParen, pos: j as usize }, next: j + 1 }
        } else if c == ')' {
            LexStep::Tok { token: Token { kind: TokenKind::RParen, pos: j as usize }, next: j + 1 }
        } else if c == '=' {
            LexStep::Tok { token: Token { kind: TokenKind::Equal, pos: j as usize }, next: j + 1 }
        } else if c == '!' {
            LexStep::Tok { token: Token { kind: TokenKind::Not, pos: j as usize }, next: j + 1 }
        } else if c == '<' {
            LexStep::Tok { token: Token { kind: TokenKind::Less, pos: j as usize }, next: j + 1 }
        } else if c == '>' {
            LexStep::Tok { token: Token { kind: TokenKind::Greater, pos: j as usize }, next: j + 1 }
        } else {
            LexStep::Fail(
                SpecErr { kind: ErrorType::UnexpectedChar, pos: j, msg: "unknown expression"@ },
            )
        }
    }
}

/// The fully lexed input, or the first failure.
pub enum LexedList {
    Toks(Seq<Token>),
    Fail(SpecErr),
}

/// The token sequence of `s` from position `i` on: the tokens in order,
/// ending in exactly one `End`.
pub open spec fn spec_token_list(s: Seq<char>, i: int) -> LexedList
    decreases s.len() - i,
{
    if !(0 <= i && i < s.len()) {
        match spec_next_token(s, i) {
            LexStep::Tok { token, next } => LexedList::Toks(seq![token]),
            LexStep::Fail(e) => LexedList::Fail(e),
        }
    } else {
        match spec_next_token(s, i) {
            LexStep::Fail(e) => LexedList::Fail(e),
            LexStep::Tok { token, next } => {
                if token.kind is End {
                    LexedList::Toks(seq![token])
                } else {
                    let m = if i < next && next <= s.len() {
                        next
                    } else {
                        i + 1
                    };
                    match spec_token_list(s, m) {
                        LexedList::Toks(rest) => LexedList::Toks(seq![token] + rest),
                        LexedList::Fail(e) => LexedList::Fail(e),
                    }
                }
            },
        }
    }
}

/// Holds the source text and a cursor.
pub struct Lexer<'a> {
    input: &'a str,
    pos: usize,
}

impl<'a> Lexer<'a> {
    /// The view of the source text.
    pub closed spec fn spec_input(&self) -> Seq<char> {
        self.input@
    }

    /// The cursor position, as a character index.
    pub closed spec fn spec_pos(&self) -> int {
        self.pos as int
    }

    /// The cursor never runs past the end of the input, and the input's
    /// character count fits the machine's word.
    pub closed spec fn wf(&self) -> bool {
        self.pos <= self.input@.len() && self.input@.len() <= usize::MAX
    }

    /// A fresh lexer at the start of `s`.
    pub fn new(s: &'a str) -> (r: Lexer<'a>)
        ensures
            r.wf(),
            r.spec_input() == s@,
            r.spec_pos() == 0,
    {
        // counting the characters shows that the count fits `usize`,
        // which `wf` records
        let _n = s.unicode_len();
        Lexer { input: s, pos: 0 }
    }

    /// True when the cursor stands on a digit.
    fn peek_digit(&self) -> (r: bool)
        requires
            self.wf(),
        ensures
            r == (self.spec_pos() < self.spec_input().len() && is_digit(
                self.spec_input()[self.spec_pos()],
            )),
    {
        if self.pos < self.input.unicode_len() {
            let c = self.input.get_char(self.pos);
            let u = c as u32;
            48 <= u && u <= 57
        } else {
            false
        }
    }

    /// True when the cursor stands on a space.
    fn peek_space(&self) -> (r: bool)
        requires
            self.wf(),
        ensures
            r == (self.spec_pos() < self.spec_input().len() && is_space(
                self.spec_input()[self.spec_pos()],
            )),
    {
        if self.pos < self.input.unicode_len() {
            self.input.get_char(self.pos) == ' '
        } else {
            false
        }
    }

    /// The next token of the input, as [`spec_next_token`] describes it.
    /// Lexing past the end keeps yielding `End`.
    pub fn next_token(&mut self) -> (r: Result<Token, QccError>)
        requires
            old(self).wf(),
            all_literals_fit(old(self).spec_input()),
        ensures
            final(self).wf(),
            final(self).spec_input() == old(self).spec_input(),
            match spec_next_token(old(self).spec_input(), old(self).spec_pos()) {
                LexStep::Tok { token, next } => {
                    &&& r matches Ok(t) && t == token
                    &&& final(self).spec_pos() == next
                    &&& old(self).spec_pos() <= next <= old(self).spec_input().len()
                    &&& !(token.kind is End) ==> next > old(self).spec_pos()
                },
                LexStep::Fail(e) => r matches Err(q) && q@ == e,
            },
    {
        let ghost s = self.input@;
        let ghost p0 = self.pos as int;
        while self.peek_space()
            invariant
                self.wf(),
                self.input@ == s,
                p0 <= self.pos as int,
                skip_spaces(s, p0) == skip_spaces(s, self.pos as int),
            decreases s.len() - self.pos,
        {
            self.pos = self.pos + 1;
        }
        proof {
            assert(skip_spaces(s, self.pos as int) == self.pos as int);
            assert(skip_spaces(s, p0) == self.pos as int);
        }
        if self.pos >= self.input.unicode_len() {
            return Ok(Token { kind: TokenKind::End, pos: self.pos });
        }
        let c = self.input.get_char(self.pos);
        let u = c as u32;
        if 48 <= u && u <= 57 {
            self.lex_number()
        } else if c == '+' {
            self.lex_plus()
        } else if c == '-' {
            self.lex_minus()
        } else if c == '*' {
            self.lex_multply()
        } else if c == '/' {
            self.lex_devide()
        } else if c == '(' {
            self.lex_lparen()
        } else if c == ')' {
            self.lex_rparen()
        } else if c == '=' {
            self.lex_equal()
        } else if c == '!' {
            self.lex_not()
        } else if c == '<' {
            self.lex_less()
        } else if c == '>' {
            self.lex_greater()
        } else {
            Err(QccError {
                kind: ErrorType::UnexpectedChar,
                pos: self.pos,
                message: String::from_str("unknown expression"),
            })
        }
    }

    fn lex_plus(&mut self) -> (r: Result<Token, QccError>)
        requires
            old(self).wf(),
            old(self).spec_pos() < old(self).spec_input().len(),
        ensures
            final(self).wf(),
            final(self).spec_input() == old(self).spec_input(),
            final(self).spec_pos() == old(self).spec_pos() + 1,
            r matches Ok(t) && t == (Token { kind: TokenKind::Plus, pos: old(self).pos }),
    {
        self.pos = self.pos + 1;
        Ok(Token { kind: TokenKind::Plus, pos: self.pos - 1 })
    }

    fn lex_minus(&mut self) -> (r: Result<Token, QccError>)
        requires
            old(self).wf(),
            old(self).spec_pos() < old(self).spec_input().len(),
        ensures
            final(self).wf(),
            final(self).spec_input() == old(self).spec_input(),
            final(self).spec_pos() == old(self).spec_pos() + 1,
            r matches Ok(t) && t == (Token { kind: TokenKind::Minus, pos: old(self).pos }),
    {
        self.pos = self.pos + 1;
        Ok(Token { kind: TokenKind::Minus, pos: self.pos - 1 })
    }

    fn lex_multply(&mut self) -> (r: Result<Token, QccError>)
        requires
            old(self).wf(),
            old(self).spec_pos() < old(self).spec_input().len(),
        ensures
            final(self).wf(),
            final(self).spec_input() == old(self).spec_input(),
            final(self).spec_pos() == old(self).spec_pos() + 1,
            r matches Ok(t) && t == (Token { kind: TokenKind::Multiply, pos: old(self).pos }),
    {
        self.pos = self.pos + 1;
        Ok(Token { kind: TokenKind::Multiply, pos: self.pos - 1 })
    }

    fn lex_devide(&mut self) -> (r: Result<Token, QccError>)
        requires
            old(self).wf(),
            old(self).spec_pos() < old(self).spec_input().len(),
        ensures
            final(self).wf(),
            final(self).spec_input() == old(self).spec_input(),
            final(self).spec_pos() == old(self).spec_pos() + 1,
            r matches Ok(t) && t == (Token { kind: TokenKind::Devide, pos: old(self).pos }),
    {
        self.pos = self.pos + 1;
        Ok(Token { kind: TokenKind::Devide, pos: self.pos - 1 })
    }

    fn lex_lparen(&mut self) -> (r: Result<Token, QccError>)
        requires
            old(self).wf(),
            old(self).spec_pos() < old(self).spec_input().len(),
        ensures
            final(self).wf(),
            final(self).spec_input() == old(self).spec_input(),
            final(self).spec_pos() == old(self).spec_pos() + 1,
            r matches Ok(t) && t == (Token { kind: TokenKind::LParen, pos: old(self).pos }),
    {
        self.pos = self.pos + 1;
        Ok(Token { kind: TokenKind::LParen, pos: self.pos - 1 })
    }

    fn lex_rparen(&mut self) -> (r: Result<Token, QccError>)
        requires
            old(self).wf(),
            old(self).spec_pos() < old(self).spec_input().len(),
        ensures
            final(self).wf(),
            final(self).spec_input() == old(self).spec_input(),
            final(self).spec_pos() == old(self).spec_pos() + 1,
            r matches Ok(t) && t == (Token { kind: TokenKind::RParen, pos: old(self).pos }),
    {
        self.pos = self.pos + 1;
        Ok(Token { kind: TokenKind::RParen, pos: self.pos - 1 })
    }

    fn lex_equal(&mut self) -> (r: Result<Token, QccError>)
        requires
            old(self).wf(),
            old(self).spec_pos() < old(self).spec_input().len(),
        ensures
            final(self).wf(),
            final(self).spec_input() == old(self).spec_input(),
            final(self).spec_pos() == old(self).spec_pos() + 1,
            r matches Ok(t) && t == (Token { kind: TokenKind::Equal, pos: old(self).pos }),
    {
        self.pos = self.pos + 1;
        Ok(Token { kind: TokenKind::Equal, pos: self.pos - 1 })
    }

    fn lex_not(&mut self) -> (r: Result<Token, QccError>)
        requires
            old(self).wf(),
            old(self).spec_pos() < old(self).spec_input().len(),
        ensures
            final(self).wf(),
            final(self).spec_input() == old(self).spec_input(),
            final(self).spec_pos() == old(self).spec_pos() + 1,
            r matches Ok(t) && t == (Token { kind: TokenKind::Not, pos: old(self).pos }),
    {
        self.pos = self.pos + 1;
        Ok(Token { kind: TokenKind::Not, pos: self.pos - 1 })
    }

    fn lex_less(&mut self) -> (r: Result<Token, QccError>)
        requires
            old(self).wf(),
            old(self).spec_pos() < old(self).spec_input().len(),
        ensures
            final(self).wf(),
            final(self).spec_input() == old(self).spec_input(),
            final(self).spec_pos() == old(self).spec_pos() + 1,
            r matches Ok(t) && t == (Token { kind: TokenKind::Less, pos: old(self).pos }),
    {
        self.pos = self.pos + 1;
        Ok(Token { kind: TokenKind::Less, pos: self.pos - 1 })
    }

    fn lex_greater(&mut self) -> (r: Result<Token, QccError>)
        requires
            old(self).wf(),
            old(self).spec_pos() < old(self).spec_input().len(),
        ensures
            final(self).wf(),
            final(self).spec_input() == old(self).spec_input(),
            final(self).spec_pos() == old(self).spec_pos() + 1,
            r matches Ok(t) && t == (Token { kind: TokenKind::Greater, pos: old(self).pos }),
    {
        self.pos = self.pos + 1;
        Ok(Token { kind: TokenKind::Greater, pos: self.pos - 1 })
    }

    /// Lexes the digit run under the cursor as a decimal literal.
    fn lex_number(&mut self) -> (r: Result<Token, QccError>)
        requires
            old(self).wf(),
            all_literals_fit(old(self).spec_input()),
            old(self).spec_pos() < old(self).spec_input().len(),
            is_digit(old(self).spec_input()[old(self).spec_pos()]),
        ensures
            final(self).wf(),
            final(self).spec_input() == old(self).spec_input(),
            final(self).spec_pos() == digits_end(old(self).spec_input(), old(self).spec_pos()),
            old(self).spec_pos() < final(self).spec_pos() <= old(self).spec_input().len(),
            r matches Ok(t) && t == (Token {
                kind: TokenKind::Number(
                    digits_val(
                        old(self).spec_input(),
                        old(self).spec_pos(),
                        digits_end(old(self).spec_input(), old(self).spec_pos()),
                    ) as i32,
                ),
                pos: old(self).pos,
            }),
    {
        let ghost s = self.input@;
        let start = self.pos;
        let mut val: i32 = 0;
        while self.peek_digit()
            invariant
                self.wf(),
                self.input@ == s,
                all_literals_fit(s),
                start <= self.pos,
                all_digits(s, start as int, self.pos as int),
                digits_end(s, start as int) == digits_end(s, self.pos as int),
                0 <= val,
                val == digits_val(s, start as int, self.pos as int),
            decreases s.len() - self.pos,
        {
            let ghost p = self.pos as int;
            let c = self.input.get_char(self.pos);
            let d = (c as u32) - 48;
            proof {
                assert(all_digits(s, start as int, p + 1)) by {
                    assert(forall|k: int|
                        start <= k < p + 1 ==> is_digit(#[trigger] s[k]));
                }
                assert(digits_val(s, start as int, p + 1) == digits_val(s, start as int, p) * 10
                    + digit_val(s[p]));
                assert(digits_val(s, start as int, p + 1) < 0x8000_0000);
                assert(digit_val(s[p]) == d);
                assert(0 <= digit_val(s[p]) <= 9);
            }
            let v10 = val * 10;
            val = v10 + (d as i32);
            self.pos = self.pos + 1;
        }
        proof {
            assert(digits_end(s, self.pos as int) == self.pos as int);
            assert(digits_end(s, start as int) > start as int);
        }
        Ok(Token { kind: TokenKind::Number(val), pos: start })
    }
}

/// Every token but `End` consumes at least one character, so the token
/// sequence of the text from position `i` on holds at most one token per
/// remaining character, plus the sentinel.
pub proof fn lemma_token_list_len(s: Seq<char>, i: int)
    requires
        0 <= i <= s.len(),
    ensures
        match spec_token_list(s, i) {
            LexedList::Toks(list) => list.len() <= s.len() - i + 1,
            LexedList::Fail(_) => true,
        },
    decreases s.len() - i,
{
    if 0 <= i && i < s.len() {
        match spec_next_token(s, i) {
            LexStep::Tok { token, next } => {
                if !(token.kind is End) {
                    let m = if i < next && next <= s.len() {
                        next
                    } else {
                        i + 1
                    };
                    lemma_token_list_len(s, m);
                }
            },
            LexStep::Fail(_) => {},
        }
    }
}

/// The value of an all-digit span is never negative.
proof fn lemma_digits_val_nonneg(s: Seq<char>, i: int, j: int)
    requires
        all_digits(s, i, j),
    ensures
        digits_val(s, i, j) >= 0,
    decreases j - i,
{
    if i < j {
        lemma_digits_val_nonneg(s, i, j - 1);
        assert(is_digit(s[j - 1]));
    }
}

/// Extending an all-digit span to the right can only grow its value.
proof fn lemma_digits_val_right_mono(s: Seq<char>, i: int, j: int, k: int)
    requires
        i <= j <= k,
        all_digits(s, i, k),
    ensures
        digits_val(s, i, j) <= digits_val(s, i, k),
    decreases k - j,
{
    if j < k {
        lemma_digits_val_right_mono(s, i, j, k - 1);
        lemma_digits_val_nonneg(s, i, k - 1);
        assert(is_digit(s[k - 1]));
    }
}

/// Dropping digits from the left can only shrink the value.
proof fn lemma_digits_val_left_mono(s: Seq<char>, a: int, i: int, j: int)
    requires
        a <= i <= j,
        all_digits(s, a, j),
    ensures
        digits_val(s, i, j) <= digits_val(s, a, j),
    decreases j - i,
{
    if j <= i {
        lemma_digits_val_nonneg(s, a, j);
    } else {
        lemma_digits_val_left_mono(s, a, i, j - 1);
        assert(is_digit(s[j - 1]));
    }
}

/// A non-digit character moves the fit bound one position to the right.
proof fn lemma_fit_step_nondigit(s: Seq<char>, p: int)
    requires
        fit_upto(s, p),
        0 <= p < s.len(),
        !is_digit(s[p]),
    ensures
        fit_upto(s, p + 1),
{
    assert forall|i: int, j: int|
        0 <= i <= j <= p + 1 && j <= s.len() && all_digits(s, i, j) implies #[trigger] digits_val(
        s,
        i,
        j,
    ) < 0x8000_0000 by {
        if j == p + 1 && i < j {
            assert(is_digit(s[p]));
        }
    }
}

/// A whole digit run whose value fits moves the fit bound past the run,
/// because every all-digit span ending inside the run sits inside it and
/// names a part of its value.
proof fn lemma_fit_run(s: Seq<char>, start: int, end: int)
    requires
        fit_upto(s, start),
        0 <= start <= end <= s.len(),
        start == 0 || !is_digit(s[start - 1]),
        all_digits(s, start, end),
        digits_val(s, start, end) < 0x8000_0000,
    ensures
        fit_upto(s, end),
{
    assert forall|i: int, j: int|
        0 <= i <= j <= end && j <= s.len() && all_digits(s, i, j) implies #[trigger] digits_val(
        s,
        i,
        j,
    ) < 0x8000_0000 by {
        if j > start {
            if i < start {
                assert(is_digit(s[start - 1]));
            } else {
                lemma_digits_val_left_mono(s, start, i, j);
                lemma_digits_val_right_mono(s, start, j, end);
            }
        }
    }
}

/// True when the character at index `i` of `s` exists and is a digit.
fn digit_at(s: &str, i: usize) -> (r: bool)
    requires
        s@.len() <= usize::MAX,
    ensures
        r == (i < s@.len() && is_digit(s@[i as int])),
{
    if i < s.unicode_len() {
        let u = s.get_char(i) as u32;
        48 <= u && u <= 57
    } else {
        false
    }
}

/// Decides [`all_literals_fit`]: every decimal literal in `s` fits in a
/// 32-bit signed integer. A driver can call this before handing text to the
/// compiler, whose entry points require that condition.
pub fn literals_fit(s: &str) -> (r: bool)
    ensures
        r == all_literals_fit(s@),
{
    let ghost sv = s@;
    let len = s.unicode_len();
    let mut i: usize = 0;
    while i < len
        invariant
            i <= len,
            len == sv.len(),
            sv == s@,
            fit_upto(sv, i as int),
            i == 0 || !is_digit(sv[i as int - 1]) || i == len || !is_digit(sv[i as int]),
        decreases len - i,
    {
        let c = s.get_char(i);
        let u = c as u32;
        if 48 <= u && u <= 57 {
            let ghost start = i as int;
            let mut val: u64 = 0;
            while digit_at(s, i)
                invariant
                    0 <= start <= i as int,
                    i <= len,
                    len == sv.len(),
                    sv == s@,
                    fit_upto(sv, start),
                    start == 0 || !is_digit(sv[start - 1]),
                    is_digit(sv[start]),
                    all_digits(sv, start, i as int),
                    0 <= val < 0x8000_0000,
                    val == digits_val(sv, start, i as int),
                decreases len - i,
            {
                let ghost p = i as int;
                let d = ((s.get_char(i) as u32) - 48) as u64;
                proof {
                    assert(all_digits(sv, start, p + 1)) by {
                        assert(forall|k: int| start <= k < p + 1 ==> is_digit(#[trigger] sv[k]));
                    }
                    assert(digits_val(sv, start, p + 1) == digits_val(sv, start, p) * 10
                        + digit_val(sv[p]));
                    assert(digit_val(sv[p]) == d);
                }
                let nv = val * 10 + d;
                if nv >= 0x8000_0000 {
                    proof {
                        assert(digits_val(sv, start, p + 1) >= 0x8000_0000);
                        assert(!all_literals_fit(sv)) by {
                            if all_literals_fit(sv) {
                                assert(digits_val(sv, start, p + 1) < 0x8000_0000);
                            }
                        }
                    }
                    return false;
                }
                val = nv;
                i = i + 1;
            }
            proof {
                if i as int == start {
                    assert(false);
                }
                lemma_fit_run(sv, start, i as int);
            }
        } else {
            proof {
                lemma_fit_step_nondigit(sv, i as int);
            }
            i = i + 1;
        }
    }
    true
}

} // verus!

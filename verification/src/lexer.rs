//! Lexical analysis: character stream to token stream.
//!
//! The lexer scans the source one character at a time, keeping an
//! accumulation buffer, a string-depth counter, a parameter-depth counter
//! and a comment flag. Whenever a punctuation character (or a space or a
//! newline) ends the buffered text, the end-of-token reducer classifies the
//! buffer into a token, consulting the token history to resolve repeated
//! identifiers.
//!
//! The whole scan is modelled by the spec functions [`stepped`] (one
//! character), [`flushed`] (the end-of-token reducer) and [`lex_spec`]
//! (the full scan); [`tokeniser`] is verified to return exactly what
//! [`lex_spec`] says.
//!
//! Two consequences of the reducer's order are worth knowing. The
//! integer-literal and keyword checks come before the classification by
//! the preceding token, so a double-quoted payload that reads as a
//! literal or keyword is classified as that token, not as string text:
//! `"true"` between quotes becomes a `Boolean`, `"123"` a `Number`. And
//! identifiers are built from ASCII letters and digits only; any other
//! character outside a comment, string or parameter list fails the scan
//! with `InvalidCharacter`.

use vstd::prelude::*;

use crate::token::LexError;
use crate::token::Token;
use crate::token::TokenModel;
use crate::token::tokens_view;

verus! {

/// An ASCII decimal digit.
pub open spec fn is_digit_char(c: char) -> bool {
    48 <= c as u32 <= 57
}

/// An ASCII letter. Identifiers and keywords are built from these.
pub open spec fn is_letter_char(c: char) -> bool {
    (65 <= c as u32 <= 90) || (97 <= c as u32 <= 122)
}

/// Every character of `s` is a decimal digit.
pub open spec fn all_digits(s: Seq<char>) -> bool {
    forall|i: int| 0 <= i < s.len() ==> is_digit_char(#[trigger] s[i])
}

/// The value of a run of decimal digits, most significant first.
pub open spec fn digits_val(s: Seq<char>) -> int
    decreases s.len(),
{
    if s.len() == 0 {
        0
    } else {
        digits_val(s.drop_last()) * 10 + (s.last() as u32 - 48)
    }
}

/// The buffer parses as an integer literal: a non-empty run of digits
/// whose value fits the target integer type.
pub open spec fn is_int_literal(s: Seq<char>) -> bool {
    s.len() > 0 && all_digits(s) && digits_val(s) <= i32::MAX as int
}

/// The canonical decimal text of a digit run: leading zeros removed,
/// except that a run of only zeros keeps one.
pub open spec fn strip_zeros(s: Seq<char>) -> Seq<char>
    decreases s.len(),
{
    if s.len() <= 1 {
        s
    } else if s[0] == '0' {
        strip_zeros(s.drop_first())
    } else {
        s
    }
}

/// The token that a repeated identifier resolves to: the kind of the
/// first earlier `VarName` or `FuncName` token whose payload is `name`.
pub open spec fn history_kind(toks: Seq<TokenModel>, name: Seq<char>) -> Option<TokenModel>
    decreases toks.len(),
{
    if toks.len() == 0 {
        None
    } else {
        match toks[0] {
            TokenModel::VarName(n) => if n == name {
                Some(TokenModel::VarName(n))
            } else {
                history_kind(toks.drop_first(), name)
            },
            TokenModel::FuncName(n) => if n == name {
                Some(TokenModel::FuncName(n))
            } else {
                history_kind(toks.drop_first(), name)
            },
            _ => history_kind(toks.drop_first(), name),
        }
    }
}

/// The running state of the lexer.
pub struct LexState {
    /// Tokens emitted so far; doubles as the name history.
    pub toks: Seq<TokenModel>,
    /// The accumulation buffer for the token being built.
    pub buf: Seq<char>,
    /// String depth: 0 outside a string literal, incremented on each `"`.
    pub making_string: int,
    /// Parameter depth: nesting of parentheses inside a parameter list.
    pub making_params: int,
    /// Whether the scan is inside a `#` comment.
    pub making_comment: bool,
}

/// The state the lexer starts in: nothing emitted, nothing buffered.
pub open spec fn init_state() -> LexState {
    LexState {
        toks: Seq::empty(),
        buf: Seq::empty(),
        making_string: 0,
        making_params: 0,
        making_comment: false,
    }
}

/// The end-of-token reducer: classifies the buffered text into a token.
///
/// In order: an empty buffer flushes to nothing; a comment buffer becomes a
/// `Comment` token; inside a parameter list the raw buffer becomes a
/// `Parameters` token; then an integer literal, the fixed keyword set
/// (including `true`/`false`), classification by the immediately preceding
/// token, and finally the name history. A buffer that matches nothing
/// fails with `UnknownIdentifier`.
pub open spec fn flushed(st: LexState) -> Result<LexState, LexError> {
    if st.buf.len() == 0 {
        Ok(st)
    } else if st.making_comment {
        Ok(LexState {
            toks: st.toks.push(TokenModel::Comment(st.buf)),
            buf: Seq::empty(),
            making_string: st.making_string,
            making_params: st.making_params,
            making_comment: false,
        })
    } else if st.making_params >= 1 {
        Ok(emitted(st, TokenModel::Parameters(st.buf)))
    } else if is_int_literal(st.buf) {
        Ok(emitted(st, TokenModel::Number(strip_zeros(st.buf), digits_val(st.buf))))
    } else if st.buf == "="@ {
        Ok(emitted(st, TokenModel::EqualsTo))
    } else if st.buf == "=="@ {
        Ok(emitted(st, TokenModel::Equality))
    } else if st.buf == "int"@ {
        Ok(emitted(st, TokenModel::LetInt))
    } else if st.buf == "string"@ {
        Ok(emitted(st, TokenModel::LetString))
    } else if st.buf == "bool"@ {
        Ok(emitted(st, TokenModel::LetBool))
    } else if st.buf == "proc"@ {
        Ok(emitted(st, TokenModel::Function))
    } else if st.buf == "print"@ {
        Ok(emitted(st, TokenModel::Print))
    } else if st.buf == "true"@ {
        Ok(emitted(st, TokenModel::Boolean(true)))
    } else if st.buf == "false"@ {
        Ok(emitted(st, TokenModel::Boolean(false)))
    } else if st.toks.len() > 0 && (st.toks.last() is LetInt || st.toks.last() is LetString
        || st.toks.last() is LetBool) {
        Ok(emitted(st, TokenModel::VarName(st.buf)))
    } else if st.toks.len() > 0 && st.toks.last() is Function {
        Ok(emitted(st, TokenModel::FuncName(st.buf)))
    } else if st.toks.len() > 0 && st.toks.last() is LParen {
        Ok(emitted(st, TokenModel::Parameters(st.buf)))
    } else if st.toks.len() > 0 && st.toks.last() is DblQuote {
        if st.making_string == 1 {
            Ok(emitted(st, TokenModel::Strings(st.buf)))
        } else if st.making_string == 2 {
            Ok(LexState {
                toks: st.toks.push(TokenModel::Strings(st.buf)),
                buf: Seq::empty(),
                making_string: 0,
                making_params: st.making_params,
                making_comment: st.making_comment,
            })
        } else {
            Ok(LexState {
                toks: st.toks,
                buf: Seq::empty(),
                making_string: st.making_string,
                making_params: st.making_params,
                making_comment: st.making_comment,
            })
        }
    } else {
        match history_kind(st.toks, st.buf) {
            Some(t) => Ok(emitted(st, t)),
            None => Err(LexError::UnknownIdentifier),
        }
    }
}

/// `st` with `t` appended and the buffer cleared; the mode fields stay.
pub open spec fn emitted(st: LexState, t: TokenModel) -> LexState {
    LexState {
        toks: st.toks.push(t),
        buf: Seq::empty(),
        making_string: st.making_string,
        making_params: st.making_params,
        making_comment: st.making_comment,
    }
}

/// Flush the buffer, then emit the punctuation token `t` itself.
pub open spec fn flush_then(st: LexState, t: TokenModel) -> Result<LexState, LexError> {
    match flushed(st) {
        Ok(f) => Ok(LexState {
            toks: f.toks.push(t),
            buf: f.buf,
            making_string: f.making_string,
            making_params: f.making_params,
            making_comment: f.making_comment,
        }),
        Err(e) => Err(e),
    }
}

/// `st` with `c` appended to the accumulation buffer.
pub open spec fn buffered(st: LexState, c: char) -> LexState {
    LexState {
        toks: st.toks,
        buf: st.buf.push(c),
        making_string: st.making_string,
        making_params: st.making_params,
        making_comment: st.making_comment,
    }
}

/// One character of the scan.
///
/// Inside a comment everything but a newline accumulates. Digits, letters,
/// characters inside a string literal (other than `"`), and characters
/// inside a parameter list (other than the parentheses that change its
/// depth) accumulate too. Punctuation flushes the buffer and emits its own
/// token; `=` and `#` accumulate; a character outside the supported
/// classes fails with `InvalidCharacter`.
pub open spec fn stepped(st: LexState, c: char) -> Result<LexState, LexError> {
    if st.making_comment {
        if c == '\n' {
            flush_then(st, TokenModel::NewLine)
        } else {
            Ok(buffered(st, c))
        }
    } else if is_digit_char(c) || is_letter_char(c) || (st.making_string > 0 && c != '"') || (
    st.making_params >= 1 && c != ')' && c != '(') {
        Ok(buffered(st, c))
    } else if c == '+' {
        flush_then(st, TokenModel::Plus)
    } else if c == '-' {
        flush_then(st, TokenModel::Minus)
    } else if c == '*' {
        flush_then(st, TokenModel::Multiply)
    } else if c == '/' {
        flush_then(st, TokenModel::Divide)
    } else if c == '"' {
        flush_then(
            LexState {
                toks: st.toks,
                buf: st.buf,
                making_string: st.making_string + 1,
                making_params: st.making_params,
                making_comment: st.making_comment,
            },
            TokenModel::DblQuote,
        )
    } else if c == '\'' {
        flush_then(st, TokenModel::SglQuote)
    } else if c == '(' {
        if st.making_params == 0 {
            match flushed(st) {
                Ok(f) => Ok(LexState {
                    toks: f.toks.push(TokenModel::LParen),
                    buf: f.buf,
                    making_string: f.making_string,
                    making_params: f.making_params + 1,
                    making_comment: f.making_comment,
                }),
                Err(e) => Err(e),
            }
        } else {
            Ok(LexState {
                toks: st.toks,
                buf: st.buf.push(c),
                making_string: st.making_string,
                making_params: st.making_params + 1,
                making_comment: st.making_comment,
            })
        }
    } else if c == ')' {
        if st.making_params == 0 {
            flush_then(st, TokenModel::RParen)
        } else if st.making_params == 1 {
            match flushed(st) {
                Ok(f) => Ok(LexState {
                    toks: f.toks.push(TokenModel::RParen),
                    buf: f.buf,
                    making_string: f.making_string,
                    making_params: f.making_params - 1,
                    making_comment: f.making_comment,
                }),
                Err(e) => Err(e),
            }
        } else {
            Ok(LexState {
                toks: st.toks,
                buf: st.buf.push(c),
                making_string: st.making_string,
                making_params: st.making_params - 1,
                making_comment: st.making_comment,
            })
        }
    } else if c == '{' {
        flush_then(st, TokenModel::LSquirly)
    } else if c == '}' {
        flush_then(st, TokenModel::RSquirly)
    } else if c == ',' {
        flush_then(st, TokenModel::Comma)
    } else if c == '\n' {
        flush_then(st, TokenModel::NewLine)
    } else if c == ' ' {
        if st.making_params == 0 {
            flushed(st)
        } else {
            Ok(buffered(st, c))
        }
    } else if c == ';' {
        flush_then(st, TokenModel::Semicolon)
    } else if c == '=' {
        Ok(buffered(st, c))
    } else if c == '#' {
        Ok(LexState {
            toks: st.toks,
            buf: st.buf.push(c),
            making_string: st.making_string,
            making_params: st.making_params,
            making_comment: true,
        })
    } else {
        Err(LexError::InvalidCharacter)
    }
}

/// The scan of `s` starting from state `st`.
pub open spec fn lex_from(st: LexState, s: Seq<char>) -> Result<LexState, LexError>
    decreases s.len(),
{
    if s.len() == 0 {
        Ok(st)
    } else {
        match stepped(st, s[0]) {
            Ok(st2) => lex_from(st2, s.drop_first()),
            Err(e) => Err(e),
        }
    }
}

/// What lexing the whole source yields: the emitted tokens, in order.
/// Text still buffered when the input ends is not flushed.
pub open spec fn lex_spec(s: Seq<char>) -> Result<Seq<TokenModel>, LexError> {
    match lex_from(init_state(), s) {
        Ok(st) => Ok(st.toks),
        Err(e) => Err(e),
    }
}

/// Scanning one more character continues from the state the prefix reached.
pub proof fn lemma_lex_from_snoc(st: LexState, s: Seq<char>, c: char)
    ensures
        lex_from(st, s.push(c)) == (match lex_from(st, s) {
            Ok(m) => stepped(m, c),
            Err(e) => Err(e),
        }),
    decreases s.len(),
{
    if s.len() == 0 {
        assert(s.push(c)[0] == c);
        assert(s.push(c).drop_first() =~= Seq::<char>::empty());
        match stepped(st, c) {
            Ok(m) => {
                assert(lex_from(st, s.push(c)) == lex_from(m, s.push(c).drop_first()));
                assert(lex_from(m, Seq::<char>::empty()) == Ok::<LexState, LexError>(m));
            },
            Err(_) => {},
        }
    } else {
        assert(s.push(c)[0] == s[0]);
        assert(s.push(c).drop_first() =~= s.drop_first().push(c));
        match stepped(st, s[0]) {
            Ok(st2) => {
                lemma_lex_from_snoc(st2, s.drop_first(), c);
            },
            Err(_) => {},
        }
    }
}

/// The value of a digit run is never negative.
pub proof fn lemma_digits_val_nonneg(s: Seq<char>)
    requires
        all_digits(s),
    ensures
        digits_val(s) >= 0,
    decreases s.len(),
{
    if s.len() > 0 {
        assert(all_digits(s.drop_last()));
        lemma_digits_val_nonneg(s.drop_last());
    }
}

/// Extending a digit run never shrinks its value.
pub proof fn lemma_digits_val_mono(s: Seq<char>, i: int)
    requires
        all_digits(s),
        0 <= i <= s.len(),
    ensures
        digits_val(s) >= digits_val(s.take(i)),
    decreases s.len() - i,
{
    if i == s.len() {
        assert(s.take(i) =~= s);
    } else {
        assert(s.take(i + 1).drop_last() =~= s.take(i));
        assert(all_digits(s.take(i)));
        lemma_digits_val_nonneg(s.take(i));
        lemma_digits_val_mono(s, i + 1);
    }
}

/// `strip_zeros` drops exactly the run of leading zeros, keeping at least
/// one character.
pub proof fn lemma_strip_zeros_skip(s: Seq<char>, k: int)
    requires
        s.len() > 0,
        0 <= k <= s.len() - 1,
        forall|j: int| 0 <= j < k ==> s[j] == '0',
        k == s.len() - 1 || s[k] != '0',
    ensures
        strip_zeros(s) == s.skip(k),
    decreases s.len(),
{
    if k == 0 {
        assert(s.skip(0) =~= s);
    } else {
        assert(s[0] == '0');
        assert(s.len() > 1);
        let d = s.drop_first();
        assert(forall|j: int| 0 <= j < k - 1 ==> d[j] == '0');
        lemma_strip_zeros_skip(d, k - 1);
        assert(d.skip(k - 1) =~= s.skip(k));
    }
}

/// Scanning a concatenation scans the first part, then the second.
pub proof fn lemma_lex_from_app(st: LexState, a: Seq<char>, b: Seq<char>)
    ensures
        lex_from(st, a + b) == (match lex_from(st, a) {
            Ok(m) => lex_from(m, b),
            Err(e) => Err(e),
        }),
    decreases a.len(),
{
    if a.len() == 0 {
        assert(a + b =~= b);
    } else {
        assert((a + b)[0] == a[0]);
        assert((a + b).drop_first() =~= a.drop_first() + b);
        match stepped(st, a[0]) {
            Ok(st2) => {
                lemma_lex_from_app(st2, a.drop_first(), b);
            },
            Err(_) => {},
        }
    }
}


/// The abstraction of the lexer's executable state.
pub open spec fn abs_state(toks: Seq<Token>, buf: Seq<char>, ms: int, mp: int, mc: bool) -> LexState {
    LexState {
        toks: tokens_view(toks),
        buf: buf,
        making_string: ms,
        making_params: mp,
        making_comment: mc,
    }
}

/// Whether `c` is an ASCII decimal digit.
fn char_is_digit(c: char) -> (r: bool)
    ensures
        r == is_digit_char(c),
{
    let u = c as u32;
    48 <= u && u <= 57
}

/// Whether `c` is an ASCII letter.
fn char_is_letter(c: char) -> (r: bool)
    ensures
        r == is_letter_char(c),
{
    let u = c as u32;
    (65 <= u && u <= 90) || (97 <= u && u <= 122)
}

/// Whether the buffer holds exactly the text `l`.
fn buf_is(buf: &String, l: &str) -> (r: bool)
    ensures
        r == (buf@ == l@),
{
    let ls = String::from_str(l);
    *buf == ls
}

/// The end-of-token reducer: classifies the buffered text, appends the
/// resulting token (if any) to `tokens`, and clears the buffer.
///
/// Behaves exactly as the spec reducer [`flushed`] says: on `Ok` the new
/// state is `flushed` of the old one; on `Err` the spec reducer fails with
/// the same error.
pub fn handle_ending_value(
    tokens: &mut Vec<Token>,
    current_token: &mut String,
    making_string: &mut usize,
    making_params: &mut usize,
    making_comment: &mut bool,
) -> (r: Result<(), LexError>)
    ensures
        ({
            let pre = abs_state(
                old(tokens)@,
                old(current_token)@,
                *old(making_string) as int,
                *old(making_params) as int,
                *old(making_comment),
            );
            let post = abs_state(
                final(tokens)@,
                final(current_token)@,
                *final(making_string) as int,
                *final(making_params) as int,
                *final(making_comment),
            );
            match r {
                Ok(()) => flushed(pre) == Ok::<LexState, LexError>(post),
                Err(e) => {
                    &&& flushed(pre) == Err::<LexState, LexError>(e)
                    &&& final(tokens)@ == old(tokens)@
                    &&& final(current_token)@ == old(current_token)@
                    &&& *final(making_string) == *old(making_string)
                    &&& *final(making_params) == *old(making_params)
                    &&& *final(making_comment) == *old(making_comment)
                },
            }
        }),
{
    let ghost buf = old(current_token)@;
    if current_token.as_str().is_empty() {
        return Ok(());
    }
    if *making_comment {
        tokens.push(Token::Comment(current_token.clone()));
        *making_comment = false;
        *current_token = String::new();
        assert(tokens_view(tokens@) =~= tokens_view(old(tokens)@).push(TokenModel::Comment(buf)));
        return Ok(());
    }
    if *making_params >= 1 {
        tokens.push(Token::Parameters(current_token.clone()));
        *current_token = String::new();
        assert(tokens_view(tokens@) =~= tokens_view(old(tokens)@).push(
            TokenModel::Parameters(buf),
        ));
        return Ok(());
    }

    // Attempt to read the buffer as an integer literal.
    let s_len = current_token.as_str().unicode_len();
    let mut i: usize = 0;
    let mut digits_ok = true;
    let mut overflow = false;
    let mut val: u64 = 0;
    while i < s_len && digits_ok && !overflow
        invariant
            s_len == buf.len(),
            s_len > 0,
            current_token@ == buf,
            i <= s_len,
            digits_ok && !overflow ==> all_digits(buf.take(i as int)) && val == digits_val(
                buf.take(i as int),
            ) && val <= 2147483647,
            !digits_ok ==> !all_digits(buf),
            overflow ==> all_digits(buf.take(i as int)) && digits_val(buf.take(i as int))
                > 2147483647,
        decreases s_len - i,
    {
        let c = current_token.as_str().get_char(i);
        if char_is_digit(c) {
            let d = (c as u32 - 48) as u64;
            proof {
                assert(buf.take(i as int + 1).drop_last() =~= buf.take(i as int));
                assert(buf.take(i as int + 1).last() == buf[i as int]);
            }
            let nv = val * 10 + d;
            if nv > 2147483647 {
                overflow = true;
            } else {
                val = nv;
            }
            i = i + 1;
        } else {
            assert(!is_digit_char(buf[i as int]));
            digits_ok = false;
            i = i + 1;
        }
    }
    if digits_ok && !overflow {
        // The whole buffer is digits and the value fits: a Number token.
        assert(buf.take(s_len as int) =~= buf);
        assert(is_int_literal(buf));
        let mut k: usize = 0;
        while k < s_len - 1 && current_token.as_str().get_char(k) == '0'
            invariant
                s_len == buf.len(),
                s_len > 0,
                current_token@ == buf,
                k <= s_len - 1,
                forall|j: int| 0 <= j < k ==> buf[j] == '0',
            decreases s_len - k,
        {
            k = k + 1;
        }
        proof {
            lemma_strip_zeros_skip(buf, k as int);
        }
        let text_slice = current_token.as_str().substring_char(k, s_len);
        let text = String::from_str(text_slice);
        assert(text@ =~= buf.skip(k as int));
        tokens.push(Token::Number(text, val as i32));
        *current_token = String::new();
        assert(tokens_view(tokens@) =~= tokens_view(old(tokens)@).push(
            TokenModel::Number(strip_zeros(buf), digits_val(buf)),
        ));
        return Ok(());
    }
    proof {
        // The buffer is not an integer literal.
        if overflow && all_digits(buf) {
            lemma_digits_val_mono(buf, i as int);
        }
        assert(!is_int_literal(buf));
    }

    if buf_is(current_token, "=") {
        tokens.push(Token::EqualsTo);
        assert(tokens_view(tokens@) =~= tokens_view(old(tokens)@).push(TokenModel::EqualsTo));
    } else if buf_is(current_token, "==") {
        tokens.push(Token::Equality);
        assert(tokens_view(tokens@) =~= tokens_view(old(tokens)@).push(TokenModel::Equality));
    } else if buf_is(current_token, "int") {
        tokens.push(Token::LetInt);
        assert(tokens_view(tokens@) =~= tokens_view(old(tokens)@).push(TokenModel::LetInt));
    } else if buf_is(current_token, "string") {
        tokens.push(Token::LetString);
        assert(tokens_view(tokens@) =~= tokens_view(old(tokens)@).push(TokenModel::LetString));
    } else if buf_is(current_token, "bool") {
        tokens.push(Token::LetBool);
        assert(tokens_view(tokens@) =~= tokens_view(old(tokens)@).push(TokenModel::LetBool));
    } else if buf_is(current_token, "proc") {
        tokens.push(Token::Function);
        assert(tokens_view(tokens@) =~= tokens_view(old(tokens)@).push(TokenModel::Function));
    } else if buf_is(current_token, "print") {
        tokens.push(Token::Print);
        assert(tokens_view(tokens@) =~= tokens_view(old(tokens)@).push(TokenModel::Print));
    } else if buf_is(current_token, "true") {
        tokens.push(Token::Boolean(true));
        assert(tokens_view(tokens@) =~= tokens_view(old(tokens)@).push(TokenModel::Boolean(true)));
    } else if buf_is(current_token, "false") {
        tokens.push(Token::Boolean(false));
        assert(tokens_view(tokens@) =~= tokens_view(old(tokens)@).push(TokenModel::Boolean(false)));
    } else {
        let n_toks = tokens.len();
        // Classify by the immediately preceding token.
        let mut ctx: u8 = 0;
        if n_toks > 0 {
            match &tokens[n_toks - 1] {
                Token::LetInt | Token::LetString | Token::LetBool => {
                    ctx = 1;
                },
                Token::Function => {
                    ctx = 2;
                },
                Token::LParen => {
                    ctx = 3;
                },
                Token::DblQuote => {
                    ctx = 4;
                },
                _ => {
                    ctx = 0;
                },
            }
        }
        if ctx == 1 {
            tokens.push(Token::VarName(current_token.clone()));
            assert(tokens_view(tokens@) =~= tokens_view(old(tokens)@).push(
                TokenModel::VarName(buf),
            ));
        } else if ctx == 2 {
            tokens.push(Token::FuncName(current_token.clone()));
            assert(tokens_view(tokens@) =~= tokens_view(old(tokens)@).push(
                TokenModel::FuncName(buf),
            ));
        } else if ctx == 3 {
            tokens.push(Token::Parameters(current_token.clone()));
            assert(tokens_view(tokens@) =~= tokens_view(old(tokens)@).push(
                TokenModel::Parameters(buf),
            ));
        } else if ctx == 4 {
            if *making_string == 1 {
                tokens.push(Token::Strings(current_token.clone()));
                assert(tokens_view(tokens@) =~= tokens_view(old(tokens)@).push(
                    TokenModel::Strings(buf),
                ));
            } else if *making_string == 2 {
                tokens.push(Token::Strings(current_token.clone()));
                *making_string = 0;
                assert(tokens_view(tokens@) =~= tokens_view(old(tokens)@).push(
                    TokenModel::Strings(buf),
                ));
            }
        } else {
            // Search the name history for a previous classification.
            assert(tokens_view(tokens@).skip(0) =~= tokens_view(tokens@));
            let mut idx: usize = 0;
            #[verifier::loop_isolation(false)]
            while idx < n_toks
                invariant
                    idx <= n_toks,
                    n_toks == tokens.len(),
                    tokens@ == old(tokens)@,
                    current_token@ == buf,
                    history_kind(tokens_view(tokens@), buf) == history_kind(
                        tokens_view(tokens@).skip(idx as int),
                        buf,
                    ),
                decreases n_toks - idx,
            {
                let ghost hist = tokens_view(tokens@).skip(idx as int);
                proof {
                    assert(hist[0] == tokens@[idx as int]@);
                    assert(hist.drop_first() =~= tokens_view(tokens@).skip(idx as int + 1));
                }
                let mut kind: u8 = 0;
                match &tokens[idx] {
                    Token::VarName(n) => {
                        if *n == *current_token {
                            proof {
                                assert(hist[0] == TokenModel::VarName(n@));
                                assert(n@ == buf);
                                assert(history_kind(hist, buf) == Some(TokenModel::VarName(buf)));
                            }
                            kind = 1;
                        }
                    },
                    Token::FuncName(n) => {
                        if *n == *current_token {
                            proof {
                                assert(hist[0] == TokenModel::FuncName(n@));
                                assert(n@ == buf);
                                assert(history_kind(hist, buf) == Some(TokenModel::FuncName(buf)));
                            }
                            kind = 2;
                        }
                    },
                    _ => {},
                }
                if kind == 1 {
                    tokens.push(Token::VarName(current_token.clone()));
                    *current_token = String::new();
                    assert(tokens_view(tokens@) =~= tokens_view(old(tokens)@).push(
                        TokenModel::VarName(buf),
                    ));
                    return Ok(());
                }
                if kind == 2 {
                    tokens.push(Token::FuncName(current_token.clone()));
                    *current_token = String::new();
                    assert(tokens_view(tokens@) =~= tokens_view(old(tokens)@).push(
                        TokenModel::FuncName(buf),
                    ));
                    return Ok(());
                }
                idx = idx + 1;
            }
            assert(tokens_view(tokens@).skip(n_toks as int) =~= Seq::<TokenModel>::empty());
            return Err(LexError::UnknownIdentifier);
        }
    }
    *current_token = String::new();
    Ok(())
}

/// Append the source character at `i` to the accumulation buffer.
fn push_char(buf: &mut String, src: &str, i: usize)
    requires
        i < src@.len(),
        src@.len() <= usize::MAX,
    ensures
        final(buf)@ == old(buf)@.push(src@[i as int]),
{
    let piece = src.substring_char(i, i + 1);
    buf.append(piece);
    proof {
        assert(old(buf)@ + src@.subrange(i as int, i as int + 1) =~= old(buf)@.push(
            src@[i as int],
        ));
    }
}

/// Flush the buffer through the reducer, then append the punctuation
/// token `t` itself.
fn flush_and_push(
    tokens: &mut Vec<Token>,
    current_token: &mut String,
    making_string: &mut usize,
    making_params: &mut usize,
    making_comment: &mut bool,
    t: Token,
) -> (r: Result<(), LexError>)
    ensures
        ({
            let pre = abs_state(
                old(tokens)@,
                old(current_token)@,
                *old(making_string) as int,
                *old(making_params) as int,
                *old(making_comment),
            );
            let post = abs_state(
                final(tokens)@,
                final(current_token)@,
                *final(making_string) as int,
                *final(making_params) as int,
                *final(making_comment),
            );
            match r {
                Ok(()) => flush_then(pre, t@) == Ok::<LexState, LexError>(post),
                Err(e) => flush_then(pre, t@) == Err::<LexState, LexError>(e),
            }
        }),
{
    let ghost tv = t@;
    match handle_ending_value(tokens, current_token, making_string, making_params, making_comment) {
        Ok(()) => {
            let ghost mid = tokens@;
            tokens.push(t);
            assert(tokens_view(tokens@) =~= tokens_view(mid).push(tv));
            Ok(())
        },
        Err(e) => Err(e),
    }
}

/// Process the source character at `i`, as the spec step [`stepped`] says.
fn step_char(
    tokens: &mut Vec<Token>,
    current_token: &mut String,
    making_string: &mut usize,
    making_params: &mut usize,
    making_comment: &mut bool,
    src: &str,
    i: usize,
) -> (r: Result<(), LexError>)
    requires
        i < src@.len(),
        src@.len() <= usize::MAX,
        *old(making_string) <= i,
        *old(making_params) <= i,
    ensures
        r is Ok ==> *final(making_string) <= i + 1,
        r is Ok ==> *final(making_params) <= i + 1,
        ({
            let pre = abs_state(
                old(tokens)@,
                old(current_token)@,
                *old(making_string) as int,
                *old(making_params) as int,
                *old(making_comment),
            );
            let post = abs_state(
                final(tokens)@,
                final(current_token)@,
                *final(making_string) as int,
                *final(making_params) as int,
                *final(making_comment),
            );
            let c = src@[i as int];
            match r {
                Ok(()) => stepped(pre, c) == Ok::<LexState, LexError>(post),
                Err(e) => stepped(pre, c) == Err::<LexState, LexError>(e),
            }
        }),
{
    let c = src.get_char(i);
    if *making_comment {
        if c == '\n' {
            flush_and_push(
                tokens,
                current_token,
                making_string,
                making_params,
                making_comment,
                Token::NewLine,
            )
        } else {
            push_char(current_token, src, i);
            Ok(())
        }
    } else if char_is_digit(c) || char_is_letter(c) || (*making_string > 0 && c != '"') || (
    *making_params >= 1 && c != ')' && c != '(') {
        push_char(current_token, src, i);
        Ok(())
    } else if c == '+' {
        flush_and_push(tokens, current_token, making_string, making_params, making_comment, Token::Plus)
    } else if c == '-' {
        flush_and_push(tokens, current_token, making_string, making_params, making_comment, Token::Minus)
    } else if c == '*' {
        flush_and_push(
            tokens,
            current_token,
            making_string,
            making_params,
            making_comment,
            Token::Multiply,
        )
    } else if c == '/' {
        flush_and_push(
            tokens,
            current_token,
            making_string,
            making_params,
            making_comment,
            Token::Divide,
        )
    } else if c == '"' {
        *making_string = *making_string + 1;
        flush_and_push(
            tokens,
            current_token,
            making_string,
            making_params,
            making_comment,
            Token::DblQuote,
        )
    } else if c == '\'' {
        flush_and_push(
            tokens,
            current_token,
            making_string,
            making_params,
            making_comment,
            Token::SglQuote,
        )
    } else if c == '(' {
        if *making_params == 0 {
            match flush_and_push(
                tokens,
                current_token,
                making_string,
                making_params,
                making_comment,
                Token::LParen,
            ) {
                Ok(()) => {
                    *making_params = *making_params + 1;
                    Ok(())
                },
                Err(e) => Err(e),
            }
        } else {
            push_char(current_token, src, i);
            *making_params = *making_params + 1;
            Ok(())
        }
    } else if c == ')' {
        if *making_params == 0 {
            flush_and_push(
                tokens,
                current_token,
                making_string,
                making_params,
                making_comment,
                Token::RParen,
            )
        } else if *making_params == 1 {
            match flush_and_push(
                tokens,
                current_token,
                making_string,
                making_params,
                making_comment,
                Token::RParen,
            ) {
                Ok(()) => {
                    *making_params = *making_params - 1;
                    Ok(())
                },
                Err(e) => Err(e),
            }
        } else {
            push_char(current_token, src, i);
            *making_params = *making_params - 1;
            Ok(())
        }
    } else if c == '{' {
        flush_and_push(
            tokens,
            current_token,
            making_string,
            making_params,
            making_comment,
            Token::LSquirly,
        )
    } else if c == '}' {
        flush_and_push(
            tokens,
            current_token,
            making_string,
            making_params,
            making_comment,
            Token::RSquirly,
        )
    } else if c == ',' {
        flush_and_push(tokens, current_token, making_string, making_params, making_comment, Token::Comma)
    } else if c == '\n' {
        flush_and_push(
            tokens,
            current_token,
            making_string,
            making_params,
            making_comment,
            Token::NewLine,
        )
    } else if c == ' ' {
        if *making_params == 0 {
            handle_ending_value(tokens, current_token, making_string, making_params, making_comment)
        } else {
            push_char(current_token, src, i);
            Ok(())
        }
    } else if c == ';' {
        flush_and_push(
            tokens,
            current_token,
            making_string,
            making_params,
            making_comment,
            Token::Semicolon,
        )
    } else if c == '=' {
        push_char(current_token, src, i);
        Ok(())
    } else if c == '#' {
        push_char(current_token, src, i);
        *making_comment = true;
        Ok(())
    } else {
        Err(LexError::InvalidCharacter)
    }
}

/// Lexical analysis: convert the whole source text into a token stream.
///
/// Returns exactly the tokens that the spec scan [`lex_spec`] emits, or
/// the error on which the spec scan fails. Text still buffered when the
/// input ends is dropped, as [`lex_spec`] says.
pub fn tokeniser(content: String) -> (r: Result<Vec<Token>, LexError>)
    ensures
        match r {
            Ok(toks) => lex_spec(content@) == Ok::<Seq<TokenModel>, LexError>(tokens_view(toks@)),
            Err(e) => lex_spec(content@) == Err::<Seq<TokenModel>, LexError>(e),
        },
{
    let mut tokens: Vec<Token> = Vec::new();
    let mut current_token = String::new();
    let mut making_string: usize = 0;
    let mut making_params: usize = 0;
    let mut making_comment = false;
    let n = content.as_str().unicode_len();
    let mut i: usize = 0;
    assert(content@.take(0) =~= Seq::<char>::empty());
    assert(tokens_view(tokens@) =~= Seq::<TokenModel>::empty());
    while i < n
        invariant
            n == content@.len(),
            i <= n,
            making_string <= i,
            making_params <= i,
            lex_from(init_state(), content@.take(i as int)) == Ok::<LexState, LexError>(
                abs_state(
                    tokens@,
                    current_token@,
                    making_string as int,
                    making_params as int,
                    making_comment,
                ),
            ),
        decreases n - i,
    {
        let ghost pre_take = content@.take(i as int);
        let r = step_char(
            &mut tokens,
            &mut current_token,
            &mut making_string,
            &mut making_params,
            &mut making_comment,
            content.as_str(),
            i,
        );
        proof {
            lemma_lex_from_snoc(init_state(), pre_take, content@[i as int]);
            assert(content@.take(i as int + 1) =~= pre_take.push(content@[i as int]));
        }
        match r {
            Ok(()) => {},
            Err(e) => {
                proof {
                    lemma_lex_from_app(
                        init_state(),
                        content@.take(i as int + 1),
                        content@.skip(i as int + 1),
                    );
                    assert(content@.take(i as int + 1) + content@.skip(i as int + 1) =~= content@);
                }
                return Err(e);
            },
        }
        i = i + 1;
    }
    proof {
        assert(content@.take(n as int) =~= content@);
    }
    Ok(tokens)
}

} // verus!

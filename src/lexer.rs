//! Tokens of quasi-quoted template text.
//!
//! Positions are character offsets into the template text. Whitespace
//! separates tokens and is otherwise ignored.
use vstd::prelude::*;

verus! {

/// The kinds of token of the template language.
#[derive(Clone, Copy, Debug, PartialEq, Eq, Structural)]
pub enum TokenKind {
    /// A name or keyword: a letter or `_`, then letters, digits and `_`.
    Word,
    /// A string literal, quotes included: `"` up to the next `"`.
    Str,
    /// A run of decimal digits.
    Number,
    /// A substitution marker `$( ... )`; the token spans the text between
    /// the parentheses, which may nest.
    Subst,
    Open,
    Close,
    LBrace,
    RBrace,
    Colon,
    Comma,
    EqEq,
    Star,
}

/// A token: its kind and the range `start..end` of its text.
#[derive(Clone, Copy, Debug, PartialEq, Eq, Structural)]
pub struct Token {
    pub kind: TokenKind,
    pub start: usize,
    pub end: usize,
}

/// What went wrong in a template.
#[derive(Clone, Copy, Debug, PartialEq, Eq, Structural)]
pub enum TemplateErrorKind {
    /// A character that starts no token.
    UnexpectedChar,
    /// A string literal with no closing quote.
    UnterminatedString,
    /// A `$` not followed by `(`, or a `$(` with no matching `)`.
    MalformedSubstitution,
    /// A statement that starts with no known keyword.
    UnknownStatement,
    /// Another token stands where one of this kind is needed.
    Expected(TokenKind),
    /// The text ends where more is needed.
    UnexpectedEnd,
    /// Text follows a complete template.
    TrailingInput,
    /// A function template whose statement is not a function definition.
    NotAFunction,
    /// A substitution value of the wrong kind, or none, for a substitution point.
    SubstitutionMismatch,
    /// More substitution values than substitution points.
    TooManySubstitutions,
}

/// A template error and the character offset where it was found.
#[derive(Clone, Copy, Debug, PartialEq, Eq, Structural)]
pub struct TemplateError {
    pub kind: TemplateErrorKind,
    pub pos: usize,
}

pub open spec fn is_space(c: char) -> bool {
    c == ' ' || c == '\n' || c == '\t' || c == '\r'
}

pub open spec fn is_word_start(c: char) -> bool {
    ('a' <= c && c <= 'z') || ('A' <= c && c <= 'Z') || c == '_'
}

pub open spec fn is_digit(c: char) -> bool {
    '0' <= c && c <= '9'
}

pub open spec fn is_word_char(c: char) -> bool {
    is_word_start(c) || is_digit(c)
}

/// The end of the run of word characters of `s` that starts at `i`.
pub open spec fn word_end(s: Seq<char>, i: nat) -> nat
    decreases s.len() - i,
{
    if i < s.len() && is_word_char(s[i as int]) {
        word_end(s, i + 1)
    } else {
        i
    }
}

/// The end of the run of digits of `s` that starts at `i`.
pub open spec fn digits_end(s: Seq<char>, i: nat) -> nat
    decreases s.len() - i,
{
    if i < s.len() && is_digit(s[i as int]) {
        digits_end(s, i + 1)
    } else {
        i
    }
}

/// The first `"` of `s` at or after `i`, or the length of `s` if there is none.
pub open spec fn quote_at(s: Seq<char>, i: nat) -> nat
    decreases s.len() - i,
{
    if i < s.len() && s[i as int] != '"' {
        quote_at(s, i + 1)
    } else {
        i
    }
}

/// The `)` of `s` at or after `i` that closes a parenthesis opened before
/// `i`, where `depth` more parentheses are open; none if there is none.
pub open spec fn closing_paren(s: Seq<char>, i: nat, depth: nat) -> Option<nat>
    decreases s.len() - i,
{
    if i >= s.len() {
        None
    } else if s[i as int] == ')' {
        if depth == 0 {
            Some(i)
        } else {
            closing_paren(s, i + 1, (depth - 1) as nat)
        }
    } else if s[i as int] == '(' {
        closing_paren(s, i + 1, depth + 1)
    } else {
        closing_paren(s, i + 1, depth)
    }
}

/// The kind of a token of one character, if `c` makes one.
pub open spec fn single_kind(c: char) -> Option<TokenKind> {
    if c == '(' {
        Some(TokenKind::Open)
    } else if c == ')' {
        Some(TokenKind::Close)
    } else if c == '{' {
        Some(TokenKind::LBrace)
    } else if c == '}' {
        Some(TokenKind::RBrace)
    } else if c == ':' {
        Some(TokenKind::Colon)
    } else if c == ',' {
        Some(TokenKind::Comma)
    } else if c == '*' {
        Some(TokenKind::Star)
    } else {
        None
    }
}

pub open spec fn token(kind: TokenKind, start: nat, end: nat) -> Token {
    Token { kind, start: start as usize, end: end as usize }
}

pub open spec fn error(kind: TemplateErrorKind, pos: nat) -> TemplateError {
    TemplateError { kind, pos: pos as usize }
}

/// The tokens of `s` from offset `i` on, after the tokens `acc` already read.
pub open spec fn lex_from(s: Seq<char>, i: nat, acc: Seq<Token>) -> Result<Seq<Token>, TemplateError>
    decreases s.len() - i,
    via lex_from_decreases
{
    if i >= s.len() {
        Ok(acc)
    } else {
        let c = s[i as int];
        if is_space(c) {
            lex_from(s, i + 1, acc)
        } else if is_word_start(c) {
            let e = word_end(s, i + 1);
            lex_from(s, e, acc.push(token(TokenKind::Word, i, e)))
        } else if is_digit(c) {
            let e = digits_end(s, i + 1);
            lex_from(s, e, acc.push(token(TokenKind::Number, i, e)))
        } else if c == '"' {
            let e = quote_at(s, i + 1);
            if e >= s.len() {
                Err(error(TemplateErrorKind::UnterminatedString, i))
            } else {
                lex_from(s, e + 1, acc.push(token(TokenKind::Str, i, e + 1)))
            }
        } else if c == '$' {
            if i + 1 < s.len() && s[i + 1int] == '(' {
                match closing_paren(s, i + 2, 0) {
                    Some(e) => lex_from(s, e + 1, acc.push(token(TokenKind::Subst, i + 2, e))),
                    None => Err(error(TemplateErrorKind::MalformedSubstitution, i)),
                }
            } else {
                Err(error(TemplateErrorKind::MalformedSubstitution, i))
            }
        } else if c == '=' {
            if i + 1 < s.len() && s[i + 1int] == '=' {
                lex_from(s, i + 2, acc.push(token(TokenKind::EqEq, i, i + 2)))
            } else {
                Err(error(TemplateErrorKind::UnexpectedChar, i))
            }
        } else {
            match single_kind(c) {
                Some(k) => lex_from(s, i + 1, acc.push(token(k, i, i + 1))),
                None => Err(error(TemplateErrorKind::UnexpectedChar, i)),
            }
        }
    }
}

/// The tokens of the template text `s`, or the first error in it.
pub open spec fn lex_spec(s: Seq<char>) -> Result<Seq<Token>, TemplateError> {
    lex_from(s, 0, Seq::empty())
}

/// Every token of `t` spans a range of the first `n` characters.
pub open spec fn tokens_within(t: Seq<Token>, n: nat) -> bool {
    forall|j: int| 0 <= j < t.len() ==> #[trigger] t[j].start <= t[j].end && t[j].end <= n
}

proof fn lemma_word_end(s: Seq<char>, i: nat)
    requires
        i <= s.len(),
    ensures
        i <= word_end(s, i) <= s.len(),
    decreases s.len() - i,
{
    if i < s.len() && is_word_char(s[i as int]) {
        lemma_word_end(s, i + 1);
    }
}

proof fn lemma_digits_end(s: Seq<char>, i: nat)
    requires
        i <= s.len(),
    ensures
        i <= digits_end(s, i) <= s.len(),
    decreases s.len() - i,
{
    if i < s.len() && is_digit(s[i as int]) {
        lemma_digits_end(s, i + 1);
    }
}

proof fn lemma_quote_at(s: Seq<char>, i: nat)
    requires
        i <= s.len(),
    ensures
        i <= quote_at(s, i) <= s.len(),
        quote_at(s, i) < s.len() ==> s[quote_at(s, i) as int] == '"',
    decreases s.len() - i,
{
    if i < s.len() && s[i as int] != '"' {
        lemma_quote_at(s, i + 1);
    }
}

proof fn lemma_closing_paren(s: Seq<char>, i: nat, depth: nat)
    ensures
        closing_paren(s, i, depth) matches Some(e) ==> i <= e < s.len(),
    decreases s.len() - i,
{
    if i < s.len() {
        if s[i as int] == ')' {
            if depth > 0 {
                lemma_closing_paren(s, i + 1, (depth - 1) as nat);
            }
        } else if s[i as int] == '(' {
            lemma_closing_paren(s, i + 1, depth + 1);
        } else {
            lemma_closing_paren(s, i + 1, depth);
        }
    }
}

#[via_fn]
proof fn lex_from_decreases(s: Seq<char>, i: nat, acc: Seq<Token>) {
    if i < s.len() {
        lemma_word_end(s, i + 1);
        lemma_digits_end(s, i + 1);
        lemma_quote_at(s, i + 1);
        lemma_closing_paren(s, i + 2, 0);
    }
}

fn space(c: char) -> (r: bool)
    ensures
        r == is_space(c),
{
    c == ' ' || c == '\n' || c == '\t' || c == '\r'
}

fn word_start(c: char) -> (r: bool)
    ensures
        r == is_word_start(c),
{
    ('a' <= c && c <= 'z') || ('A' <= c && c <= 'Z') || c == '_'
}

fn digit(c: char) -> (r: bool)
    ensures
        r == is_digit(c),
{
    '0' <= c && c <= '9'
}

fn single(c: char) -> (r: Option<TokenKind>)
    ensures
        r == single_kind(c),
{
    if c == '(' {
        Some(TokenKind::Open)
    } else if c == ')' {
        Some(TokenKind::Close)
    } else if c == '{' {
        Some(TokenKind::LBrace)
    } else if c == '}' {
        Some(TokenKind::RBrace)
    } else if c == ':' {
        Some(TokenKind::Colon)
    } else if c == ',' {
        Some(TokenKind::Comma)
    } else if c == '*' {
        Some(TokenKind::Star)
    } else {
        None
    }
}

fn scan_word(s: &Vec<char>, i: usize) -> (e: usize)
    requires
        i <= s@.len(),
    ensures
        e == word_end(s@, i as nat),
{
    let mut j = i;
    while j < s.len() && (word_start(s[j]) || digit(s[j]))
        invariant
            i <= j <= s@.len(),
            word_end(s@, i as nat) == word_end(s@, j as nat),
        decreases s@.len() - j,
    {
        j = j + 1;
    }
    j
}

fn scan_digits(s: &Vec<char>, i: usize) -> (e: usize)
    requires
        i <= s@.len(),
    ensures
        e == digits_end(s@, i as nat),
{
    let mut j = i;
    while j < s.len() && digit(s[j])
        invariant
            i <= j <= s@.len(),
            digits_end(s@, i as nat) == digits_end(s@, j as nat),
        decreases s@.len() - j,
    {
        j = j + 1;
    }
    j
}

fn scan_quote(s: &Vec<char>, i: usize) -> (e: usize)
    requires
        i <= s@.len(),
    ensures
        e == quote_at(s@, i as nat),
{
    let mut j = i;
    while j < s.len() && s[j] != '"'
        invariant
            i <= j <= s@.len(),
            quote_at(s@, i as nat) == quote_at(s@, j as nat),
        decreases s@.len() - j,
    {
        j = j + 1;
    }
    j
}

fn scan_closing(s: &Vec<char>, i: usize) -> (r: Option<usize>)
    requires
        i <= s@.len(),
    ensures
        r matches Some(e) ==> closing_paren(s@, i as nat, 0) == Some(e as nat),
        r is None ==> closing_paren(s@, i as nat, 0) is None,
{
    let mut j = i;
    let mut depth: usize = 0;
    while j < s.len()
        invariant
            i <= j <= s@.len(),
            depth <= j - i,
            closing_paren(s@, i as nat, 0) == closing_paren(s@, j as nat, depth as nat),
        decreases s@.len() - j,
    {
        if s[j] == ')' {
            if depth == 0 {
                return Some(j);
            }
            depth = depth - 1;
        } else if s[j] == '(' {
            depth = depth + 1;
        }
        j = j + 1;
    }
    None
}

/// The characters of `text`, in order.
pub fn chars_of(text: &str) -> (r: Vec<char>)
    ensures
        r@ == text@,
{
    let n = text.unicode_len();
    let mut r: Vec<char> = Vec::new();
    let mut i: usize = 0;
    while i < n
        invariant
            n == text@.len(),
            i <= n,
            r@ == text@.subrange(0, i as int),
        decreases n - i,
    {
        r.push(text.get_char(i));
        assert(r@ =~= text@.subrange(0, i as int + 1));
        i = i + 1;
    }
    assert(r@ =~= text@);
    r
}

/// Splits template text into tokens, or reports the first character that
/// cannot start or complete one.
pub fn lex(text: &str) -> (r: Result<Vec<Token>, TemplateError>)
    ensures
        r matches Ok(toks) ==> lex_spec(text@) == Ok::<Seq<Token>, TemplateError>(toks@)
            && tokens_within(toks@, text@.len()),
        r matches Err(e) ==> lex_spec(text@) == Err::<Seq<Token>, TemplateError>(e),
{
    let s = chars_of(text);
    let n = s.len();
    let mut toks: Vec<Token> = Vec::new();
    let mut i: usize = 0;
    while i < n
        invariant
            n == s@.len(),
            s@ == text@,
            i <= n,
            lex_spec(text@) == lex_from(s@, i as nat, toks@),
            tokens_within(toks@, n as nat),
        decreases n - i,
    {
        let c = s[i];
        if space(c) {
            i = i + 1;
        } else if word_start(c) {
            proof {
                lemma_word_end(s@, i as nat + 1);
            }
            let e = scan_word(&s, i + 1);
            toks.push(Token { kind: TokenKind::Word, start: i, end: e });
            i = e;
        } else if digit(c) {
            proof {
                lemma_digits_end(s@, i as nat + 1);
            }
            let e = scan_digits(&s, i + 1);
            toks.push(Token { kind: TokenKind::Number, start: i, end: e });
            i = e;
        } else if c == '"' {
            proof {
                lemma_quote_at(s@, i as nat + 1);
            }
            let e = scan_quote(&s, i + 1);
            if e >= n {
                return Err(TemplateError { kind: TemplateErrorKind::UnterminatedString, pos: i });
            }
            toks.push(Token { kind: TokenKind::Str, start: i, end: e + 1 });
            i = e + 1;
        } else if c == '$' {
            if i + 1 < n && s[i + 1] == '(' {
                proof {
                    lemma_closing_paren(s@, i as nat + 2, 0);
                }
                match scan_closing(&s, i + 2) {
                    Some(e) => {
                        toks.push(Token { kind: TokenKind::Subst, start: i + 2, end: e });
                        i = e + 1;
                    },
                    None => {
                        return Err(
                            TemplateError { kind: TemplateErrorKind::MalformedSubstitution, pos: i },
                        );
                    },
                }
            } else {
                return Err(TemplateError { kind: TemplateErrorKind::MalformedSubstitution, pos: i });
            }
        } else if c == '=' {
            if i + 1 < n && s[i + 1] == '=' {
                toks.push(Token { kind: TokenKind::EqEq, start: i, end: i + 2 });
                i = i + 2;
            } else {
                return Err(TemplateError { kind: TemplateErrorKind::UnexpectedChar, pos: i });
            }
        } else {
            match single(c) {
                Some(k) => {
                    toks.push(Token { kind: k, start: i, end: i + 1 });
                    i = i + 1;
                },
                None => {
                    return Err(TemplateError { kind: TemplateErrorKind::UnexpectedChar, pos: i });
                },
            }
        }
    }
    Ok(toks)
}

} // verus!

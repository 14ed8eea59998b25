//! The tokenizer: one line of text to its sequence of tokens.
//!
//! `lex_spec` says what the tokens of a line are; `Lexer::lex` computes them.
use crate::literal::{decimal, digit_of, is_digit, Literal};
use vstd::prelude::*;
use vstd::std_specs::cmp::PartialEqSpecImpl;

verus! {

/// The glyph that opens a lambda: the Greek small letter lambda.
pub const LAMBDA_GLYPH: char = '\u{3bb}';

/// One lexical unit. A token carries no position.
#[derive(Debug)]
pub enum Token {
    Identifier(String),
    Number(Literal),
    Bool(bool),
    Lambda,
    Let,
    Dot,
    Comma,
    SemiColon,
    LeftSquared,
    RightSquared,
    LeftParen,
    RightParen,
    Define,
    DefineType,
    EqualEqual,
    Plus,
    Minus,
    Star,
    Slash,
    Power,
    Arrow,
}

/// What a token is: its kind, and for a name or a number, which one.
pub enum TokenView {
    Identifier(Seq<char>),
    Number(nat),
    Bool(bool),
    Lambda,
    Let,
    Dot,
    Comma,
    SemiColon,
    LeftSquared,
    RightSquared,
    LeftParen,
    RightParen,
    Define,
    DefineType,
    EqualEqual,
    Plus,
    Minus,
    Star,
    Slash,
    Power,
    Arrow,
}

impl View for Token {
    type V = TokenView;

    open spec fn view(&self) -> TokenView {
        match self {
            Token::Identifier(name) => TokenView::Identifier(name@),
            Token::Number(n) => TokenView::Number(n@),
            Token::Bool(b) => TokenView::Bool(*b),
            Token::Lambda => TokenView::Lambda,
            Token::Let => TokenView::Let,
            Token::Dot => TokenView::Dot,
            Token::Comma => TokenView::Comma,
            Token::SemiColon => TokenView::SemiColon,
            Token::LeftSquared => TokenView::LeftSquared,
            Token::RightSquared => TokenView::RightSquared,
            Token::LeftParen => TokenView::LeftParen,
            Token::RightParen => TokenView::RightParen,
            Token::Define => TokenView::Define,
            Token::DefineType => TokenView::DefineType,
            Token::EqualEqual => TokenView::EqualEqual,
            Token::Plus => TokenView::Plus,
            Token::Minus => TokenView::Minus,
            Token::Star => TokenView::Star,
            Token::Slash => TokenView::Slash,
            Token::Power => TokenView::Power,
            Token::Arrow => TokenView::Arrow,
        }
    }
}

/// The views of a sequence of tokens, in order.
pub open spec fn token_views(tokens: Seq<Token>) -> Seq<TokenView> {
    Seq::new(tokens.len(), |i: int| tokens[i]@)
}

impl Token {
    /// Whether the two tokens are of one kind and, where they carry a name or a
    /// number, carry the same.
    pub fn same(&self, other: &Token) -> (r: bool)
        ensures
            r == (self@ == other@),
    {
        match self {
            Token::Identifier(a) => match other {
                Token::Identifier(b) => *a == *b,
                _ => false,
            },
            Token::Number(a) => match other {
                Token::Number(b) => a.same(b),
                _ => false,
            },
            Token::Bool(a) => match other {
                Token::Bool(b) => *a == *b,
                _ => false,
            },
            Token::Lambda => matches!(other, Token::Lambda),
            Token::Let => matches!(other, Token::Let),
            Token::Dot => matches!(other, Token::Dot),
            Token::Comma => matches!(other, Token::Comma),
            Token::SemiColon => matches!(other, Token::SemiColon),
            Token::LeftSquared => matches!(other, Token::LeftSquared),
            Token::RightSquared => matches!(other, Token::RightSquared),
            Token::LeftParen => matches!(other, Token::LeftParen),
            Token::RightParen => matches!(other, Token::RightParen),
            Token::Define => matches!(other, Token::Define),
            Token::DefineType => matches!(other, Token::DefineType),
            Token::EqualEqual => matches!(other, Token::EqualEqual),
            Token::Plus => matches!(other, Token::Plus),
            Token::Minus => matches!(other, Token::Minus),
            Token::Star => matches!(other, Token::Star),
            Token::Slash => matches!(other, Token::Slash),
            Token::Power => matches!(other, Token::Power),
            Token::Arrow => matches!(other, Token::Arrow),
        }
    }
}

impl Clone for Token {
    fn clone(&self) -> (r: Token)
        ensures
            r@ == self@,
    {
        match self {
            Token::Identifier(name) => Token::Identifier(name.clone()),
            Token::Number(n) => Token::Number(n.clone()),
            Token::Bool(b) => Token::Bool(*b),
            Token::Lambda => Token::Lambda,
            Token::Let => Token::Let,
            Token::Dot => Token::Dot,
            Token::Comma => Token::Comma,
            Token::SemiColon => Token::SemiColon,
            Token::LeftSquared => Token::LeftSquared,
            Token::RightSquared => Token::RightSquared,
            Token::LeftParen => Token::LeftParen,
            Token::RightParen => Token::RightParen,
            Token::Define => Token::Define,
            Token::DefineType => Token::DefineType,
            Token::EqualEqual => Token::EqualEqual,
            Token::Plus => Token::Plus,
            Token::Minus => Token::Minus,
            Token::Star => Token::Star,
            Token::Slash => Token::Slash,
            Token::Power => Token::Power,
            Token::Arrow => Token::Arrow,
        }
    }
}

impl PartialEq for Token {
    fn eq(&self, other: &Token) -> (r: bool) {
        self.same(other)
    }
}

impl PartialEqSpecImpl for Token {
    open spec fn obeys_eq_spec() -> bool {
        true
    }

    open spec fn eq_spec(&self, other: &Token) -> bool {
        self@ == other@
    }
}

/// Why a line has no tokens. Each kind carries the index, counted in code
/// points, of the character at which the scan stopped.
#[derive(Debug, Clone, Copy, PartialEq, Eq, Structural)]
pub enum LexError {
    /// A `-`, `:` or `=` is the last character of the line, so that what it
    /// begins cannot be told.
    IncompleteSymbol(usize),
    /// The character begins no token and is no blank.
    UnexpectedCharacter(usize),
}

/// Whether `c` separates tokens and yields none: a space, a tab, a line feed, a
/// form feed or a carriage return.
pub open spec fn is_blank(c: char) -> bool {
    c == ' ' || c == '\n' || c == '\t' || c == '\r' || c == '\x0c'
}

/// Whether Unicode gives the code point `c` the property Alphabetic, as
/// `char::is_alphabetic` reports it.
pub uninterp spec fn alphabetic(c: char) -> bool;

/// For each character of the line `s`, whether it is alphabetic.
pub open spec fn alphabetic_marks(s: Seq<char>) -> Seq<bool> {
    Seq::new(s.len(), |i: int| alphabetic(s[i]))
}

/// Whether `c` may stand in an identifier, `alphabetic` saying whether it is
/// alphabetic: an ASCII letter, or a code point beyond ASCII that is alphabetic.
pub open spec fn is_letter(c: char, alphabetic: bool) -> bool {
    if c <= '\x7f' {
        ('a' <= c && c <= 'z') || ('A' <= c && c <= 'Z')
    } else {
        alphabetic
    }
}

/// Whether a letter stands at index `i` of the line `s`, `marks` saying of each
/// character whether it is alphabetic. A character without a mark counts as
/// not alphabetic.
pub open spec fn letter_at(s: Seq<char>, marks: Seq<bool>, i: int) -> bool {
    0 <= i < s.len() && is_letter(s[i], i < marks.len() && marks[i])
}

/// The token that the character `c` is by itself, if it is one.
pub open spec fn single(c: char) -> Option<TokenView> {
    if c == LAMBDA_GLYPH {
        Some(TokenView::Lambda)
    } else if c == '.' {
        Some(TokenView::Dot)
    } else if c == ',' {
        Some(TokenView::Comma)
    } else if c == ';' {
        Some(TokenView::SemiColon)
    } else if c == '(' {
        Some(TokenView::LeftParen)
    } else if c == ')' {
        Some(TokenView::RightParen)
    } else if c == '[' {
        Some(TokenView::LeftSquared)
    } else if c == ']' {
        Some(TokenView::RightSquared)
    } else if c == '+' {
        Some(TokenView::Plus)
    } else if c == '*' {
        Some(TokenView::Star)
    } else if c == '/' {
        Some(TokenView::Slash)
    } else if c == '^' {
        Some(TokenView::Power)
    } else {
        None
    }
}

/// Whether `c` may begin a symbol of two characters, so that the character
/// behind it decides what it is.
pub open spec fn opens_pair(c: char) -> bool {
    c == '-' || c == ':' || c == '='
}

/// The token that the two characters `c` and `d` spell together, if they spell one.
pub open spec fn pair(c: char, d: char) -> Option<TokenView> {
    if c == '-' && d == '>' {
        Some(TokenView::Arrow)
    } else if c == ':' && d == ':' {
        Some(TokenView::DefineType)
    } else if c == ':' && d == '=' {
        Some(TokenView::Define)
    } else if c == '=' && d == '=' {
        Some(TokenView::EqualEqual)
    } else {
        None
    }
}

/// How many digits stand in a row from index `i` on.
pub open spec fn digit_run(s: Seq<char>, i: int) -> nat
    decreases s.len() - i,
{
    if 0 <= i < s.len() && is_digit(s[i]) {
        1 + digit_run(s, i + 1)
    } else {
        0
    }
}

/// How many letters stand in a row from index `i` on.
pub open spec fn letter_run(s: Seq<char>, marks: Seq<bool>, i: int) -> nat
    decreases s.len() - i,
{
    if letter_at(s, marks, i) {
        1 + letter_run(s, marks, i + 1)
    } else {
        0
    }
}

/// What stands at index `i` of the line `s`: the token that begins there, if one
/// does, and the index at which the scan goes on; or the error that ends the scan.
///
/// A blank yields no token. A `-` is an arrow with a `>` behind it and a minus
/// otherwise; a `:` or `=` that begins no symbol yields no token. Digits and
/// letters are taken as far as they go.
pub open spec fn scan(s: Seq<char>, marks: Seq<bool>, i: int) -> Result<
    (Option<TokenView>, int),
    LexError,
>
    recommends
        0 <= i < s.len(),
{
    let c = s[i];
    if is_blank(c) {
        Ok((None, i + 1))
    } else if single(c) is Some {
        Ok((single(c), i + 1))
    } else if opens_pair(c) {
        if i + 1 >= s.len() {
            Err(LexError::IncompleteSymbol(i as usize))
        } else if pair(c, s[i + 1]) is Some {
            Ok((pair(c, s[i + 1]), i + 2))
        } else if c == '-' {
            Ok((Some(TokenView::Minus), i + 1))
        } else {
            Ok((None, i + 1))
        }
    } else if is_digit(c) {
        let end = i + 1 + digit_run(s, i + 1);
        Ok((Some(TokenView::Number(decimal(s.subrange(i, end)))), end))
    } else if letter_at(s, marks, i) {
        let end = i + 1 + letter_run(s, marks, i + 1);
        Ok((Some(TokenView::Identifier(s.subrange(i, end))), end))
    } else {
        Err(LexError::UnexpectedCharacter(i as usize))
    }
}

/// The tokens `done`, followed by the outcome `rest` of the scan behind them.
pub open spec fn followed_by(
    done: Seq<TokenView>,
    rest: Result<Seq<TokenView>, LexError>,
) -> Result<Seq<TokenView>, LexError> {
    match rest {
        Ok(tokens) => Ok(done + tokens),
        Err(e) => Err(e),
    }
}

/// The tokens of the line `s` from index `i` on, or the first error of the scan.
pub open spec fn lex_from(s: Seq<char>, marks: Seq<bool>, i: int) -> Result<
    Seq<TokenView>,
    LexError,
>
    decreases s.len() - i,
    via lex_from_decreases
{
    if i < 0 || i >= s.len() {
        Ok(Seq::empty())
    } else {
        match scan(s, marks, i) {
            Err(e) => Err(e),
            Ok((token, next)) => {
                let rest = lex_from(s, marks, next);
                match token {
                    Some(t) => followed_by(seq![t], rest),
                    None => rest,
                }
            },
        }
    }
}

#[via_fn]
proof fn lex_from_decreases(s: Seq<char>, marks: Seq<bool>, i: int) {
    if 0 <= i < s.len() {
        lemma_digit_run_bounds(s, i + 1);
        lemma_letter_run_bounds(s, marks, i + 1);
    }
}

/// The tokens of the line `s`, or the first error of the scan, `marks` saying
/// of each character whether it is alphabetic.
pub open spec fn marked_tokens(s: Seq<char>, marks: Seq<bool>) -> Result<Seq<TokenView>, LexError> {
    lex_from(s, marks, 0)
}

/// The tokens of the line `s`, or the first error of the scan.
pub open spec fn lex_spec(s: Seq<char>) -> Result<Seq<TokenView>, LexError> {
    marked_tokens(s, alphabetic_marks(s))
}

/// A run of digits ends at the line's end or before a character that is no digit.
pub proof fn lemma_digit_run(s: Seq<char>, i: int, j: int)
    requires
        0 <= i <= j <= s.len(),
        forall|k: int| i <= k < j ==> is_digit(s[k]),
        j < s.len() ==> !is_digit(s[j]),
    ensures
        digit_run(s, i) == j - i,
    decreases j - i,
{
    if i < j {
        lemma_digit_run(s, i + 1, j);
    }
}

/// A run of letters ends at the line's end or before a character that is no letter.
pub proof fn lemma_letter_run(s: Seq<char>, marks: Seq<bool>, i: int, j: int)
    requires
        0 <= i <= j <= s.len(),
        forall|k: int| i <= k < j ==> letter_at(s, marks, k),
        !letter_at(s, marks, j),
    ensures
        letter_run(s, marks, i) == j - i,
    decreases j - i,
{
    if i < j {
        lemma_letter_run(s, marks, i + 1, j);
    }
}

/// A run from `i` on stays within the line, and holds digits only.
pub proof fn lemma_digit_run_bounds(s: Seq<char>, i: int)
    requires
        0 <= i <= s.len(),
    ensures
        i + digit_run(s, i) <= s.len(),
        forall|k: int| i <= k < i + digit_run(s, i) ==> is_digit(s[k]),
    decreases s.len() - i,
{
    if i < s.len() && is_digit(s[i]) {
        lemma_digit_run_bounds(s, i + 1);
    }
}

/// A run from `i` on stays within the line, and holds letters only.
pub proof fn lemma_letter_run_bounds(s: Seq<char>, marks: Seq<bool>, i: int)
    requires
        0 <= i <= s.len(),
    ensures
        i + letter_run(s, marks, i) <= s.len(),
        forall|k: int| i <= k < i + letter_run(s, marks, i) ==> letter_at(s, marks, k),
    decreases s.len() - i,
{
    if letter_at(s, marks, i) {
        lemma_letter_run_bounds(s, marks, i + 1);
    }
}

/// One step of the scan: the tokens of the line are those found before index
/// `i`, what stands at `i`, and the tokens behind it.
proof fn lemma_lex_step(s: Seq<char>, marks: Seq<bool>, i: int, done: Seq<TokenView>)
    requires
        0 <= i < s.len(),
    ensures
        match scan(s, marks, i) {
            Err(e) => followed_by(done, lex_from(s, marks, i)) == Err::<Seq<TokenView>, LexError>(
                e,
            ),
            Ok((Some(t), next)) => followed_by(done, lex_from(s, marks, i)) == followed_by(
                done.push(t),
                lex_from(s, marks, next),
            ),
            Ok((None, next)) => followed_by(done, lex_from(s, marks, i)) == followed_by(
                done,
                lex_from(s, marks, next),
            ),
        },
{
    match scan(s, marks, i) {
        Ok((Some(t), next)) => {
            match lex_from(s, marks, next) {
                Ok(rest) => {
                    assert(done + (seq![t] + rest) =~= done.push(t) + rest);
                },
                Err(_) => {},
            }
        },
        _ => {},
    }
}

/// A line that holds digits and nothing else is one number, the one it
/// spells, whatever the marks say.
pub proof fn lemma_digits_are_one_number(s: Seq<char>, marks: Seq<bool>)
    requires
        s.len() > 0,
        forall|k: int| 0 <= k < s.len() ==> is_digit(s[k]),
    ensures
        marked_tokens(s, marks) == Ok::<Seq<TokenView>, LexError>(
            seq![TokenView::Number(decimal(s))],
        ),
{
    lemma_digit_run(s, 1, s.len() as int);
    assert(s.subrange(0, s.len() as int) =~= s);
    let t = TokenView::Number(decimal(s));
    assert(scan(s, marks, 0) == Ok::<(Option<TokenView>, int), LexError>(
        (Some(t), s.len() as int),
    ));
    assert(lex_from(s, marks, s.len() as int) == Ok::<Seq<TokenView>, LexError>(Seq::empty()));
    assert(seq![t] + Seq::<TokenView>::empty() =~= seq![t]);
}

/// The tokens of a line that holds digits and nothing else are one number:
/// the one that the line spells.
pub proof fn lemma_digit_line(s: Seq<char>)
    requires
        s.len() > 0,
        forall|k: int| 0 <= k < s.len() ==> is_digit(s[k]),
    ensures
        lex_spec(s) == Ok::<Seq<TokenView>, LexError>(seq![TokenView::Number(decimal(s))]),
{
    lemma_digits_are_one_number(s, alphabetic_marks(s));
}

/// Whether the last two characters of `s` spell one symbol together.
pub open spec fn ends_in_pair(s: Seq<char>) -> bool {
    s.len() >= 2 && pair(s[s.len() - 2], s.last()) is Some
}

/// A line whose last character is `-`, `:` or `=` has no tokens, whatever the
/// marks say: the scan fails, unless that character is the second of a symbol
/// of two.
pub proof fn lemma_trailing_symbol_fails(s: Seq<char>, marks: Seq<bool>)
    requires
        s.len() > 0,
        opens_pair(s.last()),
    ensures
        marked_tokens(s, marks) is Err || ends_in_pair(s),
{
    lemma_trailing_symbol_fails_from(s, marks, 0);
}

/// A line whose last character is `-`, `:` or `=` has no tokens, unless that
/// character is the second of a symbol of two.
pub proof fn lemma_trailing_symbol_line(s: Seq<char>)
    requires
        s.len() > 0,
        opens_pair(s.last()),
    ensures
        lex_spec(s) is Err || ends_in_pair(s),
{
    lemma_trailing_symbol_fails(s, alphabetic_marks(s));
}

/// The same of the scan from index `i` on.
proof fn lemma_trailing_symbol_fails_from(s: Seq<char>, marks: Seq<bool>, i: int)
    requires
        0 <= i < s.len(),
        opens_pair(s.last()),
    ensures
        lex_from(s, marks, i) is Err || ends_in_pair(s),
    decreases s.len() - i,
{
    lemma_digit_run_bounds(s, i + 1);
    lemma_letter_run_bounds(s, marks, i + 1);
    match scan(s, marks, i) {
        Err(_) => {},
        Ok((_, next)) => {
            if next < s.len() {
                lemma_trailing_symbol_fails_from(s, marks, next);
            } else {
                assert(!is_digit(s.last()));
                assert(!letter_at(s, marks, s.len() - 1));
            }
        },
    }
}

/// Where the scan fails, it fails within the line: at its last character,
/// which is `-`, `:` or `=`, or at a character that is no blank, digit or letter.
pub proof fn lemma_error_within_line(s: Seq<char>, marks: Seq<bool>, i: int)
    requires
        0 <= i,
        s.len() <= usize::MAX,
    ensures
        match lex_from(s, marks, i) {
            Err(LexError::IncompleteSymbol(at)) => at == s.len() - 1 && opens_pair(s.last()),
            Err(LexError::UnexpectedCharacter(at)) => i <= at < s.len() && !is_blank(s[at as int])
                && !is_digit(s[at as int]) && !letter_at(s, marks, at as int),
            Ok(_) => true,
        },
    decreases s.len() - i,
{
    if i < s.len() {
        lemma_digit_run_bounds(s, i + 1);
        lemma_letter_run_bounds(s, marks, i + 1);
        match scan(s, marks, i) {
            Err(_) => {},
            Ok((_, next)) => {
                lemma_error_within_line(s, marks, next);
            },
        }
    }
}

/// No line has a token `Let` or `Bool`: a word is an identifier, whichever
/// word it is.
pub proof fn lemma_words_are_identifiers(s: Seq<char>, marks: Seq<bool>, i: int)
    requires
        0 <= i,
    ensures
        lex_from(s, marks, i) matches Ok(tokens) ==> forall|k: int|
            0 <= k < tokens.len() ==> !(tokens[k] is Let) && !(tokens[k] is Bool),
    decreases s.len() - i,
{
    if i < s.len() {
        lemma_digit_run_bounds(s, i + 1);
        lemma_letter_run_bounds(s, marks, i + 1);
        match scan(s, marks, i) {
            Err(_) => {},
            Ok((_, next)) => {
                lemma_words_are_identifiers(s, marks, next);
            },
        }
    }
}

/// `char::is_alphabetic`: whether Unicode gives `c` the property Alphabetic.
#[verifier::external_body]
fn char_is_alphabetic(c: char) -> (b: bool)
    ensures
        b == alphabetic(c),
{
    c.is_alphabetic()
}

/// Whether `c` is a blank.
fn blank(c: char) -> (b: bool)
    ensures
        b == is_blank(c),
{
    c == ' ' || c == '\n' || c == '\t' || c == '\r' || c == '\x0c'
}

/// Whether `c` is a digit.
fn digit(c: char) -> (b: bool)
    ensures
        b == is_digit(c),
{
    '0' <= c && c <= '9'
}

/// Whether a letter stands at index `i`.
fn letter(chars: &Vec<char>, marks: &Vec<bool>, i: usize) -> (b: bool)
    requires
        i < chars.len(),
    ensures
        b == letter_at(chars@, marks@, i as int),
{
    let c = chars[i];
    if c <= '\x7f' {
        ('a' <= c && c <= 'z') || ('A' <= c && c <= 'Z')
    } else {
        i < marks.len() && marks[i]
    }
}

/// The token that `c` is by itself, if it is one.
fn single_token(c: char) -> (r: Option<Token>)
    ensures
        match r {
            Some(t) => single(c) == Some(t@),
            None => single(c) is None,
        },
{
    if c == LAMBDA_GLYPH {
        Some(Token::Lambda)
    } else if c == '.' {
        Some(Token::Dot)
    } else if c == ',' {
        Some(Token::Comma)
    } else if c == ';' {
        Some(Token::SemiColon)
    } else if c == '(' {
        Some(Token::LeftParen)
    } else if c == ')' {
        Some(Token::RightParen)
    } else if c == '[' {
        Some(Token::LeftSquared)
    } else if c == ']' {
        Some(Token::RightSquared)
    } else if c == '+' {
        Some(Token::Plus)
    } else if c == '*' {
        Some(Token::Star)
    } else if c == '/' {
        Some(Token::Slash)
    } else if c == '^' {
        Some(Token::Power)
    } else {
        None
    }
}

/// The token that `c` and `d` spell together, if they spell one.
fn pair_token(c: char, d: char) -> (r: Option<Token>)
    ensures
        match r {
            Some(t) => pair(c, d) == Some(t@),
            None => pair(c, d) is None,
        },
{
    if c == '-' && d == '>' {
        Some(Token::Arrow)
    } else if c == ':' && d == ':' {
        Some(Token::DefineType)
    } else if c == ':' && d == '=' {
        Some(Token::Define)
    } else if c == '=' && d == '=' {
        Some(Token::EqualEqual)
    } else {
        None
    }
}

/// The code points of `text`, in order.
fn code_points(text: &str) -> (chars: Vec<char>)
    ensures
        chars@ == text@,
{
    let mut chars: Vec<char> = Vec::new();
    for c in it: text.chars()
        invariant
            it.seq() == text@,
            chars@ == it.seq().subrange(0, it.index() as int),
    {
        chars.push(c);
        proof {
            assert(chars@ =~= it.seq().subrange(0, it.index() + 1));
        }
    }
    proof {
        assert(chars@ =~= text@);
    }
    chars
}

/// For each code point of `text`, whether it is alphabetic.
fn marks_of(text: &str) -> (marks: Vec<bool>)
    ensures
        marks@ == alphabetic_marks(text@),
{
    let mut marks: Vec<bool> = Vec::new();
    for c in it: text.chars()
        invariant
            it.seq() == text@,
            marks@ == alphabetic_marks(it.seq().subrange(0, it.index() as int)),
    {
        marks.push(char_is_alphabetic(c));
        proof {
            assert(marks@ =~= alphabetic_marks(it.seq().subrange(0, it.index() + 1)));
        }
    }
    proof {
        assert(text@.subrange(0, text@.len() as int) =~= text@);
    }
    marks
}

/// The number that the digits at `from..to` spell.
fn number_at(chars: &Vec<char>, from: usize, to: usize) -> (r: Literal)
    requires
        from <= to <= chars.len(),
        forall|k: int| from <= k < to ==> is_digit(chars[k]),
    ensures
        r@ == decimal(chars@.subrange(from as int, to as int)),
{
    let mut r = Literal::zero();
    let mut j: usize = from;
    while j < to
        invariant
            from <= j <= to <= chars.len(),
            forall|k: int| from <= k < to ==> is_digit(chars[k]),
            r@ == decimal(chars@.subrange(from as int, j as int)),
        decreases to - j,
    {
        proof {
            assert(chars@.subrange(from as int, j + 1).drop_last() =~= chars@.subrange(
                from as int,
                j as int,
            ));
        }
        r = r.append(digit_of(chars[j]));
        j += 1;
    }
    r
}

/// The tokenizer.
pub struct Lexer;

impl Lexer {
    /// The tokens of the line `s`, in order.
    ///
    /// Blanks yield nothing. The scan fails at the first character that begins
    /// no token, and at a `-`, `:` or `=` that ends the line.
    pub fn lex(s: String) -> (r: Result<Vec<Token>, LexError>)
        ensures
            match r {
                Ok(tokens) => lex_spec(s@) == Ok::<Seq<TokenView>, LexError>(token_views(tokens@)),
                Err(e) => lex_spec(s@) == Err::<Seq<TokenView>, LexError>(e),
            },
    {
        let marks = marks_of(s.as_str());
        Lexer::lex_marked(s.as_str(), &marks)
    }

    /// The tokens of the line `text`, in order, `marks` saying of each of its
    /// code points whether it is alphabetic. A code point without a mark
    /// counts as not alphabetic.
    pub fn lex_marked(text: &str, marks: &Vec<bool>) -> (r: Result<Vec<Token>, LexError>)
        ensures
            match r {
                Ok(tokens) => marked_tokens(text@, marks@) == Ok::<Seq<TokenView>, LexError>(
                    token_views(tokens@),
                ),
                Err(e) => marked_tokens(text@, marks@) == Err::<Seq<TokenView>, LexError>(e),
            },
    {
        let chars = code_points(text);
        let mut tokens: Vec<Token> = Vec::new();
        let mut i: usize = 0;
        proof {
            assert(token_views(tokens@) =~= Seq::<TokenView>::empty());
            match lex_from(text@, marks@, 0) {
                Ok(all) => {
                    assert(Seq::<TokenView>::empty() + all =~= all);
                },
                Err(_) => {},
            }
        }
        while i < chars.len()
            invariant
                chars@ == text@,
                i <= chars.len(),
                marked_tokens(text@, marks@) == followed_by(
                    token_views(tokens@),
                    lex_from(text@, marks@, i as int),
                ),
            decreases chars.len() - i,
        {
            let c = chars[i];
            let ghost done = token_views(tokens@);
            proof {
                lemma_lex_step(text@, marks@, i as int, done);
            }
            if blank(c) {
                i += 1;
            } else if let Some(token) = single_token(c) {
                tokens.push(token);
                i += 1;
            } else if c == '-' || c == ':' || c == '=' {
                if i + 1 >= chars.len() {
                    return Err(LexError::IncompleteSymbol(i));
                }
                match pair_token(c, chars[i + 1]) {
                    Some(token) => {
                        tokens.push(token);
                        i += 2;
                    },
                    None => {
                        if c == '-' {
                            tokens.push(Token::Minus);
                        }
                        i += 1;
                    },
                }
            } else if digit(c) {
                let mut j: usize = i + 1;
                while j < chars.len() && digit(chars[j])
                    invariant
                        i < j <= chars.len(),
                        forall|k: int| i <= k < j ==> is_digit(chars[k]),
                    decreases chars.len() - j,
                {
                    j += 1;
                }
                proof {
                    lemma_digit_run(text@, i + 1, j as int);
                }
                tokens.push(Token::Number(number_at(&chars, i, j)));
                i = j;
            } else if letter(&chars, marks, i) {
                let mut j: usize = i + 1;
                while j < chars.len() && letter(&chars, marks, j)
                    invariant
                        i < j <= chars.len(),
                        forall|k: int| i <= k < j ==> letter_at(chars@, marks@, k),
                    decreases chars.len() - j,
                {
                    j += 1;
                }
                proof {
                    lemma_letter_run(text@, marks@, i + 1, j as int);
                }
                tokens.push(Token::Identifier(text.substring_char(i, j).to_owned()));
                i = j;
            } else {
                return Err(LexError::UnexpectedCharacter(i));
            }
            proof {
                if token_views(tokens@) != done {
                    assert(token_views(tokens@) =~= done.push(tokens@.last()@));
                }
            }
        }
        proof {
            assert(token_views(tokens@) + Seq::<TokenView>::empty() =~= token_views(tokens@));
        }
        Ok(tokens)
    }
}

} // verus!

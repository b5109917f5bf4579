//! The scanner: from text to tokens.
//!
//! At each position the token forms are tried in a fixed order and the first
//! that matches is taken.  [`token_at`] states that order; [`lex`] states
//! what a whole text scans to; [`Token::parse`] computes it.

use vstd::prelude::*;
use crate::chars::{
    CharClass, ident_char, is_ident_char, is_word_char, lemma_run_end, make_string, run_end, scan,
    to_chars, word_char,
};
use crate::number::after_sign;
use crate::token::{joined, models, ArrayType, DecimalType, IntegerType, Token, TokenModel};

verus! {

/// Where the scanner gave up: the position of the character that starts no
/// token, counted in characters from the start of the text, and that
/// character, or `None` at the end of the text.
#[derive(PartialEq, Eq, Clone, Copy, Hash, Debug, Structural)]
pub struct LexError {
    pub position: usize,
    pub found: Option<char>,
}

impl LexError {
    /// The words that describe this error.
    pub open spec fn words(self) -> Seq<char> {
        match self.found {
            Some(_) => "unrecognized token"@,
            None => "unexpected end of input"@,
        }
    }

    /// A phrase that says what was met at the position.
    pub fn message(&self) -> (text: String)
        ensures
            text@ == self.words(),
    {
        match self.found {
            Some(_) => "unrecognized token".to_owned(),
            None => "unexpected end of input".to_owned(),
        }
    }
}

/// A number may end at `p`: the text ends there, or what follows could not
/// continue a bare word.
///
/// A character outside ASCII never continues a bare word, and none that is
/// alphanumeric starts a token either, so scanning stops at such a character
/// whether or not the number before it is accepted.
pub open spec fn boundary(s: Seq<char>, p: int) -> bool {
    p >= s.len() || !ident_char(s[p])
}

/// `[`, a letter naming the width, `;`: nothing may stand between them.
pub open spec fn array_start_at(s: Seq<char>, p: int) -> Option<(TokenModel, int)> {
    if 0 <= p && p + 2 < s.len() && s[p] == '[' && s[p + 2] == ';' {
        match ArrayType::of_letter(s[p + 1]) {
            Some(width) => Some((TokenModel::ArrayStart(width), p + 3)),
            None => None,
        }
    } else {
        None
    }
}

/// The word `true` stands at `p` and ends there.
pub open spec fn true_at(s: Seq<char>, p: int) -> bool {
    &&& 0 <= p
    &&& p + 4 <= s.len()
    &&& s[p] == 't'
    &&& s[p + 1] == 'r'
    &&& s[p + 2] == 'u'
    &&& s[p + 3] == 'e'
    &&& (p + 4 < s.len() ==> !word_char(s[p + 4]))
}

/// The word `false` stands at `p` and ends there.
pub open spec fn false_at(s: Seq<char>, p: int) -> bool {
    &&& 0 <= p
    &&& p + 5 <= s.len()
    &&& s[p] == 'f'
    &&& s[p + 1] == 'a'
    &&& s[p + 2] == 'l'
    &&& s[p + 3] == 's'
    &&& s[p + 4] == 'e'
    &&& (p + 5 < s.len() ==> !word_char(s[p + 5]))
}

pub open spec fn boolean_at(s: Seq<char>, p: int) -> Option<(TokenModel, int)> {
    if true_at(s, p) {
        Some((TokenModel::Boolean(true), p + 4))
    } else if false_at(s, p) {
        Some((TokenModel::Boolean(false), p + 5))
    } else {
        None
    }
}

/// An optional `-`, digits, an optional width letter, and then a boundary.
/// The token's text is the sign and the digits.
pub open spec fn integer_at(s: Seq<char>, p: int) -> Option<(TokenModel, int)> {
    let q = after_sign(s, p);
    let e = run_end(s, q, CharClass::Digit);
    if e == q {
        None
    } else if boundary(s, e) {
        Some((TokenModel::Integer(s.subrange(p, e), IntegerType::Int), e))
    } else if boundary(s, e + 1) {
        match IntegerType::of_suffix(Some(s[e])) {
            Some(width) => Some((TokenModel::Integer(s.subrange(p, e), width), e + 1)),
            None => None,
        }
    } else {
        None
    }
}

/// What may follow the digits of a floating literal whose text is
/// `s[p..e]`: a precision letter or, where `bare` allows it, nothing; and
/// then a boundary.
pub open spec fn decimal_end(s: Seq<char>, p: int, e: int, bare: bool) -> Option<
    (TokenModel, int),
> {
    if bare && boundary(s, e) {
        Some((TokenModel::Decimal(s.subrange(p, e), DecimalType::Double), e))
    } else if e < s.len() && boundary(s, e + 1) {
        match DecimalType::of_suffix(Some(s[e])) {
            Some(width) => Some((TokenModel::Decimal(s.subrange(p, e), width), e + 1)),
            None => None,
        }
    } else {
        None
    }
}

/// An optional `-` and digits, then either a point, more digits and an
/// optional precision letter, or a precision letter at once; and then a
/// boundary.  The token's text is all of it but the letter.
pub open spec fn decimal_at(s: Seq<char>, p: int) -> Option<(TokenModel, int)> {
    let q = after_sign(s, p);
    let e = run_end(s, q, CharClass::Digit);
    if e == q {
        None
    } else if e < s.len() && s[e] == '.' {
        let f = run_end(s, e + 1, CharClass::Digit);
        if f == e + 1 {
            None
        } else {
            decimal_end(s, p, f, true)
        }
    } else {
        decimal_end(s, p, e, false)
    }
}

/// The longest run of bare-word characters, if there is one.
pub open spec fn identifier_at(s: Seq<char>, p: int) -> Option<(TokenModel, int)> {
    let e = run_end(s, p, CharClass::Ident);
    if e == p {
        None
    } else {
        Some((TokenModel::Identifier(s.subrange(p, e)), e))
    }
}

/// The character that `\` followed by `c` stands for inside a string.
pub open spec fn unescape(c: char) -> Option<char> {
    if c == '\\' || c == '/' || c == '"' || c == '\'' {
        Some(c)
    } else if c == 'b' {
        Some('\x08')
    } else if c == 'f' {
        Some('\x0C')
    } else if c == 'n' {
        Some('\n')
    } else if c == 'r' {
        Some('\r')
    } else if c == 't' {
        Some('\t')
    } else {
        None
    }
}

/// The content of a string whose opening quote has been read, from `i` up
/// to the closing `quote`, and the position after that quote.
pub open spec fn string_body(s: Seq<char>, i: int, quote: char) -> Option<(Seq<char>, int)>
    decreases s.len() - i,
{
    if i < 0 || i >= s.len() {
        None
    } else if s[i] == quote {
        Some((Seq::empty(), i + 1))
    } else if s[i] == '\\' {
        if i + 1 < s.len() && unescape(s[i + 1]) is Some {
            match string_body(s, i + 2, quote) {
                Some((rest, e)) => Some((seq![unescape(s[i + 1])->0] + rest, e)),
                None => None,
            }
        } else {
            None
        }
    } else {
        match string_body(s, i + 1, quote) {
            Some((rest, e)) => Some((seq![s[i]] + rest, e)),
            None => None,
        }
    }
}

/// A string in double or in single quotes.
pub open spec fn string_at(s: Seq<char>, p: int) -> Option<(TokenModel, int)> {
    if 0 <= p < s.len() && (s[p] == '"' || s[p] == '\'') {
        match string_body(s, p + 1, s[p]) {
            Some((text, e)) => Some((TokenModel::StringLiteral(text), e)),
            None => None,
        }
    } else {
        None
    }
}

/// The token that starts at `p` and the position after it.  The forms are
/// tried in this order, and the first that matches is the token.
pub open spec fn token_at(s: Seq<char>, p: int) -> Option<(TokenModel, int)> {
    if !(0 <= p < s.len()) {
        None
    } else if s[p] == ',' {
        Some((TokenModel::Comma, p + 1))
    } else if s[p] == ':' {
        Some((TokenModel::Colon, p + 1))
    } else if array_start_at(s, p) is Some {
        array_start_at(s, p)
    } else if s[p] == '[' {
        Some((TokenModel::OpenBracket, p + 1))
    } else if s[p] == ']' {
        Some((TokenModel::CloseBracket, p + 1))
    } else if s[p] == '{' {
        Some((TokenModel::OpenBrace, p + 1))
    } else if s[p] == '}' {
        Some((TokenModel::CloseBrace, p + 1))
    } else if boolean_at(s, p) is Some {
        boolean_at(s, p)
    } else if integer_at(s, p) is Some {
        integer_at(s, p)
    } else if decimal_at(s, p) is Some {
        decimal_at(s, p)
    } else if identifier_at(s, p) is Some {
        identifier_at(s, p)
    } else {
        string_at(s, p)
    }
}

/// The tokens from `p` on, whitespace skipped before each, and the
/// position at which no further token starts.
pub open spec fn lex_from(s: Seq<char>, p: int) -> (Seq<TokenModel>, int)
    decreases s.len() - p,
{
    let q = run_end(s, p, CharClass::Whitespace);
    match token_at(s, q) {
        Some((token, e)) => if p <= q < e <= s.len() {
            let (rest, stop) = lex_from(s, e);
            (seq![token] + rest, stop)
        } else {
            (Seq::empty(), q)
        },
        None => (Seq::empty(), q),
    }
}

/// The error for a scan that stopped at `stop`.
pub open spec fn lex_error(s: Seq<char>, stop: int) -> LexError {
    LexError {
        position: stop as usize,
        found: if 0 <= stop < s.len() {
            Some(s[stop])
        } else {
            None
        },
    }
}

/// What a text scans to: its tokens, if they cover all of it but
/// whitespace and there is at least one; else the place where scanning
/// stopped.
pub open spec fn lex(s: Seq<char>) -> Result<Seq<TokenModel>, LexError> {
    let (tokens, stop) = lex_from(s, 0);
    if tokens.len() >= 1 && stop == s.len() {
        Ok(tokens)
    } else {
        Err(lex_error(s, stop))
    }
}

/// What a scanning step returned, in the terms of the contracts.
pub open spec fn scanned(r: Option<(Token, usize)>) -> Option<(TokenModel, int)> {
    match r {
        Some((token, end)) => Some((token@, end as int)),
        None => None,
    }
}

/// The end of a string body lies after its start and within the text.
pub proof fn lemma_string_body_end(s: Seq<char>, i: int, quote: char)
    requires
        0 <= i,
    ensures
        string_body(s, i, quote) matches Some((_, e)) ==> i < e <= s.len(),
    decreases s.len() - i,
{
    if i < s.len() && s[i] != quote {
        if s[i] == '\\' {
            if i + 1 < s.len() && unescape(s[i + 1]) is Some {
                lemma_string_body_end(s, i + 2, quote);
            }
        } else {
            lemma_string_body_end(s, i + 1, quote);
        }
    }
}

/// Every token is at least one character long and ends within the text.
pub proof fn lemma_token_advances(s: Seq<char>, p: int)
    ensures
        token_at(s, p) matches Some((_, e)) ==> p < e <= s.len(),
{
    if 0 <= p < s.len() {
        let q = after_sign(s, p);
        lemma_run_end(s, q, CharClass::Digit);
        let e = run_end(s, q, CharClass::Digit);
        if e < s.len() {
            lemma_run_end(s, e + 1, CharClass::Digit);
        }
        lemma_run_end(s, p, CharClass::Ident);
        lemma_string_body_end(s, p + 1, s[p]);
    }
}

fn at_boundary(chars: &Vec<char>, p: usize) -> (b: bool)
    requires
        p <= chars.len(),
    ensures
        b == boundary(chars@, p as int),
{
    p >= chars.len() || !is_ident_char(chars[p])
}

fn lex_array_start(chars: &Vec<char>, p: usize) -> (r: Option<(Token, usize)>)
    requires
        p < chars.len(),
    ensures
        scanned(r) == array_start_at(chars@, p as int),
{
    if chars.len() - p > 2 && chars[p] == '[' && chars[p + 2] == ';' {
        match ArrayType::from(chars[p + 1]) {
            Some(width) => Some((Token::ArrayStart(width), p + 3)),
            None => None,
        }
    } else {
        None
    }
}

fn lex_boolean(chars: &Vec<char>, p: usize) -> (r: Option<(Token, usize)>)
    requires
        p < chars.len(),
    ensures
        scanned(r) == boolean_at(chars@, p as int),
{
    let room: usize = chars.len() - p;
    if room >= 4 && chars[p] == 't' && chars[p + 1] == 'r' && chars[p + 2] == 'u' && chars[p + 3]
        == 'e' && (room == 4 || !is_word_char(chars[p + 4])) {
        Some((Token::Boolean(true), p + 4))
    } else if room >= 5 && chars[p] == 'f' && chars[p + 1] == 'a' && chars[p + 2] == 'l' && chars[p
        + 3] == 's' && chars[p + 4] == 'e' && (room == 5 || !is_word_char(chars[p + 5])) {
        Some((Token::Boolean(false), p + 5))
    } else {
        None
    }
}

fn lex_integer(chars: &Vec<char>, p: usize) -> (r: Option<(Token, usize)>)
    requires
        p < chars.len(),
    ensures
        scanned(r) == integer_at(chars@, p as int),
{
    let q: usize = if chars[p] == '-' {
        p + 1
    } else {
        p
    };
    let e: usize = scan(chars, q, CharClass::Digit);
    if e == q {
        None
    } else if at_boundary(chars, e) {
        Some((Token::Integer(make_string(chars, p, e), IntegerType::Int), e))
    } else if at_boundary(chars, e + 1) {
        match IntegerType::from(Some(chars[e])) {
            Some(width) => Some((Token::Integer(make_string(chars, p, e), width), e + 1)),
            None => None,
        }
    } else {
        None
    }
}

fn lex_decimal_end(chars: &Vec<char>, p: usize, e: usize, bare: bool) -> (r: Option<
    (Token, usize),
>)
    requires
        p <= e <= chars.len(),
    ensures
        scanned(r) == decimal_end(chars@, p as int, e as int, bare),
{
    if bare && at_boundary(chars, e) {
        Some((Token::Decimal(make_string(chars, p, e), DecimalType::Double), e))
    } else if e < chars.len() && at_boundary(chars, e + 1) {
        match DecimalType::from(Some(chars[e])) {
            Some(width) => Some((Token::Decimal(make_string(chars, p, e), width), e + 1)),
            None => None,
        }
    } else {
        None
    }
}

fn lex_decimal(chars: &Vec<char>, p: usize) -> (r: Option<(Token, usize)>)
    requires
        p < chars.len(),
    ensures
        scanned(r) == decimal_at(chars@, p as int),
{
    let q: usize = if chars[p] == '-' {
        p + 1
    } else {
        p
    };
    let e: usize = scan(chars, q, CharClass::Digit);
    if e == q {
        None
    } else if e < chars.len() && chars[e] == '.' {
        let f: usize = scan(chars, e + 1, CharClass::Digit);
        if f == e + 1 {
            None
        } else {
            lex_decimal_end(chars, p, f, true)
        }
    } else {
        lex_decimal_end(chars, p, e, false)
    }
}

fn lex_identifier(chars: &Vec<char>, p: usize) -> (r: Option<(Token, usize)>)
    requires
        p < chars.len(),
    ensures
        scanned(r) == identifier_at(chars@, p as int),
{
    let e: usize = scan(chars, p, CharClass::Ident);
    if e == p {
        None
    } else {
        Some((Token::Identifier(make_string(chars, p, e)), e))
    }
}

fn resolve_escape(c: char) -> (r: Option<char>)
    ensures
        r == unescape(c),
{
    if c == '\\' || c == '/' || c == '"' || c == '\'' {
        Some(c)
    } else if c == 'b' {
        Some('\x08')
    } else if c == 'f' {
        Some('\x0C')
    } else if c == 'n' {
        Some('\n')
    } else if c == 'r' {
        Some('\r')
    } else if c == 't' {
        Some('\t')
    } else {
        None
    }
}

/// `string_body` from the start of the content, given the content read so
/// far and `string_body` from where reading stands.
spec fn body_after(read: Seq<char>, rest: Option<(Seq<char>, int)>) -> Option<(Seq<char>, int)> {
    match rest {
        Some((text, e)) => Some((read + text, e)),
        None => None,
    }
}

fn lex_string(chars: &Vec<char>, p: usize) -> (r: Option<(Token, usize)>)
    requires
        p < chars.len(),
    ensures
        scanned(r) == string_at(chars@, p as int),
{
    let quote: char = chars[p];
    if quote != '"' && quote != '\'' {
        return None;
    }
    let ghost s = chars@;
    let mut text = String::new();
    let mut i: usize = p + 1;
    proof {
        match string_body(s, i as int, quote) {
            Some((tail, _)) => {
                assert(text@ + tail == tail);
            },
            None => {},
        }
    }
    loop
        invariant
            s == chars@,
            p < i <= chars.len(),
            quote == s[p as int],
            quote == '"' || quote == '\'',
            string_body(s, p + 1, quote) == body_after(text@, string_body(s, i as int, quote)),
        decreases chars.len() - i,
    {
        if i >= chars.len() {
            return None;
        }
        let c: char = chars[i];
        if c == quote {
            assert(text@ + Seq::<char>::empty() == text@);
            return Some((Token::StringLiteral(text), i + 1));
        }
        if c == '\\' {
            if chars.len() - i < 2 {
                return None;
            }
            match resolve_escape(chars[i + 1]) {
                Some(plain) => {
                    proof {
                        match string_body(s, i + 2, quote) {
                            Some((tail, _)) => {
                                assert(text@ + (seq![plain] + tail) == text@.push(plain) + tail);
                            },
                            None => {},
                        }
                    }
                    text.push(plain);
                    i += 2;
                },
                None => {
                    return None;
                },
            }
        } else {
            proof {
                match string_body(s, i + 1, quote) {
                    Some((tail, _)) => {
                        assert(text@ + (seq![c] + tail) == text@.push(c) + tail);
                    },
                    None => {},
                }
            }
            text.push(c);
            i += 1;
        }
    }
}

/// Reads the token that starts at `p`.
fn lex_token(chars: &Vec<char>, p: usize) -> (r: Option<(Token, usize)>)
    requires
        p < chars.len(),
    ensures
        scanned(r) == token_at(chars@, p as int),
        r matches Some((_, e)) ==> p < e <= chars.len(),
{
    proof {
        lemma_token_advances(chars@, p as int);
    }
    let c: char = chars[p];
    if c == ',' {
        return Some((Token::Comma, p + 1));
    }
    if c == ':' {
        return Some((Token::Colon, p + 1));
    }
    let found = lex_array_start(chars, p);
    if found.is_some() {
        return found;
    }
    if c == '[' {
        return Some((Token::OpenBracket, p + 1));
    }
    if c == ']' {
        return Some((Token::CloseBracket, p + 1));
    }
    if c == '{' {
        return Some((Token::OpenBrace, p + 1));
    }
    if c == '}' {
        return Some((Token::CloseBrace, p + 1));
    }
    let found = lex_boolean(chars, p);
    if found.is_some() {
        return found;
    }
    let found = lex_integer(chars, p);
    if found.is_some() {
        return found;
    }
    let found = lex_decimal(chars, p);
    if found.is_some() {
        return found;
    }
    let found = lex_identifier(chars, p);
    if found.is_some() {
        return found;
    }
    lex_string(chars, p)
}

impl Token {
    /// Cuts `source` into tokens.
    ///
    /// Succeeds exactly when the text, whitespace aside, is one token after
    /// another and holds at least one; the tokens are then those of
    /// [`lex`].  Otherwise the one error names the place where no token
    /// starts.
    pub fn parse(source: &str) -> (r: Result<Vec<Token>, Vec<LexError>>)
        ensures
            match lex(source@) {
                Ok(tokens) => r matches Ok(found) && models(found@) == tokens,
                Err(e) => r matches Err(errors) && errors@ == seq![e],
            },
    {
        let chars = to_chars(source);
        let ghost s = chars@;
        let mut tokens: Vec<Token> = Vec::new();
        let mut i: usize = 0;
        let mut stop: usize = 0;
        assert(joined(models(tokens@), lex_from(s, 0)) == lex_from(s, 0)) by {
            let all = lex_from(s, 0);
            assert(models(tokens@) + all.0 == all.0);
        }
        loop
            invariant_except_break
                s == chars@,
                i <= chars.len(),
                lex_from(s, 0) == joined(models(tokens@), lex_from(s, i as int)),
            ensures
                s == chars@,
                stop <= chars.len(),
                lex_from(s, 0) == (models(tokens@), stop as int),
            decreases chars.len() - i,
        {
            stop = scan(&chars, i, CharClass::Whitespace);
            if stop >= chars.len() {
                assert(models(tokens@) + Seq::<TokenModel>::empty() == models(tokens@));
                break ;
            }
            match lex_token(&chars, stop) {
                Some((token, end)) => {
                    proof {
                        let rest = lex_from(s, end as int);
                        assert(models(tokens@) + (seq![token@] + rest.0) == models(
                            tokens@.push(token),
                        ) + rest.0);
                    }
                    tokens.push(token);
                    i = end;
                },
                None => {
                    assert(models(tokens@) + Seq::<TokenModel>::empty() == models(tokens@));
                    break ;
                },
            }
        }
        if tokens.len() >= 1 && stop == chars.len() {
            Ok(tokens)
        } else {
            let found: Option<char> = if stop < chars.len() {
                Some(chars[stop])
            } else {
                None
            };
            let mut errors: Vec<LexError> = Vec::new();
            errors.push(LexError { position: stop, found });
            Err(errors)
        }
    }
}

} // verus!

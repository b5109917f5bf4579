//! A reader for the stringified form of named binary tags.
//!
//! Text is first cut into tokens ([`Token::parse`]) and the tokens are then
//! assembled into a tree ([`build`]); [`parse`] does both.  Every function
//! here is total: none panics, and what each returns is fixed by a
//! mathematical description of the notation, [`lexer::lex`] for the tokens
//! and [`grammar::tree_of`] for the tree.
//!
//! | Kind      | Written as                                              |
//! |-----------|---------------------------------------------------------|
//! | Byte      | `<integer>b` or `B`; `true`, `false` where a byte stands |
//! | Short     | `<integer>s` or `S`                                     |
//! | Int       | `<integer>`                                             |
//! | Long      | `<integer>l` or `L`                                     |
//! | Float     | `<number>f` or `F`                                      |
//! | Double    | `<number>` with a fraction, `<number>d` or `D`          |
//! | ByteArray | `[B; 1b, 2b]`                                           |
//! | IntArray  | `[I; 1, 2]`                                             |
//! | LongArray | `[L; 1l, 2l]`                                           |
//! | String    | `"text"`, `'text'` or a bare word                       |
//! | List      | `[<value>, ...]`, all of one kind                       |
//! | Compound  | `{ <name> : <value>, ... }`                             |
//!
//! What holds of every text and every sequence of tokens is proved in
//! [`laws`], [`rendering`] and [`spelling`]: among it, that reading the
//! text that writes a tree gives the tree back.
//!
//! A list does not take its kind from its first item: the kinds are tried
//! in the order of [`TagKind`], each on the whole bracketed group, and the
//! first under which every item can be read is the kind of the list.  So
//! `[]` is a list of bytes, and `[true, 1b]` is one too.

use vstd::prelude::*;

pub mod chars;
pub mod token;
pub mod lexer;
pub mod number;
pub mod tag;
pub mod report;
pub mod grammar;
pub mod refusals;
pub mod builder;
pub mod laws;
pub mod rendering;
pub mod spelling;

pub use builder::build;
pub use grammar::MAX_DEPTH;
pub use lexer::LexError;
pub use report::{Expected, Failure, GrammarError};
pub use tag::{ListTag, Tag, TagKind, TagModel};
pub use token::{ArrayType, DecimalType, IntegerType, Token, TokenKind, TokenModel};

verus! {

/// Why a text could not be read.
#[derive(PartialEq, Eq, Clone, Debug)]
pub enum ParseError {
    /// The text is not made of tokens.
    TokenizeError(Vec<LexError>),
    /// The tokens stand for no tree.
    ParseFailure(Vec<GrammarError>),
}

/// What reading a text comes to.
pub ghost enum Outcome {
    /// The tree that the text stands for.
    Tree(TagModel),
    /// The text is not made of tokens: where scanning stopped.
    Unscanned(LexError),
    /// The tokens stand for no tree: the furthest refusal.
    Unbuilt(Failure),
}

/// What reading `s` comes to.  The text is scanned first; only a text that
/// is all tokens is looked at for a tree.
pub open spec fn outcome_of(s: Seq<char>) -> Outcome {
    match lexer::lex(s) {
        Err(e) => Outcome::Unscanned(e),
        Ok(tokens) => match grammar::tree_of(tokens) {
            Some(tree) => Outcome::Tree(tree),
            None => Outcome::Unbuilt(refusals::refusal_of(tokens)),
        },
    }
}

impl ParseError {
    /// The words that describe this error.
    pub open spec fn words(self) -> Seq<char> {
        match self {
            ParseError::TokenizeError(_) => "Found invalid token(s)."@,
            ParseError::ParseFailure(_) => "Failed to parse SNBT."@,
        }
    }

    /// A sentence that says which stage failed.
    pub fn message(&self) -> (text: String)
        ensures
            text@ == self.words(),
    {
        match self {
            ParseError::TokenizeError(_) => "Found invalid token(s).".to_owned(),
            ParseError::ParseFailure(_) => "Failed to parse SNBT.".to_owned(),
        }
    }
}

/// Reads `source` as one tagged value.
///
/// Returns the tree of [`outcome_of`], or the error of the stage that
/// failed: `TokenizeError` with the place where no token starts, or
/// `ParseFailure` with the furthest token that the grammar turned down.
pub fn parse(source: &str) -> (r: Result<Tag, ParseError>)
    ensures
        match outcome_of(source@) {
            Outcome::Tree(tree) => r matches Ok(tag) && tag@ == tree && tree.wf() && tree.readable(
                MAX_DEPTH as nat,
            ),
            Outcome::Unscanned(e) => r matches Err(ParseError::TokenizeError(errors)) && errors@
                == seq![e],
            Outcome::Unbuilt(failure) => r matches Err(ParseError::ParseFailure(errors))
                && errors.len() == 1 && errors[0].reports(lexer::lex(source@)->Ok_0, failure),
        },
{
    match Token::parse(source) {
        Ok(tokens) => match build(&tokens) {
            Ok(tag) => Ok(tag),
            Err(errors) => Err(ParseError::ParseFailure(errors)),
        },
        Err(errors) => Err(ParseError::TokenizeError(errors)),
    }
}

} // verus!

//! What the tree builder reports when no tree can be built.
//!
//! While it works, the builder remembers the furthest token that any
//! attempt turned down, together with everything that was wanted there.
//! That memory is a [`Failure`]; the error handed to the caller is made
//! from it.

use vstd::prelude::*;
use crate::token::{ArrayType, DecimalType, IntegerType, Token, TokenKind, TokenModel};

verus! {

/// A set of token kinds.
#[derive(PartialEq, Eq, Clone, Copy, Hash, Debug, Structural)]
pub struct Expected {
    pub comma: bool,
    pub colon: bool,
    pub byte_array_start: bool,
    pub int_array_start: bool,
    pub long_array_start: bool,
    pub open_bracket: bool,
    pub close_bracket: bool,
    pub open_brace: bool,
    pub close_brace: bool,
    pub boolean: bool,
    pub byte: bool,
    pub short: bool,
    pub int: bool,
    pub long: bool,
    pub float: bool,
    pub double: bool,
    pub identifier: bool,
    pub string_literal: bool,
}

impl Expected {
    /// The empty set.
    pub open spec fn none() -> Expected {
        Expected {
            comma: false,
            colon: false,
            byte_array_start: false,
            int_array_start: false,
            long_array_start: false,
            open_bracket: false,
            close_bracket: false,
            open_brace: false,
            close_brace: false,
            boolean: false,
            byte: false,
            short: false,
            int: false,
            long: false,
            float: false,
            double: false,
            identifier: false,
            string_literal: false,
        }
    }

    /// Whether `kind` is in the set.
    pub open spec fn contains(self, kind: TokenKind) -> bool {
        match kind {
            TokenKind::Comma => self.comma,
            TokenKind::Colon => self.colon,
            TokenKind::ArrayStart(ArrayType::Byte) => self.byte_array_start,
            TokenKind::ArrayStart(ArrayType::Int) => self.int_array_start,
            TokenKind::ArrayStart(ArrayType::Long) => self.long_array_start,
            TokenKind::OpenBracket => self.open_bracket,
            TokenKind::CloseBracket => self.close_bracket,
            TokenKind::OpenBrace => self.open_brace,
            TokenKind::CloseBrace => self.close_brace,
            TokenKind::Boolean => self.boolean,
            TokenKind::Integer(IntegerType::Byte) => self.byte,
            TokenKind::Integer(IntegerType::Short) => self.short,
            TokenKind::Integer(IntegerType::Int) => self.int,
            TokenKind::Integer(IntegerType::Long) => self.long,
            TokenKind::Decimal(DecimalType::Float) => self.float,
            TokenKind::Decimal(DecimalType::Double) => self.double,
            TokenKind::Identifier => self.identifier,
            TokenKind::StringLiteral => self.string_literal,
        }
    }

    /// The set with `kind` added.
    pub open spec fn with(self, kind: TokenKind) -> Expected {
        match kind {
            TokenKind::Comma => Expected { comma: true, ..self },
            TokenKind::Colon => Expected { colon: true, ..self },
            TokenKind::ArrayStart(ArrayType::Byte) => Expected { byte_array_start: true, ..self },
            TokenKind::ArrayStart(ArrayType::Int) => Expected { int_array_start: true, ..self },
            TokenKind::ArrayStart(ArrayType::Long) => Expected { long_array_start: true, ..self },
            TokenKind::OpenBracket => Expected { open_bracket: true, ..self },
            TokenKind::CloseBracket => Expected { close_bracket: true, ..self },
            TokenKind::OpenBrace => Expected { open_brace: true, ..self },
            TokenKind::CloseBrace => Expected { close_brace: true, ..self },
            TokenKind::Boolean => Expected { boolean: true, ..self },
            TokenKind::Integer(IntegerType::Byte) => Expected { byte: true, ..self },
            TokenKind::Integer(IntegerType::Short) => Expected { short: true, ..self },
            TokenKind::Integer(IntegerType::Int) => Expected { int: true, ..self },
            TokenKind::Integer(IntegerType::Long) => Expected { long: true, ..self },
            TokenKind::Decimal(DecimalType::Float) => Expected { float: true, ..self },
            TokenKind::Decimal(DecimalType::Double) => Expected { double: true, ..self },
            TokenKind::Identifier => Expected { identifier: true, ..self },
            TokenKind::StringLiteral => Expected { string_literal: true, ..self },
        }
    }

    /// Makes the empty set.
    pub fn new() -> (e: Expected)
        ensures
            e == Expected::none(),
    {
        Expected {
            comma: false,
            colon: false,
            byte_array_start: false,
            int_array_start: false,
            long_array_start: false,
            open_bracket: false,
            close_bracket: false,
            open_brace: false,
            close_brace: false,
            boolean: false,
            byte: false,
            short: false,
            int: false,
            long: false,
            float: false,
            double: false,
            identifier: false,
            string_literal: false,
        }
    }

    /// Tells whether `kind` is in the set.
    pub fn has(&self, kind: TokenKind) -> (b: bool)
        ensures
            b == self.contains(kind),
    {
        match kind {
            TokenKind::Comma => self.comma,
            TokenKind::Colon => self.colon,
            TokenKind::ArrayStart(ArrayType::Byte) => self.byte_array_start,
            TokenKind::ArrayStart(ArrayType::Int) => self.int_array_start,
            TokenKind::ArrayStart(ArrayType::Long) => self.long_array_start,
            TokenKind::OpenBracket => self.open_bracket,
            TokenKind::CloseBracket => self.close_bracket,
            TokenKind::OpenBrace => self.open_brace,
            TokenKind::CloseBrace => self.close_brace,
            TokenKind::Boolean => self.boolean,
            TokenKind::Integer(IntegerType::Byte) => self.byte,
            TokenKind::Integer(IntegerType::Short) => self.short,
            TokenKind::Integer(IntegerType::Int) => self.int,
            TokenKind::Integer(IntegerType::Long) => self.long,
            TokenKind::Decimal(DecimalType::Float) => self.float,
            TokenKind::Decimal(DecimalType::Double) => self.double,
            TokenKind::Identifier => self.identifier,
            TokenKind::StringLiteral => self.string_literal,
        }
    }

    /// Adds `kind` to the set.
    pub fn insert(&mut self, kind: TokenKind)
        ensures
            *final(self) == old(self).with(kind),
    {
        let e: Expected = *self;
        *self = match kind {
            TokenKind::Comma => Expected { comma: true, ..e },
            TokenKind::Colon => Expected { colon: true, ..e },
            TokenKind::ArrayStart(ArrayType::Byte) => Expected { byte_array_start: true, ..e },
            TokenKind::ArrayStart(ArrayType::Int) => Expected { int_array_start: true, ..e },
            TokenKind::ArrayStart(ArrayType::Long) => Expected { long_array_start: true, ..e },
            TokenKind::OpenBracket => Expected { open_bracket: true, ..e },
            TokenKind::CloseBracket => Expected { close_bracket: true, ..e },
            TokenKind::OpenBrace => Expected { open_brace: true, ..e },
            TokenKind::CloseBrace => Expected { close_brace: true, ..e },
            TokenKind::Boolean => Expected { boolean: true, ..e },
            TokenKind::Integer(IntegerType::Byte) => Expected { byte: true, ..e },
            TokenKind::Integer(IntegerType::Short) => Expected { short: true, ..e },
            TokenKind::Integer(IntegerType::Int) => Expected { int: true, ..e },
            TokenKind::Integer(IntegerType::Long) => Expected { long: true, ..e },
            TokenKind::Decimal(DecimalType::Float) => Expected { float: true, ..e },
            TokenKind::Decimal(DecimalType::Double) => Expected { double: true, ..e },
            TokenKind::Identifier => Expected { identifier: true, ..e },
            TokenKind::StringLiteral => Expected { string_literal: true, ..e },
        };
    }
}

/// The furthest refusal so far: where it was, which kinds of token were
/// wanted there, whether a number there had bad text or was out of range,
/// and whether a list or compound there was nested too deep.
#[derive(PartialEq, Eq, Clone, Copy, Hash, Debug, Structural)]
pub struct Failure {
    pub position: usize,
    pub expected: Expected,
    pub invalid_number: bool,
    pub too_deep: bool,
}

impl Failure {
    /// Nothing refused yet.
    pub open spec fn start() -> Failure {
        Failure { position: 0, expected: Expected::none(), invalid_number: false, too_deep: false }
    }

    /// This memory once something is refused at `pos`: unchanged if `pos`
    /// is not beyond what it holds, else empty and at `pos`.
    pub open spec fn reaching(self, pos: int) -> Failure {
        if pos > self.position {
            Failure {
                position: pos as usize,
                expected: Expected::none(),
                invalid_number: false,
                too_deep: false,
            }
        } else {
            self
        }
    }

    /// After a token of kind `kind` was wanted at `pos` and not found.
    pub open spec fn noted(self, pos: int, kind: TokenKind) -> Failure {
        if pos < self.position {
            self
        } else {
            let f = self.reaching(pos);
            Failure { expected: f.expected.with(kind), ..f }
        }
    }

    /// After the number at `pos` was found malformed or out of range.
    pub open spec fn noted_invalid(self, pos: int) -> Failure {
        if pos < self.position {
            self
        } else {
            Failure { invalid_number: true, ..self.reaching(pos) }
        }
    }

    /// After the list or compound at `pos` was found nested too deep.
    pub open spec fn noted_deep(self, pos: int) -> Failure {
        if pos < self.position {
            self
        } else {
            Failure { too_deep: true, ..self.reaching(pos) }
        }
    }

    /// Makes a memory of no refusal.
    pub fn new() -> (f: Failure)
        ensures
            f == Failure::start(),
    {
        Failure { position: 0, expected: Expected::new(), invalid_number: false, too_deep: false }
    }

    fn reach(&mut self, pos: usize)
        ensures
            *final(self) == old(self).reaching(pos as int),
    {
        if pos > self.position {
            self.position = pos;
            self.expected = Expected::new();
            self.invalid_number = false;
            self.too_deep = false;
        }
    }

    /// Records that a token of kind `kind` was wanted at `pos`.
    pub fn note(&mut self, pos: usize, kind: TokenKind)
        ensures
            *final(self) == old(self).noted(pos as int, kind),
    {
        if pos >= self.position {
            self.reach(pos);
            self.expected.insert(kind);
        }
    }

    /// Records that the number at `pos` was malformed or out of range.
    pub fn note_invalid(&mut self, pos: usize)
        ensures
            *final(self) == old(self).noted_invalid(pos as int),
    {
        if pos >= self.position {
            self.reach(pos);
            self.invalid_number = true;
        }
    }

    /// Records that the list or compound at `pos` was nested too deep.
    pub fn note_deep(&mut self, pos: usize)
        ensures
            *final(self) == old(self).noted_deep(pos as int),
    {
        if pos >= self.position {
            self.reach(pos);
            self.too_deep = true;
        }
    }
}

/// Why no tree could be built: the furthest token that was turned down,
/// or `None` where the tokens ran out, and what was held against it.
#[derive(PartialEq, Eq, Clone, Debug)]
pub struct GrammarError {
    /// The index of the offending token.
    pub position: usize,
    pub found: Option<Token>,
    /// The kinds of token that would have been accepted there.
    pub expected: Expected,
    /// The token is a number whose text is malformed or whose value does
    /// not fit its width.
    pub invalid_number: bool,
    /// The token opens a list or compound beyond the nesting limit.
    pub too_deep: bool,
}

impl GrammarError {
    /// This error reports `failure`, met while reading `tokens`.
    pub open spec fn reports(self, tokens: Seq<TokenModel>, failure: Failure) -> bool {
        &&& self.position == failure.position
        &&& self.expected == failure.expected
        &&& self.invalid_number == failure.invalid_number
        &&& self.too_deep == failure.too_deep
        &&& match self.found {
            Some(token) => failure.position < tokens.len() && token@ == tokens[
                failure.position as int
            ],
            None => failure.position >= tokens.len(),
        }
    }
}

} // verus!

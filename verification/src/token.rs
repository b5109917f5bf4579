//! The vocabulary shared by the scanner and the tree builder.

use vstd::prelude::*;

verus! {

/// The element width announced by the opening of a typed array.
#[derive(PartialEq, Eq, PartialOrd, Ord, Clone, Copy, Hash, Debug, Structural)]
pub enum ArrayType {
    Byte,
    Int,
    Long,
}

/// The width of an integer literal.
#[derive(PartialEq, Eq, PartialOrd, Ord, Clone, Copy, Hash, Debug, Structural)]
pub enum IntegerType {
    Byte,
    Int,
    Short,
    Long,
}

/// The precision of a literal with a fraction or a floating suffix.
#[derive(PartialEq, Eq, PartialOrd, Ord, Clone, Copy, Hash, Debug, Structural)]
pub enum DecimalType {
    Float,
    Double,
}

impl ArrayType {
    /// The array width that the letter after `[` stands for, in either case.
    pub open spec fn of_letter(ch: char) -> Option<ArrayType> {
        if ch == 'B' || ch == 'b' {
            Some(ArrayType::Byte)
        } else if ch == 'I' || ch == 'i' {
            Some(ArrayType::Int)
        } else if ch == 'L' || ch == 'l' {
            Some(ArrayType::Long)
        } else {
            None
        }
    }

    /// Reads an array width from its letter; any other character gives
    /// `None`.
    pub fn from(ch: char) -> (r: Option<ArrayType>)
        ensures
            r == Self::of_letter(ch),
    {
        if ch == 'B' || ch == 'b' {
            Some(ArrayType::Byte)
        } else if ch == 'I' || ch == 'i' {
            Some(ArrayType::Int)
        } else if ch == 'L' || ch == 'l' {
            Some(ArrayType::Long)
        } else {
            None
        }
    }
}

impl IntegerType {
    /// The width that an integer suffix stands for, in either case; no
    /// suffix at all means `Int`.
    pub open spec fn of_suffix(ch: Option<char>) -> Option<IntegerType> {
        match ch {
            None => Some(IntegerType::Int),
            Some(c) => if c == 'b' || c == 'B' {
                Some(IntegerType::Byte)
            } else if c == 's' || c == 'S' {
                Some(IntegerType::Short)
            } else if c == 'l' || c == 'L' {
                Some(IntegerType::Long)
            } else {
                None
            },
        }
    }

    /// The least value of this width.
    pub open spec fn min(self) -> int {
        match self {
            IntegerType::Byte => i8::MIN as int,
            IntegerType::Short => i16::MIN as int,
            IntegerType::Int => i32::MIN as int,
            IntegerType::Long => i64::MIN as int,
        }
    }

    /// The greatest value of this width.
    pub open spec fn max(self) -> int {
        match self {
            IntegerType::Byte => i8::MAX as int,
            IntegerType::Short => i16::MAX as int,
            IntegerType::Int => i32::MAX as int,
            IntegerType::Long => i64::MAX as int,
        }
    }

    /// Reads a width from an optional suffix; a character that is no integer
    /// suffix gives `None`.
    pub fn from(ch: Option<char>) -> (r: Option<IntegerType>)
        ensures
            r == Self::of_suffix(ch),
    {
        match ch {
            None => Some(IntegerType::Int),
            Some(c) => if c == 'b' || c == 'B' {
                Some(IntegerType::Byte)
            } else if c == 's' || c == 'S' {
                Some(IntegerType::Short)
            } else if c == 'l' || c == 'L' {
                Some(IntegerType::Long)
            } else {
                None
            },
        }
    }
}

impl DecimalType {
    /// The precision that a floating suffix stands for, in either case; no
    /// suffix at all means `Double`.
    pub open spec fn of_suffix(ch: Option<char>) -> Option<DecimalType> {
        match ch {
            None => Some(DecimalType::Double),
            Some(c) => if c == 'f' || c == 'F' {
                Some(DecimalType::Float)
            } else if c == 'd' || c == 'D' {
                Some(DecimalType::Double)
            } else {
                None
            },
        }
    }

    /// Reads a precision from an optional suffix; a character that is no
    /// floating suffix gives `None`.
    pub fn from(ch: Option<char>) -> (r: Option<DecimalType>)
        ensures
            r == Self::of_suffix(ch),
    {
        match ch {
            None => Some(DecimalType::Double),
            Some(c) => if c == 'f' || c == 'F' {
                Some(DecimalType::Float)
            } else if c == 'd' || c == 'D' {
                Some(DecimalType::Double)
            } else {
                None
            },
        }
    }
}

/// One lexical unit of the notation.
#[derive(PartialEq, Eq, PartialOrd, Ord, Clone, Hash, Debug)]
pub enum Token {
    Comma,
    Colon,
    ArrayStart(ArrayType),
    OpenBracket,
    CloseBracket,
    OpenBrace,
    CloseBrace,
    Boolean(bool),
    /// The sign and digits of an integer literal, and its width.
    Integer(String, IntegerType),
    /// The sign, digits and fraction of a floating literal, and its
    /// precision.
    Decimal(String, DecimalType),
    /// A bare word.
    Identifier(String),
    /// The content of a quoted string, escapes resolved.
    StringLiteral(String),
}

/// What a [`Token`] is in contracts: the same unit with its text as a
/// sequence of characters.
pub ghost enum TokenModel {
    Comma,
    Colon,
    ArrayStart(ArrayType),
    OpenBracket,
    CloseBracket,
    OpenBrace,
    CloseBrace,
    Boolean(bool),
    Integer(Seq<char>, IntegerType),
    Decimal(Seq<char>, DecimalType),
    Identifier(Seq<char>),
    StringLiteral(Seq<char>),
}

/// A token without its text: what an error names as expected.
#[derive(PartialEq, Eq, Clone, Copy, Hash, Debug, Structural)]
pub enum TokenKind {
    Comma,
    Colon,
    ArrayStart(ArrayType),
    OpenBracket,
    CloseBracket,
    OpenBrace,
    CloseBrace,
    Boolean,
    Integer(IntegerType),
    Decimal(DecimalType),
    Identifier,
    StringLiteral,
}

impl TokenModel {
    pub open spec fn kind(self) -> TokenKind {
        match self {
            TokenModel::Comma => TokenKind::Comma,
            TokenModel::Colon => TokenKind::Colon,
            TokenModel::ArrayStart(a) => TokenKind::ArrayStart(a),
            TokenModel::OpenBracket => TokenKind::OpenBracket,
            TokenModel::CloseBracket => TokenKind::CloseBracket,
            TokenModel::OpenBrace => TokenKind::OpenBrace,
            TokenModel::CloseBrace => TokenKind::CloseBrace,
            TokenModel::Boolean(_) => TokenKind::Boolean,
            TokenModel::Integer(_, w) => TokenKind::Integer(w),
            TokenModel::Decimal(_, w) => TokenKind::Decimal(w),
            TokenModel::Identifier(_) => TokenKind::Identifier,
            TokenModel::StringLiteral(_) => TokenKind::StringLiteral,
        }
    }
}

impl View for Token {
    type V = TokenModel;

    open spec fn view(&self) -> TokenModel {
        match self {
            Token::Comma => TokenModel::Comma,
            Token::Colon => TokenModel::Colon,
            Token::ArrayStart(a) => TokenModel::ArrayStart(*a),
            Token::OpenBracket => TokenModel::OpenBracket,
            Token::CloseBracket => TokenModel::CloseBracket,
            Token::OpenBrace => TokenModel::OpenBrace,
            Token::CloseBrace => TokenModel::CloseBrace,
            Token::Boolean(b) => TokenModel::Boolean(*b),
            Token::Integer(text, w) => TokenModel::Integer(text@, *w),
            Token::Decimal(text, w) => TokenModel::Decimal(text@, *w),
            Token::Identifier(text) => TokenModel::Identifier(text@),
            Token::StringLiteral(text) => TokenModel::StringLiteral(text@),
        }
    }
}

/// The models of a sequence of tokens.
pub open spec fn models(tokens: Seq<Token>) -> Seq<TokenModel> {
    Seq::new(tokens.len(), |i: int| tokens[i]@)
}

/// A sequence read so far, followed by the rest of it and the position at
/// which the rest ends.
pub open spec fn joined<T>(read: Seq<T>, rest: (Seq<T>, int)) -> (Seq<T>, int) {
    (read + rest.0, rest.1)
}

impl Token {
    /// This token without its text.
    pub fn kind(&self) -> (k: TokenKind)
        ensures
            k == self@.kind(),
    {
        match self {
            Token::Comma => TokenKind::Comma,
            Token::Colon => TokenKind::Colon,
            Token::ArrayStart(a) => TokenKind::ArrayStart(*a),
            Token::OpenBracket => TokenKind::OpenBracket,
            Token::CloseBracket => TokenKind::CloseBracket,
            Token::OpenBrace => TokenKind::OpenBrace,
            Token::CloseBrace => TokenKind::CloseBrace,
            Token::Boolean(_) => TokenKind::Boolean,
            Token::Integer(_, w) => TokenKind::Integer(*w),
            Token::Decimal(_, w) => TokenKind::Decimal(*w),
            Token::Identifier(_) => TokenKind::Identifier,
            Token::StringLiteral(_) => TokenKind::StringLiteral,
        }
    }

    /// A copy of this token that stands for the same unit.
    pub fn duplicate(&self) -> (t: Token)
        ensures
            t@ == self@,
    {
        match self {
            Token::Comma => Token::Comma,
            Token::Colon => Token::Colon,
            Token::ArrayStart(a) => Token::ArrayStart(*a),
            Token::OpenBracket => Token::OpenBracket,
            Token::CloseBracket => Token::CloseBracket,
            Token::OpenBrace => Token::OpenBrace,
            Token::CloseBrace => Token::CloseBrace,
            Token::Boolean(b) => Token::Boolean(*b),
            Token::Integer(text, w) => Token::Integer(text.clone(), *w),
            Token::Decimal(text, w) => Token::Decimal(text.clone(), *w),
            Token::Identifier(text) => Token::Identifier(text.clone()),
            Token::StringLiteral(text) => Token::StringLiteral(text.clone()),
        }
    }
}

} // verus!

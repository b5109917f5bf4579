//! The grammar: which tree a sequence of tokens stands for.
//!
//! Every production is a function from a position in the tokens to the
//! tree read there and the position after it.  Where a production has
//! alternatives they are tried in a fixed order and the first that matches
//! as a whole is taken.

use vstd::prelude::*;
use crate::number::{integer_of, is_decimal_text};
use crate::tag::{TagKind, TagModel};
use crate::token::{joined, ArrayType, DecimalType, IntegerType, TokenKind, TokenModel};

verus! {

/// How many lists and compounds may be nested in one another.  A list or
/// compound that lies deeper is refused.
pub const MAX_DEPTH: usize = 512;

/// The token at `pos` exists and is of kind `kind`.
pub open spec fn has_kind(ts: Seq<TokenModel>, pos: int, kind: TokenKind) -> bool {
    0 <= pos < ts.len() && ts[pos].kind() == kind
}

/// The kinds in the order in which a value tries them.
pub open spec fn value_order(k: int) -> TagKind {
    if k == 0 {
        TagKind::Compound
    } else if k == 1 {
        TagKind::List
    } else if k == 2 {
        TagKind::Byte
    } else if k == 3 {
        TagKind::Short
    } else if k == 4 {
        TagKind::Int
    } else if k == 5 {
        TagKind::Long
    } else if k == 6 {
        TagKind::Float
    } else if k == 7 {
        TagKind::Double
    } else if k == 8 {
        TagKind::ByteArray
    } else if k == 9 {
        TagKind::IntArray
    } else if k == 10 {
        TagKind::LongArray
    } else {
        TagKind::String
    }
}

/// The kinds in the order in which a list tries them for its items.
pub open spec fn list_order(k: int) -> TagKind {
    if k == 0 {
        TagKind::Byte
    } else if k == 1 {
        TagKind::Short
    } else if k == 2 {
        TagKind::Int
    } else if k == 3 {
        TagKind::Long
    } else if k == 4 {
        TagKind::Float
    } else if k == 5 {
        TagKind::Double
    } else if k == 6 {
        TagKind::ByteArray
    } else if k == 7 {
        TagKind::String
    } else if k == 8 {
        TagKind::List
    } else if k == 9 {
        TagKind::Compound
    } else if k == 10 {
        TagKind::IntArray
    } else {
        TagKind::LongArray
    }
}

/// The integer that a token gives where one of width `width` is wanted:
/// the value of an integer token of that width if it fits, and 1 or 0 for
/// `true` or `false` where a byte is wanted.
pub open spec fn number_leaf(width: IntegerType, token: TokenModel) -> Option<int> {
    match token {
        TokenModel::Integer(text, w) => if w == width {
            integer_of(text, width)
        } else {
            None
        },
        TokenModel::Boolean(b) => if width == IntegerType::Byte {
            Some(
                if b {
                    1
                } else {
                    0
                },
            )
        } else {
            None
        },
        _ => None,
    }
}

/// The text of a token that can stand for a string: a bare word and a
/// quoted string alike.
pub open spec fn name_of(token: TokenModel) -> Option<Seq<char>> {
    match token {
        TokenModel::Identifier(text) => Some(text),
        TokenModel::StringLiteral(text) => Some(text),
        _ => None,
    }
}

/// The floating literal of precision `width` that a token holds.
pub open spec fn decimal_leaf(width: DecimalType, token: TokenModel) -> Option<Seq<char>> {
    match token {
        TokenModel::Decimal(text, w) => if w == width && is_decimal_text(text) {
            Some(text)
        } else {
            None
        },
        _ => None,
    }
}

/// The tag of a kind that is written as one token.
pub open spec fn leaf(kind: TagKind, token: TokenModel) -> Option<TagModel> {
    match kind {
        TagKind::Byte => match number_leaf(IntegerType::Byte, token) {
            Some(v) => Some(TagModel::Byte(v as i8)),
            None => None,
        },
        TagKind::Short => match number_leaf(IntegerType::Short, token) {
            Some(v) => Some(TagModel::Short(v as i16)),
            None => None,
        },
        TagKind::Int => match number_leaf(IntegerType::Int, token) {
            Some(v) => Some(TagModel::Int(v as i32)),
            None => None,
        },
        TagKind::Long => match number_leaf(IntegerType::Long, token) {
            Some(v) => Some(TagModel::Long(v as i64)),
            None => None,
        },
        TagKind::Float => match decimal_leaf(DecimalType::Float, token) {
            Some(text) => Some(TagModel::Float(text)),
            None => None,
        },
        TagKind::Double => match decimal_leaf(DecimalType::Double, token) {
            Some(text) => Some(TagModel::Double(text)),
            None => None,
        },
        TagKind::String => match name_of(token) {
            Some(text) => Some(TagModel::String(text)),
            None => None,
        },
        _ => None,
    }
}

/// The width of an array kind.
pub open spec fn array_width(kind: TagKind) -> ArrayType {
    match kind {
        TagKind::ByteArray => ArrayType::Byte,
        TagKind::IntArray => ArrayType::Int,
        _ => ArrayType::Long,
    }
}

/// The kind of the items of an array kind.
pub open spec fn array_item(kind: TagKind) -> TagKind {
    match kind {
        TagKind::ByteArray => TagKind::Byte,
        TagKind::IntArray => TagKind::Int,
        _ => TagKind::Long,
    }
}

pub open spec fn bytes_of(items: Seq<TagModel>) -> Seq<i8> {
    Seq::new(items.len(), |i: int| items[i]->Byte_0)
}

pub open spec fn ints_of(items: Seq<TagModel>) -> Seq<i32> {
    Seq::new(items.len(), |i: int| items[i]->Int_0)
}

pub open spec fn longs_of(items: Seq<TagModel>) -> Seq<i64> {
    Seq::new(items.len(), |i: int| items[i]->Long_0)
}

/// The array of kind `kind` whose items are the numbers in `items`.
pub open spec fn array_of(kind: TagKind, items: Seq<TagModel>) -> TagModel {
    match kind {
        TagKind::ByteArray => TagModel::ByteArray(bytes_of(items)),
        TagKind::IntArray => TagModel::IntArray(ints_of(items)),
        _ => TagModel::LongArray(longs_of(items)),
    }
}

/// Where the closing token is looked for after items that end at `end`:
/// past one comma, where one follows a sequence that is not empty.
pub open spec fn past_comma(ts: Seq<TokenModel>, count: nat, end: int) -> int {
    if count > 0 && has_kind(ts, end, TokenKind::Comma) {
        end + 1
    } else {
        end
    }
}

/// A tag of kind `kind` at `pos`, with `depth` levels of lists and
/// compounds still allowed below it.
pub open spec fn element_at(kind: TagKind, ts: Seq<TokenModel>, pos: int, depth: nat) -> Option<
    (TagModel, int),
>
    decreases depth, ts.len() - pos, 5int,
{
    if !(0 <= pos < ts.len()) {
        None
    } else {
        match kind {
            TagKind::List => list_at(ts, pos, depth),
            TagKind::Compound => compound_at(ts, pos, depth),
            TagKind::ByteArray => array_at(kind, ts, pos, depth),
            TagKind::IntArray => array_at(kind, ts, pos, depth),
            TagKind::LongArray => array_at(kind, ts, pos, depth),
            _ => match leaf(kind, ts[pos]) {
                Some(tag) => Some((tag, pos + 1)),
                None => None,
            },
        }
    }
}

/// Items of kind `kind` with commas between them, as many as there are,
/// from `pos` on; and the position after the last item.
pub open spec fn items_at(kind: TagKind, ts: Seq<TokenModel>, pos: int, depth: nat) -> (
    Seq<TagModel>,
    int,
)
    decreases depth, ts.len() - pos, 7int,
{
    match element_at(kind, ts, pos, depth) {
        Some((tag, end)) => if pos < end <= ts.len() {
            joined(seq![tag], more_items(kind, ts, end, depth))
        } else {
            (Seq::empty(), pos)
        },
        None => (Seq::empty(), pos),
    }
}

/// The items that follow an item that ends at `pos`, each after a comma.
/// A comma that no item follows is not taken.
pub open spec fn more_items(kind: TagKind, ts: Seq<TokenModel>, pos: int, depth: nat) -> (
    Seq<TagModel>,
    int,
)
    decreases depth, ts.len() - pos, 8int,
{
    if has_kind(ts, pos, TokenKind::Comma) {
        match element_at(kind, ts, pos + 1, depth) {
            Some((tag, end)) => if pos + 1 < end <= ts.len() {
                joined(seq![tag], more_items(kind, ts, end, depth))
            } else {
                (Seq::empty(), pos)
            },
            None => (Seq::empty(), pos),
        }
    } else {
        (Seq::empty(), pos)
    }
}

/// A typed array: its opening, numbers of its width with commas between
/// them, and `]`.  No comma may follow the last number.
pub open spec fn array_at(kind: TagKind, ts: Seq<TokenModel>, pos: int, depth: nat) -> Option<
    (TagModel, int),
>
    decreases depth, ts.len() - pos, 4int,
{
    if has_kind(ts, pos, TokenKind::ArrayStart(array_width(kind))) {
        let (items, end) = items_at(array_item(kind), ts, pos + 1, depth);
        if has_kind(ts, end, TokenKind::CloseBracket) {
            Some((array_of(kind, items), end + 1))
        } else {
            None
        }
    } else {
        None
    }
}

/// A list whose items are all of kind `kind`: `[`, the items with commas
/// between them and perhaps one after the last, and `]`.
pub open spec fn list_of(kind: TagKind, ts: Seq<TokenModel>, pos: int, depth: nat) -> Option<
    (TagModel, int),
>
    decreases depth, ts.len() - pos, 10int,
{
    if has_kind(ts, pos, TokenKind::OpenBracket) {
        let (items, end) = items_at(kind, ts, pos + 1, depth);
        let close = past_comma(ts, items.len(), end);
        if has_kind(ts, close, TokenKind::CloseBracket) {
            Some((TagModel::List(kind, items), close + 1))
        } else {
            None
        }
    } else {
        None
    }
}

/// The list of the first kind, from the `k`th in list order on, under
/// which the whole bracketed group can be read.
pub open spec fn first_list(ts: Seq<TokenModel>, pos: int, depth: nat, k: int) -> Option<
    (TagModel, int),
>
    decreases depth, ts.len() - pos, 30 - k,
{
    if 0 <= k < 12 {
        match list_of(list_order(k), ts, pos, depth) {
            Some(found) => Some(found),
            None => first_list(ts, pos, depth, k + 1),
        }
    } else {
        None
    }
}

/// A list at `pos`, if nesting allows one there.
pub open spec fn list_at(ts: Seq<TokenModel>, pos: int, depth: nat) -> Option<(TagModel, int)>
    decreases depth, ts.len() - pos, 4int,
{
    if depth > 0 && has_kind(ts, pos, TokenKind::OpenBracket) {
        first_list(ts, pos, (depth - 1) as nat, 0)
    } else {
        None
    }
}

/// A member of a compound: a name, `:`, and a value.
pub open spec fn member_at(ts: Seq<TokenModel>, pos: int, depth: nat) -> Option<
    ((Seq<char>, TagModel), int),
>
    decreases depth, ts.len() - pos, 22int,
{
    if 0 <= pos < ts.len() && name_of(ts[pos]) is Some && has_kind(ts, pos + 1, TokenKind::Colon) {
        match value_at(ts, pos + 2, depth) {
            Some((tag, end)) => Some(((name_of(ts[pos])->0, tag), end)),
            None => None,
        }
    } else {
        None
    }
}

/// Members with commas between them, as many as there are, from `pos` on;
/// and the position after the last member.
pub open spec fn members_at(ts: Seq<TokenModel>, pos: int, depth: nat) -> (
    Seq<(Seq<char>, TagModel)>,
    int,
)
    decreases depth, ts.len() - pos, 25int,
{
    match member_at(ts, pos, depth) {
        Some((member, end)) => if pos < end <= ts.len() {
            joined(seq![member], more_members(ts, end, depth))
        } else {
            (Seq::empty(), pos)
        },
        None => (Seq::empty(), pos),
    }
}

/// The members that follow a member that ends at `pos`, each after a
/// comma.
pub open spec fn more_members(ts: Seq<TokenModel>, pos: int, depth: nat) -> (
    Seq<(Seq<char>, TagModel)>,
    int,
)
    decreases depth, ts.len() - pos, 26int,
{
    if has_kind(ts, pos, TokenKind::Comma) {
        match member_at(ts, pos + 1, depth) {
            Some((member, end)) => if pos + 1 < end <= ts.len() {
                joined(seq![member], more_members(ts, end, depth))
            } else {
                (Seq::empty(), pos)
            },
            None => (Seq::empty(), pos),
        }
    } else {
        (Seq::empty(), pos)
    }
}

/// A compound at `pos`, if nesting allows one there: `{`, the members
/// with commas between them and perhaps one after the last, and `}`.  The
/// members are kept as written, in order, names that repeat included.
pub open spec fn compound_at(ts: Seq<TokenModel>, pos: int, depth: nat) -> Option<(TagModel, int)>
    decreases depth, ts.len() - pos, 4int,
{
    if depth > 0 && has_kind(ts, pos, TokenKind::OpenBrace) {
        let (members, end) = members_at(ts, pos + 1, (depth - 1) as nat);
        let close = past_comma(ts, members.len(), end);
        if has_kind(ts, close, TokenKind::CloseBrace) {
            Some((TagModel::Compound(members), close + 1))
        } else {
            None
        }
    } else {
        None
    }
}

/// The value of the first kind, from the `k`th in value order on, that
/// can be read at `pos`.
pub open spec fn first_value(ts: Seq<TokenModel>, pos: int, depth: nat, k: int) -> Option<
    (TagModel, int),
>
    decreases depth, ts.len() - pos, 18 - k,
{
    if 0 <= k < 12 {
        match element_at(value_order(k), ts, pos, depth) {
            Some(found) => Some(found),
            None => first_value(ts, pos, depth, k + 1),
        }
    } else {
        None
    }
}

/// The value at `pos` and the position after it.
pub open spec fn value_at(ts: Seq<TokenModel>, pos: int, depth: nat) -> Option<(TagModel, int)>
    decreases depth, ts.len() - pos, 20int,
{
    first_value(ts, pos, depth, 0)
}

/// The tree that `ts` stands for: the value that its first tokens make.
/// Tokens after that value are not looked at.
pub open spec fn tree_of(ts: Seq<TokenModel>) -> Option<TagModel> {
    match value_at(ts, 0, MAX_DEPTH as nat) {
        Some((tag, _)) => Some(tag),
        None => None,
    }
}

} // verus!

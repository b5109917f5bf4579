//! What reading leaves in the memory of refusals.
//!
//! For each production of the grammar, the function here of the same name
//! with `_far` added gives the memory after the production has run at a
//! position, from the memory before.  Every token that an attempt turned
//! down is recorded, whether or not another attempt went on to succeed;
//! the memory keeps what was recorded furthest along.

use vstd::prelude::*;
use crate::grammar::{
    array_item, array_width, element_at, has_kind, items_at, leaf, list_of, list_order, member_at,
    members_at, name_of, past_comma, value_order, MAX_DEPTH,
};
use crate::report::Failure;
use crate::tag::TagKind;
use crate::token::{DecimalType, IntegerType, TokenKind, TokenModel};

verus! {

/// What a one-token kind records when the token at `pos` is not one of
/// its own: for a number of the wanted kind, that it is invalid; else the
/// kinds of token that it takes.
pub open spec fn leaf_far(kind: TagKind, ts: Seq<TokenModel>, pos: int, far: Failure) -> Failure {
    match kind {
        TagKind::Byte => if has_kind(ts, pos, TokenKind::Integer(IntegerType::Byte)) {
            far.noted_invalid(pos)
        } else {
            far.noted(pos, TokenKind::Integer(IntegerType::Byte)).noted(pos, TokenKind::Boolean)
        },
        TagKind::Short => if has_kind(ts, pos, TokenKind::Integer(IntegerType::Short)) {
            far.noted_invalid(pos)
        } else {
            far.noted(pos, TokenKind::Integer(IntegerType::Short))
        },
        TagKind::Int => if has_kind(ts, pos, TokenKind::Integer(IntegerType::Int)) {
            far.noted_invalid(pos)
        } else {
            far.noted(pos, TokenKind::Integer(IntegerType::Int))
        },
        TagKind::Long => if has_kind(ts, pos, TokenKind::Integer(IntegerType::Long)) {
            far.noted_invalid(pos)
        } else {
            far.noted(pos, TokenKind::Integer(IntegerType::Long))
        },
        TagKind::Float => if has_kind(ts, pos, TokenKind::Decimal(DecimalType::Float)) {
            far.noted_invalid(pos)
        } else {
            far.noted(pos, TokenKind::Decimal(DecimalType::Float))
        },
        TagKind::Double => if has_kind(ts, pos, TokenKind::Decimal(DecimalType::Double)) {
            far.noted_invalid(pos)
        } else {
            far.noted(pos, TokenKind::Decimal(DecimalType::Double))
        },
        TagKind::String => far.noted(pos, TokenKind::Identifier).noted(
            pos,
            TokenKind::StringLiteral,
        ),
        _ => far,
    }
}

pub open spec fn element_far(
    kind: TagKind,
    ts: Seq<TokenModel>,
    pos: int,
    depth: nat,
    far: Failure,
) -> Failure
    decreases depth, ts.len() - pos, 5int,
{
    if pos < 0 {
        far
    } else {
        match kind {
            TagKind::List => list_far(ts, pos, depth, far),
            TagKind::Compound => compound_far(ts, pos, depth, far),
            TagKind::ByteArray => array_far(kind, ts, pos, depth, far),
            TagKind::IntArray => array_far(kind, ts, pos, depth, far),
            TagKind::LongArray => array_far(kind, ts, pos, depth, far),
            _ => if pos < ts.len() && leaf(kind, ts[pos]) is Some {
                far
            } else {
                leaf_far(kind, ts, pos, far)
            },
        }
    }
}

pub open spec fn items_far(
    kind: TagKind,
    ts: Seq<TokenModel>,
    pos: int,
    depth: nat,
    far: Failure,
) -> Failure
    decreases depth, ts.len() - pos, 7int,
{
    if pos < 0 || pos > ts.len() {
        far
    } else {
        let far1 = element_far(kind, ts, pos, depth, far);
        match element_at(kind, ts, pos, depth) {
            Some((_, end)) => if pos < end <= ts.len() {
                more_items_far(kind, ts, end, depth, far1)
            } else {
                far1
            },
            None => far1,
        }
    }
}

pub open spec fn more_items_far(
    kind: TagKind,
    ts: Seq<TokenModel>,
    pos: int,
    depth: nat,
    far: Failure,
) -> Failure
    decreases depth, ts.len() - pos, 8int,
{
    if has_kind(ts, pos, TokenKind::Comma) {
        let far1 = element_far(kind, ts, pos + 1, depth, far);
        match element_at(kind, ts, pos + 1, depth) {
            Some((_, end)) => if pos + 1 < end <= ts.len() {
                more_items_far(kind, ts, end, depth, far1)
            } else {
                far1
            },
            None => far1,
        }
    } else {
        far.noted(pos, TokenKind::Comma)
    }
}

pub open spec fn array_far(
    kind: TagKind,
    ts: Seq<TokenModel>,
    pos: int,
    depth: nat,
    far: Failure,
) -> Failure
    decreases depth, ts.len() - pos, 4int,
{
    if has_kind(ts, pos, TokenKind::ArrayStart(array_width(kind))) {
        let far1 = items_far(array_item(kind), ts, pos + 1, depth, far);
        let (_, end) = items_at(array_item(kind), ts, pos + 1, depth);
        if has_kind(ts, end, TokenKind::CloseBracket) {
            far1
        } else {
            far1.noted(end, TokenKind::CloseBracket)
        }
    } else {
        far.noted(pos, TokenKind::ArrayStart(array_width(kind)))
    }
}

pub open spec fn list_of_far(
    kind: TagKind,
    ts: Seq<TokenModel>,
    pos: int,
    depth: nat,
    far: Failure,
) -> Failure
    decreases depth, ts.len() - pos, 10int,
{
    if has_kind(ts, pos, TokenKind::OpenBracket) {
        let far1 = items_far(kind, ts, pos + 1, depth, far);
        let (items, end) = items_at(kind, ts, pos + 1, depth);
        let close = past_comma(ts, items.len(), end);
        if has_kind(ts, close, TokenKind::CloseBracket) {
            far1
        } else {
            far1.noted(close, TokenKind::CloseBracket)
        }
    } else {
        far.noted(pos, TokenKind::OpenBracket)
    }
}

pub open spec fn first_list_far(
    ts: Seq<TokenModel>,
    pos: int,
    depth: nat,
    k: int,
    far: Failure,
) -> Failure
    decreases depth, ts.len() - pos, 30 - k,
{
    if 0 <= k < 12 {
        let far1 = list_of_far(list_order(k), ts, pos, depth, far);
        if list_of(list_order(k), ts, pos, depth) is Some {
            far1
        } else {
            first_list_far(ts, pos, depth, k + 1, far1)
        }
    } else {
        far
    }
}

pub open spec fn list_far(ts: Seq<TokenModel>, pos: int, depth: nat, far: Failure) -> Failure
    decreases depth, ts.len() - pos, 4int,
{
    if !has_kind(ts, pos, TokenKind::OpenBracket) {
        far.noted(pos, TokenKind::OpenBracket)
    } else if depth == 0 {
        far.noted_deep(pos)
    } else {
        first_list_far(ts, pos, (depth - 1) as nat, 0, far)
    }
}

pub open spec fn member_far(ts: Seq<TokenModel>, pos: int, depth: nat, far: Failure) -> Failure
    decreases depth, ts.len() - pos, 22int,
{
    if !(0 <= pos < ts.len() && name_of(ts[pos]) is Some) {
        far.noted(pos, TokenKind::Identifier).noted(pos, TokenKind::StringLiteral)
    } else if !has_kind(ts, pos + 1, TokenKind::Colon) {
        far.noted(pos + 1, TokenKind::Colon)
    } else {
        value_far(ts, pos + 2, depth, far)
    }
}

pub open spec fn members_far(ts: Seq<TokenModel>, pos: int, depth: nat, far: Failure) -> Failure
    decreases depth, ts.len() - pos, 25int,
{
    if pos < 0 || pos > ts.len() {
        far
    } else {
        let far1 = member_far(ts, pos, depth, far);
        match member_at(ts, pos, depth) {
            Some((_, end)) => if pos < end <= ts.len() {
                more_members_far(ts, end, depth, far1)
            } else {
                far1
            },
            None => far1,
        }
    }
}

pub open spec fn more_members_far(
    ts: Seq<TokenModel>,
    pos: int,
    depth: nat,
    far: Failure,
) -> Failure
    decreases depth, ts.len() - pos, 26int,
{
    if has_kind(ts, pos, TokenKind::Comma) {
        let far1 = member_far(ts, pos + 1, depth, far);
        match member_at(ts, pos + 1, depth) {
            Some((_, end)) => if pos + 1 < end <= ts.len() {
                more_members_far(ts, end, depth, far1)
            } else {
                far1
            },
            None => far1,
        }
    } else {
        far.noted(pos, TokenKind::Comma)
    }
}

pub open spec fn compound_far(ts: Seq<TokenModel>, pos: int, depth: nat, far: Failure) -> Failure
    decreases depth, ts.len() - pos, 4int,
{
    if !has_kind(ts, pos, TokenKind::OpenBrace) {
        far.noted(pos, TokenKind::OpenBrace)
    } else if depth == 0 {
        far.noted_deep(pos)
    } else {
        let far1 = members_far(ts, pos + 1, (depth - 1) as nat, far);
        let (members, end) = members_at(ts, pos + 1, (depth - 1) as nat);
        let close = past_comma(ts, members.len(), end);
        if has_kind(ts, close, TokenKind::CloseBrace) {
            far1
        } else {
            far1.noted(close, TokenKind::CloseBrace)
        }
    }
}

pub open spec fn first_value_far(
    ts: Seq<TokenModel>,
    pos: int,
    depth: nat,
    k: int,
    far: Failure,
) -> Failure
    decreases depth, ts.len() - pos, 18 - k,
{
    if 0 <= k < 12 && 0 <= pos <= ts.len() {
        let far1 = element_far(value_order(k), ts, pos, depth, far);
        if element_at(value_order(k), ts, pos, depth) is Some {
            far1
        } else {
            first_value_far(ts, pos, depth, k + 1, far1)
        }
    } else {
        far
    }
}

pub open spec fn value_far(ts: Seq<TokenModel>, pos: int, depth: nat, far: Failure) -> Failure
    decreases depth, ts.len() - pos, 20int,
{
    first_value_far(ts, pos, depth, 0, far)
}

/// What is reported when `ts` stands for no tree.
pub open spec fn refusal_of(ts: Seq<TokenModel>) -> Failure {
    value_far(ts, 0, MAX_DEPTH as nat, Failure::start())
}

} // verus!

//! The tree builder: from tokens to a tree.
//!
//! One function per production of the grammar.  Each returns what the
//! production of that name states, and leaves in the memory of refusals
//! what the production's `_far` function states.

use vstd::prelude::*;
use crate::grammar::{
    array_at, bytes_of, compound_at, decimal_leaf, element_at, first_list, first_value, has_kind,
    ints_of, items_at, leaf, list_at, list_of, list_order, longs_of, member_at, members_at,
    more_items, more_members, name_of, number_leaf, tree_of, value_at, value_order, MAX_DEPTH,
};
use crate::number::{check_decimal, convert_integer};
use crate::refusals::{
    array_far, compound_far, element_far, first_list_far, first_value_far, items_far, leaf_far,
    list_far, list_of_far, member_far, members_far, more_items_far, more_members_far, refusal_of,
    value_far,
};
use crate::report::{Failure, GrammarError};
use crate::tag::{member_models, tag_models, Tag, TagKind, TagModel};
use crate::token::{joined, models, ArrayType, DecimalType, IntegerType, Token, TokenKind};

verus! {

/// What a reading step returned, in the terms of the contracts.
pub open spec fn read(r: Option<(Tag, usize)>) -> Option<(TagModel, int)> {
    match r {
        Some((tag, end)) => Some((tag@, end as int)),
        None => None,
    }
}

/// What the reading of a member returned, in the terms of the contracts.
pub open spec fn read_member(r: Option<((String, Tag), usize)>) -> Option<
    ((Seq<char>, TagModel), int),
> {
    match r {
        Some((member, end)) => Some(((member.0@, member.1@), end as int)),
        None => None,
    }
}

fn token_is(ts: &Vec<Token>, pos: usize, kind: TokenKind) -> (b: bool)
    ensures
        b == has_kind(models(ts@), pos as int, kind),
{
    pos < ts.len() && ts[pos].kind() == kind
}

fn value_kind(k: usize) -> (kind: TagKind)
    ensures
        kind == value_order(k as int),
{
    if k == 0 {
        TagKind::Compound
    } else if k == 1 {
        TagKind::List
    } else if k == 2 {
        TagKind::Byte
    } else if k == 3 {
        TagKind::Short
    } else if k == 4 {
        TagKind::Int
    } else if k == 5 {
        TagKind::Long
    } else if k == 6 {
        TagKind::Float
    } else if k == 7 {
        TagKind::Double
    } else if k == 8 {
        TagKind::ByteArray
    } else if k == 9 {
        TagKind::IntArray
    } else if k == 10 {
        TagKind::LongArray
    } else {
        TagKind::String
    }
}

fn list_kind(k: usize) -> (kind: TagKind)
    ensures
        kind == list_order(k as int),
{
    if k == 0 {
        TagKind::Byte
    } else if k == 1 {
        TagKind::Short
    } else if k == 2 {
        TagKind::Int
    } else if k == 3 {
        TagKind::Long
    } else if k == 4 {
        TagKind::Float
    } else if k == 5 {
        TagKind::Double
    } else if k == 6 {
        TagKind::ByteArray
    } else if k == 7 {
        TagKind::String
    } else if k == 8 {
        TagKind::List
    } else if k == 9 {
        TagKind::Compound
    } else if k == 10 {
        TagKind::IntArray
    } else {
        TagKind::LongArray
    }
}

/// Reads a token as an integer of the given width.
pub fn read_number(width: IntegerType, token: &Token) -> (r: Option<i64>)
    ensures
        match number_leaf(width, token@) {
            Some(v) => r == Some(v as i64) && width.min() <= v <= width.max(),
            None => r is None,
        },
{
    match token {
        Token::Integer(text, w) => if *w == width {
            convert_integer(text.as_str(), width)
        } else {
            None
        },
        Token::Boolean(b) => if width == IntegerType::Byte {
            Some(
                if *b {
                    1
                } else {
                    0
                },
            )
        } else {
            None
        },
        _ => None,
    }
}

/// Reads a token as a floating literal of the given precision.
fn read_decimal(width: DecimalType, token: &Token) -> (r: Option<String>)
    ensures
        match decimal_leaf(width, token@) {
            Some(text) => r matches Some(found) && found@ == text,
            None => r is None,
        },
{
    match token {
        Token::Decimal(text, w) => if *w == width && check_decimal(text.as_str()) {
            Some(text.clone())
        } else {
            None
        },
        _ => None,
    }
}

/// Reads a token as a string.
fn read_name(token: &Token) -> (r: Option<String>)
    ensures
        match name_of(token@) {
            Some(text) => r matches Some(found) && found@ == text,
            None => r is None,
        },
{
    match token {
        Token::Identifier(text) => Some(text.clone()),
        Token::StringLiteral(text) => Some(text.clone()),
        _ => None,
    }
}

/// Reads one token as a tag of kind `kind`.
pub fn read_leaf(kind: TagKind, token: &Token) -> (r: Option<Tag>)
    ensures
        match leaf(kind, token@) {
            Some(model) => r matches Some(tag) && tag@ == model && model.wf() && model.kind()
                == kind,
            None => r is None,
        },
{
    match kind {
        TagKind::Byte => match read_number(IntegerType::Byte, token) {
            Some(v) => Some(Tag::Byte(v as i8)),
            None => None,
        },
        TagKind::Short => match read_number(IntegerType::Short, token) {
            Some(v) => Some(Tag::Short(v as i16)),
            None => None,
        },
        TagKind::Int => match read_number(IntegerType::Int, token) {
            Some(v) => Some(Tag::Int(v as i32)),
            None => None,
        },
        TagKind::Long => match read_number(IntegerType::Long, token) {
            Some(v) => Some(Tag::Long(v)),
            None => None,
        },
        TagKind::Float => match read_decimal(DecimalType::Float, token) {
            Some(text) => Some(Tag::Float(text)),
            None => None,
        },
        TagKind::Double => match read_decimal(DecimalType::Double, token) {
            Some(text) => Some(Tag::Double(text)),
            None => None,
        },
        TagKind::String => match read_name(token) {
            Some(text) => Some(Tag::String(text)),
            None => None,
        },
        _ => None,
    }
}

/// Records that the token at `pos` is no tag of the one-token kind `kind`.
fn note_leaf(kind: TagKind, ts: &Vec<Token>, pos: usize, far: &mut Failure)
    ensures
        *final(far) == leaf_far(kind, models(ts@), pos as int, *old(far)),
{
    match kind {
        TagKind::Byte => if token_is(ts, pos, TokenKind::Integer(IntegerType::Byte)) {
            far.note_invalid(pos);
        } else {
            far.note(pos, TokenKind::Integer(IntegerType::Byte));
            far.note(pos, TokenKind::Boolean);
        },
        TagKind::Short => if token_is(ts, pos, TokenKind::Integer(IntegerType::Short)) {
            far.note_invalid(pos);
        } else {
            far.note(pos, TokenKind::Integer(IntegerType::Short));
        },
        TagKind::Int => if token_is(ts, pos, TokenKind::Integer(IntegerType::Int)) {
            far.note_invalid(pos);
        } else {
            far.note(pos, TokenKind::Integer(IntegerType::Int));
        },
        TagKind::Long => if token_is(ts, pos, TokenKind::Integer(IntegerType::Long)) {
            far.note_invalid(pos);
        } else {
            far.note(pos, TokenKind::Integer(IntegerType::Long));
        },
        TagKind::Float => if token_is(ts, pos, TokenKind::Decimal(DecimalType::Float)) {
            far.note_invalid(pos);
        } else {
            far.note(pos, TokenKind::Decimal(DecimalType::Float));
        },
        TagKind::Double => if token_is(ts, pos, TokenKind::Decimal(DecimalType::Double)) {
            far.note_invalid(pos);
        } else {
            far.note(pos, TokenKind::Decimal(DecimalType::Double));
        },
        TagKind::String => {
            far.note(pos, TokenKind::Identifier);
            far.note(pos, TokenKind::StringLiteral);
        },
        _ => {},
    }
}

fn bytes_from(items: &Vec<Tag>) -> (v: Vec<i8>)
    requires
        forall|i: int| 0 <= i < items.len() ==> (#[trigger] items[i])@ is Byte,
    ensures
        v@ == bytes_of(tag_models(items@)),
{
    let mut v: Vec<i8> = Vec::new();
    let mut i: usize = 0;
    while i < items.len()
        invariant
            i <= items.len(),
            forall|j: int| 0 <= j < items.len() ==> (#[trigger] items[j])@ is Byte,
            v@ == bytes_of(tag_models(items@)).take(i as int),
        decreases items.len() - i,
    {
        if let Tag::Byte(b) = &items[i] {
            v.push(*b);
        }
        i += 1;
        assert(v@ == bytes_of(tag_models(items@)).take(i as int));
    }
    assert(v@ == bytes_of(tag_models(items@)));
    v
}

fn ints_from(items: &Vec<Tag>) -> (v: Vec<i32>)
    requires
        forall|i: int| 0 <= i < items.len() ==> (#[trigger] items[i])@ is Int,
    ensures
        v@ == ints_of(tag_models(items@)),
{
    let mut v: Vec<i32> = Vec::new();
    let mut i: usize = 0;
    while i < items.len()
        invariant
            i <= items.len(),
            forall|j: int| 0 <= j < items.len() ==> (#[trigger] items[j])@ is Int,
            v@ == ints_of(tag_models(items@)).take(i as int),
        decreases items.len() - i,
    {
        if let Tag::Int(b) = &items[i] {
            v.push(*b);
        }
        i += 1;
        assert(v@ == ints_of(tag_models(items@)).take(i as int));
    }
    assert(v@ == ints_of(tag_models(items@)));
    v
}

fn longs_from(items: &Vec<Tag>) -> (v: Vec<i64>)
    requires
        forall|i: int| 0 <= i < items.len() ==> (#[trigger] items[i])@ is Long,
    ensures
        v@ == longs_of(tag_models(items@)),
{
    let mut v: Vec<i64> = Vec::new();
    let mut i: usize = 0;
    while i < items.len()
        invariant
            i <= items.len(),
            forall|j: int| 0 <= j < items.len() ==> (#[trigger] items[j])@ is Long,
            v@ == longs_of(tag_models(items@)).take(i as int),
        decreases items.len() - i,
    {
        if let Tag::Long(b) = &items[i] {
            v.push(*b);
        }
        i += 1;
        assert(v@ == longs_of(tag_models(items@)).take(i as int));
    }
    assert(v@ == longs_of(tag_models(items@)));
    v
}

fn parse_element(ts: &Vec<Token>, kind: TagKind, pos: usize, depth: usize, far: &mut Failure) -> (r:
    Option<(Tag, usize)>)
    requires
        pos <= ts.len(),
    ensures
        read(r) == element_at(kind, models(ts@), pos as int, depth as nat),
        *final(far) == element_far(kind, models(ts@), pos as int, depth as nat, *old(far)),
        r matches Some((tag, end)) ==> pos < end <= ts.len() && tag@.wf() && tag@.readable(
            depth as nat,
        ) && tag@.kind() == kind,
    decreases depth, ts.len() - pos, 5int,
{
    match kind {
        TagKind::List => parse_list(ts, pos, depth, far),
        TagKind::Compound => parse_compound(ts, pos, depth, far),
        TagKind::ByteArray => parse_array(ts, kind, pos, depth, far),
        TagKind::IntArray => parse_array(ts, kind, pos, depth, far),
        TagKind::LongArray => parse_array(ts, kind, pos, depth, far),
        _ => {
            if pos < ts.len() {
                match read_leaf(kind, &ts[pos]) {
                    Some(tag) => {
                        return Some((tag, pos + 1));
                    },
                    None => {},
                }
            }
            note_leaf(kind, ts, pos, far);
            None
        },
    }
}

fn parse_items(ts: &Vec<Token>, kind: TagKind, pos: usize, depth: usize, far: &mut Failure) -> (r: (
    Vec<Tag>,
    usize,
))
    requires
        pos <= ts.len(),
    ensures
        (tag_models(r.0@), r.1 as int) == items_at(kind, models(ts@), pos as int, depth as nat),
        *final(far) == items_far(kind, models(ts@), pos as int, depth as nat, *old(far)),
        pos <= r.1 <= ts.len(),
        forall|i: int|
            0 <= i < r.0.len() ==> (#[trigger] r.0[i])@.wf() && r.0[i]@.readable(depth as nat)
                && r.0[i]@.kind() == kind,
    decreases depth, ts.len() - pos, 7int,
{
    let ghost m = models(ts@);
    let ghost far0 = *far;
    let mut items: Vec<Tag> = Vec::new();
    let mut cur: usize = pos;
    match parse_element(ts, kind, pos, depth, far) {
        Some((tag, end)) => {
            items.push(tag);
            cur = end;
        },
        None => {
            assert(tag_models(items@) == Seq::<TagModel>::empty());
            return (items, pos);
        },
    }
    proof {
        let rest = more_items(kind, m, cur as int, depth as nat);
        assert(tag_models(items@) + rest.0 == seq![items[0]@] + rest.0);
    }
    loop
        invariant
            m == models(ts@),
            far0 == *old(far),
            pos < cur <= ts.len(),
            items_at(kind, m, pos as int, depth as nat) == joined(
                tag_models(items@),
                more_items(kind, m, cur as int, depth as nat),
            ),
            items_far(kind, m, pos as int, depth as nat, far0) == more_items_far(
                kind,
                m,
                cur as int,
                depth as nat,
                *far,
            ),
            forall|i: int|
                0 <= i < items.len() ==> (#[trigger] items[i])@.wf() && items[i]@.readable(
                    depth as nat,
                ) && items[i]@.kind() == kind,
        decreases ts.len() - cur,
    {
        if !token_is(ts, cur, TokenKind::Comma) {
            far.note(cur, TokenKind::Comma);
            assert(tag_models(items@) + Seq::<TagModel>::empty() == tag_models(items@));
            return (items, cur);
        }
        match parse_element(ts, kind, cur + 1, depth, far) {
            Some((tag, end)) => {
                proof {
                    let rest = more_items(kind, m, end as int, depth as nat);
                    assert(tag_models(items@) + (seq![tag@] + rest.0) == tag_models(
                        items@.push(tag),
                    ) + rest.0);
                }
                items.push(tag);
                cur = end;
            },
            None => {
                assert(tag_models(items@) + Seq::<TagModel>::empty() == tag_models(items@));
                return (items, cur);
            },
        }
    }
}

fn parse_array(ts: &Vec<Token>, kind: TagKind, pos: usize, depth: usize, far: &mut Failure) -> (r:
    Option<(Tag, usize)>)
    requires
        pos <= ts.len(),
        kind == TagKind::ByteArray || kind == TagKind::IntArray || kind == TagKind::LongArray,
    ensures
        read(r) == array_at(kind, models(ts@), pos as int, depth as nat),
        *final(far) == array_far(kind, models(ts@), pos as int, depth as nat, *old(far)),
        r matches Some((tag, end)) ==> pos < end <= ts.len() && tag@.wf() && tag@.readable(
            depth as nat,
        ) && tag@.kind() == kind,
    decreases depth, ts.len() - pos, 4int,
{
    let width = match kind {
        TagKind::ByteArray => ArrayType::Byte,
        TagKind::IntArray => ArrayType::Int,
        _ => ArrayType::Long,
    };
    let item = match kind {
        TagKind::ByteArray => TagKind::Byte,
        TagKind::IntArray => TagKind::Int,
        _ => TagKind::Long,
    };
    if !token_is(ts, pos, TokenKind::ArrayStart(width)) {
        far.note(pos, TokenKind::ArrayStart(width));
        return None;
    }
    let (items, end) = parse_items(ts, item, pos + 1, depth, far);
    if !token_is(ts, end, TokenKind::CloseBracket) {
        far.note(end, TokenKind::CloseBracket);
        return None;
    }
    let tag = match kind {
        TagKind::ByteArray => Tag::ByteArray(bytes_from(&items)),
        TagKind::IntArray => Tag::IntArray(ints_from(&items)),
        _ => Tag::LongArray(longs_from(&items)),
    };
    Some((tag, end + 1))
}

fn parse_list_of(ts: &Vec<Token>, kind: TagKind, pos: usize, depth: usize, far: &mut Failure) -> (r:
    Option<(Tag, usize)>)
    requires
        pos <= ts.len(),
    ensures
        read(r) == list_of(kind, models(ts@), pos as int, depth as nat),
        *final(far) == list_of_far(kind, models(ts@), pos as int, depth as nat, *old(far)),
        r matches Some((tag, end)) ==> pos < end <= ts.len() && tag@.wf() && tag@.kind()
            == TagKind::List && (tag@.readable((depth + 1) as nat) || (kind != TagKind::Byte
            && list_of(TagKind::Byte, models(ts@), pos as int, depth as nat) is Some)),
    decreases depth, ts.len() - pos, 10int,
{
    if !token_is(ts, pos, TokenKind::OpenBracket) {
        far.note(pos, TokenKind::OpenBracket);
        return None;
    }
    let (items, end) = parse_items(ts, kind, pos + 1, depth, far);
    let close: usize = if items.len() > 0 && token_is(ts, end, TokenKind::Comma) {
        end + 1
    } else {
        end
    };
    if !token_is(ts, close, TokenKind::CloseBracket) {
        far.note(close, TokenKind::CloseBracket);
        return None;
    }
    proof {
        let found = tag_models(items@);
        assert forall|i: int| 0 <= i < found.len() implies (#[trigger] found[i]).kind() == kind
            && found[i].readable(depth as nat) by {
            assert(found[i] == items[i]@);
        }
        if items.len() == 0 {
            // A group with nothing in it is a list of bytes before it is
            // a list of anything else.
            let m = models(ts@);
            assert(element_at(TagKind::Byte, m, pos + 1, depth as nat) is None);
            assert(items_at(TagKind::Byte, m, pos + 1, depth as nat) == (
                Seq::<TagModel>::empty(),
                pos + 1,
            ));
        }
    }
    Some((Tag::list(kind, items), close + 1))
}

fn parse_list(ts: &Vec<Token>, pos: usize, depth: usize, far: &mut Failure) -> (r: Option<
    (Tag, usize),
>)
    requires
        pos <= ts.len(),
    ensures
        read(r) == list_at(models(ts@), pos as int, depth as nat),
        *final(far) == list_far(models(ts@), pos as int, depth as nat, *old(far)),
        r matches Some((tag, end)) ==> pos < end <= ts.len() && tag@.wf() && tag@.readable(
            depth as nat,
        ) && tag@.kind() == TagKind::List,
    decreases depth, ts.len() - pos, 4int,
{
    if !token_is(ts, pos, TokenKind::OpenBracket) {
        far.note(pos, TokenKind::OpenBracket);
        return None;
    }
    if depth == 0 {
        far.note_deep(pos);
        return None;
    }
    let ghost m = models(ts@);
    let ghost far0 = *far;
    let below: usize = depth - 1;
    let mut k: usize = 0;
    while k < 12
        invariant
            m == models(ts@),
            far0 == *old(far),
            k <= 12,
            pos < ts.len(),
            depth > 0,
            below == depth - 1,
            k > 0 ==> list_of(TagKind::Byte, m, pos as int, below as nat) is None,
            first_list(m, pos as int, below as nat, 0) == first_list(
                m,
                pos as int,
                below as nat,
                k as int,
            ),
            first_list_far(m, pos as int, below as nat, 0, far0) == first_list_far(
                m,
                pos as int,
                below as nat,
                k as int,
                *far,
            ),
        decreases 12 - k,
    {
        match parse_list_of(ts, list_kind(k), pos, below, far) {
            Some(found) => {
                return Some(found);
            },
            None => {},
        }
        k += 1;
    }
    None
}

fn parse_member(ts: &Vec<Token>, pos: usize, depth: usize, far: &mut Failure) -> (r: Option<
    ((String, Tag), usize),
>)
    requires
        pos <= ts.len(),
    ensures
        read_member(r) == member_at(models(ts@), pos as int, depth as nat),
        *final(far) == member_far(models(ts@), pos as int, depth as nat, *old(far)),
        r matches Some((member, end)) ==> pos < end <= ts.len() && member.1@.wf()
            && member.1@.readable(depth as nat),
    decreases depth, ts.len() - pos, 22int,
{
    let named = if pos < ts.len() {
        read_name(&ts[pos])
    } else {
        None
    };
    match named {
        Some(name) => {
            if !token_is(ts, pos + 1, TokenKind::Colon) {
                far.note(pos + 1, TokenKind::Colon);
                return None;
            }
            match parse_value(ts, pos + 2, depth, far) {
                Some((tag, end)) => Some(((name, tag), end)),
                None => None,
            }
        },
        None => {
            far.note(pos, TokenKind::Identifier);
            far.note(pos, TokenKind::StringLiteral);
            None
        },
    }
}

fn parse_members(ts: &Vec<Token>, pos: usize, depth: usize, far: &mut Failure) -> (r: (
    Vec<(String, Tag)>,
    usize,
))
    requires
        pos <= ts.len(),
    ensures
        (member_models(r.0@), r.1 as int) == members_at(models(ts@), pos as int, depth as nat),
        *final(far) == members_far(models(ts@), pos as int, depth as nat, *old(far)),
        pos <= r.1 <= ts.len(),
        forall|i: int|
            0 <= i < r.0.len() ==> (#[trigger] r.0[i]).1@.wf() && r.0[i].1@.readable(depth as nat),
    decreases depth, ts.len() - pos, 25int,
{
    let ghost m = models(ts@);
    let ghost far0 = *far;
    let mut members: Vec<(String, Tag)> = Vec::new();
    let mut cur: usize = pos;
    match parse_member(ts, pos, depth, far) {
        Some((member, end)) => {
            members.push(member);
            cur = end;
        },
        None => {
            assert(member_models(members@) == Seq::<(Seq<char>, TagModel)>::empty());
            return (members, pos);
        },
    }
    proof {
        let rest = more_members(m, cur as int, depth as nat);
        assert(member_models(members@) + rest.0 == seq![(members[0].0@, members[0].1@)] + rest.0);
    }
    loop
        invariant
            m == models(ts@),
            far0 == *old(far),
            pos < cur <= ts.len(),
            members_at(m, pos as int, depth as nat) == joined(
                member_models(members@),
                more_members(m, cur as int, depth as nat),
            ),
            members_far(m, pos as int, depth as nat, far0) == more_members_far(
                m,
                cur as int,
                depth as nat,
                *far,
            ),
            forall|i: int|
                0 <= i < members.len() ==> (#[trigger] members[i]).1@.wf()
                    && members[i].1@.readable(depth as nat),
        decreases ts.len() - cur,
    {
        if !token_is(ts, cur, TokenKind::Comma) {
            far.note(cur, TokenKind::Comma);
            assert(member_models(members@) + Seq::<(Seq<char>, TagModel)>::empty()
                == member_models(members@));
            return (members, cur);
        }
        match parse_member(ts, cur + 1, depth, far) {
            Some((member, end)) => {
                proof {
                    let rest = more_members(m, end as int, depth as nat);
                    assert(member_models(members@) + (seq![(member.0@, member.1@)] + rest.0)
                        == member_models(members@.push(member)) + rest.0);
                }
                members.push(member);
                cur = end;
            },
            None => {
                assert(member_models(members@) + Seq::<(Seq<char>, TagModel)>::empty()
                    == member_models(members@));
                return (members, cur);
            },
        }
    }
}

fn parse_compound(ts: &Vec<Token>, pos: usize, depth: usize, far: &mut Failure) -> (r: Option<
    (Tag, usize),
>)
    requires
        pos <= ts.len(),
    ensures
        read(r) == compound_at(models(ts@), pos as int, depth as nat),
        *final(far) == compound_far(models(ts@), pos as int, depth as nat, *old(far)),
        r matches Some((tag, end)) ==> pos < end <= ts.len() && tag@.wf() && tag@.readable(
            depth as nat,
        ) && tag@.kind() == TagKind::Compound,
    decreases depth, ts.len() - pos, 4int,
{
    if !token_is(ts, pos, TokenKind::OpenBrace) {
        far.note(pos, TokenKind::OpenBrace);
        return None;
    }
    if depth == 0 {
        far.note_deep(pos);
        return None;
    }
    let (members, end) = parse_members(ts, pos + 1, depth - 1, far);
    let close: usize = if members.len() > 0 && token_is(ts, end, TokenKind::Comma) {
        end + 1
    } else {
        end
    };
    if !token_is(ts, close, TokenKind::CloseBrace) {
        far.note(close, TokenKind::CloseBrace);
        return None;
    }
    proof {
        let found = member_models(members@);
        assert forall|i: int| 0 <= i < found.len() implies (#[trigger] found[i]).1.readable(
            (depth - 1) as nat,
        ) by {
            assert(found[i].1 == members[i].1@);
        }
    }
    Some((Tag::compound(members), close + 1))
}

fn parse_value(ts: &Vec<Token>, pos: usize, depth: usize, far: &mut Failure) -> (r: Option<
    (Tag, usize),
>)
    requires
        pos <= ts.len(),
    ensures
        read(r) == value_at(models(ts@), pos as int, depth as nat),
        *final(far) == value_far(models(ts@), pos as int, depth as nat, *old(far)),
        r matches Some((tag, end)) ==> pos < end <= ts.len() && tag@.wf() && tag@.readable(
            depth as nat,
        ),
    decreases depth, ts.len() - pos, 20int,
{
    let ghost m = models(ts@);
    let ghost far0 = *far;
    let mut k: usize = 0;
    while k < 12
        invariant
            m == models(ts@),
            far0 == *old(far),
            k <= 12,
            pos <= ts.len(),
            first_value(m, pos as int, depth as nat, 0) == first_value(
                m,
                pos as int,
                depth as nat,
                k as int,
            ),
            first_value_far(m, pos as int, depth as nat, 0, far0) == first_value_far(
                m,
                pos as int,
                depth as nat,
                k as int,
                *far,
            ),
        decreases 12 - k,
    {
        match parse_element(ts, value_kind(k), pos, depth, far) {
            Some(found) => {
                return Some(found);
            },
            None => {},
        }
        k += 1;
    }
    None
}

/// Builds the tree that `tokens` stand for.
///
/// The tree is the value that the first tokens make; tokens after it are
/// not looked at.  Where the tokens make no value there is one error, for
/// the furthest token that was turned down.  Lists and compounds may be
/// nested [`MAX_DEPTH`] deep.
pub fn build(tokens: &Vec<Token>) -> (r: Result<Tag, Vec<GrammarError>>)
    ensures
        match tree_of(models(tokens@)) {
            Some(tree) => r matches Ok(tag) && tag@ == tree && tree.wf() && tree.readable(
                MAX_DEPTH as nat,
            ),
            None => r matches Err(errors) && errors.len() == 1 && errors[0].reports(
                models(tokens@),
                refusal_of(models(tokens@)),
            ),
        },
{
    let mut far = Failure::new();
    match parse_value(tokens, 0, MAX_DEPTH, &mut far) {
        Some((tag, _)) => Ok(tag),
        None => {
            let found: Option<Token> = if far.position < tokens.len() {
                Some(tokens[far.position].duplicate())
            } else {
                None
            };
            let mut errors: Vec<GrammarError> = Vec::new();
            errors.push(
                GrammarError {
                    position: far.position,
                    found,
                    expected: far.expected,
                    invalid_number: far.invalid_number,
                    too_deep: far.too_deep,
                },
            );
            Err(errors)
        },
    }
}

} // verus!

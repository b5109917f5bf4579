//! Writing a tree down as tokens, and reading it back.
//!
//! [`written`] gives, for a tree, the tokens of its plainest notation:
//! every number in decimal digits with its width, every string in quotes,
//! a comma between neighbours and none at the end.  Reading those tokens
//! gives the tree back, for every tree that reading can give at all
//! ([`lemma_written_tree_reads_back`]); and whatever reading gives is
//! such a tree ([`lemma_sound_at`]).

use vstd::prelude::*;
use crate::chars::{CharClass, digit, digit_value, in_class, lemma_run_end_unique};
use crate::number::{after_sign, digits_value, integer_of, integer_value, is_integer_text};
use crate::grammar::{
    array_at, array_item, array_of, array_width, bytes_of, compound_at, element_at, first_list,
    first_value, has_kind, ints_of, items_at, leaf, list_of, list_order, longs_of, member_at,
    members_at, more_items, more_members, tree_of, value_at, value_order, MAX_DEPTH,
};
use crate::tag::{TagKind, TagModel};
use crate::token::{joined, ArrayType, DecimalType, IntegerType, TokenKind, TokenModel};

verus! {

/// The character of a digit.
pub open spec fn digit_char(d: nat) -> char {
    ('0' as int + d) as char
}

/// The decimal digits of a natural number, without leading zeros.
pub open spec fn digits_of(n: nat) -> Seq<char>
    decreases n,
{
    if n < 10 {
        seq![digit_char(n)]
    } else {
        digits_of(n / 10).push(digit_char(n % 10))
    }
}

/// The decimal notation of an integer.
pub open spec fn number_text(v: int) -> Seq<char> {
    if v < 0 {
        seq!['-'] + digits_of((-v) as nat)
    } else {
        digits_of(v as nat)
    }
}

/// The digits of a number are digits, at least one, and denote the number.
pub proof fn lemma_digits_of(n: nat)
    ensures
        digits_of(n).len() >= 1,
        forall|j: int| 0 <= j < digits_of(n).len() ==> digit(#[trigger] digits_of(n)[j]),
        digits_value(digits_of(n)) == n,
    decreases n,
{
    if n < 10 {
        let s = digits_of(n);
        assert(s.drop_last().len() == 0);
        assert(digit_value(s.last()) == n);
        assert(digits_value(s.drop_last()) == 0);
    } else {
        lemma_digits_of(n / 10);
        let s = digits_of(n);
        assert(s.drop_last() == digits_of(n / 10));
        assert(digit_value(s.last()) == n % 10);
    }
}

/// The notation of an integer is well formed and denotes the integer.
pub proof fn lemma_number_text(v: int)
    ensures
        is_integer_text(number_text(v)),
        integer_value(number_text(v)) == v,
{
    let text = number_text(v);
    let n = if v < 0 {
        (-v) as nat
    } else {
        v as nat
    };
    lemma_digits_of(n);
    let q = after_sign(text, 0);
    if v < 0 {
        assert(text[0] == '-');
        assert(q == 1);
        assert(text.subrange(1, text.len() as int) == digits_of(n));
    } else {
        assert(text[0] == digits_of(n)[0]);
        assert(digit(text[0]));
        assert(q == 0);
        assert(text.subrange(0, text.len() as int) == digits_of(n));
    }
    assert forall|j: int| q <= j < text.len() implies in_class(
        CharClass::Digit,
        #[trigger] text[j],
    ) by {
        assert(text[j] == digits_of(n)[j - q]);
    }
    lemma_run_end_unique(text, q, CharClass::Digit, text.len() as int);
}

/// The notation of an integer within a width's range converts to it.
pub proof fn lemma_number_text_converts(v: int, width: IntegerType)
    requires
        width.min() <= v <= width.max(),
    ensures
        integer_of(number_text(v), width) == Some(v),
{
    lemma_number_text(v);
}

/// The token that writes a tag of a one-token kind.
pub open spec fn written_leaf(t: TagModel) -> TokenModel {
    match t {
        TagModel::Byte(v) => TokenModel::Integer(number_text(v as int), IntegerType::Byte),
        TagModel::Short(v) => TokenModel::Integer(number_text(v as int), IntegerType::Short),
        TagModel::Int(v) => TokenModel::Integer(number_text(v as int), IntegerType::Int),
        TagModel::Long(v) => TokenModel::Integer(number_text(v as int), IntegerType::Long),
        TagModel::Float(text) => TokenModel::Decimal(text, DecimalType::Float),
        TagModel::Double(text) => TokenModel::Decimal(text, DecimalType::Double),
        TagModel::String(text) => TokenModel::StringLiteral(text),
        _ => TokenModel::StringLiteral(Seq::empty()),
    }
}

/// The numbers of an array as tags.
pub open spec fn byte_tags(vs: Seq<i8>) -> Seq<TagModel> {
    Seq::new(vs.len(), |i: int| TagModel::Byte(vs[i]))
}

pub open spec fn int_tags(vs: Seq<i32>) -> Seq<TagModel> {
    Seq::new(vs.len(), |i: int| TagModel::Int(vs[i]))
}

pub open spec fn long_tags(vs: Seq<i64>) -> Seq<TagModel> {
    Seq::new(vs.len(), |i: int| TagModel::Long(vs[i]))
}

/// The tokens that write one-token tags from the `i`th on, a comma
/// between neighbours.
pub open spec fn written_flat(items: Seq<TagModel>, i: int) -> Seq<TokenModel>
    decreases items.len() - i,
{
    if i < 0 || i >= items.len() {
        Seq::empty()
    } else if i + 1 == items.len() {
        seq![written_leaf(items[i])]
    } else {
        seq![written_leaf(items[i])] + seq![TokenModel::Comma] + written_flat(items, i + 1)
    }
}

/// The tokens that write a tree.
pub open spec fn written(t: TagModel) -> Seq<TokenModel>
    decreases t, 0nat,
{
    match t {
        TagModel::ByteArray(vs) => seq![TokenModel::ArrayStart(ArrayType::Byte)] + written_flat(
            byte_tags(vs),
            0,
        ) + seq![TokenModel::CloseBracket],
        TagModel::IntArray(vs) => seq![TokenModel::ArrayStart(ArrayType::Int)] + written_flat(
            int_tags(vs),
            0,
        ) + seq![TokenModel::CloseBracket],
        TagModel::LongArray(vs) => seq![TokenModel::ArrayStart(ArrayType::Long)] + written_flat(
            long_tags(vs),
            0,
        ) + seq![TokenModel::CloseBracket],
        TagModel::List(_, items) => seq![TokenModel::OpenBracket] + written_items(items, 0)
            + seq![TokenModel::CloseBracket],
        TagModel::Compound(members) => seq![TokenModel::OpenBrace] + written_members(members, 0)
            + seq![TokenModel::CloseBrace],
        _ => seq![written_leaf(t)],
    }
}

/// The tokens that write the items of a list from the `i`th on, a comma
/// between neighbours.
pub open spec fn written_items(items: Seq<TagModel>, i: int) -> Seq<TokenModel>
    decreases items, items.len() - i,
{
    if i < 0 || i >= items.len() {
        Seq::empty()
    } else if i + 1 == items.len() {
        written(items[i])
    } else {
        written(items[i]) + seq![TokenModel::Comma] + written_items(items, i + 1)
    }
}

/// The tokens that write one member: its name in quotes, `:`, its value.
pub open spec fn written_member(members: Seq<(Seq<char>, TagModel)>, i: int) -> Seq<TokenModel>
    decreases members, 0nat,
{
    if 0 <= i < members.len() {
        seq![TokenModel::StringLiteral(members[i].0)] + seq![TokenModel::Colon] + written(
            members[i].1,
        )
    } else {
        Seq::empty()
    }
}

/// The tokens that write the members of a compound from the `i`th on, a
/// comma between neighbours.
pub open spec fn written_members(members: Seq<(Seq<char>, TagModel)>, i: int) -> Seq<TokenModel>
    decreases members, members.len() - i + 1,
{
    if i < 0 || i >= members.len() {
        Seq::empty()
    } else if i + 1 == members.len() {
        written_member(members, i)
    } else {
        written_member(members, i) + seq![TokenModel::Comma] + written_members(members, i + 1)
    }
}

/// The run `w` stands in `ts` from `pos` on.
pub open spec fn stands_at<T>(ts: Seq<T>, pos: int, w: Seq<T>) -> bool {
    0 <= pos && pos + w.len() <= ts.len() && ts.subrange(pos, pos + w.len()) == w
}

/// Where a run stands, each part of it stands.
pub proof fn lemma_stands_token<T>(ts: Seq<T>, pos: int, w: Seq<T>, j: int)
    requires
        stands_at(ts, pos, w),
        0 <= j < w.len(),
    ensures
        ts[pos + j] == w[j],
{
    assert(ts.subrange(pos, pos + w.len())[j] == ts[pos + j]);
}

/// Where two runs stand one after the other, each stands.
pub proof fn lemma_stands_split<T>(ts: Seq<T>, pos: int, a: Seq<T>, b: Seq<T>)
    requires
        stands_at(ts, pos, a + b),
    ensures
        stands_at(ts, pos, a),
        stands_at(ts, pos + a.len(), b),
{
    let whole = a + b;
    assert forall|j: int| 0 <= j < a.len() implies ts.subrange(pos, pos + a.len())[j] == a[j] by {
        lemma_stands_token(ts, pos, whole, j);
    }
    assert(ts.subrange(pos, pos + a.len()) =~= a);
    assert forall|j: int| 0 <= j < b.len() implies ts.subrange(
        pos + a.len(),
        pos + a.len() + b.len(),
    )[j] == b[j] by {
        lemma_stands_token(ts, pos, whole, a.len() + j);
    }
    assert(ts.subrange(pos + a.len(), pos + a.len() + b.len()) =~= b);
}

/// A token of this sort can be the first of a tag of kind `kind`.
pub open spec fn opens(kind: TagKind, token: TokenModel) -> bool {
    match kind {
        TagKind::Byte => token.kind() == TokenKind::Integer(IntegerType::Byte) || token.kind()
            == TokenKind::Boolean,
        TagKind::Short => token.kind() == TokenKind::Integer(IntegerType::Short),
        TagKind::Int => token.kind() == TokenKind::Integer(IntegerType::Int),
        TagKind::Long => token.kind() == TokenKind::Integer(IntegerType::Long),
        TagKind::Float => token.kind() == TokenKind::Decimal(DecimalType::Float),
        TagKind::Double => token.kind() == TokenKind::Decimal(DecimalType::Double),
        TagKind::ByteArray => token.kind() == TokenKind::ArrayStart(ArrayType::Byte),
        TagKind::String => token.kind() == TokenKind::Identifier || token.kind()
            == TokenKind::StringLiteral,
        TagKind::List => token.kind() == TokenKind::OpenBracket,
        TagKind::Compound => token.kind() == TokenKind::OpenBrace,
        TagKind::IntArray => token.kind() == TokenKind::ArrayStart(ArrayType::Int),
        TagKind::LongArray => token.kind() == TokenKind::ArrayStart(ArrayType::Long),
    }
}

/// Whatever is read as a tag of some kind starts with a token that opens
/// that kind.
pub proof fn lemma_read_opens(kind: TagKind, ts: Seq<TokenModel>, pos: int, depth: nat)
    ensures
        element_at(kind, ts, pos, depth) is Some ==> 0 <= pos < ts.len() && opens(kind, ts[pos]),
{
}

/// What is written starts with a token that opens the kind of the tree,
/// and no other kind.
pub proof fn lemma_written_opens(t: TagModel)
    ensures
        written(t).len() >= 1,
        opens(t.kind(), written(t)[0]),
        forall|kind: TagKind| opens(kind, written(t)[0]) ==> kind == t.kind(),
        written(t)[0].kind() != TokenKind::CloseBracket,
        written(t)[0].kind() != TokenKind::Comma,
{
}

/// A tag of a one-token kind is read back from the token that writes it.
pub proof fn lemma_leaf_reads_back(t: TagModel, depth: nat)
    requires
        t.readable(depth),
        t.kind() != TagKind::List,
        t.kind() != TagKind::Compound,
        t.kind() != TagKind::ByteArray,
        t.kind() != TagKind::IntArray,
        t.kind() != TagKind::LongArray,
    ensures
        leaf(t.kind(), written_leaf(t)) == Some(t),
        written(t) == seq![written_leaf(t)],
{
    match t {
        TagModel::Byte(v) => lemma_number_text_converts(v as int, IntegerType::Byte),
        TagModel::Short(v) => lemma_number_text_converts(v as int, IntegerType::Short),
        TagModel::Int(v) => lemma_number_text_converts(v as int, IntegerType::Int),
        TagModel::Long(v) => lemma_number_text_converts(v as int, IntegerType::Long),
        _ => {},
    }
}

/// The place of a kind in value order.
pub open spec fn value_place(kind: TagKind) -> int {
    match kind {
        TagKind::Compound => 0,
        TagKind::List => 1,
        TagKind::Byte => 2,
        TagKind::Short => 3,
        TagKind::Int => 4,
        TagKind::Long => 5,
        TagKind::Float => 6,
        TagKind::Double => 7,
        TagKind::ByteArray => 8,
        TagKind::IntArray => 9,
        TagKind::LongArray => 10,
        TagKind::String => 11,
    }
}

/// The place of a kind in list order.
pub open spec fn list_place(kind: TagKind) -> int {
    match kind {
        TagKind::Byte => 0,
        TagKind::Short => 1,
        TagKind::Int => 2,
        TagKind::Long => 3,
        TagKind::Float => 4,
        TagKind::Double => 5,
        TagKind::ByteArray => 6,
        TagKind::String => 7,
        TagKind::List => 8,
        TagKind::Compound => 9,
        TagKind::IntArray => 10,
        TagKind::LongArray => 11,
    }
}

/// Where no kind but `kind` reads, the value is what reads under `kind`.
pub proof fn lemma_value_is(ts: Seq<TokenModel>, pos: int, depth: nat, kind: TagKind, k: int)
    requires
        0 <= k <= 12,
        forall|other: TagKind|
            other != kind ==> (#[trigger] element_at(other, ts, pos, depth)) is None,
    ensures
        first_value(ts, pos, depth, k) == if k <= value_place(kind) {
            element_at(kind, ts, pos, depth)
        } else {
            None
        },
    decreases 12 - k,
{
    if k < 12 {
        lemma_value_is(ts, pos, depth, kind, k + 1);
        if value_order(k) != kind {
            assert(element_at(value_order(k), ts, pos, depth) is None);
        }
    }
}

/// Where no kind of list but `kind` reads, the list is what reads under
/// `kind`.
pub proof fn lemma_list_is(ts: Seq<TokenModel>, pos: int, depth: nat, kind: TagKind, k: int)
    requires
        0 <= k <= 12,
        forall|other: TagKind|
            other != kind ==> (#[trigger] list_of(other, ts, pos, depth)) is None,
    ensures
        first_list(ts, pos, depth, k) == if k <= list_place(kind) {
            list_of(kind, ts, pos, depth)
        } else {
            None
        },
    decreases 12 - k,
{
    if k < 12 {
        lemma_list_is(ts, pos, depth, kind, k + 1);
        if list_order(k) != kind {
            assert(list_of(list_order(k), ts, pos, depth) is None);
        }
    }
}

/// Items that are each read back from what writes them are read back
/// together from what writes them with commas between, up to a `]`.
#[verifier::rlimit(40)]
pub proof fn lemma_items_read_back(
    kind: TagKind,
    items: Seq<TagModel>,
    i: int,
    ts: Seq<TokenModel>,
    pos: int,
    depth: nat,
)
    requires
        0 <= i < items.len(),
        stands_at(ts, pos, written_items(items, i)),
        has_kind(ts, pos + written_items(items, i).len(), TokenKind::CloseBracket),
        forall|j: int, p: int|
            i <= j < items.len() && #[trigger] stands_at(ts, p, written(items[j])) ==> element_at(
                kind,
                ts,
                p,
                depth,
            ) == Some((items[j], p + written(items[j]).len())),
    ensures
        stands_at(ts, pos, written(items[i])),
        element_at(kind, ts, pos, depth) == Some((items[i], pos + written(items[i]).len())),
        more_items(kind, ts, pos + written(items[i]).len(), depth) == (
            items.skip(i + 1),
            pos + written_items(items, i).len(),
        ),
    decreases items.len() - i,
{
    let one = written(items[i]);
    lemma_written_opens(items[i]);
    if i + 1 == items.len() {
        assert(stands_at(ts, pos, one));
        assert(items.skip(i + 1) == Seq::<TagModel>::empty());
    } else {
        let rest = written_items(items, i + 1);
        assert(written_items(items, i) == one + seq![TokenModel::Comma] + rest);
        lemma_stands_split(ts, pos, one + seq![TokenModel::Comma], rest);
        lemma_stands_split(ts, pos, one, seq![TokenModel::Comma]);
        lemma_stands_token(ts, pos + one.len(), seq![TokenModel::Comma], 0);
        assert(stands_at(ts, pos, one));
        let next = pos + one.len() + 1;
        assert(stands_at(ts, next, rest));
        lemma_items_read_back(kind, items, i + 1, ts, next, depth);
        lemma_written_opens(items[i + 1]);
        let tail = more_items(kind, ts, next + written(items[i + 1]).len(), depth);
        assert(seq![items[i + 1]] + tail.0 == items.skip(i + 1));
    }
}

/// Members whose values are each read back from what writes them are read
/// back together from what writes them with commas between, up to a `}`.
#[verifier::rlimit(40)]
pub proof fn lemma_members_read_back(
    members: Seq<(Seq<char>, TagModel)>,
    i: int,
    ts: Seq<TokenModel>,
    pos: int,
    depth: nat,
)
    requires
        0 <= i < members.len(),
        stands_at(ts, pos, written_members(members, i)),
        has_kind(ts, pos + written_members(members, i).len(), TokenKind::CloseBrace),
        forall|j: int, p: int|
            i <= j < members.len() && #[trigger] stands_at(ts, p, written(members[j].1))
                ==> value_at(ts, p, depth) == Some(
                (members[j].1, p + written(members[j].1).len()),
            ),
    ensures
        member_at(ts, pos, depth) == Some((members[i], pos + written_member(members, i).len())),
        more_members(ts, pos + written_member(members, i).len(), depth) == (
            members.skip(i + 1),
            pos + written_members(members, i).len(),
        ),
    decreases members.len() - i,
{
    let name = seq![TokenModel::StringLiteral(members[i].0)];
    let colon = seq![TokenModel::Colon];
    let value = written(members[i].1);
    let one = written_member(members, i);
    assert(one == name + colon + value);
    lemma_written_opens(members[i].1);
    if i + 1 == members.len() {
        assert(members.skip(i + 1) == Seq::<(Seq<char>, TagModel)>::empty());
    } else {
        let rest = written_members(members, i + 1);
        assert(written_members(members, i) == one + seq![TokenModel::Comma] + rest);
        lemma_stands_split(ts, pos, one + seq![TokenModel::Comma], rest);
        lemma_stands_split(ts, pos, one, seq![TokenModel::Comma]);
        lemma_stands_token(ts, pos + one.len(), seq![TokenModel::Comma], 0);
        let next = pos + one.len() + 1;
        lemma_members_read_back(members, i + 1, ts, next, depth);
        let tail = more_members(ts, next + written_member(members, i + 1).len(), depth);
        assert(seq![members[i + 1]] + tail.0 == members.skip(i + 1));
    }
    assert(stands_at(ts, pos, one));
    lemma_stands_split(ts, pos, name + colon, value);
    lemma_stands_split(ts, pos, name, colon);
    lemma_stands_token(ts, pos, name, 0);
    lemma_stands_token(ts, pos + 1, colon, 0);
    assert(stands_at(ts, pos + 2, value));
    assert(members[i] == (members[i].0, members[i].1));
}

/// One-token tags are written the same way inside an array and inside a
/// list.
pub proof fn lemma_flat_is_items(items: Seq<TagModel>, i: int)
    requires
        forall|j: int|
            0 <= j < items.len() ==> written(#[trigger] items[j]) == seq![written_leaf(items[j])],
    ensures
        written_flat(items, i) == written_items(items, i),
    decreases items.len() - i,
{
    if 0 <= i < items.len() {
        lemma_flat_is_items(items, i + 1);
    }
}

/// An array is read back from what writes it.
#[verifier::rlimit(40)]
pub proof fn lemma_array_reads_back(
    kind: TagKind,
    items: Seq<TagModel>,
    ts: Seq<TokenModel>,
    pos: int,
    depth: nat,
)
    requires
        kind == TagKind::ByteArray || kind == TagKind::IntArray || kind == TagKind::LongArray,
        forall|j: int| 0 <= j < items.len() ==> (#[trigger] items[j]).kind() == array_item(kind),
        stands_at(
            ts,
            pos,
            seq![TokenModel::ArrayStart(array_width(kind))] + written_flat(items, 0)
                + seq![TokenModel::CloseBracket],
        ),
    ensures
        array_at(kind, ts, pos, depth) == Some(
            (array_of(kind, items), pos + 2 + written_flat(items, 0).len()),
        ),
{
    let open = seq![TokenModel::ArrayStart(array_width(kind))];
    let inner = written_flat(items, 0);
    let close = seq![TokenModel::CloseBracket];
    lemma_stands_split(ts, pos, open + inner, close);
    lemma_stands_split(ts, pos, open, inner);
    lemma_stands_token(ts, pos, open, 0);
    lemma_stands_token(ts, pos + 1 + inner.len(), close, 0);
    let item = array_item(kind);
    assert forall|j: int| 0 <= j < items.len() implies written(#[trigger] items[j]) == seq![
        written_leaf(items[j]),
    ] by {
        lemma_leaf_reads_back(items[j], depth);
    }
    lemma_flat_is_items(items, 0);
    if items.len() == 0 {
        assert(items_at(item, ts, pos + 1, depth) == (Seq::<TagModel>::empty(), pos + 1));
        assert(items == Seq::<TagModel>::empty());
    } else {
        assert forall|j: int, p: int|
            0 <= j < items.len() && #[trigger] stands_at(
                ts,
                p,
                written(items[j]),
            ) implies element_at(item, ts, p, depth) == Some(
            (items[j], p + written(items[j]).len()),
        ) by {
            lemma_leaf_reads_back(items[j], depth);
            lemma_stands_token(ts, p, written(items[j]), 0);
        }
        lemma_items_read_back(item, items, 0, ts, pos + 1, depth);
        lemma_written_opens(items[0]);
        let tail = more_items(item, ts, pos + 1 + written(items[0]).len(), depth);
        assert(seq![items[0]] + tail.0 == items);
    }
}

/// What writes a list is read, under the kind of the list, as the list.
#[verifier::rlimit(40)]
pub proof fn lemma_list_of_reads_back(
    kind: TagKind,
    items: Seq<TagModel>,
    ts: Seq<TokenModel>,
    pos: int,
    below: nat,
)
    requires
        has_kind(ts, pos, TokenKind::OpenBracket),
        stands_at(ts, pos + 1, written_items(items, 0)),
        has_kind(ts, pos + 1 + written_items(items, 0).len(), TokenKind::CloseBracket),
        items.len() > 0,
        forall|j: int, p: int|
            0 <= j < items.len() && #[trigger] stands_at(ts, p, written(items[j])) ==> element_at(
                kind,
                ts,
                p,
                below,
            ) == Some((items[j], p + written(items[j]).len())),
    ensures
        stands_at(ts, pos + 1, written(items[0])),
        list_of(kind, ts, pos, below) == Some(
            (TagModel::List(kind, items), pos + 2 + written_items(items, 0).len()),
        ),
{
    let inner = written_items(items, 0);
    lemma_items_read_back(kind, items, 0, ts, pos + 1, below);
    lemma_written_opens(items[0]);
    let first_end = pos + 1 + written(items[0]).len();
    let tail = more_items(kind, ts, first_end, below);
    assert(tail == (items.skip(1), pos + 1 + inner.len()));
    assert(seq![items[0]] + tail.0 == items);
    assert(items_at(kind, ts, pos + 1, below) == joined(seq![items[0]], tail));
    assert(items_at(kind, ts, pos + 1, below) == (items, pos + 1 + inner.len()));
}

/// Where the first item of a bracketed group opens one kind, no list of
/// another kind reads the group.
pub proof fn lemma_other_lists_fail(
    kind: TagKind,
    first: TagModel,
    ts: Seq<TokenModel>,
    pos: int,
    below: nat,
)
    requires
        first.kind() == kind,
        stands_at(ts, pos + 1, written(first)),
    ensures
        forall|other: TagKind|
            other != kind ==> (#[trigger] list_of(other, ts, pos, below)) is None,
{
    lemma_written_opens(first);
    lemma_stands_token(ts, pos + 1, written(first), 0);
    assert forall|other: TagKind| other != kind implies (#[trigger] list_of(
        other,
        ts,
        pos,
        below,
    )) is None by {
        lemma_read_opens(other, ts, pos + 1, below);
        assert(element_at(other, ts, pos + 1, below) is None);
        assert(items_at(other, ts, pos + 1, below) == (Seq::<TagModel>::empty(), pos + 1));
    }
}

/// A list is read back from what writes it, if each of its items is.
#[verifier::rlimit(40)]
pub proof fn lemma_list_reads_back(
    kind: TagKind,
    items: Seq<TagModel>,
    ts: Seq<TokenModel>,
    pos: int,
    below: nat,
)
    requires
        stands_at(
            ts,
            pos,
            seq![TokenModel::OpenBracket] + written_items(items, 0)
                + seq![TokenModel::CloseBracket],
        ),
        items.len() == 0 ==> kind == TagKind::Byte,
        forall|j: int| 0 <= j < items.len() ==> (#[trigger] items[j]).kind() == kind,
        forall|j: int, p: int|
            0 <= j < items.len() && #[trigger] stands_at(ts, p, written(items[j])) ==> element_at(
                kind,
                ts,
                p,
                below,
            ) == Some((items[j], p + written(items[j]).len())),
    ensures
        has_kind(ts, pos, TokenKind::OpenBracket),
        first_list(ts, pos, below, 0) == Some(
            (TagModel::List(kind, items), pos + 2 + written_items(items, 0).len()),
        ),
{
    let open = seq![TokenModel::OpenBracket];
    let inner = written_items(items, 0);
    let close = seq![TokenModel::CloseBracket];
    lemma_stands_split(ts, pos, open + inner, close);
    lemma_stands_split(ts, pos, open, inner);
    lemma_stands_token(ts, pos, open, 0);
    lemma_stands_token(ts, pos + 1 + inner.len(), close, 0);
    if items.len() == 0 {
        assert(inner.len() == 0);
        assert(element_at(kind, ts, pos + 1, below) is None);
        assert(items_at(kind, ts, pos + 1, below) == (Seq::<TagModel>::empty(), pos + 1));
        assert(items == Seq::<TagModel>::empty());
        assert(list_of(kind, ts, pos, below) == Some((TagModel::List(kind, items), pos + 2)));
    } else {
        lemma_list_of_reads_back(kind, items, ts, pos, below);
        lemma_other_lists_fail(kind, items[0], ts, pos, below);
        lemma_list_is(ts, pos, below, kind, 0);
    }
}

/// A compound is read back from what writes it, if the value of each of
/// its members is.
#[verifier::rlimit(40)]
pub proof fn lemma_compound_reads_back(
    members: Seq<(Seq<char>, TagModel)>,
    ts: Seq<TokenModel>,
    pos: int,
    below: nat,
)
    requires
        stands_at(
            ts,
            pos,
            seq![TokenModel::OpenBrace] + written_members(members, 0)
                + seq![TokenModel::CloseBrace],
        ),
        forall|j: int, p: int|
            0 <= j < members.len() && #[trigger] stands_at(ts, p, written(members[j].1))
                ==> value_at(ts, p, below) == Some(
                (members[j].1, p + written(members[j].1).len()),
            ),
    ensures
        compound_at(ts, pos, below + 1) == Some(
            (TagModel::Compound(members), pos + 2 + written_members(members, 0).len()),
        ),
{
    let open = seq![TokenModel::OpenBrace];
    let inner = written_members(members, 0);
    let close = seq![TokenModel::CloseBrace];
    lemma_stands_split(ts, pos, open + inner, close);
    lemma_stands_split(ts, pos, open, inner);
    lemma_stands_token(ts, pos, open, 0);
    lemma_stands_token(ts, pos + 1 + inner.len(), close, 0);
    if members.len() == 0 {
        assert(members_at(ts, pos + 1, below) == (
            Seq::<(Seq<char>, TagModel)>::empty(),
            pos + 1,
        ));
        assert(members == Seq::<(Seq<char>, TagModel)>::empty());
    } else {
        lemma_members_read_back(members, 0, ts, pos + 1, below);
        let tail = more_members(ts, pos + 1 + written_member(members, 0).len(), below);
        assert(seq![members[0]] + tail.0 == members);
        assert(members_at(ts, pos + 1, below) == (members, pos + 1 + inner.len()));
    }
}

/// What is read under the kind of the tree that is written at a place is
/// the value read there.
pub proof fn lemma_value_of_written(t: TagModel, ts: Seq<TokenModel>, pos: int, depth: nat)
    requires
        stands_at(ts, pos, written(t)),
    ensures
        value_at(ts, pos, depth) == element_at(t.kind(), ts, pos, depth),
{
    lemma_written_opens(t);
    lemma_stands_token(ts, pos, written(t), 0);
    assert forall|other: TagKind| other != t.kind() implies (#[trigger] element_at(
        other,
        ts,
        pos,
        depth,
    )) is None by {
        lemma_read_opens(other, ts, pos, depth);
    }
    lemma_value_is(ts, pos, depth, t.kind(), 0);
}

/// A tree that reading can give is read back from what writes it: as a
/// tag of its kind, and as a value.
#[verifier::rlimit(40)]
pub proof fn lemma_reads_back(t: TagModel, ts: Seq<TokenModel>, pos: int, depth: nat)
    requires
        t.readable(depth),
        stands_at(ts, pos, written(t)),
    ensures
        element_at(t.kind(), ts, pos, depth) == Some((t, pos + written(t).len())),
        value_at(ts, pos, depth) == Some((t, pos + written(t).len())),
    decreases t,
{
    lemma_value_of_written(t, ts, pos, depth);
    lemma_written_opens(t);
    match t {
        TagModel::ByteArray(vs) => {
            lemma_array_reads_back(TagKind::ByteArray, byte_tags(vs), ts, pos, depth);
            assert(bytes_of(byte_tags(vs)) == vs);
        },
        TagModel::IntArray(vs) => {
            lemma_array_reads_back(TagKind::IntArray, int_tags(vs), ts, pos, depth);
            assert(ints_of(int_tags(vs)) == vs);
        },
        TagModel::LongArray(vs) => {
            lemma_array_reads_back(TagKind::LongArray, long_tags(vs), ts, pos, depth);
            assert(longs_of(long_tags(vs)) == vs);
        },
        TagModel::List(kind, items) => {
            let below = (depth - 1) as nat;
            assert forall|j: int, p: int|
                0 <= j < items.len() && #[trigger] stands_at(
                    ts,
                    p,
                    written(items[j]),
                ) implies element_at(kind, ts, p, below) == Some(
                (items[j], p + written(items[j]).len()),
            ) by {
                lemma_reads_back(items[j], ts, p, below);
            }
            lemma_list_reads_back(kind, items, ts, pos, below);
        },
        TagModel::Compound(members) => {
            let below = (depth - 1) as nat;
            assert forall|j: int, p: int|
                0 <= j < members.len() && #[trigger] stands_at(
                    ts,
                    p,
                    written(members[j].1),
                ) implies value_at(ts, p, below) == Some(
                (members[j].1, p + written(members[j].1).len()),
            ) by {
                lemma_reads_back(members[j].1, ts, p, below);
            }
            lemma_compound_reads_back(members, ts, pos, below);
        },
        _ => {
            lemma_leaf_reads_back(t, depth);
            lemma_stands_token(ts, pos, written(t), 0);
        },
    }
}

/// Reading what writes a tree gives the tree back, for every tree that
/// reading can give.
pub proof fn lemma_written_tree_reads_back(t: TagModel)
    requires
        t.readable(MAX_DEPTH as nat),
    ensures
        tree_of(written(t)) == Some(t),
{
    let w = written(t);
    assert(w.subrange(0, w.len() as int) == w);
    lemma_reads_back(t, w, 0, MAX_DEPTH as nat);
}

/// Every tag in `items` is of kind `kind` and can come of reading at
/// `depth`.
pub open spec fn items_readable(items: Seq<TagModel>, kind: TagKind, depth: nat) -> bool {
    forall|i: int|
        0 <= i < items.len() ==> (#[trigger] items[i]).kind() == kind && items[i].readable(depth)
}

/// The value of every member can come of reading at `depth`.
pub open spec fn members_readable(members: Seq<(Seq<char>, TagModel)>, depth: nat) -> bool {
    forall|i: int| 0 <= i < members.len() ==> (#[trigger] members[i]).1.readable(depth)
}

/// What is read at `pos` as a tag of kind `kind` is of that kind, can come
/// of reading, and ends after `pos` and within the tokens.
pub open spec fn element_sound(kind: TagKind, ts: Seq<TokenModel>, pos: int, depth: nat) -> bool {
    element_at(kind, ts, pos, depth) matches Some((t, e)) ==> t.kind() == kind && t.readable(depth)
        && pos < e <= ts.len()
}

/// Whatever a production reads at `pos` can come of reading, and ends
/// after `pos` and within the tokens.
pub open spec fn sound_at(ts: Seq<TokenModel>, pos: int, depth: nat) -> bool {
    &&& forall|kind: TagKind| #[trigger] element_sound(kind, ts, pos, depth)
    &&& forall|kind: TagKind|
        items_readable((#[trigger] items_at(kind, ts, pos, depth)).0, kind, depth) && pos
            <= items_at(kind, ts, pos, depth).1 <= ts.len()
    &&& forall|kind: TagKind|
        items_readable((#[trigger] more_items(kind, ts, pos, depth)).0, kind, depth) && pos
            <= more_items(kind, ts, pos, depth).1 <= ts.len()
    &&& member_at(ts, pos, depth) matches Some((m, e)) ==> m.1.readable(depth) && pos < e
        <= ts.len()
    &&& members_readable(members_at(ts, pos, depth).0, depth)
    &&& pos <= members_at(ts, pos, depth).1 <= ts.len()
    &&& members_readable(more_members(ts, pos, depth).0, depth)
    &&& pos <= more_members(ts, pos, depth).1 <= ts.len()
    &&& value_at(ts, pos, depth) matches Some((t, e)) ==> t.readable(depth) && pos < e <= ts.len()
}

/// What is known when `sound_at` is to be shown at `pos`: that it holds
/// further along, and everywhere one level further down.
spec fn sound_beyond(ts: Seq<TokenModel>, pos: int, depth: nat) -> bool {
    &&& forall|e: int| pos < e <= ts.len() ==> #[trigger] sound_at(ts, e, depth)
    &&& depth > 0 ==> forall|e: int|
        0 <= e <= ts.len() ==> #[trigger] sound_at(ts, e, (depth - 1) as nat)
}

/// A group that some kind of list reads as empty is read by the list of
/// bytes, which is tried first.
proof fn lemma_empty_group(kind: TagKind, ts: Seq<TokenModel>, pos: int, depth: nat)
    requires
        list_of(kind, ts, pos, depth) matches Some((TagModel::List(_, items), _))
            && items.len() == 0,
    ensures
        list_of(TagKind::Byte, ts, pos, depth) is Some,
{
    let found = items_at(kind, ts, pos + 1, depth);
    match element_at(kind, ts, pos + 1, depth) {
        Some((tag, end)) => {
            if pos + 1 < end <= ts.len() {
                let rest = more_items(kind, ts, end, depth);
                assert((seq![tag] + rest.0).len() >= 1);
            }
        },
        None => {},
    }
    assert(found == (Seq::<TagModel>::empty(), pos + 1));
    assert(has_kind(ts, pos + 1, TokenKind::CloseBracket));
    assert(element_at(TagKind::Byte, ts, pos + 1, depth) is None);
    assert(items_at(TagKind::Byte, ts, pos + 1, depth) == (Seq::<TagModel>::empty(), pos + 1));
}

/// The list read at `pos` can come of reading.
#[verifier::rlimit(40)]
proof fn lemma_first_list_sound(ts: Seq<TokenModel>, pos: int, below: nat, k: int)
    requires
        0 <= k <= 12,
        0 <= pos < ts.len(),
        sound_at(ts, pos + 1, below),
        k > 0 ==> list_of(TagKind::Byte, ts, pos, below) is None,
    ensures
        first_list(ts, pos, below, k) matches Some((t, e)) ==> t.kind() == TagKind::List
            && t.readable(below + 1) && pos < e <= ts.len(),
    decreases 12 - k,
{
    if k < 12 {
        let kind = list_order(k);
        let found = items_at(kind, ts, pos + 1, below);
        assert(items_readable(found.0, kind, below));
        match list_of(kind, ts, pos, below) {
            Some((t, e)) => {
                if found.0.len() == 0 && kind != TagKind::Byte {
                    lemma_empty_group(kind, ts, pos, below);
                }
                assert(t == TagModel::List(kind, found.0));
            },
            None => {
                lemma_first_list_sound(ts, pos, below, k + 1);
            },
        }
    }
}

proof fn lemma_value_sound(ts: Seq<TokenModel>, pos: int, depth: nat, k: int)
    requires
        0 <= k <= 12,
        forall|kind: TagKind| #[trigger] element_sound(kind, ts, pos, depth),
    ensures
        first_value(ts, pos, depth, k) matches Some((t, e)) ==> t.readable(depth) && pos < e
            <= ts.len(),
    decreases 12 - k,
{
    if k < 12 {
        let kind = value_order(k);
        assert(element_sound(kind, ts, pos, depth));
        match element_at(kind, ts, pos, depth) {
            Some(_) => {},
            None => {
                lemma_value_sound(ts, pos, depth, k + 1);
            },
        }
    }
}

#[verifier::rlimit(40)]
proof fn lemma_element_sound(ts: Seq<TokenModel>, pos: int, depth: nat)
    requires
        0 <= pos <= ts.len(),
        sound_beyond(ts, pos, depth),
    ensures
        forall|kind: TagKind| #[trigger] element_sound(kind, ts, pos, depth),
{
    if pos < ts.len() {
        assert(sound_at(ts, pos + 1, depth));
        if depth > 0 {
            let below = (depth - 1) as nat;
            assert(sound_at(ts, pos + 1, below));
            lemma_first_list_sound(ts, pos, below, 0);
            let found = members_at(ts, pos + 1, below);
            assert(members_readable(found.0, below));
        }
        assert forall|kind: TagKind| #[trigger] element_sound(kind, ts, pos, depth) by {
            match kind {
                TagKind::ByteArray => {
                    let found = items_at(array_item(kind), ts, pos + 1, depth);
                    assert(pos + 1 <= found.1);
                },
                TagKind::IntArray => {
                    let found = items_at(array_item(kind), ts, pos + 1, depth);
                    assert(pos + 1 <= found.1);
                },
                TagKind::LongArray => {
                    let found = items_at(array_item(kind), ts, pos + 1, depth);
                    assert(pos + 1 <= found.1);
                },
                _ => {},
            }
        }
    }
}

/// Readable items after a readable tag are readable items.
proof fn lemma_joined_readable(
    tag: TagModel,
    rest: (Seq<TagModel>, int),
    kind: TagKind,
    depth: nat,
)
    requires
        tag.kind() == kind,
        tag.readable(depth),
        items_readable(rest.0, kind, depth),
    ensures
        items_readable(joined(seq![tag], rest).0, kind, depth),
{
    let all = joined(seq![tag], rest).0;
    assert forall|i: int| 0 <= i < all.len() implies (#[trigger] all[i]).kind() == kind
        && all[i].readable(depth) by {
        if i > 0 {
            assert(all[i] == rest.0[i - 1]);
        }
    }
}

#[verifier::rlimit(40)]
proof fn lemma_items_sound(ts: Seq<TokenModel>, pos: int, depth: nat)
    requires
        0 <= pos <= ts.len(),
        sound_beyond(ts, pos, depth),
        forall|kind: TagKind| #[trigger] element_sound(kind, ts, pos, depth),
    ensures
        forall|kind: TagKind|
            items_readable((#[trigger] items_at(kind, ts, pos, depth)).0, kind, depth) && pos
                <= items_at(kind, ts, pos, depth).1 <= ts.len(),
        forall|kind: TagKind|
            items_readable((#[trigger] more_items(kind, ts, pos, depth)).0, kind, depth) && pos
                <= more_items(kind, ts, pos, depth).1 <= ts.len(),
{
    assert forall|kind: TagKind|
        items_readable((#[trigger] items_at(kind, ts, pos, depth)).0, kind, depth) && pos
            <= items_at(kind, ts, pos, depth).1 <= ts.len() by {
        assert(element_sound(kind, ts, pos, depth));
        match element_at(kind, ts, pos, depth) {
            Some((tag, end)) => {
                if pos < end <= ts.len() {
                    assert(sound_at(ts, end, depth));
                    let rest = more_items(kind, ts, end, depth);
                    assert(items_readable(rest.0, kind, depth));
                    lemma_joined_readable(tag, rest, kind, depth);
                }
            },
            None => {},
        }
    }
    assert forall|kind: TagKind|
        items_readable((#[trigger] more_items(kind, ts, pos, depth)).0, kind, depth) && pos
            <= more_items(kind, ts, pos, depth).1 <= ts.len() by {
        if has_kind(ts, pos, TokenKind::Comma) {
            assert(sound_at(ts, pos + 1, depth));
            assert(element_sound(kind, ts, pos + 1, depth));
            match element_at(kind, ts, pos + 1, depth) {
                Some((tag, end)) => {
                    if pos + 1 < end <= ts.len() {
                        assert(sound_at(ts, end, depth));
                        let rest = more_items(kind, ts, end, depth);
                        assert(items_readable(rest.0, kind, depth));
                        lemma_joined_readable(tag, rest, kind, depth);
                    }
                },
                None => {},
            }
        }
    }
}

/// Readable members after a readable member are readable members.
proof fn lemma_joined_members_readable(
    member: (Seq<char>, TagModel),
    rest: (Seq<(Seq<char>, TagModel)>, int),
    depth: nat,
)
    requires
        member.1.readable(depth),
        members_readable(rest.0, depth),
    ensures
        members_readable(joined(seq![member], rest).0, depth),
{
    let all = joined(seq![member], rest).0;
    assert forall|i: int| 0 <= i < all.len() implies (#[trigger] all[i]).1.readable(depth) by {
        if i > 0 {
            assert(all[i] == rest.0[i - 1]);
        }
    }
}

#[verifier::rlimit(40)]
proof fn lemma_members_sound(ts: Seq<TokenModel>, pos: int, depth: nat)
    requires
        0 <= pos <= ts.len(),
        sound_beyond(ts, pos, depth),
    ensures
        member_at(ts, pos, depth) matches Some((m, e)) ==> m.1.readable(depth) && pos < e
            <= ts.len(),
        members_readable(members_at(ts, pos, depth).0, depth),
        pos <= members_at(ts, pos, depth).1 <= ts.len(),
        members_readable(more_members(ts, pos, depth).0, depth),
        pos <= more_members(ts, pos, depth).1 <= ts.len(),
{
    if pos < ts.len() && has_kind(ts, pos + 1, TokenKind::Colon) {
        assert(sound_at(ts, pos + 2, depth));
    }
    match member_at(ts, pos, depth) {
        Some((member, end)) => {
            if pos < end <= ts.len() {
                assert(sound_at(ts, end, depth));
                lemma_joined_members_readable(member, more_members(ts, end, depth), depth);
            }
        },
        None => {},
    }
    if has_kind(ts, pos, TokenKind::Comma) {
        assert(sound_at(ts, pos + 1, depth));
        match member_at(ts, pos + 1, depth) {
            Some((member, end)) => {
                if pos + 1 < end <= ts.len() {
                    assert(sound_at(ts, end, depth));
                    lemma_joined_members_readable(member, more_members(ts, end, depth), depth);
                }
            },
            None => {},
        }
    }
}

/// Whatever is read from tokens can come of reading.
pub proof fn lemma_sound_at(ts: Seq<TokenModel>, pos: int, depth: nat)
    requires
        0 <= pos <= ts.len(),
    ensures
        sound_at(ts, pos, depth),
    decreases depth, ts.len() - pos,
{
    assert forall|e: int| pos < e <= ts.len() implies #[trigger] sound_at(ts, e, depth) by {
        lemma_sound_at(ts, e, depth);
    }
    if depth > 0 {
        assert forall|e: int| 0 <= e <= ts.len() implies #[trigger] sound_at(
            ts,
            e,
            (depth - 1) as nat,
        ) by {
            lemma_sound_at(ts, e, (depth - 1) as nat);
        }
    }
    lemma_element_sound(ts, pos, depth);
    lemma_items_sound(ts, pos, depth);
    lemma_members_sound(ts, pos, depth);
    lemma_value_sound(ts, pos, depth, 0);
}

/// Reading is idempotent: the tree that tokens stand for is the tree
/// that its own writing stands for.
pub proof fn lemma_reading_is_idempotent(ts: Seq<TokenModel>)
    ensures
        tree_of(ts) matches Some(t) ==> t.readable(MAX_DEPTH as nat) && tree_of(written(t))
            == Some(t),
{
    lemma_sound_at(ts, 0, MAX_DEPTH as nat);
    match tree_of(ts) {
        Some(t) => {
            lemma_written_tree_reads_back(t);
        },
        None => {},
    }
}

} // verus!

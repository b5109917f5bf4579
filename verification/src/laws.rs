//! What holds of every text and every sequence of tokens.

use vstd::prelude::*;
use crate::chars::{
    CharClass, digit, in_class, lemma_run_end, lemma_run_end_unique, run_end, whitespace,
};
use crate::grammar::{
    array_at, array_item, compound_at, element_at, first_list, first_value, has_kind, items_at,
    leaf, list_at, list_of, list_order, member_at, members_at, more_items, more_members, name_of,
    tree_of, value_at, value_order, MAX_DEPTH,
};
use crate::lexer::{lex, lex_from, token_at, LexError};
use crate::number::{after_sign, integer_of, is_decimal_text, is_integer_text};
use crate::refusals::{element_far, first_value_far, refusal_of};
use crate::report::Failure;
use crate::tag::{TagKind, TagModel};
use crate::token::{DecimalType, IntegerType, TokenKind, TokenModel};
use crate::{outcome_of, Outcome};

verus! {

/// The kind of tag that an integer of width `width` is.
pub open spec fn integer_kind(width: IntegerType) -> TagKind {
    match width {
        IntegerType::Byte => TagKind::Byte,
        IntegerType::Short => TagKind::Short,
        IntegerType::Int => TagKind::Int,
        IntegerType::Long => TagKind::Long,
    }
}

/// The tag that holds the integer `v` at width `width`.
pub open spec fn integer_tag(width: IntegerType, v: int) -> TagModel {
    match width {
        IntegerType::Byte => TagModel::Byte(v as i8),
        IntegerType::Short => TagModel::Short(v as i16),
        IntegerType::Int => TagModel::Int(v as i32),
        IntegerType::Long => TagModel::Long(v as i64),
    }
}

/// The tag that holds the floating literal `text` at precision `width`.
pub open spec fn decimal_tag(width: DecimalType, text: Seq<char>) -> TagModel {
    match width {
        DecimalType::Float => TagModel::Float(text),
        DecimalType::Double => TagModel::Double(text),
    }
}

/// `text` with `suffix` after it, if there is one.
pub open spec fn with_suffix(text: Seq<char>, suffix: Option<char>) -> Seq<char> {
    match suffix {
        Some(c) => text.push(c),
        None => text,
    }
}

/// `true` and `false` are the bytes 1 and 0 where a byte is read, and are
/// refused where a short, an int, a long, a float or a double is read.
pub proof fn lemma_boolean_is_byte_only(ts: Seq<TokenModel>, pos: int, depth: nat, b: bool)
    requires
        0 <= pos < ts.len(),
        ts[pos] == TokenModel::Boolean(b),
    ensures
        element_at(TagKind::Byte, ts, pos, depth) == Some(
            (
                TagModel::Byte(
                    if b {
                        1
                    } else {
                        0
                    },
                ),
                pos + 1,
            ),
        ),
        element_at(TagKind::Short, ts, pos, depth) is None,
        element_at(TagKind::Int, ts, pos, depth) is None,
        element_at(TagKind::Long, ts, pos, depth) is None,
        element_at(TagKind::Float, ts, pos, depth) is None,
        element_at(TagKind::Double, ts, pos, depth) is None,
{
}

/// A bare word and a quoted string of the same text are read alike: as the
/// same tag under every kind, and as the same name of a member.
pub proof fn lemma_quotes_do_not_matter(kind: TagKind, text: Seq<char>)
    ensures
        leaf(kind, TokenModel::Identifier(text)) == leaf(kind, TokenModel::StringLiteral(text)),
        name_of(TokenModel::Identifier(text)) == name_of(TokenModel::StringLiteral(text)),
        leaf(TagKind::String, TokenModel::Identifier(text)) == Some(TagModel::String(text)),
{
}

/// Two tokens that read alike: the same token, or a bare word and a quoted
/// string, in either order, of the same text.
pub open spec fn reads_like(a: TokenModel, b: TokenModel) -> bool {
    a == b || (name_of(a) is Some && name_of(a) == name_of(b))
}

/// Two sequences of tokens that differ at most in how their strings are
/// written.
pub open spec fn read_alike(xs: Seq<TokenModel>, ys: Seq<TokenModel>) -> bool {
    &&& xs.len() == ys.len()
    &&& forall|i: int| 0 <= i < xs.len() ==> reads_like(#[trigger] xs[i], ys[i])
}

/// Tokens that read alike are of the same kind, unless they are strings.
proof fn lemma_alike_kinds(xs: Seq<TokenModel>, ys: Seq<TokenModel>)
    requires
        read_alike(xs, ys),
    ensures
        forall|p: int, kind: TokenKind|
            kind != TokenKind::Identifier && kind != TokenKind::StringLiteral ==> (
            #[trigger] has_kind(xs, p, kind)) == has_kind(ys, p, kind),
        forall|p: int, kind: TagKind|
            0 <= p < xs.len() ==> #[trigger] leaf(kind, xs[p]) == leaf(kind, ys[p]),
        forall|p: int| 0 <= p < xs.len() ==> name_of(#[trigger] xs[p]) == name_of(ys[p]),
{
    assert forall|p: int, kind: TokenKind|
        kind != TokenKind::Identifier && kind != TokenKind::StringLiteral implies (
    #[trigger] has_kind(xs, p, kind)) == has_kind(ys, p, kind) by {
        if 0 <= p < xs.len() {
            assert(reads_like(xs[p], ys[p]));
        }
    }
    assert forall|p: int, kind: TagKind| 0 <= p < xs.len() implies #[trigger] leaf(kind, xs[p])
        == leaf(kind, ys[p]) by {
        assert(reads_like(xs[p], ys[p]));
    }
    assert forall|p: int| 0 <= p < xs.len() implies name_of(#[trigger] xs[p]) == name_of(
        ys[p],
    ) by {
        assert(reads_like(xs[p], ys[p]));
    }
}

/// Where every kind of list reads the same, so does the first that reads.
proof fn lemma_first_list_alike(
    xs: Seq<TokenModel>,
    ys: Seq<TokenModel>,
    pos: int,
    depth: nat,
    k: int,
)
    requires
        forall|kind: TagKind|
            (#[trigger] list_of(kind, xs, pos, depth)) == list_of(kind, ys, pos, depth),
        xs.len() == ys.len(),
    ensures
        first_list(xs, pos, depth, k) == first_list(ys, pos, depth, k),
    decreases 12 - k,
{
    if 0 <= k < 12 {
        assert(list_of(list_order(k), xs, pos, depth) == list_of(list_order(k), ys, pos, depth));
        lemma_first_list_alike(xs, ys, pos, depth, k + 1);
    }
}

/// Where every kind of value reads the same, so does the first that reads.
proof fn lemma_first_value_alike(
    xs: Seq<TokenModel>,
    ys: Seq<TokenModel>,
    pos: int,
    depth: nat,
    k: int,
)
    requires
        forall|kind: TagKind|
            (#[trigger] element_at(kind, xs, pos, depth)) == element_at(kind, ys, pos, depth),
        xs.len() == ys.len(),
    ensures
        first_value(xs, pos, depth, k) == first_value(ys, pos, depth, k),
    decreases 12 - k,
{
    if 0 <= k < 12 {
        assert(element_at(value_order(k), xs, pos, depth) == element_at(
            value_order(k),
            ys,
            pos,
            depth,
        ));
        lemma_first_value_alike(xs, ys, pos, depth, k + 1);
    }
}

/// Every production that starts at `pos` reads the same from `xs` and
/// from `ys`.
pub open spec fn alike_at(xs: Seq<TokenModel>, ys: Seq<TokenModel>, pos: int, depth: nat) -> bool {
    &&& forall|kind: TagKind|
        (#[trigger] element_at(kind, xs, pos, depth)) == element_at(kind, ys, pos, depth)
    &&& forall|kind: TagKind|
        (#[trigger] items_at(kind, xs, pos, depth)) == items_at(kind, ys, pos, depth)
    &&& forall|kind: TagKind|
        (#[trigger] more_items(kind, xs, pos, depth)) == more_items(kind, ys, pos, depth)
    &&& member_at(xs, pos, depth) == member_at(ys, pos, depth)
    &&& members_at(xs, pos, depth) == members_at(ys, pos, depth)
    &&& more_members(xs, pos, depth) == more_members(ys, pos, depth)
    &&& value_at(xs, pos, depth) == value_at(ys, pos, depth)
}

/// What is known when `alike_at` is to be shown at `pos`: that it holds
/// further along, and everywhere one level further down.
spec fn alike_beyond(xs: Seq<TokenModel>, ys: Seq<TokenModel>, pos: int, depth: nat) -> bool {
    &&& forall|e: int| pos < e <= xs.len() ==> #[trigger] alike_at(xs, ys, e, depth)
    &&& depth > 0 ==> forall|e: int|
        0 <= e <= xs.len() ==> #[trigger] alike_at(xs, ys, e, (depth - 1) as nat)
}

#[verifier::rlimit(40)]
proof fn lemma_alike_element(xs: Seq<TokenModel>, ys: Seq<TokenModel>, pos: int, depth: nat)
    requires
        read_alike(xs, ys),
        0 <= pos <= xs.len(),
        alike_beyond(xs, ys, pos, depth),
    ensures
        forall|kind: TagKind|
            (#[trigger] element_at(kind, xs, pos, depth)) == element_at(kind, ys, pos, depth),
{
    lemma_alike_kinds(xs, ys);
    if pos < xs.len() {
        assert(alike_at(xs, ys, pos + 1, depth));
        if depth > 0 {
            let below = (depth - 1) as nat;
            assert(alike_at(xs, ys, pos + 1, below));
            assert forall|kind: TagKind|
                (#[trigger] list_of(kind, xs, pos, below)) == list_of(kind, ys, pos, below) by {
                assert(items_at(kind, xs, pos + 1, below) == items_at(kind, ys, pos + 1, below));
            }
            lemma_first_list_alike(xs, ys, pos, below, 0);
            assert(members_at(xs, pos + 1, below) == members_at(ys, pos + 1, below));
        }
        assert(list_at(xs, pos, depth) == list_at(ys, pos, depth));
        assert(compound_at(xs, pos, depth) == compound_at(ys, pos, depth));
        assert forall|kind: TagKind|
            (#[trigger] array_at(kind, xs, pos, depth)) == array_at(kind, ys, pos, depth) by {
            assert(items_at(array_item(kind), xs, pos + 1, depth) == items_at(
                array_item(kind),
                ys,
                pos + 1,
                depth,
            ));
        }
        assert forall|kind: TagKind|
            (#[trigger] element_at(kind, xs, pos, depth)) == element_at(kind, ys, pos, depth) by {
            assert(array_at(kind, xs, pos, depth) == array_at(kind, ys, pos, depth));
            assert(leaf(kind, xs[pos]) == leaf(kind, ys[pos]));
        }
    }
}

#[verifier::rlimit(40)]
proof fn lemma_alike_items(xs: Seq<TokenModel>, ys: Seq<TokenModel>, pos: int, depth: nat)
    requires
        read_alike(xs, ys),
        0 <= pos <= xs.len(),
        alike_beyond(xs, ys, pos, depth),
        forall|kind: TagKind|
            (#[trigger] element_at(kind, xs, pos, depth)) == element_at(kind, ys, pos, depth),
    ensures
        forall|kind: TagKind|
            (#[trigger] items_at(kind, xs, pos, depth)) == items_at(kind, ys, pos, depth),
        forall|kind: TagKind|
            (#[trigger] more_items(kind, xs, pos, depth)) == more_items(kind, ys, pos, depth),
{
    lemma_alike_kinds(xs, ys);
    assert forall|kind: TagKind|
        (#[trigger] items_at(kind, xs, pos, depth)) == items_at(kind, ys, pos, depth) by {
        match element_at(kind, xs, pos, depth) {
            Some((_, end)) => {
                if pos < end <= xs.len() {
                    assert(alike_at(xs, ys, end, depth));
                    assert(more_items(kind, xs, end, depth) == more_items(kind, ys, end, depth));
                }
            },
            None => {},
        }
    }
    assert forall|kind: TagKind|
        (#[trigger] more_items(kind, xs, pos, depth)) == more_items(kind, ys, pos, depth) by {
        if has_kind(xs, pos, TokenKind::Comma) {
            assert(alike_at(xs, ys, pos + 1, depth));
            assert(element_at(kind, xs, pos + 1, depth) == element_at(kind, ys, pos + 1, depth));
            match element_at(kind, xs, pos + 1, depth) {
                Some((_, end)) => {
                    if pos + 1 < end <= xs.len() {
                        assert(alike_at(xs, ys, end, depth));
                        assert(more_items(kind, xs, end, depth) == more_items(
                            kind,
                            ys,
                            end,
                            depth,
                        ));
                    }
                },
                None => {},
            }
        }
    }
}

#[verifier::rlimit(40)]
proof fn lemma_alike_members(xs: Seq<TokenModel>, ys: Seq<TokenModel>, pos: int, depth: nat)
    requires
        read_alike(xs, ys),
        0 <= pos <= xs.len(),
        alike_beyond(xs, ys, pos, depth),
    ensures
        member_at(xs, pos, depth) == member_at(ys, pos, depth),
        members_at(xs, pos, depth) == members_at(ys, pos, depth),
        more_members(xs, pos, depth) == more_members(ys, pos, depth),
{
    lemma_alike_kinds(xs, ys);
    if pos < xs.len() && has_kind(xs, pos + 1, TokenKind::Colon) {
        assert(alike_at(xs, ys, pos + 2, depth));
    }
    assert(member_at(xs, pos, depth) == member_at(ys, pos, depth));
    match member_at(xs, pos, depth) {
        Some((_, end)) => {
            if pos < end <= xs.len() {
                assert(alike_at(xs, ys, end, depth));
            }
        },
        None => {},
    }
    if has_kind(xs, pos, TokenKind::Comma) {
        assert(alike_at(xs, ys, pos + 1, depth));
        match member_at(xs, pos + 1, depth) {
            Some((_, end)) => {
                if pos + 1 < end <= xs.len() {
                    assert(alike_at(xs, ys, end, depth));
                }
            },
            None => {},
        }
    }
}

/// Every production reads the same from two sequences of tokens that read
/// alike.
pub proof fn lemma_alike_at(xs: Seq<TokenModel>, ys: Seq<TokenModel>, pos: int, depth: nat)
    requires
        read_alike(xs, ys),
        0 <= pos <= xs.len(),
    ensures
        alike_at(xs, ys, pos, depth),
    decreases depth, xs.len() - pos,
{
    assert forall|e: int| pos < e <= xs.len() implies #[trigger] alike_at(xs, ys, e, depth) by {
        lemma_alike_at(xs, ys, e, depth);
    }
    if depth > 0 {
        assert forall|e: int| 0 <= e <= xs.len() implies #[trigger] alike_at(
            xs,
            ys,
            e,
            (depth - 1) as nat,
        ) by {
            lemma_alike_at(xs, ys, e, (depth - 1) as nat);
        }
    }
    lemma_alike_element(xs, ys, pos, depth);
    lemma_alike_items(xs, ys, pos, depth);
    lemma_alike_members(xs, ys, pos, depth);
    lemma_first_value_alike(xs, ys, pos, depth, 0);
}

/// Quoting is surface only: two sequences of tokens that differ at most in
/// whether a string is a bare word or stands in quotes make the same tree,
/// or both make none.
pub proof fn lemma_quotes_do_not_matter_anywhere(xs: Seq<TokenModel>, ys: Seq<TokenModel>)
    requires
        read_alike(xs, ys),
    ensures
        tree_of(xs) == tree_of(ys),
{
    lemma_alike_at(xs, ys, 0, MAX_DEPTH as nat);
}

/// A text that is one token and starts with no whitespace scans to that
/// token alone.
pub proof fn lemma_lex_single(s: Seq<char>, token: TokenModel)
    requires
        s.len() > 0,
        !whitespace(s[0]),
        token_at(s, 0) == Some((token, s.len() as int)),
    ensures
        lex(s) == Ok::<Seq<TokenModel>, LexError>(seq![token]),
{
    assert(run_end(s, 0, CharClass::Whitespace) == 0);
    assert(run_end(s, s.len() as int, CharClass::Whitespace) == s.len());
    assert(token_at(s, s.len() as int) is None);
    let rest = lex_from(s, s.len() as int);
    assert(rest == (Seq::<TokenModel>::empty(), s.len() as int));
    assert(seq![token] + rest.0 == seq![token]);
    assert(lex_from(s, 0) == (seq![token], s.len() as int));
}

/// An integer literal, with or without a width letter, is one integer
/// token whose text is the sign and digits.
pub proof fn lemma_integer_token(d: Seq<char>, suffix: Option<char>)
    requires
        is_integer_text(d),
        IntegerType::of_suffix(suffix) is Some,
    ensures
        !whitespace(with_suffix(d, suffix)[0]),
        token_at(with_suffix(d, suffix), 0) == Some(
            (
                TokenModel::Integer(d, IntegerType::of_suffix(suffix)->0),
                with_suffix(d, suffix).len() as int,
            ),
        ),
{
    let text = with_suffix(d, suffix);
    let q = after_sign(d, 0);
    lemma_run_end(d, q, CharClass::Digit);
    assert(after_sign(text, 0) == q);
    assert forall|j: int| q <= j < d.len() implies in_class(
        CharClass::Digit,
        #[trigger] text[j],
    ) by {
        assert(text[j] == d[j]);
    }
    lemma_run_end_unique(text, q, CharClass::Digit, d.len() as int);
    assert(text.subrange(0, d.len() as int) == d);
    assert(text[0] == d[0]);
    assert(digit(d[q]));
}

/// A value is read under the first kind, in value order, that reads at
/// all: the kinds before it do not matter.
pub proof fn lemma_first_value_skips(ts: Seq<TokenModel>, pos: int, depth: nat, k: int)
    requires
        0 <= k <= 12,
        forall|j: int| 0 <= j < k ==> element_at(value_order(j), ts, pos, depth) is None,
    ensures
        value_at(ts, pos, depth) == first_value(ts, pos, depth, k),
    decreases k,
{
    if k > 0 {
        lemma_first_value_skips(ts, pos, depth, k - 1);
    }
}

/// A sequence of one token reads, if at all, under a kind that is written
/// as one token, and then as the tag of that token.
pub proof fn lemma_single_token(token: TokenModel, kind: TagKind, depth: nat)
    ensures
        element_at(kind, seq![token], 0, depth) == match kind {
            TagKind::List => None,
            TagKind::Compound => None,
            TagKind::ByteArray => None,
            TagKind::IntArray => None,
            TagKind::LongArray => None,
            _ => match leaf(kind, token) {
                Some(tag) => Some((tag, 1int)),
                None => None,
            },
        },
{
    let ts = seq![token];
    assert(ts[0] == token);
    match kind {
        TagKind::List => {
            if has_kind(ts, 0, TokenKind::OpenBracket) && depth > 0 {
                lemma_single_bracket(token, (depth - 1) as nat, 0);
            }
        },
        TagKind::Compound => {},
        TagKind::ByteArray => {},
        TagKind::IntArray => {},
        TagKind::LongArray => {},
        _ => {},
    }
}

/// A lone `[` is no list.
proof fn lemma_single_bracket(token: TokenModel, depth: nat, k: int)
    requires
        0 <= k <= 12,
    ensures
        first_list(seq![token], 0, depth, k) is None,
    decreases 12 - k,
{
    let ts = seq![token];
    if k < 12 {
        let kind = list_order(k);
        assert(element_at(kind, ts, 1, depth) is None);
        assert(items_at(kind, ts, 1, depth) == (Seq::<TagModel>::empty(), 1int));
        assert(list_of(kind, ts, 0, depth) is None);
        lemma_single_bracket(token, depth, k + 1);
    }
}

/// The place of an integer kind in value order.
spec fn integer_place(width: IntegerType) -> int {
    match width {
        IntegerType::Byte => 2,
        IntegerType::Short => 3,
        IntegerType::Int => 4,
        IntegerType::Long => 5,
    }
}

/// While the value kinds are tried on one integer token that is no valid
/// number, the memory of refusals stays at that token and, from the
/// token's own kind on, holds that the number is invalid.
proof fn lemma_invalid_integer_far(d: Seq<char>, width: IntegerType, k: int, far: Failure)
    requires
        0 <= k <= 12,
        integer_of(d, width) is None,
        far.position == 0,
        k > integer_place(width) ==> far.invalid_number,
    ensures
        first_value_far(seq![TokenModel::Integer(d, width)], 0, MAX_DEPTH as nat, k, far).position
            == 0,
        first_value_far(
            seq![TokenModel::Integer(d, width)],
            0,
            MAX_DEPTH as nat,
            k,
            far,
        ).invalid_number,
    decreases 12 - k,
{
    let token = TokenModel::Integer(d, width);
    let ts = seq![token];
    let depth = MAX_DEPTH as nat;
    if k < 12 {
        let kind = value_order(k);
        lemma_single_token(token, kind, depth);
        assert(ts[0] == token);
        let far1 = element_far(kind, ts, 0, depth, far);
        assert(element_at(kind, ts, 0, depth) is None);
        assert(far1.position == 0);
        assert(far.invalid_number ==> far1.invalid_number);
        assert(k == integer_place(width) ==> far1.invalid_number);
        lemma_invalid_integer_far(d, width, k + 1, far1);
    }
}

/// What one integer token reads as: the integer of its width if its text
/// is a number within the width's range, and else nothing, with the token
/// reported as an invalid number.
pub proof fn lemma_integer_value(d: Seq<char>, width: IntegerType)
    ensures
        tree_of(seq![TokenModel::Integer(d, width)]) == match integer_of(d, width) {
            Some(v) => Some(integer_tag(width, v)),
            None => None,
        },
        integer_of(d, width) is None ==> refusal_of(seq![TokenModel::Integer(d, width)]).position
            == 0 && refusal_of(seq![TokenModel::Integer(d, width)]).invalid_number,
{
    let token = TokenModel::Integer(d, width);
    let ts = seq![token];
    let depth = MAX_DEPTH as nat;
    assert forall|kind: TagKind|
        element_at(kind, ts, 0, depth) is Some implies kind == integer_kind(width)
        && integer_of(d, width) is Some by {
        lemma_single_token(token, kind, depth);
    }
    lemma_single_token(token, integer_kind(width), depth);
    if integer_of(d, width) is Some {
        lemma_first_value_skips(ts, 0, depth, integer_place(width));
    } else {
        lemma_first_value_skips(ts, 0, depth, 12);
        lemma_invalid_integer_far(d, width, 0, Failure::start());
    }
}

/// A sign, digits and a width letter, or none, read as the integer of that
/// width that the digits denote, whatever their count; and where that
/// number does not fit the width, as an invalid number, never as another
/// number.
pub proof fn lemma_integer_literal(d: Seq<char>, suffix: Option<char>)
    requires
        is_integer_text(d),
        IntegerType::of_suffix(suffix) is Some,
    ensures
        match integer_of(d, IntegerType::of_suffix(suffix)->0) {
            Some(v) => outcome_of(with_suffix(d, suffix)) == Outcome::Tree(
                integer_tag(IntegerType::of_suffix(suffix)->0, v),
            ),
            None => outcome_of(with_suffix(d, suffix)) matches Outcome::Unbuilt(failure)
                && failure.position == 0 && failure.invalid_number,
        },
{
    let width = IntegerType::of_suffix(suffix)->0;
    lemma_integer_token(d, suffix);
    lemma_lex_single(with_suffix(d, suffix), TokenModel::Integer(d, width));
    lemma_integer_value(d, width);
}

/// A floating literal, with or without a precision letter, is one decimal
/// token whose text is the literal without the letter.  A literal without
/// a point needs the letter to be one.
pub proof fn lemma_decimal_token(t: Seq<char>, suffix: Option<char>)
    requires
        is_decimal_text(t),
        DecimalType::of_suffix(suffix) is Some,
        suffix is None ==> run_end(t, after_sign(t, 0), CharClass::Digit) < t.len(),
    ensures
        !whitespace(with_suffix(t, suffix)[0]),
        token_at(with_suffix(t, suffix), 0) == Some(
            (
                TokenModel::Decimal(t, DecimalType::of_suffix(suffix)->0),
                with_suffix(t, suffix).len() as int,
            ),
        ),
{
    let text = with_suffix(t, suffix);
    let q = after_sign(t, 0);
    let e = run_end(t, q, CharClass::Digit);
    lemma_run_end(t, q, CharClass::Digit);
    assert(after_sign(text, 0) == q);
    assert(text[0] == t[0]);
    assert(digit(t[q]));
    assert forall|j: int| 0 <= j < t.len() implies text[j] == t[j] by {}
    assert forall|j: int| q <= j < e implies in_class(CharClass::Digit, #[trigger] text[j]) by {
        assert(text[j] == t[j]);
    }
    lemma_run_end_unique(text, q, CharClass::Digit, e);
    assert(text.subrange(0, t.len() as int) == t);
    if e < t.len() {
        lemma_run_end(t, e + 1, CharClass::Digit);
        assert forall|j: int| e + 1 <= j < t.len() implies in_class(
            CharClass::Digit,
            #[trigger] text[j],
        ) by {
            assert(text[j] == t[j]);
        }
        lemma_run_end_unique(text, e + 1, CharClass::Digit, t.len() as int);
        assert(digit(text[e + 1]));
    }
}

/// What one decimal token with well-formed text reads as: the float or
/// double that holds that text.
pub proof fn lemma_decimal_value(t: Seq<char>, width: DecimalType)
    requires
        is_decimal_text(t),
    ensures
        tree_of(seq![TokenModel::Decimal(t, width)]) == Some(decimal_tag(width, t)),
{
    let token = TokenModel::Decimal(t, width);
    let ts = seq![token];
    let depth = MAX_DEPTH as nat;
    assert forall|kind: TagKind|
        element_at(kind, ts, 0, depth) is Some implies kind == decimal_tag(width, t).kind() by {
        lemma_single_token(token, kind, depth);
    }
    lemma_single_token(token, decimal_tag(width, t).kind(), depth);
    match width {
        DecimalType::Float => lemma_first_value_skips(ts, 0, depth, 6),
        DecimalType::Double => lemma_first_value_skips(ts, 0, depth, 7),
    }
}

/// A number with a fraction, or with the letter of a precision after it,
/// reads as the float or double that holds the number as it was written:
/// sign, digits and fraction, unchanged.
pub proof fn lemma_decimal_literal(t: Seq<char>, suffix: Option<char>)
    requires
        is_decimal_text(t),
        DecimalType::of_suffix(suffix) is Some,
        suffix is None ==> run_end(t, after_sign(t, 0), CharClass::Digit) < t.len(),
    ensures
        outcome_of(with_suffix(t, suffix)) == Outcome::Tree(
            decimal_tag(DecimalType::of_suffix(suffix)->0, t),
        ),
{
    let width = DecimalType::of_suffix(suffix)->0;
    lemma_decimal_token(t, suffix);
    lemma_lex_single(with_suffix(t, suffix), TokenModel::Decimal(t, width));
    lemma_decimal_value(t, width);
}

} // verus!

//! Writing tokens, and so trees, down as text, and reading the text back.
//!
//! [`spelled`] gives the text of a token and [`text_of`] the text of a
//! tree: the tokens that write it, a space between neighbours.  Reading
//! that text gives the tree back, for every tree that reading can give.

use vstd::prelude::*;
use crate::chars::{
    CharClass, digit, in_class, lemma_run_end, lemma_run_end_unique, run_end, whitespace,
};
use crate::lexer::{lex, lex_from, string_body, token_at, LexError};
use crate::grammar::{tree_of, MAX_DEPTH};
use crate::number::{after_sign, is_decimal_text, is_integer_text};
use crate::rendering::{
    byte_tags, int_tags, lemma_number_text, lemma_reading_is_idempotent, lemma_stands_split,
    lemma_stands_token, lemma_written_opens, lemma_written_tree_reads_back, long_tags, stands_at,
    written, written_flat, written_items, written_leaf, written_member, written_members,
};
use crate::tag::TagModel;
use crate::token::{ArrayType, DecimalType, IntegerType, TokenModel};
use crate::{outcome_of, Outcome};

verus! {

/// The letter that marks an integer of width `width`, if it has one.
pub open spec fn integer_mark(width: IntegerType) -> Seq<char> {
    match width {
        IntegerType::Byte => seq!['b'],
        IntegerType::Short => seq!['s'],
        IntegerType::Int => Seq::empty(),
        IntegerType::Long => seq!['l'],
    }
}

/// The letter that marks a floating literal of precision `width`.
pub open spec fn decimal_mark(width: DecimalType) -> Seq<char> {
    match width {
        DecimalType::Float => seq!['f'],
        DecimalType::Double => seq!['d'],
    }
}

/// The content of a string as it stands between double quotes: a
/// backslash before every double quote and every backslash.
pub open spec fn escaped(text: Seq<char>) -> Seq<char>
    decreases text.len(),
{
    if text.len() == 0 {
        Seq::empty()
    } else if text[0] == '"' || text[0] == '\\' {
        seq!['\\', text[0]] + escaped(text.drop_first())
    } else {
        seq![text[0]] + escaped(text.drop_first())
    }
}

/// The text of a token.
pub open spec fn spelled(token: TokenModel) -> Seq<char> {
    match token {
        TokenModel::Comma => seq![','],
        TokenModel::Colon => seq![':'],
        TokenModel::ArrayStart(ArrayType::Byte) => seq!['[', 'B', ';'],
        TokenModel::ArrayStart(ArrayType::Int) => seq!['[', 'I', ';'],
        TokenModel::ArrayStart(ArrayType::Long) => seq!['[', 'L', ';'],
        TokenModel::OpenBracket => seq!['['],
        TokenModel::CloseBracket => seq![']'],
        TokenModel::OpenBrace => seq!['{'],
        TokenModel::CloseBrace => seq!['}'],
        TokenModel::Boolean(true) => seq!['t', 'r', 'u', 'e'],
        TokenModel::Boolean(false) => seq!['f', 'a', 'l', 's', 'e'],
        TokenModel::Integer(text, width) => text + integer_mark(width),
        TokenModel::Decimal(text, width) => text + decimal_mark(width),
        TokenModel::Identifier(text) => text,
        TokenModel::StringLiteral(text) => seq!['"'] + escaped(text) + seq!['"'],
    }
}

/// A token whose text is read back as the token itself wherever a space
/// or the end of the text follows it: punctuation, the opening of an
/// array, a number with well-formed text, a quoted string.
pub open spec fn plain(token: TokenModel) -> bool {
    match token {
        TokenModel::Boolean(_) => false,
        TokenModel::Identifier(_) => false,
        TokenModel::Integer(text, _) => is_integer_text(text),
        TokenModel::Decimal(text, _) => is_decimal_text(text),
        _ => true,
    }
}

/// The text ends at `e`, or a space stands there.
pub open spec fn ends_at(s: Seq<char>, e: int) -> bool {
    e == s.len() || (0 <= e < s.len() && s[e] == ' ')
}

/// A run of one class in `text` is the same run where `text` stands in a
/// longer text, if it ends within `text` or what follows `text` is not of
/// the class.
pub proof fn lemma_run_stands(
    text: Seq<char>,
    from: int,
    s: Seq<char>,
    pos: int,
    class: CharClass,
)
    requires
        stands_at(s, pos, text),
        0 <= from <= text.len(),
        run_end(text, from, class) == text.len() ==> pos + text.len() == s.len() || !in_class(
            class,
            s[pos + text.len()],
        ),
    ensures
        run_end(s, pos + from, class) == pos + run_end(text, from, class),
{
    let end = run_end(text, from, class);
    lemma_run_end(text, from, class);
    assert forall|k: int| pos + from <= k < pos + end implies in_class(class, #[trigger] s[k]) by {
        lemma_stands_token(s, pos, text, k - pos);
        assert(in_class(class, text[k - pos]));
    }
    if end < text.len() {
        lemma_stands_token(s, pos, text, end);
    }
    lemma_run_end_unique(s, pos + from, class, pos + end);
}

/// The text of an integer token is read back as the token.
#[verifier::rlimit(40)]
pub proof fn lemma_integer_spelled(text: Seq<char>, width: IntegerType, s: Seq<char>, pos: int)
    requires
        is_integer_text(text),
        stands_at(s, pos, text + integer_mark(width)),
        ends_at(s, pos + text.len() + integer_mark(width).len()),
    ensures
        token_at(s, pos) == Some(
            (TokenModel::Integer(text, width), pos + text.len() + integer_mark(width).len()),
        ),
        !whitespace(s[pos]),
{
    let mark = integer_mark(width);
    lemma_stands_split(s, pos, text, mark);
    let q = after_sign(text, 0);
    lemma_run_end(text, q, CharClass::Digit);
    lemma_stands_token(s, pos, text, 0);
    lemma_stands_token(s, pos, text, q);
    assert(digit(text[q]));
    assert(after_sign(s, pos) == pos + q);
    if mark.len() > 0 {
        lemma_stands_token(s, pos + text.len(), mark, 0);
    }
    lemma_run_stands(text, q, s, pos, CharClass::Digit);
    assert(s.subrange(pos, pos + text.len()) == text);
}

/// The text of a decimal token is read back as the token.
#[verifier::rlimit(40)]
pub proof fn lemma_decimal_spelled(text: Seq<char>, width: DecimalType, s: Seq<char>, pos: int)
    requires
        is_decimal_text(text),
        stands_at(s, pos, text + decimal_mark(width)),
        ends_at(s, pos + text.len() + 1),
    ensures
        token_at(s, pos) == Some((TokenModel::Decimal(text, width), pos + text.len() + 1)),
        !whitespace(s[pos]),
{
    let mark = decimal_mark(width);
    lemma_stands_split(s, pos, text, mark);
    let q = after_sign(text, 0);
    let e = run_end(text, q, CharClass::Digit);
    lemma_run_end(text, q, CharClass::Digit);
    lemma_stands_token(s, pos, text, 0);
    lemma_stands_token(s, pos, text, q);
    assert(digit(text[q]));
    assert(after_sign(s, pos) == pos + q);
    lemma_stands_token(s, pos + text.len(), mark, 0);
    lemma_run_stands(text, q, s, pos, CharClass::Digit);
    assert(s.subrange(pos, pos + text.len()) == text);
    if e < text.len() {
        lemma_stands_token(s, pos, text, e);
        lemma_stands_token(s, pos, text, e + 1);
        lemma_run_end(text, e + 1, CharClass::Digit);
        lemma_run_stands(text, e + 1, s, pos, CharClass::Digit);
        assert(digit(text[e + 1]));
    }
}

/// What stands between double quotes, escaped, is read back as it was
/// before escaping.
pub proof fn lemma_string_body_escaped(text: Seq<char>, s: Seq<char>, i: int)
    requires
        stands_at(s, i, escaped(text) + seq!['"']),
    ensures
        string_body(s, i, '"') == Some((text, i + escaped(text).len() + 1)),
    decreases text.len(),
{
    let whole = escaped(text) + seq!['"'];
    if text.len() == 0 {
        lemma_stands_token(s, i, whole, 0);
        assert(text == Seq::<char>::empty());
    } else {
        let rest = text.drop_first();
        let tail = escaped(rest) + seq!['"'];
        if text[0] == '"' || text[0] == '\\' {
            assert(whole == seq!['\\', text[0]] + tail);
            lemma_stands_split(s, i, seq!['\\', text[0]], tail);
            lemma_stands_token(s, i, seq!['\\', text[0]], 0);
            lemma_stands_token(s, i, seq!['\\', text[0]], 1);
            lemma_string_body_escaped(rest, s, i + 2);
            assert(seq![text[0]] + rest == text);
        } else {
            assert(whole == seq![text[0]] + tail);
            lemma_stands_split(s, i, seq![text[0]], tail);
            lemma_stands_token(s, i, seq![text[0]], 0);
            lemma_string_body_escaped(rest, s, i + 1);
            assert(seq![text[0]] + rest == text);
        }
    }
}

/// The text of a quoted string is read back as the string.
pub proof fn lemma_string_spelled(text: Seq<char>, s: Seq<char>, pos: int)
    requires
        stands_at(s, pos, seq!['"'] + escaped(text) + seq!['"']),
    ensures
        token_at(s, pos) == Some(
            (TokenModel::StringLiteral(text), pos + escaped(text).len() + 2),
        ),
        !whitespace(s[pos]),
{
    let open = seq!['"'];
    let inner = escaped(text) + seq!['"'];
    assert(open + escaped(text) + seq!['"'] == open + inner);
    lemma_stands_split(s, pos, open, inner);
    lemma_stands_token(s, pos, open, 0);
    lemma_string_body_escaped(text, s, pos + 1);
    assert(run_end(s, pos, CharClass::Digit) == pos);
    assert(run_end(s, pos, CharClass::Ident) == pos);
}

/// The text of a plain token, followed by a space or by the end of the
/// text, is read back as the token.
#[verifier::rlimit(40)]
pub proof fn lemma_token_spelled(token: TokenModel, s: Seq<char>, pos: int)
    requires
        plain(token),
        stands_at(s, pos, spelled(token)),
        ends_at(s, pos + spelled(token).len()),
    ensures
        spelled(token).len() >= 1,
        token_at(s, pos) == Some((token, pos + spelled(token).len())),
        !whitespace(s[pos]),
{
    let w = spelled(token);
    match token {
        TokenModel::Integer(text, width) => {
            lemma_integer_spelled(text, width, s, pos);
        },
        TokenModel::Decimal(text, width) => {
            lemma_decimal_spelled(text, width, s, pos);
        },
        TokenModel::StringLiteral(text) => {
            lemma_string_spelled(text, s, pos);
        },
        TokenModel::ArrayStart(_) => {
            lemma_stands_token(s, pos, w, 0);
            lemma_stands_token(s, pos, w, 1);
            lemma_stands_token(s, pos, w, 2);
        },
        _ => {
            lemma_stands_token(s, pos, w, 0);
        },
    }
}

/// The text of the tokens from the `i`th on, a space between neighbours.
pub open spec fn spelled_from(ts: Seq<TokenModel>, i: int) -> Seq<char>
    decreases ts.len() - i,
{
    if i < 0 || i >= ts.len() {
        Seq::empty()
    } else if i + 1 == ts.len() {
        spelled(ts[i])
    } else {
        spelled(ts[i]) + seq![' '] + spelled_from(ts, i + 1)
    }
}

/// The text that writes a tree.
pub open spec fn text_of(t: TagModel) -> Seq<char> {
    spelled_from(written(t), 0)
}

/// Every token of the run is plain.
pub open spec fn all_plain(w: Seq<TokenModel>) -> bool {
    forall|j: int| 0 <= j < w.len() ==> plain(#[trigger] w[j])
}

/// Plain tokens that stand as text to the end of `s` are scanned from
/// that text, and nothing else is.
#[verifier::rlimit(40)]
pub proof fn lemma_lex_spelled(ts: Seq<TokenModel>, i: int, s: Seq<char>, pos: int)
    requires
        0 <= i < ts.len(),
        all_plain(ts),
        stands_at(s, pos, spelled_from(ts, i)),
        pos + spelled_from(ts, i).len() == s.len(),
    ensures
        !whitespace(s[pos]),
        pos < s.len(),
        lex_from(s, pos) == (ts.skip(i), s.len() as int),
    decreases ts.len() - i,
{
    let one = spelled(ts[i]);
    assert(plain(ts[i]));
    if i + 1 == ts.len() {
        lemma_token_spelled(ts[i], s, pos);
        assert(run_end(s, pos, CharClass::Whitespace) == pos);
        assert(run_end(s, s.len() as int, CharClass::Whitespace) == s.len());
        assert(token_at(s, s.len() as int) is None);
        let rest = lex_from(s, s.len() as int);
        assert(rest == (Seq::<TokenModel>::empty(), s.len() as int));
        assert(seq![ts[i]] + rest.0 == ts.skip(i));
    } else {
        let space = seq![' '];
        let more = spelled_from(ts, i + 1);
        assert(spelled_from(ts, i) == one + space + more);
        lemma_stands_split(s, pos, one + space, more);
        lemma_stands_split(s, pos, one, space);
        lemma_stands_token(s, pos + one.len(), space, 0);
        lemma_token_spelled(ts[i], s, pos);
        let gap = pos + one.len();
        let next = gap + 1;
        lemma_lex_spelled(ts, i + 1, s, next);
        assert(run_end(s, pos, CharClass::Whitespace) == pos);
        assert(run_end(s, next, CharClass::Whitespace) == next);
        assert(run_end(s, gap, CharClass::Whitespace) == next);
        assert(lex_from(s, gap) == lex_from(s, next));
        let rest = lex_from(s, gap);
        assert(seq![ts[i]] + rest.0 == ts.skip(i));
    }
}

/// Plain tokens, at least one, are scanned from their text.
pub proof fn lemma_tokens_read_back(ts: Seq<TokenModel>)
    requires
        ts.len() >= 1,
        all_plain(ts),
    ensures
        lex(spelled_from(ts, 0)) == Ok::<Seq<TokenModel>, LexError>(ts),
{
    let s = spelled_from(ts, 0);
    assert(s.subrange(0, s.len() as int) == s);
    lemma_lex_spelled(ts, 0, s, 0);
    assert(ts.skip(0) == ts);
}

/// Plain tokens after plain tokens are plain tokens.
pub proof fn lemma_all_plain_join(a: Seq<TokenModel>, b: Seq<TokenModel>)
    requires
        all_plain(a),
        all_plain(b),
    ensures
        all_plain(a + b),
{
    let w = a + b;
    assert forall|j: int| 0 <= j < w.len() implies plain(#[trigger] w[j]) by {
        if j < a.len() {
            assert(w[j] == a[j]);
        } else {
            assert(w[j] == b[j - a.len()]);
        }
    }
}

/// The tokens that write numbers are plain.
pub proof fn lemma_flat_plain(items: Seq<TagModel>, i: int)
    requires
        forall|j: int|
            0 <= j < items.len() ==> (#[trigger] items[j]) is Byte || items[j] is Int
                || items[j] is Long,
    ensures
        all_plain(written_flat(items, i)),
    decreases items.len() - i,
{
    if 0 <= i < items.len() {
        let token = written_leaf(items[i]);
        match items[i] {
            TagModel::Byte(v) => lemma_number_text(v as int),
            TagModel::Int(v) => lemma_number_text(v as int),
            TagModel::Long(v) => lemma_number_text(v as int),
            _ => {},
        }
        assert(plain(token));
        assert(all_plain(seq![token]));
        if i + 1 < items.len() {
            lemma_flat_plain(items, i + 1);
            assert(all_plain(seq![TokenModel::Comma]));
            lemma_all_plain_join(seq![token], seq![TokenModel::Comma]);
            lemma_all_plain_join(
                seq![token] + seq![TokenModel::Comma],
                written_flat(items, i + 1),
            );
        }
    }
}

/// The tokens that write a tree which reading can give are plain.
pub proof fn lemma_written_plain(t: TagModel, depth: nat)
    requires
        t.readable(depth),
    ensures
        all_plain(written(t)),
    decreases t, 0nat,
{
    let close = seq![TokenModel::CloseBracket];
    assert(all_plain(close));
    match t {
        TagModel::Byte(v) => lemma_number_text(v as int),
        TagModel::Short(v) => lemma_number_text(v as int),
        TagModel::Int(v) => lemma_number_text(v as int),
        TagModel::Long(v) => lemma_number_text(v as int),
        TagModel::ByteArray(vs) => {
            let open = seq![TokenModel::ArrayStart(ArrayType::Byte)];
            assert(all_plain(open));
            lemma_flat_plain(byte_tags(vs), 0);
            lemma_all_plain_join(open, written_flat(byte_tags(vs), 0));
            lemma_all_plain_join(open + written_flat(byte_tags(vs), 0), close);
        },
        TagModel::IntArray(vs) => {
            let open = seq![TokenModel::ArrayStart(ArrayType::Int)];
            assert(all_plain(open));
            lemma_flat_plain(int_tags(vs), 0);
            lemma_all_plain_join(open, written_flat(int_tags(vs), 0));
            lemma_all_plain_join(open + written_flat(int_tags(vs), 0), close);
        },
        TagModel::LongArray(vs) => {
            let open = seq![TokenModel::ArrayStart(ArrayType::Long)];
            assert(all_plain(open));
            lemma_flat_plain(long_tags(vs), 0);
            lemma_all_plain_join(open, written_flat(long_tags(vs), 0));
            lemma_all_plain_join(open + written_flat(long_tags(vs), 0), close);
        },
        TagModel::List(_, items) => {
            let open = seq![TokenModel::OpenBracket];
            assert(all_plain(open));
            lemma_items_plain(items, 0, (depth - 1) as nat);
            lemma_all_plain_join(open, written_items(items, 0));
            lemma_all_plain_join(open + written_items(items, 0), close);
        },
        TagModel::Compound(members) => {
            let open = seq![TokenModel::OpenBrace];
            let shut = seq![TokenModel::CloseBrace];
            assert(all_plain(open));
            assert(all_plain(shut));
            lemma_members_plain(members, 0, (depth - 1) as nat);
            lemma_all_plain_join(open, written_members(members, 0));
            lemma_all_plain_join(open + written_members(members, 0), shut);
        },
        _ => {},
    }
}

/// The tokens that write the items of a list are plain.
pub proof fn lemma_items_plain(items: Seq<TagModel>, i: int, depth: nat)
    requires
        forall|j: int| 0 <= j < items.len() ==> (#[trigger] items[j]).readable(depth),
    ensures
        all_plain(written_items(items, i)),
    decreases items, items.len() - i,
{
    if 0 <= i < items.len() {
        lemma_written_plain(items[i], depth);
        if i + 1 < items.len() {
            lemma_items_plain(items, i + 1, depth);
            assert(all_plain(seq![TokenModel::Comma]));
            lemma_all_plain_join(written(items[i]), seq![TokenModel::Comma]);
            lemma_all_plain_join(
                written(items[i]) + seq![TokenModel::Comma],
                written_items(items, i + 1),
            );
        }
    }
}

/// The tokens that write the members of a compound are plain.
pub proof fn lemma_members_plain(members: Seq<(Seq<char>, TagModel)>, i: int, depth: nat)
    requires
        forall|j: int| 0 <= j < members.len() ==> (#[trigger] members[j]).1.readable(depth),
    ensures
        all_plain(written_members(members, i)),
    decreases members, members.len() - i,
{
    if 0 <= i < members.len() {
        let name = seq![TokenModel::StringLiteral(members[i].0)];
        let colon = seq![TokenModel::Colon];
        assert(all_plain(name));
        assert(all_plain(colon));
        lemma_written_plain(members[i].1, depth);
        lemma_all_plain_join(name, colon);
        lemma_all_plain_join(name + colon, written(members[i].1));
        assert(written_member(members, i) == name + colon + written(members[i].1));
        if i + 1 < members.len() {
            lemma_members_plain(members, i + 1, depth);
            assert(all_plain(seq![TokenModel::Comma]));
            lemma_all_plain_join(written_member(members, i), seq![TokenModel::Comma]);
            lemma_all_plain_join(
                written_member(members, i) + seq![TokenModel::Comma],
                written_members(members, i + 1),
            );
        }
    }
}

/// Reading the text that writes a tree gives the tree back, for every
/// tree that reading can give.
pub proof fn lemma_text_reads_back(t: TagModel)
    requires
        t.readable(MAX_DEPTH as nat),
    ensures
        outcome_of(text_of(t)) == Outcome::Tree(t),
{
    lemma_written_plain(t, MAX_DEPTH as nat);
    lemma_written_opens(t);
    lemma_tokens_read_back(written(t));
    lemma_written_tree_reads_back(t);
}

/// Reading is idempotent: where a text reads as a tree, the text that
/// writes that tree reads as the same tree.
pub proof fn lemma_parse_is_idempotent(s: Seq<char>)
    ensures
        outcome_of(s) matches Outcome::Tree(t) ==> outcome_of(text_of(t)) == Outcome::Tree(t),
{
    match lex(s) {
        Ok(tokens) => {
            lemma_reading_is_idempotent(tokens);
            match tree_of(tokens) {
                Some(t) => {
                    lemma_text_reads_back(t);
                },
                None => {},
            }
        },
        Err(_) => {},
    }
}

} // verus!

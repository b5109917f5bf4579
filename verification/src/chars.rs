//! Character classes and the small text utilities the scanner is built on.

use vstd::prelude::*;

verus! {

/// The classes of characters that the scanner tells apart.
#[derive(Clone, Copy, Debug, PartialEq, Eq, Structural)]
pub enum CharClass {
    /// Characters with the Unicode `White_Space` property.
    Whitespace,
    /// The decimal digits `0` to `9`.
    Digit,
    /// ASCII letters, digits and `_`: what a keyword may be followed by
    /// without ending.
    Word,
    /// ASCII letters, digits and `_ - + .`: what a bare word is made of.
    Ident,
}

/// The code points that carry the Unicode `White_Space` property.
pub open spec fn whitespace(c: char) -> bool {
    let n = c as u32;
    ||| 0x09 <= n <= 0x0D
    ||| n == 0x20
    ||| n == 0x85
    ||| n == 0xA0
    ||| n == 0x1680
    ||| 0x2000 <= n <= 0x200A
    ||| n == 0x2028
    ||| n == 0x2029
    ||| n == 0x202F
    ||| n == 0x205F
    ||| n == 0x3000
}

pub open spec fn digit(c: char) -> bool {
    '0' <= c <= '9'
}

pub open spec fn letter(c: char) -> bool {
    'a' <= c <= 'z' || 'A' <= c <= 'Z'
}

pub open spec fn word_char(c: char) -> bool {
    letter(c) || digit(c) || c == '_'
}

pub open spec fn ident_char(c: char) -> bool {
    letter(c) || digit(c) || c == '_' || c == '-' || c == '+' || c == '.'
}

pub open spec fn in_class(class: CharClass, c: char) -> bool {
    match class {
        CharClass::Whitespace => whitespace(c),
        CharClass::Digit => digit(c),
        CharClass::Word => word_char(c),
        CharClass::Ident => ident_char(c),
    }
}

/// The numeric value of a decimal digit.
pub open spec fn digit_value(c: char) -> int {
    c as int - '0' as int
}

#[verifier::when_used_as_spec(whitespace)]
pub fn is_whitespace(c: char) -> (b: bool)
    ensures
        b == whitespace(c),
{
    let n: u32 = c as u32;
    (0x09 <= n && n <= 0x0D) || n == 0x20 || n == 0x85 || n == 0xA0 || n == 0x1680 || (0x2000 <= n
        && n <= 0x200A) || n == 0x2028 || n == 0x2029 || n == 0x202F || n == 0x205F || n == 0x3000
}

#[verifier::when_used_as_spec(digit)]
pub fn is_digit(c: char) -> (b: bool)
    ensures
        b == digit(c),
{
    '0' <= c && c <= '9'
}

#[verifier::when_used_as_spec(letter)]
pub fn is_letter(c: char) -> (b: bool)
    ensures
        b == letter(c),
{
    ('a' <= c && c <= 'z') || ('A' <= c && c <= 'Z')
}

#[verifier::when_used_as_spec(word_char)]
pub fn is_word_char(c: char) -> (b: bool)
    ensures
        b == word_char(c),
{
    is_letter(c) || is_digit(c) || c == '_'
}

#[verifier::when_used_as_spec(ident_char)]
pub fn is_ident_char(c: char) -> (b: bool)
    ensures
        b == ident_char(c),
{
    is_letter(c) || is_digit(c) || c == '_' || c == '-' || c == '+' || c == '.'
}

#[verifier::when_used_as_spec(in_class)]
pub fn class_has(class: CharClass, c: char) -> (b: bool)
    ensures
        b == in_class(class, c),
{
    match class {
        CharClass::Whitespace => is_whitespace(c),
        CharClass::Digit => is_digit(c),
        CharClass::Word => is_word_char(c),
        CharClass::Ident => is_ident_char(c),
    }
}

/// Where the longest run of `class` characters that starts at `pos` ends.
pub open spec fn run_end(s: Seq<char>, pos: int, class: CharClass) -> int
    decreases s.len() - pos,
{
    if 0 <= pos < s.len() && in_class(class, s[pos]) {
        run_end(s, pos + 1, class)
    } else {
        pos
    }
}

/// A run ends inside the text, holds only characters of its class, and
/// cannot be extended.
pub proof fn lemma_run_end(s: Seq<char>, pos: int, class: CharClass)
    requires
        0 <= pos <= s.len(),
    ensures
        pos <= run_end(s, pos, class) <= s.len(),
        forall|j: int| pos <= j < run_end(s, pos, class) ==> in_class(class, #[trigger] s[j]),
        run_end(s, pos, class) < s.len() ==> !in_class(class, s[run_end(s, pos, class)]),
    decreases s.len() - pos,
{
    if pos < s.len() && in_class(class, s[pos]) {
        lemma_run_end(s, pos + 1, class);
    }
}

/// The end of a run is the only position with the properties of
/// [`lemma_run_end`].
pub proof fn lemma_run_end_unique(s: Seq<char>, pos: int, class: CharClass, end: int)
    requires
        0 <= pos <= end <= s.len(),
        forall|j: int| pos <= j < end ==> in_class(class, #[trigger] s[j]),
        end < s.len() ==> !in_class(class, s[end]),
    ensures
        run_end(s, pos, class) == end,
    decreases end - pos,
{
    if pos < end {
        lemma_run_end_unique(s, pos + 1, class, end);
    }
}

/// Finds the end of the run of `class` characters that starts at `pos`.
pub fn scan(chars: &Vec<char>, pos: usize, class: CharClass) -> (end: usize)
    requires
        pos <= chars.len(),
    ensures
        end == run_end(chars@, pos as int, class),
        pos <= end <= chars.len(),
{
    let mut i: usize = pos;
    while i < chars.len() && class_has(class, chars[i])
        invariant
            pos <= i <= chars.len(),
            forall|j: int| pos <= j < i ==> in_class(class, #[trigger] chars@[j]),
        decreases chars.len() - i,
    {
        i += 1;
    }
    proof {
        lemma_run_end_unique(chars@, pos as int, class, i as int);
    }
    i
}

/// `String::push` of the standard library: the string afterwards is the
/// string before with `ch` appended.
pub assume_specification[ std::string::String::push ](s: &mut std::string::String, ch: char)
    ensures
        final(s)@ == old(s)@.push(ch),
;

/// The characters of `text`, in order.
pub fn to_chars(text: &str) -> (chars: Vec<char>)
    ensures
        chars@ == text@,
{
    broadcast use vstd::string::group_string_axioms;

    let mut chars: Vec<char> = Vec::new();
    for c in it: text.chars()
        invariant
            it.seq() == text@,
            chars@ == text@.take(it.index()),
    {
        assert(text@.take(it.index() + 1) == text@.take(it.index()).push(c));
        chars.push(c);
    }
    assert(text@.take(text@.len() as int) == text@);
    chars
}

/// The text made of `chars[from..to]`.
pub fn make_string(chars: &Vec<char>, from: usize, to: usize) -> (s: String)
    requires
        from <= to <= chars.len(),
    ensures
        s@ == chars@.subrange(from as int, to as int),
{
    let mut s = String::new();
    let mut i: usize = from;
    while i < to
        invariant
            from <= i <= to <= chars.len(),
            s@ == chars@.subrange(from as int, i as int),
        decreases to - i,
    {
        s.push(chars[i]);
        i += 1;
    }
    s
}

} // verus!

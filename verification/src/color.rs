//! Bar colours and their textual form `rgba(r,g,b,a)`.
//!
//! The text is the word `rgba`, an opening bracket, four components separated
//! by commas, and a closing bracket. A component is one to three decimal
//! digits, with any amount of white space before and after it. Text of
//! another shape is a format error. Text of this shape names a colour when
//! every component is written in ASCII digits and is at most 255; otherwise
//! the first component that is not is reported.

use crate::text::{append_decimal, decimal, digit_char};
use vstd::prelude::*;

verus! {

/// An RGBA colour with 8-bit components.
#[derive(Clone, Copy, Debug, PartialEq, Eq)]
pub struct Color {
    pub r: u8,
    pub g: u8,
    pub b: u8,
    pub a: u8,
}

/// Why a text names no colour.
#[derive(Clone, Copy, Debug, PartialEq, Eq)]
pub enum ColorError {
    /// The text does not have the shape `rgba(r,g,b,a)`.
    Format,
    /// The red component is not a number from 0 to 255.
    Red,
    /// The green component is not a number from 0 to 255.
    Green,
    /// The blue component is not a number from 0 to 255.
    Blue,
    /// The alpha component is not a number from 0 to 255.
    Alpha,
}

/// Whether the regular expression `pattern` matches `text`, as the regex
/// engine decides it; a pattern that the engine does not take matches nothing.
pub uninterp spec fn regex_matches(pattern: Seq<char>, text: Seq<char>) -> bool;

/// Compiles the pattern with `lazy_regex::Regex::new` and asks
/// `Regex::is_match` whether it matches the text that consists of `c` alone.
///
/// The contract only gives the answer its name: it is the engine's answer
/// for this pattern and this text, the same whenever it is asked.
#[verifier::external_body]
fn regex_matches_char(pattern: &str, c: char) -> (held: bool)
    ensures
        held == regex_matches(pattern@, seq![c]),
{
    match lazy_regex::Regex::new(pattern) {
        Ok(regex) => regex.is_match(c.encode_utf8(&mut [0u8; 4])),
        Err(_) => false,
    }
}

/// The pattern `^\d$`: a text that is one decimal digit.
pub open spec fn digit_pattern() -> Seq<char> {
    seq!['^', '\\', 'd', '$']
}

/// Whether the regular-expression class `\d` holds the character: the
/// decimal digits of every script.
pub open spec fn decimal_digit_class(c: char) -> bool {
    regex_matches(digit_pattern(), seq![c])
}

/// White space: the characters with the Unicode property `White_Space`.
pub open spec fn is_space(c: char) -> bool {
    let n = c as u32;
    ||| 0x09 <= n <= 0x0d
    ||| n == 0x20
    ||| n == 0x85
    ||| n == 0xa0
    ||| n == 0x1680
    ||| 0x2000 <= n <= 0x200a
    ||| n == 0x2028
    ||| n == 0x2029
    ||| n == 0x202f
    ||| n == 0x205f
    ||| n == 0x3000
}

/// One of the ten ASCII digits.
pub open spec fn is_ascii_digit(c: char) -> bool {
    '0' <= c <= '9'
}

/// A decimal digit of any script. Among the ASCII characters these are `0`
/// to `9`; beyond them the regex class decides. No digit is white space.
pub open spec fn is_digit(c: char) -> bool {
    is_ascii_digit(c) || (c as u32 >= 0x80 && !is_space(c) && decimal_digit_class(c))
}

/// The end of the run of white space that starts at `i`.
pub open spec fn spaces_end(s: Seq<char>, i: int) -> int
    decreases s.len() - i,
{
    if 0 <= i < s.len() && is_space(s[i]) {
        spaces_end(s, i + 1)
    } else {
        i
    }
}

/// The end of the run of digits that starts at `i`.
pub open spec fn digits_end(s: Seq<char>, i: int) -> int
    decreases s.len() - i,
{
    if 0 <= i < s.len() && is_digit(s[i]) {
        digits_end(s, i + 1)
    } else {
        i
    }
}

/// Where one component lies in the text: its digits are `first..last`, and
/// the white space after them ends at `rest`.
pub struct FieldSpan {
    pub first: int,
    pub last: int,
    pub rest: int,
}

/// The component that starts at `i` and is closed by the character `close`,
/// if there is one.
#[verifier::opaque]
pub open spec fn field_at(s: Seq<char>, i: int, close: char) -> Option<FieldSpan> {
    let first = spaces_end(s, i);
    let last = digits_end(s, first);
    let rest = spaces_end(s, last);
    if 1 <= last - first <= 3 && 0 <= rest < s.len() && s[rest] == close {
        Some(FieldSpan { first, last, rest })
    } else {
        None
    }
}

/// The opening of a colour text.
pub open spec fn opening() -> Seq<char> {
    seq!['r', 'g', 'b', 'a', '(']
}

/// The four components of a text of the shape `rgba(r,g,b,a)`, or `None` for
/// text of another shape.
#[verifier::opaque]
pub open spec fn fields_of(s: Seq<char>) -> Option<(FieldSpan, FieldSpan, FieldSpan, FieldSpan)> {
    if s.len() >= 5 && s.subrange(0, 5) == opening() {
        match field_at(s, 5, ',') {
            Some(red) => match field_at(s, red.rest + 1, ',') {
                Some(green) => match field_at(s, green.rest + 1, ',') {
                    Some(blue) => match field_at(s, blue.rest + 1, ')') {
                        Some(alpha) => if alpha.rest + 1 == s.len() {
                            Some((red, green, blue, alpha))
                        } else {
                            None
                        },
                        None => None,
                    },
                    None => None,
                },
                None => None,
            },
            None => None,
        }
    } else {
        None
    }
}

/// The number that a run of ASCII digits writes in base ten.
pub open spec fn decimal_value(digits: Seq<char>) -> int
    decreases digits.len(),
{
    if digits.len() == 0 {
        0
    } else {
        decimal_value(digits.drop_last()) * 10 + (digits.last() as int - '0' as int)
    }
}

/// Every character of the run is an ASCII digit.
pub open spec fn all_ascii_digits(digits: Seq<char>) -> bool {
    forall|i: int| 0 <= i < digits.len() ==> is_ascii_digit(#[trigger] digits[i])
}

/// The value of one component, if it is written in ASCII digits and fits in a byte.
pub open spec fn component_of(digits: Seq<char>) -> Option<u8> {
    if all_ascii_digits(digits) && decimal_value(digits) <= 255 {
        Some(decimal_value(digits) as u8)
    } else {
        None
    }
}

/// The colour that four components name, or the first component that names no value.
pub open spec fn color_of_components(
    red: Seq<char>,
    green: Seq<char>,
    blue: Seq<char>,
    alpha: Seq<char>,
) -> Result<Color, ColorError> {
    match component_of(red) {
        None => Err(ColorError::Red),
        Some(r) => match component_of(green) {
            None => Err(ColorError::Green),
            Some(g) => match component_of(blue) {
                None => Err(ColorError::Blue),
                Some(b) => match component_of(alpha) {
                    None => Err(ColorError::Alpha),
                    Some(a) => Ok(Color { r, g, b, a }),
                },
            },
        },
    }
}

/// What a text means as a colour.
pub open spec fn color_of_text(s: Seq<char>) -> Result<Color, ColorError> {
    match fields_of(s) {
        None => Err(ColorError::Format),
        Some((red, green, blue, alpha)) => color_of_components(
            s.subrange(red.first, red.last),
            s.subrange(green.first, green.last),
            s.subrange(blue.first, blue.last),
            s.subrange(alpha.first, alpha.last),
        ),
    }
}

fn is_space_char(c: char) -> (held: bool)
    ensures
        held == is_space(c),
{
    let n: u32 = c as u32;
    (0x09 <= n && n <= 0x0d) || n == 0x20 || n == 0x85 || n == 0xa0 || n == 0x1680 || (0x2000 <= n
        && n <= 0x200a) || n == 0x2028 || n == 0x2029 || n == 0x202f || n == 0x205f || n == 0x3000
}

fn is_digit_char(c: char) -> (held: bool)
    ensures
        held == is_digit(c),
{
    let n: u32 = c as u32;
    if 0x30 <= n && n <= 0x39 {
        true
    } else if n < 0x80 || is_space_char(c) {
        false
    } else {
        proof {
            reveal_strlit("^\\d$");
        }
        assert("^\\d$"@ =~= digit_pattern());
        regex_matches_char("^\\d$", c)
    }
}

fn ascii_digit_value(c: char) -> (value: Option<u32>)
    ensures
        value is Some == is_ascii_digit(c),
        value matches Some(n) ==> n == c as int - '0' as int,
{
    let n: u32 = c as u32;
    if 0x30 <= n && n <= 0x39 {
        Some(n - 0x30)
    } else {
        None
    }
}

fn chars_of(text: &str) -> (chars: Vec<char>)
    ensures
        chars@ == text@,
{
    let mut chars: Vec<char> = Vec::new();
    for c in iter: text.chars()
        invariant
            iter.seq() == text@,
            chars@.len() == iter.index(),
            forall|i: int| 0 <= i < chars@.len() ==> chars@[i] == iter.seq()[i],
    {
        chars.push(c);
    }
    assert(chars@ =~= text@);
    chars
}

fn skip_spaces(chars: &Vec<char>, start: usize) -> (end: usize)
    requires
        start <= chars.len(),
    ensures
        start <= end <= chars.len(),
        end == spaces_end(chars@, start as int),
{
    let mut end: usize = start;
    while end < chars.len() && is_space_char(chars[end])
        invariant
            start <= end <= chars.len(),
            spaces_end(chars@, start as int) == spaces_end(chars@, end as int),
        decreases chars.len() - end,
    {
        end += 1;
    }
    end
}

fn skip_digits(chars: &Vec<char>, start: usize) -> (end: usize)
    requires
        start <= chars.len(),
    ensures
        start <= end <= chars.len(),
        end == digits_end(chars@, start as int),
{
    let mut end: usize = start;
    while end < chars.len() && is_digit_char(chars[end])
        invariant
            start <= end <= chars.len(),
            digits_end(chars@, start as int) == digits_end(chars@, end as int),
        decreases chars.len() - end,
    {
        end += 1;
    }
    end
}

fn read_field(chars: &Vec<char>, start: usize, close: char) -> (found: Option<
    (usize, usize, usize),
>)
    requires
        start <= chars.len(),
    ensures
        match found {
            Some((first, last, rest)) => field_at(chars@, start as int, close) == Some(
                FieldSpan { first: first as int, last: last as int, rest: rest as int },
            ) && first < last <= rest < chars.len() && last - first <= 3,
            None => field_at(chars@, start as int, close) is None,
        },
{
    proof {
        reveal(field_at);
    }
    let first: usize = skip_spaces(chars, start);
    let last: usize = skip_digits(chars, first);
    let rest: usize = skip_spaces(chars, last);
    if 1 <= last - first && last - first <= 3 && rest < chars.len() && chars[rest] == close {
        Some((first, last, rest))
    } else {
        None
    }
}

fn read_component(chars: &Vec<char>, first: usize, last: usize) -> (value: Option<u8>)
    requires
        first < last <= chars.len(),
        last - first <= 3,
    ensures
        value == component_of(chars@.subrange(first as int, last as int)),
{
    let ghost digits = chars@.subrange(first as int, last as int);
    let mut total: u32 = 0;
    let mut i: usize = first;
    while i < last
        invariant
            first <= i <= last <= chars.len(),
            last - first <= 3,
            digits == chars@.subrange(first as int, last as int),
            all_ascii_digits(digits.subrange(0, i - first)),
            total == decimal_value(digits.subrange(0, i - first)),
            i - first == 0 ==> total == 0,
            i - first == 1 ==> total <= 9,
            i - first == 2 ==> total <= 99,
        decreases last - i,
    {
        let n: u32 = match ascii_digit_value(chars[i]) {
            Some(n) => n,
            None => {
                assert(!is_ascii_digit(digits[i - first]));
                return None;
            },
        };
        proof {
            let before = digits.subrange(0, i - first);
            let after = digits.subrange(0, i - first + 1);
            assert(after.drop_last() =~= before);
            assert(after.last() == chars@[i as int]);
            assert forall|j: int| 0 <= j < after.len() implies is_ascii_digit(
                #[trigger] after[j],
            ) by {
                if j < before.len() {
                    assert(after[j] == before[j]);
                }
            }
            assert(decimal_value(after) == decimal_value(before) * 10 + n);
        }
        total = total * 10 + n;
        i += 1;
    }
    assert(digits.subrange(0, last - first) =~= digits);
    if total <= 255 {
        Some(total as u8)
    } else {
        None
    }
}

impl Color {
    /// Reads a colour from its textual form.
    pub fn from_str(text: &str) -> (parsed: Result<Color, ColorError>)
        ensures
            parsed == color_of_text(text@),
    {
        proof {
            reveal(fields_of);
        }
        let chars = chars_of(text);
        if chars.len() < 5 || chars[0] != 'r' || chars[1] != 'g' || chars[2] != 'b' || chars[3]
            != 'a' || chars[4] != '(' {
            assert(chars@.len() >= 5 ==> chars@.subrange(0, 5)[0] == chars@[0]
                && chars@.subrange(0, 5)[1] == chars@[1] && chars@.subrange(0, 5)[2] == chars@[2]
                && chars@.subrange(0, 5)[3] == chars@[3] && chars@.subrange(0, 5)[4] == chars@[4]);
            return Err(ColorError::Format);
        }
        assert(chars@.subrange(0, 5) =~= opening());
        let red = match read_field(&chars, 5, ',') {
            Some(span) => span,
            None => { return Err(ColorError::Format); },
        };
        let green = match read_field(&chars, red.2 + 1, ',') {
            Some(span) => span,
            None => { return Err(ColorError::Format); },
        };
        let blue = match read_field(&chars, green.2 + 1, ',') {
            Some(span) => span,
            None => { return Err(ColorError::Format); },
        };
        let alpha = match read_field(&chars, blue.2 + 1, ')') {
            Some(span) => span,
            None => { return Err(ColorError::Format); },
        };
        if alpha.2 + 1 != chars.len() {
            return Err(ColorError::Format);
        }
        let r = match read_component(&chars, red.0, red.1) {
            Some(value) => value,
            None => { return Err(ColorError::Red); },
        };
        let g = match read_component(&chars, green.0, green.1) {
            Some(value) => value,
            None => { return Err(ColorError::Green); },
        };
        let b = match read_component(&chars, blue.0, blue.1) {
            Some(value) => value,
            None => { return Err(ColorError::Blue); },
        };
        let a = match read_component(&chars, alpha.0, alpha.1) {
            Some(value) => value,
            None => { return Err(ColorError::Alpha); },
        };
        Ok(Color { r, g, b, a })
    }
}


/// A component as it is written: in ASCII digits, without leading zeros.
pub open spec fn decimal_text(n: u8) -> Seq<char> {
    decimal(n as nat)
}

/// The textual form of a colour: no white space, no leading zeros.
pub open spec fn text_of(color: Color) -> Seq<char> {
    opening() + decimal_text(color.r) + seq![','] + decimal_text(color.g) + seq![',']
        + decimal_text(color.b) + seq![','] + decimal_text(color.a) + seq![')']
}

impl Color {
    /// Writes the colour in its textual form.
    pub fn to_string(&self) -> (text: String)
        ensures
            text@ == text_of(*self),
    {
        proof {
            reveal_strlit("rgba(");
            reveal_strlit(",");
            reveal_strlit(")");
        }
        let mut text = String::from_str("rgba(");
        assert(text@ =~= opening());
        append_decimal(&mut text, self.r as u64);
        text.append(",");
        append_decimal(&mut text, self.g as u64);
        text.append(",");
        append_decimal(&mut text, self.b as u64);
        text.append(",");
        append_decimal(&mut text, self.a as u64);
        text.append(")");
        assert(","@ =~= seq![',']);
        assert(")"@ =~= seq![')']);
        text
    }
}

/// What `message` says of each error.
pub open spec fn message_of(error: ColorError) -> Seq<char> {
    match error {
        ColorError::Format => "Invalid color format"@,
        ColorError::Red => "Invalid red component"@,
        ColorError::Green => "Invalid green component"@,
        ColorError::Blue => "Invalid blue component"@,
        ColorError::Alpha => "Invalid alpha component"@,
    }
}

impl ColorError {
    /// A sentence that names the component, or the format, that is at fault.
    pub fn message(&self) -> (text: String)
        ensures
            text@ == message_of(*self),
    {
        match self {
            ColorError::Format => String::from_str("Invalid color format"),
            ColorError::Red => String::from_str("Invalid red component"),
            ColorError::Green => String::from_str("Invalid green component"),
            ColorError::Blue => String::from_str("Invalid blue component"),
            ColorError::Alpha => String::from_str("Invalid alpha component"),
        }
    }
}

/// Every character of the run is white space.
pub open spec fn all_spaces(run: Seq<char>) -> bool {
    forall|i: int| 0 <= i < run.len() ==> is_space(#[trigger] run[i])
}

/// The run is one to three digits long.
pub open spec fn is_digit_run(run: Seq<char>) -> bool {
    &&& 1 <= run.len() <= 3
    &&& forall|i: int| 0 <= i < run.len() ==> is_digit(#[trigger] run[i])
}

/// Eight runs of white space and four runs of digits: the parts of a colour
/// text that its shape leaves open.
pub open spec fn is_shape(gaps: Seq<Seq<char>>, digits: Seq<Seq<char>>) -> bool {
    &&& gaps.len() == 8
    &&& digits.len() == 4
    &&& forall|i: int| 0 <= i < 8 ==> all_spaces(#[trigger] gaps[i])
    &&& forall|i: int| 0 <= i < 4 ==> is_digit_run(#[trigger] digits[i])
}

/// One component as it stands in the text: digits with white space around them.
pub open spec fn field_text(before: Seq<char>, digits: Seq<char>, after: Seq<char>) -> Seq<char> {
    before + digits + after
}

/// The text with the given white space around the given digits.
pub open spec fn spelled(gaps: Seq<Seq<char>>, digits: Seq<Seq<char>>) -> Seq<char> {
    opening() + (field_text(gaps[0], digits[0], gaps[1]) + (seq![','] + (field_text(
        gaps[2],
        digits[1],
        gaps[3],
    ) + (seq![','] + (field_text(gaps[4], digits[2], gaps[5]) + (seq![','] + (field_text(
        gaps[6],
        digits[3],
        gaps[7],
    ) + seq![')'])))))))
}

proof fn lemma_spaces_run(s: Seq<char>, i: int, j: int)
    requires
        0 <= i <= j <= s.len(),
        forall|k: int| i <= k < j ==> is_space(#[trigger] s[k]),
        j < s.len() ==> !is_space(s[j]),
    ensures
        spaces_end(s, i) == j,
    decreases j - i,
{
    if i < j {
        lemma_spaces_run(s, i + 1, j);
    }
}

proof fn lemma_digits_run(s: Seq<char>, i: int, j: int)
    requires
        0 <= i <= j <= s.len(),
        forall|k: int| i <= k < j ==> is_digit(#[trigger] s[k]),
        j < s.len() ==> !is_digit(s[j]),
    ensures
        digits_end(s, i) == j,
    decreases j - i,
{
    if i < j {
        lemma_digits_run(s, i + 1, j);
    }
}

proof fn lemma_spaces_end(s: Seq<char>, i: int)
    requires
        0 <= i <= s.len(),
    ensures
        i <= spaces_end(s, i) <= s.len(),
        forall|k: int| i <= k < spaces_end(s, i) ==> is_space(#[trigger] s[k]),
    decreases s.len() - i,
{
    if i < s.len() && is_space(s[i]) {
        lemma_spaces_end(s, i + 1);
    }
}

proof fn lemma_digits_end(s: Seq<char>, i: int)
    requires
        0 <= i <= s.len(),
    ensures
        i <= digits_end(s, i) <= s.len(),
        forall|k: int| i <= k < digits_end(s, i) ==> is_digit(#[trigger] s[k]),
    decreases s.len() - i,
{
    if i < s.len() && is_digit(s[i]) {
        lemma_digits_end(s, i + 1);
    }
}

proof fn lemma_field_is_read(
    s: Seq<char>,
    i: int,
    before: Seq<char>,
    digits: Seq<char>,
    after: Seq<char>,
    close: char,
    tail: Seq<char>,
)
    requires
        0 <= i <= s.len(),
        s.subrange(i, s.len() as int) == field_text(before, digits, after) + (seq![close] + tail),
        all_spaces(before),
        is_digit_run(digits),
        all_spaces(after),
        close == ',' || close == ')',
    ensures
        field_at(s, i, close) == Some(
            FieldSpan {
                first: i + before.len(),
                last: i + before.len() + digits.len(),
                rest: i + before.len() + digits.len() + after.len(),
            },
        ),
        s.subrange(i + before.len(), i + before.len() + digits.len()) == digits,
        i + before.len() + digits.len() + after.len() + 1 + tail.len() == s.len(),
        s.subrange(i + before.len() + digits.len() + after.len() + 1, s.len() as int) == tail,
{
    reveal(field_at);
    let first = i + before.len();
    let last = first + digits.len();
    let rest = last + after.len();
    let here = s.subrange(i, s.len() as int);
    let field = field_text(before, digits, after);
    assert(here.len() == field.len() + 1 + tail.len());
    assert forall|k: int| i <= k < s.len() implies s[k] == here[k - i] by {}
    assert forall|k: int| i <= k < first implies is_space(#[trigger] s[k]) by {
        assert(here[k - i] == field[k - i]);
        assert(field[k - i] == before[k - i]);
    }
    assert forall|k: int| first <= k < last implies is_digit(#[trigger] s[k]) by {
        assert(here[k - i] == field[k - i]);
        assert(field[k - i] == digits[k - first]);
    }
    assert forall|k: int| last <= k < rest implies is_space(#[trigger] s[k]) by {
        assert(here[k - i] == field[k - i]);
        assert(field[k - i] == after[k - last]);
    }
    assert(s[rest] == close) by {
        assert(here[rest - i] == (seq![close] + tail)[0]);
    }
    assert(is_digit(s[first]));
    lemma_spaces_run(s, i, first);
    if last < rest {
        assert(is_space(s[last]));
    }
    lemma_digits_run(s, first, last);
    lemma_spaces_run(s, last, rest);
    assert(s.subrange(first, last) =~= digits) by {
        assert forall|k: int| 0 <= k < digits.len() implies s.subrange(first, last)[k]
            == digits[k] by {
            assert(s[first + k] == here[first + k - i]);
            assert(here[first + k - i] == field[first + k - i]);
        }
    }
    assert(s.subrange(rest + 1, s.len() as int) =~= tail) by {
        assert forall|k: int| 0 <= k < tail.len() implies s.subrange(rest + 1, s.len() as int)[k]
            == tail[k] by {
            assert(s[rest + 1 + k] == here[rest + 1 + k - i]);
            assert(here[rest + 1 + k - i] == (seq![close] + tail)[k + 1]);
        }
    }
}

proof fn lemma_split(head: Seq<char>, tail: Seq<char>)
    ensures
        (head + tail).subrange(0, head.len() as int) == head,
        (head + tail).subrange(head.len() as int, (head + tail).len() as int) == tail,
{
    assert((head + tail).subrange(0, head.len() as int) =~= head);
    assert((head + tail).subrange(head.len() as int, (head + tail).len() as int) =~= tail);
}

/// Text of the shape `rgba(r,g,b,a)` is read as its four components: the
/// white space around them plays no part, and the format is not at fault.
pub proof fn lemma_shape_is_read(gaps: Seq<Seq<char>>, digits: Seq<Seq<char>>)
    requires
        is_shape(gaps, digits),
    ensures
        color_of_text(spelled(gaps, digits)) == color_of_components(
            digits[0],
            digits[1],
            digits[2],
            digits[3],
        ),
        color_of_text(spelled(gaps, digits)) != Err::<Color, ColorError>(ColorError::Format),
{
    reveal(fields_of);
    let s = spelled(gaps, digits);
    let end = s.len() as int;
    assert(all_spaces(gaps[0]) && all_spaces(gaps[1]) && all_spaces(gaps[2]) && all_spaces(
        gaps[3],
    ) && all_spaces(gaps[4]) && all_spaces(gaps[5]) && all_spaces(gaps[6]) && all_spaces(gaps[7]));
    assert(is_digit_run(digits[0]) && is_digit_run(digits[1]) && is_digit_run(digits[2])
        && is_digit_run(digits[3]));
    let none = Seq::<char>::empty();
    let t3 = field_text(gaps[6], digits[3], gaps[7]) + (seq![')'] + none);
    let t2 = field_text(gaps[4], digits[2], gaps[5]) + (seq![','] + t3);
    let t1 = field_text(gaps[2], digits[1], gaps[3]) + (seq![','] + t2);
    let t0 = field_text(gaps[0], digits[0], gaps[1]) + (seq![','] + t1);
    assert(seq![')'] + none =~= seq![')']);
    assert(s == opening() + t0);
    lemma_split(opening(), t0);
    lemma_field_is_read(s, 5, gaps[0], digits[0], gaps[1], ',', t1);
    let red = field_at(s, 5, ',')->0;
    lemma_field_is_read(s, red.rest + 1, gaps[2], digits[1], gaps[3], ',', t2);
    let green = field_at(s, red.rest + 1, ',')->0;
    lemma_field_is_read(s, green.rest + 1, gaps[4], digits[2], gaps[5], ',', t3);
    let blue = field_at(s, green.rest + 1, ',')->0;
    lemma_field_is_read(s, blue.rest + 1, gaps[6], digits[3], gaps[7], ')', none);
}

proof fn lemma_field_has_parts(s: Seq<char>, i: int, close: char)
    requires
        0 <= i <= s.len(),
        field_at(s, i, close) is Some,
    ensures
        ({
            let span = field_at(s, i, close)->0;
            &&& i <= span.first < span.last <= span.rest < s.len()
            &&& all_spaces(s.subrange(i, span.first))
            &&& is_digit_run(s.subrange(span.first, span.last))
            &&& all_spaces(s.subrange(span.last, span.rest))
            &&& s[span.rest] == close
        }),
{
    reveal(field_at);
    lemma_spaces_end(s, i);
    let first = spaces_end(s, i);
    lemma_digits_end(s, first);
    let last = digits_end(s, first);
    lemma_spaces_end(s, last);
}

/// Text in which the format is not at fault has the shape `rgba(r,g,b,a)`:
/// it is spelled by some runs of white space around four runs of digits.
pub proof fn lemma_read_has_shape(s: Seq<char>)
    requires
        color_of_text(s) != Err::<Color, ColorError>(ColorError::Format),
    ensures
        exists|gaps: Seq<Seq<char>>, digits: Seq<Seq<char>>|
            is_shape(gaps, digits) && s == #[trigger] spelled(gaps, digits),
{
    reveal(fields_of);
    let (red, green, blue, alpha) = fields_of(s)->0;
    lemma_field_has_parts(s, 5, ',');
    lemma_field_has_parts(s, red.rest + 1, ',');
    lemma_field_has_parts(s, green.rest + 1, ',');
    lemma_field_has_parts(s, blue.rest + 1, ')');
    let gaps = seq![
        s.subrange(5, red.first),
        s.subrange(red.last, red.rest),
        s.subrange(red.rest + 1, green.first),
        s.subrange(green.last, green.rest),
        s.subrange(green.rest + 1, blue.first),
        s.subrange(blue.last, blue.rest),
        s.subrange(blue.rest + 1, alpha.first),
        s.subrange(alpha.last, alpha.rest),
    ];
    let digits = seq![
        s.subrange(red.first, red.last),
        s.subrange(green.first, green.last),
        s.subrange(blue.first, blue.last),
        s.subrange(alpha.first, alpha.last),
    ];
    assert(s.subrange(0, 5) == opening());
    assert(s.subrange(0, 5)[0] == s[0] && s.subrange(0, 5)[1] == s[1] && s.subrange(0, 5)[2]
        == s[2] && s.subrange(0, 5)[3] == s[3] && s.subrange(0, 5)[4] == s[4]);
    assert(is_shape(gaps, digits));
    assert(s =~= spelled(gaps, digits));
}

proof fn lemma_decimal_text_is_read(n: u8)
    ensures
        is_digit_run(decimal_text(n)),
        component_of(decimal_text(n)) == Some(n),
{
    let text = decimal_text(n);
    let d0 = digit_char(n as int % 10);
    let d1 = digit_char(n as int / 10 % 10);
    let d2 = digit_char(n as int / 100);
    if n < 10 {
        assert(text =~= seq![d0]);
        assert(text.drop_last() =~= Seq::<char>::empty());
        assert(decimal_value(text.drop_last()) == 0);
    } else if n < 100 {
        assert(decimal((n / 10) as nat) =~= seq![d1]);
        assert(text =~= seq![d1, d0]);
        let one = text.drop_last();
        assert(one =~= seq![d1]);
        assert(one.drop_last() =~= Seq::<char>::empty());
        assert(decimal_value(one.drop_last()) == 0);
        assert(decimal_value(one) == n / 10);
    } else {
        assert(decimal((n / 100) as nat) =~= seq![d2]);
        assert(decimal((n / 10) as nat) =~= seq![d2, d1]);
        assert(text =~= seq![d2, d1, d0]);
        let two = text.drop_last();
        assert(two =~= seq![d2, d1]);
        let one = two.drop_last();
        assert(one =~= seq![d2]);
        assert(one.drop_last() =~= Seq::<char>::empty());
        assert(decimal_value(one.drop_last()) == 0);
        assert(decimal_value(one) == n / 100);
        assert(decimal_value(two) == n / 10);
    }
    assert(all_ascii_digits(text));
    assert(decimal_value(text) == n);
}

proof fn lemma_regroup(a: Seq<char>, b: Seq<char>, c: Seq<char>)
    ensures
        a + (b + c) == (a + b) + c,
{
    assert(a + (b + c) =~= (a + b) + c);
}

/// The runs that spell a written colour: no white space, and the four
/// components in their shortest form.
pub open spec fn written_gaps() -> Seq<Seq<char>> {
    Seq::new(8, |i: int| Seq::<char>::empty())
}

pub open spec fn written_digits(color: Color) -> Seq<Seq<char>> {
    seq![
        decimal_text(color.r),
        decimal_text(color.g),
        decimal_text(color.b),
        decimal_text(color.a),
    ]
}

proof fn lemma_written_is_spelled(d0: Seq<char>, d1: Seq<char>, d2: Seq<char>, d3: Seq<char>)
    ensures
        opening() + d0 + seq![','] + d1 + seq![','] + d2 + seq![','] + d3 + seq![')']
            == spelled(written_gaps(), seq![d0, d1, d2, d3]),
{
    let none = Seq::<char>::empty();
    let gaps = written_gaps();
    let digits = seq![d0, d1, d2, d3];
    assert(field_text(gaps[0], digits[0], gaps[1]) =~= d0);
    assert(field_text(gaps[2], digits[1], gaps[3]) =~= d1);
    assert(field_text(gaps[4], digits[2], gaps[5]) =~= d2);
    assert(field_text(gaps[6], digits[3], gaps[7]) =~= d3);
    let comma = seq![','];
    let r3 = d3 + seq![')'];
    let r2 = d2 + (comma + r3);
    let r1 = d1 + (comma + r2);
    assert(spelled(gaps, digits) == opening() + (d0 + (comma + r1)));
    lemma_regroup(opening(), d0, comma + r1);
    lemma_regroup(opening() + d0, comma, r1);
    lemma_regroup(opening() + d0 + comma, d1, comma + r2);
    lemma_regroup(opening() + d0 + comma + d1, comma, r2);
    lemma_regroup(opening() + d0 + comma + d1 + comma, d2, comma + r3);
    lemma_regroup(opening() + d0 + comma + d1 + comma + d2, comma, r3);
    lemma_regroup(opening() + d0 + comma + d1 + comma + d2 + comma, d3, seq![')']);
}

/// Writing a colour and reading the text gives the colour back.
pub proof fn lemma_written_is_read(color: Color)
    ensures
        color_of_text(text_of(color)) == Ok::<Color, ColorError>(color),
{
    let gaps = written_gaps();
    let digits = written_digits(color);
    lemma_decimal_text_is_read(color.r);
    lemma_decimal_text_is_read(color.g);
    lemma_decimal_text_is_read(color.b);
    lemma_decimal_text_is_read(color.a);
    assert(is_shape(gaps, digits));
    lemma_shape_is_read(gaps, digits);
    lemma_written_is_spelled(
        decimal_text(color.r),
        decimal_text(color.g),
        decimal_text(color.b),
        decimal_text(color.a),
    );
}

} // verus!

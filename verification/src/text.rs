//! Text building blocks: comparison, concatenation, number rendering and the
//! small lexical classes that names on disk are made of.

use vstd::prelude::*;
use vstd::utf8::*;

verus! {

/// `String::push` appends one character to the end of the string.
pub assume_specification[ String::push ](string: &mut String, c: char)
    ensures
        final(string)@ == old(string)@.push(c),
;

/// What `std::str::from_utf8` says of bytes that are not valid UTF-8.
pub uninterp spec fn utf8_error(bytes: Seq<u8>) -> Seq<char>;

/// `std::str::from_utf8` accepts exactly the bytes that are valid UTF-8, and gives
/// the text that they encode; for others it gives an error, whose words are left to
/// the name.
#[verifier::external_body]
pub(crate) fn text_from_utf8(bytes: &[u8]) -> (decoded: Result<String, String>)
    ensures
        decoded is Ok <==> valid_utf8(bytes@),
        decoded matches Ok(decoded) ==> decoded@ == decode_utf8(bytes@),
        decoded matches Err(words) ==> words@ == utf8_error(bytes@),
{
    match std::str::from_utf8(bytes) {
        Ok(decoded) => Ok(decoded.to_owned()),
        Err(error) => Err(error.to_string()),
    }
}

/// A text as `format!` writes it for debugging: in quotes, with escapes.
pub uninterp spec fn quoted(value: Seq<char>) -> Seq<char>;

/// `format!` with the debug form of a text; which form that is, is left to the name.
#[verifier::external_body]
pub(crate) fn quoted_text(value: &str) -> (written: String)
    ensures
        written@ == quoted(value@),
{
    format!("{value:?}")
}

/// The characters of a text, in order.
pub fn chars_of(text: &str) -> (chars: Vec<char>)
    ensures
        chars@ == text@,
{
    let mut chars: Vec<char> = Vec::new();
    for c in iter: text.chars()
        invariant
            iter.seq() == text@,
            chars@ == text@.take(iter.index() as int),
    {
        chars.push(c);
    }
    assert(text@.take(text@.len() as int) == text@);
    chars
}

/// A string of the given characters.
pub fn string_of(chars: &Vec<char>) -> (text: String)
    ensures
        text@ == chars@,
{
    let mut text = String::new();
    let mut i: usize = 0;
    while i < chars.len()
        invariant
            i <= chars.len(),
            text@ == chars@.take(i as int),
        decreases chars.len() - i,
    {
        text.push(chars[i]);
        i = i + 1;
    }
    assert(chars@.take(i as int) == chars@);
    text
}


/// Whether two byte slices hold the same bytes.
pub fn same_bytes(left: &[u8], right: &[u8]) -> (same: bool)
    ensures
        same == (left@ == right@),
{
    if left.len() != right.len() {
        return false;
    }
    let mut i: usize = 0;
    while i < left.len()
        invariant
            left.len() == right.len(),
            i <= left.len(),
            forall|j: int| 0 <= j < i ==> left@[j] == right@[j],
        decreases left.len() - i,
    {
        if left[i] != right[i] {
            return false;
        }
        i = i + 1;
    }
    assert(left@ =~= right@);
    true
}

/// Whether two texts hold the same characters.
pub fn same_text(left: &str, right: &str) -> (same: bool)
    ensures
        same == (left@ == right@),
{
    let same = same_bytes(left.as_bytes(), right.as_bytes());
    proof {
        encode_utf8_decode_utf8(left@);
        encode_utf8_decode_utf8(right@);
    }
    same
}

/// Whether two optional texts are both absent, or both present and the same.
pub fn same_optional(left: &Option<String>, right: &Option<String>) -> (same: bool)
    ensures
        same == (optional_view(*left) == optional_view(*right)),
{
    match (left, right) {
        (None, None) => true,
        (Some(left), Some(right)) => same_text(left.as_str(), right.as_str()),
        _ => false,
    }
}

/// The characters of an optional text.
pub open spec fn optional_view(text: Option<String>) -> Option<Seq<char>> {
    match text {
        Some(text) => Some(text@),
        None => None,
    }
}

/// The characters of every text of a list.
pub open spec fn texts_view(texts: Seq<String>) -> Seq<Seq<char>> {
    texts.map_values(|text: String| text@)
}

/// The two texts, one behind the other.
pub fn join2(first: &str, second: &str) -> (joined: String)
    ensures
        joined@ == first@ + second@,
{
    let mut joined = first.to_owned();
    append_text(&mut joined, second);
    joined
}

/// The three texts, one behind the other.
pub fn join3(first: &str, second: &str, third: &str) -> (joined: String)
    ensures
        joined@ == first@ + second@ + third@,
{
    let mut joined = join2(first, second);
    append_text(&mut joined, third);
    joined
}

/// The bytes of two texts, one behind the other, are those of each in turn.
pub proof fn lemma_encode_concat(left: Seq<char>, right: Seq<char>)
    ensures
        encode_utf8(left + right) == encode_utf8(left) + encode_utf8(right),
    decreases left.len(),
{
    if left.len() == 0 {
        assert(left + right =~= right);
        assert(encode_utf8(left) + encode_utf8(right) =~= encode_utf8(right));
    } else {
        let whole = left + right;
        assert(whole.drop_first() =~= left.drop_first() + right);
        lemma_encode_concat(left.drop_first(), right);
        assert(encode_utf8(whole) =~= encode_utf8(left) + encode_utf8(right));
    }
}

/// Appends a text to a string.
pub fn append_text(text: &mut String, suffix: &str)
    ensures
        final(text)@ == old(text)@ + suffix@,
{
    for c in iter: suffix.chars()
        invariant
            iter.seq() == suffix@,
            text@ == old(text)@ + suffix@.take(iter.index() as int),
    {
        text.push(c);
        assert(suffix@.take(iter.index() + 1) == suffix@.take(iter.index() as int).push(c));
    }
    assert(suffix@.take(suffix@.len() as int) == suffix@);
}

/// The rest of a text behind a prefix, where it has that prefix.
pub open spec fn without_prefix(text: Seq<char>, prefix: Seq<char>) -> Option<Seq<char>> {
    if prefix.is_prefix_of(text) {
        Some(text.skip(prefix.len() as int))
    } else {
        None
    }
}

/// The rest of a text before a suffix, where it has that suffix.
pub open spec fn without_suffix(text: Seq<char>, suffix: Seq<char>) -> Option<Seq<char>> {
    if suffix.is_suffix_of(text) {
        Some(text.take(text.len() - suffix.len()))
    } else {
        None
    }
}

/// Takes a prefix off a text, or says that the text does not have it.
pub fn strip_prefix(text: &Vec<char>, prefix: &str) -> (rest: Option<Vec<char>>)
    ensures
        match rest {
            Some(rest) => without_prefix(text@, prefix@) == Some(rest@),
            None => without_prefix(text@, prefix@) is None,
        },
{
    let prefix_chars = chars_of(prefix);
    if text.len() < prefix_chars.len() {
        return None;
    }
    let mut i: usize = 0;
    while i < prefix_chars.len()
        invariant
            i <= prefix_chars.len() <= text.len(),
            prefix_chars@ == prefix@,
            forall|j: int| 0 <= j < i ==> prefix@[j] == text@[j],
        decreases prefix_chars.len() - i,
    {
        if prefix_chars[i] != text[i] {
            assert(!prefix@.is_prefix_of(text@)) by {
                assert(prefix@[i as int] != text@.take(prefix@.len() as int)[i as int]);
            }
            return None;
        }
        i = i + 1;
    }
    assert(prefix@ =~= text@.take(prefix@.len() as int));
    let rest = tail_of(text, prefix_chars.len());
    Some(rest)
}

/// Takes a suffix off a text, or says that the text does not have it.
pub fn strip_suffix(text: &Vec<char>, suffix: &str) -> (rest: Option<Vec<char>>)
    ensures
        match rest {
            Some(rest) => without_suffix(text@, suffix@) == Some(rest@),
            None => without_suffix(text@, suffix@) is None,
        },
{
    let suffix_chars = chars_of(suffix);
    if text.len() < suffix_chars.len() {
        return None;
    }
    let start: usize = text.len() - suffix_chars.len();
    let mut i: usize = 0;
    while i < suffix_chars.len()
        invariant
            i <= suffix_chars.len() <= text.len(),
            start == text.len() - suffix_chars.len(),
            suffix_chars@ == suffix@,
            forall|j: int| 0 <= j < i ==> suffix@[j] == text@[start + j],
        decreases suffix_chars.len() - i,
    {
        if suffix_chars[i] != text[start + i] {
            assert(!suffix@.is_suffix_of(text@)) by {
                assert(suffix@[i as int] != text@.skip(start as int)[i as int]);
            }
            return None;
        }
        i = i + 1;
    }
    assert(suffix@ =~= text@.skip(start as int));
    let rest = head_of(text, start);
    Some(rest)
}

/// The first `count` characters.
pub fn head_of(text: &Vec<char>, count: usize) -> (head: Vec<char>)
    requires
        count <= text@.len(),
    ensures
        head@ == text@.take(count as int),
{
    let mut head: Vec<char> = Vec::new();
    let mut i: usize = 0;
    while i < count
        invariant
            i <= count <= text.len(),
            head@ == text@.take(i as int),
        decreases count - i,
    {
        head.push(text[i]);
        i = i + 1;
    }
    head
}

/// The characters from `start` on.
pub fn tail_of(text: &Vec<char>, start: usize) -> (tail: Vec<char>)
    requires
        start <= text@.len(),
    ensures
        tail@ == text@.skip(start as int),
{
    let mut tail: Vec<char> = Vec::new();
    let mut i: usize = start;
    while i < text.len()
        invariant
            start <= i <= text.len(),
            tail@ =~= text@.subrange(start as int, i as int),
        decreases text.len() - i,
    {
        tail.push(text[i]);
        i = i + 1;
    }
    assert(tail@ =~= text@.skip(start as int));
    tail
}

/// Where a character first occurs.
pub open spec fn first_position(text: Seq<char>, c: char) -> Option<int>
    decreases text.len(),
{
    if text.len() == 0 {
        None
    } else if text[0] == c {
        Some(0)
    } else {
        match first_position(text.skip(1), c) {
            Some(position) => Some(position + 1),
            None => None,
        }
    }
}

/// What it takes for a position to be the first occurrence of a character.
pub proof fn lemma_first_position(text: Seq<char>, c: char, position: int)
    requires
        0 <= position <= text.len(),
        forall|j: int| 0 <= j < position ==> text[j] != c,
    ensures
        position < text.len() && text[position] == c ==> first_position(text, c) == Some(position),
        position == text.len() ==> first_position(text, c) is None,
    decreases text.len(),
{
    if text.len() > 0 && position > 0 {
        assert(text[0] != c);
        let rest = text.skip(1);
        assert forall|j: int| 0 <= j < position - 1 implies rest[j] != c by {
            assert(rest[j] == text[j + 1]);
        }
        lemma_first_position(rest, c, position - 1);
    }
}

/// The character stands at its first position.
pub proof fn lemma_found_at(text: Seq<char>, c: char)
    ensures
        first_position(text, c) matches Some(position) ==> 0 <= position < text.len()
            && text[position] == c,
    decreases text.len(),
{
    if text.len() > 0 && text[0] != c {
        lemma_found_at(text.skip(1), c);
    }
}

/// The position of the first occurrence of a character.
pub fn find_char(text: &Vec<char>, c: char) -> (position: Option<usize>)
    ensures
        match position {
            Some(position) => first_position(text@, c) == Some(position as int) && position < text.len(),
            None => first_position(text@, c) is None,
        },
{
    let mut i: usize = 0;
    while i < text.len()
        invariant
            i <= text.len(),
            forall|j: int| 0 <= j < i ==> text@[j] != c,
        decreases text.len() - i,
    {
        if text[i] == c {
            proof {
                lemma_first_position(text@, c, i as int);
            }
            return Some(i);
        }
        i = i + 1;
    }
    proof {
        lemma_first_position(text@, c, i as int);
    }
    None
}

/// A decimal digit.
pub open spec fn is_decimal_digit(c: char) -> bool {
    '0' <= c && c <= '9'
}

/// A hexadecimal digit in lower case.
pub open spec fn is_lower_hex(c: char) -> bool {
    is_decimal_digit(c) || ('a' <= c && c <= 'f')
}

/// Whether every character is a decimal digit.
pub open spec fn all_decimal(text: Seq<char>) -> bool {
    forall|i: int| 0 <= i < text.len() ==> is_decimal_digit(#[trigger] text[i])
}

/// Whether every character is a hexadecimal digit in lower case.
pub open spec fn all_lower_hex(text: Seq<char>) -> bool {
    forall|i: int| 0 <= i < text.len() ==> is_lower_hex(#[trigger] text[i])
}

/// Tests a text for decimal digits.
pub fn only_decimal(text: &Vec<char>) -> (only: bool)
    ensures
        only == all_decimal(text@),
{
    let mut i: usize = 0;
    while i < text.len()
        invariant
            i <= text.len(),
            forall|j: int| 0 <= j < i ==> is_decimal_digit(#[trigger] text@[j]),
        decreases text.len() - i,
    {
        let c = text[i];
        if !('0' <= c && c <= '9') {
            assert(!is_decimal_digit(text@[i as int]));
            return false;
        }
        i = i + 1;
    }
    true
}

/// Tests a text for hexadecimal digits in lower case.
pub fn only_lower_hex(text: &Vec<char>) -> (only: bool)
    ensures
        only == all_lower_hex(text@),
{
    let mut i: usize = 0;
    while i < text.len()
        invariant
            i <= text.len(),
            forall|j: int| 0 <= j < i ==> is_lower_hex(#[trigger] text@[j]),
        decreases text.len() - i,
    {
        let c = text[i];
        if !(('0' <= c && c <= '9') || ('a' <= c && c <= 'f')) {
            assert(!is_lower_hex(text@[i as int]));
            return false;
        }
        i = i + 1;
    }
    true
}

/// The digit character for a value below sixteen.
pub open spec fn digit_char(value: nat) -> char {
    if value < 10 {
        (48 + value) as char
    } else {
        (87 + value) as char
    }
}

/// The value of a lower-case hexadecimal digit.
pub open spec fn digit_value(c: char) -> nat {
    if is_decimal_digit(c) {
        (c as nat - 48) as nat
    } else {
        (c as nat - 87) as nat
    }
}

/// Renders a value below sixteen as a digit.
pub fn digit_to_char(value: u8) -> (c: char)
    requires
        value < 16,
    ensures
        c == digit_char(value as nat),
{
    if value < 10 {
        (48 + value) as char
    } else {
        (87 + value) as char
    }
}

/// A number in positional notation of a base, without leading zeros.
pub open spec fn positional(value: nat, base: nat) -> Seq<char>
    recommends
        2 <= base <= 16,
    decreases value,
{
    if base < 2 || value < base {
        seq![digit_char(value)]
    } else {
        proof {
            assert(value / base < value) by (nonlinear_arith)
                requires
                    value >= base,
                    base >= 2,
            ;
        }
        positional(value / base, base).push(digit_char(value % base))
    }
}

/// A number in decimal notation.
pub open spec fn decimal(value: nat) -> Seq<char> {
    positional(value, 10)
}

/// A text with zeros put in front until it has the given width.
pub open spec fn zero_padded(text: Seq<char>, width: nat) -> Seq<char> {
    if text.len() >= width {
        text
    } else {
        Seq::new((width - text.len()) as nat, |i: int| '0') + text
    }
}

fn positional_chars(value: u128, base: u128) -> (chars: Vec<char>)
    requires
        2 <= base <= 16,
    ensures
        chars@ == positional(value as nat, base as nat),
    decreases value,
{
    if value < base {
        let mut chars: Vec<char> = Vec::new();
        chars.push(digit_to_char(value as u8));
        chars
    } else {
        assert(value / base < value) by (nonlinear_arith)
            requires
                value > 0,
                base >= 2,
        ;
        let mut chars = positional_chars(value / base, base);
        chars.push(digit_to_char((value % base) as u8));
        chars
    }
}

/// Renders a number in decimal notation.
pub fn decimal_text(value: u64) -> (text: String)
    ensures
        text@ == decimal(value as nat),
{
    let chars = positional_chars(value as u128, 10);
    string_of(&chars)
}

/// Renders a wide number in decimal notation.
pub fn wide_decimal_text(value: u128) -> (text: String)
    ensures
        text@ == decimal(value as nat),
{
    let chars = positional_chars(value, 10);
    string_of(&chars)
}

/// Renders a number in decimal notation, at least `width` digits wide.
pub fn padded_decimal_text(value: u64, width: usize) -> (text: String)
    ensures
        text@ == zero_padded(decimal(value as nat), width as nat),
{
    let chars = positional_chars(value as u128, 10);
    padded_text(&chars, width)
}

/// Renders a number in lower-case hexadecimal notation.
pub fn hex_text(value: u64) -> (text: String)
    ensures
        text@ == positional(value as nat, 16),
{
    let chars = positional_chars(value as u128, 16);
    string_of(&chars)
}

/// Renders a number in lower-case hexadecimal notation, at least `width` digits wide.
pub fn padded_hex_text(value: u64, width: usize) -> (text: String)
    ensures
        text@ == zero_padded(positional(value as nat, 16), width as nat),
{
    let chars = positional_chars(value as u128, 16);
    padded_text(&chars, width)
}

fn padded_text(chars: &Vec<char>, width: usize) -> (text: String)
    ensures
        text@ == zero_padded(chars@, width as nat),
{
    let mut text = String::new();
    let missing: usize = if chars.len() >= width { 0 } else { width - chars.len() };
    let mut i: usize = 0;
    while i < missing
        invariant
            i <= missing,
            text@ == Seq::new(i as nat, |k: int| '0'),
        decreases missing - i,
    {
        text.push('0');
        assert(text@ =~= Seq::new((i + 1) as nat, |k: int| '0'));
        i = i + 1;
    }
    let digits = string_of(chars);
    append_text(&mut text, digits.as_str());
    assert(chars.len() >= width ==> text@ =~= chars@);
    text
}

/// The number that a text of digits stands for.
pub open spec fn number_of(text: Seq<char>, base: nat) -> nat
    decreases text.len(),
{
    if text.len() == 0 {
        0
    } else {
        number_of(text.drop_last(), base) * base + digit_value(text.last())
    }
}

/// What a number's notation looks like, and that it stands for the number.
pub proof fn lemma_positional(value: nat, base: nat)
    requires
        2 <= base <= 16,
    ensures
        positional(value, base).len() >= 1,
        all_lower_hex(positional(value, base)),
        base == 10 ==> all_decimal(positional(value, base)),
        number_of(positional(value, base), base) == value,
    decreases value,
{
    let text = positional(value, base);
    if value < base {
        assert(text.drop_last() =~= Seq::<char>::empty());
        assert(number_of(text.drop_last(), base) == 0);
        assert(0 * base == 0) by (nonlinear_arith);
    } else {
        assert(value / base < value) by (nonlinear_arith)
            requires
                value >= base,
                base >= 2,
        ;
        lemma_positional(value / base, base);
        assert(value % base < base) by (nonlinear_arith)
            requires
                base >= 2,
        ;
        assert(text.drop_last() =~= positional(value / base, base));
        assert(text.last() == digit_char(value % base));
        assert((value / base) * base + value % base == value) by (nonlinear_arith)
            requires
                base >= 2,
        ;
        let head = positional(value / base, base);
        assert forall|i: int| 0 <= i < text.len() implies is_lower_hex(#[trigger] text[i]) by {
            if i < head.len() {
                assert(is_lower_hex(head[i]));
            }
        }
        if base == 10 {
            assert forall|i: int| 0 <= i < text.len() implies is_decimal_digit(
                #[trigger] text[i],
            ) by {
                if i < head.len() {
                    assert(is_decimal_digit(head[i]));
                }
            }
        }
    }
}

/// A number below the base's power of the width has at most that many digits.
pub proof fn lemma_positional_width(value: nat, base: nat, width: nat)
    requires
        2 <= base <= 16,
        width >= 1,
        value < vstd::arithmetic::power::pow(base as int, width),
    ensures
        positional(value, base).len() <= width,
    decreases width,
{
    if value >= base {
        reveal(vstd::arithmetic::power::pow);
        let rest = vstd::arithmetic::power::pow(base as int, (width - 1) as nat);
        if width == 1 {
            assert(rest == 1);
            assert(base * 1 == base);
        } else {
            assert(value / base < rest) by (nonlinear_arith)
                requires
                    base >= 2,
                    value < base * rest,
            ;
            lemma_positional_width(value / base, base, (width - 1) as nat);
        }
    }
}

/// Zeros in front of a text of digits do not change the number.
pub proof fn lemma_zero_padded(text: Seq<char>, width: nat, base: nat)
    ensures
        number_of(zero_padded(text, width), base) == number_of(text, base),
        all_lower_hex(text) ==> all_lower_hex(zero_padded(text, width)),
        all_decimal(text) ==> all_decimal(zero_padded(text, width)),
    decreases text.len(),
{
    let padded = zero_padded(text, width);
    if text.len() < width {
        let zeros = Seq::new((width - text.len()) as nat, |i: int| '0');
        lemma_leading_zeros(zeros, text, base);
    }
}

proof fn lemma_leading_zeros(zeros: Seq<char>, text: Seq<char>, base: nat)
    requires
        forall|i: int| 0 <= i < zeros.len() ==> zeros[i] == '0',
    ensures
        number_of(zeros + text, base) == number_of(text, base),
    decreases zeros.len() + text.len(),
{
    let whole = zeros + text;
    if text.len() > 0 {
        assert(whole.drop_last() =~= zeros + text.drop_last());
        assert(whole.last() == text.last());
        lemma_leading_zeros(zeros, text.drop_last(), base);
    } else if zeros.len() > 0 {
        assert(whole.drop_last() =~= zeros.drop_last() + text);
        lemma_leading_zeros(zeros.drop_last(), text, base);
        assert(0 * base == 0) by (nonlinear_arith);
        assert(digit_value('0') == 0);
    } else {
        assert(whole =~= text);
    }
}

/// A text of hexadecimal digits is the notation of the number that it stands for, padded to
/// its length.
pub proof fn lemma_hex_is_notation(text: Seq<char>)
    requires
        text.len() >= 1,
        all_lower_hex(text),
    ensures
        zero_padded(positional(number_of(text, 16), 16), text.len()) == text,
        number_of(text, 16) < vstd::arithmetic::power::pow(16, text.len()),
    decreases text.len(),
{
    let head = text.drop_last();
    let last = text.last();
    assert(is_lower_hex(text[text.len() - 1]));
    let digit = digit_value(last);
    assert(digit < 16 && digit_char(digit) == last);
    let front = number_of(head, 16);
    let value = number_of(text, 16);
    assert(value == front * 16 + digit);
    reveal(vstd::arithmetic::power::pow);
    if head.len() == 0 {
        assert(front == 0);
        assert(vstd::arithmetic::power::pow(16, 0) == 1);
        assert(positional(value, 16) =~= text);
    } else {
        assert forall|i: int| 0 <= i < head.len() implies is_lower_hex(#[trigger] head[i]) by {
            assert(head[i] == text[i]);
        }
        lemma_hex_is_notation(head);
        let before = positional(front, 16);
        assert(before.len() <= head.len());
        if front == 0 {
            assert(before.len() == 1 && before[0] == '0');
            assert forall|i: int| 0 <= i < head.len() implies #[trigger] head[i] == '0' by {
                assert(zero_padded(before, head.len())[i] == head[i]);
            }
            assert(positional(value, 16) =~= seq![last]);
            assert forall|i: int| 0 <= i < text.len() implies #[trigger] text[i] == zero_padded(
                seq![last],
                text.len(),
            )[i] by {
                if i < head.len() {
                    assert(head[i] == text[i]);
                }
            }
            assert(zero_padded(positional(value, 16), text.len()) =~= text);
        } else {
            assert(value / 16 == front && value % 16 == digit);
            assert(positional(value, 16) =~= before.push(last));
            assert(zero_padded(before.push(last), text.len()) =~= zero_padded(
                before,
                head.len(),
            ).push(last));
            assert(head.push(last) =~= text);
        }
    }
}

/// A sixty-four bit number takes sixteen hexadecimal digits when padded to that.
pub proof fn lemma_padded_hex16(value: u64)
    ensures
        zero_padded(positional(value as nat, 16), 16).len() == 16,
        all_lower_hex(zero_padded(positional(value as nat, 16), 16)),
        number_of(zero_padded(positional(value as nat, 16), 16), 16) == value,
{
    lemma_positional(value as nat, 16);
    lemma_zero_padded(positional(value as nat, 16), 16, 16);
    assert(vstd::arithmetic::power::pow(16, 16) == 0x1_0000_0000_0000_0000) by {
        reveal_with_fuel(vstd::arithmetic::power::pow, 17);
    }
    lemma_positional_width(value as nat, 16, 16);
}

/// A character is found at the first place at which it stands, and not found exactly where it
/// stands nowhere.
pub proof fn law_character_is_found_at_its_first_place(text: Seq<char>, c: char)
    ensures
        match first_position(text, c) {
            Some(position) => {
                &&& 0 <= position < text.len()
                &&& text[position] == c
                &&& forall|k: int| 0 <= k < position ==> #[trigger] text[k] != c
            },
            None => forall|k: int| 0 <= k < text.len() ==> #[trigger] text[k] != c,
        },
    decreases text.len(),
{
    if text.len() > 0 && text[0] != c {
        let rest = text.skip(1);
        law_character_is_found_at_its_first_place(rest, c);
        assert forall|k: int| 0 < k < text.len() implies #[trigger] text[k] == rest[k - 1] by {}
        if let Some(position) = first_position(rest, c) {
            assert(text[position + 1] == rest[position]);
        }
    }
}

/// A number is written in decimal digits without a leading zero, and what is written reads
/// back as the number.
pub proof fn law_decimal_reads_back(value: nat)
    ensures
        number_of(decimal(value), 10) == value,
        decimal(value).len() > 0,
        all_decimal(decimal(value)),
        value > 0 ==> decimal(value)[0] != '0',
        value == 0 ==> decimal(value) == seq!['0'],
    decreases value,
{
    let written = decimal(value);
    if value < 10 {
        assert(written =~= seq![digit_char(value)]);
        assert(written.drop_last() =~= Seq::<char>::empty());
        assert(number_of(written.drop_last(), 10) == 0);
        assert(digit_value(digit_char(value)) == value);
    } else {
        let rest = decimal(value / 10);
        law_decimal_reads_back(value / 10);
        assert(written == rest.push(digit_char(value % 10)));
        assert(written.drop_last() =~= rest);
        assert(digit_value(digit_char(value % 10)) == value % 10);
        assert(is_decimal_digit(digit_char(value % 10)));
        assert forall|i: int| 0 <= i < written.len() implies is_decimal_digit(
            #[trigger] written[i],
        ) by {
            if i < rest.len() {
                assert(written[i] == rest[i]);
            }
        }
    }
}

} // verus!

use vstd::prelude::*;

verus! {

/// What `encoding_rs::WINDOWS_1251.decode` gives for bytes: the text, or `None` where the bytes
/// hold a malformed sequence.
pub uninterp spec fn windows_1251_decoded(bytes: Seq<u8>) -> Option<Seq<char>>;

/// What `encoding_rs::WINDOWS_1251.encode` gives for a text: the bytes, or `None` where the text
/// holds a character that the encoding can't represent.
pub uninterp spec fn windows_1251_encoded(text: Seq<char>) -> Option<Seq<u8>>;

pub open spec fn is_ascii_bytes(bytes: Seq<u8>) -> bool {
    forall|i: int| 0 <= i < bytes.len() ==> bytes[i] < 128
}

pub open spec fn is_ascii_text(text: Seq<char>) -> bool {
    forall|i: int| 0 <= i < text.len() ==> (text[i] as u32) < 128
}

/// The text whose characters have the codes of `bytes`.
pub open spec fn ascii_text(bytes: Seq<u8>) -> Seq<char> {
    bytes.map_values(|byte: u8| byte as char)
}

/// The bytes that are the codes of the characters of `text`.
pub open spec fn ascii_bytes(text: Seq<char>) -> Seq<u8> {
    text.map_values(|c: char| c as u8)
}

/// The characters of a text, if there is one.
pub open spec fn optional_text(text: Option<String>) -> Option<Seq<char>> {
    match text {
        Some(text) => Some(text@),
        None => None,
    }
}

/// The bytes of an encoded text.
pub open spec fn encoded_view(bytes: Option<Vec<u8>>) -> Option<Seq<u8>> {
    match bytes {
        Some(bytes) => Some(bytes@),
        None => None,
    }
}

/// Decodes Windows-1251 text with `encoding_rs::WINDOWS_1251.decode`; `None` where the bytes
/// are malformed. The encoding is ASCII-compatible, and an ASCII-only input is given back as it
/// is (no byte of it can start a byte order mark); of other inputs only the name is stated.
#[verifier::external_body]
pub(crate) fn decode_windows_1251(bytes: &[u8]) -> (result: Option<String>)
    requires
        bytes@.len() <= usize::MAX / 4,
    ensures
        windows_1251_decoded(bytes@) == optional_text(result),
        is_ascii_bytes(bytes@) ==> optional_text(result) == Some(ascii_text(bytes@)),
{
    let (text, _, errors) = encoding_rs::WINDOWS_1251.decode(bytes);
    if errors {
        None
    } else {
        Some(text.into_owned())
    }
}

/// Encodes text to Windows-1251 with `encoding_rs::WINDOWS_1251.encode`; `None` where the text
/// holds an unmappable character. ASCII-only text is given back as its bytes; of other texts
/// only the name is stated. The call would panic only for a text of more than `isize::MAX - 9`
/// bytes, which no `str` in memory reaches.
#[verifier::external_body]
pub(crate) fn encode_windows_1251(text: &str) -> (result: Option<Vec<u8>>)
    ensures
        windows_1251_encoded(text@) == encoded_view(result),
        is_ascii_text(text@) ==> encoded_view(result) == Some(ascii_bytes(text@)),
{
    let (bytes, _, errors) = encoding_rs::WINDOWS_1251.encode(text);
    if errors {
        None
    } else {
        Some(bytes.into_owned())
    }
}

/// Appends a character with `String::push`.
#[verifier::external_body]
pub(crate) fn push_char(text: &mut String, c: char)
    ensures
        final(text)@ == old(text)@.push(c),
{
    text.push(c);
}

pub open spec fn is_digit(c: char) -> bool {
    '0' <= c && c <= '9'
}

pub open spec fn digit_value(c: char) -> int {
    c as int - '0' as int
}

pub open spec fn digit_char(n: int) -> char {
    if n == 0 {
        '0'
    } else if n == 1 {
        '1'
    } else if n == 2 {
        '2'
    } else if n == 3 {
        '3'
    } else if n == 4 {
        '4'
    } else if n == 5 {
        '5'
    } else if n == 6 {
        '6'
    } else if n == 7 {
        '7'
    } else if n == 8 {
        '8'
    } else {
        '9'
    }
}

/// The number that decimal digits stand for.
pub open spec fn digits_value(digits: Seq<char>) -> int
    decreases digits.len(),
{
    if digits.len() == 0 {
        0
    } else {
        digits_value(digits.drop_last()) * 10 + digit_value(digits.last())
    }
}

/// The digits of an unsigned number's text: what follows an optional `+`.
pub open spec fn unsigned_digits(text: Seq<char>) -> Seq<char> {
    if text.len() > 0 && text[0] == '+' { text.drop_first() } else { text }
}

pub open spec fn all_digits(text: Seq<char>) -> bool {
    forall|i: int| 0 <= i < text.len() ==> is_digit(#[trigger] text[i])
}

/// An unsigned number as `str::parse` reads it: an optional `+`, then one or more ASCII digits;
/// `None` for anything else or a number over `usize::MAX`.
pub open spec fn spec_parse_unsigned(text: Seq<char>) -> Option<int> {
    let digits = unsigned_digits(text);
    if digits.len() > 0 && all_digits(digits) && 0 <= digits_value(digits) <= usize::MAX {
        Some(digits_value(digits))
    } else {
        None
    }
}

proof fn lemma_digits_value_nonneg(digits: Seq<char>)
    requires
        forall|i: int| 0 <= i < digits.len() ==> is_digit(#[trigger] digits[i]),
    ensures
        digits_value(digits) >= 0,
    decreases digits.len(),
{
    if digits.len() > 0 {
        assert(is_digit(digits[digits.len() - 1]));
        lemma_digits_value_nonneg(digits.drop_last());
    }
}

/// Parses an unsigned number as `str::parse::<usize>` does.
pub fn parse_unsigned(text: &str) -> (result: Option<usize>)
    ensures
        match result {
            Some(n) => spec_parse_unsigned(text@) == Some(n as int),
            None => spec_parse_unsigned(text@) is None,
        },
{
    let len = text.unicode_len();
    let start: usize = if len > 0 && text.get_char(0) == '+' { 1 } else { 0 };
    let ghost digits = unsigned_digits(text@);
    assert(digits =~= text@.subrange(start as int, len as int));
    if start == len {
        return None;
    }
    let mut value: usize = 0;
    let mut i: usize = start;
    while i < len
        invariant
            len == text@.len(),
            start <= i <= len,
            digits =~= text@.subrange(start as int, len as int),
            digits == unsigned_digits(text@),
            forall|k: int| start <= k < i ==> is_digit(#[trigger] text@[k]),
            value == digits_value(text@.subrange(start as int, i as int)),
        decreases len - i,
    {
        let c = text.get_char(i);
        if !('0' <= c && c <= '9') {
            assert(!is_digit(digits[i - start]));
            return None;
        }
        let d = (c as u32 - '0' as u32) as usize;
        assert(text@.subrange(start as int, i + 1).drop_last() =~= text@.subrange(start as int, i as int));
        if value > (usize::MAX - d) / 10 {
            proof {
                assert forall|k: int| 0 <= k < text@.subrange(start as int, i + 1).len() implies is_digit(
                    #[trigger] text@.subrange(start as int, i + 1)[k]) by {
                    assert(text@.subrange(start as int, i + 1)[k] == text@[start + k]);
                }
                assert(digits_value(text@.subrange(start as int, i + 1)) == value * 10 + d);
                assert(value * 10 + d > usize::MAX) by (nonlinear_arith)
                    requires value > (usize::MAX - d) / 10, d <= 9;
                // Every later digit only grows the number.
                lemma_prefix_value_grows(digits, (i + 1 - start) as int);
                assert(digits.subrange(0, (i + 1 - start) as int) =~= text@.subrange(start as int, i + 1));
            }
            return None;
        }
        assert(value * 10 + d <= usize::MAX) by (nonlinear_arith)
            requires value <= (usize::MAX - d) / 10, d <= 9;
        value = value * 10 + d;
        i = i + 1;
    }
    assert(text@.subrange(start as int, len as int) =~= digits);
    Some(value)
}

/// The number of a prefix of digits is no more than that of the whole.
pub proof fn lemma_prefix_value_grows(digits: Seq<char>, n: int)
    requires
        0 <= n <= digits.len(),
        forall|i: int| 0 <= i < n ==> is_digit(#[trigger] digits[i]),
    ensures
        (forall|i: int| 0 <= i < digits.len() ==> is_digit(#[trigger] digits[i])) ==> digits_value(digits)
            >= digits_value(digits.subrange(0, n)),
    decreases digits.len() - n,
{
    if n < digits.len() {
        if forall|i: int| 0 <= i < digits.len() ==> is_digit(#[trigger] digits[i]) {
            lemma_prefix_value_grows(digits, n + 1);
            assert(digits.subrange(0, n + 1).drop_last() =~= digits.subrange(0, n));
            lemma_digits_value_nonneg(digits.subrange(0, n));
            assert(is_digit(digits[n]));
        }
    } else {
        assert(digits.subrange(0, n) =~= digits);
    }
}

/// The decimal digits of a number.
pub open spec fn decimal(n: nat) -> Seq<char>
    decreases n,
{
    if n < 10 {
        seq![digit_char(n as int)]
    } else {
        decimal(n / 10).push(digit_char((n % 10) as int))
    }
}

/// A number as `{}` formats it: a minus sign for a negative one, then its decimal digits.
pub open spec fn signed_decimal(n: int) -> Seq<char> {
    if n < 0 {
        seq!['-'] + decimal((-n) as nat)
    } else {
        decimal(n as nat)
    }
}

/// A number as `{:0width$}` formats it: its decimal digits, with zeros before them up to `width`.
pub open spec fn zero_padded(n: nat, width: nat) -> Seq<char> {
    let digits = decimal(n);
    if digits.len() >= width {
        digits
    } else {
        Seq::new((width - digits.len()) as nat, |i: int| '0') + digits
    }
}

pub proof fn lemma_decimal_len(n: nat)
    ensures
        1 <= decimal(n).len(),
        n < 10 ==> decimal(n).len() == 1,
        n < 100 ==> decimal(n).len() <= 2,
        n < 1000 ==> decimal(n).len() <= 3,
        n < 10000 ==> decimal(n).len() <= 4,
        is_ascii_text(decimal(n)),
    decreases n,
{
    if n >= 10 {
        lemma_decimal_len(n / 10);
    }
}

/// The digit of a number below ten.
fn digit(n: u64) -> (result: char)
    requires
        n < 10,
    ensures
        result == digit_char(n as int),
{
    match n {
        0 => '0',
        1 => '1',
        2 => '2',
        3 => '3',
        4 => '4',
        5 => '5',
        6 => '6',
        7 => '7',
        8 => '8',
        _ => '9',
    }
}

/// Appends the decimal digits of a number.
pub fn push_decimal(text: &mut String, n: u64)
    ensures
        final(text)@ == old(text)@ + decimal(n as nat),
    decreases n,
{
    if n >= 10 {
        push_decimal(text, n / 10);
    }
    push_char(text, digit(n % 10));
}

/// Appends a number as `{}` formats it.
pub fn push_signed_decimal(text: &mut String, n: i64)
    ensures
        final(text)@ == old(text)@ + signed_decimal(n as int),
{
    if n < 0 {
        push_char(text, '-');
        let magnitude: u64 = if n == i64::MIN { 0x8000_0000_0000_0000 } else { (-n) as u64 };
        push_decimal(text, magnitude);
    } else {
        push_decimal(text, n as u64);
    }
}

/// Appends a number as `{:0width$}` formats it.
pub fn push_zero_padded(text: &mut String, n: u64, width: usize)
    ensures
        final(text)@ == old(text)@ + zero_padded(n as nat, width as nat),
{
    let mut digits = String::new();
    push_decimal(&mut digits, n);
    let count = digits.unicode_len();
    let mut i: usize = count;
    let ghost start = text@;
    while i < width
        invariant
            count == decimal(n as nat).len(),
            count <= i <= width || (i == count && count >= width),
            text@ == start + Seq::new((i - count) as nat, |k: int| '0'),
        decreases width - i,
    {
        push_char(text, '0');
        i = i + 1;
        assert(text@ =~= start + Seq::new((i - count) as nat, |k: int| '0'));
    }
    text.append(digits.as_str());
    if count >= width {
        assert(text@ =~= start + zero_padded(n as nat, width as nat));
    } else {
        assert(text@ =~= start + zero_padded(n as nat, width as nat));
    }
}

} // verus!

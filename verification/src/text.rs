//! Text primitives: characters, slices, numerals, trimming and searching.
//!
//! A string is modelled by its sequence of characters, and by the UTF-8
//! encoding of that sequence where bytes matter.

use vstd::prelude::*;
use vstd::string::*;

verus! {

/// `String::push` appends one character to the end of the string.
pub assume_specification[ String::push ](s: &mut String, c: char)
    ensures
        final(s)@ == old(s)@.push(c),
;

/// The characters of a string, in order.
pub fn chars_of(s: &str) -> (out: Vec<char>)
    ensures
        out@ == s@,
{
    let mut out: Vec<char> = Vec::new();
    for c in it: s.chars()
        invariant
            out@ == it.seq().take(it.index() as int),
            it.seq() == s@,
    {
        out.push(c);
    }
    out
}

/// The string made of the characters `from..to`.
pub fn text_of(chars: &Vec<char>, from: usize, to: usize) -> (out: String)
    requires
        from <= to <= chars@.len(),
    ensures
        out@ == chars@.subrange(from as int, to as int),
{
    let mut out: String = String::new();
    let mut i: usize = from;
    while i < to
        invariant
            from <= i <= to <= chars@.len(),
            out@ == chars@.subrange(from as int, i as int),
        decreases to - i,
    {
        out.push(chars[i]);
        i = i + 1;
        assert(chars@.subrange(from as int, i as int) =~= chars@.subrange(from as int, i - 1).push(chars@[i - 1]));
    }
    out
}

/// Three texts joined.
pub fn concat3(a: &str, b: &str, c: &str) -> (out: String)
    ensures
        out@ == a@ + b@ + c@,
{
    let mut out: String = a.to_owned();
    out.append(b);
    out.append(c);
    out
}

/// Whether two strings hold the same characters.
pub fn same_text(a: &str, b: &str) -> (r: bool)
    ensures
        r == (a@ == b@),
{
    let x = chars_of(a);
    let y = chars_of(b);
    if x.len() != y.len() {
        return false;
    }
    let mut i: usize = 0;
    while i < x.len()
        invariant
            i <= x@.len(),
            x@.len() == y@.len(),
            x@ == a@,
            y@ == b@,
            forall|j: int| 0 <= j < i ==> x@[j] == y@[j],
        decreases x@.len() - i,
    {
        if x[i] != y[i] {
            return false;
        }
        i = i + 1;
    }
    assert(a@ =~= b@);
    true
}

/// The character of a decimal digit.
pub open spec fn digit_char(d: int) -> char {
    (('0' as int) + d) as char
}

/// The decimal numeral of a natural number, without leading zeros.
pub open spec fn decimal(n: nat) -> Seq<char>
    decreases n,
{
    if n < 10 {
        seq![digit_char(n as int)]
    } else {
        decimal(n / 10).push(digit_char((n % 10) as int))
    }
}

/// The decimal numeral of an integer, with a leading minus where negative.
pub open spec fn signed_decimal(i: int) -> Seq<char> {
    if i < 0 {
        seq!['-'] + decimal((-i) as nat)
    } else {
        decimal(i as nat)
    }
}

/// Writes a number in decimal.
pub fn decimal_text(n: u64) -> (out: String)
    ensures
        out@ == decimal(n as nat),
    decreases n,
{
    let digit: char = (('0' as u8) + (n % 10) as u8) as char;
    let mut out: String = if n < 10 {
        String::new()
    } else {
        decimal_text(n / 10)
    };
    out.push(digit);
    assert(n < 10 ==> out@ =~= decimal(n as nat));
    out
}

/// Writes a signed number in decimal.
pub fn signed_decimal_text(i: i64) -> (out: String)
    ensures
        out@ == signed_decimal(i as int),
{
    if i >= 0 {
        decimal_text(i as u64)
    } else {
        let magnitude: u64 = if i == i64::MIN {
            0x8000_0000_0000_0000
        } else {
            (-i) as u64
        };
        let mut out: String = String::new();
        out.push('-');
        let digits: String = decimal_text(magnitude);
        out.append(digits.as_str());
        assert(out@ =~= seq!['-'] + decimal((-i) as nat));
        out
    }
}

/// A decimal numeral has a character at least, and all of them are digits.
pub proof fn lemma_decimal_chars(n: nat)
    ensures
        decimal(n).len() > 0,
        forall|i: int| 0 <= i < decimal(n).len() ==> '0' <= #[trigger] decimal(n)[i] <= '9',
    decreases n,
{
    if n >= 10 {
        lemma_decimal_chars(n / 10);
    }
}

/// A decimal numeral names one number only.
pub proof fn lemma_decimal_injective(a: nat, b: nat)
    requires
        decimal(a) == decimal(b),
    ensures
        a == b,
    decreases a,
{
    lemma_decimal_chars(a);
    lemma_decimal_chars(b);
    if a < 10 {
        if b >= 10 {
            lemma_decimal_chars(b / 10);
            assert(decimal(b).len() >= 2);
        } else {
            assert(decimal(a)[0] == digit_char(a as int));
            assert(decimal(b)[0] == digit_char(b as int));
        }
    } else if b < 10 {
        lemma_decimal_chars(a / 10);
        assert(decimal(a).len() >= 2);
    } else {
        assert(decimal(a).last() == digit_char((a % 10) as int));
        assert(decimal(b).last() == digit_char((b % 10) as int));
        assert(a % 10 == b % 10);
        assert(decimal(a).drop_last() =~= decimal(a / 10));
        assert(decimal(b).drop_last() =~= decimal(b / 10));
        lemma_decimal_injective(a / 10, b / 10);
    }
}

/// A signed decimal numeral names one number only.
pub proof fn lemma_signed_decimal_injective(a: int, b: int)
    requires
        signed_decimal(a) == signed_decimal(b),
    ensures
        a == b,
{
    lemma_decimal_chars(if a < 0 { (-a) as nat } else { a as nat });
    lemma_decimal_chars(if b < 0 { (-b) as nat } else { b as nat });
    if a < 0 {
        assert(signed_decimal(a)[0] == '-');
        if b < 0 {
            assert(signed_decimal(a).skip(1) =~= decimal((-a) as nat));
            assert(signed_decimal(b).skip(1) =~= decimal((-b) as nat));
            lemma_decimal_injective((-a) as nat, (-b) as nat);
        }
    } else if b < 0 {
        assert(signed_decimal(b)[0] == '-');
    } else {
        lemma_decimal_injective(a as nat, b as nat);
    }
}

/// The value of a digit in the given radix, in either case for letters.
pub open spec fn digit_value(c: char, radix: int) -> Option<int> {
    let v = if '0' <= c <= '9' {
        c as int - '0' as int
    } else if 'a' <= c <= 'z' {
        c as int - 'a' as int + 10
    } else if 'A' <= c <= 'Z' {
        c as int - 'A' as int + 10
    } else {
        radix
    };
    if v < radix {
        Some(v)
    } else {
        None
    }
}

/// The number that a sequence of digits writes down, if all are digits.
pub open spec fn digits_value(s: Seq<char>, radix: int) -> Option<int>
    decreases s.len(),
{
    if s.len() == 0 {
        Some(0)
    } else {
        match (digits_value(s.drop_last(), radix), digit_value(s.last(), radix)) {
            (Some(high), Some(low)) => Some(high * radix + low),
            _ => None,
        }
    }
}

/// The unsigned number that a numeral writes down: at least one digit, after
/// at most one plus sign.
pub open spec fn numeral(s: Seq<char>, radix: int) -> Option<int> {
    let digits = if s.len() > 0 && s[0] == '+' {
        s.skip(1)
    } else {
        s
    };
    if digits.len() == 0 {
        None
    } else {
        digits_value(digits, radix)
    }
}

/// The unsigned number that a numeral writes down, where it is within a bound.
pub open spec fn numeral_within(s: Seq<char>, radix: int, max: int) -> Option<int> {
    match numeral(s, radix) {
        Some(v) if v <= max => Some(v),
        _ => None,
    }
}

/// The value of one digit.
fn digit_of(c: char, radix: u64) -> (out: Option<u64>)
    requires
        radix <= 36,
    ensures
        match out {
            Some(v) => digit_value(c, radix as int) == Some(v as int),
            None => digit_value(c, radix as int) is None,
        },
{
    let v: u64 = if '0' <= c && c <= '9' {
        (c as u64) - ('0' as u64)
    } else if 'a' <= c && c <= 'z' {
        (c as u64) - ('a' as u64) + 10
    } else if 'A' <= c && c <= 'Z' {
        (c as u64) - ('A' as u64) + 10
    } else {
        radix
    };
    if v < radix {
        Some(v)
    } else {
        None
    }
}

/// More digits never make a smaller number.
proof fn lemma_digits_value_grows(s: Seq<char>, i: int, radix: int)
    requires
        0 <= i <= s.len(),
        2 <= radix <= 36,
    ensures
        digits_value(s, radix) is Some ==> digits_value(s.take(i), radix) is Some && 0 <= digits_value(
            s.take(i),
            radix,
        )->0 <= digits_value(s, radix)->0,
    decreases s.len() - i,
{
    if i < s.len() {
        lemma_digits_value_grows(s, i + 1, radix);
        assert(s.take(i + 1).drop_last() =~= s.take(i));
        if digits_value(s, radix) is Some {
            lemma_digits_value_natural(s.take(i), radix);
            let high = digits_value(s.take(i), radix)->0;
            assert(high <= high * radix) by (nonlinear_arith)
                requires
                    high >= 0,
                    radix >= 2,
            ;
        }
    } else {
        assert(s.take(i) =~= s);
        lemma_digits_value_natural(s, radix);
    }
}

/// A sequence of digits writes a natural number.
proof fn lemma_digits_value_natural(s: Seq<char>, radix: int)
    requires
        2 <= radix <= 36,
    ensures
        digits_value(s, radix) is Some ==> digits_value(s, radix)->0 >= 0,
    decreases s.len(),
{
    if s.len() > 0 {
        lemma_digits_value_natural(s.drop_last(), radix);
        if digits_value(s, radix) is Some {
            let high = digits_value(s.drop_last(), radix)->0;
            assert(high * radix >= 0) by (nonlinear_arith)
                requires
                    high >= 0,
                    radix >= 2,
            ;
        }
    }
}

/// A numeral writes a natural number.
pub proof fn lemma_numeral_natural(s: Seq<char>, radix: int)
    requires
        2 <= radix <= 36,
    ensures
        numeral(s, radix) is Some ==> numeral(s, radix)->0 >= 0,
{
    lemma_digits_value_natural(s, radix);
    lemma_digits_value_natural(s.skip(1), radix);
}

/// Reads the unsigned numeral that the characters `from..to` write, where the
/// number is at most `max`.
pub fn parse_numeral(chars: &Vec<char>, from: usize, to: usize, radix: u64, max: u64) -> (out: Option<u64>)
    requires
        from <= to <= chars@.len(),
        2 <= radix <= 36,
    ensures
        match out {
            Some(v) => numeral_within(chars@.subrange(from as int, to as int), radix as int, max as int) == Some(
                v as int,
            ),
            None => numeral_within(chars@.subrange(from as int, to as int), radix as int, max as int) is None,
        },
{
    let start: usize = if from < to && chars[from] == '+' {
        from + 1
    } else {
        from
    };
    let ghost whole = chars@.subrange(from as int, to as int);
    let ghost digits = chars@.subrange(start as int, to as int);
    assert(digits =~= (if whole.len() > 0 && whole[0] == '+' {
        whole.skip(1)
    } else {
        whole
    }));
    if start == to {
        return None;
    }
    let mut value: u64 = 0;
    let mut i: usize = start;
    while i < to
        invariant
            from <= start <= i <= to <= chars@.len(),
            2 <= radix <= 36,
            start < to,
            whole == chars@.subrange(from as int, to as int),
            digits == chars@.subrange(start as int, to as int),
            digits == (if whole.len() > 0 && whole[0] == '+' {
                whole.skip(1)
            } else {
                whole
            }),
            digits_value(digits.take(i - start), radix as int) == Some(value as int),
            value <= max,
        decreases to - i,
    {
        proof {
            lemma_digits_value_grows(digits, i - start + 1, radix as int);
            assert(digits.take(i - start + 1).drop_last() =~= digits.take(i - start));
            assert(digits.take(i - start + 1).last() == chars@[i as int]);
        }
        let next: Option<u64> = match digit_of(chars[i], radix) {
            None => None,
            Some(d) => match value.checked_mul(radix) {
                None => None,
                Some(high) => high.checked_add(d),
            },
        };
        match next {
            None => {
                return None;
            },
            Some(v) => {
                if v > max {
                    return None;
                }
                value = v;
            },
        }
        i = i + 1;
    }
    assert(digits.take(i - start) =~= digits);
    Some(value)
}

/// Reads a number of at most `max` off a decimal numeral.
pub fn parse_decimal(s: &str, max: u64) -> (out: Option<u64>)
    ensures
        match out {
            Some(v) => numeral_within(s@, 10, max as int) == Some(v as int),
            None => numeral_within(s@, 10, max as int) is None,
        },
{
    let chars: Vec<char> = chars_of(s);
    assert(chars@.subrange(0, chars@.len() as int) =~= chars@);
    parse_numeral(&chars, 0, chars.len(), 10, max)
}

/// Reads a 16-bit number off a decimal numeral.
pub fn parse_u16(s: &str) -> (out: Option<u16>)
    ensures
        match out {
            Some(v) => numeral_within(s@, 10, u16::MAX as int) == Some(v as int),
            None => numeral_within(s@, 10, u16::MAX as int) is None,
        },
{
    match parse_decimal(s, u16::MAX as u64) {
        Some(v) => Some(v as u16),
        None => None,
    }
}

/// Whether a character has the Unicode property `White_Space`.
pub open spec fn is_white_space(c: char) -> bool {
    let v = c as int;
    ||| 0x9 <= v <= 0xd
    ||| v == 0x20
    ||| v == 0x85
    ||| v == 0xa0
    ||| v == 0x1680
    ||| 0x2000 <= v <= 0x200a
    ||| 0x2028 <= v <= 0x2029
    ||| v == 0x202f
    ||| v == 0x205f
    ||| v == 0x3000
}

/// A text without its leading white space.
pub open spec fn trim_start(s: Seq<char>) -> Seq<char>
    decreases s.len(),
{
    if s.len() > 0 && is_white_space(s[0]) {
        trim_start(s.drop_first())
    } else {
        s
    }
}

/// A text without its trailing white space.
pub open spec fn trim_end(s: Seq<char>) -> Seq<char>
    decreases s.len(),
{
    if s.len() > 0 && is_white_space(s.last()) {
        trim_end(s.drop_last())
    } else {
        s
    }
}

/// A text without the white space around it.
pub open spec fn trim(s: Seq<char>) -> Seq<char> {
    trim_end(trim_start(s))
}

/// Whether a character is white space.
fn white_space(c: char) -> (r: bool)
    ensures
        r == is_white_space(c),
{
    let v: u32 = c as u32;
    (0x9 <= v && v <= 0xd) || v == 0x20 || v == 0x85 || v == 0xa0 || v == 0x1680 || (0x2000 <= v && v <= 0x200a) || (
    0x2028 <= v && v <= 0x2029) || v == 0x202f || v == 0x205f || v == 0x3000
}

/// The range of the characters `from..to` that is left without the white space
/// around it.
pub fn trim_range(chars: &Vec<char>, from: usize, to: usize) -> (out: (usize, usize))
    requires
        from <= to <= chars@.len(),
    ensures
        from <= out.0 <= out.1 <= to,
        chars@.subrange(out.0 as int, out.1 as int) == trim(chars@.subrange(from as int, to as int)),
{
    let mut i: usize = from;
    while i < to && white_space(chars[i])
        invariant
            from <= i <= to <= chars@.len(),
            trim_start(chars@.subrange(i as int, to as int)) == trim_start(chars@.subrange(from as int, to as int)),
        decreases to - i,
    {
        assert(chars@.subrange(i as int, to as int).drop_first() =~= chars@.subrange(i + 1, to as int));
        i = i + 1;
    }
    let mut j: usize = to;
    while i < j && white_space(chars[j - 1])
        invariant
            from <= i <= j <= to <= chars@.len(),
            trim_end(chars@.subrange(i as int, j as int)) == trim(chars@.subrange(from as int, to as int)),
        decreases j - i,
    {
        assert(chars@.subrange(i as int, j as int).drop_last() =~= chars@.subrange(i as int, j - 1));
        j = j - 1;
    }
    (i, j)
}

/// `std::str::from_utf8`: succeeds on valid UTF-8 alone, and then gives the
/// text that the bytes encode.
#[verifier::external_body]
pub(crate) fn utf8_text(bytes: &[u8]) -> (out: Option<String>)
    ensures
        match out {
            Some(s) => vstd::utf8::valid_utf8(bytes@) && s@ == vstd::utf8::decode_utf8(bytes@),
            None => !vstd::utf8::valid_utf8(bytes@),
        },
{
    std::str::from_utf8(bytes).ok().map(|s| s.to_string())
}

/// The text that bytes stand for once each invalid stretch has been replaced.
pub uninterp spec fn utf8_lossy(bytes: Seq<u8>) -> Seq<char>;

/// `String::from_utf8_lossy`: a function of the bytes alone, which gives the
/// encoded text where the bytes are valid UTF-8. What stands for an invalid
/// stretch is left to the name.
#[verifier::external_body]
fn lossy_text(bytes: &[u8]) -> (out: String)
    ensures
        out@ == utf8_lossy(bytes@),
        vstd::utf8::valid_utf8(bytes@) ==> out@ == vstd::utf8::decode_utf8(bytes@),
{
    String::from_utf8_lossy(bytes).into_owned()
}

/// The text that bytes are shown as: what they encode where they are UTF-8, and
/// else with each invalid stretch replaced.
pub open spec fn shown(bytes: Seq<u8>) -> Seq<char> {
    if vstd::utf8::valid_utf8(bytes) {
        vstd::utf8::decode_utf8(bytes)
    } else {
        utf8_lossy(bytes)
    }
}

/// The text that bytes are shown as.
pub fn shown_text(bytes: &[u8]) -> (out: String)
    ensures
        out@ == shown(bytes@),
{
    lossy_text(bytes)
}

/// The characters of each string of a list.
pub open spec fn texts(list: Seq<String>) -> Seq<Seq<char>> {
    list.map_values(|s: String| s@)
}

/// A character with ASCII capitals turned into small letters.
pub open spec fn ascii_lower(c: char) -> char {
    if 'A' <= c <= 'Z' {
        ((c as int) + 32) as char
    } else {
        c
    }
}

/// Whether two texts are the same but for the case of ASCII letters.
pub open spec fn same_but_case(a: Seq<char>, b: Seq<char>) -> bool {
    &&& a.len() == b.len()
    &&& forall|i: int| 0 <= i < a.len() ==> ascii_lower(#[trigger] a[i]) == ascii_lower(b[i])
}

/// A character with ASCII capitals turned into small letters.
fn lower_char(c: char) -> (out: char)
    ensures
        out == ascii_lower(c),
{
    if 'A' <= c && c <= 'Z' {
        ((c as u8) + 32) as char
    } else {
        c
    }
}

/// Whether two texts are the same but for the case of ASCII letters.
pub fn same_ignoring_case(a: &str, b: &str) -> (r: bool)
    ensures
        r == same_but_case(a@, b@),
{
    let x: Vec<char> = chars_of(a);
    let y: Vec<char> = chars_of(b);
    if x.len() != y.len() {
        return false;
    }
    let mut i: usize = 0;
    while i < x.len()
        invariant
            i <= x@.len(),
            x@.len() == y@.len(),
            x@ == a@,
            y@ == b@,
            forall|j: int| 0 <= j < i ==> ascii_lower(#[trigger] x@[j]) == ascii_lower(y@[j]),
        decreases x@.len() - i,
    {
        if lower_char(x[i]) != lower_char(y[i]) {
            return false;
        }
        i = i + 1;
    }
    true
}

/// What stands between the separators of a text.
pub open spec fn split(s: Seq<char>, separator: char) -> Seq<Seq<char>>
    decreases s.len(),
{
    if s.len() == 0 {
        seq![seq![]]
    } else {
        let before = split(s.drop_last(), separator);
        if s.last() == separator {
            before.push(seq![])
        } else {
            before.drop_last().push(before.last().push(s.last()))
        }
    }
}

/// Cuts a text at its separators.
pub fn split_text(s: &str, separator: char) -> (out: Vec<String>)
    ensures
        texts(out@) == split(s@, separator),
{
    let chars: Vec<char> = chars_of(s);
    let mut out: Vec<String> = Vec::new();
    let mut start: usize = 0;
    let mut i: usize = 0;
    assert(chars@.subrange(0, 0) =~= Seq::<char>::empty());
    assert(split(chars@.take(0), separator) =~= texts(out@).push(Seq::<char>::empty()));
    while i < chars.len()
        invariant
            chars@ == s@,
            start <= i <= chars@.len(),
            split(chars@.take(i as int), separator) == texts(out@).push(chars@.subrange(start as int, i as int)),
        decreases chars@.len() - i,
    {
        let ghost before = texts(out@);
        let ghost piece = chars@.subrange(start as int, i as int);
        assert(chars@.take(i + 1).drop_last() =~= chars@.take(i as int));
        if chars[i] == separator {
            out.push(text_of(&chars, start, i));
            assert(texts(out@) =~= before.push(piece));
            assert(chars@.subrange(i + 1, i + 1) =~= Seq::<char>::empty());
            start = i + 1;
        } else {
            assert(before.push(piece).drop_last() =~= before);
            assert(chars@.subrange(start as int, i + 1) =~= piece.push(chars@[i as int]));
        }
        i = i + 1;
    }
    let ghost before = texts(out@);
    out.push(text_of(&chars, start, i));
    assert(chars@.take(i as int) =~= s@);
    assert(texts(out@) =~= before.push(chars@.subrange(start as int, i as int)));
    out
}

/// Numerals are written digit by digit: a number below ten is one digit, and ten
/// times a number and a digit more is that number's numeral and the digit.
pub proof fn law_numerals_are_written_in_tens(n: nat, d: nat)
    requires
        d < 10,
    ensures
        decimal(d) == seq![('0' as int + d) as char],
        n > 0 ==> decimal(10 * n + d) == decimal(n).push(('0' as int + d) as char),
{
    if n > 0 {
        assert((10 * n + d) / 10 == n);
        assert((10 * n + d) % 10 == d);
    }
}

/// The digits of a decimal numeral have its number as their value.
proof fn lemma_decimal_value(n: nat)
    ensures
        digits_value(decimal(n), 10) == Some(n as int),
    decreases n,
{
    let s = decimal(n);
    if n < 10 {
        assert(s.drop_last() =~= Seq::<char>::empty());
        assert(digits_value(s.drop_last(), 10) == Some(0int));
        assert(digit_value(s.last(), 10) == Some(n as int));
    } else {
        lemma_decimal_value(n / 10);
        assert(s.drop_last() =~= decimal(n / 10));
        assert(digit_value(s.last(), 10) == Some((n % 10) as int));
        assert(n / 10 * 10 + n % 10 == n);
    }
}

/// A number that is written in decimal is read back, with or without a plus sign
/// before it, wherever it is within the bound; and no number is read off nothing or
/// off a sign alone.
pub proof fn law_numeral_reads_back(n: nat, max: int)
    ensures
        numeral(decimal(n), 10) == Some(n as int),
        numeral(seq!['+'] + decimal(n), 10) == Some(n as int),
        numeral_within(decimal(n), 10, max) == (if n <= max {
            Some(n as int)
        } else {
            None
        }),
        numeral(seq![], 10) is None,
        numeral(seq!['+'], 10) is None,
{
    lemma_decimal_value(n);
    lemma_decimal_chars(n);
    assert(decimal(n)[0] != '+');
    let signed = seq!['+'] + decimal(n);
    assert(signed[0] == '+');
    assert(signed.skip(1) =~= decimal(n));
    assert(seq!['+'].skip(1) =~= Seq::<char>::empty());
}

/// A numeral that holds anything but digits, apart from one plus sign before them,
/// is none.
pub proof fn law_numeral_holds_digits_only(s: Seq<char>, i: int)
    requires
        numeral(s, 10) is Some,
        0 <= i < s.len(),
    ensures
        '0' <= s[i] <= '9' || (i == 0 && s[0] == '+' && s.len() > 1),
{
    let digits = if s.len() > 0 && s[0] == '+' {
        s.skip(1)
    } else {
        s
    };
    if s[0] == '+' {
        if i > 0 {
            lemma_value_needs_digits(digits, i - 1);
            assert(digits[i - 1] == s[i]);
        }
    } else {
        lemma_value_needs_digits(digits, i);
    }
}

/// Only digits have a value.
proof fn lemma_value_needs_digits(s: Seq<char>, i: int)
    requires
        digits_value(s, 10) is Some,
        0 <= i < s.len(),
    ensures
        '0' <= s[i] <= '9',
    decreases s.len(),
{
    if i < s.len() - 1 {
        lemma_value_needs_digits(s.drop_last(), i);
        assert(s.drop_last()[i] == s[i]);
    }
}

/// Pieces with a separator between each two.
pub open spec fn rejoined(pieces: Seq<Seq<char>>, separator: char) -> Seq<char>
    decreases pieces.len(),
{
    if pieces.len() == 0 {
        seq![]
    } else if pieces.len() == 1 {
        pieces[0]
    } else {
        rejoined(pieces.drop_last(), separator).push(separator) + pieces.last()
    }
}

/// Cutting a text at its separators loses nothing: the pieces with the separators
/// between them are the text again, and no piece holds a separator.
pub proof fn law_split_rejoins(s: Seq<char>, separator: char)
    ensures
        split(s, separator).len() > 0,
        rejoined(split(s, separator), separator) == s,
        forall|i: int| 0 <= i < split(s, separator).len() ==> !(#[trigger] split(s, separator)[i]).contains(separator),
    decreases s.len(),
{
    let all = split(s, separator);
    if s.len() == 0 {
        assert(s =~= Seq::<char>::empty());
    } else {
        let before = split(s.drop_last(), separator);
        law_split_rejoins(s.drop_last(), separator);
        let front = before.drop_last();
        if s.last() == separator {
            assert(all.drop_last() =~= before);
            assert(rejoined(all, separator) =~= s);
        } else {
            let grown = before.last().push(s.last());
            assert(all.drop_last() =~= front);
            assert(all.last() == grown);
            if before.len() == 1 {
                assert(all[0] == grown);
                assert(before[0] == before.last());
                assert(rejoined(before, separator) == before[0]);
                assert(grown =~= s);
            } else {
                let head = rejoined(front, separator).push(separator);
                assert(rejoined(before, separator) == head + before.last());
                assert(rejoined(all, separator) == head + grown);
                assert(head + grown =~= (head + before.last()).push(s.last()));
                assert(s.drop_last().push(s.last()) =~= s);
            }
            assert forall|i: int| 0 <= i < all.len() implies !(#[trigger] all[i]).contains(separator) by {
                if i < front.len() {
                    assert(all[i] == before[i]);
                } else {
                    assert(all[i] == grown);
                    assert(!before[before.len() - 1].contains(separator));
                    if grown.contains(separator) {
                        let k = choose|k: int| 0 <= k < grown.len() && grown[k] == separator;
                        if k < before.last().len() {
                            assert(before.last()[k] == separator);
                        }
                    }
                }
            }
        }
    }
}

/// Trimming takes white space off both ends and nothing else: what is left neither
/// begins nor ends in white space, and stands in the text behind as much of it as
/// was taken off before it and before as much as was taken off behind it.
pub proof fn law_trim_takes_white_space_only(s: Seq<char>) -> (cut: (int, int))
    ensures
        0 <= cut.0 <= cut.1 <= s.len(),
        trim(s) == s.subrange(cut.0, cut.1),
        forall|i: int| 0 <= i < cut.0 ==> is_white_space(#[trigger] s[i]),
        forall|i: int| cut.1 <= i < s.len() ==> is_white_space(#[trigger] s[i]),
        trim(s).len() > 0 ==> !is_white_space(trim(s)[0]) && !is_white_space(trim(s).last()),
{
    let from = lemma_trim_start(s);
    let inner = s.skip(from);
    let kept = lemma_trim_end(inner);
    assert(inner.take(kept) =~= s.subrange(from, from + kept));
    assert forall|i: int| from + kept <= i < s.len() implies is_white_space(#[trigger] s[i]) by {
        assert(inner[i - from] == s[i]);
    }
    if kept > 0 {
        assert(inner[0] == trim(s)[0]);
    }
    (from, from + kept)
}

/// What is taken off the front of a text is white space, and what is left does not
/// begin with any.
proof fn lemma_trim_start(s: Seq<char>) -> (from: int)
    ensures
        0 <= from <= s.len(),
        trim_start(s) == s.skip(from),
        forall|i: int| 0 <= i < from ==> is_white_space(#[trigger] s[i]),
        from < s.len() ==> !is_white_space(s[from]),
    decreases s.len(),
{
    if s.len() > 0 && is_white_space(s[0]) {
        let rest = s.drop_first();
        let k = lemma_trim_start(rest);
        assert(rest.skip(k) =~= s.skip(k + 1));
        assert forall|i: int| 0 <= i < k + 1 implies is_white_space(#[trigger] s[i]) by {
            if i > 0 {
                assert(rest[i - 1] == s[i]);
            }
        }
        if k < rest.len() {
            assert(rest[k] == s[k + 1]);
        }
        k + 1
    } else {
        assert(s.skip(0) =~= s);
        0
    }
}

/// What is taken off the end of a text is white space, and what is left does not
/// end in any.
proof fn lemma_trim_end(s: Seq<char>) -> (kept: int)
    ensures
        0 <= kept <= s.len(),
        trim_end(s) == s.take(kept),
        forall|i: int| kept <= i < s.len() ==> is_white_space(#[trigger] s[i]),
        kept > 0 ==> !is_white_space(s[kept - 1]),
    decreases s.len(),
{
    if s.len() > 0 && is_white_space(s.last()) {
        let rest = s.drop_last();
        let k = lemma_trim_end(rest);
        assert(rest.take(k) =~= s.take(k));
        assert forall|i: int| k <= i < s.len() implies is_white_space(#[trigger] s[i]) by {
            if i < rest.len() {
                assert(rest[i] == s[i]);
            }
        }
        k
    } else {
        assert(s.take(s.len() as int) =~= s);
        s.len() as int
    }
}

/// Of the characters of ASCII, the white space is the blank and the five from the
/// tab to the carriage return.
pub proof fn law_ascii_white_space(c: char)
    requires
        c as int <= 127,
    ensures
        is_white_space(c) <==> c == ' ' || c == '\t' || c == '\n' || c == '\r' || c as int == 11 || c as int == 12,
{
}

/// Bytes that are UTF-8 are shown as the text that they encode.
pub proof fn law_utf8_is_shown_as_it_is(bytes: Seq<u8>)
    requires
        vstd::utf8::valid_utf8(bytes),
    ensures
        vstd::utf8::encode_utf8(shown(bytes)) == bytes,
{
    vstd::utf8::decode_utf8_encode_utf8(bytes);
}

/// Two texts are the same but for case exactly if they are as long, and differ at
/// most where the one has an ASCII capital and the other its small letter.
pub proof fn law_case_alone_may_differ(a: Seq<char>, b: Seq<char>)
    ensures
        same_but_case(a, b) <==> a.len() == b.len() && forall|i: int|
            0 <= i < a.len() ==> {
                ||| #[trigger] a[i] == b[i]
                ||| 'A' <= a[i] <= 'Z' && b[i] as int == a[i] as int + 32
                ||| 'A' <= b[i] <= 'Z' && a[i] as int == b[i] as int + 32
            },
{
    if a.len() == b.len() {
        assert forall|i: int| 0 <= i < a.len() implies (ascii_lower(#[trigger] a[i]) == ascii_lower(b[i]) <==> {
            ||| a[i] == b[i]
            ||| 'A' <= a[i] <= 'Z' && b[i] as int == a[i] as int + 32
            ||| 'A' <= b[i] <= 'Z' && a[i] as int == b[i] as int + 32
        }) by {
            let x = a[i];
            let y = b[i];
            if 'A' <= x <= 'Z' {
                assert(ascii_lower(x) as int == x as int + 32);
            }
            if 'A' <= y <= 'Z' {
                assert(ascii_lower(y) as int == y as int + 32);
            }
        }
    }
}

/// A negative number is written as its opposite behind a minus sign, and every
/// other as it is.
pub proof fn law_negative_numbers_have_a_sign(n: nat)
    ensures
        signed_decimal(n as int) == decimal(n),
        n > 0 ==> signed_decimal(-(n as int)) == seq!['-'] + decimal(n),
{
}

} // verus!

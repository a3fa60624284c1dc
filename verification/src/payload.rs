//! Hexadecimal payloads typed by a user, such as `48 65:6c-6c_6f`.

use vstd::prelude::*;
use vstd::utf8::*;
use crate::error::PeriphError;
use crate::peripheral::{ReadResponse, describes};
use crate::text::{ascii_upper, hex_digit, hex_text, push_char, upper_text, utf8_string};

verus! {

/// Characters with the Unicode `White_Space` property (what
/// `char::is_whitespace` tests).
pub open spec fn is_white_space(c: char) -> bool {
    ||| ('\u{9}' <= c && c <= '\u{d}')
    ||| c == ' '
    ||| c == '\u{85}'
    ||| c == '\u{a0}'
    ||| c == '\u{1680}'
    ||| ('\u{2000}' <= c && c <= '\u{200a}')
    ||| c == '\u{2028}'
    ||| c == '\u{2029}'
    ||| c == '\u{202f}'
    ||| c == '\u{205f}'
    ||| c == '\u{3000}'
}

/// Characters a payload may use to group its digits.
pub open spec fn is_hex_separator(c: char) -> bool {
    is_white_space(c) || c == ':' || c == '-' || c == '_'
}

/// The payload with every separator removed.
pub open spec fn strip_separators(s: Seq<char>) -> Seq<char>
    decreases s.len(),
{
    if s.len() == 0 {
        Seq::empty()
    } else if is_hex_separator(s.last()) {
        strip_separators(s.drop_last())
    } else {
        strip_separators(s.drop_last()).push(s.last())
    }
}

/// The value of a hexadecimal digit (either case), or -1 for any other
/// character.
pub open spec fn hex_char_value(c: char) -> int {
    if '0' <= c && c <= '9' {
        c as int - 48
    } else if 'a' <= c && c <= 'f' {
        c as int - 87
    } else if 'A' <= c && c <= 'F' {
        c as int - 55
    } else {
        -1
    }
}

/// Every character is a hexadecimal digit.
pub open spec fn all_hex_digits(d: Seq<char>) -> bool {
    forall|i: int| 0 <= i < d.len() ==> hex_char_value(#[trigger] d[i]) >= 0
}

/// The number that a string of hexadecimal digits denotes.
pub open spec fn hex_number(d: Seq<char>) -> int
    decreases d.len(),
{
    if d.len() == 0 {
        0
    } else {
        hex_number(d.drop_last()) * 16 + hex_char_value(d.last())
    }
}

/// Unsigned base-16 parsing as `u8::from_str_radix`/`u16::from_str_radix`
/// do it: an optional `+`, then at least one digit, and a value no larger
/// than `max`.
pub open spec fn radix16(text: Seq<char>, max: int) -> Option<int> {
    let digits = if text.len() > 0 && text[0] == '+' {
        text.drop_first()
    } else {
        text
    };
    if digits.len() > 0 && all_hex_digits(digits) && hex_number(digits) <= max {
        Some(hex_number(digits))
    } else {
        None
    }
}

/// How many bytes a UTF-8 sequence starting with `b` has; 0 when `b`
/// cannot start one.
pub open spec fn utf8_width(b: u8) -> int {
    if b < 0x80 {
        1
    } else if b < 0xc2 {
        0
    } else if b < 0xe0 {
        2
    } else if b < 0xf0 {
        3
    } else if b < 0xf5 {
        4
    } else {
        0
    }
}

/// `b1` may follow the leading byte `b0` in a well-formed sequence.
pub open spec fn second_byte_fits(b0: u8, b1: u8) -> bool {
    let w = utf8_width(b0);
    if w == 2 {
        0x80 <= b1 <= 0xbf
    } else if w == 3 {
        if b0 == 0xe0 {
            0xa0 <= b1 <= 0xbf
        } else if b0 == 0xed {
            0x80 <= b1 <= 0x9f
        } else {
            0x80 <= b1 <= 0xbf
        }
    } else if w == 4 {
        if b0 == 0xf0 {
            0x90 <= b1 <= 0xbf
        } else if b0 == 0xf4 {
            0x80 <= b1 <= 0x8f
        } else {
            0x80 <= b1 <= 0xbf
        }
    } else {
        false
    }
}

/// What `std::str::from_utf8` reports for two bytes that are not
/// well-formed UTF-8.
pub open spec fn utf8_pair_error(b0: u8, b1: u8) -> Seq<char> {
    if b0 < 0x80 {
        if utf8_width(b1) == 0 {
            "invalid utf-8 sequence of 1 bytes from index 1"@
        } else {
            "incomplete utf-8 byte sequence from index 1"@
        }
    } else if utf8_width(b0) > 2 && second_byte_fits(b0, b1) {
        "incomplete utf-8 byte sequence from index 0"@
    } else {
        "invalid utf-8 sequence of 1 bytes from index 0"@
    }
}

/// The byte denoted by two payload bytes, or the message explaining why
/// they denote none.
pub open spec fn hex_pair(b0: u8, b1: u8) -> Result<u8, Seq<char>> {
    let pair = seq![b0, b1];
    if valid_utf8(pair) {
        let text = decode_utf8(pair);
        match radix16(text, 255) {
            Some(v) => Ok(v as u8),
            None => Err("invalid hex byte: "@ + text),
        }
    } else {
        Err(utf8_pair_error(b0, b1))
    }
}

/// Decodes consecutive byte pairs; the first pair that fails decides the
/// error.
pub open spec fn hex_pairs(b: Seq<u8>) -> Result<Seq<u8>, Seq<char>>
    decreases b.len(),
{
    if b.len() < 2 {
        Ok(Seq::empty())
    } else {
        match hex_pair(b[0], b[1]) {
            Err(m) => Err(m),
            Ok(v) => match hex_pairs(b.skip(2)) {
                Ok(rest) => Ok(seq![v] + rest),
                Err(m) => Err(m),
            },
        }
    }
}

/// The message for a payload with an odd number of digits.
pub open spec fn odd_digits_message() -> Seq<char> {
    "hex payload must have an even number of digits"@
}

/// The bytes a hexadecimal payload denotes, or the message for the
/// invalid-input error it is refused with.
///
/// Separators are removed first; the rest is taken as UTF-8 bytes in
/// pairs.
pub open spec fn hex_payload(text: Seq<char>) -> Result<Seq<u8>, Seq<char>> {
    let bytes = encode_utf8(strip_separators(text));
    if bytes.len() == 0 {
        Ok(Seq::empty())
    } else if bytes.len() % 2 != 0 {
        Err(odd_digits_message())
    } else {
        hex_pairs(bytes)
    }
}

/// `r` is what parsing `text` as a hexadecimal payload yields.
pub open spec fn parses_as_payload(text: Seq<char>, r: Result<Vec<u8>, PeriphError>) -> bool {
    match hex_payload(text) {
        Ok(bytes) => r matches Ok(v) && v@ == bytes,
        Err(m) => r matches Err(PeriphError::InvalidInput(s)) && s@ == m,
    }
}

/// Whether `c` is white space in the Unicode sense.
pub fn is_whitespace_char(c: char) -> (r: bool)
    ensures
        r == is_white_space(c),
{
    ('\u{9}' <= c && c <= '\u{d}') || c == ' ' || c == '\u{85}' || c == '\u{a0}' || c
        == '\u{1680}' || ('\u{2000}' <= c && c <= '\u{200a}') || c == '\u{2028}' || c
        == '\u{2029}' || c == '\u{202f}' || c == '\u{205f}' || c == '\u{3000}'
}

/// The value of a hexadecimal digit, or `None` for any other character.
pub fn hex_char_digit(c: char) -> (r: Option<u32>)
    ensures
        r matches Some(v) ==> hex_char_value(c) == v as int && v < 16,
        r is None ==> hex_char_value(c) < 0,
{
    if '0' <= c && c <= '9' {
        Some(c as u32 - 48)
    } else if 'a' <= c && c <= 'f' {
        Some(c as u32 - 87)
    } else if 'A' <= c && c <= 'F' {
        Some(c as u32 - 55)
    } else {
        None
    }
}

proof fn lemma_hex_number_grows(d: Seq<char>, i: int)
    requires
        all_hex_digits(d),
        0 <= i <= d.len(),
    ensures
        hex_number(d.take(i)) <= hex_number(d),
        hex_number(d) >= 0,
    decreases d.len(),
{
    if d.len() > 0 {
        let p = d.drop_last();
        assert(all_hex_digits(p)) by {
            assert forall|k: int| 0 <= k < p.len() implies hex_char_value(#[trigger] p[k]) >= 0 by {
                assert(p[k] == d[k]);
            }
        }
        assert(hex_char_value(d[d.len() - 1]) >= 0);
        if i == d.len() {
            assert(d.take(i) =~= d);
            lemma_hex_number_grows(p, 0);
        } else {
            lemma_hex_number_grows(p, i);
            assert(p.take(i) =~= d.take(i));
        }
    }
}

/// Base-16 parsing of `text` into a value no larger than `max`, with an
/// optional leading `+`.
pub fn parse_radix16(text: &str, max: u32) -> (r: Option<u32>)
    ensures
        match radix16(text@, max as int) {
            Some(v) => r matches Some(x) && x as int == v,
            None => r is None,
        },
        r matches Some(v) ==> v <= max,
{
    let n = text.unicode_len();
    let mut start: usize = 0;
    if n > 0 && text.get_char(0) == '+' {
        start = 1;
    }
    let ghost digits = if text@.len() > 0 && text@[0] == '+' {
        text@.drop_first()
    } else {
        text@
    };
    assert(digits =~= text@.skip(start as int));
    if start >= n {
        return None;
    }
    let mut acc: u32 = 0;
    let mut i: usize = start;
    while i < n
        invariant
            start <= i <= n,
            n == text@.len(),
            digits == (if text@.len() > 0 && text@[0] == '+' {
                text@.drop_first()
            } else {
                text@
            }),
            digits =~= text@.skip(start as int),
            all_hex_digits(digits.take(i - start)),
            acc as int == hex_number(digits.take(i - start)),
            acc <= max,
        decreases n - i,
    {
        let c = text.get_char(i);
        let ghost prefix = digits.take(i - start);
        let ghost next = digits.take(i - start + 1);
        assert(next.drop_last() =~= prefix);
        assert(next.last() == c);
        match hex_char_digit(c) {
            None => {
                assert(!all_hex_digits(digits)) by {
                    assert(digits[i - start] == c);
                }
                return None;
            },
            Some(d) => {
                assert(all_hex_digits(next)) by {
                    assert forall|k: int| 0 <= k < next.len() implies hex_char_value(
                        #[trigger] next[k],
                    ) >= 0 by {
                        if k < prefix.len() {
                            assert(next[k] == prefix[k]);
                        }
                    }
                }
                if acc > max / 16 || acc * 16 + d > max {
                    assert(hex_number(next) > max) by (nonlinear_arith)
                        requires
                            hex_number(next) == acc * 16 + d,
                            acc > max / 16 || acc * 16 + d > max,
                            max >= 0,
                    ;
                    proof {
                        if all_hex_digits(digits) {
                            lemma_hex_number_grows(digits, i - start + 1);
                        }
                    }
                    return None;
                }
                acc = acc * 16 + d;
            },
        }
        i = i + 1;
    }
    assert(digits.take(i - start) =~= digits);
    Some(acc)
}

/// The message `std::str::from_utf8` gives for two bytes that are not
/// well-formed UTF-8.
fn utf8_pair_error_text(b0: u8, b1: u8) -> (r: &'static str)
    ensures
        r@ == utf8_pair_error(b0, b1),
{
    if b0 < 0x80 {
        if b1 >= 0x80 && (b1 < 0xc2 || b1 >= 0xf5) {
            "invalid utf-8 sequence of 1 bytes from index 1"
        } else {
            "incomplete utf-8 byte sequence from index 1"
        }
    } else {
        let fits = if b0 >= 0xe0 && b0 < 0xf0 {
            if b0 == 0xe0 {
                0xa0 <= b1 && b1 <= 0xbf
            } else if b0 == 0xed {
                0x80 <= b1 && b1 <= 0x9f
            } else {
                0x80 <= b1 && b1 <= 0xbf
            }
        } else if b0 >= 0xf0 && b0 < 0xf5 {
            if b0 == 0xf0 {
                0x90 <= b1 && b1 <= 0xbf
            } else if b0 == 0xf4 {
                0x80 <= b1 && b1 <= 0x8f
            } else {
                0x80 <= b1 && b1 <= 0xbf
            }
        } else {
            false
        };
        if fits {
            "incomplete utf-8 byte sequence from index 0"
        } else {
            "invalid utf-8 sequence of 1 bytes from index 0"
        }
    }
}

/// Decodes one pair of payload bytes into the byte it denotes.
pub fn parse_hex_pair(b0: u8, b1: u8) -> (r: Result<u8, PeriphError>)
    ensures
        match hex_pair(b0, b1) {
            Ok(v) => r == Ok::<u8, PeriphError>(v),
            Err(m) => r matches Err(PeriphError::InvalidInput(s)) && s@ == m,
        },
{
    let mut pair: Vec<u8> = Vec::new();
    pair.push(b0);
    pair.push(b1);
    assert(pair@ =~= seq![b0, b1]);
    match utf8_string(pair) {
        Some(text) => match parse_radix16(text.as_str(), 255) {
            Some(v) => Ok(v as u8),
            None => {
                let mut message = String::from_str("invalid hex byte: ");
                message.append(text.as_str());
                Err(PeriphError::InvalidInput(message))
            },
        },
        None => Err(PeriphError::InvalidInput(String::from_str(utf8_pair_error_text(b0, b1)))),
    }
}

/// Parses a hexadecimal payload such as `48 65:6c-6c_6f` into bytes.
///
/// White space, `:`, `-` and `_` may separate digits anywhere; what is
/// left must be an even number of digits, each pair denoting one byte.
pub fn parse_hex(value: &str) -> (r: Result<Vec<u8>, PeriphError>)
    ensures
        parses_as_payload(value@, r),
{
    let mut normalized = String::new();
    let mut seen: usize = 0;
    for c in it: value.chars()
        invariant
            it.seq() == value@,
            normalized@ == strip_separators(value@.take(it.index())),
    {
        let ghost before = value@.take(it.index());
        if !(is_whitespace_char(c) || c == ':' || c == '-' || c == '_') {
            push_char(&mut normalized, c);
        }
        assert(value@.take(it.index() + 1).drop_last() =~= before);
    }
    assert(value@.take(value@.len() as int) =~= value@);
    let bytes = normalized.as_str().as_bytes();
    let len = bytes.len();
    if len == 0 {
        return Ok(Vec::new());
    }
    if len % 2 != 0 {
        return Err(PeriphError::InvalidInput(String::from_str("hex payload must have an even number of digits")));
    }
    let mut out: Vec<u8> = Vec::new();
    let mut i: usize = 0;
    assert(bytes@.skip(0) =~= bytes@);
    proof {
        match hex_pairs(bytes@) {
            Ok(rest) => {
                assert(out@ + rest =~= rest);
            },
            Err(m) => {},
        }
    }
    while i < len
        invariant
            len == bytes@.len(),
            len % 2 == 0,
            i <= len,
            i % 2 == 0,
            bytes@ == encode_utf8(strip_separators(value@)),
            hex_pairs(bytes@) == match hex_pairs(bytes@.skip(i as int)) {
                Ok(rest) => Ok::<Seq<u8>, Seq<char>>(out@ + rest),
                Err(m) => Err(m),
            },
        decreases len - i,
    {
        let ghost tail = bytes@.skip(i as int);
        assert(tail.skip(2) =~= bytes@.skip(i + 2));
        assert(tail[0] == bytes@[i as int] && tail[1] == bytes@[i + 1]);
        match parse_hex_pair(bytes[i], bytes[i + 1]) {
            Ok(v) => {
                let ghost prev = out@;
                out.push(v);
                proof {
                    match hex_pairs(bytes@.skip(i + 2)) {
                        Ok(rest) => {
                            assert(prev + (seq![v] + rest) =~= out@ + rest);
                        },
                        Err(m) => {},
                    }
                }
            },
            Err(e) => {
                return Err(e);
            },
        }
        i = i + 2;
    }
    assert(bytes@.skip(len as int) =~= Seq::<u8>::empty());
    assert(out@ + Seq::<u8>::empty() =~= out@);
    Ok(out)
}

proof fn lemma_hex_digit_facts(n: int)
    requires
        0 <= n < 16,
    ensures
        hex_char_value(hex_digit(n)) == n,
        hex_char_value(ascii_upper(hex_digit(n))) == n,
        !is_hex_separator(hex_digit(n)),
        hex_digit(n) != '+',
        '\0' <= hex_digit(n) <= '\u{7f}',
{
}

proof fn lemma_hex_text_layout(b: Seq<u8>)
    ensures
        hex_text(b).len() == 2 * b.len(),
        forall|i: int|
            0 <= i < b.len() ==> #[trigger] hex_text(b)[2 * i] == hex_digit((b[i] / 16) as int)
                && hex_text(b)[2 * i + 1] == hex_digit((b[i] % 16) as int),
    decreases b.len(),
{
    if b.len() > 0 {
        let p = b.drop_last();
        lemma_hex_text_layout(p);
        assert forall|i: int| 0 <= i < b.len() implies #[trigger] hex_text(b)[2 * i] == hex_digit(
            (b[i] / 16) as int,
        ) && hex_text(b)[2 * i + 1] == hex_digit((b[i] % 16) as int) by {
            if i < p.len() {
                assert(b[i] == p[i]);
                assert(hex_text(p)[2 * i] == hex_digit((p[i] / 16) as int));
            }
        }
    }
}

proof fn lemma_no_separators_kept(s: Seq<char>)
    requires
        forall|i: int| 0 <= i < s.len() ==> !is_hex_separator(#[trigger] s[i]),
    ensures
        strip_separators(s) == s,
    decreases s.len(),
{
    if s.len() > 0 {
        lemma_no_separators_kept(s.drop_last());
        assert(s.drop_last().push(s.last()) =~= s);
    }
}

proof fn lemma_pair_reads_back(c0: char, c1: char, x: u8)
    requires
        hex_char_value(c0) == (x / 16) as int,
        hex_char_value(c1) == (x % 16) as int,
    ensures
        hex_pair(c0 as u8, c1 as u8) == Ok::<u8, Seq<char>>(x),
{
    let chars = seq![c0, c1];
    assert(is_ascii_chars(chars));
    is_ascii_chars_encode_utf8(chars);
    let pair = seq![c0 as u8, c1 as u8];
    assert(encode_utf8(chars) =~= pair);
    encode_utf8_valid_utf8(chars);
    encode_utf8_decode_utf8(chars);
    assert(decode_utf8(pair) == chars);
    assert(chars.drop_last() =~= seq![c0]);
    assert(chars.drop_last().drop_last() =~= Seq::<char>::empty());
    reveal_with_fuel(hex_number, 3);
    assert(hex_number(chars) == (x / 16) as int * 16 + (x % 16) as int);
    assert(all_hex_digits(chars));
}

proof fn lemma_pairs_read_back(b: Seq<u8>, x: Seq<u8>)
    requires
        x.len() == 2 * b.len(),
        forall|i: int|
            0 <= i < b.len() ==> hex_pair(#[trigger] x[2 * i], x[2 * i + 1]) == Ok::<u8, Seq<char>>(
                b[i],
            ),
    ensures
        hex_pairs(x) == Ok::<Seq<u8>, Seq<char>>(b),
    decreases b.len(),
{
    if b.len() == 0 {
        assert(b =~= Seq::<u8>::empty());
    } else {
        let rest = b.drop_first();
        let xs = x.skip(2);
        assert forall|i: int| 0 <= i < rest.len() implies hex_pair(#[trigger] xs[2 * i], xs[2 * i + 1])
            == Ok::<u8, Seq<char>>(rest[i]) by {
            assert(rest[i] == b[i + 1]);
            assert(xs[2 * i] == x[2 * (i + 1)]);
            assert(xs[2 * i + 1] == x[2 * (i + 1) + 1]);
        }
        lemma_pairs_read_back(rest, xs);
        assert(hex_pair(x[2 * 0int], x[2 * 0int + 1]) == Ok::<u8, Seq<char>>(b[0]));
        assert(seq![b[0]] + rest =~= b);
    }
}

/// A text whose digit pairs denote `bytes`, high digit first, in either
/// case, parses back to `bytes`.
proof fn lemma_digit_text_reads_back(bytes: Seq<u8>, t: Seq<char>)
    requires
        t.len() == 2 * bytes.len(),
        forall|i: int|
            0 <= i < bytes.len() ==> hex_char_value(#[trigger] t[2 * i]) == (bytes[i] / 16) as int
                && hex_char_value(t[2 * i + 1]) == (bytes[i] % 16) as int,
    ensures
        hex_payload(t) == Ok::<Seq<u8>, Seq<char>>(bytes),
{
    assert forall|i: int| 0 <= i < t.len() implies !is_hex_separator(#[trigger] t[i]) && '\0'
        <= t[i] <= '\u{7f}' by {
        let j = i / 2;
        if i % 2 == 0 {
            assert(i == 2 * j);
            assert(hex_char_value(t[2 * j]) == (bytes[j] / 16) as int);
        } else {
            assert(i == 2 * j + 1);
            assert(hex_char_value(t[2 * j]) == (bytes[j] / 16) as int);
            assert(hex_char_value(t[2 * j + 1]) == (bytes[j] % 16) as int);
        }
    }
    lemma_no_separators_kept(t);
    assert(is_ascii_chars(t));
    is_ascii_chars_encode_utf8(t);
    let x = encode_utf8(t);
    if bytes.len() == 0 {
        assert(bytes =~= Seq::<u8>::empty());
    } else {
        assert forall|i: int| 0 <= i < bytes.len() implies hex_pair(#[trigger] x[2 * i], x[2 * i + 1])
            == Ok::<u8, Seq<char>>(bytes[i]) by {
            assert(hex_char_value(t[2 * i]) == (bytes[i] / 16) as int);
            assert(x[2 * i] == t[2 * i] as u8);
            assert(x[2 * i + 1] == t[2 * i + 1] as u8);
            lemma_pair_reads_back(t[2 * i], t[2 * i + 1], bytes[i]);
        }
        lemma_pairs_read_back(bytes, x);
    }
}

/// Parsing the lowercase hexadecimal rendering of some bytes gives those
/// bytes back.
pub proof fn lemma_hex_round_trip(bytes: Seq<u8>)
    ensures
        hex_payload(hex_text(bytes)) == Ok::<Seq<u8>, Seq<char>>(bytes),
{
    let t = hex_text(bytes);
    lemma_hex_text_layout(bytes);
    assert forall|i: int| 0 <= i < bytes.len() implies hex_char_value(#[trigger] t[2 * i]) == (
    bytes[i] / 16) as int && hex_char_value(t[2 * i + 1]) == (bytes[i] % 16) as int by {
        lemma_hex_digit_facts((bytes[i] / 16) as int);
        lemma_hex_digit_facts((bytes[i] % 16) as int);
        assert(t[2 * i] == hex_digit((bytes[i] / 16) as int));
        assert(t[2 * i + 1] == hex_digit((bytes[i] % 16) as int));
    }
    lemma_digit_text_reads_back(bytes, t);
}

/// Parsing the hexadecimal rendering of some bytes with its letters in
/// upper case (as `str::to_ascii_uppercase` gives it) gives those bytes
/// back.
pub proof fn lemma_upper_hex_round_trip(bytes: Seq<u8>)
    ensures
        hex_payload(upper_text(hex_text(bytes))) == Ok::<Seq<u8>, Seq<char>>(bytes),
{
    let lower = hex_text(bytes);
    let t = upper_text(lower);
    lemma_hex_text_layout(bytes);
    assert forall|i: int| 0 <= i < bytes.len() implies hex_char_value(#[trigger] t[2 * i]) == (
    bytes[i] / 16) as int && hex_char_value(t[2 * i + 1]) == (bytes[i] % 16) as int by {
        lemma_hex_digit_facts((bytes[i] / 16) as int);
        lemma_hex_digit_facts((bytes[i] % 16) as int);
        assert(lower[2 * i] == hex_digit((bytes[i] / 16) as int));
        assert(lower[2 * i + 1] == hex_digit((bytes[i] % 16) as int));
        assert(t[2 * i] == ascii_upper(lower[2 * i]));
        assert(t[2 * i + 1] == ascii_upper(lower[2 * i + 1]));
    }
    lemma_digit_text_reads_back(bytes, t);
}

/// Separators never change what a payload denotes: a payload and the
/// same payload with its separators removed parse alike.
pub proof fn lemma_separators_ignored(text: Seq<char>)
    ensures
        hex_payload(strip_separators(text)) == hex_payload(text),
{
    lemma_strip_idempotent(text);
}

proof fn lemma_strip_idempotent(s: Seq<char>)
    ensures
        strip_separators(strip_separators(s)) == strip_separators(s),
        forall|i: int|
            0 <= i < strip_separators(s).len() ==> !is_hex_separator(
                #[trigger] strip_separators(s)[i],
            ),
    decreases s.len(),
{
    if s.len() > 0 {
        lemma_strip_idempotent(s.drop_last());
        let r = strip_separators(s);
        lemma_no_separators_kept(r);
    }
}

/// The hexadecimal text of a read response, typed back as a payload,
/// denotes exactly the bytes that were read.
pub proof fn lemma_response_hex_reads_back(r: ReadResponse, bytes_read: usize, data: Seq<u8>)
    requires
        describes(r, bytes_read, data),
    ensures
        hex_payload(r.data_hex@) == Ok::<Seq<u8>, Seq<char>>(data),
{
    lemma_hex_round_trip(data);
}

/// White space, `:`, `-` and `_` separate digits; no hexadecimal digit
/// is ever taken for a separator.
pub proof fn lemma_separator_characters(c: char)
    ensures
        hex_char_value(c) >= 0 ==> !is_hex_separator(c),
        c == ' ' || c == '\t' || c == '\n' || c == '\r' || c == ':' || c == '-' || c == '_'
            ==> is_hex_separator(c),
        is_white_space(c) ==> is_hex_separator(c),
{
}

/// A failed pair is blamed on its second byte exactly when its first byte
/// is ASCII; a truncated sequence is reported as incomplete.
pub proof fn lemma_pair_error_position(b0: u8, b1: u8)
    ensures
        b0 < 0x80 ==> utf8_pair_error(b0, b1).last() == '1',
        b0 >= 0x80 ==> utf8_pair_error(b0, b1).last() == '0',
        b0 >= 0xe0 && b0 < 0xf5 && second_byte_fits(b0, b1) ==> utf8_pair_error(b0, b1)[1] == 'n'
            && utf8_pair_error(b0, b1)[2] == 'c',
        b0 >= 0x80 && b0 < 0xc2 ==> utf8_pair_error(b0, b1)[1] == 'n' && utf8_pair_error(b0, b1)[2]
            == 'v',
{
    reveal_strlit("invalid utf-8 sequence of 1 bytes from index 1");
    reveal_strlit("incomplete utf-8 byte sequence from index 1");
    reveal_strlit("incomplete utf-8 byte sequence from index 0");
    reveal_strlit("invalid utf-8 sequence of 1 bytes from index 0");
}

} // verus!

//! Byte and text encodings used by the proof engine: lowercase hexadecimal
//! text, big-endian 64-bit integers and decimal numerals.

use vstd::prelude::*;
use vstd::string::{StringExecFns, StringSliceAdditionalSpecFns};
use vstd::utf8::{
    encode_scalar, encode_utf8, has_width_1_encoding, has_width_2_encoding,
    has_width_3_encoding, is_ascii_chars,
};

verus! {

/// The lowercase hexadecimal digit that stands for `nibble` (0 to 15).
pub open spec fn spec_hex_char(nibble: int) -> char {
    if nibble < 10 {
        (0x30 + nibble) as u8 as char
    } else {
        (0x61 + nibble - 10) as u8 as char
    }
}

/// Lowercase hexadecimal text of `data`: two digits per byte, high nibble
/// first.
pub open spec fn spec_hex_lower(data: Seq<u8>) -> Seq<char> {
    Seq::new(
        2 * data.len(),
        |i: int|
            if i % 2 == 0 {
                spec_hex_char(data[i / 2] as int / 16)
            } else {
                spec_hex_char(data[i / 2] as int % 16)
            },
    )
}

/// Value of one hexadecimal digit given as an ASCII byte; `None` for any
/// other byte. Both letter cases are digits.
pub open spec fn spec_hex_byte_value(b: u8) -> Option<int> {
    if 0x30 <= b <= 0x39 {
        Some(b - 0x30)
    } else if 0x61 <= b <= 0x66 {
        Some(b - 0x61 + 10)
    } else if 0x41 <= b <= 0x46 {
        Some(b - 0x41 + 10)
    } else {
        None
    }
}

/// Whether `text` is an even number of hexadecimal digits.
pub open spec fn spec_is_hex_text(text: Seq<u8>) -> bool {
    &&& text.len() % 2 == 0
    &&& forall|i: int| 0 <= i < text.len() ==> (#[trigger] spec_hex_byte_value(text[i])) is Some
}

/// The bytes that hexadecimal `text` stands for, or `None` where `text` is
/// not an even number of hexadecimal digits.
pub open spec fn spec_hex_decode(text: Seq<u8>) -> Option<Seq<u8>> {
    if spec_is_hex_text(text) {
        Some(
            Seq::new(
                text.len() / 2,
                |i: int|
                    (spec_hex_byte_value(text[2 * i]).unwrap() * 16 + spec_hex_byte_value(
                        text[2 * i + 1],
                    ).unwrap()) as u8,
            ),
        )
    } else {
        None
    }
}

#[verifier::external_type_specification]
#[verifier::external_body]
pub struct ExFromHexError(hex::FromHexError);

/// Calls `hex::encode`. The crate maps every byte to two characters taken
/// from the table `0123456789abcdef`, the high nibble first, and nothing
/// else; the contract states exactly that.
#[verifier::external_body]
pub(crate) fn hex_encode(data: &[u8]) -> (text: String)
    ensures
        text@ == spec_hex_lower(data@),
{
    hex::encode(data)
}

/// Calls `hex::decode`. The crate fails on an odd length or on any byte that
/// is not one of `0-9`, `a-f`, `A-F`; otherwise each pair of digits gives one
/// byte, the first digit being the high nibble.
#[verifier::external_body]
pub(crate) fn hex_decode(text: &[u8]) -> (decoded: Result<Vec<u8>, hex::FromHexError>)
    ensures
        match decoded {
            Ok(bytes) => spec_hex_decode(text@) == Some(bytes@),
            Err(_) => spec_hex_decode(text@) is None,
        },
{
    hex::decode(text)
}

/// Value of one hexadecimal digit given as a character; `None` for any other
/// character. Both letter cases are digits.
pub open spec fn spec_hex_char_value(c: char) -> Option<int> {
    let code = c as u32;
    if 0x30 <= code <= 0x39 {
        Some(code - 0x30)
    } else if 0x61 <= code <= 0x66 {
        Some(code - 0x61 + 10)
    } else if 0x41 <= code <= 0x46 {
        Some(code - 0x41 + 10)
    } else {
        None
    }
}

/// Whether every character of `digits` is a hexadecimal digit.
pub open spec fn spec_all_hex_chars(digits: Seq<char>) -> bool {
    forall|i: int| 0 <= i < digits.len() ==> (#[trigger] spec_hex_char_value(digits[i])) is Some
}

/// The number that the hexadecimal digits `digits` write, most significant
/// digit first. A character that is no digit counts as zero.
pub open spec fn spec_hex_value(digits: Seq<char>) -> nat
    decreases digits.len(),
{
    if digits.len() == 0 {
        0
    } else {
        let last = match spec_hex_char_value(digits.last()) {
            Some(v) => v as nat,
            None => 0,
        };
        16 * spec_hex_value(digits.drop_last()) + last
    }
}

/// What reading `text` as an unsigned 64-bit hexadecimal number gives: the
/// value of its digits where it has at least one character, every character
/// is a hexadecimal digit and the value fits in 64 bits. There is no sign.
pub open spec fn spec_parse_hex_u64(text: Seq<char>) -> Option<u64> {
    if text.len() > 0 && spec_all_hex_chars(text) && spec_hex_value(text) <= u64::MAX {
        Some(spec_hex_value(text) as u64)
    } else {
        None
    }
}

/// Sixteen to the power `n`.
pub open spec fn spec_pow16(n: nat) -> nat
    decreases n,
{
    if n == 0 {
        1
    } else {
        16 * spec_pow16((n - 1) as nat)
    }
}

/// The value of `n` digits is below sixteen to the `n`.
pub proof fn lemma_hex_value_bound(digits: Seq<char>)
    ensures
        spec_hex_value(digits) < spec_pow16(digits.len()),
    decreases digits.len(),
{
    if digits.len() > 0 {
        lemma_hex_value_bound(digits.drop_last());
    }
}

/// Up to sixteen digits stay within 64 bits.
pub proof fn lemma_pow16_within_u64(n: nat)
    requires
        n <= 16,
    ensures
        0 < spec_pow16(n) <= 0x1_0000_0000_0000_0000,
    decreases 16 - n,
{
    if n == 16 {
        reveal_with_fuel(spec_pow16, 17);
    } else {
        lemma_pow16_within_u64(n + 1);
    }
}

/// The value of a hexadecimal digit character, if it is one.
pub fn hex_char_value(c: char) -> (value: Option<u8>)
    ensures
        match value {
            Some(v) => spec_hex_char_value(c) == Some(v as int),
            None => spec_hex_char_value(c) is None,
        },
{
    let code: u32 = c as u32;
    if 0x30 <= code && code <= 0x39 {
        Some((code - 0x30) as u8)
    } else if 0x61 <= code && code <= 0x66 {
        Some((code - 0x61 + 10) as u8)
    } else if 0x41 <= code && code <= 0x46 {
        Some((code - 0x41 + 10) as u8)
    } else {
        None
    }
}

/// Parses the characters `text[from..to]`, at most sixteen of them, as
/// hexadecimal digits.
pub(crate) fn parse_hex_digits(text: &str, from: usize, to: usize) -> (parsed: Option<u64>)
    requires
        from <= to <= text@.len(),
        to - from <= 16,
    ensures
        match parsed {
            Some(v) => spec_all_hex_chars(text@.subrange(from as int, to as int)) && v
                == spec_hex_value(text@.subrange(from as int, to as int)),
            None => !spec_all_hex_chars(text@.subrange(from as int, to as int)),
        },
{
    let ghost digits = text@.subrange(from as int, to as int);
    let mut acc: u64 = 0;
    let mut i: usize = from;
    while i < to
        invariant
            from <= i <= to <= text@.len(),
            to - from <= 16,
            digits == text@.subrange(from as int, to as int),
            spec_all_hex_chars(digits.take(i - from)),
            acc == spec_hex_value(digits.take(i - from)),
        decreases to - i,
    {
        let c: char = text.get_char(i);
        proof {
            let seen = digits.take(i - from + 1);
            assert(seen.drop_last() == digits.take(i - from));
            assert(seen.last() == c);
            lemma_hex_value_bound(digits.take(i - from));
            lemma_hex_value_bound(seen);
            lemma_pow16_within_u64((i - from + 1) as nat);
        }
        match hex_char_value(c) {
            Some(v) => {
                acc = acc * 16 + v as u64;
            },
            None => {
                assert(spec_hex_char_value(digits[i - from]) is None);
                return None;
            },
        }
        i = i + 1;
    }
    assert(digits.take(to - from) == digits);
    Some(acc)
}

/// The eight bytes of `n`, most significant byte first.
pub open spec fn spec_u64_be(n: u64) -> Seq<u8> {
    seq![
        (n / 0x100_0000_0000_0000) as u8,
        (n / 0x1_0000_0000_0000 % 256) as u8,
        (n / 0x100_0000_0000 % 256) as u8,
        (n / 0x1_0000_0000 % 256) as u8,
        (n / 0x100_0000 % 256) as u8,
        (n / 0x1_0000 % 256) as u8,
        (n / 0x100 % 256) as u8,
        (n % 256) as u8,
    ]
}

/// The number whose big-endian bytes are the first eight of `bytes`.
pub open spec fn spec_u64_from_be(bytes: Seq<u8>) -> int {
    bytes[0] * 0x100_0000_0000_0000 + bytes[1] * 0x1_0000_0000_0000 + bytes[2] * 0x100_0000_0000
        + bytes[3] * 0x1_0000_0000 + bytes[4] * 0x100_0000 + bytes[5] * 0x1_0000 + bytes[6]
        * 0x100 + bytes[7]
}

/// Appends the eight big-endian bytes of `n` to `buffer`.
pub fn push_u64_be(buffer: &mut Vec<u8>, n: u64)
    ensures
        final(buffer)@ == old(buffer)@ + spec_u64_be(n),
{
    buffer.push((n / 0x100_0000_0000_0000) as u8);
    buffer.push((n / 0x1_0000_0000_0000 % 256) as u8);
    buffer.push((n / 0x100_0000_0000 % 256) as u8);
    buffer.push((n / 0x1_0000_0000 % 256) as u8);
    buffer.push((n / 0x100_0000 % 256) as u8);
    buffer.push((n / 0x1_0000 % 256) as u8);
    buffer.push((n / 0x100 % 256) as u8);
    buffer.push((n % 256) as u8);
    assert(buffer@ =~= old(buffer)@ + spec_u64_be(n));
}

/// Reads the first eight bytes of `bytes` as a big-endian number.
pub fn u64_from_be(bytes: &[u8]) -> (n: Option<u64>)
    ensures
        match n {
            Some(v) => bytes@.len() >= 8 && v == spec_u64_from_be(bytes@),
            None => bytes@.len() < 8,
        },
{
    if bytes.len() < 8 {
        return None;
    }
    let mut acc: u64 = 0;
    let mut i: usize = 0;
    while i < 8
        invariant
            i <= 8 <= bytes@.len(),
            i == 0 ==> acc == 0,
            i == 1 ==> acc == bytes@[0],
            i == 2 ==> acc == bytes@[0] * 0x100 + bytes@[1],
            i == 3 ==> acc == bytes@[0] * 0x1_0000 + bytes@[1] * 0x100 + bytes@[2],
            i == 4 ==> acc == bytes@[0] * 0x100_0000 + bytes@[1] * 0x1_0000 + bytes@[2] * 0x100
                + bytes@[3],
            i == 5 ==> acc == bytes@[0] * 0x1_0000_0000 + bytes@[1] * 0x100_0000 + bytes@[2]
                * 0x1_0000 + bytes@[3] * 0x100 + bytes@[4],
            i == 6 ==> acc == bytes@[0] * 0x100_0000_0000 + bytes@[1] * 0x1_0000_0000 + bytes@[2]
                * 0x100_0000 + bytes@[3] * 0x1_0000 + bytes@[4] * 0x100 + bytes@[5],
            i == 7 ==> acc == bytes@[0] * 0x1_0000_0000_0000 + bytes@[1] * 0x100_0000_0000
                + bytes@[2] * 0x1_0000_0000 + bytes@[3] * 0x100_0000 + bytes@[4] * 0x1_0000
                + bytes@[5] * 0x100 + bytes@[6],
            i == 8 ==> acc == spec_u64_from_be(bytes@),
        decreases 8 - i,
    {
        acc = acc * 256 + bytes[i] as u64;
        i = i + 1;
    }
    Some(acc)
}

/// The decimal digit character for `d` (0 to 9).
pub open spec fn spec_decimal_char(d: int) -> char {
    (0x30 + d) as u8 as char
}

/// The decimal numeral of `n`: no sign, no leading zero, `"0"` for zero.
pub open spec fn spec_decimal(n: nat) -> Seq<char>
    decreases n,
{
    if n < 10 {
        seq![spec_decimal_char(n as int)]
    } else {
        spec_decimal(n / 10).push(spec_decimal_char((n % 10) as int))
    }
}

/// The one-character text of the decimal digit `d`.
fn decimal_digit_text(d: u64) -> (text: &'static str)
    requires
        d < 10,
    ensures
        text@ == seq![spec_decimal_char(d as int)],
{
    proof {
        reveal_strlit("0");
        reveal_strlit("1");
        reveal_strlit("2");
        reveal_strlit("3");
        reveal_strlit("4");
        reveal_strlit("5");
        reveal_strlit("6");
        reveal_strlit("7");
        reveal_strlit("8");
        reveal_strlit("9");
    }
    let text: &'static str = if d == 0 {
        "0"
    } else if d == 1 {
        "1"
    } else if d == 2 {
        "2"
    } else if d == 3 {
        "3"
    } else if d == 4 {
        "4"
    } else if d == 5 {
        "5"
    } else if d == 6 {
        "6"
    } else if d == 7 {
        "7"
    } else if d == 8 {
        "8"
    } else {
        "9"
    };
    assert(text@ =~= seq![spec_decimal_char(d as int)]);
    text
}

/// Appends the decimal numeral of `n` to `text`.
pub fn push_decimal(text: &mut String, n: u64)
    ensures
        final(text)@ == old(text)@ + spec_decimal(n as nat),
    decreases n,
{
    if n >= 10 {
        push_decimal(text, n / 10);
    }
    text.append(decimal_digit_text(n % 10));
    assert(text@ =~= old(text)@ + spec_decimal(n as nat));
}

/// Whether two texts hold the same characters.
pub fn text_eq(a: &str, b: &str) -> (same: bool)
    ensures
        same == (a@ == b@),
{
    let left = a.as_bytes();
    let right = b.as_bytes();
    if left.len() != right.len() {
        return false;
    }
    let mut i: usize = 0;
    while i < left.len()
        invariant
            i <= left@.len() == right@.len(),
            left@ == encode_utf8(a@),
            right@ == encode_utf8(b@),
            forall|j: int| 0 <= j < i ==> left@[j] == right@[j],
        decreases left@.len() - i,
    {
        if left[i] != right[i] {
            return false;
        }
        i = i + 1;
    }
    proof {
        assert(left@ =~= right@);
        vstd::utf8::encode_utf8_decode_utf8(a@);
        vstd::utf8::encode_utf8_decode_utf8(b@);
    }
    true
}

/// Text whose encoding holds no byte above `0x7f` is ASCII, and its
/// encoding has one byte for each character.
pub proof fn lemma_low_bytes_are_ascii(chars: Seq<char>)
    requires
        forall|i: int| 0 <= i < encode_utf8(chars).len() ==> encode_utf8(chars)[i] < 0x80,
    ensures
        is_ascii_chars(chars),
        encode_utf8(chars).len() == chars.len(),
        forall|i: int| 0 <= i < chars.len() ==> chars[i] as u8 == encode_utf8(chars)[i],
    decreases chars.len(),
{
    if chars.len() > 0 {
        let scalar = chars[0] as u32;
        let head = encode_scalar(scalar);
        let tail = encode_utf8(chars.drop_first());
        assert(encode_utf8(chars) == head + tail);
        assert(encode_utf8(chars)[0] == head[0]);
        vstd::utf8::char_is_scalar(chars[0]);
        if !has_width_1_encoding(scalar) {
            let lead = head[0];
            if has_width_2_encoding(scalar) {
                let low: u8 = ((scalar >> 6) & 0x1F) as u8;
                assert(0xC0u8 | low >= 0x80u8) by (bit_vector);
            } else if has_width_3_encoding(scalar) {
                let low: u8 = ((scalar >> 12) & 0x0F) as u8;
                assert(0xE0u8 | low >= 0x80u8) by (bit_vector);
            } else {
                let low: u8 = ((scalar >> 18) & 0x7) as u8;
                assert(0xF0u8 | low >= 0x80u8) by (bit_vector);
            }
            assert(false);
        }
        assert(head.len() == 1);
        assert forall|i: int| 0 <= i < tail.len() implies tail[i] < 0x80 by {
            assert(tail[i] == encode_utf8(chars)[i + 1]);
        }
        lemma_low_bytes_are_ascii(chars.drop_first());
        assert forall|i: int| 0 <= i < chars.len() implies '\0' <= #[trigger] chars[i]
            <= '\u{7f}' by {
            if i > 0 {
                let rest = chars.drop_first();
                assert(chars[i] == rest[i - 1]);
                assert('\0' <= rest[i - 1] <= '\u{7f}');
            } else {
                vstd::utf8::char_u32_cast(chars[0], scalar);
            }
        }
        vstd::utf8::is_ascii_chars_encode_utf8(chars);
    }
}

/// Appending one digit multiplies the value by sixteen and adds the digit.
pub proof fn lemma_hex_value_step(digits: Seq<char>, n: int)
    requires
        0 <= n < digits.len(),
    ensures
        spec_hex_value(digits.take(n + 1)) == 16 * spec_hex_value(digits.take(n)) + (match spec_hex_char_value(
            digits[n],
        ) {
            Some(v) => v as nat,
            None => 0,
        }),
{
    assert(digits.take(n + 1).drop_last() == digits.take(n));
    assert(digits.take(n + 1).last() == digits[n]);
}

/// Whether `c` is one of the ten decimal digits.
pub open spec fn spec_is_decimal_char(c: char) -> bool {
    0x30 <= c as u32 <= 0x39
}

/// A decimal numeral has at least one character and holds digits only.
pub proof fn lemma_decimal_holds_digits(n: nat)
    ensures
        spec_decimal(n).len() >= 1,
        forall|i: int|
            0 <= i < spec_decimal(n).len() ==> spec_is_decimal_char(#[trigger] spec_decimal(n)[i]),
    decreases n,
{
    let last = (0x30 + n % 10) as u8;
    assert(last as char as u32 == last);
    if n >= 10 {
        lemma_decimal_holds_digits(n / 10);
    }
}

/// Two numbers with the same decimal numeral are the same.
pub proof fn lemma_decimal_is_injective(n: nat, m: nat)
    requires
        spec_decimal(n) == spec_decimal(m),
    ensures
        n == m,
    decreases n,
{
    lemma_decimal_holds_digits(n / 10);
    lemma_decimal_holds_digits(m / 10);
    let last_n = (0x30 + n % 10) as u8;
    let last_m = (0x30 + m % 10) as u8;
    assert(last_n as char as u8 == last_n);
    assert(last_m as char as u8 == last_m);
    assert(spec_decimal(n).last() == last_n as char);
    assert(spec_decimal(m).last() == last_m as char);
    if n >= 10 {
        assert(m >= 10);
        assert(spec_decimal(n).drop_last() == spec_decimal(n / 10));
        assert(spec_decimal(m).drop_last() == spec_decimal(m / 10));
        lemma_decimal_is_injective(n / 10, m / 10);
    } else {
        assert(m < 10);
    }
}

/// Three texts joined by a one-character separator can be told apart again
/// where the middle one is free of the separator and the last one has a
/// known length.
pub proof fn lemma_join_is_injective(
    head_a: Seq<char>,
    mid_a: Seq<char>,
    tail_a: Seq<char>,
    head_b: Seq<char>,
    mid_b: Seq<char>,
    tail_b: Seq<char>,
    sep: Seq<char>,
)
    requires
        sep.len() == 1,
        tail_a.len() == tail_b.len(),
        forall|i: int| 0 <= i < mid_a.len() ==> mid_a[i] != sep[0],
        forall|i: int| 0 <= i < mid_b.len() ==> mid_b[i] != sep[0],
        head_a + sep + mid_a + sep + tail_a == head_b + sep + mid_b + sep + tail_b,
    ensures
        head_a == head_b,
        mid_a == mid_b,
        tail_a == tail_b,
{
    let joined_a = head_a + sep + mid_a + sep + tail_a;
    let joined_b = head_b + sep + mid_b + sep + tail_b;
    assert(joined_a.len() == head_a.len() + mid_a.len() + tail_a.len() + 2);
    assert(joined_b.len() == head_b.len() + mid_b.len() + tail_b.len() + 2);
    assert(joined_a[head_a.len() as int] == sep[0]);
    assert(joined_b[head_b.len() as int] == sep[0]);
    if mid_a.len() < mid_b.len() {
        let at = head_a.len() - head_b.len() - 1;
        assert(joined_b[head_a.len() as int] == mid_b[at]);
        assert(false);
    }
    if mid_b.len() < mid_a.len() {
        let at = head_b.len() - head_a.len() - 1;
        assert(joined_a[head_b.len() as int] == mid_a[at]);
        assert(false);
    }
    assert forall|i: int| 0 <= i < head_a.len() implies head_a[i] == head_b[i] by {
        assert(joined_a[i] == head_a[i]);
        assert(joined_b[i] == head_b[i]);
    }
    assert(head_a =~= head_b);
    assert forall|i: int| 0 <= i < mid_a.len() implies mid_a[i] == mid_b[i] by {
        assert(joined_a[head_a.len() + 1 + i] == mid_a[i]);
        assert(joined_b[head_b.len() + 1 + i] == mid_b[i]);
    }
    assert(mid_a =~= mid_b);
    assert forall|i: int| 0 <= i < tail_a.len() implies tail_a[i] == tail_b[i] by {
        assert(joined_a[head_a.len() + mid_a.len() + 2 + i] == tail_a[i]);
        assert(joined_b[head_b.len() + mid_b.len() + 2 + i] == tail_b[i]);
    }
    assert(tail_a =~= tail_b);
}

} // verus!

//! Percent-decoding of URL parts.

use vstd::prelude::*;
use vstd::utf8::*;
use vstd::string::*;

verus! {

/// The value of one hexadecimal digit, of either case.
pub open spec fn hex_value(b: u8) -> Option<u8> {
    if 0x30 <= b <= 0x39 {
        Some((b - 0x30) as u8)
    } else if 0x41 <= b <= 0x46 {
        Some((b - 0x41 + 10) as u8)
    } else if 0x61 <= b <= 0x66 {
        Some((b - 0x61 + 10) as u8)
    } else {
        None
    }
}

/// The bytes that percent-encoded bytes stand for: `%` and two hexadecimal digits
/// are one byte, and every other byte is itself.
pub open spec fn percent_decoded(b: Seq<u8>) -> Seq<u8>
    decreases b.len(),
{
    if b.len() == 0 {
        Seq::empty()
    } else if b.len() >= 3 && b[0] == 0x25 && hex_value(b[1]) is Some && hex_value(b[2]) is Some {
        seq![(hex_value(b[1])->0 * 16 + hex_value(b[2])->0) as u8] + percent_decoded(b.skip(3))
    } else {
        seq![b[0]] + percent_decoded(b.skip(1))
    }
}

/// The text that `String::from_utf8_lossy` makes of bytes.
pub uninterp spec fn lossy_text(bytes: Seq<u8>) -> Seq<char>;

/// The text that a percent-encoded string stands for, with what is not UTF-8 replaced.
pub open spec fn decoded_lossy(s: Seq<char>) -> Seq<char> {
    let bytes = percent_decoded(encode_utf8(s));
    if valid_utf8(bytes) {
        decode_utf8(bytes)
    } else {
        lossy_text(bytes)
    }
}

/// The text that a percent-encoded string stands for, where it is UTF-8.
pub open spec fn decoded_strict(s: Seq<char>) -> Option<Seq<char>> {
    let bytes = percent_decoded(encode_utf8(s));
    if valid_utf8(bytes) {
        Some(decode_utf8(bytes))
    } else {
        None
    }
}

/// Calls `percent_encoding::percent_decode_str` and `decode_utf8_lossy` on what it
/// yields. The result is the text of the decoded bytes where they are UTF-8; on other
/// bytes it is what the standard library's lossy conversion gives, which is only named.
#[verifier::external_body]
pub(crate) fn percent_decode_lossy(s: &str) -> (r: String)
    ensures
        r@ == decoded_lossy(s@),
        !valid_utf8(percent_decoded(encode_utf8(s@))) ==> r@ == lossy_text(
            percent_decoded(encode_utf8(s@)),
        ),
{
    percent_encoding::percent_decode_str(s).decode_utf8_lossy().into_owned()
}

/// Calls `percent_encoding::percent_decode_str` and `decode_utf8` on what it yields:
/// the text of the decoded bytes, or nothing where they are not UTF-8.
#[verifier::external_body]
pub(crate) fn percent_decode_strict(s: &str) -> (r: Option<String>)
    ensures
        match r {
            Some(t) => decoded_strict(s@) == Some(t@),
            None => decoded_strict(s@) is None,
        },
{
    percent_encoding::percent_decode_str(s).decode_utf8().ok().map(|text| text.into_owned())
}

/// Bytes without a percent sign stand for themselves.
pub proof fn lemma_nothing_encoded(b: Seq<u8>)
    requires
        forall|i: int| 0 <= i < b.len() ==> #[trigger] b[i] != 0x25,
    ensures
        percent_decoded(b) == b,
    decreases b.len(),
{
    if b.len() > 0 {
        lemma_nothing_encoded(b.skip(1));
        assert(b[0] != 0x25);
        assert(seq![b[0]] + b.skip(1) =~= b);
    }
}

/// Plain characters without a percent sign stand for themselves.
pub proof fn lemma_plain_text(s: Seq<char>)
    requires
        is_ascii_chars(s),
        !s.contains('%'),
    ensures
        decoded_lossy(s) == s,
{
    is_ascii_chars_encode_utf8(s);
    is_ascii_chars_nat_bound(s);
    let b = encode_utf8(s);
    assert forall|i: int| 0 <= i < b.len() implies #[trigger] b[i] != 0x25 by {
        assert(s.contains(s[i]));
    }
    lemma_nothing_encoded(b);
    encode_utf8_valid_utf8(s);
    encode_utf8_decode_utf8(s);
}

/// The hexadecimal digit of a number below 16.
pub open spec fn hex_digit_of(n: u8, upper: bool) -> u8 {
    if n < 10 {
        (0x30 + n) as u8
    } else if upper {
        (0x41 + n - 10) as u8
    } else {
        (0x61 + n - 10) as u8
    }
}

/// Every byte comes back from a percent sign and its two digits, of either case, whatever is
/// behind it.
pub proof fn law_encoded_bytes_come_back(byte: u8, upper: bool, rest: Seq<u8>)
    ensures
        percent_decoded(
            seq![0x25u8, hex_digit_of(byte / 16, upper), hex_digit_of(byte % 16, upper)] + rest,
        ) == seq![byte] + percent_decoded(rest),
{
    let code = seq![0x25u8, hex_digit_of(byte / 16, upper), hex_digit_of(byte % 16, upper)];
    assert((code + rest).skip(3) =~= rest);
    assert(hex_value(code[1]) == Some((byte / 16) as u8));
    assert(hex_value(code[2]) == Some((byte % 16) as u8));
    assert((byte / 16) * 16 + byte % 16 == byte);
}

/// Any other byte stands for itself, whatever is behind it.
pub proof fn law_other_bytes_stay(byte: u8, rest: Seq<u8>)
    requires
        byte != 0x25,
    ensures
        percent_decoded(seq![byte] + rest) == seq![byte] + percent_decoded(rest),
{
    assert((seq![byte] + rest).skip(1) =~= rest);
}

/// Plain characters without a percent sign are accepted as they are.
pub proof fn lemma_plain_strict(s: Seq<char>)
    requires
        is_ascii_chars(s),
        !s.contains('%'),
    ensures
        decoded_strict(s) == Some(s),
{
    lemma_plain_text(s);
    is_ascii_chars_encode_utf8(s);
    is_ascii_chars_nat_bound(s);
    let b = encode_utf8(s);
    assert forall|i: int| 0 <= i < b.len() implies #[trigger] b[i] != 0x25 by {
        assert(s.contains(s[i]));
    }
    lemma_nothing_encoded(b);
    encode_utf8_valid_utf8(s);
    encode_utf8_decode_utf8(s);
}

/// A text is decoded alike wherever it is UTF-8, and only there by the strict way.
pub proof fn law_strict_decoding_is_the_lossy_one(s: Seq<char>)
    ensures
        decoded_strict(s) is Some ==> decoded_lossy(s) == decoded_strict(s)->0,
        decoded_strict(s) is Some <==> valid_utf8(percent_decoded(encode_utf8(s))),
        decoded_strict(s) is Some ==> encode_utf8(decoded_strict(s)->0) == percent_decoded(
            encode_utf8(s),
        ),
{
    if decoded_strict(s) is Some {
        decode_utf8_encode_utf8(percent_decoded(encode_utf8(s)));
    }
}

/// What is not UTF-8 is replaced where decoding may not fail, and only there.
pub proof fn law_bad_bytes_are_replaced(s: Seq<char>)
    ensures
        decoded_strict(s) is None ==> decoded_lossy(s) == lossy_text(
            percent_decoded(encode_utf8(s)),
        ),
{
}

} // verus!

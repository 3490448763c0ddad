//! The hexadecimal form in which secrets are stored and delivered.

use crate::text::is_white_space;
use vstd::prelude::*;
use vstd::utf8::{encode_utf8, is_ascii_chars, is_ascii_chars_encode_utf8};

verus! {

/// Whether `b` is the ASCII code of a hexadecimal digit of either case.
pub open spec fn is_hex_digit(b: u8) -> bool {
    ||| 48 <= b <= 57
    ||| 65 <= b <= 70
    ||| 97 <= b <= 102
}

/// The value of the hexadecimal digit with the ASCII code `b`.
pub open spec fn hex_digit_value(b: u8) -> int {
    if b <= 57 {
        b - 48
    } else if b <= 70 {
        b - 55
    } else {
        b - 87
    }
}

/// The lower-case hexadecimal digit for a number below sixteen.
pub open spec fn hex_digit(n: int) -> char {
    if n < 10 {
        (n + 48) as char
    } else {
        (n + 87) as char
    }
}

/// The text of `bytes`: two lower-case digits for each byte, the high one first.
pub open spec fn hex_text(bytes: Seq<u8>) -> Seq<char> {
    Seq::new(
        2 * bytes.len(),
        |i: int|
            if i % 2 == 0 {
                hex_digit(bytes[i / 2] as int / 16)
            } else {
                hex_digit(bytes[i / 2] as int % 16)
            },
    )
}

/// The number of hexadecimal digits at the start of `ascii`, up to the first other byte.
pub open spec fn hex_prefix(ascii: Seq<u8>) -> nat
    decreases ascii.len(),
{
    if ascii.len() > 0 && is_hex_digit(ascii.first()) {
        1 + hex_prefix(ascii.drop_first())
    } else {
        0
    }
}

/// The bytes that an even number of hexadecimal digits stands for.
pub open spec fn hex_bytes(ascii: Seq<u8>) -> Seq<u8> {
    Seq::new(
        ascii.len() / 2,
        |i: int| (hex_digit_value(ascii[2 * i]) * 16 + hex_digit_value(ascii[2 * i + 1])) as u8,
    )
}

/// What `hex::FromHexError` displays of a byte `c`, at `index`, that is no hexadecimal digit.
pub uninterp spec fn invalid_digit_text(c: char, index: nat) -> Seq<char>;

/// What decoding `text` gives: its bytes, or the text of the error. An odd number of digits is
/// refused before any digit is looked at; then the first byte that is no digit is.
pub open spec fn hex_outcome(text: Seq<char>) -> Result<Seq<u8>, Seq<char>> {
    let ascii = encode_utf8(text);
    let digits = hex_prefix(ascii);
    if ascii.len() % 2 != 0 {
        Err("Odd number of digits"@)
    } else if digits < ascii.len() {
        Err(invalid_digit_text(ascii[digits as int] as char, digits))
    } else {
        Ok(hex_bytes(ascii))
    }
}

/// `hex::encode` writes two lower-case digits for each byte. Its result must fit in a string.
#[verifier::external_body]
pub(crate) fn encode(bytes: &[u8]) -> (text: String)
    requires
        2 * bytes@.len() <= isize::MAX,
    ensures
        text@ == hex_text(bytes@),
{
    hex::encode(bytes)
}

/// `hex::decode` reads pairs of digits of either case. It refuses an odd number of bytes, then
/// the first byte that is no digit; the text of an error is what the error displays.
#[verifier::external_body]
pub(crate) fn decode(text: &str) -> (result: Result<Vec<u8>, String>)
    ensures
        match result {
            Ok(bytes) => hex_outcome(text@) == Ok::<Seq<u8>, Seq<char>>(bytes@),
            Err(error) => hex_outcome(text@) == Err::<Seq<u8>, Seq<char>>(error@),
        },
        result matches Err(error) ==> encode_utf8(text@).len() % 2 == 0 ==> error@
            == invalid_digit_text(
            encode_utf8(text@)[hex_prefix(encode_utf8(text@)) as int] as char,
            hex_prefix(encode_utf8(text@)),
        ),
{
    hex::decode(text).map_err(|error| error.to_string())
}

/// Whether `ascii` spells `bytes`: it is a pair of hexadecimal digits of either case for each byte,
/// in the order of the bytes, the high digit first.
pub open spec fn spells(ascii: Seq<u8>, bytes: Seq<u8>) -> bool {
    &&& ascii.len() == 2 * bytes.len()
    &&& forall|i: int| 0 <= i < ascii.len() ==> is_hex_digit(#[trigger] ascii[i])
    &&& forall|i: int|
        0 <= i < bytes.len() ==> #[trigger] bytes[i] == 16 * hex_digit_value(ascii[2 * i])
            + hex_digit_value(ascii[2 * i + 1])
}

proof fn lemma_hex_prefix(ascii: Seq<u8>)
    ensures
        hex_prefix(ascii) <= ascii.len(),
        forall|i: int| 0 <= i < hex_prefix(ascii) ==> is_hex_digit(#[trigger] ascii[i]),
        hex_prefix(ascii) < ascii.len() ==> !is_hex_digit(ascii[hex_prefix(ascii) as int]),
    decreases ascii.len(),
{
    if ascii.len() > 0 && is_hex_digit(ascii.first()) {
        let rest = ascii.drop_first();
        lemma_hex_prefix(rest);
        assert forall|i: int| 0 <= i < hex_prefix(ascii) implies is_hex_digit(
            #[trigger] ascii[i],
        ) by {
            if i > 0 {
                assert(rest[i - 1] == ascii[i]);
            }
        }
        if hex_prefix(ascii) < ascii.len() {
            assert(rest[hex_prefix(rest) as int] == ascii[hex_prefix(ascii) as int]);
        }
    }
}

/// A text decodes to exactly the bytes that it spells, and to an error exactly where it spells
/// none: where the number of its bytes is odd, or where one of them is no hexadecimal digit.
pub proof fn decoding_gives_what_is_spelled(text: Seq<char>, bytes: Seq<u8>)
    ensures
        hex_outcome(text) == Ok::<Seq<u8>, Seq<char>>(bytes) <==> spells(encode_utf8(text), bytes),
        hex_outcome(text) is Err <==> {
            ||| encode_utf8(text).len() % 2 == 1
            ||| exists|i: int|
                0 <= i < encode_utf8(text).len() && !is_hex_digit(
                    #[trigger] encode_utf8(text)[i],
                )
        },
        encode_utf8(text).len() % 2 == 1 ==> hex_outcome(text) == Err::<Seq<u8>, Seq<char>>(
            "Odd number of digits"@,
        ),
{
    let ascii = encode_utf8(text);
    lemma_hex_prefix(ascii);
    if forall|i: int| 0 <= i < ascii.len() ==> is_hex_digit(#[trigger] ascii[i]) {
        lemma_hex_prefix_whole(ascii);
    }
    if hex_outcome(text) is Ok {
        let decoded = hex_bytes(ascii);
        assert forall|i: int| 0 <= i < decoded.len() implies #[trigger] decoded[i] == 16
            * hex_digit_value(ascii[2 * i]) + hex_digit_value(ascii[2 * i + 1]) by {
            assert(is_hex_digit(ascii[2 * i]) && is_hex_digit(ascii[2 * i + 1]));
        }
        assert(spells(ascii, decoded));
        if spells(ascii, bytes) {
            assert forall|i: int| 0 <= i < bytes.len() implies bytes[i] == decoded[i] by {}
            assert(bytes =~= decoded);
        }
    } else if spells(ascii, bytes) {
        assert(ascii.len() % 2 == 0);
    }
}

/// The text of some bytes spells them, in lower case.
pub proof fn hex_text_spells_its_bytes(bytes: Seq<u8>)
    ensures
        spells(encode_utf8(hex_text(bytes)), bytes),
        forall|i: int|
            0 <= i < hex_text(bytes).len() ==> {
                ||| '0' <= #[trigger] hex_text(bytes)[i] <= '9'
                ||| 'a' <= hex_text(bytes)[i] <= 'f'
            },
{
    decoding_inverts_encoding(bytes);
    decoding_gives_what_is_spelled(hex_text(bytes), bytes);
}

/// The text of some bytes holds no white space.
pub proof fn hex_text_has_no_white_space(bytes: Seq<u8>)
    ensures
        forall|i: int|
            0 <= i < hex_text(bytes).len() ==> !is_white_space(#[trigger] hex_text(bytes)[i]),
{
}

proof fn lemma_hex_prefix_whole(ascii: Seq<u8>)
    requires
        forall|i: int| 0 <= i < ascii.len() ==> is_hex_digit(#[trigger] ascii[i]),
    ensures
        hex_prefix(ascii) == ascii.len(),
    decreases ascii.len(),
{
    if ascii.len() > 0 {
        assert(is_hex_digit(ascii[0]));
        assert forall|i: int| 0 <= i < ascii.drop_first().len() implies is_hex_digit(
            #[trigger] ascii.drop_first()[i],
        ) by {
            assert(ascii.drop_first()[i] == ascii[i + 1]);
        }
        lemma_hex_prefix_whole(ascii.drop_first());
    }
}

/// Decoding gives back what was encoded.
pub proof fn decoding_inverts_encoding(bytes: Seq<u8>)
    ensures
        hex_outcome(hex_text(bytes)) == Ok::<Seq<u8>, Seq<char>>(bytes),
{
    let text = hex_text(bytes);
    let ascii = encode_utf8(text);
    assert(is_ascii_chars(text));
    is_ascii_chars_encode_utf8(text);
    assert forall|i: int| 0 <= i < ascii.len() implies is_hex_digit(#[trigger] ascii[i]) by {
        assert(ascii[i] == text[i] as u8);
    }
    lemma_hex_prefix_whole(ascii);
    assert forall|i: int| 0 <= i < bytes.len() implies #[trigger] hex_bytes(ascii)[i]
        == bytes[i] by {
        assert(ascii[2 * i] == text[2 * i] as u8);
        assert(ascii[2 * i + 1] == text[2 * i + 1] as u8);
        assert((2 * i) / 2 == i && (2 * i + 1) / 2 == i);
        assert(hex_digit_value(ascii[2 * i]) == bytes[i] as int / 16);
        assert(hex_digit_value(ascii[2 * i + 1]) == bytes[i] as int % 16);
    }
    assert(hex_bytes(ascii) =~= bytes);
}

} // verus!

//! Percent-encoding of query keys and values.

use vstd::prelude::*;

verus! {

/// The bytes that stand for themselves: ASCII letters and digits, and `-`, `_`,
/// `.` and `~`.
pub open spec fn is_unreserved(byte: u8) -> bool {
    ||| 97 <= byte <= 122
    ||| 65 <= byte <= 90
    ||| 48 <= byte <= 57
    ||| byte == 45
    ||| byte == 95
    ||| byte == 46
    ||| byte == 126
}

/// The upper-case hexadecimal digit of a number under 16.
pub open spec fn hex_digit(digit: u8) -> char {
    if digit < 10 {
        (48 + digit) as char
    } else {
        (55 + digit) as char
    }
}

/// The encoded form of one byte: itself, or a percent sign and two digits.
pub open spec fn encoded_byte(byte: u8) -> Seq<char> {
    if is_unreserved(byte) {
        seq![byte as char]
    } else {
        seq!['%', hex_digit(byte / 16), hex_digit(byte % 16)]
    }
}

/// The encoded forms of all bytes, one after the other.
pub open spec fn encoded_bytes(bytes: Seq<u8>) -> Seq<char>
    decreases bytes.len(),
{
    if bytes.len() == 0 {
        Seq::empty()
    } else {
        encoded_byte(bytes.first()) + encoded_bytes(bytes.drop_first())
    }
}

/// The percent-encoded form of a text.
pub open spec fn percent_encoded(text: Seq<char>) -> Seq<char> {
    encoded_bytes(vstd::utf8::encode_utf8(text))
}

fn hex_digit_of(digit: u8) -> (c: char)
    requires
        digit < 16,
    ensures
        c == hex_digit(digit),
{
    if digit < 10 {
        (48 + digit) as char
    } else {
        (55 + digit) as char
    }
}

/// Computes [`percent_encoded`].
pub fn percent_encode(value: &str) -> (encoded: String)
    ensures
        encoded@ == percent_encoded(value@),
{
    let bytes = value.as_bytes();
    let mut encoded = String::new();
    let mut i: usize = 0;
    assert(bytes@.skip(0) =~= bytes@);
    assert(encoded@ + encoded_bytes(bytes@.skip(0)) =~= encoded_bytes(bytes@));
    while i < bytes.len()
        invariant
            i <= bytes@.len(),
            encoded@ + encoded_bytes(bytes@.skip(i as int)) == encoded_bytes(bytes@),
        decreases bytes@.len() - i,
    {
        let byte = bytes[i];
        let ghost so_far = encoded@;
        let ghost rest = bytes@.skip(i as int);
        if (97 <= byte && byte <= 122) || (65 <= byte && byte <= 90) || (48 <= byte && byte <= 57)
            || byte == 45 || byte == 95 || byte == 46 || byte == 126 {
            encoded.push(byte as char);
        } else {
            encoded.push('%');
            encoded.push(hex_digit_of(byte / 16));
            encoded.push(hex_digit_of(byte % 16));
        }
        assert(encoded@ =~= so_far + encoded_byte(byte));
        assert(rest.first() == byte);
        assert(rest.drop_first() =~= bytes@.skip(i + 1));
        assert(encoded@ + encoded_bytes(bytes@.skip(i + 1)) =~= so_far + encoded_bytes(rest));
        i = i + 1;
    }
    assert(encoded@ + encoded_bytes(bytes@.skip(i as int)) =~= encoded@);
    encoded
}

/// The number that an upper-case hexadecimal digit stands for.
pub open spec fn hex_value(c: char) -> int {
    if '0' <= c <= '9' {
        c as int - 48
    } else {
        c as int - 55
    }
}

/// The bytes that an encoded text stands for.
pub open spec fn decoded_bytes(encoded: Seq<char>) -> Seq<u8>
    decreases encoded.len(),
{
    if encoded.len() == 0 {
        Seq::empty()
    } else if encoded.first() == '%' && encoded.len() >= 3 {
        seq![(16 * hex_value(encoded[1]) + hex_value(encoded[2])) as u8] + decoded_bytes(
            encoded.skip(3),
        )
    } else {
        seq![encoded.first() as u8] + decoded_bytes(encoded.drop_first())
    }
}

/// Decoding gives back the bytes that were encoded.
pub proof fn law_decoding_undoes_encoding(bytes: Seq<u8>)
    ensures
        decoded_bytes(encoded_bytes(bytes)) == bytes,
    decreases bytes.len(),
{
    if bytes.len() > 0 {
        let first = bytes.first();
        let rest = bytes.drop_first();
        let encoded = encoded_bytes(bytes);
        law_decoding_undoes_encoding(rest);
        if is_unreserved(first) {
            assert(encoded.first() == first as char);
            assert(encoded.drop_first() =~= encoded_bytes(rest));
        } else {
            assert(encoded[0] == '%');
            assert(encoded[1] == hex_digit(first / 16));
            assert(encoded[2] == hex_digit(first % 16));
            assert(encoded.skip(3) =~= encoded_bytes(rest));
            assert(16 * hex_value(encoded[1]) + hex_value(encoded[2]) == first);
        }
        assert(decoded_bytes(encoded) =~= seq![first] + rest);
        assert(seq![first] + rest =~= bytes);
    } else {
        assert(decoded_bytes(encoded_bytes(bytes)) =~= bytes);
    }
}

/// The characters that an encoded text is made of.
pub open spec fn is_encoded_char(c: char) -> bool {
    ||| 'a' <= c <= 'z'
    ||| 'A' <= c <= 'Z'
    ||| '0' <= c <= '9'
    ||| c == '-'
    ||| c == '_'
    ||| c == '.'
    ||| c == '~'
    ||| c == '%'
}

/// An encoded text holds letters, digits, `-`, `_`, `.`, `~` and `%` alone; in
/// particular nothing that separates the parts of a query.
pub proof fn law_encoded_text_is_plain(bytes: Seq<u8>, i: int)
    requires
        0 <= i < encoded_bytes(bytes).len(),
    ensures
        is_encoded_char(encoded_bytes(bytes)[i]),
    decreases bytes.len(),
{
    let first = encoded_byte(bytes.first());
    if i >= first.len() {
        law_encoded_text_is_plain(bytes.drop_first(), i - first.len());
    }
}

/// Two texts with the same encoded form are the same text.
pub proof fn law_encoding_is_injective(a: Seq<char>, b: Seq<char>)
    requires
        percent_encoded(a) == percent_encoded(b),
    ensures
        a == b,
{
    law_decoding_undoes_encoding(vstd::utf8::encode_utf8(a));
    law_decoding_undoes_encoding(vstd::utf8::encode_utf8(b));
    vstd::utf8::encode_utf8_decode_utf8(a);
    vstd::utf8::encode_utf8_decode_utf8(b);
}

/// The letters, digits and marks that stand for themselves in a query.
pub open spec fn plain_characters() -> Seq<char> {
    "ABCDEFGHIJKLMNOPQRSTUVWXYZabcdefghijklmnopqrstuvwxyz0123456789-_.~"@
}

/// A byte is written as itself exactly where it is that of a letter, a digit or one of
/// `-_.~`, and else as a percent sign and its two hexadecimal digits in upper case, the
/// higher one first.
pub proof fn law_each_byte_is_encoded(byte: u8)
    ensures
        encoded_bytes(seq![byte]) == seq![byte as char] || encoded_bytes(seq![byte]) == seq![
            '%',
            "0123456789ABCDEF"@[byte as int / 16],
            "0123456789ABCDEF"@[byte as int % 16],
        ],
        encoded_bytes(seq![byte]) == seq![byte as char] <==> plain_characters().contains(
            byte as char,
        ),
{
    let digits = "0123456789ABCDEF"@;
    reveal_strlit("0123456789ABCDEF");
    assert(digits.len() == 16);
    assert forall|n: u8| n < 16 implies #[trigger] hex_digit(n) == digits[n as int] by {
        assert(digits[0] == '0' && digits[1] == '1' && digits[2] == '2' && digits[3] == '3'
            && digits[4] == '4' && digits[5] == '5' && digits[6] == '6' && digits[7] == '7');
        assert(digits[8] == '8' && digits[9] == '9' && digits[10] == 'A' && digits[11] == 'B'
            && digits[12] == 'C' && digits[13] == 'D' && digits[14] == 'E' && digits[15] == 'F');
    }
    let one = seq![byte];
    assert(one.drop_first() =~= Seq::empty());
    assert(encoded_bytes(one.drop_first()) =~= Seq::empty());
    assert(encoded_bytes(one) =~= encoded_byte(byte));
    assert(hex_digit(byte / 16) == digits[byte as int / 16]);
    assert(hex_digit(byte % 16) == digits[byte as int % 16]);
    lemma_plain_characters(byte);
    assert(seq!['%', hex_digit(byte / 16), hex_digit(byte % 16)].len() == 3);
    assert(seq![byte as char].len() == 1);
}

proof fn lemma_plain_characters(byte: u8)
    ensures
        plain_characters().contains(byte as char) <==> is_unreserved(byte),
{
    let all = plain_characters();
    reveal_strlit("ABCDEFGHIJKLMNOPQRSTUVWXYZabcdefghijklmnopqrstuvwxyz0123456789-_.~");
    assert(all.len() == 66);
    assert(all[0] == 'A' && all[1] == 'B' && all[2] == 'C' && all[3] == 'D' && all[4] == 'E' && all[5] == 'F');
    assert(all[6] == 'G' && all[7] == 'H' && all[8] == 'I' && all[9] == 'J' && all[10] == 'K' && all[11] == 'L');
    assert(all[12] == 'M' && all[13] == 'N' && all[14] == 'O' && all[15] == 'P' && all[16] == 'Q' && all[17] == 'R');
    assert(all[18] == 'S' && all[19] == 'T' && all[20] == 'U' && all[21] == 'V' && all[22] == 'W' && all[23] == 'X');
    assert(all[24] == 'Y' && all[25] == 'Z' && all[26] == 'a' && all[27] == 'b' && all[28] == 'c' && all[29] == 'd');
    assert(all[30] == 'e' && all[31] == 'f' && all[32] == 'g' && all[33] == 'h' && all[34] == 'i' && all[35] == 'j');
    assert(all[36] == 'k' && all[37] == 'l' && all[38] == 'm' && all[39] == 'n' && all[40] == 'o' && all[41] == 'p');
    assert(all[42] == 'q' && all[43] == 'r' && all[44] == 's' && all[45] == 't' && all[46] == 'u' && all[47] == 'v');
    assert(all[48] == 'w' && all[49] == 'x' && all[50] == 'y' && all[51] == 'z' && all[52] == '0' && all[53] == '1');
    assert(all[54] == '2' && all[55] == '3' && all[56] == '4' && all[57] == '5' && all[58] == '6' && all[59] == '7');
    assert(all[60] == '8' && all[61] == '9' && all[62] == '-' && all[63] == '_' && all[64] == '.' && all[65] == '~');
    if all.contains(byte as char) {
        let i = choose|i: int| 0 <= i < all.len() && all[i] == byte as char;
    }
    if 65 <= byte <= 90 {
        assert(all[byte as int - 65] == byte as char);
    } else if 97 <= byte <= 122 {
        assert(all[byte as int - 71] == byte as char);
    } else if 48 <= byte <= 57 {
        assert(all[byte as int + 4] == byte as char);
    }
}

/// The bytes of a text are encoded one by one, in order.
pub proof fn law_bytes_are_encoded_in_order(a: Seq<u8>, b: Seq<u8>)
    ensures
        encoded_bytes(a + b) == encoded_bytes(a) + encoded_bytes(b),
    decreases a.len(),
{
    if a.len() > 0 {
        assert((a + b).drop_first() =~= a.drop_first() + b);
        assert((a + b).first() == a.first());
        law_bytes_are_encoded_in_order(a.drop_first(), b);
        assert(encoded_bytes(a + b) =~= encoded_bytes(a) + encoded_bytes(b));
    } else {
        assert(a + b =~= b);
        assert(encoded_bytes(a + b) =~= encoded_bytes(a) + encoded_bytes(b));
    }
}

/// What is encoded are the UTF-8 bytes of the text.
pub proof fn law_text_is_encoded_as_utf8(value: &str, encoded: String)
    requires
        call_ensures(percent_encode, (value,), encoded),
    ensures
        encoded@ == encoded_bytes(vstd::utf8::encode_utf8(value@)),
        decoded_bytes(encoded@) == vstd::utf8::encode_utf8(value@),
{
    law_decoding_undoes_encoding(vstd::utf8::encode_utf8(value@));
}

} // verus!

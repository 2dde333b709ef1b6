//! Hexadecimal text, read and written by the `hex` crate.

use vstd::prelude::*;
use vstd::string::*;
use vstd::utf8::*;

verus! {

/// Why a text is not the hexadecimal form of any bytes.
#[derive(Debug, Clone, Copy, PartialEq, Eq, Structural)]
pub enum HexError {
    /// A byte of the text, read as a character, is no hexadecimal digit.
    InvalidHexCharacter { c: char, index: usize },
    /// Two digits make a byte, so one is missing.
    OddLength,
    /// The text does not have the length that was asked for.
    InvalidStringLength,
}

/// `0` to `9`, `A` to `F` or `a` to `f`.
pub open spec fn is_hex_digit(b: u8) -> bool {
    ||| 0x30 <= b <= 0x39
    ||| 0x41 <= b <= 0x46
    ||| 0x61 <= b <= 0x66
}

/// The number that a hexadecimal digit stands for.
pub open spec fn digit_value(b: u8) -> int {
    if b <= 0x39 {
        b - 0x30
    } else if b <= 0x46 {
        b - 0x41 + 10
    } else {
        b - 0x61 + 10
    }
}

/// The place of the first byte that is no hexadecimal digit, or the length where all are.
pub open spec fn first_non_digit(data: Seq<u8>) -> int
    decreases data.len(),
{
    if data.len() == 0 || !is_hex_digit(data.first()) {
        0
    } else {
        1 + first_non_digit(data.drop_first())
    }
}

/// The bytes that pairs of hexadecimal digits make.
pub open spec fn bytes_of(data: Seq<u8>) -> Seq<u8> {
    Seq::new(
        data.len() / 2,
        |i: int| (16 * digit_value(data[2 * i]) + digit_value(data[2 * i + 1])) as u8,
    )
}

/// The bytes that a hexadecimal text stands for, or the first thing that is wrong with it.
pub open spec fn decoded(data: Seq<u8>) -> Result<Seq<u8>, HexError> {
    let bad = first_non_digit(data);
    if data.len() % 2 != 0 {
        Err(HexError::OddLength)
    } else if bad < data.len() {
        Err(HexError::InvalidHexCharacter { c: data[bad] as char, index: bad as usize })
    } else {
        Ok(bytes_of(data))
    }
}

/// Calls `hex::decode`. It takes an even number of digits, of either case, to the bytes that
/// their pairs make. It fails with `OddLength` where the number of bytes in `data` is odd, and
/// else with the first byte that is no digit and its place.
#[verifier::external_body]
pub(crate) fn hex_decode(data: &[u8]) -> (r: Result<Vec<u8>, HexError>)
    ensures
        match r {
            Ok(bytes) => decoded(data@) == Ok::<Seq<u8>, HexError>(bytes@),
            Err(e) => decoded(data@) == Err::<Seq<u8>, HexError>(e),
        },
{
    match hex::decode(data) {
        Ok(bytes) => Ok(bytes),
        Err(hex::FromHexError::InvalidHexCharacter { c, index }) => {
            Err(HexError::InvalidHexCharacter { c, index })
        },
        Err(hex::FromHexError::OddLength) => Err(HexError::OddLength),
        Err(hex::FromHexError::InvalidStringLength) => Err(HexError::InvalidStringLength),
    }
}

/// The digit of a number below sixteen, in lower case.
pub open spec fn digit(n: int) -> char {
    if n < 10 {
        (0x30 + n) as char
    } else {
        (0x61 + n - 10) as char
    }
}

/// The hexadecimal text of bytes: two digits for each, in lower case, the higher first.
pub open spec fn encoded(data: Seq<u8>) -> Seq<char> {
    Seq::new(
        2 * data.len(),
        |i: int|
            if i % 2 == 0 {
                digit(data[i / 2] as int / 16)
            } else {
                digit(data[i / 2] as int % 16)
            },
    )
}

/// Calls `hex::encode`, which writes two lower-case digits for each byte. The text has to fit
/// into a string.
#[verifier::external_body]
pub(crate) fn hex_encode(data: &[u8]) -> (r: String)
    requires
        2 * data@.len() <= isize::MAX,
    ensures
        r@ == encoded(data@),
{
    hex::encode(data)
}

/// The way `Debug` writes a character: between single quotes, and escaped where it does so.
pub uninterp spec fn quoted(c: char) -> Seq<char>;

/// The decimal text of a number.
pub open spec fn decimal(n: nat) -> Seq<char>
    decreases n,
{
    if n < 10 {
        seq![digit(n as int)]
    } else {
        decimal(n / 10).push(digit((n % 10) as int))
    }
}

/// What `hex` says of an error.
pub open spec fn error_text(e: HexError) -> Seq<char> {
    match e {
        HexError::InvalidHexCharacter { c, index } => "Invalid character "@ + quoted(c)
            + " at position "@ + decimal(index as nat),
        HexError::OddLength => "Odd number of digits"@,
        HexError::InvalidStringLength => "Invalid string length"@,
    }
}

/// Calls `Display` of `hex::FromHexError` on the error that `e` stands for. Two of the errors
/// have a fixed text; the third has the character, in the way `Debug` writes it, and the place.
/// Which characters `Debug` escapes, and how, is left unsaid.
#[verifier::external_body]
fn hex_error_text(e: &HexError) -> (r: String)
    ensures
        r@ == match *e {
            HexError::InvalidHexCharacter { c, index } => "Invalid character "@ + quoted(c)
                + " at position "@ + decimal(index as nat),
            HexError::OddLength => "Odd number of digits"@,
            HexError::InvalidStringLength => "Invalid string length"@,
        },
{
    match *e {
        HexError::InvalidHexCharacter { c, index } => {
            hex::FromHexError::InvalidHexCharacter { c, index }.to_string()
        },
        HexError::OddLength => hex::FromHexError::OddLength.to_string(),
        HexError::InvalidStringLength => hex::FromHexError::InvalidStringLength.to_string(),
    }
}

impl HexError {
    /// The error in words.
    pub fn message(&self) -> (r: String)
        ensures
            r@ == error_text(*self),
            *self matches HexError::InvalidHexCharacter { c, index } ==> r@
                == "Invalid character "@ + quoted(c) + " at position "@ + decimal(index as nat),
            *self == HexError::OddLength ==> r@ == "Odd number of digits"@,
            *self == HexError::InvalidStringLength ==> r@ == "Invalid string length"@,
    {
        hex_error_text(self)
    }
}

/// A hexadecimal digit among characters.
pub open spec fn is_hex_char(c: char) -> bool {
    ||| '0' <= c <= '9'
    ||| 'A' <= c <= 'F'
    ||| 'a' <= c <= 'f'
}

/// `first_non_digit` finds the first byte that is no digit, and all before it are.
pub proof fn lemma_first_non_digit(data: Seq<u8>)
    ensures
        0 <= first_non_digit(data) <= data.len(),
        first_non_digit(data) < data.len() ==> !is_hex_digit(data[first_non_digit(data)]),
        forall|i: int| 0 <= i < first_non_digit(data) ==> is_hex_digit(#[trigger] data[i]),
    decreases data.len(),
{
    if data.len() > 0 && is_hex_digit(data.first()) {
        let rest = data.drop_first();
        lemma_first_non_digit(rest);
        assert forall|i: int| 0 <= i < first_non_digit(data) implies is_hex_digit(
            #[trigger] data[i],
        ) by {
            if i > 0 {
                assert(rest[i - 1] == data[i]);
            }
        }
    }
}

/// A text holds nothing but hexadecimal digits exactly when its UTF-8 form does, and then the
/// two are alike, byte for character.
pub proof fn lemma_hex_bytes(s: Seq<char>)
    ensures
        (forall|i: int| 0 <= i < s.len() ==> is_hex_char(#[trigger] s[i])) <==> first_non_digit(
            encode_utf8(s),
        ) == encode_utf8(s).len(),
        (forall|i: int| 0 <= i < s.len() ==> is_hex_char(#[trigger] s[i])) ==> {
            &&& encode_utf8(s).len() == s.len()
            &&& forall|i: int| 0 <= i < s.len() ==> #[trigger] encode_utf8(s)[i] == s[i] as u8
        },
    decreases s.len(),
{
    let data = encode_utf8(s);
    lemma_first_non_digit(data);
    if s.len() > 0 {
        let rest = s.drop_first();
        let head = encode_scalar(s[0] as u32);
        assert(data == head + encode_utf8(rest));
        encode_utf8_first_scalar(s);
        char_is_scalar(s[0]);
        lemma_hex_bytes(rest);
        if is_hex_char(s[0]) {
            let one = seq![s[0]];
            assert(is_ascii_chars(one));
            is_ascii_chars_encode_utf8(one);
            assert(one.drop_first() == Seq::<char>::empty());
            assert(encode_utf8(one.drop_first()) == Seq::<u8>::empty());
            assert(encode_utf8(one) == head);
            assert(head.len() == 1 && head[0] == s[0] as u8);
            assert(data.drop_first() == encode_utf8(rest));
            if forall|i: int| 0 <= i < s.len() ==> is_hex_char(#[trigger] s[i]) {
                assert forall|i: int| 0 <= i < rest.len() implies is_hex_char(
                    #[trigger] rest[i],
                ) by {
                    assert(rest[i] == s[i + 1]);
                }
                assert forall|i: int| 0 <= i < s.len() implies #[trigger] encode_utf8(s)[i]
                    == s[i] as u8 by {
                    if i > 0 {
                        assert(data[i] == encode_utf8(rest)[i - 1]);
                        assert(rest[i - 1] == s[i]);
                    }
                }
            } else if first_non_digit(data) == data.len() {
                assert forall|i: int| 0 <= i < s.len() implies is_hex_char(#[trigger] s[i]) by {
                    if i > 0 {
                        assert(rest[i - 1] == s[i]);
                    }
                }
            }
        } else {
            assert(!is_hex_digit(data[0])) by {
                if is_hex_digit(data[0]) {
                    assert(head.len() == 1);
                    lemma_one_byte(s[0]);
                }
            }
        }
    }
}

/// The one byte of a character that has no more is a digit only if the character is.
proof fn lemma_one_byte(c: char)
    requires
        has_width_1_encoding(c as u32),
        is_hex_digit(leading_byte_width_1(c as u32)),
    ensures
        is_hex_char(c),
{
    let n = c as u32;
    assert(leading_byte_width_1(n) == n) by (bit_vector)
        requires
            has_width_1_encoding(n),
    ;
}

} // verus!

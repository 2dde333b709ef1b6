//! Node identities: thirty-two bytes, written as sixty-four hexadecimal digits.

use vstd::prelude::*;
use vstd::string::*;
use vstd::utf8::*;

use crate::hex_text::{
    decoded, digit, digit_value, encoded, error_text, hex_decode, is_hex_char,
    lemma_first_non_digit, lemma_hex_bytes, HexError,
};

verus! {

/// The identity of a node.
pub type NodeId = [u8; 32];

/// Why an entry of the list of peers is no identity.
#[derive(Debug)]
pub enum NodeIdError {
    /// The entry is not hexadecimal.
    NotHex { entry: String, cause: HexError },
    /// The entry does not stand for thirty-two bytes.
    NotThirtyTwoBytes { entry: String },
}

/// Sixty-four hexadecimal digits.
pub open spec fn is_id_text(s: Seq<char>) -> bool {
    s.len() == 64 && forall|i: int| 0 <= i < 64 ==> is_hex_char(#[trigger] s[i])
}

/// The identity that sixty-four hexadecimal digits stand for.
pub open spec fn id_of_text(s: Seq<char>) -> Seq<u8> {
    Seq::new(
        32,
        |i: int| (16 * digit_value(s[2 * i] as u8) + digit_value(s[2 * i + 1] as u8)) as u8,
    )
}

/// What an error says of the entry that it is about, and that the entry is no identity for the
/// reason that it gives.
pub open spec fn faults(s: Seq<char>, e: NodeIdError) -> bool {
    &&& !is_id_text(s)
    &&& match e {
        NodeIdError::NotHex { entry, cause } => entry@ == s && decoded(encode_utf8(s)) == Err::<
            Seq<u8>,
            HexError,
        >(cause),
        NodeIdError::NotThirtyTwoBytes { entry } => entry@ == s && s.len() % 2 == 0 && forall|
            i: int,
        |
            0 <= i < s.len() ==> is_hex_char(#[trigger] s[i]),
    }
}

/// The error in words.
pub open spec fn node_id_error_text(e: NodeIdError) -> Seq<char> {
    match e {
        NodeIdError::NotHex { entry, cause } => "CE_WS_PEERS entry '"@ + entry@ + "' is not hex: "@
            + error_text(cause),
        NodeIdError::NotThirtyTwoBytes { entry } => "CE_WS_PEERS entry '"@ + entry@
            + "' is not 32 bytes"@,
    }
}

impl NodeIdError {
    /// The error in words.
    pub fn message(&self) -> (r: String)
        ensures
            r@ == node_id_error_text(*self),
            *self matches NodeIdError::NotHex { entry, cause } ==> r@ == "CE_WS_PEERS entry '"@
                + entry@ + "' is not hex: "@ + error_text(cause),
            *self matches NodeIdError::NotThirtyTwoBytes { entry } ==> r@
                == "CE_WS_PEERS entry '"@ + entry@ + "' is not 32 bytes"@,
    {
        let start = "CE_WS_PEERS entry '".to_owned();
        match self {
            NodeIdError::NotHex { entry, cause } => {
                let why = cause.message();
                start.concat(entry.as_str()).concat("' is not hex: ").concat(why.as_str())
            },
            NodeIdError::NotThirtyTwoBytes { entry } => {
                start.concat(entry.as_str()).concat("' is not 32 bytes")
            },
        }
    }
}

/// The identity that bytes are, if there are thirty-two of them.
pub fn id_from_bytes(bytes: &Vec<u8>) -> (r: Option<NodeId>)
    ensures
        match r {
            Some(id) => bytes@.len() == 32 && id@ == bytes@,
            None => bytes@.len() != 32,
        },
{
    if bytes.len() != 32 {
        return None;
    }
    let mut id: NodeId = [0u8;32];
    let mut i: usize = 0;
    while i < 32
        invariant
            0 <= i <= 32,
            bytes@.len() == 32,
            forall|k: int| 0 <= k < i ==> id@[k] == bytes@[k],
        decreases 32 - i,
    {
        id[i] = bytes[i];
        i = i + 1;
    }
    assert(id@ == bytes@);
    Some(id)
}

/// Whether two identities are the same.
pub fn same_id(a: &NodeId, b: &NodeId) -> (r: bool)
    ensures
        r == (a@ == b@),
{
    let mut i: usize = 0;
    while i < 32
        invariant
            0 <= i <= 32,
            forall|k: int| 0 <= k < i ==> a@[k] == b@[k],
        decreases 32 - i,
    {
        if a[i] != b[i] {
            assert(a@[i as int] != b@[i as int]);
            return false;
        }
        i = i + 1;
    }
    assert(a@ == b@);
    true
}

/// The identities of a list, as bytes.
pub open spec fn ids(list: Seq<NodeId>) -> Seq<Seq<u8>> {
    list.map_values(|id: NodeId| id@)
}

/// The same identities again.
pub fn copy_ids(list: &Vec<NodeId>) -> (r: Vec<NodeId>)
    ensures
        r@ == list@,
{
    let mut out: Vec<NodeId> = Vec::new();
    let mut i: usize = 0;
    while i < list.len()
        invariant
            0 <= i <= list@.len(),
            out@ == list@.take(i as int),
        decreases list@.len() - i,
    {
        out.push(list[i]);
        i = i + 1;
    }
    assert(list@.take(i as int) == list@);
    out
}

/// The bytes of an identity.
pub fn id_bytes(id: &NodeId) -> (r: Vec<u8>)
    ensures
        r@ == id@,
{
    let mut out: Vec<u8> = Vec::new();
    let mut i: usize = 0;
    while i < 32
        invariant
            0 <= i <= 32,
            out@ == id@.take(i as int),
        decreases 32 - i,
    {
        out.push(id[i]);
        i = i + 1;
    }
    assert(id@.take(32) == id@);
    out
}

/// Reads an identity from an entry of the list of peers.
pub fn parse_node_id(hex_id: &str) -> (r: Result<NodeId, NodeIdError>)
    ensures
        match r {
            Ok(id) => is_id_text(hex_id@) && id@ == id_of_text(hex_id@),
            Err(e) => faults(hex_id@, e),
        },
{
    proof {
        lemma_hex_bytes(hex_id@);
        lemma_first_non_digit(hex_id.spec_bytes());
    }
    match hex_decode(hex_id.as_bytes()) {
        Ok(bytes) => match id_from_bytes(&bytes) {
            Some(id) => {
                assert(id@ == id_of_text(hex_id@));
                Ok(id)
            },
            None => Err(NodeIdError::NotThirtyTwoBytes { entry: hex_id.to_owned() }),
        },
        Err(cause) => Err(NodeIdError::NotHex { entry: hex_id.to_owned(), cause }),
    }
}

/// The hexadecimal text of an identity is read back as that identity.
pub proof fn law_id_is_read_back(id: Seq<u8>)
    requires
        id.len() == 32,
    ensures
        is_id_text(encoded(id)),
        id_of_text(encoded(id)) == id,
{
    let s = encoded(id);
    assert forall|i: int| 0 <= i < 64 implies is_hex_char(#[trigger] s[i]) by {
        lemma_digit(id[i / 2]);
    }
    assert forall|i: int| 0 <= i < 32 implies #[trigger] id_of_text(s)[i] == id[i] by {
        lemma_digit(id[i]);
        assert((2 * i) / 2 == i && (2 * i + 1) / 2 == i);
    }
}

/// Each half of a byte is written as a digit that has its value.
proof fn lemma_digit(b: u8)
    ensures
        is_hex_char(digit(b as int / 16)),
        is_hex_char(digit(b as int % 16)),
        digit_value(digit(b as int / 16) as u8) == b as int / 16,
        digit_value(digit(b as int % 16) as u8) == b as int % 16,
{
}

/// A text is an identity exactly when `hex` decodes it to thirty-two bytes, and then it is the
/// identity of these bytes. What is wrong with another text is what `hex` says of it, or, where
/// `hex` decodes it, its length; and the error names the text.
pub proof fn law_identities_are_decoded_bytes(s: Seq<char>, entry: String, cause: HexError)
    ensures
        is_id_text(s) <==> (decoded(encode_utf8(s)) matches Ok(bytes) && bytes.len() == 32),
        is_id_text(s) ==> decoded(encode_utf8(s)) == Ok::<Seq<u8>, HexError>(id_of_text(s)),
        faults(s, NodeIdError::NotHex { entry, cause }) <==> entry@ == s && decoded(encode_utf8(s))
            == Err::<Seq<u8>, HexError>(cause),
        faults(s, NodeIdError::NotThirtyTwoBytes { entry }) <==> entry@ == s && (decoded(
            encode_utf8(s),
        ) matches Ok(bytes) && bytes.len() != 32),
{
    lemma_hex_bytes(s);
    lemma_first_non_digit(encode_utf8(s));
    if is_id_text(s) {
        let bytes = decoded(encode_utf8(s))->Ok_0;
        assert(bytes =~= id_of_text(s));
    }
}

/// An identity is sixty-four digits, of either case; case makes no difference: written in lower
/// case it is the text that the identity is shown with.
pub proof fn law_digits_of_either_case(s: Seq<char>)
    ensures
        is_id_text(s) <==> s.len() == 64 && forall|i: int|
            0 <= i < s.len() ==> ('0' <= #[trigger] s[i] <= '9' || 'a' <= s[i] <= 'f' || 'A' <= s[i]
                <= 'F'),
        is_id_text(s) ==> id_of_text(s).len() == 32,
        is_id_text(s) ==> forall|i: int|
            0 <= i < 64 ==> #[trigger] encoded(id_of_text(s))[i] == if 'A' <= s[i] <= 'F' {
                (s[i] as u32 + 32) as char
            } else {
                s[i]
            },
{
    if is_id_text(s) {
        let id = id_of_text(s);
        assert forall|i: int| 0 <= i < 64 implies #[trigger] encoded(id)[i] == (if 'A' <= s[i]
            <= 'F' {
            (s[i] as u32 + 32) as char
        } else {
            s[i]
        }) by {
            let k = i / 2;
            assert(is_hex_char(s[2 * k]) && is_hex_char(s[2 * k + 1]));
            lemma_shown_digit(s[2 * k]);
            lemma_shown_digit(s[2 * k + 1]);
            let hi = digit_value(s[2 * k] as u8);
            let lo = digit_value(s[2 * k + 1] as u8);
            assert(id[k] as int == 16 * hi + lo);
            assert((16 * hi + lo) / 16 == hi && (16 * hi + lo) % 16 == lo);
            assert(i == 2 * k || i == 2 * k + 1);
        }
    }
}

/// A digit has a value below sixteen and is shown with it, in lower case.
proof fn lemma_shown_digit(c: char)
    requires
        is_hex_char(c),
    ensures
        0 <= digit_value(c as u8) < 16,
        digit(digit_value(c as u8)) == if 'A' <= c <= 'F' {
            (c as u32 + 32) as char
        } else {
            c
        },
{
}

/// The identities of a list are those of its members, one for each, at the same places.
pub proof fn law_ids_are_those_of_the_members(list: Seq<NodeId>)
    ensures
        ids(list).len() == list.len(),
        forall|i: int| 0 <= i < list.len() ==> #[trigger] ids(list)[i] == list[i]@,
{
}

/// What is said of a bad entry has the whole entry in it, between quotes, and after it what is
/// wrong: what `hex` says where it says something, and else the length.
pub proof fn law_bad_entries_are_quoted(entry: String, cause: HexError)
    ensures
        node_id_error_text(NodeIdError::NotHex { entry, cause }) == "CE_WS_PEERS entry '"@ + entry@
            + "' is not hex: "@ + error_text(cause),
        node_id_error_text(NodeIdError::NotThirtyTwoBytes { entry }) == "CE_WS_PEERS entry '"@
            + entry@ + "' is not 32 bytes"@,
{
}

} // verus!

use ce_protocol_ws::hex_text::HexError;
use ce_protocol_ws::node_id::{id_bytes, id_from_bytes, parse_node_id, same_id, NodeId, NodeIdError};

fn id() -> NodeId {
    let mut id = [0u8; 32];
    for i in 0..32 {
        id[i] = (i as u8).wrapping_mul(37).wrapping_add(5);
    }
    id
}

#[test]
fn identities_are_read_from_hexadecimal() {
    assert_eq!(parse_node_id(&"aa".repeat(32)).unwrap(), [0xAA; 32]);
    assert_eq!(parse_node_id(&"0F".repeat(32)).unwrap(), [0x0F; 32]);
    let mixed = format!("{}{}", "fF".repeat(31), "1b");
    let mut expected = [0xFF; 32];
    expected[31] = 0x1b;
    assert_eq!(parse_node_id(&mixed).unwrap(), expected);
}

#[test]
fn an_identity_is_read_back() {
    assert_eq!(parse_node_id(&hex::encode(id())).unwrap(), id());
    assert_eq!(parse_node_id(&hex::encode_upper(id())).unwrap(), id());
}

#[test]
fn a_text_of_odd_length_is_not_hex() {
    let e = parse_node_id("abc").unwrap_err();
    assert_eq!(e.message(), "CE_WS_PEERS entry 'abc' is not hex: Odd number of digits");
    assert!(matches!(
        e,
        NodeIdError::NotHex { entry, cause: HexError::OddLength } if entry == "abc"
    ));
    assert!(matches!(
        parse_node_id("x").unwrap_err(),
        NodeIdError::NotHex { cause: HexError::OddLength, .. }
    ));
}

#[test]
fn the_first_character_that_is_no_digit_is_named() {
    let e = parse_node_id("66ag\n0").unwrap_err();
    assert_eq!(
        e.message(),
        "CE_WS_PEERS entry '66ag\n0' is not hex: Invalid character 'g' at position 3"
    );
    assert!(matches!(
        e,
        NodeIdError::NotHex { cause: HexError::InvalidHexCharacter { c: 'g', index: 3 }, .. }
    ));
    let e = parse_node_id("0é0").unwrap_err();
    assert!(matches!(
        e,
        NodeIdError::NotHex { cause: HexError::InvalidHexCharacter { c: '\u{c3}', index: 1 }, .. }
    ));
}

#[test]
fn hexadecimal_of_another_length_is_no_identity() {
    for text in ["".to_string(), "00".to_string(), "00".repeat(31), "00".repeat(33)] {
        let e = parse_node_id(&text).unwrap_err();
        assert_eq!(e.message(), format!("CE_WS_PEERS entry '{}' is not 32 bytes", text));
        assert!(matches!(e, NodeIdError::NotThirtyTwoBytes { entry } if entry == text));
    }
}

#[test]
fn hex_errors_are_told_in_the_words_of_the_crate() {
    assert_eq!(HexError::OddLength.message(), hex::FromHexError::OddLength.to_string());
    assert_eq!(
        HexError::InvalidStringLength.message(),
        hex::FromHexError::InvalidStringLength.to_string()
    );
    assert_eq!(
        HexError::InvalidHexCharacter { c: '\n', index: 5 }.message(),
        "Invalid character '\\n' at position 5"
    );
}

#[test]
fn identities_are_compared_byte_by_byte() {
    let mut other = id();
    assert!(same_id(&id(), &other));
    other[31] ^= 1;
    assert!(!same_id(&id(), &other));
}

#[test]
fn identities_are_thirty_two_bytes() {
    assert_eq!(id_from_bytes(&id().to_vec()), Some(id()));
    assert_eq!(id_bytes(&id()), id().to_vec());
    assert_eq!(id_from_bytes(&vec![0; 31]), None);
    assert_eq!(id_from_bytes(&vec![0; 33]), None);
}

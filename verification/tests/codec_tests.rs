use ricoterm::codec::{decode_int256, decode_uint256, decode_uint_array};
use ricoterm::errors::Error;
use ricoterm::keys::{bytes32_to_string, string_to_bytes32};

fn word(value: u128) -> Vec<u8> {
    let mut w = vec![0u8; 16];
    w.extend_from_slice(&value.to_be_bytes());
    w
}

#[test]
fn uint_word_decodes_big_endian() {
    assert_eq!(decode_uint256(&word(0)), Ok(0));
    assert_eq!(decode_uint256(&word(1)), Ok(1));
    assert_eq!(decode_uint256(&word(0x1234_5678_9abc_def0)), Ok(0x1234_5678_9abc_def0));
    assert_eq!(decode_uint256(&word(u128::MAX)), Ok(u128::MAX));
}

#[test]
fn uint_word_with_high_half_set_overflows() {
    let mut w = word(5);
    w[3] = 1;
    assert_eq!(decode_uint256(&w), Err(Error::ArithmeticOverflow));
}

#[test]
fn uint_word_of_wrong_length_is_unusable() {
    assert_eq!(decode_uint256(&vec![0u8; 31]), Err(Error::DataUnavailable));
    assert_eq!(decode_uint256(&vec![0u8; 33]), Err(Error::DataUnavailable));
    assert_eq!(decode_uint256(&vec![]), Err(Error::DataUnavailable));
}

#[test]
fn int_word_decodes_positive_values() {
    assert_eq!(decode_int256(&word(0)), Ok(0));
    assert_eq!(decode_int256(&word(77)), Ok(77));
    assert_eq!(decode_int256(&word((1u128 << 127) - 1)), Ok(i128::MAX));
}

#[test]
fn int_word_decodes_negative_values() {
    // -1 is all ones
    let minus_one = vec![0xFFu8; 32];
    assert_eq!(decode_int256(&minus_one), Ok(-1));
    // -2: ...FFFE
    let mut minus_two = vec![0xFFu8; 32];
    minus_two[31] = 0xFE;
    assert_eq!(decode_int256(&minus_two), Ok(-2));
    // i128::MIN: sixteen FF bytes, then 0x80 and fifteen zero bytes
    let mut min = vec![0xFFu8; 16];
    min.push(0x80);
    min.extend_from_slice(&[0u8; 15]);
    assert_eq!(decode_int256(&min), Ok(i128::MIN));
}

#[test]
fn int_word_outside_signed_range_overflows() {
    // +2^127 does not fit
    let mut big = vec![0u8; 16];
    big.push(0x80);
    big.extend_from_slice(&[0u8; 15]);
    assert_eq!(decode_int256(&big), Err(Error::ArithmeticOverflow));
    // -(2^127 + 1) does not fit
    let mut small = vec![0xFFu8; 16];
    small.push(0x7F);
    small.extend_from_slice(&[0xFFu8; 15]);
    assert_eq!(decode_int256(&small), Err(Error::ArithmeticOverflow));
}

#[test]
fn int_word_of_wrong_length_is_unusable() {
    assert_eq!(decode_int256(&vec![0u8; 20]), Err(Error::DataUnavailable));
}

fn encoded_array(elems: &[u128]) -> Vec<u8> {
    let mut bytes = word(32);
    bytes.extend_from_slice(&word(elems.len() as u128));
    for e in elems {
        bytes.extend_from_slice(&word(*e));
    }
    bytes
}

#[test]
fn uint_array_round_trips() {
    assert_eq!(decode_uint_array(&encoded_array(&[])), Ok(vec![]));
    assert_eq!(decode_uint_array(&encoded_array(&[7])), Ok(vec![7]));
    assert_eq!(decode_uint_array(&encoded_array(&[7, 9, u128::MAX])), Ok(vec![7, 9, u128::MAX]));
}

#[test]
fn uint_array_rejects_bad_offset() {
    let mut bytes = encoded_array(&[7]);
    bytes[31] = 64;
    assert_eq!(decode_uint_array(&bytes), Err(Error::DataUnavailable));
}

#[test]
fn uint_array_rejects_truncated_payload() {
    let mut bytes = encoded_array(&[7, 9]);
    bytes.truncate(bytes.len() - 1);
    assert_eq!(decode_uint_array(&bytes), Err(Error::DataUnavailable));
    assert_eq!(decode_uint_array(&vec![0u8; 40]), Err(Error::DataUnavailable));
}

#[test]
fn uint_array_rejects_oversized_element() {
    let mut bytes = encoded_array(&[7, 9]);
    // set a high byte of the second element
    bytes[64 + 32 + 2] = 1;
    assert_eq!(decode_uint_array(&bytes), Err(Error::ArithmeticOverflow));
}

#[test]
fn key_encoding_pads_with_zeros() {
    let k = string_to_bytes32(&b"weth".to_vec()).unwrap();
    assert_eq!(k.len(), 32);
    assert_eq!(&k[0..4], b"weth");
    assert!(k[4..].iter().all(|b| *b == 0));
}

#[test]
fn key_encoding_rejects_long_names() {
    let name = vec![b'x'; 33];
    assert_eq!(string_to_bytes32(&name), Err(Error::MalformedKey));
    let exact = vec![b'y'; 32];
    assert_eq!(string_to_bytes32(&exact).unwrap(), exact);
}

#[test]
fn key_decoding_strips_zero_padding() {
    let k = string_to_bytes32(&b":uninft".to_vec()).unwrap();
    assert_eq!(bytes32_to_string(&k), b":uninft".to_vec());
    assert_eq!(bytes32_to_string(&vec![0u8; 32]), Vec::<u8>::new());
    // inner zeros survive; only the tail is stripped
    let mut odd = vec![1u8, 0, 2];
    odd.extend_from_slice(&vec![0u8; 29]);
    assert_eq!(bytes32_to_string(&odd), vec![1u8, 0, 2]);
}

//! Wire codec behaviour: exact encodings, round trips, length accounting,
//! the signing preimage, and every decode failure.

use sponsored_tx::primitives::{Address, TxKind, U256};
use sponsored_tx::rlp::DecodeError;
use sponsored_tx::sponsored::TxSponsored;

fn sample_call_tx() -> TxSponsored {
    TxSponsored {
        chain_id: 1,
        nonce: 7,
        max_priority_fee_per_gas: 10,
        max_fee_per_gas: 100,
        gas_limit: 21000,
        to: TxKind::Call(Address::new(vec![0x11u8; 20]).unwrap()),
        value: U256::from_u64(5),
        expired_time: 99,
        payer_v: U256::from_u64(27),
        payer_r: U256::from_u64(1),
        payer_s: U256::from_u64(2),
        input: vec![0xde, 0xad, 0xbe, 0xef],
    }
}

fn small_create_tx() -> TxSponsored {
    TxSponsored {
        chain_id: 1,
        nonce: 1024,
        max_priority_fee_per_gas: 10,
        max_fee_per_gas: 100,
        gas_limit: 0,
        to: TxKind::Create,
        value: U256::zero(),
        expired_time: 0,
        payer_v: U256::zero(),
        payer_r: U256::zero(),
        payer_s: U256::zero(),
        input: vec![],
    }
}

#[test]
fn golden_field_encoding() {
    let tx = small_create_tx();
    let mut out: Vec<u8> = Vec::new();
    tx.rlp_encode_fields(&mut out);
    let expected: Vec<u8> = vec![
        0x01, // chain_id = 1
        0x82, 0x04, 0x00, // nonce = 1024
        0x0a, // max_priority_fee_per_gas = 10
        0x64, // max_fee_per_gas = 100
        0x80, // gas_limit = 0
        0x80, // to = create
        0x80, // value = 0
        0x80, // expired_time = 0
        0x80, 0x80, 0x80, // payer_v, payer_r, payer_s = 0
        0x80, // input = empty
    ];
    assert_eq!(out, expected);
    assert_eq!(tx.rlp_encoded_fields_length(), expected.len());
}

#[test]
fn golden_record_encoding_and_preimage() {
    let tx = small_create_tx();
    let mut fields: Vec<u8> = Vec::new();
    tx.rlp_encode_fields(&mut fields);
    let mut whole: Vec<u8> = Vec::new();
    tx.encode(&mut whole);
    let mut expected: Vec<u8> = vec![0xc0 + fields.len() as u8];
    expected.extend_from_slice(&fields);
    assert_eq!(whole, expected);
    assert_eq!(tx.length(), whole.len());

    let mut preimage: Vec<u8> = Vec::new();
    tx.encode_for_signing(&mut preimage);
    let mut expected_pre: Vec<u8> = vec![TxSponsored::tx_type()];
    expected_pre.extend_from_slice(&whole);
    assert_eq!(preimage, expected_pre);
}

#[test]
fn address_encodes_as_twenty_byte_string() {
    let tx = sample_call_tx();
    let mut out: Vec<u8> = Vec::new();
    tx.rlp_encode_fields(&mut out);
    // chain_id (1 byte), nonce (1 byte), tip cap (1), fee cap (1),
    // gas_limit 21000 = 0x5208 (3 bytes); then the recipient.
    assert_eq!(out[7], 0x94);
    assert_eq!(&out[8..28], &[0x11u8; 20][..]);
}

#[test]
fn roundtrip_fields() {
    let tx = sample_call_tx();
    let mut out: Vec<u8> = Vec::new();
    tx.rlp_encode_fields(&mut out);
    let (decoded, used) = TxSponsored::rlp_decode_fields(&out).unwrap();
    assert_eq!(decoded, tx);
    assert_eq!(used, out.len());
}

#[test]
fn roundtrip_whole_record() {
    let tx = sample_call_tx();
    let mut out: Vec<u8> = Vec::new();
    tx.encode(&mut out);
    // trailing bytes past the record are left untouched
    out.push(0xff);
    let (decoded, used) = TxSponsored::decode(&out).unwrap();
    assert_eq!(decoded, tx);
    assert_eq!(used, out.len() - 1);
}

#[test]
fn roundtrip_long_input() {
    let mut tx = sample_call_tx();
    tx.input = vec![7u8; 60];
    let mut out: Vec<u8> = Vec::new();
    tx.rlp_encode_fields(&mut out);
    // a 60-byte string takes the long form: length of length 1, length 60
    let tail = &out[out.len() - 62..];
    assert_eq!(tail[0], 0xb8);
    assert_eq!(tail[1], 60);
    let (decoded, used) = TxSponsored::rlp_decode_fields(&out).unwrap();
    assert_eq!(decoded, tx);
    assert_eq!(used, out.len());
}

#[test]
fn length_exactness() {
    for tx in [sample_call_tx(), small_create_tx()] {
        let mut fields: Vec<u8> = Vec::new();
        tx.rlp_encode_fields(&mut fields);
        assert_eq!(tx.rlp_encoded_fields_length(), fields.len());
        let mut whole: Vec<u8> = Vec::new();
        tx.encode(&mut whole);
        assert_eq!(tx.length(), whole.len());
    }
}

#[test]
fn preimage_length_matches_payload_len_for_signature() {
    for tx in [sample_call_tx(), small_create_tx()] {
        let mut preimage: Vec<u8> = Vec::new();
        tx.encode_for_signing(&mut preimage);
        assert_eq!(tx.payload_len_for_signature(), preimage.len());
        assert_eq!(tx.payload_len_for_signature(), tx.length() + 1);
    }
}

#[test]
fn type_byte_is_constant() {
    let mut pre1: Vec<u8> = Vec::new();
    sample_call_tx().encode_for_signing(&mut pre1);
    let mut pre2: Vec<u8> = Vec::new();
    small_create_tx().encode_for_signing(&mut pre2);
    assert_eq!(pre1[0], TxSponsored::tx_type());
    assert_eq!(pre2[0], TxSponsored::tx_type());
    assert_eq!(sample_call_tx().ty(), TxSponsored::tx_type());
}

#[test]
fn decode_rejects_every_truncation() {
    let tx = sample_call_tx();
    let mut fields: Vec<u8> = Vec::new();
    tx.rlp_encode_fields(&mut fields);
    for k in 0..fields.len() {
        assert!(TxSponsored::rlp_decode_fields(&fields[..k]).is_err());
    }
    let mut whole: Vec<u8> = Vec::new();
    tx.encode(&mut whole);
    for k in 0..whole.len() {
        assert!(TxSponsored::decode(&whole[..k]).is_err());
    }
}

#[test]
fn decode_empty_is_too_short() {
    assert_eq!(
        TxSponsored::rlp_decode_fields(&[]),
        Err(DecodeError::InputTooShort)
    );
}

#[test]
fn decode_rejects_leading_zero_scalar() {
    // chain_id encoded as a two-byte scalar with a leading zero
    assert_eq!(
        TxSponsored::rlp_decode_fields(&[0x82, 0x00, 0x01]),
        Err(DecodeError::LeadingZero)
    );
    // a single zero byte is not the canonical form of zero either
    assert_eq!(
        TxSponsored::rlp_decode_fields(&[0x00]),
        Err(DecodeError::LeadingZero)
    );
}

#[test]
fn decode_rejects_non_canonical_single_byte() {
    assert_eq!(
        TxSponsored::rlp_decode_fields(&[0x81, 0x05]),
        Err(DecodeError::NonCanonicalSingleByte)
    );
}

#[test]
fn decode_rejects_oversized_scalar() {
    // nine payload bytes cannot fit the 64-bit chain_id
    let mut buf: Vec<u8> = vec![0x89];
    buf.extend_from_slice(&[1u8; 9]);
    assert_eq!(
        TxSponsored::rlp_decode_fields(&buf),
        Err(DecodeError::Overflow)
    );
}

#[test]
fn decode_rejects_list_where_scalar_expected() {
    assert_eq!(
        TxSponsored::rlp_decode_fields(&[0xc1, 0x01]),
        Err(DecodeError::UnexpectedList)
    );
}

#[test]
fn decode_rejects_wrong_address_length() {
    // five zero scalars, then a 19-byte recipient string
    let mut buf: Vec<u8> = vec![0x80, 0x80, 0x80, 0x80, 0x80, 0x93];
    buf.extend_from_slice(&[0x22u8; 19]);
    assert_eq!(
        TxSponsored::rlp_decode_fields(&buf),
        Err(DecodeError::UnexpectedLength)
    );
}

#[test]
fn decode_rejects_non_canonical_size() {
    // eleven well-formed zero fields, then an input in the long form
    // although its payload is a single byte
    let mut buf: Vec<u8> = vec![0x80; 11];
    buf.extend_from_slice(&[0xb8, 0x01, 0xff]);
    assert_eq!(
        TxSponsored::rlp_decode_fields(&buf),
        Err(DecodeError::NonCanonicalSize)
    );
}

#[test]
fn decode_rejects_list_length_mismatch() {
    let tx = small_create_tx();
    let mut fields: Vec<u8> = Vec::new();
    tx.rlp_encode_fields(&mut fields);
    // header claims one byte more of payload than the fields fill
    let mut buf: Vec<u8> = vec![0xc0 + (fields.len() as u8) + 1];
    buf.extend_from_slice(&fields);
    buf.push(0x00);
    assert_eq!(
        TxSponsored::decode(&buf),
        Err(DecodeError::ListLengthMismatch)
    );
}

#[test]
fn decode_record_rejects_non_canonical_list_header() {
    // long-form list header although the payload would fit the short form
    assert_eq!(
        TxSponsored::decode(&[0xf8, 0x37]),
        Err(DecodeError::NonCanonicalSize)
    );
}

#[test]
fn decode_record_rejects_string_header() {
    assert_eq!(
        TxSponsored::decode(&[0x01]),
        Err(DecodeError::UnexpectedString)
    );
}

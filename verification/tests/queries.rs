//! The fee and payload query interface, the size heuristic, the chain-id
//! setter, the alternate-layout mirror, and the primitive value types.

use sponsored_tx::compat;
use sponsored_tx::primitives::{Address, TxKind, U256};
use sponsored_tx::sponsored::TxSponsored;

fn fee_tx(max_fee: u128, max_priority: u128) -> TxSponsored {
    TxSponsored {
        chain_id: 5,
        nonce: 0,
        max_priority_fee_per_gas: max_priority,
        max_fee_per_gas: max_fee,
        gas_limit: 30_000,
        to: TxKind::Create,
        value: U256::zero(),
        expired_time: 0,
        payer_v: U256::zero(),
        payer_r: U256::zero(),
        payer_s: U256::zero(),
        input: vec![1, 2, 3],
    }
}

#[test]
fn effective_gas_price_caps_the_tip() {
    let tx = fee_tx(100, 10);
    // tip = 100 - 95 = 5 <= 10, so the fee cap is paid unchanged
    assert_eq!(tx.effective_gas_price(Some(95)), 100);
    // tip = 100 - 50 = 50 > 10, so the tip is capped: 10 + 50
    assert_eq!(tx.effective_gas_price(Some(50)), 60);
    // tip = 100 - 90 = 10 is not above the cap, so the fee cap is paid
    assert_eq!(tx.effective_gas_price(Some(90)), 100);
}

#[test]
fn effective_gas_price_without_base_fee_is_the_fee_cap() {
    let tx = fee_tx(123_456, 7);
    assert_eq!(tx.effective_gas_price(None), 123_456);
}

#[test]
fn effective_gas_price_saturates_below_base_fee() {
    // base fee above the fee cap: the tip saturates at zero
    let tx = fee_tx(40, 10);
    assert_eq!(tx.effective_gas_price(Some(70)), 40);
}

#[test]
fn size_grows_strictly_with_input() {
    let short = fee_tx(1, 1);
    let mut long = fee_tx(1, 1);
    long.input = vec![0u8; 100];
    assert_eq!(short.size(), 213 + 3);
    assert_eq!(long.size(), 213 + 100);
    assert!(short.size() < long.size());
}

#[test]
fn field_projections() {
    let addr = Address::new(vec![0xabu8; 20]).unwrap();
    let tx = TxSponsored {
        chain_id: 9,
        nonce: 3,
        max_priority_fee_per_gas: 11,
        max_fee_per_gas: 22,
        gas_limit: 33,
        to: TxKind::Call(addr),
        value: U256::from_u64(44),
        expired_time: 55,
        payer_v: U256::from_u64(1),
        payer_r: U256::from_u64(2),
        payer_s: U256::from_u64(3),
        input: vec![0xaa],
    };
    assert_eq!(tx.chain_id(), Some(9));
    assert_eq!(tx.nonce(), 3);
    assert_eq!(tx.gas_limit(), 33);
    assert_eq!(tx.gas_price(), None);
    assert_eq!(tx.max_fee_per_gas(), 22);
    assert_eq!(tx.max_priority_fee_per_gas(), Some(11));
    assert_eq!(tx.max_fee_per_blob_gas(), None);
    assert_eq!(tx.priority_fee_or_price(), 11);
    assert!(tx.is_dynamic_fee());
    assert!(!tx.is_create());
    assert_eq!(tx.kind(), tx.to);
    assert_eq!(tx.value(), U256::from_u64(44));
    assert_eq!(tx.input(), &vec![0xaa]);
    assert!(tx.access_list().is_none());
    assert!(tx.blob_versioned_hashes().is_none());
    assert!(tx.authorization_list().is_none());
}

#[test]
fn create_has_no_address() {
    let tx = fee_tx(1, 1);
    assert!(tx.is_create());
    assert_eq!(tx.kind(), TxKind::Create);
}

#[test]
fn set_chain_id_changes_only_the_chain_id() {
    let mut tx = fee_tx(100, 10);
    let before = tx.clone();
    tx.set_chain_id(777);
    assert_eq!(tx.chain_id, 777);
    assert_eq!(tx.nonce, before.nonce);
    assert_eq!(tx.max_priority_fee_per_gas, before.max_priority_fee_per_gas);
    assert_eq!(tx.max_fee_per_gas, before.max_fee_per_gas);
    assert_eq!(tx.gas_limit, before.gas_limit);
    assert_eq!(tx.to, before.to);
    assert_eq!(tx.value, before.value);
    assert_eq!(tx.expired_time, before.expired_time);
    assert_eq!(tx.payer_v, before.payer_v);
    assert_eq!(tx.payer_r, before.payer_r);
    assert_eq!(tx.payer_s, before.payer_s);
    assert_eq!(tx.input, before.input);
}

#[test]
fn default_is_the_all_zero_record() {
    let tx = TxSponsored::default();
    assert_eq!(tx.chain_id, 0);
    assert_eq!(tx.nonce, 0);
    assert_eq!(tx.max_priority_fee_per_gas, 0);
    assert_eq!(tx.max_fee_per_gas, 0);
    assert_eq!(tx.gas_limit, 0);
    assert_eq!(tx.to, TxKind::Create);
    assert_eq!(tx.value, U256::zero());
    assert_eq!(tx.expired_time, 0);
    assert_eq!(tx.payer_v, U256::zero());
    assert_eq!(tx.payer_r, U256::zero());
    assert_eq!(tx.payer_s, U256::zero());
    assert!(tx.input.is_empty());
}

#[test]
fn test_tx_eip1559_bincode_roundtrip() {
    // the alternate-layout mirror round-trips a record without loss
    let tx = TxSponsored {
        chain_id: 4,
        nonce: 1024,
        max_priority_fee_per_gas: 13,
        max_fee_per_gas: 26,
        gas_limit: 1024,
        to: TxKind::Call(Address::new(vec![0x42u8; 20]).unwrap()),
        value: U256::from_u64(1024),
        expired_time: 1700000000,
        payer_v: U256::from_u64(28),
        payer_r: U256::from_u64(9),
        payer_s: U256::from_u64(8),
        input: vec![0x60, 0x60, 0x60],
    };
    let mirror = compat::TxSponsored::from(tx.clone());
    let back = TxSponsored::from(mirror);
    assert_eq!(back, tx);
}

#[test]
fn mirror_roundtrip_starting_from_the_mirror() {
    let mirror = compat::TxSponsored {
        chain_id: 1,
        nonce: 2,
        max_priority_fee_per_gas: 3,
        max_fee_per_gas: 4,
        gas_limit: 5,
        to: TxKind::Create,
        value: U256::from_u64(6),
        expired_time: 7,
        payer_v: U256::from_u64(8),
        payer_r: U256::from_u64(9),
        payer_s: U256::from_u64(10),
        input: vec![11],
    };
    let record = TxSponsored::from(compat::TxSponsored {
        input: mirror.input.clone(),
        value: mirror.value.clone(),
        payer_v: mirror.payer_v.clone(),
        payer_r: mirror.payer_r.clone(),
        payer_s: mirror.payer_s.clone(),
        to: TxKind::Create,
        ..mirror
    });
    let back = compat::TxSponsored::from(record);
    assert_eq!(back.chain_id, 1);
    assert_eq!(back.nonce, 2);
    assert_eq!(back.input, vec![11]);
}

#[test]
fn u256_constructors() {
    assert!(U256::from_be_bytes(vec![0u8; 31]).is_none());
    assert!(U256::from_be_bytes(vec![0u8; 33]).is_none());
    let v = U256::from_be_bytes(vec![0xffu8; 32]).unwrap();
    assert_eq!(v.to_be_bytes(), &vec![0xffu8; 32]);
    let mut expected = vec![0u8; 32];
    expected[31] = 0x2a;
    assert_eq!(U256::from_u64(42).to_be_bytes(), &expected);
    assert_eq!(U256::zero().to_be_bytes(), &vec![0u8; 32]);
}

#[test]
fn address_must_be_twenty_bytes() {
    assert!(Address::new(vec![0u8; 19]).is_none());
    assert!(Address::new(vec![0u8; 21]).is_none());
    let a = Address::new(vec![0x07u8; 20]).unwrap();
    assert_eq!(a.as_bytes(), &vec![0x07u8; 20]);
}

#[test]
fn tx_kind_queries() {
    assert!(TxKind::Create.is_create());
    let call = TxKind::Call(Address::new(vec![0u8; 20]).unwrap());
    assert!(!call.is_create());
    assert_eq!(TxKind::Create.size(), 21);
    assert_eq!(call.size(), 21);
}

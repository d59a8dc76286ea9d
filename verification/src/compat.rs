//! The record's alternate-layout mirror: a structurally identical twin used
//! by a fixed-width serialization transport. Conversion is lossless and
//! total in both directions; no field is transformed.

use vstd::prelude::*;

use crate::primitives::TxKind;
use crate::primitives::U256;
use crate::sponsored::TxModel;

verus! {

/// The fixed-layout mirror of a Sponsored transaction record,
/// field-for-field identical to it.
#[derive(Debug, PartialEq, Eq, Hash)]
#[verifier::ext_equal]
pub struct TxSponsored {
    /// Replay-protection domain identifier.
    pub chain_id: u64,
    /// The sender's per-account sequence number.
    pub nonce: u64,
    /// Tip cap offered to the block producer.
    pub max_priority_fee_per_gas: u128,
    /// Absolute cap on the total gas price.
    pub max_fee_per_gas: u128,
    /// Maximum gas units this transaction may consume.
    pub gas_limit: u64,
    /// The recipient, or the contract-creation marker.
    pub to: TxKind,
    /// Native currency transferred.
    pub value: U256,
    /// Deadline after which the sponsorship is void.
    pub expired_time: u64,
    /// First component of the payer's signature.
    pub payer_v: U256,
    /// Second component of the payer's signature.
    pub payer_r: U256,
    /// Third component of the payer's signature.
    pub payer_s: U256,
    /// Contract-creation code or call data.
    pub input: Vec<u8>,
}

impl View for TxSponsored {
    type V = TxModel;

    open spec fn view(&self) -> TxModel {
        TxModel {
            chain_id: self.chain_id as nat,
            nonce: self.nonce as nat,
            max_priority_fee_per_gas: self.max_priority_fee_per_gas as nat,
            max_fee_per_gas: self.max_fee_per_gas as nat,
            gas_limit: self.gas_limit as nat,
            to: self.to@,
            value: self.value@,
            expired_time: self.expired_time as nat,
            payer_v: self.payer_v@,
            payer_r: self.payer_r@,
            payer_s: self.payer_s@,
            input: self.input@,
        }
    }
}

impl vstd::std_specs::convert::FromSpecImpl<crate::sponsored::TxSponsored> for TxSponsored {
    open spec fn obeys_from_spec() -> bool {
        true
    }

    open spec fn from_spec(t: crate::sponsored::TxSponsored) -> Self {
        TxSponsored {
            chain_id: t.chain_id,
            nonce: t.nonce,
            max_priority_fee_per_gas: t.max_priority_fee_per_gas,
            max_fee_per_gas: t.max_fee_per_gas,
            gas_limit: t.gas_limit,
            to: t.to,
            value: t.value,
            expired_time: t.expired_time,
            payer_v: t.payer_v,
            payer_r: t.payer_r,
            payer_s: t.payer_s,
            input: t.input,
        }
    }
}

impl From<crate::sponsored::TxSponsored> for TxSponsored {
    /// Moves a record into its mirror, taking ownership of its input.
    fn from(t: crate::sponsored::TxSponsored) -> (r: Self)
        ensures
            r@ == t@,
    {
        let r = TxSponsored {
            chain_id: t.chain_id,
            nonce: t.nonce,
            max_priority_fee_per_gas: t.max_priority_fee_per_gas,
            max_fee_per_gas: t.max_fee_per_gas,
            gas_limit: t.gas_limit,
            to: t.to,
            value: t.value,
            expired_time: t.expired_time,
            payer_v: t.payer_v,
            payer_r: t.payer_r,
            payer_s: t.payer_s,
            input: t.input,
        };
        proof {
            assert(r@ =~= t@);
        }
        r
    }
}

impl vstd::std_specs::convert::FromSpecImpl<TxSponsored> for crate::sponsored::TxSponsored {
    open spec fn obeys_from_spec() -> bool {
        true
    }

    open spec fn from_spec(t: TxSponsored) -> Self {
        crate::sponsored::TxSponsored {
            chain_id: t.chain_id,
            nonce: t.nonce,
            max_priority_fee_per_gas: t.max_priority_fee_per_gas,
            max_fee_per_gas: t.max_fee_per_gas,
            gas_limit: t.gas_limit,
            to: t.to,
            value: t.value,
            expired_time: t.expired_time,
            payer_v: t.payer_v,
            payer_r: t.payer_r,
            payer_s: t.payer_s,
            input: t.input,
        }
    }
}

impl From<TxSponsored> for crate::sponsored::TxSponsored {
    /// Moves a mirror back into a record, taking ownership of its input.
    fn from(t: TxSponsored) -> (r: Self)
        ensures
            r@ == t@,
    {
        let r = crate::sponsored::TxSponsored {
            chain_id: t.chain_id,
            nonce: t.nonce,
            max_priority_fee_per_gas: t.max_priority_fee_per_gas,
            max_fee_per_gas: t.max_fee_per_gas,
            gas_limit: t.gas_limit,
            to: t.to,
            value: t.value,
            expired_time: t.expired_time,
            payer_v: t.payer_v,
            payer_r: t.payer_r,
            payer_s: t.payer_s,
            input: t.input,
        };
        proof {
            assert(r@ =~= t@);
        }
        r
    }
}

/// Mirror isomorphism: converting a record to its mirror and back yields the
/// record unchanged.
pub proof fn lemma_mirror_roundtrip(t: crate::sponsored::TxSponsored)
    ensures
        <crate::sponsored::TxSponsored as vstd::std_specs::convert::FromSpec<
            TxSponsored,
        >>::from_spec(
            <TxSponsored as vstd::std_specs::convert::FromSpec<
                crate::sponsored::TxSponsored,
            >>::from_spec(t),
        ) == t,
{
    let m = <TxSponsored as vstd::std_specs::convert::FromSpec<
        crate::sponsored::TxSponsored,
    >>::from_spec(t);
    let back = <crate::sponsored::TxSponsored as vstd::std_specs::convert::FromSpec<
        TxSponsored,
    >>::from_spec(m);
    assert(back =~= t);
}

/// Mirror isomorphism, the other way round: converting a mirror to a record
/// and back yields the mirror unchanged.
pub proof fn lemma_mirror_roundtrip_back(t: TxSponsored)
    ensures
        <TxSponsored as vstd::std_specs::convert::FromSpec<
            crate::sponsored::TxSponsored,
        >>::from_spec(
            <crate::sponsored::TxSponsored as vstd::std_specs::convert::FromSpec<
                TxSponsored,
            >>::from_spec(t),
        ) == t,
{
    let m = <crate::sponsored::TxSponsored as vstd::std_specs::convert::FromSpec<
        TxSponsored,
    >>::from_spec(t);
    let back = <TxSponsored as vstd::std_specs::convert::FromSpec<
        crate::sponsored::TxSponsored,
    >>::from_spec(m);
    assert(back =~= t);
}

} // verus!

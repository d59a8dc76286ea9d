//! The Sponsored transaction record: its twelve fields in their fixed
//! canonical order, the field-level wire codec, the signing preimage builder,
//! and the read-only fee and payload queries.

use vstd::prelude::*;

use crate::primitives::{
    clone_bytes, lemma_dec_kind_of_enc, lemma_dec_kind_prefix, spec_dec_kind, spec_kind_enc,
    Address, KindModel, TxKind, U256,
};
use crate::rlp::{
    append_list_header, append_str, append_uint, dec_bytes, dec_list_header, dec_u128, dec_u64,
    lemma_dec_bytes_of_enc, lemma_dec_bytes_prefix, lemma_dec_list_header_of_enc,
    lemma_dec_list_header_prefix, lemma_dec_uint_of_enc, lemma_dec_uint_prefix,
    lemma_pow256_val, lemma_subrange_concat, list_header_len, pow256, spec_dec_bytes,
    spec_dec_list_header, spec_dec_uint, spec_list_header, spec_str_enc, spec_uint_enc,
    str_enc_len, uint_enc_len, DecodeError,
};

verus! {

/// The type-discriminant byte that identifies this variant inside the typed
/// transaction family.
pub const SPONSORED_TX_TYPE: u8 = 100;

/// The mathematical shape of a Sponsored transaction record.
#[verifier::ext_equal]
pub ghost struct TxModel {
    pub chain_id: nat,
    pub nonce: nat,
    pub max_priority_fee_per_gas: nat,
    pub max_fee_per_gas: nat,
    pub gas_limit: nat,
    pub to: KindModel,
    pub value: nat,
    pub expired_time: nat,
    pub payer_v: nat,
    pub payer_r: nat,
    pub payer_s: nat,
    pub input: Seq<u8>,
}

impl TxModel {
    /// Every scalar lies within its declared width, a call recipient is a
    /// 20-byte address, and the input fits in the wire format's length range.
    pub open spec fn wf(self) -> bool {
        &&& self.chain_id < pow256(8)
        &&& self.nonce < pow256(8)
        &&& self.max_priority_fee_per_gas < pow256(16)
        &&& self.max_fee_per_gas < pow256(16)
        &&& self.gas_limit < pow256(8)
        &&& self.to.wf()
        &&& self.value < pow256(32)
        &&& self.expired_time < pow256(8)
        &&& self.payer_v < pow256(32)
        &&& self.payer_r < pow256(32)
        &&& self.payer_s < pow256(32)
        &&& self.input.len() < pow256(8)
    }
}

/// A Sponsored transaction: a dynamic-fee transaction whose gas cost a third
/// party (the payer) has authorized with a second, independent signature,
/// carried opaquely in `payer_v`, `payer_r` and `payer_s`.
#[derive(Debug, PartialEq, Eq, Hash)]
#[verifier::ext_equal]
pub struct TxSponsored {
    /// Replay-protection domain identifier.
    pub chain_id: u64,
    /// The sender's per-account sequence number.
    pub nonce: u64,
    /// Tip cap offered to the block producer.
    pub max_priority_fee_per_gas: u128,
    /// Absolute cap on the total gas price.
    pub max_fee_per_gas: u128,
    /// Maximum gas units this transaction may consume.
    pub gas_limit: u64,
    /// The recipient, or the contract-creation marker.
    pub to: TxKind,
    /// Native currency transferred.
    pub value: U256,
    /// Deadline after which the sponsorship is void; its interpretation is
    /// owned by an external validator.
    pub expired_time: u64,
    /// First component of the payer's signature; opaque to this crate.
    pub payer_v: U256,
    /// Second component of the payer's signature; opaque to this crate.
    pub payer_r: U256,
    /// Third component of the payer's signature; opaque to this crate.
    pub payer_s: U256,
    /// Contract-creation code or call data, of unbounded length.
    pub input: Vec<u8>,
}

impl View for TxSponsored {
    type V = TxModel;

    open spec fn view(&self) -> TxModel {
        TxModel {
            chain_id: self.chain_id as nat,
            nonce: self.nonce as nat,
            max_priority_fee_per_gas: self.max_priority_fee_per_gas as nat,
            max_fee_per_gas: self.max_fee_per_gas as nat,
            gas_limit: self.gas_limit as nat,
            to: self.to@,
            value: self.value@,
            expired_time: self.expired_time as nat,
            payer_v: self.payer_v@,
            payer_r: self.payer_r@,
            payer_s: self.payer_s@,
            input: self.input@,
        }
    }
}

impl Clone for TxSponsored {
    fn clone(&self) -> (r: Self)
        ensures
            r@ == self@,
            r.wf() == self.wf(),
    {
        let r = TxSponsored {
            chain_id: self.chain_id,
            nonce: self.nonce,
            max_priority_fee_per_gas: self.max_priority_fee_per_gas,
            max_fee_per_gas: self.max_fee_per_gas,
            gas_limit: self.gas_limit,
            to: self.to.clone(),
            value: self.value.clone(),
            expired_time: self.expired_time,
            payer_v: self.payer_v.clone(),
            payer_r: self.payer_r.clone(),
            payer_s: self.payer_s.clone(),
            input: clone_bytes(&self.input),
        };
        proof {
            assert(r@ =~= self@);
        }
        r
    }
}

impl Default for TxSponsored {
    /// The all-zero record: scalar fields zero, a creation recipient, and an
    /// empty input.
    fn default() -> (r: Self)
        ensures
            r.wf(),
            r@ == (TxModel {
                chain_id: 0,
                nonce: 0,
                max_priority_fee_per_gas: 0,
                max_fee_per_gas: 0,
                gas_limit: 0,
                to: KindModel::Create,
                value: 0,
                expired_time: 0,
                payer_v: 0,
                payer_r: 0,
                payer_s: 0,
                input: Seq::empty(),
            }),
    {
        let r = TxSponsored {
            chain_id: 0,
            nonce: 0,
            max_priority_fee_per_gas: 0,
            max_fee_per_gas: 0,
            gas_limit: 0,
            to: TxKind::Create,
            value: U256::zero(),
            expired_time: 0,
            payer_v: U256::zero(),
            payer_r: U256::zero(),
            payer_s: U256::zero(),
            input: Vec::new(),
        };
        proof {
            lemma_pow256_val();
            assert(r@ =~= (TxModel {
                chain_id: 0,
                nonce: 0,
                max_priority_fee_per_gas: 0,
                max_fee_per_gas: 0,
                gas_limit: 0,
                to: KindModel::Create,
                value: 0,
                expired_time: 0,
                payer_v: 0,
                payer_r: 0,
                payer_s: 0,
                input: Seq::empty(),
            }));
        }
        r
    }
}

/// Wire form of the twelve fields in their canonical order, with no list
/// header of its own.
pub open spec fn spec_enc_fields(m: TxModel) -> Seq<u8> {
    spec_uint_enc(m.chain_id) + spec_uint_enc(m.nonce) + spec_uint_enc(m.max_priority_fee_per_gas)
        + spec_uint_enc(m.max_fee_per_gas) + spec_uint_enc(m.gas_limit) + spec_kind_enc(m.to)
        + spec_uint_enc(m.value) + spec_uint_enc(m.expired_time) + spec_uint_enc(m.payer_v)
        + spec_uint_enc(m.payer_r) + spec_uint_enc(m.payer_s) + spec_str_enc(m.input)
}

/// Wire form of the whole record: a list header over the fields, then the
/// fields.
pub open spec fn spec_enc_record(m: TxModel) -> Seq<u8> {
    spec_list_header(spec_enc_fields(m).len()) + spec_enc_fields(m)
}

/// The byte sequence that is hashed and signed: the type-discriminant byte,
/// then the record's wire form.
pub open spec fn spec_preimage(m: TxModel) -> Seq<u8> {
    seq![SPONSORED_TX_TYPE] + spec_enc_record(m)
}

/// Reads the twelve fields in their canonical order starting at position `i`:
/// on success, the record and the position just past its last field.
pub open spec fn spec_dec_fields(s: Seq<u8>, i: int) -> Result<(TxModel, int), DecodeError> {
    match spec_dec_uint(s, i, 8) {
        Err(e) => Err(e),
        Ok((chain_id, j1)) => match spec_dec_uint(s, j1, 8) {
            Err(e) => Err(e),
            Ok((nonce, j2)) => match spec_dec_uint(s, j2, 16) {
                Err(e) => Err(e),
                Ok((max_priority_fee_per_gas, j3)) => match spec_dec_uint(s, j3, 16) {
                    Err(e) => Err(e),
                    Ok((max_fee_per_gas, j4)) => match spec_dec_uint(s, j4, 8) {
                        Err(e) => Err(e),
                        Ok((gas_limit, j5)) => match spec_dec_kind(s, j5) {
                            Err(e) => Err(e),
                            Ok((to, j6)) => match spec_dec_uint(s, j6, 32) {
                                Err(e) => Err(e),
                                Ok((value, j7)) => match spec_dec_uint(s, j7, 8) {
                                    Err(e) => Err(e),
                                    Ok((expired_time, j8)) => match spec_dec_uint(s, j8, 32) {
                                        Err(e) => Err(e),
                                        Ok((payer_v, j9)) => match spec_dec_uint(s, j9, 32) {
                                            Err(e) => Err(e),
                                            Ok((payer_r, j10)) => match spec_dec_uint(s, j10, 32) {
                                                Err(e) => Err(e),
                                                Ok((payer_s, j11)) => match spec_dec_bytes(s, j11) {
                                                    Err(e) => Err(e),
                                                    Ok((input, j12)) => Ok((
                                                        TxModel {
                                                            chain_id,
                                                            nonce,
                                                            max_priority_fee_per_gas,
                                                            max_fee_per_gas,
                                                            gas_limit,
                                                            to,
                                                            value,
                                                            expired_time,
                                                            payer_v,
                                                            payer_r,
                                                            payer_s,
                                                            input,
                                                        },
                                                        j12,
                                                    )),
                                                },
                                            },
                                        },
                                    },
                                },
                            },
                        },
                    },
                },
            },
        },
    }
}

/// Reads a whole record at position 0: a list header, the twelve fields, and
/// a check that the fields fill the header's payload length exactly.
pub open spec fn spec_dec_record(s: Seq<u8>) -> Result<(TxModel, int), DecodeError> {
    match spec_dec_list_header(s, 0) {
        Err(e) => Err(e),
        Ok((p, l)) => match spec_dec_fields(s, p) {
            Err(e) => Err(e),
            Ok((m, end)) => if end == p + l {
                Ok((m, end))
            } else {
                Err(DecodeError::ListLengthMismatch)
            },
        },
    }
}

/// The fixed per-field in-memory footprint of a record, plus the dynamic
/// length of its input.
pub open spec fn spec_size(m: TxModel) -> nat {
    (213 + m.input.len()) as nat
}

/// What the caller effectively pays per gas unit: without a base fee, the fee
/// cap itself; with one, the tip is capped at the declared priority fee.
pub open spec fn spec_effective_gas_price(m: TxModel, base_fee: Option<u64>) -> nat {
    match base_fee {
        None => m.max_fee_per_gas,
        Some(b) => {
            let tip = if m.max_fee_per_gas >= b { (m.max_fee_per_gas - b) as nat } else { 0nat };
            if tip > m.max_priority_fee_per_gas {
                (m.max_priority_fee_per_gas + b) as nat
            } else {
                m.max_fee_per_gas
            }
        },
    }
}

impl TxSponsored {
    /// The recipient and the four 256-bit scalars are well formed, and the
    /// input is within the wire format's length range, as any byte buffer
    /// that fits in memory is.
    pub open spec fn wf(self) -> bool {
        &&& self.to.wf()
        &&& self.value.wf()
        &&& self.payer_v.wf()
        &&& self.payer_r.wf()
        &&& self.payer_s.wf()
        &&& self.input@.len() < pow256(8)
    }

    /// A well-formed record has a well-formed mathematical shape.
    pub proof fn lemma_wf_model(self)
        requires
            self.wf(),
        ensures
            self@.wf(),
    {
        lemma_pow256_val();
        self.value.lemma_range();
        self.payer_v.lemma_range();
        self.payer_r.lemma_range();
        self.payer_s.lemma_range();
    }

    /// The type tag of this variant.
    pub fn tx_type() -> (r: u8)
        ensures
            r == SPONSORED_TX_TYPE,
    {
        SPONSORED_TX_TYPE
    }

    /// The length of the twelve fields' wire form, without a list header.
    pub fn rlp_encoded_fields_length(&self) -> (r: usize)
        requires
            self.wf(),
            spec_enc_fields(self@).len() <= usize::MAX,
        ensures
            r == spec_enc_fields(self@).len(),
    {
        let a1 = uint_enc_len(self.chain_id as u128);
        let a2 = uint_enc_len(self.nonce as u128);
        let a3 = uint_enc_len(self.max_priority_fee_per_gas);
        let a4 = uint_enc_len(self.max_fee_per_gas);
        let a5 = uint_enc_len(self.gas_limit as u128);
        let a6 = self.to.rlp_len();
        let a7 = self.value.rlp_len();
        let a8 = uint_enc_len(self.expired_time as u128);
        let a9 = self.payer_v.rlp_len();
        let a10 = self.payer_r.rlp_len();
        let a11 = self.payer_s.rlp_len();
        let a12 = str_enc_len(self.input.as_slice());
        a1 + a2 + a3 + a4 + a5 + a6 + a7 + a8 + a9 + a10 + a11 + a12
    }

    /// Writes the twelve fields' wire form, in the canonical order, without a
    /// list header.
    pub fn rlp_encode_fields(&self, out: &mut Vec<u8>)
        requires
            self.wf(),
        ensures
            final(out)@ == old(out)@ + spec_enc_fields(self@),
    {
        let ghost e1 = spec_uint_enc(self@.chain_id);
        let ghost e2 = spec_uint_enc(self@.nonce);
        let ghost e3 = spec_uint_enc(self@.max_priority_fee_per_gas);
        let ghost e4 = spec_uint_enc(self@.max_fee_per_gas);
        let ghost e5 = spec_uint_enc(self@.gas_limit);
        let ghost e6 = spec_kind_enc(self@.to);
        let ghost e7 = spec_uint_enc(self@.value);
        let ghost e8 = spec_uint_enc(self@.expired_time);
        let ghost e9 = spec_uint_enc(self@.payer_v);
        let ghost e10 = spec_uint_enc(self@.payer_r);
        let ghost e11 = spec_uint_enc(self@.payer_s);
        let ghost e12 = spec_str_enc(self@.input);
        append_uint(out, self.chain_id as u128);
        append_uint(out, self.nonce as u128);
        proof {
            assert(out@ =~= old(out)@ + (e1 + e2));
        }
        append_uint(out, self.max_priority_fee_per_gas);
        proof {
            assert(out@ =~= old(out)@ + (e1 + e2 + e3));
        }
        append_uint(out, self.max_fee_per_gas);
        proof {
            assert(out@ =~= old(out)@ + (e1 + e2 + e3 + e4));
        }
        append_uint(out, self.gas_limit as u128);
        proof {
            assert(out@ =~= old(out)@ + (e1 + e2 + e3 + e4 + e5));
        }
        self.to.rlp_append(out);
        proof {
            assert(out@ =~= old(out)@ + (e1 + e2 + e3 + e4 + e5 + e6));
        }
        self.value.rlp_append(out);
        proof {
            assert(out@ =~= old(out)@ + (e1 + e2 + e3 + e4 + e5 + e6 + e7));
        }
        append_uint(out, self.expired_time as u128);
        proof {
            assert(out@ =~= old(out)@ + (e1 + e2 + e3 + e4 + e5 + e6 + e7 + e8));
        }
        self.payer_v.rlp_append(out);
        proof {
            assert(out@ =~= old(out)@ + (e1 + e2 + e3 + e4 + e5 + e6 + e7 + e8 + e9));
        }
        self.payer_r.rlp_append(out);
        proof {
            assert(out@ =~= old(out)@ + (e1 + e2 + e3 + e4 + e5 + e6 + e7 + e8 + e9 + e10));
        }
        self.payer_s.rlp_append(out);
        proof {
            assert(out@ =~= old(out)@ + (e1 + e2 + e3 + e4 + e5 + e6 + e7 + e8 + e9 + e10 + e11));
        }
        append_str(out, self.input.as_slice());
        proof {
            assert(out@ =~= old(out)@ + (e1 + e2 + e3 + e4 + e5 + e6 + e7 + e8 + e9 + e10 + e11
                + e12));
            assert(out@ =~= old(out)@ + spec_enc_fields(self@));
        }
    }

    /// Reads the twelve fields starting at position `i`.
    fn rlp_decode_fields_from(buf: &[u8], i: usize) -> (r: Result<(TxSponsored, usize), DecodeError>)
        ensures
            match (r, spec_dec_fields(buf@, i as int)) {
                (Ok((tx, end)), Ok((m, send))) => tx@ == m && tx.wf() && end == send,
                (Err(e1), Err(e2)) => e1 == e2,
                _ => false,
            },
    {
        let (chain_id, j1) = match dec_u64(buf, i) {
            Ok(t) => t,
            Err(e) => { return Err(e); },
        };
        let (nonce, j2) = match dec_u64(buf, j1) {
            Ok(t) => t,
            Err(e) => { return Err(e); },
        };
        let (max_priority_fee_per_gas, j3) = match dec_u128(buf, j2) {
            Ok(t) => t,
            Err(e) => { return Err(e); },
        };
        let (max_fee_per_gas, j4) = match dec_u128(buf, j3) {
            Ok(t) => t,
            Err(e) => { return Err(e); },
        };
        let (gas_limit, j5) = match dec_u64(buf, j4) {
            Ok(t) => t,
            Err(e) => { return Err(e); },
        };
        let (to, j6) = match TxKind::rlp_decode(buf, j5) {
            Ok(t) => t,
            Err(e) => { return Err(e); },
        };
        let (value, j7) = match U256::rlp_decode(buf, j6) {
            Ok(t) => t,
            Err(e) => { return Err(e); },
        };
        let (expired_time, j8) = match dec_u64(buf, j7) {
            Ok(t) => t,
            Err(e) => { return Err(e); },
        };
        let (payer_v, j9) = match U256::rlp_decode(buf, j8) {
            Ok(t) => t,
            Err(e) => { return Err(e); },
        };
        let (payer_r, j10) = match U256::rlp_decode(buf, j9) {
            Ok(t) => t,
            Err(e) => { return Err(e); },
        };
        let (payer_s, j11) = match U256::rlp_decode(buf, j10) {
            Ok(t) => t,
            Err(e) => { return Err(e); },
        };
        let (input, j12) = match dec_bytes(buf, j11) {
            Ok(t) => t,
            Err(e) => { return Err(e); },
        };
        let input_len = input.len();
        proof {
            lemma_pow256_val();
            assert(input@.len() == input_len as nat);
        }
        let tx = TxSponsored {
            chain_id,
            nonce,
            max_priority_fee_per_gas,
            max_fee_per_gas,
            gas_limit,
            to,
            value,
            expired_time,
            payer_v,
            payer_r,
            payer_s,
            input,
        };
        proof {
            assert(tx@ =~= spec_dec_fields(buf@, i as int).unwrap().0);
        }
        Ok((tx, j12))
    }

    /// Reads the twelve fields in their canonical order from the start of the
    /// buffer, which holds the inner field bytes with no list header of their
    /// own; any malformed field aborts the whole decode with the first error.
    /// On success, also the number of bytes consumed.
    pub fn rlp_decode_fields(buf: &[u8]) -> (r: Result<(TxSponsored, usize), DecodeError>)
        ensures
            match (r, spec_dec_fields(buf@, 0)) {
                (Ok((tx, end)), Ok((m, send))) => tx@ == m && tx.wf() && end == send,
                (Err(e1), Err(e2)) => e1 == e2,
                _ => false,
            },
    {
        Self::rlp_decode_fields_from(buf, 0)
    }

    /// Writes the record's whole wire form: the list header, then the fields.
    pub fn encode(&self, out: &mut Vec<u8>)
        requires
            self.wf(),
            spec_enc_fields(self@).len() <= usize::MAX,
        ensures
            final(out)@ == old(out)@ + spec_enc_record(self@),
    {
        let fl = self.rlp_encoded_fields_length();
        append_list_header(out, fl);
        self.rlp_encode_fields(out);
        proof {
            assert(out@ =~= old(out)@ + spec_enc_record(self@));
        }
    }

    /// The length of the record's whole wire form.
    pub fn length(&self) -> (r: usize)
        requires
            self.wf(),
            spec_enc_record(self@).len() <= usize::MAX,
        ensures
            r == spec_enc_record(self@).len(),
    {
        let fl = self.rlp_encoded_fields_length();
        let hl = list_header_len(fl);
        hl + fl
    }

    /// Reads a whole record from the start of the buffer: the list header,
    /// the twelve fields, and the check that the fields fill the header's
    /// payload exactly. On success, also the number of bytes consumed;
    /// trailing bytes are left untouched.
    pub fn decode(buf: &[u8]) -> (r: Result<(TxSponsored, usize), DecodeError>)
        ensures
            match (r, spec_dec_record(buf@)) {
                (Ok((tx, end)), Ok((m, send))) => tx@ == m && tx.wf() && end == send,
                (Err(e1), Err(e2)) => e1 == e2,
                _ => false,
            },
    {
        let bn = buf.len();
        let (p, l) = match dec_list_header(buf, 0) {
            Ok(t) => t,
            Err(e) => { return Err(e); },
        };
        let (tx, end) = match Self::rlp_decode_fields_from(buf, p) {
            Ok(t) => t,
            Err(e) => { return Err(e); },
        };
        if end == p + l {
            Ok((tx, end))
        } else {
            Err(DecodeError::ListLengthMismatch)
        }
    }

    /// Writes the byte sequence to be hashed and signed: the fixed
    /// type-discriminant byte, then the record's wire form.
    pub fn encode_for_signing(&self, out: &mut Vec<u8>)
        requires
            self.wf(),
            spec_enc_fields(self@).len() <= usize::MAX,
        ensures
            final(out)@ == old(out)@ + spec_preimage(self@),
    {
        out.push(SPONSORED_TX_TYPE);
        self.encode(out);
        proof {
            assert(out@ =~= old(out)@ + spec_preimage(self@));
        }
    }

    /// The exact length of the signing preimage: the record's wire length
    /// plus one for the type-discriminant byte.
    pub fn payload_len_for_signature(&self) -> (r: usize)
        requires
            self.wf(),
            spec_preimage(self@).len() <= usize::MAX,
        ensures
            r == spec_preimage(self@).len(),
    {
        let l = self.length();
        l + 1
    }
}

/// Each of the twelve field encodings, read back from anything that starts
/// with the record's field encoding, decodes to its field's value, at the
/// positions the preceding fields' lengths dictate.
/// The field encodings stand side by side inside anything that starts with
/// the record's field encoding, each at the position the preceding lengths
/// dictate.
#[verifier::rlimit(100)]
#[verifier::spinoff_prover]
proof fn lemma_enc_parts(m: TxModel, pre: Seq<u8>, rest: Seq<u8>)
    ensures
        ({
            let e1 = spec_uint_enc(m.chain_id);
            let e2 = spec_uint_enc(m.nonce);
            let e3 = spec_uint_enc(m.max_priority_fee_per_gas);
            let e4 = spec_uint_enc(m.max_fee_per_gas);
            let e5 = spec_uint_enc(m.gas_limit);
            let e6 = spec_kind_enc(m.to);
            let e7 = spec_uint_enc(m.value);
            let e8 = spec_uint_enc(m.expired_time);
            let e9 = spec_uint_enc(m.payer_v);
            let e10 = spec_uint_enc(m.payer_r);
            let e11 = spec_uint_enc(m.payer_s);
            let e12 = spec_str_enc(m.input);
            let s = pre + spec_enc_fields(m) + rest;
            let n0 = pre.len() as int;
            let n1 = n0 + e1.len();
            let n2 = n1 + e2.len();
            let n3 = n2 + e3.len();
            let n4 = n3 + e4.len();
            let n5 = n4 + e5.len();
            let n6 = n5 + e6.len();
            let n7 = n6 + e7.len();
            let n8 = n7 + e8.len();
            let n9 = n8 + e9.len();
            let n10 = n9 + e10.len();
            let n11 = n10 + e11.len();
            let n12 = n11 + e12.len();
            &&& n12 == n0 + spec_enc_fields(m).len()
            &&& n12 <= s.len()
            &&& s.subrange(n0, n1) == e1
            &&& s.subrange(n1, n2) == e2
            &&& s.subrange(n2, n3) == e3
            &&& s.subrange(n3, n4) == e4
            &&& s.subrange(n4, n5) == e5
            &&& s.subrange(n5, n6) == e6
            &&& s.subrange(n6, n7) == e7
            &&& s.subrange(n7, n8) == e8
            &&& s.subrange(n8, n9) == e9
            &&& s.subrange(n9, n10) == e10
            &&& s.subrange(n10, n11) == e11
            &&& s.subrange(n11, n12) == e12
        }),
{
    let e1 = spec_uint_enc(m.chain_id);
    let e2 = spec_uint_enc(m.nonce);
    let e3 = spec_uint_enc(m.max_priority_fee_per_gas);
    let e4 = spec_uint_enc(m.max_fee_per_gas);
    let e5 = spec_uint_enc(m.gas_limit);
    let e6 = spec_kind_enc(m.to);
    let e7 = spec_uint_enc(m.value);
    let e8 = spec_uint_enc(m.expired_time);
    let e9 = spec_uint_enc(m.payer_v);
    let e10 = spec_uint_enc(m.payer_r);
    let e11 = spec_uint_enc(m.payer_s);
    let e12 = spec_str_enc(m.input);
    let f = spec_enc_fields(m);
    let s = pre + f + rest;
    let n0 = pre.len() as int;
    let p2 = e1 + e2;
    let p3 = e1 + e2 + e3;
    let p4 = e1 + e2 + e3 + e4;
    let p5 = e1 + e2 + e3 + e4 + e5;
    let p6 = e1 + e2 + e3 + e4 + e5 + e6;
    let p7 = e1 + e2 + e3 + e4 + e5 + e6 + e7;
    let p8 = e1 + e2 + e3 + e4 + e5 + e6 + e7 + e8;
    let p9 = e1 + e2 + e3 + e4 + e5 + e6 + e7 + e8 + e9;
    let p10 = e1 + e2 + e3 + e4 + e5 + e6 + e7 + e8 + e9 + e10;
    let p11 = e1 + e2 + e3 + e4 + e5 + e6 + e7 + e8 + e9 + e10 + e11;
    assert(s.subrange(0, s.len() as int) =~= s);
    lemma_subrange_concat(s, 0, s.len() as int, pre + f, rest);
    lemma_subrange_concat(s, 0, (pre + f).len() as int, pre, f);
    lemma_subrange_concat(s, n0, n0 + f.len(), p11, e12);
    lemma_subrange_concat(s, n0, n0 + p11.len(), p10, e11);
    lemma_subrange_concat(s, n0, n0 + p10.len(), p9, e10);
    lemma_subrange_concat(s, n0, n0 + p9.len(), p8, e9);
    lemma_subrange_concat(s, n0, n0 + p8.len(), p7, e8);
    lemma_subrange_concat(s, n0, n0 + p7.len(), p6, e7);
    lemma_subrange_concat(s, n0, n0 + p6.len(), p5, e6);
    lemma_subrange_concat(s, n0, n0 + p5.len(), p4, e5);
    lemma_subrange_concat(s, n0, n0 + p4.len(), p3, e4);
    lemma_subrange_concat(s, n0, n0 + p3.len(), p2, e3);
    lemma_subrange_concat(s, n0, n0 + p2.len(), e1, e2);
}

#[verifier::rlimit(100)]
#[verifier::spinoff_prover]
proof fn lemma_field_decodes(m: TxModel, pre: Seq<u8>, rest: Seq<u8>)
    requires
        m.wf(),
    ensures
        ({
            let e1 = spec_uint_enc(m.chain_id);
            let e2 = spec_uint_enc(m.nonce);
            let e3 = spec_uint_enc(m.max_priority_fee_per_gas);
            let e4 = spec_uint_enc(m.max_fee_per_gas);
            let e5 = spec_uint_enc(m.gas_limit);
            let e6 = spec_kind_enc(m.to);
            let e7 = spec_uint_enc(m.value);
            let e8 = spec_uint_enc(m.expired_time);
            let e9 = spec_uint_enc(m.payer_v);
            let e10 = spec_uint_enc(m.payer_r);
            let e11 = spec_uint_enc(m.payer_s);
            let e12 = spec_str_enc(m.input);
            let s = pre + spec_enc_fields(m) + rest;
            let n0 = pre.len() as int;
            let n1 = n0 + e1.len();
            let n2 = n1 + e2.len();
            let n3 = n2 + e3.len();
            let n4 = n3 + e4.len();
            let n5 = n4 + e5.len();
            let n6 = n5 + e6.len();
            let n7 = n6 + e7.len();
            let n8 = n7 + e8.len();
            let n9 = n8 + e9.len();
            let n10 = n9 + e10.len();
            let n11 = n10 + e11.len();
            let n12 = n11 + e12.len();
            &&& spec_dec_uint(s, n0, 8) == Ok::<(nat, int), DecodeError>((m.chain_id, n1))
            &&& spec_dec_uint(s, n1, 8) == Ok::<(nat, int), DecodeError>((m.nonce, n2))
            &&& spec_dec_uint(s, n2, 16) == Ok::<(nat, int), DecodeError>((
                m.max_priority_fee_per_gas,
                n3,
            ))
            &&& spec_dec_uint(s, n3, 16) == Ok::<(nat, int), DecodeError>((m.max_fee_per_gas, n4))
            &&& spec_dec_uint(s, n4, 8) == Ok::<(nat, int), DecodeError>((m.gas_limit, n5))
            &&& spec_dec_kind(s, n5) == Ok::<(KindModel, int), DecodeError>((m.to, n6))
            &&& spec_dec_uint(s, n6, 32) == Ok::<(nat, int), DecodeError>((m.value, n7))
            &&& spec_dec_uint(s, n7, 8) == Ok::<(nat, int), DecodeError>((m.expired_time, n8))
            &&& spec_dec_uint(s, n8, 32) == Ok::<(nat, int), DecodeError>((m.payer_v, n9))
            &&& spec_dec_uint(s, n9, 32) == Ok::<(nat, int), DecodeError>((m.payer_r, n10))
            &&& spec_dec_uint(s, n10, 32) == Ok::<(nat, int), DecodeError>((m.payer_s, n11))
            &&& spec_dec_bytes(s, n11) == Ok::<(Seq<u8>, int), DecodeError>((m.input, n12))
            &&& n12 == n0 + spec_enc_fields(m).len()
        }),
{
    let e1 = spec_uint_enc(m.chain_id);
    let e2 = spec_uint_enc(m.nonce);
    let e3 = spec_uint_enc(m.max_priority_fee_per_gas);
    let e4 = spec_uint_enc(m.max_fee_per_gas);
    let e5 = spec_uint_enc(m.gas_limit);
    let e6 = spec_kind_enc(m.to);
    let e7 = spec_uint_enc(m.value);
    let e8 = spec_uint_enc(m.expired_time);
    let e9 = spec_uint_enc(m.payer_v);
    let e10 = spec_uint_enc(m.payer_r);
    let e11 = spec_uint_enc(m.payer_s);
    let e12 = spec_str_enc(m.input);
    let f = spec_enc_fields(m);
    let s = pre + f + rest;
    let n0 = pre.len() as int;
    let n1 = n0 + e1.len();
    let n2 = n1 + e2.len();
    let n3 = n2 + e3.len();
    let n4 = n3 + e4.len();
    let n5 = n4 + e5.len();
    let n6 = n5 + e6.len();
    let n7 = n6 + e7.len();
    let n8 = n7 + e8.len();
    let n9 = n8 + e9.len();
    let n10 = n9 + e10.len();
    let n11 = n10 + e11.len();
    lemma_enc_parts(m, pre, rest);
    lemma_dec_uint_of_enc(s, n0, m.chain_id, 8);
    lemma_dec_uint_of_enc(s, n1, m.nonce, 8);
    lemma_dec_uint_of_enc(s, n2, m.max_priority_fee_per_gas, 16);
    lemma_dec_uint_of_enc(s, n3, m.max_fee_per_gas, 16);
    lemma_dec_uint_of_enc(s, n4, m.gas_limit, 8);
    lemma_dec_kind_of_enc(s, n5, m.to);
    lemma_dec_uint_of_enc(s, n6, m.value, 32);
    lemma_dec_uint_of_enc(s, n7, m.expired_time, 8);
    lemma_dec_uint_of_enc(s, n8, m.payer_v, 32);
    lemma_dec_uint_of_enc(s, n9, m.payer_r, 32);
    lemma_dec_uint_of_enc(s, n10, m.payer_s, 32);
    lemma_dec_bytes_of_enc(s, n11, m.input);
}

/// Reading the twelve fields at the position where a well-formed record's
/// field encoding stands inside a larger byte string yields exactly that
/// record.
proof fn lemma_dec_fields_at(m: TxModel, pre: Seq<u8>, rest: Seq<u8>)
    requires
        m.wf(),
    ensures
        spec_dec_fields(pre + spec_enc_fields(m) + rest, pre.len() as int) == Ok::<
            (TxModel, int),
            DecodeError,
        >((m, pre.len() + spec_enc_fields(m).len() as int)),
{
    lemma_field_decodes(m, pre, rest);
    let s = pre + spec_enc_fields(m) + rest;
    let got = spec_dec_fields(s, pre.len() as int).unwrap().0;
    assert(got =~= m);
}

/// Round-trip, embedded: anything that starts with the field encoding of a
/// well-formed record decodes to exactly that record, consuming exactly the
/// encoding.
pub proof fn lemma_decode_of_encode(m: TxModel, rest: Seq<u8>)
    requires
        m.wf(),
    ensures
        spec_dec_fields(spec_enc_fields(m) + rest, 0) == Ok::<(TxModel, int), DecodeError>((
            m,
            spec_enc_fields(m).len() as int,
        )),
{
    lemma_dec_fields_at(m, Seq::empty(), rest);
    assert(Seq::<u8>::empty() + spec_enc_fields(m) + rest =~= spec_enc_fields(m) + rest);
}

/// Round-trip: decoding the field encoding of any well-formed record yields
/// that record and consumes every encoded byte.
pub proof fn lemma_round_trip(m: TxModel)
    requires
        m.wf(),
    ensures
        spec_dec_fields(spec_enc_fields(m), 0) == Ok::<(TxModel, int), DecodeError>((
            m,
            spec_enc_fields(m).len() as int,
        )),
{
    lemma_decode_of_encode(m, Seq::empty());
    assert(spec_enc_fields(m) + Seq::empty() =~= spec_enc_fields(m));
}

/// Decoding any strict prefix of a well-formed record's field encoding fails.
pub proof fn lemma_decode_rejects_truncation(m: TxModel, k: int)
    requires
        m.wf(),
        0 <= k < spec_enc_fields(m).len(),
    ensures
        spec_dec_fields(spec_enc_fields(m).take(k), 0).is_err(),
{
    let e1 = spec_uint_enc(m.chain_id);
    let e2 = spec_uint_enc(m.nonce);
    let e3 = spec_uint_enc(m.max_priority_fee_per_gas);
    let e4 = spec_uint_enc(m.max_fee_per_gas);
    let e5 = spec_uint_enc(m.gas_limit);
    let e6 = spec_kind_enc(m.to);
    let e7 = spec_uint_enc(m.value);
    let e8 = spec_uint_enc(m.expired_time);
    let e9 = spec_uint_enc(m.payer_v);
    let e10 = spec_uint_enc(m.payer_r);
    let e11 = spec_uint_enc(m.payer_s);
    let e12 = spec_str_enc(m.input);
    let f = spec_enc_fields(m);
    lemma_field_decodes(m, Seq::empty(), Seq::empty());
    assert(Seq::<u8>::empty() + f + Seq::<u8>::empty() =~= f);
    let t = f.take(k);
    let n1 = e1.len() as int;
    let n2 = n1 + e2.len();
    let n3 = n2 + e3.len();
    let n4 = n3 + e4.len();
    let n5 = n4 + e5.len();
    let n6 = n5 + e6.len();
    let n7 = n6 + e7.len();
    let n8 = n7 + e8.len();
    let n9 = n8 + e9.len();
    let n10 = n9 + e10.len();
    let n11 = n10 + e11.len();
    lemma_dec_uint_prefix(f, 0, 8, k);
    if n1 <= k {
        lemma_dec_uint_prefix(f, n1, 8, k);
        if n2 <= k {
            lemma_dec_uint_prefix(f, n2, 16, k);
            if n3 <= k {
                lemma_dec_uint_prefix(f, n3, 16, k);
                if n4 <= k {
                    lemma_dec_uint_prefix(f, n4, 8, k);
                    if n5 <= k {
                        lemma_dec_kind_prefix(f, n5, k);
                        if n6 <= k {
                            lemma_dec_uint_prefix(f, n6, 32, k);
                            if n7 <= k {
                                lemma_dec_uint_prefix(f, n7, 8, k);
                                if n8 <= k {
                                    lemma_dec_uint_prefix(f, n8, 32, k);
                                    if n9 <= k {
                                        lemma_dec_uint_prefix(f, n9, 32, k);
                                        if n10 <= k {
                                            lemma_dec_uint_prefix(f, n10, 32, k);
                                            if n11 <= k {
                                                lemma_dec_bytes_prefix(f, n11, k);
                                            }
                                        }
                                    }
                                }
                            }
                        }
                    }
                }
            }
        }
    }
}

/// Round-trip for the whole wire form: anything that starts with the record
/// encoding of a well-formed record decodes to exactly that record,
/// consuming the header and the fields and nothing more. The field bytes
/// must fit the wire format's length range, as those of any buffer in
/// memory do.
#[verifier::rlimit(100)]
#[verifier::spinoff_prover]
pub proof fn lemma_record_round_trip(m: TxModel, rest: Seq<u8>)
    requires
        m.wf(),
        spec_enc_fields(m).len() < pow256(8),
    ensures
        spec_dec_record(spec_enc_record(m) + rest) == Ok::<(TxModel, int), DecodeError>((
            m,
            spec_enc_record(m).len() as int,
        )),
{
    let f = spec_enc_fields(m);
    let h = spec_list_header(f.len());
    let s = spec_enc_record(m) + rest;
    assert(s =~= h + f + rest);
    assert(s.subrange(0, s.len() as int) =~= s);
    lemma_subrange_concat(s, 0, s.len() as int, h + f, rest);
    lemma_subrange_concat(s, 0, (h + f).len() as int, h, f);
    lemma_dec_list_header_of_enc(s, f.len());
    lemma_dec_fields_at(m, h, rest);
    assert(h + f + rest =~= s);
}

/// Decoding any strict prefix of a well-formed record's whole wire form
/// fails: the list header itself demands its full payload.
pub proof fn lemma_record_rejects_truncation(m: TxModel, k: int)
    requires
        m.wf(),
        spec_enc_fields(m).len() < pow256(8),
        0 <= k < spec_enc_record(m).len(),
    ensures
        spec_dec_record(spec_enc_record(m).take(k)).is_err(),
{
    let f = spec_enc_fields(m);
    let h = spec_list_header(f.len());
    let w = spec_enc_record(m);
    assert(w.subrange(0, w.len() as int) =~= w);
    lemma_subrange_concat(w, 0, w.len() as int, h, f);
    lemma_dec_list_header_of_enc(w, f.len());
    lemma_dec_list_header_prefix(w, k);
}

/// Two records that differ only in their input: the one with the longer
/// input has the strictly greater size estimate.
pub proof fn lemma_size_monotonic(m1: TxModel, m2: TxModel)
    requires
        m1.input.len() < m2.input.len(),
    ensures
        spec_size(m1) < spec_size(m2),
{
}

/// The first byte of the signing preimage is the fixed type discriminant,
/// whatever the record holds.
pub proof fn lemma_preimage_type_byte(m: TxModel)
    ensures
        spec_preimage(m).len() >= 1,
        spec_preimage(m)[0] == SPONSORED_TX_TYPE,
{
}

/// Placeholder for the access lists sibling transaction variants carry; this
/// variant never has one, and the type exists only so the query interface
/// can report its absence.
pub struct AccessList;

/// Placeholder for the versioned blob hashes sibling transaction variants
/// carry.
pub struct VersionedHash;

/// Placeholder for the signed authorizations sibling transaction variants
/// carry.
pub struct SignedAuthorization;

impl TxSponsored {
    /// Overwrites the replay-protection domain, leaving every other field
    /// untouched; used to re-home an unsigned draft before signing.
    pub fn set_chain_id(&mut self, chain_id: u64)
        ensures
            final(self).chain_id == chain_id,
            final(self).nonce == old(self).nonce,
            final(self).max_priority_fee_per_gas == old(self).max_priority_fee_per_gas,
            final(self).max_fee_per_gas == old(self).max_fee_per_gas,
            final(self).gas_limit == old(self).gas_limit,
            final(self).to == old(self).to,
            final(self).value == old(self).value,
            final(self).expired_time == old(self).expired_time,
            final(self).payer_v == old(self).payer_v,
            final(self).payer_r == old(self).payer_r,
            final(self).payer_s == old(self).payer_s,
            final(self).input == old(self).input,
    {
        self.chain_id = chain_id;
    }

    /// A heuristic for the record's in-memory size: a fixed per-field
    /// contribution plus the dynamic length of the input.
    pub fn size(&self) -> (r: usize)
        requires
            spec_size(self@) <= usize::MAX,
        ensures
            r == spec_size(self@),
    {
        8 + 8 + 8 + 16 + 16 + self.to.size() + 32 + 8 + 32 + 32 + 32 + self.input.len()
    }

    /// The replay-protection domain; always present on this variant.
    pub fn chain_id(&self) -> (r: Option<u64>)
        ensures
            r == Some(self.chain_id),
    {
        Some(self.chain_id)
    }

    /// The sender's sequence number.
    pub fn nonce(&self) -> (r: u64)
        ensures
            r == self.nonce,
    {
        self.nonce
    }

    /// The gas limit.
    pub fn gas_limit(&self) -> (r: u64)
        ensures
            r == self.gas_limit,
    {
        self.gas_limit
    }

    /// The single legacy gas price; never present on this dynamic-fee
    /// variant.
    pub fn gas_price(&self) -> (r: Option<u128>)
        ensures
            r.is_none(),
    {
        None
    }

    /// The absolute cap on the total gas price.
    pub fn max_fee_per_gas(&self) -> (r: u128)
        ensures
            r == self.max_fee_per_gas,
    {
        self.max_fee_per_gas
    }

    /// The tip cap; always present on this variant.
    pub fn max_priority_fee_per_gas(&self) -> (r: Option<u128>)
        ensures
            r == Some(self.max_priority_fee_per_gas),
    {
        Some(self.max_priority_fee_per_gas)
    }

    /// The blob gas fee cap; never present on this variant.
    pub fn max_fee_per_blob_gas(&self) -> (r: Option<u128>)
        ensures
            r.is_none(),
    {
        None
    }

    /// The tip cap, which on this variant stands in for a legacy price.
    pub fn priority_fee_or_price(&self) -> (r: u128)
        ensures
            r == self.max_priority_fee_per_gas,
    {
        self.max_priority_fee_per_gas
    }

    /// What the caller effectively pays per gas unit: without a base fee the
    /// fee cap; with one, the tip is capped at the declared priority fee, so
    /// the block producer never receives more than it.
    pub fn effective_gas_price(&self, base_fee: Option<u64>) -> (r: u128)
        ensures
            r as nat == spec_effective_gas_price(self@, base_fee),
            base_fee.is_none() ==> r == self.max_fee_per_gas,
    {
        match base_fee {
            None => self.max_fee_per_gas,
            Some(b) => {
                let base = b as u128;
                let tip = if self.max_fee_per_gas >= base {
                    self.max_fee_per_gas - base
                } else {
                    0
                };
                if tip > self.max_priority_fee_per_gas {
                    self.max_priority_fee_per_gas + base
                } else {
                    self.max_fee_per_gas
                }
            },
        }
    }

    /// This variant always prices gas with a fee cap and a tip cap.
    pub fn is_dynamic_fee(&self) -> (r: bool)
        ensures
            r,
    {
        true
    }

    /// The recipient.
    pub fn kind(&self) -> (r: TxKind)
        ensures
            r@ == self.to@,
    {
        self.to.clone()
    }

    /// Whether the transaction creates a contract.
    pub fn is_create(&self) -> (r: bool)
        ensures
            r == (self.to@ is Create),
    {
        self.to.is_create()
    }

    /// The transferred native currency.
    pub fn value(&self) -> (r: U256)
        ensures
            r@ == self.value@,
            r.wf() == self.value.wf(),
    {
        self.value.clone()
    }

    /// The contract-creation code or call data.
    pub fn input(&self) -> (r: &Vec<u8>)
        ensures
            r@ == self.input@,
    {
        &self.input
    }

    /// The access list; never present on this variant.
    pub fn access_list(&self) -> (r: Option<&AccessList>)
        ensures
            r.is_none(),
    {
        None
    }

    /// The versioned blob hashes; never present on this variant.
    pub fn blob_versioned_hashes(&self) -> (r: Option<&[VersionedHash]>)
        ensures
            r.is_none(),
    {
        None
    }

    /// The authorization list; never present on this variant.
    pub fn authorization_list(&self) -> (r: Option<&[SignedAuthorization]>)
        ensures
            r.is_none(),
    {
        None
    }

    /// The type-discriminant byte of this variant.
    pub fn ty(&self) -> (r: u8)
        ensures
            r == SPONSORED_TX_TYPE,
    {
        SPONSORED_TX_TYPE
    }
}

} // verus!

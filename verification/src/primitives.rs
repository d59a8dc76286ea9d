//! The plain value types the transaction's fields are made of: a 256-bit
//! scalar, a 20-byte address, and the recipient marker that distinguishes a
//! call from a contract creation.

use vstd::prelude::*;

use crate::rlp::{
    append_bytes, append_str, be_bytes, be_value, dec_str, lemma_be_bytes_of_be_value,
    lemma_be_value_bound, lemma_be_value_of_be_bytes, lemma_be_value_pad, lemma_be_bytes_len,
    lemma_pow256_val, pow256, spec_dec_str, spec_str_enc, spec_uint_enc, u128_min_be,
    DecodeError,
};

verus! {

/// Copies a byte vector.
pub(crate) fn clone_bytes(v: &Vec<u8>) -> (r: Vec<u8>)
    ensures
        r@ == v@,
{
    let mut r: Vec<u8> = Vec::new();
    let mut j: usize = 0;
    while j < v.len()
        invariant
            j <= v@.len(),
            r@ == v@.take(j as int),
        decreases v@.len() - j,
    {
        let b = v[j];
        r.push(b);
        j = j + 1;
        proof {
            assert(r@ =~= v@.take(j as int));
        }
    }
    proof {
        assert(v@.take(v@.len() as int) =~= v@);
    }
    r
}

/// An unsigned 256-bit scalar, held as its 32 big-endian bytes.
#[derive(Debug, PartialEq, Eq, Hash)]
pub struct U256 {
    bytes: Vec<u8>,
}

impl View for U256 {
    type V = nat;

    closed spec fn view(&self) -> nat {
        be_value(self.bytes@)
    }
}

impl Clone for U256 {
    fn clone(&self) -> (r: Self)
        ensures
            r@ == self@,
            r.wf() == self.wf(),
    {
        U256 { bytes: clone_bytes(&self.bytes) }
    }
}

impl U256 {
    /// The value is held in exactly 32 bytes.
    pub closed spec fn wf(self) -> bool {
        self.bytes@.len() == 32
    }

    /// A well-formed value lies below `256^32`.
    pub proof fn lemma_range(self)
        requires
            self.wf(),
        ensures
            self@ < pow256(32),
    {
        lemma_be_value_bound(self.bytes@);
    }

    /// The scalar the given 32 big-endian bytes denote.
    pub fn from_be_bytes(bytes: Vec<u8>) -> (r: Option<U256>)
        ensures
            r.is_some() <==> bytes@.len() == 32,
            r.is_some() ==> r.unwrap().wf() && r.unwrap()@ == be_value(bytes@),
    {
        if bytes.len() == 32 {
            Some(U256 { bytes })
        } else {
            None
        }
    }

    /// The scalar with the given small value.
    pub fn from_u64(x: u64) -> (r: U256)
        ensures
            r.wf(),
            r@ == x as nat,
    {
        let mb = u128_min_be(x as u128);
        proof {
            lemma_pow256_val();
            lemma_be_bytes_len(x as nat, 8);
        }
        let mut bytes: Vec<u8> = Vec::new();
        let pad = 32 - mb.len();
        let mut j: usize = 0;
        while j < pad
            invariant
                j <= pad,
                bytes@ =~= Seq::new(j as nat, |i: int| 0u8),
            decreases pad - j,
        {
            bytes.push(0u8);
            j = j + 1;
            proof {
                assert(bytes@ =~= Seq::new(j as nat, |i: int| 0u8));
            }
        }
        append_bytes(&mut bytes, mb.as_slice());
        proof {
            lemma_be_value_pad(pad as nat, mb@);
            lemma_be_value_of_be_bytes(x as nat);
        }
        U256 { bytes }
    }

    /// Zero.
    pub fn zero() -> (r: U256)
        ensures
            r.wf(),
            r@ == 0,
    {
        U256::from_u64(0)
    }

    /// The big-endian bytes of the value: 32 of them on every value a
    /// constructor of this type has made.
    pub fn to_be_bytes(&self) -> (r: &Vec<u8>)
        ensures
            be_value(r@) == self@,
            self.wf() ==> r@.len() == 32,
    {
        &self.bytes
    }

    /// The position where the minimal big-endian form of the value starts
    /// inside its 32 bytes.
    fn strip_pos(&self) -> (k: usize)
        requires
            self.wf(),
        ensures
            k <= 32,
            be_bytes(self@) == self.bytes@.subrange(k as int, 32),
    {
        let mut k: usize = 0;
        while k < 32 && self.bytes[k] == 0
            invariant
                self.wf(),
                k <= 32,
                forall|j: int| 0 <= j < k ==> self.bytes@[j] == 0,
            decreases 32 - k,
        {
            k = k + 1;
        }
        proof {
            let stripped = self.bytes@.subrange(k as int, 32);
            assert(self.bytes@ =~= Seq::new(k as nat, |i: int| 0u8) + stripped);
            lemma_be_value_pad(k as nat, stripped);
            assert(stripped.len() == 0 || stripped[0] != 0);
            lemma_be_bytes_of_be_value(stripped);
        }
        k
    }

    /// Appends the wire form of the scalar.
    pub fn rlp_append(&self, out: &mut Vec<u8>)
        requires
            self.wf(),
        ensures
            final(out)@ == old(out)@ + spec_uint_enc(self@),
    {
        let k = self.strip_pos();
        let mb = vstd::slice::slice_subrange(self.bytes.as_slice(), k, 32);
        append_str(out, mb);
    }

    /// The number of bytes the wire form of the scalar takes.
    pub fn rlp_len(&self) -> (r: usize)
        requires
            self.wf(),
        ensures
            r == spec_uint_enc(self@).len(),
    {
        let k = self.strip_pos();
        let n = 32 - k;
        if n == 1 && self.bytes[k] < 0x80 {
            1
        } else {
            proof {
                assert(self.bytes@.subrange(k as int, 32).len() == n);
                if n >= 1 {
                    assert(self.bytes@.subrange(k as int, 32)[0] == self.bytes@[k as int]);
                }
            }
            1 + n
        }
    }

    /// Reads a scalar of at most 32 payload bytes at position `i`.
    pub fn rlp_decode(buf: &[u8], i: usize) -> (r: Result<(U256, usize), DecodeError>)
        ensures
            match (r, crate::rlp::spec_dec_uint(buf@, i as int, 32)) {
                (Ok((v, end)), Ok((sv, send))) => v@ == sv && v.wf() && end == send,
                (Err(e1), Err(e2)) => e1 == e2,
                _ => false,
            },
    {
        match dec_str(buf, i) {
            Err(e) => Err(e),
            Ok((p, l)) => {
                if l > 32 {
                    Err(DecodeError::Overflow)
                } else if l > 0 && buf[p] == 0 {
                    Err(DecodeError::LeadingZero)
                } else {
                    let mut bytes: Vec<u8> = Vec::new();
                    let pad = 32 - l;
                    let mut j: usize = 0;
                    while j < pad
                        invariant
                            j <= pad,
                            bytes@ =~= Seq::new(j as nat, |i: int| 0u8),
                        decreases pad - j,
                    {
                        bytes.push(0u8);
                        j = j + 1;
                        proof {
                            assert(bytes@ =~= Seq::new(j as nat, |i: int| 0u8));
                        }
                    }
                    let bn = buf.len();
                    let ghost padded = bytes@;
                    let mut j2: usize = 0;
                    while j2 < l
                        invariant
                            j2 <= l,
                            bn == buf@.len(),
                            p + l <= bn,
                            bytes@ == padded + buf@.subrange(p as int, p + j2),
                        decreases l - j2,
                    {
                        let b = buf[p + j2];
                        bytes.push(b);
                        j2 = j2 + 1;
                        proof {
                            assert(bytes@ =~= padded + buf@.subrange(p as int, p + j2));
                        }
                    }
                    proof {
                        assert(padded + buf@.subrange(p as int, p as int) =~= padded);
                        lemma_be_value_pad(pad as nat, buf@.subrange(p as int, p + l));
                    }
                    Ok((U256 { bytes }, p + l))
                }
            },
        }
    }
}

/// A 20-byte account address.
#[derive(Debug, PartialEq, Eq, Hash)]
pub struct Address {
    bytes: Vec<u8>,
}

impl View for Address {
    type V = Seq<u8>;

    closed spec fn view(&self) -> Seq<u8> {
        self.bytes@
    }
}

impl Clone for Address {
    fn clone(&self) -> (r: Self)
        ensures
            r@ == self@,
    {
        Address { bytes: clone_bytes(&self.bytes) }
    }
}

impl Address {
    /// The address is exactly 20 bytes.
    pub open spec fn wf(self) -> bool {
        self@.len() == 20
    }

    /// The address made of the given 20 bytes.
    pub fn new(bytes: Vec<u8>) -> (r: Option<Address>)
        ensures
            r.is_some() <==> bytes@.len() == 20,
            r.is_some() ==> r.unwrap()@ == bytes@,
    {
        if bytes.len() == 20 {
            Some(Address { bytes })
        } else {
            None
        }
    }

    /// The bytes of the address.
    pub fn as_bytes(&self) -> (r: &Vec<u8>)
        ensures
            r@ == self@,
    {
        &self.bytes
    }
}

/// The recipient of a transaction: a call to an address, or the contract
/// creation marker.
#[derive(Debug, PartialEq, Eq, Hash)]
pub enum TxKind {
    /// The transaction creates a contract.
    Create,
    /// The transaction calls the account at the address.
    Call(Address),
}

/// The mathematical shape of a recipient.
#[verifier::ext_equal]
pub ghost enum KindModel {
    Create,
    Call(Seq<u8>),
}

impl KindModel {
    /// A call's address is exactly 20 bytes.
    pub open spec fn wf(self) -> bool {
        match self {
            KindModel::Create => true,
            KindModel::Call(a) => a.len() == 20,
        }
    }
}

impl View for TxKind {
    type V = KindModel;

    open spec fn view(&self) -> KindModel {
        match self {
            TxKind::Create => KindModel::Create,
            TxKind::Call(a) => KindModel::Call(a@),
        }
    }
}

impl Clone for TxKind {
    fn clone(&self) -> (r: Self)
        ensures
            r@ == self@,
    {
        match self {
            TxKind::Create => TxKind::Create,
            TxKind::Call(a) => TxKind::Call(a.clone()),
        }
    }
}

/// Wire form of a recipient: the empty string for a creation, the 20-byte
/// address string for a call.
pub open spec fn spec_kind_enc(k: KindModel) -> Seq<u8> {
    match k {
        KindModel::Create => spec_str_enc(Seq::empty()),
        KindModel::Call(a) => spec_str_enc(a),
    }
}

/// Reads a recipient at position `i`: an empty string is the creation
/// marker, a 20-byte string is a call, and any other length is refused.
pub open spec fn spec_dec_kind(s: Seq<u8>, i: int) -> Result<(KindModel, int), DecodeError> {
    match spec_dec_str(s, i) {
        Ok((p, l)) => {
            if l == 0 {
                Ok((KindModel::Create, p))
            } else if l == 20 {
                Ok((KindModel::Call(s.subrange(p, p + 20)), p + 20))
            } else {
                Err(DecodeError::UnexpectedLength)
            }
        },
        Err(e) => Err(e),
    }
}

impl TxKind {
    /// A call's address is well formed.
    pub open spec fn wf(self) -> bool {
        self@.wf()
    }

    /// A fixed in-memory footprint contribution: one tag byte and the room
    /// for a 20-byte address.
    pub fn size(&self) -> (r: usize)
        ensures
            r == 21,
    {
        21
    }

    /// Whether the recipient marks a contract creation.
    pub fn is_create(&self) -> (r: bool)
        ensures
            r == (self@ is Create),
    {
        match self {
            TxKind::Create => true,
            TxKind::Call(_) => false,
        }
    }

    /// Appends the wire form of the recipient.
    pub fn rlp_append(&self, out: &mut Vec<u8>)
        requires
            self.wf(),
        ensures
            final(out)@ == old(out)@ + spec_kind_enc(self@),
    {
        match self {
            TxKind::Create => {
                out.push(0x80u8);
                proof {
                    assert(spec_str_enc(Seq::<u8>::empty()) =~= seq![0x80u8]);
                    assert(out@ =~= old(out)@ + spec_kind_enc(self@));
                }
            },
            TxKind::Call(a) => {
                append_str(out, a.as_bytes().as_slice());
            },
        }
    }

    /// The number of bytes the wire form of the recipient takes: one for the
    /// creation marker, twenty-one for a call.
    pub fn rlp_len(&self) -> (r: usize)
        requires
            self.wf(),
        ensures
            r == spec_kind_enc(self@).len(),
    {
        match self {
            TxKind::Create => {
                proof {
                    assert(spec_str_enc(Seq::<u8>::empty()) =~= seq![0x80u8]);
                }
                1
            },
            TxKind::Call(_) => 21,
        }
    }

    /// Reads a recipient at position `i`.
    pub fn rlp_decode(buf: &[u8], i: usize) -> (r: Result<(TxKind, usize), DecodeError>)
        ensures
            match (r, spec_dec_kind(buf@, i as int)) {
                (Ok((v, end)), Ok((sv, send))) => v@ == sv && v.wf() && end == send,
                (Err(e1), Err(e2)) => e1 == e2,
                _ => false,
            },
    {
        match dec_str(buf, i) {
            Err(e) => Err(e),
            Ok((p, l)) => {
                if l == 0 {
                    Ok((TxKind::Create, p))
                } else if l == 20 {
                    let bn = buf.len();
                    let mut bytes: Vec<u8> = Vec::new();
                    let mut j: usize = 0;
                    while j < 20
                        invariant
                            j <= 20,
                            bn == buf@.len(),
                            p + 20 <= bn,
                            bytes@ == buf@.subrange(p as int, p + j),
                        decreases 20 - j,
                    {
                        let b = buf[p + j];
                        bytes.push(b);
                        j = j + 1;
                        proof {
                            assert(bytes@ =~= buf@.subrange(p as int, p + j));
                        }
                    }
                    proof {
                        assert(buf@.subrange(p as int, p as int) =~= Seq::<u8>::empty());
                    }
                    Ok((TxKind::Call(Address { bytes }), p + 20))
                } else {
                    Err(DecodeError::UnexpectedLength)
                }
            },
        }
    }
}

/// A recipient's encoding embedded in a larger byte string is read back as
/// exactly that recipient.
pub proof fn lemma_dec_kind_of_enc(s: Seq<u8>, i: int, k: KindModel)
    requires
        k.wf(),
        0 <= i,
        i + spec_kind_enc(k).len() <= s.len(),
        s.subrange(i, i + spec_kind_enc(k).len() as int) == spec_kind_enc(k),
    ensures
        spec_dec_kind(s, i) == Ok::<(KindModel, int), DecodeError>((
            k,
            i + spec_kind_enc(k).len(),
        )),
{
    lemma_pow256_val();
    match k {
        KindModel::Create => {
            crate::rlp::lemma_dec_str_of_enc(s, i, Seq::empty());
        },
        KindModel::Call(a) => {
            crate::rlp::lemma_dec_str_of_enc(s, i, a);
        },
    }
}

/// Truncation either leaves a successfully read recipient untouched or makes
/// reading it fail.
pub proof fn lemma_dec_kind_prefix(s: Seq<u8>, i: int, kcut: int)
    requires
        0 <= kcut <= s.len(),
        spec_dec_kind(s, i).is_ok(),
    ensures
        ({
            let (v, end) = spec_dec_kind(s, i).unwrap();
            &&& (end <= kcut ==> spec_dec_kind(s.take(kcut), i) == spec_dec_kind(s, i))
            &&& (end > kcut ==> spec_dec_kind(s.take(kcut), i).is_err())
        }),
{
    let (p, l) = spec_dec_str(s, i).unwrap();
    crate::rlp::lemma_dec_str_prefix(s, i, kcut);
    if p + l <= kcut {
        assert(s.take(kcut).subrange(p, p + l) =~= s.subrange(p, p + l));
        if l == 20 {
            assert(s.take(kcut).subrange(p, p + 20) =~= s.subrange(p, p + 20));
        }
    }
}

} // verus!

//! The canonical self-describing variable-length binary encoding used for the
//! transaction's scalar and byte-string fields, together with the lemmas that
//! make it a codec: every value has exactly one wire form, and the decoder
//! accepts exactly that form.

use vstd::prelude::*;

verus! {

/// Failures that can arise while decoding the wire form.
#[derive(Clone, Copy, Debug, PartialEq, Eq)]
pub enum DecodeError {
    /// The buffer ended before the current item was complete.
    InputTooShort,
    /// A scalar, or a long-form length, was encoded with a leading zero byte.
    LeadingZero,
    /// A single byte below 0x80 was wrapped in a needless length prefix.
    NonCanonicalSingleByte,
    /// A long-form length prefix was used for a payload shorter than 56 bytes.
    NonCanonicalSize,
    /// A scalar's payload exceeds its declared width.
    Overflow,
    /// A list header was found where a string item was expected.
    UnexpectedList,
    /// A string item was found where a list header was expected.
    UnexpectedString,
    /// A byte string's length does not fit the field being decoded.
    UnexpectedLength,
    /// The fields of a list did not fill its header's payload length exactly.
    ListLengthMismatch,
}

/// The minimal big-endian byte string of a natural number: empty for zero,
/// otherwise the base-256 digits of `n` with no leading zero.
pub open spec fn be_bytes(n: nat) -> Seq<u8>
    decreases n,
{
    if n == 0 {
        Seq::empty()
    } else {
        be_bytes(n / 256).push((n % 256) as u8)
    }
}

/// The natural number a big-endian byte string denotes.
pub open spec fn be_value(s: Seq<u8>) -> nat
    decreases s.len(),
{
    if s.len() == 0 {
        0
    } else {
        (be_value(s.drop_last()) * 256 + s.last()) as nat
    }
}

/// 256 raised to the power `k`: the number of byte strings of length `k`.
pub open spec fn pow256(k: nat) -> nat
    decreases k,
{
    if k == 0 {
        1
    } else {
        256 * pow256((k - 1) as nat)
    }
}

/// A byte string of length `k` denotes a value below `256^k`.
pub proof fn lemma_be_value_bound(s: Seq<u8>)
    ensures
        be_value(s) < pow256(s.len()),
    decreases s.len(),
{
    if s.len() > 0 {
        lemma_be_value_bound(s.drop_last());
    }
}

/// Reading back the minimal big-endian form of `n` yields `n`.
pub proof fn lemma_be_value_of_be_bytes(n: nat)
    ensures
        be_value(be_bytes(n)) == n,
    decreases n,
{
    if n > 0 {
        lemma_be_value_of_be_bytes(n / 256);
        let s = be_bytes(n);
        assert(s.drop_last() =~= be_bytes(n / 256));
        vstd::arithmetic::div_mod::lemma_fundamental_div_mod(n as int, 256);
    }
}

/// The minimal big-endian form of a positive number starts with a nonzero byte.
pub proof fn lemma_be_bytes_head(n: nat)
    requires
        n > 0,
    ensures
        be_bytes(n).len() > 0,
        be_bytes(n)[0] != 0,
    decreases n,
{
    if n >= 256 {
        assert(n / 256 >= 1) by (nonlinear_arith)
            requires n >= 256;
        lemma_be_bytes_head(n / 256);
    } else {
        assert(n / 256 == 0);
        assert(n % 256 == n);
        assert(be_bytes(0) =~= Seq::<u8>::empty());
        assert(be_bytes(n) =~= Seq::<u8>::empty().push(n as u8));
    }
}

/// A number below `256^k` needs at most `k` bytes.
pub proof fn lemma_be_bytes_len(n: nat, k: nat)
    requires
        n < pow256(k),
    ensures
        be_bytes(n).len() <= k,
    decreases k,
{
    if n > 0 {
        assert(k > 0);
        assert(n / 256 < pow256((k - 1) as nat)) by (nonlinear_arith)
            requires n < 256 * pow256((k - 1) as nat);
        lemma_be_bytes_len(n / 256, (k - 1) as nat);
    }
}

/// A byte string with no leading zero is the minimal form of its value.
pub proof fn lemma_be_bytes_of_be_value(s: Seq<u8>)
    requires
        s.len() == 0 || s[0] != 0,
    ensures
        be_bytes(be_value(s)) =~= s,
    decreases s.len(),
{
    if s.len() == 1 {
        let v = be_value(s);
        assert(s.drop_last() =~= Seq::<u8>::empty());
        assert(be_value(Seq::<u8>::empty()) == 0);
        assert(v == s.last());
        assert(v == s[0]);
        assert(v > 0);
        assert(v / 256 == 0);
        assert(v % 256 == v);
        assert(be_bytes(0) =~= Seq::<u8>::empty());
        assert(be_bytes(v) =~= Seq::<u8>::empty().push(v as u8));
        assert(be_bytes(v) =~= s);
    } else if s.len() > 1 {
        let t = s.drop_last();
        assert(t[0] == s[0]);
        lemma_be_bytes_of_be_value(t);
        let v = be_value(s);
        let a = be_value(t);
        let b = s.last();
        assert(v == a * 256 + b);
        lemma_be_value_bound(t);
        assert(t.len() >= 1);
        if a == 0 {
            // a nonzero head forces a nonzero value in every longer string
            assert(t.len() == be_bytes(a).len());
            assert(false);
        }
        assert(v > 0) by (nonlinear_arith)
            requires v == a * 256 + b, a >= 1, b >= 0;
        assert(v / 256 == a && v % 256 == b) by (nonlinear_arith)
            requires v == a * 256 + b, 0 <= b < 256;
        assert(be_bytes(v) =~= be_bytes(a).push(b as u8));
    }
}

/// Leading zero bytes do not change the value a byte string denotes.
pub proof fn lemma_be_value_head_zero(s: Seq<u8>)
    requires
        s.len() > 0,
        s[0] == 0,
    ensures
        be_value(s) == be_value(s.subrange(1, s.len() as int)),
    decreases s.len(),
{
    if s.len() == 1 {
        assert(s.subrange(1, 1) =~= Seq::<u8>::empty());
        assert(s.drop_last() =~= Seq::<u8>::empty());
    } else {
        let d = s.drop_last();
        assert(d[0] == 0);
        lemma_be_value_head_zero(d);
        assert(d.subrange(1, d.len() as int) =~= s.subrange(1, s.len() as int).drop_last());
    }
}

/// Left-padding with any number of zero bytes keeps the denoted value.
pub proof fn lemma_be_value_pad(z: nat, s: Seq<u8>)
    ensures
        be_value(Seq::new(z, |i: int| 0u8) + s) == be_value(s),
    decreases z,
{
    if z == 0 {
        assert(Seq::new(0, |i: int| 0u8) + s =~= s);
    } else {
        let p = Seq::new(z, |i: int| 0u8) + s;
        assert(p.len() > 0 && p[0] == 0);
        lemma_be_value_head_zero(p);
        assert(p.subrange(1, p.len() as int) =~= Seq::new((z - 1) as nat, |i: int| 0u8) + s);
        lemma_be_value_pad((z - 1) as nat, s);
    }
}

/// Wire form of a byte-string item with the given payload: the payload alone
/// for a single byte below 0x80, a one-byte length prefix for fewer than 56
/// payload bytes, and otherwise a length-of-length prefix followed by the
/// minimal big-endian length.
pub open spec fn spec_str_enc(payload: Seq<u8>) -> Seq<u8> {
    if payload.len() == 1 && payload[0] < 0x80 {
        payload
    } else if payload.len() < 56 {
        seq![(0x80 + payload.len()) as u8] + payload
    } else {
        let lb = be_bytes(payload.len());
        seq![(0xb7 + lb.len()) as u8] + lb + payload
    }
}

/// Wire form of an unsigned scalar: the string item whose payload is the
/// minimal big-endian form of the value; zero becomes the empty string.
pub open spec fn spec_uint_enc(n: nat) -> Seq<u8> {
    spec_str_enc(be_bytes(n))
}

/// Wire form of the header of a list whose items fill `payload_len` bytes.
pub open spec fn spec_list_header(payload_len: nat) -> Seq<u8> {
    if payload_len < 56 {
        seq![(0xc0 + payload_len) as u8]
    } else {
        let lb = be_bytes(payload_len);
        seq![(0xf7 + lb.len()) as u8] + lb
    }
}

/// Reads the header of a string item at position `i`: on success, the
/// position of the payload and the payload's length.
pub open spec fn spec_dec_str(s: Seq<u8>, i: int) -> Result<(int, int), DecodeError> {
    if !(0 <= i < s.len()) {
        Err(DecodeError::InputTooShort)
    } else {
        let b = s[i];
        if b < 0x80 {
            Ok((i, 1))
        } else if b <= 0xb7 {
            let l = b - 0x80;
            if i + 1 + l > s.len() {
                Err(DecodeError::InputTooShort)
            } else if l == 1 && s[i + 1] < 0x80 {
                Err(DecodeError::NonCanonicalSingleByte)
            } else {
                Ok((i + 1, l as int))
            }
        } else if b <= 0xbf {
            let lol = b - 0xb7;
            if i + 1 + lol > s.len() {
                Err(DecodeError::InputTooShort)
            } else if s[i + 1] == 0 {
                Err(DecodeError::LeadingZero)
            } else {
                let l = be_value(s.subrange(i + 1, i + 1 + lol));
                if l < 56 {
                    Err(DecodeError::NonCanonicalSize)
                } else if i + 1 + lol + l > s.len() {
                    Err(DecodeError::InputTooShort)
                } else {
                    Ok((i + 1 + lol, l as int))
                }
            }
        } else {
            Err(DecodeError::UnexpectedList)
        }
    }
}

/// Reads an unsigned scalar of at most `width` payload bytes at position `i`:
/// on success, its value and the position just past it.
pub open spec fn spec_dec_uint(s: Seq<u8>, i: int, width: int) -> Result<(nat, int), DecodeError> {
    match spec_dec_str(s, i) {
        Ok((p, l)) => {
            if l > width {
                Err(DecodeError::Overflow)
            } else if l > 0 && s[p] == 0 {
                Err(DecodeError::LeadingZero)
            } else {
                Ok((be_value(s.subrange(p, p + l)), p + l))
            }
        },
        Err(e) => Err(e),
    }
}

/// Reads a byte-string item at position `i`: on success, its payload and the
/// position just past it.
pub open spec fn spec_dec_bytes(s: Seq<u8>, i: int) -> Result<(Seq<u8>, int), DecodeError> {
    match spec_dec_str(s, i) {
        Ok((p, l)) => Ok((s.subrange(p, p + l), p + l)),
        Err(e) => Err(e),
    }
}

/// Reads the header of a list at position `i`: on success, the position of
/// the list's payload and the payload's length.
pub open spec fn spec_dec_list_header(s: Seq<u8>, i: int) -> Result<(int, int), DecodeError> {
    if !(0 <= i < s.len()) {
        Err(DecodeError::InputTooShort)
    } else {
        let b = s[i];
        if b < 0xc0 {
            Err(DecodeError::UnexpectedString)
        } else if b <= 0xf7 {
            let l = b - 0xc0;
            if i + 1 + l > s.len() {
                Err(DecodeError::InputTooShort)
            } else {
                Ok((i + 1, l as int))
            }
        } else {
            let lol = b - 0xf7;
            if i + 1 + lol > s.len() {
                Err(DecodeError::InputTooShort)
            } else if s[i + 1] == 0 {
                Err(DecodeError::LeadingZero)
            } else {
                let l = be_value(s.subrange(i + 1, i + 1 + lol));
                if l < 56 {
                    Err(DecodeError::NonCanonicalSize)
                } else if i + 1 + lol + l > s.len() {
                    Err(DecodeError::InputTooShort)
                } else {
                    Ok((i + 1 + lol, l as int))
                }
            }
        }
    }
}

/// Splitting a known subrange of `s` at an interior point splits it into the
/// two byte strings it is the concatenation of.
pub proof fn lemma_subrange_concat(s: Seq<u8>, i: int, j: int, a: Seq<u8>, b: Seq<u8>)
    requires
        0 <= i <= j <= s.len(),
        s.subrange(i, j) == a + b,
    ensures
        j - i == a.len() + b.len(),
        s.subrange(i, i + a.len() as int) == a,
        s.subrange(i + a.len(), j) == b,
{
    assert((a + b).len() == a.len() + b.len());
    assert forall|x: int| 0 <= x < a.len() implies s.subrange(i, i + a.len() as int)[x] == a[x] by {
        assert(s.subrange(i, j)[x] == s[i + x]);
        assert(s.subrange(i, i + a.len() as int)[x] == s[i + x]);
        assert((a + b)[x] == a[x]);
    }
    assert(s.subrange(i, i + a.len() as int) =~= a);
    assert forall|x: int| 0 <= x < b.len() implies s.subrange(i + a.len(), j)[x] == b[x] by {
        assert(s.subrange(i, j)[a.len() + x] == s[i + (a.len() + x)]);
        assert(s.subrange(i + a.len(), j)[x] == s[i + a.len() + x]);
        assert((a + b)[a.len() + x] == b[x]);
    }
    assert(s.subrange(i + a.len(), j) =~= b);
}

/// One position of a known subrange of `s`, read back in `s` itself.
pub proof fn lemma_subrange_index(s: Seq<u8>, i: int, j: int, e: Seq<u8>, x: int)
    requires
        0 <= i <= j <= s.len(),
        s.subrange(i, j) == e,
        0 <= x < j - i,
    ensures
        j - i == e.len(),
        s[i + x] == e[x],
{
    assert(s.subrange(i, j)[x] == s[i + x]);
}

/// A string item's encoding embedded in a larger byte string is read back as
/// exactly its payload, and nothing past the encoding is touched.
pub proof fn lemma_dec_str_of_enc(s: Seq<u8>, i: int, payload: Seq<u8>)
    requires
        payload.len() < pow256(8),
        0 <= i,
        i + spec_str_enc(payload).len() <= s.len(),
        s.subrange(i, i + spec_str_enc(payload).len() as int) == spec_str_enc(payload),
    ensures
        ({
            let e = spec_str_enc(payload);
            let p = i + e.len() - payload.len();
            &&& spec_dec_str(s, i) == Ok::<(int, int), DecodeError>((p, payload.len() as int))
            &&& s.subrange(p, i + e.len() as int) == payload
        }),
{
    let e = spec_str_enc(payload);
    let p = i + e.len() - payload.len();
    let j = i + e.len() as int;
    if payload.len() == 1 && payload[0] < 0x80 {
        lemma_subrange_index(s, i, j, e, 0);
        assert(s[i] == payload[0]);
        assert(s.subrange(p, j) =~= payload);
    } else if payload.len() < 56 {
        let l = payload.len() as int;
        lemma_subrange_index(s, i, j, e, 0);
        assert(s[i] == 0x80 + l);
        if l == 1 {
            lemma_subrange_index(s, i, j, e, 1);
            assert(s[i + 1] == payload[0]);
            assert(payload[0] >= 0x80);
        }
        assert forall|x: int| 0 <= x < l implies s.subrange(p, j)[x] == payload[x] by {
            lemma_subrange_index(s, i, j, e, 1 + x);
            assert(e[1 + x] == payload[x]);
            assert(s.subrange(p, j)[x] == s[p + x]);
            assert(s[i + (1 + x)] == s[p + x]);
        }
        assert(s.subrange(p, j) =~= payload);
    } else {
        let l = payload.len() as int;
        let lb = be_bytes(payload.len());
        lemma_be_bytes_head(payload.len());
        lemma_be_bytes_len(payload.len(), 8);
        let lol = lb.len() as int;
        lemma_subrange_index(s, i, j, e, 0);
        assert(e[0] == 0xb7 + lol);
        assert(s[i] == 0xb7 + lol);
        assert(0xb8 <= s[i] <= 0xbf);
        assert forall|x: int| 0 <= x < lol implies s.subrange(i + 1, i + 1 + lol)[x] == lb[x] by {
            lemma_subrange_index(s, i, j, e, 1 + x);
            assert(e[1 + x] == lb[x]);
            assert(s.subrange(i + 1, i + 1 + lol)[x] == s[i + 1 + x]);
            assert(s[i + (1 + x)] == s[i + 1 + x]);
        }
        assert(s.subrange(i + 1, i + 1 + lol) =~= lb);
        assert(s[i + 1] == lb[0]);
        lemma_be_value_of_be_bytes(payload.len());
        assert(be_value(s.subrange(i + 1, i + 1 + lol)) == payload.len());
        assert forall|x: int| 0 <= x < l implies s.subrange(p, j)[x] == payload[x] by {
            lemma_subrange_index(s, i, j, e, 1 + lol + x);
            assert(e[1 + lol + x] == payload[x]);
            assert(s.subrange(p, j)[x] == s[p + x]);
            assert(s[i + (1 + lol + x)] == s[p + x]);
        }
        assert(s.subrange(p, j) =~= payload);
    }
}

/// Truncating a byte string either leaves a successfully read string item
/// untouched, when the cut falls at or past the item's end, or makes reading
/// it fail.
pub proof fn lemma_dec_str_prefix(s: Seq<u8>, i: int, k: int)
    requires
        0 <= k <= s.len(),
        spec_dec_str(s, i).is_ok(),
    ensures
        ({
            let (p, l) = spec_dec_str(s, i).unwrap();
            &&& (p + l <= k ==> spec_dec_str(s.take(k), i) == spec_dec_str(s, i))
            &&& (p + l > k ==> spec_dec_str(s.take(k), i).is_err())
        }),
{
    let s2 = s.take(k);
    assert(s2.len() == k);
    assert forall|x: int| 0 <= x < k implies s2[x] == s[x] by {}
    let b = s[i];
    let (p, l) = spec_dec_str(s, i).unwrap();
    if b < 0x80 {
    } else if b <= 0xb7 {
        if p + l <= k {
            assert(i < k);
            if l == 1 {
                assert(s2[i + 1] == s[i + 1]);
            }
        }
    } else {
        let lol = b - 0xb7;
        if i + 1 + lol <= k {
            assert(s2.subrange(i + 1, i + 1 + lol) =~= s.subrange(i + 1, i + 1 + lol));
        }
    }
}

/// The concrete values of the byte-count bounds the scalar widths use.
pub proof fn lemma_pow256_val()
    ensures
        pow256(8) == 0x1_0000_0000_0000_0000,
        pow256(16) == 0x1_0000_0000_0000_0000_0000_0000_0000_0000,
    decreases 0int,
{
    reveal_with_fuel(pow256, 17);
}

/// A scalar's encoding embedded in a larger byte string is read back as
/// exactly that scalar, provided the declared width can hold it.
pub proof fn lemma_dec_uint_of_enc(s: Seq<u8>, i: int, n: nat, width: int)
    requires
        0 <= i,
        0 <= width <= 32,
        n < pow256(width as nat),
        i + spec_uint_enc(n).len() <= s.len(),
        s.subrange(i, i + spec_uint_enc(n).len() as int) == spec_uint_enc(n),
    ensures
        spec_dec_uint(s, i, width) == Ok::<(nat, int), DecodeError>((
            n,
            i + spec_uint_enc(n).len(),
        )),
{
    let payload = be_bytes(n);
    lemma_be_bytes_len(n, width as nat);
    lemma_pow256_val();
    assert(payload.len() < pow256(8));
    lemma_dec_str_of_enc(s, i, payload);
    let e = spec_str_enc(payload);
    let p = i + e.len() - payload.len();
    let l = payload.len() as int;
    if l > 0 {
        assert(n != 0) by {
            assert(be_bytes(0) =~= Seq::<u8>::empty());
        }
        lemma_be_bytes_head(n);
        lemma_subrange_index(s, p, p + l, payload, 0);
        assert(s[p + 0] == payload[0]);
        assert(s[p] != 0);
    }
    lemma_be_value_of_be_bytes(n);
    assert(be_value(s.subrange(p, p + l)) == n);
}

/// A byte-string item's encoding embedded in a larger byte string is read
/// back as exactly its payload.
pub proof fn lemma_dec_bytes_of_enc(s: Seq<u8>, i: int, payload: Seq<u8>)
    requires
        payload.len() < pow256(8),
        0 <= i,
        i + spec_str_enc(payload).len() <= s.len(),
        s.subrange(i, i + spec_str_enc(payload).len() as int) == spec_str_enc(payload),
    ensures
        spec_dec_bytes(s, i) == Ok::<(Seq<u8>, int), DecodeError>((
            payload,
            i + spec_str_enc(payload).len(),
        )),
{
    lemma_dec_str_of_enc(s, i, payload);
}

/// Truncation either leaves a successfully read scalar untouched or makes
/// reading it fail.
pub proof fn lemma_dec_uint_prefix(s: Seq<u8>, i: int, width: int, k: int)
    requires
        0 <= k <= s.len(),
        spec_dec_uint(s, i, width).is_ok(),
    ensures
        ({
            let (n, end) = spec_dec_uint(s, i, width).unwrap();
            &&& (end <= k ==> spec_dec_uint(s.take(k), i, width) == spec_dec_uint(s, i, width))
            &&& (end > k ==> spec_dec_uint(s.take(k), i, width).is_err())
        }),
{
    let (p, l) = spec_dec_str(s, i).unwrap();
    lemma_dec_str_prefix(s, i, k);
    if p + l <= k {
        assert(s.take(k).subrange(p, p + l) =~= s.subrange(p, p + l));
        if l > 0 {
            assert(s.take(k)[p] == s[p]);
        }
    }
}

/// Truncation either leaves a successfully read byte-string item untouched or
/// makes reading it fail.
pub proof fn lemma_dec_bytes_prefix(s: Seq<u8>, i: int, k: int)
    requires
        0 <= k <= s.len(),
        spec_dec_bytes(s, i).is_ok(),
    ensures
        ({
            let (b, end) = spec_dec_bytes(s, i).unwrap();
            &&& (end <= k ==> spec_dec_bytes(s.take(k), i) == spec_dec_bytes(s, i))
            &&& (end > k ==> spec_dec_bytes(s.take(k), i).is_err())
        }),
{
    let (p, l) = spec_dec_str(s, i).unwrap();
    lemma_dec_str_prefix(s, i, k);
    if p + l <= k {
        assert(s.take(k).subrange(p, p + l) =~= s.subrange(p, p + l));
    }
}

/// A list header embedded in a larger byte string, with its whole payload
/// present, is read back as exactly its payload length.
pub proof fn lemma_dec_list_header_of_enc(s: Seq<u8>, payload_len: nat)
    requires
        payload_len < pow256(8),
        spec_list_header(payload_len).len() + payload_len <= s.len(),
        s.subrange(0, spec_list_header(payload_len).len() as int) == spec_list_header(payload_len),
    ensures
        spec_dec_list_header(s, 0) == Ok::<(int, int), DecodeError>((
            spec_list_header(payload_len).len() as int,
            payload_len as int,
        )),
{
    let e = spec_list_header(payload_len);
    if payload_len < 56 {
        lemma_subrange_index(s, 0, e.len() as int, e, 0);
        assert(s[0] == 0xc0 + payload_len);
    } else {
        let lb = be_bytes(payload_len);
        lemma_be_bytes_head(payload_len);
        lemma_be_bytes_len(payload_len, 8);
        let lol = lb.len() as int;
        lemma_subrange_index(s, 0, e.len() as int, e, 0);
        assert(s[0] == 0xf7 + lol);
        assert forall|x: int| 0 <= x < lol implies s.subrange(1, 1 + lol)[x] == lb[x] by {
            lemma_subrange_index(s, 0, e.len() as int, e, 1 + x);
            assert(e[1 + x] == lb[x]);
            assert(s.subrange(1, 1 + lol)[x] == s[1 + x]);
            assert(s[0 + (1 + x)] == s[1 + x]);
        }
        assert(s.subrange(1, 1 + lol) =~= lb);
        assert(s[1] == lb[0]);
        lemma_be_value_of_be_bytes(payload_len);
        assert(be_value(s.subrange(1, 1 + lol)) == payload_len);
    }
}

/// Cutting a byte string anywhere inside a list's header or payload makes
/// reading the header fail: the header demands its whole payload.
pub proof fn lemma_dec_list_header_prefix(s: Seq<u8>, k: int)
    requires
        0 <= k <= s.len(),
        spec_dec_list_header(s, 0).is_ok(),
        ({
            let (p, l) = spec_dec_list_header(s, 0).unwrap();
            p + l > k
        }),
    ensures
        spec_dec_list_header(s.take(k), 0).is_err(),
{
    let s2 = s.take(k);
    let b = s[0];
    let (p, l) = spec_dec_list_header(s, 0).unwrap();
    if k > 0 {
        assert(s2[0] == b);
        if b > 0xf7 {
            let lol = b - 0xf7;
            if 1 + lol <= k {
                assert(s2.subrange(1, 1 + lol) =~= s.subrange(1, 1 + lol));
            }
        }
    }
}

/// The minimal big-endian form of a scalar, as bytes.
pub fn u128_min_be(x: u128) -> (r: Vec<u8>)
    ensures
        r@ == be_bytes(x as nat),
{
    let mut rev: Vec<u8> = Vec::new();
    let mut v: u128 = x;
    proof {
        assert(rev@.reverse() =~= Seq::<u8>::empty());
        assert(be_bytes(v as nat) + Seq::<u8>::empty() =~= be_bytes(v as nat));
    }
    while v > 0
        invariant
            be_bytes(x as nat) == be_bytes(v as nat) + rev@.reverse(),
        decreases v,
    {
        let ghost prev_rev = rev@;
        let ghost pv = v as nat;
        let b: u8 = (v % 256) as u8;
        rev.push(b);
        v = v / 256;
        proof {
            assert(v as nat == pv / 256);
            assert(b as nat == pv % 256);
            assert(be_bytes(pv) == be_bytes(pv / 256).push((pv % 256) as u8));
            assert(rev@ == prev_rev.push(b));
            assert(rev@.reverse() =~= seq![b] + prev_rev.reverse());
            assert(be_bytes(pv / 256).push(b) + prev_rev.reverse() =~= be_bytes(pv / 256) + (
            seq![b] + prev_rev.reverse()));
        }
    }
    proof {
        assert(be_bytes(0) =~= Seq::<u8>::empty());
        assert(Seq::<u8>::empty() + rev@.reverse() =~= rev@.reverse());
    }
    let n = rev.len();
    let mut out: Vec<u8> = Vec::new();
    let mut idx: usize = 0;
    while idx < n
        invariant
            idx <= n,
            n == rev.len(),
            out@.len() == idx,
            forall|j: int| 0 <= j < idx ==> out@[j] == rev@[n - 1 - j],
        decreases n - idx,
    {
        let b = rev[n - 1 - idx];
        out.push(b);
        idx = idx + 1;
    }
    proof {
        assert(out@ =~= rev@.reverse());
    }
    out
}

/// Appends a byte slice to the output buffer.
pub fn append_bytes(out: &mut Vec<u8>, s: &[u8])
    ensures
        final(out)@ == old(out)@ + s@,
{
    let mut j: usize = 0;
    while j < s.len()
        invariant
            j <= s@.len(),
            out@ == old(out)@ + s@.take(j as int),
        decreases s@.len() - j,
    {
        let ghost prev = out@;
        let b = s[j];
        out.push(b);
        j = j + 1;
        proof {
            assert(out@ =~= old(out)@ + s@.take(j as int));
        }
    }
    proof {
        assert(s@.take(s@.len() as int) =~= s@);
    }
}

/// Raising to a larger power never shrinks the bound.
pub proof fn lemma_pow256_mono(a: nat, b: nat)
    requires
        a <= b,
    ensures
        pow256(a) <= pow256(b),
    decreases b,
{
    if a < b {
        lemma_pow256_mono(a, (b - 1) as nat);
        assert(pow256(b) == 256 * pow256((b - 1) as nat));
    }
}

/// The values of the small powers the exec decoders bound their loops with.
pub proof fn lemma_pow256_small()
    ensures
        pow256(7) == 0x100_0000_0000_0000,
        pow256(15) == 0x100_0000_0000_0000_0000_0000_0000_0000,
{
    reveal_with_fuel(pow256, 16);
}

/// Appends the wire form of a byte-string item with the given payload.
pub fn append_str(out: &mut Vec<u8>, payload: &[u8])
    ensures
        final(out)@ == old(out)@ + spec_str_enc(payload@),
{
    let n = payload.len();
    proof {
        lemma_pow256_val();
    }
    if n == 1 && payload[0] < 0x80 {
        out.push(payload[0]);
        proof {
            assert(out@ =~= old(out)@ + spec_str_enc(payload@));
        }
    } else if n < 56 {
        let h: u8 = 0x80 + (n as u8);
        out.push(h);
        append_bytes(out, payload);
        proof {
            assert((old(out)@.push(h)) + payload@ =~= old(out)@ + spec_str_enc(payload@));
        }
    } else {
        let lb = u128_min_be(n as u128);
        proof {
            lemma_be_bytes_len(n as nat, 8);
        }
        let h: u8 = 0xb7 + (lb.len() as u8);
        out.push(h);
        append_bytes(out, lb.as_slice());
        append_bytes(out, payload);
        proof {
            assert(((old(out)@.push(h)) + lb@) + payload@ =~= old(out)@ + spec_str_enc(
            payload@));
        }
    }
}

/// Appends the wire form of an unsigned scalar.
pub fn append_uint(out: &mut Vec<u8>, x: u128)
    ensures
        final(out)@ == old(out)@ + spec_uint_enc(x as nat),
{
    let mb = u128_min_be(x);
    append_str(out, mb.as_slice());
}

/// Appends the header of a list whose items fill `payload_len` bytes.
pub fn append_list_header(out: &mut Vec<u8>, payload_len: usize)
    ensures
        final(out)@ == old(out)@ + spec_list_header(payload_len as nat),
{
    proof {
        lemma_pow256_val();
    }
    if payload_len < 56 {
        let h: u8 = 0xc0 + (payload_len as u8);
        out.push(h);
        proof {
            assert(out@ =~= old(out)@ + spec_list_header(payload_len as nat));
        }
    } else {
        let lb = u128_min_be(payload_len as u128);
        proof {
            lemma_be_bytes_len(payload_len as nat, 8);
        }
        let h: u8 = 0xf7 + (lb.len() as u8);
        out.push(h);
        append_bytes(out, lb.as_slice());
        proof {
            assert((old(out)@.push(h)) + lb@ =~= old(out)@ + spec_list_header(
            payload_len as nat));
        }
    }
}

/// The number of bytes the wire form of a scalar takes.
pub fn uint_enc_len(x: u128) -> (r: usize)
    ensures
        r == spec_uint_enc(x as nat).len(),
{
    let mb = u128_min_be(x);
    proof {
        lemma_pow256_val();
        lemma_be_bytes_len(x as nat, 16);
    }
    if mb.len() == 1 && mb[0] < 0x80 {
        1
    } else {
        1 + mb.len()
    }
}

/// The number of bytes the wire form of a byte-string item takes.
pub fn str_enc_len(payload: &[u8]) -> (r: usize)
    requires
        spec_str_enc(payload@).len() <= usize::MAX,
    ensures
        r == spec_str_enc(payload@).len(),
{
    let n = payload.len();
    if n == 1 && payload[0] < 0x80 {
        1
    } else if n < 56 {
        1 + n
    } else {
        let lb = u128_min_be(n as u128);
        proof {
            lemma_pow256_val();
            lemma_be_bytes_len(n as nat, 8);
        }
        1 + lb.len() + n
    }
}

/// The number of bytes the header of a list with `payload_len` bytes of
/// items takes.
pub fn list_header_len(payload_len: usize) -> (r: usize)
    ensures
        r == spec_list_header(payload_len as nat).len(),
{
    if payload_len < 56 {
        1
    } else {
        let lb = u128_min_be(payload_len as u128);
        proof {
            lemma_pow256_val();
            lemma_be_bytes_len(payload_len as nat, 8);
        }
        1 + lb.len()
    }
}

/// Reads `l` big-endian bytes at position `p` as one scalar.
fn read_be(buf: &[u8], p: usize, l: usize) -> (r: u128)
    requires
        p + l <= buf@.len(),
        l <= 16,
    ensures
        r as nat == be_value(buf@.subrange(p as int, p + l)),
{
    let bn = buf.len();
    let mut v: u128 = 0;
    let mut j: usize = 0;
    proof {
        assert(buf@.subrange(p as int, p as int) =~= Seq::<u8>::empty());
    }
    while j < l
        invariant
            j <= l,
            l <= 16,
            bn == buf@.len(),
            p + l <= bn,
            v as nat == be_value(buf@.subrange(p as int, p + j)),
        decreases l - j,
    {
        proof {
            lemma_be_value_bound(buf@.subrange(p as int, p + j));
            lemma_pow256_small();
            lemma_pow256_val();
            lemma_pow256_mono(j as nat, 15);
            assert(buf@.subrange(p as int, p + j + 1).drop_last() =~= buf@.subrange(
                p as int,
                p + j,
            ));
            assert(buf@.subrange(p as int, p + j + 1).last() == buf@[p + j]);
        }
        let b = buf[p + j];
        v = v * 256 + (b as u128);
        j = j + 1;
    }
    v
}

/// Reads the header of a string item at position `i`.
pub fn dec_str(buf: &[u8], i: usize) -> (r: Result<(usize, usize), DecodeError>)
    ensures
        match (r, spec_dec_str(buf@, i as int)) {
            (Ok((p, l)), Ok((sp, sl))) => p == sp && l == sl && p + l <= buf@.len(),
            (Err(e1), Err(e2)) => e1 == e2,
            _ => false,
        },
{
    if i >= buf.len() {
        return Err(DecodeError::InputTooShort);
    }
    let b = buf[i];
    if b < 0x80 {
        Ok((i, 1))
    } else if b <= 0xb7 {
        let l = (b - 0x80) as usize;
        let rem = buf.len() - (i + 1);
        if l > rem {
            Err(DecodeError::InputTooShort)
        } else if l == 1 && buf[i + 1] < 0x80 {
            Err(DecodeError::NonCanonicalSingleByte)
        } else {
            Ok((i + 1, l))
        }
    } else if b <= 0xbf {
        let lol = (b - 0xb7) as usize;
        let rem = buf.len() - (i + 1);
        if lol > rem {
            Err(DecodeError::InputTooShort)
        } else if buf[i + 1] == 0 {
            Err(DecodeError::LeadingZero)
        } else {
            let l128 = read_be(buf, i + 1, lol);
            proof {
                lemma_be_value_bound(buf@.subrange(i + 1, i + 1 + lol));
                lemma_pow256_val();
                lemma_pow256_mono(lol as nat, 8);
            }
            if l128 < 56 {
                Err(DecodeError::NonCanonicalSize)
            } else {
                let rem2 = buf.len() - (i + 1 + lol);
                if l128 > rem2 as u128 {
                    Err(DecodeError::InputTooShort)
                } else {
                    Ok((i + 1 + lol, l128 as usize))
                }
            }
        }
    } else {
        Err(DecodeError::UnexpectedList)
    }
}

/// Reads a scalar of at most eight payload bytes at position `i`.
pub fn dec_u64(buf: &[u8], i: usize) -> (r: Result<(u64, usize), DecodeError>)
    ensures
        match (r, spec_dec_uint(buf@, i as int, 8)) {
            (Ok((v, end)), Ok((sv, send))) => v as nat == sv && end == send,
            (Err(e1), Err(e2)) => e1 == e2,
            _ => false,
        },
{
    match dec_str(buf, i) {
        Err(e) => Err(e),
        Ok((p, l)) => {
            if l > 8 {
                Err(DecodeError::Overflow)
            } else if l > 0 && buf[p] == 0 {
                Err(DecodeError::LeadingZero)
            } else {
                let v = read_be(buf, p, l);
                proof {
                    lemma_be_value_bound(buf@.subrange(p as int, p + l));
                    lemma_pow256_val();
                    lemma_pow256_mono(l as nat, 8);
                }
                Ok(((v as u64), p + l))
            }
        },
    }
}

/// Reads a scalar of at most sixteen payload bytes at position `i`.
pub fn dec_u128(buf: &[u8], i: usize) -> (r: Result<(u128, usize), DecodeError>)
    ensures
        match (r, spec_dec_uint(buf@, i as int, 16)) {
            (Ok((v, end)), Ok((sv, send))) => v as nat == sv && end == send,
            (Err(e1), Err(e2)) => e1 == e2,
            _ => false,
        },
{
    match dec_str(buf, i) {
        Err(e) => Err(e),
        Ok((p, l)) => {
            if l > 16 {
                Err(DecodeError::Overflow)
            } else if l > 0 && buf[p] == 0 {
                Err(DecodeError::LeadingZero)
            } else {
                let v = read_be(buf, p, l);
                Ok((v, p + l))
            }
        },
    }
}

/// Reads a byte-string item at position `i` and takes ownership of its
/// payload.
pub fn dec_bytes(buf: &[u8], i: usize) -> (r: Result<(Vec<u8>, usize), DecodeError>)
    ensures
        match (r, spec_dec_bytes(buf@, i as int)) {
            (Ok((v, end)), Ok((sv, send))) => v@ == sv && end == send,
            (Err(e1), Err(e2)) => e1 == e2,
            _ => false,
        },
{
    match dec_str(buf, i) {
        Err(e) => Err(e),
        Ok((p, l)) => {
            let bn = buf.len();
            let mut v: Vec<u8> = Vec::new();
            let mut j: usize = 0;
            while j < l
                invariant
                    j <= l,
                    bn == buf@.len(),
                    p + l <= bn,
                    v@ == buf@.subrange(p as int, p + j),
                decreases l - j,
            {
                let b = buf[p + j];
                v.push(b);
                j = j + 1;
                proof {
                    assert(v@ =~= buf@.subrange(p as int, p + j));
                }
            }
            proof {
                assert(buf@.subrange(p as int, p as int) =~= Seq::<u8>::empty());
            }
            Ok((v, p + l))
        },
    }
}

/// Reads the header of a list at position `i`.
pub fn dec_list_header(buf: &[u8], i: usize) -> (r: Result<(usize, usize), DecodeError>)
    ensures
        match (r, spec_dec_list_header(buf@, i as int)) {
            (Ok((p, l)), Ok((sp, sl))) => p == sp && l == sl && p + l <= buf@.len(),
            (Err(e1), Err(e2)) => e1 == e2,
            _ => false,
        },
{
    if i >= buf.len() {
        return Err(DecodeError::InputTooShort);
    }
    let b = buf[i];
    if b < 0xc0 {
        Err(DecodeError::UnexpectedString)
    } else if b <= 0xf7 {
        let l = (b - 0xc0) as usize;
        let rem = buf.len() - (i + 1);
        if l > rem {
            Err(DecodeError::InputTooShort)
        } else {
            Ok((i + 1, l))
        }
    } else {
        let lol = (b - 0xf7) as usize;
        let rem = buf.len() - (i + 1);
        if lol > rem {
            Err(DecodeError::InputTooShort)
        } else if buf[i + 1] == 0 {
            Err(DecodeError::LeadingZero)
        } else {
            let l128 = read_be(buf, i + 1, lol);
            proof {
                lemma_be_value_bound(buf@.subrange(i + 1, i + 1 + lol));
                lemma_pow256_val();
                lemma_pow256_mono(lol as nat, 8);
            }
            if l128 < 56 {
                Err(DecodeError::NonCanonicalSize)
            } else {
                let rem2 = buf.len() - (i + 1 + lol);
                if l128 > rem2 as u128 {
                    Err(DecodeError::InputTooShort)
                } else {
                    Ok((i + 1 + lol, l128 as usize))
                }
            }
        }
    }
}

} // verus!

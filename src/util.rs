//! Hashing, text decoding and currency conversion.
use crate::constants::CKB_HASH_DIGEST;
use blake2b_ref::Blake2bBuilder;
use vstd::prelude::*;
use vstd::utf8::decode_utf8;
use vstd::utf8::valid_utf8;

verus! {

/// The 32-byte digest of `data`.
pub uninterp spec fn ckb_hash(data: Seq<u8>) -> Seq<u8>;

/// Relies on blake2b_ref's `Blake2bBuilder` (32-byte output, personalization
/// `ckb-default-hash`), `update` and `finalize`: the digest depends on the
/// data alone.
#[verifier::external_body]
pub fn blake2b_256(s: &[u8]) -> (r: [u8; 32])
    ensures
        r@ == ckb_hash(s@),
{
    let mut result = [0u8; CKB_HASH_DIGEST];
    let mut blake2b = Blake2bBuilder::new(CKB_HASH_DIGEST).personal(b"ckb-default-hash").build();
    blake2b.update(s);
    blake2b.finalize(&mut result);
    result
}

/// Relies on `String::from_utf8`: it succeeds exactly on well-formed UTF-8,
/// with the characters the bytes encode.
#[verifier::external_body]
pub(crate) fn string_from_utf8(b: Vec<u8>) -> (r: Option<String>)
    ensures
        r is Some == valid_utf8(b@),
        r matches Some(s) ==> s@ == decode_utf8(b@),
{
    String::from_utf8(b).ok()
}

/// The segments joined in order.
pub open spec fn concat(segs: Seq<Seq<u8>>) -> Seq<u8>
    decreases segs.len(),
{
    if segs.len() == 0 {
        Seq::empty()
    } else {
        concat(segs.drop_last()) + segs.last()
    }
}

/// Joins the byte segments of an account and reads them as text; `None`
/// when they are not UTF-8.
pub fn combine_acocunt_chars(account_chars: &Vec<Vec<u8>>) -> (r: Option<String>)
    ensures
        r is Some == valid_utf8(concat(crate::codec::seqs_of(account_chars@))),
        r matches Some(s) ==> s@ == decode_utf8(concat(crate::codec::seqs_of(account_chars@))),
{
    let ghost segs = crate::codec::seqs_of(account_chars@);
    let mut ret: Vec<u8> = Vec::new();
    let mut i: usize = 0;
    while i < account_chars.len()
        invariant
            0 <= i <= account_chars@.len(),
            segs == crate::codec::seqs_of(account_chars@),
            ret@ == concat(segs.subrange(0, i as int)),
        decreases account_chars@.len() - i,
    {
        let seg = &account_chars[i];
        let ghost before = ret@;
        let mut k: usize = 0;
        while k < seg.len()
            invariant
                0 <= k <= seg@.len(),
                ret@ == before + seg@.subrange(0, k as int),
            decreases seg@.len() - k,
        {
            ret.push(seg[k]);
            k = k + 1;
            assert(ret@ =~= before + seg@.subrange(0, k as int));
        }
        assert(segs.subrange(0, i + 1).drop_last() =~= segs.subrange(0, i as int));
        assert(seg@.subrange(0, k as int) =~= seg@);
        assert(segs[i as int] == seg@);
        i = i + 1;
    }
    assert(segs.subrange(0, i as int) =~= segs);
    string_from_utf8(ret)
}

/// The settlement amount for a reference price `usd` at exchange `quote`:
/// multiply first while `usd < quote`, divide first otherwise.
pub open spec fn convert(usd: int, quote: int) -> int {
    if usd < quote {
        usd * 100_000_000 / quote
    } else {
        usd / quote * 100_000_000
    }
}

/// Converts a reference price into settlement units.
pub fn usd_to_ckb(usd: u64, quote: u64) -> (r: u64)
    requires
        quote > 0,
        convert(usd as int, quote as int) <= u64::MAX,
    ensures
        r == convert(usd as int, quote as int),
{
    let total: u64;
    if usd < quote {
        total = ((usd as u128) * 100_000_000 / (quote as u128)) as u64;
    } else {
        total = usd / quote * 100_000_000;
    }
    total
}

/// `convert`, for any reference price that fits in `u128`, saturated at
/// `u128::MAX`.
pub fn usd_to_ckb_saturating(usd: u128, quote: u64) -> (r: u128)
    requires
        quote > 0,
    ensures
        r == if convert(usd as int, quote as int) <= u128::MAX {
            convert(usd as int, quote as int)
        } else {
            u128::MAX as int
        },
{
    if usd < quote as u128 {
        usd * 100_000_000 / (quote as u128)
    } else {
        let q = usd / (quote as u128);
        if q > u128::MAX / 100_000_000 {
            assert(q * 100_000_000 > u128::MAX) by (nonlinear_arith)
                requires
                    q > u128::MAX / 100_000_000,
            ;
            u128::MAX
        } else {
            assert(q * 100_000_000 <= u128::MAX) by (nonlinear_arith)
                requires
                    q <= u128::MAX / 100_000_000,
            ;
            q * 100_000_000
        }
    }
}

} // verus!

//! Decoding of the molecule layouts this library reads: the fee table
//! (`PriceConfigList`) and the sub-account record (`SubAccount`).
//!
//! Molecule layouts used here:
//! - a dynamic vector (and a table) starts with its total size and one
//!   offset per item, all little-endian `u32`; an item runs from its offset
//!   to the next one (the last to the end);
//! - a table is a dynamic vector with a fixed number of fields;
//! - `Bytes` is a `u32` count followed by that many bytes;
//! - fixed-width values (`Uint8`, `Uint32`, `Uint64`, `Byte32`, `AccountId`)
//!   are exactly their width.
use vstd::prelude::*;
use vstd::slice::slice_subrange;
use vstd::slice::slice_to_vec;

verus! {

/// Little-endian value of the four bytes of `s` from `at`.
pub open spec fn le_u32(s: Seq<u8>, at: int) -> int {
    s[at] as int + s[at + 1] as int * 0x100 + s[at + 2] as int * 0x1_0000 + s[at + 3] as int
        * 0x100_0000
}

/// Little-endian value of the eight bytes of `b`.
pub open spec fn le_u64(b: Seq<u8>) -> int {
    b[0] as int + b[1] as int * 0x100 + b[2] as int * 0x1_0000 + b[3] as int * 0x100_0000
        + b[4] as int * 0x1_0000_0000 + b[5] as int * 0x100_0000_0000 + b[6] as int
        * 0x1_0000_0000_0000 + b[7] as int * 0x100_0000_0000_0000
}

/// The views of a sequence of byte vectors.
pub open spec fn seqs_of(v: Seq<Vec<u8>>) -> Seq<Seq<u8>> {
    Seq::new(v.len(), |i: int| v[i]@)
}

/// Where item `i` of a dynamic vector of `n` items starts (`i == n`: the end).
pub open spec fn dyn_offset(s: Seq<u8>, n: int, i: int) -> int {
    if i < n {
        le_u32(s, 4 + 4 * i)
    } else {
        s.len() as int
    }
}

/// The number of items announced by the first offset.
pub open spec fn dyn_count(s: Seq<u8>) -> int {
    le_u32(s, 4) / 4 - 1
}

/// The header of a non-empty dynamic vector is well formed.
#[verifier::opaque]
pub open spec fn dyn_header_ok(s: Seq<u8>) -> bool {
    &&& s.len() >= 8
    &&& le_u32(s, 0) == s.len()
    &&& le_u32(s, 4) % 4 == 0
    &&& le_u32(s, 4) >= 8
    &&& le_u32(s, 4) <= s.len()
    &&& forall|i: int|
        0 <= i < dyn_count(s) ==> #[trigger] dyn_offset(s, dyn_count(s), i) <= dyn_offset(
            s,
            dyn_count(s),
            i + 1,
        )
}

/// The items of a molecule dynamic vector, or `None` if `s` is not one.
pub open spec fn dyn_items(s: Seq<u8>) -> Option<Seq<Seq<u8>>> {
    if s.len() < 4 || le_u32(s, 0) != s.len() {
        None
    } else if s.len() == 4 {
        Some(Seq::empty())
    } else if !dyn_header_ok(s) {
        None
    } else {
        let n = dyn_count(s);
        Some(
            Seq::new(
                n as nat,
                |i: int| s.subrange(dyn_offset(s, n, i), dyn_offset(s, n, i + 1)),
            ),
        )
    }
}

/// The fields of a molecule table of `n` fields (`n > 0`), or `None`.
pub open spec fn table_fields(s: Seq<u8>, n: int) -> Option<Seq<Seq<u8>>> {
    match dyn_items(s) {
        Some(f) => if f.len() == n {
            Some(f)
        } else {
            None
        },
        None => None,
    }
}

/// The content of a molecule `Bytes`, or `None`.
pub open spec fn bytes_of(s: Seq<u8>) -> Option<Seq<u8>> {
    if s.len() >= 4 && le_u32(s, 0) + 4 == s.len() {
        Some(s.subrange(4, s.len() as int))
    } else {
        None
    }
}

proof fn lemma_offsets_bounded(s: Seq<u8>, n: int, i: int)
    requires
        0 <= i <= n,
        forall|j: int| 0 <= j < n ==> #[trigger] dyn_offset(s, n, j) <= dyn_offset(s, n, j + 1),
    ensures
        dyn_offset(s, n, i) <= s.len(),
    decreases n - i,
{
    if i < n {
        assert(dyn_offset(s, n, i) <= dyn_offset(s, n, i + 1));
        lemma_offsets_bounded(s, n, i + 1);
    }
}

/// Relies on molecule::unpack_number: the little-endian `u32` held in the
/// first four bytes of the slice.
#[verifier::external_body]
fn unpack_number(s: &[u8]) -> (r: u32)
    requires
        s@.len() >= 4,
    ensures
        r as int == le_u32(s@, 0),
{
    molecule::unpack_number(s)
}

/// The header number of `s` at byte `at`.
fn number_at(s: &[u8], at: usize) -> (r: usize)
    requires
        at + 4 <= s@.len(),
    ensures
        r as int == le_u32(s@, at as int),
{
    let part = slice_subrange(s, at, s.len());
    let r = unpack_number(part);
    assert(part@[0] == s@[at as int] && part@[1] == s@[at + 1] && part@[2] == s@[at + 2]
        && part@[3] == s@[at + 3]);
    r as usize
}

/// Reads a little-endian `u64` from exactly eight bytes.
pub fn read_u64(b: &[u8]) -> (r: u64)
    requires
        b@.len() == 8,
    ensures
        r as int == le_u64(b@),
{
    b[0] as u64 + b[1] as u64 * 0x100 + b[2] as u64 * 0x1_0000 + b[3] as u64 * 0x100_0000
        + b[4] as u64 * 0x1_0000_0000 + b[5] as u64 * 0x100_0000_0000 + b[6] as u64
        * 0x1_0000_0000_0000 + b[7] as u64 * 0x100_0000_0000_0000
}

/// Reads a little-endian `u32` from exactly four bytes.
pub fn read_u32(b: &[u8]) -> (r: u32)
    requires
        b@.len() == 4,
    ensures
        r as int == le_u32(b@, 0),
{
    b[0] as u32 + b[1] as u32 * 0x100 + b[2] as u32 * 0x1_0000 + b[3] as u32 * 0x100_0000
}

/// Splits a molecule dynamic vector into its items.
pub fn parse_dyn(s: &[u8]) -> (r: Option<Vec<Vec<u8>>>)
    ensures
        match r {
            Some(v) => dyn_items(s@) == Some(seqs_of(v@)),
            None => dyn_items(s@) is None,
        },
{
    if s.len() < 4 {
        return None;
    }
    let total = number_at(s, 0);
    if total != s.len() {
        return None;
    }
    if s.len() == 4 {
        let empty: Vec<Vec<u8>> = Vec::new();
        assert(seqs_of(empty@) =~= Seq::<Seq<u8>>::empty());
        return Some(empty);
    }
    if s.len() < 8 {
        assert(!dyn_header_ok(s@)) by {
            reveal(dyn_header_ok);
        }
        return None;
    }
    let first = number_at(s, 4);
    if first % 4 != 0 || first < 8 || first > s.len() {
        assert(!dyn_header_ok(s@)) by {
            reveal(dyn_header_ok);
        }
        return None;
    }
    let n: usize = first / 4 - 1;
    assert(n == dyn_count(s@));
    let ordered = offsets_ordered(s, n);
    if !ordered {
        assert(!dyn_header_ok(s@)) by {
            reveal(dyn_header_ok);
        }
        return None;
    }
    assert(dyn_header_ok(s@)) by {
        reveal(dyn_header_ok);
    }
    let items = collect_items(s, n);
    proof {
        let want = dyn_items(s@).unwrap();
        assert(want.len() == n);
        assert forall|j: int| 0 <= j < n implies seqs_of(items@)[j] == want[j] by {}
        assert(seqs_of(items@) =~= want);
    }
    Some(items)
}

/// Whether the offsets of a dynamic vector of `n` items never decrease.
fn offsets_ordered(s: &[u8], n: usize) -> (r: bool)
    requires
        n == dyn_count(s@),
        n >= 1,
        4 * (n + 1) <= s@.len(),
        s@.len() <= usize::MAX,
    ensures
        r == forall|j: int|
            0 <= j < n ==> #[trigger] dyn_offset(s@, n as int, j) <= dyn_offset(
                s@,
                n as int,
                j + 1,
            ),
{
    let ghost sv = s@;
    let mut i: usize = 0;
    while i < n
        invariant
            0 <= i <= n,
            sv == s@,
            4 * (n + 1) <= s@.len(),
            s@.len() <= usize::MAX,
            forall|j: int| 0 <= j < i ==> #[trigger] dyn_offset(sv, n as int, j) <= dyn_offset(
                sv,
                n as int,
                j + 1,
            ),
        decreases n - i,
    {
        let a = number_at(s, 4 + 4 * i);
        let b = if i + 1 < n {
            number_at(s, 4 + 4 * (i + 1))
        } else {
            s.len()
        };
        assert(a as int == dyn_offset(sv, n as int, i as int));
        assert(b as int == dyn_offset(sv, n as int, i + 1));
        if a > b {
            return false;
        }
        i = i + 1;
    }
    true
}

/// Copies out the items of a dynamic vector whose header is well formed.
fn collect_items(s: &[u8], n: usize) -> (items: Vec<Vec<u8>>)
    requires
        n == dyn_count(s@),
        dyn_header_ok(s@),
        4 * (n + 1) <= s@.len(),
        s@.len() <= usize::MAX,
    ensures
        items@.len() == n,
        forall|j: int|
            0 <= j < n ==> #[trigger] items@[j]@ == s@.subrange(
                dyn_offset(s@, n as int, j),
                dyn_offset(s@, n as int, j + 1),
            ),
{
    let ghost sv = s@;
    let mut items: Vec<Vec<u8>> = Vec::new();
    let mut k: usize = 0;
    while k < n
        invariant
            0 <= k <= n,
            n == dyn_count(sv),
            sv == s@,
            dyn_header_ok(sv),
            4 * (n + 1) <= s@.len(),
            s@.len() <= usize::MAX,
            items@.len() == k,
            forall|j: int|
                0 <= j < k ==> #[trigger] items@[j]@ == sv.subrange(
                    dyn_offset(sv, n as int, j),
                    dyn_offset(sv, n as int, j + 1),
                ),
        decreases n - k,
    {
        let a = number_at(s, 4 + 4 * k);
        let b = if k + 1 < n {
            number_at(s, 4 + 4 * (k + 1))
        } else {
            s.len()
        };
        proof {
            reveal(dyn_header_ok);
            assert(dyn_offset(sv, n as int, k as int) <= dyn_offset(sv, n as int, k + 1));
            lemma_offsets_bounded(sv, n as int, k + 1);
        }
        let item = slice_to_vec(slice_subrange(s, a, b));
        items.push(item);
        k = k + 1;
    }
    items
}

/// Splits a molecule table of `n` fields.
pub fn parse_table(s: &[u8], n: usize) -> (r: Option<Vec<Vec<u8>>>)
    ensures
        match r {
            Some(v) => table_fields(s@, n as int) == Some(seqs_of(v@)),
            None => table_fields(s@, n as int) is None,
        },
{
    match parse_dyn(s) {
        Some(f) => {
            if f.len() == n {
                Some(f)
            } else {
                None
            }
        },
        None => None,
    }
}

/// The content of a molecule `Bytes`.
pub fn parse_bytes(s: &[u8]) -> (r: Option<Vec<u8>>)
    ensures
        match r {
            Some(v) => bytes_of(s@) == Some(v@),
            None => bytes_of(s@) is None,
        },
{
    if s.len() < 4 {
        return None;
    }
    let count = number_at(s, 0);
    if count > s.len() - 4 || count + 4 != s.len() {
        return None;
    }
    Some(slice_to_vec(slice_subrange(s, 4, s.len())))
}

/// One tier of a fee table: the account length it starts at, the yearly
/// price of a new account and the yearly price of a renewal.
pub type Tier = (u8, u64, u64);

/// A `PriceConfig` table: `length: Uint8, new: Uint64, renew: Uint64`.
pub open spec fn price_config(s: Seq<u8>) -> Option<Tier> {
    match table_fields(s, 3) {
        Some(f) => if f[0].len() == 1 && f[1].len() == 8 && f[2].len() == 8 {
            Some((f[0][0], le_u64(f[1]) as u64, le_u64(f[2]) as u64))
        } else {
            None
        },
        None => None,
    }
}

/// A `PriceConfigList`: a dynamic vector of `PriceConfig`.
pub open spec fn price_config_list(s: Seq<u8>) -> Option<Seq<Tier>> {
    match dyn_items(s) {
        Some(items) => if forall|i: int| 0 <= i < items.len() ==> #[trigger] price_config(items[i]) is Some {
            Some(Seq::new(items.len(), |i: int| price_config(items[i]).unwrap()))
        } else {
            None
        },
        None => None,
    }
}

/// An `AccountChar` table (`char_set_name: Uint32, bytes: Bytes`): its bytes.
pub open spec fn account_char(s: Seq<u8>) -> Option<Seq<u8>> {
    match table_fields(s, 2) {
        Some(f) => if f[0].len() == 4 {
            bytes_of(f[1])
        } else {
            None
        },
        None => None,
    }
}

/// An `AccountChars` vector: the bytes of each character segment.
pub open spec fn account_chars(s: Seq<u8>) -> Option<Seq<Seq<u8>>> {
    match dyn_items(s) {
        Some(items) => if forall|i: int| 0 <= i < items.len() ==> #[trigger] account_char(items[i]) is Some {
            Some(Seq::new(items.len(), |i: int| account_char(items[i]).unwrap()))
        } else {
            None
        },
        None => None,
    }
}

/// A `Script` table: `code_hash: Byte32, hash_type: byte, args: Bytes`.
pub open spec fn script_ok(s: Seq<u8>) -> bool {
    match table_fields(s, 3) {
        Some(f) => f[0].len() == 32 && f[1].len() == 1 && bytes_of(f[2]) is Some,
        None => false,
    }
}

/// A `Record` table: four `Bytes` (type, key, label, value) and a `Uint32` ttl.
pub open spec fn record_ok(s: Seq<u8>) -> bool {
    match table_fields(s, 5) {
        Some(f) => bytes_of(f[0]) is Some && bytes_of(f[1]) is Some && bytes_of(f[2]) is Some
            && bytes_of(f[3]) is Some && f[4].len() == 4,
        None => false,
    }
}

/// A `Records` vector of `Record`.
pub open spec fn records_ok(s: Seq<u8>) -> bool {
    &&& dyn_items(s) is Some
    &&& forall|i: int|
        0 <= i < dyn_items(s).unwrap().len() ==> #[trigger] record_ok(dyn_items(s).unwrap()[i])
}

/// A `SubAccount` table, given by the character segments of its account.
///
/// Its fields: `lock: Script, id: AccountId, account: AccountChars,
/// suffix: Bytes, registered_at: Uint64, expired_at: Uint64, status: Uint8,
/// records: Records, nonce: Uint64, enable_sub_account: Uint8,
/// renew_sub_account_price: Uint64`.
pub open spec fn sub_account_chars(s: Seq<u8>) -> Option<Seq<Seq<u8>>> {
    match table_fields(s, 11) {
        Some(f) => if script_ok(f[0]) && f[1].len() == 20 && bytes_of(f[3]) is Some && f[4].len()
            == 8 && f[5].len() == 8 && f[6].len() == 1 && records_ok(f[7]) && f[8].len() == 8
            && f[9].len() == 1 && f[10].len() == 8 {
            account_chars(f[2])
        } else {
            None
        },
        None => None,
    }
}

/// Decodes one `PriceConfig`.
pub fn decode_price_config(s: &[u8]) -> (r: Option<Tier>)
    ensures
        r == price_config(s@),
{
    let f = match parse_table(s, 3) {
        Some(f) => f,
        None => return None,
    };
    assert(f[0]@ == seqs_of(f@)[0] && f[1]@ == seqs_of(f@)[1] && f[2]@ == seqs_of(f@)[2]);
    if f[0].len() != 1 || f[1].len() != 8 || f[2].len() != 8 {
        return None;
    }
    let new_price = read_u64(f[1].as_slice());
    let renew_price = read_u64(f[2].as_slice());
    Some((f[0][0], new_price, renew_price))
}

/// Decodes a `PriceConfigList` into its tiers, in order.
pub fn decode_price_config_list(s: &[u8]) -> (r: Option<Vec<Tier>>)
    ensures
        match r {
            Some(v) => price_config_list(s@) == Some(v@),
            None => price_config_list(s@) is None,
        },
{
    let items = match parse_dyn(s) {
        Some(items) => items,
        None => return None,
    };
    let ghost iv = seqs_of(items@);
    let mut out: Vec<Tier> = Vec::new();
    let mut i: usize = 0;
    while i < items.len()
        invariant
            0 <= i <= items@.len(),
            iv == seqs_of(items@),
            dyn_items(s@) == Some(iv),
            out@.len() == i,
            forall|j: int| 0 <= j < i ==> #[trigger] price_config(iv[j]) == Some(out@[j]),
        decreases items@.len() - i,
    {
        assert(items@[i as int]@ == iv[i as int]);
        match decode_price_config(items[i].as_slice()) {
            Some(t) => out.push(t),
            None => {
                assert(price_config(iv[i as int]) is None);
                assert(dyn_items(s@) == Some(iv));
                assert(!(forall|j: int| 0 <= j < iv.len() ==> #[trigger] price_config(iv[j]) is Some));
                return None;
            },
        }
        i = i + 1;
    }
    assert(out@ =~= Seq::new(iv.len(), |j: int| price_config(iv[j]).unwrap()));
    Some(out)
}

/// Decodes one `AccountChar` into its bytes.
pub fn decode_account_char(s: &[u8]) -> (r: Option<Vec<u8>>)
    ensures
        match r {
            Some(v) => account_char(s@) == Some(v@),
            None => account_char(s@) is None,
        },
{
    let f = match parse_table(s, 2) {
        Some(f) => f,
        None => return None,
    };
    assert(f[0]@ == seqs_of(f@)[0] && f[1]@ == seqs_of(f@)[1]);
    if f[0].len() != 4 {
        return None;
    }
    parse_bytes(f[1].as_slice())
}

/// Decodes `AccountChars` into the bytes of each segment.
pub fn decode_account_chars(s: &[u8]) -> (r: Option<Vec<Vec<u8>>>)
    ensures
        match r {
            Some(v) => account_chars(s@) == Some(seqs_of(v@)),
            None => account_chars(s@) is None,
        },
{
    let items = match parse_dyn(s) {
        Some(items) => items,
        None => return None,
    };
    let ghost iv = seqs_of(items@);
    let mut out: Vec<Vec<u8>> = Vec::new();
    let mut i: usize = 0;
    while i < items.len()
        invariant
            0 <= i <= items@.len(),
            iv == seqs_of(items@),
            dyn_items(s@) == Some(iv),
            out@.len() == i,
            forall|j: int| 0 <= j < i ==> #[trigger] account_char(iv[j]) == Some(out@[j]@),
        decreases items@.len() - i,
    {
        assert(items@[i as int]@ == iv[i as int]);
        match decode_account_char(items[i].as_slice()) {
            Some(c) => out.push(c),
            None => {
                assert(account_char(iv[i as int]) is None);
                assert(dyn_items(s@) == Some(iv));
                assert(!(forall|j: int| 0 <= j < iv.len() ==> #[trigger] account_char(iv[j]) is Some));
                return None;
            },
        }
        i = i + 1;
    }
    assert(seqs_of(out@) =~= Seq::new(iv.len(), |j: int| account_char(iv[j]).unwrap()));
    Some(out)
}

/// Checks a `Script` table.
fn check_script(s: &[u8]) -> (r: bool)
    ensures
        r == script_ok(s@),
{
    let f = match parse_table(s, 3) {
        Some(f) => f,
        None => return false,
    };
    assert(f[0]@ == seqs_of(f@)[0] && f[1]@ == seqs_of(f@)[1] && f[2]@ == seqs_of(f@)[2]);
    f[0].len() == 32 && f[1].len() == 1 && parse_bytes(f[2].as_slice()).is_some()
}

/// Checks a `Record` table.
fn check_record(s: &[u8]) -> (r: bool)
    ensures
        r == record_ok(s@),
{
    let f = match parse_table(s, 5) {
        Some(f) => f,
        None => return false,
    };
    assert(f[0]@ == seqs_of(f@)[0] && f[1]@ == seqs_of(f@)[1] && f[2]@ == seqs_of(f@)[2]
        && f[3]@ == seqs_of(f@)[3] && f[4]@ == seqs_of(f@)[4]);
    parse_bytes(f[0].as_slice()).is_some() && parse_bytes(f[1].as_slice()).is_some()
        && parse_bytes(f[2].as_slice()).is_some() && parse_bytes(f[3].as_slice()).is_some()
        && f[4].len() == 4
}

/// Checks a `Records` vector.
fn check_records(s: &[u8]) -> (r: bool)
    ensures
        r == records_ok(s@),
{
    let items = match parse_dyn(s) {
        Some(items) => items,
        None => return false,
    };
    let ghost iv = seqs_of(items@);
    let mut i: usize = 0;
    while i < items.len()
        invariant
            0 <= i <= items@.len(),
            iv == seqs_of(items@),
            dyn_items(s@) == Some(iv),
            forall|j: int| 0 <= j < i ==> #[trigger] record_ok(iv[j]),
        decreases items@.len() - i,
    {
        assert(items@[i as int]@ == iv[i as int]);
        if !check_record(items[i].as_slice()) {
            assert(!record_ok(iv[i as int]));
            assert(dyn_items(s@).unwrap() == iv);
            assert(!records_ok(s@));
            return false;
        }
        i = i + 1;
    }
    true
}

/// Decodes a `SubAccount` record into the bytes of its account's segments.
pub fn decode_sub_account(s: &[u8]) -> (r: Option<Vec<Vec<u8>>>)
    ensures
        match r {
            Some(v) => sub_account_chars(s@) == Some(seqs_of(v@)),
            None => sub_account_chars(s@) is None,
        },
{
    let f = match parse_table(s, 11) {
        Some(f) => f,
        None => return None,
    };
    let ghost fv = seqs_of(f@);
    assert(forall|j: int| 0 <= j < 11 ==> #[trigger] f@[j]@ == fv[j]);
    let fixed_ok = f[1].len() == 20 && f[4].len() == 8 && f[5].len() == 8 && f[6].len() == 1
        && f[8].len() == 8 && f[9].len() == 1 && f[10].len() == 8;
    if !fixed_ok {
        assert(f@[1]@ == fv[1] && f@[4]@ == fv[4] && f@[5]@ == fv[5] && f@[6]@ == fv[6]);
        assert(f@[8]@ == fv[8] && f@[9]@ == fv[9] && f@[10]@ == fv[10]);
        return None;
    }
    assert(f@[1]@ == fv[1] && f@[4]@ == fv[4] && f@[5]@ == fv[5] && f@[6]@ == fv[6]);
    assert(f@[8]@ == fv[8] && f@[9]@ == fv[9] && f@[10]@ == fv[10]);
    assert(f@[0]@ == fv[0] && f@[3]@ == fv[3] && f@[7]@ == fv[7] && f@[2]@ == fv[2]);
    if !check_script(f[0].as_slice()) || parse_bytes(f[3].as_slice()).is_none()
        || !check_records(f[7].as_slice()) {
        return None;
    }
    decode_account_chars(f[2].as_slice())
}

} // verus!

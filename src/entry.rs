//! The whole validation: arguments, fee table, prices and profit.
use crate::codec::decode_sub_account;
use crate::codec::le_u32;
use crate::codec::le_u64;
use crate::codec::read_u32;
use crate::codec::read_u64;
use crate::codec::seqs_of;
use crate::codec::sub_account_chars;
use crate::codec::Tier;
use crate::error::Error;
use crate::price::get_price;
use crate::price::unit_price;
use crate::price::Action;
use crate::util::combine_acocunt_chars;
use crate::util::concat;
use crate::util::convert;
use crate::util::string_from_utf8;
use crate::util::usd_to_ckb_saturating;
use crate::witness::find_config;
use crate::witness::scan_from;
use vstd::prelude::*;
use vstd::slice::slice_subrange;
use vstd::slice::slice_to_vec;
use vstd::utf8::valid_utf8;

verus! {

/// `create_sub_account`
pub open spec fn create_tag() -> Seq<u8> {
    seq![99u8, 114, 101, 97, 116, 101, 95, 115, 117, 98, 95, 97, 99, 99, 111, 117, 110, 116]
}

/// `renew_sub_account`
pub open spec fn renew_tag() -> Seq<u8> {
    seq![114u8, 101, 110, 101, 119, 95, 115, 117, 98, 95, 97, 99, 99, 111, 117, 110, 116]
}

/// `get_price`
pub open spec fn get_price_tag() -> Seq<u8> {
    seq![103u8, 101, 116, 95, 112, 114, 105, 99, 101]
}

/// The action named by the first argument.
pub open spec fn action_of(a: Seq<u8>) -> Result<Action, Error> {
    if !valid_utf8(a) {
        Err(Error::InvalidArgument)
    } else if a == create_tag() {
        Ok(Action::CreateSubAccount)
    } else if a == renew_tag() {
        Ok(Action::RenewSubAccount)
    } else if a == get_price_tag() {
        Ok(Action::GetPrice)
    } else {
        Err(Error::ActionNotSupported)
    }
}

/// Why the arguments are refused, if they are.
///
/// They are: the action, the quote, the owner's profit, the system's profit
/// (each a little-endian `u64`), the ten-byte commitment to the fee table,
/// then one or more records.
pub open spec fn args_error(args: Seq<Seq<u8>>) -> Option<Error> {
    if args.len() < 1 {
        Some(Error::InvalidArgument)
    } else {
        match action_of(args[0]) {
            Err(e) => Some(e),
            Ok(Action::GetPrice) => Some(Error::ActionNotSupported),
            Ok(_) => if args.len() < 6 || args[1].len() != 8 || args[2].len() != 8
                || args[3].len() != 8 || args[4].len() != 10 {
                Some(Error::InvalidArgument)
            } else {
                None
            },
        }
    }
}

/// The parsed arguments of a create or renew request.
pub struct Request {
    pub action: Action,
    pub quote: u64,
    pub owner_profit: u64,
    pub das_profit: u64,
    pub witness_hash: Vec<u8>,
    /// Each record: a little-endian `u32` of years, then a `SubAccount`.
    pub records: Vec<Vec<u8>>,
}

/// `q` holds what the accepted arguments `args` say.
pub open spec fn request_of(q: Request, args: Seq<Seq<u8>>) -> bool {
    &&& q.action == action_of(args[0])->Ok_0
    &&& q.quote == le_u64(args[1])
    &&& q.owner_profit == le_u64(args[2])
    &&& q.das_profit == le_u64(args[3])
    &&& q.witness_hash@ == args[4]
    &&& seqs_of(q.records@) == args.subrange(5, args.len() as int)
}

/// The settlement price of one record, or why it is refused.
pub open spec fn record_price(arg: Seq<u8>, tiers: Seq<Tier>, create: bool, quote: int) -> Result<
    int,
    Error,
> {
    if arg.len() < 4 {
        Err(Error::InvalidArgument)
    } else {
        match sub_account_chars(arg.subrange(4, arg.len() as int)) {
            None => Err(Error::InvalidSubAccountData),
            Some(segs) => if !valid_utf8(concat(segs)) {
                Err(Error::InvalidSubAccountData)
            } else {
                Ok(convert(unit_price(tiers, segs.len() as int, create) * le_u32(arg, 0), quote))
            },
        }
    }
}

/// Why a record is refused before it is priced, if it is: too short to
/// hold its years, not a `SubAccount`, or an account that is not text.
pub open spec fn record_error(arg: Seq<u8>) -> Option<Error> {
    if arg.len() < 4 {
        Some(Error::InvalidArgument)
    } else {
        match sub_account_chars(arg.subrange(4, arg.len() as int)) {
            None => Some(Error::InvalidSubAccountData),
            Some(segs) => if !valid_utf8(concat(segs)) {
                Some(Error::InvalidSubAccountData)
            } else {
                None
            },
        }
    }
}

/// The error of the first refused record, if any.
pub open spec fn records_error(args: Seq<Seq<u8>>) -> Option<Error>
    decreases args.len(),
{
    if args.len() == 0 {
        None
    } else {
        match record_error(args[0]) {
            Some(e) => Some(e),
            None => records_error(args.drop_first()),
        }
    }
}

/// The total settlement price of the records, or the first record's error.
pub open spec fn records_total(args: Seq<Seq<u8>>, tiers: Seq<Tier>, create: bool, quote: int) -> Result<
    int,
    Error,
>
    decreases args.len(),
{
    if args.len() == 0 {
        Ok(0)
    } else {
        match records_total(args.drop_last(), tiers, create, quote) {
            Err(e) => Err(e),
            Ok(t) => match record_price(args.last(), tiers, create, quote) {
                Err(e) => Err(e),
                Ok(p) => Ok(t + p),
            },
        }
    }
}

/// `t` capped at `u128::MAX`.
pub open spec fn cap(t: int) -> int {
    if t > u128::MAX {
        u128::MAX as int
    } else {
        t
    }
}

/// The total is accepted when the declared profit covers it.
pub open spec fn profit_outcome(total: Result<int, Error>, available: int) -> Result<int, Error> {
    match total {
        Err(e) => Err(e),
        Ok(t) => if t <= available {
            Ok(t)
        } else {
            Err(Error::InvalidProfit { total: cap(t) as u128, available: available as u128 })
        },
    }
}

/// Settling the records against an authenticated fee table: every record
/// must decode; then a zero quote is refused; then the total is priced and
/// checked against the declared profit.
pub open spec fn settle_outcome(
    records: Seq<Seq<u8>>,
    tiers: Seq<Tier>,
    create: bool,
    quote: int,
    available: int,
) -> Result<int, Error> {
    match records_error(records) {
        Some(e) => Err(e),
        None => if quote == 0 {
            Err(Error::InvalidArgument)
        } else {
            profit_outcome(records_total(records, tiers, create, quote), available)
        },
    }
}

/// The outcome of validating `args` against the witnesses `ws`: the total
/// price when accepted.
pub open spec fn outcome(args: Seq<Seq<u8>>, ws: Seq<Seq<u8>>) -> Result<int, Error> {
    match args_error(args) {
        Some(e) => Err(e),
        None => match scan_from(ws, 0, args[4]) {
            Err(e) => Err(e),
            Ok(tiers) => settle_outcome(
                args.subrange(5, args.len() as int),
                tiers,
                args[0] == create_tag(),
                le_u64(args[1]),
                le_u64(args[2]) + le_u64(args[3]),
            ),
        },
    }
}

/// Whether two byte strings are equal.
fn bytes_equal(a: &[u8], b: &[u8]) -> (r: bool)
    ensures
        r == (a@ == b@),
{
    if a.len() != b.len() {
        return false;
    }
    let mut i: usize = 0;
    while i < a.len()
        invariant
            0 <= i <= a@.len(),
            a@.len() == b@.len(),
            forall|k: int| 0 <= k < i ==> a@[k] == b@[k],
        decreases a@.len() - i,
    {
        if a[i] != b[i] {
            return false;
        }
        i = i + 1;
    }
    assert(a@ =~= b@);
    true
}

/// Reads the action named by the first argument.
fn parse_action(a: &Vec<u8>) -> (r: Result<Action, Error>)
    ensures
        r == action_of(a@),
{
    if string_from_utf8(a.clone()).is_none() {
        return Err(Error::InvalidArgument);
    }
    let create: [u8; 18] = [
        99u8, 114, 101, 97, 116, 101, 95, 115, 117, 98, 95, 97, 99, 99, 111, 117, 110, 116,
    ];
    let renew: [u8; 17] = [
        114u8, 101, 110, 101, 119, 95, 115, 117, 98, 95, 97, 99, 99, 111, 117, 110, 116,
    ];
    let get: [u8; 9] = [103u8, 101, 116, 95, 112, 114, 105, 99, 101];
    assert(create@ =~= create_tag());
    assert(renew@ =~= renew_tag());
    assert(get@ =~= get_price_tag());
    if bytes_equal(a.as_slice(), create.as_slice()) {
        Ok(Action::CreateSubAccount)
    } else if bytes_equal(a.as_slice(), renew.as_slice()) {
        Ok(Action::RenewSubAccount)
    } else if bytes_equal(a.as_slice(), get.as_slice()) {
        Ok(Action::GetPrice)
    } else {
        Err(Error::ActionNotSupported)
    }
}

/// Parses the arguments of a request.
pub fn parse_args(args: &Vec<Vec<u8>>) -> (r: Result<Request, Error>)
    ensures
        match r {
            Err(e) => args_error(seqs_of(args@)) == Some(e),
            Ok(q) => args_error(seqs_of(args@)) is None && request_of(q, seqs_of(args@)),
        },
{
    let ghost av = seqs_of(args@);
    if args.len() < 1 {
        return Err(Error::InvalidArgument);
    }
    assert(args@[0]@ == av[0]);
    let action = match parse_action(&args[0]) {
        Ok(a) => a,
        Err(e) => return Err(e),
    };
    match action {
        Action::GetPrice => return Err(Error::ActionNotSupported),
        _ => {},
    }
    if args.len() < 6 {
        return Err(Error::InvalidArgument);
    }
    assert(args@[1]@ == av[1] && args@[2]@ == av[2] && args@[3]@ == av[3] && args@[4]@ == av[4]);
    if args[1].len() != 8 || args[2].len() != 8 || args[3].len() != 8 || args[4].len() != 10 {
        return Err(Error::InvalidArgument);
    }
    let quote = read_u64(args[1].as_slice());
    let owner_profit = read_u64(args[2].as_slice());
    let das_profit = read_u64(args[3].as_slice());
    let witness_hash = slice_to_vec(args[4].as_slice());
    let mut records: Vec<Vec<u8>> = Vec::new();
    let mut i: usize = 5;
    while i < args.len()
        invariant
            5 <= i <= args@.len(),
            av == seqs_of(args@),
            seqs_of(records@) == av.subrange(5, i as int),
        decreases args@.len() - i,
    {
        assert(args@[i as int]@ == av[i as int]);
        let ghost before = records@;
        records.push(slice_to_vec(args[i].as_slice()));
        assert(seqs_of(records@) =~= seqs_of(before).push(av[i as int]));
        i = i + 1;
        assert(seqs_of(records@) =~= av.subrange(5, i as int));
    }
    Ok(Request { action, quote, owner_profit, das_profit, witness_hash, records })
}

/// Prices one record: `u128::MAX` stands for any larger price.
fn price_record(arg: &[u8], tiers: &Vec<Tier>, action: &Action, quote: u64) -> (r: Result<
    u128,
    Error,
>)
    requires
        tiers@.len() > 0,
        quote > 0,
    ensures
        match r {
            Ok(p) => record_price(arg@, tiers@, *action == Action::CreateSubAccount, quote as int)
                matches Ok(t) && p == cap(t),
            Err(e) => record_price(arg@, tiers@, *action == Action::CreateSubAccount, quote as int)
                == Err::<int, Error>(e),
        },
{
    if arg.len() < 4 {
        return Err(Error::InvalidArgument);
    }
    let years = read_u32(slice_subrange(arg, 0, 4));
    assert(le_u32(arg@.subrange(0, 4), 0) == le_u32(arg@, 0));
    let chars = match decode_sub_account(slice_subrange(arg, 4, arg.len())) {
        Some(c) => c,
        None => return Err(Error::InvalidSubAccountData),
    };
    if combine_acocunt_chars(&chars).is_none() {
        return Err(Error::InvalidSubAccountData);
    }
    let usd = get_price(action, tiers.as_slice(), chars.len(), years as u64);
    Ok(usd_to_ckb_saturating(usd, quote))
}

proof fn lemma_total_error_stays(args: Seq<Seq<u8>>, tiers: Seq<Tier>, create: bool, quote: int, k: int)
    requires
        0 <= k <= args.len(),
        records_total(args.subrange(0, k), tiers, create, quote) is Err,
    ensures
        records_total(args, tiers, create, quote) == records_total(
            args.subrange(0, k),
            tiers,
            create,
            quote,
        ),
    decreases args.len() - k,
{
    if k < args.len() {
        let rest = args.drop_last();
        assert(rest.subrange(0, k) =~= args.subrange(0, k));
        lemma_total_error_stays(rest, tiers, create, quote, k);
    } else {
        assert(args.subrange(0, k) =~= args);
    }
}

/// Sums the records' prices and checks them against the declared profit.
pub fn check_profit(req: &Request, tiers: &Vec<Tier>) -> (r: Result<u128, Error>)
    requires
        tiers@.len() > 0,
        req.quote > 0,
    ensures
        match r {
            Ok(t) => profit_outcome(
                records_total(
                    seqs_of(req.records@),
                    tiers@,
                    req.action == Action::CreateSubAccount,
                    req.quote as int,
                ),
                req.owner_profit + req.das_profit,
            ) == Ok::<int, Error>(t as int),
            Err(e) => profit_outcome(
                records_total(
                    seqs_of(req.records@),
                    tiers@,
                    req.action == Action::CreateSubAccount,
                    req.quote as int,
                ),
                req.owner_profit + req.das_profit,
            ) == Err::<int, Error>(e),
        },
{
    let ghost rs = seqs_of(req.records@);
    let ghost create = req.action == Action::CreateSubAccount;
    let mut total: u128 = 0;
    let mut i: usize = 0;
    while i < req.records.len()
        invariant
            0 <= i <= req.records@.len(),
            rs == seqs_of(req.records@),
            create == (req.action == Action::CreateSubAccount),
            tiers@.len() > 0,
            req.quote > 0,
            records_total(rs.subrange(0, i as int), tiers@, create, req.quote as int) matches Ok(
                t,
            ) && total == cap(t) && t >= 0,
        decreases req.records@.len() - i,
    {
        assert(req.records@[i as int]@ == rs[i as int]);
        assert(rs.subrange(0, i + 1).drop_last() =~= rs.subrange(0, i as int));
        assert(rs.subrange(0, i + 1).last() == rs[i as int]);
        match price_record(req.records[i].as_slice(), tiers, &req.action, req.quote) {
            Ok(p) => {
                total = if total > u128::MAX - p {
                    u128::MAX
                } else {
                    total + p
                };
            },
            Err(e) => {
                proof {
                    lemma_total_error_stays(rs, tiers@, create, req.quote as int, i + 1);
                }
                return Err(e);
            },
        }
        i = i + 1;
    }
    assert(rs.subrange(0, i as int) =~= rs);
    let available = req.owner_profit as u128 + req.das_profit as u128;
    if total > available {
        Err(Error::InvalidProfit { total, available })
    } else {
        Ok(total)
    }
}

/// Checks that a record decodes, without pricing it.
fn record_error_of(arg: &[u8]) -> (r: Option<Error>)
    ensures
        r == record_error(arg@),
{
    if arg.len() < 4 {
        return Some(Error::InvalidArgument);
    }
    let chars = match decode_sub_account(slice_subrange(arg, 4, arg.len())) {
        Some(c) => c,
        None => return Some(Error::InvalidSubAccountData),
    };
    if combine_acocunt_chars(&chars).is_none() {
        return Some(Error::InvalidSubAccountData);
    }
    None
}

/// The error of the first record that does not decode, if any.
pub fn decode_records(records: &Vec<Vec<u8>>) -> (r: Option<Error>)
    ensures
        r == records_error(seqs_of(records@)),
{
    let ghost rs = seqs_of(records@);
    assert(rs.subrange(0, rs.len() as int) =~= rs);
    let mut i: usize = 0;
    while i < records.len()
        invariant
            0 <= i <= records@.len(),
            rs == seqs_of(records@),
            records_error(rs) == records_error(rs.subrange(i as int, rs.len() as int)),
        decreases records@.len() - i,
    {
        let ghost rest = rs.subrange(i as int, rs.len() as int);
        assert(rest[0] == rs[i as int]);
        assert(rest.drop_first() =~= rs.subrange(i + 1, rs.len() as int));
        assert(records@[i as int]@ == rs[i as int]);
        match record_error_of(records[i].as_slice()) {
            Some(e) => return Some(e),
            None => {},
        }
        i = i + 1;
    }
    assert(rs.subrange(i as int, rs.len() as int) =~= Seq::<Seq<u8>>::empty());
    None
}

/// Settles a request against an authenticated fee table: every record must
/// decode, the quote must not be zero, and the declared profit must cover
/// the total, which is returned.
pub fn settle(req: &Request, tiers: &Vec<Tier>) -> (r: Result<u128, Error>)
    requires
        tiers@.len() > 0,
    ensures
        match r {
            Ok(t) => settle_outcome(
                seqs_of(req.records@),
                tiers@,
                req.action == Action::CreateSubAccount,
                req.quote as int,
                req.owner_profit + req.das_profit,
            ) == Ok::<int, Error>(t as int),
            Err(e) => settle_outcome(
                seqs_of(req.records@),
                tiers@,
                req.action == Action::CreateSubAccount,
                req.quote as int,
                req.owner_profit + req.das_profit,
            ) == Err::<int, Error>(e),
        },
{
    match decode_records(&req.records) {
        Some(e) => return Err(e),
        None => {},
    }
    if req.quote == 0 {
        return Err(Error::InvalidArgument);
    }
    check_profit(req, tiers)
}

proof fn lemma_scan_ok_nonempty(ws: Seq<Seq<u8>>, i: int, c: Seq<u8>)
    requires
        scan_from(ws, i, c) is Ok,
    ensures
        scan_from(ws, i, c)->Ok_0.len() > 0,
    decreases ws.len() - i,
{
    if 0 <= i < ws.len() && !crate::witness::tagged(ws[i]) {
        lemma_scan_ok_nonempty(ws, i + 1, c);
    }
}

/// Validates a request against the witnesses, taken in index order: the
/// total price when the declared profit covers it.
pub fn validate(args: &Vec<Vec<u8>>, witnesses: &Vec<Vec<u8>>) -> (r: Result<u128, Error>)
    ensures
        match r {
            Ok(t) => outcome(seqs_of(args@), seqs_of(witnesses@)) == Ok::<int, Error>(t as int),
            Err(e) => outcome(seqs_of(args@), seqs_of(witnesses@)) == Err::<int, Error>(e),
        },
{
    let req = match parse_args(args) {
        Ok(q) => q,
        Err(e) => return Err(e),
    };
    let tiers = match find_config(witnesses, req.witness_hash.as_slice()) {
        Ok(t) => t,
        Err(e) => return Err(e),
    };
    proof {
        lemma_scan_ok_nonempty(seqs_of(witnesses@), 0, req.witness_hash@);
    }
    settle(&req, &tiers)
}

/// Validation depends on the arguments and the witnesses alone: running it
/// again on the same ones gives the same outcome, and the same total.
pub proof fn lemma_validate_repeatable(
    args: Seq<Seq<u8>>,
    ws: Seq<Seq<u8>>,
    args2: Seq<Seq<u8>>,
    ws2: Seq<Seq<u8>>,
)
    requires
        args == args2,
        ws == ws2,
    ensures
        outcome(args, ws) == outcome(args2, ws2),
{
}

/// Runs the validation and reports it as an exit status: 0 when accepted,
/// else the error's code.
pub fn program_entry(args: &Vec<Vec<u8>>, witnesses: &Vec<Vec<u8>>) -> (r: i8)
    ensures
        (r == 0) == (outcome(seqs_of(args@), seqs_of(witnesses@)) is Ok),
        outcome(seqs_of(args@), seqs_of(witnesses@)) matches Err(e) ==> r == crate::error::error_code(e),
{
    match validate(args, witnesses) {
        Ok(_) => 0,
        Err(err) => err.code(),
    }
}

} // verus!

use sub_account_custom_script::entry::check_profit;
use sub_account_custom_script::entry::decode_records;
use sub_account_custom_script::entry::settle;
use sub_account_custom_script::entry::parse_args;
use sub_account_custom_script::entry::program_entry;
use sub_account_custom_script::entry::validate;
use sub_account_custom_script::entry::Request;
use sub_account_custom_script::error::Error;
use sub_account_custom_script::price::Action;
use sub_account_custom_script::util::blake2b_256;
use sub_account_custom_script::witness::check_config;
use sub_account_custom_script::witness::check_tiers;
use sub_account_custom_script::witness::find_config;
use sub_account_custom_script::witness::read_config;
use sub_account_custom_script::witness::scan_step;
use sub_account_custom_script::witness::Probe;
use sub_account_custom_script::witness::ScanStep;

const HEADER: &[u8] = b"script-001";

fn dynvec(items: &[Vec<u8>]) -> Vec<u8> {
    let header = 4 + 4 * items.len();
    let total: usize = header + items.iter().map(|i| i.len()).sum::<usize>();
    let mut out = (total as u32).to_le_bytes().to_vec();
    let mut offset = header;
    for item in items {
        out.extend_from_slice(&(offset as u32).to_le_bytes());
        offset += item.len();
    }
    for item in items {
        out.extend_from_slice(item);
    }
    out
}

fn mol_bytes(b: &[u8]) -> Vec<u8> {
    let mut out = (b.len() as u32).to_le_bytes().to_vec();
    out.extend_from_slice(b);
    out
}

fn fee_table(tiers: &[(u8, u64, u64)]) -> Vec<u8> {
    let items: Vec<Vec<u8>> = tiers
        .iter()
        .map(|t| dynvec(&[vec![t.0], t.1.to_le_bytes().to_vec(), t.2.to_le_bytes().to_vec()]))
        .collect();
    dynvec(&items)
}

fn sub_account(chars: &[&[u8]]) -> Vec<u8> {
    let script = dynvec(&[vec![0u8; 32], vec![1u8], mol_bytes(&[])]);
    let account: Vec<Vec<u8>> = chars
        .iter()
        .map(|c| dynvec(&[0u32.to_le_bytes().to_vec(), mol_bytes(c)]))
        .collect();
    dynvec(&[
        script,
        vec![7u8; 20],
        dynvec(&account),
        mol_bytes(b".bit"),
        1u64.to_le_bytes().to_vec(),
        2u64.to_le_bytes().to_vec(),
        vec![0u8],
        dynvec(&[]),
        3u64.to_le_bytes().to_vec(),
        vec![0u8],
        0u64.to_le_bytes().to_vec(),
    ])
}

fn witness(body: &[u8]) -> Vec<u8> {
    let mut w = HEADER.to_vec();
    w.extend_from_slice(&[0, 0, 0, 0]);
    w.extend_from_slice(body);
    w
}

fn commitment(body: &[u8]) -> Vec<u8> {
    blake2b_256(body)[0..10].to_vec()
}

fn record(years: u32, chars: &[&[u8]]) -> Vec<u8> {
    let mut r = years.to_le_bytes().to_vec();
    r.extend_from_slice(&sub_account(chars));
    r
}

fn args(action: &str, quote: u64, owner: u64, das: u64, hash: &[u8], records: &[Vec<u8>]) -> Vec<Vec<u8>> {
    let mut a = vec![
        action.as_bytes().to_vec(),
        quote.to_le_bytes().to_vec(),
        owner.to_le_bytes().to_vec(),
        das.to_le_bytes().to_vec(),
        hash.to_vec(),
    ];
    a.extend_from_slice(records);
    a
}

#[test]
fn create_below_total_is_invalid_profit() {
    let body = fee_table(&[(1, 16_000_000, 8_000_000)]);
    let a = args("create_sub_account", 100, 500_000_000, 0, &commitment(&body), &[record(1, &[b"a"])]);
    let ws = vec![witness(&body)];
    assert_eq!(
        validate(&a, &ws),
        Err(Error::InvalidProfit { total: 16_000_000_000_000, available: 500_000_000 })
    );
}

#[test]
fn create_sixteen_billion_still_short() {
    let body = fee_table(&[(1, 16_000_000, 8_000_000)]);
    let a = args("create_sub_account", 100, 16_000_000_000, 0, &commitment(&body), &[record(1, &[b"a"])]);
    let ws = vec![witness(&body)];
    assert_eq!(
        validate(&a, &ws),
        Err(Error::InvalidProfit { total: 16_000_000_000_000, available: 16_000_000_000 })
    );
}

#[test]
fn create_covered_is_accepted() {
    let body = fee_table(&[(1, 16_000_000, 8_000_000)]);
    let a = args("create_sub_account", 100, 16_000_000_000_000, 0, &commitment(&body), &[record(1, &[b"a"])]);
    let ws = vec![witness(&body)];
    assert_eq!(validate(&a, &ws), Ok(16_000_000_000_000));
}

#[test]
fn profit_split_between_owner_and_system() {
    let body = fee_table(&[(1, 16_000_000, 8_000_000)]);
    let a = args("create_sub_account", 100, 6_000_000_000_000, 10_000_000_000_000, &commitment(&body), &[record(1, &[b"a"])]);
    assert_eq!(validate(&a, &vec![witness(&body)]), Ok(16_000_000_000_000));
}

#[test]
fn renew_sums_records() {
    let body = fee_table(&[(1, 500, 300), (2, 200, 100), (4, 50, 20)]);
    let recs = vec![record(2, &[b"a"]), record(1, &[b"a", b"b", b"c", b"d", b"e"]), record(1, &[b"x", b"y"])];
    // 600 / 1000 * 1e8 + 20 / 1000 * 1e8 + 100 / 1000 * 1e8
    let a = args("renew_sub_account", 1000, u64::MAX, 0, &commitment(&body), &recs);
    assert_eq!(validate(&a, &vec![witness(&body)]), Ok(60_000_000 + 2_000_000 + 10_000_000));
}

#[test]
fn validation_is_repeatable() {
    let body = fee_table(&[(1, 16_000_000, 8_000_000)]);
    let a = args("create_sub_account", 100, 1, 0, &commitment(&body), &[record(1, &[b"a"])]);
    let ws = vec![vec![1, 2, 3], witness(&body)];
    assert_eq!(validate(&a, &ws), validate(&a, &ws));
    let ok = args("create_sub_account", 100, u64::MAX, 0, &commitment(&body), &[record(1, &[b"a"])]);
    assert_eq!(validate(&ok, &ws), validate(&ok, &ws));
    assert_eq!(validate(&ok, &ws), Ok(16_000_000_000_000));
}

#[test]
fn repeated_threshold_is_config_error() {
    let body = fee_table(&[(1, 3, 3), (2, 2, 2), (2, 1, 1)]);
    let a = args("create_sub_account", 100, u64::MAX, 0, &commitment(&body), &[record(1, &[b"a"])]);
    assert_eq!(validate(&a, &vec![witness(&body)]), Err(Error::ConfigValueError));
    assert!(!check_tiers(&vec![(1, 3, 3), (2, 2, 2), (2, 1, 1)]));
    assert!(check_tiers(&vec![(0, 3, 3), (2, 2, 2), (3, 1, 1)]));
}

#[test]
fn empty_fee_table_is_config_error() {
    let body = fee_table(&[]);
    let digest = blake2b_256(&body);
    assert_eq!(check_config(&body, &digest, &digest[0..10]), Err(Error::ConfigValueError));
}

#[test]
fn only_tagged_witness_with_wrong_hash_is_mismatch() {
    let body = fee_table(&[(1, 16, 8)]);
    let wrong = commitment(b"something else");
    let ws = vec![vec![9u8; 40], vec![1, 2, 3], witness(&body), vec![0u8; 15]];
    assert_eq!(find_config(&ws, &wrong), Err(Error::WitnessHashMismatch));
    let a = args("create_sub_account", 100, u64::MAX, 0, &wrong, &[record(1, &[b"a"])]);
    assert_eq!(validate(&a, &ws), Err(Error::WitnessHashMismatch));
}

#[test]
fn only_the_first_tagged_witness_is_read() {
    let good = fee_table(&[(1, 16, 8)]);
    let other = fee_table(&[(1, 1, 1)]);
    let ws = vec![witness(&other), witness(&good)];
    assert_eq!(find_config(&ws, &commitment(&good)), Err(Error::WitnessHashMismatch));
    let ws = vec![witness(&good), witness(&other)];
    assert_eq!(find_config(&ws, &commitment(&good)), Ok(vec![(1, 16, 8)]));
}

#[test]
fn missing_witness_is_reported() {
    let ws = vec![vec![1u8; 20], HEADER.to_vec()];
    assert_eq!(find_config(&ws, &[0u8; 10]), Err(Error::CanNotFindWitness));
    assert_eq!(find_config(&vec![], &[0u8; 10]), Err(Error::CanNotFindWitness));
}

#[test]
fn undecodable_witness_body() {
    let body = vec![1u8, 2, 3, 4, 5];
    assert_eq!(read_config(&witness(&body), &commitment(&body)), Err(Error::WitnessDecodingError));
    let mut short = HEADER.to_vec();
    short.extend_from_slice(&[0, 0]);
    assert_eq!(read_config(&short, &[0u8; 10]), Err(Error::WitnessDecodingError));
}

#[test]
fn scan_steps() {
    assert_eq!(scan_step(&Probe::Fits), ScanStep::Next);
    assert_eq!(scan_step(&Probe::Longer { head: HEADER.to_vec() }), ScanStep::Fetch);
    assert_eq!(scan_step(&Probe::Longer { head: b"script-002".to_vec() }), ScanStep::Next);
    assert_eq!(scan_step(&Probe::Exhausted), ScanStep::Stop(Error::CanNotFindWitness));
    assert_eq!(scan_step(&Probe::Fault(3)), ScanStep::Stop(Error::Source(3)));
}

#[test]
fn argument_errors() {
    assert_eq!(parse_args(&vec![]).err(), Some(Error::InvalidArgument));
    assert_eq!(parse_args(&vec![vec![0xff, 0xfe]]).err(), Some(Error::InvalidArgument));
    assert_eq!(parse_args(&vec![b"transfer".to_vec()]).err(), Some(Error::ActionNotSupported));
    assert_eq!(parse_args(&vec![b"get_price".to_vec()]).err(), Some(Error::ActionNotSupported));
    let few = args("create_sub_account", 100, 1, 1, &[0u8; 10], &[]);
    assert_eq!(parse_args(&few).err(), Some(Error::InvalidArgument));
    let mut bad_quote = args("create_sub_account", 100, 1, 1, &[0u8; 10], &[vec![0u8; 4]]);
    bad_quote[1] = vec![1, 0, 0, 0, 0, 0, 0];
    assert_eq!(parse_args(&bad_quote).err(), Some(Error::InvalidArgument));
    let bad_hash = args("create_sub_account", 100, 1, 1, &[0u8; 9], &[vec![0u8; 4]]);
    assert_eq!(parse_args(&bad_hash).err(), Some(Error::InvalidArgument));
    let zero_quote = args("renew_sub_account", 0, 1, 1, &[0u8; 10], &[vec![0u8; 4]]);
    assert_eq!(parse_args(&zero_quote).unwrap().quote, 0);
}

#[test]
fn arguments_parsed() {
    let a = args("renew_sub_account", 7, 8, 9, &[5u8; 10], &[vec![1, 2, 3, 4, 5], vec![6; 4]]);
    let q = parse_args(&a).unwrap();
    assert_eq!(q.action, Action::RenewSubAccount);
    assert_eq!((q.quote, q.owner_profit, q.das_profit), (7, 8, 9));
    assert_eq!(q.witness_hash, vec![5u8; 10]);
    assert_eq!(q.records, vec![vec![1, 2, 3, 4, 5], vec![6; 4]]);
}

#[test]
fn record_errors() {
    let tiers = vec![(1u8, 16u64, 8u64)];
    let mut req = Request {
        action: Action::CreateSubAccount,
        quote: 100,
        owner_profit: u64::MAX,
        das_profit: 0,
        witness_hash: vec![0u8; 10],
        records: vec![vec![1, 0, 0]],
    };
    assert_eq!(check_profit(&req, &tiers), Err(Error::InvalidArgument));
    req.records = vec![vec![1, 0, 0, 0, 9, 9, 9]];
    assert_eq!(check_profit(&req, &tiers), Err(Error::InvalidSubAccountData));
    req.records = vec![record(1, &[&[0xff]])];
    assert_eq!(check_profit(&req, &tiers), Err(Error::InvalidSubAccountData));
    req.records = vec![record(1, &[b"a"]), vec![]];
    assert_eq!(check_profit(&req, &tiers), Err(Error::InvalidArgument));
}

#[test]
fn witness_search_comes_before_records() {
    let a = args("create_sub_account", 100, 1, 0, &[0u8; 10], &[vec![1]]);
    assert_eq!(validate(&a, &vec![]), Err(Error::CanNotFindWitness));
}

#[test]
fn huge_total_saturates() {
    let tiers = vec![(1u8, u64::MAX, u64::MAX)];
    let req = Request {
        action: Action::CreateSubAccount,
        quote: 1,
        owner_profit: u64::MAX,
        das_profit: u64::MAX,
        witness_hash: vec![0u8; 10],
        records: vec![record(u32::MAX, &[b"a"]), record(u32::MAX, &[b"b"])],
    };
    // each record costs (2^64 - 1) * (2^32 - 1) * 10^8, below u128::MAX
    let each = (u64::MAX as u128) * (u32::MAX as u128) * 100_000_000;
    assert_eq!(
        check_profit(&req, &tiers),
        Err(Error::InvalidProfit { total: 2 * each, available: 2 * (u64::MAX as u128) })
    );
    let req = Request { records: vec![record(u32::MAX, &[b"a"]); 50], ..req };
    assert_eq!(
        check_profit(&req, &tiers),
        Err(Error::InvalidProfit { total: u128::MAX, available: 2 * (u64::MAX as u128) })
    );
}

#[test]
fn entry_reports_status() {
    let body = fee_table(&[(1, 16_000_000, 8_000_000)]);
    let ws = vec![witness(&body)];
    let ok = args("create_sub_account", 100, u64::MAX, 0, &commitment(&body), &[record(1, &[b"a"])]);
    assert_eq!(program_entry(&ok, &ws), 0);
    let short = args("create_sub_account", 100, 1, 0, &commitment(&body), &[record(1, &[b"a"])]);
    assert_eq!(program_entry(&short, &ws), 17);
    assert_eq!(program_entry(&vec![b"mint".to_vec()], &ws), 11);
    assert_eq!(Error::Source(3).code(), 3);
    assert_eq!(Error::Source(200).code(), 9);
}

#[test]
fn zero_quote_refused_just_before_pricing() {
    let body = fee_table(&[(1, 16_000_000, 8_000_000)]);
    let ws = vec![witness(&body)];
    let ok = args("create_sub_account", 0, u64::MAX, 0, &commitment(&body), &[record(1, &[b"a"])]);
    assert_eq!(validate(&ok, &ws), Err(Error::InvalidArgument));
    assert_eq!(program_entry(&ok, &ws), 10);
}

#[test]
fn zero_quote_after_witness_and_record_errors() {
    let body = fee_table(&[(1, 16_000_000, 8_000_000)]);
    let good = vec![record(1, &[b"a"])];
    let a = args("create_sub_account", 0, 1, 0, &commitment(&body), &good);
    assert_eq!(validate(&a, &vec![]), Err(Error::CanNotFindWitness));
    let wrong = args("create_sub_account", 0, 1, 0, &commitment(b"other"), &good);
    assert_eq!(validate(&wrong, &vec![witness(&body)]), Err(Error::WitnessHashMismatch));
    let bad_table = fee_table(&[(1, 3, 3), (2, 2, 2), (2, 1, 1)]);
    let a = args("create_sub_account", 0, 1, 0, &commitment(&bad_table), &good);
    assert_eq!(validate(&a, &vec![witness(&bad_table)]), Err(Error::ConfigValueError));
    let empty = fee_table(&[]);
    let a = args("create_sub_account", 0, 1, 0, &commitment(&empty), &good);
    assert_eq!(validate(&a, &vec![witness(&empty)]), Err(Error::ConfigValueError));
    let bad_record = vec![record(1, &[b"a"]), vec![1, 0, 0, 0, 9]];
    let a = args("create_sub_account", 0, 1, 0, &commitment(&body), &bad_record);
    assert_eq!(validate(&a, &vec![witness(&body)]), Err(Error::InvalidSubAccountData));
}

#[test]
fn settle_checks_records_then_quote() {
    let tiers = vec![(1u8, 16u64, 8u64)];
    let req = Request {
        action: Action::CreateSubAccount,
        quote: 0,
        owner_profit: u64::MAX,
        das_profit: 0,
        witness_hash: vec![0u8; 10],
        records: vec![record(1, &[&[0xff]])],
    };
    assert_eq!(settle(&req, &tiers), Err(Error::InvalidSubAccountData));
    assert_eq!(decode_records(&req.records), Some(Error::InvalidSubAccountData));
    let req = Request { records: vec![record(1, &[b"a"])], ..req };
    assert_eq!(decode_records(&req.records), None);
    assert_eq!(settle(&req, &tiers), Err(Error::InvalidArgument));
    let req = Request { quote: 100, ..req };
    assert_eq!(settle(&req, &tiers), Ok(16_000_000));
}

//! Finding and authenticating the fee table among the witnesses.
use crate::codec::decode_price_config_list;
use crate::codec::price_config_list;
use crate::codec::seqs_of;
use crate::codec::Tier;
use crate::constants::is_witness_header;
use crate::constants::witness_header;
use crate::constants::WITNESS_HEADER_BYTES;
use crate::constants::WITNESS_VERSION_BYTES;
use crate::error::Error;
use crate::price::strictly_increasing;
use crate::util::blake2b_256;
use crate::util::ckb_hash;
use vstd::prelude::*;
use vstd::slice::slice_subrange;

verus! {

/// A fee table is usable when it has a tier and its lengths increase.
pub open spec fn tiers_outcome(tiers: Seq<Tier>) -> Result<Seq<Tier>, Error> {
    if tiers.len() == 0 || !strictly_increasing(tiers) {
        Err(Error::ConfigValueError)
    } else {
        Ok(tiers)
    }
}

/// The fee table of a witness body whose digest is `digest`, checked
/// against the first ten bytes of the digest committed to.
pub open spec fn config_outcome(body: Seq<u8>, digest: Seq<u8>, commitment: Seq<u8>) -> Result<
    Seq<Tier>,
    Error,
> {
    if digest.subrange(0, 10) != commitment {
        Err(Error::WitnessHashMismatch)
    } else {
        match price_config_list(body) {
            None => Err(Error::WitnessDecodingError),
            Some(t) => tiers_outcome(t),
        }
    }
}

/// The fee table of a whole configuration witness: tag, version, body.
pub open spec fn witness_outcome(blob: Seq<u8>, commitment: Seq<u8>) -> Result<Seq<Tier>, Error> {
    if blob.len() < 14 {
        Err(Error::WitnessDecodingError)
    } else {
        let body = blob.subrange(14, blob.len() as int);
        config_outcome(body, ckb_hash(body), commitment)
    }
}

/// A witness longer than the tag that starts with the tag.
pub open spec fn tagged(w: Seq<u8>) -> bool {
    w.len() > 10 && w.subrange(0, 10) == witness_header()
}

/// The fee table found from witness `i` on: only the first tagged witness
/// is read.
pub open spec fn scan_from(ws: Seq<Seq<u8>>, i: int, commitment: Seq<u8>) -> Result<
    Seq<Tier>,
    Error,
>
    decreases ws.len() - i,
{
    if i < 0 || i >= ws.len() {
        Err(Error::CanNotFindWitness)
    } else if tagged(ws[i]) {
        witness_outcome(ws[i], commitment)
    } else {
        scan_from(ws, i + 1, commitment)
    }
}

/// Whether the fee table has a tier and strictly increasing lengths.
pub fn check_tiers(tiers: &Vec<Tier>) -> (r: bool)
    ensures
        r == (tiers@.len() > 0 && strictly_increasing(tiers@)),
{
    if tiers.len() == 0 {
        return false;
    }
    let mut prev_len: u8 = tiers[0].0;
    let mut i: usize = 1;
    while i < tiers.len()
        invariant
            1 <= i <= tiers@.len(),
            prev_len == tiers@[i - 1].0,
            forall|k: int| 0 < k < i ==> #[trigger] tiers@[k].0 > tiers@[k - 1].0,
        decreases tiers@.len() - i,
    {
        let len = tiers[i].0;
        if len <= prev_len {
            assert(!(tiers@[i as int].0 > tiers@[i - 1].0));
            return false;
        }
        prev_len = len;
        i = i + 1;
    }
    true
}

/// Checks a witness body against the commitment, given the body's digest,
/// and decodes and checks its fee table.
pub fn check_config(body: &[u8], digest: &[u8], commitment: &[u8]) -> (r: Result<Vec<Tier>, Error>)
    requires
        digest@.len() == 32,
    ensures
        match r {
            Ok(v) => config_outcome(body@, digest@, commitment@) == Ok::<Seq<Tier>, Error>(v@),
            Err(e) => config_outcome(body@, digest@, commitment@) == Err::<Seq<Tier>, Error>(e),
        },
{
    let mut same = commitment.len() == 10;
    let mut i: usize = 0;
    while same && i < 10
        invariant
            0 <= i <= 10,
            digest@.len() == 32,
            same ==> commitment@.len() == 10,
            same ==> forall|k: int| 0 <= k < i ==> digest@[k] == commitment@[k],
            !same ==> digest@.subrange(0, 10) != commitment@,
        decreases 10 - i,
    {
        if digest[i] != commitment[i] {
            assert(digest@.subrange(0, 10)[i as int] != commitment@[i as int]);
            same = false;
        }
        i = i + 1;
    }
    if !same {
        return Err(Error::WitnessHashMismatch);
    }
    assert(digest@.subrange(0, 10) =~= commitment@);
    let tiers = match decode_price_config_list(body) {
        Some(t) => t,
        None => return Err(Error::WitnessDecodingError),
    };
    if !check_tiers(&tiers) {
        return Err(Error::ConfigValueError);
    }
    Ok(tiers)
}

/// Authenticates a whole configuration witness against the commitment and
/// decodes its fee table.
pub fn read_config(blob: &[u8], commitment: &[u8]) -> (r: Result<Vec<Tier>, Error>)
    ensures
        match r {
            Ok(v) => witness_outcome(blob@, commitment@) == Ok::<Seq<Tier>, Error>(v@),
            Err(e) => witness_outcome(blob@, commitment@) == Err::<Seq<Tier>, Error>(e),
        },
{
    if blob.len() < WITNESS_HEADER_BYTES + WITNESS_VERSION_BYTES {
        return Err(Error::WitnessDecodingError);
    }
    let body = slice_subrange(blob, WITNESS_HEADER_BYTES + WITNESS_VERSION_BYTES, blob.len());
    let hash = blake2b_256(body);
    check_config(body, hash.as_slice(), commitment)
}

/// Whether a witness is longer than the tag and starts with it.
fn is_tagged(w: &[u8]) -> (r: bool)
    ensures
        r == tagged(w@),
{
    if w.len() <= WITNESS_HEADER_BYTES {
        return false;
    }
    let head = slice_subrange(w, 0, WITNESS_HEADER_BYTES);
    is_witness_header(head)
}

/// Finds the fee table among `witnesses`, taken in index order.
pub fn find_config(witnesses: &Vec<Vec<u8>>, commitment: &[u8]) -> (r: Result<Vec<Tier>, Error>)
    ensures
        match r {
            Ok(v) => scan_from(seqs_of(witnesses@), 0, commitment@) == Ok::<Seq<Tier>, Error>(v@),
            Err(e) => scan_from(seqs_of(witnesses@), 0, commitment@) == Err::<Seq<Tier>, Error>(e),
        },
{
    let ghost ws = seqs_of(witnesses@);
    let mut i: usize = 0;
    while i < witnesses.len()
        invariant
            0 <= i <= witnesses@.len(),
            ws == seqs_of(witnesses@),
            scan_from(ws, 0, commitment@) == scan_from(ws, i as int, commitment@),
        decreases witnesses@.len() - i,
    {
        assert(witnesses@[i as int]@ == ws[i as int]);
        if is_tagged(witnesses[i].as_slice()) {
            return read_config(witnesses[i].as_slice(), commitment);
        }
        i = i + 1;
    }
    Err(Error::CanNotFindWitness)
}

/// What reading the first bytes of a witness into a buffer of the tag's
/// width gave.
#[derive(Debug, Clone)]
pub enum Probe {
    /// The whole witness fitted.
    Fits,
    /// The witness is longer; `head` holds its first bytes.
    Longer { head: Vec<u8> },
    /// There is no witness at this index.
    Exhausted,
    /// The source failed with this code.
    Fault(u64),
}

/// What to do after a probe.
#[derive(Debug, Clone, Copy, PartialEq, Eq, Structural)]
pub enum ScanStep {
    /// Go on with the next index.
    Next,
    /// Read this witness whole and pass it to `read_config`.
    Fetch,
    /// Give up with this error.
    Stop(Error),
}

/// Decides one step of the witness scan from a probe.
pub fn scan_step(p: &Probe) -> (r: ScanStep)
    ensures
        match p {
            Probe::Fits => r == ScanStep::Next,
            Probe::Longer { head } => r == if head@ == witness_header() {
                ScanStep::Fetch
            } else {
                ScanStep::Next
            },
            Probe::Exhausted => r == ScanStep::Stop(Error::CanNotFindWitness),
            Probe::Fault(c) => r == ScanStep::Stop(Error::Source(*c)),
        },
{
    match p {
        Probe::Fits => ScanStep::Next,
        Probe::Longer { head } => {
            if is_witness_header(head.as_slice()) {
                ScanStep::Fetch
            } else {
                ScanStep::Next
            }
        },
        Probe::Exhausted => ScanStep::Stop(Error::CanNotFindWitness),
        Probe::Fault(c) => ScanStep::Stop(Error::Source(*c)),
    }
}

proof fn lemma_scan_skips(ws: Seq<Seq<u8>>, c: Seq<u8>, i: int, k: int)
    requires
        0 <= i <= k < ws.len(),
        forall|j: int| i <= j < k ==> !tagged(#[trigger] ws[j]),
    ensures
        scan_from(ws, i, c) == scan_from(ws, k, c),
    decreases k - i,
{
    if i < k {
        lemma_scan_skips(ws, c, i + 1, k);
    }
}

/// Only the first tagged witness is authenticated: when it does not hash
/// to the commitment the scan fails with a hash mismatch, whatever follows
/// it, and never reports the witness as missing.
pub proof fn lemma_first_tagged_mismatch(ws: Seq<Seq<u8>>, commitment: Seq<u8>, k: int)
    requires
        0 <= k < ws.len(),
        forall|j: int| 0 <= j < k ==> !tagged(#[trigger] ws[j]),
        tagged(ws[k]),
        ws[k].len() >= 14,
        ckb_hash(ws[k].subrange(14, ws[k].len() as int)).subrange(0, 10) != commitment,
    ensures
        scan_from(ws, 0, commitment) == Err::<Seq<Tier>, Error>(Error::WitnessHashMismatch),
{
    lemma_scan_skips(ws, commitment, 0, k);
}

/// A fee table where some tier's length does not exceed the one before it
/// (such as lengths 1, 2, 2) is refused with `ConfigValueError`, also when
/// the witness carrying it is authentic.
pub proof fn lemma_non_increasing_refused(
    body: Seq<u8>,
    digest: Seq<u8>,
    commitment: Seq<u8>,
    tiers: Seq<Tier>,
    i: int,
)
    requires
        0 < i < tiers.len(),
        tiers[i].0 <= tiers[i - 1].0,
        digest.subrange(0, 10) == commitment,
        price_config_list(body) == Some(tiers),
    ensures
        tiers_outcome(tiers) == Err::<Seq<Tier>, Error>(Error::ConfigValueError),
        config_outcome(body, digest, commitment) == Err::<Seq<Tier>, Error>(
            Error::ConfigValueError,
        ),
{
    assert(!(tiers[i].0 > tiers[i - 1].0));
}

} // verus!

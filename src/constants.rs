//! Fixed values of the witness format and of the hash.
use vstd::prelude::*;

verus! {

/// Width of the tag that starts a configuration witness.
pub const WITNESS_HEADER_BYTES: usize = 10;

/// Width of the version field that follows the tag.
pub const WITNESS_VERSION_BYTES: usize = 4;

/// Width of a digest.
pub const CKB_HASH_DIGEST: usize = 32;

/// The tag that starts a configuration witness: `script-001`.
pub open spec fn witness_header() -> Seq<u8> {
    seq![115u8, 99u8, 114u8, 105u8, 112u8, 116u8, 45u8, 48u8, 48u8, 49u8]
}

/// Whether `b` is exactly the witness tag.
pub fn is_witness_header(b: &[u8]) -> (r: bool)
    ensures
        r == (b@ == witness_header()),
{
    let r = b.len() == 10 && b[0] == 115 && b[1] == 99 && b[2] == 114 && b[3] == 105 && b[4]
        == 112 && b[5] == 116 && b[6] == 45 && b[7] == 48 && b[8] == 48 && b[9] == 49;
    proof {
        if r {
            assert(b@ =~= witness_header());
        } else if b@.len() == 10 {
            assert(b@ != witness_header()) by {
                if b@ == witness_header() {
                    assert(b@[0] == witness_header()[0]);
                    assert(b@[9] == witness_header()[9]);
                }
            }
        }
    }
    r
}

} // verus!

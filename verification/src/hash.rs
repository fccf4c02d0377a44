use vstd::prelude::*;

use crate::record::{enc_script, ScriptModel};
use crate::record::Script;
use crate::codec::encode_script;

verus! {

/// The ledger's 256-bit hash: blake2b with a 32-byte output and the
/// ledger's fixed personalization. A pure function of the input bytes.
pub uninterp spec fn blake2b256(data: Seq<u8>) -> Seq<u8>;

/// Relies on blake2b_rs::Blake2bBuilder / Blake2b (new, personal, build,
/// update, finalize): blake2b-256 under the personalization
/// "ckb-default-hash", a deterministic function of the input bytes alone,
/// always yielding a 32-byte digest.
#[verifier::external_body]
pub fn ckb_hash(data: &[u8]) -> (r: Vec<u8>)
    ensures
        r@ == blake2b256(data@),
        r@.len() == 32,
{
    let mut hasher = blake2b_rs::Blake2bBuilder::new(32).personal(b"ckb-default-hash").build();
    hasher.update(data);
    let mut out = [0u8; 32];
    hasher.finalize(&mut out);
    out.to_vec()
}

/// The 32-byte zero digest the host reports for an empty data payload.
pub open spec fn zero32() -> Seq<u8> {
    Seq::new(32, |i: int| 0u8)
}

/// The digest under which a cell's data payload is addressed: the ledger
/// reports all zeroes for empty data, the 256-bit hash otherwise.
pub open spec fn data_digest(d: Seq<u8>) -> Seq<u8> {
    if d.len() == 0 {
        zero32()
    } else {
        blake2b256(d)
    }
}

/// Computes the digest under which a data payload is addressed.
pub fn cell_data_digest(d: &[u8]) -> (r: Vec<u8>)
    ensures
        r@ == data_digest(d@),
        r@.len() == 32,
{
    if d.len() == 0 {
        let r: Vec<u8> = vec![0u8; 32];
        proof {
            assert(r@ =~= zero32());
        }
        r
    } else {
        ckb_hash(d)
    }
}

/// The digest under which a verifier reference is addressed: the 256-bit
/// hash of its encoding.
pub open spec fn script_digest(s: ScriptModel) -> Seq<u8> {
    blake2b256(enc_script(s))
}

/// Computes the digest under which a verifier reference is addressed.
pub fn cell_script_digest(s: &Script) -> (r: Vec<u8>)
    requires
        s@.wf(),
    ensures
        r@ == script_digest(s@),
        r@.len() == 32,
{
    let enc = encode_script(s);
    ckb_hash(enc.as_slice())
}

} // verus!

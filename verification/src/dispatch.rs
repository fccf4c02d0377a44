use vstd::prelude::*;

use base64::Engine;

use crate::cells::{
    count_matching, first_matching, lemma_count_bounds, lemma_count_zero,
    lemma_first_matching_of_witness, CellModel, Transaction, TxModel,
};
use crate::codec::{decode_component_definition, encode_fixvec};
use crate::error::Error;
use crate::hash::{cell_data_digest, cell_script_digest, data_digest, script_digest};
use crate::record::{
    enc_definition, enc_fixvec, spec_decode_definition, DefinitionModel, Script, ScriptModel,
};
use crate::codec_laws::lemma_decode_enc_definition;
use crate::wire::bytes_eq;
use vstd::slice::slice_to_vec;

verus! {

// ---------------------------------------------------------------------------
// The delegated-dispatch protocol: the invoking verifier's argument names,
// by digest, a definition record committed among the transaction's
// dependency cells; the record names the delegate verifier to which
// control is handed.
// ---------------------------------------------------------------------------

/// What the base64 engine produces, without padding, for the given bytes.
pub uninterp spec fn base64_nopad(data: Seq<u8>) -> Seq<u8>;

/// Relies on base64's STANDARD_NO_PAD engine (standard alphabet, no
/// padding): a deterministic function of the input bytes alone; the output
/// holds four characters per three input bytes, rounded up without
/// padding, and every character is from the alphabet, so never a zero
/// byte. The length bound keeps the engine's size computation from
/// overflowing.
#[verifier::external_body]
fn base64_encode_nopad(data: &[u8]) -> (r: Vec<u8>)
    requires
        data@.len() < 0x4000_0000,
    ensures
        r@ == base64_nopad(data@),
        r@.len() == (data@.len() * 4 + 2) / 3,
        forall|i: int| 0 <= i < r@.len() ==> r@[i] != 0,
{
    base64::engine::general_purpose::STANDARD_NO_PAD.encode(data).into_bytes()
}

/// A resolved dispatch: the delegate's code identity and kind as the
/// record names them, and the invoking verifier's original argument bytes,
/// handed on so the delegate can recover the request context.
pub struct Delegate {
    pub code_hash: Vec<u8>,
    pub hash_type: u8,
    pub request: Vec<u8>,
}

/// Mathematical image of a [`Delegate`].
#[verifier::ext_equal]
pub ghost struct DelegateModel {
    pub code_hash: Seq<u8>,
    pub hash_type: u8,
    pub request: Seq<u8>,
}

impl View for Delegate {
    type V = DelegateModel;

    open spec fn view(&self) -> DelegateModel {
        DelegateModel {
            code_hash: self.code_hash@,
            hash_type: self.hash_type,
            request: self.request@,
        }
    }
}

/// Only two code-identity kinds matter to the handoff: kind 1 addresses by
/// type digest, everything else by data digest.
pub open spec fn spec_normalize_hash_type(b: u8) -> u8 {
    if b == 1 {
        1
    } else {
        0
    }
}

/// Collapses a stored code-identity kind to the two that the handoff
/// distinguishes.
pub fn normalize_hash_type(b: u8) -> (r: u8)
    ensures
        r == spec_normalize_hash_type(b),
{
    if b == 1 {
        1
    } else {
        0
    }
}

/// Membership of a dependency cell in the addressed class: its type
/// reference's digest (kind 1) or its data digest (any other kind) equals
/// the target digest.
pub open spec fn dep_match_pred(target: Seq<u8>, by_type: bool) -> spec_fn(CellModel) -> bool {
    |c: CellModel|
        if by_type {
            match c.type_ref {
                Some(t) => script_digest(t) == target,
                None => false,
            }
        } else {
            data_digest(c.data) == target
        }
}

/// The handoff a record resolves to: the delegate it names, with its kind
/// collapsed, carrying the invoking verifier's request bytes.
pub open spec fn delegate_of(d: DefinitionModel, request: Seq<u8>) -> DelegateModel {
    match d {
        DefinitionModel::V1(r) => DelegateModel {
            code_hash: r.delegate.code_hash,
            hash_type: spec_normalize_hash_type(r.delegate.hash_type),
            request,
        },
    }
}

/// Outcome of the dispatch protocol: the argument must hold a 32-byte
/// target digest and a kind byte; the first dependency cell addressed by
/// the digest must exist and its data must parse, under a compatible read,
/// as a definition record. The delegate the record names is handed back,
/// with the invoking argument bytes, for the control transfer.
pub open spec fn spec_verify_component_type(tx: TxModel, s: ScriptModel) -> Result<
    DelegateModel,
    Error,
> {
    if s.args.len() < 33 {
        Err(Error::InvalidArgs)
    } else {
        let p = dep_match_pred(s.args.subrange(0, 32), s.args[32] == 1);
        if count_matching(tx.deps, p) == 0 {
            Err(Error::ComponentDefinitionNotFound)
        } else {
            match spec_decode_definition(tx.deps[first_matching(tx.deps, p)].data, true) {
                Err(_) => Err(Error::InvalidComponentDefinition),
                Ok(d) => Ok(delegate_of(d, s.args)),
            }
        }
    }
}

/// Position of the first dependency cell in the addressed class, if any.
#[verifier::loop_isolation(false)]
fn find_matching_dep(tx: &Transaction, target: &[u8], by_type: bool) -> (r: Option<usize>)
    requires
        tx@.wf(),
    ensures
        match r {
            Some(k) => {
                &&& count_matching(tx@.deps, dep_match_pred(target@, by_type)) > 0
                &&& (k as int) < tx@.deps.len()
                &&& k as int == first_matching(tx@.deps, dep_match_pred(target@, by_type))
            },
            None => count_matching(tx@.deps, dep_match_pred(target@, by_type)) == 0,
        },
{
    let ghost p = dep_match_pred(target@, by_type);
    let ghost cells = tx@.deps;
    let mut i: usize = 0;
    while i < tx.deps.len()
        invariant
            i <= tx.deps@.len(),
            forall|j: int| 0 <= j < i ==> !p(cells[j]),
        decreases tx.deps@.len() - i,
    {
        proof {
            assert(tx@.deps[i as int].wf());
            assert(tx@.deps[i as int] == tx.deps@[i as int]@);
        }
        let matched: bool = if by_type {
            match &tx.deps[i].type_ref {
                Some(t) => {
                    let dg = cell_script_digest(t);
                    bytes_eq(dg.as_slice(), target)
                },
                None => false,
            }
        } else {
            let dg = cell_data_digest(tx.deps[i].data.as_slice());
            bytes_eq(dg.as_slice(), target)
        };
        proof {
            assert(matched == p(cells[i as int]));
        }
        if matched {
            proof {
                lemma_first_matching_of_witness(cells, p, i as int);
                lemma_count_zero(cells, p);
                lemma_count_bounds(cells, p);
            }
            return Some(i);
        }
        i = i + 1;
    }
    proof {
        lemma_count_zero(cells, p);
    }
    None
}

/// Resolves the dispatch over the transaction snapshot, for the invoking
/// type reference `script`: the result names the delegate verifier to
/// launch. The launch itself is the host's one-way control transfer.
#[verifier::rlimit(100)]
pub fn verify_component_type(tx: &Transaction, script: &Script) -> (r: Result<Delegate, Error>)
    requires
        tx@.wf(),
    ensures
        r matches Ok(d) ==> spec_verify_component_type(tx@, script@) == Ok::<
            DelegateModel,
            Error,
        >(d@),
        r matches Err(e) ==> spec_verify_component_type(tx@, script@) == Err::<
            DelegateModel,
            Error,
        >(e),
{
    if script.args.len() < 33 {
        return Err(Error::InvalidArgs);
    }
    let target = &script.args[0..32];
    let by_type = script.args[32] == 1;
    proof {
        assert(target@ == script@.args.subrange(0, 32));
    }
    let k = match find_matching_dep(tx, target, by_type) {
        Some(k) => k,
        None => {
            return Err(Error::ComponentDefinitionNotFound);
        },
    };
    match decode_component_definition(tx.deps[k].data.as_slice(), true) {
        Err(_) => Err(Error::InvalidComponentDefinition),
        Ok(d) => {
            let (code_hash, hash_type) = match d {
                crate::record::ComponentDefinition::V1(r) => {
                    (r.delegate.code_hash, r.delegate.hash_type)
                },
            };
            let request = slice_to_vec(script.args.as_slice());
            Ok(Delegate { code_hash, hash_type: normalize_hash_type(hash_type), request })
        },
    }
}

/// The argument vector entry handed to the delegate: the request bytes
/// re-encoded length-prefixed and in unpadded base64, closed with a
/// terminator, so the handoff boundary, which takes C strings, carries
/// them intact. Every byte before the terminator is from the base64
/// alphabet, so the terminator is the only zero byte.
pub open spec fn spec_exec_arg(request: Seq<u8>) -> Seq<u8> {
    base64_nopad(enc_fixvec(request)) + seq![0u8]
}

/// Builds the delegate's argument-vector entry.
pub fn delegate_exec_arg(request: &[u8]) -> (r: Vec<u8>)
    requires
        request@.len() + 4 < 0x4000_0000,
    ensures
        r@ == spec_exec_arg(request@),
        r@.len() >= 1,
        r@[r@.len() - 1] == 0,
        forall|i: int| 0 <= i < r@.len() - 1 ==> r@[i] != 0,
{
    let framed = encode_fixvec(request);
    let mut out = base64_encode_nopad(framed.as_slice());
    out.push(0);
    proof {
        assert(out@ =~= spec_exec_arg(request@));
    }
    out
}

// ---------------------------------------------------------------------------
// Laws of the dispatch protocol.
// ---------------------------------------------------------------------------

/// No dependency cell carries the addressed digest: the commitment is
/// absent and dispatch reports it so.
pub proof fn lemma_dispatch_not_found(tx: TxModel, s: ScriptModel)
    requires
        s.args.len() >= 33,
        count_matching(tx.deps, dep_match_pred(s.args.subrange(0, 32), s.args[32] == 1)) == 0,
    ensures
        spec_verify_component_type(tx, s) == Err::<DelegateModel, Error>(
            Error::ComponentDefinitionNotFound,
        ),
{
}

/// The addressed dependency cell exists but its data is no definition
/// record: dispatch rejects the definition.
pub proof fn lemma_dispatch_bad_record(tx: TxModel, s: ScriptModel)
    requires
        s.args.len() >= 33,
        count_matching(tx.deps, dep_match_pred(s.args.subrange(0, 32), s.args[32] == 1)) > 0,
        spec_decode_definition(
            tx.deps[first_matching(
                tx.deps,
                dep_match_pred(s.args.subrange(0, 32), s.args[32] == 1),
            )].data,
            true,
        ) is Err,
    ensures
        spec_verify_component_type(tx, s) == Err::<DelegateModel, Error>(
            Error::InvalidComponentDefinition,
        ),
{
}

/// A definition record committed as the addressed dependency cell resolves
/// and hands control to exactly the delegate the record names, whether it
/// is addressed by data digest or by type digest.
pub proof fn lemma_committed_definition_dispatches(tx: TxModel, s: ScriptModel, d: DefinitionModel)
    requires
        s.args.len() >= 33,
        count_matching(tx.deps, dep_match_pred(s.args.subrange(0, 32), s.args[32] == 1)) > 0,
        tx.deps[first_matching(
            tx.deps,
            dep_match_pred(s.args.subrange(0, 32), s.args[32] == 1),
        )].data == enc_definition(d),
        d.wf(),
    ensures
        spec_verify_component_type(tx, s) == Ok::<DelegateModel, Error>(delegate_of(d, s.args)),
{
    lemma_decode_enc_definition(d, true);
}

/// Re-validating the same transaction gives the same outcome: the verdict
/// is a function of the snapshot and the invoking reference alone.
pub proof fn lemma_dispatch_revalidation(
    tx: TxModel,
    s: ScriptModel,
    r1: Result<DelegateModel, Error>,
    r2: Result<DelegateModel, Error>,
)
    requires
        r1 == spec_verify_component_type(tx, s),
        r2 == spec_verify_component_type(tx, s),
    ensures
        r1 == r2,
{
}

} // verus!

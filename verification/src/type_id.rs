use vstd::prelude::*;

use crate::cells::{
    count_matching, first_matching, lemma_count_bounds, lemma_count_snoc, lemma_count_zero,
    lemma_first_matching_of_witness, type_ref_is, CellModel, Transaction, TxModel,
};
use crate::codec::decode_component_definition;
use crate::error::Error;
use crate::hash::{blake2b256, ckb_hash};
use crate::record::{spec_decode_definition, Script, ScriptModel};
use crate::wire::{bytes_eq, push_bytes, push_u64_le, u64_bytes};

verus! {

// ---------------------------------------------------------------------------
// The singleton-creation protocol: a fresh identifier class is minted at
// most once, bound to the consumption of the transaction's first input,
// and carried by at most one cell per role thereafter.
// ---------------------------------------------------------------------------

/// Membership in the invoking verifier's group: cells whose type reference
/// is exactly the invoking reference.
pub open spec fn group_pred(s: ScriptModel) -> spec_fn(CellModel) -> bool {
    |c: CellModel| c.type_ref == Some(s)
}

/// How many consumed cells carry the invoking reference as their type.
pub open spec fn input_group_count(tx: TxModel, s: ScriptModel) -> int {
    count_matching(tx.input_cells(), group_pred(s))
}

/// How many produced cells carry the invoking reference as their type.
pub open spec fn output_group_count(tx: TxModel, s: ScriptModel) -> int {
    count_matching(tx.outputs, group_pred(s))
}

/// The only identifier a mint in this transaction may carry: the digest of
/// the first input's serialized reference followed by the little-endian
/// position, among all outputs, of the group's first cell.
pub open spec fn minted_identifier(tx: TxModel, s: ScriptModel) -> Seq<u8> {
    blake2b256(tx.inputs[0].reference + u64_bytes(first_matching(tx.outputs, group_pred(s))))
}

/// Outcome of the singleton protocol: a malformed argument is rejected
/// first; two cells of the class in either role are rejected; an existing
/// input cell makes this an update or deletion, free of further proof; a
/// mint must present exactly the bound identifier as its argument.
pub open spec fn spec_verify_type_id(tx: TxModel, s: ScriptModel) -> Result<(), Error> {
    if s.args.len() != 32 {
        Err(Error::InvalidArgs)
    } else if input_group_count(tx, s) > 1 || output_group_count(tx, s) > 1 {
        Err(Error::TooManyCells)
    } else if input_group_count(tx, s) == 1 {
        Ok(())
    } else if s.args == minted_identifier(tx, s) {
        Ok(())
    } else {
        Err(Error::InvalidTypeID)
    }
}

/// Counts the consumed cells in the invoking reference's group.
#[verifier::loop_isolation(false)]
fn count_inputs_in_group(tx: &Transaction, script: &Script) -> (n: usize)
    ensures
        n as int == input_group_count(tx@, script@),
{
    let ghost cells = tx@.input_cells();
    let ghost p = group_pred(script@);
    proof {
        lemma_count_bounds(cells, p);
    }
    let mut n: usize = 0;
    let mut i: usize = 0;
    while i < tx.inputs.len()
        invariant
            i <= tx.inputs@.len(),
            n as int == count_matching(cells.take(i as int), p),
            n <= i,
        decreases tx.inputs@.len() - i,
    {
        proof {
            lemma_count_snoc(cells.take(i as int), p, cells[i as int]);
            assert(cells.take(i as int + 1) =~= cells.take(i as int).push(cells[i as int]));
        }
        if type_ref_is(&tx.inputs[i].cell.type_ref, script) {
            proof {
                assert(p(cells[i as int]));
            }
            n = n + 1;
        } else {
            proof {
                assert(!p(cells[i as int]));
            }
        }
        i = i + 1;
    }
    proof {
        assert(cells.take(cells.len() as int) =~= cells);
    }
    n
}

/// Counts the produced cells in the invoking reference's group.
#[verifier::loop_isolation(false)]
fn count_outputs_in_group(tx: &Transaction, script: &Script) -> (n: usize)
    ensures
        n as int == output_group_count(tx@, script@),
{
    let ghost cells = tx@.outputs;
    let ghost p = group_pred(script@);
    proof {
        lemma_count_bounds(cells, p);
    }
    let mut n: usize = 0;
    let mut i: usize = 0;
    while i < tx.outputs.len()
        invariant
            i <= tx.outputs@.len(),
            n as int == count_matching(cells.take(i as int), p),
            n <= i,
        decreases tx.outputs@.len() - i,
    {
        proof {
            lemma_count_snoc(cells.take(i as int), p, cells[i as int]);
            assert(cells.take(i as int + 1) =~= cells.take(i as int).push(cells[i as int]));
        }
        if type_ref_is(&tx.outputs[i].type_ref, script) {
            proof {
                assert(p(cells[i as int]));
            }
            n = n + 1;
        } else {
            proof {
                assert(!p(cells[i as int]));
            }
        }
        i = i + 1;
    }
    proof {
        assert(cells.take(cells.len() as int) =~= cells);
    }
    n
}

/// Position, among all produced cells, of the group's first cell.
#[verifier::loop_isolation(false)]
fn find_first_output_in_group(tx: &Transaction, script: &Script) -> (k: usize)
    requires
        output_group_count(tx@, script@) >= 1,
    ensures
        k < tx@.outputs.len(),
        k as int == first_matching(tx@.outputs, group_pred(script@)),
{
    let ghost cells = tx@.outputs;
    let ghost p = group_pred(script@);
    let mut i: usize = 0;
    while i < tx.outputs.len()
        invariant
            i <= tx.outputs@.len(),
            forall|j: int| 0 <= j < i ==> !p(cells[j]),
        decreases tx.outputs@.len() - i,
    {
        if type_ref_is(&tx.outputs[i].type_ref, script) {
            proof {
                assert(p(cells[i as int]));
                lemma_first_matching_of_witness(cells, p, i as int);
            }
            return i;
        }
        i = i + 1;
    }
    proof {
        lemma_count_zero(cells, p);
        assert(false);
    }
    0
}

/// Enforces the singleton protocol over the transaction snapshot, for the
/// invoking type reference `script`.
///
/// The host invokes a type verifier only when its group is inhabited, for
/// a transaction with at least one input; those two facts are this
/// function's preconditions.
pub fn verify_type_id(tx: &Transaction, script: &Script) -> (r: Result<(), Error>)
    requires
        tx@.inputs.len() >= 1,
        input_group_count(tx@, script@) + output_group_count(tx@, script@) >= 1,
    ensures
        r == spec_verify_type_id(tx@, script@),
{
    if script.args.len() != 32 {
        return Err(Error::InvalidArgs);
    }
    let in_count = count_inputs_in_group(tx, script);
    let out_count = count_outputs_in_group(tx, script);
    if in_count > 1 || out_count > 1 {
        return Err(Error::TooManyCells);
    }
    if in_count == 1 {
        return Ok(());
    }
    let k = find_first_output_in_group(tx, script);
    let mut msg: Vec<u8> = Vec::new();
    push_bytes(&mut msg, tx.inputs[0].reference.as_slice());
    push_u64_le(&mut msg, k as u64);
    let digest = ckb_hash(msg.as_slice());
    proof {
        assert(msg@ == tx@.inputs[0].reference + u64_bytes(k as int));
        assert(digest@ == minted_identifier(tx@, script@));
    }
    if bytes_eq(script.args.as_slice(), digest.as_slice()) {
        Ok(())
    } else {
        Err(Error::InvalidTypeID)
    }
}

/// Outcome of checking the group's produced record: no produced cell in
/// the group is fine (a deletion); otherwise the first group cell's data
/// must parse, under a strict read, as a component-definition record.
pub open spec fn spec_verify_component_definition(tx: TxModel, s: ScriptModel) -> Result<
    (),
    Error,
> {
    if output_group_count(tx, s) == 0 {
        Ok(())
    } else if spec_decode_definition(
        tx.outputs[first_matching(tx.outputs, group_pred(s))].data,
        false,
    ) is Ok {
        Ok(())
    } else {
        Err(Error::InvalidData)
    }
}

/// Checks that the record stored in the group's produced cell, if any,
/// parses as a component definition.
pub fn verify_component_definition(tx: &Transaction, script: &Script) -> (r: Result<(), Error>)
    ensures
        r == spec_verify_component_definition(tx@, script@),
{
    let out_count = count_outputs_in_group(tx, script);
    if out_count == 0 {
        return Ok(());
    }
    let k = find_first_output_in_group(tx, script);
    match decode_component_definition(tx.outputs[k].data.as_slice(), false) {
        Ok(_) => Ok(()),
        Err(_) => Err(Error::InvalidData),
    }
}

/// Outcome of the full definition-cell verifier: the singleton protocol
/// first, then the stored record's shape.
pub open spec fn spec_verify_definition_type(tx: TxModel, s: ScriptModel) -> Result<(), Error> {
    match spec_verify_type_id(tx, s) {
        Err(e) => Err(e),
        Ok(()) => spec_verify_component_definition(tx, s),
    }
}

/// The definition-cell verifier's entry: the singleton protocol, then the
/// stored record's shape.
pub fn verify_definition_type(tx: &Transaction, script: &Script) -> (r: Result<(), Error>)
    requires
        tx@.inputs.len() >= 1,
        input_group_count(tx@, script@) + output_group_count(tx@, script@) >= 1,
    ensures
        r == spec_verify_definition_type(tx@, script@),
{
    match verify_type_id(tx, script) {
        Err(e) => Err(e),
        Ok(()) => verify_component_definition(tx, script),
    }
}

// ---------------------------------------------------------------------------
// Laws of the singleton protocol.
// ---------------------------------------------------------------------------

/// A mint accepts exactly the identifier bound to this transaction: the
/// digest of the first input's reference and the first group output's
/// position. Any other 32-byte argument is rejected as a bad identifier.
pub proof fn lemma_mint_binds_identifier(tx: TxModel, s: ScriptModel)
    requires
        s.args.len() == 32,
        tx.inputs.len() >= 1,
        input_group_count(tx, s) == 0,
        output_group_count(tx, s) == 1,
    ensures
        spec_verify_type_id(tx, s) == Ok::<(), Error>(()) <==> s.args == minted_identifier(tx, s),
        s.args != minted_identifier(tx, s) ==> spec_verify_type_id(tx, s) == Err::<(), Error>(
            Error::InvalidTypeID,
        ),
{
}

/// Two cells of one identifier class in the same role are always rejected,
/// whether the class is being minted or updated.
pub proof fn lemma_duplicate_cells_rejected(tx: TxModel, s: ScriptModel)
    requires
        s.args.len() == 32,
        input_group_count(tx, s) > 1 || output_group_count(tx, s) > 1,
    ensures
        spec_verify_type_id(tx, s) == Err::<(), Error>(Error::TooManyCells),
{
}

/// Re-validating the same transaction gives the same outcome: the verdict
/// is a function of the snapshot and the invoking reference alone.
pub proof fn lemma_type_id_revalidation(
    tx: TxModel,
    s: ScriptModel,
    r1: Result<(), Error>,
    r2: Result<(), Error>,
)
    requires
        r1 == spec_verify_definition_type(tx, s),
        r2 == spec_verify_definition_type(tx, s),
    ensures
        r1 == r2,
{
}

} // verus!

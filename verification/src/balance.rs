use vstd::prelude::*;

use crate::cells::{
    count_matching, lemma_count_bounds, lemma_count_zero, lemma_sum_nonneg, lemma_sum_snoc,
    lemma_sum_take_le, script_eq, sum_matching, CellModel, Transaction, TxModel,
};
use crate::codec::encode_script;
use crate::error::Error;
use crate::record::{enc_script, Script, ScriptModel};
use crate::wire::bytes_eq;

verus! {

// ---------------------------------------------------------------------------
// The balance protocol: value attached to a component may move freely back
// to the component or to its declared owner, but may only go elsewhere
// when the owner takes part in the transaction.
// ---------------------------------------------------------------------------

/// Cells locked by the invoking reference itself.
pub open spec fn own_lock_pred(s: ScriptModel) -> spec_fn(CellModel) -> bool {
    |c: CellModel| c.lock == s
}

/// Cells whose lock reference serializes byte-for-byte to the declared
/// owner reference (the invoking verifier's argument bytes).
pub open spec fn owner_lock_pred(owner_args: Seq<u8>) -> spec_fn(CellModel) -> bool {
    |c: CellModel| enc_script(c.lock) == owner_args
}

/// Whether the declared owner is a party to the transaction: some consumed
/// cell is locked by the owner reference.
pub open spec fn owner_present(tx: TxModel, owner_args: Seq<u8>) -> bool {
    count_matching(tx.input_cells(), owner_lock_pred(owner_args)) > 0
}

/// Capacity consumed from the invoking lock's own group.
pub open spec fn inputs_capacity(tx: TxModel, s: ScriptModel) -> int {
    sum_matching(tx.input_cells(), own_lock_pred(s))
}

/// Capacity produced back under the invoking lock.
pub open spec fn outputs_capacity(tx: TxModel, s: ScriptModel) -> int {
    sum_matching(tx.outputs, own_lock_pred(s))
}

/// Capacity produced back under the declared owner's lock.
pub open spec fn unwrapped_capacity(tx: TxModel, owner_args: Seq<u8>) -> int {
    sum_matching(tx.outputs, owner_lock_pred(owner_args))
}

/// Outcome of the balance protocol: with the owner among the inputs,
/// anything goes; otherwise the capacity kept by the component plus the
/// capacity returned to the owner must cover the capacity consumed.
pub open spec fn spec_verify_balance(tx: TxModel, s: ScriptModel) -> Result<(), Error> {
    if owner_present(tx, s.args) {
        Ok(())
    } else if outputs_capacity(tx, s) + unwrapped_capacity(tx, s.args) >= inputs_capacity(tx, s) {
        Ok(())
    } else {
        Err(Error::BalanceError)
    }
}

/// Whether a lock serializes to the declared owner reference.
fn lock_is_owner(lock: &Script, owner_args: &[u8]) -> (r: bool)
    requires
        lock@.wf(),
    ensures
        r <==> enc_script(lock@) == owner_args@,
{
    let e = encode_script(lock);
    bytes_eq(e.as_slice(), owner_args)
}

/// Whether some consumed cell is locked by the declared owner reference.
#[verifier::loop_isolation(false)]
fn owner_among_inputs(tx: &Transaction, owner_args: &[u8]) -> (r: bool)
    requires
        tx@.wf(),
    ensures
        r == owner_present(tx@, owner_args@),
{
    let ghost cells = tx@.input_cells();
    let ghost p = owner_lock_pred(owner_args@);
    let mut i: usize = 0;
    while i < tx.inputs.len()
        invariant
            i <= tx.inputs@.len(),
            forall|j: int| 0 <= j < i ==> !p(cells[j]),
        decreases tx.inputs@.len() - i,
    {
        proof {
            assert(tx@.inputs[i as int].cell.wf());
            assert(tx@.inputs[i as int].cell.lock == tx.inputs@[i as int].cell.lock@);
        }
        if lock_is_owner(&tx.inputs[i].cell.lock, owner_args) {
            proof {
                assert(p(cells[i as int]));
                lemma_count_zero(cells, p);
                lemma_count_bounds(cells, p);
            }
            return true;
        }
        i = i + 1;
    }
    proof {
        lemma_count_zero(cells, p);
    }
    false
}

/// Sums the capacity consumed from the invoking lock's own group.
#[verifier::loop_isolation(false)]
fn sum_group_inputs(tx: &Transaction, script: &Script) -> (n: u64)
    requires
        inputs_capacity(tx@, script@) <= u64::MAX,
    ensures
        n as int == inputs_capacity(tx@, script@),
{
    let ghost cells = tx@.input_cells();
    let ghost p = own_lock_pred(script@);
    let mut n: u64 = 0;
    let mut i: usize = 0;
    while i < tx.inputs.len()
        invariant
            i <= tx.inputs@.len(),
            n as int == sum_matching(cells.take(i as int), p),
        decreases tx.inputs@.len() - i,
    {
        proof {
            lemma_sum_snoc(cells.take(i as int), p, cells[i as int]);
            assert(cells.take(i as int + 1) =~= cells.take(i as int).push(cells[i as int]));
            lemma_sum_take_le(cells, p, i as int + 1, cells.len() as int);
            assert(cells.take(cells.len() as int) =~= cells);
        }
        if script_eq(&tx.inputs[i].cell.lock, script) {
            proof {
                assert(p(cells[i as int]));
                lemma_sum_nonneg(cells.take(i as int), p);
            }
            n = n + tx.inputs[i].cell.capacity;
        } else {
            proof {
                assert(!p(cells[i as int]));
            }
        }
        i = i + 1;
    }
    proof {
        assert(cells.take(cells.len() as int) =~= cells);
    }
    n
}

/// Sums the capacity of produced cells matching the given lock test: kept
/// by the component when compared against the invoking lock, returned to
/// the owner when compared against the owner reference.
#[verifier::loop_isolation(false)]
fn sum_outputs_by_lock(tx: &Transaction, script: &Script) -> (n: u64)
    requires
        outputs_capacity(tx@, script@) <= u64::MAX,
    ensures
        n as int == outputs_capacity(tx@, script@),
{
    let ghost cells = tx@.outputs;
    let ghost p = own_lock_pred(script@);
    let mut n: u64 = 0;
    let mut i: usize = 0;
    while i < tx.outputs.len()
        invariant
            i <= tx.outputs@.len(),
            n as int == sum_matching(cells.take(i as int), p),
        decreases tx.outputs@.len() - i,
    {
        proof {
            lemma_sum_snoc(cells.take(i as int), p, cells[i as int]);
            assert(cells.take(i as int + 1) =~= cells.take(i as int).push(cells[i as int]));
            lemma_sum_take_le(cells, p, i as int + 1, cells.len() as int);
            assert(cells.take(cells.len() as int) =~= cells);
        }
        if script_eq(&tx.outputs[i].lock, script) {
            proof {
                assert(p(cells[i as int]));
                lemma_sum_nonneg(cells.take(i as int), p);
            }
            n = n + tx.outputs[i].capacity;
        } else {
            proof {
                assert(!p(cells[i as int]));
            }
        }
        i = i + 1;
    }
    proof {
        assert(cells.take(cells.len() as int) =~= cells);
    }
    n
}

/// Sums the capacity of produced cells locked by the owner reference.
#[verifier::loop_isolation(false)]
fn sum_outputs_to_owner(tx: &Transaction, owner_args: &[u8]) -> (n: u64)
    requires
        tx@.wf(),
        unwrapped_capacity(tx@, owner_args@) <= u64::MAX,
    ensures
        n as int == unwrapped_capacity(tx@, owner_args@),
{
    let ghost cells = tx@.outputs;
    let ghost p = owner_lock_pred(owner_args@);
    let mut n: u64 = 0;
    let mut i: usize = 0;
    while i < tx.outputs.len()
        invariant
            i <= tx.outputs@.len(),
            n as int == sum_matching(cells.take(i as int), p),
        decreases tx.outputs@.len() - i,
    {
        proof {
            lemma_sum_snoc(cells.take(i as int), p, cells[i as int]);
            assert(cells.take(i as int + 1) =~= cells.take(i as int).push(cells[i as int]));
            lemma_sum_take_le(cells, p, i as int + 1, cells.len() as int);
            assert(cells.take(cells.len() as int) =~= cells);
            assert(tx@.outputs[i as int].wf());
            assert(tx@.outputs[i as int].lock == tx.outputs@[i as int].lock@);
        }
        if lock_is_owner(&tx.outputs[i].lock, owner_args) {
            proof {
                assert(p(cells[i as int]));
                lemma_sum_nonneg(cells.take(i as int), p);
            }
            n = n + tx.outputs[i].capacity;
        } else {
            proof {
                assert(!p(cells[i as int]));
            }
        }
        i = i + 1;
    }
    proof {
        assert(cells.take(cells.len() as int) =~= cells);
    }
    n
}

/// Enforces the balance protocol over the transaction snapshot, for the
/// invoking lock reference `script` whose argument bytes declare the owner.
///
/// The capacity sums are bounded by the ledger's total issuance; the
/// bounds stand as preconditions because exceeding the machine word is a
/// fatal fault, not a rejection.
pub fn verify_balance(tx: &Transaction, script: &Script) -> (r: Result<(), Error>)
    requires
        tx@.wf(),
        !owner_present(tx@, script@.args) ==> inputs_capacity(tx@, script@) <= u64::MAX,
        !owner_present(tx@, script@.args) ==> outputs_capacity(tx@, script@)
            + unwrapped_capacity(tx@, script@.args) <= u64::MAX,
    ensures
        r == spec_verify_balance(tx@, script@),
{
    if owner_among_inputs(tx, script.args.as_slice()) {
        return Ok(());
    }
    proof {
        lemma_sum_nonneg(tx@.outputs, own_lock_pred(script@));
        lemma_sum_nonneg(tx@.outputs, owner_lock_pred(script@.args));
    }
    let in_cap = sum_group_inputs(tx, script);
    let out_cap = sum_outputs_by_lock(tx, script);
    let owner_cap = sum_outputs_to_owner(tx, script.args.as_slice());
    if out_cap + owner_cap >= in_cap {
        Ok(())
    } else {
        Err(Error::BalanceError)
    }
}

// ---------------------------------------------------------------------------
// Laws of the balance protocol.
// ---------------------------------------------------------------------------

/// With the owner among the inputs, any redistribution of capacity is
/// accepted.
pub proof fn lemma_owner_participation(tx: TxModel, s: ScriptModel)
    requires
        owner_present(tx, s.args),
    ensures
        spec_verify_balance(tx, s) == Ok::<(), Error>(()),
{
}

/// Without the owner, acceptance is exactly conservation: what returns to
/// the component or to the owner covers what was consumed; anything less
/// is a balance rejection. Capacity under any other lock counts for
/// nothing.
pub proof fn lemma_conservation_without_owner(tx: TxModel, s: ScriptModel)
    requires
        !owner_present(tx, s.args),
    ensures
        spec_verify_balance(tx, s) == Ok::<(), Error>(()) <==> outputs_capacity(tx, s)
            + unwrapped_capacity(tx, s.args) >= inputs_capacity(tx, s),
        outputs_capacity(tx, s) + unwrapped_capacity(tx, s.args) < inputs_capacity(tx, s)
            ==> spec_verify_balance(tx, s) == Err::<(), Error>(Error::BalanceError),
{
}

/// Re-validating the same transaction gives the same outcome: the verdict
/// is a function of the snapshot and the invoking reference alone.
pub proof fn lemma_balance_revalidation(
    tx: TxModel,
    s: ScriptModel,
    r1: Result<(), Error>,
    r2: Result<(), Error>,
)
    requires
        r1 == spec_verify_balance(tx, s),
        r2 == spec_verify_balance(tx, s),
    ensures
        r1 == r2,
{
}

} // verus!

use vstd::prelude::*;

use crate::record::{Script, ScriptModel};
use crate::wire::bytes_eq;

verus! {

// ---------------------------------------------------------------------------
// The read-only transaction snapshot that a verifier invocation sees, and
// the arithmetic of counting, locating and summing cells inside it.
// ---------------------------------------------------------------------------

/// An immutable ledger entry: a value quantity, an opaque data payload, a
/// mandatory lock verifier reference, and an optional type verifier
/// reference.
pub struct Cell {
    pub capacity: u64,
    pub data: Vec<u8>,
    pub lock: Script,
    pub type_ref: Option<Script>,
}

/// Mathematical image of a [`Cell`].
#[verifier::ext_equal]
pub ghost struct CellModel {
    pub capacity: u64,
    pub data: Seq<u8>,
    pub lock: ScriptModel,
    pub type_ref: Option<ScriptModel>,
}

pub open spec fn script_opt_view(t: Option<Script>) -> Option<ScriptModel> {
    match t {
        Some(s) => Some(s@),
        None => None,
    }
}

impl View for Cell {
    type V = CellModel;

    open spec fn view(&self) -> CellModel {
        CellModel {
            capacity: self.capacity,
            data: self.data@,
            lock: self.lock@,
            type_ref: script_opt_view(self.type_ref),
        }
    }
}

impl CellModel {
    pub open spec fn wf(self) -> bool {
        &&& self.lock.wf()
        &&& match self.type_ref {
            Some(t) => t.wf(),
            None => true,
        }
    }
}

/// A consumed cell together with the host's serialized reference to it
/// (the bytes that identify which previous output is being spent).
pub struct InputCell {
    pub reference: Vec<u8>,
    pub cell: Cell,
}

/// Mathematical image of an [`InputCell`].
#[verifier::ext_equal]
pub ghost struct InputModel {
    pub reference: Seq<u8>,
    pub cell: CellModel,
}

impl View for InputCell {
    type V = InputModel;

    open spec fn view(&self) -> InputModel {
        InputModel { reference: self.reference@, cell: self.cell@ }
    }
}

/// The transaction snapshot: consumed cells, produced cells, and the
/// read-only dependency cells, each list in its declared order.
pub struct Transaction {
    pub inputs: Vec<InputCell>,
    pub outputs: Vec<Cell>,
    pub deps: Vec<Cell>,
}

/// Mathematical image of a [`Transaction`].
#[verifier::ext_equal]
pub ghost struct TxModel {
    pub inputs: Seq<InputModel>,
    pub outputs: Seq<CellModel>,
    pub deps: Seq<CellModel>,
}

impl View for Transaction {
    type V = TxModel;

    open spec fn view(&self) -> TxModel {
        TxModel {
            inputs: Seq::new(self.inputs@.len(), |i: int| self.inputs@[i]@),
            outputs: Seq::new(self.outputs@.len(), |i: int| self.outputs@[i]@),
            deps: Seq::new(self.deps@.len(), |i: int| self.deps@[i]@),
        }
    }
}

impl TxModel {
    /// Every verifier reference in the snapshot is constructible; the host
    /// only hands over references it could serialize.
    pub open spec fn wf(self) -> bool {
        &&& forall|i: int| 0 <= i < self.inputs.len() ==> (#[trigger] self.inputs[i]).cell.wf()
        &&& forall|i: int| 0 <= i < self.outputs.len() ==> (#[trigger] self.outputs[i]).wf()
        &&& forall|i: int| 0 <= i < self.deps.len() ==> (#[trigger] self.deps[i]).wf()
    }

    /// The cells consumed, without their references.
    pub open spec fn input_cells(self) -> Seq<CellModel> {
        Seq::new(self.inputs.len(), |i: int| self.inputs[i].cell)
    }
}

// ---------------------------------------------------------------------------
// Counting, locating and summing cells by a predicate.
// ---------------------------------------------------------------------------

/// How many cells satisfy `p`.
pub open spec fn count_matching(cells: Seq<CellModel>, p: spec_fn(CellModel) -> bool) -> int
    decreases cells.len(),
{
    if cells.len() == 0 {
        0
    } else {
        (if p(cells[0]) {
            1int
        } else {
            0int
        }) + count_matching(cells.drop_first(), p)
    }
}

/// Index of the first cell satisfying `p` (meaningful when one exists).
pub open spec fn first_matching(cells: Seq<CellModel>, p: spec_fn(CellModel) -> bool) -> int
    decreases cells.len(),
{
    if cells.len() == 0 {
        0
    } else if p(cells[0]) {
        0
    } else {
        1 + first_matching(cells.drop_first(), p)
    }
}

/// Total capacity of the cells satisfying `p`.
pub open spec fn sum_matching(cells: Seq<CellModel>, p: spec_fn(CellModel) -> bool) -> int
    decreases cells.len(),
{
    if cells.len() == 0 {
        0
    } else {
        (if p(cells[0]) {
            cells[0].capacity as int
        } else {
            0int
        }) + sum_matching(cells.drop_first(), p)
    }
}

pub proof fn lemma_count_bounds(cells: Seq<CellModel>, p: spec_fn(CellModel) -> bool)
    ensures
        0 <= count_matching(cells, p) <= cells.len(),
    decreases cells.len(),
{
    if cells.len() > 0 {
        lemma_count_bounds(cells.drop_first(), p);
    }
}

pub proof fn lemma_sum_nonneg(cells: Seq<CellModel>, p: spec_fn(CellModel) -> bool)
    ensures
        sum_matching(cells, p) >= 0,
    decreases cells.len(),
{
    if cells.len() > 0 {
        lemma_sum_nonneg(cells.drop_first(), p);
    }
}

/// Appending one cell extends a count by that cell's contribution.
pub proof fn lemma_count_snoc(cells: Seq<CellModel>, p: spec_fn(CellModel) -> bool, c: CellModel)
    ensures
        count_matching(cells.push(c), p) == count_matching(cells, p) + (if p(c) {
            1int
        } else {
            0int
        }),
    decreases cells.len(),
{
    if cells.len() == 0 {
        assert(cells.push(c)[0] == c);
        assert(cells.push(c).drop_first() =~= Seq::<CellModel>::empty());
        assert(count_matching(Seq::<CellModel>::empty(), p) == 0);
        assert(count_matching(cells, p) == 0);
    } else {
        lemma_count_snoc(cells.drop_first(), p, c);
        assert(cells.push(c).drop_first() =~= cells.drop_first().push(c));
        assert(cells.push(c)[0] == cells[0]);
        assert(count_matching(cells, p) == (if p(cells[0]) {
            1int
        } else {
            0int
        }) + count_matching(cells.drop_first(), p));
    }
}

/// Appending one cell extends a sum by that cell's contribution.
pub proof fn lemma_sum_snoc(cells: Seq<CellModel>, p: spec_fn(CellModel) -> bool, c: CellModel)
    ensures
        sum_matching(cells.push(c), p) == sum_matching(cells, p) + (if p(c) {
            c.capacity as int
        } else {
            0int
        }),
    decreases cells.len(),
{
    if cells.len() == 0 {
        assert(cells.push(c)[0] == c);
        assert(cells.push(c).drop_first() =~= Seq::<CellModel>::empty());
        assert(sum_matching(Seq::<CellModel>::empty(), p) == 0);
        assert(sum_matching(cells, p) == 0);
    } else {
        lemma_sum_snoc(cells.drop_first(), p, c);
        assert(cells.push(c).drop_first() =~= cells.drop_first().push(c));
        assert(cells.push(c)[0] == cells[0]);
        assert(sum_matching(cells, p) == (if p(cells[0]) {
            cells[0].capacity as int
        } else {
            0int
        }) + sum_matching(cells.drop_first(), p));
    }
}

/// A count is zero exactly when no cell satisfies the predicate.
pub proof fn lemma_count_zero(cells: Seq<CellModel>, p: spec_fn(CellModel) -> bool)
    ensures
        count_matching(cells, p) == 0 <==> (forall|i: int| 0 <= i < cells.len() ==> !p(cells[i])),
    decreases cells.len(),
{
    lemma_count_bounds(cells, p);
    if cells.len() > 0 {
        lemma_count_zero(cells.drop_first(), p);
        lemma_count_bounds(cells.drop_first(), p);
        assert(count_matching(cells, p) == (if p(cells[0]) {
            1int
        } else {
            0int
        }) + count_matching(cells.drop_first(), p));
        assert(forall|i: int|
            1 <= i < cells.len() ==> cells[i] == #[trigger] cells.drop_first()[i - 1]);
        if count_matching(cells, p) == 0 {
            assert(!p(cells[0]));
            assert forall|i: int| 0 <= i < cells.len() implies !p(cells[i]) by {
                if i >= 1 {
                    assert(!p(cells.drop_first()[i - 1]));
                }
            }
        } else {
            if p(cells[0]) {
            } else {
                assert(count_matching(cells.drop_first(), p) != 0);
            }
        }
    }
}

/// A found index with no earlier witness is the first index.
pub proof fn lemma_first_matching_of_witness(
    cells: Seq<CellModel>,
    p: spec_fn(CellModel) -> bool,
    k: int,
)
    requires
        0 <= k < cells.len(),
        p(cells[k]),
        forall|j: int| 0 <= j < k ==> !p(cells[j]),
    ensures
        first_matching(cells, p) == k,
    decreases k,
{
    if k > 0 {
        lemma_first_matching_of_witness(cells.drop_first(), p, k - 1);
        assert(forall|i: int|
            1 <= i < cells.len() ==> cells[i] == #[trigger] cells.drop_first()[i - 1]);
    }
}

/// Growing the counted prefix never shrinks a sum.
pub proof fn lemma_sum_take_le(
    cells: Seq<CellModel>,
    p: spec_fn(CellModel) -> bool,
    i: int,
    j: int,
)
    requires
        0 <= i <= j <= cells.len(),
    ensures
        sum_matching(cells.take(i), p) <= sum_matching(cells.take(j), p),
    decreases j - i,
{
    if i < j {
        lemma_sum_take_le(cells, p, i, j - 1);
        lemma_sum_snoc(cells.take(j - 1), p, cells[j - 1]);
        assert(cells.take(j) =~= cells.take(j - 1).push(cells[j - 1]));
    }
}

// ---------------------------------------------------------------------------
// Executable comparisons.
// ---------------------------------------------------------------------------

/// Structural equality of two verifier references, all fields compared
/// byte for byte.
pub fn script_eq(a: &Script, b: &Script) -> (r: bool)
    ensures
        r <==> a@ == b@,
{
    if !bytes_eq(a.code_hash.as_slice(), b.code_hash.as_slice()) {
        return false;
    }
    if a.hash_type != b.hash_type {
        return false;
    }
    if !bytes_eq(a.args.as_slice(), b.args.as_slice()) {
        return false;
    }
    if a.extra.len() != b.extra.len() {
        proof {
            assert(a@.extra.len() != b@.extra.len());
        }
        return false;
    }
    let mut i: usize = 0;
    while i < a.extra.len()
        invariant
            i <= a.extra@.len(),
            a.extra@.len() == b.extra@.len(),
            a@.code_hash == b@.code_hash,
            a@.hash_type == b@.hash_type,
            a@.args == b@.args,
            forall|j: int| 0 <= j < i ==> #[trigger] a.extra@[j]@ == b.extra@[j]@,
        decreases a.extra@.len() - i,
    {
        if !bytes_eq(a.extra[i].as_slice(), b.extra[i].as_slice()) {
            proof {
                assert(a@.extra[i as int] == a.extra@[i as int].deep_view());
                assert(a.extra@[i as int].deep_view() =~= a.extra@[i as int]@);
                assert(b@.extra[i as int] == b.extra@[i as int].deep_view());
                assert(b.extra@[i as int].deep_view() =~= b.extra@[i as int]@);
                assert(a@.extra[i as int] != b@.extra[i as int]);
            }
            return false;
        }
        i = i + 1;
    }
    proof {
        assert forall|j: int| 0 <= j < a@.extra.len() implies #[trigger] a@.extra[j]
            == b@.extra[j] by {
            assert(a.extra@[j].deep_view() =~= a.extra@[j]@);
            assert(b.extra@[j].deep_view() =~= b.extra@[j]@);
        }
        assert(a@.extra =~~= b@.extra);
        assert(a@ =~~= b@);
    }
    true
}

/// Whether an optional type reference is exactly the given reference.
pub fn type_ref_is(t: &Option<Script>, s: &Script) -> (r: bool)
    ensures
        r <==> script_opt_view(*t) == Some(s@),
{
    match t {
        Some(x) => script_eq(x, s),
        None => false,
    }
}

} // verus!
